use miasma_core::address::AddressTrust;
use miasma_core::peer_state::{PeerRegistry, RejectionReason};
use miasma_core::sybil::mine_pow;

#[test]
fn new_peer_starts_as_claimed() {
    let mut reg = PeerRegistry::new();
    let peer = "peer-a";
    reg.on_connected(peer);
    assert_eq!(reg.trust_of(peer), Some(AddressTrust::Claimed));
    assert!(!reg.is_verified(peer));
}

#[test]
fn identify_promotes_to_observed() {
    let mut reg = PeerRegistry::new();
    let peer = "peer-a";
    reg.on_connected(peer);
    reg.on_identify(peer);
    assert_eq!(reg.trust_of(peer), Some(AddressTrust::Observed));
}

#[test]
fn admission_promotes_to_verified() {
    let mut reg = PeerRegistry::new();
    let peer = "peer-a";
    let pow = mine_pow([0xAB; 32], 8).unwrap();
    reg.on_connected(peer);
    reg.on_identify(peer);
    reg.on_admission_verified(peer, pow);
    assert_eq!(reg.trust_of(peer), Some(AddressTrust::Verified));
    assert!(reg.is_verified(peer));
}

#[test]
fn disconnect_removes_peer() {
    let mut reg = PeerRegistry::new();
    let peer = "peer-a";
    reg.on_connected(peer);
    reg.on_disconnected(peer);
    assert_eq!(reg.trust_of(peer), None);
}

#[test]
fn stats_counts_tiers() {
    let mut reg = PeerRegistry::new();
    let pow = mine_pow([0xAB; 32], 8).unwrap();
    reg.on_connected("p1");
    reg.on_connected("p2");
    reg.on_connected("p3");
    reg.on_identify("p2");
    reg.on_identify("p3");
    reg.on_admission_verified("p3", pow);
    let stats = reg.stats();
    assert_eq!(stats.claimed_peers, 1);
    assert_eq!(stats.observed_peers, 1);
    assert_eq!(stats.verified_peers, 1);
}

#[test]
fn verified_peers_list() {
    let mut reg = PeerRegistry::new();
    let pow = mine_pow([0xAB; 32], 8).unwrap();
    reg.on_connected("p1");
    reg.on_connected("p2");
    reg.on_identify("p1");
    reg.on_admission_verified("p1", pow);
    let verified = reg.verified_peers();
    assert_eq!(verified.len(), 1);
    assert_eq!(verified[0], "p1");
}

#[test]
fn rejection_counter() {
    let mut reg = PeerRegistry::new();
    reg.record_rejection();
    reg.record_rejection();
    assert_eq!(reg.stats().total_rejections, 2);
}

#[test]
fn identify_does_not_demote_verified_and_reconnect_keeps_state() {
    let mut reg = PeerRegistry::new();
    let pow = mine_pow([0x01; 32], 4).unwrap();
    reg.on_connected_at("p", 10);
    reg.on_admission_verified("p", pow);
    reg.on_identify("p");
    reg.on_connected_at("p", 99);
    assert_eq!(reg.trust_of("p"), Some(AddressTrust::Verified));
    let snap = reg.snapshot();
    assert_eq!(snap, vec![("p".to_string(), AddressTrust::Verified)]);
    reg.on_identify("unknown");
    assert_eq!(reg.trust_of("unknown"), None);
}

#[test]
fn rejection_reason_text() {
    assert_eq!(RejectionReason::NoPoW.to_string(), "no PoW proof");
    assert_eq!(
        RejectionReason::PubkeyMismatch.to_string(),
        "PoW pubkey does not match peer identity"
    );
}
