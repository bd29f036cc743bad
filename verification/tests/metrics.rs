use miasma_core::descriptor::{PeerCapabilities, PeerDescriptor, ReachabilityKind, ResourceProfile};
use miasma_core::metrics::{extract_ipv4_prefix_16, outcome_counts};

#[test]
fn extract_prefix_from_multiaddr() {
    assert_eq!(extract_ipv4_prefix_16("/ip4/10.0.1.5/tcp/4001"), Some("10.0".to_string()));
    assert_eq!(extract_ipv4_prefix_16("/ip4/192.168.0.1/udp/9000"), Some("192.168".to_string()));
    assert_eq!(extract_ipv4_prefix_16("/ip6/::1/tcp/4001"), None);
}

#[test]
fn prefix_needs_two_octets() {
    assert_eq!(extract_ipv4_prefix_16("/ip4/10"), None);
    assert_eq!(extract_ipv4_prefix_16("/ip4/1.2"), Some("1.2".to_string()));
    assert_eq!(extract_ipv4_prefix_16(""), None);
}

fn metrics_descriptor(id: u8, relay: bool, reach: ReachabilityKind, addrs: &[&str]) -> PeerDescriptor {
    PeerDescriptor::new_signed(
        [id; 32],
        reach,
        addrs.iter().map(|a| a.to_string()).collect(),
        PeerCapabilities { can_relay: relay, ..PeerCapabilities::default() },
        ResourceProfile::Desktop,
        None,
        1,
        &[0x42u8; 32],
    )
}

#[test]
fn outcome_counts_of_descriptors() {
    let a = metrics_descriptor(1, true, ReachabilityKind::Direct, &["/ip4/10.0.1.1/tcp/1", "/ip4/10.0.2.2/tcp/1"]);
    let b = metrics_descriptor(2, true, ReachabilityKind::Direct, &["/ip4/10.1.1.1/tcp/1", "/dns4/x.org/tcp/1"]);
    let c = metrics_descriptor(
        3,
        false,
        ReachabilityKind::Relayed { relay_peer: "p".to_string(), relay_addr: "/ip4/9.9.9.9/tcp/1".to_string() },
        &["/ip4/172.16.0.1/tcp/1"],
    );
    let counts = outcome_counts(&vec![&a, &b, &c]);
    assert_eq!(counts.total_descriptors, 3);
    assert_eq!(counts.relay_count, 2);
    assert_eq!(counts.relay_prefix_diversity, 2);
    assert_eq!(counts.pseudonymous_count, 1);
    assert_eq!(counts.credentialed_count, 0);
    assert_eq!(counts.bbs_credentialed_count, 0);
    assert_eq!(outcome_counts(&vec![]).relay_prefix_diversity, 0);
}
