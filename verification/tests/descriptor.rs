use miasma_core::credential::{CredentialIssuer, CredentialPresentation, CredentialTier, EphemeralIdentity};
use miasma_core::descriptor::{PeerCapabilities, PeerDescriptor, ReachabilityKind, ResourceProfile};
use miasma_core::descriptor_store::DescriptorStore;

fn public_of(secret: [u8; 32]) -> [u8; 32] {
    ed25519_dalek::SigningKey::from_bytes(&secret).verifying_key().to_bytes()
}

fn test_descriptor(pseudonym: [u8; 32], version: u64) -> PeerDescriptor {
    PeerDescriptor::new_signed(
        pseudonym,
        ReachabilityKind::Direct,
        vec!["/ip4/8.8.8.8/tcp/4001".to_string()],
        PeerCapabilities::default(),
        ResourceProfile::Desktop,
        None,
        version,
        &[0x42u8; 32],
    )
}

#[test]
fn descriptor_signature_valid() {
    let desc = test_descriptor([0x01; 32], 1);
    assert!(desc.verify_signature(&public_of([0x42u8; 32])));
    assert!(desc.verify_self());
}

#[test]
fn descriptor_signature_rejects_tampered() {
    let mut desc = test_descriptor([0x01; 32], 1);
    desc.addresses.push("/ip4/1.2.3.4/tcp/9999".to_string());
    assert!(!desc.verify_signature(&public_of([0x42u8; 32])));
    assert!(!desc.verify_self());
}

#[test]
fn descriptor_verify_self_rejects_wrong_pubkey() {
    let mut desc = test_descriptor([0x01; 32], 1);
    desc.signing_pubkey = public_of([0x99u8; 32]);
    assert!(!desc.verify_self());
}

#[test]
fn store_upsert_newer_version_wins() {
    let mut store = DescriptorStore::new();
    let ps = [0x01; 32];
    let d1 = test_descriptor(ps, 1);
    let d2 = test_descriptor(ps, 2);
    let d3 = test_descriptor(ps, 1);
    assert!(store.upsert(d1));
    assert!(store.upsert(d2));
    assert!(!store.upsert(d3));
    assert_eq!(store.get(&ps).unwrap().version, 2);
}

#[test]
fn store_relay_query() {
    let mut store = DescriptorStore::new();
    let relay_desc = PeerDescriptor::new_signed(
        [0x01; 32],
        ReachabilityKind::Direct,
        vec!["/ip4/1.2.3.4/tcp/4001".to_string()],
        PeerCapabilities { can_relay: true, ..PeerCapabilities::default() },
        ResourceProfile::Desktop,
        None,
        1,
        &[0x42u8; 32],
    );
    let normal_desc = test_descriptor([0x02; 32], 1);
    store.upsert(relay_desc);
    store.upsert(normal_desc);
    assert_eq!(store.relay_descriptors().len(), 1);
    assert_eq!(store.len(), 2);
}

#[test]
fn store_peer_pseudonym_lookup() {
    let mut store = DescriptorStore::new();
    let peer = "12D3KooWPeerA";
    let ps = [0x01; 32];
    store.upsert(test_descriptor(ps, 1));
    store.register_peer_pseudonym(peer, ps);
    assert!(store.get_by_peer(peer).is_some());
    assert_eq!(store.get_by_peer(peer).unwrap().pseudonym, ps);
}

#[test]
fn descriptor_reachability_kinds() {
    let desc = test_descriptor([0x01; 32], 1);
    assert!(!desc.is_relayed());
    let relayed = PeerDescriptor::new_signed(
        [0x02; 32],
        ReachabilityKind::Relayed {
            relay_peer: "12D3KooW...".to_string(),
            relay_addr: "/ip4/1.2.3.4/tcp/4001".to_string(),
        },
        vec![],
        PeerCapabilities::default(),
        ResourceProfile::Mobile,
        None,
        1,
        &[0x42u8; 32],
    );
    assert!(relayed.is_relayed());
    assert_eq!(relayed.resource_profile, ResourceProfile::Mobile);
}

#[test]
fn signing_key_public_half_is_recorded() {
    let desc = test_descriptor([0x05; 32], 3);
    assert_eq!(desc.signing_pubkey, public_of([0x42u8; 32]));
    assert_eq!(desc.signature.len(), 64);
}

#[test]
fn fixed_time_descriptor_age() {
    let desc = PeerDescriptor::new_signed_full_at(
        [0x07; 32],
        ReachabilityKind::Direct,
        vec![],
        PeerCapabilities::default(),
        ResourceProfile::Desktop,
        None,
        None,
        None,
        1,
        &[0x42u8; 32],
        1_000,
    );
    assert_eq!(desc.published_at, 1_000);
    assert_eq!(desc.age_secs_at(1_500), 500);
    assert_eq!(desc.age_secs_at(10), 0);
    assert!(desc.verify_self());
}

#[test]
fn descriptor_stats() {
    let mut store = DescriptorStore::new();
    store.upsert(test_descriptor([0x01; 32], 1));
    store.upsert(PeerDescriptor::new_signed(
        [0x02; 32],
        ReachabilityKind::Direct,
        vec![],
        PeerCapabilities { can_relay: true, ..PeerCapabilities::default() },
        ResourceProfile::Desktop,
        None,
        1,
        &[0x42u8; 32],
    ));
    let now = std::time::SystemTime::now()
        .duration_since(std::time::UNIX_EPOCH)
        .unwrap()
        .as_secs();
    let stats = store.stats_counts_at(now);
    assert_eq!(stats.total_descriptors, 2);
    assert_eq!(stats.relay_descriptors, 1);
    assert_eq!(stats.stale_descriptors, 0);
    assert_eq!(stats.relay_claimed, 1);
    let later = store.stats_counts_at(now + 100_000);
    assert_eq!(later.stale_descriptors, 2);
}

#[test]
fn relay_onion_info_lists_keyed_relays() {
    let peer = "QmYyQSo1c1Ym7orWxLYvCrM2EmxFTANf8wXmmE7DWjhx5N";
    let mut store = DescriptorStore::new();
    let relay = PeerDescriptor::new_signed_full(
        [0x09; 32],
        ReachabilityKind::Direct,
        vec!["/ip4/5.6.7.8/tcp/1".to_string()],
        PeerCapabilities { can_relay: true, ..PeerCapabilities::default() },
        ResourceProfile::Desktop,
        None,
        None,
        Some([0x33; 32]),
        1,
        &[0x42u8; 32],
    );
    let keyless = PeerDescriptor::new_signed(
        [0x0A; 32],
        ReachabilityKind::Direct,
        vec![],
        PeerCapabilities { can_relay: true, ..PeerCapabilities::default() },
        ResourceProfile::Desktop,
        None,
        1,
        &[0x42u8; 32],
    );
    store.upsert(relay);
    store.upsert(keyless);
    store.register_peer_pseudonym(peer, [0x09; 32]);
    store.register_peer_pseudonym("also-a-relay", [0x0A; 32]);
    let infos = store.relay_onion_info();
    assert_eq!(infos.len(), 1);
    let expected: multiaddr::PeerId = peer.parse().unwrap();
    assert_eq!(infos[0].peer_id, expected.to_bytes());
    assert_eq!(infos[0].onion_pubkey, [0x33; 32]);
    assert_eq!(infos[0].addr, b"/ip4/5.6.7.8/tcp/1".to_vec());
}

fn descriptor_with_credential(forged: bool) -> PeerDescriptor {
    let issuer = CredentialIssuer::new([0x42u8; 32]);
    let identity = EphemeralIdentity::from_secret([7u8; 32], 50);
    let mut cred = issuer.issue(CredentialTier::Endorsed, 50, 0x07, identity.holder_tag());
    if forged {
        cred.issuer_signature = vec![0u8; 64];
    }
    let presentation = CredentialPresentation::create(&cred, &identity, b"ctx");
    PeerDescriptor::new_signed(
        identity.holder_tag(),
        ReachabilityKind::Direct,
        vec!["/ip4/8.8.8.8/tcp/4001".to_string()],
        PeerCapabilities::default(),
        ResourceProfile::Desktop,
        Some(presentation),
        1,
        &[0x42u8; 32],
    )
}

#[test]
fn meets_tier_requires_valid_credential() {
    let good = descriptor_with_credential(false);
    assert!(good.meets_tier(CredentialTier::Observed));
    assert!(good.meets_tier(CredentialTier::Endorsed));
    let forged = descriptor_with_credential(true);
    assert!(!forged.meets_tier(CredentialTier::Observed));
    assert!(!test_descriptor([0x01; 32], 1).meets_tier(CredentialTier::Observed));
}
