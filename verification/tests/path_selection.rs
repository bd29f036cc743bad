use miasma_core::credential::CredentialPresentation;
use miasma_core::descriptor::{PeerCapabilities, PeerDescriptor, ReachabilityKind, ResourceProfile};
use miasma_core::descriptor_store::DescriptorStore;
use miasma_core::path_selection::{AnonymityPolicy, PathConstraints, PathError, PathSelector};
use miasma_core::routing::RoutingTable;

fn make_relay_descriptor(
    pseudonym: [u8; 32],
    addr: &str,
    credential: Option<CredentialPresentation>,
) -> PeerDescriptor {
    PeerDescriptor::new_signed(
        pseudonym,
        ReachabilityKind::Direct,
        vec![addr.to_string()],
        PeerCapabilities { can_relay: true, ..PeerCapabilities::default() },
        ResourceProfile::Desktop,
        credential,
        1,
        &[0x42u8; 32],
    )
}

fn store_with_relays(count: usize) -> DescriptorStore {
    let mut store = DescriptorStore::new();
    for i in 0..count {
        let mut ps = [0u8; 32];
        ps[0] = i as u8;
        let addr = format!("/ip4/{}.{}.1.1/tcp/4001", i + 1, i + 1);
        store.upsert(make_relay_descriptor(ps, &addr, None));
    }
    store
}

#[test]
fn direct_policy_produces_zero_hops() {
    let store = store_with_relays(5);
    let rt = RoutingTable::new(true);
    let dest = [0xFF; 32];
    let path = PathSelector::select(dest, AnonymityPolicy::Direct, &store, &rt).unwrap();
    assert!(path.is_direct());
    assert_eq!(path.destination, dest);
}

#[test]
fn opportunistic_uses_relays_if_available() {
    let store = store_with_relays(3);
    let rt = RoutingTable::new(true);
    let path =
        PathSelector::select([0xFF; 32], AnonymityPolicy::Opportunistic, &store, &rt).unwrap();
    assert!(path.hop_count() >= 1);
}

#[test]
fn opportunistic_falls_back_to_direct() {
    let store = DescriptorStore::new();
    let rt = RoutingTable::new(true);
    let path =
        PathSelector::select([0xFF; 32], AnonymityPolicy::Opportunistic, &store, &rt).unwrap();
    assert!(path.is_direct());
}

#[test]
fn required_fails_without_enough_relays() {
    let store = DescriptorStore::new();
    let rt = RoutingTable::new(true);
    let result =
        PathSelector::select([0xFF; 32], AnonymityPolicy::Required { min_hops: 2 }, &store, &rt);
    assert!(result.is_err());
    assert!(matches!(result.unwrap_err(), PathError::NoRelaysAvailable));
}

#[test]
fn required_needs_min_hops() {
    let store = store_with_relays(1);
    let rt = RoutingTable::new(true);
    let result =
        PathSelector::select([0xFF; 32], AnonymityPolicy::Required { min_hops: 2 }, &store, &rt);
    assert!(result.is_err());
    assert!(matches!(result.unwrap_err(), PathError::InsufficientRelays { .. }));
}

#[test]
fn required_succeeds_with_enough_relays() {
    let store = store_with_relays(3);
    let rt = RoutingTable::new(true);
    let path =
        PathSelector::select([0xFF; 32], AnonymityPolicy::Required { min_hops: 2 }, &store, &rt)
            .unwrap();
    assert!(path.hop_count() >= 2);
}

#[test]
fn path_enforces_hop_diversity() {
    let mut store = DescriptorStore::new();
    for i in 0..3u8 {
        let mut ps = [0u8; 32];
        ps[0] = i;
        store.upsert(PeerDescriptor::new_signed(
            ps,
            ReachabilityKind::Direct,
            vec![format!("/ip4/10.0.{i}.1/tcp/4001")],
            PeerCapabilities { can_relay: true, ..PeerCapabilities::default() },
            ResourceProfile::Desktop,
            None,
            1,
            &[0x42u8; 32],
        ));
    }
    let rt = RoutingTable::new(true);
    let result =
        PathSelector::select([0xFF; 32], AnonymityPolicy::Required { min_hops: 2 }, &store, &rt);
    assert!(result.is_err(), "should fail: all relays from same /16");
}

#[test]
fn path_skips_destination_as_relay() {
    let store = store_with_relays(3);
    let rt = RoutingTable::new(true);
    let dest = [0u8; 32];
    let path =
        PathSelector::select(dest, AnonymityPolicy::Required { min_hops: 1 }, &store, &rt).unwrap();
    for hop in &path.hops {
        assert_ne!(hop.pseudonym, dest);
    }
}

#[test]
fn path_prefixes_collected() {
    let store = store_with_relays(3);
    let rt = RoutingTable::new(true);
    let path =
        PathSelector::select([0xFF; 32], AnonymityPolicy::Required { min_hops: 2 }, &store, &rt)
            .unwrap();
    let prefixes = path.prefixes();
    assert!(prefixes.len() >= 2);
    for i in 0..prefixes.len() {
        for j in (i + 1)..prefixes.len() {
            assert_ne!(prefixes[i], prefixes[j]);
        }
    }
}

#[test]
fn policy_names_and_constraints() {
    assert_eq!(AnonymityPolicy::Direct.to_string(), "direct");
    assert_eq!(AnonymityPolicy::Required { min_hops: 2 }.to_string(), "required(2 hops)");
    let c = PathConstraints::for_required(2);
    assert_eq!(c.min_hops, 2);
    assert!(c.max_hops >= 2);
    let o = PathConstraints::for_opportunistic();
    assert_eq!(o.min_hops, 0);
}

#[test]
fn path_error_messages() {
    assert_eq!(
        PathError::InsufficientRelays { required: 2, available: 1 }.to_string(),
        "need 2 relays, only 1 available"
    );
    assert_eq!(
        PathError::InsufficientDiversity { required: 3, diverse_count: 1 }.to_string(),
        "need 3 diverse relays, only 1 unique prefixes"
    );
    assert_eq!(PathError::NoRelaysAvailable.to_string(), "no relay descriptors available");
}

#[test]
fn opportunistic_path_carries_its_policy() {
    let store = store_with_relays(3);
    let rt = RoutingTable::new(true);
    let path =
        PathSelector::select([0xFF; 32], AnonymityPolicy::Opportunistic, &store, &rt).unwrap();
    assert!(path.hop_count() >= 1);
    assert_eq!(path.policy, AnonymityPolicy::Opportunistic);
    let req = PathSelector::select([0xFF; 32], AnonymityPolicy::Required { min_hops: 2 }, &store, &rt).unwrap();
    assert_eq!(req.policy, AnonymityPolicy::Required { min_hops: 2 });
}
