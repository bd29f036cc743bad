use miasma_core::descriptor::RelayTrustTier;
use miasma_core::descriptor_store::ResolvedIntroPoint;
use miasma_core::error::MiasmaError;
use miasma_core::onion_relay::RelayInfo;
use miasma_core::relay_plan::{
    intro_relay, needs_more_shards, next_relay_path, pick_first_relay, plan_shard_hops, shard_collection_outcome,
    RelayPath,
};

const PEER: &str = "QmYyQSo1c1Ym7orWxLYvCrM2EmxFTANf8wXmmE7DWjhx5N";

fn relay(id: u8) -> RelayInfo {
    RelayInfo { peer_id: vec![id; 4], onion_pubkey: [id; 32], addr: vec![id] }
}

fn intro(onion: Option<[u8; 32]>, addrs: Vec<&str>) -> ResolvedIntroPoint {
    ResolvedIntroPoint {
        pseudonym: [1; 32],
        peer_id: PEER.to_string(),
        addresses: addrs.into_iter().map(|a| a.to_string()).collect(),
        relay_tier: RelayTrustTier::Claimed,
        onion_pubkey: onion,
    }
}

#[test]
fn relay_paths_strongest_first() {
    assert_eq!(next_relay_path(None, 1, 2, true, 1).unwrap(), RelayPath::OnionRendezvous);
    assert_eq!(next_relay_path(Some(RelayPath::OnionRendezvous), 1, 2, true, 1).unwrap(), RelayPath::Onion);
    assert_eq!(next_relay_path(Some(RelayPath::Onion), 1, 2, true, 1).unwrap(), RelayPath::RendezvousRelay);
    assert_eq!(next_relay_path(Some(RelayPath::Onion), 1, 2, false, 1).unwrap(), RelayPath::RelayCircuit);
    assert_eq!(next_relay_path(None, 1, 1, false, 3).unwrap(), RelayPath::RelayCircuit);
    assert!(matches!(next_relay_path(Some(RelayPath::RelayCircuit), 1, 2, true, 1), Err(MiasmaError::Network(_))));
}

#[test]
fn relay_paths_respect_min_hops() {
    assert_eq!(next_relay_path(None, 2, 2, false, 9).unwrap(), RelayPath::Onion);
    assert!(matches!(next_relay_path(Some(RelayPath::Onion), 2, 2, true, 9), Err(MiasmaError::Network(_))));
    assert!(matches!(next_relay_path(None, 3, 9, true, 9), Err(MiasmaError::Network(_))));
    assert!(matches!(next_relay_path(None, 0, 0, false, 0), Err(MiasmaError::Network(_))));
    assert_eq!(next_relay_path(None, 1, 0, false, 1).unwrap().hops(), 1);
}

#[test]
fn first_relay_differs_from_second() {
    let relays = vec![relay(1), relay(1), relay(2)];
    assert_eq!(pick_first_relay(&relays, &vec![1; 4]), Some(2));
    assert_eq!(pick_first_relay(&relays, &vec![2; 4]), Some(0));
    assert_eq!(pick_first_relay(&vec![relay(3)], &vec![3; 4]), None);
}

#[test]
fn shard_hops_never_repeat_a_relay() {
    let relays = vec![relay(1), relay(2)];
    let (i, r2) = plan_shard_hops(&relays, None, false).unwrap();
    assert_eq!(i, 0);
    assert_eq!(r2.peer_id, vec![2; 4]);
    assert!(plan_shard_hops(&vec![relay(1)], None, false).is_none());
    assert!(plan_shard_hops(&relays, None, true).is_none());
    let (i, r2) = plan_shard_hops(&relays, Some(relay(1)), true).unwrap();
    assert_eq!(i, 1);
    assert_eq!(r2.peer_id, vec![1; 4]);
    assert!(plan_shard_hops(&vec![relay(5)], Some(relay(5)), true).is_none());
}

#[test]
fn intro_relay_takes_first_onion_capable_point() {
    let expected_id = PEER.parse::<multiaddr::PeerId>().unwrap().to_bytes();
    let points = vec![intro(None, vec!["/ip4/1.1.1.1/tcp/1"]), intro(Some([9; 32]), vec!["/ip4/2.2.2.2/tcp/2"])];
    let info = intro_relay(&points).unwrap();
    assert_eq!(info.peer_id, expected_id);
    assert_eq!(info.onion_pubkey, [9; 32]);
    assert_eq!(info.addr, b"/ip4/2.2.2.2/tcp/2".to_vec());
    assert!(intro_relay(&vec![intro(None, vec!["/ip4/1.1.1.1/tcp/1"])]).is_none());
    assert!(intro_relay(&vec![intro(Some([9; 32]), vec![])]).is_none());
}

#[test]
fn shard_collection_needs_k_shares() {
    assert!(needs_more_shards(2, 3));
    assert!(!needs_more_shards(3, 3));
    assert!(shard_collection_outcome("onion retrieval", 3, 3).is_ok());
    assert_eq!(
        shard_collection_outcome("onion retrieval", 2, 10),
        Err(MiasmaError::Sss("onion retrieval: got 2/10 shards".to_string()))
    );
}
