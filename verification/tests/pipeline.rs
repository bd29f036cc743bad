use miasma_core::pipeline::{push_decimal_ascii, DissolutionParams};
use miasma_core::repair::{RepairConfig, RepairCoordinator};
use miasma_core::types::DhtRecord;

#[test]
fn param_bytes_default() {
    let p = DissolutionParams::default();
    assert_eq!(p.to_param_bytes(), b"k=10,n=20,v=1".to_vec());
    assert_eq!(p.recovery_shards(), 10);
}

#[test]
fn param_bytes_small() {
    let p = DissolutionParams { data_shards: 3, total_shards: 5 };
    assert_eq!(p.to_param_bytes(), b"k=3,n=5,v=1".to_vec());
    assert_eq!(p.recovery_shards(), 2);
}

#[test]
fn decimal_digits() {
    let mut out = b"x".to_vec();
    push_decimal_ascii(&mut out, 1203);
    assert_eq!(out, b"x1203".to_vec());
    let mut zero = Vec::new();
    push_decimal_ascii(&mut zero, 0);
    assert_eq!(zero, b"0".to_vec());
}

#[test]
fn repair_threshold() {
    let c = RepairCoordinator::new(RepairConfig::default());
    assert!(c.needs_repair(b"mid", 11));
    assert!(!c.needs_repair(b"mid", 12));
    let r = c.repair(b"mid", DissolutionParams::default(), b"data").unwrap();
    assert_eq!(r, 10);
}

#[test]
fn dht_key_is_digest() {
    let rec = DhtRecord {
        mid_digest: [9u8; 32],
        data_shards: 10,
        total_shards: 20,
        version: 1,
        locations: vec![],
        published_at: 5,
    };
    assert_eq!(rec.dht_key(), vec![9u8; 32]);
}

#[test]
fn needs_repair_below_threshold() {
    let coord = RepairCoordinator::new(RepairConfig { replication_min: 12, ..Default::default() });
    let params = DissolutionParams::default();
    let mid = blake3::hash(&params.to_param_bytes());
    assert!(coord.needs_repair(mid.as_bytes(), 10));
    assert!(!coord.needs_repair(mid.as_bytes(), 15));
}
