use miasma_core::dht::BypassOnionDhtExecutor;
use miasma_core::types::DhtRecord;

fn dummy_record(mid: [u8; 32]) -> DhtRecord {
    DhtRecord {
        mid_digest: mid,
        data_shards: 10,
        total_shards: 20,
        version: 1,
        locations: vec![],
        published_at: 0,
    }
}

#[test]
fn bypass_put_get_roundtrip() {
    let mut exec = BypassOnionDhtExecutor::new();
    let mid = *blake3::hash(b"test content").as_bytes();
    exec.put(dummy_record(mid));
    let retrieved = exec.get(&mid);
    assert!(retrieved.is_some());
    assert_eq!(retrieved.unwrap().mid_digest, mid);
}

#[test]
fn bypass_get_missing_returns_none() {
    let exec = BypassOnionDhtExecutor::new();
    let mid = *blake3::hash(b"not stored").as_bytes();
    assert!(exec.get(&mid).is_none());
}

#[test]
fn later_put_replaces() {
    let mut exec = BypassOnionDhtExecutor::default();
    let mut a = dummy_record([3u8; 32]);
    exec.put(a.clone());
    a.published_at = 99;
    exec.put(a);
    assert_eq!(exec.get(&[3u8; 32]).unwrap().published_at, 99);
}
