use miasma_core::connection_health::{DialBackoff, StaleAddressConfig, StaleAddressPruner};

#[test]
fn backoff_starts_empty() {
    let b = DialBackoff::default();
    assert!(b.is_empty());
    assert!(b.is_allowed("1.2.3.4:4001"));
}

#[test]
fn backoff_exponential_growth() {
    let mut b = DialBackoff::new(2_000, 300_000);
    let d1 = b.record_failure("addr1");
    let d2 = b.record_failure("addr1");
    let d3 = b.record_failure("addr1");
    assert!(d1 >= 2_000);
    assert!(d2 >= 4_000);
    assert!(d3 >= 8_000);
}

#[test]
fn backoff_caps_at_max() {
    let mut b = DialBackoff::new(2_000, 10_000);
    for _ in 0..10 {
        b.record_failure("addr1");
    }
    let entry = b.get("addr1").unwrap();
    let elapsed = entry.next_allowed - entry.last_failure;
    assert!(elapsed <= 12_500);
}

#[test]
fn backoff_reset_on_success() {
    let mut b = DialBackoff::default();
    b.record_failure("addr1");
    b.record_failure("addr1");
    assert!(!b.is_empty());
    b.record_success("addr1");
    assert!(b.is_empty());
    assert!(b.is_allowed("addr1"));
}

#[test]
fn backoff_independent_addresses() {
    let mut b = DialBackoff::default();
    b.record_failure("addr1");
    b.record_failure("addr2");
    assert_eq!(b.len(), 2);
    b.record_success("addr1");
    assert_eq!(b.len(), 1);
    assert!(b.is_allowed("addr1"));
}

#[test]
fn backoff_exact_schedule_at_fixed_time() {
    let mut b = DialBackoff::new(2_000, 300_000);
    let d1 = b.record_failure_at("a", 1_000);
    assert!(d1 >= 2_000 && d1 < 2_500);
    let e = b.get("a").unwrap();
    assert_eq!(e.consecutive_failures, 1);
    assert_eq!(e.last_failure, 1_000);
    assert_eq!(e.next_allowed, 1_000 + d1);
    assert!(!b.is_allowed_at("a", 1_000));
    assert!(b.is_allowed_at("a", 1_000 + d1));
    b.prune_expired_at(1_000 + d1);
    assert!(b.is_empty());
}

#[test]
fn pruner_tracks_failures() {
    let mut p = StaleAddressPruner::new(StaleAddressConfig {
        max_consecutive_failures: 3,
        max_idle_age: 3_600_000,
    });
    assert!(!p.record_failure("addr1"));
    assert!(!p.record_failure("addr1"));
    assert!(p.record_failure("addr1"));
    assert_eq!(p.pruned_count, 1);
}

#[test]
fn pruner_reset_on_success() {
    let mut p = StaleAddressPruner::new(StaleAddressConfig {
        max_consecutive_failures: 3,
        max_idle_age: 3_600_000,
    });
    p.record_failure("addr1");
    p.record_failure("addr1");
    p.record_success("addr1");
    assert_eq!(p.failure_count("addr1"), 0);
    assert!(!p.record_failure("addr1"));
    assert!(!p.record_failure("addr1"));
    assert!(p.record_failure("addr1"));
}

#[test]
fn pruner_counts_failures_since_last_success() {
    let mut p = StaleAddressPruner::new(StaleAddressConfig { max_consecutive_failures: 10, max_idle_age: 1 });
    p.record_failure("a");
    p.record_failure("b");
    p.record_failure("a");
    p.record_success("a");
    p.record_failure("a");
    p.record_failure("b");
    assert_eq!(p.failure_count("a"), 1);
    assert_eq!(p.failure_count("b"), 2);
    assert_eq!(p.failure_count("c"), 0);
}

#[test]
fn backoff_failure_leaves_other_addresses() {
    let mut b = DialBackoff::new(100, 10_000);
    b.record_failure("x");
    let before = b.get("x").copied();
    b.record_failure("y");
    assert_eq!(b.get("x").map(|e| e.consecutive_failures), before.map(|e| e.consecutive_failures));
    assert_eq!(b.get("x").map(|e| e.next_allowed), before.map(|e| e.next_allowed));
}
