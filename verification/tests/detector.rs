use miasma_core::detector::{OfflineDetector, PeerHealth};

#[test]
fn detector_tracks_failures() {
    let mut det = OfflineDetector::new();
    det.max_failures = 2;
    det.track("peer1");
    det.record_failure("peer1");
    assert_eq!(det.health("peer1"), Some(&PeerHealth::Suspected));
    det.record_failure("peer1");
    assert_eq!(det.health("peer1"), Some(&PeerHealth::Offline));
    det.record_success("peer1");
    assert_eq!(det.health("peer1"), Some(&PeerHealth::Healthy));
}

#[test]
fn detector_offline_peers_list() {
    let mut det = OfflineDetector::new();
    det.max_failures = 1;
    det.track("a");
    det.track("b");
    det.record_failure("a");
    let offline = det.offline_peers();
    assert!(offline.contains(&"a".to_string()));
    assert!(!offline.contains(&"b".to_string()));
}

#[test]
fn untracked_peer_has_no_health() {
    let mut det = OfflineDetector::new();
    assert_eq!(det.health("x"), None);
    det.record_failure("x");
    assert_eq!(det.health("x"), None);
}

#[test]
fn probe_schedule_at_fixed_times() {
    let mut det = OfflineDetector::new();
    det.track("p");
    let due = det.peers_due_for_probe_at(0);
    assert_eq!(due, vec!["p".to_string()]);
    det.record_success_at("p", 1_000);
    assert!(det.peers_due_for_probe_at(1_000).is_empty());
}

#[test]
fn detector_threshold_set_by_setter() {
    let mut det = OfflineDetector::new();
    det.set_max_failures(1);
    det.track("a");
    det.track("b");
    det.record_failure("a");
    assert_eq!(det.health("a"), Some(&PeerHealth::Offline));
    assert_eq!(det.health("b"), Some(&PeerHealth::Healthy));
    det.set_probe_intervals(0, 0);
    assert_eq!(det.probe_interval, 0);
    assert_eq!(det.max_failures, 1);
}
