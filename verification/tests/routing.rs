use miasma_core::address::AddressTrust;
use miasma_core::routing::{
    ip_prefix_of, peer_score, DiversityViolation, IpPrefix, PeerRoutingState, RoutingTable,
    MAX_PEERS_PER_IPV4_SLASH16, MIN_INTERACTIONS_FOR_SCORE,
};

fn addrs(a: &str) -> Vec<String> {
    vec![a.to_string()]
}

#[test]
fn ip_prefix_extraction_ipv4() {
    assert_eq!(ip_prefix_of("/ip4/8.8.4.4/tcp/4001"), IpPrefix::V4Slash16([8, 8]));
    assert_eq!(ip_prefix_of("/ip4/192.168.1.1/tcp/4001"), IpPrefix::V4Slash16([192, 168]));
}

#[test]
fn ip_prefix_loopback_is_local() {
    assert_eq!(ip_prefix_of("/ip4/127.0.0.1/tcp/4001"), IpPrefix::Local);
}

#[test]
fn ip_prefix_extraction_ipv6() {
    let prefix = ip_prefix_of("/ip6/2001:db8:85a3::1/tcp/4001");
    assert_eq!(prefix, IpPrefix::V6Slash48([0x2001, 0x0db8, 0x85a3]));
}

#[test]
fn diversity_allows_different_prefixes() {
    let rt = RoutingTable::new(true);
    assert!(rt.check_diversity(&addrs("/ip4/8.8.4.4/tcp/4001")).is_ok());
}

#[test]
fn diversity_blocks_saturated_prefix() {
    let mut rt = RoutingTable::new(true);
    let prefix = IpPrefix::V4Slash16([8, 8]);
    for i in 0..MAX_PEERS_PER_IPV4_SLASH16 {
        rt.add_peer(&format!("peer-{}", i), prefix);
    }
    let result = rt.check_diversity(&addrs("/ip4/8.8.99.1/tcp/4001"));
    assert!(result.is_err());
    if let Err(DiversityViolation::Ipv4SubnetSaturated { count, limit, .. }) = result {
        assert_eq!(count, MAX_PEERS_PER_IPV4_SLASH16);
        assert_eq!(limit, MAX_PEERS_PER_IPV4_SLASH16);
    }
}

#[test]
fn diversity_disabled_allows_everything() {
    let mut rt = RoutingTable::new(false);
    let prefix = IpPrefix::V4Slash16([8, 8]);
    for i in 0..10 {
        rt.add_peer(&format!("peer-{}", i), prefix);
    }
    assert!(rt.check_diversity(&addrs("/ip4/8.8.99.1/tcp/4001")).is_ok());
}

#[test]
fn diversity_local_prefix_exempt() {
    let mut rt = RoutingTable::new(true);
    for i in 0..20 {
        rt.add_peer(&format!("peer-{}", i), IpPrefix::Local);
    }
    assert!(rt.check_diversity(&addrs("/ip4/127.0.0.1/tcp/4001")).is_ok());
}

#[test]
fn remove_peer_updates_prefix_count() {
    let mut rt = RoutingTable::new(true);
    let prefix = IpPrefix::V4Slash16([8, 8]);
    rt.add_peer("peer", prefix);
    assert_eq!(rt.prefix_count(&prefix), 1);
    rt.remove_peer("peer");
    assert_eq!(rt.prefix_count(&prefix), 0);
}

#[test]
fn unreliable_detection() {
    let mut state = PeerRoutingState::new(IpPrefix::Local);
    for _ in 0..1 {
        state.record_success();
    }
    for _ in 0..9 {
        state.record_failure();
    }
    assert!(state.is_unreliable());
}

#[test]
fn decay_halves_counters() {
    let mut state = PeerRoutingState::new(IpPrefix::Local);
    state.successes = 150;
    state.failures = 60;
    state.record_success();
    assert!(state.successes < 100);
    assert!(state.failures < 40);
}

#[test]
fn difficulty_schedule() {
    let mut rt = RoutingTable::new(true);
    assert_eq!(rt.recommended_difficulty(), 8);
    for _ in 0..5 {
        rt.observe_network_size(5);
    }
    assert_eq!(rt.recommended_difficulty(), 8);
    for _ in 0..10 {
        rt.observe_network_size(30);
    }
    assert_eq!(rt.recommended_difficulty(), 12);
    rt.difficulty_observations.clear();
    for _ in 0..10 {
        rt.observe_network_size(100);
    }
    assert_eq!(rt.recommended_difficulty(), 16);
}

#[test]
fn difficulty_adjustment() {
    let mut rt = RoutingTable::new(true);
    assert_eq!(rt.current_difficulty(), 8);
    for _ in 0..10 {
        rt.observe_network_size(100);
    }
    let new = rt.maybe_adjust_difficulty();
    assert_eq!(new, Some(16));
    assert_eq!(rt.current_difficulty(), 16);
    let same = rt.maybe_adjust_difficulty();
    assert_eq!(same, None);
}

#[test]
fn stats_snapshot() {
    let mut rt = RoutingTable::new(true);
    rt.add_peer("p1", IpPrefix::V4Slash16([1, 1]));
    rt.add_peer("p2", IpPrefix::V4Slash16([2, 2]));
    for _ in 0..10 {
        rt.record_failure("p2");
    }
    rt.record_diversity_rejection();
    let stats = rt.stats();
    assert_eq!(stats.total_peers, 2);
    assert_eq!(stats.unreliable_peers, 1);
    assert_eq!(stats.unique_prefixes, 2);
    assert_eq!(stats.max_prefix_concentration, 1);
    assert_eq!(stats.diversity_rejections, 1);
}

#[test]
fn prefix_text_forms() {
    assert_eq!(IpPrefix::V4Slash16([10, 1]).to_string(), "10.1.0.0/16");
    assert_eq!(IpPrefix::Local.to_string(), "local");
}

#[test]
fn ipv6_saturation_reports_prefix() {
    let mut rt = RoutingTable::new(true);
    let p = ip_prefix_of("/ip6/2001:db8:1::5/tcp/1");
    for i in 0..3 {
        rt.add_peer(&format!("v6-{}", i), p);
    }
    let r = rt.check_diversity(&addrs("/ip6/2001:db8:1::9/tcp/1"));
    assert!(matches!(r, Err(DiversityViolation::Ipv6PrefixSaturated { count: 3, limit: 3, .. })));
}

#[test]
fn half_success_rate_is_not_unreliable() {
    let mut state = PeerRoutingState::new_at(IpPrefix::Local, 0);
    for _ in 0..5 {
        state.record_success_at(10);
    }
    for _ in 0..5 {
        state.record_failure();
    }
    assert!(!state.is_unreliable());
    assert_eq!(state.last_success, Some(10));
}

#[test]
fn violation_message() {
    let v = DiversityViolation::Ipv4SubnetSaturated { prefix: "8.8.0.0/16".to_string(), count: 3, limit: 3 };
    assert_eq!(v.to_string(), "IPv4 /16 8.8.0.0/16: 3/3 peers");
}

#[test]
fn prefix_distribution() {
    let mut rt = RoutingTable::new(true);
    rt.add_peer("a", IpPrefix::V4Slash16([1, 1]));
    rt.add_peer("b", IpPrefix::V4Slash16([1, 1]));
    rt.add_peer("c", IpPrefix::V4Slash16([2, 2]));
    let dist = rt.prefix_distribution();
    assert_eq!(dist.len(), 2);
    assert_eq!(dist[0].1, 2);
    assert_eq!(dist[0].0, "1.1.0.0/16");
    assert_eq!(dist[1], ("2.2.0.0/16".to_string(), 1));
}

/// The reliability percentage a caller computes for a tracked peer.
fn reliability_pct(rt: &RoutingTable, id: &str) -> u32 {
    match rt.peer_state(id) {
        Some(st) => {
            let total = st.successes + st.failures;
            if total < MIN_INTERACTIONS_FOR_SCORE {
                100
            } else {
                ((st.successes as f64 / total as f64) * 100.0) as u32
            }
        }
        None => 0,
    }
}

fn rank(rt: &RoutingTable, ids: &[&str], trust_of: impl Fn(&str) -> AddressTrust) -> Vec<String> {
    let cands: Vec<String> = ids.iter().map(|s| s.to_string()).collect();
    let trust: Vec<AddressTrust> = ids.iter().map(|s| trust_of(s)).collect();
    let pct: Vec<u32> = ids.iter().map(|s| reliability_pct(rt, s)).collect();
    rt.rank_peers(&cands, &trust, &pct)
}

#[test]
fn rank_peers_prefers_verified() {
    let mut rt = RoutingTable::new(true);
    rt.add_peer("verified", IpPrefix::V4Slash16([1, 1]));
    rt.add_peer("observed", IpPrefix::V4Slash16([2, 2]));
    let ranked = rank(&rt, &["observed", "verified"], |id| {
        if id == "verified" { AddressTrust::Verified } else { AddressTrust::Observed }
    });
    assert_eq!(ranked[0], "verified", "verified peer should be ranked first");
}

#[test]
fn rank_peers_deprioritises_unreliable() {
    let mut rt = RoutingTable::new(true);
    rt.add_peer("reliable", IpPrefix::V4Slash16([1, 1]));
    rt.add_peer("unreliable", IpPrefix::V4Slash16([2, 2]));
    for _ in 0..10 {
        rt.record_failure("unreliable");
    }
    let ranked = rank(&rt, &["unreliable", "reliable"], |_| AddressTrust::Verified);
    assert_eq!(ranked[0], "reliable", "reliable peer should be ranked first");
}

#[test]
fn rank_peers_diversity_bonus() {
    let mut rt = RoutingTable::new(true);
    let prefix = IpPrefix::V4Slash16([8, 8]);
    rt.add_peer("common", prefix);
    rt.add_peer("other", prefix);
    rt.add_peer("rare", IpPrefix::V4Slash16([1, 1]));
    let ranked = rank(&rt, &["common", "rare"], |_| AddressTrust::Verified);
    assert_eq!(ranked[0], "rare", "peer from rare prefix should be preferred");
}

#[test]
fn peer_scores_and_unknown_candidates() {
    assert_eq!(peer_score(AddressTrust::Verified, 100, 1, false), 450);
    assert_eq!(peer_score(AddressTrust::Observed, 40, 2, false), 165);
    assert_eq!(peer_score(AddressTrust::Claimed, 10, 0, true), 0);
    assert_eq!(peer_score(AddressTrust::Verified, 0, 100, true), 100);
    let mut rt = RoutingTable::new(true);
    rt.add_peer("known", IpPrefix::V4Slash16([3, 3]));
    let ranked = rank(&rt, &["ghost", "known"], |_| AddressTrust::Claimed);
    assert_eq!(ranked, vec!["known".to_string()]);
}

#[test]
fn rank_peers_ties_keep_candidate_order() {
    let mut rt = RoutingTable::new(true);
    rt.add_peer("a", IpPrefix::V4Slash16([4, 4]));
    rt.add_peer("b", IpPrefix::V4Slash16([5, 5]));
    assert_eq!(rank(&rt, &["b", "a"], |_| AddressTrust::Observed), vec!["b".to_string(), "a".to_string()]);
    assert_eq!(rank(&rt, &["a", "b"], |_| AddressTrust::Observed), vec!["a".to_string(), "b".to_string()]);
}
