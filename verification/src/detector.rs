use vstd::prelude::*;
use crate::clock::now_unix_millis;
use crate::strmap::StrMap;

verus! {

/// Liveness classification of a peer.
#[derive(Debug, Clone, Copy, PartialEq, Eq)]
pub enum PeerHealth {
    /// Peer responded to the most recent probe.
    Healthy,
    /// Peer missed a probe — monitored more closely.
    Suspected,
    /// Peer missed `max_failures` consecutive probes.
    Offline,
}

/// Liveness state of one tracked peer (times in ms).
#[derive(Debug, Clone, Copy)]
pub struct PeerState {
    pub health: PeerHealth,
    pub consecutive_failures: u32,
    pub last_probe: Option<u64>,
    pub last_success: Option<u64>,
}

/// Whether a peer in state `s` is due for a probe at `now`.
pub open spec fn due_for_probe(s: PeerState, now: u64, probe_interval: u64, suspect_interval: u64) -> bool {
    let interval = if s.health == PeerHealth::Suspected { suspect_interval } else { probe_interval };
    match s.last_probe {
        None => true,
        Some(t) => (if now >= t { now - t } else { 0 }) >= interval,
    }
}

/// The set of strings in a list.
pub open spec fn string_set(v: Seq<String>) -> Set<Seq<char>> {
    Set::new(|k: Seq<char>| exists|i: int| 0 <= i < v.len() && v[i]@ == k)
}

/// Tracks the liveness of peers that hold shares of content we care about.
pub struct OfflineDetector {
    peers: StrMap<PeerState>,
    /// Number of consecutive failures before a peer is declared offline.
    pub max_failures: u32,
    /// Interval between probes for a healthy peer (ms).
    pub probe_interval: u64,
    /// Interval between probes for a suspected peer (ms).
    pub suspect_interval: u64,
}

impl Default for OfflineDetector {
    /// Three failures; probe hourly, suspects every five minutes.
    fn default() -> (d: Self)
        ensures
            d.wf(),
            d@ == Map::<Seq<char>, PeerState>::empty(),
            d.max_failures_value() == 3,
            d.probe_interval_value() == 3_600_000,
            d.suspect_interval_value() == 300_000,
    {
        OfflineDetector {
            peers: StrMap::new(),
            max_failures: 3,
            probe_interval: 3_600_000,
            suspect_interval: 300_000,
        }
    }
}

impl OfflineDetector {
    /// Tracked peers and their state.
    pub closed spec fn view(&self) -> Map<Seq<char>, PeerState> {
        self.peers@
    }

    /// Internal consistency.
    pub closed spec fn wf(&self) -> bool {
        self.peers.wf()
    }

    /// The failure threshold (the public field `max_failures`).
    pub closed spec fn max_failures_value(&self) -> u32 {
        self.max_failures
    }

    /// The healthy probe interval in ms (the public field `probe_interval`).
    pub closed spec fn probe_interval_value(&self) -> u64 {
        self.probe_interval
    }

    /// The suspect probe interval in ms (the public field `suspect_interval`).
    pub closed spec fn suspect_interval_value(&self) -> u64 {
        self.suspect_interval
    }

    /// Set the failure threshold; nothing else changes.
    pub fn set_max_failures(&mut self, max_failures: u32)
        requires
            old(self).wf(),
        ensures
            final(self).wf(),
            final(self)@ == old(self)@,
            final(self).max_failures_value() == max_failures,
            final(self).probe_interval_value() == old(self).probe_interval_value(),
            final(self).suspect_interval_value() == old(self).suspect_interval_value(),
    {
        self.max_failures = max_failures;
    }

    /// Set the healthy and suspect probe intervals (ms); nothing else changes.
    pub fn set_probe_intervals(&mut self, probe_interval: u64, suspect_interval: u64)
        requires
            old(self).wf(),
        ensures
            final(self).wf(),
            final(self)@ == old(self)@,
            final(self).max_failures_value() == old(self).max_failures_value(),
            final(self).probe_interval_value() == probe_interval,
            final(self).suspect_interval_value() == suspect_interval,
    {
        self.probe_interval = probe_interval;
        self.suspect_interval = suspect_interval;
    }

    /// A detector with the default thresholds and nothing tracked.
    pub fn new() -> (d: Self)
        ensures
            d.wf(),
            d@ == Map::<Seq<char>, PeerState>::empty(),
            d.max_failures_value() == 3,
            d.probe_interval_value() == 3_600_000,
            d.suspect_interval_value() == 300_000,
    {
        Self::default()
    }

    /// Register a peer for liveness monitoring (no change if already tracked).
    pub fn track(&mut self, peer_id: &str)
        requires
            old(self).wf(),
        ensures
            final(self).wf(),
            final(self).max_failures_value() == old(self).max_failures_value(),
            final(self).probe_interval_value() == old(self).probe_interval_value(),
            final(self).suspect_interval_value() == old(self).suspect_interval_value(),
            final(self)@ == if old(self)@.contains_key(peer_id@) {
                old(self)@
            } else {
                old(self)@.insert(peer_id@, PeerState {
                    health: PeerHealth::Healthy,
                    consecutive_failures: 0,
                    last_probe: None,
                    last_success: None,
                })
            },
    {
        if !self.peers.contains_key(peer_id) {
            self.peers.insert(peer_id, PeerState {
                health: PeerHealth::Healthy,
                consecutive_failures: 0,
                last_probe: None,
                last_success: None,
            });
        }
    }

    /// Record at time `now` (ms) that a probe to `peer_id` succeeded.
    pub fn record_success_at(&mut self, peer_id: &str, now: u64)
        requires
            old(self).wf(),
        ensures
            final(self).wf(),
            final(self).max_failures_value() == old(self).max_failures_value(),
            final(self).probe_interval_value() == old(self).probe_interval_value(),
            final(self).suspect_interval_value() == old(self).suspect_interval_value(),
            final(self)@ == if old(self)@.contains_key(peer_id@) {
                old(self)@.insert(peer_id@, PeerState {
                    health: PeerHealth::Healthy,
                    consecutive_failures: 0,
                    last_probe: Some(now),
                    last_success: Some(now),
                })
            } else {
                old(self)@
            },
    {
        if self.peers.contains_key(peer_id) {
            self.peers.insert(peer_id, PeerState {
                health: PeerHealth::Healthy,
                consecutive_failures: 0,
                last_probe: Some(now),
                last_success: Some(now),
            });
        }
    }

    /// Record that a probe to `peer_id` succeeded.
    pub fn record_success(&mut self, peer_id: &str)
        requires
            old(self).wf(),
        ensures
            final(self).wf(),
            final(self).max_failures_value() == old(self).max_failures_value(),
            final(self).probe_interval_value() == old(self).probe_interval_value(),
            final(self).suspect_interval_value() == old(self).suspect_interval_value(),
            final(self)@.dom() == old(self)@.dom(),
            old(self)@.contains_key(peer_id@) ==> final(self)@[peer_id@].health == PeerHealth::Healthy
                && final(self)@[peer_id@].consecutive_failures == 0,
            forall|k: Seq<char>| k != peer_id@ && old(self)@.contains_key(k) ==> final(self)@[k] == old(self)@[k],
    {
        let now = now_unix_millis();
        self.record_success_at(peer_id, now);
        assert(self@.dom() =~= old(self)@.dom());
    }

    /// Record at time `now` (ms) that a probe to `peer_id` failed: Offline
    /// once the consecutive failures reach `max_failures`, Suspected before.
    pub fn record_failure_at(&mut self, peer_id: &str, now: u64)
        requires
            old(self).wf(),
            old(self)@.contains_key(peer_id@) ==> old(self)@[peer_id@].consecutive_failures < u32::MAX,
        ensures
            final(self).wf(),
            final(self).max_failures_value() == old(self).max_failures_value(),
            final(self).probe_interval_value() == old(self).probe_interval_value(),
            final(self).suspect_interval_value() == old(self).suspect_interval_value(),
            final(self)@ == if old(self)@.contains_key(peer_id@) {
                let s = old(self)@[peer_id@];
                let f = (s.consecutive_failures + 1) as u32;
                old(self)@.insert(peer_id@, PeerState {
                    health: if f >= old(self).max_failures_value() {
                        PeerHealth::Offline
                    } else {
                        PeerHealth::Suspected
                    },
                    consecutive_failures: f,
                    last_probe: Some(now),
                    last_success: s.last_success,
                })
            } else {
                old(self)@
            },
    {
        match self.peers.get(peer_id) {
            Some(state) => {
                let s = *state;
                let f = s.consecutive_failures + 1;
                let health = if f >= self.max_failures {
                    PeerHealth::Offline
                } else {
                    PeerHealth::Suspected
                };
                self.peers.insert(peer_id, PeerState {
                    health,
                    consecutive_failures: f,
                    last_probe: Some(now),
                    last_success: s.last_success,
                });
            },
            None => {},
        }
    }

    /// Record that a probe to `peer_id` failed.
    pub fn record_failure(&mut self, peer_id: &str)
        requires
            old(self).wf(),
            old(self)@.contains_key(peer_id@) ==> old(self)@[peer_id@].consecutive_failures < u32::MAX,
        ensures
            final(self).wf(),
            final(self).max_failures_value() == old(self).max_failures_value(),
            final(self).probe_interval_value() == old(self).probe_interval_value(),
            final(self).suspect_interval_value() == old(self).suspect_interval_value(),
            final(self)@.dom() == old(self)@.dom(),
            old(self)@.contains_key(peer_id@) ==> {
                let f = old(self)@[peer_id@].consecutive_failures + 1;
                &&& final(self)@[peer_id@].consecutive_failures == f
                &&& final(self)@[peer_id@].health == if f >= old(self).max_failures_value() {
                    PeerHealth::Offline
                } else {
                    PeerHealth::Suspected
                }
            },
            forall|k: Seq<char>| k != peer_id@ && old(self)@.contains_key(k) ==> final(self)@[k] == old(self)@[k],
    {
        let now = now_unix_millis();
        self.record_failure_at(peer_id, now);
        assert(self@.dom() =~= old(self)@.dom());
    }

    /// The peers due for a probe at time `now` (ms).
    pub open spec fn due_set(&self, now: u64) -> Set<Seq<char>> {
        Set::new(|k: Seq<char>| self@.contains_key(k)
            && due_for_probe(self@[k], now, self.probe_interval_value(), self.suspect_interval_value()))
    }

    /// Peers due for a probe at time `now` (ms): never probed, or probed at
    /// least an interval ago (the suspect interval for suspected peers).
    pub fn peers_due_for_probe_at(&self, now: u64) -> (r: Vec<String>)
        requires
            self.wf(),
        ensures
            string_set(r@) == Set::new(|k: Seq<char>| self@.contains_key(k)
                && due_for_probe(self@[k], now, self.probe_interval_value(), self.suspect_interval_value())),
    {
        let mut out: Vec<String> = Vec::new();
        let mut i: usize = 0;
        let n = self.peers.len();
        while i < n
            invariant
                self.wf(),
                n == self.peers.len_spec(),
                i <= n,
                forall|k: Seq<char>| string_set(out@).contains(k) ==> self@.contains_key(k)
                    && due_for_probe(self@[k], now, self.probe_interval_value(), self.suspect_interval_value()),
                forall|j: int| 0 <= j < i ==> {
                    let k = #[trigger] self.peers.key_spec(j);
                    due_for_probe(self@[k], now, self.probe_interval_value(), self.suspect_interval_value())
                        ==> string_set(out@).contains(k)
                },
            decreases n - i,
        {
            let (id, state) = self.peers.entry_at(i);
            let interval = match state.health {
                PeerHealth::Suspected => self.suspect_interval,
                _ => self.probe_interval,
            };
            let due = match state.last_probe {
                Some(t) => now.saturating_sub(t) >= interval,
                None => true,
            };
            let ghost before = out@;
            if due {
                out.push(id.clone());
            }
            assert forall|k: Seq<char>| string_set(before).contains(k) implies string_set(out@).contains(k) by {
                let j = choose|j: int| 0 <= j < before.len() && before[j]@ == k;
                assert(out@[j] == before[j]);
            }
            assert forall|k: Seq<char>| string_set(out@).contains(k) implies string_set(before).contains(k)
                || (k == id@ && due) by {
                let j = choose|j: int| 0 <= j < out@.len() && out@[j]@ == k;
                if j < before.len() {
                    assert(before[j] == out@[j]);
                }
            }
            if due {
                assert(out@[out@.len() - 1]@ == id@);
                assert(self@[id@] == *state);
                assert(due_for_probe(self@[id@], now, self.probe_interval_value(), self.suspect_interval_value()));
            }
            i = i + 1;
        }
        proof {
            assert forall|k: Seq<char>| self@.contains_key(k) && due_for_probe(self@[k], now,
                self.probe_interval_value(), self.suspect_interval_value()) implies string_set(out@).contains(k) by {
                self.peers.lemma_key_index(k);
            }
        }
        assert(string_set(out@) =~= Set::new(|k: Seq<char>| self@.contains_key(k)
            && due_for_probe(self@[k], now, self.probe_interval_value(), self.suspect_interval_value())));
        out
    }

    /// Peers due for a probe now.
    pub fn peers_due_for_probe(&self) -> (r: Vec<String>)
        requires
            self.wf(),
        ensures
            exists|now: u64| string_set(r@) == #[trigger] self.due_set(now),
    {
        let now = now_unix_millis();
        let r = self.peers_due_for_probe_at(now);
        assert(string_set(r@) == self.due_set(now));
        r
    }

    /// All peers currently classified as offline.
    pub fn offline_peers(&self) -> (r: Vec<String>)
        requires
            self.wf(),
        ensures
            string_set(r@) == Set::new(|k: Seq<char>| self@.contains_key(k)
                && self@[k].health == PeerHealth::Offline),
    {
        let mut out: Vec<String> = Vec::new();
        let mut i: usize = 0;
        let n = self.peers.len();
        while i < n
            invariant
                self.wf(),
                n == self.peers.len_spec(),
                i <= n,
                forall|k: Seq<char>| string_set(out@).contains(k) ==> self@.contains_key(k)
                    && self@[k].health == PeerHealth::Offline,
                forall|j: int| 0 <= j < i ==> {
                    let k = #[trigger] self.peers.key_spec(j);
                    self@[k].health == PeerHealth::Offline ==> string_set(out@).contains(k)
                },
            decreases n - i,
        {
            let (id, state) = self.peers.entry_at(i);
            let offline = match state.health {
                PeerHealth::Offline => true,
                _ => false,
            };
            let ghost before = out@;
            if offline {
                out.push(id.clone());
            }
            assert forall|k: Seq<char>| string_set(before).contains(k) implies string_set(out@).contains(k) by {
                let j = choose|j: int| 0 <= j < before.len() && before[j]@ == k;
                assert(out@[j] == before[j]);
            }
            assert forall|k: Seq<char>| string_set(out@).contains(k) implies string_set(before).contains(k)
                || (k == id@ && offline) by {
                let j = choose|j: int| 0 <= j < out@.len() && out@[j]@ == k;
                if j < before.len() {
                    assert(before[j] == out@[j]);
                }
            }
            if offline {
                assert(out@[out@.len() - 1]@ == id@);
                assert(self@[id@] == *state);
                assert(state.health == PeerHealth::Offline);
                assert(self@[id@].health == PeerHealth::Offline);
            }
            assert forall|k: Seq<char>| string_set(out@).contains(k) implies self@.contains_key(k)
                && self@[k].health == PeerHealth::Offline by {
                if string_set(before).contains(k) {
                } else {
                    assert(k == id@ && offline);
                }
            }
            i = i + 1;
        }
        proof {
            assert forall|k: Seq<char>| self@.contains_key(k) && self@[k].health == PeerHealth::Offline
                implies string_set(out@).contains(k) by {
                self.peers.lemma_key_index(k);
            }
        }
        assert(string_set(out@) =~= Set::new(|k: Seq<char>| self@.contains_key(k)
            && self@[k].health == PeerHealth::Offline));
        out
    }

    /// Current health of a peer.
    pub fn health(&self, peer_id: &str) -> (r: Option<&PeerHealth>)
        requires
            self.wf(),
        ensures
            match r {
                Some(h) => self@.contains_key(peer_id@) && self@[peer_id@].health == *h,
                None => !self@.contains_key(peer_id@),
            },
    {
        match self.peers.get(peer_id) {
            Some(s) => Some(&s.health),
            None => None,
        }
    }
}

} // verus!
