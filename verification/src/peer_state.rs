use vstd::prelude::*;
use crate::address::AddressTrust;
use crate::clock::now_unix_millis;
use crate::detector::string_set;
use crate::strmap::{count_where, StrMap};
use crate::sybil::NodeIdPoW;

verus! {

/// Per-peer trust state (times in milliseconds since the Unix epoch).
#[derive(Debug, Clone, Copy)]
pub struct PeerTrustState {
    /// Current trust tier.
    pub trust: AddressTrust,
    /// Their PoW proof, once received and verified.
    pub pow: Option<NodeIdPoW>,
    /// When the connection was established.
    pub connected_at: u64,
    /// Whether Identify exchange completed and addresses passed filtering.
    pub identify_received: bool,
    /// Whether PoW admission exchange completed successfully.
    pub admission_verified: bool,
}

/// Reason a peer was rejected or not promoted.
#[derive(Debug, Clone, Copy, PartialEq, Eq)]
pub enum RejectionReason {
    /// No addresses passed the address-class filter.
    NoRoutableAddresses,
    /// PoW proof was missing from admission exchange.
    NoPoW,
    /// PoW proof was malformed (deserialization failed).
    MalformedPoW,
    /// PoW hash did not meet difficulty requirement.
    InsufficientDifficulty,
    /// PoW pubkey did not match the peer's actual identity.
    PubkeyMismatch,
}

/// The message of each rejection reason.
pub open spec fn rejection_text(r: RejectionReason) -> Seq<char> {
    match r {
        RejectionReason::NoRoutableAddresses => "no routable addresses"@,
        RejectionReason::NoPoW => "no PoW proof"@,
        RejectionReason::MalformedPoW => "malformed PoW proof"@,
        RejectionReason::InsufficientDifficulty => "insufficient PoW difficulty"@,
        RejectionReason::PubkeyMismatch => "PoW pubkey does not match peer identity"@,
    }
}

impl RejectionReason {
    /// The human-readable message.
    pub fn to_string(&self) -> (s: String)
        ensures
            s@ == rejection_text(*self),
    {
        let t = match self {
            RejectionReason::NoRoutableAddresses => "no routable addresses",
            RejectionReason::NoPoW => "no PoW proof",
            RejectionReason::MalformedPoW => "malformed PoW proof",
            RejectionReason::InsufficientDifficulty => "insufficient PoW difficulty",
            RejectionReason::PubkeyMismatch => "PoW pubkey does not match peer identity",
        };
        crate::text::owned(t)
    }
}

/// Snapshot of admission stats for diagnostics.
#[derive(Debug, Clone, Copy, PartialEq, Eq)]
pub struct AdmissionStats {
    pub verified_peers: usize,
    pub observed_peers: usize,
    pub claimed_peers: usize,
    pub total_rejections: u64,
}

/// The order of the trust tiers: Claimed < Observed < Verified.
pub open spec fn trust_rank(t: AddressTrust) -> nat {
    match t {
        AddressTrust::Claimed => 0,
        AddressTrust::Observed => 1,
        AddressTrust::Verified => 2,
    }
}

/// The state of a peer that has just connected at `now`.
pub open spec fn connected_state(now: u64) -> PeerTrustState {
    PeerTrustState {
        trust: AddressTrust::Claimed,
        pow: None,
        connected_at: now,
        identify_received: false,
        admission_verified: false,
    }
}

/// A state after a successful Identify exchange: marked, and promoted to
/// Observed unless already above it.
pub open spec fn identified(s: PeerTrustState) -> PeerTrustState {
    PeerTrustState {
        identify_received: true,
        trust: if trust_rank(s.trust) < 1 { AddressTrust::Observed } else { s.trust },
        ..s
    }
}

/// A state after a successful PoW admission exchange.
pub open spec fn admitted(s: PeerTrustState, pow: NodeIdPoW) -> PeerTrustState {
    PeerTrustState { pow: Some(pow), admission_verified: true, trust: AddressTrust::Verified, ..s }
}

/// Whether a state has a given trust tier.
pub open spec fn has_trust(t: AddressTrust) -> spec_fn(PeerTrustState) -> bool {
    |s: PeerTrustState| s.trust == t
}

/// Tracks trust state for all connected peers.
pub struct PeerRegistry {
    peers: StrMap<PeerTrustState>,
    rejection_count: u64,
}

impl PeerRegistry {
    /// The per-peer states, by peer id.
    pub closed spec fn view(&self) -> Map<Seq<char>, PeerTrustState> {
        self.peers@
    }

    /// Cumulative count of rejections.
    pub closed spec fn rejections(&self) -> u64 {
        self.rejection_count
    }

    /// Internal consistency.
    pub closed spec fn wf(&self) -> bool {
        self.peers.wf()
    }

    /// An empty registry.
    pub fn new() -> (r: Self)
        ensures
            r.wf(),
            r@ == Map::<Seq<char>, PeerTrustState>::empty(),
            r.rejections() == 0,
    {
        PeerRegistry { peers: StrMap::new(), rejection_count: 0 }
    }

    /// A connection to `peer_id` was established at `now` (ms): a new peer
    /// starts as Claimed; a known one keeps its state.
    pub fn on_connected_at(&mut self, peer_id: &str, now: u64)
        requires
            old(self).wf(),
        ensures
            final(self).wf(),
            final(self).rejections() == old(self).rejections(),
            final(self)@ == if old(self)@.contains_key(peer_id@) {
                old(self)@
            } else {
                old(self)@.insert(peer_id@, connected_state(now))
            },
    {
        if !self.peers.contains_key(peer_id) {
            self.peers.insert(peer_id, PeerTrustState {
                trust: AddressTrust::Claimed,
                pow: None,
                connected_at: now,
                identify_received: false,
                admission_verified: false,
            });
        }
    }

    /// A connection to `peer_id` was established now.
    pub fn on_connected(&mut self, peer_id: &str)
        requires
            old(self).wf(),
        ensures
            final(self).wf(),
            final(self).rejections() == old(self).rejections(),
            old(self)@.contains_key(peer_id@) ==> final(self)@ == old(self)@,
            !old(self)@.contains_key(peer_id@) ==> exists|now: u64|
                final(self)@ == old(self)@.insert(peer_id@, #[trigger] connected_state(now)),
    {
        let now = now_unix_millis();
        self.on_connected_at(peer_id, now);
    }

    /// Identify with `peer_id` succeeded and an address passed filtering:
    /// promotes a known peer from Claimed to Observed.
    pub fn on_identify(&mut self, peer_id: &str)
        requires
            old(self).wf(),
        ensures
            final(self).wf(),
            final(self).rejections() == old(self).rejections(),
            final(self)@ == if old(self)@.contains_key(peer_id@) {
                old(self)@.insert(peer_id@, identified(old(self)@[peer_id@]))
            } else {
                old(self)@
            },
    {
        let cur = match self.peers.get(peer_id) {
            Some(s) => Some(*s),
            None => None,
        };
        if let Some(s) = cur {
            let trust = match s.trust {
                AddressTrust::Claimed => AddressTrust::Observed,
                other => other,
            };
            self.peers.insert(peer_id, PeerTrustState { identify_received: true, trust, ..s });
        }
    }

    /// PoW admission with `peer_id` succeeded: promotes a known peer to
    /// Verified and records its proof.
    pub fn on_admission_verified(&mut self, peer_id: &str, pow: NodeIdPoW)
        requires
            old(self).wf(),
        ensures
            final(self).wf(),
            final(self).rejections() == old(self).rejections(),
            final(self)@ == if old(self)@.contains_key(peer_id@) {
                old(self)@.insert(peer_id@, admitted(old(self)@[peer_id@], pow))
            } else {
                old(self)@
            },
    {
        let cur = match self.peers.get(peer_id) {
            Some(s) => Some(*s),
            None => None,
        };
        if let Some(s) = cur {
            self.peers.insert(peer_id, PeerTrustState {
                pow: Some(pow),
                admission_verified: true,
                trust: AddressTrust::Verified,
                ..s
            });
        }
    }

    /// The connection to `peer_id` closed: forget the peer.
    pub fn on_disconnected(&mut self, peer_id: &str)
        requires
            old(self).wf(),
        ensures
            final(self).wf(),
            final(self).rejections() == old(self).rejections(),
            final(self)@ == old(self)@.remove(peer_id@),
    {
        self.peers.remove(peer_id);
    }

    /// Count a rejection.
    pub fn record_rejection(&mut self)
        requires
            old(self).wf(),
            old(self).rejections() < u64::MAX,
        ensures
            final(self).wf(),
            final(self)@ == old(self)@,
            final(self).rejections() == old(self).rejections() + 1,
    {
        self.rejection_count = self.rejection_count + 1;
    }

    /// The trust tier of a peer, if known.
    pub fn trust_of(&self, peer_id: &str) -> (r: Option<AddressTrust>)
        requires
            self.wf(),
        ensures
            r == if self@.contains_key(peer_id@) { Some(self@[peer_id@].trust) } else { None },
    {
        match self.peers.get(peer_id) {
            Some(s) => Some(s.trust),
            None => None,
        }
    }

    /// Whether the peer is Verified.
    pub fn is_verified(&self, peer_id: &str) -> (b: bool)
        requires
            self.wf(),
        ensures
            b == (self@.contains_key(peer_id@) && self@[peer_id@].trust == AddressTrust::Verified),
    {
        match self.peers.get(peer_id) {
            Some(s) => match s.trust {
                AddressTrust::Verified => true,
                _ => false,
            },
            None => false,
        }
    }

    /// All peers at the Verified tier.
    pub fn verified_peers(&self) -> (r: Vec<String>)
        requires
            self.wf(),
        ensures
            string_set(r@) == Set::new(|k: Seq<char>| self@.contains_key(k)
                && self@[k].trust == AddressTrust::Verified),
    {
        let mut out: Vec<String> = Vec::new();
        let mut i: usize = 0;
        let n = self.peers.len();
        while i < n
            invariant
                self.wf(),
                n == self.peers.len_spec(),
                i <= n,
                forall|k: Seq<char>| string_set(out@).contains(k) ==> self@.contains_key(k)
                    && self@[k].trust == AddressTrust::Verified,
                forall|j: int| 0 <= j < i ==> {
                    let k = #[trigger] self.peers.key_spec(j);
                    self@[k].trust == AddressTrust::Verified ==> string_set(out@).contains(k)
                },
            decreases n - i,
        {
            let (id, state) = self.peers.entry_at(i);
            let verified = match state.trust {
                AddressTrust::Verified => true,
                _ => false,
            };
            let ghost before = out@;
            if verified {
                out.push(id.clone());
            }
            assert forall|k: Seq<char>| string_set(before).contains(k) implies string_set(out@).contains(k) by {
                let j = choose|j: int| 0 <= j < before.len() && before[j]@ == k;
                assert(out@[j] == before[j]);
            }
            assert forall|k: Seq<char>| string_set(out@).contains(k) implies string_set(before).contains(k)
                || (k == id@ && verified) by {
                let j = choose|j: int| 0 <= j < out@.len() && out@[j]@ == k;
                if j < before.len() {
                    assert(before[j] == out@[j]);
                }
            }
            if verified {
                assert(out@[out@.len() - 1]@ == id@);
                assert(self@[id@] == *state);
            }
            assert forall|k: Seq<char>| string_set(out@).contains(k) implies self@.contains_key(k)
                && self@[k].trust == AddressTrust::Verified by {
                if !string_set(before).contains(k) {
                    assert(k == id@ && verified);
                }
            }
            i = i + 1;
        }
        proof {
            assert forall|k: Seq<char>| self@.contains_key(k) && self@[k].trust == AddressTrust::Verified
                implies string_set(out@).contains(k) by {
                self.peers.lemma_key_index(k);
            }
        }
        assert(string_set(out@) =~= Set::new(|k: Seq<char>| self@.contains_key(k)
            && self@[k].trust == AddressTrust::Verified));
        out
    }

    fn count_trust(&self, t: AddressTrust) -> (n: usize)
        requires
            self.wf(),
        ensures
            n == count_where(self@, has_trust(t)),
    {
        let ghost pred = has_trust(t);
        let mut cnt: usize = 0;
        let mut i: usize = 0;
        let len = self.peers.len();
        while i < len
            invariant
                self.wf(),
                len == self.peers.len_spec(),
                i <= len,
                cnt <= i,
                pred == has_trust(t),
                cnt == self.peers.count_prefix(pred, i as int),
            decreases len - i,
        {
            let (_, st) = self.peers.entry_at(i);
            proof {
                self.peers.lemma_entry_spec(i as int);
            }
            if st.trust == t {
                cnt = cnt + 1;
            }
            i = i + 1;
        }
        proof {
            self.peers.lemma_count_values(pred);
        }
        cnt
    }

    /// Snapshot for diagnostics: peers per tier and the rejection count.
    pub fn stats(&self) -> (r: AdmissionStats)
        requires
            self.wf(),
        ensures
            r.verified_peers == count_where(self@, has_trust(AddressTrust::Verified)),
            r.observed_peers == count_where(self@, has_trust(AddressTrust::Observed)),
            r.claimed_peers == count_where(self@, has_trust(AddressTrust::Claimed)),
            r.total_rejections == self.rejections(),
    {
        AdmissionStats {
            verified_peers: self.count_trust(AddressTrust::Verified),
            observed_peers: self.count_trust(AddressTrust::Observed),
            claimed_peers: self.count_trust(AddressTrust::Claimed),
            total_rejections: self.rejection_count,
        }
    }

    /// Every known peer with its trust tier, each once.
    pub fn snapshot(&self) -> (r: Vec<(String, AddressTrust)>)
        requires
            self.wf(),
        ensures
            r@.len() == self@.dom().len(),
            forall|i: int| 0 <= i < r@.len() ==> self@.contains_key(#[trigger] r@[i].0@)
                && self@[r@[i].0@].trust == r@[i].1,
            forall|k: Seq<char>| #[trigger] self@.contains_key(k) ==> exists|i: int| 0 <= i < r@.len()
                && r@[i].0@ == k,
    {
        let mut out: Vec<(String, AddressTrust)> = Vec::new();
        let mut i: usize = 0;
        let n = self.peers.len();
        while i < n
            invariant
                self.wf(),
                n == self.peers.len_spec(),
                i <= n,
                out@.len() == i,
                forall|j: int| 0 <= j < i ==> (#[trigger] out@[j]).0@ == self.peers.key_spec(j)
                    && self@.contains_key(out@[j].0@) && self@[out@[j].0@].trust == out@[j].1,
            decreases n - i,
        {
            let (id, state) = self.peers.entry_at(i);
            out.push((id.clone(), state.trust));
            i = i + 1;
        }
        proof {
            self.peers.lemma_len();
            assert forall|k: Seq<char>| #[trigger] self@.contains_key(k) implies exists|j: int| 0 <= j < out@.len()
                && out@[j].0@ == k by {
                self.peers.lemma_key_index(k);
                let j = choose|j: int| 0 <= j < self.peers.len_spec() && #[trigger] self.peers.key_spec(j) == k;
                assert(out@[j].0@ == k);
            }
        }
        out
    }
}

/// Trust only rises while a peer stays connected: a connection, an Identify
/// or an admission event never lowers any known peer's tier.
pub proof fn lemma_trust_never_decreases(s: PeerTrustState, pow: NodeIdPoW)
    ensures
        trust_rank(identified(s).trust) >= trust_rank(s.trust),
        trust_rank(admitted(s, pow).trust) >= trust_rank(s.trust),
        trust_rank(admitted(identified(s), pow).trust) == 2,
        identified(identified(s)) == identified(s),
{
}

} // verus!
