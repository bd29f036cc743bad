use vstd::prelude::*;
use crate::clock::now_unix_secs;
use crate::credential::key32_eq;
use crate::credential::{CredentialTier, presentation_intact, tier_number};
use crate::descriptor::{PeerDescriptor, RelayObservation, RelayTrustTier, age_at_spec, fresh_at_spec,
    is_fresh_at, MAX_DESCRIPTORS};
use crate::key32map::count_where;
use crate::key32map::Key32Map;
use crate::strmap::StrMap;
use crate::netaddr::{peer_id_bytes, peer_id_bytes_of};
use crate::onion_relay::RelayInfo;
use vstd::utf8::encode_utf8;

verus! {

/// The descriptors of `m` that are fresh at `now`.
pub open spec fn fresh_part(m: Map<Seq<u8>, PeerDescriptor>, now: u64) -> Map<Seq<u8>, PeerDescriptor> {
    m.restrict(m.dom().filter(|k: Seq<u8>| fresh_at_spec(m[k], now)))
}

/// Whether `e` is a key of `m` whose descriptor is at least as old as every other.
pub open spec fn is_oldest(m: Map<Seq<u8>, PeerDescriptor>, e: Seq<u8>, now: u64) -> bool {
    &&& m.contains_key(e)
    &&& forall|k: Seq<u8>| #[trigger] m.contains_key(k)
        ==> age_at_spec(m[k].published_at, now) <= age_at_spec(m[e].published_at, now)
}

/// A fresh relay observation: Claimed, with no evidence.
pub open spec fn fresh_observation() -> RelayObservation {
    RelayObservation {
        tier: RelayTrustTier::Claimed,
        successes: 0,
        failures: 0,
        last_success_at: 0,
        last_failure_at: 0,
        probe_succeeded_at: None,
        forwarding_verified_at: None,
    }
}

/// The observation of `ps` in `m`, or a fresh one.
pub open spec fn obs_or_fresh(m: Map<Seq<u8>, RelayObservation>, ps: Seq<u8>) -> RelayObservation {
    if m.contains_key(ps) { m[ps] } else { fresh_observation() }
}

/// The relay tier of `ps` in `m`: Claimed without an observation.
pub open spec fn tier_in(m: Map<Seq<u8>, RelayObservation>, ps: Seq<u8>) -> RelayTrustTier {
    if m.contains_key(ps) { m[ps].tier } else { RelayTrustTier::Claimed }
}

/// A probe younger than `freshness` at `now`.
pub open spec fn fresh_probe_pred(freshness: u64, now: u64) -> spec_fn(RelayObservation) -> bool {
    |o: RelayObservation| match o.probe_succeeded_at {
        Some(t) => age_at_spec(t, now) < freshness,
        None => false,
    }
}

/// Forwarding verified at some time.
pub open spec fn forwarded_pred() -> spec_fn(RelayObservation) -> bool {
    |o: RelayObservation| o.forwarding_verified_at is Some
}

/// Whether a descriptor holds a valid credential at or above `min`.
pub open spec fn meets_tier_spec(d: PeerDescriptor, min: CredentialTier) -> bool {
    match d.credential {
        Some(c) => presentation_intact(c) && tier_number(c.credential.body.tier) >= tier_number(min),
        None => false,
    }
}

/// Relay-capable and fresh at `now`.
pub open spec fn relay_pred(now: u64) -> spec_fn(PeerDescriptor) -> bool {
    |d: PeerDescriptor| d.capabilities.can_relay && fresh_at_spec(d, now)
}

/// Credentialed at or above `min` and fresh at `now`.
pub open spec fn tier_pred(min: CredentialTier, now: u64) -> spec_fn(PeerDescriptor) -> bool {
    |d: PeerDescriptor| meets_tier_spec(d, min) && fresh_at_spec(d, now)
}

/// Fresh at `now`.
pub open spec fn active_pred(now: u64) -> spec_fn(PeerDescriptor) -> bool {
    |d: PeerDescriptor| fresh_at_spec(d, now)
}

/// Reachable by rendezvous and fresh at `now`.
pub open spec fn rendezvous_pred(now: u64) -> spec_fn(PeerDescriptor) -> bool {
    |d: PeerDescriptor| d.reachability is Rendezvous && fresh_at_spec(d, now)
}

/// The views of a list of descriptor references.
pub open spec fn derefs(v: Seq<&PeerDescriptor>) -> Seq<PeerDescriptor> {
    v.map_values(|d: &PeerDescriptor| *d)
}

/// A relay-capable descriptor fresh at `now`, with a registered peer id and
/// relay tier `t`.
pub open spec fn routable_pred(pm: Map<Seq<u8>, Seq<char>>, obs: Map<Seq<u8>, RelayObservation>, now: u64,
    t: RelayTrustTier) -> spec_fn(PeerDescriptor) -> bool {
    |d: PeerDescriptor| relay_pred(now)(d) && pm.contains_key(d.pseudonym@) && tier_in(obs, d.pseudonym@) == t
}

/// Like `routable_pred`, excluding the pseudonym `own`.
pub open spec fn intro_candidate_pred(pm: Map<Seq<u8>, Seq<char>>, obs: Map<Seq<u8>, RelayObservation>, now: u64,
    own: Seq<u8>, t: RelayTrustTier) -> spec_fn(PeerDescriptor) -> bool {
    |d: PeerDescriptor| routable_pred(pm, obs, now, t)(d) && d.pseudonym@ != own
}

/// A relay-capable descriptor fresh at `now` whose relay tier is `t`.
pub open spec fn relay_tier_pred(obs: Map<Seq<u8>, RelayObservation>, now: u64, t: RelayTrustTier)
    -> spec_fn(PeerDescriptor) -> bool {
    |d: PeerDescriptor| relay_pred(now)(d) && tier_in(obs, d.pseudonym@) == t
}

/// The relay tiers, best first.
pub open spec fn tiers_desc() -> Seq<RelayTrustTier> {
    seq![RelayTrustTier::Verified, RelayTrustTier::Observed, RelayTrustTier::Claimed]
}

/// The counts of the store's diagnostics snapshot.
#[derive(Debug, Clone, Copy, PartialEq, Eq)]
pub struct DescriptorCounts {
    pub total_descriptors: usize,
    pub relay_descriptors: usize,
    pub relayed_descriptors: usize,
    pub rendezvous_descriptors: usize,
    pub credentialed_descriptors: usize,
    pub bbs_credentialed_descriptors: usize,
    pub stale_descriptors: usize,
    /// Relay peers with known peer id mappings (usable for circuit routing).
    pub relay_peers_routable: usize,
    pub relay_claimed: usize,
    pub relay_observed: usize,
    pub relay_verified: usize,
    /// Relays with fresh (within 300 s) probe evidence.
    pub probed_fresh: usize,
    /// Relays with forwarding verification evidence.
    pub forwarding_verified_count: usize,
}

/// A resolved introduction point with what is needed to route to it.
#[derive(Debug, Clone)]
pub struct ResolvedIntroPoint {
    pub pseudonym: [u8; 32],
    pub peer_id: String,
    pub addresses: Vec<String>,
    pub relay_tier: RelayTrustTier,
    /// X25519 onion public key, if published.
    pub onion_pubkey: Option<[u8; 32]>,
}

/// The plain view of a resolved introduction point.
pub open spec fn intro_point_view(r: ResolvedIntroPoint)
    -> (Seq<u8>, Seq<char>, Seq<Seq<char>>, RelayTrustTier, Option<[u8; 32]>) {
    (r.pseudonym@, r.peer_id@, texts(r.addresses@), r.relay_tier, r.onion_pubkey)
}

/// The views of a list of 32-byte keys.
pub open spec fn key_views(v: Seq<[u8; 32]>) -> Seq<Seq<u8>> {
    v.map_values(|k: [u8; 32]| k@)
}

/// The text views of a list of strings.
pub open spec fn texts(v: Seq<String>) -> Seq<Seq<char>> {
    v.map_values(|s: String| s@)
}

/// In-memory store for peer descriptors, keyed by pseudonym, with the
/// peer-id mappings, pseudonym churn tracking and per-relay observations.
pub struct DescriptorStore {
    descriptors: Key32Map<PeerDescriptor>,
    peer_to_pseudonym: StrMap<[u8; 32]>,
    pseudonym_to_peer: Key32Map<String>,
    prev_epoch_pseudonyms: Key32Map<bool>,
    tracked_epoch: u64,
    new_pseudonyms_this_epoch: usize,
    relay_observations: Key32Map<RelayObservation>,
}

/// Keep only the keys of `m` that are keys of `keep`.
fn restrict_keys<V, W>(m: &mut Key32Map<V>, keep: &Key32Map<W>)
    requires
        old(m).wf(),
        keep.wf(),
    ensures
        final(m).wf(),
        final(m)@ == old(m)@.restrict(keep@.dom()),
{
    let mut doomed: Vec<[u8; 32]> = Vec::new();
    let mut i: usize = 0;
    let n = m.len();
    while i < n
        invariant
            m.wf(),
            keep.wf(),
            n == m.len_spec(),
            i <= n,
            forall|j: int| 0 <= j < doomed@.len() ==> m@.contains_key((#[trigger] doomed@[j])@)
                && !keep@.contains_key(doomed@[j]@),
            forall|j: int| 0 <= j < i && !keep@.contains_key(#[trigger] m.key_spec(j))
                ==> exists|t: int| 0 <= t < doomed@.len() && doomed@[t]@ == m.key_spec(j),
        decreases n - i,
    {
        let (k, _) = m.entry_at(i);
        let ghost before = doomed@;
        if !keep.contains_key(k) {
            doomed.push(*k);
            assert(doomed@[doomed@.len() - 1]@ == m.key_spec(i as int));
        }
        proof {
            assert forall|j: int| 0 <= j < i + 1 && !keep@.contains_key(#[trigger] m.key_spec(j))
                implies exists|t: int| 0 <= t < doomed@.len() && doomed@[t]@ == m.key_spec(j) by {
                if j < i {
                    let t = choose|t: int| 0 <= t < before.len() && before[t]@ == m.key_spec(j);
                    assert(doomed@[t] == before[t]);
                } else {
                    assert(doomed@[doomed@.len() - 1]@ == m.key_spec(j));
                }
            }
        }
        i = i + 1;
    }
    let ghost start = m@;
    proof {
        assert forall|k: Seq<u8>| #[trigger] start.contains_key(k) && !keep@.contains_key(k)
            implies exists|t: int| 0 <= t < doomed@.len() && doomed@[t]@ == k by {
            m.lemma_key_index(k);
            let j = choose|j: int| 0 <= j < m.len_spec() && #[trigger] m.key_spec(j) == k;
        }
    }
    let mut t: usize = 0;
    while t < doomed.len()
        invariant
            m.wf(),
            t <= doomed@.len(),
            forall|j: int| 0 <= j < doomed@.len() ==> !keep@.contains_key((#[trigger] doomed@[j])@),
            forall|k: Seq<u8>| #[trigger] m@.contains_key(k) <==> start.contains_key(k)
                && !(exists|j: int| 0 <= j < t && doomed@[j]@ == k),
            forall|k: Seq<u8>| m@.contains_key(k) ==> #[trigger] m@[k] == start[k],
        decreases doomed@.len() - t,
    {
        let key = doomed[t];
        m.remove(&key);
        proof {
            assert forall|k: Seq<u8>| #[trigger] m@.contains_key(k) <==> start.contains_key(k)
                && !(exists|j: int| 0 <= j < t + 1 && doomed@[j]@ == k) by {
                if exists|j: int| 0 <= j < t + 1 && doomed@[j]@ == k {
                    let j = choose|j: int| 0 <= j < t + 1 && doomed@[j]@ == k;
                    if j < t {
                        assert(exists|j2: int| 0 <= j2 < t && doomed@[j2]@ == k);
                    }
                }
                if !(exists|j: int| 0 <= j < t && doomed@[j]@ == k) && k != key@ {
                    assert forall|j: int| 0 <= j < t + 1 implies doomed@[j]@ != k by {
                        if j == t {
                        }
                    }
                }
            }
        }
        t = t + 1;
    }
    proof {
        assert forall|k: Seq<u8>| #[trigger] m@.contains_key(k) <==> start.restrict(keep@.dom()).contains_key(k) by {
            if start.contains_key(k) && keep@.contains_key(k) {
                if exists|j: int| 0 <= j < doomed@.len() && doomed@[j]@ == k {
                    let j = choose|j: int| 0 <= j < doomed@.len() && doomed@[j]@ == k;
                    assert(!keep@.contains_key(doomed@[j]@));
                }
            }
            if start.contains_key(k) && !keep@.contains_key(k) {
                let t2 = choose|t2: int| 0 <= t2 < doomed@.len() && doomed@[t2]@ == k;
            }
        }
        assert(m@ =~= start.restrict(keep@.dom()));
    }
}

impl DescriptorStore {
    /// The stored descriptors, by pseudonym.
    pub closed spec fn view(&self) -> Map<Seq<u8>, PeerDescriptor> {
        self.descriptors@
    }

    /// The registered peer id → pseudonym mapping.
    pub closed spec fn peer_map(&self) -> Map<Seq<char>, [u8; 32]> {
        self.peer_to_pseudonym@
    }

    /// The registered pseudonym → peer id mapping.
    pub closed spec fn pseudonym_map(&self) -> Map<Seq<u8>, Seq<char>> {
        self.pseudonym_to_peer@.map_values(|s: String| s@)
    }

    /// The relay observations, by pseudonym.
    pub closed spec fn observations(&self) -> Map<Seq<u8>, RelayObservation> {
        self.relay_observations@
    }

    /// The pseudonyms seen in the previous epoch.
    pub closed spec fn prev_pseudonyms(&self) -> Set<Seq<u8>> {
        self.prev_epoch_pseudonyms@.dom()
    }

    /// The epoch being tracked (0 before the first rotation).
    pub closed spec fn tracked_epoch_value(&self) -> u64 {
        self.tracked_epoch
    }

    /// Pseudonyms first seen in the tracked epoch.
    pub closed spec fn new_count_value(&self) -> usize {
        self.new_pseudonyms_this_epoch
    }

    /// Well-formed: every descriptor is stored under its pseudonym, and
    /// every relay observation's tier agrees with its evidence.
    pub closed spec fn wf(&self) -> bool {
        &&& self.descriptors.wf()
        &&& self.peer_to_pseudonym.wf()
        &&& self.pseudonym_to_peer.wf()
        &&& self.prev_epoch_pseudonyms.wf()
        &&& self.relay_observations.wf()
        &&& forall|k: Seq<u8>| #[trigger] self.descriptors@.contains_key(k) ==> self.descriptors@[k].pseudonym@ == k
        &&& forall|k: Seq<u8>| #[trigger] self.relay_observations@.contains_key(k)
            ==> self.relay_observations@[k].counts_fit() && self.relay_observations@[k].tier_consistent()
    }

    /// An empty store.
    pub fn new() -> (s: Self)
        ensures
            s.wf(),
            s@ == Map::<Seq<u8>, PeerDescriptor>::empty(),
            s.peer_map() == Map::<Seq<char>, [u8; 32]>::empty(),
            s.pseudonym_map() == Map::<Seq<u8>, Seq<char>>::empty(),
            s.observations() == Map::<Seq<u8>, RelayObservation>::empty(),
            s.prev_pseudonyms() == Set::<Seq<u8>>::empty(),
            s.tracked_epoch_value() == 0,
            s.new_count_value() == 0,
    {
        let s = DescriptorStore {
            descriptors: Key32Map::new(),
            peer_to_pseudonym: StrMap::new(),
            pseudonym_to_peer: Key32Map::new(),
            prev_epoch_pseudonyms: Key32Map::new(),
            tracked_epoch: 0,
            new_pseudonyms_this_epoch: 0,
            relay_observations: Key32Map::new(),
        };
        assert(s.pseudonym_map() =~= Map::<Seq<u8>, Seq<char>>::empty());
        s
    }

    /// Total descriptors stored.
    pub fn len(&self) -> (n: usize)
        requires
            self.wf(),
        ensures
            n == self@.dom().len(),
    {
        proof {
            self.descriptors.lemma_len();
        }
        self.descriptors.len()
    }

    /// Look up a descriptor by pseudonym.
    pub fn get(&self, pseudonym: &[u8; 32]) -> (r: Option<&PeerDescriptor>)
        requires
            self.wf(),
        ensures
            match r {
                Some(d) => self@.contains_key(pseudonym@) && self@[pseudonym@] == *d,
                None => !self@.contains_key(pseudonym@),
            },
    {
        self.descriptors.get(pseudonym)
    }

    /// Register a peer id ↔ pseudonym mapping.
    pub fn register_peer_pseudonym(&mut self, peer_id: &str, pseudonym: [u8; 32])
        requires
            old(self).wf(),
        ensures
            final(self).wf(),
            final(self).peer_map() == old(self).peer_map().insert(peer_id@, pseudonym),
            final(self).pseudonym_map() == old(self).pseudonym_map().insert(pseudonym@, peer_id@),
            final(self)@ == old(self)@,
            final(self).observations() == old(self).observations(),
            final(self).prev_pseudonyms() == old(self).prev_pseudonyms(),
            final(self).tracked_epoch_value() == old(self).tracked_epoch_value(),
            final(self).new_count_value() == old(self).new_count_value(),
    {
        self.peer_to_pseudonym.insert(peer_id, pseudonym);
        self.pseudonym_to_peer.insert(&pseudonym, crate::text::owned(peer_id));
        assert(self.pseudonym_map() =~= old(self).pseudonym_map().insert(pseudonym@, peer_id@));
    }

    /// Look up the peer id registered for a pseudonym.
    pub fn peer_for_pseudonym(&self, pseudonym: &[u8; 32]) -> (r: Option<&String>)
        requires
            self.wf(),
        ensures
            match r {
                Some(p) => self.pseudonym_map().contains_key(pseudonym@) && self.pseudonym_map()[pseudonym@] == p@,
                None => !self.pseudonym_map().contains_key(pseudonym@),
            },
    {
        self.pseudonym_to_peer.get(pseudonym)
    }

    /// Look up a descriptor by peer id (through its registered pseudonym).
    pub fn get_by_peer(&self, peer_id: &str) -> (r: Option<&PeerDescriptor>)
        requires
            self.wf(),
        ensures
            match r {
                Some(d) => self.peer_map().contains_key(peer_id@)
                    && self@.contains_key(self.peer_map()[peer_id@]@)
                    && self@[self.peer_map()[peer_id@]@] == *d,
                None => !self.peer_map().contains_key(peer_id@)
                    || !self@.contains_key(self.peer_map()[peer_id@]@),
            },
    {
        match self.peer_to_pseudonym.get(peer_id) {
            Some(ps) => self.descriptors.get(ps),
            None => None,
        }
    }

    /// The onion public key published by a peer's descriptor, if any.
    pub fn onion_pubkey_for_peer(&self, peer_id: &str) -> (r: Option<[u8; 32]>)
        requires
            self.wf(),
        ensures
            r == if self.peer_map().contains_key(peer_id@) && self@.contains_key(self.peer_map()[peer_id@]@) {
                self@[self.peer_map()[peer_id@]@].onion_pubkey
            } else {
                None::<[u8; 32]>
            },
    {
        match self.get_by_peer(peer_id) {
            Some(d) => d.onion_pubkey,
            None => None,
        }
    }

    /// Prune descriptors that are stale at Unix time `now`, with their peer
    /// mappings and relay observations; gives the number of descriptors removed.
    pub fn prune_stale_at(&mut self, now: u64) -> (removed: usize)
        requires
            old(self).wf(),
        ensures
            final(self).wf(),
            final(self)@ == fresh_part(old(self)@, now),
            final(self).peer_map() == old(self).peer_map().restrict(old(self).peer_map().dom().filter(
                |k: Seq<char>| final(self)@.contains_key(old(self).peer_map()[k]@))),
            final(self).pseudonym_map() == old(self).pseudonym_map().restrict(final(self)@.dom()),
            final(self).observations() == old(self).observations().restrict(final(self)@.dom()),
            final(self).prev_pseudonyms() == old(self).prev_pseudonyms(),
            final(self).tracked_epoch_value() == old(self).tracked_epoch_value(),
            final(self).new_count_value() == old(self).new_count_value(),
            removed == old(self)@.dom().len() - final(self)@.dom().len(),
    {
        proof {
            self.descriptors.lemma_len();
        }
        let before = self.descriptors.len();
        let keep = |d: &PeerDescriptor| -> (r: bool)
            ensures
                r == fresh_at_spec(*d, now),
            { is_fresh_at(d, now) };
        self.descriptors.retain(keep);
        proof {
            self.descriptors.lemma_len();
            assert(self.descriptors@ =~= fresh_part(old(self)@, now));
        }
        let descs = &self.descriptors;
        let keep_peer = |p: &[u8; 32]| -> (r: bool)
            requires
                descs.wf(),
            ensures
                r == descs@.contains_key(p@),
            { descs.contains_key(p) };
        self.peer_to_pseudonym.retain(keep_peer);
        restrict_keys(&mut self.pseudonym_to_peer, &self.descriptors);
        restrict_keys(&mut self.relay_observations, &self.descriptors);
        proof {
            assert(self.peer_to_pseudonym@ =~= old(self).peer_map().restrict(old(self).peer_map().dom().filter(
                |k: Seq<char>| self.descriptors@.contains_key(old(self).peer_map()[k]@))));
            assert(self.pseudonym_map() =~= old(self).pseudonym_map().restrict(self.descriptors@.dom()));
        }
        before - self.descriptors.len()
    }

    /// Prune descriptors that are stale now; gives the number removed.
    pub fn prune_stale(&mut self) -> (removed: usize)
        requires
            old(self).wf(),
        ensures
            final(self).wf(),
            exists|now: u64| final(self)@ == #[trigger] fresh_part(old(self)@, now),
            removed == old(self)@.dom().len() - final(self)@.dom().len(),
    {
        let now = now_unix_secs();
        self.prune_stale_at(now)
    }

    /// The pseudonym of a descriptor at least as old as every other at `now`.
    fn oldest_key_at(&self, now: u64) -> (r: Option<[u8; 32]>)
        requires
            self.wf(),
        ensures
            match r {
                Some(k) => is_oldest(self@, k@, now),
                None => self@.dom().len() == 0,
            },
    {
        proof {
            self.descriptors.lemma_len();
        }
        let n = self.descriptors.len();
        if n == 0 {
            return None;
        }
        let mut best: usize = 0;
        let mut best_age = self.descriptors.entry_at(0).1.age_secs_at(now);
        let mut i: usize = 1;
        while i < n
            invariant
                self.wf(),
                n == self.descriptors.len_spec(),
                1 <= i <= n,
                best < i,
                best_age == age_at_spec(self.descriptors.value_at(best as int).published_at, now),
                forall|j: int| 0 <= j < i ==> age_at_spec((#[trigger] self.descriptors.value_at(j)).published_at, now)
                    <= best_age,
            decreases n - i,
        {
            let a = self.descriptors.entry_at(i).1.age_secs_at(now);
            if a > best_age {
                best = i;
                best_age = a;
            }
            i = i + 1;
        }
        let (k, _) = self.descriptors.entry_at(best);
        proof {
            self.descriptors.lemma_entry_spec(best as int);
            assert forall|kk: Seq<u8>| #[trigger] self@.contains_key(kk) implies
                age_at_spec(self@[kk].published_at, now) <= age_at_spec(self@[k@].published_at, now) by {
                self.descriptors.lemma_key_index(kk);
                let j = choose|j: int| 0 <= j < self.descriptors.len_spec() && #[trigger] self.descriptors.key_spec(j) == kk;
                self.descriptors.lemma_entry_spec(j);
                assert(age_at_spec(self.descriptors.value_at(j).published_at, now) <= best_age);
            }
        }
        Some(*k)
    }

    /// Count a pseudonym as new in the tracked epoch when it was not seen in
    /// the previous one.
    fn track_pseudonym(&mut self, pseudonym: &[u8; 32])
        requires
            old(self).wf(),
            old(self).new_count_value() < usize::MAX,
        ensures
            final(self).wf(),
            final(self).new_count_value() == if old(self).tracked_epoch_value() > 0
                && !old(self).prev_pseudonyms().contains(pseudonym@) {
                (old(self).new_count_value() + 1) as usize
            } else {
                old(self).new_count_value()
            },
            final(self)@ == old(self)@,
            final(self).peer_map() == old(self).peer_map(),
            final(self).pseudonym_map() == old(self).pseudonym_map(),
            final(self).observations() == old(self).observations(),
            final(self).prev_pseudonyms() == old(self).prev_pseudonyms(),
            final(self).tracked_epoch_value() == old(self).tracked_epoch_value(),
    {
        if self.tracked_epoch > 0 && !self.prev_epoch_pseudonyms.contains_key(pseudonym) {
            self.new_pseudonyms_this_epoch = self.new_pseudonyms_this_epoch + 1;
        }
    }

    /// What inserting `desc` at time `now` makes of this store: `after` and
    /// whether it was accepted.
    pub open spec fn upsert_outcome(&self, after: DescriptorStore, desc: PeerDescriptor, now: u64, accepted: bool) -> bool {
        &&& (accepted == (fresh_at_spec(desc, now) && (!self@.contains_key(desc.pseudonym@)
                || desc.version > self@[desc.pseudonym@].version)))
        &&& (!accepted ==> after@ == self@ && after.peer_map() == self.peer_map()
                && after.pseudonym_map() == self.pseudonym_map()
                && after.observations() == self.observations()
                && after.new_count_value() == self.new_count_value())
        &&& (accepted && (self@.contains_key(desc.pseudonym@) || self@.dom().len() < MAX_DESCRIPTORS)
                ==> after@ == self@.insert(desc.pseudonym@, desc)
                && after.peer_map() == self.peer_map()
                && after.pseudonym_map() == self.pseudonym_map()
                && after.observations() == self.observations())
        &&& (accepted && !self@.contains_key(desc.pseudonym@) && self@.dom().len() >= MAX_DESCRIPTORS
                ==> ({
                    let pruned = fresh_part(self@, now);
                    if pruned.dom().len() < MAX_DESCRIPTORS {
                        after@ == pruned.insert(desc.pseudonym@, desc)
                    } else {
                        exists|e: Seq<u8>| is_oldest(pruned, e, now)
                            && after@ == #[trigger] pruned.remove(e).insert(desc.pseudonym@, desc)
                    }
                }))
        &&& (accepted ==> after.new_count_value() == if !self@.contains_key(desc.pseudonym@)
                && self.tracked_epoch_value() > 0 && !self.prev_pseudonyms().contains(desc.pseudonym@) {
                (self.new_count_value() + 1) as usize
            } else {
                self.new_count_value()
            })
        &&& (after.prev_pseudonyms() == self.prev_pseudonyms())
        &&& (after.tracked_epoch_value() == self.tracked_epoch_value())
    }

    /// Insert or update a descriptor at Unix time `now`; a newer version
    /// wins. Descriptors stale on arrival, and versions not newer than the
    /// stored one, are refused. A new pseudonym arriving at capacity first
    /// prunes stale descriptors and then, if still full, evicts the oldest.
    pub fn upsert_at(&mut self, desc: PeerDescriptor, now: u64) -> (accepted: bool)
        requires
            old(self).wf(),
            old(self).new_count_value() < usize::MAX,
        ensures
            final(self).wf(),
            accepted == (fresh_at_spec(desc, now) && (!old(self)@.contains_key(desc.pseudonym@)
                || desc.version > old(self)@[desc.pseudonym@].version)),
            !accepted ==> final(self)@ == old(self)@ && final(self).peer_map() == old(self).peer_map()
                && final(self).pseudonym_map() == old(self).pseudonym_map()
                && final(self).observations() == old(self).observations()
                && final(self).new_count_value() == old(self).new_count_value(),
            accepted && (old(self)@.contains_key(desc.pseudonym@) || old(self)@.dom().len() < MAX_DESCRIPTORS)
                ==> final(self)@ == old(self)@.insert(desc.pseudonym@, desc)
                && final(self).peer_map() == old(self).peer_map()
                && final(self).pseudonym_map() == old(self).pseudonym_map()
                && final(self).observations() == old(self).observations(),
            accepted && !old(self)@.contains_key(desc.pseudonym@) && old(self)@.dom().len() >= MAX_DESCRIPTORS
                ==> ({
                    let pruned = fresh_part(old(self)@, now);
                    if pruned.dom().len() < MAX_DESCRIPTORS {
                        final(self)@ == pruned.insert(desc.pseudonym@, desc)
                    } else {
                        exists|e: Seq<u8>| is_oldest(pruned, e, now)
                            && final(self)@ == #[trigger] pruned.remove(e).insert(desc.pseudonym@, desc)
                    }
                }),
            accepted ==> final(self).new_count_value() == if !old(self)@.contains_key(desc.pseudonym@)
                && old(self).tracked_epoch_value() > 0 && !old(self).prev_pseudonyms().contains(desc.pseudonym@) {
                (old(self).new_count_value() + 1) as usize
            } else {
                old(self).new_count_value()
            },
            final(self).prev_pseudonyms() == old(self).prev_pseudonyms(),
            final(self).tracked_epoch_value() == old(self).tracked_epoch_value(),
    {
        if !is_fresh_at(&desc, now) {
            return false;
        }
        let pseudonym = desc.pseudonym;
        match self.descriptors.get(&pseudonym) {
            Some(existing) => {
                if desc.version <= existing.version {
                    return false;
                }
            },
            None => {},
        }
        let existing = self.descriptors.contains_key(&pseudonym);
        proof {
            self.descriptors.lemma_len();
        }
        if !existing && self.descriptors.len() >= MAX_DESCRIPTORS {
            self.prune_stale_at(now);
            proof {
                self.descriptors.lemma_len();
            }
            if self.descriptors.len() >= MAX_DESCRIPTORS {
                let ghost pruned = self.descriptors@;
                match self.oldest_key_at(now) {
                    Some(oldest) => {
                        self.descriptors.remove(&oldest);
                        let drop_oldest = |p: &[u8; 32]| -> (r: bool)
                            ensures
                                r == (p@ != oldest@),
                            { !key32_eq(p, &oldest) };
                        self.peer_to_pseudonym.retain(drop_oldest);
                        proof {
                            assert(self.descriptors@ == pruned.remove(oldest@));
                            assert(!self.descriptors@.contains_key(pseudonym@));
                        }
                    },
                    None => {},
                }
            }
        }
        let ghost mid = self.descriptors@;
        proof {
            assert(forall|k: Seq<u8>| #[trigger] mid.contains_key(k) ==> old(self)@.contains_key(k));
        }
        if !existing {
            self.track_pseudonym(&pseudonym);
        }
        self.descriptors.insert(&pseudonym, desc);
        proof {
            assert(self.descriptors@ == mid.insert(pseudonym@, desc));
        }
        true
    }

    /// Insert or update a descriptor, judging staleness by the system clock.
    pub fn upsert(&mut self, desc: PeerDescriptor) -> (accepted: bool)
        requires
            old(self).wf(),
            old(self).new_count_value() < usize::MAX,
        ensures
            final(self).wf(),
            exists|now: u64| #[trigger] old(self).upsert_outcome(*final(self), desc, now, accepted),
    {
        let now = now_unix_secs();
        let accepted = self.upsert_at(desc, now);
        assert(old(self).upsert_outcome(*self, desc, now, accepted));
        accepted
    }

    /// The stored descriptors passing `pred`, in the store's order.
    pub closed spec fn matching(&self, pred: spec_fn(PeerDescriptor) -> bool) -> Seq<PeerDescriptor> {
        self.descriptors.values_where(pred, self.descriptors.len_spec() as int)
    }

    /// `matching` holds exactly the stored descriptors that pass `pred`.
    pub proof fn lemma_matching(&self, pred: spec_fn(PeerDescriptor) -> bool)
        requires
            self.wf(),
        ensures
            forall|x: PeerDescriptor| self.matching(pred).contains(x) <==> pred(x)
                && exists|k: Seq<u8>| #[trigger] self@.contains_key(k) && self@[k] == x,
    {
        self.descriptors.lemma_values_where(pred, self.descriptors.len_spec() as int);
        assert forall|x: PeerDescriptor| self.matching(pred).contains(x) <==> pred(x)
            && exists|k: Seq<u8>| #[trigger] self@.contains_key(k) && self@[k] == x by {
            if pred(x) && exists|k: Seq<u8>| #[trigger] self@.contains_key(k) && self@[k] == x {
                let k = choose|k: Seq<u8>| #[trigger] self@.contains_key(k) && self@[k] == x;
                self.descriptors.lemma_key_index(k);
                let j = choose|j: int| 0 <= j < self.descriptors.len_spec() && #[trigger] self.descriptors.key_spec(j) == k;
                self.descriptors.lemma_entry_spec(j);
                assert(self.descriptors.value_at(j) == x);
            }
            if self.matching(pred).contains(x) {
                let j = choose|j: int| 0 <= j < self.descriptors.len_spec() && #[trigger] self.descriptors.value_at(j) == x;
                self.descriptors.lemma_entry_spec(j);
                assert(self@.contains_key(self.descriptors.key_spec(j)));
            }
        }
    }

    fn collect_matching<F: Fn(&PeerDescriptor) -> bool>(&self, test: F, Ghost(pred): Ghost<spec_fn(PeerDescriptor) -> bool>)
        -> (r: Vec<&PeerDescriptor>)
        requires
            self.wf(),
            forall|d: &PeerDescriptor| #[trigger] test.requires((d,)),
            forall|d: &PeerDescriptor, b: bool| test.ensures((d,), b) ==> b == pred(*d),
        ensures
            derefs(r@) == self.matching(pred),
    {
        let mut out: Vec<&PeerDescriptor> = Vec::new();
        let mut i: usize = 0;
        let n = self.descriptors.len();
        while i < n
            invariant
                self.wf(),
                n == self.descriptors.len_spec(),
                i <= n,
                forall|d: &PeerDescriptor| #[trigger] test.requires((d,)),
                forall|d: &PeerDescriptor, b: bool| test.ensures((d,), b) ==> b == pred(*d),
                derefs(out@) == self.descriptors.values_where(pred, i as int),
            decreases n - i,
        {
            let (_, d) = self.descriptors.entry_at(i);
            let ghost before = out@;
            if test(d) {
                out.push(d);
                assert(derefs(out@) =~= derefs(before).push(*d));
            }
            i = i + 1;
        }
        out
    }

    fn count_matching<F: Fn(&PeerDescriptor) -> bool>(&self, test: F, Ghost(pred): Ghost<spec_fn(PeerDescriptor) -> bool>)
        -> (r: usize)
        requires
            self.wf(),
            forall|d: &PeerDescriptor| #[trigger] test.requires((d,)),
            forall|d: &PeerDescriptor, b: bool| test.ensures((d,), b) ==> b == pred(*d),
        ensures
            r == count_where(self@, pred),
    {
        let mut cnt: usize = 0;
        let mut i: usize = 0;
        let n = self.descriptors.len();
        while i < n
            invariant
                self.wf(),
                n == self.descriptors.len_spec(),
                i <= n,
                cnt <= i,
                forall|d: &PeerDescriptor| #[trigger] test.requires((d,)),
                forall|d: &PeerDescriptor, b: bool| test.ensures((d,), b) ==> b == pred(*d),
                cnt == self.descriptors.count_prefix(pred, i as int),
            decreases n - i,
        {
            let (_, d) = self.descriptors.entry_at(i);
            if test(d) {
                cnt = cnt + 1;
            }
            i = i + 1;
        }
        proof {
            self.descriptors.lemma_count_values(pred);
        }
        cnt
    }

    /// The relay-capable descriptors fresh at Unix time `now`.
    pub fn relay_descriptors_at(&self, now: u64) -> (r: Vec<&PeerDescriptor>)
        requires
            self.wf(),
        ensures
            derefs(r@) == self.matching(relay_pred(now)),
    {
        let test = |d: &PeerDescriptor| -> (b: bool)
            ensures
                b == relay_pred(now)(*d),
            { d.is_relay() && is_fresh_at(d, now) };
        self.collect_matching(test, Ghost(relay_pred(now)))
    }

    /// The relay-capable descriptors that are fresh now.
    pub fn relay_descriptors(&self) -> (r: Vec<&PeerDescriptor>)
        requires
            self.wf(),
        ensures
            exists|now: u64| derefs(r@) == self.matching(#[trigger] relay_pred(now)),
    {
        let now = now_unix_secs();
        self.relay_descriptors_at(now)
    }

    /// The descriptors credentialed at or above `min_tier` and fresh at `now`.
    pub fn descriptors_at_tier_at(&self, min_tier: CredentialTier, now: u64) -> (r: Vec<&PeerDescriptor>)
        requires
            self.wf(),
        ensures
            derefs(r@) == self.matching(tier_pred(min_tier, now)),
    {
        let test = |d: &PeerDescriptor| -> (b: bool)
            ensures
                b == tier_pred(min_tier, now)(*d),
            { d.meets_tier(min_tier) && is_fresh_at(d, now) };
        self.collect_matching(test, Ghost(tier_pred(min_tier, now)))
    }

    /// The descriptors credentialed at or above `min_tier` and fresh now.
    pub fn descriptors_at_tier(&self, min_tier: CredentialTier) -> (r: Vec<&PeerDescriptor>)
        requires
            self.wf(),
        ensures
            exists|now: u64| derefs(r@) == self.matching(#[trigger] tier_pred(min_tier, now)),
    {
        let now = now_unix_secs();
        self.descriptors_at_tier_at(min_tier, now)
    }

    /// The descriptors fresh at `now`.
    pub fn active_descriptors_at(&self, now: u64) -> (r: Vec<&PeerDescriptor>)
        requires
            self.wf(),
        ensures
            derefs(r@) == self.matching(active_pred(now)),
    {
        let test = |d: &PeerDescriptor| -> (b: bool)
            ensures
                b == active_pred(now)(*d),
            { is_fresh_at(d, now) };
        self.collect_matching(test, Ghost(active_pred(now)))
    }

    /// The descriptors fresh now.
    pub fn active_descriptors(&self) -> (r: Vec<&PeerDescriptor>)
        requires
            self.wf(),
        ensures
            exists|now: u64| derefs(r@) == self.matching(#[trigger] active_pred(now)),
    {
        let now = now_unix_secs();
        self.active_descriptors_at(now)
    }

    /// The number of rendezvous descriptors fresh at `now`.
    pub fn rendezvous_peer_count_at(&self, now: u64) -> (n: usize)
        requires
            self.wf(),
        ensures
            n == count_where(self@, rendezvous_pred(now)),
    {
        let test = |d: &PeerDescriptor| -> (b: bool)
            ensures
                b == rendezvous_pred(now)(*d),
            { d.is_rendezvous() && is_fresh_at(d, now) };
        self.count_matching(test, Ghost(rendezvous_pred(now)))
    }

    /// The number of rendezvous descriptors fresh now.
    pub fn rendezvous_peer_count(&self) -> (n: usize)
        requires
            self.wf(),
        ensures
            exists|now: u64| n == count_where(self@, #[trigger] rendezvous_pred(now)),
    {
        let now = now_unix_secs();
        self.rendezvous_peer_count_at(now)
    }

    // ── Relay trust observation ─────────────────────────────────────────────

    /// The current relay trust tier of a pseudonym (Claimed when unobserved).
    pub fn relay_tier(&self, pseudonym: &[u8; 32]) -> (t: RelayTrustTier)
        requires
            self.wf(),
        ensures
            t == tier_in(self.observations(), pseudonym@),
    {
        match self.relay_observations.get(pseudonym) {
            Some(o) => o.tier,
            None => RelayTrustTier::Claimed,
        }
    }

    /// The relay observation of a pseudonym.
    pub fn relay_observation(&self, pseudonym: &[u8; 32]) -> (r: Option<&RelayObservation>)
        requires
            self.wf(),
        ensures
            match r {
                Some(o) => self.observations().contains_key(pseudonym@) && self.observations()[pseudonym@] == *o,
                None => !self.observations().contains_key(pseudonym@),
            },
    {
        self.relay_observations.get(pseudonym)
    }

    fn observation_or_new(&self, pseudonym: &[u8; 32]) -> (o: RelayObservation)
        requires
            self.wf(),
        ensures
            o == obs_or_fresh(self.observations(), pseudonym@),
            o.counts_fit(),
            o.tier_consistent(),
    {
        match self.relay_observations.get(pseudonym) {
            Some(o) => *o,
            None => RelayObservation::new(),
        }
    }

    /// Record a successful relay operation for a pseudonym at Unix time `now`.
    pub fn record_relay_success_at(&mut self, pseudonym: &[u8; 32], now: u64)
        requires
            old(self).wf(),
            obs_or_fresh(old(self).observations(), pseudonym@).successes
                + obs_or_fresh(old(self).observations(), pseudonym@).failures < u32::MAX,
        ensures
            final(self).wf(),
            ({
                let b = obs_or_fresh(old(self).observations(), pseudonym@);
                let a = final(self).observations()[pseudonym@];
                &&& final(self).observations() == old(self).observations().insert(pseudonym@, a)
                &&& a.successes == b.successes + 1 && a.failures == b.failures
                &&& a.last_success_at == now && a.last_failure_at == b.last_failure_at
                &&& a.probe_succeeded_at == b.probe_succeeded_at
                &&& a.forwarding_verified_at == b.forwarding_verified_at
                &&& a.tier_consistent()
            }),
            final(self)@ == old(self)@,
            final(self).peer_map() == old(self).peer_map(),
            final(self).pseudonym_map() == old(self).pseudonym_map(),
    {
        let mut o = self.observation_or_new(pseudonym);
        o.record_success_at(now);
        self.relay_observations.insert(pseudonym, o);
    }

    /// Record a successful relay operation for a pseudonym now.
    pub fn record_relay_success(&mut self, pseudonym: &[u8; 32])
        requires
            old(self).wf(),
            obs_or_fresh(old(self).observations(), pseudonym@).successes
                + obs_or_fresh(old(self).observations(), pseudonym@).failures < u32::MAX,
        ensures
            final(self).wf(),
            final(self).observations()[pseudonym@].successes == obs_or_fresh(old(self).observations(), pseudonym@).successes + 1,
            final(self).observations()[pseudonym@].failures == obs_or_fresh(old(self).observations(), pseudonym@).failures,
            final(self).observations().dom() == old(self).observations().dom().insert(pseudonym@),
            final(self)@ == old(self)@,
    {
        let now = now_unix_secs();
        self.record_relay_success_at(pseudonym, now);
    }

    /// Record a failed relay operation for a pseudonym at Unix time `now`.
    pub fn record_relay_failure_at(&mut self, pseudonym: &[u8; 32], now: u64)
        requires
            old(self).wf(),
            obs_or_fresh(old(self).observations(), pseudonym@).successes
                + obs_or_fresh(old(self).observations(), pseudonym@).failures < u32::MAX,
        ensures
            final(self).wf(),
            ({
                let b = obs_or_fresh(old(self).observations(), pseudonym@);
                let a = final(self).observations()[pseudonym@];
                &&& final(self).observations() == old(self).observations().insert(pseudonym@, a)
                &&& a.failures == b.failures + 1 && a.successes == b.successes
                &&& a.last_failure_at == now && a.last_success_at == b.last_success_at
                &&& a.probe_succeeded_at == b.probe_succeeded_at
                &&& a.forwarding_verified_at == b.forwarding_verified_at
                &&& a.tier_consistent()
            }),
            final(self)@ == old(self)@,
            final(self).peer_map() == old(self).peer_map(),
            final(self).pseudonym_map() == old(self).pseudonym_map(),
    {
        let mut o = self.observation_or_new(pseudonym);
        o.record_failure_at(now);
        self.relay_observations.insert(pseudonym, o);
    }

    /// Record a failed relay operation for a pseudonym now.
    pub fn record_relay_failure(&mut self, pseudonym: &[u8; 32])
        requires
            old(self).wf(),
            obs_or_fresh(old(self).observations(), pseudonym@).successes
                + obs_or_fresh(old(self).observations(), pseudonym@).failures < u32::MAX,
        ensures
            final(self).wf(),
            final(self).observations()[pseudonym@].failures == obs_or_fresh(old(self).observations(), pseudonym@).failures + 1,
            final(self).observations()[pseudonym@].successes == obs_or_fresh(old(self).observations(), pseudonym@).successes,
            final(self).observations().dom() == old(self).observations().dom().insert(pseudonym@),
            final(self)@ == old(self)@,
    {
        let now = now_unix_secs();
        self.record_relay_failure_at(pseudonym, now);
    }

    /// Record a successful active probe for a pseudonym at Unix time `now`.
    pub fn record_probe_success_at(&mut self, pseudonym: &[u8; 32], now: u64)
        requires
            old(self).wf(),
        ensures
            final(self).wf(),
            ({
                let b = obs_or_fresh(old(self).observations(), pseudonym@);
                let a = final(self).observations()[pseudonym@];
                &&& final(self).observations() == old(self).observations().insert(pseudonym@, a)
                &&& a.probe_succeeded_at == Some(now)
                &&& a.successes == b.successes && a.failures == b.failures
                &&& a.forwarding_verified_at == b.forwarding_verified_at
                &&& a.tier_consistent()
            }),
            final(self)@ == old(self)@,
    {
        let mut o = self.observation_or_new(pseudonym);
        o.record_probe_success_at(now);
        self.relay_observations.insert(pseudonym, o);
    }

    /// Record a successful active probe for a pseudonym now.
    pub fn record_probe_success(&mut self, pseudonym: &[u8; 32])
        requires
            old(self).wf(),
        ensures
            final(self).wf(),
            final(self).observations()[pseudonym@].probe_succeeded_at is Some,
            final(self).observations().dom() == old(self).observations().dom().insert(pseudonym@),
            final(self)@ == old(self)@,
    {
        let now = now_unix_secs();
        self.record_probe_success_at(pseudonym, now);
    }

    /// Record a successful forwarding verification for a pseudonym at Unix time `now`.
    pub fn record_forwarding_verification_at(&mut self, pseudonym: &[u8; 32], now: u64)
        requires
            old(self).wf(),
        ensures
            final(self).wf(),
            ({
                let b = obs_or_fresh(old(self).observations(), pseudonym@);
                let a = final(self).observations()[pseudonym@];
                &&& final(self).observations() == old(self).observations().insert(pseudonym@, a)
                &&& a.forwarding_verified_at == Some(now)
                &&& a.successes == b.successes && a.failures == b.failures
                &&& a.probe_succeeded_at == b.probe_succeeded_at
                &&& a.tier_consistent()
            }),
            final(self)@ == old(self)@,
    {
        let mut o = self.observation_or_new(pseudonym);
        o.record_forwarding_verification_at(now);
        self.relay_observations.insert(pseudonym, o);
    }

    /// Record a successful forwarding verification for a pseudonym now.
    pub fn record_forwarding_verification(&mut self, pseudonym: &[u8; 32])
        requires
            old(self).wf(),
        ensures
            final(self).wf(),
            final(self).observations()[pseudonym@].forwarding_verified_at is Some,
            final(self).observations().dom() == old(self).observations().dom().insert(pseudonym@),
            final(self)@ == old(self)@,
    {
        let now = now_unix_secs();
        self.record_forwarding_verification_at(pseudonym, now);
    }

    /// Whether a pseudonym's observation has a probe result younger than
    /// `freshness_secs` at `now`.
    pub open spec fn probe_fresh_at(&self, pseudonym: Seq<u8>, freshness_secs: u64, now: u64) -> bool {
        self.observations().contains_key(pseudonym) && match self.observations()[pseudonym].probe_succeeded_at {
            Some(t) => age_at_spec(t, now) < freshness_secs,
            None => false,
        }
    }

    /// Whether a pseudonym has a probe result younger than `freshness_secs` at `now`.
    pub fn has_fresh_probe_at(&self, pseudonym: &[u8; 32], freshness_secs: u64, now: u64) -> (b: bool)
        requires
            self.wf(),
        ensures
            b == (self.observations().contains_key(pseudonym@) && match self.observations()[pseudonym@].probe_succeeded_at {
                Some(t) => age_at_spec(t, now) < freshness_secs,
                None => false,
            }),
    {
        match self.relay_observations.get(pseudonym) {
            Some(o) => o.has_fresh_probe_at(now, freshness_secs),
            None => false,
        }
    }

    /// Whether a pseudonym has a probe result younger than `freshness_secs` now.
    pub fn has_fresh_probe(&self, pseudonym: &[u8; 32], freshness_secs: u64) -> (b: bool)
        requires
            self.wf(),
        ensures
            exists|now: u64| b == #[trigger] self.probe_fresh_at(pseudonym@, freshness_secs, now),
    {
        let now = now_unix_secs();
        let b = self.has_fresh_probe_at(pseudonym, freshness_secs, now);
        assert(b == self.probe_fresh_at(pseudonym@, freshness_secs, now));
        b
    }

    /// The number of observations with a probe younger than `freshness_secs` at `now`.
    pub fn probed_fresh_count_at(&self, freshness_secs: u64, now: u64) -> (n: usize)
        requires
            self.wf(),
        ensures
            n == count_where(self.observations(), fresh_probe_pred(freshness_secs, now)),
    {
        let ghost pred = fresh_probe_pred(freshness_secs, now);
        let mut cnt: usize = 0;
        let mut i: usize = 0;
        let n = self.relay_observations.len();
        while i < n
            invariant
                self.wf(),
                n == self.relay_observations.len_spec(),
                i <= n,
                cnt <= i,
                pred == fresh_probe_pred(freshness_secs, now),
                cnt == self.relay_observations.count_prefix(pred, i as int),
            decreases n - i,
        {
            let (_, o) = self.relay_observations.entry_at(i);
            if o.has_fresh_probe_at(now, freshness_secs) {
                cnt = cnt + 1;
            }
            i = i + 1;
        }
        proof {
            self.relay_observations.lemma_count_values(pred);
        }
        cnt
    }

    /// The number of observations with a probe younger than `freshness_secs` now.
    pub fn probed_fresh_count(&self, freshness_secs: u64) -> (n: usize)
        requires
            self.wf(),
        ensures
            exists|now: u64| n == count_where(self.observations(), #[trigger] fresh_probe_pred(freshness_secs, now)),
    {
        let now = now_unix_secs();
        self.probed_fresh_count_at(freshness_secs, now)
    }

    /// The number of observations with forwarding verification evidence.
    pub fn forwarding_verified_count(&self) -> (n: usize)
        requires
            self.wf(),
        ensures
            n == count_where(self.observations(), forwarded_pred()),
    {
        let ghost pred = forwarded_pred();
        let mut cnt: usize = 0;
        let mut i: usize = 0;
        let n = self.relay_observations.len();
        while i < n
            invariant
                self.wf(),
                n == self.relay_observations.len_spec(),
                i <= n,
                cnt <= i,
                pred == forwarded_pred(),
                cnt == self.relay_observations.count_prefix(pred, i as int),
            decreases n - i,
        {
            let (_, o) = self.relay_observations.entry_at(i);
            if o.forwarding_verified_at.is_some() {
                cnt = cnt + 1;
            }
            i = i + 1;
        }
        proof {
            self.relay_observations.lemma_count_values(pred);
        }
        cnt
    }

    /// Halve every relay observation's counters (epoch decay).
    pub fn decay_relay_observations(&mut self)
        requires
            old(self).wf(),
        ensures
            final(self).wf(),
            final(self).observations().dom() == old(self).observations().dom(),
            forall|k: Seq<u8>| #[trigger] final(self).observations().contains_key(k) ==> {
                let a = final(self).observations()[k];
                let b = old(self).observations()[k];
                &&& a.successes == b.successes / 2 && a.failures == b.failures / 2
                &&& a.probe_succeeded_at == b.probe_succeeded_at
                &&& a.forwarding_verified_at == b.forwarding_verified_at
                &&& a.tier_consistent()
            },
            final(self)@ == old(self)@,
            final(self).peer_map() == old(self).peer_map(),
            final(self).pseudonym_map() == old(self).pseudonym_map(),
            final(self).prev_pseudonyms() == old(self).prev_pseudonyms(),
            final(self).tracked_epoch_value() == old(self).tracked_epoch_value(),
            final(self).new_count_value() == old(self).new_count_value(),
    {
        let n = self.relay_observations.len();
        let mut i: usize = 0;
        while i < n
            invariant
                self.wf(),
                old(self).wf(),
                n == self.relay_observations.len_spec(),
                n == old(self).relay_observations.len_spec(),
                i <= n,
                self.descriptors == old(self).descriptors,
                self.peer_to_pseudonym == old(self).peer_to_pseudonym,
                self.pseudonym_to_peer == old(self).pseudonym_to_peer,
                self.prev_epoch_pseudonyms == old(self).prev_epoch_pseudonyms,
                self.tracked_epoch == old(self).tracked_epoch,
                self.new_pseudonyms_this_epoch == old(self).new_pseudonyms_this_epoch,
                self.relay_observations@.dom() == old(self).relay_observations@.dom(),
                forall|j: int| 0 <= j < n ==> #[trigger] self.relay_observations.key_spec(j) == old(self).relay_observations.key_spec(j),
                forall|k: Seq<u8>| #[trigger] self.relay_observations@.contains_key(k) ==> {
                    let a = self.relay_observations@[k];
                    let b = old(self).relay_observations@[k];
                    let done = exists|j: int| 0 <= j < i && old(self).relay_observations.key_spec(j) == k;
                    &&& done ==> a.successes == b.successes / 2 && a.failures == b.failures / 2
                        && a.probe_succeeded_at == b.probe_succeeded_at
                        && a.forwarding_verified_at == b.forwarding_verified_at
                    &&& !done ==> a == b
                },
            decreases n - i,
        {
            let (k, o) = self.relay_observations.entry_at(i);
            let key = *k;
            let mut o2 = *o;
            o2.decay();
            proof {
                old(self).relay_observations.lemma_entry_spec(i as int);
            }
            proof {
                assert(self.relay_observations.key_spec(i as int) == key@);
                assert(old(self).relay_observations.key_spec(i as int) == key@);
                assert forall|j: int| 0 <= j < i implies old(self).relay_observations.key_spec(j) != key@ by {
                    old(self).relay_observations.lemma_keys_distinct(j, i as int);
                }
                assert(self.relay_observations@.contains_key(key@));
                assert(self.relay_observations@[key@] == old(self).relay_observations@[key@]);
            }
            let ghost mid = self.relay_observations@;
            self.relay_observations.set_value_at(i, o2);
            proof {
                assert forall|kk: Seq<u8>| #[trigger] self.relay_observations@.contains_key(kk) implies {
                    let a = self.relay_observations@[kk];
                    let b = old(self).relay_observations@[kk];
                    let done = exists|j: int| 0 <= j < i + 1 && old(self).relay_observations.key_spec(j) == kk;
                    &&& done ==> a.successes == b.successes / 2 && a.failures == b.failures / 2
                        && a.probe_succeeded_at == b.probe_succeeded_at
                        && a.forwarding_verified_at == b.forwarding_verified_at
                    &&& !done ==> a == b
                } by {
                    if kk == key@ {
                        assert(self.relay_observations.key_spec(i as int) == kk);
                        assert forall|j: int| 0 <= j < i implies old(self).relay_observations.key_spec(j) != kk by {
                            old(self).relay_observations.lemma_keys_distinct(j, i as int);
                        }
                        assert(mid.contains_key(kk));
                        assert(mid[kk] == old(self).relay_observations@[kk]);
                    } else {
                        assert(self.relay_observations@[kk] == mid[kk]);
                        assert(mid.contains_key(kk));
                        if exists|j: int| 0 <= j < i + 1 && old(self).relay_observations.key_spec(j) == kk {
                            let j = choose|j: int| 0 <= j < i + 1 && old(self).relay_observations.key_spec(j) == kk;
                            assert(j != i);
                            assert(exists|j2: int| 0 <= j2 < i && old(self).relay_observations.key_spec(j2) == kk);
                        }
                    }
                }
            }
            i = i + 1;
        }
        proof {
            assert forall|k: Seq<u8>| #[trigger] self.relay_observations@.contains_key(k) implies
                exists|j: int| 0 <= j < n && old(self).relay_observations.key_spec(j) == k by {
                self.relay_observations.lemma_key_index(k);
                let j = choose|j: int| 0 <= j < self.relay_observations.len_spec() && #[trigger] self.relay_observations.key_spec(j) == k;
                assert(old(self).relay_observations.key_spec(j) == k);
            }
        }
    }

    /// The relay descriptors fresh at `now` with registered peer ids and
    /// relay tier `t`, in the store's order.
    pub open spec fn routable(&self, now: u64, t: RelayTrustTier) -> Seq<PeerDescriptor> {
        self.matching(routable_pred(self.pseudonym_map(), self.observations(), now, t))
    }

    /// The peer id and address texts routing reaches a descriptor by.
    pub open spec fn route_of(&self, d: PeerDescriptor) -> (Seq<char>, Seq<Seq<char>>) {
        (self.pseudonym_map()[d.pseudonym@], texts(d.addresses@))
    }

    fn collect_routable(&self, now: u64, t: RelayTrustTier, own: Option<&[u8; 32]>) -> (r: Vec<&PeerDescriptor>)
        requires
            self.wf(),
        ensures
            derefs(r@) == match own {
                None => self.routable(now, t),
                Some(o) => self.matching(intro_candidate_pred(self.pseudonym_map(), self.observations(), now, o@, t)),
            },
    {
        let store = self;
        let test = |d: &PeerDescriptor| -> (b: bool)
            requires
                store.wf(),
            ensures
                b == match own {
                    None => routable_pred(store.pseudonym_map(), store.observations(), now, t)(*d),
                    Some(o) => intro_candidate_pred(store.pseudonym_map(), store.observations(), now, o@, t)(*d),
                },
            {
                let base = d.is_relay() && is_fresh_at(d, now) && store.pseudonym_to_peer.contains_key(&d.pseudonym)
                    && store.relay_tier(&d.pseudonym) == t;
                proof {
                    assert(store.pseudonym_map().contains_key(d.pseudonym@) == store.pseudonym_to_peer@.contains_key(d.pseudonym@));
                }
                match own {
                    None => base,
                    Some(o) => base && !key32_eq(&d.pseudonym, o),
                }
            };
        let ghost pred = match own {
            None => routable_pred(self.pseudonym_map(), self.observations(), now, t),
            Some(o) => intro_candidate_pred(self.pseudonym_map(), self.observations(), now, o@, t),
        };
        self.collect_matching(test, Ghost(pred))
    }

    /// Routable relays' peer ids and addresses at Unix time `now`: relay-capable,
    /// fresh, with a registered peer id, best relay tier first (store order
    /// within a tier).
    pub fn relay_peer_info_at(&self, now: u64) -> (r: Vec<(String, Vec<String>)>)
        requires
            self.wf(),
        ensures
            r@.map_values(|e: (String, Vec<String>)| (e.0@, texts(e.1@)))
                == (self.routable(now, RelayTrustTier::Verified) + self.routable(now, RelayTrustTier::Observed)
                    + self.routable(now, RelayTrustTier::Claimed)).map_values(|d: PeerDescriptor| self.route_of(d)),
    {
        let mut out: Vec<(String, Vec<String>)> = Vec::new();
        let ghost mut done: Seq<PeerDescriptor> = Seq::empty();
        let tiers = [RelayTrustTier::Verified, RelayTrustTier::Observed, RelayTrustTier::Claimed];
        let mut ti: usize = 0;
        while ti < 3
            invariant
                self.wf(),
                ti <= 3,
                tiers@ == tiers_desc(),
                done == if ti == 0 { Seq::<PeerDescriptor>::empty() } else if ti == 1 {
                    self.routable(now, RelayTrustTier::Verified)
                } else if ti == 2 {
                    self.routable(now, RelayTrustTier::Verified) + self.routable(now, RelayTrustTier::Observed)
                } else {
                    self.routable(now, RelayTrustTier::Verified) + self.routable(now, RelayTrustTier::Observed)
                        + self.routable(now, RelayTrustTier::Claimed)
                },
                out@.map_values(|e: (String, Vec<String>)| (e.0@, texts(e.1@)))
                    == done.map_values(|d: PeerDescriptor| self.route_of(d)),
            decreases 3 - ti,
        {
            let t = tiers[ti];
            let ds = self.collect_routable(now, t, None);
            proof {
                self.lemma_matching(routable_pred(self.pseudonym_map(), self.observations(), now, t));
            }
            let mut j: usize = 0;
            let ghost start = done;
            while j < ds.len()
                invariant
                    self.wf(),
                    j <= ds@.len(),
                    derefs(ds@) == self.routable(now, t),
                    forall|x: PeerDescriptor| self.routable(now, t).contains(x) ==> self.pseudonym_map().contains_key(x.pseudonym@),
                    done == start + derefs(ds@).take(j as int),
                    out@.map_values(|e: (String, Vec<String>)| (e.0@, texts(e.1@)))
                        == done.map_values(|d: PeerDescriptor| self.route_of(d)),
                decreases ds@.len() - j,
            {
                let d = ds[j];
                assert(self.routable(now, t).contains(*d)) by {
                    assert(derefs(ds@)[j as int] == *d);
                }
                let pid = match self.pseudonym_to_peer.get(&d.pseudonym) {
                    Some(p) => p.clone(),
                    None => {
                        proof {
                            assert(false);
                        }
                        String::new()
                    },
                };
                let addrs = d.addresses.clone();
                proof {
                    assert(addrs@ =~= d.addresses@);
                    assert(pid@ == self.pseudonym_map()[d.pseudonym@]);
                }
                let ghost entry = (pid@, texts(addrs@));
                let ghost before_out = out@;
                out.push((pid, addrs));
                assert(out@.map_values(|e: (String, Vec<String>)| (e.0@, texts(e.1@)))
                    =~= before_out.map_values(|e: (String, Vec<String>)| (e.0@, texts(e.1@))).push(entry));
                proof {
                    assert(derefs(ds@).take(j + 1) =~= derefs(ds@).take(j as int).push(*d));
                    done = start + derefs(ds@).take(j + 1);
                    assert(done =~= (start + derefs(ds@).take(j as int)).push(*d));
                    assert(out@.map_values(|e: (String, Vec<String>)| (e.0@, texts(e.1@)))
                        =~= done.map_values(|d: PeerDescriptor| self.route_of(d)));
                }
                j = j + 1;
            }
            proof {
                assert(derefs(ds@).take(ds@.len() as int) =~= derefs(ds@));
                assert(tiers@[ti as int] == t);
            }
            ti = ti + 1;
        }
        out
    }

    /// Routable relays' peer ids and addresses now, best relay tier first.
    pub fn relay_peer_info(&self) -> (r: Vec<(String, Vec<String>)>)
        requires
            self.wf(),
        ensures
            exists|now: u64| r@.map_values(|e: (String, Vec<String>)| (e.0@, texts(e.1@)))
                == (self.routable(now, RelayTrustTier::Verified) + self.routable(now, RelayTrustTier::Observed)
                    + #[trigger] self.routable(now, RelayTrustTier::Claimed)).map_values(|d: PeerDescriptor| self.route_of(d)),
    {
        let now = now_unix_secs();
        self.relay_peer_info_at(now)
    }

    /// The introduction-point candidates of tier `t` other than `own`, in
    /// the store's order.
    pub open spec fn intro_candidates(&self, now: u64, own: Seq<u8>, t: RelayTrustTier) -> Seq<PeerDescriptor> {
        self.matching(intro_candidate_pred(self.pseudonym_map(), self.observations(), now, own, t))
    }

    /// All introduction-point candidates other than `own`, best tier first.
    pub open spec fn all_intro_candidates(&self, now: u64, own: Seq<u8>) -> Seq<PeerDescriptor> {
        self.intro_candidates(now, own, RelayTrustTier::Verified) + self.intro_candidates(now, own, RelayTrustTier::Observed)
            + self.intro_candidates(now, own, RelayTrustTier::Claimed)
    }

    /// Pick up to `count` introduction points for a node with pseudonym
    /// `own` at Unix time `now`: relay-capable, fresh, with a registered peer
    /// id, not `own`, best relay tier first.
    pub fn select_intro_points_at(&self, own: &[u8; 32], count: usize, now: u64) -> (r: Vec<[u8; 32]>)
        requires
            self.wf(),
        ensures
            r@.map_values(|k: [u8; 32]| k@) == ({
                let all = self.all_intro_candidates(now, own@);
                if count < all.len() { all.take(count as int) } else { all }
            }).map_values(|d: PeerDescriptor| d.pseudonym@),
    {
        let mut out: Vec<[u8; 32]> = Vec::new();
        let ghost all = self.all_intro_candidates(now, own@);
        let ghost mut done: Seq<PeerDescriptor> = Seq::empty();
        let tiers = [RelayTrustTier::Verified, RelayTrustTier::Observed, RelayTrustTier::Claimed];
        let mut ti: usize = 0;
        while ti < 3 && out.len() < count
            invariant
                self.wf(),
                ti <= 3,
                tiers@ == tiers_desc(),
                all == self.all_intro_candidates(now, own@),
                out@.len() <= count,
                out@.len() == done.len(),
                done.len() < count ==> done == if ti == 0 { Seq::<PeerDescriptor>::empty() } else if ti == 1 {
                    self.intro_candidates(now, own@, RelayTrustTier::Verified)
                } else if ti == 2 {
                    self.intro_candidates(now, own@, RelayTrustTier::Verified)
                        + self.intro_candidates(now, own@, RelayTrustTier::Observed)
                } else {
                    all
                },
                done.len() <= all.len(),
                done == all.take(done.len() as int),
                out@.map_values(|k: [u8; 32]| k@) == done.map_values(|d: PeerDescriptor| d.pseudonym@),
            decreases 3 - ti,
        {
            let t = tiers[ti];
            let ds = self.collect_routable(now, t, Some(own));
            let ghost start = done;
            let ghost prefix = if ti == 0 { Seq::<PeerDescriptor>::empty() } else if ti == 1 {
                self.intro_candidates(now, own@, RelayTrustTier::Verified)
            } else {
                self.intro_candidates(now, own@, RelayTrustTier::Verified)
                    + self.intro_candidates(now, own@, RelayTrustTier::Observed)
            };
            proof {
                assert(tiers@[ti as int] == t);
                assert(start == prefix);
                assert(all =~= prefix + derefs(ds@) + if ti == 0 {
                    self.intro_candidates(now, own@, RelayTrustTier::Observed)
                        + self.intro_candidates(now, own@, RelayTrustTier::Claimed)
                } else if ti == 1 {
                    self.intro_candidates(now, own@, RelayTrustTier::Claimed)
                } else {
                    Seq::<PeerDescriptor>::empty()
                });
            }
            let mut j: usize = 0;
            while j < ds.len() && out.len() < count
                invariant
                    j <= ds@.len(),
                    out@.len() <= count,
                    out@.len() == done.len(),
                    done == start + derefs(ds@).take(j as int),
                    start.len() + ds@.len() <= all.len(),
                    all.take((start.len() + ds@.len()) as int) == start + derefs(ds@),
                    out@.map_values(|k: [u8; 32]| k@) == done.map_values(|d: PeerDescriptor| d.pseudonym@),
                decreases ds@.len() - j,
            {
                let d = ds[j];
                let ghost before_out = out@;
                out.push(d.pseudonym);
                proof {
                    assert(derefs(ds@).take(j + 1) =~= derefs(ds@).take(j as int).push(*d));
                    done = start + derefs(ds@).take(j + 1);
                    assert(done =~= (start + derefs(ds@).take(j as int)).push(*d));
                    assert(out@.map_values(|k: [u8; 32]| k@)
                        =~= before_out.map_values(|k: [u8; 32]| k@).push(d.pseudonym@));
                    assert(out@.map_values(|k: [u8; 32]| k@) =~= done.map_values(|d: PeerDescriptor| d.pseudonym@));
                }
                j = j + 1;
            }
            proof {
                assert(all.take((start.len() + ds@.len()) as int).take(done.len() as int) =~= all.take(done.len() as int));
                assert((start + derefs(ds@)).take(done.len() as int) =~= done);
                if done.len() < count {
                    assert(j == ds@.len());
                    assert(derefs(ds@).take(ds@.len() as int) =~= derefs(ds@));
                }
            }
            ti = ti + 1;
        }
        proof {
            if done.len() < count {
                assert(done == all);
            }
        }
        out
    }

    /// Pick up to `count` introduction points now.
    pub fn select_intro_points(&self, own: &[u8; 32], count: usize) -> (r: Vec<[u8; 32]>)
        requires
            self.wf(),
        ensures
            exists|now: u64| r@.map_values(|k: [u8; 32]| k@) == ({
                let all = #[trigger] self.all_intro_candidates(now, own@);
                if count < all.len() { all.take(count as int) } else { all }
            }).map_values(|d: PeerDescriptor| d.pseudonym@),
    {
        let now = now_unix_secs();
        self.select_intro_points_at(own, count, now)
    }

    /// Counts of the relay-capable descriptors fresh at `now`, by relay tier:
    /// (Claimed, Observed, Verified).
    pub fn relay_tier_counts_at(&self, now: u64) -> (r: (usize, usize, usize))
        requires
            self.wf(),
        ensures
            r.0 == count_where(self@, relay_tier_pred(self.observations(), now, RelayTrustTier::Claimed)),
            r.1 == count_where(self@, relay_tier_pred(self.observations(), now, RelayTrustTier::Observed)),
            r.2 == count_where(self@, relay_tier_pred(self.observations(), now, RelayTrustTier::Verified)),
    {
        (self.count_relay_tier(now, RelayTrustTier::Claimed), self.count_relay_tier(now, RelayTrustTier::Observed),
            self.count_relay_tier(now, RelayTrustTier::Verified))
    }

    fn count_relay_tier(&self, now: u64, t: RelayTrustTier) -> (n: usize)
        requires
            self.wf(),
        ensures
            n == count_where(self@, relay_tier_pred(self.observations(), now, t)),
    {
        let store = self;
        let test = |d: &PeerDescriptor| -> (b: bool)
            requires
                store.wf(),
            ensures
                b == relay_tier_pred(store.observations(), now, t)(*d),
            { d.is_relay() && is_fresh_at(d, now) && store.relay_tier(&d.pseudonym) == t };
        self.count_matching(test, Ghost(relay_tier_pred(self.observations(), now, t)))
    }

    /// Counts of the relay-capable descriptors fresh now, by relay tier.
    pub fn relay_tier_counts(&self) -> (r: (usize, usize, usize))
        requires
            self.wf(),
        ensures
            exists|now: u64| r.2 == count_where(self@, #[trigger] relay_tier_pred(self.observations(), now, RelayTrustTier::Verified))
                && r.1 == count_where(self@, relay_tier_pred(self.observations(), now, RelayTrustTier::Observed))
                && r.0 == count_where(self@, relay_tier_pred(self.observations(), now, RelayTrustTier::Claimed)),
    {
        let now = now_unix_secs();
        self.relay_tier_counts_at(now)
    }

    /// What the onion layer learns of a relay: its peer id bytes, onion key
    /// and first address (as UTF-8 bytes, empty without one), when it has an
    /// onion key and its peer id text is a peer id.
    pub open spec fn onion_info_of(&self, d: PeerDescriptor) -> Option<(Seq<u8>, [u8; 32], Seq<u8>)> {
        match (d.onion_pubkey, peer_id_bytes_of(self.pseudonym_map()[d.pseudonym@])) {
            (Some(k), Some(b)) => Some((b, k, if d.addresses@.len() > 0 {
                encode_utf8(d.addresses@[0]@)
            } else {
                Seq::<u8>::empty()
            })),
            _ => None,
        }
    }

    /// The onion information of the descriptors that have it, in order.
    pub open spec fn onion_infos(&self, ds: Seq<PeerDescriptor>) -> Seq<(Seq<u8>, [u8; 32], Seq<u8>)>
        decreases ds.len(),
    {
        if ds.len() == 0 {
            Seq::empty()
        } else {
            self.onion_infos(ds.drop_last()) + match self.onion_info_of(ds.last()) {
                Some(i) => seq![i],
                None => Seq::empty(),
            }
        }
    }

    /// Relays usable for onion routing at time `now`: fresh relay
    /// descriptors with a known peer and an onion key, Verified relays first,
    /// then Observed, then Claimed.
    pub fn relay_onion_info_at(&self, now: u64) -> (r: Vec<RelayInfo>)
        requires
            self.wf(),
        ensures
            r@.map_values(|i: RelayInfo| (i.peer_id@, i.onion_pubkey, i.addr@)) == self.onion_infos(
                self.routable(now, RelayTrustTier::Verified) + self.routable(now, RelayTrustTier::Observed)
                    + self.routable(now, RelayTrustTier::Claimed)),
    {
        let mut out: Vec<RelayInfo> = Vec::new();
        let ghost mut done: Seq<PeerDescriptor> = Seq::empty();
        let tiers = [RelayTrustTier::Verified, RelayTrustTier::Observed, RelayTrustTier::Claimed];
        let mut ti: usize = 0;
        while ti < 3
            invariant
                self.wf(),
                ti <= 3,
                tiers@ == tiers_desc(),
                done == if ti == 0 { Seq::<PeerDescriptor>::empty() } else if ti == 1 {
                    self.routable(now, RelayTrustTier::Verified)
                } else if ti == 2 {
                    self.routable(now, RelayTrustTier::Verified) + self.routable(now, RelayTrustTier::Observed)
                } else {
                    self.routable(now, RelayTrustTier::Verified) + self.routable(now, RelayTrustTier::Observed)
                        + self.routable(now, RelayTrustTier::Claimed)
                },
                out@.map_values(|i: RelayInfo| (i.peer_id@, i.onion_pubkey, i.addr@)) == self.onion_infos(done),
            decreases 3 - ti,
        {
            let t = tiers[ti];
            let ds = self.collect_routable(now, t, None);
            proof {
                self.lemma_matching(routable_pred(self.pseudonym_map(), self.observations(), now, t));
            }
            let mut j: usize = 0;
            let ghost start = done;
            while j < ds.len()
                invariant
                    self.wf(),
                    j <= ds@.len(),
                    derefs(ds@) == self.routable(now, t),
                    forall|x: PeerDescriptor| self.routable(now, t).contains(x) ==> self.pseudonym_map().contains_key(x.pseudonym@),
                    done == start + derefs(ds@).take(j as int),
                    out@.map_values(|i: RelayInfo| (i.peer_id@, i.onion_pubkey, i.addr@)) == self.onion_infos(done),
                decreases ds@.len() - j,
            {
                let d = ds[j];
                let ghost prev = done;
                proof {
                    done = done.push(*d);
                    assert(derefs(ds@).take(j + 1) =~= derefs(ds@).take(j as int).push(*d));
                    assert(done.drop_last() =~= prev);
                    assert(self.routable(now, t).contains(*d)) by {
                        assert(derefs(ds@)[j as int] == *d);
                    }
                }
                let ghost before = out@;
                match d.onion_pubkey {
                    Some(k) => {
                        let peer = self.peer_for_pseudonym(&d.pseudonym);
                        match peer {
                            Some(p) => {
                                match peer_id_bytes(p.as_str()) {
                                    Some(b) => {
                                        let addr = if d.addresses.len() > 0 {
                                            let mut v: Vec<u8> = Vec::new();
                                            crate::bytes::extend_bytes(&mut v, d.addresses[0].as_str().as_bytes());
                                            v
                                        } else {
                                            Vec::new()
                                        };
                                        out.push(RelayInfo { peer_id: b, onion_pubkey: k, addr });
                                        proof {
                                            assert(out@.map_values(|i: RelayInfo| (i.peer_id@, i.onion_pubkey, i.addr@))
                                                =~= before.map_values(|i: RelayInfo| (i.peer_id@, i.onion_pubkey, i.addr@))
                                                .push(self.onion_info_of(*d)->0));
                                        }
                                    },
                                    None => {},
                                }
                            },
                            None => {},
                        }
                    },
                    None => {},
                }
                j = j + 1;
            }
            proof {
                assert(derefs(ds@).take(ds@.len() as int) =~= derefs(ds@));
            }
            ti = ti + 1;
        }
        out
    }

    /// Relays usable for onion routing now.
    pub fn relay_onion_info(&self) -> (r: Vec<RelayInfo>)
        requires
            self.wf(),
        ensures
            exists|now: u64| r@.map_values(|i: RelayInfo| (i.peer_id@, i.onion_pubkey, i.addr@)) == self.onion_infos(
                #[trigger] self.routable(now, RelayTrustTier::Verified) + self.routable(now, RelayTrustTier::Observed)
                    + self.routable(now, RelayTrustTier::Claimed)),
    {
        let now = now_unix_secs();
        self.relay_onion_info_at(now)
    }

    /// The counting part of the store's diagnostics at time `now`: every
    /// field of the diagnostics snapshot but the churn rate.
    pub fn stats_counts_at(&self, now: u64) -> (c: DescriptorCounts)
        requires
            self.wf(),
        ensures
            c.total_descriptors == self@.dom().len(),
            c.relay_descriptors == count_where(self@, |d: PeerDescriptor| d.capabilities.can_relay),
            c.relayed_descriptors == count_where(self@, |d: PeerDescriptor| d.reachability is Relayed),
            c.rendezvous_descriptors == count_where(self@, rendezvous_pred(now)),
            c.credentialed_descriptors == count_where(self@, |d: PeerDescriptor| d.credential is Some),
            c.bbs_credentialed_descriptors == count_where(self@, |d: PeerDescriptor| d.bbs_proof is Some),
            c.stale_descriptors == count_where(self@, |d: PeerDescriptor| !fresh_at_spec(d, now)),
            c.relay_peers_routable == (self.routable(now, RelayTrustTier::Verified)
                + self.routable(now, RelayTrustTier::Observed) + self.routable(now, RelayTrustTier::Claimed)).len(),
            c.relay_verified == count_where(self@, relay_tier_pred(self.observations(), now, RelayTrustTier::Verified)),
            c.relay_observed == count_where(self@, relay_tier_pred(self.observations(), now, RelayTrustTier::Observed)),
            c.relay_claimed == count_where(self@, relay_tier_pred(self.observations(), now, RelayTrustTier::Claimed)),
            c.probed_fresh == count_where(self.observations(), fresh_probe_pred(300, now)),
            c.forwarding_verified_count == count_where(self.observations(), forwarded_pred()),
    {
        let relay = |d: &PeerDescriptor| -> (b: bool)
            ensures
                b == d.capabilities.can_relay,
            { d.is_relay() };
        let relayed = |d: &PeerDescriptor| -> (b: bool)
            ensures
                b == (d.reachability is Relayed),
            { d.is_relayed() };
        let credentialed = |d: &PeerDescriptor| -> (b: bool)
            ensures
                b == (d.credential is Some),
            { d.credential.is_some() };
        let bbs = |d: &PeerDescriptor| -> (b: bool)
            ensures
                b == (d.bbs_proof is Some),
            { d.bbs_proof.is_some() };
        let stale = |d: &PeerDescriptor| -> (b: bool)
            ensures
                b == !fresh_at_spec(*d, now),
            { !is_fresh_at(d, now) };
        let (relay_claimed, relay_observed, relay_verified) = self.relay_tier_counts_at(now);
        let routable = self.relay_peer_info_at(now);
        proof {
            let m = routable@.map_values(|e: (String, Vec<String>)| (e.0@, texts(e.1@)));
            assert(m.len() == routable@.len());
        }
        DescriptorCounts {
            total_descriptors: self.len(),
            relay_descriptors: self.count_matching(relay, Ghost(|d: PeerDescriptor| d.capabilities.can_relay)),
            relayed_descriptors: self.count_matching(relayed, Ghost(|d: PeerDescriptor| d.reachability is Relayed)),
            rendezvous_descriptors: self.rendezvous_peer_count_at(now),
            credentialed_descriptors: self.count_matching(credentialed, Ghost(|d: PeerDescriptor| d.credential is Some)),
            bbs_credentialed_descriptors: self.count_matching(bbs, Ghost(|d: PeerDescriptor| d.bbs_proof is Some)),
            stale_descriptors: self.count_matching(stale, Ghost(|d: PeerDescriptor| !fresh_at_spec(d, now))),
            relay_peers_routable: routable.len(),
            relay_claimed,
            relay_observed,
            relay_verified,
            probed_fresh: self.probed_fresh_count_at(300, now),
            forwarding_verified_count: self.forwarding_verified_count(),
        }
    }

    /// Start tracking a new epoch: the current pseudonyms become the previous
    /// epoch's, the count of new arrivals restarts, and relay observations
    /// decay. An epoch not later than the tracked one is ignored.
    pub fn on_epoch_rotate(&mut self, new_epoch: u64)
        requires
            old(self).wf(),
        ensures
            final(self).wf(),
            final(self)@ == old(self)@,
            final(self).peer_map() == old(self).peer_map(),
            final(self).pseudonym_map() == old(self).pseudonym_map(),
            new_epoch <= old(self).tracked_epoch_value() && old(self).tracked_epoch_value() > 0 ==> {
                &&& final(self).observations() == old(self).observations()
                &&& final(self).prev_pseudonyms() == old(self).prev_pseudonyms()
                &&& final(self).tracked_epoch_value() == old(self).tracked_epoch_value()
                &&& final(self).new_count_value() == old(self).new_count_value()
            },
            !(new_epoch <= old(self).tracked_epoch_value() && old(self).tracked_epoch_value() > 0) ==> {
                &&& final(self).prev_pseudonyms() == old(self)@.dom()
                &&& final(self).tracked_epoch_value() == new_epoch
                &&& final(self).new_count_value() == 0
                &&& final(self).observations().dom() == old(self).observations().dom()
                &&& forall|k: Seq<u8>| #[trigger] final(self).observations().contains_key(k) ==> {
                    let a = final(self).observations()[k];
                    let b = old(self).observations()[k];
                    &&& a.successes == b.successes / 2 && a.failures == b.failures / 2
                    &&& a.probe_succeeded_at == b.probe_succeeded_at
                    &&& a.forwarding_verified_at == b.forwarding_verified_at
                    &&& a.tier_consistent()
                }
            },
    {
        if new_epoch <= self.tracked_epoch && self.tracked_epoch > 0 {
            return;
        }
        let mut prev: Key32Map<bool> = Key32Map::new();
        let n = self.descriptors.len();
        let mut i: usize = 0;
        while i < n
            invariant
                self.wf(),
                n == self.descriptors.len_spec(),
                i <= n,
                prev.wf(),
                forall|k: Seq<u8>| #[trigger] prev@.contains_key(k) <==> exists|j: int| 0 <= j < i && self.descriptors.key_spec(j) == k,
            decreases n - i,
        {
            let (k, _) = self.descriptors.entry_at(i);
            prev.insert(k, true);
            proof {
                assert forall|kk: Seq<u8>| #[trigger] prev@.contains_key(kk) <==> exists|j: int| 0 <= j < i + 1 && self.descriptors.key_spec(j) == kk by {
                    if kk == k@ {
                        assert(self.descriptors.key_spec(i as int) == kk);
                    } else if exists|j: int| 0 <= j < i + 1 && self.descriptors.key_spec(j) == kk {
                        let j = choose|j: int| 0 <= j < i + 1 && self.descriptors.key_spec(j) == kk;
                        assert(j != i);
                    }
                }
            }
            i = i + 1;
        }
        proof {
            assert forall|k: Seq<u8>| prev@.dom().contains(k) <==> self@.dom().contains(k) by {
                if self@.contains_key(k) {
                    self.descriptors.lemma_key_index(k);
                    let j = choose|j: int| 0 <= j < self.descriptors.len_spec() && #[trigger] self.descriptors.key_spec(j) == k;
                }
                if prev@.contains_key(k) {
                    let j = choose|j: int| 0 <= j < i && self.descriptors.key_spec(j) == k;
                    self.descriptors.lemma_entry_spec(j);
                }
            }
            assert(prev@.dom() =~= self@.dom());
        }
        self.prev_epoch_pseudonyms = prev;
        self.tracked_epoch = new_epoch;
        self.new_pseudonyms_this_epoch = 0;
        self.decay_relay_observations();
    }

    /// Pseudonym churn as (new, total): the stored pseudonyms not seen in the
    /// previous epoch (none while no epoch is tracked), and all stored ones.
    pub fn churn_counts(&self) -> (r: (usize, usize))
        requires
            self.wf(),
        ensures
            r.0 == if self.tracked_epoch_value() == 0 {
                0
            } else {
                count_where(self@, |d: PeerDescriptor| !self.prev_pseudonyms().contains(d.pseudonym@))
            },
            r.1 == self@.dom().len(),
    {
        let total = self.len();
        if self.tracked_epoch == 0 {
            return (0, total);
        }
        let store = self;
        let test = |d: &PeerDescriptor| -> (b: bool)
            requires
                store.wf(),
            ensures
                b == !store.prev_pseudonyms().contains(d.pseudonym@),
            { !store.prev_epoch_pseudonyms.contains_key(&d.pseudonym) };
        let n = self.count_matching(test, Ghost(|d: PeerDescriptor| !self.prev_pseudonyms().contains(d.pseudonym@)));
        (n, total)
    }

    /// Whether pseudonym `ps` resolves to an introduction point of tier `t`
    /// at `now`: a fresh relay-capable descriptor with a registered peer id.
    pub open spec fn resolves(&self, ps: Seq<u8>, now: u64, t: RelayTrustTier) -> bool {
        &&& self@.contains_key(ps)
        &&& relay_pred(now)(self@[ps])
        &&& self.pseudonym_map().contains_key(ps)
        &&& tier_in(self.observations(), ps) == t
    }

    /// What a pseudonym resolves to: pseudonym, peer id, address texts,
    /// relay tier and onion key.
    pub open spec fn resolved_view(&self, ps: Seq<u8>)
        -> (Seq<u8>, Seq<char>, Seq<Seq<char>>, RelayTrustTier, Option<[u8; 32]>) {
        (ps, self.pseudonym_map()[ps], texts(self@[ps].addresses@), tier_in(self.observations(), ps),
            self@[ps].onion_pubkey)
    }

    /// The pseudonyms of `intro` resolving at tier `t`, in order.
    pub open spec fn resolving(&self, intro: Seq<Seq<u8>>, now: u64, t: RelayTrustTier) -> Seq<Seq<u8>> {
        intro.filter(|ps: Seq<u8>| self.resolves(ps, now, t))
    }

    fn resolve_tier(&self, intro: &Vec<[u8; 32]>, now: u64, t: RelayTrustTier, out: &mut Vec<ResolvedIntroPoint>)
        requires
            self.wf(),
        ensures
            final(out)@.map_values(|r: ResolvedIntroPoint| intro_point_view(r))
                == old(out)@.map_values(|r: ResolvedIntroPoint| intro_point_view(r))
                + self.resolving(key_views(intro@), now, t).map_values(|ps: Seq<u8>| self.resolved_view(ps)),
    {
        let ghost keys = key_views(intro@);
        let ghost start = out@.map_values(|r: ResolvedIntroPoint| intro_point_view(r));
        let ghost pred = |ps: Seq<u8>| self.resolves(ps, now, t);
        let mut i: usize = 0;
        while i < intro.len()
            invariant
                self.wf(),
                i <= intro@.len(),
                keys == key_views(intro@),
                pred == (|ps: Seq<u8>| self.resolves(ps, now, t)),
                out@.map_values(|r: ResolvedIntroPoint| intro_point_view(r))
                    == start + keys.take(i as int).filter(pred).map_values(|ps: Seq<u8>| self.resolved_view(ps)),
            decreases intro@.len() - i,
        {
            let ps = &intro[i];
            proof {
                assert(keys.take(i + 1) =~= keys.take(i as int).push(keys[i as int]));
                keys.take(i as int).lemma_filter_push(keys[i as int], pred);
                assert(keys[i as int] == ps@);
            }
            let ghost before = out@;
            match self.descriptors.get(ps) {
                Some(desc) => {
                    if is_fresh_at(desc, now) && desc.is_relay() {
                        match self.pseudonym_to_peer.get(ps) {
                            Some(pid) => {
                                let tier = self.relay_tier(ps);
                                if tier == t {
                                    let addrs = desc.addresses.clone();
                                    proof {
                                        assert(addrs@ =~= desc.addresses@);
                                    }
                                    let rp = ResolvedIntroPoint {
                                        pseudonym: *ps,
                                        peer_id: pid.clone(),
                                        addresses: addrs,
                                        relay_tier: tier,
                                        onion_pubkey: desc.onion_pubkey,
                                    };
                                    proof {
                                        assert(intro_point_view(rp) == self.resolved_view(ps@));
                                    }
                                    out.push(rp);
                                    proof {
                                        assert(pred(ps@));
                                        assert(out@.map_values(|r: ResolvedIntroPoint| intro_point_view(r))
                                            =~= before.map_values(|r: ResolvedIntroPoint| intro_point_view(r)).push(self.resolved_view(ps@)));
                                    }
                                }
                            },
                            None => {},
                        }
                    }
                },
                None => {},
            }
            i = i + 1;
        }
        proof {
            assert(keys.take(intro@.len() as int) =~= keys);
        }
    }

    /// Resolve introduction-point pseudonyms at Unix time `now` to routable
    /// relays (fresh, relay-capable, with a registered peer id), best relay
    /// tier first and in the given order within a tier.
    pub fn resolve_intro_points_at(&self, intro: &Vec<[u8; 32]>, now: u64) -> (r: Vec<ResolvedIntroPoint>)
        requires
            self.wf(),
        ensures
            r@.map_values(|r: ResolvedIntroPoint| intro_point_view(r)) == ({
                let keys = key_views(intro@);
                self.resolving(keys, now, RelayTrustTier::Verified) + self.resolving(keys, now, RelayTrustTier::Observed)
                    + self.resolving(keys, now, RelayTrustTier::Claimed)
            }).map_values(|ps: Seq<u8>| self.resolved_view(ps)),
    {
        let mut out: Vec<ResolvedIntroPoint> = Vec::new();
        self.resolve_tier(intro, now, RelayTrustTier::Verified, &mut out);
        self.resolve_tier(intro, now, RelayTrustTier::Observed, &mut out);
        self.resolve_tier(intro, now, RelayTrustTier::Claimed, &mut out);
        proof {
            let keys = key_views(intro@);
            let f = |ps: Seq<u8>| self.resolved_view(ps);
            let a = self.resolving(keys, now, RelayTrustTier::Verified);
            let b = self.resolving(keys, now, RelayTrustTier::Observed);
            let c = self.resolving(keys, now, RelayTrustTier::Claimed);
            assert((a + b + c).map_values(f) =~= a.map_values(f) + b.map_values(f) + c.map_values(f));
            assert(Seq::<ResolvedIntroPoint>::empty().map_values(|r: ResolvedIntroPoint| intro_point_view(r))
                =~= Seq::empty());
        }
        out
    }

    /// Resolve introduction-point pseudonyms now.
    pub fn resolve_intro_points(&self, intro: &Vec<[u8; 32]>) -> (r: Vec<ResolvedIntroPoint>)
        requires
            self.wf(),
        ensures
            exists|now: u64| r@.map_values(|r: ResolvedIntroPoint| intro_point_view(r)) == (
                self.resolving(key_views(intro@), now, RelayTrustTier::Verified)
                + self.resolving(key_views(intro@), now, RelayTrustTier::Observed)
                + #[trigger] self.resolving(key_views(intro@), now, RelayTrustTier::Claimed)
            ).map_values(|ps: Seq<u8>| self.resolved_view(ps)),
    {
        let now = now_unix_secs();
        self.resolve_intro_points_at(intro, now)
    }
}

} // verus!
