use vstd::prelude::*;
use crate::clock::now_unix_secs;
use crate::credential::{CredentialTier, presentation_intact, tier_number};
use crate::descriptor::{PeerDescriptor, ResourceProfile};
use crate::descriptor_store::{DescriptorStore, derefs, relay_pred};
use crate::routing::{IpPrefix, RoutingTable, ip_prefix_of, prefix_of_text};
use crate::text::{decimal, push_decimal, push_literal, string_from_chars};
use vstd::relations::sorted_by;

verus! {

/// Anonymity policy for a retrieval or routing operation.
#[derive(Debug, Clone, Copy, PartialEq, Eq)]
pub enum AnonymityPolicy {
    /// No anonymity protection. Direct connection to target.
    Direct,
    /// Use onion routing if possible, fall back to direct.
    Opportunistic,
    /// Require anonymity. Fail if insufficient relay capacity.
    Required { min_hops: u8 },
}

impl Default for AnonymityPolicy {
    /// Opportunistic.
    fn default() -> (p: Self)
        ensures
            p == AnonymityPolicy::Opportunistic,
    {
        AnonymityPolicy::Opportunistic
    }
}

/// The text of a policy: `direct`, `opportunistic` or `required(N hops)`.
pub open spec fn policy_text(p: AnonymityPolicy) -> Seq<char> {
    match p {
        AnonymityPolicy::Direct => "direct"@,
        AnonymityPolicy::Opportunistic => "opportunistic"@,
        AnonymityPolicy::Required { min_hops } => "required("@ + crate::text::decimal(min_hops as nat) + " hops)"@,
    }
}

impl AnonymityPolicy {
    /// The text of the policy, as its `Display` form shows it.
    pub fn to_string(&self) -> (s: String)
        ensures
            s@ == policy_text(*self),
    {
        let mut out: Vec<char> = Vec::new();
        match self {
            AnonymityPolicy::Direct => push_literal(&mut out, "direct"),
            AnonymityPolicy::Opportunistic => push_literal(&mut out, "opportunistic"),
            AnonymityPolicy::Required { min_hops } => {
                push_literal(&mut out, "required(");
                push_decimal(&mut out, *min_hops as u64);
                push_literal(&mut out, " hops)");
            },
        }
        crate::text::string_from_chars(&out)
    }
}

/// Constraints on path construction.
#[derive(Debug, Clone, Copy)]
pub struct PathConstraints {
    /// Minimum number of intermediate hops (excludes source and destination).
    pub min_hops: u8,
    /// Maximum number of intermediate hops.
    pub max_hops: u8,
    /// Minimum trust tier for relay nodes.
    pub min_relay_tier: CredentialTier,
    /// Require IP prefix diversity between hops.
    pub enforce_hop_diversity: bool,
    /// Prefer desktop/server nodes as relays.
    pub prefer_desktop_relays: bool,
}

/// The default constraints: 1 to 3 hops, Observed relays, diverse, desktop first.
pub open spec fn default_constraints() -> PathConstraints {
    PathConstraints {
        min_hops: 1,
        max_hops: 3,
        min_relay_tier: CredentialTier::Observed,
        enforce_hop_diversity: true,
        prefer_desktop_relays: true,
    }
}

impl Default for PathConstraints {
    /// 1 to 3 hops through Observed relays, diverse, desktop first.
    fn default() -> (c: Self)
        ensures
            c == default_constraints(),
    {
        PathConstraints {
            min_hops: 1,
            max_hops: 3,
            min_relay_tier: CredentialTier::Observed,
            enforce_hop_diversity: true,
            prefer_desktop_relays: true,
        }
    }
}

impl PathConstraints {
    /// Constraints for required anonymity with `min_hops` hops: at most two
    /// more hops, and never more than five.
    pub fn for_required(min_hops: u8) -> (c: Self)
        ensures
            c == (PathConstraints {
                min_hops,
                max_hops: if min_hops + 2 < 5 { (min_hops + 2) as u8 } else { 5 },
                ..default_constraints()
            }),
    {
        let up = min_hops.saturating_add(2);
        let max_hops = if up < 5 { up } else { 5 };
        PathConstraints { min_hops, max_hops, ..Self::default() }
    }

    /// Constraints for opportunistic anonymity: relays when available.
    pub fn for_opportunistic() -> (c: Self)
        ensures
            c == (PathConstraints { min_hops: 0, ..default_constraints() }),
    {
        PathConstraints { min_hops: 0, ..Self::default() }
    }
}

/// A single hop in a routing path.
#[derive(Debug, Clone)]
pub struct PathHop {
    /// Pseudonym of the hop.
    pub pseudonym: [u8; 32],
    /// Address to connect to.
    pub address: String,
    /// IP prefix of this hop.
    pub ip_prefix: IpPrefix,
    /// Trust tier of this hop.
    pub tier: Option<CredentialTier>,
    /// Resource profile of this hop.
    pub resource_profile: ResourceProfile,
}

/// A complete routing path from source to destination.
#[derive(Debug, Clone)]
pub struct RoutingPath {
    /// Intermediate hops (relays), excluding source and destination.
    pub hops: Vec<PathHop>,
    /// Destination pseudonym.
    pub destination: [u8; 32],
    /// Anonymity policy that produced this path.
    pub policy: AnonymityPolicy,
}

impl RoutingPath {
    /// Number of intermediate hops.
    pub fn hop_count(&self) -> (n: usize)
        ensures
            n == self.hops@.len(),
    {
        self.hops.len()
    }

    /// Whether this is a direct (zero-hop) path.
    pub fn is_direct(&self) -> (b: bool)
        ensures
            b == (self.hops@.len() == 0),
    {
        self.hops.len() == 0
    }

    /// The IP prefixes of the hops, in order.
    pub fn prefixes(&self) -> (r: Vec<IpPrefix>)
        ensures
            r@ == self.hops@.map_values(|h: PathHop| h.ip_prefix),
    {
        let mut out: Vec<IpPrefix> = Vec::new();
        let mut i: usize = 0;
        while i < self.hops.len()
            invariant
                i <= self.hops@.len(),
                out@ == self.hops@.take(i as int).map_values(|h: PathHop| h.ip_prefix),
            decreases self.hops@.len() - i,
        {
            out.push(self.hops[i].ip_prefix);
            assert(self.hops@.take(i + 1) =~= self.hops@.take(i as int).push(self.hops@[i as int]));
            assert(out@ =~= self.hops@.take(i + 1).map_values(|h: PathHop| h.ip_prefix));
            i = i + 1;
        }
        assert(self.hops@.take(self.hops@.len() as int) =~= self.hops@);
        out
    }
}

/// Why path selection failed.
#[derive(Debug, Clone, Copy, PartialEq, Eq)]
pub enum PathError {
    /// Not enough relay descriptors available.
    InsufficientRelays { required: usize, available: usize },
    /// Not enough diverse relays.
    InsufficientDiversity { required: usize, diverse_count: usize },
    /// Anonymity required but no relays at all.
    NoRelaysAvailable,
    /// Destination descriptor not found.
    DestinationUnknown,
}

/// The message of each path error.
pub open spec fn path_error_text(e: PathError) -> Seq<char> {
    match e {
        PathError::InsufficientRelays { required, available } =>
            "need "@ + decimal(required as nat) + " relays, only "@ + decimal(available as nat) + " available"@,
        PathError::InsufficientDiversity { required, diverse_count } =>
            "need "@ + decimal(required as nat) + " diverse relays, only "@ + decimal(diverse_count as nat)
                + " unique prefixes"@,
        PathError::NoRelaysAvailable => "no relay descriptors available"@,
        PathError::DestinationUnknown => "destination descriptor not found"@,
    }
}

impl PathError {
    /// The human-readable message.
    pub fn to_string(&self) -> (s: String)
        ensures
            s@ == path_error_text(*self),
    {
        let mut out: Vec<char> = Vec::new();
        match self {
            PathError::InsufficientRelays { required, available } => {
                push_literal(&mut out, "need ");
                push_decimal(&mut out, *required as u64);
                push_literal(&mut out, " relays, only ");
                push_decimal(&mut out, *available as u64);
                push_literal(&mut out, " available");
            },
            PathError::InsufficientDiversity { required, diverse_count } => {
                push_literal(&mut out, "need ");
                push_decimal(&mut out, *required as u64);
                push_literal(&mut out, " diverse relays, only ");
                push_decimal(&mut out, *diverse_count as u64);
                push_literal(&mut out, " unique prefixes");
            },
            PathError::NoRelaysAvailable => push_literal(&mut out, "no relay descriptors available"),
            PathError::DestinationUnknown => push_literal(&mut out, "destination descriptor not found"),
        }
        string_from_chars(&out)
    }
}

/// The prefix a descriptor's first address falls in (local without one).
pub open spec fn desc_prefix(d: PeerDescriptor) -> IpPrefix {
    if d.addresses@.len() == 0 { IpPrefix::Local } else { prefix_of_text(d.addresses@[0]@) }
}

/// The credential tier a descriptor presents, if any.
pub open spec fn desc_tier(d: PeerDescriptor) -> Option<CredentialTier> {
    match d.credential {
        Some(c) => Some(c.credential.body.tier),
        None => None,
    }
}

/// The hop a descriptor becomes: pseudonym, address text, prefix, tier, profile.
pub open spec fn hop_of(d: PeerDescriptor) -> (Seq<u8>, Seq<char>, IpPrefix, Option<CredentialTier>, ResourceProfile) {
    (d.pseudonym@, if d.addresses@.len() == 0 { Seq::empty() } else { d.addresses@[0]@ }, desc_prefix(d),
        desc_tier(d), d.resource_profile)
}

/// The plain view of a hop.
pub open spec fn hop_view(h: PathHop) -> (Seq<u8>, Seq<char>, IpPrefix, Option<CredentialTier>, ResourceProfile) {
    (h.pseudonym@, h.address@, h.ip_prefix, h.tier, h.resource_profile)
}

/// Whether a relay may serve under the constraints: it holds a valid
/// credential of at least the minimum tier, or none at all.
pub open spec fn tier_ok(min: CredentialTier) -> spec_fn(PeerDescriptor) -> bool {
    |d: PeerDescriptor| match d.credential {
        Some(c) => presentation_intact(c) && tier_number(c.credential.body.tier) >= tier_number(min),
        None => true,
    }
}

/// Whether `a` may come before `b` when desktop relays are preferred:
/// desktop first, then newer first.
pub open spec fn desktop_first() -> spec_fn(PeerDescriptor, PeerDescriptor) -> bool {
    |a: PeerDescriptor, b: PeerDescriptor| {
        let da = a.resource_profile == ResourceProfile::Desktop;
        let db = b.resource_profile == ResourceProfile::Desktop;
        (da && !db) || (da == db && a.published_at >= b.published_at)
    }
}

/// The relays the greedy walk picks from `cands`: at most `max`, skipping
/// the destination and, with `diverse`, any non-local prefix already used.
pub open spec fn greedy(cands: Seq<PeerDescriptor>, dest: Seq<u8>, max: nat, diverse: bool, used: Set<IpPrefix>)
    -> Seq<PeerDescriptor>
    decreases cands.len(),
{
    if cands.len() == 0 || max == 0 {
        Seq::empty()
    } else {
        let d = cands[0];
        let p = desc_prefix(d);
        if d.pseudonym@ == dest {
            greedy(cands.drop_first(), dest, max, diverse, used)
        } else if diverse && p != IpPrefix::Local && used.contains(p) {
            greedy(cands.drop_first(), dest, max, diverse, used)
        } else {
            seq![d] + greedy(cands.drop_first(), dest, (max - 1) as nat, diverse, used.insert(p))
        }
    }
}

/// Whether `cs` is an order the relays may be tried in: the relays passing
/// the tier filter, sorted desktop-first and newest-first when desktop relays
/// are preferred, else in the store's order.
pub open spec fn valid_order(relays: Seq<PeerDescriptor>, c: PathConstraints, cs: Seq<PeerDescriptor>) -> bool {
    let filtered = relays.filter(tier_ok(c.min_relay_tier));
    if c.prefer_desktop_relays {
        cs.to_multiset() == filtered.to_multiset() && sorted_by(cs, desktop_first())
    } else {
        cs == filtered
    }
}

/// The outcome of building a path over relays tried in order `cs`: the
/// chosen relays, or the error.
pub open spec fn build_outcome(relays: Seq<PeerDescriptor>, cs: Seq<PeerDescriptor>, dest: Seq<u8>,
    c: PathConstraints) -> Result<Seq<PeerDescriptor>, PathError> {
    if relays.len() == 0 && c.min_hops > 0 {
        Err(PathError::NoRelaysAvailable)
    } else {
        let hops = greedy(cs, dest, c.max_hops as nat, c.enforce_hop_diversity, Set::empty());
        if hops.len() < c.min_hops {
            Err(PathError::InsufficientRelays { required: c.min_hops as usize, available: hops.len() as usize })
        } else {
            Ok(hops)
        }
    }
}

/// Whether `r` is the path or error that building over order `cs` gives.
pub open spec fn matches_outcome(r: Result<RoutingPath, PathError>, o: Result<Seq<PeerDescriptor>, PathError>,
    dest: [u8; 32], policy: AnonymityPolicy) -> bool {
    match (r, o) {
        (Ok(path), Ok(hops)) => path.hops@.map_values(|h: PathHop| hop_view(h)) == hops.map_values(|d: PeerDescriptor| hop_of(d))
            && path.destination == dest && path.policy == policy,
        (Err(e), Err(f)) => e == f,
        _ => false,
    }
}

/// The unfolding of `greedy` one candidate at a time.
proof fn lemma_greedy_step(cands: Seq<PeerDescriptor>, i: int, dest: Seq<u8>, max: nat, diverse: bool, used: Set<IpPrefix>)
    requires
        0 <= i < cands.len(),
        max > 0,
    ensures
        greedy(cands.skip(i), dest, max, diverse, used) == ({
            let d = cands[i];
            let p = desc_prefix(d);
            if d.pseudonym@ == dest || (diverse && p != IpPrefix::Local && used.contains(p)) {
                greedy(cands.skip(i + 1), dest, max, diverse, used)
            } else {
                seq![d] + greedy(cands.skip(i + 1), dest, (max - 1) as nat, diverse, used.insert(p))
            }
        }),
{
    assert(cands.skip(i).drop_first() =~= cands.skip(i + 1));
    assert(cands.skip(i)[0] == cands[i]);
}

/// Whether `x` is in `v`.
fn has_prefix(v: &Vec<IpPrefix>, x: &IpPrefix) -> (b: bool)
    ensures
        b == v@.contains(*x),
{
    let mut i: usize = 0;
    while i < v.len()
        invariant
            i <= v@.len(),
            forall|j: int| 0 <= j < i ==> v@[j] != *x,
        decreases v@.len() - i,
    {
        if v[i] == *x {
            assert(v@[i as int] == *x);
            return true;
        }
        i = i + 1;
    }
    false
}

/// The prefix of a descriptor's first address.
fn prefix_of_desc(d: &PeerDescriptor) -> (p: IpPrefix)
    ensures
        p == desc_prefix(*d),
{
    if d.addresses.len() == 0 {
        IpPrefix::Local
    } else {
        ip_prefix_of(d.addresses[0].as_str())
    }
}

fn is_desktop(d: &PeerDescriptor) -> (b: bool)
    ensures
        b == (d.resource_profile == ResourceProfile::Desktop),
{
    match d.resource_profile {
        ResourceProfile::Desktop => true,
        _ => false,
    }
}

/// Sort relays desktop-first, then newest-first (stable).
fn sort_desktop_first<'a>(v: Vec<&'a PeerDescriptor>) -> (r: Vec<&'a PeerDescriptor>)
    ensures
        derefs(r@).to_multiset() == derefs(v@).to_multiset(),
        sorted_by(derefs(r@), desktop_first()),
{
    broadcast use vstd::seq_lib::group_to_multiset_ensures;
    let mut out: Vec<&'a PeerDescriptor> = Vec::new();
    let mut i: usize = 0;
    while i < v.len()
        invariant
            i <= v@.len(),
            sorted_by(derefs(out@), desktop_first()),
            derefs(out@).to_multiset() == derefs(v@).take(i as int).to_multiset(),
        decreases v@.len() - i,
    {
        let x = v[i];
        let xd = is_desktop(x);
        let mut pos: usize = 0;
        while pos < out.len() && (is_desktop(out[pos]) && !xd
            || is_desktop(out[pos]) == xd && out[pos].published_at >= x.published_at)
            invariant
                pos <= out@.len(),
                xd == (x.resource_profile == ResourceProfile::Desktop),
                forall|j: int| 0 <= j < pos ==> desktop_first()(*out@[j], *x),
            decreases out@.len() - pos,
        {
            pos = pos + 1;
        }
        let ghost before = derefs(out@);
        out.insert(pos, x);
        proof {
            assert(derefs(out@) =~= before.insert(pos as int, *x));
            vstd::seq_lib::to_multiset_insert(before, pos as int, *x);
            vstd::seq_lib::to_multiset_build(derefs(v@).take(i as int), *x);
            assert(derefs(v@).take(i + 1) =~= derefs(v@).take(i as int).push(*x));
            let o = derefs(out@);
            assert forall|a: int, b: int| 0 <= a < b < o.len() implies #[trigger] desktop_first()(o[a], o[b]) by {
                if b < pos {
                    assert(desktop_first()(before[a], before[b]));
                } else if b == pos {
                    assert(o[a] == before[a]);
                } else if a == pos {
                    assert(!desktop_first()(before[pos as int], *x));
                    if b - 1 > pos {
                        assert(desktop_first()(before[pos as int], before[b - 1]));
                    }
                } else if a < pos {
                    assert(desktop_first()(before[a], *x));
                    assert(!desktop_first()(before[pos as int], *x));
                    if b - 1 > pos {
                        assert(desktop_first()(before[pos as int], before[b - 1]));
                    }
                } else {
                    assert(desktop_first()(before[a - 1], before[b - 1]));
                }
            }
        }
        i = i + 1;
    }
    assert(derefs(v@).take(v@.len() as int) =~= derefs(v@));
    out
}

/// Selects multi-hop routing paths from descriptors, trust and diversity.
pub struct PathSelector;

impl PathSelector {
    /// Build a path to `destination` under `constraints` over the relays
    /// fresh at Unix time `now`.
    pub fn build_path_at(destination: [u8; 32], constraints: &PathConstraints, store: &DescriptorStore,
        _routing_table: &RoutingTable, now: u64) -> (r: Result<RoutingPath, PathError>)
        requires
            store.wf(),
        ensures
            exists|cs: Seq<PeerDescriptor>| valid_order(store.matching(relay_pred(now)), *constraints, cs)
                && matches_outcome(r, build_outcome(store.matching(relay_pred(now)), cs, destination@, *constraints),
                    destination, AnonymityPolicy::Required { min_hops: constraints.min_hops }),
    {
        let relays = store.relay_descriptors_at(now);
        let ghost rs = derefs(relays@);
        if relays.len() == 0 && constraints.min_hops > 0 {
            let ghost cs = rs.filter(tier_ok(constraints.min_relay_tier));
            proof {
                assert(rs.filter(tier_ok(constraints.min_relay_tier)).len() == 0) by {
                    rs.lemma_filter_len(tier_ok(constraints.min_relay_tier));
                }
                assert(valid_order(rs, *constraints, cs));
            }
            return Err(PathError::NoRelaysAvailable);
        }
        let mut candidates: Vec<&PeerDescriptor> = Vec::new();
        let mut i: usize = 0;
        while i < relays.len()
            invariant
                i <= relays@.len(),
                rs == derefs(relays@),
                derefs(candidates@) == rs.take(i as int).filter(tier_ok(constraints.min_relay_tier)),
            decreases relays@.len() - i,
        {
            let d = relays[i];
            let ok = d.meets_tier(constraints.min_relay_tier) || d.credential.is_none();
            proof {
                assert(rs.take(i + 1) =~= rs.take(i as int).push(*d));
                rs.take(i as int).lemma_filter_push(*d, tier_ok(constraints.min_relay_tier));
            }
            let ghost before = candidates@;
            if ok {
                candidates.push(d);
                assert(derefs(candidates@) =~= derefs(before).push(*d));
            }
            i = i + 1;
        }
        assert(rs.take(relays@.len() as int) =~= rs);
        let ordered = if constraints.prefer_desktop_relays {
            sort_desktop_first(candidates)
        } else {
            candidates
        };
        let ghost cs = derefs(ordered@);
        let ghost dest = destination@;
        let ghost max = constraints.max_hops as nat;
        let ghost diverse = constraints.enforce_hop_diversity;
        let mut hops: Vec<PathHop> = Vec::new();
        let mut used: Vec<IpPrefix> = Vec::new();
        let ghost mut chosen: Seq<PeerDescriptor> = Seq::empty();
        let ghost mut uset: Set<IpPrefix> = Set::empty();
        let mut k: usize = 0;
        assert(cs.skip(0) =~= cs);
        assert(chosen + greedy(cs.skip(0), dest, max, diverse, uset) =~= greedy(cs, dest, max, diverse, Set::empty()));
        while k < ordered.len() && hops.len() < constraints.max_hops as usize
            invariant
                k <= ordered@.len(),
                cs == derefs(ordered@),
                dest == destination@,
                max == constraints.max_hops as nat,
                diverse == constraints.enforce_hop_diversity,
                hops@.len() == chosen.len(),
                chosen.len() <= max,
                greedy(cs, dest, max, diverse, Set::empty())
                    == chosen + greedy(cs.skip(k as int), dest, (max - chosen.len()) as nat, diverse, uset),
                forall|q: IpPrefix| used@.contains(q) <==> uset.contains(q),
                hops@.map_values(|h: PathHop| hop_view(h)) == chosen.map_values(|d: PeerDescriptor| hop_of(d)),
            decreases ordered@.len() - k,
        {
            let d = ordered[k];
            proof {
                lemma_greedy_step(cs, k as int, dest, (max - chosen.len()) as nat, diverse, uset);
                assert(cs[k as int] == *d);
            }
            if key_eq(&d.pseudonym, &destination) {
                k = k + 1;
                continue;
            }
            let prefix = prefix_of_desc(d);
            if constraints.enforce_hop_diversity && prefix != IpPrefix::Local && has_prefix(&used, &prefix) {
                k = k + 1;
                continue;
            }
            let tier = match &d.credential {
                Some(c) => Some(c.credential.body.tier),
                None => None,
            };
            let address = if d.addresses.len() == 0 { String::new() } else { d.addresses[0].clone() };
            let hop = PathHop {
                pseudonym: d.pseudonym,
                address,
                ip_prefix: prefix,
                tier,
                resource_profile: d.resource_profile,
            };
            proof {
                assert(hop_view(hop) == hop_of(*d));
            }
            let ghost before_hops = hops@;
            let ghost before_used = used@;
            hops.push(hop);
            used.push(prefix);
            proof {
                assert forall|q: IpPrefix| used@.contains(q) <==> uset.insert(prefix).contains(q) by {
                    if used@.contains(q) {
                        let j = choose|j: int| 0 <= j < used@.len() && used@[j] == q;
                        if j < before_used.len() {
                            assert(before_used[j] == q);
                        }
                    }
                    if before_used.contains(q) {
                        let j = choose|j: int| 0 <= j < before_used.len() && before_used[j] == q;
                        assert(used@[j] == q);
                    }
                    if q == prefix {
                        assert(used@[used@.len() - 1] == q);
                    }
                }
                assert(chosen.push(*d) + greedy(cs.skip(k + 1), dest, (max - chosen.len() - 1) as nat, diverse,
                    uset.insert(prefix)) =~= chosen + (seq![*d] + greedy(cs.skip(k + 1), dest, (max - chosen.len() - 1) as nat,
                    diverse, uset.insert(prefix))));
                chosen = chosen.push(*d);
                uset = uset.insert(prefix);
                assert(hops@.map_values(|h: PathHop| hop_view(h))
                    =~= before_hops.map_values(|h: PathHop| hop_view(h)).push(hop_of(*d)));
            }
            k = k + 1;
        }
        proof {
            if k == ordered@.len() {
                assert(cs.skip(k as int).len() == 0);
            }
            assert(chosen + greedy(cs.skip(k as int), dest, (max - chosen.len()) as nat, diverse, uset)
                =~= chosen);
            assert(valid_order(rs, *constraints, cs));
        }
        if hops.len() < constraints.min_hops as usize {
            return Err(PathError::InsufficientRelays { required: constraints.min_hops as usize, available: hops.len() });
        }
        Ok(RoutingPath { hops, destination, policy: AnonymityPolicy::Required { min_hops: constraints.min_hops } })
    }
}

/// Whether two 32-byte keys are equal.
fn key_eq(a: &[u8; 32], b: &[u8; 32]) -> (r: bool)
    ensures
        r == (a@ == b@),
{
    crate::credential::key32_eq(a, b)
}

/// The constraints for required anonymity with `m` hops.
pub open spec fn required_constraints(m: u8) -> PathConstraints {
    PathConstraints { min_hops: m, max_hops: if m + 2 < 5 { (m + 2) as u8 } else { 5 }, ..default_constraints() }
}

/// The constraints for opportunistic anonymity.
pub open spec fn opportunistic_constraints() -> PathConstraints {
    PathConstraints { min_hops: 0, ..default_constraints() }
}

/// The opportunistic result for outcome `o`: the relayed path when it has
/// at least one hop, else a direct path; either carries the opportunistic
/// policy that produced it.
pub open spec fn opportunistic_result(r: Result<RoutingPath, PathError>, o: Result<Seq<PeerDescriptor>, PathError>,
    dest: [u8; 32]) -> bool {
    if o matches Ok(hops) && hops.len() > 0 {
        matches_outcome(r, o, dest, AnonymityPolicy::Opportunistic)
    } else {
        is_direct_path(r, dest, AnonymityPolicy::Opportunistic)
    }
}

/// Whether `r` is a direct path to `dest` under `policy`.
pub open spec fn is_direct_path(r: Result<RoutingPath, PathError>, dest: [u8; 32], policy: AnonymityPolicy) -> bool {
    r matches Ok(path) && path.hops@.len() == 0 && path.destination == dest && path.policy == policy
}

impl PathSelector {
    /// Select a routing path to `destination` under `policy` over the relays
    /// fresh at Unix time `now`: direct for the direct policy; for the
    /// opportunistic one, a relayed path when one with at least one hop can
    /// be built, else direct; for the required one, a path of at least the
    /// required hops or the error.
    pub fn select_at(destination: [u8; 32], policy: AnonymityPolicy, store: &DescriptorStore,
        routing_table: &RoutingTable, now: u64) -> (r: Result<RoutingPath, PathError>)
        requires
            store.wf(),
        ensures
            policy is Direct ==> is_direct_path(r, destination, policy),
            policy is Opportunistic ==> exists|cs: Seq<PeerDescriptor>|
                #[trigger] valid_order(store.matching(relay_pred(now)), opportunistic_constraints(), cs)
                && opportunistic_result(r, build_outcome(store.matching(relay_pred(now)), cs, destination@,
                    opportunistic_constraints()), destination),
            policy matches AnonymityPolicy::Required { min_hops } ==> exists|cs: Seq<PeerDescriptor>|
                valid_order(store.matching(relay_pred(now)), required_constraints(min_hops), cs)
                && matches_outcome(r, #[trigger] build_outcome(store.matching(relay_pred(now)), cs, destination@,
                    required_constraints(min_hops)), destination, AnonymityPolicy::Required { min_hops }),
            r matches Ok(path) ==> policy_respected(path, destination, policy),
    {
        match policy {
            AnonymityPolicy::Direct => Ok(RoutingPath { hops: Vec::new(), destination, policy }),
            AnonymityPolicy::Opportunistic => {
                let c = PathConstraints::for_opportunistic();
                let built = Self::build_path_at(destination, &c, store, routing_table, now);
                let ghost relays = store.matching(relay_pred(now));
                let ghost cs = choose|cs: Seq<PeerDescriptor>| valid_order(relays, c, cs)
                    && matches_outcome(built, build_outcome(relays, cs, destination@, c), destination,
                        AnonymityPolicy::Required { min_hops: c.min_hops });
                let ghost o = build_outcome(relays, cs, destination@, c);
                let ghost built_g = built;
                let r = match built {
                    Ok(path) => {
                        if path.hops.len() > 0 {
                            Ok(RoutingPath { hops: path.hops, destination, policy })
                        } else {
                            Ok(RoutingPath { hops: Vec::new(), destination, policy })
                        }
                    },
                    Err(_) => Ok(RoutingPath { hops: Vec::new(), destination, policy }),
                };
                proof {
                    lemma_built_path_respects(built_g, relays, cs, destination, c,
                        AnonymityPolicy::Required { min_hops: c.min_hops });
                    if let Ok(path) = built_g {
                        if let Ok(hops) = o {
                            assert(path.hops@.map_values(|h: PathHop| hop_view(h)).len() == hops.len());
                        }
                    }
                    assert(opportunistic_result(r, o, destination));
                }
                r
            },
            AnonymityPolicy::Required { min_hops } => {
                let c = PathConstraints::for_required(min_hops);
                let r = Self::build_path_at(destination, &c, store, routing_table, now);
                proof {
                    let relays = store.matching(relay_pred(now));
                    let cs = choose|cs: Seq<PeerDescriptor>| valid_order(relays, c, cs)
                        && matches_outcome(r, build_outcome(relays, cs, destination@, c), destination,
                            AnonymityPolicy::Required { min_hops: c.min_hops });
                    assert(valid_order(relays, required_constraints(min_hops), cs));
                    lemma_built_path_respects(r, relays, cs, destination, c, AnonymityPolicy::Required { min_hops });
                }
                r
            },
        }
    }

    /// Select a routing path to `destination` under `policy` over the
    /// relays that are fresh now.
    pub fn select(destination: [u8; 32], policy: AnonymityPolicy, store: &DescriptorStore,
        routing_table: &RoutingTable) -> (r: Result<RoutingPath, PathError>)
        requires
            store.wf(),
        ensures
            policy == AnonymityPolicy::Direct ==> is_direct_path(r, destination, policy),
            policy == AnonymityPolicy::Opportunistic ==> r is Ok,
            policy is Opportunistic ==> exists|now: u64, cs: Seq<PeerDescriptor>|
                valid_order(store.matching(relay_pred(now)), opportunistic_constraints(), cs)
                && opportunistic_result(r, #[trigger] build_outcome(store.matching(relay_pred(now)), cs, destination@,
                    opportunistic_constraints()), destination),
            policy matches AnonymityPolicy::Required { min_hops } ==> exists|now: u64, cs: Seq<PeerDescriptor>|
                valid_order(store.matching(relay_pred(now)), required_constraints(min_hops), cs)
                && matches_outcome(r, #[trigger] build_outcome(store.matching(relay_pred(now)), cs, destination@,
                    required_constraints(min_hops)), destination, AnonymityPolicy::Required { min_hops }),
            r matches Ok(path) ==> policy_respected(path, destination, policy),
    {
        let now = now_unix_secs();
        let r = Self::select_at(destination, policy, store, routing_table, now);
        proof {
            let relays = store.matching(relay_pred(now));
            if policy is Opportunistic {
                let cs = choose|cs: Seq<PeerDescriptor>| #[trigger] valid_order(relays, opportunistic_constraints(), cs)
                    && opportunistic_result(r, build_outcome(relays, cs, destination@, opportunistic_constraints()),
                        destination);
                assert(opportunistic_result(r, build_outcome(relays, cs, destination@, opportunistic_constraints()),
                    destination));
            }
            if let AnonymityPolicy::Required { min_hops } = policy {
                let cs = choose|cs: Seq<PeerDescriptor>| valid_order(relays, required_constraints(min_hops), cs)
                    && matches_outcome(r, #[trigger] build_outcome(relays, cs, destination@,
                        required_constraints(min_hops)), destination, AnonymityPolicy::Required { min_hops });
                assert(matches_outcome(r, build_outcome(relays, cs, destination@, required_constraints(min_hops)),
                    destination, AnonymityPolicy::Required { min_hops }));
            }
        }
        r
    }
}

/// Snapshot of path selection state.
#[derive(Debug, Clone)]
pub struct PathSelectionStats {
    /// Default anonymity policy.
    pub default_policy: String,
    /// Number of relay descriptors available.
    pub available_relays: usize,
    /// Number of unique relay prefixes.
    pub relay_prefix_diversity: usize,
}

/// What a greedy walk picks: at most `max` relays, never the destination,
/// and, with diversity on, never a non-local prefix twice or one already used.
pub proof fn lemma_greedy_path_properties(cands: Seq<PeerDescriptor>, dest: Seq<u8>, max: nat, diverse: bool,
    used: Set<IpPrefix>)
    ensures
        greedy(cands, dest, max, diverse, used).len() <= max,
        forall|i: int| 0 <= i < greedy(cands, dest, max, diverse, used).len()
            ==> (#[trigger] greedy(cands, dest, max, diverse, used)[i]).pseudonym@ != dest,
        forall|i: int| 0 <= i < greedy(cands, dest, max, diverse, used).len()
            ==> cands.contains(#[trigger] greedy(cands, dest, max, diverse, used)[i]),
        diverse ==> forall|i: int| 0 <= i < greedy(cands, dest, max, diverse, used).len()
            && desc_prefix(#[trigger] greedy(cands, dest, max, diverse, used)[i]) != IpPrefix::Local
            ==> !used.contains(desc_prefix(greedy(cands, dest, max, diverse, used)[i])),
        diverse ==> forall|i: int, j: int| 0 <= i < j < greedy(cands, dest, max, diverse, used).len()
            && desc_prefix(#[trigger] greedy(cands, dest, max, diverse, used)[i]) != IpPrefix::Local
            ==> desc_prefix(greedy(cands, dest, max, diverse, used)[i])
                != desc_prefix(#[trigger] greedy(cands, dest, max, diverse, used)[j]),
    decreases cands.len(),
{
    if cands.len() == 0 || max == 0 {
    } else {
        let d = cands[0];
        let p = desc_prefix(d);
        let rest = cands.drop_first();
        if d.pseudonym@ == dest || (diverse && p != IpPrefix::Local && used.contains(p)) {
            lemma_greedy_path_properties(rest, dest, max, diverse, used);
            let g = greedy(cands, dest, max, diverse, used);
            assert forall|i: int| 0 <= i < g.len() implies cands.contains(#[trigger] g[i]) by {
                assert(rest.contains(g[i]));
                let j = choose|j: int| 0 <= j < rest.len() && rest[j] == g[i];
                assert(cands[j + 1] == g[i]);
            }
        } else {
            let used2 = used.insert(p);
            lemma_greedy_path_properties(rest, dest, (max - 1) as nat, diverse, used2);
            let tail = greedy(rest, dest, (max - 1) as nat, diverse, used2);
            let g = greedy(cands, dest, max, diverse, used);
            assert(g == seq![d] + tail);
            assert forall|i: int| 0 <= i < g.len() implies cands.contains(#[trigger] g[i]) by {
                if i == 0 {
                    assert(cands[0] == g[i]);
                } else {
                    assert(g[i] == tail[i - 1]);
                    assert(rest.contains(tail[i - 1]));
                    let j = choose|j: int| 0 <= j < rest.len() && rest[j] == tail[i - 1];
                    assert(cands[j + 1] == g[i]);
                }
            }
            assert forall|i: int| 0 <= i < g.len() implies (#[trigger] g[i]).pseudonym@ != dest by {
                if i > 0 {
                    assert(g[i] == tail[i - 1]);
                }
            }
            if diverse {
                assert forall|i: int| 0 <= i < g.len() && desc_prefix(#[trigger] g[i]) != IpPrefix::Local
                    implies !used.contains(desc_prefix(g[i])) by {
                    if i > 0 {
                        assert(g[i] == tail[i - 1]);
                        assert(!used2.contains(desc_prefix(tail[i - 1])));
                    }
                }
                assert forall|i: int, j: int| 0 <= i < j < g.len() && desc_prefix(#[trigger] g[i]) != IpPrefix::Local
                    implies desc_prefix(g[i]) != desc_prefix(#[trigger] g[j]) by {
                    assert(g[j] == tail[j - 1]);
                    if i == 0 {
                        if desc_prefix(tail[j - 1]) != IpPrefix::Local {
                            assert(!used2.contains(desc_prefix(tail[j - 1])));
                        }
                    } else {
                        assert(g[i] == tail[i - 1]);
                    }
                }
            }
        }
    }
}

/// Whether a path's hops are between `lo` and `hi` in number, never the
/// destination, and (with `diverse`) never share a non-local prefix.
pub open spec fn hops_respect(path: RoutingPath, dest: [u8; 32], lo: nat, hi: nat, diverse: bool) -> bool {
    &&& lo <= path.hops@.len() <= hi
    &&& forall|i: int| 0 <= i < path.hops@.len() ==> (#[trigger] path.hops@[i]).pseudonym@ != dest@
    &&& diverse ==> forall|i: int, j: int| 0 <= i < j < path.hops@.len() && (#[trigger] path.hops@[i]).ip_prefix
        != IpPrefix::Local ==> path.hops@[i].ip_prefix != (#[trigger] path.hops@[j]).ip_prefix
}

/// What a policy's paths keep: the destination and the policy itself, and
/// hop bounds: none for direct, up to the default maximum for
/// opportunistic, and for required `m` at least `m` and at most `m + 2`,
/// capped at 5.
pub open spec fn policy_respected(path: RoutingPath, dest: [u8; 32], policy: AnonymityPolicy) -> bool {
    &&& path.destination == dest
    &&& path.policy == policy
    &&& match policy {
        AnonymityPolicy::Direct => path.hops@.len() == 0,
        AnonymityPolicy::Opportunistic => hops_respect(path, dest, 0, default_constraints().max_hops as nat, true),
        AnonymityPolicy::Required { min_hops } => hops_respect(path, dest, min_hops as nat,
            required_constraints(min_hops).max_hops as nat, true),
    }
}

/// A path built over any order of the relays keeps the constraints' hop
/// bounds, avoids the destination and, with diversity on, repeats no
/// non-local prefix.
pub proof fn lemma_built_path_respects(r: Result<RoutingPath, PathError>, relays: Seq<PeerDescriptor>,
    cs: Seq<PeerDescriptor>, dest: [u8; 32], c: PathConstraints, policy: AnonymityPolicy)
    requires
        matches_outcome(r, build_outcome(relays, cs, dest@, c), dest, policy),
    ensures
        r matches Ok(path) ==> path.destination == dest
            && hops_respect(path, dest, c.min_hops as nat, c.max_hops as nat, c.enforce_hop_diversity),
{
    if let Ok(path) = r {
        let hops = greedy(cs, dest@, c.max_hops as nat, c.enforce_hop_diversity, Set::empty());
        lemma_greedy_path_properties(cs, dest@, c.max_hops as nat, c.enforce_hop_diversity, Set::empty());
        let pv = path.hops@.map_values(|h: PathHop| hop_view(h));
        let hv = hops.map_values(|d: PeerDescriptor| hop_of(d));
        assert(pv == hv);
        assert(pv.len() == path.hops@.len() && hv.len() == hops.len());
        assert forall|i: int| 0 <= i < path.hops@.len() implies (#[trigger] path.hops@[i]).pseudonym@ != dest@ by {
            assert(pv[i] == hv[i]);
            assert(hops[i].pseudonym@ != dest@);
        }
        if c.enforce_hop_diversity {
            assert forall|i: int, j: int| 0 <= i < j < path.hops@.len() && (#[trigger] path.hops@[i]).ip_prefix
                != IpPrefix::Local implies path.hops@[i].ip_prefix != (#[trigger] path.hops@[j]).ip_prefix by {
                assert(pv[i] == hv[i]);
                assert(pv[j] == hv[j]);
                assert(desc_prefix(hops[i]) != desc_prefix(hops[j]));
            }
        }
    }
}

} // verus!
