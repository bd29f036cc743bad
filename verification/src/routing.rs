use vstd::prelude::*;
use crate::address::AddressTrust;
use crate::clock::now_unix_millis;
use crate::netaddr::{COMPONENT_IP4, COMPONENT_IP6, find_component, first_index, lemma_first_index,
    multiaddr_parse, parse_multiaddr, components_view};
use crate::strmap::{StrMap, count_where};
use crate::sybil::DEFAULT_POW_DIFFICULTY;
use crate::text::{decimal, hexadecimal, push_decimal, push_hex, push_literal, string_from_chars};
use vstd::relations::{sorted_by, total_ordering};

verus! {

/// Maximum peers from the same /16 IPv4 subnet in the routing overlay.
pub const MAX_PEERS_PER_IPV4_SLASH16: usize = 3;

/// Maximum peers from the same /48 IPv6 prefix in the routing overlay.
pub const MAX_PEERS_PER_IPV6_SLASH48: usize = 3;

/// Minimum number of interactions before the reliability score is meaningful.
pub const MIN_INTERACTIONS_FOR_SCORE: u64 = 3;

/// Number of interactions tracked before the counters are halved.
pub const INTERACTION_WINDOW: u64 = 200;

/// Number of network-size observations kept for difficulty adjustment.
pub const MAX_OBSERVATIONS: usize = 60;

/// Coarse IP prefix for diversity enforcement.
#[derive(Debug, Clone, Copy, Eq, Hash)]
pub enum IpPrefix {
    /// First two octets of an IPv4 address (/16).
    V4Slash16([u8; 2]),
    /// First three 16-bit segments of an IPv6 address (/48).
    V6Slash48([u16; 3]),
    /// Loopback / unknown — not subject to diversity constraints.
    Local,
}

impl PartialEq for IpPrefix {
    fn eq(&self, other: &Self) -> (r: bool) {
        broadcast use vstd::array::group_array_axioms;
        match (self, other) {
            (IpPrefix::V4Slash16(a), IpPrefix::V4Slash16(b)) => {
                let r = a[0] == b[0] && a[1] == b[1];
                proof {
                    if r {
                        assert(*a =~= *b);
                    }
                }
                r
            },
            (IpPrefix::V6Slash48(a), IpPrefix::V6Slash48(b)) => {
                let r = a[0] == b[0] && a[1] == b[1] && a[2] == b[2];
                proof {
                    if r {
                        assert(*a =~= *b);
                    }
                }
                r
            },
            (IpPrefix::Local, IpPrefix::Local) => true,
            _ => false,
        }
    }
}

impl vstd::std_specs::cmp::PartialEqSpecImpl for IpPrefix {
    open spec fn obeys_eq_spec() -> bool {
        true
    }

    open spec fn eq_spec(&self, other: &Self) -> bool {
        *self == *other
    }
}

/// The `k`-th 16-bit segment of 16 IPv6 bytes.
pub open spec fn segment(o: Seq<u8>, k: int) -> int {
    o[2 * k] * 256 + o[2 * k + 1]
}

/// The prefix of an IPv4 address: local for loopback (`127/8`) and
/// link-local (`169.254/16`) addresses, else its first two octets.
pub open spec fn ipv4_prefix(o: Seq<u8>) -> IpPrefix {
    if o[0] == 127 || (o[0] == 169 && o[1] == 254) {
        IpPrefix::Local
    } else {
        IpPrefix::V4Slash16([o[0], o[1]])
    }
}

/// The prefix of an IPv6 address: local for `::1`, else its first three
/// segments.
pub open spec fn ipv6_prefix(o: Seq<u8>) -> IpPrefix {
    if crate::address::ipv6_is_loopback(o) {
        IpPrefix::Local
    } else {
        IpPrefix::V6Slash48([segment(o, 0) as u16, segment(o, 1) as u16, segment(o, 2) as u16])
    }
}

/// Whether a tag is an IP address component.
pub open spec fn ip_pred() -> spec_fn(u8) -> bool {
    |t: u8| t == COMPONENT_IP4 || t == COMPONENT_IP6
}

/// The prefix of a multiaddr given as text: that of its first IP
/// component, local when it has none or does not parse.
pub open spec fn prefix_of_text(s: Seq<char>) -> IpPrefix {
    match multiaddr_parse(s) {
        None => IpPrefix::Local,
        Some(p) => match first_index(p.1, ip_pred()) {
            None => IpPrefix::Local,
            Some(i) => if p.1[i].0 == COMPONENT_IP4 {
                ipv4_prefix(p.1[i].1)
            } else {
                ipv6_prefix(p.1[i].1)
            },
        },
    }
}

/// The text of a prefix: `a.b.0.0/16`, `a:b:c::/48` (lowercase hex) or `local`.
pub open spec fn prefix_text(p: IpPrefix) -> Seq<char> {
    match p {
        IpPrefix::V4Slash16(a) => decimal(a@[0] as nat) + "."@ + decimal(a@[1] as nat) + ".0.0/16"@,
        IpPrefix::V6Slash48(a) => hexadecimal(a@[0] as nat) + ":"@ + hexadecimal(a@[1] as nat) + ":"@
            + hexadecimal(a@[2] as nat) + "::/48"@,
        IpPrefix::Local => "local"@,
    }
}

impl IpPrefix {
    /// The text of the prefix, as its `Display` form shows it.
    pub fn to_string(&self) -> (s: String)
        ensures
            s@ == prefix_text(*self),
    {
        let mut out: Vec<char> = Vec::new();
        match self {
            IpPrefix::V4Slash16(a) => {
                push_decimal(&mut out, a[0] as u64);
                push_literal(&mut out, ".");
                push_decimal(&mut out, a[1] as u64);
                push_literal(&mut out, ".0.0/16");
            },
            IpPrefix::V6Slash48(a) => {
                push_hex(&mut out, a[0] as u64);
                push_literal(&mut out, ":");
                push_hex(&mut out, a[1] as u64);
                push_literal(&mut out, ":");
                push_hex(&mut out, a[2] as u64);
                push_literal(&mut out, "::/48");
            },
            IpPrefix::Local => {
                push_literal(&mut out, "local");
            },
        }
        string_from_chars(&out)
    }
}

/// The prefix of 4 IPv4 octets.
fn prefix_of_ipv4(o: &Vec<u8>) -> (r: IpPrefix)
    requires
        o@.len() == 4,
    ensures
        r == ipv4_prefix(o@),
{
    if o[0] == 127 || (o[0] == 169 && o[1] == 254) {
        IpPrefix::Local
    } else {
        let a: [u8; 2] = [o[0], o[1]];
        IpPrefix::V4Slash16(a)
    }
}

/// The prefix of 16 IPv6 bytes.
fn prefix_of_ipv6(o: &Vec<u8>) -> (r: IpPrefix)
    requires
        o@.len() == 16,
    ensures
        r == ipv6_prefix(o@),
{
    if crate::address::is_loopback_ipv6(o) {
        IpPrefix::Local
    } else {
        let s0 = (o[0] as u16) * 256 + (o[1] as u16);
        let s1 = (o[2] as u16) * 256 + (o[3] as u16);
        let s2 = (o[4] as u16) * 256 + (o[5] as u16);
        let a: [u16; 3] = [s0, s1, s2];
        IpPrefix::V6Slash48(a)
    }
}

/// Extract the IP prefix from a multiaddr given as text.
pub fn ip_prefix_of(addr: &str) -> (r: IpPrefix)
    ensures
        r == prefix_of_text(addr@),
{
    match parse_multiaddr(addr) {
        None => IpPrefix::Local,
        Some((_text, comps)) => {
            let ghost cv = components_view(comps@);
            proof {
                lemma_first_index(cv, ip_pred());
            }
            match find_component(&comps, COMPONENT_IP4, COMPONENT_IP6) {
                None => {
                    assert(first_index(cv, ip_pred()) is None) by {
                        if let Some(k) = first_index(cv, ip_pred()) {
                            assert(cv[k] == (comps@[k].0, comps@[k].1@));
                            assert(ip_pred()(cv[k].0));
                        }
                    }
                    IpPrefix::Local
                },
                Some(i) => {
                    assert(cv[i as int] == (comps@[i as int].0, comps@[i as int].1@));
                    assert(ip_pred()(cv[i as int].0));
                    assert forall|j: int| 0 <= j < i implies !ip_pred()(#[trigger] cv[j].0) by {
                        assert(cv[j] == (comps@[j].0, comps@[j].1@));
                    }
                    assert(first_index(cv, ip_pred()) == Some(i as int)) by {
                        if let Some(k) = first_index(cv, ip_pred()) {
                            if k < i {
                                assert(!ip_pred()(cv[k].0));
                            } else if k > i {
                                assert(!ip_pred()(cv[i as int].0));
                            }
                        }
                    }
                    if comps[i].0 == COMPONENT_IP4 {
                        prefix_of_ipv4(&comps[i].1)
                    } else {
                        prefix_of_ipv6(&comps[i].1)
                    }
                },
            }
        },
    }
}

/// Extended per-peer routing metadata tracked by the overlay (times in
/// milliseconds since the Unix epoch).
#[derive(Debug, Clone, Copy)]
pub struct PeerRoutingState {
    /// IP prefix derived from the peer's primary address.
    pub ip_prefix: IpPrefix,
    /// Number of successful DHT interactions (queries, fetches).
    pub successes: u64,
    /// Number of failed DHT interactions.
    pub failures: u64,
    /// When the peer was first added to the routing overlay.
    pub first_seen: u64,
    /// When the peer last had a successful interaction.
    pub last_success: Option<u64>,
}

/// A fresh routing state with no interactions.
pub open spec fn fresh_state(p: IpPrefix, now: u64) -> PeerRoutingState {
    PeerRoutingState { ip_prefix: p, successes: 0, failures: 0, first_seen: now, last_success: None }
}

/// The counters after the window check: both halved when their sum exceeds
/// the interaction window.
pub open spec fn decayed(s: u64, f: u64) -> (u64, u64) {
    if s + f > INTERACTION_WINDOW {
        ((s / 2) as u64, (f / 2) as u64)
    } else {
        (s, f)
    }
}

/// Whether a state is unreliable: at least the minimum number of
/// interactions, and a success rate below 0.3.
pub open spec fn unreliable_spec(s: PeerRoutingState) -> bool {
    let total = s.successes + s.failures;
    total >= MIN_INTERACTIONS_FOR_SCORE && 10 * s.successes < 3 * total
}

impl PeerRoutingState {
    /// A fresh state first seen at `now` (ms).
    pub fn new_at(ip_prefix: IpPrefix, now: u64) -> (s: Self)
        ensures
            s == fresh_state(ip_prefix, now),
    {
        PeerRoutingState { ip_prefix, successes: 0, failures: 0, first_seen: now, last_success: None }
    }

    /// A fresh state first seen now.
    pub fn new(ip_prefix: IpPrefix) -> (s: Self)
        ensures
            s.ip_prefix == ip_prefix,
            s.successes == 0,
            s.failures == 0,
            s.last_success is None,
    {
        let now = now_unix_millis();
        Self::new_at(ip_prefix, now)
    }

    fn decay_if_needed(&mut self)
        requires
            old(self).successes + old(self).failures <= u64::MAX,
        ensures
            (final(self).successes, final(self).failures) == decayed(old(self).successes, old(self).failures),
            final(self).ip_prefix == old(self).ip_prefix,
            final(self).first_seen == old(self).first_seen,
            final(self).last_success == old(self).last_success,
    {
        if self.successes + self.failures > INTERACTION_WINDOW {
            self.successes = self.successes / 2;
            self.failures = self.failures / 2;
        }
    }

    /// Record a successful interaction at `now` (ms).
    pub fn record_success_at(&mut self, now: u64)
        requires
            old(self).successes + old(self).failures < u64::MAX,
        ensures
            (final(self).successes, final(self).failures)
                == decayed((old(self).successes + 1) as u64, old(self).failures),
            final(self).last_success == Some(now),
            final(self).ip_prefix == old(self).ip_prefix,
            final(self).first_seen == old(self).first_seen,
    {
        self.successes = self.successes.saturating_add(1);
        self.last_success = Some(now);
        self.decay_if_needed();
    }

    /// Record a successful interaction now.
    pub fn record_success(&mut self)
        requires
            old(self).successes + old(self).failures < u64::MAX,
        ensures
            (final(self).successes, final(self).failures)
                == decayed((old(self).successes + 1) as u64, old(self).failures),
            final(self).last_success is Some,
            final(self).ip_prefix == old(self).ip_prefix,
            final(self).first_seen == old(self).first_seen,
    {
        let now = now_unix_millis();
        self.record_success_at(now);
    }

    /// Record a failed interaction.
    pub fn record_failure(&mut self)
        requires
            old(self).successes + old(self).failures < u64::MAX,
        ensures
            (final(self).successes, final(self).failures)
                == decayed(old(self).successes, (old(self).failures + 1) as u64),
            final(self).last_success == old(self).last_success,
            final(self).ip_prefix == old(self).ip_prefix,
            final(self).first_seen == old(self).first_seen,
    {
        self.failures = self.failures.saturating_add(1);
        self.decay_if_needed();
    }

    /// Whether this peer is considered unreliable: at least three
    /// interactions with fewer than 30% of them successful.
    pub fn is_unreliable(&self) -> (b: bool)
        requires
            self.successes + self.failures <= u64::MAX,
        ensures
            b == unreliable_spec(*self),
    {
        let total = self.successes + self.failures;
        total >= MIN_INTERACTIONS_FOR_SCORE && (self.successes as u128) * 10 < (total as u128) * 3
    }
}

/// Recording an interaction on counters within the interaction window leaves
/// them within it.
pub proof fn lemma_window_bounded(s: u64, f: u64)
    requires
        s + f <= INTERACTION_WINDOW,
    ensures
        decayed((s + 1) as u64, f).0 + decayed((s + 1) as u64, f).1 <= INTERACTION_WINDOW,
        decayed(s, (f + 1) as u64).0 + decayed(s, (f + 1) as u64).1 <= INTERACTION_WINDOW,
{
}

/// Why a peer was rejected for diversity reasons.
#[derive(Debug, Clone, PartialEq, Eq)]
pub enum DiversityViolation {
    /// Too many peers from the same IPv4 /16 subnet.
    Ipv4SubnetSaturated { prefix: String, count: usize, limit: usize },
    /// Too many peers from the same IPv6 /48 prefix.
    Ipv6PrefixSaturated { prefix: String, count: usize, limit: usize },
}

/// The message of a diversity violation.
pub open spec fn violation_text(v: DiversityViolation) -> Seq<char> {
    match v {
        DiversityViolation::Ipv4SubnetSaturated { prefix, count, limit } =>
            "IPv4 /16 "@ + prefix@ + ": "@ + decimal(count as nat) + "/"@ + decimal(limit as nat) + " peers"@,
        DiversityViolation::Ipv6PrefixSaturated { prefix, count, limit } =>
            "IPv6 /48 "@ + prefix@ + ": "@ + decimal(count as nat) + "/"@ + decimal(limit as nat) + " peers"@,
    }
}

impl DiversityViolation {
    /// The human-readable message.
    pub fn to_string(&self) -> (s: String)
        ensures
            s@ == violation_text(*self),
    {
        let mut out: Vec<char> = Vec::new();
        let (head, prefix, count, limit) = match self {
            DiversityViolation::Ipv4SubnetSaturated { prefix, count, limit } => ("IPv4 /16 ", prefix, count, limit),
            DiversityViolation::Ipv6PrefixSaturated { prefix, count, limit } => ("IPv6 /48 ", prefix, count, limit),
        };
        push_literal(&mut out, head);
        push_literal(&mut out, prefix.as_str());
        push_literal(&mut out, ": ");
        push_decimal(&mut out, *count as u64);
        push_literal(&mut out, "/");
        push_decimal(&mut out, *limit as u64);
        push_literal(&mut out, " peers");
        string_from_chars(&out)
    }
}

/// Whether `v` reports prefix `p` holding `n` peers against its limit.
pub open spec fn violation_matches(v: DiversityViolation, p: IpPrefix, n: nat) -> bool {
    match v {
        DiversityViolation::Ipv4SubnetSaturated { prefix, count, limit } => p is V4Slash16
            && prefix@ == prefix_text(p) && count == n && limit == MAX_PEERS_PER_IPV4_SLASH16,
        DiversityViolation::Ipv6PrefixSaturated { prefix, count, limit } => p is V6Slash48
            && prefix@ == prefix_text(p) && count == n && limit == MAX_PEERS_PER_IPV6_SLASH48,
    }
}

/// Whether a state carries prefix `p`.
pub open spec fn prefix_pred(p: IpPrefix) -> spec_fn(PeerRoutingState) -> bool {
    |s: PeerRoutingState| s.ip_prefix == p
}

/// How many peers of `m` count against prefix `p` (local prefixes are not
/// counted).
pub open spec fn prefix_count_of(m: Map<Seq<char>, PeerRoutingState>, p: IpPrefix) -> nat {
    if p == IpPrefix::Local {
        0
    } else {
        count_where(m, prefix_pred(p))
    }
}

/// Whether a distribution entry is the text and peer count of prefix `p`
/// held in `m`.
pub open spec fn distribution_entry(m: Map<Seq<char>, PeerRoutingState>, e: (String, usize), p: IpPrefix) -> bool {
    prefix_set(m).contains(p) && e.0@ == prefix_text(p) && e.1 == prefix_count_of(m, p)
}

/// Whether an entry is the text and count of some held prefix.
pub open spec fn held_entry(m: Map<Seq<char>, PeerRoutingState>, e: (String, usize)) -> bool {
    exists|p: IpPrefix| #[trigger] distribution_entry(m, e, p)
}

/// Whether `r` lists every held prefix once per entry with its text and
/// count, most populous first.
pub open spec fn distribution_of(m: Map<Seq<char>, PeerRoutingState>, r: Seq<(String, usize)>) -> bool {
    &&& r.len() == prefix_set(m).len()
    &&& forall|i: int| 0 <= i < r.len() ==> #[trigger] held_entry(m, r[i])
    &&& forall|p: IpPrefix| #[trigger] prefix_set(m).contains(p) ==> exists|i: int| 0 <= i < r.len()
        && #[trigger] distribution_entry(m, r[i], p)
    &&& forall|i: int, j: int| 0 <= i < j < r.len() ==> (#[trigger] r[i]).1 >= (#[trigger] r[j]).1
}

/// The non-local prefixes held by some peer of `m`.
pub open spec fn prefix_set(m: Map<Seq<char>, PeerRoutingState>) -> Set<IpPrefix> {
    Set::new(|p: IpPrefix| p != IpPrefix::Local && exists|k: Seq<char>| #[trigger] m.contains_key(k) && m[k].ip_prefix == p)
}

/// The per-prefix limit.
pub open spec fn prefix_limit(p: IpPrefix) -> nat {
    match p {
        IpPrefix::V4Slash16(_) => MAX_PEERS_PER_IPV4_SLASH16 as nat,
        IpPrefix::V6Slash48(_) => MAX_PEERS_PER_IPV6_SLASH48 as nat,
        IpPrefix::Local => 0,
    }
}

/// The first non-local prefix among the addresses, local if there is none.
pub open spec fn first_non_local(addrs: Seq<Seq<char>>) -> IpPrefix
    decreases addrs.len(),
{
    if addrs.len() == 0 {
        IpPrefix::Local
    } else if prefix_of_text(addrs[0]) != IpPrefix::Local {
        prefix_of_text(addrs[0])
    } else {
        first_non_local(addrs.drop_first())
    }
}

/// The prefix a peer with these addresses is judged by: with diversity off,
/// that of its first address; with it on, its first non-local prefix.
pub open spec fn admission_prefix(enabled: bool, addrs: Seq<Seq<char>>) -> IpPrefix {
    if !enabled {
        if addrs.len() == 0 { IpPrefix::Local } else { prefix_of_text(addrs[0]) }
    } else {
        first_non_local(addrs)
    }
}

/// The text views of a list of strings.
pub open spec fn texts(v: Seq<String>) -> Seq<Seq<char>> {
    v.map_values(|s: String| s@)
}

/// The state after a success at `now`.
pub open spec fn after_success(s: PeerRoutingState, now: u64) -> PeerRoutingState {
    let d = decayed((s.successes + 1) as u64, s.failures);
    PeerRoutingState { successes: d.0, failures: d.1, last_success: Some(now), ..s }
}

/// The state after a failure.
pub open spec fn after_failure(s: PeerRoutingState) -> PeerRoutingState {
    let d = decayed(s.successes, (s.failures + 1) as u64);
    PeerRoutingState { successes: d.0, failures: d.1, ..s }
}

/// The ascending order on sizes.
pub open spec fn size_leq() -> spec_fn(usize, usize) -> bool {
    |a: usize, b: usize| a <= b
}

/// The PoW difficulty for a median network size.
pub open spec fn difficulty_for(median: usize) -> u8 {
    if median <= 9 {
        8
    } else if median <= 49 {
        12
    } else if median <= 199 {
        16
    } else if median <= 999 {
        20
    } else {
        24
    }
}

/// The recommended difficulty for observed sizes: the default with none,
/// else by the median (the middle element, upper one for an even count).
pub open spec fn recommended_spec(sizes: Seq<usize>) -> u8 {
    if sizes.len() == 0 {
        DEFAULT_POW_DIFFICULTY
    } else {
        difficulty_for(sizes.sort_by(size_leq())[(sizes.len() / 2) as int])
    }
}

proof fn lemma_size_leq_total()
    ensures
        total_ordering(size_leq()),
{
    assert(vstd::relations::reflexive(size_leq()));
    assert(vstd::relations::antisymmetric(size_leq()));
    assert(vstd::relations::transitive(size_leq()));
    assert(vstd::relations::strongly_connected(size_leq()));
}

/// Sort sizes ascending.
fn sort_sizes(v: &Vec<usize>) -> (r: Vec<usize>)
    ensures
        r@ == v@.sort_by(size_leq()),
{
    broadcast use vstd::seq_lib::group_to_multiset_ensures;
    let mut out: Vec<usize> = Vec::new();
    let mut i: usize = 0;
    while i < v.len()
        invariant
            i <= v@.len(),
            sorted_by(out@, size_leq()),
            out@.to_multiset() == v@.take(i as int).to_multiset(),
        decreases v@.len() - i,
    {
        let x = v[i];
        let mut pos: usize = 0;
        while pos < out.len() && out[pos] <= x
            invariant
                pos <= out@.len(),
                forall|j: int| 0 <= j < pos ==> out@[j] <= x,
            decreases out@.len() - pos,
        {
            pos = pos + 1;
        }
        let ghost before = out@;
        out.insert(pos, x);
        proof {
            assert(out@ == before.insert(pos as int, x));
            vstd::seq_lib::to_multiset_insert(before, pos as int, x);
            vstd::seq_lib::to_multiset_build(v@.take(i as int), x);
            assert forall|a: int, b: int| 0 <= a < b < out@.len() implies #[trigger] size_leq()(out@[a], out@[b]) by {
                if b < pos {
                    assert(size_leq()(before[a], before[b]));
                } else if b == pos {
                    assert(out@[a] == before[a]);
                } else if a == pos {
                    assert(before[pos as int] > x);
                    if b - 1 > pos {
                        assert(size_leq()(before[pos as int], before[b - 1]));
                    }
                } else if a < pos {
                    assert(out@[a] <= x);
                    assert(before[pos as int] > x);
                    if b - 1 > pos {
                        assert(size_leq()(before[pos as int], before[b - 1]));
                    }
                } else {
                    assert(size_leq()(before[a - 1], before[b - 1]));
                }
            }
            assert(v@.take(i + 1) =~= v@.take(i as int).push(x));
        }
        i = i + 1;
    }
    proof {
        assert(v@.take(v@.len() as int) =~= v@);
        lemma_size_leq_total();
        v@.lemma_sort_by_ensures(size_leq());
        vstd::seq_lib::lemma_sorted_unique(out@, v@.sort_by(size_leq()), size_leq());
    }
    out
}

/// Routing overlay that enforces IP diversity and tracks reliability and
/// the network's PoW difficulty (times in milliseconds).
pub struct RoutingTable {
    peers: StrMap<PeerRoutingState>,
    diversity_enabled: bool,
    diversity_rejections: u64,
    current_difficulty: u8,
    /// Observed network sizes as `(time_ms, peer_count)`, oldest first.
    pub difficulty_observations: Vec<(u64, usize)>,
}

/// Snapshot of routing overlay health.
#[derive(Debug, Clone, Copy, PartialEq, Eq)]
pub struct RoutingStats {
    /// Total peers in the routing overlay.
    pub total_peers: usize,
    /// Peers flagged as unreliable.
    pub unreliable_peers: usize,
    /// Number of unique IP prefixes.
    pub unique_prefixes: usize,
    /// Highest number of peers from a single prefix.
    pub max_prefix_concentration: usize,
    /// Cumulative diversity-based rejections.
    pub diversity_rejections: u64,
    /// Current PoW difficulty in bits.
    pub current_difficulty: u8,
}

impl RoutingTable {
    /// The per-peer states, by peer id.
    pub closed spec fn view(&self) -> Map<Seq<char>, PeerRoutingState> {
        self.peers@
    }

    /// Whether diversity enforcement is on.
    pub closed spec fn diversity_enabled_value(&self) -> bool {
        self.diversity_enabled
    }

    /// Cumulative diversity rejections.
    pub closed spec fn rejections_value(&self) -> u64 {
        self.diversity_rejections
    }

    /// The current PoW difficulty.
    pub closed spec fn difficulty_value(&self) -> u8 {
        self.current_difficulty
    }

    /// The observed network sizes, oldest first.
    pub closed spec fn observed_sizes(&self) -> Seq<usize> {
        self.difficulty_observations@.map_values(|o: (u64, usize)| o.1)
    }

    /// The observation times (ms), oldest first.
    pub closed spec fn observed_times(&self) -> Seq<u64> {
        self.difficulty_observations@.map_values(|o: (u64, usize)| o.0)
    }

    /// Well-formed: distinct peer ids, every peer's counters within the
    /// interaction window, at most the kept number of observations.
    pub closed spec fn wf(&self) -> bool {
        &&& self.peers.wf()
        &&& forall|k: Seq<char>| #[trigger] self.peers@.contains_key(k)
            ==> self.peers@[k].successes + self.peers@[k].failures <= INTERACTION_WINDOW
        &&& self.difficulty_observations@.len() <= MAX_OBSERVATIONS
    }

    /// An empty overlay with the default difficulty.
    pub fn new(diversity_enabled: bool) -> (t: Self)
        ensures
            t.wf(),
            t@ == Map::<Seq<char>, PeerRoutingState>::empty(),
            t.diversity_enabled_value() == diversity_enabled,
            t.rejections_value() == 0,
            t.difficulty_value() == DEFAULT_POW_DIFFICULTY,
            t.observed_sizes() == Seq::<usize>::empty(),
    {
        let t = RoutingTable {
            peers: StrMap::new(),
            diversity_enabled,
            diversity_rejections: 0,
            current_difficulty: DEFAULT_POW_DIFFICULTY,
            difficulty_observations: Vec::new(),
        };
        assert(t.observed_sizes() =~= Seq::<usize>::empty());
        t
    }

    /// Number of peers (other than local ones) counted against prefix `p`.
    pub fn prefix_count(&self, p: &IpPrefix) -> (n: usize)
        requires
            self.wf(),
        ensures
            n == prefix_count_of(self@, *p),
    {
        if *p == IpPrefix::Local {
            return 0;
        }
        let mut cnt: usize = 0;
        let mut i: usize = 0;
        let len = self.peers.len();
        while i < len
            invariant
                self.wf(),
                len == self.peers.len_spec(),
                i <= len,
                cnt <= i,
                cnt == self.peers.count_prefix(prefix_pred(*p), i as int),
            decreases len - i,
        {
            let (_, st) = self.peers.entry_at(i);
            if st.ip_prefix == *p {
                cnt = cnt + 1;
            }
            i = i + 1;
        }
        proof {
            self.peers.lemma_count_values(prefix_pred(*p));
        }
        cnt
    }

    /// Check whether a peer with the given addresses can be admitted without
    /// violating the diversity limits; gives the prefix it is counted under.
    pub fn check_diversity(&self, addrs: &Vec<String>) -> (r: Result<IpPrefix, DiversityViolation>)
        requires
            self.wf(),
        ensures
            ({
                let p = admission_prefix(self.diversity_enabled_value(), texts(addrs@));
                let n = prefix_count_of(self@, p);
                &&& r is Ok <==> !(self.diversity_enabled_value() && p != IpPrefix::Local && n >= prefix_limit(p))
                &&& r is Ok ==> r->Ok_0 == p
                &&& r is Err ==> violation_matches(r->Err_0, p, n)
            }),
    {
        let ghost ts = texts(addrs@);
        if !self.diversity_enabled {
            if addrs.len() == 0 {
                return Ok(IpPrefix::Local);
            }
            assert(ts[0] == addrs@[0]@);
            return Ok(ip_prefix_of(addrs[0].as_str()));
        }
        let mut prefix = IpPrefix::Local;
        let mut i: usize = 0;
        assert(ts.skip(0) =~= ts);
        while i < addrs.len() && prefix == IpPrefix::Local
            invariant
                i <= addrs@.len(),
                ts == texts(addrs@),
                prefix == IpPrefix::Local ==> first_non_local(ts) == first_non_local(ts.skip(i as int)),
                prefix != IpPrefix::Local ==> prefix == first_non_local(ts),
            decreases addrs@.len() - i,
        {
            let q = ip_prefix_of(addrs[i].as_str());
            assert(ts.skip(i as int)[0] == addrs@[i as int]@);
            assert(ts.skip(i as int).drop_first() =~= ts.skip(i + 1));
            if q != IpPrefix::Local {
                prefix = q;
            }
            i = i + 1;
        }
        proof {
            if prefix == IpPrefix::Local {
                assert(ts.skip(i as int).len() == 0);
            }
        }
        if prefix == IpPrefix::Local {
            return Ok(prefix);
        }
        let current_count = self.prefix_count(&prefix);
        let limit = match prefix {
            IpPrefix::V4Slash16(_) => MAX_PEERS_PER_IPV4_SLASH16,
            IpPrefix::V6Slash48(_) => MAX_PEERS_PER_IPV6_SLASH48,
            IpPrefix::Local => MAX_PEERS_PER_IPV4_SLASH16,
        };
        if current_count >= limit {
            let text = prefix.to_string();
            let violation = match prefix {
                IpPrefix::V4Slash16(_) => DiversityViolation::Ipv4SubnetSaturated {
                    prefix: text,
                    count: current_count,
                    limit,
                },
                _ => DiversityViolation::Ipv6PrefixSaturated { prefix: text, count: current_count, limit },
            };
            return Err(violation);
        }
        Ok(prefix)
    }

    /// Add a peer first seen at `now` (ms); a peer already tracked is left as it is.
    pub fn add_peer_at(&mut self, peer_id: &str, prefix: IpPrefix, now: u64)
        requires
            old(self).wf(),
        ensures
            final(self).wf(),
            final(self)@ == if old(self)@.contains_key(peer_id@) {
                old(self)@
            } else {
                old(self)@.insert(peer_id@, fresh_state(prefix, now))
            },
            final(self).diversity_enabled_value() == old(self).diversity_enabled_value(),
            final(self).rejections_value() == old(self).rejections_value(),
            final(self).difficulty_value() == old(self).difficulty_value(),
            final(self).observed_sizes() == old(self).observed_sizes(),
    {
        if self.peers.contains_key(peer_id) {
            return;
        }
        self.peers.insert(peer_id, PeerRoutingState::new_at(prefix, now));
    }

    /// Add a peer first seen now; a peer already tracked is left as it is.
    pub fn add_peer(&mut self, peer_id: &str, prefix: IpPrefix)
        requires
            old(self).wf(),
        ensures
            final(self).wf(),
            old(self)@.contains_key(peer_id@) ==> final(self)@ == old(self)@,
            !old(self)@.contains_key(peer_id@) ==> exists|now: u64|
                final(self)@ == old(self)@.insert(peer_id@, #[trigger] fresh_state(prefix, now)),
            final(self).diversity_enabled_value() == old(self).diversity_enabled_value(),
            final(self).rejections_value() == old(self).rejections_value(),
            final(self).difficulty_value() == old(self).difficulty_value(),
            final(self).observed_sizes() == old(self).observed_sizes(),
    {
        let now = now_unix_millis();
        self.add_peer_at(peer_id, prefix, now);
        assert(!old(self)@.contains_key(peer_id@) ==> self@ == old(self)@.insert(peer_id@, fresh_state(prefix, now)));
    }

    /// Remove a peer from the overlay.
    pub fn remove_peer(&mut self, peer_id: &str)
        requires
            old(self).wf(),
        ensures
            final(self).wf(),
            final(self)@ == old(self)@.remove(peer_id@),
            final(self).diversity_enabled_value() == old(self).diversity_enabled_value(),
            final(self).rejections_value() == old(self).rejections_value(),
            final(self).difficulty_value() == old(self).difficulty_value(),
            final(self).observed_sizes() == old(self).observed_sizes(),
    {
        self.peers.remove(peer_id);
    }

    /// Record a successful interaction with a peer at `now` (ms); unknown
    /// peers are ignored.
    pub fn record_success_at(&mut self, peer_id: &str, now: u64)
        requires
            old(self).wf(),
        ensures
            final(self).wf(),
            final(self)@ == if old(self)@.contains_key(peer_id@) {
                old(self)@.insert(peer_id@, after_success(old(self)@[peer_id@], now))
            } else {
                old(self)@
            },
            final(self).diversity_enabled_value() == old(self).diversity_enabled_value(),
            final(self).rejections_value() == old(self).rejections_value(),
            final(self).difficulty_value() == old(self).difficulty_value(),
            final(self).observed_sizes() == old(self).observed_sizes(),
    {
        let cur = match self.peers.get(peer_id) {
            Some(st) => *st,
            None => return,
        };
        let mut st = cur;
        st.record_success_at(now);
        proof {
            lemma_window_bounded(cur.successes, cur.failures);
        }
        self.peers.insert(peer_id, st);
    }

    /// Record a successful interaction with a peer now; unknown peers are ignored.
    pub fn record_success(&mut self, peer_id: &str)
        requires
            old(self).wf(),
        ensures
            final(self).wf(),
            old(self)@.contains_key(peer_id@) ==> exists|now: u64|
                final(self)@ == old(self)@.insert(peer_id@, #[trigger] after_success(old(self)@[peer_id@], now)),
            !old(self)@.contains_key(peer_id@) ==> final(self)@ == old(self)@,
            final(self).diversity_enabled_value() == old(self).diversity_enabled_value(),
            final(self).rejections_value() == old(self).rejections_value(),
            final(self).difficulty_value() == old(self).difficulty_value(),
            final(self).observed_sizes() == old(self).observed_sizes(),
    {
        let now = now_unix_millis();
        self.record_success_at(peer_id, now);
        assert(old(self)@.contains_key(peer_id@) ==> self@ == old(self)@.insert(peer_id@,
            after_success(old(self)@[peer_id@], now)));
    }

    /// Record a failed interaction with a peer; unknown peers are ignored.
    pub fn record_failure(&mut self, peer_id: &str)
        requires
            old(self).wf(),
        ensures
            final(self).wf(),
            final(self)@ == if old(self)@.contains_key(peer_id@) {
                old(self)@.insert(peer_id@, after_failure(old(self)@[peer_id@]))
            } else {
                old(self)@
            },
            final(self).diversity_enabled_value() == old(self).diversity_enabled_value(),
            final(self).rejections_value() == old(self).rejections_value(),
            final(self).difficulty_value() == old(self).difficulty_value(),
            final(self).observed_sizes() == old(self).observed_sizes(),
    {
        let cur = match self.peers.get(peer_id) {
            Some(st) => *st,
            None => return,
        };
        let mut st = cur;
        st.record_failure();
        proof {
            lemma_window_bounded(cur.successes, cur.failures);
        }
        self.peers.insert(peer_id, st);
    }

    /// Record a diversity-based rejection.
    pub fn record_diversity_rejection(&mut self)
        requires
            old(self).wf(),
            old(self).rejections_value() < u64::MAX,
        ensures
            final(self).wf(),
            final(self).rejections_value() == old(self).rejections_value() + 1,
            final(self)@ == old(self)@,
            final(self).diversity_enabled_value() == old(self).diversity_enabled_value(),
            final(self).difficulty_value() == old(self).difficulty_value(),
            final(self).observed_sizes() == old(self).observed_sizes(),
    {
        self.diversity_rejections = self.diversity_rejections + 1;
    }

    /// The routing state of a peer.
    pub fn peer_state(&self, peer_id: &str) -> (r: Option<&PeerRoutingState>)
        requires
            self.wf(),
        ensures
            match r {
                Some(st) => self@.contains_key(peer_id@) && self@[peer_id@] == *st,
                None => !self@.contains_key(peer_id@),
            },
    {
        self.peers.get(peer_id)
    }

    /// The number of peers in the overlay.
    pub fn peer_count(&self) -> (n: usize)
        requires
            self.wf(),
        ensures
            n == self@.dom().len(),
    {
        proof {
            self.peers.lemma_len();
        }
        self.peers.len()
    }

    /// Whether `p` occurs in `ps`.
    fn has_prefix(ps: &Vec<IpPrefix>, p: &IpPrefix) -> (b: bool)
        ensures
            b == ps@.contains(*p),
    {
        let mut i: usize = 0;
        while i < ps.len()
            invariant
                i <= ps@.len(),
                forall|j: int| 0 <= j < i ==> ps@[j] != *p,
            decreases ps@.len() - i,
        {
            if ps[i] == *p {
                assert(ps@[i as int] == *p);
                return true;
            }
            i = i + 1;
        }
        false
    }

    /// The distinct non-local prefixes of the peers.
    fn distinct_prefixes(&self) -> (ps: Vec<IpPrefix>)
        requires
            self.wf(),
        ensures
            ps@.no_duplicates(),
            ps@.to_set() == prefix_set(self@),
    {
        let mut ps: Vec<IpPrefix> = Vec::new();
        let mut i: usize = 0;
        let len = self.peers.len();
        while i < len
            invariant
                self.wf(),
                len == self.peers.len_spec(),
                i <= len,
                ps@.no_duplicates(),
                forall|p: IpPrefix| ps@.contains(p) <==> (p != IpPrefix::Local
                    && exists|j: int| 0 <= j < i && (#[trigger] self.peers.value_at(j)).ip_prefix == p),
            decreases len - i,
        {
            let (_, st) = self.peers.entry_at(i);
            let p = st.ip_prefix;
            let ghost before = ps@;
            if p != IpPrefix::Local && !Self::has_prefix(&ps, &p) {
                ps.push(p);
            }
            proof {
                assert forall|q: IpPrefix| ps@.contains(q) <==> (q != IpPrefix::Local
                    && exists|j: int| 0 <= j < i + 1 && (#[trigger] self.peers.value_at(j)).ip_prefix == q) by {
                    if ps@.contains(q) && !before.contains(q) {
                        assert(self.peers.value_at(i as int).ip_prefix == q);
                    }
                    if before.contains(q) {
                        let k = choose|k: int| 0 <= k < before.len() && before[k] == q;
                        assert(ps@[k] == q);
                    }
                    if q != IpPrefix::Local && exists|j: int| 0 <= j < i + 1 && (#[trigger] self.peers.value_at(j)).ip_prefix == q {
                        let j = choose|j: int| 0 <= j < i + 1 && (#[trigger] self.peers.value_at(j)).ip_prefix == q;
                        if j == i {
                            if !before.contains(q) {
                                assert(ps@[ps@.len() - 1] == q);
                            }
                        }
                    }
                }
            }
            i = i + 1;
        }
        proof {
            assert forall|p: IpPrefix| ps@.to_set().contains(p) <==> prefix_set(self@).contains(p) by {
                if ps@.contains(p) {
                    let j = choose|j: int| 0 <= j < len && (#[trigger] self.peers.value_at(j)).ip_prefix == p;
                    self.peers.lemma_entry_spec(j);
                    assert(self@.contains_key(self.peers.key_spec(j)));
                }
                if prefix_set(self@).contains(p) {
                    let k = choose|k: Seq<char>| #[trigger] self@.contains_key(k) && self@[k].ip_prefix == p;
                    self.peers.lemma_key_index(k);
                    let j = choose|j: int| 0 <= j < self.peers.len_spec() && #[trigger] self.peers.key_spec(j) == k;
                    self.peers.lemma_entry_spec(j);
                    assert(self.peers.value_at(j).ip_prefix == p);
                }
            }
            assert(ps@.to_set() =~= prefix_set(self@));
        }
        ps
    }

    /// The number of unreliable peers.
    fn unreliable_count(&self) -> (n: usize)
        requires
            self.wf(),
        ensures
            n == count_where(self@, |s: PeerRoutingState| unreliable_spec(s)),
    {
        let ghost pred = |s: PeerRoutingState| unreliable_spec(s);
        let mut cnt: usize = 0;
        let mut i: usize = 0;
        let len = self.peers.len();
        while i < len
            invariant
                self.wf(),
                len == self.peers.len_spec(),
                i <= len,
                cnt <= i,
                pred == (|s: PeerRoutingState| unreliable_spec(s)),
                cnt == self.peers.count_prefix(pred, i as int),
            decreases len - i,
        {
            let (_, st) = self.peers.entry_at(i);
            proof {
                self.peers.lemma_entry_spec(i as int);
            }
            if st.is_unreliable() {
                cnt = cnt + 1;
            }
            i = i + 1;
        }
        proof {
            self.peers.lemma_count_values(pred);
        }
        cnt
    }

    /// Each prefix's text and peer count, most populous first.
    pub fn prefix_distribution(&self) -> (r: Vec<(String, usize)>)
        requires
            self.wf(),
        ensures
            distribution_of(self@, r@),
    {
        let ps = self.distinct_prefixes();
        proof {
            ps@.unique_seq_to_set();
        }
        let mut out: Vec<(String, usize)> = Vec::new();
        let ghost mut src: Seq<IpPrefix> = Seq::empty();
        let mut j: usize = 0;
        while j < ps.len()
            invariant
                self.wf(),
                ps@.no_duplicates(),
                ps@.to_set() == prefix_set(self@),
                j <= ps@.len(),
                out@.len() == j,
                src.len() == j,
                forall|i: int| 0 <= i < j ==> (#[trigger] out@[i]).0@ == prefix_text(src[i])
                    && out@[i].1 == prefix_count_of(self@, src[i]),
                forall|q: IpPrefix| src.contains(q) <==> ps@.subrange(0, j as int).contains(q),
                forall|a: int, b: int| 0 <= a < b < out@.len() ==> (#[trigger] out@[a]).1 >= (#[trigger] out@[b]).1,
            decreases ps@.len() - j,
        {
            let p = ps[j];
            let c = self.prefix_count(&p);
            let mut k: usize = 0;
            while k < out.len() && out[k].1 >= c
                invariant
                    k <= out@.len(),
                    forall|a: int| 0 <= a < k ==> (#[trigger] out@[a]).1 >= c,
                decreases out@.len() - k,
            {
                k = k + 1;
            }
            let ghost before = out@;
            let ghost src_before = src;
            out.insert(k, (p.to_string(), c));
            proof {
                src = src.insert(k as int, p);
                assert forall|i: int| 0 <= i < j + 1 implies (#[trigger] out@[i]).0@ == prefix_text(src[i])
                    && out@[i].1 == prefix_count_of(self@, src[i]) by {
                    if i < k {
                        assert(out@[i] == before[i] && src[i] == src_before[i]);
                    } else if i > k {
                        assert(out@[i] == before[i - 1] && src[i] == src_before[i - 1]);
                    }
                }
                assert forall|a: int, b: int| 0 <= a < b < out@.len() implies (#[trigger] out@[a]).1 >= (#[trigger] out@[b]).1 by {
                    if b < k {
                        assert(out@[a] == before[a] && out@[b] == before[b]);
                    } else if b == k {
                        assert(out@[a] == before[a]);
                    } else if a < k {
                        assert(out@[a] == before[a] && out@[b] == before[b - 1]);
                        assert(before[k as int].1 < c);
                    } else if a == k {
                        assert(out@[b] == before[b - 1]);
                        assert(before[k as int].1 < c);
                        if b - 1 > k {
                            assert(before[k as int].1 >= before[b - 1].1);
                        }
                    } else {
                        assert(out@[a] == before[a - 1] && out@[b] == before[b - 1]);
                    }
                }
                let pre = ps@.subrange(0, j as int);
                let post = ps@.subrange(0, j + 1);
                assert(post =~= pre.push(p));
                assert forall|q: IpPrefix| src.contains(q) implies post.contains(q) by {
                    let i = choose|i: int| 0 <= i < src.len() && src[i] == q;
                    if i == k {
                        assert(post[j as int] == q);
                    } else {
                        let i0 = if i < k { i } else { i - 1 };
                        assert(src_before[i0] == q);
                        assert(src_before.contains(q));
                        assert(pre.contains(q));
                        let x = choose|x: int| 0 <= x < pre.len() && pre[x] == q;
                        assert(post[x] == q);
                    }
                }
                assert forall|q: IpPrefix| post.contains(q) implies src.contains(q) by {
                    let x = choose|x: int| 0 <= x < post.len() && post[x] == q;
                    if x == j {
                        assert(src[k as int] == q);
                    } else {
                        assert(pre[x] == q);
                        assert(pre.contains(q));
                        assert(src_before.contains(q));
                        let i = choose|i: int| 0 <= i < src_before.len() && src_before[i] == q;
                        if i < k {
                            assert(src[i] == q);
                        } else {
                            assert(src[i + 1] == q);
                        }
                    }
                }
            }
            j = j + 1;
        }
        proof {
            assert(ps@.subrange(0, ps@.len() as int) =~= ps@);
            assert forall|i: int| 0 <= i < out@.len() implies #[trigger] held_entry(self@, out@[i]) by {
                assert(src.contains(src[i]));
                assert(ps@.subrange(0, ps@.len() as int).contains(src[i]));
                assert(ps@.contains(src[i]));
                assert(ps@.to_set().contains(src[i]));
                assert(distribution_entry(self@, out@[i], src[i]));
            }
            assert forall|p: IpPrefix| #[trigger] prefix_set(self@).contains(p) implies exists|i: int| 0 <= i < out@.len()
                && #[trigger] distribution_entry(self@, out@[i], p) by {
                assert(ps@.to_set().contains(p));
                assert(ps@.contains(p));
                assert(ps@.subrange(0, ps@.len() as int).contains(p));
                assert(src.contains(p));
                let i = choose|i: int| 0 <= i < src.len() && src[i] == p;
                assert(distribution_entry(self@, out@[i], p));
            }
            assert(out@.len() == prefix_set(self@).len()) by {
                ps@.unique_seq_to_set();
            }
            assert(distribution_of(self@, out@));
        }
        out
    }

    /// Snapshot of the overlay's health.
    pub fn stats(&self) -> (r: RoutingStats)
        requires
            self.wf(),
        ensures
            r.total_peers == self@.dom().len(),
            r.unreliable_peers == count_where(self@, |s: PeerRoutingState| unreliable_spec(s)),
            r.unique_prefixes == prefix_set(self@).len(),
            forall|p: IpPrefix| #[trigger] prefix_set(self@).contains(p) ==> prefix_count_of(self@, p)
                <= r.max_prefix_concentration,
            r.max_prefix_concentration == 0 || exists|p: IpPrefix| #[trigger] prefix_set(self@).contains(p)
                && prefix_count_of(self@, p) == r.max_prefix_concentration,
            r.diversity_rejections == self.rejections_value(),
            r.current_difficulty == self.difficulty_value(),
    {
        let total = self.peer_count();
        let unreliable = self.unreliable_count();
        let ps = self.distinct_prefixes();
        proof {
            ps@.unique_seq_to_set();
        }
        let mut max: usize = 0;
        let mut i: usize = 0;
        while i < ps.len()
            invariant
                self.wf(),
                i <= ps@.len(),
                forall|j: int| 0 <= j < i ==> prefix_count_of(self@, #[trigger] ps@[j]) <= max,
                max == 0 || exists|j: int| 0 <= j < i && prefix_count_of(self@, #[trigger] ps@[j]) == max,
            decreases ps@.len() - i,
        {
            let c = self.prefix_count(&ps[i]);
            if c > max {
                max = c;
            }
            i = i + 1;
        }
        proof {
            assert forall|p: IpPrefix| #[trigger] prefix_set(self@).contains(p) implies prefix_count_of(self@, p) <= max by {
                assert(ps@.to_set().contains(p));
                let j = choose|j: int| 0 <= j < ps@.len() && ps@[j] == p;
                assert(prefix_count_of(self@, ps@[j]) <= max);
            }
            if max != 0 {
                let j = choose|j: int| 0 <= j < i && prefix_count_of(self@, #[trigger] ps@[j]) == max;
                assert(ps@.to_set().contains(ps@[j]));
                assert(prefix_set(self@).contains(ps@[j]));
            }
        }
        RoutingStats {
            total_peers: total,
            unreliable_peers: unreliable,
            unique_prefixes: ps.len(),
            max_prefix_concentration: max,
            diversity_rejections: self.diversity_rejections,
            current_difficulty: self.current_difficulty,
        }
    }

    /// Record an observation of the network size at `now` (ms), keeping the
    /// most recent observations.
    pub fn observe_network_size_at(&mut self, peer_count: usize, now: u64)
        requires
            old(self).wf(),
        ensures
            final(self).wf(),
            final(self).observed_sizes() == if old(self).observed_sizes().len() + 1 > MAX_OBSERVATIONS {
                old(self).observed_sizes().push(peer_count).drop_first()
            } else {
                old(self).observed_sizes().push(peer_count)
            },
            final(self)@ == old(self)@,
            final(self).diversity_enabled_value() == old(self).diversity_enabled_value(),
            final(self).rejections_value() == old(self).rejections_value(),
            final(self).difficulty_value() == old(self).difficulty_value(),
    {
        self.difficulty_observations.push((now, peer_count));
        assert(self.observed_sizes() =~= old(self).observed_sizes().push(peer_count));
        if self.difficulty_observations.len() > MAX_OBSERVATIONS {
            self.difficulty_observations.remove(0);
            assert(self.observed_sizes() =~= old(self).observed_sizes().push(peer_count).drop_first());
        }
    }

    /// Record an observation of the network size now.
    pub fn observe_network_size(&mut self, peer_count: usize)
        requires
            old(self).wf(),
        ensures
            final(self).wf(),
            final(self).observed_sizes() == if old(self).observed_sizes().len() + 1 > MAX_OBSERVATIONS {
                old(self).observed_sizes().push(peer_count).drop_first()
            } else {
                old(self).observed_sizes().push(peer_count)
            },
            final(self)@ == old(self)@,
            final(self).diversity_enabled_value() == old(self).diversity_enabled_value(),
            final(self).rejections_value() == old(self).rejections_value(),
            final(self).difficulty_value() == old(self).difficulty_value(),
    {
        let now = now_unix_millis();
        self.observe_network_size_at(peer_count, now);
    }

    /// The recommended PoW difficulty for the observed network sizes: 8 bits
    /// below 10 peers, 12 below 50, 16 below 200, 20 below 1000, else 24, by
    /// the median observation; the default with no observations.
    pub fn recommended_difficulty(&self) -> (d: u8)
        requires
            self.wf(),
        ensures
            d == recommended_spec(self.observed_sizes()),
    {
        if self.difficulty_observations.len() == 0 {
            return DEFAULT_POW_DIFFICULTY;
        }
        let mut sizes: Vec<usize> = Vec::new();
        let mut i: usize = 0;
        while i < self.difficulty_observations.len()
            invariant
                i <= self.difficulty_observations@.len(),
                sizes@ == self.observed_sizes().take(i as int),
            decreases self.difficulty_observations@.len() - i,
        {
            sizes.push(self.difficulty_observations[i].1);
            assert(sizes@ =~= self.observed_sizes().take(i + 1));
            i = i + 1;
        }
        assert(sizes@ =~= self.observed_sizes());
        let sorted = sort_sizes(&sizes);
        proof {
            lemma_size_leq_total();
            sizes@.lemma_sort_by_ensures(size_leq());
            vstd::seq_lib::to_multiset_len(sizes@);
            vstd::seq_lib::to_multiset_len(sorted@);
        }
        let median = sorted[sorted.len() / 2];
        if median <= 9 {
            8
        } else if median <= 49 {
            12
        } else if median <= 199 {
            16
        } else if median <= 999 {
            20
        } else {
            24
        }
    }

    /// Set the difficulty to the recommended one; gives the new difficulty
    /// when it changed.
    pub fn maybe_adjust_difficulty(&mut self) -> (r: Option<u8>)
        requires
            old(self).wf(),
        ensures
            final(self).wf(),
            final(self).difficulty_value() == recommended_spec(old(self).observed_sizes()),
            r == if recommended_spec(old(self).observed_sizes()) != old(self).difficulty_value() {
                Some(recommended_spec(old(self).observed_sizes()))
            } else {
                None::<u8>
            },
            final(self)@ == old(self)@,
            final(self).observed_sizes() == old(self).observed_sizes(),
            final(self).diversity_enabled_value() == old(self).diversity_enabled_value(),
            final(self).rejections_value() == old(self).rejections_value(),
    {
        let recommended = self.recommended_difficulty();
        if recommended != self.current_difficulty {
            self.current_difficulty = recommended;
            Some(recommended)
        } else {
            None
        }
    }

    /// The current PoW difficulty.
    pub fn current_difficulty(&self) -> (d: u8)
        ensures
            d == self.difficulty_value(),
    {
        self.current_difficulty
    }
}

/// Adding a new peer adds one to the count of its prefix (unless local) and
/// leaves every other prefix's count unchanged; removing a peer takes it away
/// again.
pub proof fn lemma_prefix_counts_track_peers(m: Map<Seq<char>, PeerRoutingState>, k: Seq<char>,
    st: PeerRoutingState, p: IpPrefix)
    requires
        m.dom().finite(),
        !m.contains_key(k),
    ensures
        prefix_count_of(m.insert(k, st), p) == prefix_count_of(m, p)
            + if p != IpPrefix::Local && st.ip_prefix == p { 1nat } else { 0nat },
        m.insert(k, st).remove(k) == m,
{
    crate::strmap::lemma_count_insert(m, k, st, prefix_pred(p));
    assert(m.insert(k, st).remove(k) =~= m);
}

/// A peer admitted after a passing diversity check leaves its prefix within
/// the limit.
pub proof fn lemma_admission_keeps_limit(m: Map<Seq<char>, PeerRoutingState>, k: Seq<char>,
    p: IpPrefix, now: u64)
    requires
        m.dom().finite(),
        !m.contains_key(k),
        p != IpPrefix::Local,
        prefix_count_of(m, p) < prefix_limit(p),
    ensures
        prefix_count_of(m.insert(k, fresh_state(p, now)), p) <= prefix_limit(p),
{
    lemma_prefix_counts_track_peers(m, k, fresh_state(p, now), p);
}

/// A larger median never lowers the recommended difficulty.
pub proof fn lemma_difficulty_monotone(a: usize, b: usize)
    requires
        a <= b,
    ensures
        difficulty_for(a) <= difficulty_for(b),
{
}

/// How many of the network-size thresholds 10, 50, 200 and 1000 a median
/// reaches.
pub open spec fn thresholds_reached(m: usize) -> int {
    (if m >= 10 { 1int } else { 0int }) + (if m >= 50 { 1int } else { 0int }) + (if m >= 200 { 1int } else { 0int })
        + (if m >= 1000 { 1int } else { 0int })
}

/// Each network-size threshold the median reaches (10, 50, 200 and 1000
/// peers) adds four bits to the difficulty, from 8 bits for the smallest
/// networks up to 24 bits from 1000 peers on.
pub proof fn lemma_difficulty_steps(m: usize)
    ensures
        difficulty_for(m) == 8 + 4 * thresholds_reached(m),
        8 <= difficulty_for(m) <= 24,
        m >= 1000 ==> difficulty_for(m) == 24,
        200 <= m <= 999 ==> difficulty_for(m) == 20,
{
}

/// The recommended difficulty lies between those of the smallest and the
/// largest observed size: when every observation is between `lo` and `hi`
/// peers, so is the median the difficulty is set by. In particular a table
/// whose observations all reach 1000 peers recommends 24 bits.
pub proof fn lemma_recommended_within(sizes: Seq<usize>, lo: usize, hi: usize)
    requires
        sizes.len() > 0,
        forall|i: int| 0 <= i < sizes.len() ==> lo <= #[trigger] sizes[i] <= hi,
    ensures
        difficulty_for(lo) <= recommended_spec(sizes) <= difficulty_for(hi),
        lo >= 1000 ==> recommended_spec(sizes) == 24,
{
    broadcast use vstd::seq_lib::group_to_multiset_ensures;
    lemma_size_leq_total();
    sizes.lemma_sort_by_ensures(size_leq());
    let sorted = sizes.sort_by(size_leq());
    vstd::seq_lib::to_multiset_len(sizes);
    vstd::seq_lib::to_multiset_len(sorted);
    let k = (sizes.len() / 2) as int;
    let m = sorted[k];
    assert(sorted.contains(m));
    assert(sorted.to_multiset().count(m) > 0);
    assert(sizes.to_multiset().count(m) > 0);
    assert(sizes.contains(m));
    let j = choose|j: int| 0 <= j < sizes.len() && sizes[j] == m;
    assert(lo <= sizes[j] <= hi);
    lemma_difficulty_monotone(lo, m);
    lemma_difficulty_monotone(m, hi);
    lemma_difficulty_steps(lo);
    lemma_difficulty_steps(m);
}

/// How many of the sizes are below `t`.
pub open spec fn count_below(s: Seq<usize>, t: usize) -> nat
    decreases s.len(),
{
    if s.len() == 0 {
        0
    } else {
        count_below(s.drop_last(), t) + if s.last() < t { 1nat } else { 0nat }
    }
}

proof fn lemma_count_below_concat(a: Seq<usize>, b: Seq<usize>, t: usize)
    ensures
        count_below(a + b, t) == count_below(a, t) + count_below(b, t),
    decreases b.len(),
{
    if b.len() == 0 {
        assert(a + b =~= a);
    } else {
        lemma_count_below_concat(a, b.drop_last(), t);
        assert((a + b).drop_last() =~= a + b.drop_last());
        assert((a + b).last() == b.last());
    }
}

proof fn lemma_count_below_remove(s: Seq<usize>, j: int, t: usize)
    requires
        0 <= j < s.len(),
    ensures
        count_below(s, t) == count_below(s.remove(j), t) + if s[j] < t { 1nat } else { 0nat },
{
    assert(s =~= s.take(j) + seq![s[j]] + s.skip(j + 1));
    assert(s.remove(j) =~= s.take(j) + s.skip(j + 1));
    lemma_count_below_concat(s.take(j) + seq![s[j]], s.skip(j + 1), t);
    lemma_count_below_concat(s.take(j), seq![s[j]], t);
    lemma_count_below_concat(s.take(j), s.skip(j + 1), t);
    assert(seq![s[j]].drop_last() =~= Seq::<usize>::empty());
    reveal_with_fuel(count_below, 2);
    assert(count_below(seq![s[j]], t) == if s[j] < t { 1nat } else { 0nat });
}

proof fn lemma_count_below_permutation(a: Seq<usize>, b: Seq<usize>, t: usize)
    requires
        a.to_multiset() == b.to_multiset(),
    ensures
        count_below(a, t) == count_below(b, t),
    decreases a.len(),
{
    broadcast use vstd::seq_lib::group_to_multiset_ensures;
    vstd::seq_lib::to_multiset_len(a);
    vstd::seq_lib::to_multiset_len(b);
    if a.len() > 0 {
        let x = a.last();
        let a0 = a.drop_last();
        assert(a =~= a0.push(x));
        vstd::seq_lib::to_multiset_build(a0, x);
        assert(b.to_multiset().count(x) > 0);
        assert(b.contains(x));
        let j = choose|j: int| 0 <= j < b.len() && b[j] == x;
        vstd::seq_lib::to_multiset_remove(b, j);
        assert(b.remove(j).to_multiset() =~= a0.to_multiset());
        lemma_count_below_permutation(a0, b.remove(j), t);
        lemma_count_below_remove(b, j, t);
    }
}

proof fn lemma_count_below_bounds(s: Seq<usize>, t: usize)
    ensures
        count_below(s, t) <= s.len(),
        (forall|i: int| 0 <= i < s.len() ==> #[trigger] s[i] < t) ==> count_below(s, t) == s.len(),
        (forall|i: int| 0 <= i < s.len() ==> #[trigger] s[i] >= t) ==> count_below(s, t) == 0,
    decreases s.len(),
{
    if s.len() > 0 {
        lemma_count_below_bounds(s.drop_last(), t);
        if forall|i: int| 0 <= i < s.len() ==> #[trigger] s[i] < t {
            assert forall|i: int| 0 <= i < s.drop_last().len() implies #[trigger] s.drop_last()[i] < t by {
                assert(s.drop_last()[i] == s[i]);
            }
        }
        if forall|i: int| 0 <= i < s.len() ==> #[trigger] s[i] >= t {
            assert forall|i: int| 0 <= i < s.drop_last().len() implies #[trigger] s.drop_last()[i] >= t by {
                assert(s.drop_last()[i] == s[i]);
            }
        }
    }
}

/// In an ascending sequence, the element at `k` is below `t` exactly when
/// more than `k` elements are.
proof fn lemma_sorted_count(sorted: Seq<usize>, k: int, t: usize)
    requires
        0 <= k < sorted.len(),
        sorted_by(sorted, size_leq()),
    ensures
        sorted[k] < t ==> count_below(sorted, t) >= k + 1,
        sorted[k] >= t ==> count_below(sorted, t) <= k,
{
    let m = sorted[k];
    assert(sorted =~= sorted.take(k + 1) + sorted.skip(k + 1));
    assert(sorted =~= sorted.take(k) + sorted.skip(k));
    lemma_count_below_concat(sorted.take(k + 1), sorted.skip(k + 1), t);
    lemma_count_below_concat(sorted.take(k), sorted.skip(k), t);
    lemma_count_below_bounds(sorted.skip(k + 1), t);
    lemma_count_below_bounds(sorted.take(k), t);
    if m < t {
        assert forall|i: int| 0 <= i < k + 1 implies #[trigger] sorted.take(k + 1)[i] < t by {
            assert(sorted.take(k + 1)[i] == sorted[i]);
            if i < k {
                assert(size_leq()(sorted[i], sorted[k]));
            }
        }
        lemma_count_below_bounds(sorted.take(k + 1), t);
    } else {
        assert forall|i: int| 0 <= i < sorted.skip(k).len() implies #[trigger] sorted.skip(k)[i] >= t by {
            assert(sorted.skip(k)[i] == sorted[k + i]);
            if i > 0 {
                assert(size_leq()(sorted[k], sorted[k + i]));
            }
        }
        lemma_count_below_bounds(sorted.skip(k), t);
    }
}

/// The difficulty follows the majority of the observations: when at most
/// half of them (rounded down) report fewer than `t` peers, the recommended
/// difficulty is at least that for `t` peers; when more than half do, it is
/// at most that for `t - 1`. So a table where at least half of the
/// observations reach 1000 peers recommends 24 bits, and one where more
/// than half stay below 1000 recommends at most 20.
pub proof fn lemma_recommended_follows_majority(sizes: Seq<usize>, t: usize)
    requires
        sizes.len() > 0,
    ensures
        count_below(sizes, t) <= sizes.len() / 2 ==> recommended_spec(sizes) >= difficulty_for(t),
        t > 0 && count_below(sizes, t) > sizes.len() / 2 ==> recommended_spec(sizes) <= difficulty_for((t - 1) as usize),
        count_below(sizes, 1000) <= sizes.len() / 2 ==> recommended_spec(sizes) == 24,
        count_below(sizes, 1000) > sizes.len() / 2 ==> recommended_spec(sizes) <= 20,
{
    broadcast use vstd::seq_lib::group_to_multiset_ensures;
    lemma_size_leq_total();
    sizes.lemma_sort_by_ensures(size_leq());
    let sorted = sizes.sort_by(size_leq());
    vstd::seq_lib::to_multiset_len(sizes);
    vstd::seq_lib::to_multiset_len(sorted);
    let k = (sizes.len() / 2) as int;
    let m = sorted[k];
    assert(recommended_spec(sizes) == difficulty_for(m));
    lemma_count_below_permutation(sizes, sorted, t);
    lemma_count_below_permutation(sizes, sorted, 1000);
    lemma_sorted_count(sorted, k, t);
    lemma_sorted_count(sorted, k, 1000);
    lemma_difficulty_steps(m);
    if m >= t {
        lemma_difficulty_monotone(t, m);
    }
    if t > 0 && m < t {
        lemma_difficulty_monotone(m, (t - 1) as usize);
    }
    if m < 1000 {
        lemma_difficulty_monotone(m, 999);
        lemma_difficulty_steps(999);
    }
}

// ─── Peer ranking ───────────────────────────────────────────────────────────

/// The trust term of a peer's score: Verified 300, Observed 100, Claimed 0.
pub open spec fn trust_points(t: AddressTrust) -> int {
    match t {
        AddressTrust::Verified => 300,
        AddressTrust::Observed => 100,
        AddressTrust::Claimed => 0,
    }
}

/// A candidate's ranking score: trust points, plus its reliability
/// percentage, plus a diversity bonus of `50 / prefix_count` (a count of 0
/// taken as 1), less 200 for an unreliable peer; a score that would fall
/// below zero is zero.
pub open spec fn peer_score_spec(t: AddressTrust, reliability_pct: u32, prefix_count: nat, unreliable: bool) -> int {
    let pc: int = if prefix_count == 0 { 1 } else { prefix_count as int };
    let raw = trust_points(t) + reliability_pct + 50int / pc - (if unreliable { 200int } else { 0int });
    if raw < 0 { 0 } else { raw }
}

/// The ranking score of a candidate (see `peer_score_spec`).
pub fn peer_score(trust: AddressTrust, reliability_pct: u32, prefix_count: usize, unreliable: bool) -> (s: u32)
    requires
        reliability_pct <= 100,
    ensures
        s == peer_score_spec(trust, reliability_pct, prefix_count as nat, unreliable),
{
    let trust_score: u32 = match trust {
        AddressTrust::Verified => 300,
        AddressTrust::Observed => 100,
        AddressTrust::Claimed => 0,
    };
    let pc: usize = if prefix_count == 0 { 1 } else { prefix_count };
    let q: usize = 50 / pc;
    assert(q <= 50) by (nonlinear_arith)
        requires
            pc >= 1,
            q == 50int / (pc as int),
    ;
    let diversity: u32 = q as u32;
    let gross: u32 = trust_score + reliability_pct + diversity;
    let penalty: u32 = if unreliable { 200 } else { 0 };
    if gross >= penalty { gross - penalty } else { 0 }
}

/// The plain views of scored candidates.
pub open spec fn score_views(v: Seq<(String, u32)>) -> Seq<(Seq<char>, u32)> {
    v.map_values(|p: (String, u32)| (p.0@, p.1))
}

/// Higher score first.
pub open spec fn score_desc() -> spec_fn((Seq<char>, u32), (Seq<char>, u32)) -> bool {
    |a: (Seq<char>, u32), b: (Seq<char>, u32)| a.1 >= b.1
}

/// The ids of an ordering of scored candidates.
pub open spec fn ids_of(v: Seq<(Seq<char>, u32)>) -> Seq<Seq<char>> {
    v.map_values(|p: (Seq<char>, u32)| p.0)
}

/// Whether `r` lists the ids of the scored candidates `scored`, highest
/// score first.
pub open spec fn ranked(scored: Seq<(Seq<char>, u32)>, r: Seq<Seq<char>>) -> bool {
    exists|o: Seq<(Seq<char>, u32)>| o.to_multiset() == scored.to_multiset() && sorted_by(o, score_desc())
        && #[trigger] ids_of(o) == r
}

/// Where a stable insertion puts `x` into `o`: after the leading entries
/// scored at least as high.
pub open spec fn insert_pos(o: Seq<(Seq<char>, u32)>, x: (Seq<char>, u32)) -> int
    decreases o.len(),
{
    if o.len() == 0 {
        0
    } else if o[0].1 >= x.1 {
        1 + insert_pos(o.drop_first(), x)
    } else {
        0
    }
}

/// The stable ordering by score, highest first: each entry goes after the
/// earlier entries scored at least as high, so equal scores keep their
/// order.
pub open spec fn stable_rank(s: Seq<(Seq<char>, u32)>) -> Seq<(Seq<char>, u32)>
    decreases s.len(),
{
    if s.len() == 0 {
        Seq::empty()
    } else {
        let o = stable_rank(s.drop_last());
        o.insert(insert_pos(o, s.last()), s.last())
    }
}

/// Skipping `pos` leading entries scored at least as high as `x` moves the
/// insertion point back by `pos`.
proof fn lemma_insert_pos_skip(o: Seq<(Seq<char>, u32)>, x: (Seq<char>, u32), pos: int)
    requires
        0 <= pos <= o.len(),
        forall|j: int| 0 <= j < pos ==> o[j].1 >= x.1,
    ensures
        insert_pos(o, x) == pos + insert_pos(o.skip(pos), x),
        0 <= insert_pos(o, x) <= o.len(),
    decreases pos,
{
    if pos == 0 {
        assert(o.skip(0) =~= o);
        lemma_insert_pos_bound(o, x);
    } else {
        assert(o[0].1 >= x.1);
        lemma_insert_pos_skip(o.drop_first(), x, pos - 1);
        assert(o.drop_first().skip(pos - 1) =~= o.skip(pos));
    }
}

proof fn lemma_insert_pos_bound(o: Seq<(Seq<char>, u32)>, x: (Seq<char>, u32))
    ensures
        0 <= insert_pos(o, x) <= o.len(),
    decreases o.len(),
{
    if o.len() > 0 {
        lemma_insert_pos_bound(o.drop_first(), x);
    }
}

/// Order scored candidates by score, highest first; equal scores keep
/// their order.
pub fn rank_by_score(scored: Vec<(String, u32)>) -> (r: Vec<String>)
    ensures
        r@.map_values(|s: String| s@) == ids_of(stable_rank(score_views(scored@))),
        ranked(score_views(scored@), r@.map_values(|s: String| s@)),
{
    broadcast use vstd::seq_lib::group_to_multiset_ensures;
    let ghost sv = score_views(scored@);
    let mut out: Vec<(String, u32)> = Vec::new();
    let mut i: usize = 0;
    while i < scored.len()
        invariant
            i <= scored@.len(),
            sv == score_views(scored@),
            sorted_by(score_views(out@), score_desc()),
            score_views(out@).to_multiset() == sv.take(i as int).to_multiset(),
            score_views(out@) == stable_rank(sv.take(i as int)),
        decreases scored@.len() - i,
    {
        let x = (scored[i].0.clone(), scored[i].1);
        let mut pos: usize = 0;
        while pos < out.len() && out[pos].1 >= x.1
            invariant
                pos <= out@.len(),
                forall|j: int| 0 <= j < pos ==> score_desc()(score_views(out@)[j], (x.0@, x.1)),
            decreases out@.len() - pos,
        {
            proof {
                assert(score_views(out@)[pos as int] == (out@[pos as int].0@, out@[pos as int].1));
            }
            pos = pos + 1;
        }
        let ghost before = score_views(out@);
        let ghost xv = (x.0@, x.1);
        assert(xv == sv[i as int]);
        proof {
            lemma_insert_pos_skip(before, xv, pos as int);
            if pos < before.len() {
                assert(before.skip(pos as int)[0] == before[pos as int]);
            }
            assert(insert_pos(before, xv) == pos);
            let t = sv.take(i + 1);
            assert(t.drop_last() =~= sv.take(i as int));
            assert(t.last() == xv);
        }
        out.insert(pos, x);
        proof {
            assert(score_views(out@) =~= before.insert(pos as int, xv));
            vstd::seq_lib::to_multiset_insert(before, pos as int, xv);
            vstd::seq_lib::to_multiset_build(sv.take(i as int), xv);
            assert(sv.take(i + 1) =~= sv.take(i as int).push(xv));
            let o = score_views(out@);
            assert forall|a: int, b: int| 0 <= a < b < o.len() implies #[trigger] score_desc()(o[a], o[b]) by {
                if b < pos {
                    assert(score_desc()(before[a], before[b]));
                } else if b == pos {
                    assert(o[a] == before[a]);
                } else if a == pos {
                    if pos < before.len() {
                        assert(!score_desc()(before[pos as int], xv));
                        if b - 1 > pos {
                            assert(score_desc()(before[pos as int], before[b - 1]));
                        }
                    }
                } else if a < pos {
                    assert(score_desc()(before[a], xv));
                    if pos < before.len() {
                        assert(!score_desc()(before[pos as int], xv));
                        if b - 1 > pos {
                            assert(score_desc()(before[pos as int], before[b - 1]));
                        }
                    }
                } else {
                    assert(score_desc()(before[a - 1], before[b - 1]));
                }
            }
        }
        i = i + 1;
    }
    assert(sv.take(scored@.len() as int) =~= sv);
    let mut r: Vec<String> = Vec::new();
    let mut j: usize = 0;
    while j < out.len()
        invariant
            j <= out@.len(),
            r@.map_values(|s: String| s@) == ids_of(score_views(out@)).take(j as int),
        decreases out@.len() - j,
    {
        let ghost before = r@.map_values(|s: String| s@);
        let id = out[j].0.clone();
        assert(id@ == out@[j as int].0@);
        r.push(id);
        assert(ids_of(score_views(out@))[j as int] == out@[j as int].0@);
        assert(r@.map_values(|s: String| s@) =~= before.push(id@));
        assert(r@.map_values(|s: String| s@) =~= ids_of(score_views(out@)).take(j + 1));
        j = j + 1;
    }
    assert(ids_of(score_views(out@)).take(out@.len() as int) =~= ids_of(score_views(out@)));
    r
}

/// The scored candidates among the first `n`: those the table `m` tracks,
/// in order, each with its score from its trust, its reliability
/// percentage, its prefix's peer count and whether it is unreliable.
pub open spec fn candidate_scores(m: Map<Seq<char>, PeerRoutingState>, cands: Seq<Seq<char>>,
    trust: Seq<AddressTrust>, rel: Seq<u32>, n: nat) -> Seq<(Seq<char>, u32)>
    decreases n,
{
    if n == 0 {
        Seq::empty()
    } else {
        let prev = candidate_scores(m, cands, trust, rel, (n - 1) as nat);
        let id = cands[n - 1];
        if m.contains_key(id) {
            let st = m[id];
            prev.push((id, peer_score_spec(trust[n - 1], rel[n - 1], prefix_count_of(m, st.ip_prefix),
                unreliable_spec(st)) as u32))
        } else {
            prev
        }
    }
}

impl RoutingTable {
    /// Rank candidate peers, best first, by trust, reliability, prefix
    /// rarity and a penalty for unreliable peers (equal scores keep the
    /// candidates' order); candidates the table does not track are dropped. `trust[i]` and `reliability_pct[i]` belong to
    /// `candidates[i]`.
    pub fn rank_peers(&self, candidates: &Vec<String>, trust: &Vec<AddressTrust>, reliability_pct: &Vec<u32>)
        -> (r: Vec<String>)
        requires
            self.wf(),
            trust@.len() == candidates@.len(),
            reliability_pct@.len() == candidates@.len(),
            forall|i: int| 0 <= i < reliability_pct@.len() ==> reliability_pct@[i] <= 100,
        ensures
            r@.map_values(|s: String| s@) == ids_of(stable_rank(candidate_scores(self@,
                candidates@.map_values(|c: String| c@), trust@, reliability_pct@, candidates@.len() as nat))),
            ranked(candidate_scores(self@, candidates@.map_values(|c: String| c@), trust@, reliability_pct@,
                candidates@.len() as nat), r@.map_values(|s: String| s@)),
    {
        let ghost cv = candidates@.map_values(|c: String| c@);
        let mut scored: Vec<(String, u32)> = Vec::new();
        let mut i: usize = 0;
        while i < candidates.len()
            invariant
                self.wf(),
                i <= candidates@.len(),
                trust@.len() == candidates@.len(),
                reliability_pct@.len() == candidates@.len(),
                forall|j: int| 0 <= j < reliability_pct@.len() ==> reliability_pct@[j] <= 100,
                cv == candidates@.map_values(|c: String| c@),
                score_views(scored@) == candidate_scores(self@, cv, trust@, reliability_pct@, i as nat),
            decreases candidates@.len() - i,
        {
            let ghost before = score_views(scored@);
            assert(cv[i as int] == candidates@[i as int]@);
            match self.peer_state(candidates[i].as_str()) {
                None => {},
                Some(st) => {
                    let pc = self.prefix_count(&st.ip_prefix);
                    let unreliable = st.is_unreliable();
                    let score = peer_score(trust[i], reliability_pct[i], pc, unreliable);
                    let id = candidates[i].clone();
                    scored.push((id, score));
                    assert(score_views(scored@) =~= before.push((cv[i as int], score)));
                },
            }
            i = i + 1;
        }
        rank_by_score(scored)
    }
}

} // verus!
