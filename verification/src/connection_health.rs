use vstd::prelude::*;
use crate::clock::now_unix_millis;
use crate::strmap::StrMap;

verus! {

// ─── Dial backoff ───────────────────────────────────────────────────────────

/// Exponential backoff state for a single peer address. Times are in
/// milliseconds of the clock that the caller uses.
#[derive(Debug, Clone, Copy, PartialEq, Eq)]
pub struct DialBackoffEntry {
    /// Number of consecutive failures.
    pub consecutive_failures: u32,
    /// When the last failure occurred (ms).
    pub last_failure: u64,
    /// When the next dial attempt is allowed (ms).
    pub next_allowed: u64,
}

/// Manages exponential backoff for dialing peer addresses.
#[derive(Debug)]
pub struct DialBackoff {
    entries: StrMap<DialBackoffEntry>,
    /// Base backoff duration in milliseconds (default: 2 s).
    pub base: u64,
    /// Maximum backoff duration in milliseconds (default: 300 s).
    pub max: u64,
}

/// The doubling factor after `failures` consecutive failures:
/// `2^(failures-1)`, or `u32::MAX` once the shift would leave `u32`.
pub open spec fn backoff_multiplier(failures: u32) -> int {
    let n = if failures == 0 { 0 } else { failures - 1 };
    if n < 32 { vstd::arithmetic::power2::pow2(n as nat) as int } else { u32::MAX as int }
}

/// The capped backoff: `min(base * multiplier, max)`.
pub open spec fn capped_backoff(base: u64, max: u64, failures: u32) -> int {
    let raw = base * backoff_multiplier(failures);
    if raw <= max { raw } else { max as int }
}

/// The deterministic pseudo-random value derived from the failure count.
pub open spec fn jitter_seed(failures: u32) -> u64 {
    (failures as u64).wrapping_mul(6364136223846793005u64).wrapping_add(1442695040888963407u64)
}

/// The jitter: `seed % (backoff / 4)` milliseconds, or 0 when that range is 0.
pub open spec fn jitter_for(backoff: int, failures: u32) -> int {
    let range = backoff / 4;
    if range > 0 { (jitter_seed(failures) as int) % range } else { 0 }
}

/// Whether dialing `addr` is allowed at time `now` (ms) given the entries:
/// untracked, or its backoff has run out.
pub open spec fn allowed_at(m: Map<Seq<char>, DialBackoffEntry>, addr: Seq<char>, now: u64) -> bool {
    !m.contains_key(addr) || now >= m[addr].next_allowed
}

/// The entries whose backoff has not run out at time `now` (ms).
pub open spec fn unexpired(m: Map<Seq<char>, DialBackoffEntry>, now: u64) -> Map<Seq<char>, DialBackoffEntry> {
    m.restrict(Set::new(|k: Seq<char>| m.contains_key(k) && m[k].next_allowed > now))
}

/// The total wait after `failures` consecutive failures.
pub open spec fn backoff_total(base: u64, max: u64, failures: u32) -> int {
    let b = capped_backoff(base, max, failures);
    let t = b + jitter_for(b, failures);
    if t <= u64::MAX { t } else { u64::MAX as int }
}

/// `now + d`, saturating at `u64::MAX`.
pub open spec fn add_sat(now: u64, d: int) -> u64 {
    if now + d <= u64::MAX { (now + d) as u64 } else { u64::MAX }
}

fn multiplier(failures: u32) -> (m: u64)
    ensures
        m == backoff_multiplier(failures),
        m <= u32::MAX,
{
    let n = failures.saturating_sub(1);
    if n < 32 {
        let m: u64 = 1u64 << n;
        proof {
            vstd::arithmetic::power2::lemma2_to64();
            if n < 31 {
                vstd::arithmetic::power2::lemma_pow2_strictly_increases(n as nat, 31);
            }
            vstd::bits::lemma_u64_shl_is_mul(1u64, n as u64);
        }
        m
    } else {
        u32::MAX as u64
    }
}

impl Default for DialBackoff {
    /// Base 2 s, max 300 s, nothing tracked.
    fn default() -> (b: Self)
        ensures
            b.wf(),
            b@ == Map::<Seq<char>, DialBackoffEntry>::empty(),
            b.base_value() == 2000,
            b.max_value() == 300_000,
    {
        DialBackoff { entries: StrMap::new(), base: 2000, max: 300_000 }
    }
}

impl DialBackoff {
    /// The backoff state per address.
    pub closed spec fn view(&self) -> Map<Seq<char>, DialBackoffEntry> {
        self.entries@
    }

    /// Internal consistency of the table.
    pub closed spec fn wf(&self) -> bool {
        self.entries.wf()
    }

    /// The base wait (ms).
    pub closed spec fn base_value(&self) -> u64 {
        self.base
    }

    /// The maximum wait (ms).
    pub closed spec fn max_value(&self) -> u64 {
        self.max
    }

    /// The number of tracked addresses.
    pub closed spec fn count(&self) -> nat {
        self.entries.len_spec()
    }

    /// The count is the number of addresses in the view.
    pub proof fn lemma_count(&self)
        requires
            self.wf(),
        ensures
            self@.dom().finite(),
            self@.dom().len() == self.count(),
    {
        self.entries.lemma_len();
    }

    /// Create with custom base and max durations (milliseconds).
    pub fn new(base: u64, max: u64) -> (b: Self)
        ensures
            b.wf(),
            b@ == Map::<Seq<char>, DialBackoffEntry>::empty(),
            b.base_value() == base,
            b.max_value() == max,
    {
        DialBackoff { entries: StrMap::new(), base, max }
    }

    /// The entry a failure recorded at time `now` leaves: its count, its
    /// time, and the next dial allowed `total` ms later.
    pub open spec fn failure_entry(failures: u32, now: u64, total: u64) -> DialBackoffEntry {
        DialBackoffEntry { consecutive_failures: failures, last_failure: now, next_allowed: add_sat(now, total as int) }
    }

    /// Record a dial failure for `addr` at time `now` (ms). Returns the
    /// backoff: `min(base * 2^(failures-1), max)` plus a deterministic jitter
    /// below a quarter of it; the next dial is allowed that long after `now`.
    pub fn record_failure_at(&mut self, addr: &str, now: u64) -> (total: u64)
        requires
            old(self).wf(),
            old(self)@.contains_key(addr@) ==> old(self)@[addr@].consecutive_failures < u32::MAX,
        ensures
            final(self).wf(),
            final(self).base_value() == old(self).base_value(),
            final(self).max_value() == old(self).max_value(),
            ({
                let failures = if old(self)@.contains_key(addr@) {
                    (old(self)@[addr@].consecutive_failures + 1) as u32
                } else {
                    1u32
                };
                &&& total == backoff_total(old(self).base_value(), old(self).max_value(), failures)
                &&& final(self)@ == old(self)@.insert(addr@, DialBackoffEntry {
                    consecutive_failures: failures,
                    last_failure: now,
                    next_allowed: add_sat(now, total as int),
                })
            }),
    {
        let prev = match self.entries.get(addr) {
            Some(e) => e.consecutive_failures,
            None => 0,
        };
        let failures = prev + 1;
        let m = multiplier(failures);
        assert((self.base as u128) * (m as u128) <= u64::MAX * u32::MAX) by (nonlinear_arith)
            requires
                self.base <= u64::MAX,
                m <= u32::MAX,
        ;
        let raw: u128 = (self.base as u128) * (m as u128);
        assert(raw == self.base * backoff_multiplier(failures));
        let backoff: u64 = if raw <= self.max as u128 { raw as u64 } else { self.max };
        let jitter_range = backoff / 4;
        let jitter = if jitter_range > 0 {
            let pseudo = (failures as u64).wrapping_mul(6364136223846793005).wrapping_add(1442695040888963407);
            pseudo % jitter_range
        } else {
            0
        };
        let total = backoff.saturating_add(jitter);
        let next_allowed = now.saturating_add(total);
        self.entries.insert(addr, DialBackoffEntry {
            consecutive_failures: failures,
            last_failure: now,
            next_allowed,
        });
        total
    }

    /// Record a dial failure for `addr` now. Returns the backoff (ms).
    pub fn record_failure(&mut self, addr: &str) -> (total: u64)
        requires
            old(self).wf(),
            old(self)@.contains_key(addr@) ==> old(self)@[addr@].consecutive_failures < u32::MAX,
        ensures
            final(self).wf(),
            final(self).base_value() == old(self).base_value(),
            final(self).max_value() == old(self).max_value(),
            final(self)@.dom() == old(self)@.dom().insert(addr@),
            ({
                let failures = if old(self)@.contains_key(addr@) {
                    (old(self)@[addr@].consecutive_failures + 1) as u32
                } else {
                    1u32
                };
                &&& total == backoff_total(old(self).base_value(), old(self).max_value(), failures)
                &&& final(self)@[addr@].consecutive_failures == failures
                &&& final(self)@[addr@].next_allowed == add_sat(final(self)@[addr@].last_failure, total as int)
            }),
            exists|now: u64| final(self)@ == old(self)@.insert(addr@, #[trigger] Self::failure_entry(
                final(self)@[addr@].consecutive_failures, now, total)),
            forall|k: Seq<char>| k != addr@ && #[trigger] old(self)@.contains_key(k) ==> final(self)@[k] == old(self)@[k],
    {
        let ghost failures: u32 = if self@.contains_key(addr@) {
            (self@[addr@].consecutive_failures + 1) as u32
        } else {
            1u32
        };
        let now = now_unix_millis();
        let total = self.record_failure_at(addr, now);
        assert(self@ == old(self)@.insert(addr@, Self::failure_entry(failures, now, total)));
        total
    }

    /// Record a successful dial — removes the address from backoff tracking.
    pub fn record_success(&mut self, addr: &str)
        requires
            old(self).wf(),
        ensures
            final(self).wf(),
            final(self)@ == old(self)@.remove(addr@),
            final(self).base_value() == old(self).base_value(),
            final(self).max_value() == old(self).max_value(),
    {
        self.entries.remove(addr);
    }

    /// Whether dialing `addr` is allowed at time `now` (ms): untracked, or
    /// its backoff has run out.
    pub fn is_allowed_at(&self, addr: &str, now: u64) -> (b: bool)
        requires
            self.wf(),
        ensures
            b == (!self@.contains_key(addr@) || now >= self@[addr@].next_allowed),
    {
        match self.entries.get(addr) {
            None => true,
            Some(entry) => now >= entry.next_allowed,
        }
    }

    /// Whether dialing `addr` is allowed now.
    pub fn is_allowed(&self, addr: &str) -> (b: bool)
        requires
            self.wf(),
        ensures
            exists|now: u64| b == #[trigger] allowed_at(self@, addr@, now),
    {
        let now = now_unix_millis();
        let b = self.is_allowed_at(addr, now);
        assert(b == allowed_at(self@, addr@, now));
        b
    }

    /// Get the current backoff state for an address, if any.
    pub fn get(&self, addr: &str) -> (r: Option<&DialBackoffEntry>)
        requires
            self.wf(),
        ensures
            match r {
                Some(e) => self@.contains_key(addr@) && self@[addr@] == *e,
                None => !self@.contains_key(addr@),
            },
    {
        self.entries.get(addr)
    }

    /// Number of addresses currently in backoff.
    pub fn len(&self) -> (n: usize)
        ensures
            n == self.count(),
    {
        self.entries.len()
    }

    /// Whether the backoff map is empty.
    pub fn is_empty(&self) -> (b: bool)
        requires
            self.wf(),
        ensures
            b == (self@.dom().len() == 0),
    {
        proof {
            self.lemma_count();
        }
        self.entries.len() == 0
    }

    /// Number of addresses currently in active backoff (same as `len`).
    pub fn active_count(&self) -> (n: usize)
        ensures
            n == self.count(),
    {
        self.entries.len()
    }

    /// Remove entries whose backoff has expired at time `now` (ms).
    pub fn prune_expired_at(&mut self, now: u64)
        requires
            old(self).wf(),
        ensures
            final(self).wf(),
            final(self).base_value() == old(self).base_value(),
            final(self).max_value() == old(self).max_value(),
            forall|k: Seq<char>| #[trigger] final(self)@.contains_key(k) <==>
                (old(self)@.contains_key(k) && old(self)@[k].next_allowed > now),
            forall|k: Seq<char>| #[trigger] final(self)@.contains_key(k) ==> final(self)@[k] == old(self)@[k],
    {
        let keep = |e: &DialBackoffEntry| -> (r: bool)
            ensures
                r == (e.next_allowed > now),
            { e.next_allowed > now };
        self.entries.retain(keep);
    }

    /// Remove entries whose backoff has expired (cleanup).
    pub fn prune_expired(&mut self)
        requires
            old(self).wf(),
        ensures
            final(self).wf(),
            final(self).base_value() == old(self).base_value(),
            final(self).max_value() == old(self).max_value(),
            exists|now: u64| final(self)@ == #[trigger] unexpired(old(self)@, now),
    {
        let now = now_unix_millis();
        self.prune_expired_at(now);
        assert(self@ =~= unexpired(old(self)@, now));
    }
}

/// A failure after a success starts over: the first failure waits the base
/// (capped by the max) plus jitter, whatever came before.
pub proof fn lemma_backoff_restarts(base: u64, max: u64)
    ensures
        capped_backoff(base, max, 1) == if base <= max { base as int } else { max as int },
{
    vstd::arithmetic::power2::lemma2_to64();
    assert(backoff_multiplier(1) == 1);
}

/// The wait never exceeds the max by more than a quarter, and never falls
/// below the capped exponential step.
pub proof fn lemma_backoff_bounds(base: u64, max: u64, failures: u32)
    ensures
        capped_backoff(base, max, failures) <= backoff_total(base, max, failures),
        backoff_total(base, max, failures) <= max + max / 4,
{
    let b = capped_backoff(base, max, failures);
    let n = if failures == 0 { 0 } else { failures - 1 };
    if n < 32 {
        vstd::arithmetic::power2::lemma_pow2_pos(n as nat);
    }
    assert(base * backoff_multiplier(failures) >= 0) by (nonlinear_arith)
        requires
            backoff_multiplier(failures) >= 0,
    ;
    assert(0 <= b <= max);
    if b / 4 > 0 {
        assert(jitter_for(b, failures) < b / 4);
    }
}

/// The backoff grows with the failure count until it reaches the max.
pub proof fn lemma_backoff_monotone(base: u64, max: u64, f: u32, g: u32)
    requires
        1 <= f <= g,
    ensures
        capped_backoff(base, max, f) <= capped_backoff(base, max, g),
{
    let nf = (f - 1) as nat;
    let ng = (g - 1) as nat;
    if ng < 32 {
        if nf < ng {
            vstd::arithmetic::power2::lemma_pow2_strictly_increases(nf, ng);
        }
        assert(base * backoff_multiplier(f) <= base * backoff_multiplier(g)) by (nonlinear_arith)
            requires
                backoff_multiplier(f) <= backoff_multiplier(g),
        ;
    } else if nf < 32 {
        vstd::arithmetic::power2::lemma2_to64();
        assert(vstd::arithmetic::power2::pow2(nf) <= vstd::arithmetic::power2::pow2(31)) by {
            if nf < 31 {
                vstd::arithmetic::power2::lemma_pow2_strictly_increases(nf, 31);
            }
        }
        assert(base * backoff_multiplier(f) <= base * backoff_multiplier(g)) by (nonlinear_arith)
            requires
                backoff_multiplier(f) <= backoff_multiplier(g),
        ;
    }
}

// ─── Stale address pruner ───────────────────────────────────────────────────

/// Configuration for stale address pruning.
#[derive(Debug, Clone, Copy)]
pub struct StaleAddressConfig {
    /// Maximum consecutive failures before an address is stale.
    pub max_consecutive_failures: u32,
    /// Maximum idle age (ms) before a peer is stale.
    pub max_idle_age: u64,
}

impl Default for StaleAddressConfig {
    /// Five failures; one hour idle.
    fn default() -> (c: Self)
        ensures
            c.max_consecutive_failures == 5,
            c.max_idle_age == 3_600_000,
    {
        StaleAddressConfig { max_consecutive_failures: 5, max_idle_age: 3_600_000 }
    }
}

/// The failure counts after a failure of `a`: its count goes up by one
/// (from zero when untracked).
pub open spec fn failure_step(m: Map<Seq<char>, u32>, a: Seq<char>) -> Map<Seq<char>, u32> {
    m.insert(a, (if m.contains_key(a) { m[a] + 1 } else { 1 }) as u32)
}

/// The failure counts after a success of `a`: it is no longer tracked.
pub open spec fn success_step(m: Map<Seq<char>, u32>, a: Seq<char>) -> Map<Seq<char>, u32> {
    m.remove(a)
}

/// The failure counts after a run of outcomes, each a failure (`true`) or a
/// success (`false`) of an address, starting from `m`.
pub open spec fn replay_outcomes(m: Map<Seq<char>, u32>, ops: Seq<(bool, Seq<char>)>) -> Map<Seq<char>, u32>
    decreases ops.len(),
{
    if ops.len() == 0 {
        m
    } else {
        let before = replay_outcomes(m, ops.drop_last());
        let (failed, a) = ops.last();
        if failed { failure_step(before, a) } else { success_step(before, a) }
    }
}

/// The number of failures of `a` in `ops` after its last success.
pub open spec fn failures_since_success(ops: Seq<(bool, Seq<char>)>, a: Seq<char>) -> nat
    decreases ops.len(),
{
    if ops.len() == 0 {
        0
    } else {
        let prev = failures_since_success(ops.drop_last(), a);
        let (failed, b) = ops.last();
        if b != a { prev } else if failed { prev + 1 } else { 0 }
    }
}

/// The count a map holds for `a` (zero when untracked).
pub open spec fn count_of(m: Map<Seq<char>, u32>, a: Seq<char>) -> nat {
    if m.contains_key(a) { m[a] as nat } else { 0 }
}

/// A pruner's failure count for an address is the number of failures
/// recorded for it since its last success (all of them when it never
/// succeeded), starting from an empty pruner.
pub proof fn lemma_failure_count_since_success(ops: Seq<(bool, Seq<char>)>, a: Seq<char>)
    requires
        ops.len() <= u32::MAX,
    ensures
        count_of(replay_outcomes(Map::empty(), ops), a) == failures_since_success(ops, a),
        failures_since_success(ops, a) <= ops.len(),
    decreases ops.len(),
{
    if ops.len() > 0 {
        lemma_failure_count_since_success(ops.drop_last(), a);
    }
}

/// Tracks per-address failure counts for stale detection.
#[derive(Debug)]
pub struct StaleAddressPruner {
    address_failures: StrMap<u32>,
    config: StaleAddressConfig,
    /// Running count of addresses pruned.
    pub pruned_count: u64,
}

impl Default for StaleAddressPruner {
    /// Default config, nothing tracked.
    fn default() -> (p: Self)
        ensures
            p.wf(),
            p@ == Map::<Seq<char>, u32>::empty(),
            p.pruned_count_value() == 0,
            p.config().max_consecutive_failures == 5,
    {
        StaleAddressPruner::new(StaleAddressConfig::default())
    }
}

impl StaleAddressPruner {
    /// Consecutive failures per tracked address.
    pub closed spec fn view(&self) -> Map<Seq<char>, u32> {
        self.address_failures@
    }

    /// Internal consistency.
    pub closed spec fn wf(&self) -> bool {
        self.address_failures.wf()
    }

    /// The configuration.
    pub closed spec fn config(&self) -> StaleAddressConfig {
        self.config
    }

    /// The number of prunes counted so far.
    pub closed spec fn pruned_count_value(&self) -> u64 {
        self.pruned_count
    }

    /// The number of tracked addresses.
    pub closed spec fn count(&self) -> nat {
        self.address_failures.len_spec()
    }

    /// A pruner with the given thresholds and nothing tracked.
    pub fn new(config: StaleAddressConfig) -> (p: Self)
        ensures
            p.wf(),
            p@ == Map::<Seq<char>, u32>::empty(),
            p.pruned_count_value() == 0,
            p.config() == config,
    {
        StaleAddressPruner { address_failures: StrMap::new(), config, pruned_count: 0 }
    }

    /// Record a failure for an address. Returns true (and counts a prune)
    /// when its consecutive failures reach the configured maximum.
    pub fn record_failure(&mut self, addr: &str) -> (prune: bool)
        requires
            old(self).wf(),
            old(self)@.contains_key(addr@) ==> old(self)@[addr@] < u32::MAX,
            old(self).pruned_count_value() < u64::MAX,
        ensures
            final(self).wf(),
            final(self).config() == old(self).config(),
            ({
                let count = if old(self)@.contains_key(addr@) { old(self)@[addr@] + 1 } else { 1 };
                &&& final(self)@ == failure_step(old(self)@, addr@)
                &&& final(self)@[addr@] == count
                &&& prune == (count >= old(self).config().max_consecutive_failures)
                &&& final(self).pruned_count_value() == old(self).pruned_count_value() + if prune { 1int } else { 0 }
            }),
    {
        let count = match self.address_failures.get(addr) {
            Some(c) => *c + 1,
            None => 1,
        };
        self.address_failures.insert(addr, count);
        if count >= self.config.max_consecutive_failures {
            self.pruned_count = self.pruned_count + 1;
            true
        } else {
            false
        }
    }

    /// Record a success — resets the failure count for this address.
    pub fn record_success(&mut self, addr: &str)
        requires
            old(self).wf(),
        ensures
            final(self).wf(),
            final(self)@ == success_step(old(self)@, addr@),
            final(self).config() == old(self).config(),
            final(self).pruned_count_value() == old(self).pruned_count_value(),
    {
        self.address_failures.remove(addr);
    }

    /// Number of addresses currently tracked.
    pub fn tracked_count(&self) -> (n: usize)
        ensures
            n == self.count(),
    {
        self.address_failures.len()
    }

    /// The failure count for an address (0 when untracked).
    pub fn failure_count(&self, addr: &str) -> (n: u32)
        requires
            self.wf(),
        ensures
            n == count_of(self@, addr@),
    {
        match self.address_failures.get(addr) {
            Some(c) => *c,
            None => 0,
        }
    }
}

} // verus!
