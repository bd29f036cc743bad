use vstd::prelude::*;
use crate::clock::now_unix_secs;
use crate::credential::{CredentialPresentation, CredentialTier, presentation_intact, tier_from_number, tier_number};
use crate::bbs_credential::{BbsProof, bbs_proof_bytes};
use crate::bytes::{extend_bytes, le_seq};
use crate::hashing::{blake3_hash, blake3_of};
use crate::signing::{ed25519_public_key, ed25519_public_of, ed25519_sign, ed25519_signature_of, ed25519_valid,
    ed25519_verify, signature_array};
use crate::wire::{key_list, push_key_list, push_string_field, push_string_list, push_u64, push_variant, string_field,
    string_list};
use vstd::utf8::encode_utf8;

verus! {

/// How a peer can be reached.
#[derive(Debug, Clone, PartialEq, Eq)]
pub enum ReachabilityKind {
    /// Directly reachable at a public address.
    Direct,
    /// Reachable only through a relay.
    Relayed {
        /// PeerId of the relay node.
        relay_peer: String,
        /// Address of the relay node.
        relay_addr: String,
    },
    /// Reachable only via introduction points (pseudonyms of relays).
    Rendezvous {
        /// Pseudonyms of introduction-point relay peers.
        intro_points: Vec<[u8; 32]>,
    },
}

/// Trust tier for a peer's relay capability, driven by observed behavior.
#[derive(Debug, Clone, Copy, PartialEq, Eq, Hash, Structural)]
pub enum RelayTrustTier {
    /// Descriptor says `can_relay` but there is no observation.
    Claimed,
    /// At least one successful relay operation (or probe) observed.
    Observed,
    /// Consistent relay behavior.
    Verified,
}

/// The rank of a relay tier: Claimed < Observed < Verified.
pub open spec fn relay_tier_rank(t: RelayTrustTier) -> int {
    match t {
        RelayTrustTier::Claimed => 0,
        RelayTrustTier::Observed => 1,
        RelayTrustTier::Verified => 2,
    }
}

impl RelayTrustTier {
    /// The rank of this tier (Claimed=0, Observed=1, Verified=2).
    pub fn rank(&self) -> (r: u8)
        ensures
            r == relay_tier_rank(*self),
    {
        match self {
            RelayTrustTier::Claimed => 0,
            RelayTrustTier::Observed => 1,
            RelayTrustTier::Verified => 2,
        }
    }
}

impl Default for RelayTrustTier {
    /// No observation yet.
    fn default() -> (t: Self)
        ensures
            t == RelayTrustTier::Claimed,
    {
        RelayTrustTier::Claimed
    }
}

/// The relay tier earned by some evidence:
/// 1. forwarding verified and at least one success: Verified;
/// 2. probe verified, at least two successes, success rate at least 66%: Verified;
/// 3. at least three successes at a rate of at least 75%: Verified;
/// 4. at least one success, or a probe: Observed;
/// 5. otherwise Claimed.
pub open spec fn relay_tier_for(successes: int, failures: int, probed: bool, forwarded: bool) -> RelayTrustTier {
    let total = successes + failures;
    if forwarded && successes >= 1 {
        RelayTrustTier::Verified
    } else if probed && successes >= 2 && 100 * successes >= 66 * total {
        RelayTrustTier::Verified
    } else if successes >= 3 && total > 0 && 4 * successes >= 3 * total {
        RelayTrustTier::Verified
    } else if successes >= 1 || probed {
        RelayTrustTier::Observed
    } else {
        RelayTrustTier::Claimed
    }
}

/// Accumulated relay behavior observations for a single peer.
#[derive(Debug, Clone, Copy)]
pub struct RelayObservation {
    pub tier: RelayTrustTier,
    pub successes: u32,
    pub failures: u32,
    /// Unix timestamp of last successful relay.
    pub last_success_at: u64,
    /// Unix timestamp of last failed relay.
    pub last_failure_at: u64,
    /// Unix timestamp of last successful active probe (nonce echo).
    pub probe_succeeded_at: Option<u64>,
    /// Unix timestamp of last successful forwarding verification.
    pub forwarding_verified_at: Option<u64>,
}

/// Whether a piece of evidence recorded at the given time (if any) is
/// younger than `freshness_secs` at time `now` (an age of 0 when recorded
/// after `now`).
pub open spec fn evidence_fresh(at: Option<u64>, now: u64, freshness_secs: u64) -> bool {
    match at {
        Some(t) => (if now >= t { now - t } else { 0 }) < freshness_secs,
        None => false,
    }
}

impl RelayObservation {
    /// The tier stored agrees with the evidence.
    pub open spec fn tier_consistent(&self) -> bool {
        self.tier == relay_tier_for(
            self.successes as int,
            self.failures as int,
            self.probe_succeeded_at is Some,
            self.forwarding_verified_at is Some,
        )
    }

    /// The counters can be summed in `u32`.
    pub open spec fn counts_fit(&self) -> bool {
        self.successes + self.failures <= u32::MAX
    }

    /// A fresh observation: Claimed, with no evidence.
    pub fn new() -> (o: Self)
        ensures
            o.tier == RelayTrustTier::Claimed,
            o.successes == 0 && o.failures == 0,
            o.last_success_at == 0 && o.last_failure_at == 0,
            o.probe_succeeded_at is None && o.forwarding_verified_at is None,
            o.tier_consistent(),
    {
        RelayObservation {
            tier: RelayTrustTier::Claimed,
            successes: 0,
            failures: 0,
            last_success_at: 0,
            last_failure_at: 0,
            probe_succeeded_at: None,
            forwarding_verified_at: None,
        }
    }

    /// Recompute the tier from all available evidence.
    pub fn recompute_tier(&mut self)
        requires
            old(self).counts_fit(),
        ensures
            final(self).tier_consistent(),
            final(self).successes == old(self).successes,
            final(self).failures == old(self).failures,
            final(self).last_success_at == old(self).last_success_at,
            final(self).last_failure_at == old(self).last_failure_at,
            final(self).probe_succeeded_at == old(self).probe_succeeded_at,
            final(self).forwarding_verified_at == old(self).forwarding_verified_at,
    {
        let s = self.successes as u64;
        let total = self.successes as u64 + self.failures as u64;
        if self.forwarding_verified_at.is_some() && self.successes >= 1 {
            self.tier = RelayTrustTier::Verified;
        } else if self.probe_succeeded_at.is_some() && self.successes >= 2 && 100 * s >= 66 * total {
            self.tier = RelayTrustTier::Verified;
        } else if self.successes >= 3 && total > 0 && 4 * s >= 3 * total {
            self.tier = RelayTrustTier::Verified;
        } else if self.successes >= 1 || self.probe_succeeded_at.is_some() {
            self.tier = RelayTrustTier::Observed;
        } else {
            self.tier = RelayTrustTier::Claimed;
        }
    }

    /// Record a successful relay at Unix time `now`.
    pub fn record_success_at(&mut self, now: u64)
        requires
            old(self).successes + old(self).failures < u32::MAX,
        ensures
            final(self).successes == old(self).successes + 1,
            final(self).failures == old(self).failures,
            final(self).last_success_at == now,
            final(self).last_failure_at == old(self).last_failure_at,
            final(self).probe_succeeded_at == old(self).probe_succeeded_at,
            final(self).forwarding_verified_at == old(self).forwarding_verified_at,
            final(self).tier_consistent(),
    {
        self.successes = self.successes + 1;
        self.last_success_at = now;
        self.recompute_tier();
    }

    /// Record a failed relay at Unix time `now`.
    pub fn record_failure_at(&mut self, now: u64)
        requires
            old(self).successes + old(self).failures < u32::MAX,
        ensures
            final(self).failures == old(self).failures + 1,
            final(self).successes == old(self).successes,
            final(self).last_failure_at == now,
            final(self).last_success_at == old(self).last_success_at,
            final(self).probe_succeeded_at == old(self).probe_succeeded_at,
            final(self).forwarding_verified_at == old(self).forwarding_verified_at,
            final(self).tier_consistent(),
    {
        self.failures = self.failures + 1;
        self.last_failure_at = now;
        self.recompute_tier();
    }

    /// Record a successful relay now.
    pub fn record_success(&mut self)
        requires
            old(self).successes + old(self).failures < u32::MAX,
        ensures
            final(self).successes == old(self).successes + 1,
            final(self).failures == old(self).failures,
            final(self).tier_consistent(),
    {
        let now = now_unix_secs();
        self.record_success_at(now);
    }

    /// Record a failed relay now.
    pub fn record_failure(&mut self)
        requires
            old(self).successes + old(self).failures < u32::MAX,
        ensures
            final(self).failures == old(self).failures + 1,
            final(self).successes == old(self).successes,
            final(self).tier_consistent(),
    {
        let now = now_unix_secs();
        self.record_failure_at(now);
    }

    /// Record a successful active probe at Unix time `now`.
    pub fn record_probe_success_at(&mut self, now: u64)
        requires
            old(self).counts_fit(),
        ensures
            final(self).probe_succeeded_at == Some(now),
            final(self).successes == old(self).successes,
            final(self).failures == old(self).failures,
            final(self).forwarding_verified_at == old(self).forwarding_verified_at,
            final(self).tier_consistent(),
    {
        self.probe_succeeded_at = Some(now);
        self.recompute_tier();
    }

    /// Record a successful active probe now.
    pub fn record_probe_success(&mut self)
        requires
            old(self).counts_fit(),
        ensures
            final(self).probe_succeeded_at is Some,
            final(self).successes == old(self).successes,
            final(self).failures == old(self).failures,
            final(self).forwarding_verified_at == old(self).forwarding_verified_at,
            final(self).tier_consistent(),
    {
        let now = now_unix_secs();
        self.record_probe_success_at(now);
    }

    /// Record a successful forwarding verification at Unix time `now`.
    pub fn record_forwarding_verification_at(&mut self, now: u64)
        requires
            old(self).counts_fit(),
        ensures
            final(self).forwarding_verified_at == Some(now),
            final(self).successes == old(self).successes,
            final(self).failures == old(self).failures,
            final(self).probe_succeeded_at == old(self).probe_succeeded_at,
            final(self).tier_consistent(),
    {
        self.forwarding_verified_at = Some(now);
        self.recompute_tier();
    }

    /// Record a successful forwarding verification now.
    pub fn record_forwarding_verification(&mut self)
        requires
            old(self).counts_fit(),
        ensures
            final(self).forwarding_verified_at is Some,
            final(self).successes == old(self).successes,
            final(self).failures == old(self).failures,
            final(self).probe_succeeded_at == old(self).probe_succeeded_at,
            final(self).tier_consistent(),
    {
        let now = now_unix_secs();
        self.record_forwarding_verification_at(now);
    }

    /// Whether the probe result is younger than `freshness_secs` at time `now`.
    pub fn has_fresh_probe_at(&self, now: u64, freshness_secs: u64) -> (b: bool)
        ensures
            b == match self.probe_succeeded_at {
                Some(t) => (if now >= t { now - t } else { 0 }) < freshness_secs,
                None => false,
            },
    {
        match self.probe_succeeded_at {
            Some(t) => now.saturating_sub(t) < freshness_secs,
            None => false,
        }
    }

    /// Whether this relay has a probe result within `freshness_secs` of now.
    pub fn has_fresh_probe(&self, freshness_secs: u64) -> (b: bool)
        ensures
            exists|now: u64| b == #[trigger] evidence_fresh(self.probe_succeeded_at, now, freshness_secs),
    {
        let now = now_unix_secs();
        let b = self.has_fresh_probe_at(now, freshness_secs);
        assert(b == evidence_fresh(self.probe_succeeded_at, now, freshness_secs));
        b
    }

    /// Whether the forwarding verification is younger than `freshness_secs`
    /// at time `now`.
    pub fn has_fresh_forwarding_at(&self, now: u64, freshness_secs: u64) -> (b: bool)
        ensures
            b == match self.forwarding_verified_at {
                Some(t) => (if now >= t { now - t } else { 0 }) < freshness_secs,
                None => false,
            },
    {
        match self.forwarding_verified_at {
            Some(t) => now.saturating_sub(t) < freshness_secs,
            None => false,
        }
    }

    /// Whether this relay has a forwarding verification within
    /// `freshness_secs` of now.
    pub fn has_fresh_forwarding(&self, freshness_secs: u64) -> (b: bool)
        ensures
            exists|now: u64| b == #[trigger] evidence_fresh(self.forwarding_verified_at, now, freshness_secs),
    {
        let now = now_unix_secs();
        let b = self.has_fresh_forwarding_at(now, freshness_secs);
        assert(b == evidence_fresh(self.forwarding_verified_at, now, freshness_secs));
        b
    }

    /// Halve counters (epoch decay); probe and forwarding timestamps stay.
    pub fn decay(&mut self)
        requires
            old(self).counts_fit(),
        ensures
            final(self).successes == old(self).successes / 2,
            final(self).failures == old(self).failures / 2,
            final(self).probe_succeeded_at == old(self).probe_succeeded_at,
            final(self).forwarding_verified_at == old(self).forwarding_verified_at,
            final(self).tier_consistent(),
    {
        self.successes = self.successes / 2;
        self.failures = self.failures / 2;
        self.recompute_tier();
    }
}

/// Descriptor claims alone never earn trust: with no success and no probe
/// the tier is Claimed, and Verified needs at least one success.
pub proof fn lemma_relay_trust_needs_evidence(s: int, f: int, probed: bool, forwarded: bool)
    requires
        s >= 0,
        f >= 0,
    ensures
        s == 0 && !probed ==> relay_tier_for(s, f, probed, forwarded) == RelayTrustTier::Claimed,
        relay_tier_for(s, f, probed, forwarded) == RelayTrustTier::Verified ==> s >= 1,
{
}

/// Any evidence lifts a relay above Claimed: an observation whose tier
/// agrees with its evidence and that holds a successful probe or a passive
/// success is at least Observed; a probe with no passive success is exactly
/// Observed.
pub proof fn lemma_evidence_lifts_above_claimed(o: RelayObservation)
    requires
        o.tier_consistent(),
    ensures
        o.probe_succeeded_at is Some || o.successes >= 1 ==> o.tier != RelayTrustTier::Claimed
            && relay_tier_rank(o.tier) >= 1,
        o.probe_succeeded_at is Some && o.successes == 0 ==> o.tier == RelayTrustTier::Observed,
{
}

/// More evidence never lowers a tier: with the same counters, a
/// successful probe or a forwarding verification gives a tier at least as
/// high, and so does one more success with the same failures.
pub proof fn lemma_tier_monotone_in_evidence(s: int, f: int, probed: bool, forwarded: bool)
    requires
        s >= 0,
        f >= 0,
    ensures
        relay_tier_rank(relay_tier_for(s, f, probed, forwarded)) <= relay_tier_rank(relay_tier_for(s, f, true, forwarded)),
        relay_tier_rank(relay_tier_for(s, f, probed, forwarded)) <= relay_tier_rank(relay_tier_for(s, f, probed, true)),
        relay_tier_rank(relay_tier_for(s, f, probed, forwarded)) <= relay_tier_rank(relay_tier_for(s + 1, f, probed,
            forwarded)),
{
}

/// The three ways to Verified: a forwarding verification with at least one
/// success; a probe with at least two successes at a success rate of at
/// least 66%; or at least three successes at a rate of at least 75%. A
/// relay is Verified exactly when one of them holds.
pub proof fn lemma_verified_rules(s: int, f: int, probed: bool, forwarded: bool)
    requires
        s >= 0,
        f >= 0,
    ensures
        forwarded && s >= 1 ==> relay_tier_for(s, f, probed, forwarded) == RelayTrustTier::Verified,
        probed && s >= 2 && 100 * s >= 66 * (s + f) ==> relay_tier_for(s, f, probed, forwarded)
            == RelayTrustTier::Verified,
        s >= 3 && 4 * s >= 3 * (s + f) ==> relay_tier_for(s, f, probed, forwarded) == RelayTrustTier::Verified,
        relay_tier_for(s, f, probed, forwarded) == RelayTrustTier::Verified ==> (forwarded && s >= 1)
            || (probed && s >= 2 && 100 * s >= 66 * (s + f)) || (s >= 3 && 4 * s >= 3 * (s + f)),
{
}

/// Capabilities that a peer advertises via its descriptor.
#[derive(Debug, Clone, Copy, PartialEq, Eq)]
pub struct PeerCapabilities {
    /// Can store shares on behalf of others.
    pub can_store: bool,
    /// Can act as a relay for NAT traversal.
    pub can_relay: bool,
    /// Participates in DHT routing.
    pub can_route: bool,
    /// Can issue trust credentials.
    pub can_issue: bool,
    /// Estimated bandwidth class (0=unknown, 1=low, 2=medium, 3=high).
    pub bandwidth_class: u8,
}

impl Default for PeerCapabilities {
    /// Routing only.
    fn default() -> (c: Self)
        ensures
            !c.can_store && !c.can_relay && c.can_route && !c.can_issue,
            c.bandwidth_class == 0,
    {
        PeerCapabilities {
            can_store: false,
            can_relay: false,
            can_route: true,
            can_issue: false,
            bandwidth_class: 0,
        }
    }
}

/// Resource profile hint.
#[derive(Debug, Clone, Copy, PartialEq, Eq)]
pub enum ResourceProfile {
    /// Desktop/server.
    Desktop,
    /// Mobile.
    Mobile,
    /// Embedded/IoT.
    Constrained,
}

impl Default for ResourceProfile {
    /// Desktop.
    fn default() -> (p: Self)
        ensures
            p == ResourceProfile::Desktop,
    {
        ResourceProfile::Desktop
    }
}

/// A peer descriptor — structured routing material.
#[derive(Debug, Clone)]
pub struct PeerDescriptor {
    /// Pseudonymous identifier.
    pub pseudonym: [u8; 32],
    /// How the peer can be reached.
    pub reachability: ReachabilityKind,
    /// Multiaddrs (may be relay circuit addresses).
    pub addresses: Vec<String>,
    /// What the peer can do.
    pub capabilities: PeerCapabilities,
    /// Resource profile hint.
    pub resource_profile: ResourceProfile,
    /// Optional credential presentation.
    pub credential: Option<CredentialPresentation>,
    /// When this descriptor was published (Unix timestamp).
    pub published_at: u64,
    /// Descriptor version (monotonically increasing per pseudonym).
    pub version: u64,
    /// Ed25519 public key of the descriptor signer.
    pub signing_pubkey: [u8; 32],
    /// Optional BBS+ proof of credential possession.
    pub bbs_proof: Option<BbsProof>,
    /// X25519 static public key for onion-layer encryption.
    pub onion_pubkey: Option<[u8; 32]>,
    /// Ed25519 signature over the descriptor body.
    pub signature: Vec<u8>,
}

/// The first disclosed value at index `idx` in a list of disclosures.
pub open spec fn first_disclosed(d: Seq<(usize, u64)>, idx: usize) -> Option<u64>
    decreases d.len(),
{
    if d.len() == 0 {
        None
    } else if d[0].0 == idx {
        Some(d[0].1)
    } else {
        first_disclosed(d.drop_first(), idx)
    }
}

/// The age of something published at `published_at`, at time `now`.
pub open spec fn age_at_spec(published_at: u64, now: u64) -> u64 {
    if now >= published_at { (now - published_at) as u64 } else { 0 }
}

/// Maximum descriptor age before it's considered stale (1 hour).
pub const MAX_DESCRIPTOR_AGE_SECS: u64 = 3600;
/// Rendezvous descriptors expire faster (20 minutes).
pub const MAX_RENDEZVOUS_AGE_SECS: u64 = 1200;
/// Maximum number of descriptors stored.
pub const MAX_DESCRIPTORS: usize = 10_000;

/// The maximum age of a descriptor of this reachability.
pub open spec fn max_age_spec(r: ReachabilityKind) -> u64 {
    if r is Rendezvous { MAX_RENDEZVOUS_AGE_SECS } else { MAX_DESCRIPTOR_AGE_SECS }
}

/// Whether a descriptor published at `published_at` is fresh at `now`.
pub open spec fn fresh_at_spec(d: PeerDescriptor, now: u64) -> bool {
    age_at_spec(d.published_at, now) < max_age_spec(d.reachability)
}

impl PeerDescriptor {
    /// Whether this descriptor advertises relay capability.
    pub fn is_relay(&self) -> (b: bool)
        ensures
            b == self.capabilities.can_relay,
    {
        self.capabilities.can_relay
    }

    /// Whether this descriptor uses a relay for reachability.
    pub fn is_relayed(&self) -> (b: bool)
        ensures
            b == self.reachability is Relayed,
    {
        match self.reachability {
            ReachabilityKind::Relayed { .. } => true,
            _ => false,
        }
    }

    /// Whether this descriptor uses rendezvous (introduction points).
    pub fn is_rendezvous(&self) -> (b: bool)
        ensures
            b == self.reachability is Rendezvous,
    {
        match self.reachability {
            ReachabilityKind::Rendezvous { .. } => true,
            _ => false,
        }
    }

    /// Age of this descriptor in seconds at Unix time `now` (0 if published
    /// in the future).
    pub fn age_secs_at(&self, now: u64) -> (a: u64)
        ensures
            a == age_at_spec(self.published_at, now),
    {
        now.saturating_sub(self.published_at)
    }

    /// Age of this descriptor in seconds, by the system clock.
    pub fn age_secs(&self) -> (a: u64)
        ensures
            exists|now: u64| a == age_at_spec(self.published_at, now),
    {
        let now = now_unix_secs();
        self.age_secs_at(now)
    }

    /// Whether the descriptor has a valid credential at or above the given
    /// tier: one signed by the issuer it names and bound to the presenting
    /// key (see `presentation_intact`).
    pub fn meets_tier(&self, min_tier: CredentialTier) -> (b: bool)
        ensures
            b == match self.credential {
                Some(c) => presentation_intact(c) && tier_number(c.credential.body.tier) >= tier_number(min_tier),
                None => false,
            },
    {
        match &self.credential {
            Some(c) => c.credential.body.tier.at_least(min_tier) && c.is_intact(),
            None => false,
        }
    }

    /// The credential tier disclosed (at index 1) by the BBS+ proof, if any.
    pub fn bbs_tier(&self) -> (t: Option<CredentialTier>)
        ensures
            t == match self.bbs_proof {
                Some(p) => match first_disclosed(p.disclosed@, 1) {
                    Some(v) => tier_from_number(v),
                    None => None,
                },
                None => None,
            },
    {
        match &self.bbs_proof {
            None => None,
            Some(proof) => {
                let mut i: usize = 0;
                assert(proof.disclosed@.skip(0) =~= proof.disclosed@);
                while i < proof.disclosed.len()
                    invariant
                        self.bbs_proof == Some(*proof),
                        i <= proof.disclosed@.len(),
                        first_disclosed(proof.disclosed@, 1)
                            == first_disclosed(proof.disclosed@.skip(i as int), 1),
                    decreases proof.disclosed@.len() - i,
                {
                    let (idx, val) = proof.disclosed[i];
                    assert(proof.disclosed@.skip(i as int)[0] == proof.disclosed@[i as int]);
                    assert(proof.disclosed@.skip(i as int).drop_first()
                        =~= proof.disclosed@.skip(i + 1));
                    if idx == 1 {
                        let ghost rest = proof.disclosed@.skip(i as int);
                        assert(rest.len() > 0 && rest[0].0 == 1 && rest[0].1 == val);
                        assert(first_disclosed(rest, 1) == Some(val));
                        return CredentialTier::from_number(val);
                    }
                    i = i + 1;
                }
                assert(proof.disclosed@.skip(i as int).len() == 0);
                None
            },
        }
    }

    /// The maximum age of this descriptor: 20 minutes for rendezvous
    /// descriptors, one hour for the others.
    pub fn max_age(&self) -> (m: u64)
        ensures
            m == max_age_spec(self.reachability),
    {
        max_age_for(self)
    }
}

/// Per-kind max age: rendezvous descriptors expire faster.
pub fn max_age_for(desc: &PeerDescriptor) -> (m: u64)
    ensures
        m == max_age_spec(desc.reachability),
{
    if desc.is_rendezvous() {
        MAX_RENDEZVOUS_AGE_SECS
    } else {
        MAX_DESCRIPTOR_AGE_SECS
    }
}

/// Whether a descriptor is still fresh at Unix time `now`.
pub fn is_fresh_at(desc: &PeerDescriptor, now: u64) -> (b: bool)
    ensures
        b == fresh_at_spec(*desc, now),
{
    desc.age_secs_at(now) < max_age_for(desc)
}

/// Whether a descriptor is still fresh by the system clock.
pub fn is_fresh(desc: &PeerDescriptor) -> (b: bool)
    ensures
        exists|now: u64| b == fresh_at_spec(*desc, now),
{
    let now = now_unix_secs();
    is_fresh_at(desc, now)
}

/// Seconds since the Unix epoch.
pub fn now_secs() -> (t: u64) {
    now_unix_secs()
}

// ─── Descriptor signatures ──────────────────────────────────────────────────

/// The serialized reachability: its variant tag (4 bytes LE) and fields.
pub open spec fn reach_bytes(r: ReachabilityKind) -> Seq<u8> {
    match r {
        ReachabilityKind::Direct => le_seq(0, 4),
        ReachabilityKind::Relayed { relay_peer, relay_addr } => le_seq(1, 4) + string_field(relay_peer@)
            + string_field(relay_addr@),
        ReachabilityKind::Rendezvous { intro_points } => le_seq(2, 4) + key_list(intro_points@),
    }
}

/// A boolean as one byte.
pub open spec fn bool_byte(b: bool) -> u8 {
    if b { 1 } else { 0 }
}

/// The serialized capabilities: four flag bytes and the bandwidth class.
pub open spec fn caps_bytes(c: PeerCapabilities) -> Seq<u8> {
    seq![bool_byte(c.can_store), bool_byte(c.can_relay), bool_byte(c.can_route), bool_byte(c.can_issue),
        c.bandwidth_class]
}

/// The variant tag of a resource profile.
pub open spec fn profile_variant(p: ResourceProfile) -> nat {
    match p {
        ResourceProfile::Desktop => 0,
        ResourceProfile::Mobile => 1,
        ResourceProfile::Constrained => 2,
    }
}

/// The descriptor body that is signed: everything but the signature (and
/// the credential), the BBS+ proof and onion key only when present.
pub open spec fn descriptor_body(d: PeerDescriptor) -> Seq<u8> {
    descriptor_head(d) + descriptor_tail(d)
}

/// The fixed part of the signed body: pseudonym, reachability, addresses,
/// capabilities, profile tag, publication time, version and public key.
pub open spec fn descriptor_head(d: PeerDescriptor) -> Seq<u8> {
    d.pseudonym@ + reach_bytes(d.reachability) + string_list(d.addresses@.map_values(|s: String| s@))
        + caps_bytes(d.capabilities) + le_seq(profile_variant(d.resource_profile), 4)
        + le_seq(d.published_at as nat, 8) + le_seq(d.version as nat, 8) + d.signing_pubkey@
}

/// The optional part of the signed body: the BBS+ proof and the onion key,
/// each when present.
pub open spec fn descriptor_tail(d: PeerDescriptor) -> Seq<u8> {
    (match d.bbs_proof { Some(p) => bbs_proof_bytes(p), None => Seq::empty() })
        + (match d.onion_pubkey { Some(k) => k@, None => Seq::empty() })
}

/// The message a descriptor's signature covers.
pub open spec fn descriptor_message(d: PeerDescriptor) -> Seq<u8> {
    blake3_of(encode_utf8("miasma-descriptor-v1"@) + descriptor_body(d))
}

/// Whether a descriptor carries a valid signature under `pk`.
pub open spec fn descriptor_signed_by(d: PeerDescriptor, pk: Seq<u8>) -> bool {
    d.signature@.len() == 64 && ed25519_valid(pk, descriptor_message(d), d.signature@)
}

fn reach_to_bytes(r: &ReachabilityKind, out: &mut Vec<u8>)
    ensures
        final(out)@ == old(out)@ + reach_bytes(*r),
{
    match r {
        ReachabilityKind::Direct => push_variant(out, 0),
        ReachabilityKind::Relayed { relay_peer, relay_addr } => {
            push_variant(out, 1);
            push_string_field(out, relay_peer.as_str());
            push_string_field(out, relay_addr.as_str());
        },
        ReachabilityKind::Rendezvous { intro_points } => {
            push_variant(out, 2);
            push_key_list(out, intro_points);
        },
    }
    assert(out@ =~= old(out)@ + reach_bytes(*r));
}

impl PeerDescriptor {
    fn ident_bytes(&self, v: &mut Vec<u8>)
        ensures
            final(v)@ == old(v)@ + (self.pseudonym@ + reach_bytes(self.reachability)
                + string_list(self.addresses@.map_values(|s: String| s@))),
    {
        let ghost start = v@;
        extend_bytes(v, self.pseudonym.as_slice());
        reach_to_bytes(&self.reachability, v);
        let ghost mid = v@;
        push_string_list(v, &self.addresses);
        assert(v@ =~= start + (self.pseudonym@ + reach_bytes(self.reachability)
            + string_list(self.addresses@.map_values(|s: String| s@))));
    }

    fn caps_to_bytes(c: &PeerCapabilities, v: &mut Vec<u8>)
        ensures
            final(v)@ == old(v)@ + caps_bytes(*c),
    {
        v.push(if c.can_store { 1 } else { 0 });
        v.push(if c.can_relay { 1 } else { 0 });
        v.push(if c.can_route { 1 } else { 0 });
        v.push(if c.can_issue { 1 } else { 0 });
        v.push(c.bandwidth_class);
        assert(v@ =~= old(v)@ + caps_bytes(*c));
    }

    fn meta_bytes(&self, v: &mut Vec<u8>)
        ensures
            final(v)@ == old(v)@ + (caps_bytes(self.capabilities) + le_seq(profile_variant(self.resource_profile), 4)
                + le_seq(self.published_at as nat, 8) + le_seq(self.version as nat, 8) + self.signing_pubkey@),
    {
        let ghost start = v@;
        Self::caps_to_bytes(&self.capabilities, v);
        let profile: u32 = match self.resource_profile {
            ResourceProfile::Desktop => 0,
            ResourceProfile::Mobile => 1,
            ResourceProfile::Constrained => 2,
        };
        push_variant(v, profile);
        push_u64(v, self.published_at);
        push_u64(v, self.version);
        extend_bytes(v, self.signing_pubkey.as_slice());
        assert(v@ =~= start + (caps_bytes(self.capabilities) + le_seq(profile_variant(self.resource_profile), 4)
            + le_seq(self.published_at as nat, 8) + le_seq(self.version as nat, 8) + self.signing_pubkey@));
    }

    fn head_bytes(&self, v: &mut Vec<u8>)
        ensures
            final(v)@ == old(v)@ + descriptor_head(*self),
    {
        let ghost start = v@;
        self.ident_bytes(v);
        self.meta_bytes(v);
        let ghost a = self.pseudonym@ + reach_bytes(self.reachability)
            + string_list(self.addresses@.map_values(|s: String| s@));
        let ghost b = caps_bytes(self.capabilities) + le_seq(profile_variant(self.resource_profile), 4)
            + le_seq(self.published_at as nat, 8) + le_seq(self.version as nat, 8) + self.signing_pubkey@;
        assert(descriptor_head(*self) =~= a + b);
        assert(v@ =~= start + (a + b));
    }

    fn tail_bytes(&self, v: &mut Vec<u8>)
        ensures
            final(v)@ == old(v)@ + descriptor_tail(*self),
    {
        let ghost start = v@;
        match &self.bbs_proof {
            Some(p) => {
                let pb = p.to_bytes();
                extend_bytes(v, pb.as_slice());
            },
            None => {},
        }
        let ghost mid = v@;
        match &self.onion_pubkey {
            Some(k) => extend_bytes(v, k.as_slice()),
            None => {},
        }
        assert(v@ =~= start + descriptor_tail(*self));
    }

    /// The bytes of the body that is signed.
    pub fn body_bytes(&self) -> (v: Vec<u8>)
        ensures
            v@ == descriptor_body(*self),
    {
        let mut v: Vec<u8> = Vec::new();
        self.head_bytes(&mut v);
        self.tail_bytes(&mut v);
        assert(v@ =~= descriptor_body(*self));
        v
    }

    /// The message the signature covers.
    fn signed_message(&self) -> (m: [u8; 32])
        ensures
            m@ == descriptor_message(*self),
    {
        let body = self.body_bytes();
        let mut data: Vec<u8> = Vec::new();
        extend_bytes(&mut data, "miasma-descriptor-v1".as_bytes());
        extend_bytes(&mut data, body.as_slice());
        blake3_hash(data.as_slice())
    }

    /// A descriptor published at Unix time `now`, signed with the Ed25519
    /// secret key `signing_key`.
    pub fn new_signed_full_at(pseudonym: [u8; 32], reachability: ReachabilityKind, addresses: Vec<String>,
        capabilities: PeerCapabilities, resource_profile: ResourceProfile,
        credential: Option<CredentialPresentation>, bbs_proof: Option<BbsProof>, onion_pubkey: Option<[u8; 32]>,
        version: u64, signing_key: &[u8; 32], now: u64) -> (d: Self)
        ensures
            d.pseudonym == pseudonym,
            d.reachability == reachability,
            d.addresses@ == addresses@,
            d.capabilities == capabilities,
            d.resource_profile == resource_profile,
            d.credential == credential,
            d.bbs_proof == bbs_proof,
            d.onion_pubkey == onion_pubkey,
            d.published_at == now,
            d.version == version,
            d.signing_pubkey@ == ed25519_public_of(signing_key@),
            d.signature@ == ed25519_signature_of(signing_key@, descriptor_message(d)),
            descriptor_signed_by(d, d.signing_pubkey@),
    {
        let mut desc = PeerDescriptor {
            pseudonym,
            reachability,
            addresses,
            capabilities,
            resource_profile,
            credential,
            published_at: now,
            version,
            signing_pubkey: ed25519_public_key(signing_key),
            bbs_proof,
            onion_pubkey,
            signature: Vec::new(),
        };
        let message = desc.signed_message();
        let sig = ed25519_sign(signing_key, message.as_slice());
        let mut sig_vec: Vec<u8> = Vec::new();
        extend_bytes(&mut sig_vec, sig.as_slice());
        let ghost unsigned = desc;
        desc.signature = sig_vec;
        assert(descriptor_body(desc) == descriptor_body(unsigned));
        desc
    }

    /// A descriptor published now, with all optional fields, signed with
    /// the Ed25519 secret key `signing_key`.
    pub fn new_signed_full(pseudonym: [u8; 32], reachability: ReachabilityKind, addresses: Vec<String>,
        capabilities: PeerCapabilities, resource_profile: ResourceProfile,
        credential: Option<CredentialPresentation>, bbs_proof: Option<BbsProof>, onion_pubkey: Option<[u8; 32]>,
        version: u64, signing_key: &[u8; 32]) -> (d: Self)
        ensures
            d.pseudonym == pseudonym,
            d.version == version,
            d.signing_pubkey@ == ed25519_public_of(signing_key@),
            descriptor_signed_by(d, d.signing_pubkey@),
    {
        let now = now_unix_secs();
        Self::new_signed_full_at(pseudonym, reachability, addresses, capabilities, resource_profile, credential,
            bbs_proof, onion_pubkey, version, signing_key, now)
    }

    /// A signed descriptor published now with an optional BBS+ proof.
    pub fn new_signed_with_bbs(pseudonym: [u8; 32], reachability: ReachabilityKind, addresses: Vec<String>,
        capabilities: PeerCapabilities, resource_profile: ResourceProfile,
        credential: Option<CredentialPresentation>, bbs_proof: Option<BbsProof>, version: u64,
        signing_key: &[u8; 32]) -> (d: Self)
        ensures
            d.pseudonym == pseudonym,
            d.version == version,
            d.onion_pubkey is None,
            d.signing_pubkey@ == ed25519_public_of(signing_key@),
            descriptor_signed_by(d, d.signing_pubkey@),
    {
        let now = now_unix_secs();
        Self::new_signed_full_at(pseudonym, reachability, addresses, capabilities, resource_profile, credential,
            bbs_proof, None, version, signing_key, now)
    }

    /// A signed descriptor published now.
    pub fn new_signed(pseudonym: [u8; 32], reachability: ReachabilityKind, addresses: Vec<String>,
        capabilities: PeerCapabilities, resource_profile: ResourceProfile,
        credential: Option<CredentialPresentation>, version: u64, signing_key: &[u8; 32]) -> (d: Self)
        ensures
            d.pseudonym == pseudonym,
            d.reachability == reachability,
            d.addresses@ == addresses@,
            d.capabilities == capabilities,
            d.resource_profile == resource_profile,
            d.credential == credential,
            d.version == version,
            d.bbs_proof is None,
            d.onion_pubkey is None,
            d.signing_pubkey@ == ed25519_public_of(signing_key@),
            descriptor_signed_by(d, d.signing_pubkey@),
    {
        let now = now_unix_secs();
        Self::new_signed_full_at(pseudonym, reachability, addresses, capabilities, resource_profile, credential,
            None, None, version, signing_key, now)
    }

    /// Whether the signature verifies under the descriptor's own public key.
    pub fn verify_self(&self) -> (b: bool)
        ensures
            b == descriptor_signed_by(*self, self.signing_pubkey@),
    {
        self.verify_signature(&self.signing_pubkey)
    }

    /// Whether the signature verifies under the public key `pubkey`.
    pub fn verify_signature(&self, pubkey: &[u8; 32]) -> (b: bool)
        ensures
            b == descriptor_signed_by(*self, pubkey@),
    {
        let message = self.signed_message();
        let sig = match signature_array(self.signature.as_slice()) {
            Some(s) => s,
            None => return false,
        };
        ed25519_verify(pubkey, message.as_slice(), &sig)
    }
}

} // verus!
