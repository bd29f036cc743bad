use vstd::prelude::*;
use crate::credential::CredentialTier;
use crate::descriptor::ResourceProfile;

verus! {

/// Points per PoW difficulty bit.
pub const POW_POINTS_PER_BIT: u32 = 10;
/// Bonus for unique IP prefix.
pub const DIVERSITY_BONUS: u32 = 50;
/// Bonus for observed reachability.
pub const REACHABILITY_BONUS: u32 = 30;
/// Bonus for holding a valid credential from a known issuer.
pub const CREDENTIAL_BONUS: u32 = 100;
/// Extra bonus for Endorsed-tier credential.
pub const ENDORSED_BONUS: u32 = 50;
/// Admission threshold for desktop peers.
pub const THRESHOLD_DESKTOP: u32 = 100;
/// Admission threshold for mobile peers.
pub const THRESHOLD_MOBILE: u32 = 80;
/// Admission threshold for constrained devices.
pub const THRESHOLD_CONSTRAINED: u32 = 60;
/// Minimum PoW difficulty bits required regardless of other signals.
pub const MIN_POW_DIFFICULTY: u8 = 4;

/// Individual admission signals that contribute to the final score.
#[derive(Debug, Clone, Copy)]
pub struct AdmissionSignals {
    /// PoW difficulty achieved by the peer.
    pub pow_difficulty: u8,
    /// Whether the peer's IP prefix is unique.
    pub unique_prefix: bool,
    /// Whether the peer responded to a reachability probe.
    pub reachable: bool,
    /// Best credential tier presented, if any.
    pub credential_tier: Option<CredentialTier>,
    /// Resource profile declared by the peer.
    pub resource_profile: ResourceProfile,
}

/// Score breakdown for diagnostics.
#[derive(Debug, Clone, Copy, PartialEq, Eq)]
pub struct ScoreBreakdown {
    pub pow_score: u32,
    pub diversity_bonus: u32,
    pub reachability_bonus: u32,
    pub credential_bonus: u32,
}

/// Why a peer was rejected under the hybrid model.
#[derive(Debug, Clone, Copy, PartialEq, Eq)]
pub enum HybridRejection {
    /// PoW difficulty below absolute minimum.
    InsufficientMinPoW { required: u8, actual: u8 },
    /// Total score below threshold.
    ScoreBelowThreshold { score: u32, threshold: u32 },
}

/// Result of admission evaluation.
#[derive(Debug, Clone, Copy)]
pub struct AdmissionDecision {
    /// Whether the peer is admitted.
    pub admitted: bool,
    /// Total computed score.
    pub score: u32,
    /// Threshold that was applied (depends on resource profile).
    pub threshold: u32,
    /// Breakdown of how the score was computed.
    pub breakdown: ScoreBreakdown,
    /// If rejected, the reason.
    pub rejection_reason: Option<HybridRejection>,
}

/// Configurable hybrid admission policy.
#[derive(Debug, Clone, Copy)]
pub struct HybridAdmissionPolicy {
    /// Points per PoW difficulty bit.
    pub pow_weight: u32,
    /// Bonus for unique prefix.
    pub diversity_weight: u32,
    /// Bonus for observed reachability.
    pub reachability_weight: u32,
    /// Bonus for valid credential.
    pub credential_weight: u32,
    /// Extra bonus for Endorsed tier.
    pub endorsed_weight: u32,
    /// Threshold for desktop peers.
    pub threshold_desktop: u32,
    /// Threshold for mobile peers.
    pub threshold_mobile: u32,
    /// Threshold for constrained devices.
    pub threshold_constrained: u32,
    /// Minimum PoW bits regardless of other signals.
    pub min_pow: u8,
}

impl Default for HybridAdmissionPolicy {
    /// The documented weights and thresholds.
    fn default() -> (p: Self)
        ensures
            p.pow_weight == POW_POINTS_PER_BIT,
            p.diversity_weight == DIVERSITY_BONUS,
            p.reachability_weight == REACHABILITY_BONUS,
            p.credential_weight == CREDENTIAL_BONUS,
            p.endorsed_weight == ENDORSED_BONUS,
            p.threshold_desktop == THRESHOLD_DESKTOP,
            p.threshold_mobile == THRESHOLD_MOBILE,
            p.threshold_constrained == THRESHOLD_CONSTRAINED,
            p.min_pow == MIN_POW_DIFFICULTY,
    {
        HybridAdmissionPolicy {
            pow_weight: POW_POINTS_PER_BIT,
            diversity_weight: DIVERSITY_BONUS,
            reachability_weight: REACHABILITY_BONUS,
            credential_weight: CREDENTIAL_BONUS,
            endorsed_weight: ENDORSED_BONUS,
            threshold_desktop: THRESHOLD_DESKTOP,
            threshold_mobile: THRESHOLD_MOBILE,
            threshold_constrained: THRESHOLD_CONSTRAINED,
            min_pow: MIN_POW_DIFFICULTY,
        }
    }
}

/// The threshold a policy applies to a resource profile.
pub open spec fn threshold_spec(p: HybridAdmissionPolicy, profile: ResourceProfile) -> u32 {
    match profile {
        ResourceProfile::Desktop => p.threshold_desktop,
        ResourceProfile::Mobile => p.threshold_mobile,
        ResourceProfile::Constrained => p.threshold_constrained,
    }
}

/// The credential bonus for a presented tier.
pub open spec fn credential_bonus_spec(p: HybridAdmissionPolicy, t: Option<CredentialTier>) -> int {
    match t {
        Some(CredentialTier::Endorsed) => p.credential_weight + p.endorsed_weight,
        Some(CredentialTier::Verified) => p.credential_weight as int,
        Some(CredentialTier::Observed) => (p.credential_weight / 2) as int,
        None => 0,
    }
}

/// The breakdown of a score for signals that pass the PoW minimum.
pub open spec fn breakdown_spec(p: HybridAdmissionPolicy, s: AdmissionSignals) -> (int, int, int, int) {
    (
        s.pow_difficulty * p.pow_weight,
        if s.unique_prefix { p.diversity_weight as int } else { 0 },
        if s.reachable { p.reachability_weight as int } else { 0 },
        credential_bonus_spec(p, s.credential_tier),
    )
}

/// The total score for signals that pass the PoW minimum.
pub open spec fn score_spec(p: HybridAdmissionPolicy, s: AdmissionSignals) -> int {
    let b = breakdown_spec(p, s);
    b.0 + b.1 + b.2 + b.3
}

/// The score arithmetic for these signals fits in `u32` (with custom
/// weights it could overflow otherwise).
pub open spec fn evaluate_fits(p: HybridAdmissionPolicy, s: AdmissionSignals) -> bool {
    s.pow_difficulty < p.min_pow || score_spec(p, s) <= u32::MAX
}

/// What `evaluate` decides for a set of signals.
pub open spec fn decision_for(p: HybridAdmissionPolicy, s: AdmissionSignals, d: AdmissionDecision) -> bool {
    let threshold = threshold_spec(p, s.resource_profile);
    if s.pow_difficulty < p.min_pow {
        &&& !d.admitted
        &&& d.score == 0
        &&& d.threshold == threshold
        &&& d.breakdown == (ScoreBreakdown {
            pow_score: 0,
            diversity_bonus: 0,
            reachability_bonus: 0,
            credential_bonus: 0,
        })
        &&& d.rejection_reason == Some(
            HybridRejection::InsufficientMinPoW { required: p.min_pow, actual: s.pow_difficulty },
        )
    } else {
        let b = breakdown_spec(p, s);
        let total = score_spec(p, s);
        &&& d.score == total
        &&& d.threshold == threshold
        &&& d.breakdown.pow_score == b.0
        &&& d.breakdown.diversity_bonus == b.1
        &&& d.breakdown.reachability_bonus == b.2
        &&& d.breakdown.credential_bonus == b.3
        &&& d.admitted == (total >= threshold)
        &&& d.rejection_reason == if total >= threshold {
            None
        } else {
            Some(HybridRejection::ScoreBelowThreshold { score: d.score, threshold })
        }
    }
}

impl HybridAdmissionPolicy {
    /// Evaluate admission for a peer given their signals.
    pub fn evaluate(&self, signals: &AdmissionSignals) -> (d: AdmissionDecision)
        requires
            evaluate_fits(*self, *signals),
        ensures
            decision_for(*self, *signals, d),
    {
        if signals.pow_difficulty < self.min_pow {
            return AdmissionDecision {
                admitted: false,
                score: 0,
                threshold: self.threshold_for(signals.resource_profile),
                breakdown: ScoreBreakdown {
                    pow_score: 0,
                    diversity_bonus: 0,
                    reachability_bonus: 0,
                    credential_bonus: 0,
                },
                rejection_reason: Some(
                    HybridRejection::InsufficientMinPoW {
                        required: self.min_pow,
                        actual: signals.pow_difficulty,
                    },
                ),
            };
        }
        let pow_score = signals.pow_difficulty as u32 * self.pow_weight;
        let diversity_bonus = if signals.unique_prefix {
            self.diversity_weight
        } else {
            0
        };
        let reachability_bonus = if signals.reachable {
            self.reachability_weight
        } else {
            0
        };
        let credential_bonus = match signals.credential_tier {
            Some(CredentialTier::Endorsed) => self.credential_weight + self.endorsed_weight,
            Some(CredentialTier::Verified) => self.credential_weight,
            Some(CredentialTier::Observed) => self.credential_weight / 2,
            None => 0,
        };
        let total = pow_score + diversity_bonus + reachability_bonus + credential_bonus;
        let threshold = self.threshold_for(signals.resource_profile);
        let breakdown = ScoreBreakdown {
            pow_score,
            diversity_bonus,
            reachability_bonus,
            credential_bonus,
        };
        if total >= threshold {
            AdmissionDecision {
                admitted: true,
                score: total,
                threshold,
                breakdown,
                rejection_reason: None,
            }
        } else {
            AdmissionDecision {
                admitted: false,
                score: total,
                threshold,
                breakdown,
                rejection_reason: Some(
                    HybridRejection::ScoreBelowThreshold { score: total, threshold },
                ),
            }
        }
    }

    /// The admission threshold for a resource profile.
    pub fn threshold_for(&self, profile: ResourceProfile) -> (t: u32)
        ensures
            t == threshold_spec(*self, profile),
    {
        match profile {
            ResourceProfile::Desktop => self.threshold_desktop,
            ResourceProfile::Mobile => self.threshold_mobile,
            ResourceProfile::Constrained => self.threshold_constrained,
        }
    }
}

/// Under the default weights the score arithmetic fits in `u32` for every
/// set of signals.
pub proof fn lemma_default_policy_fits(p: HybridAdmissionPolicy, s: AdmissionSignals)
    requires
        p.pow_weight == POW_POINTS_PER_BIT,
        p.diversity_weight == DIVERSITY_BONUS,
        p.reachability_weight == REACHABILITY_BONUS,
        p.credential_weight == CREDENTIAL_BONUS,
        p.endorsed_weight == ENDORSED_BONUS,
    ensures
        evaluate_fits(p, s),
{
    assert(s.pow_difficulty * 10 <= 2550) by (nonlinear_arith)
        requires
            s.pow_difficulty <= 255,
    ;
}

/// Each resource profile is judged against its own threshold field: a
/// decision records the policy's desktop, mobile or constrained threshold
/// for a desktop, mobile or constrained peer, and a peer past the PoW
/// minimum is admitted exactly when its score reaches that field.
pub proof fn lemma_threshold_per_profile(p: HybridAdmissionPolicy, s: AdmissionSignals, d: AdmissionDecision)
    requires
        decision_for(p, s, d),
    ensures
        s.resource_profile == ResourceProfile::Desktop ==> d.threshold == p.threshold_desktop,
        s.resource_profile == ResourceProfile::Mobile ==> d.threshold == p.threshold_mobile,
        s.resource_profile == ResourceProfile::Constrained ==> d.threshold == p.threshold_constrained,
        s.pow_difficulty >= p.min_pow ==> (d.admitted <==> score_spec(p, s) >= d.threshold),
{
}

/// Changing one profile's threshold moves the bar for that profile alone:
/// the same signals get the same threshold under the two policies unless
/// they come from the profile whose field differs, which gets the new value.
pub proof fn lemma_thresholds_independent(p: HybridAdmissionPolicy, q: HybridAdmissionPolicy, profile: ResourceProfile)
    requires
        q.threshold_desktop == p.threshold_desktop || profile != ResourceProfile::Desktop,
        q.threshold_mobile == p.threshold_mobile || profile != ResourceProfile::Mobile,
        q.threshold_constrained == p.threshold_constrained || profile != ResourceProfile::Constrained,
    ensures
        threshold_spec(q, profile) == threshold_spec(p, profile),
        profile == ResourceProfile::Constrained ==> threshold_spec(q, profile) == q.threshold_constrained,
{
}

/// Under the documented thresholds lighter devices face lower bars:
/// constrained (60) below mobile (80) below desktop (100).
pub proof fn lemma_default_thresholds_ordered(p: HybridAdmissionPolicy)
    requires
        p.threshold_desktop == THRESHOLD_DESKTOP,
        p.threshold_mobile == THRESHOLD_MOBILE,
        p.threshold_constrained == THRESHOLD_CONSTRAINED,
    ensures
        threshold_spec(p, ResourceProfile::Constrained) == 60,
        threshold_spec(p, ResourceProfile::Constrained) < threshold_spec(p, ResourceProfile::Mobile),
        threshold_spec(p, ResourceProfile::Mobile) < threshold_spec(p, ResourceProfile::Desktop),
{
}

/// Admission is monotone in the signals: with every other signal fixed, a
/// higher PoW difficulty, a unique prefix, reachability or a credential never
/// turn an admitted peer into a rejected one.
pub proof fn lemma_admission_monotone(p: HybridAdmissionPolicy, a: AdmissionSignals, b: AdmissionSignals)
    requires
        a.resource_profile == b.resource_profile,
        a.pow_difficulty <= b.pow_difficulty,
        a.unique_prefix ==> b.unique_prefix,
        a.reachable ==> b.reachable,
        a.credential_tier == b.credential_tier,
        a.pow_difficulty >= p.min_pow,
        score_spec(p, a) >= threshold_spec(p, a.resource_profile),
    ensures
        b.pow_difficulty >= p.min_pow,
        score_spec(p, b) >= threshold_spec(p, b.resource_profile),
{
    assert(a.pow_difficulty * p.pow_weight <= b.pow_difficulty * p.pow_weight) by (nonlinear_arith)
        requires
            a.pow_difficulty <= b.pow_difficulty,
    ;
}

/// An Endorsed credential scores exactly `endorsed_weight` more than a
/// Verified one, all else equal.
pub proof fn lemma_endorsed_bonus(p: HybridAdmissionPolicy, a: AdmissionSignals, b: AdmissionSignals)
    requires
        a.pow_difficulty == b.pow_difficulty,
        a.unique_prefix == b.unique_prefix,
        a.reachable == b.reachable,
        a.credential_tier == Some(CredentialTier::Verified),
        b.credential_tier == Some(CredentialTier::Endorsed),
    ensures
        score_spec(p, b) == score_spec(p, a) + p.endorsed_weight,
{
}

/// Snapshot of admission policy state for diagnostics.
#[derive(Debug, Clone, Copy)]
pub struct AdmissionPolicyStats {
    pub min_pow_bits: u8,
    pub threshold_desktop: u32,
    pub threshold_mobile: u32,
    pub threshold_constrained: u32,
}

} // verus!
