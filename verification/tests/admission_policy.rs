use miasma_core::admission_policy::{
    AdmissionSignals, HybridAdmissionPolicy, HybridRejection, CREDENTIAL_BONUS, ENDORSED_BONUS,
};
use miasma_core::credential::CredentialTier;
use miasma_core::descriptor::ResourceProfile;

fn policy() -> HybridAdmissionPolicy {
    HybridAdmissionPolicy::default()
}

fn signals(
    pow: u8,
    unique: bool,
    reachable: bool,
    tier: Option<CredentialTier>,
    profile: ResourceProfile,
) -> AdmissionSignals {
    AdmissionSignals {
        pow_difficulty: pow,
        unique_prefix: unique,
        reachable,
        credential_tier: tier,
        resource_profile: profile,
    }
}

#[test]
fn desktop_pow_only_admits() {
    let d = policy().evaluate(&signals(10, false, false, None, ResourceProfile::Desktop));
    assert!(d.admitted);
    assert_eq!(d.score, 100);
}

#[test]
fn desktop_low_pow_rejects() {
    let d = policy().evaluate(&signals(8, false, false, None, ResourceProfile::Desktop));
    assert!(!d.admitted);
}

#[test]
fn desktop_pow_plus_diversity_admits() {
    let d = policy().evaluate(&signals(8, true, false, None, ResourceProfile::Desktop));
    assert!(d.admitted);
    assert_eq!(d.breakdown.diversity_bonus, 50);
}

#[test]
fn mobile_credential_compensates_low_pow() {
    let d = policy().evaluate(&signals(
        4,
        false,
        false,
        Some(CredentialTier::Verified),
        ResourceProfile::Mobile,
    ));
    assert!(d.admitted);
    assert_eq!(d.breakdown.credential_bonus, 100);
}

#[test]
fn min_pow_enforced_even_with_credential() {
    let d = policy().evaluate(&signals(
        2,
        true,
        true,
        Some(CredentialTier::Endorsed),
        ResourceProfile::Mobile,
    ));
    assert!(!d.admitted);
    assert!(matches!(d.rejection_reason, Some(HybridRejection::InsufficientMinPoW { .. })));
}

#[test]
fn endorsed_gets_extra_bonus() {
    let p = policy();
    let dv = p.evaluate(&signals(
        4,
        false,
        false,
        Some(CredentialTier::Verified),
        ResourceProfile::Desktop,
    ));
    let de = p.evaluate(&signals(
        4,
        false,
        false,
        Some(CredentialTier::Endorsed),
        ResourceProfile::Desktop,
    ));
    assert!(de.score > dv.score);
    assert_eq!(de.score - dv.score, ENDORSED_BONUS);
}

#[test]
fn constrained_lower_threshold() {
    let d = policy().evaluate(&signals(4, true, false, None, ResourceProfile::Constrained));
    assert!(d.admitted);
}

#[test]
fn reachability_bonus_applied() {
    let d = policy().evaluate(&signals(8, false, true, None, ResourceProfile::Desktop));
    assert!(d.admitted);
    assert_eq!(d.breakdown.reachability_bonus, 30);
}

#[test]
fn all_signals_combined() {
    let d = policy().evaluate(&signals(
        8,
        true,
        true,
        Some(CredentialTier::Endorsed),
        ResourceProfile::Desktop,
    ));
    assert!(d.admitted);
    assert_eq!(d.score, 310);
}

#[test]
fn score_breakdown_correct() {
    let d = policy().evaluate(&signals(
        8,
        true,
        true,
        Some(CredentialTier::Verified),
        ResourceProfile::Desktop,
    ));
    assert_eq!(d.breakdown.pow_score, 80);
    assert_eq!(d.breakdown.diversity_bonus, 50);
    assert_eq!(d.breakdown.reachability_bonus, 30);
    assert_eq!(d.breakdown.credential_bonus, 100);
}

#[test]
fn observed_credential_half_bonus() {
    let d = policy().evaluate(&signals(
        8,
        false,
        false,
        Some(CredentialTier::Observed),
        ResourceProfile::Desktop,
    ));
    assert_eq!(d.breakdown.credential_bonus, CREDENTIAL_BONUS / 2);
}

#[test]
fn below_threshold_reports_score_and_threshold() {
    let d = policy().evaluate(&signals(5, false, false, None, ResourceProfile::Mobile));
    assert!(!d.admitted);
    assert_eq!(d.threshold, 80);
    assert_eq!(
        d.rejection_reason,
        Some(HybridRejection::ScoreBelowThreshold { score: 50, threshold: 80 })
    );
}

#[test]
fn adding_a_signal_never_revokes_admission() {
    let p = policy();
    let base = p.evaluate(&signals(10, false, false, None, ResourceProfile::Desktop));
    let more = p.evaluate(&signals(10, true, true, None, ResourceProfile::Desktop));
    assert!(base.admitted && more.admitted);
    assert!(more.score >= base.score);
}
