use miasma_core::credential::{
    compute_holder_tag, current_epoch, epoch_is_valid, verify_presentation, CredentialError,
    CredentialIssuer, CredentialPresentation, CredentialTier, CredentialWallet, EphemeralIdentity,
    IssuerRegistry, CAP_ISSUE, CAP_RELAY, CAP_ROUTE, CAP_STORE,
};

fn test_issuer() -> CredentialIssuer {
    CredentialIssuer::new([0x42u8; 32])
}

#[test]
fn issue_and_verify_credential() {
    let issuer = test_issuer();
    let identity = EphemeralIdentity::generate(current_epoch());
    let holder_tag = identity.holder_tag();
    let credential =
        issuer.issue(CredentialTier::Verified, identity.epoch, CAP_STORE | CAP_ROUTE, holder_tag);
    let context = b"test-context-123";
    let presentation = CredentialPresentation::create(&credential, &identity, context);
    let result = verify_presentation(
        &presentation,
        context,
        &[issuer.pubkey_bytes()],
        current_epoch(),
        CredentialTier::Verified,
    );
    assert!(result.is_ok());
    assert_eq!(result.unwrap(), CredentialTier::Verified);
}

#[test]
fn reject_unknown_issuer() {
    let issuer = test_issuer();
    let identity = EphemeralIdentity::generate(current_epoch());
    let credential =
        issuer.issue(CredentialTier::Verified, identity.epoch, CAP_ROUTE, identity.holder_tag());
    let presentation = CredentialPresentation::create(&credential, &identity, b"ctx");
    let unknown_issuer = [0xFFu8; 32];
    let result = verify_presentation(
        &presentation,
        b"ctx",
        &[unknown_issuer],
        current_epoch(),
        CredentialTier::Verified,
    );
    assert_eq!(result.unwrap_err(), CredentialError::UnknownIssuer);
}

#[test]
fn reject_tampered_issuer_signature() {
    let issuer = test_issuer();
    let identity = EphemeralIdentity::generate(current_epoch());
    let mut credential =
        issuer.issue(CredentialTier::Verified, identity.epoch, CAP_ROUTE, identity.holder_tag());
    credential.issuer_signature[0] ^= 0xFF;
    let presentation = CredentialPresentation::create(&credential, &identity, b"ctx");
    let result = verify_presentation(
        &presentation,
        b"ctx",
        &[issuer.pubkey_bytes()],
        current_epoch(),
        CredentialTier::Verified,
    );
    assert_eq!(result.unwrap_err(), CredentialError::InvalidIssuerSignature);
}

#[test]
fn reject_holder_tag_mismatch() {
    let issuer = test_issuer();
    let identity = EphemeralIdentity::generate(current_epoch());
    let other_identity = EphemeralIdentity::generate(current_epoch());
    let credential =
        issuer.issue(CredentialTier::Verified, identity.epoch, CAP_ROUTE, identity.holder_tag());
    let cred_bytes = credential.to_bytes();
    let context_sig = other_identity.sign_context(&cred_bytes, b"ctx");
    let presentation = CredentialPresentation {
        credential: credential.clone(),
        ephemeral_pubkey: other_identity.pubkey_bytes(),
        context_signature: context_sig,
    };
    let result = verify_presentation(
        &presentation,
        b"ctx",
        &[issuer.pubkey_bytes()],
        current_epoch(),
        CredentialTier::Verified,
    );
    assert_eq!(result.unwrap_err(), CredentialError::HolderTagMismatch);
}

#[test]
fn reject_wrong_context() {
    let issuer = test_issuer();
    let identity = EphemeralIdentity::generate(current_epoch());
    let credential =
        issuer.issue(CredentialTier::Verified, identity.epoch, CAP_ROUTE, identity.holder_tag());
    let presentation = CredentialPresentation::create(&credential, &identity, b"context-A");
    let result = verify_presentation(
        &presentation,
        b"context-B",
        &[issuer.pubkey_bytes()],
        current_epoch(),
        CredentialTier::Verified,
    );
    assert_eq!(result.unwrap_err(), CredentialError::InvalidHolderProof);
}

#[test]
fn reject_expired_epoch() {
    let issuer = test_issuer();
    let old_epoch = current_epoch().saturating_sub(10);
    let identity = EphemeralIdentity::generate(old_epoch);
    let credential =
        issuer.issue(CredentialTier::Verified, old_epoch, CAP_ROUTE, identity.holder_tag());
    let presentation = CredentialPresentation::create(&credential, &identity, b"ctx");
    let result = verify_presentation(
        &presentation,
        b"ctx",
        &[issuer.pubkey_bytes()],
        current_epoch(),
        CredentialTier::Verified,
    );
    assert!(matches!(result.unwrap_err(), CredentialError::ExpiredEpoch { .. }));
}

#[test]
fn reject_insufficient_tier() {
    let issuer = test_issuer();
    let identity = EphemeralIdentity::generate(current_epoch());
    let credential =
        issuer.issue(CredentialTier::Observed, identity.epoch, CAP_ROUTE, identity.holder_tag());
    let presentation = CredentialPresentation::create(&credential, &identity, b"ctx");
    let result = verify_presentation(
        &presentation,
        b"ctx",
        &[issuer.pubkey_bytes()],
        current_epoch(),
        CredentialTier::Verified,
    );
    assert!(matches!(result.unwrap_err(), CredentialError::InsufficientTier { .. }));
}

#[test]
fn endorsed_tier_exceeds_verified() {
    let issuer = test_issuer();
    let identity = EphemeralIdentity::generate(current_epoch());
    let credential = issuer.issue(
        CredentialTier::Endorsed,
        identity.epoch,
        CAP_ROUTE | CAP_STORE | CAP_RELAY,
        identity.holder_tag(),
    );
    let presentation = CredentialPresentation::create(&credential, &identity, b"ctx");
    let result = verify_presentation(
        &presentation,
        b"ctx",
        &[issuer.pubkey_bytes()],
        current_epoch(),
        CredentialTier::Verified,
    );
    assert_eq!(result.unwrap(), CredentialTier::Endorsed);
}

#[test]
fn credential_wallet_lifecycle() {
    let issuer = test_issuer();
    let mut wallet = CredentialWallet::new();
    assert!(wallet.best_credential().is_none());
    let credential =
        issuer.issue(CredentialTier::Verified, wallet.epoch(), CAP_ROUTE, wallet.holder_tag());
    wallet.store(credential);
    assert_eq!(wallet.credential_count(), 1);
    let cred = wallet.best_credential().unwrap();
    assert_eq!(cred.body.tier, CredentialTier::Verified);
    let presentation = wallet.present(b"ctx").unwrap();
    let result = verify_presentation(
        &presentation,
        b"ctx",
        &[issuer.pubkey_bytes()],
        current_epoch(),
        CredentialTier::Verified,
    );
    assert!(result.is_ok());
}

#[test]
fn issuer_registry_operations() {
    let mut reg = IssuerRegistry::new(true);
    let pk = [0x42u8; 32];
    assert!(!reg.is_known(&pk));
    reg.add_issuer(pk);
    assert!(reg.is_known(&pk));
    assert_eq!(reg.issuer_count(), 1);
    reg.remove_issuer(&pk);
    assert!(!reg.is_known(&pk));
}

#[test]
fn holder_tag_deterministic() {
    let identity = EphemeralIdentity::generate(current_epoch());
    let tag1 = identity.holder_tag();
    let tag2 = compute_holder_tag(&identity.pubkey_bytes());
    assert_eq!(tag1, tag2);
}

#[test]
fn epoch_validity_window() {
    let now = 100;
    assert!(epoch_is_valid(100, now));
    assert!(epoch_is_valid(99, now));
    assert!(!epoch_is_valid(98, now));
    assert!(!epoch_is_valid(101, now));
}

#[test]
fn capability_flags() {
    let caps = CAP_STORE | CAP_RELAY | CAP_ROUTE;
    assert!(caps & CAP_STORE != 0);
    assert!(caps & CAP_RELAY != 0);
    assert!(caps & CAP_ROUTE != 0);
    assert!(caps & CAP_ISSUE == 0);
}

#[test]
fn registry_add_is_idempotent() {
    let mut reg = IssuerRegistry::new(false);
    reg.add_issuer([1u8; 32]);
    reg.add_issuer([1u8; 32]);
    reg.add_issuer([2u8; 32]);
    assert_eq!(reg.issuer_count(), 2);
    assert_eq!(reg.issuer_list(), vec![[1u8; 32], [2u8; 32]]);
}

#[test]
fn fixed_identity_presentation_roundtrip() {
    let issuer = test_issuer();
    let identity = EphemeralIdentity::from_secret([7u8; 32], 50);
    let credential =
        issuer.issue(CredentialTier::Endorsed, 50, CAP_ISSUE, identity.holder_tag());
    let p = CredentialPresentation::create(&credential, &identity, b"here");
    let r = verify_presentation(&p, b"here", &[issuer.pubkey_bytes()], 51, CredentialTier::Observed);
    assert_eq!(r, Ok(CredentialTier::Endorsed));
    let r = verify_presentation(&p, b"here", &[issuer.pubkey_bytes()], 52, CredentialTier::Observed);
    assert_eq!(
        r,
        Err(CredentialError::ExpiredEpoch { credential_epoch: 50, current_epoch: 52 })
    );
}

#[test]
fn tier_order_and_names() {
    assert!(CredentialTier::Endorsed.at_least(CredentialTier::Verified));
    assert!(!CredentialTier::Observed.at_least(CredentialTier::Verified));
    assert_eq!(CredentialTier::from_number(2), Some(CredentialTier::Verified));
    assert_eq!(CredentialTier::from_number(0), None);
}

#[test]
fn credential_error_messages() {
    assert_eq!(CredentialError::UnknownIssuer.to_string(), "unknown issuer");
    assert_eq!(
        CredentialError::ExpiredEpoch { credential_epoch: 3, current_epoch: 10 }.to_string(),
        "expired epoch: cred=3 current=10"
    );
    assert_eq!(
        CredentialError::InsufficientTier {
            required: CredentialTier::Verified,
            actual: CredentialTier::Observed
        }
        .to_string(),
        "insufficient tier: need Verified, have Observed"
    );
    assert_eq!(CredentialTier::Endorsed.to_string(), "Endorsed");
}
