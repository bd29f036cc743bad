use miasma_core::bbs_credential::{
    bbs_create_proof, bbs_verify_proof, generate_link_secret, hash_to_scalar, BbsCredential,
    BbsCredentialAttributes, BbsCredentialWallet, BbsError, BbsIssuer, BbsIssuerKey,
    BbsIssuerRegistry, BbsPlusScheme, BbsSignature, CredentialScheme, DisclosurePolicy,
    Ed25519Scheme,
};
use miasma_core::credential::CredentialTier;

fn test_attributes() -> BbsCredentialAttributes {
    BbsCredentialAttributes {
        link_secret: generate_link_secret(),
        tier: CredentialTier::Verified,
        capabilities: 0x07,
        epoch: 1000,
        nonce: 42,
    }
}

#[test]
fn bbs_issue_and_create_proof() {
    let issuer_key = BbsIssuerKey::from_seed(b"test-issuer-seed");
    let issuer = BbsIssuer::new(issuer_key.clone());
    let credential = issuer.issue(test_attributes());
    let policy = DisclosurePolicy::default();
    let proof = bbs_create_proof(&credential, &policy, b"test-verifier-challenge");
    assert_eq!(proof.disclosed.len(), 1);
    assert_eq!(proof.disclosed[0], (1, 2));
    assert_eq!(proof.responses.len(), 4);
}

#[test]
fn bbs_proof_verifies() {
    let issuer_key = BbsIssuerKey::from_seed(b"test-issuer-seed");
    let issuer = BbsIssuer::new(issuer_key.clone());
    let credential = issuer.issue(test_attributes());
    let policy = DisclosurePolicy::default();
    let context = b"verification-context";
    let proof = bbs_create_proof(&credential, &policy, context);
    let result = bbs_verify_proof(&proof, &issuer_key.pk_bytes(), context);
    assert!(result.is_ok());
    let disclosed = result.unwrap();
    assert_eq!(disclosed.len(), 1);
    assert_eq!(disclosed[0].1, 2);
}

#[test]
fn bbs_wrong_context_fails() {
    let issuer_key = BbsIssuerKey::from_seed(b"test-issuer-seed");
    let issuer = BbsIssuer::new(issuer_key.clone());
    let credential = issuer.issue(test_attributes());
    let proof = bbs_create_proof(&credential, &DisclosurePolicy::default(), b"context-A");
    let result = bbs_verify_proof(&proof, &issuer_key.pk_bytes(), b"context-B");
    assert!(result.is_err());
}

#[test]
fn bbs_selective_disclosure_tier_and_caps() {
    let issuer_key = BbsIssuerKey::from_seed(b"test-issuer-seed");
    let issuer = BbsIssuer::new(issuer_key.clone());
    let credential = issuer.issue(test_attributes());
    let policy = DisclosurePolicy::tier_and_caps();
    let context = b"selective-ctx";
    let proof = bbs_create_proof(&credential, &policy, context);
    assert_eq!(proof.disclosed.len(), 2);
    assert_eq!(proof.responses.len(), 3);
    let result = bbs_verify_proof(&proof, &issuer_key.pk_bytes(), context);
    assert!(result.is_ok());
    let disclosed = result.unwrap();
    assert!(disclosed.iter().any(|&(i, v)| i == 1 && v == 2));
    assert!(disclosed.iter().any(|&(i, v)| i == 2 && v == 0x07));
}

#[test]
fn bbs_reveal_nothing() {
    let issuer_key = BbsIssuerKey::from_seed(b"test-issuer-seed");
    let issuer = BbsIssuer::new(issuer_key.clone());
    let credential = issuer.issue(test_attributes());
    let policy = DisclosurePolicy::reveal_nothing();
    let context = b"nothing-ctx";
    let proof = bbs_create_proof(&credential, &policy, context);
    assert_eq!(proof.disclosed.len(), 0);
    assert_eq!(proof.responses.len(), 5);
    let result = bbs_verify_proof(&proof, &issuer_key.pk_bytes(), context);
    assert!(result.is_ok());
}

#[test]
fn bbs_two_proofs_unlinkable() {
    let issuer_key = BbsIssuerKey::from_seed(b"test-issuer-seed");
    let issuer = BbsIssuer::new(issuer_key.clone());
    let credential = issuer.issue(test_attributes());
    let policy = DisclosurePolicy::default();
    let proof1 = bbs_create_proof(&credential, &policy, b"ctx-1");
    let proof2 = bbs_create_proof(&credential, &policy, b"ctx-2");
    assert_ne!(proof1.a_prime, proof2.a_prime);
    assert_ne!(proof1.challenge, proof2.challenge);
    assert_ne!(proof1.responses, proof2.responses);
    assert!(bbs_verify_proof(&proof1, &issuer_key.pk_bytes(), b"ctx-1").is_ok());
    assert!(bbs_verify_proof(&proof2, &issuer_key.pk_bytes(), b"ctx-2").is_ok());
}

#[test]
fn bbs_wrong_issuer_key_fails() {
    let issuer_key = BbsIssuerKey::from_seed(b"test-issuer-seed");
    let wrong_key = BbsIssuerKey::from_seed(b"wrong-issuer-seed");
    let issuer = BbsIssuer::new(issuer_key);
    let credential = issuer.issue(test_attributes());
    let context = b"wrong-key-ctx";
    let proof = bbs_create_proof(&credential, &DisclosurePolicy::default(), context);
    let result = bbs_verify_proof(&proof, &wrong_key.pk_bytes(), context);
    assert!(result.is_err());
    assert_eq!(result.unwrap_err(), BbsError::IssuerBindingFailed);
}

#[test]
fn bbs_scheme_trait_properties() {
    let ed = Ed25519Scheme;
    assert!(!ed.within_epoch_unlinkable());
    assert!(!ed.selective_disclosure());
    assert_eq!(ed.name(), "ed25519-ephemeral");
    let bbs = BbsPlusScheme;
    assert!(bbs.within_epoch_unlinkable());
    assert!(bbs.selective_disclosure());
    assert_eq!(bbs.name(), "bbs-plus");
}

#[test]
fn bbs_endorsed_tier_credential() {
    let issuer_key = BbsIssuerKey::from_seed(b"endorsed-issuer");
    let issuer = BbsIssuer::new(issuer_key.clone());
    let attrs = BbsCredentialAttributes {
        link_secret: generate_link_secret(),
        tier: CredentialTier::Endorsed,
        capabilities: 0x0F,
        epoch: 2000,
        nonce: 99,
    };
    let credential = issuer.issue(attrs);
    let policy = DisclosurePolicy::tier_and_caps();
    let proof = bbs_create_proof(&credential, &policy, b"endorsed-ctx");
    let result = bbs_verify_proof(&proof, &issuer_key.pk_bytes(), b"endorsed-ctx");
    assert!(result.is_ok());
    let disclosed = result.unwrap();
    assert!(disclosed.iter().any(|&(i, v)| i == 1 && v == 3));
}

#[test]
fn link_secret_generation_unique() {
    let s1 = generate_link_secret();
    let s2 = generate_link_secret();
    assert_ne!(s1, s2);
}

#[test]
fn malformed_proofs_are_rejected() {
    let issuer_key = BbsIssuerKey::from_seed(b"seed");
    let credential = BbsIssuer::new(issuer_key.clone()).issue(test_attributes());
    let proof = bbs_create_proof(&credential, &DisclosurePolicy::default(), b"c");
    assert_eq!(bbs_verify_proof(&proof, &[0u8; 96], b"c").unwrap_err(), BbsError::InvalidIssuerKey);
    let mut short = proof.clone();
    short.a_prime.pop();
    assert_eq!(
        bbs_verify_proof(&short, &issuer_key.pk_bytes(), b"c").unwrap_err(),
        BbsError::InvalidProof
    );
    let mut fewer = proof.clone();
    fewer.responses.pop();
    assert_eq!(
        bbs_verify_proof(&fewer, &issuer_key.pk_bytes(), b"c").unwrap_err(),
        BbsError::InvalidProof
    );
    let mut lied = proof.clone();
    lied.disclosed[0].1 = 3;
    assert_eq!(
        bbs_verify_proof(&lied, &issuer_key.pk_bytes(), b"c").unwrap_err(),
        BbsError::ProofVerificationFailed
    );
}

#[test]
fn keys_and_hashing_are_deterministic() {
    assert_eq!(
        BbsIssuerKey::from_seed(b"s").pk_bytes(),
        BbsIssuerKey::from_seed(b"s").pk_bytes()
    );
    assert_ne!(
        BbsIssuerKey::from_seed(b"s").pk_bytes(),
        BbsIssuerKey::from_seed(b"t").pk_bytes()
    );
    assert_eq!(hash_to_scalar(b"x"), hash_to_scalar(b"x"));
    assert_ne!(hash_to_scalar(b"x"), hash_to_scalar(b"y"));
    let random = BbsIssuerKey::generate();
    assert_ne!(random.pk_bytes(), [0u8; 96]);
}

#[test]
fn signature_layout() {
    let key = BbsIssuerKey::from_seed(b"layout");
    let msgs = test_attributes().to_messages();
    let sig = BbsSignature::sign(&key, &msgs);
    assert_eq!(sig.a.len(), 48);
    assert_eq!(sig.e.len(), 32);
    assert_eq!(sig.s.len(), 32);
}

fn credential_for(pk: &[u8; 96], epoch: u64, tier: CredentialTier) -> BbsCredential {
    let key = BbsIssuerKey::from_seed(&pk[..8]);
    let mut attrs = test_attributes();
    attrs.epoch = epoch;
    attrs.tier = tier;
    let mut c = BbsIssuer::new(key).issue(attrs);
    c.issuer_pk = pk.to_vec();
    c
}

#[test]
fn wallet_store_best_prune_and_present() {
    let mut w = BbsCredentialWallet::new();
    assert!(w.best_credential().is_none());
    assert!(w.present(&DisclosurePolicy::default(), b"x").is_none());
    let pk = [1u8; 96];
    w.store(credential_for(&pk, 5, CredentialTier::Observed));
    w.store(credential_for(&pk, 6, CredentialTier::Endorsed));
    w.store(credential_for(&pk, 6, CredentialTier::Verified));
    assert_eq!(w.credential_count(), 2);
    assert_eq!(w.best_credential().unwrap().attributes.tier, CredentialTier::Verified);
    let p = w.present(&DisclosurePolicy::default(), b"x").unwrap();
    assert_eq!(p.disclosed, vec![(1, 2)]);
    w.prune_before_epoch(6);
    assert_eq!(w.credential_count(), 1);
    assert_ne!(w.link_secret(), [0u8; 32]);
}

#[test]
fn wallet_capacity_evicts_oldest_epoch() {
    let mut w = BbsCredentialWallet::new();
    let base = credential_for(&[2u8; 96], 0, CredentialTier::Observed);
    for epoch in 0..101u64 {
        let mut c = base.clone();
        c.attributes.epoch = epoch + 10;
        w.store(c);
    }
    assert_eq!(w.credential_count(), 100);
    w.prune_before_epoch(11);
    assert_eq!(w.credential_count(), 100);
    w.prune_before_epoch(12);
    assert_eq!(w.credential_count(), 99);
}

#[test]
fn issuer_registry_dedup() {
    let mut r = BbsIssuerRegistry::new();
    assert!(!r.is_known(&[7u8; 96]));
    r.add_issuer([7u8; 96]);
    r.add_issuer([7u8; 96]);
    r.add_issuer([8u8; 96]);
    assert_eq!(r.len(), 2);
    assert!(r.is_known(&[7u8; 96]));
    assert_eq!(r.issuer_list(), &[[7u8; 96], [8u8; 96]]);
}

#[test]
fn error_messages() {
    assert_eq!(BbsError::InvalidIssuerKey.to_string(), "invalid BBS+ issuer public key");
    assert_eq!(BbsError::IssuerBindingFailed.to_string(), "BBS+ pairing check failed: wrong issuer");
}

#[test]
fn disclosing_link_secret_is_refused() {
    let issuer_key = BbsIssuerKey::from_seed(b"seed");
    let credential = BbsIssuer::new(issuer_key.clone()).issue(test_attributes());
    let policy = DisclosurePolicy { reveal: vec![0, 1] };
    let proof = bbs_create_proof(&credential, &policy, b"c");
    assert_eq!(
        bbs_verify_proof(&proof, &issuer_key.pk_bytes(), b"c").unwrap_err(),
        BbsError::LinkSecretDisclosed
    );
    let mut relabelled = bbs_create_proof(&credential, &DisclosurePolicy::default(), b"c");
    relabelled.disclosed[0].0 = 0;
    assert_eq!(
        bbs_verify_proof(&relabelled, &issuer_key.pk_bytes(), b"c").unwrap_err(),
        BbsError::LinkSecretDisclosed
    );
}
