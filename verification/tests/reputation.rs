use miasma_core::reputation::{ReputationCredential, ReputationProof, ReputationVerifier};

#[test]
fn credential_expiry() {
    let cred = ReputationCredential::new(90, 100, 1, 1000, 3600, b"issuer_key");
    assert!(!cred.is_expired(1000));
    assert!(!cred.is_expired(4599));
    assert!(cred.is_expired(4600));
}

#[test]
fn proof_prove_threshold_pass() {
    let cred = ReputationCredential::new(85, 50, 0, 0, 86400, b"key");
    let proof = ReputationProof::prove_uptime_threshold(&cred, 80, b"nonce123");
    assert!(proof.is_some());
    let p = proof.unwrap();
    assert_eq!(p.disclosed_values[0], 85);
    assert!(p.claims_json.contains("80"));
}

#[test]
fn proof_prove_threshold_fail() {
    let cred = ReputationCredential::new(50, 50, 0, 0, 86400, b"key");
    let proof = ReputationProof::prove_uptime_threshold(&cred, 80, b"nonce");
    assert!(proof.is_none());
}

#[test]
fn verifier_accepts_valid_proof() {
    let cred = ReputationCredential::new(90, 100, 0, 0, 86400, b"key");
    let proof = ReputationProof::prove_uptime_threshold(&cred, 80, b"nonce").unwrap();
    let verifier = ReputationVerifier::new(b"key".to_vec(), 80);
    assert!(verifier.verify(&proof, b"nonce"));
}

#[test]
fn verifier_rejects_low_uptime() {
    let _cred = ReputationCredential::new(50, 100, 0, 0, 86400, b"key");
    let fake_proof = ReputationProof {
        disclosed_fields: 0b0001,
        disclosed_values: vec![50],
        proof_bytes: vec![0xFF],
        claims_json: "{}".into(),
    };
    let verifier = ReputationVerifier::new(b"key".to_vec(), 80);
    assert!(!verifier.verify(&fake_proof, b"nonce"));
}

#[test]
fn claim_text_and_tag_length() {
    let cred = ReputationCredential::new(85, 50, 0, 0, 10, b"key");
    let p = ReputationProof::prove_uptime_threshold(&cred, 80, b"n").unwrap();
    assert_eq!(p.claims_json, "{\"uptime_score_gte\":80}");
    assert_eq!(p.proof_bytes.len(), 32);
    assert_eq!(p.disclosed_fields, 1);
    assert_eq!(cred.signature.len(), 32);
    let other = ReputationCredential::new(85, 50, 0, 0, 10, b"other");
    assert_ne!(cred.signature, other.signature);
}
