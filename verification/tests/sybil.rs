use miasma_core::sybil::{
    check_peer_admission, leading_zeros, mine_pow, pow_hash, verify_pow, AdmissionResult,
    NodeIdPoW, SignedDhtRecord,
};

#[test]
fn pow_mine_and_verify_easy() {
    let pubkey = [0xABu8; 32];
    let pow = mine_pow(pubkey, 8).unwrap();
    assert!(verify_pow(&pow, 8));
    assert!(!verify_pow(&pow, 16));
}

#[test]
fn pow_invalid_hash_rejected() {
    let pubkey = [0x01u8; 32];
    let pow = mine_pow(pubkey, 4).unwrap();
    let tampered = NodeIdPoW { hash: [0xFF; 32], ..pow };
    assert!(!verify_pow(&tampered, 4));
}

#[test]
fn signed_record_real_signature() {
    let signing_key = [0x42u8; 32];
    let record = SignedDhtRecord::sign(b"test-key".to_vec(), b"test-value".to_vec(), &signing_key);
    assert!(record.verify_signature(), "valid signature must verify");
}

#[test]
fn signed_record_tampered_value_rejected() {
    let signing_key = [0x42u8; 32];
    let mut record =
        SignedDhtRecord::sign(b"test-key".to_vec(), b"original-value".to_vec(), &signing_key);
    record.value = b"tampered-value".to_vec();
    assert!(!record.verify_signature(), "tampered record must fail verification");
}

#[test]
fn signed_record_wrong_key_rejected() {
    let signing_key = [0x42u8; 32];
    let mut record = SignedDhtRecord::sign(b"key".to_vec(), b"value".to_vec(), &signing_key);
    let other = SignedDhtRecord::sign(b"key".to_vec(), b"value".to_vec(), &[0x99u8; 32]);
    record.signer_pubkey = other.signer_pubkey;
    assert!(!record.verify_signature(), "wrong signer key must fail verification");
}

#[test]
fn signed_record_zero_signature_rejected() {
    let record = SignedDhtRecord {
        key: b"key".to_vec(),
        value: b"val".to_vec(),
        signer_pubkey: [0x01; 32],
        signature: vec![0x00; 64],
    };
    assert!(!record.verify_signature(), "zero signature must be rejected");
}

#[test]
fn signed_record_random_nonzero_signature_rejected() {
    let record = SignedDhtRecord {
        key: b"key".to_vec(),
        value: b"val".to_vec(),
        signer_pubkey: [0x01; 32],
        signature: vec![0x02; 64],
    };
    assert!(!record.verify_signature(), "fake non-zero signature must be rejected");
}

#[test]
fn domain_separation_prevents_cross_context_replay() {
    let record = SignedDhtRecord::sign(b"key".to_vec(), b"value".to_vec(), &[0x42u8; 32]);
    let mut hasher = blake3::Hasher::new();
    hasher.update(b"key");
    hasher.update(b"value");
    hasher.update(&record.signer_pubkey);
    let msg_without_domain = *hasher.finalize().as_bytes();
    let msg_with_domain = SignedDhtRecord::signing_message(b"key", b"value", &record.signer_pubkey);
    assert_ne!(msg_without_domain, msg_with_domain);
}

#[test]
fn signing_message_matches_blake3_of_concatenation() {
    let pk = [3u8; 32];
    let mut data = b"miasma-v1-dht-record-sig".to_vec();
    data.extend_from_slice(b"k");
    data.extend_from_slice(b"v");
    data.extend_from_slice(&pk);
    assert_eq!(SignedDhtRecord::signing_message(b"k", b"v", &pk), *blake3::hash(&data).as_bytes());
}

#[test]
fn short_signature_rejected() {
    let mut record = SignedDhtRecord::sign(b"k".to_vec(), b"v".to_vec(), &[5u8; 32]);
    record.signature.pop();
    assert!(!record.verify_signature());
}

#[test]
fn peer_admission_requires_pow() {
    assert_eq!(check_peer_admission(None, 8), AdmissionResult::RejectedNoPoW);
}

#[test]
fn peer_admission_accepts_valid_pow() {
    let pow = mine_pow([0xAB; 32], 8).unwrap();
    assert_eq!(check_peer_admission(Some(&pow), 8), AdmissionResult::Admitted);
}

#[test]
fn peer_admission_rejects_low_difficulty() {
    let pow = mine_pow([0xAB; 32], 4).unwrap();
    assert_eq!(check_peer_admission(Some(&pow), 8), AdmissionResult::RejectedLowDifficulty);
}

#[test]
fn pow_hash_is_blake3_of_key_and_nonce() {
    let pk = [9u8; 32];
    let mut data = pk.to_vec();
    data.extend_from_slice(&7u64.to_le_bytes());
    assert_eq!(pow_hash(&pk, 7), *blake3::hash(&data).as_bytes());
}

#[test]
fn leading_zero_count() {
    let mut h = [0u8; 32];
    h[1] = 0x10;
    assert_eq!(leading_zeros(&h), 11);
    assert_eq!(leading_zeros(&[0u8; 32]), 256);
}

#[test]
fn peer_admission_rejects_tampered_pow_as_invalid() {
    let pow = mine_pow([0x01; 32], 4).unwrap();
    let mut tampered = pow.clone();
    tampered.hash = [0xFF; 32];
    assert_eq!(check_peer_admission(Some(&tampered), 4), AdmissionResult::RejectedNoPoW);
}
