use vstd::prelude::*;
use ed25519_dalek::{Signer, Verifier};

verus! {

/// The Ed25519 public key of a 32-byte secret key.
pub uninterp spec fn ed25519_public_of(secret: Seq<u8>) -> Seq<u8>;

/// The Ed25519 signature of `msg` under a 32-byte secret key (Ed25519
/// signing is deterministic).
pub uninterp spec fn ed25519_signature_of(secret: Seq<u8>, msg: Seq<u8>) -> Seq<u8>;

/// Whether a 64-byte signature verifies for `msg` under a 32-byte public key
/// (false when the key bytes are not a valid point).
pub uninterp spec fn ed25519_valid(public: Seq<u8>, msg: Seq<u8>, sig: Seq<u8>) -> bool;

/// The public key of a secret key.
///
/// Calls `ed25519_dalek::SigningKey::from_bytes`, `verifying_key` and
/// `VerifyingKey::to_bytes`; the result is named `ed25519_public_of`.
#[verifier::external_body]
pub(crate) fn ed25519_public_key(secret: &[u8; 32]) -> (pk: [u8; 32])
    ensures
        pk@ == ed25519_public_of(secret@),
{
    ed25519_dalek::SigningKey::from_bytes(secret).verifying_key().to_bytes()
}

/// Sign `msg` with a secret key.
///
/// Calls `ed25519_dalek::SigningKey::from_bytes` and `Signer::sign`, then
/// `Signature::to_bytes`; the result is named `ed25519_signature_of`, and, as
/// the crate documents for a signature made by a key, it verifies under that
/// key's public key.
#[verifier::external_body]
pub(crate) fn ed25519_sign(secret: &[u8; 32], msg: &[u8]) -> (sig: [u8; 64])
    ensures
        sig@ == ed25519_signature_of(secret@, msg@),
        ed25519_valid(ed25519_public_of(secret@), msg@, sig@),
{
    ed25519_dalek::SigningKey::from_bytes(secret).sign(msg).to_bytes()
}

/// Verify a signature.
///
/// Calls `ed25519_dalek::VerifyingKey::from_bytes` (false when it fails),
/// `Signature::from_bytes` and `Verifier::verify`; the result is named
/// `ed25519_valid`.
#[verifier::external_body]
pub(crate) fn ed25519_verify(public: &[u8; 32], msg: &[u8], sig: &[u8; 64]) -> (ok: bool)
    ensures
        ok == ed25519_valid(public@, msg@, sig@),
{
    match ed25519_dalek::VerifyingKey::from_bytes(public) {
        Ok(pk) => pk.verify(msg, &ed25519_dalek::Signature::from_bytes(sig)).is_ok(),
        Err(_) => false,
    }
}

/// A fresh random Ed25519 secret key.
///
/// Calls `ed25519_dalek::SigningKey::generate` with `rand::thread_rng` and
/// `SigningKey::to_bytes`; nothing is promised of the value: it is random.
#[verifier::external_body]
pub(crate) fn random_secret_key() -> (secret: [u8; 32])
{
    ed25519_dalek::SigningKey::generate(&mut rand::thread_rng()).to_bytes()
}

/// Copy 64 bytes out of a slice of exactly that length.
pub fn signature_array(v: &[u8]) -> (r: Option<[u8; 64]>)
    ensures
        match r {
            Some(a) => v@.len() == 64 && a@ == v@,
            None => v@.len() != 64,
        },
{
    if v.len() != 64 {
        return None;
    }
    let mut a = [0u8; 64];
    let mut i: usize = 0;
    while i < 64
        invariant
            i <= 64,
            v@.len() == 64,
            a@.len() == 64,
            forall|j: int| 0 <= j < i ==> a@[j] == v@[j],
        decreases 64 - i,
    {
        a[i] = v[i];
        i = i + 1;
    }
    assert(a@ =~= v@);
    Some(a)
}

} // verus!
