use vstd::prelude::*;
use chacha20poly1305::aead::Aead;
use chacha20poly1305::KeyInit;
use rand::RngCore;

verus! {

/// XChaCha20-Poly1305 ciphertext (with its 16-byte tag) of `pt` under a key and nonce.
pub uninterp spec fn xchacha_seal(key: Seq<u8>, nonce: Seq<u8>, pt: Seq<u8>) -> Seq<u8>;

/// XChaCha20-Poly1305 decryption of `ct`: the plaintext, or `None` when
/// authentication fails.
pub uninterp spec fn xchacha_open(key: Seq<u8>, nonce: Seq<u8>, ct: Seq<u8>) -> Option<Seq<u8>>;

/// HKDF-SHA256 (no salt) expanded to 32 bytes with `info`.
pub uninterp spec fn hkdf_sha256_32(ikm: Seq<u8>, info: Seq<u8>) -> Seq<u8>;

/// The X25519 public key of a 32-byte secret.
pub uninterp spec fn x25519_public_of(secret: Seq<u8>) -> Seq<u8>;

/// The X25519 shared secret of a secret key and a public key.
pub uninterp spec fn x25519_shared_of(secret: Seq<u8>, public: Seq<u8>) -> Seq<u8>;

/// Encrypt with XChaCha20-Poly1305.
///
/// Calls `XChaCha20Poly1305::new` and `Aead::encrypt`; the ciphertext is
/// named `xchacha_seal`, it is 16 bytes longer than the plaintext (the tag),
/// and decrypting it with the same key and nonce gives the plaintext back.
/// The crate refuses only plaintexts of `u32::MAX` 64-byte blocks or more.
#[verifier::external_body]
pub(crate) fn xchacha_encrypt(key: &[u8; 32], nonce: &[u8; 24], pt: &[u8]) -> (r: Option<Vec<u8>>)
    ensures
        pt@.len() / 64 < 0xffff_ffff ==> r is Some,
        r matches Some(ct) ==> ct@ == xchacha_seal(key@, nonce@, pt@) && ct@.len() == pt@.len() + 16
            && xchacha_open(key@, nonce@, ct@) == Some(pt@),
{
    let cipher = chacha20poly1305::XChaCha20Poly1305::new(key.into());
    cipher.encrypt(chacha20poly1305::XNonce::from_slice(nonce), pt).ok()
}

/// Decrypt with XChaCha20-Poly1305.
///
/// Calls `XChaCha20Poly1305::new` and `Aead::decrypt`; the result is named
/// `xchacha_open` (`None` when the tag does not verify).
#[verifier::external_body]
pub(crate) fn xchacha_decrypt(key: &[u8; 32], nonce: &[u8; 24], ct: &[u8]) -> (r: Option<Vec<u8>>)
    ensures
        match r {
            Some(pt) => xchacha_open(key@, nonce@, ct@) == Some(pt@),
            None => xchacha_open(key@, nonce@, ct@) is None,
        },
{
    let cipher = chacha20poly1305::XChaCha20Poly1305::new(key.into());
    cipher.decrypt(chacha20poly1305::XNonce::from_slice(nonce), ct).ok()
}

/// HKDF-SHA256 with no salt, expanded to 32 bytes.
///
/// Calls `hkdf::Hkdf::<sha2::Sha256>::new(None, ikm)` and `expand`; the key
/// is named `hkdf_sha256_32`. The crate's `expand` fails only for outputs
/// longer than 255 hash blocks, so for 32 bytes it succeeds.
#[verifier::external_body]
pub(crate) fn hkdf_sha256_expand32(ikm: &[u8], info: &[u8]) -> (r: Option<[u8; 32]>)
    ensures
        r is Some,
        r matches Some(k) ==> k@ == hkdf_sha256_32(ikm@, info@),
{
    let hk = hkdf::Hkdf::<sha2::Sha256>::new(None, ikm);
    let mut out = [0u8; 32];
    match hk.expand(info, &mut out) {
        Ok(()) => Some(out),
        Err(_) => None,
    }
}

/// The X25519 public key of a secret.
///
/// Calls `x25519_dalek::PublicKey::from(&StaticSecret::from(secret))`; the
/// result is named `x25519_public_of`.
#[verifier::external_body]
pub(crate) fn x25519_public_key(secret: &[u8; 32]) -> (pk: [u8; 32])
    ensures
        pk@ == x25519_public_of(secret@),
{
    x25519_dalek::PublicKey::from(&x25519_dalek::StaticSecret::from(*secret)).to_bytes()
}

/// The X25519 Diffie-Hellman shared secret.
///
/// Calls `StaticSecret::from(secret).diffie_hellman(&PublicKey::from(public))`;
/// the result is named `x25519_shared_of`, and, as Diffie-Hellman gives,
/// both sides of an exchange derive the same secret.
#[verifier::external_body]
pub(crate) fn x25519_shared(secret: &[u8; 32], public: &[u8; 32]) -> (s: [u8; 32])
    ensures
        s@ == x25519_shared_of(secret@, public@),
        forall|other: Seq<u8>| #[trigger] x25519_public_of(other) == public@ && other.len() == 32
            ==> s@ == x25519_shared_of(other, x25519_public_of(secret@)),
{
    x25519_dalek::StaticSecret::from(*secret).diffie_hellman(&x25519_dalek::PublicKey::from(*public)).to_bytes()
}

/// 16 random bytes.
///
/// Calls `rand::rngs::OsRng.fill_bytes`; nothing is promised of the value.
#[verifier::external_body]
pub(crate) fn random_16() -> (r: [u8; 16])
{
    let mut b = [0u8; 16];
    rand::rngs::OsRng.fill_bytes(&mut b);
    b
}

/// 24 random bytes.
///
/// Calls `rand::rngs::OsRng.fill_bytes`; nothing is promised of the value.
#[verifier::external_body]
pub(crate) fn random_24() -> (r: [u8; 24])
{
    let mut b = [0u8; 24];
    rand::rngs::OsRng.fill_bytes(&mut b);
    b
}

/// 32 random bytes.
///
/// Calls `rand::rngs::OsRng.fill_bytes`; nothing is promised of the value.
#[verifier::external_body]
pub(crate) fn random_32() -> (r: [u8; 32])
{
    let mut b = [0u8; 32];
    rand::rngs::OsRng.fill_bytes(&mut b);
    b
}

/// `n` random bytes.
///
/// Calls `rand::rngs::OsRng.fill_bytes` on a buffer of `n` bytes; only the
/// length is promised.
#[verifier::external_body]
pub(crate) fn random_bytes(n: usize) -> (r: Vec<u8>)
    ensures
        r@.len() == n,
{
    let mut b = vec![0u8; n];
    rand::rngs::OsRng.fill_bytes(&mut b);
    b
}

} // verus!
