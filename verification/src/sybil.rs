use vstd::prelude::*;
use crate::bytes::{extend_bytes, le_seq, u64_le};
use crate::hashing::{blake3_hash, blake3_of};
use crate::signing::{ed25519_public_key, ed25519_public_of, ed25519_sign, ed25519_signature_of, ed25519_valid,
    ed25519_verify, signature_array};
use vstd::utf8::encode_utf8;

verus! {

/// Default PoW difficulty for bootstrap (~256 hashes).
pub const DEFAULT_POW_DIFFICULTY: u8 = 8;

/// Proof-of-Work certificate for node ID registration.
#[derive(Debug, Clone, Copy)]
pub struct NodeIdPoW {
    /// The Ed25519 public key bytes.
    pub pubkey: [u8; 32],
    /// Nonce found during mining.
    pub nonce: u64,
    /// BLAKE3 hash of (pubkey || nonce LE). Must have enough leading zero bits.
    pub hash: [u8; 32],
}

/// Leading zero bits of one byte.
pub open spec fn byte_leading_zeros(b: u8) -> nat {
    if b >= 128 { 0 }
    else if b >= 64 { 1 }
    else if b >= 32 { 2 }
    else if b >= 16 { 3 }
    else if b >= 8 { 4 }
    else if b >= 4 { 5 }
    else if b >= 2 { 6 }
    else if b >= 1 { 7 }
    else { 8 }
}

/// Leading zero bits of a byte string read most significant bit first.
pub open spec fn leading_zero_bits(s: Seq<u8>) -> nat
    decreases s.len(),
{
    if s.len() == 0 {
        0
    } else if s[0] == 0 {
        8 + leading_zero_bits(s.drop_first())
    } else {
        byte_leading_zeros(s[0])
    }
}

fn byte_lz(b: u8) -> (n: u32)
    ensures
        n == byte_leading_zeros(b),
{
    if b >= 128 { 0 }
    else if b >= 64 { 1 }
    else if b >= 32 { 2 }
    else if b >= 16 { 3 }
    else if b >= 8 { 4 }
    else if b >= 4 { 5 }
    else if b >= 2 { 6 }
    else if b >= 1 { 7 }
    else { 8 }
}

/// Count leading zero bits in a 32-byte array.
pub fn leading_zeros(bytes: &[u8; 32]) -> (n: u32)
    ensures
        n == leading_zero_bits(bytes@),
        n <= 256,
{
    let mut i: usize = 0;
    assert(bytes@.skip(0) =~= bytes@);
    while i < 32
        invariant
            i <= 32,
            bytes@.len() == 32,
            forall|j: int| 0 <= j < i ==> bytes@[j] == 0,
            leading_zero_bits(bytes@) == 8 * i + leading_zero_bits(bytes@.skip(i as int)),
        decreases 32 - i,
    {
        let b = bytes[i];
        assert(bytes@.skip(i as int)[0] == b);
        if b != 0 {
            return 8 * (i as u32) + byte_lz(b);
        }
        assert(bytes@.skip(i as int).drop_first() =~= bytes@.skip(i + 1));
        i = i + 1;
    }
    assert(bytes@.skip(32).len() == 0);
    256
}

/// The bytes that a PoW hash is taken over: `pubkey || nonce (LE)`.
pub open spec fn pow_input(pubkey: Seq<u8>, nonce: u64) -> Seq<u8> {
    pubkey + le_seq(nonce as nat, 8)
}

/// Whether a PoW certificate is valid at a difficulty: its hash is the
/// recomputed BLAKE3 and has enough leading zero bits.
pub open spec fn pow_valid(pow: NodeIdPoW, difficulty_bits: u8) -> bool {
    let computed = blake3_of(pow_input(pow.pubkey@, pow.nonce));
    &&& computed == pow.hash@
    &&& leading_zero_bits(computed) >= difficulty_bits
}

/// BLAKE3 of `pubkey || nonce (LE)`.
pub fn pow_hash(pubkey: &[u8; 32], nonce: u64) -> (h: [u8; 32])
    ensures
        h@ == blake3_of(pow_input(pubkey@, nonce)),
{
    let mut input: Vec<u8> = Vec::new();
    extend_bytes(&mut input, pubkey);
    let n = u64_le(nonce);
    extend_bytes(&mut input, n.as_slice());
    assert(input@ =~= pow_input(pubkey@, nonce));
    blake3_hash(input.as_slice())
}

fn hash_eq(a: &[u8; 32], b: &[u8; 32]) -> (r: bool)
    ensures
        r == (a@ == b@),
{
    crate::credential::key32_eq(a, b)
}

/// Verify that a `NodeIdPoW` satisfies the required difficulty. The hash is
/// recomputed; the claimed one is never trusted.
pub fn verify_pow(pow: &NodeIdPoW, difficulty_bits: u8) -> (b: bool)
    ensures
        b == pow_valid(*pow, difficulty_bits),
{
    let computed = pow_hash(&pow.pubkey, pow.nonce);
    if !hash_eq(&computed, &pow.hash) {
        return false;
    }
    leading_zeros(&computed) >= difficulty_bits as u32
}

/// Mine a `NodeIdPoW` for `pubkey`: the first nonce from 0 whose hash has
/// `difficulty_bits` leading zero bits; `None` only if no nonce in the whole
/// `u64` range has one (the search then has tried every nonce).
pub fn mine_pow(pubkey: [u8; 32], difficulty_bits: u8) -> (r: Option<NodeIdPoW>)
    ensures
        match r {
            Some(pow) => pow.pubkey == pubkey && pow_valid(pow, difficulty_bits)
                && forall|n: u64| n < pow.nonce ==> leading_zero_bits(blake3_of(pow_input(pubkey@, n))) < difficulty_bits,
            None => forall|n: u64| leading_zero_bits(blake3_of(pow_input(pubkey@, n))) < difficulty_bits,
        },
{
    let mut nonce: u64 = 0;
    loop
        invariant
            forall|n: u64| n < nonce ==> leading_zero_bits(blake3_of(pow_input(pubkey@, n))) < difficulty_bits,
        decreases u64::MAX - nonce,
    {
        let hash = pow_hash(&pubkey, nonce);
        if leading_zeros(&hash) >= difficulty_bits as u32 {
            return Some(NodeIdPoW { pubkey, nonce, hash });
        }
        if nonce == u64::MAX {
            return None;
        }
        nonce = nonce + 1;
    }
}

// ─── Signed DHT records ─────────────────────────────────────────────────────

/// Domain separator of DHT record signatures.
pub open spec fn dht_record_domain() -> Seq<u8> {
    encode_utf8("miasma-v1-dht-record-sig"@)
}

/// The message a DHT record's signature covers:
/// `BLAKE3(domain || key || value || signer_pubkey)`.
pub open spec fn record_message(key: Seq<u8>, value: Seq<u8>, signer: Seq<u8>) -> Seq<u8> {
    blake3_of(dht_record_domain() + key + value + signer)
}

/// Whether a record's signature verifies: it is 64 bytes long and valid
/// under the claimed signer key for the record's message.
pub open spec fn record_valid(r: SignedDhtRecord) -> bool {
    r.signature@.len() == 64
        && ed25519_valid(r.signer_pubkey@, record_message(r.key@, r.value@, r.signer_pubkey@), r.signature@)
}

/// A DHT record signed by the node that published it.
#[derive(Debug, Clone)]
pub struct SignedDhtRecord {
    /// The key under which this record is stored.
    pub key: Vec<u8>,
    /// The record value.
    pub value: Vec<u8>,
    /// Ed25519 public key of the signing node.
    pub signer_pubkey: [u8; 32],
    /// Ed25519 signature over the signing message (64 bytes).
    pub signature: Vec<u8>,
}

impl SignedDhtRecord {
    /// The message bytes that must be signed.
    pub fn signing_message(key: &[u8], value: &[u8], signer_pubkey: &[u8; 32]) -> (m: [u8; 32])
        ensures
            m@ == record_message(key@, value@, signer_pubkey@),
    {
        let mut data: Vec<u8> = Vec::new();
        extend_bytes(&mut data, "miasma-v1-dht-record-sig".as_bytes());
        extend_bytes(&mut data, key);
        extend_bytes(&mut data, value);
        extend_bytes(&mut data, signer_pubkey.as_slice());
        assert(data@ =~= dht_record_domain() + key@ + value@ + signer_pubkey@);
        blake3_hash(data.as_slice())
    }

    /// Sign `key` and `value` with a 32-byte Ed25519 secret key.
    pub fn sign(key: Vec<u8>, value: Vec<u8>, signing_key: &[u8; 32]) -> (r: Self)
        ensures
            r.key@ == key@,
            r.value@ == value@,
            r.signer_pubkey@ == ed25519_public_of(signing_key@),
            r.signature@ == ed25519_signature_of(signing_key@, record_message(key@, value@, r.signer_pubkey@)),
            record_valid(r),
    {
        let pubkey_bytes = ed25519_public_key(signing_key);
        let msg = Self::signing_message(key.as_slice(), value.as_slice(), &pubkey_bytes);
        let sig = ed25519_sign(signing_key, msg.as_slice());
        let mut signature: Vec<u8> = Vec::new();
        extend_bytes(&mut signature, sig.as_slice());
        assert(signature@ =~= sig@);
        SignedDhtRecord { key, value, signer_pubkey: pubkey_bytes, signature }
    }

    /// Whether the signature is valid for the key, value and signer key.
    pub fn verify_signature(&self) -> (b: bool)
        ensures
            b == record_valid(*self),
    {
        let sig = match signature_array(self.signature.as_slice()) {
            Some(s) => s,
            None => return false,
        };
        let msg = Self::signing_message(self.key.as_slice(), self.value.as_slice(), &self.signer_pubkey);
        ed25519_verify(&self.signer_pubkey, msg.as_slice(), &sig)
    }
}

/// Result of checking whether a peer should be admitted to the routing table.
#[derive(Debug, Clone, Copy, PartialEq, Eq)]
pub enum AdmissionResult {
    /// Peer passed all checks and may participate in routing.
    Admitted,
    /// PoW proof is missing or invalid.
    RejectedNoPoW,
    /// PoW difficulty is insufficient for the current network parameters.
    RejectedLowDifficulty,
}

/// Whether the certificate's claimed hash is the recomputed BLAKE3 of its
/// public key and nonce.
pub open spec fn pow_hash_matches(pow: NodeIdPoW) -> bool {
    blake3_of(pow_input(pow.pubkey@, pow.nonce)) == pow.hash@
}

/// Check whether a peer's PoW proof meets the admission requirements: a
/// missing proof, or one whose hash is not the recomputed one, is
/// `RejectedNoPoW`; a genuine proof with too few leading zero bits is
/// `RejectedLowDifficulty`.
pub fn check_peer_admission(pow: Option<&NodeIdPoW>, difficulty: u8) -> (r: AdmissionResult)
    ensures
        r == match pow {
            None => AdmissionResult::RejectedNoPoW,
            Some(p) => if !pow_hash_matches(*p) {
                AdmissionResult::RejectedNoPoW
            } else if pow_valid(*p, difficulty) {
                AdmissionResult::Admitted
            } else {
                AdmissionResult::RejectedLowDifficulty
            },
        },
        r == AdmissionResult::Admitted <==> (pow matches Some(p) && pow_valid(*p, difficulty)),
{
    match pow {
        None => AdmissionResult::RejectedNoPoW,
        Some(p) => {
            let computed = pow_hash(&p.pubkey, p.nonce);
            if !hash_eq(&computed, &p.hash) {
                AdmissionResult::RejectedNoPoW
            } else if leading_zeros(&computed) >= difficulty as u32 {
                AdmissionResult::Admitted
            } else {
                AdmissionResult::RejectedLowDifficulty
            }
        },
    }
}

/// A certificate valid at some difficulty is valid at every lower one.
pub proof fn lemma_pow_downward_closed(pow: NodeIdPoW, high: u8, low: u8)
    requires
        low <= high,
        pow_valid(pow, high),
    ensures
        pow_valid(pow, low),
{
}

/// A certificate whose claimed hash differs from the recomputed one is
/// rejected at every difficulty.
pub proof fn lemma_pow_tampered_rejected(pow: NodeIdPoW, difficulty: u8)
    requires
        pow.hash@ != blake3_of(pow_input(pow.pubkey@, pow.nonce)),
    ensures
        !pow_valid(pow, difficulty),
{
}

} // verus!
