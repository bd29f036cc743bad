use vstd::prelude::*;
use crate::credential::{CredentialTier, tier_number};
use crate::bls::{g1_add, g1_base_mul, g1_decodes, g1_difference, g1_identity, g1_is_identity, g1_mul, g1_mul_base,
    g1_neg, g1_negation, g1_scale, g1_sub, g1_sum, g1_valid, g2_base_mul, g2_decodes, g2_mul_base, g2_valid,
    pairing_check, pairing_product_is_one, scalar_add, scalar_canonical, scalar_decodes, scalar_from_u64,
    scalar_from_wide, scalar_invert, scalar_modulus, scalar_mul, scalar_of, scalar_random};
use crate::bytes::{bytes_eq, extend_bytes, le_seq, le_value, lemma_le_roundtrip, lemma_le_seq_len, pow256, u32_le};
use crate::crypto_prims::random_32;
use crate::hashing::{blake3_hash, blake3_of};
use vstd::utf8::encode_utf8;
use crate::wire::{byte_list, bytes_field, pair_list, push_byte_list, push_bytes_field, push_pair_list};

verus! {

/// A zero-knowledge proof of BBS+ credential possession.
#[derive(Debug, Clone)]
pub struct BbsProof {
    /// Randomised signature point A' (compressed G1, 48 bytes).
    pub a_prime: Vec<u8>,
    /// Blinded A point (compressed G1, 48 bytes).
    pub a_bar: Vec<u8>,
    /// Commitment B (compressed G1, 48 bytes).
    pub b_point: Vec<u8>,
    /// Challenge scalar (32 bytes).
    pub challenge: Vec<u8>,
    /// Response for blinding factor s (32 bytes).
    pub response_s: Vec<u8>,
    /// Response scalars for hidden attributes (32 bytes each).
    pub responses: Vec<Vec<u8>>,
    /// Disclosed attribute indices and values.
    pub disclosed: Vec<(usize, u64)>,
    /// Proof domain (binds to verifier context).
    pub domain: Vec<u8>,
}

/// The serialized proof: each byte field length-prefixed, the response list
/// and the disclosed pairs with their counts in front.
pub open spec fn bbs_proof_bytes(p: BbsProof) -> Seq<u8> {
    bytes_field(p.a_prime@) + bytes_field(p.a_bar@) + bytes_field(p.b_point@) + bytes_field(p.challenge@)
        + bytes_field(p.response_s@) + byte_list(p.responses@.map_values(|b: Vec<u8>| b@))
        + pair_list(p.disclosed@) + bytes_field(p.domain@)
}

impl BbsProof {
    /// The serialized proof.
    pub fn to_bytes(&self) -> (v: Vec<u8>)
        ensures
            v@ == bbs_proof_bytes(*self),
    {
        let mut v: Vec<u8> = Vec::new();
        push_bytes_field(&mut v, self.a_prime.as_slice());
        push_bytes_field(&mut v, self.a_bar.as_slice());
        push_bytes_field(&mut v, self.b_point.as_slice());
        push_bytes_field(&mut v, self.challenge.as_slice());
        push_bytes_field(&mut v, self.response_s.as_slice());
        push_byte_list(&mut v, &self.responses);
        push_pair_list(&mut v, &self.disclosed);
        push_bytes_field(&mut v, self.domain.as_slice());
        assert(v@ =~= bbs_proof_bytes(*self));
        v
    }
}

// ─── Attributes, signatures, credentials ────────────────────────────────────

/// Attributes encoded in a BBS+ credential.
#[derive(Debug, Clone, Copy)]
pub struct BbsCredentialAttributes {
    /// Link secret (private, never disclosed).
    pub link_secret: [u8; 32],
    /// Trust tier.
    pub tier: CredentialTier,
    /// Capabilities bitfield.
    pub capabilities: u8,
    /// Epoch of issuance.
    pub epoch: u64,
    /// Issuer-assigned nonce (revocation handle).
    pub nonce: u64,
}

/// A BBS+ signature over the attribute messages.
#[derive(Debug, Clone)]
pub struct BbsSignature {
    /// Point A in G1 (compressed, 48 bytes).
    pub a: Vec<u8>,
    /// Scalar e (32 bytes).
    pub e: Vec<u8>,
    /// Scalar s (blinding factor, 32 bytes).
    pub s: Vec<u8>,
}

/// A BBS+ credential: attributes, signature and the issuer's public key.
#[derive(Debug, Clone)]
pub struct BbsCredential {
    pub attributes: BbsCredentialAttributes,
    pub signature: BbsSignature,
    /// Issuer public key (compressed G2, 96 bytes).
    pub issuer_pk: Vec<u8>,
}

/// Which attributes to disclose in a BBS+ proof (0 = link secret, 1 = tier,
/// 2 = capabilities, 3 = epoch, 4 = nonce; index 0 is never to be revealed).
#[derive(Debug, Clone)]
pub struct DisclosurePolicy {
    pub reveal: Vec<usize>,
}

impl Default for DisclosurePolicy {
    /// Reveal the tier only.
    fn default() -> (p: Self)
        ensures
            p.reveal@ == seq![1usize],
    {
        let mut indices: Vec<usize> = Vec::new();
        indices.push(1);
        assert(indices@ =~= seq![1usize]);
        DisclosurePolicy { reveal: indices }
    }
}

impl DisclosurePolicy {
    /// Reveal tier and capabilities.
    pub fn tier_and_caps() -> (p: Self)
        ensures
            p.reveal@ == seq![1usize, 2usize],
    {
        let mut indices: Vec<usize> = Vec::new();
        indices.push(1);
        indices.push(2);
        assert(indices@ =~= seq![1usize, 2usize]);
        DisclosurePolicy { reveal: indices }
    }

    /// Reveal nothing (pure proof of credential possession).
    pub fn reveal_nothing() -> (p: Self)
        ensures
            p.reveal@ == Seq::<usize>::empty(),
    {
        DisclosurePolicy { reveal: Vec::new() }
    }
}

// ─── Errors ─────────────────────────────────────────────────────────────────

/// Why a BBS+ operation failed.
#[derive(Debug, Clone, Copy, PartialEq, Eq)]
pub enum BbsError {
    InvalidIssuerKey,
    InvalidProof,
    ProofVerificationFailed,
    /// Pairing check failed: credential was not signed by the claimed issuer.
    IssuerBindingFailed,
    LinkSecretDisclosed,
}

/// The message of each BBS+ error.
pub open spec fn bbs_error_text(e: BbsError) -> Seq<char> {
    match e {
        BbsError::InvalidIssuerKey => "invalid BBS+ issuer public key"@,
        BbsError::InvalidProof => "invalid BBS+ proof structure"@,
        BbsError::ProofVerificationFailed => "BBS+ proof verification failed"@,
        BbsError::IssuerBindingFailed => "BBS+ pairing check failed: wrong issuer"@,
        BbsError::LinkSecretDisclosed => "link secret must not be disclosed"@,
    }
}

impl BbsError {
    /// The human-readable message.
    pub fn to_string(&self) -> (s: String)
        ensures
            s@ == bbs_error_text(*self),
    {
        let t = match self {
            BbsError::InvalidIssuerKey => "invalid BBS+ issuer public key",
            BbsError::InvalidProof => "invalid BBS+ proof structure",
            BbsError::ProofVerificationFailed => "BBS+ proof verification failed",
            BbsError::IssuerBindingFailed => "BBS+ pairing check failed: wrong issuer",
            BbsError::LinkSecretDisclosed => "link secret must not be disclosed",
        };
        crate::text::owned(t)
    }
}

// ─── Link secret ────────────────────────────────────────────────────────────

/// A new random link secret.
pub fn generate_link_secret() -> (s: [u8; 32])
{
    random_32()
}


// ─── Scalars and generators ─────────────────────────────────────────────────

/// Number of messages in a BBS+ credential.
pub const NUM_MESSAGES: usize = 5;

/// Number of generators: g1, h0 (blinding) and one per message.
pub const TOTAL_GENERATORS: usize = 7;

/// Domain separator for hashing to a scalar.
pub open spec fn h2s_domain() -> Seq<u8> {
    encode_utf8("miasma-bbs-h2s-v1"@)
}

/// Domain separator for the proof challenge.
pub open spec fn challenge_domain() -> Seq<u8> {
    encode_utf8("miasma-bbs-challenge-v1"@)
}

/// Prefix of the generator seeds.
pub open spec fn generator_seed_prefix() -> Seq<u8> {
    encode_utf8("miasma-bbs-gen-v1-"@)
}

/// Hash bytes to a scalar: `h1 = BLAKE3(domain || data)`,
/// `h2 = BLAKE3(domain || h1)`, and `h1 || h2` reduced modulo `r`.
pub open spec fn hash_to_scalar_spec(data: Seq<u8>) -> Seq<u8> {
    let h1 = blake3_of(h2s_domain() + data);
    let h2 = blake3_of(h2s_domain() + h1);
    scalar_of(le_value(h1 + h2))
}

/// The `i`-th generator: the base point times the hash-to-scalar of
/// `BLAKE3(prefix || i as u32 LE)`.
pub open spec fn generator_spec(i: nat) -> Seq<u8> {
    g1_base_mul(hash_to_scalar_spec(blake3_of(generator_seed_prefix() + le_seq(i, 4))))
}

/// Every reduced value is a canonical scalar encoding of itself.
pub proof fn lemma_scalar_of_canonical(x: nat)
    ensures
        scalar_canonical(scalar_of(x)),
        le_value(scalar_of(x)) == x % scalar_modulus(),
{
    assert(pow256(32) == 0x10000000000000000000000000000000000000000000000000000000000000000nat) by {
        reveal_with_fuel(pow256, 33);
    }
    lemma_le_seq_len(x % scalar_modulus(), 32);
    lemma_le_roundtrip(x % scalar_modulus(), 32);
}

/// The scalar one.
pub open spec fn scalar_one() -> Seq<u8> {
    scalar_of(1)
}

fn copy32(b: &[u8], start: usize) -> (r: [u8; 32])
    requires
        start + 32 <= b@.len(),
    ensures
        r@ == b@.subrange(start as int, start + 32),
{
    let mut r = [0u8; 32];
    let mut i: usize = 0;
    let n = b.len();
    while i < 32
        invariant
            i <= 32,
            n == b@.len(),
            start + 32 <= b@.len(),
            r@.len() == 32,
            forall|j: int| 0 <= j < i ==> r@[j] == b@[start + j],
        decreases 32 - i,
    {
        r[i] = b[start + i];
        i = i + 1;
    }
    assert(r@ =~= b@.subrange(start as int, start + 32));
    r
}

fn copy48(b: &[u8]) -> (r: [u8; 48])
    requires
        b@.len() == 48,
    ensures
        r@ == b@,
{
    let mut r = [0u8; 48];
    let mut i: usize = 0;
    while i < 48
        invariant
            i <= 48,
            b@.len() == 48,
            r@.len() == 48,
            forall|j: int| 0 <= j < i ==> r@[j] == b@[j],
        decreases 48 - i,
    {
        r[i] = b[i];
        i = i + 1;
    }
    assert(r@ =~= b@);
    r
}

fn array_to_vec(a: &[u8]) -> (v: Vec<u8>)
    ensures
        v@ == a@,
{
    let mut v: Vec<u8> = Vec::new();
    extend_bytes(&mut v, a);
    assert(v@ =~= a@);
    v
}

/// Hash arbitrary bytes to a scalar.
pub fn hash_to_scalar(data: &[u8]) -> (r: [u8; 32])
    ensures
        r@ == hash_to_scalar_spec(data@),
        scalar_canonical(r@),
{
    let mut in1: Vec<u8> = Vec::new();
    extend_bytes(&mut in1, "miasma-bbs-h2s-v1".as_bytes());
    extend_bytes(&mut in1, data);
    assert(in1@ =~= h2s_domain() + data@);
    let h1 = blake3_hash(in1.as_slice());
    let mut in2: Vec<u8> = Vec::new();
    extend_bytes(&mut in2, "miasma-bbs-h2s-v1".as_bytes());
    extend_bytes(&mut in2, h1.as_slice());
    assert(in2@ =~= h2s_domain() + h1@);
    let h2 = blake3_hash(in2.as_slice());
    let mut wide = [0u8; 64];
    let mut i: usize = 0;
    while i < 32
        invariant
            i <= 32,
            wide@.len() == 64,
            h1@.len() == 32,
            h2@.len() == 32,
            forall|j: int| 0 <= j < i ==> wide@[j] == h1@[j] && wide@[32 + j] == h2@[j],
        decreases 32 - i,
    {
        wide[i] = h1[i];
        wide[32 + i] = h2[i];
        i = i + 1;
    }
    assert(wide@ =~= h1@ + h2@);
    let r = scalar_from_wide(&wide);
    proof {
        lemma_scalar_of_canonical(le_value(h1@ + h2@));
    }
    r
}

/// The deterministic generators `g1, h0, h1..h5`.
pub fn generators() -> (g: Vec<[u8; 48]>)
    ensures
        g@.len() == TOTAL_GENERATORS,
        forall|i: int| 0 <= i < TOTAL_GENERATORS ==> (#[trigger] g@[i])@ == generator_spec(i as nat)
            && g1_valid(g@[i]@),
{
    let mut g: Vec<[u8; 48]> = Vec::new();
    let mut i: u32 = 0;
    while i < 7
        invariant
            i <= 7,
            g@.len() == i,
            forall|j: int| 0 <= j < i ==> (#[trigger] g@[j])@ == generator_spec(j as nat) && g1_valid(g@[j]@),
        decreases 7 - i,
    {
        let mut input: Vec<u8> = Vec::new();
        extend_bytes(&mut input, "miasma-bbs-gen-v1-".as_bytes());
        let n = u32_le(i);
        extend_bytes(&mut input, n.as_slice());
        assert(input@ =~= generator_seed_prefix() + le_seq(i as nat, 4));
        let hash = blake3_hash(input.as_slice());
        let scalar = hash_to_scalar(hash.as_slice());
        let pt = g1_mul_base(&scalar);
        g.push(pt);
        i = i + 1;
    }
    g
}


// ─── Messages, keys, signatures ─────────────────────────────────────────────

/// The value of attribute `i` as disclosed: tier number, capabilities,
/// epoch, nonce for 1..4, and 0 for any other index.
pub open spec fn attribute_value(a: BbsCredentialAttributes, i: nat) -> u64 {
    if i == 1 {
        tier_number(a.tier)
    } else if i == 2 {
        a.capabilities as u64
    } else if i == 3 {
        a.epoch
    } else if i == 4 {
        a.nonce
    } else {
        0
    }
}

/// The signed messages of the attributes: the hashed link secret, then the
/// tier number, capabilities, epoch and nonce as scalars.
pub open spec fn messages_spec(a: BbsCredentialAttributes) -> Seq<Seq<u8>> {
    seq![hash_to_scalar_spec(a.link_secret@), scalar_of(tier_number(a.tier) as nat),
        scalar_of(a.capabilities as nat), scalar_of(a.epoch as nat), scalar_of(a.nonce as nat)]
}

/// The commitment `g1 + s*h0 + m[0]*h1 + ... + m[k-1]*hk`.
pub open spec fn commitment_spec(s: Seq<u8>, m: Seq<Seq<u8>>, k: nat) -> Seq<u8>
    decreases k,
{
    if k == 0 {
        g1_sum(generator_spec(0), g1_scale(generator_spec(1), s))
    } else {
        g1_sum(commitment_spec(s, m, (k - 1) as nat), g1_scale(generator_spec(k + 1), m[k - 1]))
    }
}

/// Whether `gv` are the generators.
pub open spec fn generators_ok(gv: Seq<[u8; 48]>) -> bool {
    gv.len() == TOTAL_GENERATORS
        && forall|i: int| 0 <= i < TOTAL_GENERATORS ==> (#[trigger] gv[i])@ == generator_spec(i as nat)
            && g1_valid(gv[i]@)
}

/// The views of scalar arrays.
pub open spec fn scalar_views(v: Seq<[u8; 32]>) -> Seq<Seq<u8>> {
    v.map_values(|x: [u8; 32]| x@)
}

impl BbsCredentialAttributes {
    /// The attributes as the five signed scalar messages.
    pub fn to_messages(&self) -> (m: Vec<[u8; 32]>)
        ensures
            m@.len() == NUM_MESSAGES,
            scalar_views(m@) == messages_spec(*self),
            forall|i: int| 0 <= i < m@.len() ==> scalar_canonical((#[trigger] m@[i])@),
    {
        let mut m: Vec<[u8; 32]> = Vec::new();
        m.push(hash_to_scalar(self.link_secret.as_slice()));
        m.push(scalar_from_u64(self.tier.number()));
        m.push(scalar_from_u64(self.capabilities as u64));
        m.push(scalar_from_u64(self.epoch));
        m.push(scalar_from_u64(self.nonce));
        proof {
            lemma_scalar_of_canonical(tier_number(self.tier) as nat);
            lemma_scalar_of_canonical(self.capabilities as nat);
            lemma_scalar_of_canonical(self.epoch as nat);
            lemma_scalar_of_canonical(self.nonce as nat);
            assert(scalar_views(m@) =~= messages_spec(*self));
        }
        m
    }
}

/// `g1 + s*h0 + m[0]*h1 + ... + m[4]*h5`.
fn commitment(gv: &Vec<[u8; 48]>, s: &[u8; 32], m: &Vec<[u8; 32]>) -> (r: [u8; 48])
    requires
        generators_ok(gv@),
        scalar_canonical(s@),
        m@.len() == NUM_MESSAGES,
        forall|i: int| 0 <= i < m@.len() ==> scalar_canonical((#[trigger] m@[i])@),
    ensures
        r@ == commitment_spec(s@, scalar_views(m@), NUM_MESSAGES as nat),
        g1_valid(r@),
{
    assert(g1_valid(gv@[0]@) && g1_valid(gv@[1]@));
    let sh = g1_mul(&gv[1], s);
    let mut b = g1_add(&gv[0], &sh);
    let mut i: usize = 0;
    while i < NUM_MESSAGES
        invariant
            generators_ok(gv@),
            m@.len() == NUM_MESSAGES,
            forall|j: int| 0 <= j < m@.len() ==> scalar_canonical((#[trigger] m@[j])@),
            i <= NUM_MESSAGES,
            b@ == commitment_spec(s@, scalar_views(m@), i as nat),
            g1_valid(b@),
        decreases NUM_MESSAGES - i,
    {
        assert(g1_valid(gv@[i + 2]@));
        assert(scalar_canonical(m@[i as int]@));
        let term = g1_mul(&gv[i + 2], &m[i]);
        b = g1_add(&b, &term);
        i = i + 1;
    }
    b
}

/// BBS+ issuer keypair: a secret scalar and its public G2 point.
#[derive(Debug, Clone, Copy)]
pub struct BbsIssuerKey {
    sk: [u8; 32],
    /// Public key in G2 (compressed).
    pub pk: [u8; 96],
}

impl BbsIssuerKey {
    /// The secret scalar.
    pub closed spec fn secret(&self) -> Seq<u8> {
        self.sk@
    }

    /// The public key.
    pub closed spec fn public(&self) -> [u8; 96] {
        self.pk
    }

    /// The secret is a canonical scalar.
    pub closed spec fn wf(&self) -> bool {
        scalar_canonical(self.sk@)
    }

    /// The keypair of `seed`: the secret is its hash to a scalar.
    pub fn from_seed(seed: &[u8]) -> (k: Self)
        ensures
            k.wf(),
            k.secret() == hash_to_scalar_spec(seed@),
            k.public()@ == g2_base_mul(k.secret()),
            g2_valid(k.public()@),
    {
        let sk = hash_to_scalar(seed);
        let pk = g2_mul_base(&sk);
        BbsIssuerKey { sk, pk }
    }

    /// A random keypair.
    pub fn generate() -> (k: Self)
        ensures
            k.wf(),
            k.public()@ == g2_base_mul(k.secret()),
            g2_valid(k.public()@),
    {
        let sk = scalar_random();
        let pk = g2_mul_base(&sk);
        BbsIssuerKey { sk, pk }
    }

    /// Public key bytes (compressed G2 point).
    pub fn pk_bytes(&self) -> (b: [u8; 96])
        ensures
            b == self.public(),
    {
        self.pk
    }
}

/// Whether `inv` is what signing divides by: the inverse of `sk + e`, or
/// one when that sum is zero.
pub open spec fn signing_inverse(sk: Seq<u8>, e: Seq<u8>, inv: Seq<u8>) -> bool {
    let sum = scalar_of(le_value(sk) + le_value(e));
    &&& le_value(sum) == 0 ==> inv == scalar_one()
    &&& le_value(sum) != 0 ==> scalar_canonical(inv)
        && (le_value(inv) * le_value(sum)) % scalar_modulus() == 1
}

/// Whether `sig` is a signature of `m` by the secret `sk`: `e` and `s` are
/// canonical scalars and `A = (1/(sk+e)) * (g1 + s*h0 + sum m_i*h_i)`.
pub open spec fn signed_with(sk: Seq<u8>, m: Seq<Seq<u8>>, sig: BbsSignature) -> bool {
    &&& scalar_canonical(sig.e@)
    &&& scalar_canonical(sig.s@)
    &&& sig.a@.len() == 48
    &&& exists|inv: Seq<u8>| signing_inverse(sk, sig.e@, inv)
        && #[trigger] g1_scale(commitment_spec(sig.s@, m, NUM_MESSAGES as nat), inv) == sig.a@
}

impl BbsSignature {
    /// Sign the five messages with the issuer key, with fresh random `e`
    /// and `s`.
    pub fn sign(issuer: &BbsIssuerKey, messages: &Vec<[u8; 32]>) -> (sig: Self)
        requires
            issuer.wf(),
            messages@.len() == NUM_MESSAGES,
            forall|i: int| 0 <= i < messages@.len() ==> scalar_canonical((#[trigger] messages@[i])@),
        ensures
            signed_with(issuer.secret(), scalar_views(messages@), sig),
    {
        let gv = generators();
        let e = scalar_random();
        let s = scalar_random();
        let b = commitment(&gv, &s, messages);
        let sum = scalar_add(&issuer.sk, &e);
        proof {
            lemma_scalar_of_canonical(le_value(issuer.sk@) + le_value(e@));
        }
        let inv = match scalar_invert(&sum) {
            Some(x) => x,
            None => scalar_from_u64(1),
        };
        proof {
            lemma_scalar_of_canonical(1);
        }
        let a = g1_mul(&b, &inv);
        let sig = BbsSignature { a: array_to_vec(a.as_slice()), e: array_to_vec(e.as_slice()), s: array_to_vec(s.as_slice()) };
        assert(g1_scale(commitment_spec(sig.s@, scalar_views(messages@), NUM_MESSAGES as nat), inv@) == sig.a@);
        sig
    }
}

/// Issues BBS+ credentials.
#[derive(Debug, Clone, Copy)]
pub struct BbsIssuer {
    key: BbsIssuerKey,
}

impl BbsIssuer {
    /// The issuer's key.
    pub closed spec fn issuer_key(&self) -> BbsIssuerKey {
        self.key
    }

    /// An issuer with the given key.
    pub fn new(key: BbsIssuerKey) -> (i: Self)
        ensures
            i.issuer_key() == key,
    {
        BbsIssuer { key }
    }

    /// Issue a credential for the attributes: signed over their messages,
    /// carrying the issuer's public key.
    pub fn issue(&self, attributes: BbsCredentialAttributes) -> (c: BbsCredential)
        requires
            self.issuer_key().wf(),
        ensures
            c.attributes == attributes,
            c.issuer_pk@ == self.issuer_key().public()@,
            signed_with(self.issuer_key().secret(), messages_spec(attributes), c.signature),
    {
        let messages = attributes.to_messages();
        let signature = BbsSignature::sign(&self.key, &messages);
        let pk = self.key.pk_bytes();
        BbsCredential { attributes, signature, issuer_pk: array_to_vec(pk.as_slice()) }
    }

    /// Public key bytes.
    pub fn pk_bytes(&self) -> (b: [u8; 96])
        ensures
            b == self.issuer_key().public(),
    {
        self.key.pk_bytes()
    }
}


// ─── Proofs ─────────────────────────────────────────────────────────────────

/// A scalar read from stored bytes: the first 32 bytes when they are a
/// canonical encoding, else the hash of all the bytes.
pub open spec fn deser_scalar_spec(b: Seq<u8>) -> Seq<u8> {
    if b.len() >= 32 && scalar_canonical(b.subrange(0, 32)) {
        b.subrange(0, 32)
    } else {
        hash_to_scalar_spec(b)
    }
}

/// A G1 point read from stored bytes: the bytes when they are a valid
/// 48-byte encoding, else the generator.
pub open spec fn deser_g1_spec(b: Seq<u8>) -> Seq<u8> {
    if b.len() == 48 && g1_valid(b) {
        b
    } else {
        g1_base_mul(scalar_one())
    }
}

/// The indices below `n` that `reveal` does not list, in order.
pub open spec fn hidden_upto(shown: Seq<usize>, n: nat) -> Seq<usize>
    decreases n,
{
    if n == 0 {
        Seq::empty()
    } else {
        hidden_upto(shown, (n - 1) as nat) + if shown.contains((n - 1) as usize) {
            Seq::<usize>::empty()
        } else {
            seq![(n - 1) as usize]
        }
    }
}

/// The hidden attribute indices: those of the five not revealed.
pub open spec fn hidden_spec(shown: Seq<usize>) -> Seq<usize> {
    hidden_upto(shown, NUM_MESSAGES as nat)
}

/// The disclosed `(index, value)` pairs, in the policy's order.
pub open spec fn disclosed_spec(a: BbsCredentialAttributes, shown: Seq<usize>) -> Seq<(usize, u64)> {
    shown.map_values(|i: usize| (i, attribute_value(a, i as nat)))
}

/// `x + c*y mod r`, computed as the product and then the sum.
pub open spec fn scalar_mul_add(x: Seq<u8>, c: Seq<u8>, y: Seq<u8>) -> Seq<u8> {
    scalar_of(le_value(x) + le_value(scalar_of(le_value(c) * le_value(y))))
}

/// The commitment to the blindings: `bs*h0 + sum bl[j]*h_{hidden[j]+1}`.
pub open spec fn blinded_sum(bs: Seq<u8>, bl: Seq<Seq<u8>>, hidden: Seq<usize>, k: nat) -> Seq<u8>
    decreases k,
{
    if k == 0 {
        g1_scale(generator_spec(1), bs)
    } else {
        g1_sum(blinded_sum(bs, bl, hidden, (k - 1) as nat), g1_scale(generator_spec((hidden[k - 1] + 2) as nat), bl[k - 1]))
    }
}

/// The challenge of a proof: the hash to a scalar of the challenge domain,
/// `A'`, `A_bar`, `B`, `t` and the context.
pub open spec fn challenge_spec(a_prime: Seq<u8>, a_bar: Seq<u8>, b: Seq<u8>, t: Seq<u8>, ctx: Seq<u8>) -> Seq<u8> {
    hash_to_scalar_spec(challenge_domain() + a_prime + a_bar + b + t + ctx)
}

/// Whether the proof's challenge and responses come from the blindings
/// `bs` (for `s`) and `bl` (for the hidden messages).
pub open spec fn responses_from(p: BbsProof, bs: Seq<u8>, bl: Seq<Seq<u8>>, hidden: Seq<usize>, s: Seq<u8>,
    m: Seq<Seq<u8>>, ctx: Seq<u8>) -> bool {
    let t = blinded_sum(bs, bl, hidden, hidden.len());
    let c = challenge_spec(p.a_prime@, p.a_bar@, p.b_point@, t, ctx);
    &&& scalar_canonical(bs)
    &&& bl.len() == hidden.len()
    &&& forall|j: int| 0 <= j < bl.len() ==> scalar_canonical(#[trigger] bl[j])
    &&& p.challenge@ == c
    &&& p.response_s@ == scalar_mul_add(bs, c, s)
    &&& p.responses@.len() == hidden.len()
    &&& forall|j: int| 0 <= j < hidden.len() ==> (#[trigger] p.responses@[j])@ == scalar_mul_add(bl[j], c, m[hidden[j] as int])
}

/// Whether `p` is a proof of `cred` made under `policy` and `ctx`, for some
/// values of its random choices `r1`, `bs` and `bl`.
pub open spec fn proof_of(cred: BbsCredential, shown: Seq<usize>, ctx: Seq<u8>, p: BbsProof) -> bool {
    let m = messages_spec(cred.attributes);
    let s = deser_scalar_spec(cred.signature.s@);
    let e = deser_scalar_spec(cred.signature.e@);
    let b = commitment_spec(s, m, NUM_MESSAGES as nat);
    let hidden = hidden_spec(shown);
    &&& p.disclosed@ == disclosed_spec(cred.attributes, shown)
    &&& p.domain@ == ctx
    &&& p.b_point@ == b
    &&& exists|r1: Seq<u8>| scalar_canonical(r1)
        && #[trigger] g1_scale(deser_g1_spec(cred.signature.a@), r1) == p.a_prime@
        && p.a_bar@ == g1_difference(g1_scale(b, r1), g1_scale(p.a_prime@, e))
    &&& exists|bs: Seq<u8>, bl: Seq<Seq<u8>>| #[trigger] responses_from(p, bs, bl, hidden, s, m, ctx)
}

fn deserialize_scalar(bytes: &[u8]) -> (r: [u8; 32])
    ensures
        r@ == deser_scalar_spec(bytes@),
        scalar_canonical(r@),
{
    if bytes.len() >= 32 {
        let arr = copy32(bytes, 0);
        if scalar_decodes(&arr) {
            return arr;
        }
    }
    hash_to_scalar(bytes)
}

fn deserialize_g1(bytes: &[u8]) -> (r: [u8; 48])
    ensures
        r@ == deser_g1_spec(bytes@),
        g1_valid(r@),
{
    if bytes.len() == 48 {
        let arr = copy48(bytes);
        if g1_decodes(&arr) {
            return arr;
        }
    }
    let one = scalar_from_u64(1);
    proof {
        lemma_scalar_of_canonical(1);
    }
    g1_mul_base(&one)
}

fn contains_index(v: &Vec<usize>, x: usize) -> (r: bool)
    ensures
        r == v@.contains(x),
{
    let mut i: usize = 0;
    while i < v.len()
        invariant
            i <= v@.len(),
            forall|j: int| 0 <= j < i ==> v@[j] != x,
        decreases v@.len() - i,
    {
        if v[i] == x {
            assert(v@[i as int] == x);
            return true;
        }
        i = i + 1;
    }
    false
}

fn hidden_indices(shown: &Vec<usize>) -> (h: Vec<usize>)
    ensures
        h@ == hidden_spec(shown@),
        forall|j: int| 0 <= j < h@.len() ==> (#[trigger] h@[j]) < NUM_MESSAGES,
{
    let mut h: Vec<usize> = Vec::new();
    let mut i: usize = 0;
    while i < NUM_MESSAGES
        invariant
            i <= NUM_MESSAGES,
            h@ == hidden_upto(shown@, i as nat),
            forall|j: int| 0 <= j < h@.len() ==> (#[trigger] h@[j]) < i,
        decreases NUM_MESSAGES - i,
    {
        if !contains_index(shown, i) {
            h.push(i);
        }
        assert(h@ =~= hidden_upto(shown@, (i + 1) as nat));
        i = i + 1;
    }
    h
}

impl BbsCredentialAttributes {
    /// The value disclosed for attribute `i`.
    pub fn value_of(&self, i: usize) -> (v: u64)
        ensures
            v == attribute_value(*self, i as nat),
    {
        if i == 1 {
            self.tier.number()
        } else if i == 2 {
            self.capabilities as u64
        } else if i == 3 {
            self.epoch
        } else if i == 4 {
            self.nonce
        } else {
            0
        }
    }
}

fn challenge_of(a_prime: &[u8; 48], a_bar: &[u8; 48], b: &[u8; 48], t: &[u8; 48], ctx: &[u8]) -> (c: [u8; 32])
    ensures
        c@ == challenge_spec(a_prime@, a_bar@, b@, t@, ctx@),
        scalar_canonical(c@),
{
    let mut input: Vec<u8> = Vec::new();
    extend_bytes(&mut input, "miasma-bbs-challenge-v1".as_bytes());
    extend_bytes(&mut input, a_prime.as_slice());
    extend_bytes(&mut input, a_bar.as_slice());
    extend_bytes(&mut input, b.as_slice());
    extend_bytes(&mut input, t.as_slice());
    extend_bytes(&mut input, ctx);
    assert(input@ =~= challenge_domain() + a_prime@ + a_bar@ + b@ + t@ + ctx@);
    hash_to_scalar(input.as_slice())
}

fn mul_add(x: &[u8; 32], c: &[u8; 32], y: &[u8; 32]) -> (r: [u8; 32])
    requires
        scalar_canonical(x@),
        scalar_canonical(c@),
        scalar_canonical(y@),
    ensures
        r@ == scalar_mul_add(x@, c@, y@),
        scalar_canonical(r@),
{
    let cy = scalar_mul(c, y);
    proof {
        lemma_scalar_of_canonical(le_value(c@) * le_value(y@));
        lemma_scalar_of_canonical(le_value(x@) + le_value(cy@));
    }
    scalar_add(x, &cy)
}

/// Generate a BBS+ proof of credential possession with selective
/// disclosure: the attributes `policy` reveals are disclosed with their
/// values, the others are proven with fresh random blindings.
pub fn bbs_create_proof(credential: &BbsCredential, policy: &DisclosurePolicy, context: &[u8]) -> (p: BbsProof)
    ensures
        proof_of(*credential, policy.reveal@, context@, p),
        p.a_prime@.len() == 48 && p.a_bar@.len() == 48 && p.b_point@.len() == 48,
        p.challenge@.len() == 32 && p.response_s@.len() == 32,
        forall|j: int| 0 <= j < p.responses@.len() ==> (#[trigger] p.responses@[j])@.len() == 32,
{
    let messages = credential.attributes.to_messages();
    let s_scalar = deserialize_scalar(credential.signature.s.as_slice());
    let hidden = hidden_indices(&policy.reveal);
    let mut disclosed: Vec<(usize, u64)> = Vec::new();
    let mut k: usize = 0;
    while k < policy.reveal.len()
        invariant
            k <= policy.reveal@.len(),
            disclosed@ == disclosed_spec(credential.attributes, policy.reveal@.subrange(0, k as int)),
        decreases policy.reveal@.len() - k,
    {
        let i = policy.reveal[k];
        disclosed.push((i, credential.attributes.value_of(i)));
        assert(policy.reveal@.subrange(0, k + 1) =~= policy.reveal@.subrange(0, k as int).push(i));
        assert(disclosed@ =~= disclosed_spec(credential.attributes, policy.reveal@.subrange(0, k + 1)));
        k = k + 1;
    }
    assert(policy.reveal@.subrange(0, policy.reveal@.len() as int) =~= policy.reveal@);
    let gv = generators();
    let b_point = commitment(&gv, &s_scalar, &messages);
    let r1 = scalar_random();
    let a_point = deserialize_g1(credential.signature.a.as_slice());
    let a_prime = g1_mul(&a_point, &r1);
    let e_scalar = deserialize_scalar(credential.signature.e.as_slice());
    let br = g1_mul(&b_point, &r1);
    let ae = g1_mul(&a_prime, &e_scalar);
    let a_bar = g1_sub(&br, &ae);
    let blind_s = scalar_random();
    let mut blindings: Vec<[u8; 32]> = Vec::new();
    assert(g1_valid(gv@[1]@));
    let mut t = g1_mul(&gv[1], &blind_s);
    let mut j: usize = 0;
    while j < hidden.len()
        invariant
            generators_ok(gv@),
            forall|q: int| 0 <= q < hidden@.len() ==> (#[trigger] hidden@[q]) < NUM_MESSAGES,
            j <= hidden@.len(),
            blindings@.len() == j,
            forall|q: int| 0 <= q < j ==> scalar_canonical((#[trigger] blindings@[q])@),
            t@ == blinded_sum(blind_s@, scalar_views(blindings@), hidden@, j as nat),
            g1_valid(t@),
        decreases hidden@.len() - j,
    {
        let bl = scalar_random();
        let ghost old_sv = scalar_views(blindings@);
        blindings.push(bl);
        let idx = hidden[j];
        assert(idx < NUM_MESSAGES);
        assert(g1_valid(gv@[idx + 2]@));
        let term = g1_mul(&gv[idx + 2], &bl);
        t = g1_add(&t, &term);
        proof {
            let sv = scalar_views(blindings@);
            assert(sv[j as int] == bl@);
            lemma_blinded_sum_prefix(blind_s@, sv, old_sv, hidden@, j as nat);
            assert(gv@[idx + 2]@ == generator_spec((hidden@[j as int] + 2) as nat));
        }
        j = j + 1;
    }
    let challenge = challenge_of(&a_prime, &a_bar, &b_point, &t, context);
    let resp_s = mul_add(&blind_s, &challenge, &s_scalar);
    let mut responses: Vec<Vec<u8>> = Vec::new();
    let mut q: usize = 0;
    while q < hidden.len()
        invariant
            q <= hidden@.len(),
            blindings@.len() == hidden@.len(),
            messages@.len() == NUM_MESSAGES,
            forall|x: int| 0 <= x < hidden@.len() ==> (#[trigger] hidden@[x]) < NUM_MESSAGES,
            forall|x: int| 0 <= x < blindings@.len() ==> scalar_canonical((#[trigger] blindings@[x])@),
            forall|x: int| 0 <= x < messages@.len() ==> scalar_canonical((#[trigger] messages@[x])@),
            scalar_canonical(challenge@),
            responses@.len() == q,
            forall|x: int| 0 <= x < q ==> (#[trigger] responses@[x])@ == scalar_mul_add(blindings@[x]@,
                challenge@, messages@[hidden@[x] as int]@) && responses@[x]@.len() == 32,
        decreases hidden@.len() - q,
    {
        let idx = hidden[q];
        assert(scalar_canonical(blindings@[q as int]@));
        assert(scalar_canonical(messages@[idx as int]@));
        let r = mul_add(&blindings[q], &challenge, &messages[idx]);
        responses.push(array_to_vec(r.as_slice()));
        q = q + 1;
    }
    let p = BbsProof {
        a_prime: array_to_vec(a_prime.as_slice()),
        a_bar: array_to_vec(a_bar.as_slice()),
        b_point: array_to_vec(b_point.as_slice()),
        challenge: array_to_vec(challenge.as_slice()),
        response_s: array_to_vec(resp_s.as_slice()),
        responses,
        disclosed,
        domain: array_to_vec(context),
    };
    proof {
        let m = messages_spec(credential.attributes);
        assert(scalar_views(messages@) == m);
        assert(g1_scale(deser_g1_spec(credential.signature.a@), r1@) == p.a_prime@);
        let bl = scalar_views(blindings@);
        assert forall|x: int| 0 <= x < hidden@.len() implies (#[trigger] p.responses@[x])@
            == scalar_mul_add(bl[x], p.challenge@, m[hidden@[x] as int]) by {
            assert(bl[x] == blindings@[x]@);
            assert(m[hidden@[x] as int] == messages@[hidden@[x] as int]@);
        }
        assert(responses_from(p, blind_s@, bl, hidden@, s_scalar@, m, context@));
    }
    p
}

/// The blinded sum over the first `k` entries depends only on them.
proof fn lemma_blinded_sum_prefix(bs: Seq<u8>, a: Seq<Seq<u8>>, b: Seq<Seq<u8>>, hidden: Seq<usize>, k: nat)
    requires
        k <= b.len(),
        k <= a.len(),
        forall|i: int| 0 <= i < k ==> a[i] == b[i],
    ensures
        blinded_sum(bs, a, hidden, k) == blinded_sum(bs, b, hidden, k),
    decreases k,
{
    if k > 0 {
        lemma_blinded_sum_prefix(bs, a, b, hidden, (k - 1) as nat);
    }
}


// ─── Verification ───────────────────────────────────────────────────────────

/// The indices of the disclosed pairs.
pub open spec fn disclosed_indices(d: Seq<(usize, u64)>) -> Seq<usize> {
    d.map_values(|x: (usize, u64)| x.0)
}

/// `g1 + sum val_i * h_{idx_i + 1}` over the first `k` disclosed pairs.
pub open spec fn disclosed_sum(d: Seq<(usize, u64)>, k: nat) -> Seq<u8>
    decreases k,
{
    if k == 0 {
        generator_spec(0)
    } else {
        g1_sum(disclosed_sum(d, (k - 1) as nat),
            g1_scale(generator_spec((d[k - 1].0 + 2) as nat), scalar_of(d[k - 1].1 as nat)))
    }
}

/// `rs*h0 + sum resp_j * h_{hidden_j + 1}` over the first `k` responses.
pub open spec fn response_sum(rs: Seq<u8>, resp: Seq<Seq<u8>>, hidden: Seq<usize>, k: nat) -> Seq<u8>
    decreases k,
{
    if k == 0 {
        g1_scale(generator_spec(1), rs)
    } else {
        g1_sum(response_sum(rs, resp, hidden, (k - 1) as nat),
            g1_scale(generator_spec((hidden[k - 1] + 2) as nat), deser_scalar_spec(resp[k - 1])))
    }
}

/// The byte strings of the proof's responses.
pub open spec fn response_views(p: BbsProof) -> Seq<Seq<u8>> {
    p.responses@.map_values(|r: Vec<u8>| r@)
}

/// The commitment `t` a verifier recomputes from the responses and the
/// challenge `c`: `response_sum - c * (B - disclosed_sum)`.
pub open spec fn recomputed_t(p: BbsProof, c: Seq<u8>) -> Seq<u8> {
    let hidden = hidden_spec(disclosed_indices(p.disclosed@));
    let rs = deser_scalar_spec(p.response_s@);
    g1_difference(response_sum(rs, response_views(p), hidden, hidden.len()),
        g1_scale(g1_difference(p.b_point@, disclosed_sum(p.disclosed@, p.disclosed@.len())), c))
}

/// Whether a proof passes the structural checks (issuer key, lengths,
/// points, challenge encoding, number of responses).
pub open spec fn proof_well_formed(p: BbsProof, pk: Seq<u8>) -> bool {
    &&& g2_valid(pk)
    &&& p.a_prime@.len() == 48 && p.a_bar@.len() == 48 && p.b_point@.len() == 48
    &&& p.challenge@.len() >= 32 && p.response_s@.len() >= 32
    &&& g1_valid(p.a_prime@) && g1_valid(p.a_bar@) && g1_valid(p.b_point@)
    &&& scalar_canonical(p.challenge@.subrange(0, 32))
    &&& p.responses@.len() == hidden_spec(disclosed_indices(p.disclosed@)).len()
}

/// Whether some disclosed pair names index 0, the link secret.
pub open spec fn discloses_link_secret(d: Seq<(usize, u64)>) -> bool {
    exists|i: int| 0 <= i < d.len() && (#[trigger] d[i]).0 == 0
}

/// Whether a disclosed list names the link secret's index.
fn names_link_secret(d: &Vec<(usize, u64)>) -> (b: bool)
    ensures
        b == discloses_link_secret(d@),
{
    let mut i: usize = 0;
    while i < d.len()
        invariant
            i <= d@.len(),
            forall|x: int| 0 <= x < i ==> (#[trigger] d@[x]).0 != 0,
        decreases d@.len() - i,
    {
        if d[i].0 == 0 {
            return true;
        }
        i = i + 1;
    }
    false
}

/// What verifying a proof against an issuer key and a context gives: a
/// proof that discloses the link secret is refused before any check of
/// the challenge or the pairing.
pub open spec fn verify_outcome(p: BbsProof, pk: Seq<u8>, ctx: Seq<u8>) -> Result<Seq<(usize, u64)>, BbsError> {
    if !g2_valid(pk) {
        Err(BbsError::InvalidIssuerKey)
    } else if !proof_well_formed(p, pk) {
        Err(BbsError::InvalidProof)
    } else if discloses_link_secret(p.disclosed@) {
        Err(BbsError::LinkSecretDisclosed)
    } else {
        let c = p.challenge@.subrange(0, 32);
        let t = recomputed_t(p, c);
        if c != challenge_spec(p.a_prime@, p.a_bar@, p.b_point@, t, ctx) {
            Err(BbsError::ProofVerificationFailed)
        } else if g1_is_identity(p.a_prime@) {
            Err(BbsError::InvalidProof)
        } else if !pairing_product_is_one(p.a_prime@, pk, g1_negation(p.a_bar@)) {
            Err(BbsError::IssuerBindingFailed)
        } else {
            Ok(p.disclosed@)
        }
    }
}

/// Parse a proof's G1 point (exactly 48 bytes, a valid encoding).
fn parse_g1_proof(bytes: &[u8]) -> (r: Result<[u8; 48], BbsError>)
    ensures
        match r {
            Ok(x) => bytes@.len() == 48 && g1_valid(bytes@) && x@ == bytes@,
            Err(e) => e == BbsError::InvalidProof && !(bytes@.len() == 48 && g1_valid(bytes@)),
        },
{
    if bytes.len() != 48 {
        return Err(BbsError::InvalidProof);
    }
    let arr = copy48(bytes);
    if g1_decodes(&arr) {
        Ok(arr)
    } else {
        Err(BbsError::InvalidProof)
    }
}

/// Verify a BBS+ proof against an issuer public key and a context; gives
/// the disclosed attributes when it holds.
pub fn bbs_verify_proof(proof: &BbsProof, issuer_pk_bytes: &[u8; 96], context: &[u8])
    -> (r: Result<Vec<(usize, u64)>, BbsError>)
    requires
        proof_well_formed(*proof, issuer_pk_bytes@) ==> forall|i: int| 0 <= i < proof.disclosed@.len()
            ==> (#[trigger] proof.disclosed@[i]).0 < NUM_MESSAGES,
    ensures
        match r {
            Ok(d) => verify_outcome(*proof, issuer_pk_bytes@, context@) == Ok::<Seq<(usize, u64)>, BbsError>(d@),
            Err(e) => verify_outcome(*proof, issuer_pk_bytes@, context@) == Err::<Seq<(usize, u64)>, BbsError>(e),
        },
{
    if !g2_decodes(issuer_pk_bytes) {
        return Err(BbsError::InvalidIssuerKey);
    }
    if proof.a_prime.len() != 48 || proof.a_bar.len() != 48 || proof.b_point.len() != 48
        || proof.challenge.len() < 32 || proof.response_s.len() < 32 {
        return Err(BbsError::InvalidProof);
    }
    let a_prime = match parse_g1_proof(proof.a_prime.as_slice()) {
        Ok(x) => x,
        Err(e) => return Err(e),
    };
    let a_bar = match parse_g1_proof(proof.a_bar.as_slice()) {
        Ok(x) => x,
        Err(e) => return Err(e),
    };
    let b_point = match parse_g1_proof(proof.b_point.as_slice()) {
        Ok(x) => x,
        Err(e) => return Err(e),
    };
    let challenge = copy32(proof.challenge.as_slice(), 0);
    if !scalar_decodes(&challenge) {
        return Err(BbsError::InvalidProof);
    }
    let resp_s = deserialize_scalar(proof.response_s.as_slice());
    let mut indices: Vec<usize> = Vec::new();
    let mut k: usize = 0;
    while k < proof.disclosed.len()
        invariant
            k <= proof.disclosed@.len(),
            indices@ == disclosed_indices(proof.disclosed@.subrange(0, k as int)),
        decreases proof.disclosed@.len() - k,
    {
        indices.push(proof.disclosed[k].0);
        assert(proof.disclosed@.subrange(0, k + 1) =~= proof.disclosed@.subrange(0, k as int).push(proof.disclosed@[k as int]));
        assert(indices@ =~= disclosed_indices(proof.disclosed@.subrange(0, k + 1)));
        k = k + 1;
    }
    assert(proof.disclosed@.subrange(0, proof.disclosed@.len() as int) =~= proof.disclosed@);
    let hidden = hidden_indices(&indices);
    if proof.responses.len() != hidden.len() {
        return Err(BbsError::InvalidProof);
    }
    assert(proof_well_formed(*proof, issuer_pk_bytes@));
    if names_link_secret(&proof.disclosed) {
        return Err(BbsError::LinkSecretDisclosed);
    }
    let gv = generators();
    assert(g1_valid(gv@[0]@) && g1_valid(gv@[1]@));
    let mut b_disclosed = gv[0];
    let mut i: usize = 0;
    while i < proof.disclosed.len()
        invariant
            generators_ok(gv@),
            forall|x: int| 0 <= x < proof.disclosed@.len() ==> (#[trigger] proof.disclosed@[x]).0 < NUM_MESSAGES,
            i <= proof.disclosed@.len(),
            b_disclosed@ == disclosed_sum(proof.disclosed@, i as nat),
            g1_valid(b_disclosed@),
        decreases proof.disclosed@.len() - i,
    {
        let (idx, val) = proof.disclosed[i];
        assert(idx < NUM_MESSAGES);
        let sv = scalar_from_u64(val);
        proof {
            lemma_scalar_of_canonical(val as nat);
        }
        assert(g1_valid(gv@[idx + 2]@));
        let term = g1_mul(&gv[idx + 2], &sv);
        b_disclosed = g1_add(&b_disclosed, &term);
        i = i + 1;
    }
    let mut t = g1_mul(&gv[1], &resp_s);
    let mut j: usize = 0;
    while j < hidden.len()
        invariant
            generators_ok(gv@),
            forall|q: int| 0 <= q < hidden@.len() ==> (#[trigger] hidden@[q]) < NUM_MESSAGES,
            hidden@ == hidden_spec(disclosed_indices(proof.disclosed@)),
            proof.responses@.len() == hidden@.len(),
            j <= hidden@.len(),
            t@ == response_sum(resp_s@, response_views(*proof), hidden@, j as nat),
            g1_valid(t@),
        decreases hidden@.len() - j,
    {
        let resp = deserialize_scalar(proof.responses[j].as_slice());
        let idx = hidden[j];
        assert(idx < NUM_MESSAGES);
        assert(g1_valid(gv@[idx + 2]@));
        let term = g1_mul(&gv[idx + 2], &resp);
        assert(response_views(*proof)[j as int] == proof.responses@[j as int]@);
        t = g1_add(&t, &term);
        j = j + 1;
    }
    let diff = g1_sub(&b_point, &b_disclosed);
    let cd = g1_mul(&diff, &challenge);
    t = g1_sub(&t, &cd);
    let recomputed = challenge_of(&a_prime, &a_bar, &b_point, &t, context);
    if !bytes_eq(challenge.as_slice(), recomputed.as_slice()) {
        return Err(BbsError::ProofVerificationFailed);
    }
    if g1_identity(&a_prime) {
        return Err(BbsError::InvalidProof);
    }
    let neg_a_bar = g1_neg(&a_bar);
    if !pairing_check(&a_prime, issuer_pk_bytes, &neg_a_bar) {
        return Err(BbsError::IssuerBindingFailed);
    }
    let mut out: Vec<(usize, u64)> = Vec::new();
    let mut q: usize = 0;
    while q < proof.disclosed.len()
        invariant
            q <= proof.disclosed@.len(),
            out@ == proof.disclosed@.subrange(0, q as int),
        decreases proof.disclosed@.len() - q,
    {
        out.push(proof.disclosed[q]);
        assert(out@ =~= proof.disclosed@.subrange(0, q + 1));
        q = q + 1;
    }
    assert(out@ =~= proof.disclosed@);
    Ok(out)
}

// ─── Wallet ─────────────────────────────────────────────────────────────────

/// Whether two byte strings of at least 32 bytes agree on their first 32.
fn prefix_eq(a: &[u8], b: &[u8]) -> (r: bool)
    requires
        a@.len() >= 32,
        b@.len() >= 32,
    ensures
        r == (a@.subrange(0, 32) == b@.subrange(0, 32)),
{
    let mut i: usize = 0;
    while i < 32
        invariant
            i <= 32,
            a@.len() >= 32,
            b@.len() >= 32,
            forall|j: int| 0 <= j < i ==> a@[j] == b@[j],
        decreases 32 - i,
    {
        if a[i] != b[i] {
            assert(a@.subrange(0, 32)[i as int] != b@.subrange(0, 32)[i as int]);
            return false;
        }
        i = i + 1;
    }
    assert(a@.subrange(0, 32) =~= b@.subrange(0, 32));
    true
}

/// Maximum BBS+ credentials stored per wallet (prevents flooding).
pub const MAX_BBS_CREDENTIALS: usize = 100;

/// The key a wallet files a credential under: the first 32 bytes of the
/// issuer key, and the epoch.
pub open spec fn wallet_key(c: BbsCredential) -> (Seq<u8>, u64) {
    (c.issuer_pk@.subrange(0, 32), c.attributes.epoch)
}

/// Whether no two credentials share a wallet key.
pub open spec fn keys_distinct(s: Seq<BbsCredential>) -> bool {
    forall|i: int, j: int| 0 <= i < s.len() && 0 <= j < s.len() && i != j
        ==> wallet_key(#[trigger] s[i]) != wallet_key(#[trigger] s[j])
}

/// The credentials by wallet key.
pub open spec fn wallet_map(s: Seq<BbsCredential>) -> Map<(Seq<u8>, u64), BbsCredential> {
    Map::new(
        |k: (Seq<u8>, u64)| exists|i: int| 0 <= i < s.len() && wallet_key(s[i]) == k,
        |k: (Seq<u8>, u64)| s[choose|i: int| 0 <= i < s.len() && wallet_key(s[i]) == k],
    )
}

/// With distinct keys, each stored credential is found under its key.
pub proof fn lemma_wallet_lookup(s: Seq<BbsCredential>, i: int)
    requires
        keys_distinct(s),
        0 <= i < s.len(),
    ensures
        wallet_map(s).contains_key(wallet_key(s[i])),
        wallet_map(s)[wallet_key(s[i])] == s[i],
{
    let k = wallet_key(s[i]);
    assert(exists|j: int| 0 <= j < s.len() && wallet_key(s[j]) == k);
    let j = choose|j: int| 0 <= j < s.len() && wallet_key(s[j]) == k;
    assert(j == i);
}

/// With distinct keys, the map has one key per credential.
pub proof fn lemma_wallet_len(s: Seq<BbsCredential>)
    requires
        keys_distinct(s),
    ensures
        wallet_map(s).dom().finite(),
        wallet_map(s).dom().len() == s.len(),
    decreases s.len(),
{
    let keys = s.map_values(|c: BbsCredential| wallet_key(c));
    assert forall|i: int, j: int| 0 <= i < keys.len() && 0 <= j < keys.len() && i != j
        implies keys[i] != keys[j] by {
        assert(wallet_key(s[i]) != wallet_key(s[j]));
    }
    assert(keys.no_duplicates());
    keys.unique_seq_to_set();
    assert(wallet_map(s).dom() =~= keys.to_set()) by {
        assert forall|k: (Seq<u8>, u64)| wallet_map(s).dom().contains(k) implies keys.to_set().contains(k) by {
            let i = choose|i: int| 0 <= i < s.len() && wallet_key(s[i]) == k;
            assert(keys[i] == k);
        }
        assert forall|k: (Seq<u8>, u64)| keys.to_set().contains(k) implies wallet_map(s).dom().contains(k) by {
            let i = choose|i: int| 0 <= i < keys.len() && keys[i] == k;
            assert(wallet_key(s[i]) == k);
        }
    }
}

/// The index of the first credential of the highest tier in `s` (0 when
/// `s` is empty).
pub open spec fn first_best(s: Seq<BbsCredential>) -> int
    decreases s.len(),
{
    if s.len() <= 1 {
        0
    } else {
        let b = first_best(s.drop_last());
        if tier_number(s.last().attributes.tier) > tier_number(s[b].attributes.tier) {
            s.len() - 1
        } else {
            b
        }
    }
}

/// Stores BBS+ credentials held by this node: at most one per issuer key
/// prefix and epoch, and at most `MAX_BBS_CREDENTIALS` in all.
pub struct BbsCredentialWallet {
    link_secret: [u8; 32],
    credentials: Vec<BbsCredential>,
}

impl BbsCredentialWallet {
    /// The credentials by wallet key.
    pub closed spec fn view(&self) -> Map<(Seq<u8>, u64), BbsCredential> {
        wallet_map(self.credentials@)
    }

    /// Every stored credential is filed under its own wallet key (its issuer
    /// key prefix and its epoch).
    pub proof fn lemma_filed_under_own_key(&self)
        ensures
            forall|k: (Seq<u8>, u64)| #[trigger] self@.contains_key(k) ==> wallet_key(self@[k]) == k,
    {
        let s = self.credentials@;
        assert forall|k: (Seq<u8>, u64)| #[trigger] self@.contains_key(k) implies wallet_key(self@[k]) == k by {
            let i = choose|i: int| 0 <= i < s.len() && wallet_key(s[i]) == k;
            assert(self@[k] == s[i]);
        }
    }

    /// The link secret.
    pub closed spec fn secret(&self) -> [u8; 32] {
        self.link_secret
    }

    /// Distinct keys, issuer keys of at least 32 bytes, within capacity.
    pub closed spec fn wf(&self) -> bool {
        &&& keys_distinct(self.credentials@)
        &&& forall|i: int| 0 <= i < self.credentials@.len() ==> (#[trigger] self.credentials@[i]).issuer_pk@.len() >= 32
        &&& self.credentials@.len() <= MAX_BBS_CREDENTIALS
    }

    /// A wallet with a fresh random link secret and no credentials.
    pub fn new() -> (w: Self)
        ensures
            w.wf(),
            w@ == Map::<(Seq<u8>, u64), BbsCredential>::empty(),
    {
        let w = BbsCredentialWallet { link_secret: generate_link_secret(), credentials: Vec::new() };
        assert(w@ =~= Map::<(Seq<u8>, u64), BbsCredential>::empty());
        w
    }

    /// This wallet's link secret (needed when requesting BBS+ credentials).
    pub fn link_secret(&self) -> (s: [u8; 32])
        ensures
            s == self.secret(),
    {
        self.link_secret
    }

    fn find_key(&self, c: &BbsCredential) -> (r: Option<usize>)
        requires
            self.wf(),
            c.issuer_pk@.len() >= 32,
        ensures
            match r {
                Some(i) => i < self.credentials@.len() && wallet_key(self.credentials@[i as int]) == wallet_key(*c),
                None => !self@.contains_key(wallet_key(*c)),
            },
    {
        let mut i: usize = 0;
        while i < self.credentials.len()
            invariant
                self.wf(),
                c.issuer_pk@.len() >= 32,
                i <= self.credentials@.len(),
                forall|j: int| 0 <= j < i ==> wallet_key(self.credentials@[j]) != wallet_key(*c),
            decreases self.credentials@.len() - i,
        {
            let other = &self.credentials[i];
            if other.attributes.epoch == c.attributes.epoch && prefix_eq(other.issuer_pk.as_slice(), c.issuer_pk.as_slice()) {
                return Some(i);
            }
            i = i + 1;
        }
        None
    }

    fn oldest_index(&self) -> (r: usize)
        requires
            self.credentials@.len() > 0,
        ensures
            r < self.credentials@.len(),
            forall|j: int| 0 <= j < self.credentials@.len()
                ==> self.credentials@[r as int].attributes.epoch <= #[trigger] self.credentials@[j].attributes.epoch,
    {
        let mut best: usize = 0;
        let mut i: usize = 1;
        while i < self.credentials.len()
            invariant
                1 <= i <= self.credentials@.len(),
                best < i,
                forall|j: int| 0 <= j < i
                    ==> self.credentials@[best as int].attributes.epoch <= #[trigger] self.credentials@[j].attributes.epoch,
            decreases self.credentials@.len() - i,
        {
            if self.credentials[i].attributes.epoch < self.credentials[best].attributes.epoch {
                best = i;
            }
            i = i + 1;
        }
        best
    }

    /// Store a credential under its key (replacing one filed there); when
    /// that exceeds the capacity, evict one credential of the oldest epoch.
    pub fn store(&mut self, credential: BbsCredential)
        requires
            old(self).wf(),
            credential.issuer_pk@.len() >= 32,
        ensures
            final(self).wf(),
            final(self).secret() == old(self).secret(),
            ({
                let m = old(self)@.insert(wallet_key(credential), credential);
                if m.dom().len() <= MAX_BBS_CREDENTIALS {
                    final(self)@ == m
                } else {
                    exists|k: (Seq<u8>, u64)| #[trigger] m.contains_key(k)
                        && (forall|k2: (Seq<u8>, u64)| #[trigger] m.contains_key(k2)
                            ==> m[k].attributes.epoch <= m[k2].attributes.epoch)
                        && final(self)@ == m.remove(k)
                }
            }),
    {
        let ghost m = old(self)@.insert(wallet_key(credential), credential);
        let ghost key = wallet_key(credential);
        let ghost old_seq = self.credentials@;
        match self.find_key(&credential) {
            Some(i) => {
                self.credentials.set(i, credential);
                proof {
                    assert(keys_distinct(self.credentials@)) by {
                        assert forall|a: int, b: int| 0 <= a < self.credentials@.len() && 0 <= b < self.credentials@.len()
                            && a != b implies wallet_key(#[trigger] self.credentials@[a]) != wallet_key(#[trigger] self.credentials@[b]) by {
                            assert(wallet_key(self.credentials@[a]) == wallet_key(old_seq[a]));
                            assert(wallet_key(self.credentials@[b]) == wallet_key(old_seq[b]));
                        }
                    }
                    assert forall|k: (Seq<u8>, u64)| #[trigger] self@.contains_key(k) <==> m.contains_key(k) by {
                        if self@.contains_key(k) {
                            let j = choose|j: int| 0 <= j < self.credentials@.len() && wallet_key(self.credentials@[j]) == k;
                            if j != i {
                                lemma_wallet_lookup(old_seq, j);
                            }
                        }
                        if m.contains_key(k) && k != key {
                            let j = choose|j: int| 0 <= j < old_seq.len() && wallet_key(old_seq[j]) == k;
                            assert(wallet_key(self.credentials@[j]) == k);
                        }
                        if k == key {
                            assert(wallet_key(self.credentials@[i as int]) == k);
                        }
                    }
                    assert forall|k: (Seq<u8>, u64)| #[trigger] self@.contains_key(k) implies self@[k] == m[k] by {
                        let j = choose|j: int| 0 <= j < self.credentials@.len() && wallet_key(self.credentials@[j]) == k;
                        lemma_wallet_lookup(self.credentials@, j);
                        if j != i {
                            lemma_wallet_lookup(old_seq, j);
                        }
                    }
                    assert(self@ =~= m);
                    lemma_wallet_len(self.credentials@);
                }
            },
            None => {
                self.credentials.push(credential);
                proof {
                    assert(keys_distinct(self.credentials@)) by {
                        assert forall|a: int, b: int| 0 <= a < self.credentials@.len() && 0 <= b < self.credentials@.len()
                            && a != b implies wallet_key(#[trigger] self.credentials@[a]) != wallet_key(#[trigger] self.credentials@[b]) by {
                            if a < old_seq.len() && b < old_seq.len() {
                                assert(self.credentials@[a] == old_seq[a]);
                                assert(self.credentials@[b] == old_seq[b]);
                            } else if a < old_seq.len() {
                                lemma_wallet_lookup(old_seq, a);
                            } else {
                                lemma_wallet_lookup(old_seq, b);
                            }
                        }
                    }
                    assert forall|k: (Seq<u8>, u64)| #[trigger] self@.contains_key(k) <==> m.contains_key(k) by {
                        if self@.contains_key(k) {
                            let j = choose|j: int| 0 <= j < self.credentials@.len() && wallet_key(self.credentials@[j]) == k;
                            if j < old_seq.len() {
                                assert(self.credentials@[j] == old_seq[j]);
                            }
                        }
                        if m.contains_key(k) && k != key {
                            let j = choose|j: int| 0 <= j < old_seq.len() && wallet_key(old_seq[j]) == k;
                            assert(self.credentials@[j] == old_seq[j]);
                        }
                        if k == key {
                            assert(wallet_key(self.credentials@[old_seq.len() as int]) == k);
                        }
                    }
                    assert forall|k: (Seq<u8>, u64)| #[trigger] self@.contains_key(k) implies self@[k] == m[k] by {
                        let j = choose|j: int| 0 <= j < self.credentials@.len() && wallet_key(self.credentials@[j]) == k;
                        lemma_wallet_lookup(self.credentials@, j);
                        if j < old_seq.len() {
                            assert(self.credentials@[j] == old_seq[j]);
                            lemma_wallet_lookup(old_seq, j);
                        }
                    }
                    assert(self@ =~= m);
                    lemma_wallet_len(self.credentials@);
                }
            },
        }
        if self.credentials.len() > MAX_BBS_CREDENTIALS {
            let j = self.oldest_index();
            let ghost before = self.credentials@;
            let ghost kk = wallet_key(before[j as int]);
            self.credentials.remove(j);
            proof {
                lemma_wallet_lookup(before, j as int);
                assert(keys_distinct(self.credentials@)) by {
                    assert forall|a: int, b: int| 0 <= a < self.credentials@.len() && 0 <= b < self.credentials@.len()
                        && a != b implies wallet_key(#[trigger] self.credentials@[a]) != wallet_key(#[trigger] self.credentials@[b]) by {
                        let a2 = if a < j { a } else { a + 1 };
                        let b2 = if b < j { b } else { b + 1 };
                        assert(self.credentials@[a] == before[a2]);
                        assert(self.credentials@[b] == before[b2]);
                    }
                }
                assert forall|k: (Seq<u8>, u64)| #[trigger] self@.contains_key(k) <==> m.remove(kk).contains_key(k) by {
                    if self@.contains_key(k) {
                        let a = choose|a: int| 0 <= a < self.credentials@.len() && wallet_key(self.credentials@[a]) == k;
                        let a2 = if a < j { a } else { a + 1 };
                        assert(self.credentials@[a] == before[a2]);
                        lemma_wallet_lookup(before, a2);
                    }
                    if m.remove(kk).contains_key(k) {
                        let a = choose|a: int| 0 <= a < before.len() && wallet_key(before[a]) == k;
                        assert(a != j);
                        let a1 = if a < j { a } else { a - 1 };
                        assert(self.credentials@[a1] == before[a]);
                    }
                }
                assert forall|k: (Seq<u8>, u64)| #[trigger] self@.contains_key(k) implies self@[k] == m.remove(kk)[k] by {
                    let a = choose|a: int| 0 <= a < self.credentials@.len() && wallet_key(self.credentials@[a]) == k;
                    lemma_wallet_lookup(self.credentials@, a);
                    let a2 = if a < j { a } else { a + 1 };
                    assert(self.credentials@[a] == before[a2]);
                    lemma_wallet_lookup(before, a2);
                }
                assert(self@ =~= m.remove(kk));
                assert forall|k2: (Seq<u8>, u64)| #[trigger] m.contains_key(k2)
                    implies m[kk].attributes.epoch <= m[k2].attributes.epoch by {
                    let b = choose|b: int| 0 <= b < before.len() && wallet_key(before[b]) == k2;
                    lemma_wallet_lookup(before, b);
                }
                assert(m.contains_key(kk));
            }
        }
    }

    /// The credential `best_credential` picks: of the highest tier, the one
    /// stored earliest; `None` for an empty wallet.
    pub closed spec fn best_spec(&self) -> Option<BbsCredential> {
        if self.credentials@.len() == 0 {
            None
        } else {
            Some(self.credentials@[first_best(self.credentials@)])
        }
    }

    /// The credential of the highest tier, if any (of several such, the one
    /// stored earliest).
    pub fn best_credential(&self) -> (r: Option<&BbsCredential>)
        requires
            self.wf(),
        ensures
            r is None <==> self@.dom().len() == 0,
            r is None <==> self.best_spec() is None,
            r matches Some(c) ==> self.best_spec() == Some(*c),
            r matches Some(c) ==> self@.contains_key(wallet_key(*c)) && self@[wallet_key(*c)] == *c
                && forall|k: (Seq<u8>, u64)| #[trigger] self@.contains_key(k)
                    ==> tier_number(self@[k].attributes.tier) <= tier_number(c.attributes.tier),
    {
        proof {
            lemma_wallet_len(self.credentials@);
        }
        if self.credentials.len() == 0 {
            return None;
        }
        let mut best: usize = 0;
        let mut i: usize = 1;
        proof {
            assert(self.credentials@.take(1).len() == 1);
        }
        while i < self.credentials.len()
            invariant
                1 <= i <= self.credentials@.len(),
                best < i,
                best == first_best(self.credentials@.take(i as int)),
                forall|j: int| 0 <= j < i ==> tier_number((#[trigger] self.credentials@[j]).attributes.tier)
                    <= tier_number(self.credentials@[best as int].attributes.tier),
            decreases self.credentials@.len() - i,
        {
            proof {
                let t = self.credentials@.take(i + 1);
                assert(t.drop_last() =~= self.credentials@.take(i as int));
                assert(t.last() == self.credentials@[i as int]);
                assert(t[best as int] == self.credentials@[best as int]);
            }
            if self.credentials[i].attributes.tier.number() > self.credentials[best].attributes.tier.number() {
                best = i;
            }
            i = i + 1;
        }
        proof {
            assert(self.credentials@.take(i as int) =~= self.credentials@);
            lemma_wallet_lookup(self.credentials@, best as int);
            assert forall|k: (Seq<u8>, u64)| #[trigger] self@.contains_key(k)
                implies tier_number(self@[k].attributes.tier) <= tier_number(self.credentials@[best as int].attributes.tier) by {
                let j = choose|j: int| 0 <= j < self.credentials@.len() && wallet_key(self.credentials@[j]) == k;
                lemma_wallet_lookup(self.credentials@, j);
            }
        }
        Some(&self.credentials[best])
    }

    /// A proof from the best available credential (the one
    /// `best_credential` gives), if any.
    pub fn present(&self, policy: &DisclosurePolicy, context: &[u8]) -> (r: Option<BbsProof>)
        requires
            self.wf(),
        ensures
            r is None <==> self@.dom().len() == 0,
            r is None <==> self.best_spec() is None,
            r matches Some(p) ==> (self.best_spec() matches Some(c) && proof_of(c, policy.reveal@, context@, p)),
            r matches Some(p) ==> exists|k: (Seq<u8>, u64)| #[trigger] self@.contains_key(k)
                && (forall|k2: (Seq<u8>, u64)| #[trigger] self@.contains_key(k2)
                    ==> tier_number(self@[k2].attributes.tier) <= tier_number(self@[k].attributes.tier))
                && proof_of(self@[k], policy.reveal@, context@, p),
    {
        match self.best_credential() {
            None => None,
            Some(c) => {
                let p = bbs_create_proof(c, policy, context);
                assert(self@.contains_key(wallet_key(*c)));
                Some(p)
            },
        }
    }

    /// Number of stored credentials.
    pub fn credential_count(&self) -> (n: usize)
        requires
            self.wf(),
        ensures
            n == self@.dom().len(),
    {
        proof {
            lemma_wallet_len(self.credentials@);
        }
        self.credentials.len()
    }

    /// Drop the credentials of epochs before `min_epoch`.
    pub fn prune_before_epoch(&mut self, min_epoch: u64)
        requires
            old(self).wf(),
        ensures
            final(self).wf(),
            final(self).secret() == old(self).secret(),
            final(self)@ == old(self)@.restrict(Set::new(|k: (Seq<u8>, u64)| k.1 >= min_epoch)),
            forall|k: (Seq<u8>, u64)| #[trigger] final(self)@.contains_key(k) <==> old(self)@.contains_key(k)
                && old(self)@[k].attributes.epoch >= min_epoch,
    {
        proof {
            old(self).lemma_filed_under_own_key();
        }
        let mut rest: Vec<BbsCredential> = Vec::new();
        std::mem::swap(&mut rest, &mut self.credentials);
        let ghost before = rest@;
        let mut kept: Vec<BbsCredential> = Vec::new();
        let ghost mut src: Seq<int> = Seq::empty();
        while rest.len() > 0
            invariant
                keys_distinct(before),
                forall|a: int| 0 <= a < before.len() ==> (#[trigger] before[a]).issuer_pk@.len() >= 32,
                before.len() <= MAX_BBS_CREDENTIALS,
                rest@ == before.take(rest@.len() as int),
                rest@.len() <= before.len(),
                kept@.len() + rest@.len() <= before.len(),
                src.len() == kept@.len(),
                forall|a: int| 0 <= a < kept@.len() ==> rest@.len() <= #[trigger] src[a] < before.len()
                    && kept@[a] == before[src[a]] && before[src[a]].attributes.epoch >= min_epoch,
                forall|b: int| rest@.len() <= b < before.len() && before[b].attributes.epoch >= min_epoch
                    ==> exists|a: int| 0 <= a < kept@.len() && src[a] == b,
                forall|a1: int, a2: int| 0 <= a1 < kept@.len() && 0 <= a2 < kept@.len() && a1 != a2
                    ==> #[trigger] src[a1] != #[trigger] src[a2],
            decreases rest@.len(),
        {
            let ghost n = rest@.len() as int;
            let c = rest.pop().unwrap();
            assert(c == before[n - 1]);
            assert(rest@ =~= before.take(n - 1));
            if c.attributes.epoch >= min_epoch {
                let ghost prev = src;
                kept.push(c);
                proof {
                    src = src.push(n - 1);
                    assert forall|b: int| n - 1 <= b < before.len() && before[b].attributes.epoch >= min_epoch
                        implies exists|a: int| 0 <= a < kept@.len() && src[a] == b by {
                        if b == n - 1 {
                            assert(src[prev.len() as int] == b);
                        } else {
                            let a = choose|a: int| 0 <= a < prev.len() && prev[a] == b;
                            assert(src[a] == b);
                        }
                    }
                }
            }
        }
        proof {
            assert(keys_distinct(kept@)) by {
                assert forall|a1: int, a2: int| 0 <= a1 < kept@.len() && 0 <= a2 < kept@.len() && a1 != a2
                    implies wallet_key(#[trigger] kept@[a1]) != wallet_key(#[trigger] kept@[a2]) by {
                    assert(src[a1] != src[a2]);
                }
            }
            let target = wallet_map(before).restrict(Set::new(|k: (Seq<u8>, u64)| k.1 >= min_epoch));
            assert forall|k: (Seq<u8>, u64)| #[trigger] wallet_map(kept@).contains_key(k) <==> target.contains_key(k) by {
                if wallet_map(kept@).contains_key(k) {
                    let a = choose|a: int| 0 <= a < kept@.len() && wallet_key(kept@[a]) == k;
                    assert(0 <= src[a] < before.len());
                    lemma_wallet_lookup(before, src[a]);
                }
                if target.contains_key(k) {
                    let b = choose|b: int| 0 <= b < before.len() && wallet_key(before[b]) == k;
                    let a = choose|a: int| 0 <= a < kept@.len() && src[a] == b;
                    assert(wallet_key(kept@[a]) == k);
                }
            }
            assert forall|k: (Seq<u8>, u64)| #[trigger] wallet_map(kept@).contains_key(k)
                implies wallet_map(kept@)[k] == target[k] by {
                let a = choose|a: int| 0 <= a < kept@.len() && wallet_key(kept@[a]) == k;
                lemma_wallet_lookup(kept@, a);
                assert(0 <= src[a] < before.len());
                lemma_wallet_lookup(before, src[a]);
            }
            assert(wallet_map(kept@) =~= target);
            assert forall|a: int| 0 <= a < kept@.len() implies (#[trigger] kept@[a]).issuer_pk@.len() >= 32 by {
                assert(0 <= src[a] < before.len());
            }
        }
        self.credentials = kept;
    }
}

// ─── Issuer registry ────────────────────────────────────────────────────────

/// Whether two 96-byte keys are equal.
fn key96_eq(a: &[u8; 96], b: &[u8; 96]) -> (r: bool)
    ensures
        r == (a@ == b@),
{
    let mut i: usize = 0;
    while i < 96
        invariant
            i <= 96,
            a@.len() == 96,
            b@.len() == 96,
            forall|j: int| 0 <= j < i ==> a@[j] == b@[j],
        decreases 96 - i,
    {
        if a[i] != b[i] {
            return false;
        }
        i = i + 1;
    }
    assert(a@ =~= b@);
    true
}

/// Whether a 96-byte key is among `keys`.
pub open spec fn key96_listed(keys: Seq<[u8; 96]>, k: Seq<u8>) -> bool {
    exists|i: int| 0 <= i < keys.len() && keys[i]@ == k
}

/// Registry of known BBS+ issuer public keys (compressed G2, 96 bytes),
/// each listed once, in the order added.
pub struct BbsIssuerRegistry {
    issuers: Vec<[u8; 96]>,
}

impl BbsIssuerRegistry {
    /// The known keys, in the order added.
    pub closed spec fn view(&self) -> Seq<[u8; 96]> {
        self.issuers@
    }

    /// No key is listed twice.
    pub closed spec fn wf(&self) -> bool {
        forall|i: int, j: int| 0 <= i < self.issuers@.len() && 0 <= j < self.issuers@.len() && i != j
            ==> (#[trigger] self.issuers@[i])@ != (#[trigger] self.issuers@[j])@
    }

    /// An empty registry.
    pub fn new() -> (r: Self)
        ensures
            r.wf(),
            r@ == Seq::<[u8; 96]>::empty(),
    {
        BbsIssuerRegistry { issuers: Vec::new() }
    }

    /// Whether `pk_bytes` is a known issuer key.
    pub fn is_known(&self, pk_bytes: &[u8; 96]) -> (b: bool)
        ensures
            b == key96_listed(self@, pk_bytes@),
    {
        let mut i: usize = 0;
        while i < self.issuers.len()
            invariant
                i <= self.issuers@.len(),
                forall|j: int| 0 <= j < i ==> self.issuers@[j]@ != pk_bytes@,
            decreases self.issuers@.len() - i,
        {
            if key96_eq(&self.issuers[i], pk_bytes) {
                return true;
            }
            i = i + 1;
        }
        false
    }

    /// Register an issuer key; a known key is not listed again.
    pub fn add_issuer(&mut self, pk_bytes: [u8; 96])
        requires
            old(self).wf(),
        ensures
            final(self).wf(),
            final(self)@ == if key96_listed(old(self)@, pk_bytes@) { old(self)@ } else { old(self)@.push(pk_bytes) },
    {
        if !self.is_known(&pk_bytes) {
            let ghost before = self.issuers@;
            self.issuers.push(pk_bytes);
            assert forall|i: int, j: int| 0 <= i < self.issuers@.len() && 0 <= j < self.issuers@.len() && i != j
                implies (#[trigger] self.issuers@[i])@ != (#[trigger] self.issuers@[j])@ by {
                if i < before.len() && j < before.len() {
                    assert(self.issuers@[i] == before[i] && self.issuers@[j] == before[j]);
                } else if i < before.len() {
                    assert(self.issuers@[i] == before[i]);
                } else {
                    assert(self.issuers@[j] == before[j]);
                }
            }
        }
    }

    /// Number of known issuers.
    pub fn len(&self) -> (n: usize)
        ensures
            n == self@.len(),
    {
        self.issuers.len()
    }

    /// All known issuer keys, in the order added.
    pub fn issuer_list(&self) -> (r: &[[u8; 96]])
        ensures
            r@ == self@,
    {
        self.issuers.as_slice()
    }
}

// ─── Scheme descriptions ────────────────────────────────────────────────────

/// What a credential scheme offers, for the rest of the stack to compare.
pub trait CredentialScheme {
    /// Name of the scheme (for diagnostics).
    fn name(&self) -> &'static str;

    /// Whether this scheme provides within-epoch unlinkability.
    fn within_epoch_unlinkable(&self) -> bool;

    /// Whether this scheme supports selective disclosure.
    fn selective_disclosure(&self) -> bool;
}

/// The Ed25519-based ephemeral-key scheme.
pub struct Ed25519Scheme;

impl CredentialScheme for Ed25519Scheme {
    fn name(&self) -> (s: &'static str)
        ensures
            s@ == "ed25519-ephemeral"@,
    {
        "ed25519-ephemeral"
    }

    fn within_epoch_unlinkable(&self) -> (b: bool)
        ensures
            !b,
    {
        false
    }

    fn selective_disclosure(&self) -> (b: bool)
        ensures
            !b,
    {
        false
    }
}

/// The BBS+ scheme.
pub struct BbsPlusScheme;

impl CredentialScheme for BbsPlusScheme {
    fn name(&self) -> (s: &'static str)
        ensures
            s@ == "bbs-plus"@,
    {
        "bbs-plus"
    }

    fn within_epoch_unlinkable(&self) -> (b: bool)
        ensures
            b,
    {
        true
    }

    fn selective_disclosure(&self) -> (b: bool)
        ensures
            b,
    {
        true
    }
}

/// Pruning a wallet twice at the same epoch is pruning it once: the second
/// call changes nothing.
pub proof fn lemma_prune_idempotent(m: Map<(Seq<u8>, u64), BbsCredential>, min_epoch: u64)
    ensures
        m.restrict(Set::new(|k: (Seq<u8>, u64)| k.1 >= min_epoch)).restrict(Set::new(|k: (Seq<u8>, u64)| k.1 >= min_epoch))
            == m.restrict(Set::new(|k: (Seq<u8>, u64)| k.1 >= min_epoch)),
{
    let s = Set::new(|k: (Seq<u8>, u64)| k.1 >= min_epoch);
    assert(m.restrict(s).restrict(s) =~= m.restrict(s));
}

/// Check a BBS+ credential an issuer returned and store it in the wallet:
/// its issuer key must be 96 bytes and known, and a proof made from it
/// (revealing the tier, bound to `context`) must verify under that key.
/// Returns whether it was stored.
pub fn accept_issued_bbs_credential(wallet: &mut BbsCredentialWallet, registry: &BbsIssuerRegistry,
    cred: BbsCredential, context: &[u8]) -> (stored: bool)
    requires
        old(wallet).wf(),
    ensures
        final(wallet).wf(),
        final(wallet).secret() == old(wallet).secret(),
        !stored ==> final(wallet)@ == old(wallet)@,
        stored ==> cred.issuer_pk@.len() == 96 && key96_listed(registry@, cred.issuer_pk@),
        cred.issuer_pk@.len() != 96 || !key96_listed(registry@, cred.issuer_pk@) ==> !stored,
        cred.issuer_pk@.len() == 96 && key96_listed(registry@, cred.issuer_pk@) ==> exists|p: BbsProof|
            #[trigger] proof_of(cred, seq![1usize], context@, p)
            && stored == (verify_outcome(p, cred.issuer_pk@, context@) is Ok),
        stored ==> ({
            let m = old(wallet)@.insert(wallet_key(cred), cred);
            if m.dom().len() <= MAX_BBS_CREDENTIALS {
                final(wallet)@ == m
            } else {
                exists|k: (Seq<u8>, u64)| #[trigger] m.contains_key(k)
                    && (forall|k2: (Seq<u8>, u64)| #[trigger] m.contains_key(k2)
                        ==> m[k].attributes.epoch <= m[k2].attributes.epoch)
                    && final(wallet)@ == m.remove(k)
            }
        }),
{
    if cred.issuer_pk.len() != 96 {
        return false;
    }
    let mut pk = [0u8; 96];
    let mut i: usize = 0;
    while i < 96
        invariant
            i <= 96,
            cred.issuer_pk@.len() == 96,
            forall|j: int| 0 <= j < i ==> pk@[j] == cred.issuer_pk@[j],
        decreases 96 - i,
    {
        pk[i] = cred.issuer_pk[i];
        i = i + 1;
    }
    assert(pk@ =~= cred.issuer_pk@);
    if !registry.is_known(&pk) {
        return false;
    }
    let policy = DisclosurePolicy::default();
    let proof = bbs_create_proof(&cred, &policy, context);
    proof {
        assert(proof.disclosed@ == disclosed_spec(cred.attributes, seq![1usize]));
        assert(proof.disclosed@[0].0 == 1);
        assert(proof.disclosed@.len() == 1);
    }
    match bbs_verify_proof(&proof, &pk, context) {
        Ok(_) => {
            wallet.store(cred);
            true
        },
        Err(_) => false,
    }
}

} // verus!
