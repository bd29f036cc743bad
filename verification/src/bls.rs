use vstd::prelude::*;
use crate::bytes::{le_seq, le_value};
use ff::Field;

verus! {

// Scalars of BLS12-381 are held as their canonical 32-byte little-endian
// encodings, G1 points as 48-byte and G2 points as 96-byte compressed
// encodings.

/// The order `r` of the BLS12-381 scalar field.
pub open spec fn scalar_modulus() -> nat {
    0x73eda753299d7d483339d80809a1d80553bda402fffe5bfeffffffff00000001nat
}

/// Whether 32 bytes are the canonical encoding of a scalar: their
/// little-endian value is below the modulus.
pub open spec fn scalar_canonical(b: Seq<u8>) -> bool {
    b.len() == 32 && le_value(b) < scalar_modulus()
}

/// The encoding of the scalar `x mod r`.
pub open spec fn scalar_of(x: nat) -> Seq<u8> {
    le_seq(x % scalar_modulus(), 32)
}

/// Whether 48 bytes decode to a point of the G1 subgroup.
pub uninterp spec fn g1_valid(b: Seq<u8>) -> bool;

/// The compressed encoding of `s * G1` for the standard generator `G1`.
pub uninterp spec fn g1_base_mul(s: Seq<u8>) -> Seq<u8>;

/// The compressed encoding of `s * P`.
pub uninterp spec fn g1_scale(p: Seq<u8>, s: Seq<u8>) -> Seq<u8>;

/// The compressed encoding of `P + Q`.
pub uninterp spec fn g1_sum(p: Seq<u8>, q: Seq<u8>) -> Seq<u8>;

/// The compressed encoding of `P - Q`.
pub uninterp spec fn g1_difference(p: Seq<u8>, q: Seq<u8>) -> Seq<u8>;

/// The compressed encoding of `-P`.
pub uninterp spec fn g1_negation(p: Seq<u8>) -> Seq<u8>;

/// Whether a G1 point is the identity.
pub uninterp spec fn g1_is_identity(p: Seq<u8>) -> bool;

/// Whether 96 bytes decode to a point of the G2 subgroup.
pub uninterp spec fn g2_valid(b: Seq<u8>) -> bool;

/// The compressed encoding of `s * G2` for the standard generator `G2`.
pub uninterp spec fn g2_base_mul(s: Seq<u8>) -> Seq<u8>;

/// Whether `e(A, W) * e(B, G2)` is the identity of the target group.
pub uninterp spec fn pairing_product_is_one(a: Seq<u8>, w: Seq<u8>, b: Seq<u8>) -> bool;

/// Reduce 64 little-endian bytes modulo `r`.
///
/// Calls `Scalar::from_bytes_wide` and `Scalar::to_bytes`; the crate
/// documents the reduction of the 512-bit little-endian integer.
#[verifier::external_body]
pub(crate) fn scalar_from_wide(w: &[u8; 64]) -> (r: [u8; 32])
    ensures
        r@ == scalar_of(le_value(w@)),
{
    bls12_381::Scalar::from_bytes_wide(w).to_bytes()
}

/// The scalar with the value of a `u64`.
///
/// Calls `Scalar::from(u64)` and `Scalar::to_bytes`.
#[verifier::external_body]
pub(crate) fn scalar_from_u64(v: u64) -> (r: [u8; 32])
    ensures
        r@ == scalar_of(v as nat),
{
    bls12_381::Scalar::from(v).to_bytes()
}

/// Whether 32 bytes are a canonical scalar encoding.
///
/// Calls `Scalar::from_bytes`, which fails exactly on encodings whose
/// little-endian value is not below the modulus.
#[verifier::external_body]
pub(crate) fn scalar_decodes(b: &[u8; 32]) -> (ok: bool)
    ensures
        ok == scalar_canonical(b@),
{
    bool::from(bls12_381::Scalar::from_bytes(b).is_some())
}

/// `a + b mod r`.
///
/// Calls `Scalar::from_bytes` on both, `+`, and `Scalar::to_bytes`.
#[verifier::external_body]
pub(crate) fn scalar_add(a: &[u8; 32], b: &[u8; 32]) -> (r: [u8; 32])
    requires
        scalar_canonical(a@),
        scalar_canonical(b@),
    ensures
        r@ == scalar_of(le_value(a@) + le_value(b@)),
{
    let x = bls12_381::Scalar::from_bytes(a).unwrap();
    let y = bls12_381::Scalar::from_bytes(b).unwrap();
    (x + y).to_bytes()
}

/// `a * b mod r`.
///
/// Calls `Scalar::from_bytes` on both, `*`, and `Scalar::to_bytes`.
#[verifier::external_body]
pub(crate) fn scalar_mul(a: &[u8; 32], b: &[u8; 32]) -> (r: [u8; 32])
    requires
        scalar_canonical(a@),
        scalar_canonical(b@),
    ensures
        r@ == scalar_of(le_value(a@) * le_value(b@)),
{
    let x = bls12_381::Scalar::from_bytes(a).unwrap();
    let y = bls12_381::Scalar::from_bytes(b).unwrap();
    (x * y).to_bytes()
}

/// The multiplicative inverse of `a`, or `None` for zero.
///
/// Calls `Scalar::from_bytes`, `Scalar::invert` (documented to fail only on
/// zero) and `Scalar::to_bytes`.
#[verifier::external_body]
pub(crate) fn scalar_invert(a: &[u8; 32]) -> (r: Option<[u8; 32]>)
    requires
        scalar_canonical(a@),
    ensures
        r is None <==> le_value(a@) == 0,
        r matches Some(x) ==> scalar_canonical(x@) && (le_value(x@) * le_value(a@)) % scalar_modulus() == 1,
{
    let x = bls12_381::Scalar::from_bytes(a).unwrap();
    Option::<bls12_381::Scalar>::from(x.invert()).map(|v| v.to_bytes())
}

/// A uniformly random scalar.
///
/// Calls `Field::random` with the thread-local generator; only the
/// canonical encoding is promised.
#[verifier::external_body]
pub(crate) fn scalar_random() -> (r: [u8; 32])
    ensures
        scalar_canonical(r@),
{
    bls12_381::Scalar::random(&mut rand::thread_rng()).to_bytes()
}

/// Whether 48 bytes decode to a G1 subgroup point.
///
/// Calls `G1Affine::from_compressed`.
#[verifier::external_body]
pub(crate) fn g1_decodes(b: &[u8; 48]) -> (ok: bool)
    ensures
        ok == g1_valid(b@),
{
    bool::from(bls12_381::G1Affine::from_compressed(b).is_some())
}

/// `s * G1`, compressed.
///
/// Calls `G1Projective::generator`, `*`, and `G1Affine::to_compressed`.
#[verifier::external_body]
pub(crate) fn g1_mul_base(s: &[u8; 32]) -> (r: [u8; 48])
    requires
        scalar_canonical(s@),
    ensures
        r@ == g1_base_mul(s@),
        g1_valid(r@),
{
    let x = bls12_381::Scalar::from_bytes(s).unwrap();
    bls12_381::G1Affine::from(bls12_381::G1Projective::generator() * x).to_compressed()
}

/// `s * P`, compressed.
///
/// Calls `G1Affine::from_compressed`, `Scalar::from_bytes`, `*`, and
/// `G1Affine::to_compressed`.
#[verifier::external_body]
pub(crate) fn g1_mul(p: &[u8; 48], s: &[u8; 32]) -> (r: [u8; 48])
    requires
        g1_valid(p@),
        scalar_canonical(s@),
    ensures
        r@ == g1_scale(p@, s@),
        g1_valid(r@),
{
    let pt = bls12_381::G1Projective::from(bls12_381::G1Affine::from_compressed(p).unwrap());
    let x = bls12_381::Scalar::from_bytes(s).unwrap();
    bls12_381::G1Affine::from(pt * x).to_compressed()
}

/// `P + Q`, compressed.
///
/// Calls `G1Affine::from_compressed` on both, `+`, and
/// `G1Affine::to_compressed`.
#[verifier::external_body]
pub(crate) fn g1_add(p: &[u8; 48], q: &[u8; 48]) -> (r: [u8; 48])
    requires
        g1_valid(p@),
        g1_valid(q@),
    ensures
        r@ == g1_sum(p@, q@),
        g1_valid(r@),
{
    let a = bls12_381::G1Projective::from(bls12_381::G1Affine::from_compressed(p).unwrap());
    let b = bls12_381::G1Projective::from(bls12_381::G1Affine::from_compressed(q).unwrap());
    bls12_381::G1Affine::from(a + b).to_compressed()
}

/// `P - Q`, compressed.
///
/// Calls `G1Affine::from_compressed` on both, `-`, and
/// `G1Affine::to_compressed`.
#[verifier::external_body]
pub(crate) fn g1_sub(p: &[u8; 48], q: &[u8; 48]) -> (r: [u8; 48])
    requires
        g1_valid(p@),
        g1_valid(q@),
    ensures
        r@ == g1_difference(p@, q@),
        g1_valid(r@),
{
    let a = bls12_381::G1Projective::from(bls12_381::G1Affine::from_compressed(p).unwrap());
    let b = bls12_381::G1Projective::from(bls12_381::G1Affine::from_compressed(q).unwrap());
    bls12_381::G1Affine::from(a - b).to_compressed()
}

/// `-P`, compressed.
///
/// Calls `G1Affine::from_compressed`, unary `-`, and
/// `G1Affine::to_compressed`.
#[verifier::external_body]
pub(crate) fn g1_neg(p: &[u8; 48]) -> (r: [u8; 48])
    requires
        g1_valid(p@),
    ensures
        r@ == g1_negation(p@),
        g1_valid(r@),
{
    (-bls12_381::G1Affine::from_compressed(p).unwrap()).to_compressed()
}

/// Whether a G1 point is the identity.
///
/// Calls `G1Affine::from_compressed` and `G1Affine::is_identity`.
#[verifier::external_body]
pub(crate) fn g1_identity(p: &[u8; 48]) -> (b: bool)
    requires
        g1_valid(p@),
    ensures
        b == g1_is_identity(p@),
{
    bool::from(bls12_381::G1Affine::from_compressed(p).unwrap().is_identity())
}

/// Whether 96 bytes decode to a G2 subgroup point.
///
/// Calls `G2Affine::from_compressed`.
#[verifier::external_body]
pub(crate) fn g2_decodes(b: &[u8; 96]) -> (ok: bool)
    ensures
        ok == g2_valid(b@),
{
    bool::from(bls12_381::G2Affine::from_compressed(b).is_some())
}

/// `s * G2`, compressed.
///
/// Calls `G2Projective::generator`, `*`, and `G2Affine::to_compressed`.
#[verifier::external_body]
pub(crate) fn g2_mul_base(s: &[u8; 32]) -> (r: [u8; 96])
    requires
        scalar_canonical(s@),
    ensures
        r@ == g2_base_mul(s@),
        g2_valid(r@),
{
    let x = bls12_381::Scalar::from_bytes(s).unwrap();
    bls12_381::G2Affine::from(bls12_381::G2Projective::generator() * x).to_compressed()
}

/// Whether `e(A, W) * e(B, G2)` is the identity.
///
/// Calls `multi_miller_loop` on the two pairs (with `G2Prepared::from`),
/// `final_exponentiation`, and compares with `Gt::identity`.
#[verifier::external_body]
pub(crate) fn pairing_check(a: &[u8; 48], w: &[u8; 96], b: &[u8; 48]) -> (ok: bool)
    requires
        g1_valid(a@),
        g2_valid(w@),
        g1_valid(b@),
    ensures
        ok == pairing_product_is_one(a@, w@, b@),
{
    let pa = bls12_381::G1Affine::from_compressed(a).unwrap();
    let pw = bls12_381::G2Prepared::from(bls12_381::G2Affine::from_compressed(w).unwrap());
    let pb = bls12_381::G1Affine::from_compressed(b).unwrap();
    let g2 = bls12_381::G2Prepared::from(bls12_381::G2Affine::generator());
    bls12_381::multi_miller_loop(&[(&pa, &pw), (&pb, &g2)]).final_exponentiation() == bls12_381::Gt::identity()
}

} // verus!
