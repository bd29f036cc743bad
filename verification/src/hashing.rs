use vstd::prelude::*;

verus! {

/// The BLAKE3 digest of a byte string.
pub uninterp spec fn blake3_of(data: Seq<u8>) -> Seq<u8>;

/// BLAKE3 of `data`.
///
/// Calls `blake3::hash`; the digest is named `blake3_of` of the input bytes
/// (BLAKE3 is a fixed function of its input) and is 32 bytes long, as
/// `blake3::Hash` holds a `[u8; 32]`.
#[verifier::external_body]
pub(crate) fn blake3_hash(data: &[u8]) -> (h: [u8; 32])
    ensures
        h@ == blake3_of(data@),
{
    *blake3::hash(data).as_bytes()
}

} // verus!
