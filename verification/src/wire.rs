use vstd::prelude::*;
use crate::bytes::{extend_bytes, le_seq, u32_le, u64_le};
use vstd::utf8::encode_utf8;

verus! {

/// A length-prefixed byte field: the length (8 bytes LE), then the bytes.
pub open spec fn bytes_field(v: Seq<u8>) -> Seq<u8> {
    le_seq(v.len(), 8) + v
}

/// A length-prefixed UTF-8 string field.
pub open spec fn string_field(s: Seq<char>) -> Seq<u8> {
    bytes_field(encode_utf8(s))
}

/// The string fields of a list, one after the other.
pub open spec fn string_fields(v: Seq<Seq<char>>) -> Seq<u8>
    decreases v.len(),
{
    if v.len() == 0 {
        Seq::empty()
    } else {
        string_fields(v.drop_last()) + string_field(v.last())
    }
}

/// A list of strings: its length (8 bytes LE), then each string field.
pub open spec fn string_list(v: Seq<Seq<char>>) -> Seq<u8> {
    le_seq(v.len(), 8) + string_fields(v)
}

/// The byte fields of a list, one after the other.
pub open spec fn byte_fields(v: Seq<Seq<u8>>) -> Seq<u8>
    decreases v.len(),
{
    if v.len() == 0 {
        Seq::empty()
    } else {
        byte_fields(v.drop_last()) + bytes_field(v.last())
    }
}

/// A list of byte strings: its length (8 bytes LE), then each byte field.
pub open spec fn byte_list(v: Seq<Seq<u8>>) -> Seq<u8> {
    le_seq(v.len(), 8) + byte_fields(v)
}

/// The 32-byte keys of a list, one after the other.
pub open spec fn key_fields(v: Seq<[u8; 32]>) -> Seq<u8>
    decreases v.len(),
{
    if v.len() == 0 {
        Seq::empty()
    } else {
        key_fields(v.drop_last()) + v.last()@
    }
}

/// A list of 32-byte keys: its length (8 bytes LE), then the keys.
pub open spec fn key_list(v: Seq<[u8; 32]>) -> Seq<u8> {
    le_seq(v.len(), 8) + key_fields(v)
}

/// Pairs of numbers, each as two 8-byte LE numbers.
pub open spec fn pair_fields(v: Seq<(usize, u64)>) -> Seq<u8>
    decreases v.len(),
{
    if v.len() == 0 {
        Seq::empty()
    } else {
        pair_fields(v.drop_last()) + le_seq(v.last().0 as nat, 8) + le_seq(v.last().1 as nat, 8)
    }
}

/// A list of number pairs: its length (8 bytes LE), then the pairs.
pub open spec fn pair_list(v: Seq<(usize, u64)>) -> Seq<u8> {
    le_seq(v.len(), 8) + pair_fields(v)
}

/// Append a length-prefixed byte field.
pub fn push_bytes_field(out: &mut Vec<u8>, v: &[u8])
    ensures
        final(out)@ == old(out)@ + bytes_field(v@),
{
    let n = u64_le(v.len() as u64);
    extend_bytes(out, n.as_slice());
    extend_bytes(out, v);
    assert(out@ =~= old(out)@ + bytes_field(v@));
}

/// Append a length-prefixed UTF-8 string field.
pub fn push_string_field(out: &mut Vec<u8>, s: &str)
    ensures
        final(out)@ == old(out)@ + string_field(s@),
{
    push_bytes_field(out, s.as_bytes());
}

/// Append a length-prefixed list of strings.
pub fn push_string_list(out: &mut Vec<u8>, v: &Vec<String>)
    ensures
        final(out)@ == old(out)@ + string_list(v@.map_values(|s: String| s@)),
{
    let ghost ts = v@.map_values(|s: String| s@);
    let n = u64_le(v.len() as u64);
    extend_bytes(out, n.as_slice());
    let ghost start = out@;
    let mut i: usize = 0;
    while i < v.len()
        invariant
            i <= v@.len(),
            ts == v@.map_values(|s: String| s@),
            out@ == start + string_fields(ts.take(i as int)),
        decreases v@.len() - i,
    {
        push_string_field(out, v[i].as_str());
        proof {
            assert(ts.take(i + 1).drop_last() =~= ts.take(i as int));
            assert(ts.take(i + 1).last() == v@[i as int]@);
            assert(out@ =~= start + string_fields(ts.take(i + 1)));
        }
        i = i + 1;
    }
    assert(ts.take(v@.len() as int) =~= ts);
    assert(out@ =~= old(out)@ + string_list(ts));
}

/// Append a length-prefixed list of byte strings.
pub fn push_byte_list(out: &mut Vec<u8>, v: &Vec<Vec<u8>>)
    ensures
        final(out)@ == old(out)@ + byte_list(v@.map_values(|b: Vec<u8>| b@)),
{
    let ghost bs = v@.map_values(|b: Vec<u8>| b@);
    let n = u64_le(v.len() as u64);
    extend_bytes(out, n.as_slice());
    let ghost start = out@;
    let mut i: usize = 0;
    while i < v.len()
        invariant
            i <= v@.len(),
            bs == v@.map_values(|b: Vec<u8>| b@),
            out@ == start + byte_fields(bs.take(i as int)),
        decreases v@.len() - i,
    {
        push_bytes_field(out, v[i].as_slice());
        proof {
            assert(bs.take(i + 1).drop_last() =~= bs.take(i as int));
            assert(bs.take(i + 1).last() == v@[i as int]@);
            assert(out@ =~= start + byte_fields(bs.take(i + 1)));
        }
        i = i + 1;
    }
    assert(bs.take(v@.len() as int) =~= bs);
    assert(out@ =~= old(out)@ + byte_list(bs));
}

/// Append a length-prefixed list of 32-byte keys.
pub fn push_key_list(out: &mut Vec<u8>, v: &Vec<[u8; 32]>)
    ensures
        final(out)@ == old(out)@ + key_list(v@),
{
    let n = u64_le(v.len() as u64);
    extend_bytes(out, n.as_slice());
    let ghost start = out@;
    let mut i: usize = 0;
    while i < v.len()
        invariant
            i <= v@.len(),
            out@ == start + key_fields(v@.take(i as int)),
        decreases v@.len() - i,
    {
        extend_bytes(out, v[i].as_slice());
        proof {
            assert(v@.take(i + 1).drop_last() =~= v@.take(i as int));
            assert(v@.take(i + 1).last() == v@[i as int]);
            assert(out@ =~= start + key_fields(v@.take(i + 1)));
        }
        i = i + 1;
    }
    assert(v@.take(v@.len() as int) =~= v@);
    assert(out@ =~= old(out)@ + key_list(v@));
}

/// Append a length-prefixed list of number pairs.
pub fn push_pair_list(out: &mut Vec<u8>, v: &Vec<(usize, u64)>)
    ensures
        final(out)@ == old(out)@ + pair_list(v@),
{
    let n = u64_le(v.len() as u64);
    extend_bytes(out, n.as_slice());
    let ghost start = out@;
    let mut i: usize = 0;
    while i < v.len()
        invariant
            i <= v@.len(),
            out@ == start + pair_fields(v@.take(i as int)),
        decreases v@.len() - i,
    {
        let a = u64_le(v[i].0 as u64);
        let b = u64_le(v[i].1);
        extend_bytes(out, a.as_slice());
        extend_bytes(out, b.as_slice());
        proof {
            assert(v@.take(i + 1).drop_last() =~= v@.take(i as int));
            assert(v@.take(i + 1).last() == v@[i as int]);
            assert(out@ =~= start + pair_fields(v@.take(i + 1)));
        }
        i = i + 1;
    }
    assert(v@.take(v@.len() as int) =~= v@);
    assert(out@ =~= old(out)@ + pair_list(v@));
}

/// Append a 4-byte LE enum variant tag.
pub fn push_variant(out: &mut Vec<u8>, tag: u32)
    ensures
        final(out)@ == old(out)@ + le_seq(tag as nat, 4),
{
    let t = u32_le(tag);
    extend_bytes(out, t.as_slice());
}

/// Append an 8-byte LE number.
pub fn push_u64(out: &mut Vec<u8>, x: u64)
    ensures
        final(out)@ == old(out)@ + le_seq(x as nat, 8),
{
    let t = u64_le(x);
    extend_bytes(out, t.as_slice());
}

} // verus!
