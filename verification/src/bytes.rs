use vstd::prelude::*;

verus! {

/// The `n` little-endian bytes of `x` (the low `n` bytes; higher bytes are dropped).
pub open spec fn le_seq(x: nat, n: nat) -> Seq<u8>
    decreases n,
{
    if n == 0 {
        Seq::empty()
    } else {
        seq![(x % 256) as u8] + le_seq(x / 256, (n - 1) as nat)
    }
}

/// The number that little-endian bytes encode.
pub open spec fn le_value(s: Seq<u8>) -> nat
    decreases s.len(),
{
    if s.len() == 0 {
        0
    } else {
        s[0] as nat + 256 * le_value(s.drop_first())
    }
}

/// `256^n`.
pub open spec fn pow256(n: nat) -> nat
    decreases n,
{
    if n == 0 { 1 } else { 256 * pow256((n - 1) as nat) }
}

/// `le_seq` has `n` bytes.
pub proof fn lemma_le_seq_len(x: nat, n: nat)
    ensures
        le_seq(x, n).len() == n,
    decreases n,
{
    if n > 0 {
        lemma_le_seq_len(x / 256, (n - 1) as nat);
    }
}

/// Decoding the bytes of `x` gives `x` back when it fits in `n` bytes.
pub proof fn lemma_le_roundtrip(x: nat, n: nat)
    requires
        x < pow256(n),
    ensures
        le_value(le_seq(x, n)) == x,
    decreases n,
{
    if n > 0 {
        lemma_le_seq_len(x / 256, (n - 1) as nat);
        assert(x / 256 < pow256((n - 1) as nat));
        lemma_le_roundtrip(x / 256, (n - 1) as nat);
        assert(le_seq(x, n).drop_first() =~= le_seq(x / 256, (n - 1) as nat));
    } else {
        assert(x == 0);
    }
}

/// Decoding is additive over concatenation.
pub proof fn lemma_le_value_append(a: Seq<u8>, b: Seq<u8>)
    ensures
        le_value(a + b) == le_value(a) + pow256(a.len()) * le_value(b),
    decreases a.len(),
{
    if a.len() == 0 {
        assert(a + b =~= b);
    } else {
        assert((a + b).drop_first() =~= a.drop_first() + b);
        lemma_le_value_append(a.drop_first(), b);
        assert(pow256(a.len()) == 256 * pow256(a.drop_first().len()));
        assert(256 * (le_value(a.drop_first()) + pow256(a.drop_first().len()) * le_value(b))
            == 256 * le_value(a.drop_first()) + (256 * pow256(a.drop_first().len())) * le_value(b))
            by (nonlinear_arith);
    }
}

/// The little-endian bytes of a `u16`.
pub fn u16_le(x: u16) -> (v: Vec<u8>)
    ensures
        v@ == le_seq(x as nat, 2),
{
    let mut v: Vec<u8> = Vec::new();
    v.push((x % 256) as u8);
    v.push(((x / 256) % 256) as u8);
    assert(v@ =~= le_seq(x as nat, 2)) by {
        reveal_with_fuel(le_seq, 3);
    }
    v
}

/// The little-endian bytes of a `u32`.
pub fn u32_le(x: u32) -> (v: Vec<u8>)
    ensures
        v@ == le_seq(x as nat, 4),
{
    let mut v: Vec<u8> = Vec::new();
    let mut y = x;
    let mut i: usize = 0;
    while i < 4
        invariant
            i <= 4,
            le_seq(x as nat, 4) == v@ + le_seq(y as nat, (4 - i) as nat),
        decreases 4 - i,
    {
        v.push((y % 256) as u8);
        assert(le_seq(y as nat, (4 - i) as nat) =~= seq![(y % 256) as u8] + le_seq((y / 256) as nat, (4 - i - 1) as nat));
        y = y / 256;
        i = i + 1;
    }
    assert(le_seq(y as nat, 0) =~= Seq::<u8>::empty());
    assert(v@ + Seq::<u8>::empty() =~= v@);
    v
}

/// The little-endian bytes of a `u64`.
pub fn u64_le(x: u64) -> (v: Vec<u8>)
    ensures
        v@ == le_seq(x as nat, 8),
{
    let mut v: Vec<u8> = Vec::new();
    let mut y = x;
    let mut i: usize = 0;
    while i < 8
        invariant
            i <= 8,
            le_seq(x as nat, 8) == v@ + le_seq(y as nat, (8 - i) as nat),
        decreases 8 - i,
    {
        v.push((y % 256) as u8);
        assert(le_seq(y as nat, (8 - i) as nat) =~= seq![(y % 256) as u8] + le_seq((y / 256) as nat, (8 - i - 1) as nat));
        y = y / 256;
        i = i + 1;
    }
    assert(le_seq(y as nat, 0) =~= Seq::<u8>::empty());
    assert(v@ + Seq::<u8>::empty() =~= v@);
    v
}

/// Append all of `b` to `v`.
pub fn extend_bytes(v: &mut Vec<u8>, b: &[u8])
    ensures
        final(v)@ == old(v)@ + b@,
{
    let mut i: usize = 0;
    let ghost start = v@;
    while i < b.len()
        invariant
            i <= b@.len(),
            v@ == start + b@.subrange(0, i as int),
        decreases b@.len() - i,
    {
        v.push(b[i]);
        assert(b@.subrange(0, i + 1) =~= b@.subrange(0, i as int).push(b@[i as int]));
        i = i + 1;
    }
    assert(b@.subrange(0, b@.len() as int) =~= b@);
}

/// A copy of `b[start..end]`.
pub fn slice_to_vec(b: &[u8], start: usize, end: usize) -> (v: Vec<u8>)
    requires
        start <= end <= b@.len(),
    ensures
        v@ == b@.subrange(start as int, end as int),
{
    let mut v: Vec<u8> = Vec::new();
    let mut i: usize = start;
    while i < end
        invariant
            start <= i <= end,
            end <= b@.len(),
            v@ == b@.subrange(start as int, i as int),
        decreases end - i,
    {
        v.push(b[i]);
        assert(b@.subrange(start as int, i + 1) =~= b@.subrange(start as int, i as int).push(b@[i as int]));
        i = i + 1;
    }
    v
}

/// Whether two byte strings are equal.
pub fn bytes_eq(a: &[u8], b: &[u8]) -> (r: bool)
    ensures
        r == (a@ == b@),
{
    if a.len() != b.len() {
        return false;
    }
    let mut i: usize = 0;
    while i < a.len()
        invariant
            i <= a@.len(),
            a@.len() == b@.len(),
            forall|j: int| 0 <= j < i ==> a@[j] == b@[j],
        decreases a@.len() - i,
    {
        if a[i] != b[i] {
            return false;
        }
        i = i + 1;
    }
    assert(a@ =~= b@);
    true
}

/// Bytes decode to less than `256^len`.
pub proof fn lemma_le_value_bound(s: Seq<u8>)
    ensures
        le_value(s) < pow256(s.len()),
    decreases s.len(),
{
    if s.len() > 0 {
        lemma_le_value_bound(s.drop_first());
        let v = le_value(s.drop_first());
        let p = pow256(s.drop_first().len());
        assert(s[0] as nat + 256 * v < 256 * p) by (nonlinear_arith)
            requires
                v < p,
                s[0] < 256,
        ;
    }
}

/// The number held by the 8 little-endian bytes of `b` at `pos`.
pub fn read_u64_le(b: &[u8], pos: usize) -> (n: u64)
    requires
        pos + 8 <= b@.len(),
    ensures
        n == le_value(b@.subrange(pos as int, pos + 8)),
{
    let ghost s = b@.subrange(pos as int, pos + 8);
    let blen = b.len();
    let mut acc: u64 = 0;
    let mut k: usize = 8;
    assert(s.subrange(8, 8).len() == 0);
    while k > 0
        invariant
            k <= 8,
            pos + 8 <= b@.len(),
            blen == b@.len(),
            s == b@.subrange(pos as int, pos + 8),
            acc == le_value(s.subrange(k as int, 8)),
        decreases k,
    {
        k = k - 1;
        let byte = b[pos + k];
        proof {
            assert(s.subrange(k as int, 8).drop_first() =~= s.subrange(k + 1, 8));
            assert(s.subrange(k as int, 8)[0] == byte);
            lemma_le_value_bound(s.subrange(k as int, 8));
            lemma_le_value_bound(s.subrange(k + 1, 8));
            assert(pow256(8) == 0x1_0000_0000_0000_0000) by {
                reveal_with_fuel(pow256, 9);
            }
            lemma_pow256_monotone((8 - k) as nat, 8);
        }
        acc = (byte as u64) + 256 * acc;
    }
    assert(s.subrange(0, 8) =~= s);
    acc
}

/// `256^n` grows with `n`.
pub proof fn lemma_pow256_monotone(a: nat, b: nat)
    requires
        a <= b,
    ensures
        pow256(a) <= pow256(b),
    decreases b,
{
    if a < b {
        lemma_pow256_monotone(a, (b - 1) as nat);
    }
}

} // verus!
