use vstd::prelude::*;

verus! {

/// Protocol version embedded in every share.
pub const PROTOCOL_VERSION: u8 = 1;

/// Dissolution parameters — determine shard counts and MID computation.
#[derive(Debug, Clone, Copy, PartialEq, Eq)]
pub struct DissolutionParams {
    /// Number of data shards (k).
    pub data_shards: usize,
    /// Total shards (n).
    pub total_shards: usize,
}

impl Default for DissolutionParams {
    /// k = 10, n = 20.
    fn default() -> (p: Self)
        ensures
            p.data_shards == 10,
            p.total_shards == 20,
    {
        DissolutionParams { data_shards: 10, total_shards: 20 }
    }
}

/// The ASCII decimal representation of `n`.
pub open spec fn decimal_ascii(n: nat) -> Seq<u8>
    decreases n,
{
    if n < 10 {
        seq![(48 + n) as u8]
    } else {
        decimal_ascii(n / 10).push((48 + n % 10) as u8)
    }
}

/// Append the ASCII decimal digits of `n` to `out`.
pub fn push_decimal_ascii(out: &mut Vec<u8>, n: u64)
    ensures
        final(out)@ == old(out)@ + decimal_ascii(n as nat),
    decreases n,
{
    if n >= 10 {
        push_decimal_ascii(out, n / 10);
    }
    out.push((48 + n % 10) as u8);
    assert(out@ =~= old(out)@ + decimal_ascii(n as nat));
}

/// The canonical parameter bytes: `k={k},n={n},v={PROTOCOL_VERSION}` in ASCII.
pub open spec fn param_bytes_spec(p: DissolutionParams) -> Seq<u8> {
    seq![107u8, 61u8] + decimal_ascii(p.data_shards as nat) + seq![44u8, 110u8, 61u8]
        + decimal_ascii(p.total_shards as nat) + seq![44u8, 118u8, 61u8] + decimal_ascii(PROTOCOL_VERSION as nat)
}

impl DissolutionParams {
    /// Canonical byte encoding used for MID computation:
    /// `k={k},n={n},v={PROTOCOL_VERSION}`.
    pub fn to_param_bytes(&self) -> (b: Vec<u8>)
        ensures
            b@ == param_bytes_spec(*self),
    {
        let mut out: Vec<u8> = Vec::new();
        out.push(107u8); // 'k'
        out.push(61u8); // '='
        push_decimal_ascii(&mut out, self.data_shards as u64);
        out.push(44u8); // ','
        out.push(110u8); // 'n'
        out.push(61u8);
        push_decimal_ascii(&mut out, self.total_shards as u64);
        out.push(44u8);
        out.push(118u8); // 'v'
        out.push(61u8);
        push_decimal_ascii(&mut out, PROTOCOL_VERSION as u64);
        assert(out@ =~= param_bytes_spec(*self));
        out
    }

    /// Number of recovery shards: `n - k`.
    pub fn recovery_shards(&self) -> (r: usize)
        requires
            self.data_shards <= self.total_shards,
        ensures
            r == self.total_shards - self.data_shards,
    {
        self.total_shards - self.data_shards
    }
}

} // verus!
