//! Decimal rendering of counters and positions as bytes.

use vstd::prelude::*;

verus! {

/// The decimal digits of `n`, most significant first, as ASCII bytes.
pub open spec fn dec_bytes(n: int) -> Seq<u8>
    decreases (if n > 0 { n } else { 0 }),
{
    if n < 10 {
        seq![(48 + n) as u8]
    } else {
        dec_bytes(n / 10).push((48 + n % 10) as u8)
    }
}

/// Renders `n` in decimal.
pub fn u64_to_dec(n: u64) -> (out: Vec<u8>)
    ensures
        out@ == dec_bytes(n as int),
    decreases n,
{
    if n < 10 {
        let mut out: Vec<u8> = Vec::new();
        out.push(48 + (n as u8));
        proof {
            assert(out@ =~= seq![(48 + n as int) as u8]);
        }
        out
    } else {
        let mut out = u64_to_dec(n / 10);
        out.push(48 + ((n % 10) as u8));
        out
    }
}

/// Renders a `usize` count in decimal.
pub fn usize_to_dec(n: usize) -> (out: Vec<u8>)
    ensures
        out@ == dec_bytes(n as int),
{
    u64_to_dec(n as u64)
}

} // verus!
