//! The pseudorandom generator handle the spawn and reaction policies
//! thread through their draws.  The generator itself comes from the
//! `rand` crate; this module declares it for the verifier and gives
//! the one primitive draw a contract, then derives the range and
//! chance helpers from it in verified code.

use vstd::prelude::*;
use rand::Rng;
use rand::rngs::SmallRng;

verus! {

#[verifier::external_type_specification]
#[verifier::external_body]
pub struct ExSmallRng(SmallRng);

/// Relies on rand's `Rng::gen_range` over the integer range `0..n`:
/// it returns a value of that range and panics only when the range is
/// empty, which the precondition rules out.
#[verifier::external_body]
fn rng_below(rng: &mut SmallRng, n: u64) -> (r: u64)
    requires
        n >= 1,
    ensures
        r < n,
{
    rng.gen_range(0..n)
}

/// A draw from `lo..hi`.
pub fn range_u64(rng: &mut SmallRng, lo: u64, hi: u64) -> (r: u64)
    requires
        lo < hi,
    ensures
        lo <= r < hi,
{
    lo + rng_below(rng, hi - lo)
}

/// A draw from `lo..hi` over signed coordinates.
pub fn range_i64(rng: &mut SmallRng, lo: i64, hi: i64) -> (r: i64)
    requires
        -0x2000_0000_0000_0000 <= lo < hi <= 0x2000_0000_0000_0000,
    ensures
        lo <= r < hi,
{
    let span: u64 = (hi - lo) as u64;
    let d: u64 = rng_below(rng, span);
    lo + (d as i64)
}

/// One chance in `n`.
pub fn chance(rng: &mut SmallRng, n: u64) -> (r: bool)
    requires
        n >= 1,
{
    rng_below(rng, n) == 0
}

} // verus!
