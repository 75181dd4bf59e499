//! Random draws, through the `rand` crate.
//!
//! Nothing is assumed of a drawn value beyond its range: every caller's
//! contract holds for every outcome.  Signed and interval draws are derived
//! from the one trusted wrapper in verified code.

use vstd::prelude::*;

verus! {

/// Relies on `rand::random_range`: returns a value uniform in the given
/// range, from the thread-local generator.  It panics on an empty range,
/// which the precondition rules out, and on failure of the system entropy
/// source at the generator's first seeding.
#[verifier::external_body]
pub fn rand_below(n: u64) -> (r: u64)
    requires
        1 <= n,
    ensures
        r < n,
{
    rand::random_range(0..n)
}

/// Uniform draw from the closed interval `[-bound, bound]`.
pub fn rand_signed(bound: u64) -> (r: i64)
    requires
        bound <= 0x1000_0000,
    ensures
        -(bound as int) <= r <= bound as int,
{
    let raw = rand_below(2 * bound + 1);
    (raw as i64) - (bound as i64)
}

/// Uniform draw from the half-open interval `[lo, hi)`.
pub fn rand_range_i64(lo: i64, hi: i64) -> (r: i64)
    requires
        lo < hi,
        hi - lo <= 0x1000_0000_0000,
    ensures
        lo <= r < hi,
{
    let width = (hi - lo) as u64;
    let raw = rand_below(width);
    lo + (raw as i64)
}

} // verus!
