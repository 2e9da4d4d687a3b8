//! Random draws.

use rand::Rng;
use vstd::prelude::*;

verus! {

/// Draws an integer with `rand::Rng::random_range` from the generator of the current
/// thread (`rand::rng`).
///
/// The contract claims that the drawn number lies in the half-open range; which number
/// comes is left to chance. The range must not be empty: `random_range` panics on one.
#[verifier::external_body]
fn random_range(low: i32, high: i32) -> (r: i32)
    requires
        low < high,
    ensures
        low <= r < high,
{
    rand::rng().random_range(low..high)
}

/// Whether `r` came from a draw over just this half-open range, all of it.
pub closed spec fn drawn(low: i32, high: i32, r: i32) -> bool {
    low < high && call_ensures(random_range, (low, high), r)
}

/// A drawn number lies in the range that it was drawn from.
pub proof fn draws_lie_in_range(low: i32, high: i32, r: i32)
    requires
        drawn(low, high, r),
    ensures
        low <= r < high,
{
}

/// Draws an integer from a half-open range.
pub(crate) fn draw(low: i32, high: i32) -> (r: i32)
    requires
        low < high,
    ensures
        drawn(low, high, r),
        low <= r < high,
{
    random_range(low, high)
}

} // verus!
