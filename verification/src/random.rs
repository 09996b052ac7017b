//! The two draws the simulation takes from the `rand` crate's thread-local
//! generator. Nothing is proved of them: their contracts restate what the
//! crate documents.

use rand::Rng;
use vstd::prelude::*;

verus! {

/// Calls `rand::Rng::random_range` on `rand::rng()` with the half-open range
/// `low..high`. The crate documents that the value drawn lies in the range and
/// that an empty range panics, so the range must be non-empty.
#[verifier::external_body]
pub(crate) fn random_range(low: u64, high: u64) -> (r: u64)
    requires
        low < high,
    ensures
        low <= r < high,
{
    rand::rng().random_range(low..high)
}

/// Calls `rand::Rng::random_ratio` on `rand::rng()`: `true` with probability
/// `numerator / denominator`. The crate documents a panic for a zero
/// denominator or a numerator above it, and a fixed answer at the two ends.
#[verifier::external_body]
pub(crate) fn random_ratio(numerator: u32, denominator: u32) -> (r: bool)
    requires
        0 < denominator,
        numerator <= denominator,
    ensures
        numerator == denominator ==> r,
        numerator == 0 ==> !r,
{
    rand::rng().random_ratio(numerator, denominator)
}

} // verus!
