//! Randomness drawn from the thread-local generator of `rand`.
use vstd::prelude::*;
use rand::Rng;

verus! {

/// Relies on rand's `Rng::gen_ratio`: `true` with probability
/// `numerator / denominator`; it panics when `denominator == 0` or
/// `numerator > denominator`, so those inputs are excluded.
#[verifier::external_body]
pub(crate) fn chance(numerator: u32, denominator: u32) -> (r: bool)
    requires
        0 < denominator,
        numerator <= denominator,
{
    rand::thread_rng().gen_ratio(numerator, denominator)
}

/// Relies on rand's `Rng::gen_range` on `0..bound`: a value in that range;
/// it panics on an empty range, so `bound` must be positive.
#[verifier::external_body]
pub(crate) fn random_below(bound: usize) -> (r: usize)
    requires
        0 < bound,
    ensures
        r < bound,
{
    rand::thread_rng().gen_range(0..bound)
}

} // verus!
