//! The random draws the simulation makes, through rand's thread-local generator.
use rand::rngs::ThreadRng;
use rand::Rng;
use vstd::prelude::*;

verus! {

/// rand's thread-local generator, carried through the library unopened.
#[verifier::external_type_specification]
#[verifier::external_body]
pub struct ExThreadRng(ThreadRng);

/// Relies on rand 0.7's `Rng::gen_range`: a value in `[low, high)`; it panics
/// unless `low < high`.
#[verifier::external_body]
pub(crate) fn random_range(rng: &mut ThreadRng, low: i64, high: i64) -> (r: i64)
    requires
        low < high,
    ensures
        low <= r < high,
{
    rng.gen_range(low, high)
}

/// Relies on rand 0.7's `Rng::gen_ratio`: `true` with probability
/// `numerator / denominator`; always `false` for a zero numerator and always
/// `true` when both are equal. It panics on a zero denominator or a numerator
/// above the denominator.
#[verifier::external_body]
pub(crate) fn random_ratio(rng: &mut ThreadRng, numerator: u32, denominator: u32) -> (r: bool)
    requires
        0 < denominator,
        numerator <= denominator,
    ensures
        numerator == 0 ==> !r,
        numerator == denominator ==> r,
{
    rng.gen_ratio(numerator, denominator)
}

} // verus!
