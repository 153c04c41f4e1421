use vstd::prelude::*;

use bracket_random::prelude::RandomNumberGenerator;

verus! {

#[verifier::external_type_specification]
#[verifier::external_body]
pub struct ExRandomNumberGenerator(RandomNumberGenerator);

/// Relies on bracket-random's RandomNumberGenerator::new: a fresh generator
/// seeded from system entropy. Nothing is promised of the stream it produces.
#[verifier::external_body]
pub(crate) fn rng_new() -> RandomNumberGenerator {
    RandomNumberGenerator::new()
}

/// Relies on bracket-random's RandomNumberGenerator::range: a sample inclusive
/// of `min` and exclusive of `max`. rand panics on an empty range, so the
/// precondition rules that out; which value comes back is promised of no call.
#[verifier::external_body]
pub(crate) fn rng_range(rng: &mut RandomNumberGenerator, min: i32, max: i32) -> (r: i32)
    requires
        min < max,
    ensures
        min <= r < max,
{
    rng.range(min, max)
}

} // verus!
