//! The source of random numbers that the sampling routines draw from.

use crate::scalar::Scalar;
use rand::rngs::StdRng;
use rand::Rng;
use rand::SeedableRng;
use vstd::prelude::*;

verus! {

/// `rand::rngs::StdRng`, the generator of the `rand` crate. Its state is
/// not looked into.
#[verifier::external_type_specification]
#[verifier::external_body]
pub struct ExStdRng(StdRng);

/// A seeded random-number generator. Two sources made from one seed give the
/// same numbers in the same order, so a render can be repeated.
pub struct RandomSource {
    generator: StdRng,
}

/// `rand::SeedableRng::seed_from_u64` for `rand::rngs::StdRng`: a generator
/// whose state is derived from `seed`. Nothing is claimed of its state.
#[verifier::external_body]
fn seeded_generator(seed: u64) -> (generator: StdRng) {
    StdRng::seed_from_u64(seed)
}

/// `rand::Rng::gen_range` on a half-open range of `i64`: the call panics on
/// an empty range, which `requires` leaves out, and returns a number at or
/// above `low` and below `high`. Which one is not stated.
#[verifier::external_body]
fn draw_in_range(generator: &mut StdRng, low: i64, high: i64) -> (drawn: i64)
    requires
        low < high,
    ensures
        low <= drawn < high,
{
    generator.gen_range(low..high)
}

impl RandomSource {
    /// A source that starts from `seed`. The state of the generator is not
    /// looked into, so nothing is stated of the source but that there is one.
    pub fn from_seed(seed: u64) -> (source: RandomSource) {
        RandomSource { generator: seeded_generator(seed) }
    }

    /// A scalar drawn uniformly from those at or above `min` and below `max`.
    pub fn next_scalar(&mut self, min: Scalar, max: Scalar) -> (drawn: Scalar)
        requires
            min@ < max@,
        ensures
            min@ <= drawn@ < max@,
            drawn == Scalar::of(drawn@),
    {
        let raw: i64 = draw_in_range(&mut self.generator, min.units(), max.units());
        Scalar::from_raw(raw)
    }
}

} // verus!
