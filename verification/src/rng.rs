//! The engine's source of uniform randomness.
//!
//! Randomness is passed explicitly: one seeded generator per search, so that
//! separate searches never share state and a fixed seed fixes the stream.

use rand::Rng;
use rand::SeedableRng;
use vstd::prelude::*;

verus! {

/// The standard generator of the `rand` crate, declared so that a value of it
/// can be carried through verified code.
#[verifier::external_type_specification]
#[verifier::external_body]
pub struct ExStdRng(rand::rngs::StdRng);

/// A source of uniform randomness for one search.
pub(crate) struct RandomSource {
    rng: rand::rngs::StdRng,
}

impl RandomSource {
    /// Relies on `rand::SeedableRng::seed_from_u64`: builds a generator from
    /// the seed. Nothing is assumed about the values it will yield.
    #[verifier::external_body]
    pub(crate) fn from_seed(seed: u64) -> RandomSource {
        RandomSource { rng: rand::rngs::StdRng::seed_from_u64(seed) }
    }

    /// Relies on `rand::Rng::gen_range` over `0..bound`: a value uniform in
    /// that half-open range, so always below `bound`. The range must not be
    /// empty, or the call panics.
    #[verifier::external_body]
    pub(crate) fn draw_below(&mut self, bound: u64) -> (r: u64)
        requires
            bound > 0,
        ensures
            r < bound,
    {
        self.rng.gen_range(0..bound)
    }
}

} // verus!
