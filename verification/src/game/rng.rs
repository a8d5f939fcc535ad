//! The seeded random-number generator of the game.

use vstd::prelude::*;
use rand::rngs::StdRng;

verus! {

/// The generator type of the `rand` crate.
#[verifier::external_type_specification]
#[verifier::external_body]
pub struct ExStdRng(StdRng);

/// `StdRng::seed_from_u64`: a generator whose stream the seed fixes on a
/// given build and platform. The crate documents `StdRng` as not portable
/// across platforms or versions, so nothing is stated of the stream.
#[verifier::external_body]
pub(crate) fn seeded_rng(seed: u64) -> StdRng {
    <StdRng as rand::SeedableRng>::seed_from_u64(seed)
}

/// `RngExt::random_range(0..n)` on `usize`: a value below `n`; which one is
/// not stated. The range must not be empty (the call panics on an empty
/// range).
#[verifier::external_body]
pub(crate) fn random_index(rng: &mut StdRng, n: usize) -> (r: usize)
    requires
        n > 0,
    ensures
        r < n,
{
    rand::RngExt::random_range(rng, 0..n)
}

/// `RngExt::random_range(0..100)` on `u32`: a value below 100; which one is
/// not stated.
#[verifier::external_body]
pub(crate) fn random_percent(rng: &mut StdRng) -> (r: u32)
    ensures
        r < 100,
{
    rand::RngExt::random_range(rng, 0u32..100u32)
}

/// A generator together with the seed it was made from, which every draw
/// keeps: what is drawn from it comes from the stream of that seed.
pub struct SeededRng {
    rng: StdRng,
    seed: Ghost<u64>,
}

impl SeededRng {
    /// The seed the generator was made from.
    pub closed spec fn spec_seed(&self) -> u64 {
        self.seed@
    }

    /// A generator made from `seed` with `StdRng::seed_from_u64`.
    pub fn new(seed: u64) -> (r: Self)
        ensures
            r.spec_seed() == seed,
    {
        SeededRng { rng: seeded_rng(seed), seed: Ghost(seed) }
    }

    /// The next index below `n` from this generator's stream.
    pub fn index_below(&mut self, n: usize) -> (r: usize)
        requires
            n > 0,
        ensures
            r < n,
            final(self).spec_seed() == old(self).spec_seed(),
    {
        random_index(&mut self.rng, n)
    }

    /// The next value below 100 from this generator's stream.
    pub fn percent(&mut self) -> (r: u32)
        ensures
            r < 100,
            final(self).spec_seed() == old(self).spec_seed(),
    {
        random_percent(&mut self.rng)
    }
}

} // verus!
