//! The random source that every sampling routine draws from.
//!
//! Each worker owns one `RandomSource`; nothing is shared between them.  The
//! generator is the standard generator of the `rand` crate, so nothing is known
//! of a sample beyond the range it was asked for.

use vstd::prelude::*;
use rand::rngs::StdRng;
use crate::fixed::Fixed;
use crate::fixed::ONE_RAW;

verus! {

#[verifier::external_type_specification]
#[verifier::external_body]
pub struct ExStdRng(StdRng);

/// `SeedableRng::seed_from_u64` for `StdRng`.  Nothing is claimed of the
/// generator that comes back.
#[verifier::external_body]
fn seeded_generator(seed: u64) -> (r: StdRng) {
    let r: StdRng = rand::SeedableRng::seed_from_u64(seed);
    r
}

/// `Rng::gen_range` on the half-open range `lo..hi` of `i64`.  The call
/// panics on an empty range, which the precondition excludes; the sample it
/// returns lies in the range.
#[verifier::external_body]
fn sample_range(rng: &mut StdRng, lo: i64, hi: i64) -> (r: i64)
    requires
        lo < hi,
    ensures
        lo <= r < hi,
{
    rand::Rng::gen_range(rng, lo..hi)
}

/// A stream of random numbers owned by one worker.
pub struct RandomSource {
    rng: StdRng,
}

impl RandomSource {
    /// The generator that the source draws from.
    pub closed spec fn generator(self) -> StdRng {
        self.rng
    }

    /// A source on top of the generator that `rand` makes of `seed`.
    pub fn from_seed(seed: u64) -> (r: RandomSource) {
        RandomSource::from_generator(seeded_generator(seed))
    }

    /// A source on top of a generator that the caller has set up.
    pub fn from_generator(rng: StdRng) -> (r: RandomSource)
        ensures
            r.generator() == rng,
    {
        RandomSource { rng }
    }

    /// A whole number drawn from `lo..hi`.
    pub fn below(&mut self, lo: i64, hi: i64) -> (r: i64)
        requires
            lo < hi,
        ensures
            lo <= r < hi,
    {
        sample_range(&mut self.rng, lo, hi)
    }

    /// A number drawn from the half-open interval `[0, 1)`.
    pub fn unit(&mut self) -> (r: Fixed)
        ensures
            0 <= r.raw < ONE_RAW,
    {
        Fixed { raw: sample_range(&mut self.rng, 0, ONE_RAW) }
    }

    /// A number drawn from the open interval `(0, 1)`.
    pub fn open_unit(&mut self) -> (r: Fixed)
        ensures
            0 < r.raw < ONE_RAW,
    {
        Fixed { raw: sample_range(&mut self.rng, 1, ONE_RAW) }
    }

    /// A number drawn from the half-open interval `[min, max)`.
    pub fn between(&mut self, min: Fixed, max: Fixed) -> (r: Fixed)
        requires
            min.raw < max.raw,
        ensures
            min.raw <= r.raw < max.raw,
    {
        Fixed { raw: sample_range(&mut self.rng, min.raw, max.raw) }
    }

    /// One of the three axes.
    pub fn axis(&mut self) -> (r: usize)
        ensures
            r < 3,
    {
        let k: i64 = sample_range(&mut self.rng, 0, 3);
        k as usize
    }
}

} // verus!
