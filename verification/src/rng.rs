use vstd::prelude::*;
use picorand::{RNG, WyRand};

verus! {

/// A seeded pseudo-random generator, opaque to verification: every draw
/// is only known to land in the range it was asked for.
#[verifier::external_body]
pub struct Rng {
    inner: RNG<WyRand, u16>,
}

impl Rng {
    /// Relies on picorand's `RNG::<WyRand, u16>::new`: it builds a WyRand
    /// generator from the seed, so the same seed reproduces the same draws.
    #[verifier::external_body]
    pub fn new(seed: u64) -> Rng {
        Rng { inner: RNG::<WyRand, u16>::new(seed) }
    }

    /// Relies on picorand's `RNG::generate_range` over WyRand: Lemire's
    /// range reduction yields a value strictly below `max`, which
    /// `clamp(min, max)` then raises to at least `min`; the conversion
    /// through u16 is lossless because the value stays below
    /// `max <= u16::MAX`.
    #[verifier::external_body]
    pub fn range(&mut self, min: usize, max: usize) -> (r: usize)
        requires
            min < max,
            max <= u16::MAX as usize,
        ensures
            min <= r < max,
    {
        self.inner.generate_range(min, max) as usize
    }
}

} // verus!
