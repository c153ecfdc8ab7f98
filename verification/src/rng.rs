//! An explicit random-stream handle.
//!
//! Every generator and every client takes its randomness through this
//! handle, so a whole run is reproducible from a single seed. The handle
//! wraps the outside generator; nothing is promised of the drawn values
//! beyond their documented range.

use vstd::prelude::*;

verus! {

#[verifier::external_type_specification]
#[verifier::external_body]
pub struct ExStdRng(rand::rngs::StdRng);

/// A seeded pseudo-random stream, owned by whoever drives a test run.
pub struct TestRng {
    inner: rand::rngs::StdRng,
}

impl TestRng {
    /// Relies on `rand::SeedableRng::seed_from_u64`: a deterministic
    /// generator built from the seed.
    #[verifier::external_body]
    pub fn new(seed: u64) -> TestRng {
        TestRng { inner: <rand::rngs::StdRng as rand::SeedableRng>::seed_from_u64(seed) }
    }

    /// Relies on `rand::Rng::gen`: one drawn byte; nothing is promised of
    /// its value.
    #[verifier::external_body]
    pub(crate) fn gen_u8(&mut self) -> u8 {
        rand::Rng::gen::<u8>(&mut self.inner)
    }

    /// Relies on `rand::Rng::gen`: one drawn word; nothing is promised of
    /// its value.
    #[verifier::external_body]
    pub(crate) fn gen_u64(&mut self) -> u64 {
        rand::Rng::gen::<u64>(&mut self.inner)
    }

    /// Relies on `rand::Rng::gen`: one drawn coin flip; nothing is
    /// promised of its value.
    #[verifier::external_body]
    pub(crate) fn gen_bool(&mut self) -> bool {
        rand::Rng::gen::<bool>(&mut self.inner)
    }

    /// Relies on `rand::Rng::gen_range`: a value drawn from the non-empty
    /// range `lo..hi`, documented to lie inside it.
    #[verifier::external_body]
    pub(crate) fn gen_range(&mut self, lo: usize, hi: usize) -> (r: usize)
        requires
            lo < hi,
        ensures
            lo <= r < hi,
    {
        rand::Rng::gen_range(&mut self.inner, lo..hi)
    }
}

} // verus!
