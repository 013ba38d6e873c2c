//! Explicit, seedable randomness.
//!
//! Every sampling decision of the renderer draws from a generator that is
//! passed down the call chain, so a render with a given seed can be played
//! back.  The draws themselves come from an outside generator; the contracts
//! promise no more than the range of each draw.

use vstd::prelude::*;

verus! {

/// Declares `rand::rngs::StdRng`, the outside generator, as an opaque
/// type so that a stream can hold one.
#[verifier::external_type_specification]
#[verifier::external_body]
pub struct ExStdRng(rand::rngs::StdRng);

/// A pseudo-random stream, seeded explicitly.
pub struct Rng {
    inner: rand::rngs::StdRng,
}

impl Rng {
    /// Relies on `rand::SeedableRng::seed_from_u64` to build a generator
    /// from a word-sized seed; it accepts every seed value.
    #[verifier::external_body]
    pub fn from_seed(seed: u64) -> (r: Rng) {
        Rng { inner: <rand::rngs::StdRng as rand::SeedableRng>::seed_from_u64(seed) }
    }

    /// Relies on `rand::Rng::gen_range`, which returns a value of the given
    /// half-open range and panics only when the range is empty.
    #[verifier::external_body]
    pub fn gen_range(&mut self, lo: i64, hi: i64) -> (r: i64)
        requires
            lo < hi,
        ensures
            lo <= r < hi,
    {
        rand::Rng::gen_range(&mut self.inner, lo..hi)
    }
}

} // verus!
