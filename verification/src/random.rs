//! The source of random numbers, which comes from the `rand` crate. Nothing
//! here is proved: the contracts say what `rand` documents.

use vstd::prelude::*;
use rand::Rng;

verus! {

/// `rand::rngs::ThreadRng`, the generator that each thread keeps for itself.
/// Nothing is known of what it holds.
#[verifier::external_type_specification]
#[verifier::external_body]
pub struct ExThreadRng(rand::rngs::ThreadRng);

/// `rand::thread_rng` hands out the calling thread's generator, seeded by the
/// system. Nothing is claimed of it. It panics if the system cannot seed the
/// generator, which no caller can rule out.
pub assume_specification[ rand::thread_rng ]() -> (rng: rand::rngs::ThreadRng);

/// `Rng::gen_range` on the half-open range from 0 to `bound`: some index
/// below `bound`. Which one is left open. `gen_range` panics on an empty
/// range, so `bound` must be positive.
#[verifier::external_body]
pub(crate) fn random_index(rng: &mut rand::rngs::ThreadRng, bound: usize) -> (index: usize)
    requires
        bound > 0,
    ensures
        index < bound,
{
    rng.gen_range(0..bound)
}

} // verus!
