//! The source of chance for the placing of oscillators.

use vstd::prelude::*;
use rand::Rng;
use rand::rngs::ThreadRng;

verus! {

/// `rand::rngs::ThreadRng`, the handle of the generator of random numbers
/// that each thread has. Nothing is known of what it holds.
#[verifier::external_type_specification]
#[verifier::external_body]
pub struct ExThreadRng(ThreadRng);

/// `rand::thread_rng` hands out the handle of the calling thread's generator.
/// Nothing is claimed of it.
pub assume_specification[ rand::thread_rng ]() -> (rng: ThreadRng)
;

/// `rand::Rng::gen_range` on the range `0..bound`: a number below `bound`,
/// and which one is left to chance. The outside function panics on an empty
/// range, so `bound` must not be zero.
#[verifier::external_body]
pub(crate) fn below(rng: &mut ThreadRng, bound: u32) -> (drawn: u32)
    requires
        bound > 0,
    ensures
        drawn < bound,
{
    rng.gen_range(0..bound)
}

} // verus!
