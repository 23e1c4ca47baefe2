//! The source of random pad indices: the thread-local generator of the
//! `rand` crate. It is not guaranteed to be secure.

use rand::Rng;
use vstd::prelude::*;

verus! {

/// The thread-local generator of `rand`. What is inside it is of no
/// concern here: it is only handed on to [`random_index`].
#[verifier::external_type_specification]
#[verifier::external_body]
pub struct ExThreadRng(rand::rngs::ThreadRng);

/// `rand::thread_rng` hands out the calling thread's generator, which the
/// system seeds. Nothing is claimed of it.
pub assume_specification[ rand::thread_rng ]() -> (rng: rand::rngs::ThreadRng)
;

/// Draws an index with `rand::Rng::gen_range`, on the range from 0 up to
/// `bound`, without `bound` itself. That call panics on an empty range,
/// so `bound` must not be 0. What it returns lies in the range; nothing
/// more is claimed of a random draw, and two draws may differ.
#[verifier::external_body]
pub(crate) fn random_index(rng: &mut rand::rngs::ThreadRng, bound: usize) -> (index: usize)
    requires
        bound > 0,
    ensures
        index < bound,
{
    rng.gen_range(0..bound)
}

} // verus!
