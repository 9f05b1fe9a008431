use rand::Rng;
use vstd::prelude::*;

verus! {

/// Draws an index uniformly from `0..bound` with `rand::Rng::gen_range` on the thread-local
/// generator. The contract claims only that the index is below `bound`; which index comes out
/// rests on chance and is not stated. `gen_range` panics on an empty range, hence `bound > 0`.
#[verifier::external_body]
pub(crate) fn random_index(bound: usize) -> (r: usize)
    requires
        bound > 0,
    ensures
        r < bound,
{
    rand::thread_rng().gen_range(0..bound)
}

} // verus!
