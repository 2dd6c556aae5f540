//! The one source of randomness the library draws from.
use rand::Rng;
use vstd::prelude::*;

verus! {

/// Draws an integer from `0..bound` with the thread-local generator of the
/// `rand` crate (`rand::thread_rng().gen_range(0..bound)`).
///
/// Trusted: `gen_range` panics on an empty range, which the precondition
/// excludes, and returns a member of the range it was given. Nothing else is
/// claimed of the drawn value; two calls with the same bound may differ.
#[verifier::external_body]
pub(crate) fn uniform_below(bound: u64) -> (drawn: u64)
    requires
        bound > 0,
    ensures
        drawn < bound,
{
    rand::thread_rng().gen_range(0..bound)
}

} // verus!
