//! The draws that mutation takes from the thread-local random number
//! generator.

use rand::seq::SliceRandom;
use rand::Rng;
use vstd::prelude::*;

verus! {

/// Calls `rand::thread_rng()` and `Rng::gen::<u32>()` on it.
///
/// The call yields 32 uniformly random bits; any `u32` can come back, so
/// the contract promises nothing about the value. The generator is
/// seeded by the system when a thread first uses it, and it ends the
/// program if the system gives it no seed.
#[verifier::external_body]
pub(crate) fn random_bits() -> (bits: u32) {
    rand::thread_rng().gen::<u32>()
}

/// Calls `rand::thread_rng()` and `Rng::gen_range(0, bound)` on it.
///
/// `gen_range` panics when the range is empty, so `bound` must be
/// positive; it samples from the half-open range `[0, bound)`, which is
/// all that the contract claims. The generator is seeded as for
/// [`random_bits`].
#[verifier::external_body]
pub(crate) fn random_below(bound: usize) -> (index: usize)
    requires
        bound > 0,
    ensures
        index < bound,
{
    rand::thread_rng().gen_range(0, bound)
}

/// Calls `SliceRandom::choose` on the slice of `places`, with
/// `rand::thread_rng()`.
///
/// `choose` returns nothing for an empty slice, and otherwise one of the
/// slice's items, at a place that it draws uniformly: the contract says
/// when an item comes back and that it is one of `places`, not which.
/// The generator is seeded as for [`random_bits`].
#[verifier::external_body]
pub(crate) fn random_choice(places: &Vec<usize>) -> (choice: Option<usize>)
    ensures
        choice is Some <==> places@.len() > 0,
        choice is Some ==> places@.contains(choice->0),
{
    places.choose(&mut rand::thread_rng()).copied()
}

} // verus!
