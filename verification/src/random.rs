//! The source of the random numbers that a shuffle draws.

use vstd::prelude::*;

verus! {

/// Draws a number with `rand::random`, from the generator that the `rand`
/// crate keeps for the running thread and seeds from the operating system.
/// Any `usize` may come back, and two draws need not agree: nothing is
/// assumed of the value. `rand` panics if the operating system gives it no
/// seed.
#[verifier::external_body]
pub(crate) fn random_usize() -> usize {
    rand::random::<usize>()
}

} // verus!
