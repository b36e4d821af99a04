//! Random numbers, from the generator of the `rand` crate.

use vstd::prelude::*;
use rand::Rng;

verus! {

/// The thread-local random number generator of the `rand` crate.
#[verifier::external_type_specification]
#[verifier::external_body]
pub struct ExThreadRng(rand::ThreadRng);

/// Draws 32 random bits with `rand::Rng::next_u32`. Nothing is claimed of
/// the number drawn.
#[verifier::external_body]
pub(crate) fn next_random(rng: &mut rand::ThreadRng) -> (bits: u32) {
    rng.next_u32()
}

} // verus!
