//! Trusted boundary to the `rand` crate: the generator handle and the
//! in-place shuffle that give each new puzzle its randomness.

use vstd::prelude::*;
use rand::seq::SliceRandom;

verus! {

#[verifier::external_type_specification]
#[verifier::external_body]
pub struct ExThreadRng(rand::rngs::ThreadRng);

/// Relies on rand::thread_rng: returns a handle to the thread-local
/// generator.  Nothing is assumed about the values it produces.
#[verifier::external_body]
pub(crate) fn new_rng() -> rand::rngs::ThreadRng {
    rand::thread_rng()
}

/// Relies on rand::seq::SliceRandom::shuffle, a Fisher-Yates shuffle that
/// permutes the slice in place by swaps: the length and the multiset of
/// elements are unchanged, and nothing is assumed about the order.
#[verifier::external_body]
pub(crate) fn shuffle_values(rng: &mut rand::rngs::ThreadRng, values: &mut Vec<u8>)
    ensures
        final(values)@.len() == old(values)@.len(),
        final(values)@.to_multiset() == old(values)@.to_multiset(),
{
    values.as_mut_slice().shuffle(rng);
}

} // verus!
