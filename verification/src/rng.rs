//! Randomisation of the pixel order, through the `rand` crate.
//!
//! The render pipeline shuffles the pixel list so that workers finish in a
//! spatially unbiased order.  Correctness never depends on which permutation
//! was drawn, only on the shuffle being a permutation, so that is all the
//! trusted contract states.

use vstd::prelude::*;

verus! {

use rand::seq::SliceRandom;

use crate::pixel::Pixel;

#[verifier::external_type_specification]
#[verifier::external_body]
pub struct ExThreadRng(rand::rngs::ThreadRng);

/// Relies on `rand::thread_rng`: a handle to the calling thread's generator.
/// Nothing is promised of the values it will produce.
#[verifier::external_body]
pub(crate) fn fresh_rng() -> rand::rngs::ThreadRng {
    rand::thread_rng()
}

/// Relies on `rand::seq::SliceRandom::shuffle`: a Fisher-Yates shuffle that
/// reorders the slice in place by swaps alone, so the multiset of elements
/// is unchanged.  Which permutation comes out is left open.
#[verifier::external_body]
pub(crate) fn shuffle_pixels(pixels: &mut Vec<Pixel>, rng: &mut rand::rngs::ThreadRng)
    ensures
        final(pixels)@.to_multiset() == old(pixels)@.to_multiset(),
        final(pixels)@.len() == old(pixels)@.len(),
{
    pixels.shuffle(rng)
}

} // verus!
