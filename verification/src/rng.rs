//! The calls into the `rand` crate. Their contracts are taken on trust.

use rand::rngs::StdRng;
use rand::seq::SliceRandom;
use rand::SeedableRng;
use vstd::prelude::*;

verus! {

/// `rand::rngs::StdRng`, the generator that bomb layouts draw from. Nothing
/// is known of its state.
#[verifier::external_type_specification]
#[verifier::external_body]
pub struct ExStdRng(StdRng);

/// Draws a number with `rand::random`, which asks the thread-local generator
/// that the operating system seeds. Nothing is claimed of the number.
#[verifier::external_body]
pub(crate) fn random_seed() -> (seed: u64) {
    rand::random::<u64>()
}

/// Makes a generator from a seed with `SeedableRng::seed_from_u64`. Nothing
/// is claimed of the generator that comes back.
#[verifier::external_body]
pub(crate) fn seeded_rng(seed: u64) -> (rng: StdRng) {
    StdRng::seed_from_u64(seed)
}

/// Shuffles the layout in place with `SliceRandom::shuffle`, which swaps
/// entries and does nothing else. Claimed: the entries after the call are
/// those before it, each as often as before; their order is left open.
#[verifier::external_body]
pub(crate) fn shuffle_layout(layout: &mut Vec<bool>, rng: &mut StdRng)
    ensures
        final(layout)@.to_multiset() == old(layout)@.to_multiset(),
{
    layout.shuffle(rng);
}

} // verus!
