//! Seeded pseudo-random draws.

use rand::rngs::StdRng;
use rand::seq::SliceRandom;
use rand::SeedableRng;
use vstd::prelude::*;

verus! {

/// The standard generator of `rand`.
#[verifier::external_type_specification]
#[verifier::external_body]
pub struct ExStdRng(rand::rngs::StdRng);

/// The state of a generator, on which alone its draws depend.
pub uninterp spec fn rng_state(rng: StdRng) -> Seq<u8>;

/// The state that a seed gives.
pub uninterp spec fn seeded_state(seed: u64) -> Seq<u8>;

/// The rearrangement of `items` that a generator in state `state` draws.
pub uninterp spec fn shuffled(items: Seq<usize>, state: Seq<u8>) -> Seq<usize>;

/// The state after shuffling `len` items.
pub uninterp spec fn state_after_shuffle(len: nat, state: Seq<u8>) -> Seq<u8>;

/// The position among `len` that a generator in state `state` draws.
pub uninterp spec fn chosen_position(len: nat, state: Seq<u8>) -> nat;

/// The state after choosing among `len` items.
pub uninterp spec fn state_after_choice(len: nat, state: Seq<u8>) -> Seq<u8>;

/// `StdRng::seed_from_u64`: a generator whose state is determined by the seed.
#[verifier::external_body]
pub(crate) fn seeded_rng(seed: u64) -> (rng: StdRng)
    ensures
        rng_state(rng) == seeded_state(seed),
{
    StdRng::seed_from_u64(seed)
}

/// `SliceRandom::shuffle`: rearranges the items by swaps at drawn positions. The arrangement depends
/// on the items and the generator's state, the following state on their number and the state.
#[verifier::external_body]
pub(crate) fn shuffle(items: &mut Vec<usize>, rng: &mut StdRng)
    ensures
        final(items)@ == shuffled(old(items)@, rng_state(*old(rng))),
        final(items)@.to_multiset() == old(items)@.to_multiset(),
        rng_state(*final(rng)) == state_after_shuffle(old(items)@.len(), rng_state(*old(rng))),
{
    items.shuffle(rng)
}

/// `SliceRandom::choose`: nothing of an empty slice, without a draw; otherwise the item at a drawn
/// position, which depends on the number of items and the generator's state.
#[verifier::external_body]
pub(crate) fn choose_item<T: Copy>(items: &[T], rng: &mut StdRng) -> (chosen: Option<T>)
    ensures
        items@.len() == 0 ==> chosen is None,
        items@.len() == 0 ==> rng_state(*final(rng)) == rng_state(*old(rng)),
        items@.len() > 0 ==> chosen == Some(
            items@[chosen_position(items@.len(), rng_state(*old(rng))) as int],
        ),
        items@.len() > 0 && chosen is Some ==> chosen_position(
            items@.len(),
            rng_state(*old(rng)),
        ) < items@.len(),
        items@.len() > 0 ==> rng_state(*final(rng)) == state_after_choice(
            items@.len(),
            rng_state(*old(rng)),
        ),
{
    items.choose(rng).copied()
}

} // verus!
