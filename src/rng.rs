use vstd::prelude::*;

use rand::seq::SliceRandom;
use rand::SeedableRng;

verus! {

/// The order into which `rand`'s slice shuffle, driven by a `StdRng` seeded
/// with `seed`, puts the items of `items`.
pub uninterp spec fn shuffled(seed: u64, items: Seq<u64>) -> Seq<u64>;

/// Relies on `rand::rngs::StdRng::seed_from_u64` and `SliceRandom::shuffle`:
/// a generator seeded from a fixed value yields a fixed stream, and the
/// shuffle only swaps items in place, so the result is a reordering of the
/// input that depends on the seed and the input alone.
#[verifier::external_body]
pub(crate) fn shuffle_seeded(seed: u64, items: &mut Vec<u64>)
    ensures
        final(items)@ == shuffled(seed, old(items)@),
        final(items)@.to_multiset() == old(items)@.to_multiset(),
{
    let mut generator = rand::rngs::StdRng::seed_from_u64(seed);
    items.shuffle(&mut generator);
}

/// Relies on `rand::random`: a fresh value from the thread-local generator;
/// nothing is known of it.
#[verifier::external_body]
pub(crate) fn fresh_seed() -> (r: u64)
{
    rand::random::<u64>()
}

} // verus!
