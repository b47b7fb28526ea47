//! Seeded shuffles of row indices, drawn with `rand`'s `StdRng`.
//!
//! Each call seeds a fresh generator from the given seed, so the result is a
//! function of the seed and the input alone.
use vstd::prelude::*;
use rand::SeedableRng;
use rand::seq::SliceRandom;

verus! {

/// The contents of `items` after `SliceRandom::shuffle` with a `StdRng`
/// seeded by `seed`.
pub uninterp spec fn shuffled(seed: u64, items: Seq<usize>) -> Seq<usize>;

/// The contents of `items` after `SliceRandom::partial_shuffle` of `amount`
/// elements with a `StdRng` seeded by `seed`.
pub uninterp spec fn partially_shuffled(seed: u64, items: Seq<usize>, amount: nat) -> Seq<usize>;

/// Relies on `rand::rngs::StdRng::seed_from_u64` and `SliceRandom::shuffle`
/// (rand 0.8): the slice is permuted in place by swaps, and the generator is
/// determined by the seed.
#[verifier::external_body]
pub(crate) fn shuffle_seeded(items: &mut Vec<usize>, seed: u64)
    ensures
        final(items)@ == shuffled(seed, old(items)@),
        final(items)@.len() == old(items)@.len(),
        final(items)@.to_multiset() == old(items)@.to_multiset(),
{
    let mut rng = rand::rngs::StdRng::seed_from_u64(seed);
    items.shuffle(&mut rng);
}

/// Relies on `rand::rngs::StdRng::seed_from_u64` and
/// `SliceRandom::partial_shuffle` (rand 0.8): the slice is permuted in place by
/// swaps, and the chosen elements are its last `min(amount, len)` entries.
/// The caller reads them from the slice; the returned sub-slices are dropped.
#[verifier::external_body]
pub(crate) fn partial_shuffle_seeded(items: &mut Vec<usize>, seed: u64, amount: usize)
    ensures
        final(items)@ == partially_shuffled(seed, old(items)@, amount as nat),
        final(items)@.len() == old(items)@.len(),
        final(items)@.to_multiset() == old(items)@.to_multiset(),
{
    let mut rng = rand::rngs::StdRng::seed_from_u64(seed);
    let _ = items.partial_shuffle(&mut rng, amount);
}

} // verus!

verus! {

/// A permutation keeps which values occur, and keeps a sequence free of
/// duplicates.
pub proof fn lemma_permutation_keeps(p: Seq<usize>, q: Seq<usize>)
    requires
        p.to_multiset() == q.to_multiset(),
    ensures
        forall|x: usize| p.contains(x) <==> q.contains(x),
        q.no_duplicates() ==> p.no_duplicates(),
{
    broadcast use vstd::seq_lib::group_to_multiset_ensures;

    p.to_multiset_ensures();
    q.to_multiset_ensures();
    assert forall|x: usize| p.contains(x) <==> q.contains(x) by {
        assert(p.contains(x) <==> p.to_multiset().count(x) > 0);
        assert(q.contains(x) <==> q.to_multiset().count(x) > 0);
    }
    if q.no_duplicates() {
        q.lemma_multiset_has_no_duplicates();
        p.lemma_multiset_has_no_duplicates_conv();
    }
}

} // verus!
