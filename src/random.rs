use rand::seq::{IteratorRandom, SliceRandom};
use vstd::prelude::*;

verus! {

/// Relies on rand's `SliceRandom::shuffle`: it reorders the elements in
/// place and keeps each of them.
#[verifier::external_body]
pub(crate) fn shuffle<T>(v: &mut Vec<T>)
    ensures
        final(v)@.to_multiset() == old(v)@.to_multiset(),
{
    v.shuffle(&mut rand::rng());
}

/// Relies on rand's `IteratorRandom::choose` over `0..n`: it picks one of
/// the values the range yields.
#[verifier::external_body]
pub(crate) fn random_below(n: usize) -> (r: usize)
    requires
        n > 0,
    ensures
        r < n,
{
    (0..n).choose(&mut rand::rng()).unwrap_or(0)
}

} // verus!
