//! Trusted access to the process-wide random number generator.

use rand::seq::SliceRandom;
use vstd::prelude::*;

verus! {

/// Relies on `rand::random_range` over `0..n`: returns a uniformly random
/// value of the range. An empty range makes it panic, which the
/// precondition rules out.
#[verifier::external_body]
pub fn random_below(n: u64) -> (r: u64)
    requires
        n > 0,
    ensures
        r < n,
{
    rand::random_range(0..n)
}

/// Relies on `<[T]>::shuffle` (rand's `SliceRandom`), driven by the
/// generator from `rand::rng`: it permutes the elements in place, so the
/// multiset of elements is what it was.
#[verifier::external_body]
pub fn shuffle_groups(v: &mut Vec<Vec<String>>)
    ensures
        final(v)@.to_multiset() == old(v)@.to_multiset(),
        final(v)@.len() == old(v)@.len(),
{
    v.shuffle(&mut rand::rng());
}

} // verus!
