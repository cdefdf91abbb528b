//! The one place where chance enters: calls into the `rand` crate.

use rand::seq::SliceRandom;
use rand::Rng;
use vstd::prelude::*;

verus! {

/// Calls `SliceRandom::shuffle` of `rand` on the items, with the generator that
/// `rand::rng` hands out. Trusted: the call reorders the items by swapping pairs of
/// them, so each item is there afterwards as often as before. That each order is as
/// likely as any other is `rand`'s promise and not stated here. `rand::rng` panics
/// where the operating system has no randomness to seed it with; no contract can rule
/// that out.
#[verifier::external_body]
pub(crate) fn shuffle<T>(items: &mut Vec<T>)
    ensures
        final(items)@.to_multiset() == old(items)@.to_multiset(),
{
    items.shuffle(&mut rand::rng());
}

/// Calls `Rng::random_range` of `rand` on the range from `low` to `high`, both
/// included, with the generator that `rand::rng` hands out. Trusted: the number drawn
/// lies in the range. That each number of the range is as likely as any other is
/// `rand`'s promise and not stated here. The call panics on an empty range, which
/// `low <= high` rules out; `rand::rng` panics where the operating system has no
/// randomness to seed it with, which no contract can rule out.
#[verifier::external_body]
pub(crate) fn random_between(low: usize, high: usize) -> (drawn: usize)
    requires
        low <= high,
    ensures
        low <= drawn <= high,
{
    rand::rng().random_range(low..=high)
}

} // verus!
