//! Random choices, drawn from the thread-local generator of the `rand` crate.
//! Nothing is promised of a drawn value beyond its range.
use vstd::prelude::*;
use rand::Rng;
use rand::seq::SliceRandom;
use crate::domain::ids::BotId;

verus! {

/// A random `i64` (`rand::random`); any value may come back.
#[verifier::external_body]
pub(crate) fn random_i64() -> i64 {
    rand::random::<i64>()
}

/// A random index below `n` (`Rng::random_range(0..n)`, which panics on an
/// empty range; hence `n > 0`).
#[verifier::external_body]
pub(crate) fn random_below(n: usize) -> (r: usize)
    requires
        n > 0,
    ensures
        r < n,
{
    rand::rng().random_range(0..n)
}

/// A random number in `low..=high` (`Rng::random_range`, which panics on an
/// empty range; hence `low <= high`).
#[verifier::external_body]
pub(crate) fn random_in_range(low: u32, high: u32) -> (r: u32)
    requires
        low <= high,
    ensures
        low <= r <= high,
{
    rand::rng().random_range(low..=high)
}

/// Shuffles the bots in place (`SliceRandom::shuffle`): the result is a
/// rearrangement of the same bots.
#[verifier::external_body]
pub(crate) fn shuffle_bots(bots: &mut Vec<BotId>)
    ensures
        final(bots)@.to_multiset() == old(bots)@.to_multiset(),
{
    bots.shuffle(&mut rand::rng());
}

} // verus!
