//! The random draws of level generation, taken from the `rand` crate's
//! thread-local generator. Nothing in this file is proved: each contract
//! repeats what `rand` documents.

use rand::Rng;
use vstd::prelude::*;

verus! {

/// `rand::Rng::gen_range` on `rand::thread_rng()`, with the inclusive range
/// `low..=high`.
///
/// Trusted: the value lies in the range. `gen_range` panics on an empty
/// range, which the precondition rules out. Which value comes is left open.
#[verifier::external_body]
pub(crate) fn random_in_range(low: i32, high: i32) -> (value: i32)
    requires
        low <= high,
    ensures
        low <= value <= high,
{
    rand::thread_rng().gen_range(std::ops::RangeInclusive::new(low, high))
}

/// `rand::random::<bool>()`: a fair coin. Nothing is claimed of the outcome.
#[verifier::external_body]
pub(crate) fn random_bool() -> (coin: bool) {
    rand::random::<bool>()
}

} // verus!
