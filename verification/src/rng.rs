//! Random choices, drawn from `rand`'s thread-local generator.
//!
//! Nothing is stated of which value comes out beyond its range: every caller
//! is verified for each value that can come back.
use rand::seq::SliceRandom;
use rand::Rng;
use vstd::prelude::*;

verus! {

/// `Rng::gen_ratio(numerator, denominator)` on `rand::thread_rng()`: true with
/// probability `numerator / denominator`. Claimed, as rand documents it: a
/// zero numerator always gives `false`, a numerator equal to the denominator
/// always gives `true`. It panics when `denominator == 0` or
/// `numerator > denominator`, which `requires` rules out.
#[verifier::external_body]
pub(crate) fn roll_ratio(numerator: u32, denominator: u32) -> (r: bool)
    requires
        0 < denominator,
        numerator <= denominator,
    ensures
        numerator == 0 ==> !r,
        numerator == denominator ==> r,
{
    rand::thread_rng().gen_ratio(numerator, denominator)
}

/// `Rng::gen_range(0..bound)` on `rand::thread_rng()`. Claimed: the value lies
/// in the range. It panics on an empty range, which `requires` rules out.
#[verifier::external_body]
pub(crate) fn roll_below(bound: usize) -> (r: usize)
    requires
        bound > 0,
    ensures
        r < bound,
{
    rand::thread_rng().gen_range(0..bound)
}

/// `Rng::gen_range(low..=high)` on `rand::thread_rng()`. Claimed: the value
/// lies in the range. It panics on an empty range, which `requires` rules out.
#[verifier::external_body]
pub(crate) fn roll_between(low: usize, high: usize) -> (r: usize)
    requires
        low <= high,
    ensures
        low <= r <= high,
{
    rand::thread_rng().gen_range(low..=high)
}

/// `SliceRandom::choose` with `rand::thread_rng()`. Claimed: `None` exactly
/// for an empty slice, otherwise one of the slice's items.
#[verifier::external_body]
pub(crate) fn choose_from<'a, T>(items: &'a [T]) -> (r: Option<&'a T>)
    ensures
        r is None <==> items@.len() == 0,
        r is Some ==> exists|i: int| 0 <= i < items@.len() && items@[i] == *r->0,
{
    items.choose(&mut rand::thread_rng())
}

} // verus!
