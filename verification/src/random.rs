//! The random draws that the rules make, through the `rand` crate.

use vstd::prelude::*;
use rand::rngs::StdRng;
use rand::Rng;
use rand::seq::IteratorRandom;

verus! {

/// The seedable generator that every random decision draws from.
#[verifier::external_type_specification]
#[verifier::external_body]
pub struct ExStdRng(StdRng);

/// Draws one index below `bound` with `IteratorRandom::choose` on the range
/// `0..bound`. The draw yields nothing exactly when the range is empty, and
/// otherwise one of its members.
#[verifier::external_body]
pub(crate) fn choose_below(prng: &mut StdRng, bound: usize) -> (r: Option<usize>)
    ensures
        bound == 0 <==> r is None,
        r matches Some(i) ==> i < bound,
{
    (0..bound).choose(prng)
}

/// Draws from `low..high` with `Rng::gen_range`, which panics on an empty
/// range and otherwise returns a member of it.
#[verifier::external_body]
pub(crate) fn draw_in_range(prng: &mut StdRng, low: usize, high: usize) -> (r: usize)
    requires
        low < high,
    ensures
        low <= r < high,
{
    prng.gen_range(low..high)
}

/// Flips a coin with `Rng::gen_ratio`, which panics unless
/// `numerator <= denominator` and `denominator != 0`. A ratio of one always
/// gives `true`, a ratio of zero always `false`.
#[verifier::external_body]
pub(crate) fn flip(prng: &mut StdRng, numerator: u32, denominator: u32) -> (r: bool)
    requires
        numerator <= denominator,
        denominator != 0,
    ensures
        numerator == denominator ==> r,
        numerator == 0 ==> !r,
{
    prng.gen_ratio(numerator, denominator)
}

} // verus!
