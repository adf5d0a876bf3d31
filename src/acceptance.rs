//! Acceptance functions. A non-improving move is accepted when the score
//! exceeds a uniform draw from `0..PROBABILITY_ONE`: a score of at least
//! `PROBABILITY_ONE` always accepts, a score of at most 0 never does.
use vstd::prelude::*;

verus! {

/// The fixed-point value of probability 1.
pub const PROBABILITY_ONE: i64 = 1000000;

/// Never allows a non-improving move: hill climbing without diversification.
pub fn never_accept(_energy_diff: u64, _temperature: i64) -> (r: i64)
    ensures
        r == -PROBABILITY_ONE,
{
    -PROBABILITY_ONE
}

} // verus!
