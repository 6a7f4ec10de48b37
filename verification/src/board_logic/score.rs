//! Scores of positions.
//!
//! A score is a fixed-point number: [`SCORE_UNIT`] stands for 1, the value
//! of a certain win, and its negative for a certain loss. Everything in
//! between is an estimate. Positive scores favour the side to move.

use vstd::prelude::*;

verus! {

/// The fixed-point unit.
pub const SCORE_UNIT: i64 = 1_000_000_000;

/// We clamp values to the region of guaranteed win to guaranteed loss.
pub const MAX_SCORE: i64 = SCORE_UNIT;

/// This score is lower than any of the others, we use it as an
/// initialization to build the maximum.
pub const SCORE_GUARD: i64 = -1_100_000_000;

/// The discount factor to favour fast wins and late losses, in parts of
/// [`DISCOUNT_DENOMINATOR`]. It is extremely close to 1, because it
/// interferes negatively with the transposition table.
pub const DISCOUNT_NUMERATOR: i64 = 99_999;

/// See [`DISCOUNT_NUMERATOR`].
pub const DISCOUNT_DENOMINATOR: i64 = 100_000;

/// The region we clamp the heuristics against, so that it can never
/// dominate even an overdiscounted win or loss.
pub const CLAMP_GUARD_HEURISTIC: i64 = 970_000_000;

/// The largest number of plies a search may look ahead: the number of cells.
pub const MAX_SEARCH_DEPTH: u32 = 42;

/// `value` is a score between certain loss and certain win.
pub open spec fn is_score(value: int) -> bool {
    -MAX_SCORE <= value <= MAX_SCORE
}

/// `value` limited to the range from `-bound` to `bound`.
pub open spec fn clamp_spec(value: int, bound: int) -> int {
    if value < -bound {
        -bound
    } else if value > bound {
        bound
    } else {
        value
    }
}

/// Limits `value` to the range from `-bound` to `bound`.
pub fn clamp_score(value: i64, bound: i64) -> (clamped: i64)
    requires
        0 <= bound,
    ensures
        clamped == clamp_spec(value as int, bound as int),
        -bound <= clamped <= bound,
{
    if value < -bound {
        -bound
    } else if value > bound {
        bound
    } else {
        value
    }
}

/// `value` after one ply of discount: multiplied by the discount factor and
/// rounded towards zero.
pub open spec fn discount_spec(value: int) -> int {
    if value >= 0 {
        value * DISCOUNT_NUMERATOR as int / DISCOUNT_DENOMINATOR as int
    } else {
        -((-value) * DISCOUNT_NUMERATOR as int / DISCOUNT_DENOMINATOR as int)
    }
}

/// Applies the per-ply discount to a score.
pub fn discount(value: i64) -> (discounted: i64)
    requires
        is_score(value as int),
    ensures
        discounted == discount_spec(value as int),
        is_score(discounted as int),
        value >= 0 ==> 0 <= discounted <= value,
        value <= 0 ==> value <= discounted <= 0,
{
    if value >= 0 {
        value * DISCOUNT_NUMERATOR / DISCOUNT_DENOMINATOR
    } else {
        -((-value) * DISCOUNT_NUMERATOR / DISCOUNT_DENOMINATOR)
    }
}

/// The discount is odd: it treats a score and its negative alike.
pub proof fn lemma_discount_odd(value: int)
    ensures
        discount_spec(-value) == -discount_spec(value),
{
}

/// `value` after `plies` plies of discount.
pub open spec fn discount_repeated(value: int, plies: nat) -> int
    decreases plies,
{
    if plies == 0 {
        value
    } else {
        discount_spec(discount_repeated(value, (plies - 1) as nat))
    }
}

/// However deep a certain win lies within the search depth, its discounted
/// score stays above every heuristic estimate, and that of a certain loss
/// below.
pub proof fn lemma_discounted_win_dominates(plies: nat)
    requires
        plies <= MAX_SEARCH_DEPTH,
    ensures
        discount_repeated(MAX_SCORE as int, plies) > CLAMP_GUARD_HEURISTIC,
        discount_repeated(-MAX_SCORE as int, plies) < -CLAMP_GUARD_HEURISTIC,
{
    lemma_discount_repeated_bound(plies);
}

proof fn lemma_discount_repeated_bound(plies: nat)
    requires
        plies <= MAX_SEARCH_DEPTH,
    ensures
        MAX_SCORE - 10_001 * plies <= discount_repeated(MAX_SCORE as int, plies) <= MAX_SCORE,
        discount_repeated(-MAX_SCORE as int, plies) == -discount_repeated(MAX_SCORE as int, plies),
    decreases plies,
{
    if plies > 0 {
        lemma_discount_repeated_bound((plies - 1) as nat);
        let v = discount_repeated(MAX_SCORE as int, (plies - 1) as nat);
        lemma_discount_odd(v);
    }
}

} // verus!
