//! Scoring: speed weighted by the square of the relative accuracy.

use vstd::prelude::*;

use vstd::arithmetic::div_mod::lemma_div_is_ordered;
use vstd::arithmetic::mul::lemma_mul_nonnegative;
use crate::room::PlayerResult;

verus! {

/// The exact score of one round: `floor(wpm * (accuracy / 100)^2)`, computed
/// over the integers as `wpm * accuracy * accuracy / 10000`. Accuracy is not
/// clamped to 100: a value above 100 amplifies the score beyond the intended
/// quadratic curve.
pub open spec fn score_value(wpm: u32, accuracy: u32) -> int {
    (wpm as int) * (accuracy as int) * (accuracy as int) / 10000
}

/// Addition of score totals that stops at the largest representable value
/// instead of overflowing.
pub open spec fn sat_add_u32(a: u32, b: u32) -> u32 {
    if a + b > u32::MAX {
        u32::MAX
    } else {
        (a + b) as u32
    }
}

/// What the executable scorer returns: the exact score, saturated at the
/// largest representable value.
pub open spec fn score_saturated(wpm: u32, accuracy: u32) -> u32 {
    if score_value(wpm, accuracy) > u32::MAX as int {
        u32::MAX
    } else {
        score_value(wpm, accuracy) as u32
    }
}

/// The exact score is never negative.
pub proof fn lemma_score_value_nonneg(wpm: u32, accuracy: u32)
    ensures
        0 <= score_value(wpm, accuracy),
{
    let p = (wpm as int) * (accuracy as int) * (accuracy as int);
    lemma_mul_nonnegative(wpm as int, accuracy as int);
    lemma_mul_nonnegative((wpm as int) * (accuracy as int), accuracy as int);
    lemma_div_is_ordered(0, p, 10000);
}

/// A score of zero speed is zero, whatever the accuracy.
pub proof fn lemma_score_zero_wpm(accuracy: u32)
    ensures
        score_value(0, accuracy) == 0,
        score_saturated(0, accuracy) == 0,
{
    assert((0 as int) * (accuracy as int) * (accuracy as int) == 0) by (nonlinear_arith);
}

/// For a fixed accuracy, the score never decreases as the speed grows.
pub proof fn lemma_score_monotonic_in_wpm(wpm1: u32, wpm2: u32, accuracy: u32)
    requires
        wpm1 <= wpm2,
    ensures
        score_value(wpm1, accuracy) <= score_value(wpm2, accuracy),
        score_saturated(wpm1, accuracy) <= score_saturated(wpm2, accuracy),
{
    let a = accuracy as int;
    assert((wpm1 as int) * a * a <= (wpm2 as int) * a * a) by (nonlinear_arith)
        requires
            wpm1 as int <= wpm2 as int,
            0 <= a,
    ;
    lemma_div_is_ordered((wpm1 as int) * a * a, (wpm2 as int) * a * a, 10000);
    lemma_score_value_nonneg(wpm1, accuracy);
    lemma_score_value_nonneg(wpm2, accuracy);
}

/// For a fixed speed, the score never decreases as the accuracy grows
/// within the intended range of 0 to 100.
pub proof fn lemma_score_monotonic_in_accuracy(wpm: u32, accuracy1: u32, accuracy2: u32)
    requires
        accuracy1 <= accuracy2,
        accuracy2 <= 100,
    ensures
        score_value(wpm, accuracy1) <= score_value(wpm, accuracy2),
        score_saturated(wpm, accuracy1) <= score_saturated(wpm, accuracy2),
{
    let w = wpm as int;
    let a1 = accuracy1 as int;
    let a2 = accuracy2 as int;
    assert(w * a1 * a1 <= w * a2 * a2) by (nonlinear_arith)
        requires
            0 <= w,
            0 <= a1,
            a1 <= a2,
    ;
    lemma_div_is_ordered(w * a1 * a1, w * a2 * a2, 10000);
    lemma_score_value_nonneg(wpm, accuracy1);
    lemma_score_value_nonneg(wpm, accuracy2);
}

impl PlayerResult {
    /// Score one round of typing. The quadratic weight on accuracy heavily
    /// rewards precision while still valuing speed.
    pub fn calculate_score(wpm: u32, accuracy: u32) -> (score: u32)
        ensures
            score == score_saturated(wpm, accuracy),
    {
        let w: u128 = wpm as u128;
        let a: u128 = accuracy as u128;
        proof {
            assert(w * a <= 0xffff_ffff * 0xffff_ffff) by (nonlinear_arith)
                requires
                    w <= 0xffff_ffff,
                    a <= 0xffff_ffff,
            ;
        }
        let wa: u128 = w * a;
        proof {
            assert(wa * a <= 0xffff_ffff_ffff_ffff_ffff_ffff * 0xffff_ffff) by (nonlinear_arith)
                requires
                    wa <= 0xffff_ffff_ffff_ffff_ffff_ffff,
                    a <= 0xffff_ffff,
            ;
        }
        let product: u128 = wa * a;
        let quotient: u128 = product / 10000;
        proof {
            lemma_score_value_nonneg(wpm, accuracy);
        }
        if quotient > u32::MAX as u128 {
            u32::MAX
        } else {
            quotient as u32
        }
    }
}

} // verus!
