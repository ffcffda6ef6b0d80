//! The decisions of the bisection searches for a station (a zero of the
//! velocity) and for a sign-boundary crossing (a zero of the angular
//! error). The caller evaluates the body at the midpoint; each step decides
//! from the signs of the values whether to stop or which half to keep.
use vstd::prelude::*;
use crate::binary64::{f64_same_sign, is_zero, lt, negated, same_sign_spec, sign_bit, value_lt, SIGN_BIT};

verus! {

/// Encoding of one minute, `1/1440` of a day: the bisection stops once its
/// interval is narrower than this.
pub const ONE_MINUTE: u64 = 0x3F46_C16C_16C1_6C17;

/// What a bisection does after evaluating its midpoint.
#[derive(Clone, Copy, Debug, PartialEq, Eq, Structural)]
pub enum BisectionStep {
    /// Return the midpoint.
    Finish,
    /// The zero lies in the right half: the midpoint becomes the left end.
    AdvanceLeft,
    /// The zero lies in the left half: the midpoint becomes the right end.
    RetreatRight,
}

/// The step after evaluating the midpoint: stop on an exact zero or once the
/// interval is narrower than a minute; otherwise keep the half in which the
/// value changes sign relative to the left end.
///
/// This is the intended stop rule of both searches: the value is compared
/// with zero exactly, with no tolerance, and the interval width bounds the
/// precision (one minute). A value within some tolerance of zero does not
/// stop the search early.
pub open spec fn bisection_decision(left_value: u64, midpoint_value: u64, interval_width: u64) -> BisectionStep {
    if is_zero(midpoint_value) || value_lt(interval_width, ONE_MINUTE) {
        BisectionStep::Finish
    } else if same_sign_spec(left_value, midpoint_value) {
        BisectionStep::AdvanceLeft
    } else {
        BisectionStep::RetreatRight
    }
}

/// Decides one bisection step from the value at the left end, the value at
/// the midpoint and the width of the interval (all encodings).
pub fn bisection_step(left_value: u64, midpoint_value: u64, interval_width: u64) -> (r: BisectionStep)
    ensures
        r == bisection_decision(left_value, midpoint_value, interval_width),
{
    if is_zero_value(midpoint_value) || lt(interval_width, ONE_MINUTE) {
        BisectionStep::Finish
    } else if f64_same_sign(left_value, midpoint_value) {
        BisectionStep::AdvanceLeft
    } else {
        BisectionStep::RetreatRight
    }
}

/// Returns whether the value equals zero (`+0.0` or `-0.0`).
pub fn is_zero_value(b: u64) -> (r: bool)
    ensures
        r == is_zero(b),
{
    b % SIGN_BIT == 0
}

/// The values at the two ends of an interval are nonzero with opposite
/// signs, so the interval brackets a zero of a continuous function.
pub open spec fn brackets_zero(left_value: u64, right_value: u64) -> bool {
    !is_zero(left_value) && !is_zero(right_value) && sign_bit(left_value) != sign_bit(right_value)
}

/// A bisection step that does not finish keeps a bracketing interval
/// bracketing, whichever way the values change sign (increasing or
/// decreasing through zero).
pub proof fn lemma_bisection_keeps_bracket(
    left_value: u64,
    midpoint_value: u64,
    right_value: u64,
    interval_width: u64,
)
    requires
        brackets_zero(left_value, right_value),
    ensures
        bisection_decision(left_value, midpoint_value, interval_width) == BisectionStep::AdvanceLeft
            ==> brackets_zero(midpoint_value, right_value),
        bisection_decision(left_value, midpoint_value, interval_width) == BisectionStep::RetreatRight
            ==> brackets_zero(left_value, midpoint_value),
{
}

/// What a bisection step does, over all inputs: it finishes exactly when the
/// midpoint value is an exact zero (`+0.0` or `-0.0`) or the interval is
/// narrower than one minute (`1/1440` day, encoded `0x3F46_C16C_16C1_6C17`);
/// otherwise it keeps the right half when the midpoint value is nonzero with
/// the sign of the nonzero left value, and the left half in every other case.
pub proof fn lemma_bisection_step_behaviour(left_value: u64, midpoint_value: u64, interval_width: u64)
    ensures
        (bisection_decision(left_value, midpoint_value, interval_width) == BisectionStep::Finish) <==> (
            midpoint_value % 0x8000_0000_0000_0000 == 0
            || value_lt(interval_width, 0x3F46_C16C_16C1_6C17)),
        (bisection_decision(left_value, midpoint_value, interval_width) == BisectionStep::AdvanceLeft) <==> (
            !(midpoint_value % 0x8000_0000_0000_0000 == 0 || value_lt(interval_width, 0x3F46_C16C_16C1_6C17))
            && left_value % 0x8000_0000_0000_0000 != 0
            && (left_value >= 0x8000_0000_0000_0000) == (midpoint_value >= 0x8000_0000_0000_0000)),
        (bisection_decision(left_value, midpoint_value, interval_width) == BisectionStep::RetreatRight) <==> (
            !(midpoint_value % 0x8000_0000_0000_0000 == 0 || value_lt(interval_width, 0x3F46_C16C_16C1_6C17))
            && (left_value % 0x8000_0000_0000_0000 == 0
                || (left_value >= 0x8000_0000_0000_0000) != (midpoint_value >= 0x8000_0000_0000_0000))),
{
}

/// Negating both values (a search for a falling instead of a rising zero)
/// leaves every bisection decision unchanged.
pub proof fn lemma_bisection_step_sign_symmetric(left_value: u64, midpoint_value: u64, interval_width: u64)
    ensures
        bisection_decision(negated(left_value), negated(midpoint_value), interval_width)
            == bisection_decision(left_value, midpoint_value, interval_width),
{
}

} // verus!
