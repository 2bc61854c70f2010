//! Fixed-point arithmetic for the unit interval and for timestamps.
//!
//! Every fractional quantity in this crate (stability, relevance, novelty,
//! priority, pressure signals, scores, rates) is an integer number of
//! thousandths: the value `1000` stands for `1.0`. Timestamps are seconds.

use vstd::prelude::*;

verus! {

/// Largest timestamp magnitude (in seconds) the scheduler accepts; generous
/// enough for any realistic date while keeping all derived arithmetic within
/// `i64`.
pub const MAX_TIME: i64 = 4_000_000_000_000;

/// A timestamp within the range the scheduler's arithmetic supports.
pub open spec fn time_ok(t: int) -> bool {
    -4_000_000_000_000 <= t <= 4_000_000_000_000
}

/// A timestamp option within range.
pub open spec fn opt_time_ok(t: Option<i64>) -> bool {
    t matches Some(v) ==> time_ok(v as int)
}

/// Mathematical clamp of a scaled value into `[0.0, 1.0]`.
pub open spec fn spec_clamp_unit(x: int) -> int {
    if x < 0 {
        0
    } else if x > 1000 {
        1000
    } else {
        x
    }
}

/// Clamp a scaled value into `[0.0, 1.0]` (that is, into `[0, 1000]`).
pub fn clamp_unit(x: i64) -> (r: i64)
    ensures
        r == spec_clamp_unit(x as int),
{
    if x < 0 {
        0
    } else if x > 1000 {
        1000
    } else {
        x
    }
}

/// Division rounding toward zero (the rounding used for elapsed minutes),
/// for a positive divisor. Note that `/` on `int` is Euclidean division,
/// which differs on negative dividends.
pub open spec fn spec_div_toward_zero(a: int, b: int) -> int {
    if a >= 0 {
        a / b
    } else {
        -((-a) / b)
    }
}

/// Divide `a` by the positive divisor `b`, rounding toward zero.
pub fn div_toward_zero(a: i64, b: i64) -> (r: i64)
    requires
        b > 0,
        a > i64::MIN,
    ensures
        r == spec_div_toward_zero(a as int, b as int),
{
    if a >= 0 {
        a / b
    } else {
        -(-a / b)
    }
}

/// Mathematical clamp of a value into an arbitrary closed interval.
pub open spec fn spec_clamp(x: int, lo: int, hi: int) -> int {
    if x < lo {
        lo
    } else if x > hi {
        hi
    } else {
        x
    }
}

/// Clamp a value into the closed interval `[lo, hi]`.
pub fn clamp_range(x: i64, lo: i64, hi: i64) -> (r: i64)
    requires
        lo <= hi,
    ensures
        r == spec_clamp(x as int, lo as int, hi as int),
{
    if x < lo {
        lo
    } else if x > hi {
        hi
    } else {
        x
    }
}

} // verus!
