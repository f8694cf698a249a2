//! Small integer helpers the simulation is phrased over.
//!
//! The physics works on whole world units.  Scaling a quantity by a
//! rational factor (ball acceleration, frenzy boost, the keyboard paddle
//! step) always truncates toward zero, so the spec-level functions here are
//! defined over the magnitude and the sign separately.

use vstd::prelude::*;

verus! {

/// Mathematical clamp of `v` into `[lo, hi]`.
pub open spec fn clamp_spec(v: int, lo: int, hi: int) -> int {
    if v < lo {
        lo
    } else if v > hi {
        hi
    } else {
        v
    }
}

/// Clamp `v` into `[lo, hi]`.
pub fn clamp_i64(v: i64, lo: i64, hi: i64) -> (r: i64)
    requires
        lo <= hi,
    ensures
        r == clamp_spec(v as int, lo as int, hi as int),
{
    if v < lo {
        lo
    } else if v > hi {
        hi
    } else {
        v
    }
}

/// Division truncated toward zero, for a positive divisor.
///
/// Spec-level `/` is Euclidean, which rounds away from zero for negative
/// dividends; the simulation instead scales magnitudes, so `-7 / 2` is `-3`.
pub open spec fn div_down(a: int, b: int) -> int
    recommends
        b > 0,
{
    if a >= 0 {
        a / b
    } else {
        -((-a) / b)
    }
}

/// Truncating division of `a` by the positive divisor `b`.
pub fn div_trunc(a: i64, b: i64) -> (r: i64)
    requires
        b > 0,
        i64::MIN < a,
    ensures
        r == div_down(a as int, b as int),
{
    if a >= 0 {
        a / b
    } else {
        -((-a) / b)
    }
}

/// `v` scaled by `num / den`, truncating toward zero, keeping the sign.
pub open spec fn scale_spec(v: int, num: int, den: int) -> int
    recommends
        num >= 0,
        den > 0,
{
    div_down(v * num, den)
}

/// Scale `v` by `num / den`, truncating toward zero.
pub fn scale_i64(v: i64, num: i64, den: i64) -> (r: i64)
    requires
        0 <= num,
        0 < den,
        v * num <= i64::MAX,
        i64::MIN < v * num,
    ensures
        r == scale_spec(v as int, num as int, den as int),
{
    let prod: i64 = v * num;
    div_trunc(prod, den)
}

/// Absolute value as a spec-level integer.
pub open spec fn abs_spec(v: int) -> int {
    if v >= 0 {
        v
    } else {
        -v
    }
}

/// The magnitude of a truncated quotient never exceeds the dividend's.
pub proof fn lemma_div_down_bound(a: int, b: int)
    requires
        b > 0,
    ensures
        abs_spec(div_down(a, b)) <= abs_spec(a),
{
    if a >= 0 {
        assert(a / b <= a) by {
            vstd::arithmetic::div_mod::lemma_div_nonincreasing(a, b);
        }
        assert(a / b >= 0) by {
            vstd::arithmetic::div_mod::lemma_div_pos_is_pos(a, b);
        }
    } else {
        let m = -a;
        assert(m / b <= m) by {
            vstd::arithmetic::div_mod::lemma_div_nonincreasing(m, b);
        }
        assert(m / b >= 0) by {
            vstd::arithmetic::div_mod::lemma_div_pos_is_pos(m, b);
        }
    }
}

} // verus!
