//! Algebraic facts about the fixed-point operations.
use crate::fixed::{fx_div, fx_mul, is_isqrt, isqrt, quot, ONE_RAW};
use vstd::prelude::*;

verus! {

/// Rounding toward zero keeps the order of dividends over a positive divisor.
pub proof fn lemma_quot_monotone(n1: int, n2: int, d: int)
    requires
        d > 0,
        n1 <= n2,
    ensures
        quot(n1, d) <= quot(n2, d),
{
    if n1 >= 0 {
        lemma_div_ordered(n1, n2, d);
    } else if n2 >= 0 {
        lemma_div_ordered(0, -n1, d);
        lemma_div_ordered(0, n2, d);
    } else {
        lemma_div_ordered(-n2, -n1, d);
    }
}

/// Flooring division keeps the order of dividends that are not negative.
proof fn lemma_div_ordered(x: int, y: int, d: int)
    by (nonlinear_arith)
    requires
        d > 0,
        0 <= x <= y,
    ensures
        0 <= x / d <= y / d,
{
}

/// Every non-negative integer has an integer square root.
pub proof fn lemma_isqrt_exists(n: int)
    requires
        n >= 0,
    ensures
        is_isqrt(n, isqrt(n)),
    decreases n,
{
    if n == 0 {
        assert(is_isqrt(0, 0));
    } else {
        lemma_isqrt_exists(n - 1);
        let r = isqrt(n - 1);
        if n < (r + 1) * (r + 1) {
            assert(is_isqrt(n, r));
        } else {
            assert((r + 2) * (r + 2) > (r + 1) * (r + 1)) by (nonlinear_arith)
                requires
                    r >= 0,
            ;
            assert(is_isqrt(n, r + 1));
        }
    }
}

/// A quotient rounded toward zero, times the divisor, misses the dividend by
/// less than the divisor.
pub proof fn lemma_quot_error(n: int, d: int)
    requires
        d > 0,
    ensures
        -d < quot(n, d) * d - n < d,
{
    if n >= 0 {
        assert(0 <= n - (n / d) * d < d) by (nonlinear_arith)
            requires
                d > 0,
                n >= 0,
        ;
    } else {
        let m = -n;
        assert(0 <= m - (m / d) * d < d) by (nonlinear_arith)
            requires
                d > 0,
                m >= 0,
        ;
        assert((-(m / d)) * d == -((m / d) * d)) by (nonlinear_arith);
    }
}

/// A part of a positive whole, divided by the whole, lies between zero and
/// one.
pub proof fn lemma_div_of_part(part: int, whole: int)
    requires
        0 <= part <= whole,
        whole > 0,
    ensures
        0 <= fx_div(part, whole) <= ONE_RAW,
{
    let one = ONE_RAW as int;
    assert(0 <= (part * one) / whole <= one && part * one >= 0) by (nonlinear_arith)
        requires
            0 <= part <= whole,
            whole > 0,
            one > 0,
    ;
}

/// Between zero and one, a product keeps the order of its first factors, and
/// exceeds neither factor.
pub proof fn lemma_mul_ordered(a1: int, a2: int, s: int)
    requires
        0 <= a1 <= a2 <= ONE_RAW,
        0 <= s <= ONE_RAW,
    ensures
        0 <= fx_mul(a1, s) <= fx_mul(a2, s),
        fx_mul(a2, s) <= a2,
        fx_mul(a2, s) <= s,
        fx_mul(ONE_RAW as int, s) == s,
{
    let one = ONE_RAW as int;
    assert(0 <= a1 * s <= a2 * s && a2 * s <= a2 * one && a2 * s <= one * s && one * s == s
        * one) by (nonlinear_arith)
        requires
            0 <= a1 <= a2 <= one,
            0 <= s <= one,
    ;
    lemma_div_ordered(a1 * s, a2 * s, one);
    lemma_div_ordered(a2 * s, a2 * one, one);
    lemma_div_ordered(a2 * s, s * one, one);
    assert((a2 * one) / one == a2 && (s * one) / one == s) by (nonlinear_arith)
        requires
            one > 0,
    ;
}

/// Division keeps the order of dividends over a divisor that is not negative.
pub proof fn lemma_div_monotone(a1: int, a2: int, b: int)
    requires
        a1 <= a2,
        b >= 0,
    ensures
        fx_div(a1, b) <= fx_div(a2, b),
{
    if b > 0 {
        lemma_quot_monotone(a1 * ONE_RAW, a2 * ONE_RAW, b);
    }
}

} // verus!
