//! Saturating fixed-point scalars with 32 fractional bits.
//!
//! A scalar is a signed count of steps of size 2^-32. Every operation is total:
//! results are rounded toward zero onto the grid and clamped to the symmetric
//! range `[-MAX_RAW, MAX_RAW]`, so no operation overflows or fails.
use crate::random::random_below;
use vstd::arithmetic::div_mod::{lemma_fundamental_div_mod, lemma_hoist_over_denominator};
use vstd::prelude::*;

verus! {

/// Raw units that make up the value one.
pub const ONE_RAW: i64 = 0x1_0000_0000;

/// Largest raw magnitude; the representable range is symmetric around zero.
pub const MAX_RAW: i64 = 0x7fff_ffff_ffff_ffff;

/// `x` lies in the representable raw range.
pub open spec fn in_range(x: int) -> bool {
    -MAX_RAW <= x <= MAX_RAW
}

/// Clamps `x` to the representable raw range.
pub open spec fn sat(x: int) -> int {
    if x > MAX_RAW {
        MAX_RAW as int
    } else if x < -MAX_RAW {
        -MAX_RAW
    } else {
        x
    }
}

/// Quotient of `n` by a non-zero `d`, rounded toward zero.
pub open spec fn quot(n: int, d: int) -> int {
    if d > 0 {
        if n >= 0 {
            n / d
        } else {
            -((-n) / d)
        }
    } else {
        if n >= 0 {
            -(n / (-d))
        } else {
            (-n) / (-d)
        }
    }
}

/// `r` is the square root of `n` rounded down.
pub open spec fn is_isqrt(n: int, r: int) -> bool {
    r >= 0 && r * r <= n && n < (r + 1) * (r + 1)
}

/// The integer square root of a non-negative `n`.
pub open spec fn isqrt(n: int) -> int {
    choose|r: int| is_isqrt(n, r)
}

/// The sum, clamped.
pub open spec fn fx_add(a: int, b: int) -> int {
    sat(a + b)
}

/// The difference, clamped.
pub open spec fn fx_sub(a: int, b: int) -> int {
    sat(a - b)
}

/// The opposite. The range is symmetric, so it needs no clamping.
pub open spec fn fx_neg(a: int) -> int {
    -a
}

/// The product, rounded toward zero and clamped.
pub open spec fn fx_mul(a: int, b: int) -> int {
    sat(quot(a * b, ONE_RAW as int))
}

/// The quotient, rounded toward zero and clamped. A zero divisor gives the
/// end of the range on the side of the dividend, and zero for zero by zero.
pub open spec fn fx_div(a: int, b: int) -> int {
    if b == 0 {
        if a > 0 {
            MAX_RAW as int
        } else if a < 0 {
            -MAX_RAW
        } else {
            0
        }
    } else {
        sat(quot(a * ONE_RAW, b))
    }
}

/// Square root rounded down to the grid; zero for arguments that are not positive.
pub open spec fn fx_sqrt(a: int) -> int {
    if a <= 0 {
        0
    } else {
        isqrt(a * ONE_RAW)
    }
}

/// `a`, raised to `lo` where it lies below and lowered to `hi` where it lies
/// above.
pub open spec fn fx_clamp(a: int, lo: int, hi: int) -> int {
    if a < lo {
        lo
    } else if a > hi {
        hi
    } else {
        a
    }
}

/// The raw value of the whole number `n`, clamped.
pub open spec fn fx_from_int(n: int) -> int {
    sat(n * ONE_RAW)
}

/// The raw value of `num / den`, rounded toward zero.
pub open spec fn fx_ratio(num: int, den: int) -> int {
    fx_div(fx_from_int(num), fx_from_int(den))
}

/// Any `r >= 0` that brackets `n` between its square and the next is the square root.
pub proof fn lemma_isqrt_unique(n: int, r: int)
    requires
        is_isqrt(n, r),
    ensures
        isqrt(n) == r,
{
    let s = isqrt(n);
    assert(is_isqrt(n, s));
    assert(s == r) by (nonlinear_arith)
        requires
            r >= 0,
            s >= 0,
            r * r <= n,
            n < (r + 1) * (r + 1),
            s * s <= n,
            n < (s + 1) * (s + 1),
    ;
}

/// A real number on a grid of step 2^-32, held as a signed count of steps.
#[derive(Clone, Copy, PartialEq, Eq, Structural, Debug)]
pub struct Fixed {
    pub(crate) raw: i64,
}

impl View for Fixed {
    type V = int;

    closed spec fn view(&self) -> int {
        self.raw as int
    }
}

/// Magnitude of a raw value as an unsigned wide integer.
fn magnitude(raw: i64) -> (m: u128)
    ensures
        m == if raw < 0 {
            -(raw as int)
        } else {
            raw as int
        },
{
    if raw < 0 {
        (-(raw as i128)) as u128
    } else {
        raw as u128
    }
}

/// Calls `num::pow` with exponent two. By its source, this squares by one
/// multiplication of the base with itself; the precondition keeps that
/// multiplication inside 128 bits.
#[verifier::external_body]
fn square_u128(m: u128) -> (r: u128)
    requires
        m * m <= u128::MAX,
    ensures
        r == m * m,
{
    num::pow(m, 2)
}

/// Square root of `n` rounded down, by bisection.
pub(crate) fn isqrt_u128(n: u128) -> (r: u128)
    ensures
        is_isqrt(n as int, r as int),
        r < 0x1_0000_0000_0000_0000,
{
    let mut lo: u128 = 0;
    let mut hi: u128 = 0x1_0000_0000_0000_0000;
    assert(0x1_0000_0000_0000_0000int * 0x1_0000_0000_0000_0000int
        == 0x1_0000_0000_0000_0000_0000_0000_0000_0000int) by (nonlinear_arith);
    while hi - lo > 1
        invariant
            lo < hi <= 0x1_0000_0000_0000_0000,
            lo * lo <= n,
            n < hi * hi,
        decreases hi - lo,
    {
        let mid: u128 = lo + (hi - lo) / 2;
        assert(mid * mid < 0x1_0000_0000_0000_0000_0000_0000_0000_0000) by (nonlinear_arith)
            requires
                0 <= mid < 0x1_0000_0000_0000_0000,
        ;
        if mid * mid <= n {
            lo = mid;
        } else {
            hi = mid;
        }
    }
    lo
}

/// The integer that a sign and a magnitude stand for.
pub open spec fn signed(negative: bool, mag: int) -> int {
    if negative {
        -mag
    } else {
        mag
    }
}

impl Fixed {
    #[verifier::type_invariant]
    spec fn inv(self) -> bool {
        self.raw > i64::MIN
    }

    /// The scalar with the given raw step count, clamped to the symmetric range.
    pub fn from_raw(raw: i64) -> (r: Fixed)
        ensures
            r@ == sat(raw as int),
    {
        if raw == i64::MIN {
            Fixed { raw: -MAX_RAW }
        } else {
            Fixed { raw }
        }
    }

    /// The raw step count.
    pub fn raw(&self) -> (r: i64)
        ensures
            r == self@,
            in_range(r as int),
    {
        proof {
            use_type_invariant(self);
        }
        self.raw
    }

    /// Builds the scalar of the given sign and magnitude, clamped to the range.
    pub(crate) fn from_sign_magnitude(negative: bool, mag: u128) -> (r: Fixed)
        ensures
            r@ == sat(signed(negative, mag as int)),
    {
        let capped: i64 = if mag > MAX_RAW as u128 {
            MAX_RAW
        } else {
            mag as i64
        };
        if negative {
            Fixed { raw: -capped }
        } else {
            Fixed { raw: capped }
        }
    }

    /// The scalar zero.
    pub fn zero() -> (r: Fixed)
        ensures
            r@ == 0,
    {
        Fixed { raw: 0 }
    }

    /// The scalar one.
    pub fn one() -> (r: Fixed)
        ensures
            r@ == ONE_RAW,
    {
        Fixed { raw: ONE_RAW }
    }

    /// The largest scalar.
    pub fn max_value() -> (r: Fixed)
        ensures
            r@ == MAX_RAW,
    {
        Fixed { raw: MAX_RAW }
    }

    /// The scalar for a whole number, clamped to the range.
    pub fn from_int(n: i64) -> (r: Fixed)
        ensures
            r@ == fx_from_int(n as int),
    {
        assert(-0x8000_0000_0000_0000_0000_0000 <= n * ONE_RAW <= 0x8000_0000_0000_0000_0000_0000)
            by (nonlinear_arith)
            requires
                -0x8000_0000_0000_0000 <= n <= 0x7fff_ffff_ffff_ffff,
                ONE_RAW == 0x1_0000_0000,
        ;
        let wide: i128 = (n as i128) * (ONE_RAW as i128);
        if wide > MAX_RAW as i128 {
            Fixed { raw: MAX_RAW }
        } else if wide < -(MAX_RAW as i128) {
            Fixed { raw: -MAX_RAW }
        } else {
            Fixed { raw: wide as i64 }
        }
    }

    /// The scalar for a whole number that is not negative, clamped to the range.
    pub fn from_u64(n: u64) -> (r: Fixed)
        ensures
            r@ == fx_from_int(n as int),
    {
        if n > 0x7fff_ffff {
            Fixed { raw: MAX_RAW }
        } else {
            Fixed::from_int(n as i64)
        }
    }

    /// Sign and magnitude of the exact product of two raw values, in squared
    /// steps.
    pub(crate) fn product_parts(self, rhs: Fixed) -> (r: (bool, u128))
        ensures
            signed(r.0, r.1 as int) == self@ * rhs@,
            r.1 <= 0x3fff_ffff_ffff_ffff_0000_0000_0000_0001,
    {
        proof {
            use_type_invariant(self);
            use_type_invariant(rhs);
        }
        let ma = magnitude(self.raw);
        let mb = magnitude(rhs.raw);
        proof {
            lemma_product_of_magnitudes(self.raw as int, rhs.raw as int, ma as int, mb as int);
        }
        ((self.raw < 0) != (rhs.raw < 0), ma * mb)
    }

    /// The scalar for an exact value in squared steps, given by sign and
    /// magnitude: rounded toward zero to whole steps and clamped.
    pub(crate) fn from_squared_steps(negative: bool, mag: u128) -> (r: Fixed)
        ensures
            r@ == sat(quot(signed(negative, mag as int), ONE_RAW as int)),
    {
        Fixed::from_sign_magnitude(negative, mag / (ONE_RAW as u128))
    }

    /// The sum, clamped to the range.
    pub fn add(self, rhs: Fixed) -> (r: Fixed)
        ensures
            r@ == fx_add(self@, rhs@),
    {
        proof {
            use_type_invariant(self);
            use_type_invariant(rhs);
        }
        let wide: i128 = self.raw as i128 + rhs.raw as i128;
        if wide > MAX_RAW as i128 {
            Fixed { raw: MAX_RAW }
        } else if wide < -(MAX_RAW as i128) {
            Fixed { raw: -MAX_RAW }
        } else {
            Fixed { raw: wide as i64 }
        }
    }

    /// The difference, clamped to the range.
    pub fn sub(self, rhs: Fixed) -> (r: Fixed)
        ensures
            r@ == fx_sub(self@, rhs@),
    {
        proof {
            use_type_invariant(self);
            use_type_invariant(rhs);
        }
        let wide: i128 = self.raw as i128 - rhs.raw as i128;
        if wide > MAX_RAW as i128 {
            Fixed { raw: MAX_RAW }
        } else if wide < -(MAX_RAW as i128) {
            Fixed { raw: -MAX_RAW }
        } else {
            Fixed { raw: wide as i64 }
        }
    }

    /// The opposite.
    pub fn neg(self) -> (r: Fixed)
        ensures
            r@ == fx_neg(self@),
    {
        proof {
            use_type_invariant(self);
        }
        Fixed { raw: -self.raw }
    }

    /// The product, rounded toward zero and clamped to the range.
    pub fn mul(self, rhs: Fixed) -> (r: Fixed)
        ensures
            r@ == fx_mul(self@, rhs@),
    {
        proof {
            use_type_invariant(self);
            use_type_invariant(rhs);
        }
        let ma = magnitude(self.raw);
        let mb = magnitude(rhs.raw);
        proof {
            lemma_product_of_magnitudes(self.raw as int, rhs.raw as int, ma as int, mb as int);
        }
        let prod: u128 = ma * mb;
        let q: u128 = prod / (ONE_RAW as u128);
        let negative = (self.raw < 0) != (rhs.raw < 0);
        Fixed::from_sign_magnitude(negative, q)
    }

    /// The quotient, rounded toward zero and clamped to the range. Division
    /// by zero does not fail: it gives the end of the range on the side of the
    /// dividend, and zero for zero by zero.
    pub fn div(self, rhs: Fixed) -> (r: Fixed)
        ensures
            r@ == fx_div(self@, rhs@),
    {
        proof {
            use_type_invariant(self);
            use_type_invariant(rhs);
        }
        if rhs.raw == 0 {
            if self.raw > 0 {
                Fixed { raw: MAX_RAW }
            } else if self.raw < 0 {
                Fixed { raw: -MAX_RAW }
            } else {
                Fixed { raw: 0 }
            }
        } else {
            let ma = magnitude(self.raw);
            let mb = magnitude(rhs.raw);
            assert(0 <= ma * ONE_RAW <= 0x7fff_ffff_ffff_ffff_0000_0000) by (nonlinear_arith)
                requires
                    0 <= ma <= 0x7fff_ffff_ffff_ffff,
                    ONE_RAW == 0x1_0000_0000,
            ;
            let scaled: u128 = ma * (ONE_RAW as u128);
            let q: u128 = scaled / mb;
            let negative = (self.raw < 0) != (rhs.raw < 0);
            Fixed::from_sign_magnitude(negative, q)
        }
    }

    /// The quotient by a positive count of steps that need not be in range,
    /// rounded toward zero and clamped.
    pub(crate) fn div_by_steps(self, steps: u128) -> (r: Fixed)
        requires
            steps > 0,
        ensures
            r@ == fx_div(self@, steps as int),
    {
        proof {
            use_type_invariant(self);
        }
        let m = magnitude(self.raw);
        assert(0 <= m * ONE_RAW <= 0x7fff_ffff_ffff_ffff_0000_0000) by (nonlinear_arith)
            requires
                0 <= m <= 0x7fff_ffff_ffff_ffff,
                ONE_RAW == 0x1_0000_0000,
        ;
        let scaled: u128 = m * (ONE_RAW as u128);
        Fixed::from_sign_magnitude(self.raw < 0, scaled / steps)
    }

    /// The scalar times `factor` over `steps`, rounded toward zero once: the
    /// quotient by a count of steps that is known only as a fraction. None
    /// where the quotient lies beyond the range.
    pub(crate) fn times_over(self, factor: u128, steps: u128) -> (r: Option<Fixed>)
        requires
            0 < factor < 0x8000_0000_0000_0000,
            0x4000_0000_0000_0000 <= steps < 0x1_0000_0000_0000_0000,
        ensures
            r is Some <==> in_range(quot(self@ * ONE_RAW * factor, steps as int)),
            r matches Some(q) ==> q@ == quot(self@ * ONE_RAW * factor, steps as int),
    {
        proof {
            use_type_invariant(self);
        }
        let m = magnitude(self.raw);
        assert(0 <= m * ONE_RAW <= 0x7fff_ffff_ffff_ffff_0000_0000) by (nonlinear_arith)
            requires
                0 <= m <= 0x7fff_ffff_ffff_ffff,
                ONE_RAW == 0x1_0000_0000,
        ;
        let scaled: u128 = m * (ONE_RAW as u128);
        let whole: u128 = scaled / steps;
        let rest: u128 = scaled % steps;
        proof {
            let f = factor as int;
            let d = steps as int;
            assert(0 <= whole <= 0x2_0000_0000) by (nonlinear_arith)
                requires
                    whole == (scaled as int) / d,
                    0 <= scaled <= 0x7fff_ffff_ffff_ffff_0000_0000,
                    d >= 0x4000_0000_0000_0000,
            ;
            assert(0 <= whole * f <= 0x1_0000_0000_0000_0000_0000_0000 && 0 <= rest * f
                <= 0x8000_0000_0000_0000_0000_0000_0000_0000) by (nonlinear_arith)
                requires
                    0 <= whole <= 0x2_0000_0000,
                    0 <= rest < 0x1_0000_0000_0000_0000,
                    0 < f < 0x8000_0000_0000_0000,
            ;
        }
        let mag: u128 = whole * factor + (rest * factor) / steps;
        proof {
            let f = factor as int;
            let d = steps as int;
            let a = scaled as int;
            lemma_fundamental_div_mod(a, d);
            lemma_hoist_over_denominator(rest * f, whole * f, steps as nat);
            assert(rest * f + (whole * f) * d == a * f) by (nonlinear_arith)
                requires
                    a == d * whole + rest,
            ;
            assert(mag == (a * f) / d);
            assert(self.raw * ONE_RAW * f == signed(self.raw < 0, a * f)) by (nonlinear_arith)
                requires
                    a == m * ONE_RAW,
                    m == if self.raw < 0 {
                        -(self.raw as int)
                    } else {
                        self.raw as int
                    },
            ;
            assert(a * f >= 0) by (nonlinear_arith)
                requires
                    a >= 0,
                    f > 0,
            ;
        }
        if mag > MAX_RAW as u128 {
            None
        } else {
            Some(Fixed::from_sign_magnitude(self.raw < 0, mag))
        }
    }

    /// The exact square of the raw value, in squared steps.
    pub(crate) fn square_steps(self) -> (r: u128)
        ensures
            r == self@ * self@,
            r <= 0x3fff_ffff_ffff_ffff_0000_0000_0000_0001,
    {
        proof {
            use_type_invariant(self);
        }
        let m = magnitude(self.raw);
        proof {
            lemma_product_of_magnitudes(self.raw as int, self.raw as int, m as int, m as int);
        }
        square_u128(m)
    }

    /// The square, by the same rounding as `mul`.
    pub fn squared(self) -> (r: Fixed)
        ensures
            r@ == fx_mul(self@, self@),
    {
        let steps = self.square_steps();
        proof {
            assert(self@ * self@ >= 0) by (nonlinear_arith);
        }
        Fixed::from_squared_steps(false, steps)
    }

    /// The square root, rounded down to the grid; zero for a scalar that is
    /// not positive.
    pub fn sqrt(self) -> (r: Fixed)
        ensures
            r@ == fx_sqrt(self@),
    {
        if self.raw <= 0 {
            Fixed { raw: 0 }
        } else {
            assert(0 <= self.raw * ONE_RAW < 0x8000_0000_0000_0000_0000_0000) by (nonlinear_arith)
                requires
                    0 <= self.raw <= 0x7fff_ffff_ffff_ffff,
                    ONE_RAW == 0x1_0000_0000,
            ;
            let n: u128 = (self.raw as u128) * (ONE_RAW as u128);
            let root: u128 = isqrt_u128(n);
            proof {
                lemma_isqrt_unique(n as int, root as int);
                assert(root < 0x1_0000_0000_0000) by (nonlinear_arith)
                    requires
                        root * root <= n,
                        n < 0x8000_0000_0000_0000_0000_0000,
                        root >= 0,
                ;
            }
            Fixed { raw: root as i64 }
        }
    }

    /// The scalar nearest to `num / den` toward zero; saturates when `den` is zero.
    pub fn from_ratio(num: i64, den: i64) -> (r: Fixed)
        ensures
            r@ == fx_ratio(num as int, den as int),
    {
        Fixed::from_int(num).div(Fixed::from_int(den))
    }

    /// A scalar drawn from `[min, max)`.
    pub fn random_in_range(min: Fixed, max: Fixed) -> (r: Fixed)
        requires
            min@ < max@,
        ensures
            min@ <= r@ < max@,
    {
        proof {
            use_type_invariant(min);
        }
        Fixed { raw: random_below(min.raw, max.raw) }
    }

    /// Whether `self` is less than `rhs`.
    pub fn lt(self, rhs: Fixed) -> (r: bool)
        ensures
            r == (self@ < rhs@),
    {
        self.raw < rhs.raw
    }

    /// Whether `self` is at most `rhs`.
    pub fn le(self, rhs: Fixed) -> (r: bool)
        ensures
            r == (self@ <= rhs@),
    {
        self.raw <= rhs.raw
    }

    /// `self`, raised to `lo` where it lies below and lowered to `hi` where
    /// it lies above.
    pub fn clamp(self, lo: Fixed, hi: Fixed) -> (r: Fixed)
        ensures
            r@ == fx_clamp(self@, lo@, hi@),
    {
        if self.raw < lo.raw {
            lo
        } else if self.raw > hi.raw {
            hi
        } else {
            self
        }
    }
}

/// The product of two raw values is the product of their magnitudes, up to sign,
/// and fits in 128 bits.
proof fn lemma_product_of_magnitudes(a: int, b: int, ma: int, mb: int)
    requires
        in_range(a),
        in_range(b),
        ma == if a < 0 {
            -a
        } else {
            a
        },
        mb == if b < 0 {
            -b
        } else {
            b
        },
    ensures
        0 <= ma * mb <= 0x3fff_ffff_ffff_ffff_0000_0000_0000_0001,
        a * b == if (a < 0) != (b < 0) {
            -(ma * mb)
        } else {
            ma * mb
        },
{
    assert(0 <= ma * mb <= 0x3fff_ffff_ffff_ffff_0000_0000_0000_0001) by (nonlinear_arith)
        requires
            0 <= ma <= 0x7fff_ffff_ffff_ffff,
            0 <= mb <= 0x7fff_ffff_ffff_ffff,
    ;
    assert(a * b == if (a < 0) != (b < 0) {
        -(ma * mb)
    } else {
        ma * mb
    }) by (nonlinear_arith)
        requires
            ma == if a < 0 {
                -a
            } else {
                a
            },
            mb == if b < 0 {
                -b
            } else {
                b
            },
    ;
}

} // verus!
