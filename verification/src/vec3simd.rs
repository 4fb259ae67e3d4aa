//! Three-component vectors of fixed-point scalars, used as points, directions
//! and colours alike.
//!
//! Sums of products are taken exactly and rounded once. Lengths come from the
//! exact sum of the squares, and a direction is found on a copy of the vector
//! that is stretched into the upper half of the range first, so that a vector
//! of a few steps has as good a direction as one of a few units.
use crate::fixed::{
    fx_add, fx_clamp, fx_div, fx_from_int, fx_mul, fx_neg, fx_ratio, fx_sqrt, fx_sub, in_range,
    is_isqrt, isqrt, isqrt_u128, lemma_isqrt_unique, quot, sat, signed, Fixed, MAX_RAW, ONE_RAW,
};
use crate::fixed_laws::{lemma_isqrt_exists, lemma_quot_error, lemma_quot_monotone};
use vstd::prelude::*;

verus! {

/// Draws after which `random_in_unit_sphere` gives up and returns the centre.
pub const MAX_DRAWS: u32 = 64;

/// The mathematical content of a vector: three raw scalars.
pub struct V3 {
    pub x: int,
    pub y: int,
    pub z: int,
}

/// The zero vector, which is also the colour black.
pub open spec fn v3_zero() -> V3 {
    V3 { x: 0, y: 0, z: 0 }
}

/// The componentwise sum.
pub open spec fn v3_add(a: V3, b: V3) -> V3 {
    V3 { x: fx_add(a.x, b.x), y: fx_add(a.y, b.y), z: fx_add(a.z, b.z) }
}

/// The componentwise difference.
pub open spec fn v3_sub(a: V3, b: V3) -> V3 {
    V3 { x: fx_sub(a.x, b.x), y: fx_sub(a.y, b.y), z: fx_sub(a.z, b.z) }
}

/// The componentwise product.
pub open spec fn v3_mul(a: V3, b: V3) -> V3 {
    V3 { x: fx_mul(a.x, b.x), y: fx_mul(a.y, b.y), z: fx_mul(a.z, b.z) }
}

/// The opposite vector.
pub open spec fn v3_neg(a: V3) -> V3 {
    V3 { x: fx_neg(a.x), y: fx_neg(a.y), z: fx_neg(a.z) }
}

/// The vector times the scalar `s`.
pub open spec fn v3_scale(a: V3, s: int) -> V3 {
    V3 { x: fx_mul(a.x, s), y: fx_mul(a.y, s), z: fx_mul(a.z, s) }
}

/// The vector divided by the scalar `s`.
pub open spec fn v3_div(a: V3, s: int) -> V3 {
    V3 { x: fx_div(a.x, s), y: fx_div(a.y, s), z: fx_div(a.z, s) }
}

/// The dot product in squared steps, without any rounding.
pub open spec fn dot_exact(a: V3, b: V3) -> int {
    a.x * b.x + a.y * b.y + a.z * b.z
}

/// The squared length in squared steps, without any rounding.
pub open spec fn norm_exact(a: V3) -> int {
    dot_exact(a, a)
}

/// The dot product: the exact sum of the products, rounded toward zero once
/// and clamped.
pub open spec fn v3_dot(a: V3, b: V3) -> int {
    sat(quot(dot_exact(a, b), ONE_RAW as int))
}

/// The cross product.
pub open spec fn v3_cross(a: V3, b: V3) -> V3 {
    V3 {
        x: fx_sub(fx_mul(a.y, b.z), fx_mul(a.z, b.y)),
        y: fx_sub(fx_mul(a.z, b.x), fx_mul(a.x, b.z)),
        z: fx_sub(fx_mul(a.x, b.y), fx_mul(a.y, b.x)),
    }
}

/// The squared length: the exact sum of the squares, rounded down once and
/// clamped.
pub open spec fn v3_length_squared(a: V3) -> int {
    sat(norm_exact(a) / (ONE_RAW as int))
}

/// The length: the square root of the exact sum of the squares, rounded down
/// to whole steps and clamped. Only the zero vector has length zero.
pub open spec fn v3_length(a: V3) -> int {
    sat(isqrt(norm_exact(a)))
}

/// The magnitude of an integer.
pub open spec fn abs_of(x: int) -> int {
    if x < 0 {
        -x
    } else {
        x
    }
}

/// The largest magnitude among the components.
pub open spec fn max_abs(a: V3) -> int {
    let m = if abs_of(a.x) >= abs_of(a.y) {
        abs_of(a.x)
    } else {
        abs_of(a.y)
    };
    if m >= abs_of(a.z) {
        m
    } else {
        abs_of(a.z)
    }
}

/// The vector with each component doubled.
pub open spec fn doubled(a: V3) -> V3 {
    V3 { x: 2 * a.x, y: 2 * a.y, z: 2 * a.z }
}

/// Magnitude from which on a vector is not stretched any further.
pub open spec fn stretch_goal() -> int {
    0x4000_0000_0000_0000
}

/// How far a magnitude is below the upper half of the range.
pub open spec fn stretch_gap(m: int) -> nat {
    if m < stretch_goal() {
        (stretch_goal() - m) as nat
    } else {
        0
    }
}

/// How often a magnitude can be doubled before it reaches the upper half of
/// the range; zero for no magnitude at all.
pub open spec fn doublings(m: int) -> nat
    decreases stretch_gap(m),
{
    if m <= 0 || m >= stretch_goal() {
        0
    } else {
        1 + doublings(2 * m)
    }
}

/// The vector doubled `k` times.
pub open spec fn doubled_times(a: V3, k: nat) -> V3
    decreases k,
{
    if k == 0 {
        a
    } else {
        doubled_times(doubled(a), (k - 1) as nat)
    }
}

/// The vector doubled until its largest component reaches the upper half of
/// the range. Doubling is exact and keeps the direction.
pub open spec fn stretched(a: V3) -> V3 {
    doubled_times(a, doublings(max_abs(a)))
}

/// Two to the power `k`.
pub open spec fn two_to(k: nat) -> int
    decreases k,
{
    if k == 0 {
        1
    } else {
        2 * two_to((k - 1) as nat)
    }
}

/// The factor by which `stretched` lengthens the vector.
pub open spec fn stretch_factor(a: V3) -> int {
    two_to(doublings(max_abs(a)))
}

/// The parameter at which a ray along `dir` has gone the way `distance`: the
/// distance divided by the length of `dir`, rounded toward zero once and not
/// clamped, so that it may lie beyond the range. The length is taken from the
/// stretched copy of `dir`, so that it costs no precision however short `dir`
/// is. A ray along no direction at all goes no way: it is at distance zero
/// at parameter zero, and at any other distance beyond the range.
pub open spec fn v3_along(dir: V3, distance: int) -> int {
    if max_abs(dir) == 0 {
        if distance > 0 {
            MAX_RAW + 1
        } else if distance < 0 {
            -MAX_RAW - 1
        } else {
            0
        }
    } else {
        quot(distance * ONE_RAW * stretch_factor(dir), isqrt(norm_exact(stretched(dir))))
    }
}

/// The direction of the vector: its stretched copy divided by the length of
/// that copy, so that rounding costs a step at most however short the vector
/// is. The zero vector stays zero.
pub open spec fn v3_unit(a: V3) -> V3 {
    if max_abs(a) == 0 {
        v3_zero()
    } else {
        v3_div(stretched(a), isqrt(norm_exact(stretched(a))))
    }
}

/// Each component clamped to `[lo, hi]`.
pub open spec fn v3_clamp(a: V3, lo: int, hi: int) -> V3 {
    V3 { x: fx_clamp(a.x, lo, hi), y: fx_clamp(a.y, lo, hi), z: fx_clamp(a.z, lo, hi) }
}

/// The square root of each component.
pub open spec fn v3_sqrt(a: V3) -> V3 {
    V3 { x: fx_sqrt(a.x), y: fx_sqrt(a.y), z: fx_sqrt(a.z) }
}

/// The sum without clamping.
pub open spec fn v3_plus(a: V3, b: V3) -> V3 {
    V3 { x: a.x + b.x, y: a.y + b.y, z: a.z + b.z }
}

/// The difference without clamping.
pub open spec fn v3_minus(a: V3, b: V3) -> V3 {
    V3 { x: a.x - b.x, y: a.y - b.y, z: a.z - b.z }
}

/// Every component is representable.
pub open spec fn v3_in_range(a: V3) -> bool {
    in_range(a.x) && in_range(a.y) && in_range(a.z)
}

/// `(1 - t) a + t b`.
pub open spec fn v3_lerp(a: V3, b: V3, t: int) -> V3 {
    v3_add(v3_scale(a, fx_sub(ONE_RAW as int, t)), v3_scale(b, t))
}

/// Every component lies in `[lo, hi)`.
pub open spec fn v3_within(a: V3, lo: int, hi: int) -> bool {
    lo <= a.x < hi && lo <= a.y < hi && lo <= a.z < hi
}

/// The vector lies strictly inside the unit ball.
pub open spec fn v3_in_unit_ball(a: V3) -> bool {
    norm_exact(a) < ONE_RAW * ONE_RAW
}

/// A display colour: one byte each of red, green and blue.
#[derive(Clone, Copy, PartialEq, Eq, Structural, Debug)]
pub struct Rgb {
    pub r: u8,
    pub g: u8,
    pub b: u8,
}

/// The brightest value that is shown, just below one.
pub open spec fn colour_ceiling() -> int {
    fx_ratio(999, 1000)
}

/// The display level of a channel value in `[0, 1)`: 255 times the value,
/// rounded down.
pub open spec fn channel_level(c: int) -> int {
    (c * 255) / (ONE_RAW as int)
}

/// The display colour of a sum of `samples` colour samples: the mean (the sum
/// itself where there is no sample), gamma-corrected by a square root, clamped
/// to `[0, colour_ceiling()]` and scaled to bytes.
pub open spec fn v3_constrain(sum: V3, samples: int) -> Rgb {
    let mean = v3_div(
        sum,
        fx_from_int(
            if samples < 1 {
                1
            } else {
                samples
            },
        ),
    );
    let shown = v3_clamp(v3_sqrt(mean), 0, colour_ceiling());
    Rgb {
        r: channel_level(shown.x) as u8,
        g: channel_level(shown.y) as u8,
        b: channel_level(shown.z) as u8,
    }
}

/// `r` is the unit vector of some draw from the unit ball.
pub open spec fn is_unit_sample(r: V3) -> bool {
    exists|p: V3|
        v3_in_unit_ball(p) && v3_within(p, -ONE_RAW, ONE_RAW as int) && r == #[trigger] v3_unit(p)
}

/// `p` where its dot product with `normal` is positive, else its opposite. The
/// sign is that of the exact product, which no rounding can turn.
pub open spec fn v3_into_hemisphere(p: V3, normal: V3) -> V3 {
    if dot_exact(p, normal) > 0 {
        p
    } else {
        v3_neg(p)
    }
}

/// Turning a vector into the half-space of a normal keeps its length, and
/// leaves it with a dot product with the normal that is not negative.
pub proof fn lemma_into_hemisphere(p: V3, normal: V3)
    ensures
        dot_exact(v3_into_hemisphere(p, normal), normal) >= 0,
        v3_dot(v3_into_hemisphere(p, normal), normal) >= 0,
        norm_exact(v3_into_hemisphere(p, normal)) == norm_exact(p),
{
    lemma_dot_neg(p, normal);
    lemma_dot_neg(p, p);
    lemma_dot_neg(v3_neg(p), p);
    assert(dot_exact(p, v3_neg(p)) == dot_exact(v3_neg(p), p)) by (nonlinear_arith);
    let d = dot_exact(v3_into_hemisphere(p, normal), normal);
    assert(d / (ONE_RAW as int) >= 0);
}

/// The exact dot product changes sign with its first factor.
pub proof fn lemma_dot_neg(a: V3, b: V3)
    ensures
        dot_exact(v3_neg(a), b) == -dot_exact(a, b),
        dot_exact(a, v3_neg(b)) == -dot_exact(a, b),
{
    assert((-a.x) * b.x + (-a.y) * b.y + (-a.z) * b.z == -(a.x * b.x + a.y * b.y + a.z * b.z))
        by (nonlinear_arith);
    assert(a.x * (-b.x) + a.y * (-b.y) + a.z * (-b.z) == -(a.x * b.x + a.y * b.y + a.z * b.z))
        by (nonlinear_arith);
}

/// The sign of the rounded dot product never contradicts that of the exact
/// one.
pub proof fn lemma_dot_sign(a: V3, b: V3)
    ensures
        dot_exact(a, b) >= 0 ==> v3_dot(a, b) >= 0,
        dot_exact(a, b) <= 0 ==> v3_dot(a, b) <= 0,
{
    let d = dot_exact(a, b);
    assert(d >= 0 ==> d / (ONE_RAW as int) >= 0);
    assert(d <= 0 ==> (-d) / (ONE_RAW as int) >= 0);
}

/// No component of a unit vector exceeds one in magnitude.
pub proof fn lemma_unit_bounded(a: V3)
    ensures
        -ONE_RAW <= v3_unit(a).x <= ONE_RAW,
        -ONE_RAW <= v3_unit(a).y <= ONE_RAW,
        -ONE_RAW <= v3_unit(a).z <= ONE_RAW,
{
    if max_abs(a) != 0 {
        let y = stretched(a);
        lemma_stretched(a);
        let n = norm_exact(y);
        assert(n >= 0 && n >= y.x * y.x && n >= y.y * y.y && n >= y.z * y.z
            && n >= stretch_goal() * stretch_goal()) by (nonlinear_arith)
            requires
                n == y.x * y.x + y.y * y.y + y.z * y.z,
                max_abs(y) >= stretch_goal(),
                stretch_goal() > 0,
        ;
        lemma_isqrt_exists(n);
        let l = isqrt(n);
        lemma_component_ratio(y.x, n, l);
        lemma_component_ratio(y.y, n, l);
        lemma_component_ratio(y.z, n, l);
    }
}

/// A component whose square is at most `n` has at most one as its ratio to
/// the square root of `n`.
proof fn lemma_component_ratio(c: int, n: int, l: int)
    requires
        is_isqrt(n, l),
        c * c <= n,
        n > 0,
    ensures
        l > 0,
        -ONE_RAW <= fx_div(c, l) <= ONE_RAW,
{
    assert(l > 0 && -l <= c <= l) by (nonlinear_arith)
        requires
            l >= 0,
            l * l <= n,
            n < (l + 1) * (l + 1),
            c * c <= n,
            n > 0,
    ;
    let one = ONE_RAW as int;
    if c >= 0 {
        assert(0 <= (c * one) / l <= one) by (nonlinear_arith)
            requires
                0 <= c <= l,
                l > 0,
                one > 0,
        ;
    } else {
        assert(0 <= ((-c) * one) / l <= one && -(c * one) == (-c) * one) by (nonlinear_arith)
            requires
                0 <= -c <= l,
                l > 0,
                one > 0,
        ;
    }
}

/// A stretched vector that is not zero has its largest component in the upper
/// half of the range, and none beyond the range if it had none before.
pub proof fn lemma_stretched(a: V3)
    requires
        max_abs(a) > 0,
    ensures
        max_abs(stretched(a)) >= stretch_goal(),
        max_abs(a) <= MAX_RAW ==> max_abs(stretched(a)) <= MAX_RAW,
    decreases stretch_gap(max_abs(a)),
{
    if max_abs(a) < stretch_goal() {
        assert(max_abs(doubled(a)) == 2 * max_abs(a));
        lemma_stretched(doubled(a));
    }
}

/// The square of a rounded ratio brackets the square of the exact one: for a
/// magnitude `c` and a length `l`, the quotient `q` of `c` times one by `l`
/// has `q^2 l^2 <= c^2 one^2 <= (q + 1)^2 l^2`.
proof fn lemma_ratio_squared(c: int, l: int, q: int)
    requires
        0 <= c,
        0 < l,
        q == (c * ONE_RAW) / l,
    ensures
        0 <= q,
        (q * q) * (l * l) <= (c * c) * (ONE_RAW * ONE_RAW),
        (c * c) * (ONE_RAW * ONE_RAW) <= ((q + 1) * (q + 1)) * (l * l),
{
    let one = ONE_RAW as int;
    let n = c * one;
    assert(0 <= q && q * l <= n && n < (q + 1) * l) by (nonlinear_arith)
        requires
            0 <= n,
            0 < l,
            q == n / l,
    ;
    let low = q * l;
    let high = (q + 1) * l;
    assert(low * low <= n * n && n * n <= high * high) by (nonlinear_arith)
        requires
            0 <= low <= n,
            n <= high,
    ;
    assert(low * low == (q * q) * (l * l)) by (nonlinear_arith)
        requires
            low == q * l,
    ;
    assert(high * high == ((q + 1) * (q + 1)) * (l * l)) by (nonlinear_arith)
        requires
            high == (q + 1) * l,
    ;
    assert(n * n == (c * c) * (one * one)) by (nonlinear_arith)
        requires
            n == c * one,
    ;
}

/// A sum of three terms times a factor is the sum of the three products.
proof fn lemma_distribute(a: int, b: int, c: int, k: int)
    by (nonlinear_arith)
    ensures
        (a + b + c) * k == a * k + b * k + c * k,
{
}

/// A squared length `n` with `n l^2 <= s one^2`, for a long `l` whose square
/// is within `2 l` of `s`, exceeds the square of one by eight at most.
proof fn lemma_below_bound(n: int, s: int, l: int, ll: int, oo: int)
    requires
        n * ll <= s * oo,
        s < ll + 2 * l + 1,
        ll == l * l,
        l >= 0x4000_0000_0000_0000,
        oo == 0x1_0000_0000_0000_0000,
    ensures
        n <= oo + 8,
{
    if n >= oo + 9 {
        assert(n * ll >= (oo + 9) * ll) by (nonlinear_arith)
            requires
                n >= oo + 9,
                ll >= 0,
                ll == l * l,
        ;
        assert((oo + 9) * ll == oo * ll + 9 * ll) by (nonlinear_arith);
        assert(s * oo <= (ll + 2 * l) * oo) by (nonlinear_arith)
            requires
                s <= ll + 2 * l,
                oo >= 0,
        ;
        assert((ll + 2 * l) * oo == oo * ll + 2 * l * oo) by (nonlinear_arith);
        assert(9 * ll > 2 * l * oo) by (nonlinear_arith)
            requires
                ll == l * l,
                l >= 0x4000_0000_0000_0000,
                oo == 0x1_0000_0000_0000_0000,
        ;
    }
}

/// The unit vector of a vector that is not zero has length one, up to four
/// steps below and none above.
pub proof fn lemma_unit_length(a: V3)
    requires
        0 < max_abs(a) <= MAX_RAW,
    ensures
        ONE_RAW - 4 <= v3_length(v3_unit(a)) <= ONE_RAW,
        ONE_RAW * ONE_RAW - 6 * ONE_RAW - 3 <= norm_exact(v3_unit(a)) <= ONE_RAW * ONE_RAW + 8,
{
    let one = ONE_RAW as int;
    let y = stretched(a);
    lemma_stretched(a);
    lemma_stretched_length(a);
    lemma_unit_bounded(a);
    let s = norm_exact(y);
    let l = isqrt(s);
    let u = v3_unit(a);
    let cx = abs_of(y.x);
    let cy = abs_of(y.y);
    let cz = abs_of(y.z);
    let qx = (cx * one) / l;
    let qy = (cy * one) / l;
    let qz = (cz * one) / l;
    lemma_ratio_squared(cx, l, qx);
    lemma_ratio_squared(cy, l, qy);
    lemma_ratio_squared(cz, l, qz);
    // The components of the unit vector are these quotients, up to sign.
    assert(abs_of(u.x) == qx && abs_of(u.y) == qy && abs_of(u.z) == qz) by {
        assert((-y.x) * one == -(y.x * one) && (-y.y) * one == -(y.y * one) && (-y.z) * one == -(
        y.z * one)) by (nonlinear_arith);
    }
    let n = norm_exact(u);
    assert(n == qx * qx + qy * qy + qz * qz) by (nonlinear_arith)
        requires
            n == u.x * u.x + u.y * u.y + u.z * u.z,
            abs_of(u.x) == qx,
            abs_of(u.y) == qy,
            abs_of(u.z) == qz,
    ;
    assert(s == cx * cx + cy * cy + cz * cz) by (nonlinear_arith)
        requires
            s == y.x * y.x + y.y * y.y + y.z * y.z,
            cx == abs_of(y.x),
            cy == abs_of(y.y),
            cz == abs_of(y.z),
    ;
    let ll = l * l;
    let oo = one * one;
    assert(ll > 0 && ll <= s && s < ll + 2 * l + 1) by (nonlinear_arith)
        requires
            l > 0,
            l * l <= s,
            s < (l + 1) * (l + 1),
            ll == l * l,
    ;
    // From above: n l^2 <= s one^2 < (l + 1)^2 one^2.
    lemma_distribute(qx * qx, qy * qy, qz * qz, ll);
    lemma_distribute(cx * cx, cy * cy, cz * cz, oo);
    assert(n * ll <= s * oo);
    assert(oo == 0x1_0000_0000_0000_0000) by (nonlinear_arith)
        requires
            oo == one * one,
            one == 0x1_0000_0000,
    ;
    lemma_below_bound(n, s, l, ll, oo);
    // From below: the quotients raised by one step reach the exact ratio.
    let m = (qx + 1) * (qx + 1) + (qy + 1) * (qy + 1) + (qz + 1) * (qz + 1);
    lemma_distribute((qx + 1) * (qx + 1), (qy + 1) * (qy + 1), (qz + 1) * (qz + 1), ll);
    assert(s * oo <= m * ll);
    assert(m >= oo) by (nonlinear_arith)
        requires
            s * oo <= m * ll,
            ll <= s,
            ll > 0,
            oo > 0,
    ;
    assert(m == n + 2 * (qx + qy + qz) + 3) by (nonlinear_arith)
        requires
            m == (qx + 1) * (qx + 1) + (qy + 1) * (qy + 1) + (qz + 1) * (qz + 1),
            n == qx * qx + qy * qy + qz * qz,
    ;
    assert(n >= oo - 6 * one - 3);
    // The square root of what lies between these bounds.
    lemma_isqrt_exists(n);
    let r = isqrt(n);
    assert(one - 4 <= r <= one) by (nonlinear_arith)
        requires
            r >= 0,
            r * r <= n,
            n < (r + 1) * (r + 1),
            n <= oo + 8,
            n >= oo - 6 * one - 3,
            oo == one * one,
            one == 0x1_0000_0000,
    ;
}

/// The stretched copy of a vector is the vector times its stretch factor.
pub proof fn lemma_stretched_is_scaled(a: V3)
    ensures
        stretched(a) == (V3 {
            x: stretch_factor(a) * a.x,
            y: stretch_factor(a) * a.y,
            z: stretch_factor(a) * a.z,
        }),
{
    lemma_doubled_times(a, doublings(max_abs(a)));
}

/// A vector doubled `k` times is the vector times two to the power `k`.
proof fn lemma_doubled_times(a: V3, k: nat)
    ensures
        doubled_times(a, k) == (V3 { x: two_to(k) * a.x, y: two_to(k) * a.y, z: two_to(k) * a.z }),
    decreases k,
{
    if k > 0 {
        lemma_doubled_times(doubled(a), (k - 1) as nat);
        let p = two_to((k - 1) as nat);
        assert(p * (2 * a.x) == (2 * p) * a.x && p * (2 * a.y) == (2 * p) * a.y && p * (2 * a.z)
            == (2 * p) * a.z) by (nonlinear_arith);
    }
}

/// Going the way `distance` along a direction by its parameter, or along its
/// unit vector by the distance itself, leads to the same place up to rounding:
/// for a component `c` of a direction with stretch factor `factor` and
/// stretched length `length`, the step `c t` by the parameter `t` of the
/// distance misses the step `distance u` by the component `u` of the unit
/// vector by less than one step of each factor.
pub proof fn lemma_step_error(c: int, distance: int, factor: int, length: int)
    requires
        factor > 0,
        length > 0,
    ensures
        ({
            let t = quot(distance * ONE_RAW * factor, length);
            let u = quot((factor * c) * ONE_RAW, length);
            let w = quot(c * t, ONE_RAW as int);
            -(ONE_RAW + abs_of(c) + abs_of(distance)) < w * ONE_RAW - distance * u < ONE_RAW
                + abs_of(c) + abs_of(distance)
        }),
{
    let one = ONE_RAW as int;
    let t = quot(distance * one * factor, length);
    let u = quot((factor * c) * one, length);
    let w = quot(c * t, one);
    lemma_quot_error(distance * one * factor, length);
    lemma_quot_error((factor * c) * one, length);
    lemma_quot_error(c * t, one);
    let et = t * length - distance * one * factor;
    let eu = u * length - (factor * c) * one;
    // c t length - distance u length == c et - distance eu
    let k = one * factor;
    assert(distance * one * factor == distance * k && (factor * c) * one == c * k)
        by (nonlinear_arith)
        requires
            k == one * factor,
    ;
    let tl = t * length;
    let ul = u * length;
    assert(c * (tl - distance * k) - distance * (ul - c * k) == c * tl - distance * ul)
        by (nonlinear_arith);
    assert((c * t - distance * u) * length == c * tl - distance * ul) by (nonlinear_arith)
        requires
            tl == t * length,
            ul == u * length,
    ;
    assert((c * t - distance * u) * length == c * et - distance * eu);
    assert(-(abs_of(c) + abs_of(distance)) * length <= c * et - distance * eu <= (abs_of(c)
        + abs_of(distance)) * length) by (nonlinear_arith)
        requires
            -length < et < length,
            -length < eu < length,
            length > 0,
    ;
    let diff = c * t - distance * u;
    let cap = abs_of(c) + abs_of(distance);
    assert(-cap <= diff <= cap) by (nonlinear_arith)
        requires
            -cap * length <= diff * length <= cap * length,
            length > 0,
    ;
}

/// A power of two is positive.
pub proof fn lemma_two_to_positive(k: nat)
    ensures
        two_to(k) > 0,
    decreases k,
{
    if k > 0 {
        lemma_two_to_positive((k - 1) as nat);
    }
}

/// The stretched copy of a vector that is not zero has a positive length.
pub proof fn lemma_stretched_length(a: V3)
    requires
        max_abs(a) > 0,
    ensures
        isqrt(norm_exact(stretched(a))) >= stretch_goal(),
        is_isqrt(norm_exact(stretched(a)), isqrt(norm_exact(stretched(a)))),
{
    let y = stretched(a);
    lemma_stretched(a);
    let n = norm_exact(y);
    let g = stretch_goal();
    assert(n >= g * g) by (nonlinear_arith)
        requires
            n == y.x * y.x + y.y * y.y + y.z * y.z,
            max_abs(y) >= g,
            g > 0,
    ;
    lemma_isqrt_exists(n);
    let l = isqrt(n);
    assert(l >= g) by (nonlinear_arith)
        requires
            n >= g * g,
            n < (l + 1) * (l + 1),
            l >= 0,
            g > 0,
    ;
}

/// A longer way along the same direction is reached at a parameter that is
/// not smaller.
pub proof fn lemma_along_monotone(dir: V3, near: int, far: int)
    requires
        near <= far,
    ensures
        v3_along(dir, near) <= v3_along(dir, far),
{
    if max_abs(dir) != 0 {
        lemma_stretched_length(dir);
        lemma_two_to_positive(doublings(max_abs(dir)));
        let f = stretch_factor(dir);
        let one = ONE_RAW as int;
        assert(near * one * f <= far * one * f) by (nonlinear_arith)
            requires
                near <= far,
                f > 0,
                one > 0,
        ;
        lemma_quot_monotone(near * one * f, far * one * f, isqrt(norm_exact(stretched(dir))));
    }
}

/// A vector of three scalars.
#[derive(Clone, Copy, PartialEq, Eq, Structural, Debug)]
pub struct Vec3Simd {
    pub x: Fixed,
    pub y: Fixed,
    pub z: Fixed,
}

impl View for Vec3Simd {
    type V = V3;

    open spec fn view(&self) -> V3 {
        V3 { x: self.x@, y: self.y@, z: self.z@ }
    }
}

/// Sign and magnitude of the exact dot product, in squared steps.
fn dot_parts(a: &Vec3Simd, b: &Vec3Simd) -> (r: (bool, u128))
    ensures
        signed(r.0, r.1 as int) == dot_exact(a@, b@),
{
    let (n1, m1) = a.x.product_parts(b.x);
    let (n2, m2) = a.y.product_parts(b.y);
    let (n3, m3) = a.z.product_parts(b.z);
    let mut gain: u128 = 0;
    let mut loss: u128 = 0;
    if n1 {
        loss = loss + m1;
    } else {
        gain = gain + m1;
    }
    if n2 {
        loss = loss + m2;
    } else {
        gain = gain + m2;
    }
    if n3 {
        loss = loss + m3;
    } else {
        gain = gain + m3;
    }
    if gain >= loss {
        (false, gain - loss)
    } else {
        (true, loss - gain)
    }
}

/// The exact squared length, in squared steps.
pub(crate) fn norm_parts(a: &Vec3Simd) -> (r: u128)
    ensures
        r == norm_exact(a@),
{
    a.x.square_steps() + a.y.square_steps() + a.z.square_steps()
}

/// The largest magnitude among three raw values.
fn widest(x: i64, y: i64, z: i64) -> (m: i64)
    requires
        max_abs(V3 { x: x as int, y: y as int, z: z as int }) <= MAX_RAW,
    ensures
        m == max_abs(V3 { x: x as int, y: y as int, z: z as int }),
{
    let ax: i64 = if x < 0 {
        -x
    } else {
        x
    };
    let ay: i64 = if y < 0 {
        -y
    } else {
        y
    };
    let az: i64 = if z < 0 {
        -z
    } else {
        z
    };
    let m: i64 = if ax >= ay {
        ax
    } else {
        ay
    };
    if m >= az {
        m
    } else {
        az
    }
}

/// The display level of a clamped channel value.
fn channel(c: Fixed) -> (r: u8)
    requires
        0 <= c@ <= colour_ceiling(),
    ensures
        r == channel_level(c@),
{
    let raw = c.raw();
    assert(colour_ceiling() == 4290672328);
    let level: u64 = (raw as u64 * 255) / (ONE_RAW as u64);
    assert(level == (raw * 255) / 0x1_0000_0000);
    assert(level <= 254);
    level as u8
}

/// The same vectors under their plain name.
pub type Vec3 = Vec3Simd;

impl Default for Vec3Simd {
    fn default() -> (r: Self)
        ensures
            r@ == v3_zero(),
    {
        Vec3Simd { x: Fixed::zero(), y: Fixed::zero(), z: Fixed::zero() }
    }
}

impl Vec3Simd {
    /// The vector with the given components.
    pub fn new(x: Fixed, y: Fixed, z: Fixed) -> (r: Self)
        ensures
            r@ == (V3 { x: x@, y: y@, z: z@ }),
    {
        Vec3Simd { x, y, z }
    }

    /// The first component.
    pub fn x(&self) -> (r: Fixed)
        ensures
            r@ == self@.x,
    {
        self.x
    }

    /// The second component.
    pub fn y(&self) -> (r: Fixed)
        ensures
            r@ == self@.y,
    {
        self.y
    }

    /// The third component.
    pub fn z(&self) -> (r: Fixed)
        ensures
            r@ == self@.z,
    {
        self.z
    }

    /// The dot product.
    pub fn dot(&self, other: &Vec3Simd) -> (r: Fixed)
        ensures
            r@ == v3_dot(self@, other@),
    {
        let (negative, mag) = dot_parts(self, other);
        Fixed::from_squared_steps(negative, mag)
    }

    /// Whether the exact dot product is negative.
    pub fn dot_is_negative(&self, other: &Vec3Simd) -> (r: bool)
        ensures
            r == (dot_exact(self@, other@) < 0),
    {
        let (negative, mag) = dot_parts(self, other);
        negative && mag > 0
    }

    /// Whether the exact dot product is positive.
    pub fn dot_is_positive(&self, other: &Vec3Simd) -> (r: bool)
        ensures
            r == (dot_exact(self@, other@) > 0),
    {
        let (negative, mag) = dot_parts(self, other);
        !negative && mag > 0
    }

    /// The cross product.
    pub fn cross(&self, other: &Vec3Simd) -> (r: Self)
        ensures
            r@ == v3_cross(self@, other@),
    {
        let left = Vec3Simd {
            x: self.y.mul(other.z),
            y: self.z.mul(other.x),
            z: self.x.mul(other.y),
        };
        let right = Vec3Simd {
            x: self.z.mul(other.y),
            y: self.x.mul(other.z),
            z: self.y.mul(other.x),
        };
        left.sub(right)
    }

    /// The squared length.
    pub fn length_squared(&self) -> (r: Fixed)
        ensures
            r@ == v3_length_squared(self@),
    {
        Fixed::from_squared_steps(false, norm_parts(self))
    }

    /// The length.
    pub fn length(&self) -> (r: Fixed)
        ensures
            r@ == v3_length(self@),
    {
        let norm = norm_parts(self);
        let root = isqrt_u128(norm);
        proof {
            lemma_isqrt_unique(norm as int, root as int);
        }
        Fixed::from_sign_magnitude(false, root)
    }

    /// The stretched copy of a vector that is not zero, the factor that it
    /// was stretched by, and its length in steps.
    fn stretch(&self) -> (r: (Vec3Simd, u128, u128))
        requires
            max_abs(self@) > 0,
        ensures
            r.0@ == stretched(self@),
            r.1 == stretch_factor(self@),
            0 < r.1 <= MAX_RAW,
            r.2 == isqrt(norm_exact(stretched(self@))),
            stretch_goal() <= r.2 < 0x1_0000_0000_0000_0000,
    {
        let mut x: i64 = self.x.raw();
        let mut y: i64 = self.y.raw();
        let mut z: i64 = self.z.raw();
        let mut factor: u128 = 1;
        while widest(x, y, z) < 0x4000_0000_0000_0000
            invariant
                0 < max_abs(V3 { x: x as int, y: y as int, z: z as int }) <= MAX_RAW,
                stretched(V3 { x: x as int, y: y as int, z: z as int }) == stretched(self@),
                factor * stretch_factor(V3 { x: x as int, y: y as int, z: z as int })
                    == stretch_factor(self@),
                0 < factor <= max_abs(V3 { x: x as int, y: y as int, z: z as int }),
            decreases stretch_gap(max_abs(V3 { x: x as int, y: y as int, z: z as int })),
        {
            proof {
                let cur = V3 { x: x as int, y: y as int, z: z as int };
                assert(max_abs(doubled(cur)) == 2 * max_abs(cur));
                let rest = stretch_factor(doubled(cur));
                assert(stretch_factor(cur) == 2 * rest);
                assert((2 * factor) * rest == factor * (2 * rest)) by (nonlinear_arith);
            }
            x = 2 * x;
            y = 2 * y;
            z = 2 * z;
            factor = 2 * factor;
        }
        let long = Vec3Simd { x: Fixed::from_raw(x), y: Fixed::from_raw(y), z: Fixed::from_raw(z) };
        let norm = norm_parts(&long);
        let root = isqrt_u128(norm);
        proof {
            assert(stretch_factor(long@) == 1);
            assert(factor * 1 == factor) by (nonlinear_arith);
            lemma_isqrt_unique(norm as int, root as int);
            lemma_stretched_length(self@);
        }
        (long, factor, root)
    }

    /// The direction of the vector: the vector divided by its length, with
    /// rounding of a step at most however short the vector is. The zero
    /// vector is not refused: it stays zero.
    pub fn unit_vector(&self) -> (r: Self)
        ensures
            r@ == v3_unit(self@),
    {
        if self.is_zero() {
            return Vec3Simd { x: Fixed::zero(), y: Fixed::zero(), z: Fixed::zero() };
        }
        let (long, _, length) = self.stretch();
        Vec3Simd {
            x: long.x.div_by_steps(length),
            y: long.y.div_by_steps(length),
            z: long.z.div_by_steps(length),
        }
    }

    /// Whether every component is zero.
    pub fn is_zero(&self) -> (r: bool)
        ensures
            r == (max_abs(self@) == 0),
    {
        self.x.raw() == 0 && self.y.raw() == 0 && self.z.raw() == 0
    }

    /// The parameter at which a ray along this direction has gone the way
    /// `distance`: the distance divided by the length of the direction. None
    /// where that parameter lies beyond the range, as it does for every
    /// distance but zero along the zero vector.
    pub fn along(&self, distance: Fixed) -> (r: Option<Fixed>)
        ensures
            r is Some <==> in_range(v3_along(self@, distance@)),
            r matches Some(t) ==> t@ == v3_along(self@, distance@),
    {
        if self.is_zero() {
            return if distance.raw() == 0 {
                Some(distance)
            } else {
                None
            };
        }
        let (_, factor, length) = self.stretch();
        distance.times_over(factor, length)
    }

    /// Clamps each component to `[min, max]`.
    pub fn clamp(&mut self, min: Fixed, max: Fixed)
        ensures
            final(self)@ == v3_clamp(old(self)@, min@, max@),
    {
        self.x = self.x.clamp(min, max);
        self.y = self.y.clamp(min, max);
        self.z = self.z.clamp(min, max);
    }

    /// The blend `(1 - t) self + t b`.
    pub fn lerp(&self, b: &Vec3Simd, t: Fixed) -> (r: Self)
        ensures
            r@ == v3_lerp(self@, b@, t@),
    {
        self.scale(Fixed::one().sub(t)).add(b.scale(t))
    }

    /// The square root of each component.
    pub fn sqrt(&self) -> (r: Self)
        ensures
            r@ == v3_sqrt(self@),
    {
        Vec3Simd { x: self.x.sqrt(), y: self.y.sqrt(), z: self.z.sqrt() }
    }

    /// A vector with each component drawn from `[0, 1)`.
    pub fn random() -> (r: Self)
        ensures
            v3_within(r@, 0, ONE_RAW as int),
    {
        Vec3Simd::random_in_range(Fixed::zero(), Fixed::one())
    }

    /// A vector with each component drawn from `[min, max)`.
    pub fn random_in_range(min: Fixed, max: Fixed) -> (r: Self)
        requires
            min@ < max@,
        ensures
            v3_within(r@, min@, max@),
    {
        Vec3Simd {
            x: Fixed::random_in_range(min, max),
            y: Fixed::random_in_range(min, max),
            z: Fixed::random_in_range(min, max),
        }
    }

    /// Whether a draw from the cube lies strictly inside the unit ball.
    pub fn in_unit_ball(&self) -> (r: bool)
        ensures
            r == v3_in_unit_ball(self@),
    {
        norm_parts(self) < 0x1_0000_0000_0000_0000
    }

    /// A vector strictly inside the unit ball, by rejection: draws from the cube
    /// `[-1, 1)^3` until one falls inside the ball. After `MAX_DRAWS` rejected
    /// draws the centre of the ball is returned.
    pub fn random_in_unit_sphere() -> (r: Self)
        ensures
            v3_in_unit_ball(r@),
            v3_within(r@, -ONE_RAW, ONE_RAW as int),
    {
        let mut draws: u32 = 0;
        while draws < MAX_DRAWS
            invariant
                draws <= MAX_DRAWS,
            decreases MAX_DRAWS - draws,
        {
            let p = Vec3Simd::random_in_range(Fixed::one().neg(), Fixed::one());
            if p.in_unit_ball() {
                return p;
            }
            draws = draws + 1;
        }
        Vec3Simd { x: Fixed::zero(), y: Fixed::zero(), z: Fixed::zero() }
    }

    /// A direction of unit length, up to rounding: a draw from the unit ball,
    /// divided by its length.
    pub fn random_unit_vector() -> (r: Self)
        ensures
            is_unit_sample(r@),
    {
        let p = Vec3Simd::random_in_unit_sphere();
        p.unit_vector()
    }

    /// The vector itself where it points into the half-space of `normal`, else
    /// its opposite.
    pub fn into_hemisphere(self, normal: &Vec3Simd) -> (r: Self)
        ensures
            r@ == v3_into_hemisphere(self@, normal@),
    {
        if self.dot_is_positive(normal) {
            self
        } else {
            self.neg()
        }
    }

    /// A vector inside the unit ball that does not point against `normal`: a
    /// draw from the unit ball, turned into the half-space of `normal`.
    pub fn random_in_hemisphere(normal: &Vec3Simd) -> (r: Self)
        ensures
            v3_in_unit_ball(r@),
            dot_exact(r@, normal@) >= 0,
            v3_dot(r@, normal@) >= 0,
            exists|p: V3|
                v3_in_unit_ball(p) && v3_within(p, -ONE_RAW, ONE_RAW as int) && r@
                    == #[trigger] v3_into_hemisphere(p, normal@),
    {
        let in_unit_sphere = Vec3Simd::random_in_unit_sphere();
        proof {
            lemma_into_hemisphere(in_unit_sphere@, normal@);
        }
        in_unit_sphere.into_hemisphere(normal)
    }

    /// The display colour of this sum of `samples` colour samples.
    pub fn constrain_colour(&self, samples: u32) -> (r: Rgb)
        ensures
            r == v3_constrain(self@, samples as int),
    {
        let count: i64 = if samples < 1 {
            1
        } else {
            samples as i64
        };
        let mut colour = self.div(Fixed::from_int(count));

        colour = colour.sqrt();

        colour.clamp(Fixed::zero(), Fixed::from_ratio(999, 1000));
        Rgb { r: channel(colour.x), g: channel(colour.y), b: channel(colour.z) }
    }

    /// The componentwise sum.
    pub fn add(self, rhs: Vec3Simd) -> (r: Self)
        ensures
            r@ == v3_add(self@, rhs@),
    {
        Vec3Simd { x: self.x.add(rhs.x), y: self.y.add(rhs.y), z: self.z.add(rhs.z) }
    }

    /// The componentwise difference.
    pub fn sub(self, rhs: Vec3Simd) -> (r: Self)
        ensures
            r@ == v3_sub(self@, rhs@),
    {
        Vec3Simd { x: self.x.sub(rhs.x), y: self.y.sub(rhs.y), z: self.z.sub(rhs.z) }
    }

    /// The componentwise product.
    pub fn mul(self, rhs: Vec3Simd) -> (r: Self)
        ensures
            r@ == v3_mul(self@, rhs@),
    {
        Vec3Simd { x: self.x.mul(rhs.x), y: self.y.mul(rhs.y), z: self.z.mul(rhs.z) }
    }

    /// The vector times the scalar `s`.
    pub fn scale(self, s: Fixed) -> (r: Self)
        ensures
            r@ == v3_scale(self@, s@),
    {
        Vec3Simd { x: self.x.mul(s), y: self.y.mul(s), z: self.z.mul(s) }
    }

    /// The vector divided by the scalar `s`.
    pub fn div(self, s: Fixed) -> (r: Self)
        ensures
            r@ == v3_div(self@, s@),
    {
        Vec3Simd { x: self.x.div(s), y: self.y.div(s), z: self.z.div(s) }
    }

    /// The opposite vector.
    pub fn neg(self) -> (r: Self)
        ensures
            r@ == v3_neg(self@),
    {
        Vec3Simd { x: self.x.neg(), y: self.y.neg(), z: self.z.neg() }
    }
}

} // verus!
