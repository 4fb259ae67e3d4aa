//! Spheres.
//!
//! A ray meets a sphere where the distance `s` gone along its unit direction
//! solves `s^2 + 2 b s + |oc|^2 - r^2 = 0`, with `oc` the way from the centre
//! to the origin of the ray and `b` the dot product of `oc` with the unit
//! direction. The squares are kept exact, so that neither a short direction
//! nor a far sphere loses them to rounding; the distance is then divided by
//! the length of the direction to give the parameter of the ray.
use crate::fixed::{
    fx_add, fx_neg, fx_sub, in_range, isqrt, isqrt_u128, lemma_isqrt_unique, quot, sat, Fixed,
    MAX_RAW, ONE_RAW,
};
use crate::fixed_laws::{lemma_isqrt_exists, lemma_quot_error};
use crate::hit_record::{lemma_normal_opposes_ray, with_face_normal, HitModel, HitRecord};
use crate::hittable::Hittable;
use crate::ray::{ray_at, Ray, RayModel};
use crate::vec3simd::{
    abs_of, dot_exact, doublings, lemma_along_monotone, lemma_dot_neg, lemma_step_error,
    lemma_stretched_is_scaled, lemma_stretched_length, lemma_two_to_positive, lemma_unit_bounded,
    lemma_unit_length, max_abs, norm_exact, norm_parts, stretch_factor, stretched, v3_along,
    v3_div, v3_dot, v3_in_range, v3_minus, v3_neg, v3_plus, v3_sub, v3_unit, v3_zero, Vec3Simd,
    V3,
};
use vstd::prelude::*;

verus! {

/// The mathematical content of a sphere.
pub struct SphereModel {
    pub centre: V3,
    pub radius: int,
}

/// The distance from the origin of the ray to the foot of the centre on the
/// ray, counted against the ray: the dot product of the way from the centre
/// to the origin with the unit direction of the ray.
pub open spec fn sphere_half_b(s: SphereModel, ray: RayModel) -> int {
    v3_dot(v3_sub(ray.orig, s.centre), v3_unit(ray.dir))
}

/// The discriminant of the quadratic in the distance along the ray, in
/// squared steps: `b * b - (|oc|^2 - r^2)`, with no rounding beyond that of
/// `b` itself.
pub open spec fn sphere_discriminant(s: SphereModel, ray: RayModel) -> int {
    let b = sphere_half_b(s, ray);
    b * b + s.radius * s.radius - norm_exact(v3_sub(ray.orig, s.centre))
}

/// What the quadratic in the distance along the ray leaves at distance
/// `distance`, in squared steps: `s^2 + 2 b s + |oc|^2 - r^2`. It is zero at
/// an intersection.
pub open spec fn sphere_residue(s: SphereModel, ray: RayModel, distance: int) -> int {
    distance * distance + 2 * sphere_half_b(s, ray) * distance + norm_exact(
        v3_sub(ray.orig, s.centre),
    ) - s.radius * s.radius
}

/// Half the distance between the two intersections: the square root of the
/// discriminant, where that is not negative.
pub open spec fn sphere_half_chord(s: SphereModel, ray: RayModel) -> int {
    sat(isqrt(sphere_discriminant(s, ray)))
}

/// The smaller root: the parameter at which the ray has gone the distance to
/// the nearer intersection. It may lie beyond the range, and so beyond every
/// window.
pub open spec fn sphere_near_root(s: SphereModel, ray: RayModel) -> int {
    v3_along(ray.dir, fx_sub(fx_neg(sphere_half_b(s, ray)), sphere_half_chord(s, ray)))
}

/// The larger root: the parameter at which the ray has gone the distance to
/// the farther intersection. It may lie beyond the range, and so beyond every
/// window.
pub open spec fn sphere_far_root(s: SphereModel, ray: RayModel) -> int {
    v3_along(ray.dir, fx_add(fx_neg(sphere_half_b(s, ray)), sphere_half_chord(s, ray)))
}

/// The record of the intersection at parameter `root`.
pub open spec fn sphere_record(s: SphereModel, ray: RayModel, root: int) -> HitModel {
    let point = ray_at(ray, root);
    let outward = v3_div(v3_sub(point, s.centre), s.radius);
    with_face_normal(
        HitModel { point, normal: v3_zero(), t: root, front_face: false },
        ray,
        outward,
    )
}

/// The intersection of a ray with a sphere inside a window: at the smaller
/// root where that lies in the window, else at the larger root where that
/// does, else none.
pub open spec fn sphere_hit(s: SphereModel, ray: RayModel, t_min: int, t_max: int) -> Option<
    HitModel,
> {
    if sphere_discriminant(s, ray) < 0 {
        None
    } else {
        let near = sphere_near_root(s, ray);
        let far = sphere_far_root(s, ray);
        if t_min <= near <= t_max {
            Some(sphere_record(s, ray, near))
        } else if t_min <= far <= t_max {
            Some(sphere_record(s, ray, far))
        } else {
            None
        }
    }
}

/// The parameter `t`, where there is one and it lies in `[t_min, t_max]`.
fn in_window(t: Option<Fixed>, t_min: Fixed, t_max: Fixed) -> (r: Option<Fixed>)
    ensures
        in_range(t_min@),
        in_range(t_max@),
        r == match t {
            Some(root) => if t_min@ <= root@ <= t_max@ {
                Some(root)
            } else {
                None
            },
            None => None,
        },
{
    let low = t_min.raw();
    let high = t_max.raw();
    match t {
        Some(root) => if root.raw() < low || high < root.raw() {
            None
        } else {
            Some(root)
        },
        None => None,
    }
}

/// A sphere, by its centre and radius.
#[derive(Clone, Copy, PartialEq, Eq, Structural, Debug)]
pub struct Sphere {
    pub centre: Vec3Simd,
    pub radius: Fixed,
}

impl View for Sphere {
    type V = SphereModel;

    open spec fn view(&self) -> SphereModel {
        SphereModel { centre: self.centre@, radius: self.radius@ }
    }
}

impl Sphere {
    /// The sphere around `centre` with the given radius.
    pub fn new(centre: Vec3Simd, radius: Fixed) -> (r: Self)
        ensures
            r@ == (SphereModel { centre: centre@, radius: radius@ }),
    {
        Sphere { centre, radius }
    }
}

/// Where the discriminant is not negative, the smaller root is not above the
/// larger one.
pub proof fn lemma_sphere_roots_ordered(s: SphereModel, ray: RayModel)
    requires
        sphere_discriminant(s, ray) >= 0,
    ensures
        sphere_near_root(s, ray) <= sphere_far_root(s, ray),
{
    let m = fx_neg(sphere_half_b(s, ray));
    let chord = sphere_half_chord(s, ray);
    lemma_isqrt_exists(sphere_discriminant(s, ray));
    lemma_along_monotone(ray.dir, fx_sub(m, chord), fx_add(m, chord));
}

/// The distance to the nearer intersection solves the quadratic up to the
/// rounding of the square root: where nothing is clamped, the distance `s`
/// has `-(2 chord + 1) < s^2 + 2 b s + |oc|^2 - r^2 <= 0`, with `chord` half
/// the distance between the intersections. The same holds of the farther one.
pub proof fn lemma_sphere_roots_solve(s: SphereModel, ray: RayModel)
    requires
        sphere_discriminant(s, ray) >= 0,
        in_range(isqrt(sphere_discriminant(s, ray))),
        in_range(-sphere_half_b(s, ray) - sphere_half_chord(s, ray)),
        in_range(-sphere_half_b(s, ray) + sphere_half_chord(s, ray)),
    ensures
        -(2 * sphere_half_chord(s, ray) + 1) < sphere_residue(
            s,
            ray,
            fx_sub(fx_neg(sphere_half_b(s, ray)), sphere_half_chord(s, ray)),
        ) <= 0,
        -(2 * sphere_half_chord(s, ray) + 1) < sphere_residue(
            s,
            ray,
            fx_add(fx_neg(sphere_half_b(s, ray)), sphere_half_chord(s, ray)),
        ) <= 0,
{
    let b = sphere_half_b(s, ray);
    let disc = sphere_discriminant(s, ray);
    let chord = sphere_half_chord(s, ray);
    lemma_isqrt_exists(disc);
    let near = -b - chord;
    let far = -b + chord;
    assert(near * near + 2 * b * near + b * b == chord * chord && far * far + 2 * b * far + b
        * b == chord * chord) by (nonlinear_arith)
        requires
            near == -b - chord,
            far == -b + chord,
    ;
    assert((chord + 1) * (chord + 1) == chord * chord + 2 * chord + 1) by (nonlinear_arith);
}

/// How far the square of the distance of a reported point from the centre may
/// be from the square of the radius, in squared steps times the square of
/// one. `reach` bounds the components of the way from the centre to the
/// origin of the ray, `stride` those of the direction, `distance` is the
/// distance that was gone and `chord` half the way between the
/// intersections. Taken by twice the radius, it bounds the miss in steps:
/// a few steps for a scene of the size of one, and more in proportion for a
/// longer direction, whose parameter is rounded to the same grid.
pub open spec fn sphere_slack(reach: int, stride: int, distance: int, chord: int) -> int {
    let one = ONE_RAW as int;
    let step = one + stride + distance;
    (one * one) * (2 * chord + 1 + 2 * distance) + (distance * distance) * (6 * one + 3) + 6 * ((one
        * (reach + distance)) * step) + 3 * (step * step)
}

/// One component of the way from the centre to a reported point, squared:
/// with `z = one o + s u` the exact place along the unit vector and `e = one
/// w - s u` what rounding adds, `(one (o + w))^2` is `z^2` up to `2 Z E + E^2`.
proof fn lemma_component_square(o: int, s: int, u: int, w: int, big: int, step: int)
    requires
        -big <= ONE_RAW * o + s * u <= big,
        -step <= w * ONE_RAW - s * u <= step,
    ensures
        ({
            let one = ONE_RAW as int;
            let exact = (one * one) * (o * o) + (2 * one * s) * (o * u) + (s * s) * (u * u);
            -(2 * (big * step)) <= (one * one) * ((o + w) * (o + w)) - exact <= 2 * (big * step)
                + step * step
        }),
{
    let one = ONE_RAW as int;
    let z = one * o + s * u;
    let e = w * one - s * u;
    assert(one * (o + w) == z + e) by (nonlinear_arith)
        requires
            z == one * o + s * u,
            e == w * one - s * u,
    ;
    let full = one * (o + w);
    assert((one * one) * ((o + w) * (o + w)) == full * full) by (nonlinear_arith)
        requires
            full == one * (o + w),
    ;
    assert(full * full == z * z + 2 * (z * e) + e * e) by (nonlinear_arith)
        requires
            full == z + e,
    ;
    let a = one * o;
    let b = s * u;
    assert(z * z == a * a + 2 * (a * b) + b * b) by (nonlinear_arith)
        requires
            z == a + b,
    ;
    assert(a * a == (one * one) * (o * o)) by (nonlinear_arith)
        requires
            a == one * o,
    ;
    assert(b * b == (s * s) * (u * u)) by (nonlinear_arith)
        requires
            b == s * u,
    ;
    assert(2 * (a * b) == (2 * one * s) * (o * u)) by (nonlinear_arith)
        requires
            a == one * o,
            b == s * u,
    ;
    assert(-(big * step) <= z * e <= big * step) by (nonlinear_arith)
        requires
            -big <= z <= big,
            -step <= e <= step,
    ;
    assert(0 <= e * e <= step * step) by (nonlinear_arith)
        requires
            -step <= e <= step,
    ;
}

/// The sum of the squared components of the way to a reported point, put
/// together: what the exact quadratic leaves, what the rounding of `b` and of
/// the unit vector adds, and what the rounding of the step adds.
proof fn lemma_slack_algebra(
    one: int,
    on: int,
    b0: int,
    nn: int,
    s: int,
    sa: int,
    b: int,
    c: int,
    r2: int,
    ze: int,
    ee: int,
    g: int,
)
    requires
        one > 0,
        -one < b * one - b0 < one,
        one * one - 6 * one - 3 <= nn <= one * one + 8,
        c >= 0,
        -(2 * c + 1) < s * s + 2 * b * s + on - r2 <= 0,
        sa == if s < 0 {
            -s
        } else {
            s
        },
        ze >= 0,
        ee >= 0,
        (one * one) * on + (2 * one * s) * b0 + (s * s) * nn - 6 * ze <= g,
        g <= (one * one) * on + (2 * one * s) * b0 + (s * s) * nn + 6 * ze + 3 * ee,
    ensures
        -((one * one) * (2 * c + 1 + 2 * sa) + (s * s) * (6 * one + 3) + 6 * ze + 3 * ee) <= g
            - (one * one) * r2,
        g - (one * one) * r2 <= (one * one) * (2 * c + 1 + 2 * sa) + (s * s) * (6 * one + 3) + 6
            * ze + 3 * ee,
{
    let oo = one * one;
    let ss = s * s;
    let res = ss + 2 * b * s + on - r2;
    let x = oo * on + (2 * one * s) * b0 + ss * nn;
    let p1 = oo * res;
    let p2 = (2 * one * s) * (b0 - one * b);
    let p3 = ss * (nn - oo);
    assert(ss >= 0 && oo > 0) by (nonlinear_arith)
        requires
            ss == s * s,
            oo == one * one,
            one > 0,
    ;
    assert(x - oo * r2 == p1 + p2 + p3) by (nonlinear_arith)
        requires
            x == oo * on + (2 * one * s) * b0 + ss * nn,
            p1 == oo * (ss + 2 * b * s + on - r2),
            p2 == (2 * one * s) * (b0 - one * b),
            p3 == ss * (nn - oo),
            oo == one * one,
    ;
    assert(-(oo * (2 * c + 1)) <= p1 <= 0) by (nonlinear_arith)
        requires
            p1 == oo * res,
            -(2 * c + 1) < res <= 0,
            oo >= 0,
    ;
    assert(-(oo * (2 * sa)) <= p2 <= oo * (2 * sa)) by (nonlinear_arith)
        requires
            p2 == (2 * one * s) * (b0 - one * b),
            -one < b0 - one * b < one,
            one > 0,
            oo == one * one,
            -sa <= s <= sa,
            sa >= 0,
    ;
    assert(-(ss * (6 * one + 3)) <= p3 <= ss * (6 * one + 3)) by (nonlinear_arith)
        requires
            p3 == ss * (nn - oo),
            oo - 6 * one - 3 <= nn <= oo + 8,
            ss >= 0,
            one > 0,
    ;
    assert(oo * (2 * c + 1 + 2 * sa) == oo * (2 * c + 1) + oo * (2 * sa)) by (nonlinear_arith);
}

/// Nothing is clamped on the way to the point at distance `distance`: the
/// way from the centre to the origin, the foot of the centre, the half chord,
/// the parameter, the step along the ray and the point itself are all in
/// range.
pub open spec fn sphere_unclamped(s: SphereModel, ray: RayModel, distance: int) -> bool {
    let one = ONE_RAW as int;
    let t = v3_along(ray.dir, distance);
    let step = V3 {
        x: quot(ray.dir.x * t, one),
        y: quot(ray.dir.y * t, one),
        z: quot(ray.dir.z * t, one),
    };
    &&& v3_in_range(v3_minus(ray.orig, s.centre))
    &&& in_range(quot(dot_exact(v3_minus(ray.orig, s.centre), v3_unit(ray.dir)), one))
    &&& in_range(isqrt(sphere_discriminant(s, ray)))
    &&& in_range(distance)
    &&& in_range(t)
    &&& v3_in_range(step)
    &&& v3_in_range(v3_plus(ray.orig, step))
    &&& v3_in_range(v3_minus(v3_plus(ray.orig, step), s.centre))
}

/// A reported point lies on the sphere up to `sphere_slack`: where the
/// direction is not zero and nothing is clamped, the squared distance of the
/// point at either root from the centre differs from the squared radius by
/// that much at most, both taken times the square of one.
pub proof fn lemma_sphere_point_near(s: SphereModel, ray: RayModel, distance: int)
    requires
        0 < max_abs(ray.dir) <= MAX_RAW,
        sphere_discriminant(s, ray) >= 0,
        distance == -sphere_half_b(s, ray) - sphere_half_chord(s, ray) || distance
            == -sphere_half_b(s, ray) + sphere_half_chord(s, ray),
        sphere_unclamped(s, ray, distance),
    ensures
        ({
            let from_centre = v3_sub(ray_at(ray, v3_along(ray.dir, distance)), s.centre);
            let slack = sphere_slack(
                max_abs(v3_minus(ray.orig, s.centre)),
                max_abs(ray.dir),
                abs_of(distance),
                sphere_half_chord(s, ray),
            );
            &&& -slack <= (ONE_RAW * ONE_RAW) * norm_exact(from_centre) - (ONE_RAW * ONE_RAW) * (
            s.radius * s.radius)
            &&& (ONE_RAW * ONE_RAW) * norm_exact(from_centre) - (ONE_RAW * ONE_RAW) * (s.radius
                * s.radius) <= slack
        }),
{
    let one = ONE_RAW as int;
    let oo = one * one;
    let d = ray.dir;
    let o = v3_minus(ray.orig, s.centre);
    let u = v3_unit(d);
    let f = stretch_factor(d);
    let l = isqrt(norm_exact(stretched(d)));
    let t = v3_along(d, distance);
    let w = V3 { x: quot(d.x * t, one), y: quot(d.y * t, one), z: quot(d.z * t, one) };
    let q = v3_sub(ray_at(ray, t), s.centre);
    let b = sphere_half_b(s, ray);
    let c = sphere_half_chord(s, ray);
    let disc = sphere_discriminant(s, ray);
    let sa = abs_of(distance);
    let reach = max_abs(o);
    let stride = max_abs(d);
    let big = one * (reach + sa);
    let step = one + stride + sa;

    // The unit vector and the steps along the ray.
    lemma_stretched_is_scaled(d);
    lemma_stretched_length(d);
    lemma_two_to_positive(doublings(max_abs(d)));
    lemma_unit_bounded(d);
    lemma_unit_length(d);
    assert(u.x == quot((f * d.x) * one, l) && u.y == quot((f * d.y) * one, l) && u.z == quot(
        (f * d.z) * one,
        l,
    ));
    lemma_step_error(d.x, distance, f, l);
    lemma_step_error(d.y, distance, f, l);
    lemma_step_error(d.z, distance, f, l);

    // The place along the unit vector is within reach.
    lemma_within(o.x, distance, u.x, reach, sa);
    lemma_within(o.y, distance, u.y, reach, sa);
    lemma_within(o.z, distance, u.z, reach, sa);
    lemma_component_square(o.x, distance, u.x, w.x, big, step);
    lemma_component_square(o.y, distance, u.y, w.y, big, step);
    lemma_component_square(o.z, distance, u.z, w.z, big, step);

    // The point itself.
    assert(q == v3_plus(o, w));
    let gx = oo * ((o.x + w.x) * (o.x + w.x));
    let gy = oo * ((o.y + w.y) * (o.y + w.y));
    let gz = oo * ((o.z + w.z) * (o.z + w.z));
    let g = oo * norm_exact(q);
    assert(g == gx + gy + gz) by (nonlinear_arith)
        requires
            g == oo * ((o.x + w.x) * (o.x + w.x) + (o.y + w.y) * (o.y + w.y) + (o.z + w.z) * (o.z
                + w.z)),
            gx == oo * ((o.x + w.x) * (o.x + w.x)),
            gy == oo * ((o.y + w.y) * (o.y + w.y)),
            gz == oo * ((o.z + w.z) * (o.z + w.z)),
    ;
    let on = norm_exact(o);
    let b0 = dot_exact(o, u);
    let nn = norm_exact(u);
    let ss = distance * distance;
    let k = 2 * one * distance;
    assert(oo * on == oo * (o.x * o.x) + oo * (o.y * o.y) + oo * (o.z * o.z)) by (nonlinear_arith)
        requires
            on == o.x * o.x + o.y * o.y + o.z * o.z,
    ;
    assert(k * b0 == k * (o.x * u.x) + k * (o.y * u.y) + k * (o.z * u.z)) by (nonlinear_arith)
        requires
            b0 == o.x * u.x + o.y * u.y + o.z * u.z,
    ;
    assert(ss * nn == ss * (u.x * u.x) + ss * (u.y * u.y) + ss * (u.z * u.z)) by (nonlinear_arith)
        requires
            nn == u.x * u.x + u.y * u.y + u.z * u.z,
    ;
    let ze = big * step;
    let ee = step * step;
    assert(ze >= 0 && ee >= 0) by (nonlinear_arith)
        requires
            ze == big * step,
            ee == step * step,
            big >= 0,
            step >= 0,
    ;
    assert(big >= 0) by (nonlinear_arith)
        requires
            big == one * (reach + sa),
            one > 0,
            reach >= 0,
            sa >= 0,
    ;

    // The foot of the centre, the half chord and what the quadratic leaves.
    lemma_quot_error(b0, one);
    lemma_isqrt_exists(disc);
    assert(distance * distance + 2 * b * distance + b * b == c * c) by (nonlinear_arith)
        requires
            distance == -b - c || distance == -b + c,
    ;
    assert((c + 1) * (c + 1) == c * c + 2 * c + 1) by (nonlinear_arith);
    lemma_slack_algebra(one, on, b0, nn, distance, sa, b, c, s.radius * s.radius, ze, ee, g);
    assert(sa * sa == ss) by (nonlinear_arith)
        requires
            sa == distance || sa == -distance,
            ss == distance * distance,
    ;
}

/// One component of a normal, squared: for the quotient `n` of `q` times one
/// by the radius `r`, `(n r)^2` is `(q one)^2` up to `2 one Q r + r^2`.
proof fn lemma_normal_component(q: int, r: int, n: int, reach: int)
    requires
        r > 0,
        n == quot(q * ONE_RAW, r),
        -reach <= q <= reach,
    ensures
        -(2 * ((ONE_RAW * reach) * r)) <= (r * r) * (n * n) - (ONE_RAW * ONE_RAW) * (q * q) <= 2 * ((
        ONE_RAW * reach) * r) + r * r,
{
    let one = ONE_RAW as int;
    lemma_quot_error(q * one, r);
    let z = q * one;
    let e = n * r - z;
    let full = n * r;
    assert((r * r) * (n * n) == full * full) by (nonlinear_arith)
        requires
            full == n * r,
    ;
    assert(full * full == z * z + 2 * (z * e) + e * e) by (nonlinear_arith)
        requires
            full == z + e,
    ;
    assert(z * z == (one * one) * (q * q)) by (nonlinear_arith)
        requires
            z == q * one,
    ;
    let big = one * reach;
    assert(-big <= z <= big) by (nonlinear_arith)
        requires
            z == q * one,
            -reach <= q <= reach,
            one > 0,
            big == one * reach,
    ;
    assert(-(big * r) <= z * e <= big * r) by (nonlinear_arith)
        requires
            -big <= z <= big,
            -r < e < r,
    ;
    assert(0 <= e * e <= r * r) by (nonlinear_arith)
        requires
            -r < e < r,
    ;
}

/// A stored normal has length one up to a stated bound: where the radius is
/// positive, the direction is not zero and nothing is clamped, the squared
/// length of the normal at either root differs from the square of one by
/// `sphere_slack`, and by what the division by the radius adds, at most, all
/// taken times the square of the radius.
pub proof fn lemma_sphere_normal_near(s: SphereModel, ray: RayModel, distance: int)
    requires
        0 < max_abs(ray.dir) <= MAX_RAW,
        s.radius > 0,
        sphere_discriminant(s, ray) >= 0,
        distance == -sphere_half_b(s, ray) - sphere_half_chord(s, ray) || distance
            == -sphere_half_b(s, ray) + sphere_half_chord(s, ray),
        sphere_unclamped(s, ray, distance),
        ({
            let q = v3_sub(ray_at(ray, v3_along(ray.dir, distance)), s.centre);
            v3_in_range(
                V3 {
                    x: quot(q.x * ONE_RAW, s.radius),
                    y: quot(q.y * ONE_RAW, s.radius),
                    z: quot(q.z * ONE_RAW, s.radius),
                },
            )
        }),
    ensures
        ({
            let one = ONE_RAW as int;
            let r = s.radius;
            let t = v3_along(ray.dir, distance);
            let from_centre = v3_sub(ray_at(ray, t), s.centre);
            let room = sphere_slack(
                max_abs(v3_minus(ray.orig, s.centre)),
                max_abs(ray.dir),
                abs_of(distance),
                sphere_half_chord(s, ray),
            ) + 6 * ((one * max_abs(from_centre)) * r) + 3 * (r * r);
            let normal = sphere_record(s, ray, t).normal;
            &&& -room <= (r * r) * norm_exact(normal) - (r * r) * (one * one)
            &&& (r * r) * norm_exact(normal) - (r * r) * (one * one) <= room
        }),
{
    let one = ONE_RAW as int;
    let r = s.radius;
    let t = v3_along(ray.dir, distance);
    let q = v3_sub(ray_at(ray, t), s.centre);
    let outward = v3_div(q, r);
    let normal = sphere_record(s, ray, t).normal;
    lemma_sphere_point_near(s, ray, distance);
    lemma_dot_neg(outward, outward);
    lemma_dot_neg(v3_neg(outward), outward);
    assert(dot_exact(outward, v3_neg(outward)) == dot_exact(v3_neg(outward), outward))
        by (nonlinear_arith);
    assert(norm_exact(normal) == norm_exact(outward));
    let reach = max_abs(q);
    lemma_normal_component(q.x, r, outward.x, reach);
    lemma_normal_component(q.y, r, outward.y, reach);
    lemma_normal_component(q.z, r, outward.z, reach);
    let rr = r * r;
    let oo = one * one;
    assert(rr * norm_exact(outward) == rr * (outward.x * outward.x) + rr * (outward.y * outward.y)
        + rr * (outward.z * outward.z)) by (nonlinear_arith)
        requires
            norm_exact(outward) == outward.x * outward.x + outward.y * outward.y + outward.z
                * outward.z,
    ;
    assert(oo * norm_exact(q) == oo * (q.x * q.x) + oo * (q.y * q.y) + oo * (q.z * q.z))
        by (nonlinear_arith)
        requires
            norm_exact(q) == q.x * q.x + q.y * q.y + q.z * q.z,
    ;
    assert(oo * rr == rr * oo) by (nonlinear_arith);
}

/// A place along the unit vector lies within the reach of the origin and the
/// distance gone.
proof fn lemma_within(o: int, s: int, u: int, reach: int, sa: int)
    requires
        -reach <= o <= reach,
        -sa <= s <= sa,
        -ONE_RAW <= u <= ONE_RAW,
    ensures
        -(ONE_RAW * (reach + sa)) <= ONE_RAW * o + s * u <= ONE_RAW * (reach + sa),
{
    let one = ONE_RAW as int;
    assert(-(sa * one) <= s * u <= sa * one) by (nonlinear_arith)
        requires
            -sa <= s <= sa,
            -one <= u <= one,
    ;
    assert(-(one * reach) <= one * o <= one * reach) by (nonlinear_arith)
        requires
            -reach <= o <= reach,
            one > 0,
    ;
    assert(one * (reach + sa) == one * reach + sa * one) by (nonlinear_arith);
}

/// A reported intersection lies on the ray at the reported parameter, and
/// its normal does not point along the ray.
pub proof fn lemma_sphere_hit_faces_ray(s: SphereModel, ray: RayModel, t_min: int, t_max: int)
    ensures
        sphere_hit(s, ray, t_min, t_max) matches Some(h) ==> h.point == ray_at(ray, h.t)
            && dot_exact(ray.dir, h.normal) <= 0,
{
    if let Some(h) = sphere_hit(s, ray, t_min, t_max) {
        let outward = v3_div(v3_sub(h.point, s.centre), s.radius);
        lemma_normal_opposes_ray(
            HitModel { point: h.point, normal: v3_zero(), t: h.t, front_face: false },
            ray,
            outward,
        );
    }
}

impl Hittable for Sphere {
    open spec fn hit_spec(&self, ray: RayModel, t_min: int, t_max: int) -> Option<HitModel> {
        sphere_hit(self@, ray, t_min, t_max)
    }

    fn hit(&self, ray: &Ray, t_min: Fixed, t_max: Fixed, rec: &mut HitRecord) -> (r: bool) {
        let oc = ray.orig.sub(self.centre);
        let unit_direction = ray.dir.unit_vector();
        let half_b = oc.dot(&unit_direction);

        let gain: u128 = half_b.square_steps() + self.radius.square_steps();
        let loss: u128 = norm_parts(&oc);
        if gain < loss {
            return false;
        }
        let root_of_discriminant = isqrt_u128(gain - loss);
        proof {
            lemma_isqrt_unique((gain - loss) as int, root_of_discriminant as int);
        }
        let sqrtd = Fixed::from_sign_magnitude(false, root_of_discriminant);
        let root = match in_window(ray.dir.along(half_b.neg().sub(sqrtd)), t_min, t_max) {
            Some(near) => near,
            None => match in_window(ray.dir.along(half_b.neg().add(sqrtd)), t_min, t_max) {
                Some(far) => far,
                None => {
                    return false;
                },
            },
        };
        rec.t = root;
        rec.point = ray.at(rec.t);
        let outward_normal = rec.point.sub(self.centre).div(self.radius);
        rec.set_face_normal(ray, &outward_normal);
        true
    }

    proof fn lemma_hit_in_window(&self, ray: RayModel, t_min: int, t_max: int) {
    }

    proof fn lemma_hit_narrowed(&self, ray: RayModel, t_min: int, t_max: int, closest: int) {
        if sphere_discriminant(self@, ray) >= 0 {
            lemma_sphere_roots_ordered(self@, ray);
        }
    }
}

} // verus!
