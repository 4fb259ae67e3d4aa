use pathtracer::fixed::{Fixed, MAX_RAW};
use pathtracer::vec3simd::{Rgb, Vec3, Vec3Simd};

fn fx(x: f64) -> Fixed {
    Fixed::from_raw((x * 4294967296.0) as i64)
}

fn simd(x: f64, y: f64, z: f64) -> Vec3Simd {
    Vec3Simd::new(fx(x), fx(y), fx(z))
}

fn plain(x: f64, y: f64, z: f64) -> Vec3 {
    Vec3::new(fx(x), fx(y), fx(z))
}

#[test]
fn vec3_test_dot_product() {
    // Very simple dot product test
    let a = plain(1.0, 2.0, 3.0);
    let b = plain(4.0, 5.0, 6.0);

    assert_eq!(fx(32.), a.dot(&b));
}

#[test]
fn vec3_test_cross_product() {
    let a = plain(1.0, 2.0, 3.0);
    let b = plain(4.0, 5.0, 6.0);

    assert_eq!(plain(-3., 6., -3.), a.cross(&b));
}

#[test]
fn vec3simd_test_dot_product() {
    // Very simple dot product test
    let a = simd(1.0, 2.0, 3.0);
    let b = simd(4.0, 5.0, 6.0);

    assert_eq!(fx(32.), a.dot(&b));
}

#[test]
fn vec3simd_test_cross_product() {
    let a = simd(1.0, 2.0, 3.0);
    let b = simd(4.0, 5.0, 6.0);

    assert_eq!(simd(-3., 6., -3.), a.cross(&b));
}

#[test]
fn cross_product_of_axes() {
    let x = simd(1., 0., 0.);
    let y = simd(0., 1., 0.);
    let z = simd(0., 0., 1.);
    assert_eq!(x.cross(&y), z);
    assert_eq!(y.cross(&z), x);
    assert_eq!(z.cross(&x), y);
    assert_eq!(y.cross(&x), z.neg());
}

#[test]
fn componentwise_arithmetic() {
    let a = simd(1.0, -2.0, 0.5);
    let b = simd(0.25, 4.0, -8.0);
    assert_eq!(a.add(b), simd(1.25, 2.0, -7.5));
    assert_eq!(a.sub(b), simd(0.75, -6.0, 8.5));
    assert_eq!(a.mul(b), simd(0.25, -8.0, -4.0));
    assert_eq!(a.scale(fx(2.0)), simd(2.0, -4.0, 1.0));
    assert_eq!(a.div(fx(2.0)), simd(0.5, -1.0, 0.25));
    assert_eq!(a.neg(), simd(-1.0, 2.0, -0.5));
}

#[test]
fn accessors_and_default() {
    let a = simd(1.0, -2.0, 0.5);
    assert_eq!(a.x(), fx(1.0));
    assert_eq!(a.y(), fx(-2.0));
    assert_eq!(a.z(), fx(0.5));
    assert_eq!(Vec3Simd::default(), simd(0., 0., 0.));
}

#[test]
fn length_of_a_pythagorean_vector() {
    let a = simd(3.0, 4.0, 12.0);
    assert_eq!(a.length_squared(), fx(169.0));
    assert_eq!(a.length(), fx(13.0));
}

#[test]
fn unit_vector_of_an_axis_multiple() {
    assert_eq!(simd(0.0, 0.0, -5.0).unit_vector(), simd(0.0, 0.0, -1.0));
    assert_eq!(simd(2.0, 0.0, 0.0).unit_vector(), simd(1.0, 0.0, 0.0));
}

#[test]
fn length_comes_from_the_exact_squares() {
    // Each square is less than a step, yet the length is not lost.
    let short = simd(1. / 65536., 0., 0.);
    assert_eq!(short.length(), fx(1. / 65536.));
    assert_eq!(short.length_squared(), Fixed::from_raw(1));
    let tiny = Vec3Simd::new(Fixed::from_raw(3), Fixed::from_raw(4), Fixed::from_raw(0));
    assert_eq!(tiny.length(), Fixed::from_raw(5));
    assert_eq!(tiny.length_squared(), Fixed::zero());
    // The squares of a long vector lie beyond the range; its length does not.
    let long = simd(300000., 400000., 0.);
    assert_eq!(long.length(), fx(500000.));
    assert_eq!(long.length_squared().raw(), MAX_RAW);
}

#[test]
fn unit_vector_of_short_and_long_vectors() {
    let step = Fixed::from_raw(1);
    let zero = Fixed::zero();
    assert_eq!(Vec3Simd::new(zero, step, zero).unit_vector(), simd(0., 1., 0.));
    assert_eq!(Vec3Simd::new(zero, zero, step.neg()).unit_vector(), simd(0., 0., -1.));
    assert_eq!(simd(0., 0., -1. / 65536.).unit_vector(), simd(0., 0., -1.));
    assert_eq!(
        Vec3Simd::new(Fixed::from_raw(3), Fixed::from_raw(-4), zero).unit_vector(),
        simd(0.6, -0.8, 0.)
    );
    assert_eq!(
        Vec3Simd::new(Fixed::max_value(), zero, zero).unit_vector(),
        simd(1., 0., 0.)
    );
    assert_eq!(simd(3000000., 0., 4000000.).unit_vector(), simd(0.6, 0., 0.8));
}

#[test]
fn unit_vector_has_length_one_at_every_scale() {
    let one = Fixed::one().raw();
    for raw in [1i64, 3, 1000, 1 << 20, 1 << 32, 1 << 45, (1 << 62) + 12345] {
        for (a, b, c) in [(1, 1, 1), (1, -2, 3), (7, 0, -1), (0, 0, 1), (5, 5, -9)] {
            let v = Vec3Simd::new(
                Fixed::from_raw(raw / 9 * a),
                Fixed::from_raw(raw / 9 * b),
                Fixed::from_raw(raw / 9 * c + raw % 9),
            );
            if v == simd(0., 0., 0.) {
                continue;
            }
            let len = v.unit_vector().length().raw();
            assert!((len - one).abs() <= 3, "{:?} has a unit vector of length {}", v, len);
        }
    }
}

#[test]
fn along_divides_by_the_exact_length() {
    assert_eq!(simd(0., 0., -2.).along(fx(3.)), Some(fx(1.5)));
    assert_eq!(simd(3., 4., 0.).along(fx(-10.)), Some(fx(-2.)));
    assert_eq!(simd(0., 0., -1. / 65536.).along(fx(0.5)), Some(fx(32768.)));
    // A direction of one step up and one step aside is the square root of
    // two steps long.
    let tiny = Vec3Simd::new(Fixed::from_raw(1), Fixed::from_raw(1), Fixed::from_raw(0));
    let t = tiny.along(Fixed::from_raw(1 << 20)).unwrap().raw() as f64;
    let exact = (1u64 << 52) as f64 / 2f64.sqrt();
    assert!((t - exact).abs() <= 1.0);
    // A parameter beyond the range is none.
    assert_eq!(tiny.along(Fixed::max_value()), None);
    assert_eq!(tiny.along(fx(-1.)), None);
    // A ray along no direction is nowhere but at its origin.
    assert_eq!(simd(0., 0., 0.).along(fx(1.)), None);
    assert_eq!(simd(0., 0., 0.).along(fx(-1.)), None);
    assert_eq!(simd(0., 0., 0.).along(fx(0.)), Some(fx(0.)));
}

#[test]
fn dot_rounds_the_exact_sum_once() {
    let a = Vec3Simd::new(Fixed::from_raw(1 << 31), Fixed::from_raw(1 << 31), Fixed::from_raw(0));
    let b = Vec3Simd::new(Fixed::from_raw(1), Fixed::from_raw(1), Fixed::from_raw(0));
    // Two halves of a step make a step.
    assert_eq!(a.dot(&b), Fixed::from_raw(1));
    assert!(a.dot_is_positive(&b));
    assert!(!a.dot_is_negative(&b));
    assert!(a.dot_is_negative(&b.neg()));
    let tiny = Vec3Simd::new(Fixed::from_raw(1), Fixed::from_raw(0), Fixed::from_raw(0));
    assert_eq!(tiny.dot(&tiny.neg()), Fixed::zero());
    assert!(tiny.dot_is_negative(&tiny.neg()));
    assert!(!tiny.dot_is_positive(&simd(0., 1., 0.)));
    assert!(!tiny.dot_is_negative(&simd(0., 1., 0.)));
}

#[test]
fn unit_vector_of_zero_is_zero() {
    assert_eq!(simd(0.0, 0.0, 0.0).unit_vector(), simd(0.0, 0.0, 0.0));
}

#[test]
fn unit_vector_has_length_near_one() {
    let u = simd(1.0, 2.0, 3.0).unit_vector();
    let len = u.length().raw();
    let one = Fixed::one().raw();
    assert!((len - one).abs() < 16);
}

#[test]
fn clamp_bounds_each_component() {
    let mut a = simd(-0.5, 0.5, 1.5);
    a.clamp(fx(0.0), fx(1.0));
    assert_eq!(a, simd(0.0, 0.5, 1.0));
}

#[test]
fn lerp_at_the_ends_and_in_the_middle() {
    let a = simd(1.0, 1.0, 1.0);
    let b = simd(0.5, 0.75, 0.0);
    assert_eq!(a.lerp(&b, fx(0.0)), a);
    assert_eq!(a.lerp(&b, fx(1.0)), b);
    assert_eq!(a.lerp(&b, fx(0.5)), simd(0.75, 0.875, 0.5));
}

#[test]
fn sqrt_is_componentwise() {
    assert_eq!(simd(0.25, 4.0, 0.0).sqrt(), simd(0.5, 2.0, 0.0));
}

#[test]
fn sums_saturate() {
    let big = Vec3Simd::new(Fixed::max_value(), Fixed::max_value(), Fixed::max_value());
    assert_eq!(big.add(big), big);
    assert_eq!(big.dot(&big).raw(), MAX_RAW);
}

#[test]
fn random_is_in_the_unit_cube() {
    for _ in 0..100 {
        let r = Vec3Simd::random();
        for c in [r.x, r.y, r.z] {
            assert!(Fixed::zero().le(c) && c.lt(Fixed::one()));
        }
    }
}

#[test]
fn random_in_range_is_in_range_and_components_differ() {
    let lo = fx(-2.0);
    let hi = fx(3.0);
    let mut differ = false;
    for _ in 0..100 {
        let r = Vec3Simd::random_in_range(lo, hi);
        for c in [r.x, r.y, r.z] {
            assert!(lo.le(c) && c.lt(hi));
        }
        if r.x != r.y || r.y != r.z {
            differ = true;
        }
    }
    assert!(differ);
}

#[test]
fn in_unit_ball_tests_the_squared_length() {
    assert!(simd(0.5, 0.5, 0.5).in_unit_ball());
    assert!(simd(0.0, 0.0, 0.0).in_unit_ball());
    assert!(!simd(1.0, 0.0, 0.0).in_unit_ball());
    assert!(!simd(0.75, 0.75, 0.75).in_unit_ball());
}

#[test]
fn random_in_unit_sphere_is_inside_the_ball() {
    for _ in 0..200 {
        let p = Vec3Simd::random_in_unit_sphere();
        assert!(p.length_squared().lt(Fixed::one()));
    }
}

#[test]
fn random_unit_vector_has_length_near_one() {
    for _ in 0..200 {
        let u = Vec3Simd::random_unit_vector();
        let len = u.length().raw();
        // Either the unit vector of a draw, or that of the centre itself.
        assert!(len == 0 || (len - Fixed::one().raw()).abs() < (1 << 20));
    }
}

#[test]
fn into_hemisphere_keeps_or_flips() {
    let n = simd(0.0, 1.0, 0.0);
    assert_eq!(simd(0.25, 0.5, 0.0).into_hemisphere(&n), simd(0.25, 0.5, 0.0));
    assert_eq!(simd(0.25, -0.5, 0.0).into_hemisphere(&n), simd(-0.25, 0.5, 0.0));
    assert_eq!(simd(0.25, 0.0, 0.0).into_hemisphere(&n), simd(-0.25, 0.0, 0.0));
}

#[test]
fn random_in_hemisphere_does_not_point_against_the_normal() {
    let n = simd(0.0, 0.0, 1.0);
    for _ in 0..200 {
        let p = Vec3Simd::random_in_hemisphere(&n);
        assert!(Fixed::zero().le(p.dot(&n)));
        assert!(p.length_squared().lt(Fixed::one()));
    }
}

#[test]
fn constrain_colour_takes_the_mean_then_the_root() {
    // Mean 0.25, root 0.5, level 127.
    assert_eq!(simd(1.0, 1.0, 1.0).constrain_colour(4), Rgb { r: 127, g: 127, b: 127 });
    // Mean 1, root 1, clamped just below one, level 254.
    assert_eq!(simd(4.0, 4.0, 4.0).constrain_colour(4), Rgb { r: 254, g: 254, b: 254 });
    assert_eq!(simd(0.0, 0.25, 9.0).constrain_colour(1), Rgb { r: 0, g: 127, b: 254 });
}

#[test]
fn constrain_colour_without_samples_shows_the_sum() {
    assert_eq!(
        simd(0.25, 0.25, 0.25).constrain_colour(0),
        simd(0.25, 0.25, 0.25).constrain_colour(1)
    );
}

#[test]
fn constrain_colour_shows_negative_sums_as_black() {
    assert_eq!(simd(-1.0, -0.5, 0.0).constrain_colour(2), Rgb { r: 0, g: 0, b: 0 });
}
