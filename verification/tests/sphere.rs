use pathtracer::fixed::Fixed;
use pathtracer::hit_record::HitRecord;
use pathtracer::hittable::Hittable;
use pathtracer::ray::Ray;
use pathtracer::sphere::Sphere;
use pathtracer::triangle::Triangle;
use pathtracer::vec3simd::Vec3Simd;

fn fx(x: f64) -> Fixed {
    Fixed::from_raw((x * 4294967296.0) as i64)
}

fn vec3(x: f64, y: f64, z: f64) -> Vec3Simd {
    Vec3Simd::new(fx(x), fx(y), fx(z))
}

#[test]
fn sphere_test_sphere_hit() {
    let sphere = Sphere {
        centre: vec3(0., 0., -2.),
        radius: fx(1.5),
    };
    let ray = Ray::new(vec3(0., 0., 0.), vec3(0., 0., -1.));
    let mut hit_record = HitRecord {
        ..Default::default()
    };

    let hit = sphere.hit(&ray, fx(0.0001), Fixed::max_value(), &mut hit_record);
    assert!(hit);
}

#[test]
fn sphere_hit_with_a_window_from_zero() {
    let sphere = Sphere {
        centre: vec3(0., 0., -2.),
        radius: fx(1.5),
    };
    let ray = Ray::new(vec3(0., 0., 0.), vec3(0., 0., -1.));
    let mut hit_record = HitRecord {
        ..Default::default()
    };

    let hit = sphere.hit(&ray, fx(0.), Fixed::max_value(), &mut hit_record);
    assert_eq!(hit, true);
    assert_eq!(hit_record.t, fx(0.5));
}

#[test]
fn sphere_hit_head_on() {
    let sphere = Sphere::new(vec3(0., 0., -1.), fx(0.5));
    let ray = Ray::new(vec3(0., 0., 0.), vec3(0., 0., -1.));
    let mut rec = HitRecord::default();

    assert!(sphere.hit(&ray, fx(0.001), Fixed::max_value(), &mut rec));
    assert_eq!(rec.t, fx(0.5));
    assert_eq!(rec.point, vec3(0., 0., -0.5));
    assert_eq!(rec.normal, vec3(0., 0., 1.));
    assert!(rec.front_face);
}

#[test]
fn sphere_miss() {
    let sphere = Sphere::new(vec3(0., 0., -1.), fx(0.5));
    let ray = Ray::new(vec3(0., 0., 0.), vec3(0., 1., 0.));
    let before = HitRecord {
        point: vec3(1., 2., 3.),
        normal: vec3(0., 1., 0.),
        t: fx(7.),
        front_face: true,
    };
    let mut rec = before;

    assert!(!sphere.hit(&ray, fx(0.001), Fixed::max_value(), &mut rec));
    assert_eq!(rec, before);
}

#[test]
fn sphere_behind_the_ray_is_missed() {
    let sphere = Sphere::new(vec3(0., 0., 1.), fx(0.5));
    let ray = Ray::new(vec3(0., 0., 0.), vec3(0., 0., -1.));
    let mut rec = HitRecord::default();

    assert!(!sphere.hit(&ray, fx(0.001), Fixed::max_value(), &mut rec));
}

#[test]
fn sphere_hit_from_inside_takes_the_far_root() {
    let sphere = Sphere::new(vec3(0., 0., 0.), fx(2.));
    let ray = Ray::new(vec3(0., 0., 0.), vec3(0., 0., -1.));
    let mut rec = HitRecord::default();

    assert!(sphere.hit(&ray, fx(0.001), Fixed::max_value(), &mut rec));
    assert_eq!(rec.t, fx(2.));
    assert_eq!(rec.point, vec3(0., 0., -2.));
    // The outward normal points along the ray, so the stored one is turned.
    assert!(!rec.front_face);
    assert_eq!(rec.normal, vec3(0., 0., 1.));
}

#[test]
fn sphere_hit_respects_the_upper_end_of_the_window() {
    let sphere = Sphere::new(vec3(0., 0., -5.), fx(1.));
    let ray = Ray::new(vec3(0., 0., 0.), vec3(0., 0., -1.));
    let mut rec = HitRecord::default();

    assert!(!sphere.hit(&ray, fx(0.001), fx(3.), &mut rec));
    assert!(sphere.hit(&ray, fx(0.001), fx(4.), &mut rec));
    assert_eq!(rec.t, fx(4.));
    // With the near root below the window the far root is taken.
    assert!(sphere.hit(&ray, fx(5.), fx(10.), &mut rec));
    assert_eq!(rec.t, fx(6.));
    assert!(!sphere.hit(&ray, fx(4.5), fx(5.5), &mut rec));
}

#[test]
fn sphere_hit_by_a_short_ray() {
    // The direction is 2^-16 long, so the parameter of the hit is 2^16 times
    // the distance.
    let sphere = Sphere::new(vec3(0., 0., -1.), fx(0.5));
    let ray = Ray::new(vec3(0., 0., 0.), vec3(0., 0., -1. / 65536.));
    let mut rec = HitRecord::default();

    assert!(sphere.hit(&ray, fx(0.001), Fixed::max_value(), &mut rec));
    assert_eq!(rec.t, fx(32768.));
    assert_eq!(rec.point, vec3(0., 0., -0.5));
    assert_eq!(rec.normal, vec3(0., 0., 1.));
    assert!(rec.front_face);
}

#[test]
fn sphere_hit_by_a_long_ray() {
    let sphere = Sphere::new(vec3(0., 0., -1.), fx(0.5));
    let ray = Ray::new(vec3(0., 0., 0.), vec3(0., 0., -1024.));
    let mut rec = HitRecord::default();

    assert!(sphere.hit(&ray, fx(0.), Fixed::max_value(), &mut rec));
    assert_eq!(rec.t, fx(0.5 / 1024.));
    assert_eq!(rec.point, vec3(0., 0., -0.5));
    assert_eq!(rec.normal, vec3(0., 0., 1.));
}

#[test]
fn sphere_far_away_is_hit_on_its_surface() {
    // The squares of these distances lie far beyond the range of a scalar.
    let sphere = Sphere::new(vec3(0., 0., -100000.), fx(1.));
    let ray = Ray::new(vec3(0., 0., 0.), vec3(0., 0., -1.));
    let mut rec = HitRecord::default();

    assert!(sphere.hit(&ray, fx(0.001), Fixed::max_value(), &mut rec));
    assert_eq!(rec.t, fx(99999.));
    assert_eq!(rec.point, vec3(0., 0., -99999.));
    assert_eq!(rec.normal, vec3(0., 0., 1.));
    assert!(rec.front_face);
}

#[test]
fn sphere_hit_point_lies_on_the_sphere() {
    // However short the direction is, the point misses the sphere by a few
    // steps only. A long direction adds the rounding of the parameter, which
    // is up to a step of the parameter and so up to the length of the
    // direction in steps of the point.
    let sphere = Sphere::new(vec3(0.25, -0.5, -3.), fx(1.25));
    for (dx, dy, scale) in [
        (0.0, 0.0, 1.0),
        (0.1, -0.1, 1.0),
        (0.2, 0.0, 0.001),
        (0.05, -0.2, 0.00003),
        (0.05, -0.2, 0.00000001),
        (-0.1, -0.3, 250.0),
        (0.05, -0.2, 30000.0),
    ] {
        let ray = Ray::new(vec3(0., 0., 0.), vec3(dx * scale, dy * scale, -scale));
        let slack = 8 + scale as i64;
        let mut rec = HitRecord::default();
        assert!(sphere.hit(&ray, fx(0.), Fixed::max_value(), &mut rec));
        let radius = rec.point.sub(sphere.centre).length();
        assert!((radius.raw() - sphere.radius.raw()).abs() <= slack);
        assert!((rec.normal.length().raw() - Fixed::one().raw()).abs() <= slack);
        assert!(rec.front_face);
    }
}

#[test]
fn sphere_hit_point_is_within_the_proved_slack() {
    // The slack, in squared steps times the square of one, for a way of
    // `reach` from the centre to the origin, a direction of `stride`, a
    // distance gone and half a chord, all in steps.
    fn slack(reach: f64, stride: f64, distance: f64, chord: f64) -> f64 {
        let one = 4294967296.0;
        let step = one + stride + distance;
        one * one * (2. * chord + 1. + 2. * distance)
            + distance * distance * (6. * one + 3.)
            + 6. * one * (reach + distance) * step
            + 3. * step * step
    }
    let sphere = Sphere::new(vec3(0.25, -0.5, -3.), fx(1.25));
    for (dx, dy, scale) in [(0.0, 0.0, 1.0), (0.1, -0.1, 1.0), (0.2, 0.0, 0.001), (-0.1, -0.3, 250.0)] {
        let ray = Ray::new(vec3(0., 0., 0.), vec3(dx * scale, dy * scale, -scale));
        let mut rec = HitRecord::default();
        assert!(sphere.hit(&ray, fx(0.), Fixed::max_value(), &mut rec));
        let q = rec.point.sub(sphere.centre);
        let norm: i128 = [q.x, q.y, q.z].iter().map(|c| (c.raw() as i128).pow(2)).sum();
        let miss = (norm - (sphere.radius.raw() as i128).pow(2)) as f64 * 4294967296.0 * 4294967296.0;
        let distance = rec.t.raw() as f64 * ray.dir.length().raw() as f64 / 4294967296.0;
        let bound = slack(3. * 4294967296.0, scale * 4294967296.0, distance, 1.25 * 4294967296.0);
        assert!(miss.abs() <= bound);
        // The slack is a few dozen steps of the radius for a scene of this size.
        if scale <= 1.0 {
            assert!(bound / (4294967296.0 * 4294967296.0) / (2. * 1.25 * 4294967296.0) < 200.);
        }
    }
}

#[test]
fn face_is_told_by_the_exact_sign() {
    // The ray is a single step long; its dot product with the normal rounds
    // to zero, but its sign is not lost.
    let step = Fixed::from_raw(1);
    let zero = Fixed::zero();
    let ray = Ray::new(vec3(0., 0., 0.), Vec3Simd::new(zero, zero, step.neg()));
    let mut rec = HitRecord::default();
    rec.set_face_normal(&ray, &vec3(0., 0., 1.));
    assert!(rec.front_face);
    assert_eq!(rec.normal, vec3(0., 0., 1.));
}

#[test]
fn sphere_beyond_every_parameter_is_missed() {
    // The ray is a single step long, so it would reach the sphere only at a
    // parameter beyond the range.
    let sphere = Sphere::new(vec3(0., 0., -1.), fx(0.5));
    let step = Fixed::from_raw(1);
    let ray = Ray::new(vec3(0., 0., 0.), Vec3Simd::new(Fixed::zero(), Fixed::zero(), step.neg()));
    let mut rec = HitRecord::default();
    assert!(!sphere.hit(&ray, fx(0.001), Fixed::max_value(), &mut rec));
    // Four steps make it: the parameter is a quarter of 2^31.
    let ray = Ray::new(
        vec3(0., 0., 0.),
        Vec3Simd::new(Fixed::zero(), Fixed::zero(), Fixed::from_raw(-4)),
    );
    assert!(sphere.hit(&ray, fx(0.001), Fixed::max_value(), &mut rec));
    assert_eq!(rec.t, fx(536870912.));
    assert_eq!(rec.point, vec3(0., 0., -0.5));
}

#[test]
fn sphere_hit_by_a_ray_without_direction() {
    // The quadratic has no leading term: both roots saturate, and the call
    // still returns.
    let sphere = Sphere::new(vec3(0., 0., -1.), fx(0.5));
    let ray = Ray::new(vec3(0., 0., 0.), vec3(0., 0., 0.));
    let mut rec = HitRecord::default();
    assert!(!sphere.hit(&ray, fx(0.001), fx(1000.), &mut rec));

    let around = Sphere::new(vec3(0., 0., 0.), fx(0.5));
    assert!(!around.hit(&ray, fx(0.001), Fixed::max_value(), &mut rec));
}

#[test]
fn stored_normal_opposes_the_ray() {
    let sphere = Sphere::new(vec3(0.25, -0.5, -3.), fx(1.25));
    for (dx, dy) in [(0.0, 0.0), (0.1, -0.1), (0.2, 0.0), (-0.1, -0.3)] {
        let ray = Ray::new(vec3(0., 0., 0.), vec3(dx, dy, -1.));
        let mut rec = HitRecord::default();
        if sphere.hit(&ray, fx(0.001), Fixed::max_value(), &mut rec) {
            assert!(ray.dir.dot(&rec.normal).le(Fixed::zero()));
            assert_eq!(rec.point, ray.at(rec.t));
        }
    }
}

#[test]
fn set_face_normal_keeps_or_turns_the_normal() {
    let ray = Ray::new(vec3(0., 0., 0.), vec3(0., 0., -1.));
    let mut rec = HitRecord::default();

    rec.set_face_normal(&ray, &vec3(0., 0., 1.));
    assert!(rec.front_face);
    assert_eq!(rec.normal, vec3(0., 0., 1.));

    rec.set_face_normal(&ray, &vec3(0., 0., -1.));
    assert!(!rec.front_face);
    assert_eq!(rec.normal, vec3(0., 0., 1.));

    // A normal at right angles to the ray counts as met from inside.
    rec.set_face_normal(&ray, &vec3(1., 0., 0.));
    assert!(!rec.front_face);
    assert_eq!(rec.normal, vec3(-1., 0., 0.));
}

#[test]
fn default_hit_record_is_zero() {
    let rec = HitRecord::default();
    assert_eq!(rec.point, vec3(0., 0., 0.));
    assert_eq!(rec.normal, vec3(0., 0., 0.));
    assert_eq!(rec.t, fx(0.));
    assert!(!rec.front_face);
}

#[test]
fn ray_at_moves_along_the_direction() {
    let ray = Ray::new(vec3(1., 2., 3.), vec3(0.5, 0., -1.));
    assert_eq!(ray.at(fx(0.)), vec3(1., 2., 3.));
    assert_eq!(ray.at(fx(2.)), vec3(2., 2., 1.));
    assert_eq!(ray.at(fx(-1.)), vec3(0.5, 2., 4.));
}

#[test]
fn triangle_is_never_hit() {
    let triangle = Triangle {
        vertices: [vec3(-1., -1., -1.), vec3(1., -1., -1.), vec3(0., 1., -1.)],
    };
    let ray = Ray::new(vec3(0., 0., 0.), vec3(0., 0., -1.));
    let before = HitRecord::default();
    let mut rec = before;
    assert!(!triangle.hit(&ray, fx(0.001), Fixed::max_value(), &mut rec));
    assert_eq!(rec, before);
}
