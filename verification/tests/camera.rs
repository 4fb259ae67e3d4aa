use pathtracer::camera::{Axis, Camera};
use pathtracer::fixed::Fixed;
use pathtracer::vec3simd::Vec3Simd;

fn fx(x: f64) -> Fixed {
    Fixed::from_raw((x * 4294967296.0) as i64)
}

fn vec3(x: f64, y: f64, z: f64) -> Vec3Simd {
    Vec3Simd::new(fx(x), fx(y), fx(z))
}

#[test]
fn new_camera_frame() {
    let camera = Camera::new();
    let width = Fixed::from_ratio(16, 9).mul(fx(2.));
    assert_eq!(camera.origin, vec3(0., 0., 0.));
    assert_eq!(camera.horizontal, Vec3Simd::new(width, fx(0.), fx(0.)));
    assert_eq!(camera.vertical, vec3(0., 2., 0.));
    assert_eq!(camera.focal_length, fx(1.));
    assert_eq!(
        camera.lower_left,
        Vec3Simd::new(width.div(fx(2.)).neg(), fx(-1.), fx(-1.))
    );
}

#[test]
fn camera_from_parameters_with_exact_extents() {
    let camera = Camera::from_parameters(fx(2.), fx(4.), fx(3.), vec3(1., 1., 1.));
    assert_eq!(camera.horizontal, vec3(8., 0., 0.));
    assert_eq!(camera.vertical, vec3(0., 4., 0.));
    assert_eq!(camera.lower_left, vec3(-3., -1., -2.));
}

#[test]
fn get_ray_through_corners_and_centre() {
    let camera = Camera::from_parameters(fx(2.), fx(4.), fx(3.), vec3(1., 1., 1.));
    let centre = camera.get_ray(fx(0.5), fx(0.5));
    assert_eq!(centre.orig, vec3(1., 1., 1.));
    assert_eq!(centre.dir, vec3(0., 0., -3.));
    assert_eq!(camera.get_ray(fx(0.), fx(0.)).dir, vec3(-4., -2., -3.));
    assert_eq!(camera.get_ray(fx(1.), fx(1.)).dir, vec3(4., 2., -3.));
}

#[test]
fn translation_moves_the_origin_by_delta() {
    for (axis, moved) in [
        (Axis::X, vec3(1.25, 1., 1.)),
        (Axis::Y, vec3(1., 1.25, 1.)),
        (Axis::Z, vec3(1., 1., 1.25)),
    ] {
        let mut camera = Camera::from_parameters(fx(2.), fx(4.), fx(3.), vec3(1., 1., 1.));
        let before = Camera::from_parameters(fx(2.), fx(4.), fx(3.), vec3(1., 1., 1.));
        camera.translate(axis, fx(0.25));
        assert_eq!(camera.origin, moved);
        assert_eq!(camera.horizontal, before.horizontal);
        assert_eq!(camera.vertical, before.vertical);
        assert_eq!(camera.focal_length, before.focal_length);

        // The ray through a fixed point of the viewport moves with the eye
        // and keeps its direction.
        for (u, v) in [(0., 0.), (0.5, 0.5), (0.25, 0.75), (1., 1.)] {
            let was = before.get_ray(fx(u), fx(v));
            let is = camera.get_ray(fx(u), fx(v));
            assert_eq!(is.orig, moved);
            assert_eq!(is.dir, was.dir);
        }
    }
}

#[test]
fn translate_x_moves_along_x() {
    let mut camera = Camera::new();
    let before_left = camera.lower_left;
    camera.translate_x(fx(-0.5));
    assert_eq!(camera.origin, vec3(-0.5, 0., 0.));
    assert_eq!(camera.lower_left, before_left.add(vec3(-0.5, 0., 0.)));
}

#[test]
fn translation_saturates_at_the_end_of_the_range() {
    let mut camera = Camera::new();
    camera.translate(Axis::Y, Fixed::max_value());
    camera.translate(Axis::Y, Fixed::max_value());
    assert_eq!(camera.origin.y, Fixed::max_value());
}
