use pathtracer::fixed::Fixed;
use pathtracer::hit_record::HitRecord;
use pathtracer::hittable::Hittable;
use pathtracer::hittable_list::HittableList;
use pathtracer::ray::Ray;
use pathtracer::shape::Shape;
use pathtracer::sphere::Sphere;
use pathtracer::triangle::Triangle;
use pathtracer::vec3simd::Vec3Simd;

fn fx(x: f64) -> Fixed {
    Fixed::from_raw((x * 4294967296.0) as i64)
}

fn vec3(x: f64, y: f64, z: f64) -> Vec3Simd {
    Vec3Simd::new(fx(x), fx(y), fx(z))
}

fn down_z() -> Ray {
    Ray::new(vec3(0., 0., 0.), vec3(0., 0., -1.))
}

#[test]
fn scene_returns_the_nearer_of_two_spheres() {
    let near = Sphere::new(vec3(0., 0., -2.), fx(1.));
    let far = Sphere::new(vec3(0., 0., -6.), fx(1.));
    let mut rec = HitRecord::default();

    let mut scene = HittableList::new();
    scene.add_hittable(near);
    scene.add_hittable(far);
    assert!(scene.hit(&down_z(), fx(0.001), Fixed::max_value(), &mut rec));
    assert_eq!(rec.t, fx(1.));
    assert_eq!(rec.point, vec3(0., 0., -1.));

    // The order of the members does not matter.
    let mut scene = HittableList::new();
    scene.add_hittable(far);
    scene.add_hittable(near);
    let mut rec = HitRecord::default();
    assert!(scene.hit(&down_z(), fx(0.001), Fixed::max_value(), &mut rec));
    assert_eq!(rec.t, fx(1.));
}

#[test]
fn scene_hit_is_the_nearest_member_hit() {
    let spheres = [
        Sphere::new(vec3(0., 0., -9.), fx(1.)),
        Sphere::new(vec3(0., 0.5, -4.), fx(1.)),
        Sphere::new(vec3(3., 0., -2.), fx(1.)),
        Sphere::new(vec3(0., -0.25, -6.), fx(2.)),
    ];
    let mut scene = HittableList::new();
    for s in spheres {
        scene.add_hittable(s);
    }
    let mut rec = HitRecord::default();
    assert!(scene.hit(&down_z(), fx(0.001), Fixed::max_value(), &mut rec));
    for s in spheres {
        let mut own = HitRecord::default();
        if s.hit(&down_z(), fx(0.001), Fixed::max_value(), &mut own) {
            assert!(rec.t.le(own.t));
        }
    }
}

#[test]
fn empty_scene_is_never_hit() {
    let scene: HittableList<Sphere> = HittableList::new();
    let before = HitRecord::default();
    let mut rec = before;
    assert!(!scene.hit(&down_z(), fx(0.001), Fixed::max_value(), &mut rec));
    assert_eq!(rec, before);
}

#[test]
fn scene_miss_leaves_the_record() {
    let mut scene = HittableList::new();
    scene.add_hittable(Sphere::new(vec3(0., 0., 3.), fx(1.)));
    scene.add_hittable(Sphere::new(vec3(5., 0., -3.), fx(1.)));
    let before = HitRecord {
        point: vec3(1., 2., 3.),
        normal: vec3(0., 1., 0.),
        t: fx(7.),
        front_face: true,
    };
    let mut rec = before;
    assert!(!scene.hit(&down_z(), fx(0.001), Fixed::max_value(), &mut rec));
    assert_eq!(rec, before);
}

#[test]
fn later_member_wins_a_tie() {
    // The ray meets the first sphere head-on and grazes the second, both at
    // parameter one; the normals tell the two records apart.
    let head_on = Sphere::new(vec3(0., 0., -2.), fx(1.));
    let grazed = Sphere::new(vec3(1., 0., -1.), fx(1.));

    let mut scene = HittableList::new();
    scene.add_hittable(head_on);
    scene.add_hittable(grazed);
    let mut rec = HitRecord::default();
    assert!(scene.hit(&down_z(), fx(0.001), Fixed::max_value(), &mut rec));
    assert_eq!(rec.t, fx(1.));
    assert_eq!(rec.normal, vec3(1., 0., 0.));

    let mut scene = HittableList::new();
    scene.add_hittable(grazed);
    scene.add_hittable(head_on);
    let mut rec = HitRecord::default();
    assert!(scene.hit(&down_z(), fx(0.001), Fixed::max_value(), &mut rec));
    assert_eq!(rec.t, fx(1.));
    assert_eq!(rec.normal, vec3(0., 0., 1.));
}

#[test]
fn scenes_nest() {
    let mut inner = HittableList::new();
    inner.add_hittable(Sphere::new(vec3(0., 0., -6.), fx(1.)));
    let mut other = HittableList::new();
    other.add_hittable(Sphere::new(vec3(0., 0., -2.), fx(1.)));
    let mut scene = HittableList::new();
    scene.add_hittable(inner);
    scene.add_hittable(other);
    let mut rec = HitRecord::default();
    assert!(scene.hit(&down_z(), fx(0.001), Fixed::max_value(), &mut rec));
    assert_eq!(rec.t, fx(1.));
}

#[test]
fn scenes_mix_shapes() {
    let triangle = Triangle {
        vertices: [vec3(-1., -1., -1.), vec3(1., -1., -1.), vec3(0., 1., -1.)],
    };
    let mut scene = HittableList::new();
    scene.add_hittable(Shape::Triangle(triangle));
    scene.add_hittable(Shape::Sphere(Sphere::new(vec3(0., 0., -6.), fx(1.))));
    let mut rec = HitRecord::default();
    assert!(scene.hit(&down_z(), fx(0.001), Fixed::max_value(), &mut rec));
    assert_eq!(rec.t, fx(5.));
}

#[test]
fn add_hittable_appends() {
    let mut scene = HittableList::new();
    assert_eq!(scene.world.len(), 0);
    scene.add_hittable(Sphere::new(vec3(0., 0., -6.), fx(1.)));
    scene.add_hittable(Sphere::new(vec3(0., 0., -2.), fx(1.)));
    assert_eq!(scene.world.len(), 2);
    assert_eq!(scene.world[1], Sphere::new(vec3(0., 0., -2.), fx(1.)));
}
