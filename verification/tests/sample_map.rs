use pathtracer::fixed::Fixed;
use pathtracer::sample_map::SampleMap;
use pathtracer::vec3simd::{Rgb, Vec3Simd};

fn fx(x: f64) -> Fixed {
    Fixed::from_raw((x * 4294967296.0) as i64)
}

fn vec3(x: f64, y: f64, z: f64) -> Vec3Simd {
    Vec3Simd::new(fx(x), fx(y), fx(z))
}

#[test]
fn new_map_has_no_samples() {
    let map = SampleMap::new(3, 4, 2);
    assert_eq!(map.width(), 4);
    assert_eq!(map.height(), 2);
    assert_eq!(map.max_samples(), 3);
    for y in 0..2 {
        for x in 0..4 {
            assert_eq!(map.get_values(x, y), (vec3(0., 0., 0.), 0));
            assert!(!map.is_saturated(x, y));
        }
    }
}

#[test]
fn default_map_is_one_pixel() {
    let map = SampleMap::default();
    assert_eq!(map.width(), 1);
    assert_eq!(map.height(), 1);
    assert_eq!(map.max_samples(), 1);
    assert_eq!(map.get_values(0, 0), (vec3(0., 0., 0.), 0));
}

#[test]
fn samples_add_up_on_their_pixel_only() {
    let mut map = SampleMap::new(5, 3, 2);
    map.add_sample_to_map(2, 1, vec3(0.5, 0.25, 1.));
    map.add_sample_to_map(2, 1, vec3(0.25, 0.25, 0.));
    map.add_sample_to_map(0, 1, vec3(1., 1., 1.));
    assert_eq!(map.get_values(2, 1), (vec3(0.75, 0.5, 1.), 2));
    assert_eq!(map.get_values(0, 1), (vec3(1., 1., 1.), 1));
    assert_eq!(map.get_values(2, 0), (vec3(0., 0., 0.), 0));
    assert_eq!(map.get_values(1, 1), (vec3(0., 0., 0.), 0));
}

#[test]
fn saturation_after_max_samples() {
    let max_samples = 4;
    let mut map = SampleMap::new(max_samples, 2, 2);
    for n in 0..max_samples {
        assert!(!map.is_saturated(1, 0));
        assert_eq!(map.get_values(1, 0).1, n);
        map.add_sample_to_map(1, 0, vec3(0.5, 0.5, 0.5));
    }
    assert!(map.is_saturated(1, 0));
    assert_eq!(map.get_values(1, 0), (vec3(2., 2., 2.), max_samples));

    // A further sample changes nothing.
    map.add_sample_to_map(1, 0, vec3(0.5, 0.5, 0.5));
    assert!(map.is_saturated(1, 0));
    assert_eq!(map.get_values(1, 0), (vec3(2., 2., 2.), max_samples));
    assert!(!map.is_saturated(0, 0));
}

#[test]
fn map_without_room_is_saturated_from_the_start() {
    let mut map = SampleMap::new(0, 1, 1);
    assert!(map.is_saturated(0, 0));
    map.add_sample_to_map(0, 0, vec3(1., 1., 1.));
    assert_eq!(map.get_values(0, 0), (vec3(0., 0., 0.), 0));
}

#[test]
fn invalidation_resets_counts_and_the_next_sample_replaces_the_sum() {
    let mut map = SampleMap::new(2, 2, 2);
    for y in 0..2 {
        for x in 0..2 {
            map.add_sample_to_map(x, y, vec3(1., 1., 1.));
            map.add_sample_to_map(x, y, vec3(1., 1., 1.));
            assert!(map.is_saturated(x, y));
        }
    }
    map.invalidate_samples();
    for y in 0..2 {
        for x in 0..2 {
            assert!(!map.is_saturated(x, y));
            // The sum is stale until the next sample.
            assert_eq!(map.get_values(x, y), (vec3(2., 2., 2.), 0));
        }
    }
    map.add_sample_to_map(1, 1, vec3(0.25, 0.5, 0.75));
    assert_eq!(map.get_values(1, 1), (vec3(0.25, 0.5, 0.75), 1));
    map.add_sample_to_map(1, 1, vec3(0.25, 0.5, 0.75));
    assert_eq!(map.get_values(1, 1), (vec3(0.5, 1., 1.5), 2));
}

#[test]
fn set_value_is_add_sample() {
    let mut map = SampleMap::new(2, 1, 1);
    map.set_value(0, 0, vec3(0.25, 0.5, 0.75));
    map.set_value(0, 0, vec3(0.25, 0.5, 0.75));
    map.set_value(0, 0, vec3(0.25, 0.5, 0.75));
    assert_eq!(map.get_values(0, 0), (vec3(0.5, 1., 1.5), 2));
}

#[test]
fn normalized_colour_of_a_pixel() {
    let mut map = SampleMap::new(8, 2, 1);
    // Without a sample the sum itself is shown.
    assert_eq!(map.constrain_colour(0, 0), Rgb { r: 0, g: 0, b: 0 });
    for _ in 0..4 {
        map.add_sample_to_map(1, 0, vec3(0.25, 1., 0.));
    }
    // Means 0.25, 1 and 0; roots 0.5, 1 and 0.
    assert_eq!(map.constrain_colour(1, 0), Rgb { r: 127, g: 254, b: 0 });
}

#[test]
fn stale_sum_is_shown_after_invalidation() {
    let mut map = SampleMap::new(8, 1, 1);
    for _ in 0..4 {
        map.add_sample_to_map(0, 0, vec3(0.0625, 0.0625, 0.0625));
    }
    map.invalidate_samples();
    // Sum 0.25 over no samples: root 0.5.
    assert_eq!(map.constrain_colour(0, 0), Rgb { r: 127, g: 127, b: 127 });
}

#[test]
fn random_unsaturated_finds_the_pixel_without_samples() {
    let mut map = SampleMap::new(2, 3, 2);
    for y in 0..2 {
        for x in 0..3 {
            if (x, y) != (2, 1) {
                map.add_sample_to_map(x, y, vec3(1., 1., 1.));
            }
        }
    }
    for _ in 0..20 {
        assert_eq!(map.get_random_unsaturated(), (2, 1));
    }
    map.add_sample_to_map(2, 1, vec3(1., 1., 1.));
    assert_eq!(map.get_random_unsaturated(), (0, 0));
}

#[test]
fn random_unsaturated_reaches_every_pixel_without_samples() {
    let mut map = SampleMap::new(2, 3, 2);
    map.add_sample_to_map(1, 0, vec3(1., 1., 1.));
    let mut seen = [[false; 3]; 2];
    for _ in 0..400 {
        let (x, y) = map.get_random_unsaturated();
        assert!(x < 3 && y < 2);
        assert_eq!(map.get_values(x, y).1, 0);
        seen[y][x] = true;
    }
    for y in 0..2 {
        for x in 0..3 {
            assert_eq!(seen[y][x], (x, y) != (1, 0));
        }
    }
}

#[test]
fn pixel_data_is_row_by_row() {
    let mut map = SampleMap::new(4, 2, 2);
    map.add_sample_to_map(0, 0, vec3(1., 0., 0.));
    map.add_sample_to_map(1, 0, vec3(0., 1., 0.));
    map.add_sample_to_map(0, 1, vec3(0., 0., 1.));
    map.add_sample_to_map(1, 1, vec3(0.25, 0.25, 0.25));
    assert_eq!(
        map.get_pixel_data(),
        vec![254, 0, 0, 0, 254, 0, 0, 0, 254, 127, 127, 127]
    );
}

#[test]
fn empty_map_has_no_pixel_data() {
    let map = SampleMap::new(4, 0, 3);
    assert_eq!(map.get_pixel_data(), Vec::<u8>::new());
}
