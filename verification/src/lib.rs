//! A path tracer over fixed-point arithmetic.
//!
//! A [`Camera`] casts a [`Ray`] through each pixel of its viewport, the ray
//! gathers colour from a scene of [`Hittable`] surfaces over a bounded number
//! of diffuse bounces, and the colours are summed per pixel, either in one
//! sweep over the image or step by step in a [`SampleMap`] that can be shown
//! while it is refined.
//!
//! Every number is a [`Fixed`] scalar. Its operations are total and exact up
//! to a stated rounding, so each function says precisely what it returns.
pub mod camera;
pub mod fixed;
pub mod fixed_laws;
pub mod hit_record;
pub mod hittable;
pub mod hittable_list;
pub mod random;
pub mod ray;
pub mod renderer;
pub mod sample_map;
pub mod shape;
pub mod sphere;
pub mod triangle;
pub mod vec3simd;

pub use camera::{Axis, Camera};
pub use fixed::Fixed;
pub use hit_record::HitRecord;
pub use hittable::Hittable;
pub use hittable_list::HittableList;
pub use ray::Ray;
pub use renderer::Renderer;
pub use sample_map::SampleMap;
pub use shape::Shape;
pub use sphere::Sphere;
pub use triangle::Triangle;
pub use vec3simd::{Rgb, Vec3, Vec3Simd};
