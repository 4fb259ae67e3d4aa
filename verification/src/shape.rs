//! The closed set of surfaces that a scene can mix.
use crate::fixed::Fixed;
use crate::hit_record::{HitModel, HitRecord};
use crate::hittable::Hittable;
use crate::ray::{Ray, RayModel};
use crate::sphere::Sphere;
use crate::triangle::Triangle;
use vstd::prelude::*;

verus! {

/// A surface of one of the known kinds.
pub enum Shape {
    Sphere(Sphere),
    Triangle(Triangle),
}

impl Hittable for Shape {
    open spec fn hit_spec(&self, ray: RayModel, t_min: int, t_max: int) -> Option<HitModel> {
        match *self {
            Shape::Sphere(sphere) => sphere.hit_spec(ray, t_min, t_max),
            Shape::Triangle(triangle) => triangle.hit_spec(ray, t_min, t_max),
        }
    }

    fn hit(&self, ray: &Ray, t_min: Fixed, t_max: Fixed, rec: &mut HitRecord) -> (r: bool) {
        match self {
            Shape::Sphere(sphere) => sphere.hit(ray, t_min, t_max, rec),
            Shape::Triangle(triangle) => triangle.hit(ray, t_min, t_max, rec),
        }
    }

    proof fn lemma_hit_in_window(&self, ray: RayModel, t_min: int, t_max: int) {
        match *self {
            Shape::Sphere(sphere) => sphere.lemma_hit_in_window(ray, t_min, t_max),
            Shape::Triangle(triangle) => triangle.lemma_hit_in_window(ray, t_min, t_max),
        }
    }

    proof fn lemma_hit_narrowed(&self, ray: RayModel, t_min: int, t_max: int, closest: int) {
        match *self {
            Shape::Sphere(sphere) => sphere.lemma_hit_narrowed(ray, t_min, t_max, closest),
            Shape::Triangle(triangle) => triangle.lemma_hit_narrowed(ray, t_min, t_max, closest),
        }
    }
}

} // verus!
