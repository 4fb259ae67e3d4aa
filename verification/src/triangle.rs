//! Triangles. A triangle is held by its corners; no ray meets one yet.
use crate::fixed::Fixed;
use crate::hit_record::{HitModel, HitRecord};
use crate::hittable::Hittable;
use crate::ray::{Ray, RayModel};
use crate::vec3simd::Vec3Simd;
use vstd::prelude::*;

verus! {

/// A triangle, by its three corners.
pub struct Triangle {
    pub vertices: [Vec3Simd; 3],
}

impl Hittable for Triangle {
    open spec fn hit_spec(&self, ray: RayModel, t_min: int, t_max: int) -> Option<HitModel> {
        None
    }

    fn hit(&self, ray: &Ray, t_min: Fixed, t_max: Fixed, rec: &mut HitRecord) -> (r: bool) {
        false
    }

    proof fn lemma_hit_in_window(&self, ray: RayModel, t_min: int, t_max: int) {
    }

    proof fn lemma_hit_narrowed(&self, ray: RayModel, t_min: int, t_max: int, closest: int) {
    }
}

} // verus!
