//! Rays: an origin and a direction.
use crate::fixed::Fixed;
use crate::vec3simd::{v3_add, v3_scale, Vec3Simd, V3};
use vstd::prelude::*;

verus! {

/// The mathematical content of a ray.
pub struct RayModel {
    pub orig: V3,
    pub dir: V3,
}

/// The point of the ray at parameter `t`: `orig + t dir`.
pub open spec fn ray_at(ray: RayModel, t: int) -> V3 {
    v3_add(ray.orig, v3_scale(ray.dir, t))
}

/// A ray: the points `orig + t dir` over all parameters `t`.
#[derive(Clone, Copy, PartialEq, Eq, Structural, Debug)]
pub struct Ray {
    pub orig: Vec3Simd,
    pub dir: Vec3Simd,
}

impl View for Ray {
    type V = RayModel;

    open spec fn view(&self) -> RayModel {
        RayModel { orig: self.orig@, dir: self.dir@ }
    }
}

impl Ray {
    /// The ray from `orig` along `dir`.
    pub fn new(orig: Vec3Simd, dir: Vec3Simd) -> (r: Ray)
        ensures
            r@ == (RayModel { orig: orig@, dir: dir@ }),
    {
        Ray { orig, dir }
    }

    /// The point of the ray at parameter `t`.
    pub fn at(&self, t: Fixed) -> (r: Vec3Simd)
        ensures
            r@ == ray_at(self@, t@),
    {
        self.orig.add(self.dir.scale(t))
    }
}

} // verus!
