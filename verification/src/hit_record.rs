//! The record of one intersection of a ray with a surface.
use crate::fixed::Fixed;
use crate::ray::{Ray, RayModel};
use crate::vec3simd::{
    dot_exact, lemma_dot_neg, lemma_dot_sign, v3_dot, v3_neg, v3_zero, Vec3Simd, V3,
};
use vstd::prelude::*;

verus! {

/// The mathematical content of a hit record.
pub struct HitModel {
    pub point: V3,
    pub normal: V3,
    pub t: int,
    pub front_face: bool,
}

/// Whether a ray meets a surface with outward normal `outward` from outside:
/// whether the exact dot product of its direction with the normal is negative.
pub open spec fn faces_front(ray: RayModel, outward: V3) -> bool {
    dot_exact(ray.dir, outward) < 0
}

/// The record `rec` with its normal set against the ray: the outward normal
/// where the ray comes from outside, its opposite where it comes from inside.
pub open spec fn with_face_normal(rec: HitModel, ray: RayModel, outward: V3) -> HitModel {
    HitModel {
        point: rec.point,
        normal: if faces_front(ray, outward) {
            outward
        } else {
            v3_neg(outward)
        },
        t: rec.t,
        front_face: faces_front(ray, outward),
    }
}

/// The normal that `with_face_normal` stores never points along the ray:
/// its dot product with the direction of the ray is not positive.
pub proof fn lemma_normal_opposes_ray(rec: HitModel, ray: RayModel, outward: V3)
    ensures
        dot_exact(ray.dir, with_face_normal(rec, ray, outward).normal) <= 0,
        v3_dot(ray.dir, with_face_normal(rec, ray, outward).normal) <= 0,
{
    lemma_dot_neg(ray.dir, outward);
    lemma_dot_sign(ray.dir, with_face_normal(rec, ray, outward).normal);
}

/// Where a ray met a surface: the point, the surface normal there turned
/// against the ray, the ray parameter, and the side that was met.
#[derive(Clone, Copy, PartialEq, Eq, Structural, Debug)]
pub struct HitRecord {
    pub point: Vec3Simd,
    pub normal: Vec3Simd,
    pub t: Fixed,
    pub front_face: bool,
}

impl View for HitRecord {
    type V = HitModel;

    open spec fn view(&self) -> HitModel {
        HitModel {
            point: self.point@,
            normal: self.normal@,
            t: self.t@,
            front_face: self.front_face,
        }
    }
}

impl Default for HitRecord {
    fn default() -> (r: Self)
        ensures
            r@ == (HitModel { point: v3_zero(), normal: v3_zero(), t: 0, front_face: false }),
    {
        HitRecord {
            point: Vec3Simd::new(Fixed::zero(), Fixed::zero(), Fixed::zero()),
            normal: Vec3Simd::new(Fixed::zero(), Fixed::zero(), Fixed::zero()),
            t: Fixed::zero(),
            front_face: false,
        }
    }
}

impl HitRecord {
    /// Records which face was met and turns the normal against the ray.
    pub fn set_face_normal(&mut self, ray: &Ray, outward_normal: &Vec3Simd)
        ensures
            final(self)@ == with_face_normal(old(self)@, ray@, outward_normal@),
    {
        self.front_face = ray.dir.dot_is_negative(outward_normal);
        self.normal = if self.front_face {
            *outward_normal
        } else {
            outward_normal.neg()
        };
    }
}

} // verus!
