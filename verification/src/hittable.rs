//! The capability of being met by a ray.
use crate::fixed::Fixed;
use crate::hit_record::{HitModel, HitRecord};
use crate::ray::{Ray, RayModel};
use vstd::prelude::*;

verus! {

/// The hit `hit` where its parameter is at most `closest`, else none.
pub open spec fn narrowed(hit: Option<HitModel>, closest: int) -> Option<HitModel> {
    match hit {
        Some(h) => if h.t <= closest {
            Some(h)
        } else {
            None
        },
        None => None,
    }
}

/// Anything a ray can meet. `hit` asks for the nearest intersection whose
/// parameter lies in the window `[t_min, t_max]`.
pub trait Hittable {
    /// The intersection that `hit` reports for a ray and a window, if any.
    spec fn hit_spec(&self, ray: RayModel, t_min: int, t_max: int) -> Option<HitModel>;

    /// Returns whether the ray meets the surface inside the window. On a hit
    /// the record is written to `rec`; on a miss `rec` is left as it was.
    fn hit(&self, ray: &Ray, t_min: Fixed, t_max: Fixed, rec: &mut HitRecord) -> (r: bool)
        ensures
            r == (self.hit_spec(ray@, t_min@, t_max@) is Some),
            r ==> Some(final(rec)@) == self.hit_spec(ray@, t_min@, t_max@),
            !r ==> *final(rec) == *old(rec),
    ;

    /// A reported intersection lies inside the window.
    proof fn lemma_hit_in_window(&self, ray: RayModel, t_min: int, t_max: int)
        ensures
            self.hit_spec(ray, t_min, t_max) matches Some(h) ==> t_min <= h.t <= t_max,
    ;

    /// Lowering the upper end of the window to `closest` keeps the reported
    /// intersection where it still fits, and reports none where it does not:
    /// the reported intersection is the nearest one.
    proof fn lemma_hit_narrowed(&self, ray: RayModel, t_min: int, t_max: int, closest: int)
        requires
            closest <= t_max,
        ensures
            self.hit_spec(ray, t_min, closest) == narrowed(
                self.hit_spec(ray, t_min, t_max),
                closest,
            ),
    ;
}

} // verus!
