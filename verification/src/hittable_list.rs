//! Scenes: an ordered list of surfaces that is itself a surface.
use crate::fixed::Fixed;
use crate::hit_record::{HitModel, HitRecord};
use crate::hittable::{narrowed, Hittable};
use crate::ray::{Ray, RayModel};
use vstd::prelude::*;

verus! {

/// The upper end of the window after a scan that found `best`.
pub open spec fn closest_after(best: Option<HitModel>, t_max: int) -> int {
    match best {
        Some(h) => h.t,
        None => t_max,
    }
}

/// The hit that a scan over the first `n` members ends with. Each member is
/// asked with the window cut off at the closest hit so far, and a member that
/// reports a hit takes the place of the hit before it.
pub open spec fn scan_hits<H: Hittable>(
    members: Seq<H>,
    ray: RayModel,
    t_min: int,
    t_max: int,
    n: nat,
) -> Option<HitModel>
    recommends
        n <= members.len(),
    decreases n,
{
    if n == 0 {
        None
    } else {
        let prev = scan_hits(members, ray, t_min, t_max, (n - 1) as nat);
        match members[n - 1].hit_spec(ray, t_min, closest_after(prev, t_max)) {
            Some(h) => Some(h),
            None => prev,
        }
    }
}

/// A scan reports nothing outside the window.
pub proof fn lemma_scan_in_window<H: Hittable>(
    members: Seq<H>,
    ray: RayModel,
    t_min: int,
    t_max: int,
    n: nat,
)
    requires
        n <= members.len(),
    ensures
        scan_hits(members, ray, t_min, t_max, n) matches Some(h) ==> t_min <= h.t <= t_max,
    decreases n,
{
    if n > 0 {
        let prev = scan_hits(members, ray, t_min, t_max, (n - 1) as nat);
        lemma_scan_in_window(members, ray, t_min, t_max, (n - 1) as nat);
        members[n - 1].lemma_hit_in_window(ray, t_min, closest_after(prev, t_max));
    }
}

/// A scan with the window cut off at `closest` reports what the scan over the
/// whole window reports where that fits, and nothing where it does not.
pub proof fn lemma_scan_narrowed<H: Hittable>(
    members: Seq<H>,
    ray: RayModel,
    t_min: int,
    t_max: int,
    closest: int,
    n: nat,
)
    requires
        n <= members.len(),
        closest <= t_max,
    ensures
        scan_hits(members, ray, t_min, closest, n) == narrowed(
            scan_hits(members, ray, t_min, t_max, n),
            closest,
        ),
    decreases n,
{
    if n > 0 {
        let k = (n - 1) as nat;
        let m = members[n - 1];
        let wide = scan_hits(members, ray, t_min, t_max, k);
        let tight = scan_hits(members, ray, t_min, closest, k);
        lemma_scan_narrowed(members, ray, t_min, t_max, closest, k);
        lemma_scan_in_window(members, ray, t_min, t_max, k);
        let wide_end = closest_after(wide, t_max);
        let tight_end = closest_after(tight, closest);
        m.lemma_hit_in_window(ray, t_min, wide_end);
        m.lemma_hit_in_window(ray, t_min, tight_end);
        if tight_end != wide_end {
            m.lemma_hit_narrowed(ray, t_min, wide_end, tight_end);
        }
    }
}

/// No member has a hit in the window that is nearer than what the scan
/// reports: where member `j` alone reports a hit, the scan reports one that
/// is at least as near.
pub proof fn lemma_scan_nearest<H: Hittable>(
    members: Seq<H>,
    ray: RayModel,
    t_min: int,
    t_max: int,
    n: nat,
    j: int,
)
    requires
        0 <= j < n <= members.len(),
    ensures
        members[j].hit_spec(ray, t_min, t_max) matches Some(h) ==> (scan_hits(
            members,
            ray,
            t_min,
            t_max,
            n,
        ) matches Some(b) && b.t <= h.t),
    decreases n,
{
    let k = (n - 1) as nat;
    let m = members[n - 1];
    let prev = scan_hits(members, ray, t_min, t_max, k);
    let end = closest_after(prev, t_max);
    lemma_scan_in_window(members, ray, t_min, t_max, k);
    m.lemma_hit_in_window(ray, t_min, end);
    if j < k {
        lemma_scan_nearest(members, ray, t_min, t_max, k, j);
    } else {
        m.lemma_hit_in_window(ray, t_min, t_max);
        m.lemma_hit_narrowed(ray, t_min, t_max, end);
    }
}

/// What a scan reports is what one of the members alone reports over the
/// whole window.
pub proof fn lemma_scan_is_member_hit<H: Hittable>(
    members: Seq<H>,
    ray: RayModel,
    t_min: int,
    t_max: int,
    n: nat,
) -> (j: int)
    requires
        n <= members.len(),
        scan_hits(members, ray, t_min, t_max, n) is Some,
    ensures
        0 <= j < n,
        members[j].hit_spec(ray, t_min, t_max) == scan_hits(members, ray, t_min, t_max, n),
    decreases n,
{
    let k = (n - 1) as nat;
    let m = members[n - 1];
    let prev = scan_hits(members, ray, t_min, t_max, k);
    let end = closest_after(prev, t_max);
    lemma_scan_in_window(members, ray, t_min, t_max, k);
    if m.hit_spec(ray, t_min, end) is Some {
        m.lemma_hit_narrowed(ray, t_min, t_max, end);
        n - 1
    } else {
        lemma_scan_is_member_hit(members, ray, t_min, t_max, k)
    }
}

/// An ordered list of surfaces, met as one surface.
pub struct HittableList<H> {
    pub world: Vec<H>,
}

impl<H> View for HittableList<H> {
    type V = Seq<H>;

    open spec fn view(&self) -> Seq<H> {
        self.world@
    }
}

impl<H: Hittable> HittableList<H> {
    /// The empty list.
    pub fn new() -> (r: Self)
        ensures
            r@ == Seq::<H>::empty(),
    {
        HittableList { world: Vec::new() }
    }

    /// Appends a surface.
    pub fn add_hittable(&mut self, hittable: H)
        ensures
            final(self)@ == old(self)@.push(hittable),
    {
        self.world.push(hittable);
    }
}

impl<H: Hittable> Hittable for HittableList<H> {
    open spec fn hit_spec(&self, ray: RayModel, t_min: int, t_max: int) -> Option<HitModel> {
        scan_hits(self@, ray, t_min, t_max, self@.len())
    }

    fn hit(&self, ray: &Ray, t_min: Fixed, t_max: Fixed, rec: &mut HitRecord) -> (r: bool) {
        let mut hit_anything = false;
        let mut closest_so_far = t_max;
        let mut temp_rec = HitRecord::default();

        let mut i: usize = 0;
        while i < self.world.len()
            invariant
                i <= self.world.len(),
                hit_anything == (scan_hits(self@, ray@, t_min@, t_max@, i as nat) is Some),
                hit_anything ==> Some(rec@) == scan_hits(self@, ray@, t_min@, t_max@, i as nat),
                !hit_anything ==> *rec == *old(rec),
                closest_so_far@ == closest_after(
                    scan_hits(self@, ray@, t_min@, t_max@, i as nat),
                    t_max@,
                ),
            decreases self.world.len() - i,
        {
            if self.world[i].hit(ray, t_min, closest_so_far, &mut temp_rec) {
                hit_anything = true;
                closest_so_far = temp_rec.t;
                *rec = temp_rec;
            }
            i = i + 1;
        }
        hit_anything
    }

    proof fn lemma_hit_in_window(&self, ray: RayModel, t_min: int, t_max: int) {
        lemma_scan_in_window(self@, ray, t_min, t_max, self@.len());
    }

    proof fn lemma_hit_narrowed(&self, ray: RayModel, t_min: int, t_max: int, closest: int) {
        lemma_scan_narrowed(self@, ray, t_min, t_max, closest, self@.len());
    }
}

} // verus!
