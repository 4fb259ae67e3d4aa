//! The camera: an eye position and the viewport that rays are cast through.
use crate::fixed::{fx_add, fx_from_int, fx_mul, fx_ratio, in_range, Fixed};
use crate::ray::{Ray, RayModel};
use crate::vec3simd::{
    v3_add, v3_div, v3_in_range, v3_minus, v3_plus, v3_scale, v3_sub, v3_zero, Vec3Simd, V3,
};
use vstd::prelude::*;

verus! {

/// One of the three coordinate axes.
#[derive(Clone, Copy, PartialEq, Eq, Structural, Debug)]
pub enum Axis {
    X,
    Y,
    Z,
}

/// The mathematical content of a camera.
pub struct CameraModel {
    pub origin: V3,
    pub lower_left: V3,
    pub horizontal: V3,
    pub vertical: V3,
    pub focal_length: int,
}

/// The lower left corner of the viewport of an eye at `origin`: half the
/// extents back from the eye, and the focal length along the negative z axis.
pub open spec fn frame_corner(origin: V3, horizontal: V3, vertical: V3, focal_length: int) -> V3 {
    v3_sub(
        v3_sub(
            v3_sub(origin, v3_div(horizontal, fx_from_int(2))),
            v3_div(vertical, fx_from_int(2)),
        ),
        V3 { x: 0, y: 0, z: focal_length },
    )
}

/// The camera at `origin` with a viewport of the given height and aspect ratio
/// at the given focal length.
pub open spec fn camera_from_parameters(
    aspect_ratio: int,
    viewport_height: int,
    focal_length: int,
    origin: V3,
) -> CameraModel {
    let horizontal = V3 { x: fx_mul(aspect_ratio, viewport_height), y: 0, z: 0 };
    let vertical = V3 { x: 0, y: viewport_height, z: 0 };
    CameraModel {
        origin,
        lower_left: frame_corner(origin, horizontal, vertical, focal_length),
        horizontal,
        vertical,
        focal_length,
    }
}

/// The ray through the viewport at `(u, v)`, each counted from the lower left
/// corner as a share of the extent.
pub open spec fn camera_ray(c: CameraModel, u: int, v: int) -> RayModel {
    RayModel {
        orig: c.origin,
        dir: v3_sub(
            v3_add(v3_add(c.lower_left, v3_scale(c.horizontal, u)), v3_scale(c.vertical, v)),
            c.origin,
        ),
    }
}

/// `origin` moved by `delta` along `axis`.
pub open spec fn moved(origin: V3, axis: Axis, delta: int) -> V3 {
    match axis {
        Axis::X => V3 { x: fx_add(origin.x, delta), y: origin.y, z: origin.z },
        Axis::Y => V3 { x: origin.x, y: fx_add(origin.y, delta), z: origin.z },
        Axis::Z => V3 { x: origin.x, y: origin.y, z: fx_add(origin.z, delta) },
    }
}

/// The camera after its eye moved by `delta` along `axis`: the extents stay,
/// the corner of the viewport follows the eye.
pub open spec fn camera_translated(c: CameraModel, axis: Axis, delta: int) -> CameraModel {
    let origin = moved(c.origin, axis, delta);
    CameraModel {
        origin,
        lower_left: frame_corner(origin, c.horizontal, c.vertical, c.focal_length),
        horizontal: c.horizontal,
        vertical: c.vertical,
        focal_length: c.focal_length,
    }
}

/// The viewport corner of `c` and its ray through `(u, v)` are sums that need
/// no clamping: every partial sum is representable.
pub open spec fn unclamped(c: CameraModel, u: int, v: int) -> bool {
    let s1 = v3_minus(c.origin, v3_div(c.horizontal, fx_from_int(2)));
    let s2 = v3_minus(s1, v3_div(c.vertical, fx_from_int(2)));
    let s3 = v3_minus(s2, V3 { x: 0, y: 0, z: c.focal_length });
    let p1 = v3_plus(s3, v3_scale(c.horizontal, u));
    let p2 = v3_plus(p1, v3_scale(c.vertical, v));
    let p3 = v3_minus(p2, c.origin);
    v3_in_range(s1) && v3_in_range(s2) && v3_in_range(s3) && v3_in_range(p1) && v3_in_range(p2)
        && v3_in_range(p3)
}

/// Moving the eye by `delta` along an axis adds exactly `delta` to that
/// coordinate, where the sum is representable, and leaves the other two
/// coordinates and both extents of the viewport as they were.
pub proof fn lemma_translation_moves_origin(c: CameraModel, axis: Axis, delta: int)
    requires
        in_range(
            match axis {
                Axis::X => c.origin.x + delta,
                Axis::Y => c.origin.y + delta,
                Axis::Z => c.origin.z + delta,
            },
        ),
    ensures
        camera_translated(c, axis, delta).origin == v3_plus(
            c.origin,
            match axis {
                Axis::X => V3 { x: delta, y: 0, z: 0 },
                Axis::Y => V3 { x: 0, y: delta, z: 0 },
                Axis::Z => V3 { x: 0, y: 0, z: delta },
            },
        ),
        camera_translated(c, axis, delta).horizontal == c.horizontal,
        camera_translated(c, axis, delta).vertical == c.vertical,
{
}

/// After a translation the ray through a fixed `(u, v)` starts at the moved
/// eye and keeps its direction, where neither camera needs clamping for it.
pub proof fn lemma_translation_shifts_rays(
    c: CameraModel,
    axis: Axis,
    delta: int,
    u: int,
    v: int,
)
    requires
        c.lower_left == frame_corner(c.origin, c.horizontal, c.vertical, c.focal_length),
        unclamped(c, u, v),
        unclamped(camera_translated(c, axis, delta), u, v),
    ensures
        camera_ray(camera_translated(c, axis, delta), u, v).orig == moved(c.origin, axis, delta),
        camera_ray(camera_translated(c, axis, delta), u, v).dir == camera_ray(c, u, v).dir,
{
}

/// An eye and its viewport. The viewport keeps its extents and its distance
/// from the eye; it moves with the eye and never turns.
pub struct Camera {
    pub origin: Vec3Simd,
    pub lower_left: Vec3Simd,
    pub horizontal: Vec3Simd,
    pub vertical: Vec3Simd,
    pub focal_length: Fixed,
}

impl View for Camera {
    type V = CameraModel;

    open spec fn view(&self) -> CameraModel {
        CameraModel {
            origin: self.origin@,
            lower_left: self.lower_left@,
            horizontal: self.horizontal@,
            vertical: self.vertical@,
            focal_length: self.focal_length@,
        }
    }
}

impl Camera {
    /// The camera at the origin with a viewport of height 2 and aspect ratio
    /// 16 to 9 at focal length 1.
    pub fn new() -> (r: Self)
        ensures
            r@ == camera_from_parameters(fx_ratio(16, 9), fx_from_int(2), fx_from_int(1), v3_zero()),
    {
        let aspect_ratio = Fixed::from_ratio(16, 9);
        let viewport_height = Fixed::from_int(2);
        let focal_length = Fixed::from_int(1);
        let origin = Vec3Simd::new(Fixed::zero(), Fixed::zero(), Fixed::zero());
        Camera::from_parameters(aspect_ratio, viewport_height, focal_length, origin)
    }

    /// The camera at `origin` with a viewport of the given height and aspect
    /// ratio at the given focal length.
    pub fn from_parameters(
        aspect_ratio: Fixed,
        viewport_height: Fixed,
        focal_length: Fixed,
        origin: Vec3Simd,
    ) -> (r: Self)
        ensures
            r@ == camera_from_parameters(
                aspect_ratio@,
                viewport_height@,
                focal_length@,
                origin@,
            ),
    {
        let viewport_width = aspect_ratio.mul(viewport_height);
        let horizontal = Vec3Simd::new(viewport_width, Fixed::zero(), Fixed::zero());
        let vertical = Vec3Simd::new(Fixed::zero(), viewport_height, Fixed::zero());
        let mut camera = Camera {
            origin,
            lower_left: origin,
            horizontal,
            vertical,
            focal_length,
        };
        camera.calc_frame_for_origin(origin);
        camera
    }

    /// The ray from the eye through the viewport at `(u, v)`, each counted
    /// from the lower left corner as a share of the extent.
    pub fn get_ray(&self, u: Fixed, v: Fixed) -> (r: Ray)
        ensures
            r@ == camera_ray(self@, u@, v@),
    {
        Ray {
            orig: self.origin,
            dir: self.lower_left.add(self.horizontal.scale(u)).add(self.vertical.scale(v)).sub(
                self.origin,
            ),
        }
    }

    /// Moves the eye by `delta` along `axis`. Where the sum stays in range the
    /// eye moves by exactly `delta`; the extents never change.
    pub fn translate(&mut self, axis: Axis, delta: Fixed)
        ensures
            final(self)@ == camera_translated(old(self)@, axis, delta@),
    {
        match axis {
            Axis::X => {
                self.origin.x = self.origin.x.add(delta);
            },
            Axis::Y => {
                self.origin.y = self.origin.y.add(delta);
            },
            Axis::Z => {
                self.origin.z = self.origin.z.add(delta);
            },
        }
        self.calc_frame_for_origin(self.origin);
    }

    /// Moves the eye by `by` along the x axis.
    pub fn translate_x(&mut self, by: Fixed)
        ensures
            final(self)@ == camera_translated(old(self)@, Axis::X, by@),
    {
        self.translate(Axis::X, by);
    }

    /// Places the corner of the viewport for an eye at `origin`.
    fn calc_frame_for_origin(&mut self, origin: Vec3Simd)
        ensures
            final(self)@ == (CameraModel {
                lower_left: frame_corner(
                    origin@,
                    old(self)@.horizontal,
                    old(self)@.vertical,
                    old(self)@.focal_length,
                ),
                ..old(self)@
            }),
    {
        let two = Fixed::from_int(2);
        self.lower_left = origin.sub(self.horizontal.div(two)).sub(self.vertical.div(two)).sub(
            Vec3Simd::new(Fixed::zero(), Fixed::zero(), self.focal_length),
        );
    }
}

} // verus!
