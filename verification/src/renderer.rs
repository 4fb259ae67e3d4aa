//! The path tracer: the colour that a ray gathers from a scene, and the
//! sweeps that turn a camera and a scene into pixels.
use crate::camera::{camera_from_parameters, camera_ray, camera_translated, Axis, Camera};
use crate::fixed::{fx_add, fx_div, fx_from_int, fx_mul, fx_ratio, Fixed, MAX_RAW, ONE_RAW};
use crate::fixed_laws::{lemma_div_of_part, lemma_mul_ordered};
use crate::hit_record::{HitModel, HitRecord};
use crate::hittable::Hittable;
use crate::hittable_list::HittableList;
use crate::random::random_index;
use crate::ray::{Ray, RayModel};
use crate::sample_map::SampleMap;
use crate::shape::Shape;
use crate::sphere::{Sphere, SphereModel};
use crate::vec3simd::{
    is_unit_sample, lemma_unit_bounded, v3_add, v3_clamp, v3_constrain, v3_in_unit_ball, v3_lerp,
    v3_scale, v3_sub, v3_unit, v3_within, v3_zero, Rgb, Vec3Simd, V3,
};
use vstd::prelude::*;

verus! {

/// Draws after which `refine` settles for a saturated pixel.
pub const MAX_REDRAWS: u32 = 16;

/// The lower end of the window in which a ray looks for a surface. It keeps a
/// bounced ray from meeting the surface it starts on.
pub open spec fn t_min() -> int {
    fx_ratio(1, 1000)
}

/// The share of light that a surface passes on.
pub open spec fn albedo() -> int {
    fx_ratio(1, 2)
}

/// The colour white.
pub open spec fn white() -> V3 {
    V3 { x: ONE_RAW as int, y: ONE_RAW as int, z: ONE_RAW as int }
}

/// The blue of the sky overhead.
pub open spec fn sky_blue() -> V3 {
    V3 { x: fx_ratio(1, 2), y: fx_ratio(7, 10), z: ONE_RAW as int }
}

/// The colour of the sky along a ray that meets nothing: white at the bottom,
/// blue at the top, blended by the height of the ray's direction.
pub open spec fn background(ray: RayModel) -> V3 {
    let unit_direction = v3_unit(ray.dir);
    let t = fx_mul(fx_ratio(1, 2), fx_add(unit_direction.y, ONE_RAW as int));
    v3_lerp(white(), sky_blue(), t)
}

/// The ray that leaves a hit towards the point `bounce` away from the tip of
/// the normal.
pub open spec fn scatter(hit: HitModel, bounce: V3) -> RayModel {
    let target = v3_add(v3_add(hit.point, hit.normal), bounce);
    RayModel { orig: hit.point, dir: v3_sub(target, hit.point) }
}

/// The colour that `ray` gathers from `world` over at most `depth` bounces,
/// where the bounces take the directions `bounces` in turn. With no depth
/// left the colour is black. A ray that meets nothing takes the colour of the
/// sky; one that meets a surface takes the surface's share of what the
/// scattered ray gathers.
pub open spec fn trace<H: Hittable>(world: &H, ray: RayModel, depth: nat, bounces: Seq<V3>) -> V3
    decreases depth,
{
    if depth == 0 {
        v3_zero()
    } else {
        match world.hit_spec(ray, t_min(), MAX_RAW as int) {
            Some(hit) => v3_scale(
                trace(world, scatter(hit, bounces[0]), (depth - 1) as nat, bounces.drop_first()),
                albedo(),
            ),
            None => background(ray),
        }
    }
}

/// The number of bounces that `trace` takes: the surfaces met in turn, until
/// the ray meets nothing or no depth is left.
pub open spec fn bounces_taken<H: Hittable>(
    world: &H,
    ray: RayModel,
    depth: nat,
    bounces: Seq<V3>,
) -> nat
    decreases depth,
{
    if depth == 0 {
        0
    } else {
        match world.hit_spec(ray, t_min(), MAX_RAW as int) {
            Some(hit) => 1 + bounces_taken(
                world,
                scatter(hit, bounces[0]),
                (depth - 1) as nat,
                bounces.drop_first(),
            ),
            None => 0,
        }
    }
}

/// `bounces` holds one direction for each bounce that `trace` takes from
/// `ray`, and each is the unit vector of a draw from the unit ball.
pub open spec fn are_bounces<H: Hittable>(
    world: &H,
    ray: RayModel,
    depth: nat,
    bounces: Seq<V3>,
) -> bool {
    &&& bounces.len() == bounces_taken(world, ray, depth, bounces)
    &&& forall|i: int| 0 <= i < bounces.len() ==> is_unit_sample(#[trigger] bounces[i])
}

/// A colour between black and white whose red is at most its green, and its
/// green at most its blue.
pub open spec fn is_sky_tone(c: V3) -> bool {
    0 <= c.x <= c.y <= c.z <= ONE_RAW
}

/// The sky is a sky tone along every ray, whatever its direction.
pub proof fn lemma_background_tone(ray: RayModel)
    ensures
        is_sky_tone(background(ray)),
{
    let one = ONE_RAW as int;
    lemma_unit_bounded(ray.dir);
    let w = fx_add(v3_unit(ray.dir).y, one);
    assert(0 <= w <= 2 * one);
    assert(fx_ratio(1, 2) == 0x8000_0000);
    assert(fx_ratio(7, 10) == 3006477107);
    let t = fx_mul(fx_ratio(1, 2), w);
    assert(0 <= t <= one) by {
        assert(0 <= 0x8000_0000 * w <= one * one) by (nonlinear_arith)
            requires
                0 <= w <= 2 * one,
                one == 0x1_0000_0000,
        ;
        assert(0 <= (0x8000_0000 * w) / one <= one) by (nonlinear_arith)
            requires
                0 <= 0x8000_0000 * w <= one * one,
                one > 0,
        ;
    }
    lemma_mul_ordered(fx_ratio(1, 2), fx_ratio(7, 10), t);
    lemma_mul_ordered(fx_ratio(7, 10), one, t);
    lemma_mul_ordered(one, one, one - t);
}

/// What a ray gathers is a sky tone, whatever the scene, the depth and the
/// bounces.
pub proof fn lemma_trace_tone<H: Hittable>(world: &H, ray: RayModel, depth: nat, bounces: Seq<V3>)
    ensures
        is_sky_tone(trace(world, ray, depth, bounces)),
    decreases depth,
{
    if depth > 0 {
        match world.hit_spec(ray, t_min(), MAX_RAW as int) {
            Some(hit) => {
                let next = scatter(hit, bounces[0]);
                let inner = trace(world, next, (depth - 1) as nat, bounces.drop_first());
                lemma_trace_tone(world, next, (depth - 1) as nat, bounces.drop_first());
                assert(albedo() == 0x8000_0000);
                lemma_mul_ordered(inner.x, inner.y, albedo());
                lemma_mul_ordered(inner.y, inner.z, albedo());
            },
            None => {
                lemma_background_tone(ray);
            },
        }
    }
}

/// The colour of the sky along a ray that meets nothing.
pub fn sky(ray: &Ray) -> (r: Vec3Simd)
    ensures
        r@ == background(ray@),
{
    let unit_direction = ray.dir.unit_vector();
    let t = Fixed::from_ratio(1, 2).mul(unit_direction.y.add(Fixed::one()));
    let white = Vec3Simd::new(Fixed::one(), Fixed::one(), Fixed::one());
    let blue = Vec3Simd::new(Fixed::from_ratio(1, 2), Fixed::from_ratio(7, 10), Fixed::one());
    white.lerp(&blue, t)
}

/// The ray that leaves the hit `rec` towards `bounce`.
pub fn scattered(rec: &HitRecord, bounce: Vec3Simd) -> (r: Ray)
    ensures
        r@ == scatter(rec@, bounce@),
{
    let target = rec.point.add(rec.normal).add(bounce);
    Ray::new(rec.point, target.sub(rec.point))
}

/// `ray_colour`, together with the bounce directions that it drew.
fn ray_colour_drawn<H: Hittable>(ray: &Ray, world: &H, depth: u64) -> (r: (
    Vec3Simd,
    Ghost<Seq<V3>>,
))
    ensures
        are_bounces(world, ray@, depth as nat, r.1@),
        r.0@ == trace(world, ray@, depth as nat, r.1@),
    decreases depth,
{
    if depth == 0 {
        return (Vec3Simd::new(Fixed::zero(), Fixed::zero(), Fixed::zero()), Ghost(Seq::empty()));
    }
    let mut rec = HitRecord::default();

    if world.hit(ray, Fixed::from_ratio(1, 1000), Fixed::max_value(), &mut rec) {
        let bounce = Vec3Simd::random_unit_vector();
        let (gathered, Ghost(rest)) = ray_colour_drawn(&scattered(&rec, bounce), world, depth - 1);
        let ghost bounces = seq![bounce@] + rest;
        proof {
            assert(bounces[0] == bounce@);
            assert(bounces.drop_first() =~= rest);
            assert forall|i: int| 0 <= i < bounces.len() implies is_unit_sample(
                #[trigger] bounces[i],
            ) by {
                if i > 0 {
                    assert(bounces[i] == rest[i - 1]);
                }
            }
        }
        return (gathered.scale(Fixed::from_ratio(1, 2)), Ghost(bounces));
    }
    (sky(ray), Ghost(Seq::empty()))
}

/// The sum of the vectors of `items`, added up in turn from zero.
pub open spec fn v3_sum(items: Seq<V3>) -> V3
    decreases items.len(),
{
    if items.len() == 0 {
        v3_zero()
    } else {
        v3_add(v3_sum(items.drop_last()), items.last())
    }
}

/// The horizontal viewport coordinate of a point `jitter` right of the left
/// edge of pixel column `i`, in an image `width` pixels wide: `(i + jitter)
/// / width`, so that the columns share the width of the viewport evenly.
pub open spec fn pixel_u(width: int, i: int, jitter: int) -> int {
    fx_div(fx_add(fx_from_int(i), jitter), fx_from_int(width))
}

/// The vertical viewport coordinate of a point `jitter` above the lower edge
/// of pixel row `j`, counted from the top, in an image `height` pixels high:
/// `(height - 1 - j + jitter) / height`, so that the top row ends at the
/// upper edge of the viewport and the bottom row starts at its lower edge.
pub open spec fn pixel_v(height: int, j: int, jitter: int) -> int {
    fx_div(fx_add(fx_from_int(height - 1 - j), jitter), fx_from_int(height))
}

/// A point of a pixel of the image has its coordinate in the unit interval:
/// for `k` of `count` columns, or rows counted from below, and a jitter of one
/// pixel at most, `(k + jitter) / count` lies between zero and one.
pub proof fn lemma_pixel_in_unit_interval(count: int, k: int, jitter: int)
    requires
        0 <= k < count,
        0 <= jitter <= ONE_RAW,
    ensures
        0 <= fx_div(fx_add(fx_from_int(k), jitter), fx_from_int(count)) <= ONE_RAW,
{
    let one = ONE_RAW as int;
    assert(0 <= k * one && k * one + one <= count * one) by (nonlinear_arith)
        requires
            0 <= k < count,
            one > 0,
    ;
    lemma_div_of_part(fx_add(fx_from_int(k), jitter), fx_from_int(count));
}

/// Every point of every pixel of an image maps into the unit square of the
/// viewport.
pub proof fn lemma_pixel_in_viewport(
    width: int,
    height: int,
    i: int,
    j: int,
    jitter_u: int,
    jitter_v: int,
)
    requires
        0 <= i < width,
        0 <= j < height,
        0 <= jitter_u <= ONE_RAW,
        0 <= jitter_v <= ONE_RAW,
    ensures
        0 <= pixel_u(width, i, jitter_u) <= ONE_RAW,
        0 <= pixel_v(height, j, jitter_v) <= ONE_RAW,
{
    lemma_pixel_in_unit_interval(width, i, jitter_u);
    lemma_pixel_in_unit_interval(height, height - 1 - j, jitter_v);
}

/// The scene that every renderer starts with: a small sphere in front of the
/// camera, resting on a very large one that serves as the ground.
pub open spec fn is_start_world(world: Seq<Shape>) -> bool {
    &&& world.len() == 2
    &&& world[0] matches Shape::Sphere(small) && small@ == (SphereModel {
        centre: V3 { x: 0, y: 0, z: fx_from_int(-1) },
        radius: fx_ratio(1, 2),
    })
    &&& world[1] matches Shape::Sphere(ground) && ground@ == (SphereModel {
        centre: V3 { x: 0, y: fx_ratio(-201, 2), z: fx_from_int(-1) },
        radius: fx_from_int(100),
    })
}

/// A camera, a scene, and the size and effort of the image to make of them.
pub struct Renderer {
    pub camera: Camera,
    pub hittables: HittableList<Shape>,
    pub height: u64,
    pub width: u64,
    pub max_depth: u64,
    pub max_samples: u64,
}

impl Renderer {
    /// The camera ray through the point of pixel `(i, j)` that the jitter
    /// picks.
    pub open spec fn pixel_ray(&self, i: int, j: int, jitter_u: int, jitter_v: int) -> RayModel {
        camera_ray(
            self.camera@,
            pixel_u(self.width as int, i, jitter_u),
            pixel_v(self.height as int, j, jitter_v),
        )
    }

    /// The colour sample of pixel `(i, j)` for the given jitter inside the
    /// pixel and the given bounce directions.
    pub open spec fn pixel_sample(
        &self,
        i: int,
        j: int,
        jitter_u: int,
        jitter_v: int,
        bounces: Seq<V3>,
    ) -> V3 {
        trace(
            &self.hittables,
            self.pixel_ray(i, j, jitter_u, jitter_v),
            self.max_depth as nat,
            bounces,
        )
    }

    /// `colour` is a colour sample of pixel `(i, j)`: what a ray through some
    /// point of the pixel gathers over some bounces.
    pub open spec fn is_pixel_sample(&self, i: int, j: int, colour: V3) -> bool {
        exists|jitter_u: int, jitter_v: int, bounces: Seq<V3>|
            0 <= jitter_u < ONE_RAW && 0 <= jitter_v < ONE_RAW && are_bounces(
                &self.hittables,
                self.pixel_ray(i, j, jitter_u, jitter_v),
                self.max_depth as nat,
                bounces,
            ) && colour == #[trigger] self.pixel_sample(i, j, jitter_u, jitter_v, bounces)
    }

    /// `samples` holds `n` colour samples of pixel `(i, j)`.
    pub open spec fn are_pixel_samples(&self, i: int, j: int, n: nat, samples: Seq<V3>) -> bool {
        &&& samples.len() == n
        &&& forall|k: int| 0 <= k < samples.len() ==> self.is_pixel_sample(i, j, #[trigger] samples[k])
    }

    /// `sum` is the sum of `n` colour samples of pixel `(i, j)`, added up in
    /// turn from black.
    pub open spec fn is_pixel_sum(&self, i: int, j: int, n: nat, sum: V3) -> bool {
        exists|samples: Seq<V3>| #[trigger]
            self.are_pixel_samples(i, j, n, samples) && sum == v3_sum(samples)
    }

    /// `shown` is a display colour of pixel `(i, j)`: that of a sum of
    /// `max_samples` colour samples.
    pub open spec fn is_pixel(&self, i: int, j: int, shown: Rgb) -> bool {
        exists|sum: V3| #[trigger]
            self.is_pixel_sum(i, j, self.max_samples as nat, sum) && shown == v3_constrain(
                sum,
                self.max_samples as int,
            )
    }

    /// A renderer for an image of `width` by `height` pixels, of the start
    /// scene as seen by the start camera.
    pub fn new(height: u64, width: u64, max_depth: u64, max_samples: u64) -> (r: Self)
        ensures
            r.height == height,
            r.width == width,
            r.max_depth == max_depth,
            r.max_samples == max_samples,
            r.camera@ == camera_from_parameters(
                fx_ratio(16, 9),
                fx_from_int(2),
                fx_from_int(1),
                v3_zero(),
            ),
            is_start_world(r.hittables@),
    {
        let hittables = Self::create_world();

        Renderer { camera: Camera::new(), hittables, height, width, max_depth, max_samples }
    }

    /// The start scene.
    pub fn create_world() -> (r: HittableList<Shape>)
        ensures
            is_start_world(r@),
    {
        let mut hittables = HittableList::new();
        hittables.add_hittable(
            Shape::Sphere(
                Sphere::new(
                    Vec3Simd::new(Fixed::zero(), Fixed::zero(), Fixed::from_int(-1)),
                    Fixed::from_ratio(1, 2),
                ),
            ),
        );
        hittables.add_hittable(
            Shape::Sphere(
                Sphere::new(
                    Vec3Simd::new(Fixed::zero(), Fixed::from_ratio(-201, 2), Fixed::from_int(-1)),
                    Fixed::from_int(100),
                ),
            ),
        );
        hittables
    }

    /// The colour that `ray` gathers from `world` over at most `depth` bounces.
    /// Each bounce leaves the surface towards a random point near the tip of the
    /// normal, and passes on half of what it gathers. The result lies between
    /// black and white, with red at most green and green at most blue.
    pub fn ray_colour<H: Hittable>(ray: &Ray, world: &H, depth: u64) -> (r: Vec3Simd)
        ensures
            depth == 0 ==> r@ == v3_zero(),
            depth > 0 && world.hit_spec(ray@, t_min(), MAX_RAW as int) is None ==> r@ == background(
                ray@,
            ),
            is_sky_tone(r@),
            exists|bounces: Seq<V3>|
                are_bounces(world, ray@, depth as nat, bounces) && r@ == #[trigger] trace(
                    world,
                    ray@,
                    depth as nat,
                    bounces,
                ),
    {
        let (colour, Ghost(bounces)) = ray_colour_drawn(ray, world, depth);
        proof {
            lemma_trace_tone(world, ray@, depth as nat, bounces);
        }
        colour
    }

    /// A vector with each component drawn from `[min, max)`.
    pub fn random_in_range(min: Fixed, max: Fixed) -> (r: Vec3Simd)
        requires
            min@ < max@,
        ensures
            v3_within(r@, min@, max@),
    {
        Vec3Simd::random_in_range(min, max)
    }

    /// A vector strictly inside the unit ball.
    pub fn random_in_unit_sphere() -> (r: Vec3Simd)
        ensures
            v3_in_unit_ball(r@),
            v3_within(r@, -ONE_RAW, ONE_RAW as int),
    {
        Vec3Simd::random_in_unit_sphere()
    }

    /// Clamps each component of `vec` to `[min, max]`.
    pub fn clamp(vec: &mut Vec3Simd, min: Fixed, max: Fixed)
        ensures
            final(vec)@ == v3_clamp(old(vec)@, min@, max@),
    {
        vec.clamp(min, max);
    }

    /// The viewport coordinates of the point of pixel `(i, j)` that lies
    /// `jitter_u` right of its left edge and `jitter_v` above its lower edge.
    /// With each jitter inside the pixel, both lie in the unit interval.
    pub fn pixel_coordinates(&self, i: u64, j: u64, jitter_u: Fixed, jitter_v: Fixed) -> (r: (
        Fixed,
        Fixed,
    ))
        requires
            i < self.width,
            j < self.height,
        ensures
            r.0@ == pixel_u(self.width as int, i as int, jitter_u@),
            r.1@ == pixel_v(self.height as int, j as int, jitter_v@),
            0 <= jitter_u@ <= ONE_RAW ==> 0 <= r.0@ <= ONE_RAW,
            0 <= jitter_v@ <= ONE_RAW ==> 0 <= r.1@ <= ONE_RAW,
    {
        proof {
            if 0 <= jitter_u@ <= ONE_RAW {
                lemma_pixel_in_unit_interval(self.width as int, i as int, jitter_u@);
            }
            if 0 <= jitter_v@ <= ONE_RAW {
                lemma_pixel_in_unit_interval(self.height as int, self.height - 1 - j, jitter_v@);
            }
        }
        let u = Fixed::from_u64(i).add(jitter_u).div(Fixed::from_u64(self.width));
        let v = Fixed::from_u64(self.height - 1 - j).add(jitter_v).div(
            Fixed::from_u64(self.height),
        );
        (u, v)
    }

    /// One colour sample of pixel `(i, j)`: what a ray through a random point
    /// of the pixel gathers.
    pub fn sample_pixel(&self, i: u64, j: u64) -> (r: Vec3Simd)
        requires
            i < self.width,
            j < self.height,
        ensures
            self.is_pixel_sample(i as int, j as int, r@),
    {
        let jitter_u = Fixed::random_in_range(Fixed::zero(), Fixed::one());
        let jitter_v = Fixed::random_in_range(Fixed::zero(), Fixed::one());
        let (u, v) = self.pixel_coordinates(i, j, jitter_u, jitter_v);
        let (colour, Ghost(bounces)) = ray_colour_drawn(
            &self.camera.get_ray(u, v),
            &self.hittables,
            self.max_depth,
        );
        proof {
            assert(colour@ == self.pixel_sample(i as int, j as int, jitter_u@, jitter_v@, bounces));
        }
        colour
    }

    /// The display colour of pixel `(i, j)`, from `max_samples` colour samples.
    pub fn render_pixel(&self, i: u64, j: u64) -> (r: Rgb)
        requires
            i < self.width,
            j < self.height,
        ensures
            self.is_pixel(i as int, j as int, r),
    {
        let mut colour = Vec3Simd::new(Fixed::zero(), Fixed::zero(), Fixed::zero());
        let mut taken: u64 = 0;
        let ghost mut samples: Seq<V3> = Seq::empty();
        while taken < self.max_samples
            invariant
                i < self.width,
                j < self.height,
                taken <= self.max_samples,
                self.are_pixel_samples(i as int, j as int, taken as nat, samples),
                colour@ == v3_sum(samples),
            decreases self.max_samples - taken,
        {
            let sample = self.sample_pixel(i, j);
            colour = colour.add(sample);
            taken = taken + 1;
            proof {
                let ghost before = samples;
                samples = samples.push(sample@);
                assert(samples.drop_last() =~= before);
            }
        }
        let count: u32 = if self.max_samples > 0xffff_ffff {
            0xffff_ffff
        } else {
            self.max_samples as u32
        };
        proof {
            assert(self.is_pixel_sum(i as int, j as int, self.max_samples as nat, colour@));
            if self.max_samples > 0xffff_ffff {
                assert(fx_from_int(count as int) == MAX_RAW);
                assert(fx_from_int(self.max_samples as int) == MAX_RAW);
            }
        }
        colour.constrain_colour(count)
    }

    /// One step of progressive refinement: picks a pixel at random, up to
    /// `MAX_REDRAWS` times anew while the pick is saturated, and gives it one
    /// more colour sample. Returns whether a sample was taken: none is taken,
    /// and the map stays, only where the last pick was saturated too.
    pub fn refine(&self, map: &mut SampleMap) -> (r: bool)
        requires
            old(map).wf(),
            old(map)@.width == self.width,
            old(map)@.height == self.height,
            self.width > 0,
            self.height > 0,
        ensures
            final(map).wf(),
            r ==> exists|x: int, y: int, colour: V3|
                old(map)@.in_bounds(x, y) && !old(map)@.is_saturated(x, y) && self.is_pixel_sample(
                    x,
                    y,
                    colour,
                ) && final(map)@ == #[trigger] old(map)@.add_sample(x, y, colour),
            !r ==> final(map)@ == old(map)@,
            !r ==> exists|x: int, y: int|
                old(map)@.in_bounds(x, y) && #[trigger] old(map)@.is_saturated(x, y),
    {
        let mut x = random_index(map.width());
        let mut y = random_index(map.height());
        let mut redraws: u32 = 0;
        while redraws < MAX_REDRAWS && map.is_saturated(x, y)
            invariant
                map.wf(),
                *map == *old(map),
                x < map@.width,
                y < map@.height,
                map@.width > 0,
                map@.height > 0,
                redraws <= MAX_REDRAWS,
            decreases MAX_REDRAWS - redraws,
        {
            x = random_index(map.width());
            y = random_index(map.height());
            redraws = redraws + 1;
        }
        let taken = self.refine_pixel(map, x, y);
        proof {
            if !taken {
                assert(old(map)@.in_bounds(x as int, y as int));
                assert(old(map)@.is_saturated(x as int, y as int));
            }
        }
        taken
    }

    /// Gives pixel `(x, y)` one more colour sample, unless it is saturated.
    /// Returns whether the sample was taken; the sample of a saturated pixel
    /// is not even traced, and the map stays as it is.
    pub fn refine_pixel(&self, map: &mut SampleMap, x: usize, y: usize) -> (r: bool)
        requires
            old(map).wf(),
            old(map)@.width == self.width,
            old(map)@.height == self.height,
            old(map)@.in_bounds(x as int, y as int),
        ensures
            final(map).wf(),
            r == !old(map)@.is_saturated(x as int, y as int),
            r ==> exists|colour: V3|
                self.is_pixel_sample(x as int, y as int, colour) && final(map)@
                    == #[trigger] old(map)@.add_sample(x as int, y as int, colour),
            !r ==> final(map)@ == old(map)@,
    {
        if map.is_saturated(x, y) {
            return false;
        }
        let colour = self.sample_pixel(x as u64, y as u64);
        map.add_sample_to_map(x, y, colour);
        true
    }

    /// Moves the eye by `delta` along `axis` and invalidates `map`, whose
    /// samples were taken from the place that the eye has left.
    pub fn translate_camera(&mut self, map: &mut SampleMap, axis: Axis, delta: Fixed)
        requires
            old(map).wf(),
        ensures
            final(map).wf(),
            final(map)@ == old(map)@.invalidate(),
            final(self).camera@ == camera_translated(old(self).camera@, axis, delta@),
            final(self).hittables == old(self).hittables,
            final(self).height == old(self).height,
            final(self).width == old(self).width,
            final(self).max_depth == old(self).max_depth,
            final(self).max_samples == old(self).max_samples,
    {
        self.camera.translate(axis, delta);
        map.invalidate_samples();
    }

    /// The display colours of pixel row `j`, from left to right.
    pub fn render_row(&self, j: u64) -> (r: Vec<Rgb>)
        requires
            j < self.height,
        ensures
            r@.len() == self.width,
            forall|i: int| 0 <= i < self.width ==> self.is_pixel(i, j as int, #[trigger] r@[i]),
    {
        let mut row: Vec<Rgb> = Vec::new();
        let mut i: u64 = 0;
        while i < self.width
            invariant
                j < self.height,
                i <= self.width,
                row@.len() == i,
                forall|k: int| 0 <= k < i ==> self.is_pixel(k, j as int, #[trigger] row@[k]),
            decreases self.width - i,
        {
            let shown = self.render_pixel(i, j);
            row.push(shown);
            i = i + 1;
        }
        row
    }

    /// The display colours of the whole image, row by row from the top, each
    /// row from left to right.
    pub fn render(&self) -> (r: Vec<Rgb>)
        ensures
            r@.len() == self.width * self.height,
            forall|i: int, j: int|
                0 <= i < self.width && 0 <= j < self.height ==> self.is_pixel(
                    i,
                    j,
                    #[trigger] r@[j * self.width + i],
                ),
    {
        let mut image: Vec<Rgb> = Vec::new();
        let mut j: u64 = 0;
        while j < self.height
            invariant
                j <= self.height,
                image@.len() == self.width * j,
                forall|i: int, k: int|
                    0 <= i < self.width && 0 <= k < j ==> self.is_pixel(
                        i,
                        k,
                        #[trigger] image@[k * self.width + i],
                    ),
            decreases self.height - j,
        {
            let mut row = self.render_row(j);
            let ghost before = image@;
            let ghost added = row@;
            image.append(&mut row);
            proof {
                let w = self.width as int;
                assert(w * (j + 1) == w * j + w) by (nonlinear_arith);
                assert forall|i: int, k: int| 0 <= i < w && 0 <= k < j + 1 implies self.is_pixel(
                    i,
                    k,
                    #[trigger] image@[k * w + i],
                ) by {
                    if k < j {
                        assert(0 <= k * w + i < w * j) by (nonlinear_arith)
                            requires
                                0 <= i < w,
                                0 <= k < j,
                        ;
                        assert(image@[k * w + i] == before[k * w + i]);
                    } else {
                        assert(k * w == w * j) by (nonlinear_arith)
                            requires
                                k == j,
                        ;
                        assert(image@[k * w + i] == added[i]);
                    }
                }
            }
            j = j + 1;
        }
        image
    }
}

} // verus!
