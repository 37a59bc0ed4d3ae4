//! The camera: viewing geometry, sample rays and recursive shading.
//!
//! Angles enter as tangents of half-angles, so that construction needs no
//! trigonometry. What is computed from random numbers is modelled as a
//! function of the numbers drawn: [`shade`] gives the colour along a ray for
//! the draws of its bounces, [`CameraModel::pixel_color`] the colour of a
//! pixel for the draws of its samples. The functions that draw return the
//! model's value for some draws that the random source can produce.
use crate::color::Color;
use crate::fixed::{fx_add, fx_div, fx_floor, fx_from_int, fx_mul, fx_sub, Fixed, MAX_RAW, SCALE};
use crate::hit::Hittable;
use crate::interval::{Interval, Span};
use crate::material::{white, Draw, Material};
use crate::random::random_range;
use crate::ray::{Ray, RayModel};
use crate::vec3::{
    cross, is_disk_sample, nearly_unit, random_in_unit_disk, sphere_fallback, two, unit_vector,
    zero, Point3, Vec3, V3,
};
use crate::views::opt_view;
use rand::rngs::StdRng;
use vstd::prelude::*;

verus! {

/// Raw count of the smallest ray parameter at which a surface counts as
/// struck when shading, a thousandth: it keeps a scattered ray from striking
/// the surface it starts on.
pub const SHADOW_BIAS_RAW: i64 = 1_000;

/// Raw count of a half.
pub const HALF_RAW: i64 = 500_000;

/// The range of ray parameters that shading looks at.
pub open spec fn shading_range() -> Span {
    Span { min: SHADOW_BIAS_RAW as int, max: MAX_RAW as int }
}

/// Black.
pub open spec fn black() -> V3 {
    V3 { x: 0, y: 0, z: 0 }
}

/// The colour of the sky at its zenith.
pub open spec fn sky_blue() -> V3 {
    V3 { x: 500_000, y: 700_000, z: 1_000_000 }
}

/// The colour of the sky in a direction: white and sky blue blended by the
/// height of the unit direction, `a = (y + 1) / 2`, as
/// `white * (1 - a) + blue * a`.
pub open spec fn sky_color(direction: V3) -> V3 {
    let a = fx_mul(fx_add(direction.unit().y, SCALE as int), HALF_RAW as int);
    white().scaled(fx_sub(SCALE as int, a)).plus(sky_blue().scaled(a))
}

/// The colour that comes along the ray `r` with `depth` bounces left, when
/// the random source yields `draws`, one draw for each bounce.
///
/// Without bounces left the colour is black. A ray that strikes nothing has
/// the colour of the sky. A ray that strikes a surface is scattered by the
/// surface's material with the first draw; its colour is black if the
/// material absorbs it, else the attenuation times the colour along the
/// scattered ray with one bounce less and the remaining draws.
pub open spec fn shade<W: Hittable>(world: W, r: RayModel, depth: int, draws: Seq<Draw>) -> V3
    decreases depth,
{
    if depth <= 0 {
        black()
    } else {
        match world.hit_model(r, shading_range()) {
            None => sky_color(r.direction),
            Some(rec) => match rec.mat.scatter(r, rec, draws.first()) {
                None => black(),
                Some(s) => s.attenuation.times(
                    shade(world, s.scattered, depth - 1, draws.drop_first()),
                ),
            },
        }
    }
}

/// Whether `draws` holds `n` draws that the random source can produce.
pub open spec fn possible_draws(draws: Seq<Draw>, n: int) -> bool {
    draws.len() == n && forall|k: int| 0 <= k < n ==> (#[trigger] draws[k]).possible()
}

/// A draw that the random source can produce.
pub open spec fn some_draw() -> Draw {
    Draw { unit: sphere_fallback(), uniform: 0 }
}

/// Number of pixel rows for a width and an aspect ratio: the quotient
/// rounded down, and at least one.
pub open spec fn rows_for(image_width: int, aspect_ratio: int) -> int {
    let rows = fx_floor(fx_div(fx_from_int(image_width), aspect_ratio));
    if rows < 1 {
        1
    } else {
        rows
    }
}

/// The possible offsets of a sample within its pixel: both coordinates in
/// `[-0.5, 0.5)`.
pub open spec fn is_square_sample(o: V3) -> bool {
    &&& -HALF_RAW <= o.x < HALF_RAW
    &&& -HALF_RAW <= o.y < HALF_RAW
    &&& o.z == 0
}

/// The random values that one sample of a pixel may consume: the offset
/// within the pixel, the point of the unit disk for the lens, and a draw for
/// each bounce.
pub struct SampleDraw {
    pub offset: V3,
    pub disk: V3,
    pub bounces: Seq<Draw>,
}

impl SampleDraw {
    /// Whether the random source can produce these values for a ray that
    /// may bounce `depth` times.
    pub open spec fn possible(self, depth: int) -> bool {
        is_square_sample(self.offset) && is_disk_sample(self.disk) && possible_draws(
            self.bounces,
            depth,
        )
    }
}

/// The random values of one bounce, held as values: what a random source
/// drew, or what stands in for it.
#[derive(Clone, Copy, Debug, PartialEq, Eq, Structural)]
pub struct BounceDraw {
    /// The direction from the unit sphere.
    pub unit: Vec3,
    /// The number from `[0, 1)`.
    pub uniform: Fixed,
}

impl View for BounceDraw {
    type V = Draw;

    open spec fn view(&self) -> Draw {
        Draw { unit: self.unit@, uniform: self.uniform@ }
    }
}

/// The views of a sequence of bounce draws.
pub open spec fn bounce_views(draws: Seq<BounceDraw>) -> Seq<Draw> {
    Seq::new(draws.len(), |k: int| draws[k]@)
}

/// The random values of one sample of a pixel, held as values.
pub struct SampleDraws {
    /// The offset within the pixel.
    pub offset: Vec3,
    /// The point of the unit disk for the lens.
    pub disk: Vec3,
    /// The draws of the bounces, the first bounce first.
    pub bounces: Vec<BounceDraw>,
}

impl View for SampleDraws {
    type V = SampleDraw;

    open spec fn view(&self) -> SampleDraw {
        SampleDraw { offset: self.offset@, disk: self.disk@, bounces: bounce_views(self.bounces@) }
    }
}

/// The views of a sequence of sample draws.
pub open spec fn sample_views(draws: Seq<SampleDraws>) -> Seq<SampleDraw> {
    Seq::new(draws.len(), |k: int| draws[k]@)
}

/// The mathematical model of a [`Camera`]: what was asked for and the
/// geometry derived from it.
pub struct CameraModel {
    /// Width over height of the image.
    pub aspect_ratio: int,
    /// Pixels per row.
    pub image_width: int,
    /// Rows.
    pub image_height: int,
    /// Where the rays start when the lens has no extent.
    pub center: V3,
    /// Location of the centre of the pixel in the upper left corner.
    pub pixel00_loc: V3,
    /// From one pixel to the next in a row.
    pub pixel_delta_u: V3,
    /// From one row to the next.
    pub pixel_delta_v: V3,
    /// Horizontal radius of the defocus disk.
    pub defocus_disk_u: V3,
    /// Vertical radius of the defocus disk.
    pub defocus_disk_v: V3,
    /// The camera's right.
    pub u: V3,
    /// The camera's up.
    pub v: V3,
    /// Opposite to the viewing direction.
    pub w: V3,
    /// Samples averaged for one pixel.
    pub samples_per_pixel: int,
    /// One over the number of samples.
    pub pixel_samples_scale: int,
    /// How often a ray may bounce.
    pub max_depth: int,
    /// Tangent of half the vertical field of view.
    pub half_vfov_tan: int,
    /// Where the camera stands.
    pub lookfrom: V3,
    /// What the camera looks at.
    pub lookat: V3,
    /// Which way is up.
    pub vup: V3,
    /// Tangent of half the angle of the cone whose apex is at the focus
    /// plane and whose base is the defocus disk; not positive for a lens
    /// without extent.
    pub half_defocus_tan: int,
    /// Distance from the camera to the plane of perfect focus.
    pub focus_dist: int,
}

impl CameraModel {
    /// The camera for a configuration.
    ///
    /// The viewport lies at the focus distance and is
    /// `2 * half_vfov_tan * focus_dist` high. The basis is
    /// `w = unit(lookfrom - lookat)`, `u = unit(cross(vup, w))`,
    /// `v = cross(w, u)`. The viewport runs along `u` and against `v`, the
    /// pixel deltas are its edges divided by the resolution, and the first
    /// pixel sits half a delta inside the upper left corner. The defocus
    /// disk has the radius `focus_dist * half_defocus_tan`.
    pub open spec fn configured(
        aspect_ratio: int,
        image_width: int,
        samples_per_pixel: int,
        max_depth: int,
        half_vfov_tan: int,
        lookfrom: V3,
        lookat: V3,
        vup: V3,
        half_defocus_tan: int,
        focus_dist: int,
    ) -> CameraModel {
        let image_height = rows_for(image_width, aspect_ratio);
        let center = lookfrom;
        let viewport_height = fx_mul(fx_mul(two(), half_vfov_tan), focus_dist);
        let viewport_width = fx_mul(
            viewport_height,
            fx_div(fx_from_int(image_width), fx_from_int(image_height)),
        );
        let w = lookfrom.minus(lookat).unit();
        let u = vup.cross(w).unit();
        let v = w.cross(u);
        let viewport_u = u.scaled(viewport_width);
        let viewport_v = v.negated().scaled(viewport_height);
        let pixel_delta_u = viewport_u.divided(fx_from_int(image_width));
        let pixel_delta_v = viewport_v.divided(fx_from_int(image_height));
        let viewport_upper_left = center.minus(w.scaled(focus_dist)).minus(
            viewport_u.divided(two()),
        ).minus(viewport_v.divided(two()));
        let defocus_radius = fx_mul(focus_dist, half_defocus_tan);
        CameraModel {
            aspect_ratio,
            image_width,
            image_height,
            center,
            pixel00_loc: viewport_upper_left.plus(
                pixel_delta_u.plus(pixel_delta_v).scaled(HALF_RAW as int),
            ),
            pixel_delta_u,
            pixel_delta_v,
            defocus_disk_u: u.scaled(defocus_radius),
            defocus_disk_v: v.scaled(defocus_radius),
            u,
            v,
            w,
            samples_per_pixel,
            pixel_samples_scale: fx_div(SCALE as int, fx_from_int(samples_per_pixel)),
            max_depth,
            half_vfov_tan,
            lookfrom,
            lookat,
            vup,
            half_defocus_tan,
            focus_dist,
        }
    }

    /// The configuration of the default camera: a 16:9 image 1200 pixels
    /// wide, 100 samples a pixel, 100 bounces, a vertical field of view of
    /// 20 degrees, looking from `(-2, 2, 1)` at `(0, 0, -1)`, with a defocus
    /// angle of 10 degrees and focus at 3.4.
    pub open spec fn standard() -> CameraModel {
        CameraModel::configured(
            fx_div(fx_from_int(16), fx_from_int(9)),
            1200,
            100,
            100,
            176_327,
            V3 { x: -2_000_000, y: 2_000_000, z: 1_000_000 },
            V3 { x: 0, y: 0, z: -1_000_000 },
            V3 { x: 0, y: 1_000_000, z: 0 },
            87_489,
            3_400_000,
        )
    }

    /// The point of the image plane that a sample of pixel `(i, j)` with the
    /// given offset looks at.
    pub open spec fn pixel_sample(self, i: int, j: int, offset: V3) -> V3 {
        self.pixel00_loc.plus(self.pixel_delta_u.scaled(fx_add(fx_from_int(i), offset.x))).plus(
            self.pixel_delta_v.scaled(fx_add(fx_from_int(j), offset.y)),
        )
    }

    /// The point of the defocus disk that belongs to a point of the unit
    /// disk.
    pub open spec fn disk_point(self, disk: V3) -> V3 {
        self.center.plus(self.defocus_disk_u.scaled(disk.x)).plus(
            self.defocus_disk_v.scaled(disk.y),
        )
    }

    /// Where a sample ray starts: at the centre for a lens without extent,
    /// else at the point of the defocus disk.
    pub open spec fn ray_origin(self, disk: V3) -> V3 {
        if self.half_defocus_tan <= 0 {
            self.center
        } else {
            self.disk_point(disk)
        }
    }

    /// The ray from `origin` through the sample of pixel `(i, j)`.
    pub open spec fn pixel_ray(self, i: int, j: int, offset: V3, origin: V3) -> RayModel {
        RayModel { origin, direction: self.pixel_sample(i, j, offset).minus(origin) }
    }

    /// The sample ray of pixel `(i, j)` for a drawn offset and a drawn point
    /// of the unit disk.
    pub open spec fn ray_through(self, i: int, j: int, offset: V3, disk: V3) -> RayModel {
        self.pixel_ray(i, j, offset, self.ray_origin(disk))
    }

    /// The colour of one sample of pixel `(i, j)` when the random source
    /// yields `drawn`.
    pub open spec fn sample_color<W: Hittable>(self, world: W, i: int, j: int, drawn: SampleDraw) -> V3 {
        shade(world, self.ray_through(i, j, drawn.offset, drawn.disk), self.max_depth, drawn.bounces)
    }

    /// Sum of the colours of the samples of pixel `(i, j)`, from the first
    /// to the last.
    pub open spec fn sample_sum<W: Hittable>(
        self,
        world: W,
        i: int,
        j: int,
        drawn: Seq<SampleDraw>,
    ) -> V3
        decreases drawn.len(),
    {
        if drawn.len() == 0 {
            black()
        } else {
            self.sample_sum(world, i, j, drawn.drop_last()).plus(
                self.sample_color(world, i, j, drawn.last()),
            )
        }
    }

    /// The colour of pixel `(i, j)` when the random source yields `drawn`
    /// for its samples: their mean, that is their sum times the sample
    /// scale.
    pub open spec fn pixel_color<W: Hittable>(
        self,
        world: W,
        i: int,
        j: int,
        drawn: Seq<SampleDraw>,
    ) -> V3 {
        self.sample_sum(world, i, j, drawn).scaled(self.pixel_samples_scale)
    }

    /// Whether `drawn` holds what the random source can produce for the
    /// samples of one pixel.
    pub open spec fn possible_samples(self, drawn: Seq<SampleDraw>) -> bool {
        &&& drawn.len() == self.samples_per_pixel
        &&& forall|k: int|
            0 <= k < drawn.len() ==> (#[trigger] drawn[k]).possible(self.max_depth)
    }

    /// Whether `samples` holds a draw for each sample of a pixel, each with
    /// a draw for each bounce.
    pub open spec fn enough(self, samples: Seq<SampleDraws>) -> bool {
        &&& samples.len() == self.samples_per_pixel
        &&& forall|k: int|
            0 <= k < samples.len() ==> (#[trigger] samples[k]).bounces@.len() >= self.max_depth
    }

    /// Whether pixel `(i, j)` can have the colour `c`.
    pub open spec fn pixel<W: Hittable>(self, world: W, i: int, j: int, c: V3) -> bool {
        exists|drawn: Seq<SampleDraw>|
            self.possible_samples(drawn) && c == #[trigger] self.pixel_color(world, i, j, drawn)
    }
}

/// The colour of the sky along a ray.
pub fn background(r: &Ray) -> (c: Color)
    ensures
        c@ == sky_color(r@.direction),
{
    let unit_direction = unit_vector(r.direction());
    let a = unit_direction.y().add(Fixed::one()).mul(Fixed::from_raw(HALF_RAW));
    let one = Fixed::one();
    Color::new(one, one, one).mul_scalar(one.sub(a)).add(
        Color::new(
            Fixed::from_raw(500_000),
            Fixed::from_raw(700_000),
            Fixed::from_raw(1_000_000),
        ).mul_scalar(a),
    )
}

/// Number of pixel rows for a width and an aspect ratio.
pub fn image_rows(image_width: u64, aspect_ratio: Fixed) -> (rows: u64)
    ensures
        rows == rows_for(image_width as int, aspect_ratio@),
{
    let quotient = Fixed::from_u64(image_width).div(aspect_ratio);
    if quotient.raw() < SCALE {
        1
    } else {
        (quotient.raw() / SCALE) as u64
    }
}

/// A camera: the viewing geometry for an image, derived at construction from
/// the configuration.
#[derive(Clone, Copy, Debug)]
pub struct Camera {
    /// Width over height of the image.
    pub aspect_ratio: Fixed,
    /// Pixels per row.
    pub image_width: u64,
    image_height: u64,
    center: Point3,
    pixel00_loc: Point3,
    pixel_delta_u: Vec3,
    pixel_delta_v: Vec3,
    defocus_disk_u: Vec3,
    defocus_disk_v: Vec3,
    u: Vec3,
    v: Vec3,
    w: Vec3,
    samples_per_pixel: u64,
    pixel_samples_scale: Fixed,
    max_depth: u64,
    half_vfov_tan: Fixed,
    lookfrom: Point3,
    lookat: Point3,
    vup: Vec3,
    half_defocus_tan: Fixed,
    focus_dist: Fixed,
}

impl View for Camera {
    type V = CameraModel;

    closed spec fn view(&self) -> CameraModel {
        CameraModel {
            aspect_ratio: self.aspect_ratio@,
            image_width: self.image_width as int,
            image_height: self.image_height as int,
            center: self.center@,
            pixel00_loc: self.pixel00_loc@,
            pixel_delta_u: self.pixel_delta_u@,
            pixel_delta_v: self.pixel_delta_v@,
            defocus_disk_u: self.defocus_disk_u@,
            defocus_disk_v: self.defocus_disk_v@,
            u: self.u@,
            v: self.v@,
            w: self.w@,
            samples_per_pixel: self.samples_per_pixel as int,
            pixel_samples_scale: self.pixel_samples_scale@,
            max_depth: self.max_depth as int,
            half_vfov_tan: self.half_vfov_tan@,
            lookfrom: self.lookfrom@,
            lookat: self.lookat@,
            vup: self.vup@,
            half_defocus_tan: self.half_defocus_tan@,
            focus_dist: self.focus_dist@,
        }
    }
}

impl Default for Camera {
    fn default() -> (r: Camera)
        ensures
            r@ == CameraModel::standard(),
    {
        let aspect_ratio = Fixed::from_int(16).div(Fixed::from_int(9));
        let image_width: u64 = 1200;
        let samples_per_pixel: u64 = 100;
        let max_depth: u64 = 100;
        let half_vfov_tan = Fixed::from_raw(176_327);
        let lookfrom = Point3::new(Fixed::from_raw(-2_000_000), Fixed::from_raw(2_000_000), Fixed::from_raw(1_000_000));
        let lookat = Point3::new(Fixed::from_raw(0), Fixed::from_raw(0), Fixed::from_raw(-1_000_000));
        let vup = Vec3::new(Fixed::from_raw(0), Fixed::from_raw(1_000_000), Fixed::from_raw(0));
        let half_defocus_tan = Fixed::from_raw(87_489);
        let focus_dist = Fixed::from_raw(3_400_000);
        Camera::new(
            aspect_ratio,
            image_width,
            samples_per_pixel,
            max_depth,
            half_vfov_tan,
            lookfrom,
            lookat,
            vup,
            half_defocus_tan,
            focus_dist,
        )
    }
}

impl Camera {
    /// The camera for a configuration. The field of view and the defocus
    /// angle are given by the tangents of their halves.
    pub fn new(
        aspect_ratio: Fixed,
        image_width: u64,
        samples_per_pixel: u64,
        max_depth: u64,
        half_vfov_tan: Fixed,
        lookfrom: Point3,
        lookat: Point3,
        vup: Vec3,
        half_defocus_tan: Fixed,
        focus_dist: Fixed,
    ) -> (r: Camera)
        ensures
            r@ == CameraModel::configured(
                aspect_ratio@,
                image_width as int,
                samples_per_pixel as int,
                max_depth as int,
                half_vfov_tan@,
                lookfrom@,
                lookat@,
                vup@,
                half_defocus_tan@,
                focus_dist@,
            ),
            lookfrom@ != lookat@ ==> nearly_unit(r@.w),
            vup@.cross(r@.w) != zero() ==> nearly_unit(r@.u),
    {
        let image_height = image_rows(image_width, aspect_ratio);
        let center = lookfrom;

        let pixel_samples_scale = Fixed::one().div(Fixed::from_u64(samples_per_pixel));

        let two = Fixed::from_int(2);
        let viewport_height = two.mul(half_vfov_tan).mul(focus_dist);
        let viewport_width = viewport_height.mul(
            Fixed::from_u64(image_width).div(Fixed::from_u64(image_height)),
        );

        let w = unit_vector(lookfrom.sub(lookat));
        let u = unit_vector(cross(&vup, &w));
        let v = cross(&w, &u);

        let viewport_u = u.mul_scalar(viewport_width);
        let viewport_v = v.neg().mul_scalar(viewport_height);

        let pixel_delta_u = viewport_u.div(Fixed::from_u64(image_width));
        let pixel_delta_v = viewport_v.div(Fixed::from_u64(image_height));

        let viewport_upper_left = center.sub(w.mul_scalar(focus_dist)).sub(viewport_u.div(two)).sub(
            viewport_v.div(two),
        );
        let pixel00_loc = viewport_upper_left.add(
            pixel_delta_u.add(pixel_delta_v).mul_scalar(Fixed::from_raw(HALF_RAW)),
        );

        let defocus_radius = focus_dist.mul(half_defocus_tan);
        let defocus_disk_u = u.mul_scalar(defocus_radius);
        let defocus_disk_v = v.mul_scalar(defocus_radius);

        Camera {
            aspect_ratio,
            image_width,
            image_height,
            center,
            pixel00_loc,
            pixel_delta_u,
            pixel_delta_v,
            defocus_disk_u,
            defocus_disk_v,
            u,
            v,
            w,
            samples_per_pixel,
            pixel_samples_scale,
            max_depth,
            half_vfov_tan,
            lookfrom,
            lookat,
            vup,
            half_defocus_tan,
            focus_dist,
        }
    }

    /// Width over height of the image, as configured.
    pub fn aspect_ratio(&self) -> (a: Fixed)
        ensures
            a@ == self@.aspect_ratio,
    {
        self.aspect_ratio
    }

    /// Pixels per row.
    pub fn image_width(&self) -> (n: u64)
        ensures
            n == self@.image_width,
    {
        self.image_width
    }

    /// Rows of the image.
    pub fn image_height(&self) -> (n: u64)
        ensures
            n == self@.image_height,
    {
        self.image_height
    }

    /// An offset within a pixel, each coordinate drawn from `[-0.5, 0.5)`.
    pub fn sample_square(&self, rng: &mut StdRng) -> (o: Vec3)
        ensures
            is_square_sample(o@),
    {
        let low = Fixed::from_raw(-HALF_RAW);
        let high = Fixed::from_raw(HALF_RAW);
        let e0 = random_range(rng, low, high);
        let e1 = random_range(rng, low, high);
        Vec3::new(e0, e1, Fixed::zero())
    }

    /// The point of the defocus disk that belongs to a point of the unit
    /// disk.
    pub fn defocus_disk_point(&self, disk: Vec3) -> (p: Point3)
        ensures
            p@ == self@.disk_point(disk@),
    {
        self.center.add(disk.x().mul_vec(self.defocus_disk_u)).add(
            disk.y().mul_vec(self.defocus_disk_v),
        )
    }

    /// A point drawn from the defocus disk.
    pub fn defocus_disk_sample(&self, rng: &mut StdRng) -> (p: Point3)
        ensures
            exists|disk: V3| is_disk_sample(disk) && p@ == #[trigger] self@.disk_point(disk),
    {
        let disk = random_in_unit_disk(rng);
        let p = self.defocus_disk_point(disk);
        assert(p@ == self@.disk_point(disk@));
        p
    }

    /// The ray from `origin` through the sample of pixel `(i, j)` with the
    /// given offset.
    pub fn pixel_ray(&self, i: u64, j: u64, offset: Vec3, origin: Point3) -> (r: Ray)
        ensures
            r@ == self@.pixel_ray(i as int, j as int, offset@, origin@),
    {
        let pixel_sample = self.pixel00_loc.add(
            self.pixel_delta_u.mul_scalar(Fixed::from_u64(i).add(offset.x())),
        ).add(self.pixel_delta_v.mul_scalar(Fixed::from_u64(j).add(offset.y())));
        let ray_direction = pixel_sample.sub(origin);
        Ray::new(origin, ray_direction)
    }

    /// A sample ray of pixel `(i, j)`: from the centre, or from a point
    /// drawn from the defocus disk, through a point drawn from the pixel.
    pub fn get_ray(&self, i: u64, j: u64, rng: &mut StdRng) -> (r: Ray)
        ensures
            exists|offset: V3, disk: V3|
                is_square_sample(offset) && is_disk_sample(disk) && r@
                    == #[trigger] self@.ray_through(i as int, j as int, offset, disk),
    {
        let offset = self.sample_square(rng);
        let ghost mut disk = black();
        let ray_origin = if self.half_defocus_tan.le(Fixed::zero()) {
            self.center
        } else {
            let p = self.defocus_disk_sample(rng);
            proof {
                disk = choose|disk: V3|
                    is_disk_sample(disk) && p@ == #[trigger] self@.disk_point(disk);
            }
            p
        };
        let r = self.pixel_ray(i, j, offset, ray_origin);
        proof {
            assert(fx_mul(0, 0) == 0) by (nonlinear_arith);
            assert(is_disk_sample(disk));
            assert(r@ == self@.ray_through(i as int, j as int, offset@, disk));
        }
        r
    }

    /// The colour that comes along the ray `r`, with `depth` bounces left.
    ///
    /// Black without bounces left; the sky where the ray strikes nothing
    /// beyond the shadow bias; else what the material of the nearest surface
    /// makes of the colour along the scattered ray. The result is `shade`
    /// for some draws that the random source can produce.
    pub fn ray_color<W: Hittable>(&self, r: &Ray, depth: u64, world: &W, rng: &mut StdRng) -> (c:
        Color)
        ensures
            exists|draws: Seq<Draw>|
                possible_draws(draws, depth as int) && c@ == #[trigger] shade(
                    *world,
                    r@,
                    depth as int,
                    draws,
                ),
            depth == 0 ==> c@ == black(),
            depth > 0 && world.hit_model(r@, shading_range()) is None ==> c@ == sky_color(
                r@.direction,
            ),
        decreases depth,
    {
        let ghost idle = Seq::new(depth as nat, |k: int| some_draw());
        if depth == 0 {
            let c = Color::new(Fixed::zero(), Fixed::zero(), Fixed::zero());
            proof {
                assert(possible_draws(idle, 0));
                assert(c@ == shade(*world, r@, 0, idle));
            }
            return c;
        }
        let range = Interval::new(Fixed::from_raw(SHADOW_BIAS_RAW), Fixed::max_value());
        match world.hit(r, range) {
            Some(rec) => {
                let scattered = rec.mat.scatter(r, &rec, rng);
                let ghost first = choose|draw: Draw|
                    draw.possible() && opt_view(scattered) == #[trigger] rec.mat.scatter_model(
                        r@,
                        rec@,
                        draw,
                    );
                match scattered {
                    Some(scatter_result) => {
                        let rest = self.ray_color(&scatter_result.scattered, depth - 1, world, rng);
                        let c = scatter_result.attenuation.mul(rest);
                        proof {
                            let tail = choose|draws: Seq<Draw>|
                                possible_draws(draws, depth as int - 1) && rest@
                                    == #[trigger] shade(
                                    *world,
                                    scatter_result@.scattered,
                                    depth as int - 1,
                                    draws,
                                );
                            let draws = seq![first] + tail;
                            assert(draws.drop_first() =~= tail);
                            assert(draws.first() == first);
                            assert(possible_draws(draws, depth as int));
                            assert(rec@.mat.scatter(r@, rec@, first) == Some(scatter_result@));
                            assert(c@ == shade(*world, r@, depth as int, draws));
                        }
                        c
                    },
                    None => {
                        let c = Color::new(Fixed::zero(), Fixed::zero(), Fixed::zero());
                        proof {
                            let draws = Seq::new(depth as nat, |k: int| first);
                            assert(possible_draws(draws, depth as int));
                            assert(draws.first() == first);
                            assert(rec@.mat.scatter(r@, rec@, first) is None);
                            assert(c@ == shade(*world, r@, depth as int, draws));
                        }
                        c
                    },
                }
            },
            None => {
                let c = background(r);
                proof {
                    assert(possible_draws(idle, depth as int));
                    assert(c@ == shade(*world, r@, depth as int, idle));
                }
                c
            },
        }
    }

    /// The colour of pixel `(i, j)`: the mean of the colours along
    /// `samples_per_pixel` sample rays.
    pub fn pixel_color<W: Hittable>(&self, i: u64, j: u64, world: &W, rng: &mut StdRng) -> (c:
        Color)
        ensures
            self@.pixel(*world, i as int, j as int, c@),
    {
        let mut pixel_color = Color::new(Fixed::zero(), Fixed::zero(), Fixed::zero());
        let ghost mut drawn: Seq<SampleDraw> = Seq::empty();
        let mut sample: u64 = 0;
        while sample < self.samples_per_pixel
            invariant
                sample <= self.samples_per_pixel,
                drawn.len() == sample,
                forall|k: int|
                    0 <= k < drawn.len() ==> (#[trigger] drawn[k]).possible(self@.max_depth),
                pixel_color@ == self@.sample_sum(*world, i as int, j as int, drawn),
            decreases self.samples_per_pixel - sample,
        {
            let r = self.get_ray(i, j, rng);
            let seen = self.ray_color(&r, self.max_depth, world, rng);
            pixel_color.add_assign(seen);
            proof {
                let (offset, disk) = choose|offset: V3, disk: V3|
                    is_square_sample(offset) && is_disk_sample(disk) && r@
                        == #[trigger] self@.ray_through(i as int, j as int, offset, disk);
                let bounces = choose|draws: Seq<Draw>|
                    possible_draws(draws, self.max_depth as int) && seen@ == #[trigger] shade(
                        *world,
                        r@,
                        self.max_depth as int,
                        draws,
                    );
                let one = SampleDraw { offset, disk, bounces };
                let longer = drawn.push(one);
                assert(longer.drop_last() =~= drawn);
                assert(longer.last() == one);
                assert(seen@ == self@.sample_color(*world, i as int, j as int, one));
                drawn = longer;
            }
            sample = sample + 1;
        }
        let c = pixel_color.mul_scalar(self.pixel_samples_scale);
        proof {
            assert(self@.possible_samples(drawn));
            assert(c@ == self@.pixel_color(*world, i as int, j as int, drawn));
        }
        c
    }

    /// The sample ray of pixel `(i, j)` for a given offset within the pixel
    /// and a given point of the unit disk.
    pub fn sample_ray(&self, i: u64, j: u64, offset: Vec3, disk: Vec3) -> (r: Ray)
        ensures
            r@ == self@.ray_through(i as int, j as int, offset@, disk@),
    {
        let ray_origin = if self.half_defocus_tan.le(Fixed::zero()) {
            self.center
        } else {
            self.defocus_disk_point(disk)
        };
        self.pixel_ray(i, j, offset, ray_origin)
    }

    /// The colour that comes along the ray `r`, with `depth` bounces left,
    /// for given draws: bounce number `k` uses `draws[from + k]`. The result
    /// is a function of the arguments, so that the same draws give the same
    /// colour.
    pub fn ray_color_with<W: Hittable>(
        &self,
        r: &Ray,
        depth: u64,
        world: &W,
        draws: &Vec<BounceDraw>,
        from: usize,
    ) -> (c: Color)
        requires
            from <= draws@.len(),
            depth <= draws@.len() - from,
        ensures
            c@ == shade(*world, r@, depth as int, bounce_views(draws@).skip(from as int)),
        decreases depth,
    {
        if depth == 0 {
            return Color::new(Fixed::zero(), Fixed::zero(), Fixed::zero());
        }
        let ghost rest = bounce_views(draws@).skip(from as int);
        let range = Interval::new(Fixed::from_raw(SHADOW_BIAS_RAW), Fixed::max_value());
        match world.hit(r, range) {
            Some(rec) => {
                let draw = draws[from];
                assert(rest.first() == draw@);
                match rec.mat.scatter_with(r, &rec, draw.unit, draw.uniform) {
                    Some(scatter_result) => {
                        let have = draws.len();
                        assert(from < have);
                        let seen = self.ray_color_with(
                            &scatter_result.scattered,
                            depth - 1,
                            world,
                            draws,
                            from + 1,
                        );
                        assert(rest.drop_first() =~= bounce_views(draws@).skip(from as int + 1));
                        scatter_result.attenuation.mul(seen)
                    },
                    None => Color::new(Fixed::zero(), Fixed::zero(), Fixed::zero()),
                }
            },
            None => background(r),
        }
    }

    /// The colour of pixel `(i, j)` for given draws, one for each sample:
    /// the mean of the colours along the sample rays. The result is a
    /// function of the arguments.
    pub fn pixel_color_with<W: Hittable>(
        &self,
        i: u64,
        j: u64,
        world: &W,
        samples: &Vec<SampleDraws>,
    ) -> (c: Color)
        requires
            samples@.len() == self@.samples_per_pixel,
            forall|k: int|
                0 <= k < samples@.len() ==> (#[trigger] samples@[k]).bounces@.len()
                    >= self@.max_depth,
        ensures
            c@ == self@.pixel_color(*world, i as int, j as int, sample_views(samples@)),
    {
        let mut pixel_color = Color::new(Fixed::zero(), Fixed::zero(), Fixed::zero());
        let ghost all = sample_views(samples@);
        let mut k: usize = 0;
        while k < samples.len()
            invariant
                k <= samples@.len(),
                all == sample_views(samples@),
                forall|k: int|
                    0 <= k < samples@.len() ==> (#[trigger] samples@[k]).bounces@.len()
                        >= self@.max_depth,
                pixel_color@ == self@.sample_sum(*world, i as int, j as int, all.take(k as int)),
            decreases samples@.len() - k,
        {
            let sample = &samples[k];
            let r = self.sample_ray(i, j, sample.offset, sample.disk);
            let seen = self.ray_color_with(&r, self.max_depth, world, &sample.bounces, 0);
            pixel_color.add_assign(seen);
            proof {
                let longer = all.take(k as int + 1);
                assert(longer.drop_last() =~= all.take(k as int));
                assert(longer.last() == samples@[k as int]@);
                assert(bounce_views(sample.bounces@).skip(0) =~= bounce_views(sample.bounces@));
                assert(seen@ == self@.sample_color(*world, i as int, j as int, longer.last()));
            }
            k = k + 1;
        }
        proof {
            assert(all.take(samples@.len() as int) =~= all);
        }
        pixel_color.mul_scalar(self.pixel_samples_scale)
    }

    /// One row of the image for given draws, one sequence of sample draws
    /// for each pixel of the row.
    pub fn render_row_with<W: Hittable>(
        &self,
        j: u64,
        world: &W,
        draws: &Vec<Vec<SampleDraws>>,
    ) -> (row: Vec<Color>)
        requires
            draws@.len() == self@.image_width,
            forall|i: int| 0 <= i < draws@.len() ==> self@.enough((#[trigger] draws@[i])@),
        ensures
            row@.len() == self@.image_width,
            forall|i: int|
                0 <= i < row@.len() ==> (#[trigger] row@[i])@ == self@.pixel_color(
                    *world,
                    i,
                    j as int,
                    sample_views(draws@[i]@),
                ),
    {
        let mut row: Vec<Color> = Vec::new();
        let mut i: usize = 0;
        while i < draws.len()
            invariant
                i <= draws@.len(),
                draws@.len() == self@.image_width,
                forall|i: int| 0 <= i < draws@.len() ==> self@.enough((#[trigger] draws@[i])@),
                row@.len() == i,
                forall|k: int|
                    0 <= k < row@.len() ==> (#[trigger] row@[k])@ == self@.pixel_color(
                        *world,
                        k,
                        j as int,
                        sample_views(draws@[k]@),
                    ),
            decreases draws@.len() - i,
        {
            assert(self@.enough(draws@[i as int]@));
            let c = self.pixel_color_with(i as u64, j, world, &draws[i]);
            row.push(c);
            i = i + 1;
        }
        row
    }

    /// The image for given draws, one sequence of sample draws for each
    /// pixel, by rows. The image is a function of the camera, the scene and
    /// the draws: rendering twice from the same draws gives the same image.
    pub fn render_with<W: Hittable>(&self, world: &W, draws: &Vec<Vec<Vec<SampleDraws>>>) -> (image:
        Vec<Vec<Color>>)
        requires
            draws@.len() == self@.image_height,
            forall|j: int|
                0 <= j < draws@.len() ==> (#[trigger] draws@[j])@.len() == self@.image_width,
            forall|j: int, i: int|
                0 <= j < draws@.len() && 0 <= i < self@.image_width ==> self@.enough(
                    (#[trigger] draws@[j]@[i])@,
                ),
        ensures
            image@.len() == self@.image_height,
            forall|j: int|
                0 <= j < image@.len() ==> (#[trigger] image@[j])@.len() == self@.image_width,
            forall|j: int, i: int|
                0 <= j < image@.len() && 0 <= i < self@.image_width ==> (#[trigger] image@[j]@[i])@
                    == self@.pixel_color(*world, i, j, sample_views(draws@[j]@[i]@)),
    {
        let mut image: Vec<Vec<Color>> = Vec::new();
        let mut j: usize = 0;
        while j < draws.len()
            invariant
                j <= draws@.len(),
                draws@.len() == self@.image_height,
                forall|j: int|
                    0 <= j < draws@.len() ==> (#[trigger] draws@[j])@.len() == self@.image_width,
                forall|j: int, i: int|
                    0 <= j < draws@.len() && 0 <= i < self@.image_width ==> self@.enough(
                        (#[trigger] draws@[j]@[i])@,
                    ),
                image@.len() == j,
                forall|k: int|
                    0 <= k < image@.len() ==> (#[trigger] image@[k])@.len() == self@.image_width,
                forall|k: int, i: int|
                    0 <= k < image@.len() && 0 <= i < self@.image_width ==> (
                    #[trigger] image@[k]@[i])@ == self@.pixel_color(
                        *world,
                        i,
                        k,
                        sample_views(draws@[k]@[i]@),
                    ),
            decreases draws@.len() - j,
        {
            let row_draws = &draws[j];
            assert forall|i: int| 0 <= i < row_draws@.len() implies self@.enough(
                (#[trigger] row_draws@[i])@,
            ) by {
                assert(self@.enough(draws@[j as int]@[i]@));
            }
            let row = self.render_row_with(j as u64, world, row_draws);
            image.push(row);
            j = j + 1;
        }
        image
    }

    /// One row of the image, from left to right.
    pub fn render_row<W: Hittable>(&self, j: u64, world: &W, rng: &mut StdRng) -> (row: Vec<Color>)
        ensures
            row@.len() == self@.image_width,
            forall|i: int|
                0 <= i < row@.len() ==> self@.pixel(*world, i, j as int, (#[trigger] row@[i])@),
    {
        let mut row: Vec<Color> = Vec::new();
        let mut i: u64 = 0;
        while i < self.image_width
            invariant
                i <= self.image_width,
                row@.len() == i,
                forall|k: int|
                    0 <= k < row@.len() ==> self@.pixel(*world, k, j as int, (#[trigger] row@[k])@),
            decreases self.image_width - i,
        {
            let c = self.pixel_color(i, j, world, rng);
            row.push(c);
            i = i + 1;
        }
        row
    }

    /// The image, row by row from the top, each row from left to right.
    pub fn render<W: Hittable>(&self, world: &W, rng: &mut StdRng) -> (image: Vec<Vec<Color>>)
        ensures
            image@.len() == self@.image_height,
            forall|j: int|
                0 <= j < image@.len() ==> (#[trigger] image@[j])@.len() == self@.image_width,
            forall|j: int, i: int|
                0 <= j < image@.len() && 0 <= i < self@.image_width ==> self@.pixel(
                    *world,
                    i,
                    j,
                    (#[trigger] image@[j]@[i])@,
                ),
    {
        let mut image: Vec<Vec<Color>> = Vec::new();
        let mut j: u64 = 0;
        while j < self.image_height
            invariant
                j <= self.image_height,
                image@.len() == j,
                forall|k: int|
                    0 <= k < image@.len() ==> (#[trigger] image@[k])@.len() == self@.image_width,
                forall|k: int, i: int|
                    0 <= k < image@.len() && 0 <= i < self@.image_width ==> self@.pixel(
                        *world,
                        i,
                        k,
                        (#[trigger] image@[k]@[i])@,
                    ),
            decreases self.image_height - j,
        {
            let row = self.render_row(j, world, rng);
            image.push(row);
            j = j + 1;
        }
        image
    }
}

} // verus!
