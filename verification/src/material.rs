//! Surface materials: how a ray that strikes a surface goes on.
//!
//! A material either absorbs the ray or sends out one scattered ray together
//! with the colour by which what that ray sees is multiplied. The three
//! kinds are diffuse ([`Lambertian`]), mirror-like ([`Metal`]) and
//! transparent ([`Dielectric`]); [`AnyMaterial`] is their union, which a
//! surface holds.
//!
//! Scattering consumes randomness. Its model, [`MaterialModel::scatter`], is
//! a function of the random values drawn, a [`Draw`];
//! [`Material::scatter_with`] computes it for given values, and
//! [`Material::scatter`] draws them.
use crate::color::Color;
use crate::accuracy::{
    from_center, lemma_product_bound, lemma_refract_straight, lemma_rounding, lemma_unit_length,
};
use crate::fixed::{
    fx_add, fx_div, fx_max, fx_min, fx_mul, fx_sqrt, fx_sub, lemma_mul_one, lemma_sqrt_bounds,
    lemma_square_nonnegative, magnitude, Fixed, SCALE,
};
use crate::hit::{HitModel, HitRecord};
use crate::random::random_range;
use crate::ray::{Ray, RayModel};
use crate::vec3::{
    dot, exact_dot, is_unit_sample, lemma_fallback_is_unit_sample, nearly_unit,
    random_unit_vector, reflect, refract, sphere_fallback, unit_vector, within, zero, Vec3, V3,
};
use crate::views::opt_view;
use rand::rngs::StdRng;
use vstd::prelude::*;

verus! {

/// The mathematical model of a [`ScatterResult`].
pub struct ScatterModel {
    pub attenuation: V3,
    pub scattered: RayModel,
}

/// The random values that one scattering may consume: a direction from the
/// unit sphere and a number from `[0, 1)`.
pub struct Draw {
    pub unit: V3,
    pub uniform: int,
}

impl Draw {
    /// Whether the random source can produce these values.
    pub open spec fn possible(self) -> bool {
        is_unit_sample(self.unit) && 0 <= self.uniform < SCALE
    }
}

/// The mathematical model of a material: its kind and parameters.
pub enum MaterialModel {
    Lambertian { albedo: V3 },
    Metal { albedo: V3, fuzz: int },
    Dielectric { refraction_index: int },
}

/// White, the attenuation of a material that absorbs nothing.
pub open spec fn white() -> V3 {
    V3 { x: SCALE as int, y: SCALE as int, z: SCALE as int }
}

/// Direction in which a diffuse surface scatters: the normal plus the drawn
/// unit vector, or the normal alone where that sum nearly vanishes.
pub open spec fn diffuse_direction(normal: V3, unit: V3) -> V3 {
    let direction = normal.plus(unit);
    if direction.near_zero() {
        normal
    } else {
        direction
    }
}

/// Direction in which a metal scatters: the mirror image of the incoming
/// direction, at unit length, perturbed by `fuzz` times the drawn unit
/// vector.
pub open spec fn metal_direction(incoming: V3, normal: V3, fuzz: int, unit: V3) -> V3 {
    incoming.reflect(normal).unit().plus(unit.scaled(fuzz))
}

/// Ratio of refractive indices that a ray meets: the reciprocal of the
/// material's index when it enters through the front face, the index itself
/// when it leaves.
pub open spec fn refraction_ratio(refraction_index: int, front_face: bool) -> int {
    if front_face {
        fx_div(SCALE as int, refraction_index)
    } else {
        refraction_index
    }
}

/// Cosine of the angle between the reversed unit direction and the normal,
/// capped at one.
pub open spec fn cos_incidence(unit_direction: V3, normal: V3) -> int {
    fx_min(unit_direction.negated().dot(normal), SCALE as int)
}

/// Sine that belongs to a cosine.
pub open spec fn sin_incidence(cos_theta: int) -> int {
    fx_sqrt(fx_sub(SCALE as int, fx_mul(cos_theta, cos_theta)))
}

/// Whether Snell's law has no solution, so that the ray is reflected
/// whatever is drawn: total internal reflection.
pub open spec fn cannot_refract(ratio: int, cos_theta: int) -> bool {
    fx_mul(ratio, sin_incidence(cos_theta)) > SCALE
}

/// Fifth power of a raw count.
pub open spec fn fifth_power(x: int) -> int {
    fx_mul(fx_mul(fx_mul(fx_mul(x, x), x), x), x)
}

/// Schlick's approximation of the share of light that a transparent surface
/// reflects: `r0 + (1 - r0) * (1 - cosine)^5` with
/// `r0 = ((1 - index) / (1 + index))^2`.
pub open spec fn schlick(cosine: int, refraction_index: int) -> int {
    let root = fx_div(fx_sub(SCALE as int, refraction_index), fx_add(SCALE as int, refraction_index));
    let r0 = fx_mul(root, root);
    fx_add(r0, fx_mul(fx_sub(SCALE as int, r0), fifth_power(fx_sub(SCALE as int, cosine))))
}

/// Whether a transparent surface reflects the ray: always under total
/// internal reflection, else when the drawn number is below the reflectance.
pub open spec fn dielectric_reflects(ratio: int, cos_theta: int, uniform: int) -> bool {
    cannot_refract(ratio, cos_theta) || schlick(cos_theta, ratio) > uniform
}

/// Direction in which a transparent surface sends the ray on.
pub open spec fn dielectric_direction(
    refraction_index: int,
    incoming: V3,
    normal: V3,
    front_face: bool,
    uniform: int,
) -> V3 {
    let ratio = refraction_ratio(refraction_index, front_face);
    let unit_direction = incoming.unit();
    let cos_theta = cos_incidence(unit_direction, normal);
    if dielectric_reflects(ratio, cos_theta, uniform) {
        unit_direction.reflect(normal)
    } else {
        unit_direction.refract(normal, ratio)
    }
}

impl MaterialModel {
    /// What the material does with a ray that hit it, for given random
    /// values: the attenuation and the scattered ray, which starts at the
    /// point hit. None of the three kinds absorbs.
    pub open spec fn scatter(self, ray_in: RayModel, hit: HitModel, draw: Draw) -> Option<
        ScatterModel,
    > {
        match self {
            MaterialModel::Lambertian { albedo } => Some(
                ScatterModel {
                    attenuation: albedo,
                    scattered: RayModel {
                        origin: hit.p,
                        direction: diffuse_direction(hit.normal, draw.unit),
                    },
                },
            ),
            MaterialModel::Metal { albedo, fuzz } => Some(
                ScatterModel {
                    attenuation: albedo,
                    scattered: RayModel {
                        origin: hit.p,
                        direction: metal_direction(ray_in.direction, hit.normal, fuzz, draw.unit),
                    },
                },
            ),
            MaterialModel::Dielectric { refraction_index } => Some(
                ScatterModel {
                    attenuation: white(),
                    scattered: RayModel {
                        origin: hit.p,
                        direction: dielectric_direction(
                            refraction_index,
                            ray_in.direction,
                            hit.normal,
                            hit.front_face,
                            draw.uniform,
                        ),
                    },
                },
            ),
        }
    }
}

/// A metal scatters within its fuzz of the mirror direction: the scattered
/// direction is the unit mirror direction plus an offset, the drawn unit
/// vector times the fuzz, whose components are at most the fuzz and whose
/// exact length is at most the fuzz up to the rounding of the drawn vector.
pub proof fn lemma_metal_spread(incoming: V3, normal: V3, fuzz: int, unit: V3)
    requires
        0 <= fuzz <= SCALE,
        is_unit_sample(unit),
    ensures
        ({
            let mirror = incoming.reflect(normal).unit();
            let offset = unit.scaled(fuzz);
            let direction = metal_direction(incoming, normal, fuzz, unit);
            &&& direction.x == mirror.x + offset.x
            &&& direction.y == mirror.y + offset.y
            &&& direction.z == mirror.z + offset.z
            &&& within(offset, fuzz)
            &&& 1_000_000_000_000 * exact_dot(offset, offset) <= (fuzz * fuzz) * (
            1_000_000_000_000 + 935)
        }),
{
    let mirror = incoming.reflect(normal).unit();
    let offset = unit.scaled(fuzz);
    if incoming.reflect(normal) != zero() {
        lemma_unit_length(incoming.reflect(normal));
    } else {
        assert(mirror == zero()) by {
            assert(0int * 2_147_483_648 == 0);
            assert(zero().widened() == zero());
        }
    }
    lemma_shrunk(unit.x, fuzz);
    lemma_shrunk(unit.y, fuzz);
    lemma_shrunk(unit.z, fuzz);
    let uu = exact_dot(unit, unit);
    let ff = fuzz * fuzz;
    assert(ff * uu == ff * (unit.x * unit.x) + ff * (unit.y * unit.y) + ff * (unit.z * unit.z))
        by (nonlinear_arith)
        requires
            uu == unit.x * unit.x + unit.y * unit.y + unit.z * unit.z,
    ;
    assert(ff * uu <= ff * (1_000_000_000_000 + 935)) by (nonlinear_arith)
        requires
            uu <= 1_000_000_000_000 + 935,
            ff == fuzz * fuzz,
    ;
}

/// A component of at most one in magnitude, times a fuzz between zero and
/// one, is at most the fuzz, and no larger than the exact product.
proof fn lemma_shrunk(u: int, fuzz: int)
    requires
        magnitude(u) <= SCALE,
        0 <= fuzz <= SCALE,
    ensures
        magnitude(fx_mul(u, fuzz)) <= fuzz,
        1_000_000_000_000 * (fx_mul(u, fuzz) * fx_mul(u, fuzz)) <= (fuzz * fuzz) * (u * u),
{
    lemma_product_bound(u, fuzz, SCALE as int, fuzz);
    assert((SCALE as int) * fuzz == fuzz * SCALE) by (nonlinear_arith);
    lemma_rounding(u, fuzz, fuzz);
    let o = fx_mul(u, fuzz);
    let p = u * fuzz;
    let so = 1_000_000 * o;
    assert(so * so <= p * p) by (nonlinear_arith)
        requires
            (p >= 0 && 0 <= so <= p) || (p <= 0 && p <= so <= 0),
    ;
    assert(so * so == 1_000_000_000_000 * (o * o)) by (nonlinear_arith)
        requires
            so == 1_000_000 * o,
    ;
    assert(p * p == (fuzz * fuzz) * (u * u)) by (nonlinear_arith)
        requires
            p == u * fuzz,
    ;
}

/// A material whose refractive index is one never reflects totally: Snell's
/// law has a solution at every angle of incidence.
pub proof fn lemma_index_one_can_refract(front_face: bool, cos_theta: int)
    ensures
        refraction_ratio(SCALE as int, front_face) == SCALE,
        !cannot_refract(SCALE as int, cos_theta),
{
    lemma_mul_one(SCALE as int);
    assert(SCALE * SCALE == 1_000_000_000_000int);
    let square = fx_mul(cos_theta, cos_theta);
    lemma_square_nonnegative(cos_theta);
    lemma_sqrt_bounds(fx_sub(SCALE as int, square));
    lemma_mul_one(sin_incidence(cos_theta));
}

/// With a refractive index of one, the surface sends the ray on refracted
/// at the ratio one unless the drawn number is below the reflectance.
pub proof fn lemma_index_one_direction(incoming: V3, normal: V3, front_face: bool, uniform: int)
    ensures
        dielectric_direction(SCALE as int, incoming, normal, front_face, uniform) == if schlick(
            cos_incidence(incoming.unit(), normal),
            SCALE as int,
        ) > uniform {
            incoming.unit().reflect(normal)
        } else {
            incoming.unit().refract(normal, SCALE as int)
        },
{
    lemma_index_one_can_refract(front_face, cos_incidence(incoming.unit(), normal));
}

/// With a refractive index of one the ray passes straight through unless
/// the drawn number is below the reflectance: no component of the scattered
/// direction differs from that of the unit incoming direction by more than
/// 8065 millionths, whichever face is struck.
pub proof fn lemma_index_one_straight(incoming: V3, normal: V3, front_face: bool, uniform: int)
    requires
        incoming != zero(),
        nearly_unit(normal),
        incoming.unit().negated().dot(normal) >= 0,
        schlick(cos_incidence(incoming.unit(), normal), SCALE as int) <= uniform,
    ensures
        within(
            from_center(
                incoming.unit(),
                dielectric_direction(SCALE as int, incoming, normal, front_face, uniform),
            ),
            8_065,
        ),
{
    lemma_index_one_direction(incoming, normal, front_face, uniform);
    lemma_unit_length(incoming);
    lemma_refract_straight(incoming.unit(), normal);
}

/// What a material makes of a ray: the colour by which the light that comes
/// back along the scattered ray is multiplied, and that ray.
#[derive(Clone, Copy, Debug, PartialEq, Eq, Structural)]
pub struct ScatterResult {
    pub attenuation: Color,
    pub scattered: Ray,
}

impl View for ScatterResult {
    type V = ScatterModel;

    open spec fn view(&self) -> ScatterModel {
        ScatterModel { attenuation: self.attenuation@, scattered: self.scattered@ }
    }
}

/// How a surface scatters light.
pub trait Material {
    /// What `scatter` returns when the random source yields `draw`; `None`
    /// means that the ray is absorbed.
    spec fn scatter_model(&self, ray_in: RayModel, hit: HitModel, draw: Draw) -> Option<
        ScatterModel,
    >;

    /// Scatters `ray_in`, which struck the surface as `hit_record` says,
    /// with `unit` and `uniform` in place of random draws.
    fn scatter_with(&self, ray_in: &Ray, hit_record: &HitRecord, unit: Vec3, uniform: Fixed) -> (res:
        Option<ScatterResult>)
        ensures
            opt_view(res) == self.scatter_model(
                ray_in@,
                hit_record@,
                Draw { unit: unit@, uniform: uniform@ },
            ),
    ;

    /// Scatters `ray_in`, which struck the surface as `hit_record` says,
    /// drawing from `rng` the random values it needs. The result is that of
    /// `scatter_with` for some values that the random source can produce.
    fn scatter(&self, ray_in: &Ray, hit_record: &HitRecord, rng: &mut StdRng) -> (res: Option<
        ScatterResult,
    >)
        ensures
            exists|draw: Draw|
                draw.possible() && opt_view(res) == #[trigger] self.scatter_model(
                    ray_in@,
                    hit_record@,
                    draw,
                ),
    ;
}

/// A diffuse material, which scatters about the normal and tints by its
/// albedo.
#[derive(Clone, Copy, Debug, PartialEq, Eq, Structural)]
pub struct Lambertian {
    albedo: Color,
}

impl View for Lambertian {
    type V = MaterialModel;

    closed spec fn view(&self) -> MaterialModel {
        MaterialModel::Lambertian { albedo: self.albedo@ }
    }
}

impl Lambertian {
    /// The diffuse material of the given albedo.
    pub fn new(albedo: Color) -> (r: Lambertian)
        ensures
            r@ == (MaterialModel::Lambertian { albedo: albedo@ }),
    {
        Lambertian { albedo }
    }
}

impl Material for Lambertian {
    open spec fn scatter_model(&self, ray_in: RayModel, hit: HitModel, draw: Draw) -> Option<
        ScatterModel,
    > {
        self@.scatter(ray_in, hit, draw)
    }

    fn scatter_with(&self, ray_in: &Ray, hit_record: &HitRecord, unit: Vec3, uniform: Fixed) -> (res:
        Option<ScatterResult>)
        ensures
            res matches Some(s) && s.attenuation@ == self@->Lambertian_albedo,
    {
        let mut scatter_direction = hit_record.normal.add(unit);
        if scatter_direction.near_zero() {
            scatter_direction = hit_record.normal;
        }
        Some(
            ScatterResult {
                attenuation: self.albedo,
                scattered: Ray::new(hit_record.p, scatter_direction),
            },
        )
    }

    fn scatter(&self, ray_in: &Ray, hit_record: &HitRecord, rng: &mut StdRng) -> (res: Option<
        ScatterResult,
    >)
        ensures
            res matches Some(s) && s.attenuation@ == self@->Lambertian_albedo,
    {
        let unit = random_unit_vector(rng);
        let res = self.scatter_with(ray_in, hit_record, unit, Fixed::zero());
        assert(Draw { unit: unit@, uniform: 0 }.possible());
        res
    }
}

/// A metal, which mirrors the ray, blurred by its fuzz, and tints by its
/// albedo.
#[derive(Clone, Copy, Debug, PartialEq, Eq, Structural)]
pub struct Metal {
    albedo: Color,
    fuzz: Fixed,
}

impl View for Metal {
    type V = MaterialModel;

    closed spec fn view(&self) -> MaterialModel {
        MaterialModel::Metal { albedo: self.albedo@, fuzz: self.fuzz@ }
    }
}

impl Metal {
    /// The metal of the given albedo and fuzz. The fuzz is clamped to
    /// `[0, 1]`: a negative one counts as zero, one above one as one.
    pub fn new(albedo: Color, fuzz: Fixed) -> (r: Metal)
        ensures
            r@ == (MaterialModel::Metal {
                albedo: albedo@,
                fuzz: fx_max(0, fx_min(fuzz@, SCALE as int)),
            }),
    {
        Metal { albedo, fuzz: fuzz.min(Fixed::one()).max(Fixed::zero()) }
    }
}

impl Material for Metal {
    open spec fn scatter_model(&self, ray_in: RayModel, hit: HitModel, draw: Draw) -> Option<
        ScatterModel,
    > {
        self@.scatter(ray_in, hit, draw)
    }

    fn scatter_with(&self, ray_in: &Ray, hit_record: &HitRecord, unit: Vec3, uniform: Fixed) -> (res:
        Option<ScatterResult>)
    {
        let mut reflected = reflect(ray_in.direction(), hit_record.normal);
        reflected = unit_vector(reflected).add(self.fuzz.mul_vec(unit));
        Some(
            ScatterResult {
                attenuation: self.albedo,
                scattered: Ray::new(hit_record.p, reflected),
            },
        )
    }

    fn scatter(&self, ray_in: &Ray, hit_record: &HitRecord, rng: &mut StdRng) -> (res: Option<
        ScatterResult,
    >)
    {
        let unit = random_unit_vector(rng);
        let res = self.scatter_with(ray_in, hit_record, unit, Fixed::zero());
        assert(Draw { unit: unit@, uniform: 0 }.possible());
        res
    }
}

/// A transparent material, which reflects or refracts the ray and absorbs
/// nothing.
#[derive(Clone, Copy, Debug, PartialEq, Eq, Structural)]
pub struct Dielectric {
    refraction_index: Fixed,
}

impl View for Dielectric {
    type V = MaterialModel;

    closed spec fn view(&self) -> MaterialModel {
        MaterialModel::Dielectric { refraction_index: self.refraction_index@ }
    }
}

/// Schlick's approximation of the reflectance at the given cosine of the
/// angle of incidence and ratio of refractive indices.
pub fn reflectance(cosine: Fixed, refraction_index: Fixed) -> (r: Fixed)
    ensures
        r@ == schlick(cosine@, refraction_index@),
{
    let one = Fixed::one();
    let mut r0 = one.sub(refraction_index).div(one.add(refraction_index));
    r0 = r0.mul(r0);
    let x = one.sub(cosine);
    r0.add(one.sub(r0).mul(x.mul(x).mul(x).mul(x).mul(x)))
}

impl Dielectric {
    /// The transparent material of the given refractive index, relative to
    /// the medium around it.
    pub fn new(refraction_index: Fixed) -> (r: Dielectric)
        ensures
            r@ == (MaterialModel::Dielectric { refraction_index: refraction_index@ }),
    {
        Dielectric { refraction_index }
    }

    /// The ratio of refractive indices, the unit direction of the ray and
    /// the cosine of its angle of incidence.
    fn incidence(&self, ray_in: &Ray, hit_record: &HitRecord) -> (r: (Fixed, Vec3, Fixed))
        ensures
            r.0@ == refraction_ratio(self.refraction_index@, hit_record@.front_face),
            r.1@ == ray_in@.direction.unit(),
            r.2@ == cos_incidence(r.1@, hit_record@.normal),
    {
        let ri = if hit_record.front_face {
            Fixed::one().div(self.refraction_index)
        } else {
            self.refraction_index
        };
        let unit_direction = unit_vector(ray_in.direction());
        let cos_theta = dot(&unit_direction.neg(), &hit_record.normal).min(Fixed::one());
        (ri, unit_direction, cos_theta)
    }

    /// Whether the ray is reflected whatever is drawn.
    fn reflects_totally(ri: Fixed, cos_theta: Fixed) -> (r: bool)
        ensures
            r == cannot_refract(ri@, cos_theta@),
    {
        let sin_theta = Fixed::one().sub(cos_theta.mul(cos_theta)).sqrt();
        ri.mul(sin_theta).gt(Fixed::one())
    }

    /// The scattered ray, once it is decided whether the surface reflects.
    fn send_on(hit_record: &HitRecord, unit_direction: Vec3, ri: Fixed, reflects: bool) -> (res:
        ScatterResult)
        ensures
            res@ == (ScatterModel {
                attenuation: white(),
                scattered: RayModel {
                    origin: hit_record@.p,
                    direction: if reflects {
                        unit_direction@.reflect(hit_record@.normal)
                    } else {
                        unit_direction@.refract(hit_record@.normal, ri@)
                    },
                },
            }),
    {
        let attenuation = Color::new(Fixed::one(), Fixed::one(), Fixed::one());
        let direction = if reflects {
            reflect(unit_direction, hit_record.normal)
        } else {
            refract(unit_direction, hit_record.normal, ri)
        };
        ScatterResult { attenuation, scattered: Ray::new(hit_record.p, direction) }
    }
}

impl Material for Dielectric {
    open spec fn scatter_model(&self, ray_in: RayModel, hit: HitModel, draw: Draw) -> Option<
        ScatterModel,
    > {
        self@.scatter(ray_in, hit, draw)
    }

    fn scatter_with(&self, ray_in: &Ray, hit_record: &HitRecord, unit: Vec3, uniform: Fixed) -> (res:
        Option<ScatterResult>)
    {
        let (ri, unit_direction, cos_theta) = self.incidence(ray_in, hit_record);
        let reflects = Dielectric::reflects_totally(ri, cos_theta) || reflectance(
            cos_theta,
            ri,
        ).gt(uniform);
        Some(Dielectric::send_on(hit_record, unit_direction, ri, reflects))
    }

    fn scatter(&self, ray_in: &Ray, hit_record: &HitRecord, rng: &mut StdRng) -> (res: Option<
        ScatterResult,
    >)
    {
        let (ri, unit_direction, cos_theta) = self.incidence(ray_in, hit_record);
        let ghost mut uniform: int = 0;
        let reflects = if Dielectric::reflects_totally(ri, cos_theta) {
            true
        } else {
            let drawn = random_range(rng, Fixed::zero(), Fixed::one());
            proof {
                uniform = drawn@;
            }
            reflectance(cos_theta, ri).gt(drawn)
        };
        let res = Some(Dielectric::send_on(hit_record, unit_direction, ri, reflects));
        proof {
            let draw = Draw { unit: sphere_fallback(), uniform };
            lemma_fallback_is_unit_sample();
            assert(draw.possible());
            assert(opt_view(res) == self.scatter_model(ray_in@, hit_record@, draw));
        }
        res
    }
}

/// Any of the three materials.
#[derive(Clone, Copy, Debug, PartialEq, Eq, Structural)]
pub enum AnyMaterial {
    Lambertian(Lambertian),
    Metal(Metal),
    Dielectric(Dielectric),
}

impl View for AnyMaterial {
    type V = MaterialModel;

    open spec fn view(&self) -> MaterialModel {
        match self {
            AnyMaterial::Lambertian(m) => m@,
            AnyMaterial::Metal(m) => m@,
            AnyMaterial::Dielectric(m) => m@,
        }
    }
}

impl Material for AnyMaterial {
    open spec fn scatter_model(&self, ray_in: RayModel, hit: HitModel, draw: Draw) -> Option<
        ScatterModel,
    > {
        self@.scatter(ray_in, hit, draw)
    }

    fn scatter_with(&self, ray_in: &Ray, hit_record: &HitRecord, unit: Vec3, uniform: Fixed) -> (res:
        Option<ScatterResult>)
    {
        match self {
            AnyMaterial::Lambertian(m) => m.scatter_with(ray_in, hit_record, unit, uniform),
            AnyMaterial::Metal(m) => m.scatter_with(ray_in, hit_record, unit, uniform),
            AnyMaterial::Dielectric(m) => m.scatter_with(ray_in, hit_record, unit, uniform),
        }
    }

    fn scatter(&self, ray_in: &Ray, hit_record: &HitRecord, rng: &mut StdRng) -> (res: Option<
        ScatterResult,
    >)
    {
        match self {
            AnyMaterial::Lambertian(m) => {
                let res = m.scatter(ray_in, hit_record, rng);
                proof {
                    let draw = choose|draw: Draw|
                        draw.possible() && opt_view(res) == #[trigger] m.scatter_model(
                            ray_in@,
                            hit_record@,
                            draw,
                        );
                    assert(opt_view(res) == self.scatter_model(ray_in@, hit_record@, draw));
                }
                res
            },
            AnyMaterial::Metal(m) => {
                let res = m.scatter(ray_in, hit_record, rng);
                proof {
                    let draw = choose|draw: Draw|
                        draw.possible() && opt_view(res) == #[trigger] m.scatter_model(
                            ray_in@,
                            hit_record@,
                            draw,
                        );
                    assert(opt_view(res) == self.scatter_model(ray_in@, hit_record@, draw));
                }
                res
            },
            AnyMaterial::Dielectric(m) => {
                let res = m.scatter(ray_in, hit_record, rng);
                proof {
                    let draw = choose|draw: Draw|
                        draw.possible() && opt_view(res) == #[trigger] m.scatter_model(
                            ray_in@,
                            hit_record@,
                            draw,
                        );
                    assert(opt_view(res) == self.scatter_model(ray_in@, hit_record@, draw));
                }
                res
            },
        }
    }
}

} // verus!
