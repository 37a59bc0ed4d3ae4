//! Spheres, the one kind of surface.
//!
//! A ray `origin + t * direction` strikes the sphere where
//! `|origin + t * direction - center|^2 == radius^2`. With `d` the unit
//! direction, `oc = center - origin`, `h = dot(d, oc)` the distance along
//! the ray to the point nearest the centre and `foot = oc - h * d` the way
//! from that point to the centre, the solutions lie at the distances
//! `h - half` and `h + half` with `half^2 = radius^2 - |foot|^2`. This is
//! the quadratic `a t^2 - 2 (direction . oc) t + |oc|^2 - radius^2 = 0`
//! divided by `a = |direction|^2`; its discriminant has the sign of
//! `radius^2 - |foot|^2`, which is formed here from unrounded squares so
//! that a small radius keeps its digits.
use crate::accuracy::{in_scene, lemma_point_on_sphere, lemma_unit_length, near_sphere};
use crate::fixed::{
    floor_sqrt, floor_sqrt_of, fx_add, fx_max, fx_sub, lemma_floor_sqrt_exists,
    lemma_floor_sqrt_is, lemma_product_sign, lemma_sat_monotone, magnitude_of, sat, signed_sat,
    Fixed, MAX_RAW,
};
use crate::hit::{HitModel, HitRecord, Hittable};
use crate::interval::{Interval, Span};
use crate::material::{AnyMaterial, MaterialModel};
use crate::ray::{Ray, RayModel};
use crate::vec3::{
    dot, exact_dot, lemma_dot_commutes, lemma_dot_negated, lemma_per_length_monotone, nearly_unit,
    parameter_at, square_sum, unit_vector, zero, Point3, Vec3, V3,
};
use crate::views::opt_view;
use vstd::prelude::*;

verus! {

/// The mathematical model of a [`Sphere`].
pub struct SphereModel {
    pub center: V3,
    pub radius: int,
    pub mat: MaterialModel,
}

impl SphereModel {
    /// From the ray's origin to the centre.
    pub open spec fn oc(self, r: RayModel) -> V3 {
        self.center.minus(r.origin)
    }

    /// Distance along the ray from its origin to the point nearest the
    /// centre: the unit direction dotted with `oc`.
    pub open spec fn h(self, r: RayModel) -> int {
        r.direction.unit().dot(self.oc(r))
    }

    /// From the point of the ray nearest the centre to the centre.
    pub open spec fn foot(self, r: RayModel) -> V3 {
        self.oc(r).minus(r.direction.unit().scaled(self.h(r)))
    }

    /// The discriminant: the squared radius less the squared distance of the
    /// ray from the centre, both exact, in millionths of a millionth. The
    /// ray's line meets the sphere if it is not negative.
    pub open spec fn discriminant(self, r: RayModel) -> int {
        self.radius * self.radius - exact_dot(self.foot(r), self.foot(r))
    }

    /// Half the length of the chord that the sphere cuts from the ray's
    /// line: the square root of the discriminant, rounded down.
    pub open spec fn half_chord(self, r: RayModel) -> int {
        sat(floor_sqrt(self.discriminant(r)))
    }

    /// The smaller root, `(h - half_chord) / |direction|`.
    pub open spec fn near_root(self, r: RayModel) -> int {
        r.direction.per_length(fx_sub(self.h(r), self.half_chord(r)))
    }

    /// The larger root, `(h + half_chord) / |direction|`.
    pub open spec fn far_root(self, r: RayModel) -> int {
        r.direction.per_length(fx_add(self.h(r), self.half_chord(r)))
    }

    /// The parameter at which the ray counts as striking the sphere: the
    /// smaller root if it lies strictly inside the range, else the larger
    /// one if that does; none where the ray has no direction, the
    /// discriminant is negative or both roots lie outside.
    pub open spec fn root(self, r: RayModel, ray_t: Span) -> Option<int> {
        if r.direction == zero() || self.discriminant(r) < 0 {
            None
        } else if ray_t.surrounds(self.near_root(r)) {
            Some(self.near_root(r))
        } else if ray_t.surrounds(self.far_root(r)) {
            Some(self.far_root(r))
        } else {
            None
        }
    }

    /// The outward normal at a point of the sphere: the unit vector from the
    /// centre to the point. Where the point cannot be told from the centre,
    /// which happens to a sphere smaller than a millionth, the normal
    /// faces the ray.
    pub open spec fn outward_normal(self, r: RayModel, p: V3) -> V3 {
        if p.minus(self.center) == zero() {
            r.direction.unit().negated()
        } else {
            p.minus(self.center).unit()
        }
    }

    /// The record of the intersection at parameter `t`.
    pub open spec fn record_at(self, r: RayModel, t: int) -> HitModel {
        let p = r.at(t);
        HitModel {
            p,
            normal: V3 { x: 0, y: 0, z: 0 },
            t,
            front_face: false,
            mat: self.mat,
        }.with_face_normal(r, self.outward_normal(r, p))
    }

    /// The intersection of the ray with the sphere inside the range.
    pub open spec fn hit(self, r: RayModel, ray_t: Span) -> Option<HitModel> {
        match self.root(r, ray_t) {
            Some(t) => Some(self.record_at(r, t)),
            None => None,
        }
    }
}

/// The roots are in order.
pub proof fn lemma_roots_ordered(s: SphereModel, r: RayModel)
    requires
        s.discriminant(r) >= 0,
    ensures
        s.near_root(r) <= s.far_root(r),
{
    let half = s.half_chord(r);
    lemma_floor_sqrt_exists(s.discriminant(r));
    lemma_sat_monotone(s.h(r) - half, s.h(r) + half);
    lemma_per_length_monotone(r.direction, fx_sub(s.h(r), half), fx_add(s.h(r), half));
}

/// Turning a vector of unit length around leaves it of unit length.
pub proof fn lemma_negated_unit(u: V3)
    requires
        nearly_unit(u),
    ensures
        nearly_unit(u.negated()),
        u.negated() == (V3 { x: -u.x, y: -u.y, z: -u.z }),
{
    assert((-u.x) * (-u.x) == u.x * u.x && (-u.y) * (-u.y) == u.y * u.y && (-u.z) * (-u.z) == u.z
        * u.z) by (nonlinear_arith);
}

/// The normal of a record of a ray with a direction has unit length up to
/// rounding and does not point along the ray.
pub proof fn lemma_normal_opposes(s: SphereModel, r: RayModel, t: int)
    requires
        r.direction != zero(),
    ensures
        s.record_at(r, t).normal.dot(r.direction) <= 0,
        nearly_unit(s.record_at(r, t).normal),
{
    let p = r.at(t);
    let outward = s.outward_normal(r, p);
    lemma_unit_length(r.direction);
    lemma_negated_unit(r.direction.unit());
    if p.minus(s.center) != zero() {
        lemma_unit_length(p.minus(s.center));
    }
    lemma_negated_unit(outward);
    lemma_dot_commutes(r.direction, outward);
    lemma_dot_negated(r.direction, outward);
}

/// A sphere with a material.
#[derive(Clone, Copy, Debug, PartialEq, Eq, Structural)]
pub struct Sphere {
    center: Point3,
    radius: Fixed,
    mat: AnyMaterial,
}

impl View for Sphere {
    type V = SphereModel;

    closed spec fn view(&self) -> SphereModel {
        SphereModel { center: self.center@, radius: self.radius@, mat: self.mat@ }
    }
}

impl Sphere {
    /// The sphere about `center`; a negative radius counts as zero.
    pub fn new(center: Point3, radius: Fixed, mat: AnyMaterial) -> (r: Sphere)
        ensures
            r@ == (SphereModel { center: center@, radius: fx_max(radius@, 0), mat: mat@ }),
    {
        Sphere { center, radius: radius.max(Fixed::zero()), mat }
    }
}

impl Hittable for Sphere {
    open spec fn hit_model(&self, r: RayModel, ray_t: Span) -> Option<HitModel> {
        self@.hit(r, ray_t)
    }

    proof fn lemma_hit_inside(&self, r: RayModel, ray_t: Span) {
        match self@.root(r, ray_t) {
            Some(t) => {
                lemma_normal_opposes(self@, r, t);
            },
            None => {},
        }
    }

    proof fn lemma_hit_narrowed(&self, r: RayModel, ray_t: Span, upper: int) {
        if self@.discriminant(r) >= 0 {
            lemma_roots_ordered(self@, r);
        }
    }

    /// Solves the quadratic for the ray parameter. The ray misses exactly
    /// when it has no direction, the discriminant is negative, or both
    /// roots lie outside the open range.
    fn hit(&self, r: &Ray, ray_t: Interval) -> (res: Option<HitRecord>)
        ensures
            res is None <==> (r@.direction == zero() || self@.discriminant(r@) < 0 || (
            !ray_t@.surrounds(self@.near_root(r@)) && !ray_t@.surrounds(self@.far_root(r@)))),
            in_scene(self@, r@) && ray_t@.min >= -MAX_RAW ==> (res matches Some(rec)
                ==> near_sphere(self@, r@, rec@.p)),
    {
        let direction = r.direction();
        if direction.x().raw() == 0 && direction.y().raw() == 0 && direction.z().raw() == 0 {
            return None;
        }
        let unit_direction = unit_vector(direction);
        let oc = self.center.sub(r.origin());

        let h = dot(&unit_direction, &oc);
        let foot = oc.sub(unit_direction.mul_scalar(h));

        let radius = magnitude_of(self.radius.raw());
        assert(radius * radius <= 0x4000_0000_0000_0000_0000_0000_0000_0000) by (nonlinear_arith)
            requires
                radius <= 0x8000_0000_0000_0000,
        ;
        let radius_squared = radius * radius;
        let foot_squared = square_sum(
            magnitude_of(foot.x().raw()),
            magnitude_of(foot.y().raw()),
            magnitude_of(foot.z().raw()),
        );
        proof {
            lemma_product_sign(self@.radius, self@.radius);
            lemma_product_sign(foot@.x, foot@.x);
            lemma_product_sign(foot@.y, foot@.y);
            lemma_product_sign(foot@.z, foot@.z);
        }
        if radius_squared < foot_squared {
            return None;
        }
        let wide_half = floor_sqrt_of(radius_squared - foot_squared);
        proof {
            lemma_floor_sqrt_is((radius_squared - foot_squared) as int, wide_half as int);
        }
        let half = Fixed::from_raw(signed_sat(false, wide_half));

        let mut root = parameter_at(&direction, h.sub(half));
        if !ray_t.surrounds(root) {
            root = parameter_at(&direction, h.add(half));
            if !ray_t.surrounds(root) {
                return None;
            }
        }

        let mut rec = HitRecord {
            t: root,
            p: r.at(root),
            normal: Vec3::new(Fixed::zero(), Fixed::zero(), Fixed::zero()),
            front_face: false,
            mat: self.mat,
        };

        let from_center = rec.p.sub(self.center);
        let outward_normal = if from_center.x().raw() == 0 && from_center.y().raw() == 0
            && from_center.z().raw() == 0 {
            unit_direction.neg()
        } else {
            unit_vector(from_center)
        };
        rec.set_face_normal(r, outward_normal);

        proof {
            lemma_normal_opposes(self@, r@, root@);
            if in_scene(self@, r@) && ray_t@.min >= -MAX_RAW {
                lemma_point_on_sphere(self@, r@, ray_t@);
            }
        }
        Some(rec)
    }
}

} // verus!
