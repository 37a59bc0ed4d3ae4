//! Three-component vectors over [`Fixed`], used for points, directions and
//! colours alike.
//!
//! The view of a [`Vec3`] is a [`V3`]: a triple of raw counts. Every
//! operation is stated over `V3` by a spec function of the same meaning.
//!
//! Lengths are taken from the exact sum of the squared components in wide
//! integers, and a vector is stretched before it is normalised, so that
//! every vector but the zero vector is normalised to unit length up to six
//! millionths, however short it is.
use crate::accuracy::lemma_unit_length;
use crate::fixed::{
    floor_sqrt, floor_sqrt_of, fx_abs, fx_add, fx_div, fx_min, fx_mul, fx_neg, fx_sqrt, fx_sub,
    lemma_floor_sqrt_exists, lemma_floor_sqrt_is, lemma_mul_commutes, lemma_mul_neg,
    lemma_product_sign, lemma_trunc_div_monotone, magnitude, magnitude_of, sat, signed_sat,
    trunc_div, Fixed, MAX_RAW, SCALE,
};
use crate::random::random_range;
use crate::views::opt_view;
use rand::rngs::StdRng;
use vstd::prelude::*;

verus! {

/// A triple of raw counts: the mathematical model of a [`Vec3`].
pub struct V3 {
    pub x: int,
    pub y: int,
    pub z: int,
}

/// Raw count of two.
pub open spec fn two() -> int {
    2 * SCALE
}

/// Factor by which a short vector is stretched before it is normalised: two
/// to the power 31.
pub const WIDEN_BY: i64 = 2_147_483_648;

/// Whether each component is at most `bound` in magnitude.
pub open spec fn within(v: V3, bound: int) -> bool {
    &&& magnitude(v.x) <= bound
    &&& magnitude(v.y) <= bound
    &&& magnitude(v.z) <= bound
}

/// The exact dot product, in millionths of a millionth.
pub open spec fn exact_dot(v: V3, n: V3) -> int {
    v.x * n.x + v.y * n.y + v.z * n.z
}

/// By how much the exact squared length of `n` misses one, in millionths of
/// a millionth: zero for a vector of exactly unit length.
pub open spec fn unit_defect(n: V3) -> int {
    exact_dot(n, n) - SCALE * SCALE
}

/// Whether a vector has unit length up to rounding: no component exceeds
/// one, and the exact squared length misses one by at most six millionths
/// below and a billionth above.
pub open spec fn nearly_unit(u: V3) -> bool {
    &&& within(u, SCALE as int)
    &&& -6_000_000 <= unit_defect(u) <= 935
}

/// The zero vector.
pub open spec fn zero() -> V3 {
    V3 { x: 0, y: 0, z: 0 }
}

/// Raw count below which a component counts as vanishing: a thousandth.
pub const NEAR_ZERO_RAW: i64 = 1_000;

impl V3 {
    /// Componentwise sum.
    pub open spec fn plus(self, o: V3) -> V3 {
        V3 { x: fx_add(self.x, o.x), y: fx_add(self.y, o.y), z: fx_add(self.z, o.z) }
    }

    /// Componentwise difference.
    pub open spec fn minus(self, o: V3) -> V3 {
        V3 { x: fx_sub(self.x, o.x), y: fx_sub(self.y, o.y), z: fx_sub(self.z, o.z) }
    }

    /// Componentwise product.
    pub open spec fn times(self, o: V3) -> V3 {
        V3 { x: fx_mul(self.x, o.x), y: fx_mul(self.y, o.y), z: fx_mul(self.z, o.z) }
    }

    /// Product with a scalar.
    pub open spec fn scaled(self, t: int) -> V3 {
        V3 { x: fx_mul(self.x, t), y: fx_mul(self.y, t), z: fx_mul(self.z, t) }
    }

    /// Quotient by a scalar.
    pub open spec fn divided(self, t: int) -> V3 {
        V3 { x: fx_div(self.x, t), y: fx_div(self.y, t), z: fx_div(self.z, t) }
    }

    /// Componentwise negation.
    pub open spec fn negated(self) -> V3 {
        V3 { x: fx_neg(self.x), y: fx_neg(self.y), z: fx_neg(self.z) }
    }

    /// Dot product.
    pub open spec fn dot(self, o: V3) -> int {
        fx_add(fx_add(fx_mul(self.x, o.x), fx_mul(self.y, o.y)), fx_mul(self.z, o.z))
    }

    /// Cross product.
    pub open spec fn cross(self, o: V3) -> V3 {
        V3 {
            x: fx_sub(fx_mul(self.y, o.z), fx_mul(self.z, o.y)),
            y: fx_sub(fx_mul(self.z, o.x), fx_mul(self.x, o.z)),
            z: fx_sub(fx_mul(self.x, o.y), fx_mul(self.y, o.x)),
        }
    }

    /// Squared Euclidean length.
    pub open spec fn length_squared(self) -> int {
        self.dot(self)
    }

    /// Euclidean length without the clamp: the integer square root of the
    /// exact sum of the squared components, which is the length in raw
    /// counts rounded down.
    pub open spec fn exact_length(self) -> int {
        floor_sqrt(exact_dot(self, self))
    }

    /// Euclidean length, rounded down.
    pub open spec fn length(self) -> int {
        sat(self.exact_length())
    }

    /// The factor by which the vector is stretched before its length is
    /// taken: `WIDEN_BY` if every component is below `WIDEN_BY` in
    /// magnitude, else one.
    pub open spec fn widening(self) -> int {
        if within(self, WIDEN_BY - 1) {
            WIDEN_BY as int
        } else {
            1
        }
    }

    /// The vector times its widening: a vector of the same direction that
    /// is long enough for its length to be taken exactly enough.
    pub open spec fn widened(self) -> V3 {
        V3 { x: self.x * self.widening(), y: self.y * self.widening(), z: self.z * self.widening() }
    }

    /// A distance in lengths of the vector: `distance / |self|`, rounded
    /// toward zero; zero for the zero vector.
    pub open spec fn per_length(self, distance: int) -> int {
        if self == zero() {
            0
        } else {
            sat(trunc_div(distance * (SCALE * self.widening()), self.widened().exact_length()))
        }
    }

    /// The vector divided by its length: each component of the widened
    /// vector, divided by the exact length of the widened vector. The zero
    /// vector stays as it is.
    pub open spec fn unit(self) -> V3 {
        self.widened().divided(self.widened().exact_length())
    }

    /// Whether every component is smaller in magnitude than a thousandth.
    pub open spec fn near_zero(self) -> bool {
        &&& magnitude(self.x) < NEAR_ZERO_RAW
        &&& magnitude(self.y) < NEAR_ZERO_RAW
        &&& magnitude(self.z) < NEAR_ZERO_RAW
    }

    /// Mirror image of `self` in the plane with normal `n`:
    /// `self - 2 * dot(self, n) * n`.
    pub open spec fn reflect(self, n: V3) -> V3 {
        self.minus(n.scaled(fx_mul(two(), self.dot(n))))
    }

    /// Direction of a unit vector `self` after crossing a surface with unit
    /// normal `n` from a medium into one whose refractive index is
    /// `1 / ratio` times the first: Snell's law, as the sum of the parts
    /// perpendicular and parallel to the normal.
    pub open spec fn refract(self, n: V3, ratio: int) -> V3 {
        let cos_theta = fx_min(self.negated().dot(n), SCALE as int);
        let perp = self.plus(n.scaled(cos_theta)).scaled(ratio);
        let parallel = n.scaled(
            fx_neg(fx_sqrt(fx_abs(fx_sub(SCALE as int, perp.length_squared())))),
        );
        perp.plus(parallel)
    }

    /// Whether each component lies in the range that operations return.
    pub open spec fn bounded(self) -> bool {
        &&& -MAX_RAW <= self.x <= MAX_RAW
        &&& -MAX_RAW <= self.y <= MAX_RAW
        &&& -MAX_RAW <= self.z <= MAX_RAW
    }

    /// Whether each component lies in `[lo, hi)`.
    pub open spec fn in_box(self, lo: int, hi: int) -> bool {
        &&& lo <= self.x < hi
        &&& lo <= self.y < hi
        &&& lo <= self.z < hi
    }
}

/// The dot product does not depend on the order of its arguments.
pub proof fn lemma_dot_commutes(u: V3, v: V3)
    ensures
        u.dot(v) == v.dot(u),
{
    lemma_mul_commutes(u.x, v.x);
    lemma_mul_commutes(u.y, v.y);
    lemma_mul_commutes(u.z, v.z);
}

/// Turning one argument around negates the dot product.
pub proof fn lemma_dot_negated(u: V3, v: V3)
    requires
        v.bounded(),
    ensures
        u.dot(v.negated()) == -u.dot(v),
        v.negated().dot(u) == -v.dot(u),
{
    lemma_mul_neg(u.x, v.x);
    lemma_mul_neg(u.y, v.y);
    lemma_mul_neg(u.z, v.z);
    lemma_mul_neg(v.x, u.x);
    lemma_mul_neg(v.y, u.y);
    lemma_mul_neg(v.z, u.z);
}

/// A larger distance belongs to a parameter that is not smaller.
pub proof fn lemma_per_length_monotone(v: V3, near: int, far: int)
    requires
        near <= far,
    ensures
        v.per_length(near) <= v.per_length(far),
{
    if v != zero() {
        let factor = SCALE * v.widening();
        let q = exact_dot(v.widened(), v.widened());
        let w = v.widened();
        assert(q >= 0) by (nonlinear_arith)
            requires
                q == w.x * w.x + w.y * w.y + w.z * w.z,
        ;
        lemma_floor_sqrt_exists(q);
        let l = v.widened().exact_length();
        assert(near * factor <= far * factor) by (nonlinear_arith)
            requires
                near <= far,
                factor > 0,
        ;
        if l > 0 {
            lemma_trunc_div_monotone(near * factor, far * factor, l);
        } else {
            assert(q == 0) by (nonlinear_arith)
                requires
                    l == 0,
                    q < (l + 1) * (l + 1),
                    q >= 0,
            ;
            assert(w.x == 0 && w.y == 0 && w.z == 0) by (nonlinear_arith)
                requires
                    w.x * w.x + w.y * w.y + w.z * w.z == 0,
            ;
            assert(v.x == 0 && v.y == 0 && v.z == 0) by (nonlinear_arith)
                requires
                    v.x * v.widening() == 0,
                    v.y * v.widening() == 0,
                    v.z * v.widening() == 0,
                    v.widening() >= 1,
            ;
        }
    }
}

/// Number of candidates that rejection sampling draws before it gives up and
/// returns its fallback.
pub const MAX_TRIES: u32 = 128;

/// Whether a candidate from the cube `[-1, 1)^3` is kept when sampling the
/// unit sphere: it is not the zero vector and its exact squared length is
/// at most one.
pub open spec fn sphere_accepts(p: V3) -> bool {
    0 < exact_dot(p, p) <= SCALE * SCALE
}

/// What sampling the unit sphere returns when every candidate was rejected:
/// the first axis.
pub open spec fn sphere_fallback() -> V3 {
    V3 { x: SCALE as int, y: 0, z: 0 }
}

/// The possible results of sampling the unit sphere: vectors of unit length
/// up to rounding that are an accepted candidate normalised, or the
/// fallback.
pub open spec fn is_unit_sample(u: V3) -> bool {
    &&& nearly_unit(u)
    &&& {
        ||| u == sphere_fallback()
        ||| exists|p: V3| p.in_box(-SCALE, SCALE as int) && sphere_accepts(p) && u == p.unit()
    }
}

/// The fallback is a possible result of sampling the unit sphere.
pub proof fn lemma_fallback_is_unit_sample()
    ensures
        is_unit_sample(sphere_fallback()),
{
    assert(unit_defect(sphere_fallback()) == 0) by (nonlinear_arith)
        requires
            unit_defect(sphere_fallback()) == SCALE * SCALE + 0 * 0 + 0 * 0 - SCALE * SCALE,
    ;
}

/// The possible results of sampling the unit disk: a point of the plane
/// `z = 0` with coordinates in `[-1, 1)` and squared length below one.
pub open spec fn is_disk_sample(d: V3) -> bool {
    &&& d.z == 0
    &&& -SCALE <= d.x < SCALE
    &&& -SCALE <= d.y < SCALE
    &&& d.length_squared() < SCALE
}

/// The vector `v`, turned around if it points away from `normal`.
pub open spec fn toward(normal: V3, v: V3) -> V3 {
    if normal.dot(v) < 0 {
        v.negated()
    } else {
        v
    }
}

/// A vector of three fixed-point components.
#[derive(Clone, Copy, Debug, PartialEq, Eq, Structural)]
pub struct Vec3 {
    pub x: Fixed,
    pub y: Fixed,
    pub z: Fixed,
}

/// A position in space.
pub type Point3 = Vec3;

impl View for Vec3 {
    type V = V3;

    open spec fn view(&self) -> V3 {
        V3 { x: self.x@, y: self.y@, z: self.z@ }
    }
}

impl Vec3 {
    /// The vector with the given components.
    pub fn new(e0: Fixed, e1: Fixed, e2: Fixed) -> (r: Vec3)
        ensures
            r@ == (V3 { x: e0@, y: e1@, z: e2@ }),
    {
        Vec3 { x: e0, y: e1, z: e2 }
    }

    /// First component.
    pub fn x(&self) -> (r: Fixed)
        ensures
            r@ == self@.x,
    {
        self.x
    }

    /// Second component.
    pub fn y(&self) -> (r: Fixed)
        ensures
            r@ == self@.y,
    {
        self.y
    }

    /// Third component.
    pub fn z(&self) -> (r: Fixed)
        ensures
            r@ == self@.z,
    {
        self.z
    }

    /// Squared Euclidean length.
    pub fn length_squared(&self) -> (r: Fixed)
        ensures
            r@ == self@.length_squared(),
    {
        self.x.mul(self.x).add(self.y.mul(self.y)).add(self.z.mul(self.z))
    }

    /// Euclidean length, rounded down. It is taken from the exact sum of
    /// squares, not from the rounded `length_squared`.
    pub fn length(&self) -> (r: Fixed)
        ensures
            r@ == self@.length(),
    {
        let q = square_sum(
            magnitude_of(self.x.raw()),
            magnitude_of(self.y.raw()),
            magnitude_of(self.z.raw()),
        );
        proof {
            lemma_product_sign(self@.x, self@.x);
            lemma_product_sign(self@.y, self@.y);
            lemma_product_sign(self@.z, self@.z);
        }
        let l = floor_sqrt_of(q);
        proof {
            lemma_floor_sqrt_is(q as int, l as int);
        }
        Fixed::from_raw(signed_sat(false, l))
    }

    /// A vector with each component drawn from `[0, 1)`.
    pub fn random(rng: &mut StdRng) -> (r: Vec3)
        ensures
            r@.in_box(0, SCALE as int),
    {
        Vec3::random_from_range(rng, Fixed::zero(), Fixed::one())
    }

    /// A vector with each component drawn from `[min, max)`.
    pub fn random_from_range(rng: &mut StdRng, min: Fixed, max: Fixed) -> (r: Vec3)
        requires
            min@ < max@,
        ensures
            r@.in_box(min@, max@),
    {
        let e0 = random_range(rng, min, max);
        let e1 = random_range(rng, min, max);
        let e2 = random_range(rng, min, max);
        Vec3::new(e0, e1, e2)
    }

    /// Whether every component is smaller in magnitude than a thousandth.
    pub fn near_zero(&self) -> (r: bool)
        ensures
            r == self@.near_zero(),
    {
        let eps = Fixed::from_raw(NEAR_ZERO_RAW);
        self.x.abs().lt(eps) && self.y.abs().lt(eps) && self.z.abs().lt(eps)
    }

    /// Componentwise sum.
    pub fn add(self, other: Vec3) -> (r: Vec3)
        ensures
            r@ == self@.plus(other@),
    {
        Vec3::new(self.x.add(other.x), self.y.add(other.y), self.z.add(other.z))
    }

    /// Adds `other` to `self` in place.
    pub fn add_assign(&mut self, other: Vec3)
        ensures
            final(self)@ == old(self)@.plus(other@),
    {
        self.x = self.x.add(other.x);
        self.y = self.y.add(other.y);
        self.z = self.z.add(other.z);
    }

    /// Componentwise difference.
    pub fn sub(self, other: Vec3) -> (r: Vec3)
        ensures
            r@ == self@.minus(other@),
    {
        Vec3::new(self.x.sub(other.x), self.y.sub(other.y), self.z.sub(other.z))
    }

    /// Subtracts `other` from `self` in place.
    pub fn sub_assign(&mut self, other: Vec3)
        ensures
            final(self)@ == old(self)@.minus(other@),
    {
        self.x = self.x.sub(other.x);
        self.y = self.y.sub(other.y);
        self.z = self.z.sub(other.z);
    }

    /// Componentwise product.
    pub fn mul(self, other: Vec3) -> (r: Vec3)
        ensures
            r@ == self@.times(other@),
    {
        Vec3::new(self.x.mul(other.x), self.y.mul(other.y), self.z.mul(other.z))
    }

    /// Product with a scalar on the right.
    pub fn mul_scalar(self, t: Fixed) -> (r: Vec3)
        ensures
            r@ == self@.scaled(t@),
    {
        Vec3::new(self.x.mul(t), self.y.mul(t), self.z.mul(t))
    }

    /// Multiplies `self` by a scalar in place.
    pub fn mul_assign(&mut self, t: Fixed)
        ensures
            final(self)@ == old(self)@.scaled(t@),
    {
        self.x = self.x.mul(t);
        self.y = self.y.mul(t);
        self.z = self.z.mul(t);
    }

    /// Quotient by a scalar.
    pub fn div(self, t: Fixed) -> (r: Vec3)
        ensures
            r@ == self@.divided(t@),
    {
        Vec3::new(self.x.div(t), self.y.div(t), self.z.div(t))
    }

    /// Multiplies `self` in place by the reciprocal of `t`.
    pub fn div_assign(&mut self, t: Fixed)
        ensures
            final(self)@ == old(self)@.scaled(fx_div(SCALE as int, t@)),
    {
        self.mul_assign(Fixed::one().div(t));
    }

    /// Componentwise negation.
    pub fn neg(self) -> (r: Vec3)
        ensures
            r@ == self@.negated(),
    {
        Vec3::new(self.x.neg(), self.y.neg(), self.z.neg())
    }
}

impl Fixed {
    /// Product with a vector on the right.
    pub fn mul_vec(self, v: Vec3) -> (r: Vec3)
        ensures
            r@ == v@.scaled(self@),
    {
        v.mul_scalar(self)
    }
}

/// Dot product.
pub fn dot(u: &Vec3, v: &Vec3) -> (r: Fixed)
    ensures
        r@ == u@.dot(v@),
{
    u.x.mul(v.x).add(u.y.mul(v.y)).add(u.z.mul(v.z))
}

/// Cross product.
pub fn cross(u: &Vec3, v: &Vec3) -> (r: Vec3)
    ensures
        r@ == u@.cross(v@),
{
    Vec3::new(
        u.y.mul(v.z).sub(u.z.mul(v.y)),
        u.z.mul(v.x).sub(u.x.mul(v.z)),
        u.x.mul(v.y).sub(u.y.mul(v.x)),
    )
}

/// Sum of three squares.
pub(crate) fn square_sum(a: u128, b: u128, c: u128) -> (q: u128)
    requires
        a <= 0x8000_0000_0000_0000,
        b <= 0x8000_0000_0000_0000,
        c <= 0x8000_0000_0000_0000,
    ensures
        q == a * a + b * b + c * c,
{
    assert(a * a <= 0x4000_0000_0000_0000_0000_0000_0000_0000 && b * b
        <= 0x4000_0000_0000_0000_0000_0000_0000_0000 && c * c
        <= 0x4000_0000_0000_0000_0000_0000_0000_0000) by (nonlinear_arith)
        requires
            a <= 0x8000_0000_0000_0000,
            b <= 0x8000_0000_0000_0000,
            c <= 0x8000_0000_0000_0000,
    ;
    a * a + b * b + c * c
}

/// The widening of a vector and the exact length of the widened vector.
fn widened_length(v: &Vec3) -> (r: (u128, u128))
    ensures
        r.0 == v@.widening(),
        r.1 == v@.widened().exact_length(),
        v@ == zero() <==> r.1 == 0,
{
    let ax = magnitude_of(v.x.raw());
    let ay = magnitude_of(v.y.raw());
    let az = magnitude_of(v.z.raw());
    let by = WIDEN_BY as u128;
    let k: u128 = if ax < by && ay < by && az < by {
        by
    } else {
        1
    };
    assert(ax * k <= 0x8000_0000_0000_0000 && ay * k <= 0x8000_0000_0000_0000 && az * k
        <= 0x8000_0000_0000_0000) by (nonlinear_arith)
        requires
            ax <= 0x8000_0000_0000_0000,
            ay <= 0x8000_0000_0000_0000,
            az <= 0x8000_0000_0000_0000,
            k == 1 || (k == 2_147_483_648 && ax < 2_147_483_648 && ay < 2_147_483_648 && az
                < 2_147_483_648),
    ;
    let ghost w = v@.widened();
    proof {
        lemma_product_sign(v@.x, k as int);
        lemma_product_sign(v@.y, k as int);
        lemma_product_sign(v@.z, k as int);
        lemma_product_sign(w.x, w.x);
        lemma_product_sign(w.y, w.y);
        lemma_product_sign(w.z, w.z);
    }
    let q = square_sum(ax * k, ay * k, az * k);
    let l = floor_sqrt_of(q);
    proof {
        lemma_floor_sqrt_is(q as int, l as int);
        assert(w.x * w.x >= 0 && w.y * w.y >= 0 && w.z * w.z >= 0) by (nonlinear_arith);
        if l == 0 {
            assert(q == 0) by (nonlinear_arith)
                requires
                    l == 0,
                    q < (l + 1) * (l + 1),
                    q >= 0,
            ;
            assert(w.x == 0 && w.y == 0 && w.z == 0) by (nonlinear_arith)
                requires
                    w.x * w.x + w.y * w.y + w.z * w.z == 0,
                    w.x * w.x >= 0,
                    w.y * w.y >= 0,
                    w.z * w.z >= 0,
            ;
            assert(v@.x == 0 && v@.y == 0 && v@.z == 0) by (nonlinear_arith)
                requires
                    v@.x * k == 0,
                    v@.y * k == 0,
                    v@.z * k == 0,
                    k >= 1,
            ;
        } else {
            assert(q > 0) by (nonlinear_arith)
                requires
                    l >= 1,
                    l * l <= q,
            ;
            if v@ == zero() {
                assert(w.x * w.x + w.y * w.y + w.z * w.z == 0) by (nonlinear_arith)
                    requires
                        w.x == 0 * k,
                        w.y == 0 * k,
                        w.z == 0 * k,
                ;
            }
        }
    }
    (k, l)
}

/// One component `a * k` of a widened vector divided by the length `l`.
fn widened_ratio(a: i64, k: u128, l: u128) -> (r: Fixed)
    requires
        l > 0,
        k == 1 || (k == WIDEN_BY && magnitude(a as int) < WIDEN_BY),
    ensures
        r@ == fx_div(a * k, l as int),
{
    let m = magnitude_of(a);
    assert(m * k <= 0x8000_0000_0000_0000 && magnitude(a * k) == m * k && ((a * k < 0) == (a < 0)))
        by (nonlinear_arith)
        requires
            m == magnitude(a as int),
            m <= 0x8000_0000_0000_0000,
            k == 1 || (k == 2_147_483_648 && m < 2_147_483_648),
    ;
    let w = m * k;
    proof {
        lemma_product_sign(a * k, SCALE as int);
    }
    let q = (w * (SCALE as u128)) / l;
    Fixed::from_raw(signed_sat(a < 0, q))
}

/// The vector divided by its length. Whatever is not the zero vector comes
/// back with unit length up to rounding; the zero vector comes back as it
/// is.
pub fn unit_vector(v: Vec3) -> (r: Vec3)
    ensures
        r@ == v@.unit(),
        v@ != zero() ==> nearly_unit(r@),
{
    let (k, l) = widened_length(&v);
    if l == 0 {
        return v;
    }
    proof {
        lemma_unit_length(v@);
    }
    Vec3::new(
        widened_ratio(v.x.raw(), k, l),
        widened_ratio(v.y.raw(), k, l),
        widened_ratio(v.z.raw(), k, l),
    )
}

/// The ray parameter that belongs to a distance along `direction`: the
/// distance divided by the length of the direction, rounded toward zero;
/// zero for a direction without length.
pub fn parameter_at(direction: &Vec3, distance: Fixed) -> (t: Fixed)
    ensures
        t@ == direction@.per_length(distance@),
{
    let (k, l) = widened_length(direction);
    if l == 0 {
        return Fixed::zero();
    }
    let m = magnitude_of(distance.raw());
    assert(k == 1 || k == 2_147_483_648);
    let factor: u128 = 1_000_000 * k;
    assert(m * factor <= 0x8000_0000_0000_0000 * 2_147_483_648_000_000
        && 0x8000_0000_0000_0000 * 2_147_483_648_000_000
        < 0x1_0000_0000_0000_0000_0000_0000_0000_0000) by (nonlinear_arith)
        requires
            m <= 0x8000_0000_0000_0000,
            factor <= 2_147_483_648_000_000,
    ;
    proof {
        lemma_product_sign(distance@, factor as int);
        assert(SCALE * direction@.widening() == factor);
    }
    let q = (m * factor) / l;
    Fixed::from_raw(signed_sat(distance.raw() < 0, q))
}

/// Mirror image of `v` in the plane with normal `n`.
pub fn reflect(v: Vec3, n: Vec3) -> (r: Vec3)
    ensures
        r@ == v@.reflect(n@),
{
    let twice = Fixed::from_int(2).mul(dot(&v, &n));
    v.sub(n.mul_scalar(twice))
}

/// Refraction of the unit vector `uv` at a surface with unit normal `n`, for
/// the given ratio of refractive indices.
pub fn refract(uv: Vec3, n: Vec3, etai_over_etat: Fixed) -> (r: Vec3)
    ensures
        r@ == uv@.refract(n@, etai_over_etat@),
{
    let cos_theta = dot(&uv.neg(), &n).min(Fixed::one());
    let r_out_perp = uv.add(n.mul_scalar(cos_theta)).mul_scalar(etai_over_etat);
    let r_out_parallel = n.mul_scalar(
        Fixed::one().sub(r_out_perp.length_squared()).abs().sqrt().neg(),
    );
    r_out_perp.add(r_out_parallel)
}

/// Decides on one candidate for a point of the unit sphere: the candidate
/// normalised if it is not the zero vector and its exact squared length is
/// at most one, nothing otherwise. What is returned has unit length up to
/// rounding.
pub fn unit_from_candidate(p: Vec3) -> (r: Option<Vec3>)
    ensures
        opt_view(r) == if sphere_accepts(p@) {
            Some(p@.unit())
        } else {
            None
        },
        r matches Some(u) ==> nearly_unit(u@),
{
    let q = square_sum(
        magnitude_of(p.x.raw()),
        magnitude_of(p.y.raw()),
        magnitude_of(p.z.raw()),
    );
    proof {
        lemma_product_sign(p@.x, p@.x);
        lemma_product_sign(p@.y, p@.y);
        lemma_product_sign(p@.z, p@.z);
        assert(SCALE * SCALE == 1_000_000_000_000);
    }
    if 0 < q && q <= 1_000_000_000_000 {
        assert(p@ != zero());
        Some(unit_vector(p))
    } else {
        None
    }
}

/// A direction drawn from the unit sphere by rejection: candidates from the
/// cube `[-1, 1)^3` are drawn until `unit_from_candidate` keeps one. After
/// `MAX_TRIES` rejections in a row the first axis is returned.
pub fn random_unit_vector(rng: &mut StdRng) -> (r: Vec3)
    ensures
        is_unit_sample(r@),
{
    let mut tries: u32 = 0;
    while tries < MAX_TRIES
        invariant
            tries <= MAX_TRIES,
        decreases MAX_TRIES - tries,
    {
        let p = Vec3::random_from_range(rng, Fixed::from_int(-1), Fixed::one());
        match unit_from_candidate(p) {
            Some(u) => {
                assert(p@.in_box(-SCALE, SCALE as int) && sphere_accepts(p@) && u@ == p@.unit());
                return u;
            },
            None => {},
        }
        tries = tries + 1;
    }
    proof {
        lemma_fallback_is_unit_sample();
    }
    Vec3::new(Fixed::one(), Fixed::zero(), Fixed::zero())
}

/// Decides on one candidate for a point of the unit disk: the candidate if
/// its squared length is below one, nothing otherwise.
pub fn disk_from_candidate(p: Vec3) -> (r: Option<Vec3>)
    ensures
        r == if p@.length_squared() < SCALE {
            Some(p)
        } else {
            None
        },
{
    if p.length_squared().lt(Fixed::one()) {
        Some(p)
    } else {
        None
    }
}

/// A point drawn from the unit disk in the plane `z = 0` by rejection. After
/// `MAX_TRIES` rejections in a row the centre is returned.
pub fn random_in_unit_disk(rng: &mut StdRng) -> (r: Vec3)
    ensures
        is_disk_sample(r@),
{
    let mut tries: u32 = 0;
    while tries < MAX_TRIES
        invariant
            tries <= MAX_TRIES,
        decreases MAX_TRIES - tries,
    {
        let e0 = random_range(rng, Fixed::from_int(-1), Fixed::one());
        let e1 = random_range(rng, Fixed::from_int(-1), Fixed::one());
        let p = Vec3::new(e0, e1, Fixed::zero());
        match disk_from_candidate(p) {
            Some(d) => {
                return d;
            },
            None => {},
        }
        tries = tries + 1;
    }
    Vec3::new(Fixed::zero(), Fixed::zero(), Fixed::zero())
}

/// The vector `v`, turned around if it points away from `normal`.
pub fn on_hemisphere(normal: &Vec3, v: Vec3) -> (r: Vec3)
    ensures
        r@ == toward(normal@, v@),
{
    if dot(normal, &v).lt(Fixed::zero()) {
        v.neg()
    } else {
        v
    }
}

/// A direction drawn from the unit sphere and turned into the hemisphere
/// around `normal`.
pub fn random_on_hemisphere(normal: &Vec3, rng: &mut StdRng) -> (r: Vec3)
    ensures
        exists|u: V3| is_unit_sample(u) && r@ == toward(normal@, u),
{
    let on_unit_sphere = random_unit_vector(rng);
    on_hemisphere(normal, on_unit_sphere)
}

} // verus!
