//! How nearly rounded operations keep the properties of exact ones.
//!
//! In real arithmetic a normalised vector has unit length, a point at which
//! a ray strikes a sphere lies on the sphere, the mirror image `r` of `v` in
//! a plane with unit normal `n` has `dot(r, n) == -dot(v, n)` and the length
//! of `v`, and refraction between equal indices leaves a ray as it is. Here
//! every product and quotient is rounded to a millionth, so these hold up
//! to a bound, which the laws of this module state over raw counts:
//! `lemma_unit_length`, `lemma_point_on_sphere`,
//! `lemma_reflect_negates_normal_component`, `lemma_reflect_keeps_length`
//! and `lemma_refract_straight`. Where a law asks that its arguments be
//! small, it is so that nothing saturates.
use crate::fixed::{
    fx_div, fx_mul, fx_sub, lemma_floor_sqrt_exists, magnitude, trunc_div, MAX_RAW, SCALE,
};
use crate::vec3::{exact_dot, nearly_unit, two, unit_defect, within, zero, V3, WIDEN_BY};
use vstd::arithmetic::div_mod::{lemma_fundamental_div_mod, lemma_mod_bound};
use vstd::prelude::*;

verus! {

/// Largest magnitude of a component for which reflecting saturates nowhere:
/// fifty thousand.
pub const REFLECT_LIMIT_RAW: i64 = 50_000_000_000;

/// Largest magnitude of a component for which taking a length saturates
/// nowhere: one million four hundred thousand.
pub const LENGTH_LIMIT_RAW: i64 = 1_400_000_000_000;

/// Largest magnitude of a component of a normal for which the laws of
/// reflection are proved: one and two millionths.
pub const NORMAL_LIMIT_RAW: i64 = 1_000_002;

/// Sum of the magnitudes of the components.
pub open spec fn size(v: V3) -> int {
    magnitude(v.x) + magnitude(v.y) + magnitude(v.z)
}

/// What rounding takes from a product: the exact product less a million
/// times the rounded one.
pub open spec fn rounding(a: int, b: int) -> int {
    a * b - SCALE * fx_mul(a, b)
}

/// What rounding takes from a quotient: a million times the numerator less
/// the divisor times the rounded quotient.
pub open spec fn quotient_rounding(a: int, b: int) -> int {
    a * SCALE - b * fx_div(a, b)
}

/// Sum of what rounding takes from the three products of a dot product.
pub open spec fn dot_rounding(v: V3, n: V3) -> int {
    rounding(v.x, n.x) + rounding(v.y, n.y) + rounding(v.z, n.z)
}

/// The magnitude of a product is at most the product of bounds on its
/// factors.
pub proof fn lemma_product_bound(a: int, b: int, bound_a: int, bound_b: int)
    requires
        magnitude(a) <= bound_a,
        magnitude(b) <= bound_b,
    ensures
        magnitude(a * b) <= bound_a * bound_b,
{
    assert(magnitude(a * b) <= bound_a * bound_b) by (nonlinear_arith)
        requires
            magnitude(a) <= bound_a,
            magnitude(b) <= bound_b,
    ;
}

/// A product that does not saturate is rounded by less than one millionth,
/// toward zero, and is no larger than the bound on the exact one.
pub proof fn lemma_rounding(a: int, b: int, bound: int)
    requires
        0 <= bound <= MAX_RAW,
        magnitude(a * b) <= bound * SCALE,
    ensures
        magnitude(fx_mul(a, b)) <= bound,
        -SCALE < rounding(a, b) < SCALE,
        a * b >= 0 ==> rounding(a, b) >= 0,
        a * b <= 0 ==> rounding(a, b) <= 0,
        fx_mul(a, b) == trunc_div(a * b, SCALE as int),
{
    let x = a * b;
    let m = magnitude(x);
    let q = m / (SCALE as int);
    assert(m == 1_000_000 * q + m % 1_000_000 && 0 <= m % 1_000_000 < 1_000_000) by {
        lemma_fundamental_div_mod(m, 1_000_000);
        lemma_mod_bound(m, 1_000_000);
    }
    assert(q <= bound) by (nonlinear_arith)
        requires
            m <= bound * 1_000_000,
            m == 1_000_000 * q + m % 1_000_000,
            0 <= m % 1_000_000,
    ;
}

/// A quotient by a positive divisor that does not saturate is rounded by
/// less than one millionth, toward zero.
pub proof fn lemma_quotient_rounding(a: int, b: int, bound: int)
    requires
        b > 0,
        0 <= bound <= MAX_RAW,
        magnitude(a) * SCALE <= bound * b,
    ensures
        magnitude(fx_div(a, b)) <= bound,
        -b < quotient_rounding(a, b) < b,
        a >= 0 ==> quotient_rounding(a, b) >= 0,
        a <= 0 ==> quotient_rounding(a, b) <= 0,
{
    let x = a * SCALE;
    let m = magnitude(x);
    assert(m == magnitude(a) * SCALE && (x < 0 <==> a < 0)) by (nonlinear_arith)
        requires
            x == a * SCALE,
            m == magnitude(x),
            SCALE == 1_000_000,
    ;
    let q = m / b;
    lemma_fundamental_div_mod(m, b);
    lemma_mod_bound(m, b);
    assert(q <= bound) by (nonlinear_arith)
        requires
            m <= bound * b,
            m == b * q + m % b,
            0 <= m % b,
            b > 0,
    ;
    assert(q >= 0) by (nonlinear_arith)
        requires
            m == b * q + m % b,
            m % b < b,
            m >= 0,
            b > 0,
    ;
    assert(b * (-q) == -(b * q)) by (nonlinear_arith);
}

/// A dot product with a normal saturates nowhere and misses the exact one by
/// less than three millionths.
proof fn lemma_dot_rounding(v: V3, n: V3, bound: int)
    requires
        0 <= bound <= 25 * REFLECT_LIMIT_RAW,
        within(v, bound),
        within(n, NORMAL_LIMIT_RAW as int),
    ensures
        magnitude(v.dot(n)) <= 6 * bound,
        1_000_000 * v.dot(n) == exact_dot(v, n) - dot_rounding(v, n),
        -3_000_000 < dot_rounding(v, n) < 3_000_000,
{
    lemma_product_bound(v.x, n.x, bound, 1_000_002);
    lemma_product_bound(v.y, n.y, bound, 1_000_002);
    lemma_product_bound(v.z, n.z, bound, 1_000_002);
    assert(bound * 1_000_002 <= (2 * bound) * SCALE) by (nonlinear_arith)
        requires
            bound >= 0,
            SCALE == 1_000_000,
    ;
    lemma_rounding(v.x, n.x, 2 * bound);
    lemma_rounding(v.y, n.y, 2 * bound);
    lemma_rounding(v.z, n.z, 2 * bound);
}

/// A squared length saturates nowhere and falls short of the exact one by
/// less than three millionths.
proof fn lemma_length_rounding(v: V3)
    requires
        within(v, LENGTH_LIMIT_RAW as int),
    ensures
        1_000_000 * v.length_squared() == exact_dot(v, v) - dot_rounding(v, v),
        0 <= dot_rounding(v, v) < 3_000_000,
{
    let bound = LENGTH_LIMIT_RAW as int;
    lemma_product_bound(v.x, v.x, bound, bound);
    lemma_product_bound(v.y, v.y, bound, bound);
    lemma_product_bound(v.z, v.z, bound, bound);
    assert(bound * bound == 1_960_000_000_000_000_000 * SCALE) by (nonlinear_arith)
        requires
            bound == 1_400_000_000_000,
            SCALE == 1_000_000,
    ;
    lemma_rounding(v.x, v.x, 1_960_000_000_000_000_000);
    lemma_rounding(v.y, v.y, 1_960_000_000_000_000_000);
    lemma_rounding(v.z, v.z, 1_960_000_000_000_000_000);
    assert(v.x * v.x >= 0 && v.y * v.y >= 0 && v.z * v.z >= 0) by (nonlinear_arith);
}

/// A component of a vector is no longer than the vector: `q` bounds its
/// square, and `l` is the integer square root of `q`.
proof fn lemma_component_below_length(v: int, q: int, l: int)
    requires
        l >= 0,
        0 <= v * v <= q,
        q < (l + 1) * (l + 1),
    ensures
        magnitude(v) <= l,
{
    let m = magnitude(v);
    assert(m * m == v * v) by (nonlinear_arith)
        requires
            m == magnitude(v),
    ;
    if m > l {
        assert(m * m >= (l + 1) * (l + 1)) by (nonlinear_arith)
            requires
                m >= l + 1,
                l >= 0,
        ;
    }
}

/// One component of a normalised vector: `u = v / l` rounded as the library
/// rounds does not saturate, and its exact square is that of real arithmetic
/// up to the rounding `theta`.
proof fn lemma_unit_component(v: int, l: int)
    requires
        l > 0,
        magnitude(v) <= l + 3_000_000,
    ensures
        ({
            let u = fx_div(v, l);
            let theta = quotient_rounding(v, l);
            &&& (l * l) * (u * u) == 1_000_000_000_000 * (v * v) - 2_000_000 * (v * theta) + theta
                * theta
            &&& 0 <= v * theta <= magnitude(v) * l
            &&& 0 <= theta * theta <= l * l
            &&& magnitude(v) <= l + 2 ==> magnitude(u) <= 1_000_000 + 2_000_000int / l
        }),
{
    let u = fx_div(v, l);
    let theta = quotient_rounding(v, l);
    assert(magnitude(v) * SCALE <= 3_000_001_000_000 * l) by (nonlinear_arith)
        requires
            l >= 1,
            magnitude(v) <= l + 3_000_000,
            SCALE == 1_000_000,
    ;
    lemma_quotient_rounding(v, l, 3_000_001_000_000);
    if magnitude(v) <= l + 2 {
        let extra = 2_000_000int / l;
        lemma_fundamental_div_mod(2_000_000, l);
        lemma_mod_bound(2_000_000, l);
        assert(magnitude(v) * SCALE <= (1_000_000 + extra + 1) * l - 1) by (nonlinear_arith)
            requires
                l >= 1,
                magnitude(v) <= l + 2,
                SCALE == 1_000_000,
                2_000_000 == l * extra + 2_000_000int % l,
                2_000_000int % l < l,
        ;
        assert(magnitude(u) * l <= magnitude(v) * SCALE) by (nonlinear_arith)
            requires
                l >= 1,
                -l < v * SCALE - l * u < l,
                v >= 0 ==> v * SCALE - l * u >= 0,
                v <= 0 ==> v * SCALE - l * u <= 0,
        ;
        assert(magnitude(u) <= 1_000_000 + extra) by (nonlinear_arith)
            requires
                l >= 1,
                magnitude(u) * l <= (1_000_000 + extra + 1) * l - 1,
        ;
    }
    let w = l * u;
    assert(v * SCALE == 1_000_000 * v) by (nonlinear_arith)
        requires
            SCALE == 1_000_000,
    ;
    assert(w == 1_000_000 * v - theta);
    assert(w * w == (l * l) * (u * u)) by (nonlinear_arith)
        requires
            w == l * u,
    ;
    assert(w * w == 1_000_000_000_000 * (v * v) - 2_000_000 * (v * theta) + theta * theta)
        by (nonlinear_arith)
        requires
            w == 1_000_000 * v - theta,
    ;
    lemma_product_bound(v, theta, magnitude(v), l);
    lemma_product_bound(theta, theta, l, l);
    assert(v * theta >= 0 && theta * theta >= 0) by (nonlinear_arith)
        requires
            v >= 0 ==> theta >= 0,
            v <= 0 ==> theta <= 0,
    ;
}

/// Normalising gives unit length, up to rounding, for every vector but the
/// zero vector: no component of `unit(v)` exceeds one, and the exact squared
/// length of `unit(v)` misses one by at most six millionths below and less
/// than a billionth above.
pub proof fn lemma_unit_length(v: V3)
    requires
        v != zero(),
    ensures
        nearly_unit(v.unit()),
{
    let w = v.widened();
    let q = exact_dot(w, w);
    let l = w.exact_length();
    let u = v.unit();
    assert(w.x * w.x >= 0 && w.y * w.y >= 0 && w.z * w.z >= 0) by (nonlinear_arith);
    // Some component of the widened vector is at least two to the 31.
    assert(q >= 4_611_686_018_427_387_904) by {
        if within(v, WIDEN_BY - 1) {
            assert(w.x * w.x >= 4_611_686_018_427_387_904 || w.y * w.y
                >= 4_611_686_018_427_387_904 || w.z * w.z >= 4_611_686_018_427_387_904)
                by (nonlinear_arith)
                requires
                    w.x == v.x * 2_147_483_648,
                    w.y == v.y * 2_147_483_648,
                    w.z == v.z * 2_147_483_648,
                    v.x != 0 || v.y != 0 || v.z != 0,
            ;
        } else {
            assert(w.x * w.x >= 4_611_686_018_427_387_904 || w.y * w.y
                >= 4_611_686_018_427_387_904 || w.z * w.z >= 4_611_686_018_427_387_904)
                by (nonlinear_arith)
                requires
                    magnitude(w.x) >= 2_147_483_648 || magnitude(w.y) >= 2_147_483_648
                        || magnitude(w.z) >= 2_147_483_648,
            ;
        }
    }
    lemma_floor_sqrt_exists(q);
    assert(l * l <= q < (l + 1) * (l + 1));
    if l < 2_147_483_648 {
        assert((l + 1) * (l + 1) <= 4_611_686_018_427_387_904) by (nonlinear_arith)
            requires
                0 <= l < 2_147_483_648,
        ;
    }
    lemma_component_below_length(w.x, q, l);
    lemma_component_below_length(w.y, q, l);
    lemma_component_below_length(w.z, q, l);
    lemma_unit_component(w.x, l);
    lemma_unit_component(w.y, l);
    lemma_unit_component(w.z, l);
    assert(2_000_000int / l == 0) by (nonlinear_arith)
        requires
            l >= 2_147_483_648,
    ;
    let uu = exact_dot(u, u);
    let ll = l * l;
    assert(ll * uu == ll * (u.x * u.x) + ll * (u.y * u.y) + ll * (u.z * u.z)) by (nonlinear_arith)
        requires
            uu == u.x * u.x + u.y * u.y + u.z * u.z,
    ;
    assert(ll * unit_defect(u) == ll * uu - 1_000_000_000_000 * ll) by (nonlinear_arith)
        requires
            unit_defect(u) == uu - 1_000_000_000_000,
    ;
    assert((l + 1) * (l + 1) == ll + 2 * l + 1) by (nonlinear_arith)
        requires
            ll == l * l,
    ;
    assert(magnitude(w.x) * l <= ll && magnitude(w.y) * l <= ll && magnitude(w.z) * l <= ll)
        by (nonlinear_arith)
        requires
            magnitude(w.x) <= l,
            magnitude(w.y) <= l,
            magnitude(w.z) <= l,
            ll == l * l,
            l >= 0,
    ;
    assert(2_000_000_000_000 * l <= 932 * ll && ll > 0) by (nonlinear_arith)
        requires
            ll == l * l,
            l >= 2_147_483_648,
    ;
    let d = unit_defect(u);
    assert(d <= 935) by (nonlinear_arith)
        requires
            ll * d <= 935 * ll,
            ll > 0,
    ;
    assert(d >= -6_000_000) by (nonlinear_arith)
        requires
            ll * d >= -6_000_000 * ll,
            ll > 0,
    ;
}

/// One component of a reflection: with `m = n * k` and `r = v - m` rounded
/// as the library rounds, nothing saturates, and the exact products of `r`
/// are those of real arithmetic up to the rounding `delta` of `m`.
proof fn lemma_component(v: int, n: int, k: int)
    requires
        magnitude(v) <= REFLECT_LIMIT_RAW,
        magnitude(n) <= NORMAL_LIMIT_RAW,
        magnitude(k) <= 12 * REFLECT_LIMIT_RAW,
    ensures
        ({
            let m = fx_mul(n, k);
            let r = fx_sub(v, m);
            let delta = rounding(n, k);
            &&& r == v - m
            &&& magnitude(r) <= 25 * REFLECT_LIMIT_RAW
            &&& -SCALE < delta < SCALE
            &&& magnitude(delta * n) <= 1_000_002_000_000
            &&& magnitude(v * delta) <= magnitude(v) * 1_000_000
            &&& 0 <= delta * delta <= 1_000_000_000_000
            &&& 1_000_000 * (r * n) == 1_000_000 * (v * n) - k * (n * n) + delta * n
            &&& 1_000_000_000_000 * (r * r) == 1_000_000_000_000 * (v * v) - 2_000_000 * (k * (v
                * n)) + 2_000_000 * (v * delta) + (k * k) * (n * n) - 2 * (k * (delta * n)) + delta
                * delta
        }),
{
    let limit = REFLECT_LIMIT_RAW as int;
    lemma_product_bound(n, k, 1_000_002, 12 * limit);
    assert(1_000_002 * (12 * limit) <= (24 * limit) * SCALE) by (nonlinear_arith)
        requires
            limit == 50_000_000_000,
            SCALE == 1_000_000,
    ;
    lemma_rounding(n, k, 24 * limit);
    let m = fx_mul(n, k);
    let r = fx_sub(v, m);
    let delta = rounding(n, k);
    assert(r == v - m);
    lemma_product_bound(delta, n, 1_000_000, 1_000_002);
    lemma_product_bound(v, delta, magnitude(v), 1_000_000);
    lemma_product_bound(delta, delta, 1_000_000, 1_000_000);
    assert(delta * delta >= 0) by (nonlinear_arith);
    let nk = n * k;
    let sv = 1_000_000 * v;
    let w = 1_000_000 * r;
    assert(w == sv - nk + delta);
    assert(1_000_000 * (r * n) == 1_000_000 * (v * n) - k * (n * n) + delta * n)
        by (nonlinear_arith)
        requires
            1_000_000 * r == 1_000_000 * v - n * k + delta,
    ;
    assert(w * w == sv * sv + nk * nk + delta * delta - 2 * (sv * nk) + 2 * (sv * delta) - 2 * (nk
        * delta)) by (nonlinear_arith)
        requires
            w == sv - nk + delta,
    ;
    assert(w * w == 1_000_000_000_000 * (r * r)) by (nonlinear_arith)
        requires
            w == 1_000_000 * r,
    ;
    assert(sv * sv == 1_000_000_000_000 * (v * v)) by (nonlinear_arith)
        requires
            sv == 1_000_000 * v,
    ;
    assert(nk * nk == (k * k) * (n * n)) by (nonlinear_arith)
        requires
            nk == n * k,
    ;
    assert(sv * nk == 1_000_000 * (k * (v * n))) by (nonlinear_arith)
        requires
            sv == 1_000_000 * v,
            nk == n * k,
    ;
    assert(sv * delta == 1_000_000 * (v * delta)) by (nonlinear_arith)
        requires
            sv == 1_000_000 * v,
    ;
    assert(nk * delta == k * (delta * n)) by (nonlinear_arith)
        requires
            nk == n * k,
    ;
}

/// The mirror image saturates nowhere: it is `v - n * (2 * d)` with
/// `d = dot(v, n)`, each product rounded once.
proof fn lemma_reflect_unfolded(v: V3, n: V3)
    requires
        within(v, REFLECT_LIMIT_RAW as int),
        within(n, NORMAL_LIMIT_RAW as int),
    ensures
        v.reflect(n) == (V3 {
            x: v.x - fx_mul(n.x, 2 * v.dot(n)),
            y: v.y - fx_mul(n.y, 2 * v.dot(n)),
            z: v.z - fx_mul(n.z, 2 * v.dot(n)),
        }),
        within(v.reflect(n), 25 * REFLECT_LIMIT_RAW),
        magnitude(2 * v.dot(n)) <= 12 * REFLECT_LIMIT_RAW,
{
    let limit = REFLECT_LIMIT_RAW as int;
    let scale = SCALE as int;
    lemma_dot_rounding(v, n, limit);
    let d = v.dot(n);
    lemma_product_bound(two(), d, 2 * scale, 6 * limit);
    assert((2 * scale) * (6 * limit) == (12 * limit) * scale) by (nonlinear_arith);
    lemma_rounding(two(), d, 12 * limit);
    assert(two() * d == 2_000_000 * d) by (nonlinear_arith)
        requires
            two() == 2_000_000,
    ;
    assert(fx_mul(two(), d) == 2 * d);
    lemma_component(v.x, n.x, 2 * d);
    lemma_component(v.y, n.y, 2 * d);
    lemma_component(v.z, n.z, 2 * d);
}

/// Sum of the roundings of `n * k` weighted by `n`, which is how they enter
/// the dot product of the mirror image with `n`.
spec fn weighted_rounding(n: V3, k: int) -> int {
    rounding(n.x, k) * n.x + rounding(n.y, k) * n.y + rounding(n.z, k) * n.z
}

/// The linear arithmetic behind `lemma_reflect_negates_normal_component`,
/// over the exact products as plain integers.
proof fn lemma_normal_component_sum(
    d: int,
    dr: int,
    vn: int,
    rn: int,
    e: int,
    g: int,
    k_nn: int,
    dn: int,
    d_eta: int,
    bound: int,
)
    requires
        1_000_000 * d == vn - e,
        1_000_000 * dr == rn - g,
        1_000_000 * rn == 1_000_000 * vn - k_nn + dn,
        k_nn == 2_000_000_000_000 * d + 2 * d_eta,
        -3_000_000 < e < 3_000_000,
        -3_000_000 < g < 3_000_000,
        -3_000_006_000_000 <= dn <= 3_000_006_000_000,
        -bound <= d_eta <= bound,
    ensures
        1_000_000_000_000 * magnitude(dr + d) <= 9_000_006_000_000 + 2 * bound,
{
}

/// Reflection negates the component along the normal, up to rounding: with
/// `d = dot(v, n)` and `r` the mirror image of `v`, `dot(r, n) + d` is at
/// most nine millionths in magnitude for a normal of exactly unit length,
/// and at most `9.000006 + 2 * |d| * |defect|` for a normal whose squared
/// length misses one by `defect`.
///
/// The statement is scaled by a million squared to stay within integers.
pub proof fn lemma_reflect_negates_normal_component(v: V3, n: V3)
    requires
        within(v, REFLECT_LIMIT_RAW as int),
        within(n, NORMAL_LIMIT_RAW as int),
    ensures
        1_000_000_000_000 * magnitude(v.reflect(n).dot(n) + v.dot(n)) <= 9_000_006_000_000 + 2
            * (magnitude(v.dot(n)) * magnitude(unit_defect(n))),
        unit_defect(n) == 0 ==> magnitude(v.reflect(n).dot(n) + v.dot(n)) <= 9,
{
    let d = v.dot(n);
    let k = 2 * d;
    let r = v.reflect(n);
    let eta = unit_defect(n);
    lemma_reflect_unfolded(v, n);
    lemma_dot_rounding(v, n, REFLECT_LIMIT_RAW as int);
    lemma_dot_rounding(r, n, 25 * REFLECT_LIMIT_RAW);
    let dn = weighted_rounding(n, k);
    let nn = exact_dot(n, n);
    assert(1_000_000 * exact_dot(r, n) == 1_000_000 * exact_dot(v, n) - k * nn + dn
        && -3_000_006_000_000 <= dn <= 3_000_006_000_000) by {
        lemma_component(v.x, n.x, k);
        lemma_component(v.y, n.y, k);
        lemma_component(v.z, n.z, k);
        assert(k * nn == k * (n.x * n.x) + k * (n.y * n.y) + k * (n.z * n.z)) by (nonlinear_arith)
            requires
                nn == n.x * n.x + n.y * n.y + n.z * n.z,
        ;
    }
    assert(k * nn == 2_000_000_000_000 * d + 2 * (d * eta)) by (nonlinear_arith)
        requires
            k == 2 * d,
            nn == 1_000_000_000_000 + eta,
    ;
    let bound = magnitude(d) * magnitude(eta);
    lemma_product_bound(d, eta, magnitude(d), magnitude(eta));
    lemma_normal_component_sum(
        d,
        r.dot(n),
        exact_dot(v, n),
        exact_dot(r, n),
        dot_rounding(v, n),
        dot_rounding(r, n),
        k * nn,
        dn,
        d * eta,
        bound,
    );
    if eta == 0 {
        assert(bound == 0) by (nonlinear_arith)
            requires
                bound == magnitude(d) * 0,
        ;
    }
}

/// Reflecting a direction with components up to one about a normalised
/// normal negates the component along the normal up to forty-five
/// millionths.
pub proof fn lemma_reflect_about_normalised(v: V3, w: V3)
    requires
        within(v, SCALE as int),
        w != zero(),
    ensures
        magnitude(v.reflect(w.unit()).dot(w.unit()) + v.dot(w.unit())) <= 45,
{
    let n = w.unit();
    lemma_unit_length(w);
    lemma_reflect_negates_normal_component(v, n);
    let d = v.dot(n);
    let eta = unit_defect(n);
    lemma_product_bound(v.x, n.x, 1_000_000, 1_000_002);
    lemma_product_bound(v.y, n.y, 1_000_000, 1_000_002);
    lemma_product_bound(v.z, n.z, 1_000_000, 1_000_002);
    assert(1_000_000 * 1_000_002 == 1_000_002 * SCALE) by (nonlinear_arith)
        requires
            SCALE == 1_000_000,
    ;
    lemma_rounding(v.x, n.x, 1_000_002);
    lemma_rounding(v.y, n.y, 1_000_002);
    lemma_rounding(v.z, n.z, 1_000_002);
    assert(magnitude(d) <= 3_000_006);
    lemma_product_bound(d, eta, 3_000_006, 6_000_012);
    assert(magnitude(d) * magnitude(eta) <= 3_000_006 * 6_000_012) by (nonlinear_arith)
        requires
            0 <= magnitude(d) <= 3_000_006,
            0 <= magnitude(eta) <= 6_000_012,
    ;
}

/// The linear arithmetic behind `lemma_reflect_keeps_length`, over the exact
/// products as plain integers.
proof fn lemma_length_sum(
    lr: int,
    lv: int,
    rr: int,
    vv: int,
    rho_r: int,
    rho_v: int,
    k_vn: int,
    v_delta: int,
    kk_nn: int,
    k_dn: int,
    delta_sq: int,
    d_sq: int,
    d_e: int,
    d_dn: int,
    d_sq_eta: int,
    size_d: int,
    size_v: int,
    bound: int,
)
    requires
        1_000_000 * lr == rr - rho_r,
        1_000_000 * lv == vv - rho_v,
        0 <= rho_r < 3_000_000,
        0 <= rho_v < 3_000_000,
        1_000_000_000_000 * rr == 1_000_000_000_000 * vv - 2_000_000 * k_vn + 2_000_000 * v_delta
            + kk_nn - 2 * k_dn + delta_sq,
        k_vn == 2_000_000 * d_sq + 2 * d_e,
        kk_nn == 4_000_000_000_000 * d_sq + 4 * d_sq_eta,
        k_dn == 2 * d_dn,
        -3_000_000 * size_d <= d_e <= 3_000_000 * size_d,
        -3_000_006_000_000 * size_d <= d_dn <= 3_000_006_000_000 * size_d,
        -1_000_000 * size_v <= v_delta <= 1_000_000 * size_v,
        0 <= delta_sq <= 3_000_000_000_000,
        -bound <= d_sq_eta <= bound,
    ensures
        1_000_000_000_000_000_000 * magnitude(lr - lv) <= 3_000_000_000_000_000_000
            + 1_000_000_000_000 * (24 * size_d + 2 * size_v + 3) + 24_000_000 * size_d + 4 * bound,
{
}

/// Reflection keeps the length, up to rounding: for a normal of exactly
/// unit length the squared lengths of `v` and of its mirror image differ by
/// at most `3 + (24.000024 * |d| + 2 * size(v) + 3 millionths)` millionths,
/// where `d = dot(v, n)`; a normal whose squared length misses one by
/// `defect` adds `4 * d^2 * |defect|`. For a `v` with components up to one
/// and a normal of exactly unit length that is at most eighty-one
/// millionths.
///
/// The statement is scaled by a million cubed to stay within integers.
pub proof fn lemma_reflect_keeps_length(v: V3, n: V3)
    requires
        within(v, REFLECT_LIMIT_RAW as int),
        within(n, NORMAL_LIMIT_RAW as int),
    ensures
        1_000_000_000_000_000_000 * magnitude(
            v.reflect(n).length_squared() - v.length_squared(),
        ) <= 3_000_000_000_000_000_000 + 1_000_000_000_000 * (24 * magnitude(v.dot(n)) + 2 * size(v)
            + 3) + 24_000_000 * magnitude(v.dot(n)) + 4 * ((v.dot(n) * v.dot(n)) * magnitude(
            unit_defect(n),
        )),
        unit_defect(n) == 0 && within(v, SCALE as int) ==> magnitude(
            v.reflect(n).length_squared() - v.length_squared(),
        ) <= 81,
{
    let d = v.dot(n);
    let k = 2 * d;
    let r = v.reflect(n);
    let eta = unit_defect(n);
    let e = dot_rounding(v, n);
    lemma_reflect_unfolded(v, n);
    lemma_dot_rounding(v, n, REFLECT_LIMIT_RAW as int);
    lemma_length_rounding(r);
    lemma_length_rounding(v);
    let dn = weighted_rounding(n, k);
    let nn = exact_dot(n, n);
    let v_delta = v.x * rounding(n.x, k) + v.y * rounding(n.y, k) + v.z * rounding(n.z, k);
    let delta_sq = rounding(n.x, k) * rounding(n.x, k) + rounding(n.y, k) * rounding(n.y, k)
        + rounding(n.z, k) * rounding(n.z, k);
    assert(1_000_000_000_000 * exact_dot(r, r) == 1_000_000_000_000 * exact_dot(v, v) - 2_000_000
        * (k * exact_dot(v, n)) + 2_000_000 * v_delta + (k * k) * nn - 2 * (k * dn) + delta_sq
        && -3_000_006_000_000 <= dn <= 3_000_006_000_000 && 0 <= delta_sq <= 3_000_000_000_000
        && -1_000_000 * size(v) <= v_delta <= 1_000_000 * size(v)) by {
        lemma_component(v.x, n.x, k);
        lemma_component(v.y, n.y, k);
        lemma_component(v.z, n.z, k);
        let dx = rounding(n.x, k);
        let dy = rounding(n.y, k);
        let dz = rounding(n.z, k);
        assert(k * exact_dot(v, n) == k * (v.x * n.x) + k * (v.y * n.y) + k * (v.z * n.z))
            by (nonlinear_arith)
            requires
                exact_dot(v, n) == v.x * n.x + v.y * n.y + v.z * n.z,
        ;
        assert((k * k) * nn == (k * k) * (n.x * n.x) + (k * k) * (n.y * n.y) + (k * k) * (n.z
            * n.z)) by (nonlinear_arith)
            requires
                nn == n.x * n.x + n.y * n.y + n.z * n.z,
        ;
        assert(k * dn == k * (dx * n.x) + k * (dy * n.y) + k * (dz * n.z)) by (nonlinear_arith)
            requires
                dn == dx * n.x + dy * n.y + dz * n.z,
        ;
    }
    assert(k * exact_dot(v, n) == 2_000_000 * (d * d) + 2 * (d * e)) by (nonlinear_arith)
        requires
            k == 2 * d,
            exact_dot(v, n) == 1_000_000 * d + e,
    ;
    assert((k * k) * nn == 4_000_000_000_000 * (d * d) + 4 * ((d * d) * eta)) by (nonlinear_arith)
        requires
            k == 2 * d,
            nn == 1_000_000_000_000 + eta,
    ;
    assert(k * dn == 2 * (d * dn)) by (nonlinear_arith)
        requires
            k == 2 * d,
    ;
    lemma_product_bound(d, e, magnitude(d), 3_000_000);
    lemma_product_bound(d, dn, magnitude(d), 3_000_006_000_000);
    assert(d * d >= 0) by (nonlinear_arith);
    let bound = (d * d) * magnitude(eta);
    lemma_product_bound(d * d, eta, d * d, magnitude(eta));
    lemma_length_sum(
        r.length_squared(),
        v.length_squared(),
        exact_dot(r, r),
        exact_dot(v, v),
        dot_rounding(r, r),
        dot_rounding(v, v),
        k * exact_dot(v, n),
        v_delta,
        (k * k) * nn,
        k * dn,
        delta_sq,
        d * d,
        d * e,
        d * dn,
        (d * d) * eta,
        magnitude(d),
        size(v),
        bound,
    );
    if eta == 0 && within(v, SCALE as int) {
        assert(bound == 0) by (nonlinear_arith)
            requires
                bound == (d * d) * 0,
        ;
        lemma_product_bound(v.x, n.x, 1_000_000, 1_000_002);
        lemma_product_bound(v.y, n.y, 1_000_000, 1_000_002);
        lemma_product_bound(v.z, n.z, 1_000_000, 1_000_002);
        assert(1_000_000 * 1_000_002 == 1_000_002 * SCALE) by (nonlinear_arith)
            requires
                SCALE == 1_000_000,
        ;
        lemma_rounding(v.x, n.x, 1_000_002);
        lemma_rounding(v.y, n.y, 1_000_002);
        lemma_rounding(v.z, n.z, 1_000_002);
        assert(magnitude(d) <= 3_000_006);
    }
}

/// Largest magnitude of a coordinate of a ray or a sphere for which
/// `lemma_point_on_sphere` is proved: twenty-five thousand.
pub const SCENE_LIMIT_RAW: i64 = 25_000_000_000;

/// Rounding toward zero takes less than the divisor.
pub proof fn lemma_trunc_rounding(a: int, b: int)
    requires
        b > 0,
    ensures
        -b < a - b * trunc_div(a, b) < b,
{
    let m = magnitude(a);
    let q = m / b;
    lemma_fundamental_div_mod(m, b);
    lemma_mod_bound(m, b);
    assert(b * (-q) == -(b * q)) by (nonlinear_arith);
}

/// The arithmetic of one step along a ray: with a direction component `d`,
/// its widened unit component `n` and a distance `x` turned into the
/// parameter `t`, the rounded product `q` of `d` and `t` misses `n * x` by
/// no more than `|x| + |d| + 1` millionths of a millionth.
proof fn lemma_travel(
    k: int,
    lw: int,
    d: int,
    n: int,
    theta: int,
    x: int,
    t: int,
    tau: int,
    q: int,
    pi: int,
)
    requires
        k >= 1,
        lw >= 1,
        magnitude(k * d) <= lw,
        (k * d) * 1_000_000 == lw * n + theta,
        -lw < theta < lw,
        lw * t == x * (1_000_000 * k) - tau,
        -lw < tau < lw,
        1_000_000 * q == d * t - pi,
        -1_000_000 < pi < 1_000_000,
    ensures
        magnitude(1_000_000 * q - n * x) <= magnitude(x) + magnitude(d) + 1_000_000,
{
    let kd = k * d;
    let a = k * lw;
    let e = 1_000_000 * q - n * x;
    let xk = x * k;
    assert(a * (1_000_000 * q) == kd * (lw * t) - a * pi) by (nonlinear_arith)
        requires
            1_000_000 * q == d * t - pi,
            kd == k * d,
            a == k * lw,
    ;
    assert(kd * (lw * t) == (kd * 1_000_000) * xk - kd * tau) by (nonlinear_arith)
        requires
            lw * t == x * (1_000_000 * k) - tau,
            xk == x * k,
    ;
    assert((kd * 1_000_000) * xk == a * (n * x) + theta * xk) by (nonlinear_arith)
        requires
            kd * 1_000_000 == lw * n + theta,
            xk == x * k,
            a == k * lw,
    ;
    assert(a * e == a * (1_000_000 * q) - a * (n * x)) by (nonlinear_arith)
        requires
            e == 1_000_000 * q - n * x,
    ;
    assert(a * e == theta * xk - kd * tau - a * pi);
    assert(magnitude(xk) <= magnitude(x) * k) by (nonlinear_arith)
        requires
            xk == x * k,
            k >= 1,
    ;
    lemma_product_bound(theta, xk, lw, magnitude(x) * k);
    assert(magnitude(kd) <= magnitude(d) * k) by (nonlinear_arith)
        requires
            kd == k * d,
            k >= 1,
    ;
    lemma_product_bound(kd, tau, magnitude(d) * k, lw);
    lemma_product_bound(a, pi, a, 1_000_000);
    assert(a >= 1) by (nonlinear_arith)
        requires
            a == k * lw,
            k >= 1,
            lw >= 1,
    ;
    let c = magnitude(x) + magnitude(d) + 1_000_000;
    assert(lw * (magnitude(x) * k) + (magnitude(d) * k) * lw + a * 1_000_000 == a * c)
        by (nonlinear_arith)
        requires
            a == k * lw,
            c == magnitude(x) + magnitude(d) + 1_000_000,
    ;
    assert(magnitude(e) <= c) by (nonlinear_arith)
        requires
            -(a * c) <= a * e <= a * c,
            a >= 1,
            c >= 0,
    ;
}

/// The size of one step along a ray: the exact product of a direction
/// component and the parameter is at most the distance and twice the
/// largest component.
proof fn lemma_travel_size(k: int, lw: int, d: int, x: int, t: int, tau: int, dm: int)
    requires
        k >= 1,
        lw >= 1,
        dm >= 0,
        magnitude(k * d) <= lw,
        lw <= 2 * (k * dm),
        lw * t == x * (1_000_000 * k) - tau,
        -lw < tau < lw,
    ensures
        magnitude(d * t) <= 1_000_000 * magnitude(x) + 2 * dm,
{
    let kd = k * d;
    let lt = lw * t;
    let a = k * lw;
    let dt = d * t;
    assert(a * dt == kd * lt) by (nonlinear_arith)
        requires
            a == k * lw,
            dt == d * t,
            kd == k * d,
            lt == lw * t,
    ;
    let xs = 1_000_000 * (magnitude(x) * k);
    assert(magnitude(lt) <= xs + lw) by (nonlinear_arith)
        requires
            lt == x * (1_000_000 * k) - tau,
            -lw < tau < lw,
            k >= 1,
            xs == 1_000_000 * (magnitude(x) * k),
    ;
    lemma_product_bound(kd, lt, lw, xs + lw);
    let c = 1_000_000 * magnitude(x) + 2 * dm;
    assert(a >= 1) by (nonlinear_arith)
        requires
            a == k * lw,
            k >= 1,
            lw >= 1,
    ;
    assert(lw * (xs + lw) <= a * c) by (nonlinear_arith)
        requires
            a == k * lw,
            xs == 1_000_000 * (magnitude(x) * k),
            lw <= 2 * (k * dm),
            lw >= 1,
            k >= 1,
            c == 1_000_000 * magnitude(x) + 2 * dm,
    ;
    assert(magnitude(dt) <= c) by (nonlinear_arith)
        requires
            -(a * c) <= a * dt <= a * c,
            a >= 1,
            c >= 0,
            a == k * lw,
            k >= 1,
            lw >= 1,
    ;
}

/// One component of the point of a ray at the parameter that belongs to a
/// distance: the step `direction * t` along the component `d`, rounded as
/// the library rounds, saturates nowhere and misses the step
/// `unit(direction) * distance` by no more than `|distance| + |d| + 1`
/// millionths of a millionth.
proof fn lemma_ray_step(direction: V3, d: int, x: int)
    requires
        direction != zero(),
        within(direction, SCENE_LIMIT_RAW as int),
        d == direction.x || d == direction.y || d == direction.z,
        magnitude(x) <= 8 * REFLECT_LIMIT_RAW,
        -MAX_RAW < direction.per_length(x) < MAX_RAW,
    ensures
        ({
            let t = direction.per_length(x);
            let n = fx_div(d * direction.widening(), direction.widened().exact_length());
            let q = fx_mul(d, t);
            &&& magnitude(q) <= magnitude(x) + 50_000
            &&& magnitude(1_000_000 * q - n * x) <= magnitude(x) + magnitude(d) + 1_000_000
        }),
{
    let k = direction.widening();
    let w = direction.widened();
    let qq = exact_dot(w, w);
    let lw = w.exact_length();
    let t = direction.per_length(x);
    let limit = SCENE_LIMIT_RAW as int;
    assert(w.x * w.x >= 0 && w.y * w.y >= 0 && w.z * w.z >= 0) by (nonlinear_arith);
    lemma_floor_sqrt_exists(qq);
    let kd = d * k;
    assert(0 <= kd * kd <= qq) by (nonlinear_arith)
        requires
            kd == w.x || kd == w.y || kd == w.z,
            qq == w.x * w.x + w.y * w.y + w.z * w.z,
    ;
    lemma_component_below_length(kd, qq, lw);
    let kl = k * limit;
    assert((w.x != 0 || w.y != 0 || w.z != 0) && magnitude(w.x) <= kl && magnitude(w.y) <= kl
        && magnitude(w.z) <= kl) by (nonlinear_arith)
        requires
            w.x == direction.x * k,
            w.y == direction.y * k,
            w.z == direction.z * k,
            k >= 1,
            direction.x != 0 || direction.y != 0 || direction.z != 0,
            magnitude(direction.x) <= limit,
            magnitude(direction.y) <= limit,
            magnitude(direction.z) <= limit,
            kl == k * limit,
    ;
    assert(qq >= 1) by (nonlinear_arith)
        requires
            qq == w.x * w.x + w.y * w.y + w.z * w.z,
            w.x != 0 || w.y != 0 || w.z != 0,
    ;
    if lw < 1 {
        assert((lw + 1) * (lw + 1) <= 1) by (nonlinear_arith)
            requires
                0 <= lw < 1,
        ;
    }
    assert(qq <= 3 * (kl * kl)) by (nonlinear_arith)
        requires
            qq == w.x * w.x + w.y * w.y + w.z * w.z,
            magnitude(w.x) <= kl,
            magnitude(w.y) <= kl,
            magnitude(w.z) <= kl,
    ;
    if lw > 2 * kl {
        assert(lw * lw > 3 * (kl * kl)) by (nonlinear_arith)
            requires
                lw > 2 * kl,
                kl >= 0,
        ;
    }
    assert(magnitude(kd) * SCALE <= 1_000_000 * lw) by (nonlinear_arith)
        requires
            magnitude(kd) <= lw,
            SCALE == 1_000_000,
    ;
    lemma_quotient_rounding(kd, lw, 1_000_000);
    let n = fx_div(kd, lw);
    let theta = quotient_rounding(kd, lw);
    let num = x * (SCALE * k);
    lemma_trunc_rounding(num, lw);
    let tau = num - lw * t;
    assert(num == x * (1_000_000 * k));
    assert(kd * SCALE == kd * 1_000_000) by (nonlinear_arith)
        requires
            SCALE == 1_000_000,
    ;
    assert(kd == k * d) by (nonlinear_arith)
        requires
            kd == d * k,
    ;
    lemma_travel_size(k, lw, d, x, t, tau, limit);
    let bound = magnitude(x) + 50_000;
    assert(1_000_000 * magnitude(x) + 2 * limit == bound * SCALE);
    lemma_rounding(d, t, bound);
    let q = fx_mul(d, t);
    let pi = rounding(d, t);
    lemma_travel(k, lw, d, n, theta, x, t, tau, q, pi);
}

/// One component of the way from the centre of a sphere to a reported
/// point: the arithmetic of its square.
proof fn lemma_point_component(f: int, n: int, sh: int, w: int, g: int, r: int, gb: int)
    requires
        1_000_000 * w == g - (1_000_000 * f - n * sh),
        magnitude(f) <= r,
        magnitude(n) <= 1_000_000,
        magnitude(sh) <= r,
        magnitude(g) <= gb,
    ensures
        1_000_000_000_000 * (w * w) == 1_000_000_000_000 * (f * f) - 2 * (sh * (1_000_000 * (f
            * n))) + (sh * sh) * (n * n) - 2 * ((1_000_000 * f - n * sh) * g) + g * g,
        magnitude((1_000_000 * f - n * sh) * g) <= 2_000_000 * (r * gb),
        0 <= g * g <= gb * gb,
{
    let a = 1_000_000 * f - n * sh;
    let sw = 1_000_000 * w;
    assert(sw * sw == a * a - 2 * (a * g) + g * g) by (nonlinear_arith)
        requires
            sw == g - a,
    ;
    assert(sw * sw == 1_000_000_000_000 * (w * w)) by (nonlinear_arith)
        requires
            sw == 1_000_000 * w,
    ;
    let sf = 1_000_000 * f;
    let ns = n * sh;
    assert(a * a == sf * sf - 2 * (sf * ns) + ns * ns) by (nonlinear_arith)
        requires
            a == sf - ns,
    ;
    assert(sf * sf == 1_000_000_000_000 * (f * f)) by (nonlinear_arith)
        requires
            sf == 1_000_000 * f,
    ;
    assert(sf * ns == sh * (1_000_000 * (f * n))) by (nonlinear_arith)
        requires
            sf == 1_000_000 * f,
            ns == n * sh,
    ;
    assert(ns * ns == (sh * sh) * (n * n)) by (nonlinear_arith)
        requires
            ns == n * sh,
    ;
    lemma_product_bound(n, sh, 1_000_000, r);
    assert(magnitude(a) <= 2_000_000 * r);
    lemma_product_bound(a, g, 2_000_000 * r, gb);
    assert((2_000_000 * r) * gb == 2_000_000 * (r * gb)) by (nonlinear_arith);
    lemma_product_bound(g, g, gb, gb);
    assert(g * g >= 0) by (nonlinear_arith);
}

/// The linear arithmetic behind `lemma_point_on_sphere`, over the exact
/// products as plain integers.
proof fn lemma_point_sum(
    ww: int,
    ff: int,
    hh: int,
    rr: int,
    rest: int,
    cross: int,
    hh_eta: int,
    ag: int,
    gg: int,
    r: int,
    b_cross: int,
    b_eta: int,
    b_ag: int,
    b_gg: int,
)
    requires
        1_000_000_000_000 * ww == 1_000_000_000_000 * ff - 2 * cross + 1_000_000_000_000 * hh
            + hh_eta - 2 * ag + gg,
        ff + hh == rr - rest,
        0 <= rest <= 2 * r,
        -b_cross <= cross <= b_cross,
        -b_eta <= hh_eta <= b_eta,
        -b_ag <= ag <= b_ag,
        0 <= gg <= b_gg,
    ensures
        1_000_000_000_000 * magnitude(ww - rr) <= 2_000_000_000_000 * r + 2 * b_cross + b_eta + 2
            * b_ag + b_gg,
{
}

/// The way from the centre of a sphere to a point, without rounding.
pub open spec fn from_center(center: V3, p: V3) -> V3 {
    V3 { x: p.x - center.x, y: p.y - center.y, z: p.z - center.z }
}

/// What the roundings along the way to a reported point can add up to, in
/// millionths: the distance to the point nearest the centre, the radius, the
/// size of the direction, and two.
pub open spec fn slack(h: int, radius: int, direction: V3) -> int {
    magnitude(h) + radius + size(direction) + 2_000_000
}

/// The arithmetic of a reported point: from what its three components are
/// made of to the bound on its distance from the centre.
proof fn lemma_point_arith(
    f: V3,
    n: V3,
    w: V3,
    g: V3,
    sh: int,
    half: int,
    radius: int,
    rest: int,
    fb: int,
    gb: int,
)
    requires
        1_000_000 * w.x == g.x - (1_000_000 * f.x - n.x * sh),
        1_000_000 * w.y == g.y - (1_000_000 * f.y - n.y * sh),
        1_000_000 * w.z == g.z - (1_000_000 * f.z - n.z * sh),
        within(f, radius),
        within(n, 1_000_000),
        within(g, gb),
        0 <= half <= radius,
        sh == half || sh == -half,
        -6_000_000 <= unit_defect(n) <= 935,
        magnitude(1_000_000 * exact_dot(f, n)) <= fb,
        exact_dot(f, f) + half * half == radius * radius - rest,
        0 <= rest <= 2 * half,
    ensures
        1_000_000_000_000 * magnitude(exact_dot(w, w) - radius * radius) <= 2_000_000_000_000
            * radius + 2 * (radius * fb) + (radius * radius) * 6_000_000 + 12_000_000 * (radius
            * gb) + 3 * (gb * gb),
{
    let eta = unit_defect(n);
    let nn = exact_dot(n, n);
    let fnn = 1_000_000 * exact_dot(f, n);
    let hh = half * half;
    assert(sh * sh == hh) by (nonlinear_arith)
        requires
            sh == half || sh == -half,
            hh == half * half,
    ;
    lemma_point_component(f.x, n.x, sh, w.x, g.x, radius, gb);
    lemma_point_component(f.y, n.y, sh, w.y, g.y, radius, gb);
    lemma_point_component(f.z, n.z, sh, w.z, g.z, radius, gb);
    let ww = exact_dot(w, w);
    let ff = exact_dot(f, f);
    let cross = sh * fnn;
    assert(cross == sh * (1_000_000 * (f.x * n.x)) + sh * (1_000_000 * (f.y * n.y)) + sh * (
    1_000_000 * (f.z * n.z))) by (nonlinear_arith)
        requires
            cross == sh * fnn,
            fnn == 1_000_000 * (f.x * n.x + f.y * n.y + f.z * n.z),
    ;
    let hh_nn = hh * nn;
    assert(hh_nn == hh * (n.x * n.x) + hh * (n.y * n.y) + hh * (n.z * n.z)) by (nonlinear_arith)
        requires
            hh_nn == hh * nn,
            nn == n.x * n.x + n.y * n.y + n.z * n.z,
    ;
    let hh_eta = hh * eta;
    assert(hh_nn == 1_000_000_000_000 * hh + hh_eta) by (nonlinear_arith)
        requires
            hh_nn == hh * nn,
            nn == 1_000_000_000_000 + eta,
            hh_eta == hh * eta,
    ;
    let ag = (1_000_000 * f.x - n.x * sh) * g.x + (1_000_000 * f.y - n.y * sh) * g.y + (1_000_000
        * f.z - n.z * sh) * g.z;
    let gg = g.x * g.x + g.y * g.y + g.z * g.z;
    lemma_product_bound(sh, fnn, radius, fb);
    assert(hh >= 0 && hh <= radius * radius) by (nonlinear_arith)
        requires
            hh == half * half,
            0 <= half <= radius,
    ;
    lemma_product_bound(hh, eta, radius * radius, 6_000_000);
    lemma_point_sum(
        ww,
        ff,
        hh,
        radius * radius,
        rest,
        cross,
        hh_eta,
        ag,
        gg,
        radius,
        radius * fb,
        (radius * radius) * 6_000_000,
        6_000_000 * (radius * gb),
        3 * (gb * gb),
    );
}

/// The foot of a sphere's centre on a ray: nothing saturates on the way to
/// it, and it is perpendicular to the unit direction up to rounding.
proof fn lemma_sphere_foot(s: crate::sphere::SphereModel, r: crate::ray::RayModel)
    requires
        within(r.origin, SCENE_LIMIT_RAW as int),
        within(s.center, SCENE_LIMIT_RAW as int),
        r.direction != zero(),
    ensures
        ({
            let n = r.direction.unit();
            let h = s.h(r);
            let f = s.foot(r);
            &&& nearly_unit(n)
            &&& magnitude(h) <= 6 * REFLECT_LIMIT_RAW
            &&& f.x == s.center.x - r.origin.x - fx_mul(n.x, h)
            &&& f.y == s.center.y - r.origin.y - fx_mul(n.y, h)
            &&& f.z == s.center.z - r.origin.z - fx_mul(n.z, h)
            &&& -1_000_000 < n.x * h - 1_000_000 * fx_mul(n.x, h) < 1_000_000
            &&& -1_000_000 < n.y * h - 1_000_000 * fx_mul(n.y, h) < 1_000_000
            &&& -1_000_000 < n.z * h - 1_000_000 * fx_mul(n.z, h) < 1_000_000
            &&& magnitude(1_000_000 * exact_dot(f, n)) <= 6_000_006_000_000 + 6_000_000
                * magnitude(h)
        }),
{
    let d = r.direction;
    let n = d.unit();
    let oc = s.oc(r);
    let h = s.h(r);
    let f = s.foot(r);
    let eta = unit_defect(n);
    let limit = REFLECT_LIMIT_RAW as int;
    lemma_unit_length(d);
    crate::vec3::lemma_dot_commutes(n, oc);
    lemma_dot_rounding(oc, n, limit);
    let eps = dot_rounding(oc, n);
    let dn = rounding(n.x, h) * n.x + rounding(n.y, h) * n.y + rounding(n.z, h) * n.z;
    let nn = exact_dot(n, n);
    let fnn = 1_000_000 * exact_dot(f, n);
    assert(f == (V3 { x: oc.x - fx_mul(n.x, h), y: oc.y - fx_mul(n.y, h), z: oc.z - fx_mul(n.z, h) })
        && fnn == 1_000_000 * exact_dot(oc, n) - h * nn + dn && -3_000_006_000_000 <= dn
        <= 3_000_006_000_000 && -1_000_000 < rounding(n.x, h) < 1_000_000 && -1_000_000
        < rounding(n.y, h) < 1_000_000 && -1_000_000 < rounding(n.z, h) < 1_000_000) by {
        lemma_component(oc.x, n.x, h);
        lemma_component(oc.y, n.y, h);
        lemma_component(oc.z, n.z, h);
        assert(h * nn == h * (n.x * n.x) + h * (n.y * n.y) + h * (n.z * n.z)) by (nonlinear_arith)
            requires
                nn == n.x * n.x + n.y * n.y + n.z * n.z,
        ;
    }
    assert(h * nn == 1_000_000_000_000 * h + h * eta) by (nonlinear_arith)
        requires
            nn == 1_000_000_000_000 + eta,
    ;
    lemma_product_bound(h, eta, magnitude(h), 6_000_000);
    assert(magnitude(h) * 6_000_000 == 6_000_000 * magnitude(h)) by (nonlinear_arith);
}

/// Half the chord of a sphere on a ray is at most the radius, and misses
/// the exact half by a rounding; the foot is no longer than the radius.
proof fn lemma_sphere_half(s: crate::sphere::SphereModel, r: crate::ray::RayModel)
    requires
        0 <= s.radius <= SCENE_LIMIT_RAW,
        s.discriminant(r) >= 0,
    ensures
        ({
            let half = s.half_chord(r);
            let f = s.foot(r);
            let rest = s.discriminant(r) - half * half;
            &&& 0 <= half <= s.radius
            &&& 0 <= rest <= 2 * half
            &&& within(f, s.radius)
            &&& exact_dot(f, f) + half * half == s.radius * s.radius - rest
        }),
{
    let f = s.foot(r);
    let radius = s.radius;
    let gap = s.discriminant(r);
    assert(f.x * f.x >= 0 && f.y * f.y >= 0 && f.z * f.z >= 0) by (nonlinear_arith);
    lemma_floor_sqrt_exists(gap);
    let root = crate::fixed::floor_sqrt(gap);
    if root > radius {
        assert(root * root > radius * radius) by (nonlinear_arith)
            requires
                root > radius,
                radius >= 0,
        ;
    }
    assert((root + 1) * (root + 1) == root * root + 2 * root + 1) by (nonlinear_arith);
    assert(radius * radius < (radius + 1) * (radius + 1)) by (nonlinear_arith)
        requires
            radius >= 0,
    ;
    lemma_component_below_length(f.x, radius * radius, radius);
    lemma_component_below_length(f.y, radius * radius, radius);
    lemma_component_below_length(f.z, radius * radius, radius);
}

/// The point of a ray at the parameter that belongs to a distance `x`,
/// seen from the centre of a sphere: nothing saturates, and each component
/// misses `unit(direction) * x - (center - origin)` by no more than
/// `|x| + |direction| + 1` millionths of a millionth.
proof fn lemma_sphere_steps(r: crate::ray::RayModel, center: V3, x: int)
    requires
        within(r.origin, SCENE_LIMIT_RAW as int),
        within(r.direction, SCENE_LIMIT_RAW as int),
        within(center, SCENE_LIMIT_RAW as int),
        r.direction != zero(),
        magnitude(x) <= 8 * REFLECT_LIMIT_RAW,
        -MAX_RAW < r.direction.per_length(x) < MAX_RAW,
    ensures
        ({
            let d = r.direction;
            let n = d.unit();
            let w = from_center(center, r.at(d.per_length(x)));
            &&& magnitude(1_000_000 * w.x - (n.x * x - 1_000_000 * (center.x - r.origin.x)))
                <= magnitude(x) + magnitude(d.x) + 1_000_000
            &&& magnitude(1_000_000 * w.y - (n.y * x - 1_000_000 * (center.y - r.origin.y)))
                <= magnitude(x) + magnitude(d.y) + 1_000_000
            &&& magnitude(1_000_000 * w.z - (n.z * x - 1_000_000 * (center.z - r.origin.z)))
                <= magnitude(x) + magnitude(d.z) + 1_000_000
        }),
{
    let d = r.direction;
    lemma_ray_step(d, d.x, x);
    lemma_ray_step(d, d.y, x);
    lemma_ray_step(d, d.z, x);
}

/// Whether a point lies on a sphere up to the rounding on the way to it
/// along a ray: with `w` the way from the centre to the point, `R` the
/// radius, `h` the distance along the ray to the point nearest the centre
/// and `G` the slack, `| |w|^2 - R^2 |` is at most
/// `R * (14.000012 + 12 * |h| + 6 * R) + 12 * R * G + 3 * G^2` millionths,
/// each length taken in units of one. For lengths of about one that is a few
/// hundred-thousandths. The inequality is scaled by a million squared to
/// stay within integers.
pub open spec fn near_sphere(s: crate::sphere::SphereModel, r: crate::ray::RayModel, p: V3) -> bool {
    let w = from_center(s.center, p);
    let g = slack(s.h(r), s.radius, r.direction);
    1_000_000_000_000 * magnitude(exact_dot(w, w) - s.radius * s.radius) <= s.radius * (
    14_000_012_000_000 + 12_000_000 * magnitude(s.h(r)) + 6_000_000 * s.radius) + 12_000_000 * (
    s.radius * g) + 3 * (g * g)
}

/// Whether a ray and a sphere lie within twenty-five thousand of the
/// origin, so that nothing saturates on the way to a point of the sphere.
pub open spec fn in_scene(s: crate::sphere::SphereModel, r: crate::ray::RayModel) -> bool {
    &&& within(r.origin, SCENE_LIMIT_RAW as int)
    &&& within(r.direction, SCENE_LIMIT_RAW as int)
    &&& within(s.center, SCENE_LIMIT_RAW as int)
    &&& 0 <= s.radius <= SCENE_LIMIT_RAW
}

/// What is left of one component of a reported point when the foot and the
/// half chord are taken away: the roundings of the step and of the foot.
proof fn lemma_leftover(w: int, oc: int, f: int, m: int, n: int, x: int, h: int, sh: int, eb: int)
    requires
        f == oc - m,
        x == h + sh,
        magnitude(1_000_000 * w - (n * x - 1_000_000 * oc)) <= eb,
        -1_000_000 < n * h - 1_000_000 * m < 1_000_000,
    ensures
        magnitude(1_000_000 * w + (1_000_000 * f - n * sh)) <= eb + 1_000_000,
{
    assert(n * x == n * h + n * sh) by (nonlinear_arith)
        requires
            x == h + sh,
    ;
}

/// The point of a ray at the parameter that belongs to one of the two
/// distances `h - half_chord` and `h + half_chord` lies on the sphere, up
/// to the rounding that `lemma_point_on_sphere` states.
proof fn lemma_point_at_distance(s: crate::sphere::SphereModel, r: crate::ray::RayModel, x: int)
    requires
        within(r.origin, SCENE_LIMIT_RAW as int),
        within(r.direction, SCENE_LIMIT_RAW as int),
        within(s.center, SCENE_LIMIT_RAW as int),
        0 <= s.radius <= SCENE_LIMIT_RAW,
        r.direction != zero(),
        s.discriminant(r) >= 0,
        x == fx_sub(s.h(r), s.half_chord(r)) || x == crate::fixed::fx_add(s.h(r), s.half_chord(r)),
        -MAX_RAW < r.direction.per_length(x) < MAX_RAW,
    ensures
        ({
            let w = from_center(s.center, r.at(r.direction.per_length(x)));
            let g = slack(s.h(r), s.radius, r.direction);
            1_000_000_000_000 * magnitude(exact_dot(w, w) - s.radius * s.radius) <= s.radius * (
            14_000_012_000_000 + 12_000_000 * magnitude(s.h(r)) + 6_000_000 * s.radius)
                + 12_000_000 * (s.radius * g) + 3 * (g * g)
        }),
{
    let d = r.direction;
    let n = d.unit();
    let h = s.h(r);
    let f = s.foot(r);
    let radius = s.radius;
    let half = s.half_chord(r);
    let sh = x - h;
    let w = from_center(s.center, r.at(d.per_length(x)));
    let gb = slack(h, radius, d);
    let fb = 6_000_006_000_000 + 6_000_000 * magnitude(h);
    let rest = s.discriminant(r) - half * half;
    let g = V3 {
        x: 1_000_000 * w.x + (1_000_000 * f.x - n.x * sh),
        y: 1_000_000 * w.y + (1_000_000 * f.y - n.y * sh),
        z: 1_000_000 * w.z + (1_000_000 * f.z - n.z * sh),
    };
    let mx = fx_mul(n.x, h);
    let my = fx_mul(n.y, h);
    let mz = fx_mul(n.z, h);
    let ox = s.center.x - r.origin.x;
    let oy = s.center.y - r.origin.y;
    let oz = s.center.z - r.origin.z;
    assert(0 <= half <= radius && 0 <= rest <= 2 * half && within(f, radius) && exact_dot(f, f)
        + half * half == radius * radius - rest) by {
        lemma_sphere_half(s, r);
    }
    assert(within(n, 1_000_000) && -6_000_000 <= unit_defect(n) <= 935 && magnitude(h) <= 6
        * REFLECT_LIMIT_RAW && magnitude(1_000_000 * exact_dot(f, n)) <= fb && f.x == ox - mx
        && f.y == oy - my && f.z == oz - mz && -1_000_000 < n.x * h - 1_000_000 * mx < 1_000_000
        && -1_000_000 < n.y * h - 1_000_000 * my < 1_000_000 && -1_000_000 < n.z * h - 1_000_000
        * mz < 1_000_000) by {
        lemma_sphere_foot(s, r);
    }
    assert(sh == half || sh == -half);
    let ebx = magnitude(x) + magnitude(d.x) + 1_000_000;
    let eby = magnitude(x) + magnitude(d.y) + 1_000_000;
    let ebz = magnitude(x) + magnitude(d.z) + 1_000_000;
    assert(magnitude(1_000_000 * w.x - (n.x * x - 1_000_000 * ox)) <= ebx && magnitude(
        1_000_000 * w.y - (n.y * x - 1_000_000 * oy),
    ) <= eby && magnitude(1_000_000 * w.z - (n.z * x - 1_000_000 * oz)) <= ebz) by {
        lemma_sphere_steps(r, s.center, x);
    }
    lemma_leftover(w.x, ox, f.x, mx, n.x, x, h, sh, ebx);
    lemma_leftover(w.y, oy, f.y, my, n.y, x, h, sh, eby);
    lemma_leftover(w.z, oz, f.z, mz, n.z, x, h, sh, ebz);
    assert(within(g, gb));
    lemma_point_arith(f, n, w, g, sh, half, radius, rest, fb, gb);
    assert(radius * fb == radius * 6_000_006_000_000 + radius * (6_000_000 * magnitude(h)))
        by (nonlinear_arith)
        requires
            fb == 6_000_006_000_000 + 6_000_000 * magnitude(h),
    ;
    assert(radius * (14_000_012_000_000 + 12_000_000 * magnitude(h) + 6_000_000 * radius)
        == 2_000_000_000_000 * radius + 2 * (radius * 6_000_006_000_000 + radius * (6_000_000
        * magnitude(h))) + (radius * radius) * 6_000_000) by (nonlinear_arith);
}

/// A point that a sphere in the scene reports for a range between the two
/// extremes lies on the sphere, up to rounding.
pub proof fn lemma_point_on_sphere(
    s: crate::sphere::SphereModel,
    r: crate::ray::RayModel,
    ray_t: crate::interval::Span,
)
    requires
        in_scene(s, r),
        -MAX_RAW <= ray_t.min,
        ray_t.max <= MAX_RAW,
        s.hit(r, ray_t) is Some,
    ensures
        near_sphere(s, r, s.hit(r, ray_t)->Some_0.p),
{
    let x = if ray_t.surrounds(s.near_root(r)) {
        fx_sub(s.h(r), s.half_chord(r))
    } else {
        crate::fixed::fx_add(s.h(r), s.half_chord(r))
    };
    let t = s.root(r, ray_t)->Some_0;
    assert(t == r.direction.per_length(x));
    assert(s.hit(r, ray_t)->Some_0.p == r.at(t));
    lemma_point_at_distance(s, r, x);
}

/// The linear arithmetic behind `lemma_refract_straight`: how far the exact
/// squared length `p` of the part of the refracted ray across the normal is
/// from `1 - cos^2`, over the exact products as plain integers.
proof fn lemma_bend_sum(
    p: int,
    cos: int,
    cos2: int,
    eta_u: int,
    eta_n: int,
    ua: int,
    aa: int,
    cos_x: int,
    cos_kappa: int,
    cos_eps: int,
    u_alpha: int,
    cos2_eta: int,
    cos_n_alpha: int,
    alpha2: int,
)
    requires
        p >= 0,
        p == 1_000_000_000_000 + eta_u + 2 * ua + aa,
        1_000_000 * ua == cos_x - u_alpha,
        1_000_000_000_000 * aa == 1_000_000_000_000 * cos2 + cos2_eta - 2 * cos_n_alpha + alpha2,
        cos_x == -1_000_000 * cos2 - 1_000_000 * cos_kappa - cos_eps,
        cos_kappa >= 0,
        cos_kappa == 0 || cos2 == 1_000_000_000_000,
        -6_000_000 <= eta_u <= 6_000_000,
        -3_000_000_000_000 <= cos_eps <= 3_000_000_000_000,
        -3_000_000_000_000 <= u_alpha <= 3_000_000_000_000,
        -6_000_000_000_000_000_000 <= cos2_eta <= 6_000_000_000_000_000_000,
        -3_000_000_000_000_000_000 <= cos_n_alpha <= 3_000_000_000_000_000_000,
        0 <= alpha2 <= 3_000_000_000_000,
    ensures
        magnitude(1_000_000_000_000 - p - cos2) <= 60_000_006,
{
}

/// Two numbers that are not negative and whose squares are close are close.
proof fn lemma_roots_close(s: int, cos: int, zs: int, e: int)
    requires
        s >= 0,
        cos >= 0,
        s * s <= zs < (s + 1) * (s + 1),
        cos * cos - e <= zs <= cos * cos + e,
        0 <= e <= 63_000_007,
    ensures
        magnitude(s - cos) <= 8_063,
{
    if s >= cos + 8_064 {
        assert(s * s >= cos * cos + 65_028_096) by (nonlinear_arith)
            requires
                s >= cos + 8_064,
                cos >= 0,
        ;
    }
    if cos >= s + 8_064 {
        assert(cos * cos >= (s + 1) * (s + 1) + 65_011_969) by (nonlinear_arith)
            requires
                cos >= (s + 1) + 8_063,
                s >= 0,
        ;
    }
}

/// A component of at most one, times two numbers that are close, gives
/// products that are close.
proof fn lemma_products_close(n: int, cos: int, s: int, gap: int)
    requires
        magnitude(n) <= 1_000_000,
        0 <= cos <= 1_000_000,
        0 <= s <= 2_000_000,
        magnitude(cos - s) <= gap,
    ensures
        magnitude(fx_mul(n, cos) - fx_mul(n, s)) <= gap + 2,
{
    lemma_product_bound(n, cos, 1_000_000, 1_000_000);
    lemma_product_bound(n, s, 1_000_000, 2_000_000);
    assert(1_000_000int * 1_000_000 == 1_000_000 * SCALE && 1_000_000int * 2_000_000 == 2_000_000
        * SCALE);
    lemma_rounding(n, cos, 1_000_000);
    lemma_rounding(n, s, 2_000_000);
    let a = fx_mul(n, cos);
    let b = fx_mul(n, s);
    lemma_product_bound(n, cos - s, 1_000_000, gap);
    assert(n * (cos - s) == n * cos - n * s) by (nonlinear_arith);
    assert(1_000_000 * gap == gap * 1_000_000) by (nonlinear_arith);
    assert(1_000_000 * gap >= 0);
}

/// One component of the part of a refracted ray across the normal,
/// `u + n * cos`: its exact products in terms of those of `u` and `n`.
proof fn lemma_across_component(u: int, n: int, cos: int)
    requires
        magnitude(u) <= 1_000_000,
        magnitude(n) <= 1_000_000,
        0 <= cos <= 1_000_000,
    ensures
        ({
            let a = fx_mul(n, cos);
            let alpha = rounding(n, cos);
            &&& magnitude(a) <= 1_000_000
            &&& fx_mul(crate::fixed::fx_add(u, a), SCALE as int) == u + a
            &&& (u + a) * (u + a) == u * u + 2 * (u * a) + a * a
            &&& 1_000_000 * (u * a) == cos * (u * n) - u * alpha
            &&& 1_000_000_000_000 * (a * a) == (cos * cos) * (n * n) - 2 * (cos * (n * alpha))
                + alpha * alpha
            &&& magnitude(u * alpha) <= 1_000_000_000_000
            &&& magnitude(cos * (n * alpha)) <= 1_000_000_000_000_000_000
            &&& 0 <= alpha * alpha <= 1_000_000_000_000
        }),
{
    lemma_product_bound(n, cos, 1_000_000, 1_000_000);
    assert(1_000_000int * 1_000_000 == 1_000_000 * SCALE);
    lemma_rounding(n, cos, 1_000_000);
    let a = fx_mul(n, cos);
    let alpha = rounding(n, cos);
    crate::fixed::lemma_mul_one(u + a);
    assert((u + a) * (u + a) == u * u + 2 * (u * a) + a * a) by (nonlinear_arith);
    let sa = 1_000_000 * a;
    let nc = n * cos;
    assert(sa == nc - alpha);
    assert(1_000_000 * (u * a) == u * sa) by (nonlinear_arith)
        requires
            sa == 1_000_000 * a,
    ;
    assert(u * sa == cos * (u * n) - u * alpha) by (nonlinear_arith)
        requires
            sa == n * cos - alpha,
    ;
    assert(sa * sa == 1_000_000_000_000 * (a * a)) by (nonlinear_arith)
        requires
            sa == 1_000_000 * a,
    ;
    assert(sa * sa == nc * nc - 2 * (nc * alpha) + alpha * alpha) by (nonlinear_arith)
        requires
            sa == nc - alpha,
    ;
    assert(nc * nc == (cos * cos) * (n * n)) by (nonlinear_arith)
        requires
            nc == n * cos,
    ;
    assert(nc * alpha == cos * (n * alpha)) by (nonlinear_arith)
        requires
            nc == n * cos,
    ;
    lemma_product_bound(u, alpha, 1_000_000, 1_000_000);
    lemma_product_bound(n, alpha, 1_000_000, 1_000_000);
    lemma_product_bound(cos, n * alpha, 1_000_000, 1_000_000_000_000);
    lemma_product_bound(alpha, alpha, 1_000_000, 1_000_000);
    assert(alpha * alpha >= 0) by (nonlinear_arith);
    assert(1_000_000int * 1_000_000_000_000 == 1_000_000_000_000_000_000);
}

/// Cosine of the angle of incidence as `refract` takes it: the reversed
/// direction dotted with the normal, capped at one.
pub open spec fn incidence(u: V3, n: V3) -> int {
    crate::fixed::fx_min(u.negated().dot(n), SCALE as int)
}

/// The part of a refracted ray across the normal at equal indices,
/// `u + n * cos`.
pub open spec fn across(u: V3, n: V3) -> V3 {
    V3 {
        x: u.x + fx_mul(n.x, incidence(u, n)),
        y: u.y + fx_mul(n.y, incidence(u, n)),
        z: u.z + fx_mul(n.z, incidence(u, n)),
    }
}

/// At equal indices the part of the refracted ray across the normal has
/// the squared length `1 - cos^2`, up to sixty millionths.
proof fn lemma_across(u: V3, n: V3)
    requires
        nearly_unit(u),
        nearly_unit(n),
        u.negated().dot(n) >= 0,
    ensures
        0 <= incidence(u, n) <= SCALE,
        u.plus(n.scaled(incidence(u, n))).scaled(SCALE as int) == across(u, n),
        within(across(u, n), 2_000_000),
        exact_dot(across(u, n), across(u, n)) >= 0,
        magnitude(
            1_000_000_000_000 - exact_dot(across(u, n), across(u, n)) - incidence(u, n)
                * incidence(u, n),
        ) <= 60_000_006,
{
    let neg = u.negated();
    let c0 = neg.dot(n);
    let cos = incidence(u, n);
    let kappa = c0 - cos;
    let x = exact_dot(u, n);
    lemma_dot_rounding(neg, n, 1_000_000);
    let eps = dot_rounding(neg, n);
    assert(exact_dot(neg, n) == -x) by (nonlinear_arith)
        requires
            exact_dot(neg, n) == (-u.x) * n.x + (-u.y) * n.y + (-u.z) * n.z,
            x == u.x * n.x + u.y * n.y + u.z * n.z,
    ;
    let pp = across(u, n);
    let p = exact_dot(pp, pp);
    let ax = fx_mul(n.x, cos);
    let ay = fx_mul(n.y, cos);
    let az = fx_mul(n.z, cos);
    let lx = rounding(n.x, cos);
    let ly = rounding(n.y, cos);
    let lz = rounding(n.z, cos);
    let ua = u.x * ax + u.y * ay + u.z * az;
    let aa = ax * ax + ay * ay + az * az;
    let u_alpha = u.x * lx + u.y * ly + u.z * lz;
    let n_alpha = n.x * lx + n.y * ly + n.z * lz;
    let cos_n_alpha = cos * (n.x * lx) + cos * (n.y * ly) + cos * (n.z * lz);
    let alpha2 = lx * lx + ly * ly + lz * lz;
    let cos2 = cos * cos;
    let nn = exact_dot(n, n);
    let eta_n = unit_defect(n);
    let eta_u = unit_defect(u);
    assert(u.plus(n.scaled(cos)).scaled(SCALE as int) == pp && within(pp, 2_000_000) && p
        == 1_000_000_000_000 + eta_u + 2 * ua + aa && 1_000_000 * ua == cos * x - u_alpha
        && 1_000_000_000_000 * aa == cos2 * nn - 2 * cos_n_alpha + alpha2 && -3_000_000_000_000
        <= u_alpha <= 3_000_000_000_000 && -3_000_000_000_000_000_000 <= cos_n_alpha
        <= 3_000_000_000_000_000_000 && 0 <= alpha2 <= 3_000_000_000_000) by {
        lemma_across_component(u.x, n.x, cos);
        lemma_across_component(u.y, n.y, cos);
        lemma_across_component(u.z, n.z, cos);
        assert(cos * x == cos * (u.x * n.x) + cos * (u.y * n.y) + cos * (u.z * n.z))
            by (nonlinear_arith)
            requires
                x == u.x * n.x + u.y * n.y + u.z * n.z,
        ;
        assert(cos2 * nn == cos2 * (n.x * n.x) + cos2 * (n.y * n.y) + cos2 * (n.z * n.z))
            by (nonlinear_arith)
            requires
                nn == n.x * n.x + n.y * n.y + n.z * n.z,
        ;
    }
    assert(p >= 0) by (nonlinear_arith)
        requires
            p == pp.x * pp.x + pp.y * pp.y + pp.z * pp.z,
    ;
    let cos2_eta = cos2 * eta_n;
    assert(cos2 * nn == 1_000_000_000_000 * cos2 + cos2_eta) by (nonlinear_arith)
        requires
            nn == 1_000_000_000_000 + eta_n,
            cos2_eta == cos2 * eta_n,
    ;
    let cos_kappa = cos * kappa;
    let cos_eps = cos * eps;
    assert(cos * x == -1_000_000 * cos2 - 1_000_000 * cos_kappa - cos_eps) by (nonlinear_arith)
        requires
            x == -1_000_000 * cos - 1_000_000 * kappa - eps,
            cos2 == cos * cos,
            cos_kappa == cos * kappa,
            cos_eps == cos * eps,
    ;
    assert(cos_kappa >= 0 && (cos_kappa == 0 || cos2 == 1_000_000_000_000) && 0 <= cos2
        <= 1_000_000_000_000) by (nonlinear_arith)
        requires
            cos_kappa == cos * kappa,
            cos2 == cos * cos,
            0 <= cos <= 1_000_000,
            kappa >= 0,
            kappa == 0 || cos == 1_000_000,
    ;
    lemma_product_bound(cos, eps, 1_000_000, 3_000_000);
    lemma_product_bound(cos2, eta_n, 1_000_000_000_000, 6_000_000);
    lemma_bend_sum(
        p,
        cos,
        cos2,
        eta_u,
        eta_n,
        ua,
        aa,
        cos * x,
        cos_kappa,
        cos_eps,
        u_alpha,
        cos2_eta,
        cos_n_alpha,
        alpha2,
    );
}

/// The factor of the part of a refracted ray along the normal, as
/// `refract` takes it at equal indices: the square root of
/// `|1 - |across|^2|`.
pub open spec fn along(u: V3, n: V3) -> int {
    crate::fixed::fx_sqrt(
        crate::fixed::fx_abs(fx_sub(SCALE as int, across(u, n).length_squared())),
    )
}

/// At equal indices the factor along the normal is the cosine of the angle
/// of incidence, up to 8063 millionths.
proof fn lemma_along(u: V3, n: V3)
    requires
        nearly_unit(u),
        nearly_unit(n),
        u.negated().dot(n) >= 0,
    ensures
        0 <= incidence(u, n) <= SCALE,
        0 <= along(u, n) <= 2_000_000,
        magnitude(along(u, n) - incidence(u, n)) <= 8_063,
        u.plus(n.scaled(incidence(u, n))).scaled(SCALE as int) == across(u, n),
{
    let cos = incidence(u, n);
    let pp = across(u, n);
    let p = exact_dot(pp, pp);
    let lp = pp.length_squared();
    let rho = dot_rounding(pp, pp);
    let cos2 = cos * cos;
    lemma_across(u, n);
    lemma_length_rounding(pp);
    assert(1_000_000 * lp == p - rho);
    assert(0 <= rho < 3_000_000);
    assert(cos2 >= 0) by (nonlinear_arith)
        requires
            cos2 == cos * cos,
    ;
    assert(-60_000_006 <= 1_000_000_000_000 - p - cos2 <= 60_000_006);
    assert(-3 < lp <= 1_000_061);
    let z = crate::fixed::fx_abs(fx_sub(SCALE as int, lp));
    assert(z == magnitude(1_000_000 - lp));
    let zs = 1_000_000 * z;
    let value = 1_000_000_000_000 - p + rho;
    assert(zs == magnitude(value));
    assert(cos2 - 60_000_006 <= value <= cos2 + 63_000_006);
    assert(cos2 - 63_000_006 <= zs <= cos2 + 63_000_006);
    let s = along(u, n);
    assert(s == crate::fixed::fx_sqrt(z));
    if z > 0 {
        assert(z * SCALE == zs) by (nonlinear_arith)
            requires
                SCALE == 1_000_000,
                zs == 1_000_000 * z,
        ;
        lemma_floor_sqrt_exists(zs);
        assert(s == crate::fixed::floor_sqrt(zs));
        assert(0 <= s && s * s <= zs < (s + 1) * (s + 1));
    } else {
        assert(s == 0 && zs == 0);
        assert(s * s <= zs < (s + 1) * (s + 1)) by (nonlinear_arith)
            requires
                s == 0,
                zs == 0,
        ;
    }
    lemma_roots_close(s, cos, zs, 63_000_006);
}

/// Refraction at equal indices hardly bends: for a unit direction `u` and a
/// unit normal `n` that opposes it, no component of `refract(u, n, 1)`
/// differs from that of `u` by more than 8065 millionths. The bound is that
/// of rays that graze the surface, where a square root is taken of a number
/// near zero; the steeper the ray, the less it bends.
pub proof fn lemma_refract_straight(u: V3, n: V3)
    requires
        nearly_unit(u),
        nearly_unit(n),
        u.negated().dot(n) >= 0,
    ensures
        within(from_center(u, u.refract(n, SCALE as int)), 8_065),
{
    let cos = incidence(u, n);
    let s = along(u, n);
    let pp = across(u, n);
    lemma_along(u, n);
    let out = u.refract(n, SCALE as int);
    assert(out == pp.plus(n.scaled(crate::fixed::fx_neg(s))));
    assert(crate::fixed::fx_neg(s) == -s);
    assert(magnitude(fx_mul(n.x, cos) - fx_mul(n.x, s)) <= 8_065 && fx_mul(n.x, -s) == -fx_mul(
        n.x,
        s,
    ) && magnitude(fx_mul(n.x, cos)) <= 1_000_000) by {
        lemma_products_close(n.x, cos, s, 8_063);
        crate::fixed::lemma_mul_neg(n.x, s);
        lemma_product_bound(n.x, cos, 1_000_000, 1_000_000);
        assert(1_000_000int * 1_000_000 == 1_000_000 * SCALE);
        lemma_rounding(n.x, cos, 1_000_000);
    }
    assert(magnitude(fx_mul(n.y, cos) - fx_mul(n.y, s)) <= 8_065 && fx_mul(n.y, -s) == -fx_mul(
        n.y,
        s,
    ) && magnitude(fx_mul(n.y, cos)) <= 1_000_000) by {
        lemma_products_close(n.y, cos, s, 8_063);
        crate::fixed::lemma_mul_neg(n.y, s);
        lemma_product_bound(n.y, cos, 1_000_000, 1_000_000);
        assert(1_000_000int * 1_000_000 == 1_000_000 * SCALE);
        lemma_rounding(n.y, cos, 1_000_000);
    }
    assert(magnitude(fx_mul(n.z, cos) - fx_mul(n.z, s)) <= 8_065 && fx_mul(n.z, -s) == -fx_mul(
        n.z,
        s,
    ) && magnitude(fx_mul(n.z, cos)) <= 1_000_000) by {
        lemma_products_close(n.z, cos, s, 8_063);
        crate::fixed::lemma_mul_neg(n.z, s);
        lemma_product_bound(n.z, cos, 1_000_000, 1_000_000);
        assert(1_000_000int * 1_000_000 == 1_000_000 * SCALE);
        lemma_rounding(n.z, cos, 1_000_000);
    }
    assert(out.x == u.x + fx_mul(n.x, cos) - fx_mul(n.x, s));
    assert(out.y == u.y + fx_mul(n.y, cos) - fx_mul(n.y, s));
    assert(out.z == u.z + fx_mul(n.z, cos) - fx_mul(n.z, s));
}

} // verus!
