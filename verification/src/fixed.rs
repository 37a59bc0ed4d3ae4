//! Saturating decimal fixed-point scalars.
//!
//! A [`Fixed`] stores a number as a count of millionths in an `i64`. Every
//! operation is total: a result that does not fit is clamped to the symmetric
//! range `[-MAX_RAW, MAX_RAW]`, products and quotients are rounded toward zero,
//! and a division by zero yields the extreme of the numerator's sign (zero
//! for `0 / 0`). The clamp is symmetric so that negating a result is always
//! exact.
//!
//! The view of a `Fixed` is its raw count as an `int`; the spec functions
//! `fx_*` state each operation over such counts.
use vstd::arithmetic::div_mod::{lemma_div_by_multiple, lemma_div_is_ordered, lemma_div_pos_is_pos};
use vstd::prelude::*;

verus! {

/// Raw units per one: a raw count `n` stands for `n / SCALE`.
pub const SCALE: i64 = 1_000_000;

/// Largest raw count an operation returns; the smallest is `-MAX_RAW`.
pub const MAX_RAW: i64 = 9_223_372_036_854_775_807;

/// Absolute value of an integer.
pub open spec fn magnitude(x: int) -> int {
    if x < 0 {
        -x
    } else {
        x
    }
}

/// Clamps an integer to `[-MAX_RAW, MAX_RAW]`.
pub open spec fn sat(x: int) -> int {
    if x > MAX_RAW {
        MAX_RAW as int
    } else if x < -MAX_RAW {
        -MAX_RAW
    } else {
        x
    }
}

/// Quotient of `a` by `b` rounded toward zero.
pub open spec fn trunc_div(a: int, b: int) -> int
    recommends
        b != 0,
{
    if (a < 0) == (b < 0) {
        magnitude(a) / magnitude(b)
    } else {
        -(magnitude(a) / magnitude(b))
    }
}

/// `s` is the integer square root of `n`: the largest `s >= 0` with `s * s <= n`.
pub open spec fn is_floor_sqrt(n: int, s: int) -> bool {
    0 <= s && s * s <= n < (s + 1) * (s + 1)
}

/// Integer square root of a non-negative `n`.
pub open spec fn floor_sqrt(n: int) -> int
    recommends
        n >= 0,
{
    choose|s: int| is_floor_sqrt(n, s)
}

/// Sum of two raw counts.
pub open spec fn fx_add(a: int, b: int) -> int {
    sat(a + b)
}

/// Difference of two raw counts.
pub open spec fn fx_sub(a: int, b: int) -> int {
    sat(a - b)
}

/// Negation of a raw count.
pub open spec fn fx_neg(a: int) -> int {
    sat(-a)
}

/// Absolute value of a raw count.
pub open spec fn fx_abs(a: int) -> int {
    sat(magnitude(a))
}

/// Product of two raw counts, rounded toward zero.
pub open spec fn fx_mul(a: int, b: int) -> int {
    sat(trunc_div(a * b, SCALE as int))
}

/// Quotient of two raw counts, rounded toward zero. Dividing by zero gives
/// the extreme of the numerator's sign, and zero for a zero numerator.
pub open spec fn fx_div(a: int, b: int) -> int {
    if b == 0 {
        if a > 0 {
            MAX_RAW as int
        } else if a < 0 {
            -MAX_RAW
        } else {
            0
        }
    } else {
        sat(trunc_div(a * SCALE, b))
    }
}

/// Square root of a raw count, rounded down; zero for a count that is not
/// positive.
pub open spec fn fx_sqrt(a: int) -> int {
    if a <= 0 {
        0
    } else {
        floor_sqrt(a * SCALE)
    }
}

/// The smaller of two raw counts.
pub open spec fn fx_min(a: int, b: int) -> int {
    if a <= b {
        a
    } else {
        b
    }
}

/// The larger of two raw counts.
pub open spec fn fx_max(a: int, b: int) -> int {
    if a >= b {
        a
    } else {
        b
    }
}

/// Raw count of a whole number.
pub open spec fn fx_from_int(n: int) -> int {
    sat(n * SCALE)
}

/// Whole part of a raw count, rounded toward negative infinity.
pub open spec fn fx_floor(a: int) -> int {
    a / (SCALE as int)
}

/// An integer has at most one integer square root.
pub proof fn lemma_floor_sqrt_unique(n: int, s1: int, s2: int)
    requires
        is_floor_sqrt(n, s1),
        is_floor_sqrt(n, s2),
    ensures
        s1 == s2,
{
    if s1 < s2 {
        assert((s1 + 1) * (s1 + 1) <= s2 * s2) by (nonlinear_arith)
            requires
                0 <= s1,
                s1 + 1 <= s2,
        ;
    } else if s2 < s1 {
        assert((s2 + 1) * (s2 + 1) <= s1 * s1) by (nonlinear_arith)
            requires
                0 <= s2,
                s2 + 1 <= s1,
        ;
    }
}

/// Whatever satisfies `is_floor_sqrt` is the value of `floor_sqrt`.
pub proof fn lemma_floor_sqrt_is(n: int, s: int)
    requires
        is_floor_sqrt(n, s),
    ensures
        floor_sqrt(n) == s,
{
    lemma_floor_sqrt_unique(n, s, floor_sqrt(n));
}

/// The magnitude of a product is the product of the magnitudes, and a product
/// is negative exactly when its factors are non-zero and of opposite signs.
pub proof fn lemma_product_sign(a: int, b: int)
    ensures
        magnitude(a * b) == magnitude(a) * magnitude(b),
        (a * b < 0) == (a != 0 && b != 0 && ((a < 0) != (b < 0))),
        (a * b == 0) == (a == 0 || b == 0),
{
    assert(magnitude(a * b) == magnitude(a) * magnitude(b) && ((a * b < 0) == (a != 0 && b != 0
        && ((a < 0) != (b < 0)))) && ((a * b == 0) == (a == 0 || b == 0))) by (nonlinear_arith);
}

/// Clamping commutes with negation, and a clamped value lies in the range.
pub proof fn lemma_sat_odd(x: int)
    ensures
        sat(-x) == -sat(x),
        -MAX_RAW <= sat(x) <= MAX_RAW,
{
}

/// Clamping keeps order.
pub proof fn lemma_sat_monotone(x: int, y: int)
    requires
        x <= y,
    ensures
        sat(x) <= sat(y),
{
}

/// Rounding toward zero commutes with negation of the numerator.
pub proof fn lemma_trunc_div_odd(a: int, b: int)
    requires
        b > 0,
    ensures
        trunc_div(-a, b) == -trunc_div(a, b),
{
    if a == 0 {
        assert(0int / b == 0) by (nonlinear_arith)
            requires
                b > 0,
        ;
    }
}

/// For a positive divisor, rounding toward zero keeps the order of the
/// numerators and the sign of the numerator.
pub proof fn lemma_trunc_div_monotone(a1: int, a2: int, b: int)
    requires
        a1 <= a2,
        b > 0,
    ensures
        trunc_div(a1, b) <= trunc_div(a2, b),
        a1 >= 0 ==> trunc_div(a1, b) >= 0,
        a2 <= 0 ==> trunc_div(a2, b) <= 0,
{
    lemma_div_pos_is_pos(magnitude(a1), b);
    lemma_div_pos_is_pos(magnitude(a2), b);
    if a1 >= 0 {
        lemma_div_is_ordered(a1, a2, b);
    } else if a2 < 0 {
        lemma_div_is_ordered(-a2, -a1, b);
    }
}

/// The product does not depend on the order of its factors.
pub proof fn lemma_mul_commutes(a: int, b: int)
    ensures
        fx_mul(a, b) == fx_mul(b, a),
{
    assert(a * b == b * a) by (nonlinear_arith);
}

/// Negating a factor negates the product.
pub proof fn lemma_mul_neg(a: int, b: int)
    ensures
        fx_mul(a, -b) == -fx_mul(a, b),
        fx_mul(-a, b) == -fx_mul(a, b),
{
    assert(a * (-b) == -(a * b) && (-a) * b == -(a * b)) by (nonlinear_arith);
    lemma_trunc_div_odd(a * b, SCALE as int);
    lemma_sat_odd(trunc_div(a * b, SCALE as int));
}

/// A square is not negative.
pub proof fn lemma_square_nonnegative(a: int)
    ensures
        fx_mul(a, a) >= 0,
{
    assert(a * a >= 0) by (nonlinear_arith);
    lemma_trunc_div_monotone(0, a * a, SCALE as int);
}

/// Multiplying by one changes nothing but the clamp.
pub proof fn lemma_mul_one(a: int)
    ensures
        fx_mul(a, SCALE as int) == sat(a),
        fx_mul(SCALE as int, a) == sat(a),
{
    lemma_mul_commutes(a, SCALE as int);
    lemma_div_by_multiple(magnitude(a), SCALE as int);
    lemma_product_sign(a, SCALE as int);
}

/// The square root is not negative, and that of a number up to one is at
/// most one.
pub proof fn lemma_sqrt_bounds(a: int)
    ensures
        fx_sqrt(a) >= 0,
        a <= SCALE ==> fx_sqrt(a) <= SCALE,
{
    if a > 0 {
        let n = a * SCALE;
        assert(n >= 0) by (nonlinear_arith)
            requires
                a > 0,
                n == a * SCALE,
        ;
        lemma_floor_sqrt_exists(n);
        let s = floor_sqrt(n);
        if a <= SCALE && s > SCALE {
            assert(s * s > SCALE * SCALE) by (nonlinear_arith)
                requires
                    s > SCALE,
            ;
            assert(n <= SCALE * SCALE) by (nonlinear_arith)
                requires
                    a <= SCALE,
                    n == a * SCALE,
            ;
        }
    }
}

/// Every integer that is not negative has an integer square root.
pub proof fn lemma_floor_sqrt_exists(n: int)
    requires
        n >= 0,
    ensures
        is_floor_sqrt(n, floor_sqrt(n)),
    decreases n,
{
    if n == 0 {
        assert(is_floor_sqrt(0, 0));
    } else {
        lemma_floor_sqrt_exists(n - 1);
        let s = floor_sqrt(n - 1);
        if (s + 1) * (s + 1) <= n {
            assert((s + 2) * (s + 2) > (s + 1) * (s + 1)) by (nonlinear_arith)
                requires
                    s >= 0,
            ;
            assert(is_floor_sqrt(n, s + 1));
        } else {
            assert(is_floor_sqrt(n, s));
        }
    }
}

/// A saturating decimal fixed-point number with six fractional digits.
#[derive(Clone, Copy, Debug, PartialEq, Eq, Structural)]
pub struct Fixed {
    /// The number in millionths.
    pub raw: i64,
}

impl View for Fixed {
    type V = int;

    open spec fn view(&self) -> int {
        self.raw as int
    }
}

/// Absolute value of a raw count as an unsigned integer.
pub(crate) fn magnitude_of(x: i64) -> (m: u128)
    ensures
        m == magnitude(x as int),
        m <= 0x8000_0000_0000_0000,
{
    if x < 0 {
        (-(x as i128)) as u128
    } else {
        x as u128
    }
}

/// Attaches a sign to a magnitude and clamps.
pub(crate) fn signed_sat(negative: bool, m: u128) -> (r: i64)
    ensures
        r == sat(
            if negative {
                -(m as int)
            } else {
                m as int
            },
        ),
{
    if m >= MAX_RAW as u128 {
        if negative {
            -MAX_RAW
        } else {
            MAX_RAW
        }
    } else if negative {
        -(m as i64)
    } else {
        m as i64
    }
}

/// Clamps a wide integer.
fn clamp_wide(x: i128) -> (r: i64)
    ensures
        r == sat(x as int),
{
    if x > MAX_RAW as i128 {
        MAX_RAW
    } else if x < -(MAX_RAW as i128) {
        -MAX_RAW
    } else {
        x as i64
    }
}

/// Integer square root by bisection.
pub(crate) fn floor_sqrt_of(n: u128) -> (s: u128)
    ensures
        is_floor_sqrt(n as int, s as int),
        s < 0x1_0000_0000_0000_0000,
{
    let mut lo: u128 = 0;
    let mut hi: u128 = 0x1_0000_0000_0000_0000;
    assert(0x1_0000_0000_0000_0000int * 0x1_0000_0000_0000_0000int
        == 0x1_0000_0000_0000_0000_0000_0000_0000_0000int) by (nonlinear_arith);
    while hi - lo > 1
        invariant
            lo < hi <= 0x1_0000_0000_0000_0000,
            lo * lo <= n < hi * hi,
        decreases hi - lo,
    {
        let mid = lo + (hi - lo) / 2;
        assert(mid * mid <= 0xffff_ffff_ffff_ffff * 0xffff_ffff_ffff_ffff) by (nonlinear_arith)
            requires
                mid <= 0xffff_ffff_ffff_ffff,
        ;
        assert(0xffff_ffff_ffff_ffffint * 0xffff_ffff_ffff_ffffint
            < 0x1_0000_0000_0000_0000_0000_0000_0000_0000int) by (nonlinear_arith);
        if mid * mid <= n {
            lo = mid;
        } else {
            hi = mid;
        }
    }
    lo
}

impl Fixed {
    /// The number with the given count of millionths.
    pub fn from_raw(raw: i64) -> (r: Fixed)
        ensures
            r@ == raw,
    {
        Fixed { raw }
    }

    /// The count of millionths.
    pub fn raw(self) -> (r: i64)
        ensures
            r == self@,
    {
        self.raw
    }

    /// The whole number `n`, clamped.
    pub fn from_int(n: i64) -> (r: Fixed)
        ensures
            r@ == fx_from_int(n as int),
    {
        assert(-0x8000_0000_0000_0000 * 1_000_000 <= (n as int) * 1_000_000
            <= 0x8000_0000_0000_0000 * 1_000_000);
        let wide: i128 = (n as i128) * 1_000_000;
        Fixed { raw: clamp_wide(wide) }
    }

    /// The whole number `n`, clamped.
    pub fn from_u64(n: u64) -> (r: Fixed)
        ensures
            r@ == fx_from_int(n as int),
    {
        let wide: u128 = (n as u128) * 1_000_000;
        Fixed { raw: signed_sat(false, wide) }
    }

    /// Zero.
    pub fn zero() -> (r: Fixed)
        ensures
            r@ == 0,
    {
        Fixed { raw: 0 }
    }

    /// One.
    pub fn one() -> (r: Fixed)
        ensures
            r@ == SCALE,
    {
        Fixed { raw: SCALE }
    }

    /// The largest value, which stands in for positive infinity.
    pub fn max_value() -> (r: Fixed)
        ensures
            r@ == MAX_RAW,
    {
        Fixed { raw: MAX_RAW }
    }

    /// The smallest value any operation returns, which stands in for negative
    /// infinity.
    pub fn min_value() -> (r: Fixed)
        ensures
            r@ == -MAX_RAW,
    {
        Fixed { raw: -MAX_RAW }
    }

    /// Saturating sum.
    pub fn add(self, other: Fixed) -> (r: Fixed)
        ensures
            r@ == fx_add(self@, other@),
    {
        Fixed { raw: clamp_wide(self.raw as i128 + other.raw as i128) }
    }

    /// Saturating difference.
    pub fn sub(self, other: Fixed) -> (r: Fixed)
        ensures
            r@ == fx_sub(self@, other@),
    {
        Fixed { raw: clamp_wide(self.raw as i128 - other.raw as i128) }
    }

    /// Saturating negation.
    pub fn neg(self) -> (r: Fixed)
        ensures
            r@ == fx_neg(self@),
    {
        Fixed { raw: clamp_wide(-(self.raw as i128)) }
    }

    /// Saturating absolute value.
    pub fn abs(self) -> (r: Fixed)
        ensures
            r@ == fx_abs(self@),
    {
        Fixed { raw: signed_sat(false, magnitude_of(self.raw)) }
    }

    /// Saturating product, rounded toward zero.
    pub fn mul(self, other: Fixed) -> (r: Fixed)
        ensures
            r@ == fx_mul(self@, other@),
    {
        let ma = magnitude_of(self.raw);
        let mb = magnitude_of(other.raw);
        proof {
            lemma_product_sign(self@, other@);
            assert(ma * mb <= 0x8000_0000_0000_0000 * 0x8000_0000_0000_0000) by (nonlinear_arith)
                requires
                    ma <= 0x8000_0000_0000_0000,
                    mb <= 0x8000_0000_0000_0000,
            ;
        }
        let q = (ma * mb) / (SCALE as u128);
        let negative = (self.raw < 0) != (other.raw < 0);
        Fixed { raw: signed_sat(negative, q) }
    }

    /// Saturating quotient, rounded toward zero; see [`fx_div`] for a zero
    /// divisor.
    pub fn div(self, other: Fixed) -> (r: Fixed)
        ensures
            r@ == fx_div(self@, other@),
    {
        if other.raw == 0 {
            if self.raw > 0 {
                Fixed { raw: MAX_RAW }
            } else if self.raw < 0 {
                Fixed { raw: -MAX_RAW }
            } else {
                Fixed { raw: 0 }
            }
        } else {
            let ma = magnitude_of(self.raw);
            let mb = magnitude_of(other.raw);
            proof {
                lemma_product_sign(self@, SCALE as int);
            }
            let q = (ma * (SCALE as u128)) / mb;
            let negative = (self.raw < 0) != (other.raw < 0);
            Fixed { raw: signed_sat(negative, q) }
        }
    }

    /// Square root, rounded down; zero for an argument that is not positive.
    pub fn sqrt(self) -> (r: Fixed)
        ensures
            r@ == fx_sqrt(self@),
    {
        if self.raw <= 0 {
            Fixed { raw: 0 }
        } else {
            let n = (self.raw as u128) * (SCALE as u128);
            let s = floor_sqrt_of(n);
            proof {
                lemma_floor_sqrt_is(n as int, s as int);
                if s >= 0x1_0000_0000_0000 {
                    assert(s * s >= 0x1_0000_0000_0000_0000_0000_0000) by (nonlinear_arith)
                        requires
                            s >= 0x1_0000_0000_0000,
                    ;
                }
            }
            Fixed { raw: s as i64 }
        }
    }

    /// The smaller of two numbers.
    pub fn min(self, other: Fixed) -> (r: Fixed)
        ensures
            r@ == fx_min(self@, other@),
    {
        if self.raw <= other.raw {
            self
        } else {
            other
        }
    }

    /// The larger of two numbers.
    pub fn max(self, other: Fixed) -> (r: Fixed)
        ensures
            r@ == fx_max(self@, other@),
    {
        if self.raw >= other.raw {
            self
        } else {
            other
        }
    }

    /// Whether `self < other`.
    pub fn lt(self, other: Fixed) -> (r: bool)
        ensures
            r == (self@ < other@),
    {
        self.raw < other.raw
    }

    /// Whether `self <= other`.
    pub fn le(self, other: Fixed) -> (r: bool)
        ensures
            r == (self@ <= other@),
    {
        self.raw <= other.raw
    }

    /// Whether `self > other`.
    pub fn gt(self, other: Fixed) -> (r: bool)
        ensures
            r == (self@ > other@),
    {
        self.raw > other.raw
    }

    /// Whether `self >= other`.
    pub fn ge(self, other: Fixed) -> (r: bool)
        ensures
            r == (self@ >= other@),
    {
        self.raw >= other.raw
    }
}

} // verus!
