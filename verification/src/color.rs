//! Colours and their quantisation to bytes.
use crate::fixed::{fx_floor, fx_from_int, fx_mul, fx_sqrt, lemma_product_sign, Fixed, SCALE};
use crate::interval::{Interval, Span};
use crate::vec3::{Vec3, V3};
use vstd::prelude::*;
use vstd::string::StringExecFns;

verus! {

/// A colour: red, green and blue as the three components of a vector.
pub type Color = Vec3;

/// Raw count of the largest intensity that is written: just below one, so
/// that the byte stays below 256.
pub const MAX_INTENSITY_RAW: i64 = 999_000;

/// Gamma-2 encoding of a linear intensity: its square root, and zero for an
/// intensity that is not positive.
pub open spec fn gamma(linear: int) -> int {
    fx_sqrt(linear)
}

/// The byte for an intensity: the intensity, clamped to `[0, 0.999]`, times
/// 256, rounded down.
pub open spec fn byte_of(intensity: int) -> int {
    fx_floor(
        fx_mul(
            Span { min: 0, max: MAX_INTENSITY_RAW as int }.clamp(intensity),
            fx_from_int(256),
        ),
    )
}

/// The ten digits.
pub open spec fn digits() -> Seq<char> {
    seq!['0', '1', '2', '3', '4', '5', '6', '7', '8', '9']
}

/// Decimal notation of a number, without leading zeros.
pub open spec fn decimal(n: nat) -> Seq<char>
    decreases n,
{
    if n < 10 {
        seq![digits()[n as int]]
    } else {
        decimal(n / 10).push(digits()[(n % 10) as int])
    }
}

/// Three bytes in decimal, separated by single spaces.
pub open spec fn bytes_text(r: int, g: int, b: int) -> Seq<char> {
    decimal(r as nat) + seq![' '] + decimal(g as nat) + seq![' '] + decimal(b as nat)
}

/// The text of a pixel: the bytes of the gamma-encoded red, green and blue.
pub open spec fn pixel_text(c: V3) -> Seq<char> {
    bytes_text(byte_of(gamma(c.x)), byte_of(gamma(c.y)), byte_of(gamma(c.z)))
}

/// The text of a pixel without gamma encoding: the bytes of the red, green
/// and blue as they are.
pub open spec fn linear_pixel_text(c: V3) -> Seq<char> {
    bytes_text(byte_of(c.x), byte_of(c.y), byte_of(c.z))
}

/// A byte lies between 0 and 255.
pub proof fn lemma_byte_range(intensity: int)
    ensures
        0 <= byte_of(intensity) <= 255,
{
    let clamped = Span { min: 0, max: MAX_INTENSITY_RAW as int }.clamp(intensity);
    lemma_product_sign(clamped, 256 * SCALE);
    assert(clamped * (256 * SCALE) == (clamped * 256) * SCALE) by (nonlinear_arith);
    assert(((clamped * 256) * SCALE) / (SCALE as int) == clamped * 256) by (nonlinear_arith);
}

/// Gamma-2 encoding of a linear intensity.
pub fn linear_to_gamma(linear_component: Fixed) -> (r: Fixed)
    ensures
        r@ == gamma(linear_component@),
{
    if linear_component.gt(Fixed::zero()) {
        return linear_component.sqrt();
    }
    Fixed::zero()
}

/// The byte for an intensity.
pub fn quantize(intensity: Fixed) -> (b: u8)
    ensures
        b == byte_of(intensity@),
{
    let range = Interval::new(Fixed::zero(), Fixed::from_raw(MAX_INTENSITY_RAW));
    let scaled = range.clamp(intensity).mul(Fixed::from_int(256));
    proof {
        lemma_byte_range(intensity@);
    }
    let whole = scaled.raw() / SCALE;
    whole as u8
}

/// The bytes of a colour after gamma encoding.
pub fn color_bytes(pixel_color: &Color) -> (b: (u8, u8, u8))
    ensures
        b.0 == byte_of(gamma(pixel_color@.x)),
        b.1 == byte_of(gamma(pixel_color@.y)),
        b.2 == byte_of(gamma(pixel_color@.z)),
{
    let r = linear_to_gamma(pixel_color.x());
    let g = linear_to_gamma(pixel_color.y());
    let b = linear_to_gamma(pixel_color.z());
    (quantize(r), quantize(g), quantize(b))
}

/// The digit `d` as text.
fn digit_text(d: u8) -> (s: &'static str)
    requires
        d < 10,
    ensures
        s@ == seq![digits()[d as int]],
{
    proof {
        reveal_strlit("0");
        reveal_strlit("1");
        reveal_strlit("2");
        reveal_strlit("3");
        reveal_strlit("4");
        reveal_strlit("5");
        reveal_strlit("6");
        reveal_strlit("7");
        reveal_strlit("8");
        reveal_strlit("9");
    }
    let s = if d == 0 {
        "0"
    } else if d == 1 {
        "1"
    } else if d == 2 {
        "2"
    } else if d == 3 {
        "3"
    } else if d == 4 {
        "4"
    } else if d == 5 {
        "5"
    } else if d == 6 {
        "6"
    } else if d == 7 {
        "7"
    } else if d == 8 {
        "8"
    } else {
        "9"
    };
    assert(s@ =~= seq![digits()[d as int]]);
    s
}

/// Appends the decimal notation of a byte.
fn push_decimal(text: &mut String, n: u8)
    ensures
        final(text)@ == old(text)@ + decimal(n as nat),
{
    reveal_with_fuel(decimal, 3);
    if n >= 100 {
        text.append(digit_text(n / 100));
    }
    if n >= 10 {
        text.append(digit_text((n / 10) % 10));
    }
    text.append(digit_text(n % 10));
    assert(final(text)@ =~= old(text)@ + decimal(n as nat));
}

/// Three bytes in decimal, separated by single spaces.
fn write_bytes(rbyte: u8, gbyte: u8, bbyte: u8) -> (text: String)
    ensures
        text@ == bytes_text(rbyte as int, gbyte as int, bbyte as int),
{
    let mut text = String::new();
    push_decimal(&mut text, rbyte);
    proof {
        reveal_strlit(" ");
    }
    text.append(" ");
    push_decimal(&mut text, gbyte);
    text.append(" ");
    push_decimal(&mut text, bbyte);
    assert(text@ =~= bytes_text(rbyte as int, gbyte as int, bbyte as int));
    text
}

/// The text of a pixel in a plain-text image: the bytes of the colour after
/// gamma encoding.
pub fn write_color(pixel_color: &Color) -> (text: String)
    ensures
        text@ == pixel_text(pixel_color@),
{
    let (rbyte, gbyte, bbyte) = color_bytes(pixel_color);
    write_bytes(rbyte, gbyte, bbyte)
}

/// The text of a pixel in a plain-text image, without gamma encoding.
pub fn write_linear_color(pixel_color: &Color) -> (text: String)
    ensures
        text@ == linear_pixel_text(pixel_color@),
{
    write_bytes(quantize(pixel_color.x()), quantize(pixel_color.y()), quantize(pixel_color.z()))
}

} // verus!
