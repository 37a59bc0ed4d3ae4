//! The random source: a `rand::rngs::StdRng` that the caller owns and passes
//! down, so that a seeded generator makes a whole computation repeatable.
//!
//! Nothing is assumed about which values the generator yields, only the
//! range they lie in. Every function of this crate that draws states what
//! holds for all possible draws and has a deterministic counterpart that
//! takes the drawn values as arguments.
use crate::fixed::Fixed;
use rand::rngs::StdRng;
use rand::Rng;
use vstd::prelude::*;

verus! {

/// `rand::rngs::StdRng`, declared so that verified code can pass it on.
/// Nothing is said of its state.
#[verifier::external_type_specification]
#[verifier::external_body]
pub struct ExStdRng(StdRng);

/// `rand::Rng::random_range` on the half-open range `low..high` of `i64`.
/// The call panics on an empty range, which the precondition excludes; the
/// value returned lies in the range. Which value it is remains unknown.
#[verifier::external_body]
fn draw_raw(rng: &mut StdRng, low: i64, high: i64) -> (r: i64)
    requires
        low < high,
    ensures
        low <= r < high,
{
    rng.random_range(low..high)
}

/// A number drawn from `[min, max)`.
pub fn random_range(rng: &mut StdRng, min: Fixed, max: Fixed) -> (r: Fixed)
    requires
        min@ < max@,
    ensures
        min@ <= r@ < max@,
{
    Fixed::from_raw(draw_raw(rng, min.raw(), max.raw()))
}

} // verus!
