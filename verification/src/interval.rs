//! Ranges of ray parameters.
use crate::fixed::{fx_sub, Fixed, MAX_RAW};
use vstd::prelude::*;

verus! {

/// The mathematical model of an [`Interval`]: its two bounds as raw counts.
pub struct Span {
    pub min: int,
    pub max: int,
}

impl Span {
    /// Width of the range.
    pub open spec fn size(self) -> int {
        fx_sub(self.max, self.min)
    }

    /// Whether `x` lies in the range, bounds included.
    pub open spec fn contains(self, x: int) -> bool {
        self.min <= x <= self.max
    }

    /// Whether `x` lies strictly inside the range.
    pub open spec fn surrounds(self, x: int) -> bool {
        self.min < x < self.max
    }

    /// The point of the range nearest to `x`. Where the bounds are out of
    /// order the lower bound wins.
    pub open spec fn clamp(self, x: int) -> int {
        if x < self.min {
            self.min
        } else if x > self.max {
            self.max
        } else {
            x
        }
    }

    /// The range that holds nothing: from the largest value down to the
    /// smallest.
    pub open spec fn empty() -> Span {
        Span { min: MAX_RAW as int, max: -MAX_RAW }
    }

    /// The range that holds everything between the two extremes.
    pub open spec fn universe() -> Span {
        Span { min: -MAX_RAW, max: MAX_RAW as int }
    }
}

/// A range of numbers between two bounds. Nothing requires `min <= max`: a
/// range with the bounds out of order holds no number.
#[derive(Clone, Copy, Debug, PartialEq, Eq, Structural)]
pub struct Interval {
    pub min: Fixed,
    pub max: Fixed,
}

impl View for Interval {
    type V = Span;

    open spec fn view(&self) -> Span {
        Span { min: self.min@, max: self.max@ }
    }
}

impl Interval {
    /// The range from `min` to `max`.
    pub fn new(min: Fixed, max: Fixed) -> (r: Interval)
        ensures
            r@ == (Span { min: min@, max: max@ }),
    {
        Interval { min, max }
    }

    /// Width of the range.
    pub fn size(&self) -> (r: Fixed)
        ensures
            r@ == self@.size(),
    {
        self.max.sub(self.min)
    }

    /// Whether `x` lies in the range, bounds included.
    pub fn contains(&self, x: Fixed) -> (r: bool)
        ensures
            r == self@.contains(x@),
    {
        self.min.le(x) && x.le(self.max)
    }

    /// Whether `x` lies strictly inside the range.
    pub fn surrounds(&self, x: Fixed) -> (r: bool)
        ensures
            r == self@.surrounds(x@),
    {
        self.min.lt(x) && x.lt(self.max)
    }

    /// The point of the range nearest to `x`.
    pub fn clamp(&self, x: Fixed) -> (r: Fixed)
        ensures
            r@ == self@.clamp(x@),
    {
        if x.lt(self.min) {
            self.min
        } else if x.gt(self.max) {
            self.max
        } else {
            x
        }
    }

    /// The range that holds nothing.
    pub fn empty() -> (r: Interval)
        ensures
            r@ == Span::empty(),
            forall|x: int| !r@.contains(x) && !r@.surrounds(x),
    {
        Interval { min: Fixed::max_value(), max: Fixed::min_value() }
    }

    /// The range that holds everything between the two extremes.
    pub fn universe() -> (r: Interval)
        ensures
            r@ == Span::universe(),
            forall|x: int| -MAX_RAW <= x <= MAX_RAW ==> r@.contains(x),
            forall|x: int| -MAX_RAW < x < MAX_RAW ==> r@.surrounds(x),
    {
        Interval { min: Fixed::min_value(), max: Fixed::max_value() }
    }
}

} // verus!
