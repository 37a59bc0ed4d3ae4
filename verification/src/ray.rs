//! Rays: a starting point and a direction.
use crate::fixed::Fixed;
use crate::vec3::{Point3, Vec3, V3};
use vstd::prelude::*;

verus! {

/// The mathematical model of a [`Ray`].
pub struct RayModel {
    pub origin: V3,
    pub direction: V3,
}

impl RayModel {
    /// The point of the ray at parameter `t`: `origin + direction * t`.
    pub open spec fn at(self, t: int) -> V3 {
        self.origin.plus(self.direction.scaled(t))
    }
}

/// A half-line through space, given by its origin and its direction. The
/// direction need not have unit length.
#[derive(Clone, Copy, Debug, PartialEq, Eq, Structural)]
pub struct Ray {
    orig: Point3,
    dir: Vec3,
}

impl View for Ray {
    type V = RayModel;

    closed spec fn view(&self) -> RayModel {
        RayModel { origin: self.orig@, direction: self.dir@ }
    }
}

impl Ray {
    /// The ray from `orig` along `dir`.
    pub fn new(orig: Point3, dir: Vec3) -> (r: Ray)
        ensures
            r@ == (RayModel { origin: orig@, direction: dir@ }),
    {
        Ray { orig, dir }
    }

    /// Where the ray starts.
    pub fn origin(&self) -> (p: Point3)
        ensures
            p@ == self@.origin,
    {
        self.orig
    }

    /// Where the ray points.
    pub fn direction(&self) -> (d: Vec3)
        ensures
            d@ == self@.direction,
    {
        self.dir
    }

    /// The point of the ray at parameter `t`.
    pub fn at(&self, t: Fixed) -> (p: Point3)
        ensures
            p@ == self@.at(t@),
    {
        self.orig.add(self.dir.mul_scalar(t))
    }
}

} // verus!
