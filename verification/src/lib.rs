//! A recursive, stochastic ray tracer, verified with Verus.
//!
//! Given a scene of spheres and a camera, the crate computes a colour for
//! each pixel: it sends sample rays through the pixel, finds the nearest
//! surface each ray strikes, lets the surface's material scatter the ray, and
//! follows the scattered ray until it leaves the scene, is absorbed, or has
//! no bounce left.
//!
//! # Numbers
//!
//! All arithmetic is decimal fixed point with saturation ([`fixed`]): a
//! number is a count of millionths, every operation is total and rounds
//! toward zero, and the two extremes stand in for the infinities. Nothing
//! in the crate computes in floating point. Angles are passed as tangents
//! of half-angles.
//!
//! # Models
//!
//! Each type has a view over plain integers (`V3` for [`vec3::Vec3`],
//! `RayModel` for [`ray::Ray`], and so on), and each operation is stated over
//! the views by a spec function. The contract of an executable function
//! equates its result with that spec function.
//!
//! # Randomness
//!
//! The random source is a `rand::rngs::StdRng` that the caller passes in
//! ([`random`]); of its draws only their range is assumed. What is computed
//! from random numbers is modelled as a function of the numbers drawn, and
//! the functions that draw return that function's value for some numbers the
//! source can produce. Each has a counterpart that takes the numbers as
//! arguments and returns exactly that value, so that the same numbers give
//! the same image.
//!
//! # Laws
//!
//! Beyond the contracts the crate proves: that a collection of surfaces
//! reports the nearest of its members' intersections, in any order of the
//! members ([`hit`]); that a normal reported by a sphere has unit length up
//! to rounding and never points along the ray ([`sphere`]); that a metal
//! scatters within its fuzz of the mirror direction and that a material of
//! refractive index one never reflects totally ([`material`]); and how
//! nearly, under rounding, normalising gives unit length, a reported point
//! lies on its sphere, and reflection keeps the length and negates the
//! component along the normal ([`accuracy`]).
pub mod accuracy;
pub mod camera;
pub mod color;
pub mod fixed;
pub mod hit;
pub mod interval;
pub mod material;
pub mod random;
pub mod ray;
pub mod sphere;
pub mod vec3;
pub mod views;
