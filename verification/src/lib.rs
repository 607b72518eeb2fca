//! An offline path tracer over fixed-point arithmetic: camera ray
//! generation, ray-primitive intersection, material scattering and the
//! recursive radiance integrator, each with a verified contract. Scalars are
//! i128 values at 2^16 scale (see `fixed`), so every numeric step is exact
//! integer arithmetic with floor rounding, and the geometric and energy
//! invariants are proved rather than sampled.

use vstd::prelude::*;

pub mod camera;
pub mod colour;
pub mod dielectric;
pub mod fixed;
pub mod hit;
pub mod lambertian;
pub mod list;
pub mod mat;
pub mod math;
pub mod metal;
pub mod moving_sphere;
pub mod point;
pub mod ray;
pub mod render;
pub mod rng;
pub mod sphere;

verus! {

} // verus!
