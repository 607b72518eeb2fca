use vstd::prelude::*;
use crate::fixed::{abs_i, FP_BOUND};
use crate::math::{sv_add, sv_bounded, sv_scale, Vec3, V3};

verus! {

/// Mathematical model of a ray.
pub struct RayS {
    pub origin: V3,
    pub direction: V3,
    pub time: int,
}

/// A half-line: origin, direction (not necessarily unit length) and a shutter
/// time for motion blur (zero when unused).
pub struct Ray {
    pub origin: Vec3,
    pub direction: Vec3,
    pub time: i128,
}

impl View for Ray {
    type V = RayS;

    open spec fn view(&self) -> RayS {
        RayS { origin: self.origin@, direction: self.direction@, time: self.time as int }
    }
}

/// The point reached after travelling t along the ray.
pub open spec fn sv_ray_at(r: RayS, t: int) -> V3 {
    sv_add(r.origin, sv_scale(t, r.direction))
}

pub open spec fn ray_bounded(r: RayS, m: int) -> bool {
    sv_bounded(r.origin, m) && sv_bounded(r.direction, m) && abs_i(r.time) <= m
}

impl Ray {
    pub fn at(&self, ray_parameter: i128) -> (r: Vec3)
        requires
            -FP_BOUND <= ray_parameter <= FP_BOUND,
            sv_bounded(self.origin@, FP_BOUND as int),
            sv_bounded(self.direction@, FP_BOUND as int),
        ensures
            r@ == sv_ray_at(self@, ray_parameter as int),
    {
        proof {
            crate::fixed::lemma_fmul_range(
                ray_parameter as int,
                self.direction@.x,
                FP_BOUND as int,
                FP_BOUND as int,
            );
            crate::fixed::lemma_fmul_range(
                ray_parameter as int,
                self.direction@.y,
                FP_BOUND as int,
                FP_BOUND as int,
            );
            crate::fixed::lemma_fmul_range(
                ray_parameter as int,
                self.direction@.z,
                FP_BOUND as int,
                FP_BOUND as int,
            );
        }
        self.origin.add(&self.direction.scale(ray_parameter))
    }
}

} // verus!
