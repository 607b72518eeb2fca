use vstd::prelude::*;
use crate::fixed::{abs_i, fdiv, lemma_floor_div_abs, lemma_fmul_range, ONE};
use crate::hit::{rec_wf, HitRecS, HitRecord, GEO_BOUND};
use crate::mat::{mat_wf, Material, MaterialS};
use crate::math::{sv_add, sv_bounded, sv_dot_raw, sv_scale, sv_sub, Vec3, V3};
use crate::ray::{ray_bounded, Ray, RayS};
use crate::sphere::{hit_with_centre, sphere_hit_core};

verus! {

/// Mathematical model of a moving sphere.
pub struct MovingSphereS {
    pub centre_start: V3,
    pub centre_end: V3,
    pub time_start: int,
    pub time_end: int,
    pub radius: int,
    pub material: MaterialS,
}

/// A sphere whose centre slides linearly from centre_start at time_start to
/// centre_end at time_end; a ray strikes it at the centre given by the ray's
/// own shutter time.
pub struct MovingSphere {
    pub centre_start: Vec3,
    pub centre_end: Vec3,
    pub time_start: i128,
    pub time_end: i128,
    pub radius: i128,
    pub material: Material,
}

impl View for MovingSphere {
    type V = MovingSphereS;

    open spec fn view(&self) -> MovingSphereS {
        MovingSphereS {
            centre_start: self.centre_start@,
            centre_end: self.centre_end@,
            time_start: self.time_start as int,
            time_end: self.time_end as int,
            radius: self.radius as int,
            material: self.material@,
        }
    }
}

pub open spec fn moving_sphere_wf(s: MovingSphereS) -> bool {
    &&& sv_bounded(s.centre_start, GEO_BOUND as int)
    &&& sv_bounded(s.centre_end, GEO_BOUND as int)
    &&& s.time_start < s.time_end
    &&& abs_i(s.time_start) <= GEO_BOUND as int
    &&& abs_i(s.time_end) <= GEO_BOUND as int
    &&& s.radius != 0
    &&& abs_i(s.radius) <= GEO_BOUND as int
    &&& mat_wf(s.material)
}

/// The centre at a given time, by linear interpolation over the time window.
pub open spec fn moving_centre_spec(s: MovingSphereS, time: int) -> V3 {
    let frac = fdiv(time - s.time_start, s.time_end - s.time_start);
    sv_add(s.centre_start, sv_scale(frac, sv_sub(s.centre_end, s.centre_start)))
}

/// The hit test of a moving sphere: the fixed-sphere test at the
/// interpolated centre. A shutter time so far outside the window that the
/// extrapolated centre leaves the supported region yields no hit.
pub open spec fn moving_sphere_hit_spec(
    s: MovingSphereS,
    ray: RayS,
    t_min: int,
    t_max: int,
) -> Option<HitRecS> {
    let centre = moving_centre_spec(s, ray.time);
    if !sv_bounded(centre, GEO_BOUND as int) {
        None
    } else {
        sphere_hit_core(centre, s.radius, s.material, ray, t_min, t_max)
    }
}

impl MovingSphere {
    /// The interpolated centre at the given shutter time.
    pub fn centre(&self, time: i128) -> (r: Vec3)
        requires
            moving_sphere_wf(self@),
            abs_i(time as int) <= GEO_BOUND as int,
        ensures
            r@ == moving_centre_spec(self@, time as int),
            sv_bounded(r@, 0x800_0000_0000_0000_0000),
    {
        let dt: i128 = time - self.time_start;
        let span: i128 = self.time_end - self.time_start;
        proof {
            lemma_floor_div_abs((dt as int) * ONE, span as int);
        }
        let frac: i128 = crate::fixed::fp_div(dt, span);
        let delta: Vec3 = self.centre_end.sub(&self.centre_start);
        proof {
            lemma_fmul_range(frac as int, delta@.x, 0x20_0000_0000_0000, 0x20_0000_0000);
            lemma_fmul_range(frac as int, delta@.y, 0x20_0000_0000_0000, 0x20_0000_0000);
            lemma_fmul_range(frac as int, delta@.z, 0x20_0000_0000_0000, 0x20_0000_0000);
        }
        self.centre_start.add(&delta.scale(frac))
    }

    /// Intersect a ray with this sphere at the centre given by the ray's
    /// shutter time.
    pub fn hit(&self, ray: &Ray, t_min: i128, t_max: i128) -> (r: Option<HitRecord>)
        requires
            moving_sphere_wf(self@),
            ray_bounded(ray@, GEO_BOUND as int),
            abs_i(t_min as int) <= GEO_BOUND as int,
            abs_i(t_max as int) <= GEO_BOUND as int,
        ensures
            moving_sphere_hit_spec(self@, ray@, t_min as int, t_max as int) matches Some(hs) ==> (
            r matches Some(h) && h@ == hs),
            moving_sphere_hit_spec(self@, ray@, t_min as int, t_max as int) is None ==> r is None,
            r matches Some(h) ==> {
                &&& rec_wf(h@)
                &&& t_min <= h.t <= t_max
                &&& sv_dot_raw(ray@.direction, h@.normal) <= 0
                &&& h@.material == self@.material
            },
    {
        let centre: Vec3 = self.centre(ray.time);
        if !centre.in_bounds(GEO_BOUND) {
            return None;
        }
        hit_with_centre(&centre, self.radius, &self.material, ray, t_min, t_max)
    }
}

} // verus!
