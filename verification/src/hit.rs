use vstd::prelude::*;
use crate::fixed::{abs_i, FP_BOUND};
use crate::mat::{mat_wf, Material, MaterialS};
use crate::math::{lemma_dot_raw_neg, sv_bounded, sv_dot_raw, sv_neg, Vec3, V3};
use crate::moving_sphere::{
    moving_sphere_hit_spec, moving_sphere_wf, MovingSphere, MovingSphereS,
};
use crate::ray::{ray_bounded, Ray, RayS};
use crate::sphere::{sphere_hit_core, sphere_wf, Sphere, SphereS};

verus! {

/// Componentwise bound on ray origins, directions, sphere centres, radii and
/// ray parameters accepted by the hit tests: 2^36.
pub const GEO_BOUND: i128 = 0x10_0000_0000;

/// Componentwise bound on the outward normal a hit test will accept: 2^32.
/// A well-scaled normal is near ONE; this guard only rejects hits whose
/// normal the fixed-point division blew out of all proportion.
pub const NORMAL_BOUND: i128 = 0x1_0000_0000;

/// Componentwise bound on hit points reachable from bounded rays: 2^59.
pub const REC_P_BOUND: i128 = 0x800_0000_0000_0000;

/// Mathematical model of a hit record.
pub struct HitRecS {
    pub p: V3,
    pub normal: V3,
    pub material: MaterialS,
    pub t: int,
    pub front_face: bool,
}

/// One ray-surface intersection: the hit point, the unit-scale normal turned
/// against the incoming ray, the struck surface's material, the ray parameter
/// of the hit, and whether the ray came from outside the surface.
pub struct HitRecord {
    pub p: Vec3,
    pub normal: Vec3,
    pub material: Material,
    pub t: i128,
    pub front_face: bool,
}

impl View for HitRecord {
    type V = HitRecS;

    open spec fn view(&self) -> HitRecS {
        HitRecS {
            p: self.p@,
            normal: self.normal@,
            material: self.material@,
            t: self.t as int,
            front_face: self.front_face,
        }
    }
}

pub open spec fn rec_wf(h: HitRecS) -> bool {
    &&& sv_bounded(h.p, REC_P_BOUND as int)
    &&& sv_bounded(h.normal, NORMAL_BOUND as int)
    &&& abs_i(h.t) <= GEO_BOUND as int
    &&& mat_wf(h.material)
}

/// The orientation rule: the stored normal opposes the incoming ray, and
/// front_face records whether the outward normal already did.
pub open spec fn sv_face_normal(dir: V3, outward: V3) -> (bool, V3) {
    let ff = sv_dot_raw(dir, outward) < 0;
    (ff, if ff {
        outward
    } else {
        sv_neg(outward)
    })
}

impl HitRecord {
    /// Decide the side the ray struck and orient the normal against the ray.
    pub fn face_and_normal(ray: &Ray, outward_normal: Vec3) -> (r: (bool, Vec3))
        requires
            sv_bounded(ray@.direction, FP_BOUND as int),
            sv_bounded(outward_normal@, FP_BOUND as int),
        ensures
            r.0 == sv_face_normal(ray@.direction, outward_normal@).0,
            r.1@ == sv_face_normal(ray@.direction, outward_normal@).1,
            sv_dot_raw(ray@.direction, r.1@) <= 0,
    {
        let d: i128 = ray.direction.dot_raw(&outward_normal);
        if d < 0 {
            (true, outward_normal)
        } else {
            proof {
                lemma_dot_raw_neg_right(ray@.direction, outward_normal@);
            }
            (false, outward_normal.neg())
        }
    }
}

/// Mathematical model of a primitive.
pub enum HittableS {
    Sphere(SphereS),
    MovingSphere(MovingSphereS),
}

/// The closed set of primitives a scene can hold.
pub enum Hittable {
    Sphere(Sphere),
    MovingSphere(MovingSphere),
}

impl View for Hittable {
    type V = HittableS;

    open spec fn view(&self) -> HittableS {
        match *self {
            Hittable::Sphere(s) => HittableS::Sphere(s@),
            Hittable::MovingSphere(m) => HittableS::MovingSphere(m@),
        }
    }
}

pub open spec fn hittable_wf(h: HittableS) -> bool {
    match h {
        HittableS::Sphere(s) => sphere_wf(s),
        HittableS::MovingSphere(m) => moving_sphere_wf(m),
    }
}

/// The hit test of any primitive.
pub open spec fn hittable_hit(h: HittableS, ray: RayS, t_min: int, t_max: int) -> Option<
    HitRecS,
> {
    match h {
        HittableS::Sphere(s) => sphere_hit_core(s.centre, s.radius, s.material, ray, t_min, t_max),
        HittableS::MovingSphere(m) => moving_sphere_hit_spec(m, ray, t_min, t_max),
    }
}

impl Hittable {
    /// Intersect a ray with this primitive over [t_min, t_max].
    pub fn hit(&self, ray: &Ray, t_min: i128, t_max: i128) -> (r: Option<HitRecord>)
        requires
            hittable_wf(self@),
            ray_bounded(ray@, GEO_BOUND as int),
            abs_i(t_min as int) <= GEO_BOUND as int,
            abs_i(t_max as int) <= GEO_BOUND as int,
        ensures
            hittable_hit(self@, ray@, t_min as int, t_max as int) matches Some(hs) ==> (r matches
                Some(h) && h@ == hs),
            hittable_hit(self@, ray@, t_min as int, t_max as int) is None ==> r is None,
            r matches Some(h) ==> {
                &&& rec_wf(h@)
                &&& t_min <= h.t <= t_max
                &&& sv_dot_raw(ray@.direction, h@.normal) <= 0
            },
    {
        match self {
            Hittable::Sphere(s) => s.hit(ray, t_min, t_max),
            Hittable::MovingSphere(m) => m.hit(ray, t_min, t_max),
        }
    }
}

/// A hit's parameter always lies inside the queried range.
pub proof fn lemma_hittable_hit_range(h: HittableS, ray: RayS, t_min: int, t_max: int)
    ensures
        hittable_hit(h, ray, t_min, t_max) matches Some(hr) ==> t_min <= hr.t <= t_max,
{
    match h {
        HittableS::Sphere(s) => {
            crate::sphere::lemma_sphere_hit_range(s.centre, s.radius, s.material, ray, t_min, t_max);
        },
        HittableS::MovingSphere(m) => {
            let centre = crate::moving_sphere::moving_centre_spec(m, ray.time);
            crate::sphere::lemma_sphere_hit_range(centre, m.radius, m.material, ray, t_min, t_max);
        },
    }
}

/// Narrowing the upper bound of the search range neither invents hits nor
/// loses one inside the narrowed range.
pub proof fn lemma_hittable_hit_narrow(h: HittableS, ray: RayS, t_min: int, b: int, t_max: int)
    requires
        b <= t_max,
    ensures
        hittable_hit(h, ray, t_min, b) matches Some(hr) ==> hittable_hit(h, ray, t_min, t_max)
            == Some(hr),
        hittable_hit(h, ray, t_min, t_max) matches Some(hr) ==> (hr.t <= b ==> hittable_hit(
            h,
            ray,
            t_min,
            b,
        ) == Some(hr)),
{
    match h {
        HittableS::Sphere(s) => {
            crate::sphere::lemma_sphere_hit_narrow(
                s.centre,
                s.radius,
                s.material,
                ray,
                t_min,
                b,
                t_max,
            );
        },
        HittableS::MovingSphere(m) => {
            let centre = crate::moving_sphere::moving_centre_spec(m, ray.time);
            crate::sphere::lemma_sphere_hit_narrow(
                centre,
                m.radius,
                m.material,
                ray,
                t_min,
                b,
                t_max,
            );
        },
    }
}

pub proof fn lemma_dot_raw_neg_right(a: V3, b: V3)
    ensures
        sv_dot_raw(a, sv_neg(b)) == -sv_dot_raw(a, b),
{
    assert(a.x * (-b.x) == -(a.x * b.x) && a.y * (-b.y) == -(a.y * b.y) && a.z * (-b.z) == -(a.z
        * b.z)) by (nonlinear_arith);
}

} // verus!
