use vstd::prelude::*;
use crate::fixed::{abs_i, lemma_fmul_range, ONE};
use crate::hit::{rec_wf, HitRecS, HitRecord, GEO_BOUND, NORMAL_BOUND};
use crate::math::{
    lemma_dot_raw_bounds, sv_add, sv_bounded, sv_dot, sv_dot_raw, sv_reflect, sv_scale, sv_unit,
    Vec3, V3,
};
use crate::ray::{ray_bounded, Ray, RayS};
use crate::rng::Rng;

verus! {

/// A specular surface: reflects the incoming ray about the normal, perturbed
/// by fuzz times a random point in the unit sphere. A perturbed ray that
/// would re-enter the surface is absorbed.
#[derive(Clone, Copy)]
pub struct Metal {
    pub albedo: Vec3,
    pub fuzz: i128,
}

/// What a metal surface does with a hit, given the random in-sphere sample
/// the fuzz perturbation is built from. None means the ray was absorbed
/// (the perturbed direction pointed into the surface).
pub open spec fn metal_scatter_spec(albedo: V3, fuzz: int, rius: V3, ray: RayS, rec: HitRecS)
    -> Option<(V3, RayS)> {
    let reflected = sv_reflect(sv_unit(ray.direction), rec.normal);
    let dir = sv_add(reflected, sv_scale(fuzz, rius));
    if sv_dot_raw(dir, rec.normal) <= 0 {
        None
    } else {
        Some((albedo, RayS { origin: rec.p, direction: dir, time: ray.time }))
    }
}

impl Metal {
    /// The deterministic core of the scatter, taking the random in-sphere
    /// sample as an argument.
    pub fn scatter_with(&self, rius: &Vec3, ray: &Ray, rec: &HitRecord) -> (r: Option<(Vec3, Ray)>)
        requires
            rec_wf(rec@),
            sv_bounded(rius@, ONE as int),
            ray_bounded(ray@, GEO_BOUND as int),
            0 <= self.fuzz <= ONE,
        ensures
            metal_scatter_spec(self.albedo@, self.fuzz as int, rius@, ray@, rec@) matches Some(sp)
                ==> (r matches Some(pair) && pair.0@ == sp.0 && pair.1@ == sp.1),
            metal_scatter_spec(self.albedo@, self.fuzz as int, rius@, ray@, rec@) is None ==> r
                is None,
            r matches Some(pair) ==> pair.0@ == self.albedo@ && pair.1@.origin == rec@.p
                && pair.1@.time == ray@.time,
            (self.fuzz == 0 && sv_dot_raw(
                sv_reflect(sv_unit(ray@.direction), rec@.normal),
                rec@.normal,
            ) > 0) ==> r is Some,
    {
        proof {
            if self.fuzz == 0 {
                lemma_fuzzless_direction(self.albedo@, rius@, ray@, rec@);
            }
        }
        let unit_dir: Vec3 = ray.direction.unit_vec();
        let reflected: Vec3 = unit_dir.reflect(&rec.normal);
        proof {
            lemma_metal_reflect_bounded(unit_dir@, rec@.normal);
        }
        let fuzzed: Vec3 = rius.scale(self.fuzz);
        proof {
            lemma_fmul_range(self.fuzz as int, rius@.x, ONE as int, ONE as int);
            lemma_fmul_range(self.fuzz as int, rius@.y, ONE as int, ONE as int);
            lemma_fmul_range(self.fuzz as int, rius@.z, ONE as int, ONE as int);
        }
        let dir: Vec3 = reflected.add(&fuzzed);
        let dr: i128 = dir.dot_raw(&rec.normal);
        if dr <= 0 {
            None
        } else {
            Some((self.albedo, Ray { origin: rec.p, direction: dir, time: ray.time }))
        }
    }

    /// Scatter with a fresh in-sphere sample from the given source.
    pub fn scatter(&self, rng: &mut Rng, ray: &Ray, rec: &HitRecord) -> (r: Option<(Vec3, Ray)>)
        requires
            rec_wf(rec@),
            ray_bounded(ray@, GEO_BOUND as int),
            0 <= self.fuzz <= ONE,
        ensures
            r matches Some(pair) ==> pair.0@ == self.albedo@ && pair.1@.origin == rec@.p
                && pair.1@.time == ray@.time,
            r matches Some(pair) ==> exists|u: V3|
                sv_bounded(u, ONE as int) && #[trigger] metal_scatter_spec(
                    self.albedo@,
                    self.fuzz as int,
                    u,
                    ray@,
                    rec@,
                ) == Some((pair.0@, pair.1@)),
            (self.fuzz == 0 && sv_dot_raw(
                sv_reflect(sv_unit(ray@.direction), rec@.normal),
                rec@.normal,
            ) > 0) ==> r is Some,
    {
        let rius: Vec3 = Vec3::random_in_unit_sphere(rng);
        let r: Option<(Vec3, Ray)> = self.scatter_with(&rius, ray, rec);
        proof {
            if metal_scatter_spec(self.albedo@, self.fuzz as int, rius@, ray@, rec@) is Some {
            }
        }
        r
    }
}

/// With zero fuzz the perturbation vanishes exactly, so the scatter
/// direction is the bare reflection: the outcome is decided by the inputs
/// alone, and a reflection leaving the surface must scatter.
proof fn lemma_fuzzless_direction(albedo: V3, rius: V3, ray: RayS, rec: HitRecS)
    ensures
        sv_dot_raw(sv_reflect(sv_unit(ray.direction), rec.normal), rec.normal) > 0
            ==> metal_scatter_spec(albedo, 0, rius, ray, rec) is Some,
{
    crate::fixed::lemma_fmul_zero(rius.x);
    crate::fixed::lemma_fmul_zero(rius.y);
    crate::fixed::lemma_fmul_zero(rius.z);
    let reflected = sv_reflect(sv_unit(ray.direction), rec.normal);
    assert(sv_add(reflected, sv_scale(0, rius)) == reflected);
}

/// The reflection of a unit vector about a well-formed record's normal stays
/// componentwise bounded, so adding the fuzz term cannot overflow.
proof fn lemma_metal_reflect_bounded(u: V3, n: V3)
    requires
        sv_bounded(u, ONE as int),
        sv_bounded(n, NORMAL_BOUND as int),
    ensures
        sv_bounded(sv_reflect(u, n), 0x20_0000_0000_0000),
{
    lemma_dot_raw_bounds(u, n, ONE as int, NORMAL_BOUND as int);
    crate::fixed::lemma_floor_div_range(
        sv_dot_raw(u, n),
        ONE as int,
        3 * ((ONE as int) * (NORMAL_BOUND as int)),
    );
    let d = sv_dot(u, n);
    assert(abs_i(2 * d) <= 0x8_0000_0000);
    lemma_fmul_range(2 * d, n.x, 0x8_0000_0000, NORMAL_BOUND as int);
    lemma_fmul_range(2 * d, n.y, 0x8_0000_0000, NORMAL_BOUND as int);
    lemma_fmul_range(2 * d, n.z, 0x8_0000_0000, NORMAL_BOUND as int);
}

} // verus!
