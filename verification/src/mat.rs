use vstd::prelude::*;
use crate::dielectric::Dielectric;
use crate::fixed::{fmul, ONE};
use crate::hit::{rec_wf, HitRecord, GEO_BOUND};
use crate::lambertian::Lambertian;
use crate::math::{sv_cmul, sv_in_range, Vec3, V3};
use crate::metal::Metal;
use crate::ray::{ray_bounded, Ray};
use crate::rng::Rng;

verus! {

/// A colour whose channels all lie in [0, 1].
pub open spec fn sv_color01(v: V3) -> bool {
    sv_in_range(v, 0, ONE as int)
}

pub open spec fn sv_white() -> V3 {
    V3 { x: ONE as int, y: ONE as int, z: ONE as int }
}

/// Mathematical model of a material.
pub enum MaterialS {
    Lambertian { albedo: V3 },
    Metal { albedo: V3, fuzz: int },
    Dielectric { ir: int },
}

/// The closed set of scattering models: diffuse, specular with fuzz, and
/// refractive glass. Materials are immutable once built and freely copied, so
/// many surfaces can share one.
#[derive(Clone, Copy)]
pub enum Material {
    Lambertian(Lambertian),
    Metal(Metal),
    Dielectric(Dielectric),
}

impl View for Material {
    type V = MaterialS;

    open spec fn view(&self) -> MaterialS {
        match *self {
            Material::Lambertian(l) => MaterialS::Lambertian { albedo: l.albedo@ },
            Material::Metal(m) => MaterialS::Metal { albedo: m.albedo@, fuzz: m.fuzz as int },
            Material::Dielectric(d) => MaterialS::Dielectric { ir: d.ir as int },
        }
    }
}

/// Well-formedness of a material: albedo channels in [0, 1], fuzz in [0, 1],
/// refractive index in [IR_MIN, IR_MAX].
pub open spec fn mat_wf(m: MaterialS) -> bool {
    match m {
        MaterialS::Lambertian { albedo } => sv_color01(albedo),
        MaterialS::Metal { albedo, fuzz } => sv_color01(albedo) && 0 <= fuzz <= ONE,
        MaterialS::Dielectric { ir } => crate::dielectric::IR_MIN <= ir
            <= crate::dielectric::IR_MAX,
    }
}

/// The attenuation each material applies when it scatters.
pub open spec fn mat_albedo(m: MaterialS) -> V3 {
    match m {
        MaterialS::Lambertian { albedo } => albedo,
        MaterialS::Metal { albedo, .. } => albedo,
        MaterialS::Dielectric { .. } => sv_white(),
    }
}

/// Energy non-amplification: attenuating a nonnegative radiance by any
/// well-formed material's albedo never increases a channel and never drives
/// one negative. For glass the albedo is pure white, so the radiance passes
/// through unchanged.
pub proof fn lemma_energy_non_amplification(m: MaterialS, c: V3)
    requires
        mat_wf(m),
        0 <= c.x,
        0 <= c.y,
        0 <= c.z,
    ensures
        0 <= sv_cmul(mat_albedo(m), c).x <= c.x,
        0 <= sv_cmul(mat_albedo(m), c).y <= c.y,
        0 <= sv_cmul(mat_albedo(m), c).z <= c.z,
        m is Dielectric ==> sv_cmul(mat_albedo(m), c) == c,
{
    let a = mat_albedo(m);
    crate::fixed::lemma_fmul_attenuates(c.x, a.x);
    crate::fixed::lemma_fmul_attenuates(c.y, a.y);
    crate::fixed::lemma_fmul_attenuates(c.z, a.z);
    assert(fmul(a.x, c.x) == fmul(c.x, a.x)) by {
        assert(a.x * c.x == c.x * a.x) by (nonlinear_arith);
    }
    assert(fmul(a.y, c.y) == fmul(c.y, a.y)) by {
        assert(a.y * c.y == c.y * a.y) by (nonlinear_arith);
    }
    assert(fmul(a.z, c.z) == fmul(c.z, a.z)) by {
        assert(a.z * c.z == c.z * a.z) by (nonlinear_arith);
    }
    if m is Dielectric {
        crate::fixed::lemma_euclid_unique((ONE as int) * c.x, ONE as int, c.x, 0);
        crate::fixed::lemma_euclid_unique((ONE as int) * c.y, ONE as int, c.y, 0);
        crate::fixed::lemma_euclid_unique((ONE as int) * c.z, ONE as int, c.z, 0);
        assert(sv_cmul(mat_albedo(m), c) =~= c);
    }
}

impl Material {
    /// Scatter an incoming ray at a hit: an attenuation colour and an
    /// outgoing ray, or None when the surface absorbs the ray.
    pub fn scatter(&self, rng: &mut Rng, ray: &Ray, rec: &HitRecord) -> (r: Option<(Vec3, Ray)>)
        requires
            rec_wf(rec@),
            ray_bounded(ray@, GEO_BOUND as int),
            mat_wf(self@),
        ensures
            r matches Some(pair) ==> {
                &&& pair.0@ == mat_albedo(self@)
                &&& sv_color01(pair.0@)
                &&& pair.1@.origin == rec@.p
                &&& pair.1@.time == ray@.time
            },
            self@ is Lambertian ==> r is Some,
            self@ is Dielectric ==> r is Some,
            (self@ matches MaterialS::Metal { fuzz, .. } && fuzz == 0 && crate::math::sv_dot_raw(
                crate::math::sv_reflect(crate::math::sv_unit(ray@.direction), rec@.normal),
                rec@.normal,
            ) > 0) ==> r is Some,
    {
        match self {
            Material::Lambertian(l) => l.scatter(rng, ray, rec),
            Material::Metal(m) => m.scatter(rng, ray, rec),
            Material::Dielectric(d) => d.scatter(rng, ray, rec),
        }
    }
}

} // verus!
