use vstd::prelude::*;
use crate::fixed::{clamp_spec, fdiv, fmul, fsqrt, ONE};
use crate::hit::{rec_wf, HitRecS, HitRecord, GEO_BOUND};
use crate::mat::sv_white;
use crate::math::{
    shlick_spec, sv_dot, sv_neg, sv_reflect, sv_refract, sv_unit, Vec3, V3,
};
use crate::ray::{ray_bounded, Ray, RayS};
use crate::rng::Rng;

verus! {

/// Smallest refractive index a dielectric accepts (0.5).
pub const IR_MIN: i128 = 32768;

/// Largest refractive index a dielectric accepts (4.0).
pub const IR_MAX: i128 = 262144;

/// Refractive glass: absorbs nothing and either reflects or refracts,
/// stochastically blending the two by Schlick's reflectance.
#[derive(Clone, Copy)]
pub struct Dielectric {
    pub ir: i128,
}

/// The refraction ratio seen by the ray: 1/ir entering the medium, ir
/// leaving it.
pub open spec fn dielectric_ratio(ir: int, front_face: bool) -> int {
    if front_face {
        fdiv(ONE as int, ir)
    } else {
        ir
    }
}

/// Cosine of the incidence angle, clamped into [-1, 1].
pub open spec fn dielectric_cos(ray: RayS, rec: HitRecS) -> int {
    clamp_spec(sv_dot(sv_neg(sv_unit(ray.direction)), rec.normal), -(ONE as int), ONE as int)
}

/// Total internal reflection: ratio·sin(theta) exceeds 1, so no refracted
/// direction exists and the glass must reflect, whatever the random draw.
pub open spec fn dielectric_tir(ir: int, ray: RayS, rec: HitRecS) -> bool {
    let ratio = dielectric_ratio(ir, rec.front_face);
    let cos = dielectric_cos(ray, rec);
    let sin = fsqrt((ONE as int) - fmul(cos, cos));
    fmul(ratio, sin) > ONE
}

/// What glass does with a hit, given the random draw that picks between
/// reflection and refraction. The attenuation is always pure white.
pub open spec fn dielectric_scatter_spec(ir: int, draw: int, ray: RayS, rec: HitRecS) -> (V3,
    RayS) {
    let ratio = dielectric_ratio(ir, rec.front_face);
    let unit_dir = sv_unit(ray.direction);
    let cos = dielectric_cos(ray, rec);
    let dir = if dielectric_tir(ir, ray, rec) || shlick_spec(cos, ratio) > draw {
        sv_reflect(unit_dir, rec.normal)
    } else {
        sv_refract(unit_dir, rec.normal, ratio)
    };
    (sv_white(), RayS { origin: rec.p, direction: dir, time: ray.time })
}

impl Dielectric {
    /// The deterministic core of the scatter, taking the random draw as an
    /// argument; fixing the draw at ONE sends every non-reflecting case down
    /// the refraction branch.
    pub fn scatter_with(&self, draw: i128, ray: &Ray, rec: &HitRecord) -> (r: (Vec3, Ray))
        requires
            rec_wf(rec@),
            ray_bounded(ray@, GEO_BOUND as int),
            IR_MIN <= self.ir <= IR_MAX,
        ensures
            (r.0@, r.1@) == dielectric_scatter_spec(self.ir as int, draw as int, ray@, rec@),
            r.0@ == sv_white(),
            dielectric_tir(self.ir as int, ray@, rec@) ==> r.1@.direction == sv_reflect(
                sv_unit(ray@.direction),
                rec@.normal,
            ),
    {
        let ratio: i128 = if rec.front_face {
            proof {
                lemma_ratio_range(self.ir as int);
            }
            crate::fixed::fp_div(ONE, self.ir)
        } else {
            self.ir
        };
        let unit_dir: Vec3 = ray.direction.unit_vec();
        let nu: Vec3 = unit_dir.neg();
        let cd: i128 = nu.dot(&rec.normal);
        let cos: i128 = crate::fixed::clamp_fp(cd, -ONE, ONE);
        proof {
            crate::fixed::lemma_fmul_self_le_one(cos as int);
        }
        let s2: i128 = ONE - crate::fixed::fp_mul(cos, cos);
        let sin: i128 = crate::fixed::fp_sqrt(s2);
        proof {
            crate::math::lemma_fsqrt_le(s2 as int, ONE as int);
        }
        let cannot: bool = crate::fixed::fp_mul(ratio, sin) > ONE;
        let dir: Vec3 = if cannot || crate::math::shlick_reflectance(cos, ratio) > draw {
            unit_dir.reflect(&rec.normal)
        } else {
            unit_dir.refract(&rec.normal, ratio)
        };
        let attenuation: Vec3 = Vec3::new(ONE, ONE, ONE);
        (attenuation, Ray { origin: rec.p, direction: dir, time: ray.time })
    }

    /// Scatter with a fresh draw from the given source. Glass never absorbs.
    pub fn scatter(&self, rng: &mut Rng, ray: &Ray, rec: &HitRecord) -> (r: Option<(Vec3, Ray)>)
        requires
            rec_wf(rec@),
            ray_bounded(ray@, GEO_BOUND as int),
            IR_MIN <= self.ir <= IR_MAX,
        ensures
            r matches Some(pair) && pair.0@ == sv_white() && pair.1@.origin == rec@.p
                && pair.1@.time == ray@.time,
            r matches Some(pair) ==> exists|d: int|
                0 <= d <= ONE && (pair.0@, pair.1@) == #[trigger] dielectric_scatter_spec(
                    self.ir as int,
                    d,
                    ray@,
                    rec@,
                ),
            dielectric_tir(self.ir as int, ray@, rec@) ==> (r matches Some(pair)
                && pair.1@.direction == sv_reflect(sv_unit(ray@.direction), rec@.normal)),
    {
        let draw: i128 = rng.unit();
        let pair: (Vec3, Ray) = self.scatter_with(draw, ray, rec);
        proof {
            assert((pair.0@, pair.1@) == dielectric_scatter_spec(
                self.ir as int,
                draw as int,
                ray@,
                rec@,
            ));
        }
        Some(pair)
    }
}

/// For a refractive index in [IR_MIN, IR_MAX] the entering ratio 1/ir stays
/// in [1, 0x4_0000].
proof fn lemma_ratio_range(ir: int)
    requires
        IR_MIN <= ir <= IR_MAX,
    ensures
        1 <= fdiv(ONE as int, ir) <= 0x4_0000,
{
    vstd::arithmetic::div_mod::lemma_div_is_ordered_by_denominator(
        (ONE as int) * (ONE as int),
        IR_MIN as int,
        ir,
    );
    vstd::arithmetic::div_mod::lemma_div_is_ordered_by_denominator(
        (ONE as int) * (ONE as int),
        ir,
        IR_MAX as int,
    );
}

} // verus!
