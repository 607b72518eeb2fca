use vstd::prelude::*;
use crate::fixed::ONE;
use crate::hit::{rec_wf, HitRecS, HitRecord};
use crate::math::{sv_add, sv_bounded, sv_near_zero, Vec3, V3};
use crate::ray::{Ray, RayS};
use crate::rng::Rng;

verus! {

/// A diffuse surface: scatters into the hemisphere around the normal and
/// attenuates by its albedo. It never absorbs a ray.
#[derive(Clone, Copy)]
pub struct Lambertian {
    pub albedo: Vec3,
}

/// What a Lambertian surface does with a hit, given the random unit vector
/// the scatter direction is built from: the direction is normal + unit
/// sample, falling back to the bare normal when that sum degenerates to
/// (near) zero.
pub open spec fn lambertian_scatter_spec(albedo: V3, ruv: V3, ray: RayS, rec: HitRecS) -> (V3,
    RayS) {
    let d0 = sv_add(rec.normal, ruv);
    let dir = if sv_near_zero(d0) {
        rec.normal
    } else {
        d0
    };
    (albedo, RayS { origin: rec.p, direction: dir, time: ray.time })
}

impl Lambertian {
    /// The deterministic core of the scatter, taking the random unit vector
    /// as an argument.
    pub fn scatter_with(&self, ruv: &Vec3, ray: &Ray, rec: &HitRecord) -> (r: (Vec3, Ray))
        requires
            rec_wf(rec@),
            sv_bounded(ruv@, ONE as int),
        ensures
            (r.0@, r.1@) == lambertian_scatter_spec(self.albedo@, ruv@, ray@, rec@),
            sv_near_zero(sv_add(rec@.normal, ruv@)) ==> r.1@.direction == rec@.normal,
            r.0@ == self.albedo@,
            r.1@.origin == rec@.p,
            r.1@.time == ray@.time,
    {
        let sum: Vec3 = rec.normal.add(ruv);
        let dir: Vec3 = if sum.is_near_zero() {
            rec.normal
        } else {
            sum
        };
        let scattered: Ray = Ray { origin: rec.p, direction: dir, time: ray.time };
        (self.albedo, scattered)
    }

    /// Scatter with a fresh random unit vector from the given source.
    pub fn scatter(&self, rng: &mut Rng, ray: &Ray, rec: &HitRecord) -> (r: Option<(Vec3, Ray)>)
        requires
            rec_wf(rec@),
        ensures
            r matches Some(pair) && pair.0@ == self.albedo@ && pair.1@.origin == rec@.p
                && pair.1@.time == ray@.time,
            r matches Some(pair) ==> exists|u: V3|
                sv_bounded(u, ONE as int) && (pair.0@, pair.1@)
                    == #[trigger] lambertian_scatter_spec(self.albedo@, u, ray@, rec@),
    {
        let ruv: Vec3 = Vec3::random_unit_vector(rng);
        let pair: (Vec3, Ray) = self.scatter_with(&ruv, ray, rec);
        proof {
            assert((pair.0@, pair.1@) == lambertian_scatter_spec(self.albedo@, ruv@, ray@, rec@));
        }
        Some(pair)
    }
}

} // verus!
