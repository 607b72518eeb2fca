use pathtracer::dielectric::Dielectric;
use pathtracer::hit::HitRecord;
use pathtracer::lambertian::Lambertian;
use pathtracer::mat::Material;
use pathtracer::math::Vec3;
use pathtracer::metal::Metal;
use pathtracer::ray::Ray;
use pathtracer::rng::Rng;

const ONE: i128 = 65536;

fn record(normal: Vec3, front_face: bool, material: Material) -> HitRecord {
    HitRecord { p: Vec3::new(0, 0, 0), normal, material, t: ONE, front_face }
}

fn down_ray() -> Ray {
    Ray { origin: Vec3::new(0, 0, ONE), direction: Vec3::new(0, 0, -ONE), time: 0 }
}

/// A random unit vector that exactly cancels the normal must fall back to
/// the normal itself, never a near-zero scatter direction.
#[test]
fn lambertian_degenerate_guard() {
    let lam = Lambertian { albedo: Vec3::new(32768, 32768, 32768) };
    let normal = Vec3::new(0, 0, ONE);
    let rec = record(normal, true, Material::Lambertian(lam));
    let ruv = Vec3::new(0, 0, -ONE);
    let (att, scattered) = lam.scatter_with(&ruv, &down_ray(), &rec);
    assert_eq!(att, Vec3::new(32768, 32768, 32768));
    assert_eq!(scattered.direction, normal);
    assert_eq!(scattered.origin, rec.p);
}

/// An ordinary Lambertian scatter adds the unit sample to the normal.
#[test]
fn lambertian_scatter_direction() {
    let lam = Lambertian { albedo: Vec3::new(ONE, 0, 0) };
    let normal = Vec3::new(0, 0, ONE);
    let rec = record(normal, true, Material::Lambertian(lam));
    let ruv = Vec3::new(ONE, 0, 0);
    let (_, scattered) = lam.scatter_with(&ruv, &down_ray(), &rec);
    assert_eq!(scattered.direction, Vec3::new(ONE, 0, ONE));
}

/// A fuzz-free metal reflects the incoming direction about the normal.
#[test]
fn metal_reflects() {
    let met = Metal { albedo: Vec3::new(45875, 39321, 32768), fuzz: 0 };
    let normal = Vec3::new(0, 0, ONE);
    let rec = record(normal, true, Material::Metal(met));
    let rius = Vec3::new(0, 0, 0);
    let out = met.scatter_with(&rius, &down_ray(), &rec).expect("reflection leaves the surface");
    assert_eq!(out.0, Vec3::new(45875, 39321, 32768));
    assert_eq!(out.1.direction, Vec3::new(0, 0, ONE));
}

/// A fuzz perturbation that drags the reflected ray back into the surface
/// is absorbed.
#[test]
fn metal_absorbs_grazing() {
    let met = Metal { albedo: Vec3::new(ONE, ONE, ONE), fuzz: ONE };
    let normal = Vec3::new(0, 0, ONE);
    let rec = record(normal, true, Material::Metal(met));
    let rius = Vec3::new(0, 0, -ONE);
    assert!(met.scatter_with(&rius, &down_ray(), &rec).is_none());
}

/// Glass attenuates nothing: the attenuation is exactly (1, 1, 1), for any
/// draw.
#[test]
fn dielectric_attenuation_is_white() {
    let glass = Dielectric { ir: 98304 };
    let normal = Vec3::new(0, 0, ONE);
    let rec = record(normal, true, Material::Dielectric(glass));
    for draw in [0, 32768, ONE] {
        let (att, _) = glass.scatter_with(draw, &down_ray(), &rec);
        assert_eq!(att, Vec3::new(ONE, ONE, ONE));
    }
}

/// Under total internal reflection the glass reflects whatever the draw.
#[test]
fn dielectric_total_internal_reflection() {
    let glass = Dielectric { ir: 98304 };
    let normal = Vec3::new(0, 0, ONE);
    // leaving the medium (back face), grazing along the surface
    let rec = record(normal, false, Material::Dielectric(glass));
    let grazing = Ray { origin: Vec3::new(0, 0, 0), direction: Vec3::new(ONE, 0, 0), time: 0 };
    for draw in [0, 32768, ONE] {
        let (_, scattered) = glass.scatter_with(draw, &grazing, &rec);
        assert_eq!(scattered.direction, Vec3::new(ONE, 0, 0));
    }
}

/// With the draw fixed at 1.0, every non-reflecting case refracts: a ray
/// straight down the normal passes straight through.
#[test]
fn dielectric_refracts_with_unit_draw() {
    let glass = Dielectric { ir: 98304 };
    let normal = Vec3::new(0, 0, ONE);
    let rec = record(normal, true, Material::Dielectric(glass));
    let (_, scattered) = glass.scatter_with(ONE, &down_ray(), &rec);
    assert_eq!(scattered.direction, Vec3::new(0, 0, -ONE));
}

/// With the draw at 0, even a head-on ray reflects (Schlick reflectance is
/// positive), bouncing straight back.
#[test]
fn dielectric_reflects_with_zero_draw() {
    let glass = Dielectric { ir: 98304 };
    let normal = Vec3::new(0, 0, ONE);
    let rec = record(normal, true, Material::Dielectric(glass));
    let (_, scattered) = glass.scatter_with(0, &down_ray(), &rec);
    assert_eq!(scattered.direction, Vec3::new(0, 0, ONE));
}

/// Dispatch through the Material enum preserves each variant's behaviour.
#[test]
fn material_dispatch() {
    let lam = Lambertian { albedo: Vec3::new(32768, 32768, 32768) };
    let mat = Material::Lambertian(lam);
    let rec = record(Vec3::new(0, 0, ONE), true, mat);
    let mut rng = Rng::fixed(vec![32768, 32768, 32768]);
    let (att, scattered) = mat.scatter(&mut rng, &down_ray(), &rec).unwrap();
    assert_eq!(att, Vec3::new(32768, 32768, 32768));
    // the prepared draws yield the degenerate zero sample, which the unit
    // sampler replaces by its fixed interior point on the x axis; the
    // scatter direction is the normal plus that unit vector
    assert_eq!(scattered.direction, Vec3::new(ONE, 0, ONE));
}

/// Attenuation by an albedo with channels at most one never increases any
/// channel.
#[test]
fn energy_non_amplification() {
    let albedo = Vec3::new(32768, 32768, 32768);
    let c = Vec3::new(ONE, 32768, 100);
    let out = albedo.comp_mul(&c);
    assert_eq!(out, Vec3::new(32768, 16384, 50));
    assert!(out.x <= c.x && out.y <= c.y && out.z <= c.z);
    assert!(out.x >= 0 && out.y >= 0 && out.z >= 0);
}

/// Reflection about a normal: v - 2·(v·n)·n.
#[test]
fn reflect_formula() {
    let v = Vec3::new(ONE, 0, -ONE);
    let n = Vec3::new(0, 0, ONE);
    assert_eq!(v.reflect(&n), Vec3::new(ONE, 0, ONE));
}

/// Refraction of a head-on ray is unchanged for any ratio.
#[test]
fn refract_head_on() {
    let uv = Vec3::new(0, 0, -ONE);
    let n = Vec3::new(0, 0, ONE);
    assert_eq!(uv.refract(&n, 43690), Vec3::new(0, 0, -ONE));
}
