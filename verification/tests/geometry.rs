use pathtracer::hit::{HitRecord, Hittable};
use pathtracer::list::HittableList;
use pathtracer::mat::Material;
use pathtracer::lambertian::Lambertian;
use pathtracer::math::Vec3;
use pathtracer::moving_sphere::MovingSphere;
use pathtracer::ray::Ray;
use pathtracer::sphere::Sphere;

const ONE: i128 = 65536;

fn grey() -> Material {
    Material::Lambertian(Lambertian { albedo: Vec3::new(32768, 32768, 32768) })
}

fn red() -> Material {
    Material::Lambertian(Lambertian { albedo: Vec3::new(ONE, 0, 0) })
}

/// A ray from (0,0,-10) aimed at a radius-2 sphere at the origin strikes it
/// at distance 8, exactly on the surface: the hit point is at distance r
/// from the centre.
#[test]
fn ray_sphere_round_trip() {
    let sphere = Sphere { centre: Vec3::new(0, 0, 0), radius: 2 * ONE, material: grey() };
    let ray = Ray { origin: Vec3::new(0, 0, -10 * ONE), direction: Vec3::new(0, 0, ONE), time: 0 };
    let hit = sphere.hit(&ray, 65, 100 * ONE).expect("the ray is aimed at the sphere");
    assert_eq!(hit.t, 8 * ONE);
    assert_eq!(hit.p, Vec3::new(0, 0, -2 * ONE));
    let pc = hit.p.sub(&sphere.centre);
    // |p - C|^2 == r^2, in raw (unscaled) units
    assert_eq!(pc.dot_raw(&pc), (2 * ONE) * (2 * ONE));
}

/// The stored normal always opposes the incoming ray.
#[test]
fn normal_opposes_ray() {
    let sphere = Sphere { centre: Vec3::new(0, 0, 0), radius: 2 * ONE, material: grey() };
    // from outside
    let ray = Ray { origin: Vec3::new(0, 0, -10 * ONE), direction: Vec3::new(0, 0, ONE), time: 0 };
    let hit = sphere.hit(&ray, 65, 100 * ONE).unwrap();
    assert!(ray.direction.dot_raw(&hit.normal) <= 0);
    assert_eq!(hit.normal, Vec3::new(0, 0, -ONE));
    // from inside
    let ray2 = Ray { origin: Vec3::new(0, 0, 0), direction: Vec3::new(0, 0, ONE), time: 0 };
    let hit2 = sphere.hit(&ray2, 65, 100 * ONE).unwrap();
    assert!(ray2.direction.dot_raw(&hit2.normal) <= 0);
    assert_eq!(hit2.normal, Vec3::new(0, 0, -ONE));
}

/// face_and_normal flips a normal that agrees with the ray direction.
#[test]
fn face_and_normal_orientation() {
    let ray = Ray { origin: Vec3::new(0, 0, 0), direction: Vec3::new(0, 0, ONE), time: 0 };
    let (ff, n) = HitRecord::face_and_normal(&ray, Vec3::new(0, 0, ONE));
    assert!(!ff);
    assert_eq!(n, Vec3::new(0, 0, -ONE));
    let (ff2, n2) = HitRecord::face_and_normal(&ray, Vec3::new(0, 0, -ONE));
    assert!(ff2);
    assert_eq!(n2, Vec3::new(0, 0, -ONE));
}

/// A ray starting strictly outside a positive sphere strikes it front-face;
/// one starting strictly inside strikes it back-face.
#[test]
fn front_face_consistency() {
    let sphere = Sphere { centre: Vec3::new(0, 0, 0), radius: 2 * ONE, material: grey() };
    let outside = Ray {
        origin: Vec3::new(0, 0, -10 * ONE),
        direction: Vec3::new(0, 0, ONE),
        time: 0,
    };
    assert!(sphere.hit(&outside, 65, 100 * ONE).unwrap().front_face);
    let inside = Ray { origin: Vec3::new(0, 0, 0), direction: Vec3::new(0, 0, ONE), time: 0 };
    assert!(!sphere.hit(&inside, 65, 100 * ONE).unwrap().front_face);
}

/// With two spheres along the ray, the closer one wins whatever the
/// insertion order.
#[test]
fn closest_hit_selection() {
    let near = || Sphere { centre: Vec3::new(0, 0, -5 * ONE), radius: ONE, material: grey() };
    let far = || Sphere { centre: Vec3::new(0, 0, -10 * ONE), radius: ONE, material: grey() };
    let ray = Ray { origin: Vec3::new(0, 0, 0), direction: Vec3::new(0, 0, -ONE), time: 0 };

    let scene_a = HittableList(vec![Hittable::Sphere(near()), Hittable::Sphere(far())]);
    let scene_b = HittableList(vec![Hittable::Sphere(far()), Hittable::Sphere(near())]);
    let ha = scene_a.hit(&ray, 65, 100 * ONE).unwrap();
    let hb = scene_b.hit(&ray, 65, 100 * ONE).unwrap();
    assert_eq!(ha.t, 4 * ONE);
    assert_eq!(hb.t, 4 * ONE);
    assert_eq!(ha.p, Vec3::new(0, 0, -4 * ONE));
    assert_eq!(hb.p, Vec3::new(0, 0, -4 * ONE));
}

/// On an exact distance tie, the first inserted primitive wins.
#[test]
fn tie_break_first_inserted_wins() {
    let a = Sphere { centre: Vec3::new(0, 0, -5 * ONE), radius: ONE, material: red() };
    let b = Sphere { centre: Vec3::new(0, 0, -5 * ONE), radius: ONE, material: grey() };
    let ray = Ray { origin: Vec3::new(0, 0, 0), direction: Vec3::new(0, 0, -ONE), time: 0 };
    let scene = HittableList(vec![Hittable::Sphere(a), Hittable::Sphere(b)]);
    let hit = scene.hit(&ray, 65, 100 * ONE).unwrap();
    match hit.material {
        Material::Lambertian(l) => assert_eq!(l.albedo, Vec3::new(ONE, 0, 0)),
        _ => panic!("wrong material kind"),
    }
}

/// An empty scene yields no hit.
#[test]
fn empty_scene_misses() {
    let scene = HittableList(Vec::new());
    let ray = Ray { origin: Vec3::new(0, 0, 0), direction: Vec3::new(0, 0, -ONE), time: 0 };
    assert!(scene.hit(&ray, 65, 100 * ONE).is_none());
}

/// A ray aimed away from every primitive yields no hit.
#[test]
fn miss_behind_ray() {
    let sphere = Sphere { centre: Vec3::new(0, 0, -5 * ONE), radius: ONE, material: grey() };
    let scene = HittableList(vec![Hittable::Sphere(sphere)]);
    let away = Ray { origin: Vec3::new(0, 0, 0), direction: Vec3::new(0, 0, ONE), time: 0 };
    assert!(scene.hit(&away, 65, 100 * ONE).is_none());
}

/// A negative radius flips the outward normal: the same geometry is struck
/// at the same distance, but inside-out — that is how a hollow glass shell
/// is built from a positive and a negative sphere at one centre.
#[test]
fn negative_radius_flips_normal() {
    let shell = Sphere { centre: Vec3::new(0, 0, 0), radius: -2 * ONE, material: grey() };
    let ray = Ray { origin: Vec3::new(0, 0, -10 * ONE), direction: Vec3::new(0, 0, ONE), time: 0 };
    let hit = shell.hit(&ray, 65, 100 * ONE).unwrap();
    assert_eq!(hit.t, 8 * ONE);
    // the outward normal points inward, so the surface reads back-face
    assert!(!hit.front_face);
    assert_eq!(hit.normal, Vec3::new(0, 0, -ONE));
}

/// The moving sphere's centre interpolates linearly over its time window.
#[test]
fn moving_sphere_centre_interpolates() {
    let m = MovingSphere {
        centre_start: Vec3::new(0, 0, 0),
        centre_end: Vec3::new(ONE, 0, 0),
        time_start: 0,
        time_end: ONE,
        radius: ONE,
        material: grey(),
    };
    assert_eq!(m.centre(0), Vec3::new(0, 0, 0));
    assert_eq!(m.centre(32768), Vec3::new(32768, 0, 0));
    assert_eq!(m.centre(ONE), Vec3::new(ONE, 0, 0));
}

/// A shutter time far outside a tiny time window extrapolates the centre
/// beyond the supported region; such a degenerate query yields no hit.
#[test]
fn moving_sphere_guards_extrapolation() {
    let m = MovingSphere {
        centre_start: Vec3::new(0, 0, 0),
        centre_end: Vec3::new(ONE, 0, 0),
        time_start: 0,
        time_end: 1,
        radius: ONE,
        material: grey(),
    };
    let ray = Ray {
        origin: Vec3::new(0, 0, 0),
        direction: Vec3::new(0, 0, -ONE),
        time: 0x10_0000_0000,
    };
    assert!(m.hit(&ray, 65, 100 * ONE).is_none());
}

/// A ray at shutter time 0 sees the moving sphere at its start centre.
#[test]
fn moving_sphere_hit_at_start() {
    let m = MovingSphere {
        centre_start: Vec3::new(0, 0, -5 * ONE),
        centre_end: Vec3::new(100 * ONE, 0, -5 * ONE),
        time_start: 0,
        time_end: ONE,
        radius: ONE,
        material: grey(),
    };
    let ray = Ray { origin: Vec3::new(0, 0, 0), direction: Vec3::new(0, 0, -ONE), time: 0 };
    let hit = m.hit(&ray, 65, 100 * ONE).unwrap();
    assert_eq!(hit.t, 4 * ONE);
}
