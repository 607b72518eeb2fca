use pathtracer::camera::Camera;
use pathtracer::colour::Colour;
use pathtracer::hit::Hittable;
use pathtracer::lambertian::Lambertian;
use pathtracer::list::HittableList;
use pathtracer::mat::Material;
use pathtracer::math::Vec3;
use pathtracer::render::{pixel_colour, ray_colour, render_row};
use pathtracer::rng::Rng;
use pathtracer::sphere::Sphere;
use pathtracer::ray::Ray;

const ONE: i128 = 65536;

fn grey_sphere_scene() -> HittableList {
    let lam = Lambertian { albedo: Vec3::new(32768, 32768, 32768) };
    let sphere = Sphere {
        centre: Vec3::new(0, 0, -5 * ONE),
        radius: ONE,
        material: Material::Lambertian(lam),
    };
    HittableList(vec![Hittable::Sphere(sphere)])
}

/// At depth 0 the integrator returns exactly black, whatever the scene.
#[test]
fn depth_zero_is_black() {
    let scene = grey_sphere_scene();
    let mut rng = Rng::fixed(Vec::new());
    let ray = Ray { origin: Vec3::new(0, 0, 0), direction: Vec3::new(0, 0, -ONE), time: 0 };
    assert_eq!(ray_colour(&mut rng, &ray, &scene, 0), Vec3::new(0, 0, 0));
}

/// A ray that misses everything returns the background gradient exactly:
/// t = (y + 1)/2 over the unit direction, blended from white to sky blue.
#[test]
fn miss_returns_background() {
    let scene = grey_sphere_scene();
    let mut rng = Rng::fixed(Vec::new());
    // straight along +z: unit y component is 0, so t = 1/2
    let ray = Ray { origin: Vec3::new(0, 0, 0), direction: Vec3::new(0, 0, ONE), time: 0 };
    assert_eq!(ray_colour(&mut rng, &ray, &scene, 8), Vec3::new(49152, 55705, 65536));
    // straight up: unit y is 1, so t = 1 and the colour is pure sky
    let up = Ray { origin: Vec3::new(0, 0, 0), direction: Vec3::new(0, ONE, 0), time: 0 };
    assert_eq!(ray_colour(&mut rng, &up, &scene, 8), Vec3::new(32768, 45875, 65536));
    // straight down: unit y is -1, so t = 0 and the colour is pure white
    let down = Ray { origin: Vec3::new(0, -ONE, 0), direction: Vec3::new(0, -ONE, 0), time: 0 };
    assert_eq!(ray_colour(&mut rng, &down, &scene, 8), Vec3::new(ONE, ONE, ONE));
}

/// One diffuse bounce into the sky: the background, attenuated once by the
/// albedo.
#[test]
fn one_bounce_attenuates_background() {
    let scene = grey_sphere_scene();
    // three draws yield the degenerate zero sample, replaced by the unit
    // sampler's fixed x-axis point: the scatter direction is normal + x,
    // which leaves the sphere and reaches the sky at zero height
    let mut rng = Rng::fixed(vec![32768, 32768, 32768]);
    let ray = Ray { origin: Vec3::new(0, 0, 0), direction: Vec3::new(0, 0, -ONE), time: 0 };
    let c = ray_colour(&mut rng, &ray, &scene, 2);
    assert_eq!(c, Vec3::new(24576, 27852, 32768));
}

/// Gamma-corrected quantization: 1.0 clamps to 0.999 and lands on 255; a
/// quarter has root one half and lands on 128; zero stays 0.
#[test]
fn to_pixel_quantizes() {
    let c = Colour(Vec3::new(ONE, 16384, 0));
    assert_eq!(c.to_pixel(1), (255, 128, 0));
    let summed = Colour(Vec3::new(2 * ONE, 0, 32768));
    // averaging over two samples first: 1.0 -> 255, 0 -> 0, 1/4 -> 128
    assert_eq!(summed.to_pixel(2), (255, 0, 128));
}

/// Vec3 offers the same quantization.
#[test]
fn vec3_to_pixel_quantizes() {
    assert_eq!(Vec3::new(ONE, 16384, 0).to_pixel(1), (255, 128, 0));
}

/// Colour arithmetic used by the accumulator.
#[test]
fn colour_accumulates() {
    let a = Colour(Vec3::new(1, 2, 3));
    let b = Colour(Vec3::new(10, 20, 30));
    assert_eq!(a.add(b), Colour(Vec3::new(11, 22, 33)));
    assert!(Colour::zero().is_zero());
    assert!(!a.is_zero());
}

/// With a closed aperture the ray starts exactly at the camera position.
#[test]
fn camera_ray_origin_without_aperture() {
    let cam = Camera::new(
        Vec3::new(0, 0, 0),
        Vec3::new(0, 0, -ONE),
        Vec3::new(0, ONE, 0),
        90 * ONE,
        3 * ONE / 2,
        0,
        10 * ONE,
    );
    let mut rng = Rng::fixed(Vec::new());
    let ray = cam.get_ray(&mut rng, 32768, 32768);
    assert_eq!(ray.origin, Vec3::new(0, 0, 0));
    assert_eq!(ray.time, 0);
    // the centre of the image plane lies straight ahead
    assert_eq!(ray.direction, Vec3::new(0, 0, -10 * ONE));
}

/// A full row has one pixel per column.
#[test]
fn render_row_width() {
    let scene = grey_sphere_scene();
    let cam = Camera::new(
        Vec3::new(0, 0, 0),
        Vec3::new(0, 0, -ONE),
        Vec3::new(0, ONE, 0),
        90 * ONE,
        3 * ONE / 2,
        0,
        10 * ONE,
    );
    let mut rng = Rng::fixed(Vec::new());
    let row = render_row(&mut rng, &cam, &scene, 0, 4, 3, 1, 2);
    assert_eq!(row.len(), 4);
}

/// Accumulated pixel radiance stays within samples × 1 per channel.
#[test]
fn pixel_colour_bounded() {
    let scene = grey_sphere_scene();
    let cam = Camera::new(
        Vec3::new(0, 0, 0),
        Vec3::new(0, 0, -ONE),
        Vec3::new(0, ONE, 0),
        90 * ONE,
        3 * ONE / 2,
        0,
        10 * ONE,
    );
    let mut rng = Rng::thread();
    let c = pixel_colour(&mut rng, &cam, &scene, 1, 1, 4, 3, 8, 4);
    for ch in [c.x, c.y, c.z] {
        assert!(0 <= ch && ch <= 8 * ONE);
    }
}

/// The prepared random source replays its draws clamped into [0, 1], then
/// yields 1 forever; the thread-backed source stays in range too.
#[test]
fn rng_draws() {
    let mut fixed = Rng::fixed(vec![-5, 70000, 123]);
    assert_eq!(fixed.unit(), 0);
    assert_eq!(fixed.unit(), ONE);
    assert_eq!(fixed.unit(), 123);
    assert_eq!(fixed.unit(), ONE);
    let mut thread = Rng::thread();
    for _ in 0..100 {
        let d = thread.unit();
        assert!(0 <= d && d <= ONE);
        let s = thread.symmetric();
        assert!(-ONE <= s && s <= ONE);
    }
}

/// Ranged random sampling maps the draws affinely onto [min, max].
#[test]
fn random_with_range_maps_draws() {
    let mut rng = Rng::fixed(vec![0, 32768, ONE]);
    let v = Vec3::random_with_range(&mut rng, -ONE, ONE);
    assert_eq!(v, Vec3::new(-ONE, 0, ONE));
}

/// In-sphere samples are strictly inside the unit sphere; unit vectors and
/// hemisphere samples stay bounded, and the hemisphere sample never opposes
/// the normal.
#[test]
fn random_samples_in_range() {
    let mut rng = Rng::thread();
    for _ in 0..50 {
        let p = Vec3::random_in_unit_sphere(&mut rng);
        assert!(p.length_squared() < ONE);
        let u = Vec3::random_unit_vector(&mut rng);
        for ch in [u.x, u.y, u.z] {
            assert!(-ONE <= ch && ch <= ONE);
        }
        // the normalized length stays in its proved band around ONE
        let len = u.length();
        assert!(ONE / 2 <= len && len <= 113511);
        let n = Vec3::new(0, 0, ONE);
        let h = Vec3::random_in_hemisphere(&mut rng, &n);
        assert!(h.dot_raw(&n) >= 0);
        let d = Vec3::random_in_unit_disc(&mut rng);
        assert_eq!(d.z, 0);
        assert!(d.length_squared() < ONE);
    }
}
