use vstd::prelude::*;
use crate::camera::{camera_wf, Camera};
use crate::fixed::{fdiv, fmul, lemma_fmul_attenuates, FP_BOUND, HALF, ONE};
use crate::hit::GEO_BOUND;
use crate::list::{list_hit, list_wf, HittableList};
use crate::mat::{mat_albedo, sv_color01, sv_white};
use crate::math::{
    sv_add, sv_cmul, sv_in_range, sv_scale, sv_unit, sv_zero, Vec3, V3,
};
use crate::ray::{ray_bounded, Ray, RayS};
use crate::rng::Rng;

verus! {

/// Lower ray-parameter cutoff (about 0.001): ignore hits this close to the
/// ray origin, so a scattered ray cannot re-strike its own surface.
pub const EPS_T: i128 = 65;

/// Upper ray-parameter cutoff standing in for infinity.
pub const T_INF: i128 = GEO_BOUND;

/// The sky: a vertical gradient from white at the horizon to blue overhead,
/// by the unit direction's height.
pub open spec fn sv_sky() -> V3 {
    V3 { x: 32768, y: 45875, z: 65536 }
}

pub open spec fn background_spec(ray: RayS) -> V3 {
    let u = sv_unit(ray.direction);
    let t = fmul(HALF as int, u.y + ONE);
    sv_add(sv_scale((ONE as int) - t, sv_white()), sv_scale(t, sv_sky()))
}

/// The background gradient is a valid colour.
pub proof fn lemma_background_color01(ray: RayS)
    ensures
        sv_color01(background_spec(ray)),
{
    crate::math::lemma_unit_bounded(ray.direction);
    let u = sv_unit(ray.direction);
    let s = u.y + ONE;
    let t = fmul(HALF as int, s);
    assert(0 <= s <= 2 * ONE);
    assert(0 <= (HALF as int) * s <= (ONE as int) * (ONE as int)) by (nonlinear_arith)
        requires
            0 <= s <= 131072,
    ;
    vstd::arithmetic::div_mod::lemma_div_pos_is_pos((HALF as int) * s, ONE as int);
    vstd::arithmetic::div_mod::lemma_div_is_ordered(
        (HALF as int) * s,
        (ONE as int) * (ONE as int),
        ONE as int,
    );
    crate::fixed::lemma_euclid_unique((ONE as int) * (ONE as int), ONE as int, ONE as int, 0);
    assert(0 <= t <= ONE);
    crate::fixed::lemma_euclid_unique(
        ((ONE as int) - t) * (ONE as int),
        ONE as int,
        (ONE as int) - t,
        0,
    );
    lemma_fmul_attenuates(t, 32768);
    lemma_fmul_attenuates(t, 45875);
    crate::fixed::lemma_euclid_unique(t * (ONE as int), ONE as int, t, 0);
}

/// The colour carried back along one ray: black once the bounce budget is
/// exhausted, the background gradient if the ray escapes the scene, and
/// otherwise the scattered colour attenuated by the struck material (black
/// again when the material absorbs the ray or its scatter direction
/// degenerates past the supported range).
pub fn ray_colour(rng: &mut Rng, ray: &Ray, world: &HittableList, depth: u32) -> (r: Vec3)
    requires
        list_wf(world@),
        ray_bounded(ray@, GEO_BOUND as int),
    ensures
        sv_color01(r@),
        depth == 0 ==> r@ == sv_zero(),
        (depth > 0 && list_hit(world@, ray@, EPS_T as int, T_INF as int) is None) ==> r@
            == background_spec(ray@),
        depth > 0 ==> (list_hit(world@, ray@, EPS_T as int, T_INF as int) matches Some(h) ==>
            exists|c: V3|
            sv_color01(c) && r@ == #[trigger] sv_cmul(mat_albedo(h.material), c)),
    decreases depth,
{
    if depth == 0 {
        return Vec3::zero();
    }
    let hit: Option<crate::hit::HitRecord> = world.hit(ray, EPS_T, T_INF);
    match hit {
        Some(rec) => {
            proof {
                match list_hit(world@, ray@, EPS_T as int, T_INF as int) {
                    Some(hs) => {
                        assert(hs == rec@);
                    },
                    None => {
                        assert(false);
                    },
                }
                lemma_albedo_absorbs_zero(mat_albedo(rec@.material));
            }
            let scatter: Option<(Vec3, Ray)> = rec.material.scatter(rng, ray, &rec);
            match scatter {
                Some(pair) => {
                    let (attenuation, scattered): (Vec3, Ray) = pair;
                    if scattered.origin.in_bounds(GEO_BOUND) && scattered.direction.in_bounds(
                        GEO_BOUND,
                    ) && -GEO_BOUND <= scattered.time && scattered.time <= GEO_BOUND {
                        let rc: Vec3 = ray_colour(rng, &scattered, world, depth - 1);
                        proof {
                            lemma_fmul_attenuates(attenuation@.x, rc@.x);
                            lemma_fmul_attenuates(attenuation@.y, rc@.y);
                            lemma_fmul_attenuates(attenuation@.z, rc@.z);
                        }
                        let out: Vec3 = attenuation.comp_mul(&rc);
                        proof {
                            assert(sv_color01(rc@) && out@ == sv_cmul(
                                mat_albedo(rec@.material),
                                rc@,
                            ));
                        }
                        out
                    } else {
                        Vec3::zero()
                    }
                },
                None => Vec3::zero(),
            }
        },
        None => {
            proof {
                lemma_background_color01(ray@);
            }
            let u: Vec3 = ray.direction.unit_vec();
            let t: i128 = crate::fixed::fp_mul(HALF, u.y + ONE);
            let white: Vec3 = Vec3::new(ONE, ONE, ONE);
            let sky: Vec3 = Vec3::new(32768, 45875, 65536);
            white.scale(ONE - t).add(&sky.scale(t))
        },
    }
}

/// A black result is itself an attenuated colour: any albedo applied to
/// zero radiance yields exactly zero.
proof fn lemma_albedo_absorbs_zero(albedo: V3)
    ensures
        sv_cmul(albedo, sv_zero()) == sv_zero(),
{
    crate::fixed::lemma_fmul_zero(albedo.x);
    crate::fixed::lemma_fmul_zero(albedo.y);
    crate::fixed::lemma_fmul_zero(albedo.z);
}

/// The accumulated radiance of one pixel: `samples` camera rays, each
/// jittered uniformly inside the pixel's footprint, traced and summed.
pub fn pixel_colour(
    rng: &mut Rng,
    cam: &Camera,
    world: &HittableList,
    x: usize,
    y: usize,
    width: usize,
    height: usize,
    samples: usize,
    depth: u32,
) -> (r: Vec3)
    requires
        camera_wf(cam@),
        list_wf(world@),
        2 <= width <= 0x10000,
        2 <= height <= 0x10000,
        x < width,
        y < height,
        1 <= samples <= 0x10000,
    ensures
        sv_in_range(r@, 0, samples * (ONE as int)),
{
    let mut sum: Vec3 = Vec3::zero();
    let mut i: usize = 0;
    while i < samples
        invariant
            camera_wf(cam@),
            list_wf(world@),
            2 <= width <= 0x10000,
            2 <= height <= 0x10000,
            x < width,
            y < height,
            1 <= samples <= 0x10000,
            i <= samples,
            sv_in_range(sum@, 0, i * (ONE as int)),
        decreases samples - i,
    {
        let jx: i128 = rng.unit();
        let jy: i128 = rng.unit();
        proof {
            lemma_pixel_coord(x as int, jx as int, width as int);
            lemma_pixel_coord(y as int, jy as int, height as int);
        }
        let u: i128 = fp_coord(x, jx, width);
        let v: i128 = fp_coord(y, jy, height);
        let ray: Ray = cam.get_ray(rng, u, v);
        let c: Vec3 = ray_colour(rng, &ray, world, depth);
        sum = sum.add(&c);
        i = i + 1;
    }
    sum
}

/// The jittered normalized image-plane coordinate (index + jitter)/(extent-1)
/// at fixed-point scale.
pub open spec fn coord_spec(index: int, jitter: int, extent: int) -> int {
    fdiv(index * ONE + jitter, (extent - 1) * ONE)
}

fn fp_coord(index: usize, jitter: i128, extent: usize) -> (r: i128)
    requires
        2 <= extent <= 0x10000,
        index < extent,
        0 <= jitter <= ONE,
        0 <= coord_spec(index as int, jitter as int, extent as int) <= 0x2_0000,
    ensures
        r == coord_spec(index as int, jitter as int, extent as int),
{
    crate::fixed::fp_div((index as i128) * ONE + jitter, ((extent as i128) - 1) * ONE)
}

/// The jittered coordinate lands in [0, 2] for any pixel inside the image.
proof fn lemma_pixel_coord(index: int, jitter: int, extent: int)
    requires
        2 <= extent <= 0x10000,
        0 <= index < extent,
        0 <= jitter <= ONE,
    ensures
        0 <= coord_spec(index, jitter, extent) <= 0x2_0000,
{
    let num = (index * ONE + jitter) * ONE;
    let d = (extent - 1) * ONE;
    assert(num <= (2 * (ONE as int)) * d && 0 <= num && 0 < d) by (nonlinear_arith)
        requires
            2 <= extent,
            0 <= index < extent,
            0 <= jitter <= ONE,
            num == (index * ONE + jitter) * ONE,
            d == (extent - 1) * ONE,
    ;
    vstd::arithmetic::div_mod::lemma_div_pos_is_pos(num, d);
    vstd::arithmetic::div_mod::lemma_div_is_ordered(num, (2 * (ONE as int)) * d, d);
    crate::fixed::lemma_euclid_unique((2 * (ONE as int)) * d, d, 2 * (ONE as int), 0);
    assert((2 * (ONE as int)) * d == d * (2 * (ONE as int))) by (nonlinear_arith);
}

/// One full row of the image, quantized to 8-bit pixels; rows are
/// independent, so a driver may render them in any order or in parallel.
pub fn render_row(
    rng: &mut Rng,
    cam: &Camera,
    world: &HittableList,
    y: usize,
    width: usize,
    height: usize,
    samples: usize,
    depth: u32,
) -> (r: Vec<(u8, u8, u8)>)
    requires
        camera_wf(cam@),
        list_wf(world@),
        2 <= width <= 0x10000,
        2 <= height <= 0x10000,
        y < height,
        1 <= samples <= 0x10000,
    ensures
        r.len() == width,
{
    let mut row: Vec<(u8, u8, u8)> = Vec::new();
    let mut x: usize = 0;
    while x < width
        invariant
            camera_wf(cam@),
            list_wf(world@),
            2 <= width <= 0x10000,
            2 <= height <= 0x10000,
            y < height,
            1 <= samples <= 0x10000,
            x <= width,
            row.len() == x,
        decreases width - x,
    {
        let c: Vec3 = pixel_colour(rng, cam, world, x, y, width, height, samples, depth);
        proof {
            assert((samples as int) * (ONE as int) <= FP_BOUND as int) by (nonlinear_arith)
                requires
                    1 <= samples <= 0x10000,
            ;
        }
        let px: (u8, u8, u8) = c.to_pixel(samples);
        row.push(px);
        x = x + 1;
    }
    row
}

} // verus!
