use vstd::prelude::*;
use crate::fixed::{
    clamp_spec, fdiv, floor_div, fmul, lemma_floor_div_abs, lemma_floor_div_range,
    lemma_fmul_range, ONE,
};
use crate::hit::GEO_BOUND;
use crate::math::{
    sv_add, sv_bounded, sv_cross, sv_scale, sv_sub, sv_unit, Vec3, V3,
};
use crate::ray::{ray_bounded, Ray, RayS};
use crate::rng::Rng;

verus! {

/// Pi at fixed-point scale.
pub const PI_FP: i128 = 205887;

/// Largest half-angle tangent the camera supports (16.0).
pub const TAN_MAX: i128 = 0x10_0000;

/// Cosine threshold below which the tangent is clamped (about 0.01).
pub const COS_GUARD: i128 = 655;

/// Componentwise bound on camera position, target and up vector: 2^28.
pub const CAM_POS_BOUND: i128 = 0x1000_0000;

/// Vertical field of view limits, in fixed-point degrees: [1, 172].
pub const VFOV_MIN: i128 = 65536;

pub const VFOV_MAX: i128 = 11272192;

/// Largest aspect ratio (8.0), aperture (16.0) and focus distance (64.0).
pub const ASPECT_MAX: i128 = 0x8_0000;

pub const APERTURE_MAX: i128 = 0x10_0000;

pub const FOCUS_MAX: i128 = 0x40_0000;

/// Fixed-point tangent for a nonnegative angle in radians, by low-order
/// series for sine and cosine; clamped into [0, TAN_MAX], and TAN_MAX
/// outright when the cosine is too small to divide by.
pub open spec fn tan_fp_spec(x: int) -> int {
    let x2 = fmul(x, x);
    let x3 = fmul(x2, x);
    let x5 = fmul(x2, x3);
    let sin = x - floor_div(x3, 6) + floor_div(x5, 120);
    let cos = (ONE as int) - floor_div(x2, 2) + floor_div(fmul(x2, x2), 24);
    if cos < COS_GUARD {
        TAN_MAX as int
    } else {
        clamp_spec(fdiv(sin, cos), 0, TAN_MAX as int)
    }
}

pub fn tan_fp(x: i128) -> (r: i128)
    requires
        0 <= x <= PI_FP,
    ensures
        r == tan_fp_spec(x as int),
        0 <= r <= TAN_MAX,
{
    proof {
        lemma_fmul_range(x as int, x as int, PI_FP as int, PI_FP as int);
    }
    let x2: i128 = crate::fixed::fp_mul(x, x);
    proof {
        lemma_fmul_range(x2 as int, x as int, 0x10_0000, PI_FP as int);
        lemma_fmul_range(x2 as int, x2 as int, 0x10_0000, 0x10_0000);
    }
    let x3: i128 = crate::fixed::fp_mul(x2, x);
    proof {
        lemma_fmul_range(x2 as int, x3 as int, 0x10_0000, 0x40_0000);
    }
    let x5: i128 = crate::fixed::fp_mul(x2, x3);
    let sin: i128 = x - crate::fixed::div_floor(x3, 6) + crate::fixed::div_floor(x5, 120);
    let x4: i128 = crate::fixed::fp_mul(x2, x2);
    let cos: i128 = ONE - crate::fixed::div_floor(x2, 2) + crate::fixed::div_floor(x4, 24);
    if cos < COS_GUARD {
        TAN_MAX
    } else {
        proof {
            lemma_floor_div_abs((x3 as int), 6);
            lemma_floor_div_abs((x5 as int), 120);
        }
        crate::fixed::clamp_fp(crate::fixed::fp_div(sin, cos), 0, TAN_MAX)
    }
}

/// Mathematical model of a camera basis.
pub struct CameraS {
    pub origin: V3,
    pub lower_left_corner: V3,
    pub horizontal: V3,
    pub vertical: V3,
    pub w: V3,
    pub u: V3,
    pub v: V3,
    pub lens_radius: int,
}

/// A precomputed, immutable camera basis: built once per render from eye
/// position, look-at target, up vector, vertical field of view (fixed-point
/// degrees), aspect ratio, aperture and focus distance.
pub struct Camera {
    origin: Vec3,
    lower_left_corner: Vec3,
    horizontal: Vec3,
    vertical: Vec3,
    w: Vec3,
    u: Vec3,
    v: Vec3,
    lens_radius: i128,
}

impl View for Camera {
    type V = CameraS;

    closed spec fn view(&self) -> CameraS {
        CameraS {
            origin: self.origin@,
            lower_left_corner: self.lower_left_corner@,
            horizontal: self.horizontal@,
            vertical: self.vertical@,
            w: self.w@,
            u: self.u@,
            v: self.v@,
            lens_radius: self.lens_radius as int,
        }
    }
}

/// The camera construction: viewport from the half-angle tangent, an
/// orthonormal-style basis from eye, target and up, spans scaled by the
/// focus distance, and the lens radius as half the aperture.
pub open spec fn camera_spec(
    position: V3,
    target: V3,
    vert: V3,
    vfov: int,
    aspect_ratio: int,
    aperture: int,
    focus_dist: int,
) -> CameraS {
    let theta = fdiv(fmul(vfov, PI_FP as int), 180 * (ONE as int));
    let h = tan_fp_spec(floor_div(theta, 2));
    let viewport_height = 2 * h;
    let viewport_width = fmul(viewport_height, aspect_ratio);
    let w = sv_unit(sv_sub(position, target));
    let u = sv_unit(sv_cross(vert, w));
    let v = sv_cross(w, u);
    let horizontal = sv_scale(fmul(focus_dist, viewport_width), u);
    let vertical = sv_scale(fmul(focus_dist, viewport_height), v);
    let lower_left_corner = sv_sub(
        sv_sub(sv_sub(position, sv_div2(horizontal)), sv_div2(vertical)),
        sv_scale(focus_dist, w),
    );
    CameraS {
        origin: position,
        lower_left_corner,
        horizontal,
        vertical,
        w,
        u,
        v,
        lens_radius: floor_div(aperture, 2),
    }
}

/// Halve a vector componentwise.
pub open spec fn sv_div2(v: V3) -> V3 {
    V3 { x: floor_div(v.x, 2), y: floor_div(v.y, 2), z: floor_div(v.z, 2) }
}

pub open spec fn camera_wf(c: CameraS) -> bool {
    &&& sv_bounded(c.origin, CAM_POS_BOUND as int)
    &&& sv_bounded(c.lower_left_corner, 0x1_0000_0000)
    &&& sv_bounded(c.horizontal, 0x8000_0000)
    &&& sv_bounded(c.vertical, 0x8000_0000)
    &&& sv_bounded(c.u, ONE as int)
    &&& sv_bounded(c.v, 0x4_0000)
    &&& 0 <= c.lens_radius <= 0x8_0000
}

/// The ray for image-plane coordinates (s, t), given the lens-disc sample
/// the depth-of-field offset is built from. The shutter time is left at 0.
pub open spec fn get_ray_spec(c: CameraS, s: int, t: int, rd: V3) -> RayS {
    let rdl = sv_scale(c.lens_radius, rd);
    let offset = sv_add(sv_scale(rdl.x, c.u), sv_scale(rdl.y, c.v));
    RayS {
        origin: sv_add(c.origin, offset),
        direction: sv_sub(
            sv_sub(
                sv_add(
                    sv_add(c.lower_left_corner, sv_scale(s, c.horizontal)),
                    sv_scale(t, c.vertical),
                ),
                c.origin,
            ),
            offset,
        ),
        time: 0,
    }
}

impl Camera {
    pub fn new(
        position: Vec3,
        target: Vec3,
        vert: Vec3,
        vfov: i128,
        aspect_ratio: i128,
        aperture: i128,
        focus_dist: i128,
    ) -> (r: Camera)
        requires
            sv_bounded(position@, CAM_POS_BOUND as int),
            sv_bounded(target@, CAM_POS_BOUND as int),
            sv_bounded(vert@, CAM_POS_BOUND as int),
            VFOV_MIN <= vfov <= VFOV_MAX,
            0 < aspect_ratio <= ASPECT_MAX,
            0 <= aperture <= APERTURE_MAX,
            0 < focus_dist <= FOCUS_MAX,
        ensures
            r@ == camera_spec(
                position@,
                target@,
                vert@,
                vfov as int,
                aspect_ratio as int,
                aperture as int,
                focus_dist as int,
            ),
            camera_wf(r@),
    {
        proof {
            lemma_fmul_range(vfov as int, PI_FP as int, VFOV_MAX as int, PI_FP as int);
            lemma_floor_div_abs((fmul(vfov as int, PI_FP as int)) * (ONE as int), 180 * (
            ONE as int));
        }
        let theta: i128 = crate::fixed::fp_div(
            crate::fixed::fp_mul(vfov, PI_FP),
            180 * ONE,
        );
        proof {
            lemma_theta_range(vfov as int);
        }
        let h: i128 = tan_fp(crate::fixed::div_floor(theta, 2));
        let viewport_height: i128 = 2 * h;
        proof {
            lemma_fmul_range(viewport_height as int, aspect_ratio as int, 0x20_0000, ASPECT_MAX as int);
        }
        let viewport_width: i128 = crate::fixed::fp_mul(viewport_height, aspect_ratio);
        let w: Vec3 = position.sub(&target).unit_vec();
        proof {
            lemma_fmul_range(vert@.y, w@.z, CAM_POS_BOUND as int, ONE as int);
            lemma_fmul_range(vert@.z, w@.y, CAM_POS_BOUND as int, ONE as int);
            lemma_fmul_range(vert@.z, w@.x, CAM_POS_BOUND as int, ONE as int);
            lemma_fmul_range(vert@.x, w@.z, CAM_POS_BOUND as int, ONE as int);
            lemma_fmul_range(vert@.x, w@.y, CAM_POS_BOUND as int, ONE as int);
            lemma_fmul_range(vert@.y, w@.x, CAM_POS_BOUND as int, ONE as int);
        }
        let u: Vec3 = vert.cross(&w).unit_vec();
        let v: Vec3 = w.cross(&u);
        proof {
            lemma_cross_unit_bounded(w@, u@);
            lemma_fmul_range(focus_dist as int, viewport_width as int, FOCUS_MAX as int, 0x100_0000);
            lemma_fmul_range(focus_dist as int, viewport_height as int, FOCUS_MAX as int, 0x20_0000);
        }
        let fh: i128 = crate::fixed::fp_mul(focus_dist, viewport_width);
        let fv: i128 = crate::fixed::fp_mul(focus_dist, viewport_height);
        proof {
            lemma_fmul_range(fh as int, u@.x, 0x4000_0000, ONE as int);
            lemma_fmul_range(fh as int, u@.y, 0x4000_0000, ONE as int);
            lemma_fmul_range(fh as int, u@.z, 0x4000_0000, ONE as int);
            lemma_fmul_range(fv as int, v@.x, 0x800_0000, 0x4_0000);
            lemma_fmul_range(fv as int, v@.y, 0x800_0000, 0x4_0000);
            lemma_fmul_range(fv as int, v@.z, 0x800_0000, 0x4_0000);
            lemma_fmul_range(focus_dist as int, w@.x, FOCUS_MAX as int, ONE as int);
            lemma_fmul_range(focus_dist as int, w@.y, FOCUS_MAX as int, ONE as int);
            lemma_fmul_range(focus_dist as int, w@.z, FOCUS_MAX as int, ONE as int);
        }
        let horizontal: Vec3 = u.scale(fh);
        let vertical: Vec3 = v.scale(fv);
        let half_h: Vec3 = div2(&horizontal);
        let half_v: Vec3 = div2(&vertical);
        let fw: Vec3 = w.scale(focus_dist);
        let lower_left_corner: Vec3 = position.sub(&half_h).sub(&half_v).sub(&fw);
        let lens_radius: i128 = crate::fixed::div_floor(aperture, 2);
        Camera {
            origin: position,
            lower_left_corner,
            horizontal,
            vertical,
            w,
            u,
            v,
            lens_radius,
        }
    }

    /// The ray through image-plane coordinates (s, t), with a fresh lens
    /// sample for depth of field.
    pub fn get_ray(&self, rng: &mut Rng, s: i128, t: i128) -> (r: Ray)
        requires
            camera_wf(self@),
            0 <= s <= 0x2_0000,
            0 <= t <= 0x2_0000,
        ensures
            ray_bounded(r@, GEO_BOUND as int),
            exists|rd: V3|
                crate::math::sv_bounded(rd, ONE as int) && rd.z == 0 && r@
                    == #[trigger] get_ray_spec(self@, s as int, t as int, rd),
    {
        let disc: Vec3 = Vec3::random_in_unit_disc(rng);
        proof {
            lemma_fmul_range(self@.lens_radius, disc@.x, 0x8_0000, ONE as int);
            lemma_fmul_range(self@.lens_radius, disc@.y, 0x8_0000, ONE as int);
            lemma_fmul_range(self@.lens_radius, disc@.z, 0x8_0000, ONE as int);
        }
        let rd: Vec3 = disc.scale(self.lens_radius);
        proof {
            lemma_fmul_range(rd@.x, self@.u.x, 0xC_0000, ONE as int);
            lemma_fmul_range(rd@.x, self@.u.y, 0xC_0000, ONE as int);
            lemma_fmul_range(rd@.x, self@.u.z, 0xC_0000, ONE as int);
            lemma_fmul_range(rd@.y, self@.v.x, 0xC_0000, 0x4_0000);
            lemma_fmul_range(rd@.y, self@.v.y, 0xC_0000, 0x4_0000);
            lemma_fmul_range(rd@.y, self@.v.z, 0xC_0000, 0x4_0000);
        }
        let offset: Vec3 = self.u.scale(rd.x).add(&self.v.scale(rd.y));
        proof {
            lemma_fmul_range(s as int, self@.horizontal.x, 0x2_0000, 0x8000_0000);
            lemma_fmul_range(s as int, self@.horizontal.y, 0x2_0000, 0x8000_0000);
            lemma_fmul_range(s as int, self@.horizontal.z, 0x2_0000, 0x8000_0000);
            lemma_fmul_range(t as int, self@.vertical.x, 0x2_0000, 0x8000_0000);
            lemma_fmul_range(t as int, self@.vertical.y, 0x2_0000, 0x8000_0000);
            lemma_fmul_range(t as int, self@.vertical.z, 0x2_0000, 0x8000_0000);
        }
        let direction: Vec3 = self.lower_left_corner.add(&self.horizontal.scale(s)).add(
            &self.vertical.scale(t),
        ).sub(&self.origin).sub(&offset);
        let r: Ray = Ray { origin: self.origin.add(&offset), direction, time: 0 };
        proof {
            assert(sv_bounded(disc@, ONE as int) && disc@.z == 0 && r@ == get_ray_spec(
                self@,
                s as int,
                t as int,
                disc@,
            ));
        }
        r
    }
}

/// Halve a vector componentwise.
fn div2(v: &Vec3) -> (r: Vec3)
    requires
        sv_bounded(v@, crate::fixed::DIV_BOUND as int),
    ensures
        r@ == sv_div2(v@),
{
    Vec3 {
        x: crate::fixed::div_floor(v.x, 2),
        y: crate::fixed::div_floor(v.y, 2),
        z: crate::fixed::div_floor(v.z, 2),
    }
}

/// The angle in radians of a field of view within the supported range stays
/// within [0, PI_FP] after halving.
proof fn lemma_theta_range(vfov: int)
    requires
        VFOV_MIN <= vfov <= VFOV_MAX,
    ensures
        0 <= floor_div(fdiv(fmul(vfov, PI_FP as int), 180 * (ONE as int)), 2) <= PI_FP as int,
{
    let num = fmul(vfov, PI_FP as int);
    assert(0 <= vfov * (PI_FP as int) <= (VFOV_MAX as int) * (PI_FP as int)) by (nonlinear_arith)
        requires
            VFOV_MIN <= vfov <= VFOV_MAX,
    ;
    lemma_floor_div_range(vfov * (PI_FP as int), ONE as int, (VFOV_MAX as int) * (PI_FP as int));
    vstd::arithmetic::div_mod::lemma_div_pos_is_pos(vfov * (PI_FP as int), ONE as int);
    let theta = fdiv(num, 180 * (ONE as int));
    lemma_floor_div_range(
        num * (ONE as int),
        180 * (ONE as int),
        ((VFOV_MAX as int) * (PI_FP as int) / (ONE as int)) * (ONE as int),
    );
    vstd::arithmetic::div_mod::lemma_div_pos_is_pos(num * (ONE as int), 180 * (ONE as int));
    lemma_floor_div_range(theta, 2, 0x80_0000);
    vstd::arithmetic::div_mod::lemma_div_pos_is_pos(theta, 2);
}

/// The cross product of two vectors bounded by one unit is bounded by two.
proof fn lemma_cross_unit_bounded(a: V3, b: V3)
    requires
        sv_bounded(a, ONE as int),
        sv_bounded(b, ONE as int),
    ensures
        sv_bounded(sv_cross(a, b), 0x4_0000),
{
    lemma_fmul_range(a.y, b.z, ONE as int, ONE as int);
    lemma_fmul_range(a.z, b.y, ONE as int, ONE as int);
    lemma_fmul_range(a.z, b.x, ONE as int, ONE as int);
    lemma_fmul_range(a.x, b.z, ONE as int, ONE as int);
    lemma_fmul_range(a.x, b.y, ONE as int, ONE as int);
    lemma_fmul_range(a.y, b.x, ONE as int, ONE as int);
}

} // verus!
