use vstd::prelude::*;
use crate::fixed::{
    abs_i, fdiv, floor_div, fmul, fsqrt, lemma_floor_div_abs, lemma_floor_div_range,
    lemma_fmul_range, ONE,
};
use crate::hit::{rec_wf, sv_face_normal, HitRecS, HitRecord, GEO_BOUND, NORMAL_BOUND};
use crate::mat::{mat_wf, Material, MaterialS};
use crate::math::{
    lemma_dot_raw_bounds, lemma_dot_raw_self_nonneg, lemma_fsqrt_le, sv_add, sv_bounded, sv_div,
    sv_dot, sv_dot_raw, sv_len_sq, sv_scale, sv_sub, Vec3, V3,
};
use vstd::arithmetic::div_mod::{lemma_fundamental_div_mod, lemma_mod_division_less_than_divisor};
use crate::ray::{ray_bounded, sv_ray_at, Ray, RayS};

verus! {

/// Mathematical model of a sphere.
pub struct SphereS {
    pub centre: V3,
    pub radius: int,
    pub material: MaterialS,
}

/// An implicit sphere surface. A negative radius flips the outward normal
/// inward, which is how a hollow glass shell is built from two spheres.
pub struct Sphere {
    pub centre: Vec3,
    pub radius: i128,
    pub material: Material,
}

impl View for Sphere {
    type V = SphereS;

    open spec fn view(&self) -> SphereS {
        SphereS { centre: self.centre@, radius: self.radius as int, material: self.material@ }
    }
}

pub open spec fn sphere_wf(s: SphereS) -> bool {
    &&& sv_bounded(s.centre, GEO_BOUND as int)
    &&& s.radius != 0
    &&& abs_i(s.radius) <= GEO_BOUND as int
    &&& mat_wf(s.material)
}

/// The ray-sphere intersection at fixed-point precision: solve the quadratic
/// a·t² + 2·half_b·t + c = 0, prefer the smaller root, reject roots outside
/// [t_min, t_max], and orient the normal against the ray. A degenerate
/// direction (a = 0) or an outward normal the division blew up (a radius far
/// smaller than the hit distance's rounding) yields no hit.
pub open spec fn sphere_hit_core(
    centre: V3,
    radius: int,
    material: MaterialS,
    ray: RayS,
    t_min: int,
    t_max: int,
) -> Option<HitRecS> {
    let oc = sv_sub(ray.origin, centre);
    let a = sv_len_sq(ray.direction);
    let half_b = sv_dot(oc, ray.direction);
    let c = sv_len_sq(oc) - fmul(radius, radius);
    let disc = fmul(half_b, half_b) - fmul(a, c);
    if a <= 0 || disc < 0 {
        None
    } else {
        let sqrtd = fsqrt(disc);
        let root1 = fdiv(-half_b - sqrtd, a);
        let root = if root1 < t_min || t_max < root1 {
            fdiv(-half_b + sqrtd, a)
        } else {
            root1
        };
        if root < t_min || t_max < root {
            None
        } else {
            let p = sv_ray_at(ray, root);
            let outward = sv_div(sv_sub(p, centre), radius);
            if !sv_bounded(outward, NORMAL_BOUND as int) {
                None
            } else {
                let fan = sv_face_normal(ray.direction, outward);
                Some(
                    HitRecS {
                        p,
                        normal: fan.1,
                        material,
                        t: root,
                        front_face: fan.0,
                    },
                )
            }
        }
    }
}

/// The point a ray parameter t reaches, in exact (unrounded) arithmetic,
/// relative to the sphere's centre.
pub open spec fn exact_offset(oc: V3, d: V3, t: int) -> V3 {
    V3 { x: oc.x + t * d.x, y: oc.y + t * d.y, z: oc.z + t * d.z }
}

/// Round trip in the exact quadratic model: at an exact root of
/// a·t² + 2·half_b·t + c = 0 — with a, half_b, c the unrounded square sum,
/// projection and centre-distance excess of the ray against the sphere —
/// the reached point lies at distance exactly r from the centre.
/// The fixed-point hit test tracks this identity up to its rounding; the
/// tests exercise representable geometry on which it is exact.
pub proof fn lemma_round_trip_exact(oc: V3, d: V3, r: int, t: int)
    requires
        sv_dot_raw(d, d) * (t * t) + 2 * (sv_dot_raw(oc, d) * t) + (sv_dot_raw(oc, oc) - r * r)
            == 0,
    ensures
        sv_dot_raw(exact_offset(oc, d, t), exact_offset(oc, d, t)) == r * r,
{
    let p = exact_offset(oc, d, t);
    assert((oc.x + t * d.x) * (oc.x + t * d.x) == oc.x * oc.x + 2 * (oc.x * d.x * t) + d.x * d.x
        * (t * t)) by (nonlinear_arith);
    assert((oc.y + t * d.y) * (oc.y + t * d.y) == oc.y * oc.y + 2 * (oc.y * d.y * t) + d.y * d.y
        * (t * t)) by (nonlinear_arith);
    assert((oc.z + t * d.z) * (oc.z + t * d.z) == oc.z * oc.z + 2 * (oc.z * d.z * t) + d.z * d.z
        * (t * t)) by (nonlinear_arith);
    assert(2 * (sv_dot_raw(oc, d) * t) == 2 * (oc.x * d.x * t) + 2 * (oc.y * d.y * t) + 2 * (oc.z
        * d.z * t)) by (nonlinear_arith);
    assert(sv_dot_raw(d, d) * (t * t) == d.x * d.x * (t * t) + d.y * d.y * (t * t) + d.z * d.z * (t
        * t)) by (nonlinear_arith);
}

/// Front-face consistency in the exact quadratic model: where the origin
/// lies strictly outside a positive sphere and the discriminant is strictly
/// positive (the ray truly crosses the surface rather than grazing it), any
/// parameter at or below the smaller root still approaches the centre: the
/// ray direction makes a strictly negative product with the outward radius
/// vector there, so the surface is struck front-face. The fixed-point test
/// tracks this sign up to its rounding; a tangent ray, whose discriminant
/// vanishes, is the input on which the claim fails.
pub proof fn lemma_front_face_outside_exact(oc: V3, d: V3, r: int, s: int, t: int)
    requires
        sv_dot_raw(d, d) > 0,
        sv_dot_raw(oc, oc) > r * r,
        1 <= s,
        s * s <= sv_dot_raw(oc, d) * sv_dot_raw(oc, d) - sv_dot_raw(d, d) * (sv_dot_raw(oc, oc) - r
            * r),
        sv_dot_raw(d, d) * t <= -sv_dot_raw(oc, d) - s,
    ensures
        sv_dot_raw(d, exact_offset(oc, d, t)) < 0,
{
    let a = sv_dot_raw(d, d);
    let hb = sv_dot_raw(oc, d);
    assert(sv_dot_raw(d, exact_offset(oc, d, t)) == hb + a * t) by (nonlinear_arith)
        requires
            a == sv_dot_raw(d, d),
            hb == sv_dot_raw(oc, d),
    ;
}

/// The complementary side: with the origin strictly inside the sphere, the
/// smaller root is negative, so a forward search can only strike the far
/// side of the surface — leaving the centre, hence back-face.
pub proof fn lemma_front_face_inside_exact(oc: V3, d: V3, r: int, s: int, t: int)
    requires
        sv_dot_raw(d, d) > 0,
        sv_dot_raw(oc, oc) < r * r,
        0 <= s,
        sv_dot_raw(oc, d) * sv_dot_raw(oc, d) - sv_dot_raw(d, d) * (sv_dot_raw(oc, oc) - r * r)
            <= (s + 1) * (s + 1),
        sv_dot_raw(d, d) * t >= -sv_dot_raw(oc, d) + s + 1,
    ensures
        sv_dot_raw(d, exact_offset(oc, d, t)) > 0,
{
    let a = sv_dot_raw(d, d);
    let hb = sv_dot_raw(oc, d);
    assert(sv_dot_raw(d, exact_offset(oc, d, t)) == hb + a * t) by (nonlinear_arith)
        requires
            a == sv_dot_raw(d, d),
            hb == sv_dot_raw(oc, d),
    ;
}

proof fn lemma_distribute3(r: int, p: int, q: int, t: int)
    ensures
        r * (p + q + t) == r * p + r * q + r * t,
{
    assert(r * (p + q + t) == r * p + r * q + r * t) by (nonlinear_arith);
}

proof fn lemma_assoc(r: int, x: int, y: int)
    ensures
        r * (x * y) == x * (r * y),
{
    assert(r * (x * y) == x * (r * y)) by (nonlinear_arith);
}

proof fn lemma_weighted_products(r: int, w: int, ux: int, uy: int, uz: int, dx: int, dy: int, dz: int)
    requires
        w == dx * ux + dy * uy + dz * uz,
    ensures
        r * w == dx * (r * ux) + dy * (r * uy) + dz * (r * uz),
{
    lemma_distribute3(r, dx * ux, dy * uy, dz * uz);
    lemma_assoc(r, dx, ux);
    lemma_assoc(r, dy, uy);
    lemma_assoc(r, dz, uz);
}

/// One flooring step, weighted by a bounded coefficient, costs at most
/// coefficient bound times divisor.
proof fn lemma_floor_term_upper(y: int, di: int, dv: int, dbound: int)
    requires
        dv >= 1,
        0 <= dbound,
        abs_i(di) <= dbound,
    ensures
        di * (dv * floor_div(y, dv)) <= di * y + dbound * dv,
{
    lemma_fundamental_div_mod(y, dv);
    lemma_mod_division_less_than_divisor(y, dv);
    let q = y / dv;
    let rem = y % dv;
    assert(di * (dv * q) <= di * y + dbound * dv) by (nonlinear_arith)
        requires
            y == dv * q + rem,
            0 <= rem < dv,
            abs_i(di) <= dbound,
            0 <= dbound,
    ;
}

proof fn lemma_floor_term_lower(y: int, di: int, dv: int, dbound: int)
    requires
        dv >= 1,
        0 <= dbound,
        abs_i(di) <= dbound,
    ensures
        di * (dv * floor_div(y, dv)) >= di * y - dbound * dv,
{
    lemma_fundamental_div_mod(y, dv);
    lemma_mod_division_less_than_divisor(y, dv);
    let q = y / dv;
    let rem = y % dv;
    assert(di * (dv * q) >= di * y - dbound * dv) by (nonlinear_arith)
        requires
            y == dv * q + rem,
            0 <= rem < dv,
            abs_i(di) <= dbound,
            0 <= dbound,
    ;
}

/// Front-face consistency at fixed-point precision, smaller root: when the
/// hit parameter is the smaller root of the quadratic — the case of an
/// origin outside the sphere — and the discriminant's root clears the
/// margin that floor rounding can consume, the ray direction makes a
/// strictly negative product with the computed outward normal, so the
/// surface is struck front-face. The margin is tiny: beyond about
/// 15 + |root|/ONE + 6·dbound·max(1, r/ONE)/ONE raw units of sqrtd — a few
/// ten-thousandths for unit-scale geometry — only near-tangent rays are
/// left out.
pub proof fn lemma_front_face_at_smaller_root(
    oc: V3,
    d: V3,
    r: int,
    dbound: int,
    a: int,
    hb: int,
    sq: int,
    root: int,
)
    requires
        r >= 1,
        0 <= dbound,
        sv_bounded(d, dbound),
        a == floor_div(sv_dot_raw(d, d), ONE as int),
        a >= 1,
        hb == floor_div(sv_dot_raw(oc, d), ONE as int),
        0 <= sq,
        root == fdiv(-hb - sq, a),
        65536 * (65536 * sq) >= 65536 * 65536 + 65536 * abs_i(root) + 3 * (65536 * dbound) + 3 * (
        dbound * r) + 1,
    ensures
        sv_dot_raw(d, sv_div(sv_add(oc, sv_scale(root, d)), r)) < 0,
{
    let s: int = ONE as int;
    let ar = sv_dot_raw(d, d);
    let b = sv_dot_raw(oc, d);
    let qx = floor_div(root * d.x, s);
    let qy = floor_div(root * d.y, s);
    let qz = floor_div(root * d.z, s);
    let pc = sv_add(oc, sv_scale(root, d));
    assert(pc.x == oc.x + qx && pc.y == oc.y + qy && pc.z == oc.z + qz);
    let ux = floor_div(pc.x * s, r);
    let uy = floor_div(pc.y * s, r);
    let uz = floor_div(pc.z * s, r);
    let ow = sv_div(pc, r);
    assert(ow.x == ux && ow.y == uy && ow.z == uz);
    let w = sv_dot_raw(d, ow);
    assert(w == d.x * ux + d.y * uy + d.z * uz);
    assert(abs_i(root) >= root && abs_i(root) >= -root);
    // Step A: undo the division by the radius, at cost 3·dbound·r.
    lemma_floor_term_upper(pc.x * s, d.x, r, dbound);
    lemma_floor_term_upper(pc.y * s, d.y, r, dbound);
    lemma_floor_term_upper(pc.z * s, d.z, r, dbound);
    lemma_weighted_products(r, w, ux, uy, uz, d.x, d.y, d.z);
    let v = d.x * pc.x + d.y * pc.y + d.z * pc.z;
    lemma_weighted_products(s, v, pc.x, pc.y, pc.z, d.x, d.y, d.z);
    assert(d.x * (pc.x * s) + d.y * (pc.y * s) + d.z * (pc.z * s) == s * v) by {
        assert(d.x * (s * pc.x) == d.x * (pc.x * s) && d.y * (s * pc.y) == d.y * (pc.y * s) && d.z
            * (s * pc.z) == d.z * (pc.z * s)) by (nonlinear_arith);
    }
    assert(r * w <= s * v + 3 * (dbound * r));
    // Step B: undo the per-component scaling floors, at cost 3·dbound·ONE.
    lemma_floor_term_upper(root * d.x, d.x, s, dbound);
    lemma_floor_term_upper(root * d.y, d.y, s, dbound);
    lemma_floor_term_upper(root * d.z, d.z, s, dbound);
    assert(b == oc.x * d.x + oc.y * d.y + oc.z * d.z);
    assert(s * v == s * b + d.x * (s * qx) + d.y * (s * qy) + d.z * (s * qz)) by (nonlinear_arith)
        requires
            v == d.x * pc.x + d.y * pc.y + d.z * pc.z,
            pc.x == oc.x + qx,
            pc.y == oc.y + qy,
            pc.z == oc.z + qz,
            b == oc.x * d.x + oc.y * d.y + oc.z * d.z,
            s == 65536,
    ;
    assert(d.x * (root * d.x) + d.y * (root * d.y) + d.z * (root * d.z) == root * ar)
        by (nonlinear_arith)
        requires
            ar == d.x * d.x + d.y * d.y + d.z * d.z,
    ;
    assert(s * v <= s * b + root * ar + 3 * (dbound * s));
    // Step C: the chosen root against the raw square sum.
    lemma_fundamental_div_mod((-hb - sq) * s, a);
    lemma_mod_division_less_than_divisor((-hb - sq) * s, a);
    assert(root == ((-hb - sq) * s) / a);
    let remroot = ((-hb - sq) * s) % a;
    assert((-hb - sq) * s == a * root + remroot && remroot >= 0);
    assert(a * root <= (-hb - sq) * s);
    lemma_fundamental_div_mod(ar, s);
    lemma_mod_division_less_than_divisor(ar, s);
    assert(a == ar / s);
    let ra = ar % s;
    assert(ar == s * a + ra && 0 <= ra < s);
    assert(root * ar <= s * (a * root) + abs_i(root) * s) by (nonlinear_arith)
        requires
            ar == s * a + ra,
            0 <= ra < s,
            abs_i(root) >= root,
            abs_i(root) >= -root,
            s == 65536,
    ;
    assert(s * (a * root) <= s * ((-hb - sq) * s));
    // Step D: the raw projection against its floor.
    lemma_fundamental_div_mod(b, s);
    lemma_mod_division_less_than_divisor(b, s);
    assert(hb == b / s);
    assert(s * b <= s * (s * hb) + s * s);
    // Assemble: everything cancels but the discriminant root and the slack.
    assert(s * ((-hb - sq) * s) == s * (s * (-hb)) - s * (s * sq));
    assert(r * w <= s * (s * hb) + s * s + s * (s * (-hb)) - s * (s * sq) + abs_i(root) * s + 3 * (
    dbound * s) + 3 * (dbound * r));
    assert(r * w <= -1);
    assert(w < 0) by (nonlinear_arith)
        requires
            r >= 1,
            r * w <= -1,
    ;
}

/// The mirror image at fixed-point precision, larger root: when the hit
/// parameter is the larger root — the case of an origin inside the sphere,
/// whose smaller root lies behind it — and the discriminant's root clears
/// the rounding margin, the ray direction makes a strictly positive product
/// with the computed outward normal: the surface is struck back-face.
pub proof fn lemma_back_face_at_larger_root(
    oc: V3,
    d: V3,
    r: int,
    dbound: int,
    a: int,
    hb: int,
    sq: int,
    root: int,
)
    requires
        r >= 1,
        0 <= dbound,
        sv_bounded(d, dbound),
        a == floor_div(sv_dot_raw(d, d), ONE as int),
        a >= 1,
        hb == floor_div(sv_dot_raw(oc, d), ONE as int),
        0 <= sq,
        root == fdiv(-hb + sq, a),
        65536 * (65536 * sq) >= 65536 * a + 65536 * abs_i(root) + 3 * (65536 * dbound) + 3 * (
        dbound * r) + 1,
    ensures
        sv_dot_raw(d, sv_div(sv_add(oc, sv_scale(root, d)), r)) > 0,
{
    let s: int = ONE as int;
    let ar = sv_dot_raw(d, d);
    let b = sv_dot_raw(oc, d);
    let qx = floor_div(root * d.x, s);
    let qy = floor_div(root * d.y, s);
    let qz = floor_div(root * d.z, s);
    let pc = sv_add(oc, sv_scale(root, d));
    assert(pc.x == oc.x + qx && pc.y == oc.y + qy && pc.z == oc.z + qz);
    let ux = floor_div(pc.x * s, r);
    let uy = floor_div(pc.y * s, r);
    let uz = floor_div(pc.z * s, r);
    let ow = sv_div(pc, r);
    assert(ow.x == ux && ow.y == uy && ow.z == uz);
    let w = sv_dot_raw(d, ow);
    assert(w == d.x * ux + d.y * uy + d.z * uz);
    assert(abs_i(root) >= root && abs_i(root) >= -root);
    // Step A: undo the division by the radius, at cost 3·dbound·r.
    lemma_floor_term_lower(pc.x * s, d.x, r, dbound);
    lemma_floor_term_lower(pc.y * s, d.y, r, dbound);
    lemma_floor_term_lower(pc.z * s, d.z, r, dbound);
    lemma_weighted_products(r, w, ux, uy, uz, d.x, d.y, d.z);
    let v = d.x * pc.x + d.y * pc.y + d.z * pc.z;
    lemma_weighted_products(s, v, pc.x, pc.y, pc.z, d.x, d.y, d.z);
    assert(d.x * (pc.x * s) + d.y * (pc.y * s) + d.z * (pc.z * s) == s * v) by {
        assert(d.x * (s * pc.x) == d.x * (pc.x * s) && d.y * (s * pc.y) == d.y * (pc.y * s) && d.z
            * (s * pc.z) == d.z * (pc.z * s)) by (nonlinear_arith);
    }
    assert(r * w >= s * v - 3 * (dbound * r));
    // Step B: undo the per-component scaling floors, at cost 3·dbound·ONE.
    lemma_floor_term_lower(root * d.x, d.x, s, dbound);
    lemma_floor_term_lower(root * d.y, d.y, s, dbound);
    lemma_floor_term_lower(root * d.z, d.z, s, dbound);
    assert(b == oc.x * d.x + oc.y * d.y + oc.z * d.z);
    assert(s * v == s * b + d.x * (s * qx) + d.y * (s * qy) + d.z * (s * qz)) by (nonlinear_arith)
        requires
            v == d.x * pc.x + d.y * pc.y + d.z * pc.z,
            pc.x == oc.x + qx,
            pc.y == oc.y + qy,
            pc.z == oc.z + qz,
            b == oc.x * d.x + oc.y * d.y + oc.z * d.z,
            s == 65536,
    ;
    assert(d.x * (root * d.x) + d.y * (root * d.y) + d.z * (root * d.z) == root * ar)
        by (nonlinear_arith)
        requires
            ar == d.x * d.x + d.y * d.y + d.z * d.z,
    ;
    assert(s * v >= s * b + root * ar - 3 * (dbound * s));
    // Step C: the chosen root against the raw square sum.
    lemma_fundamental_div_mod((-hb + sq) * s, a);
    lemma_mod_division_less_than_divisor((-hb + sq) * s, a);
    assert(root == ((-hb + sq) * s) / a);
    let remroot = ((-hb + sq) * s) % a;
    assert((-hb + sq) * s == a * root + remroot && remroot < a);
    assert(a * root > (-hb + sq) * s - a);
    lemma_fundamental_div_mod(ar, s);
    lemma_mod_division_less_than_divisor(ar, s);
    assert(a == ar / s);
    let ra = ar % s;
    assert(ar == s * a + ra && 0 <= ra < s);
    assert(root * ar >= s * (a * root) - abs_i(root) * s) by (nonlinear_arith)
        requires
            ar == s * a + ra,
            0 <= ra < s,
            abs_i(root) >= root,
            abs_i(root) >= -root,
            s == 65536,
    ;
    assert(s * (a * root) >= s * ((-hb + sq) * s) - s * a + s);
    // Step D: the raw projection against its floor.
    lemma_fundamental_div_mod(b, s);
    lemma_mod_division_less_than_divisor(b, s);
    assert(hb == b / s);
    assert(s * b >= s * (s * hb));
    // Assemble: everything cancels but the discriminant root and the slack.
    assert(s * ((-hb + sq) * s) == s * (s * (-hb)) + s * (s * sq));
    assert(r * w >= s * (s * hb) + s * (s * (-hb)) + s * (s * sq) - s * a - abs_i(root) * s - 3 * (
    dbound * s) - 3 * (dbound * r));
    assert(r * w >= 1);
    assert(w > 0) by (nonlinear_arith)
        requires
            r >= 1,
            r * w >= 1,
    ;
}

/// Front-face consistency for the hit test itself: when the parameter the
/// test accepts is the smaller root — as it is for an origin outside the
/// sphere — and the discriminant's root clears the rounding margin, any hit
/// the test returns is front-face.
pub proof fn lemma_sphere_hit_front_face(
    centre: V3,
    radius: int,
    material: MaterialS,
    ray: RayS,
    t_min: int,
    t_max: int,
    dbound: int,
)
    requires
        radius >= 1,
        0 <= dbound,
        sv_bounded(ray.direction, dbound),
        ({
            let oc = sv_sub(ray.origin, centre);
            let a = sv_len_sq(ray.direction);
            let half_b = sv_dot(oc, ray.direction);
            let c = sv_len_sq(oc) - fmul(radius, radius);
            let disc = fmul(half_b, half_b) - fmul(a, c);
            let sqrtd = fsqrt(disc);
            let root1 = fdiv(-half_b - sqrtd, a);
            &&& a >= 1
            &&& disc >= 0
            &&& t_min <= root1 <= t_max
            &&& 65536 * (65536 * sqrtd) >= 65536 * 65536 + 65536 * abs_i(root1) + 3 * (65536
                * dbound) + 3 * (dbound * radius) + 1
        }),
    ensures
        sphere_hit_core(centre, radius, material, ray, t_min, t_max) matches Some(h)
            ==> h.front_face,
{
    let d = ray.direction;
    let oc = sv_sub(ray.origin, centre);
    let a = sv_len_sq(d);
    let half_b = sv_dot(oc, d);
    let c = sv_len_sq(oc) - fmul(radius, radius);
    let disc = fmul(half_b, half_b) - fmul(a, c);
    let sqrtd = fsqrt(disc);
    let root1 = fdiv(-half_b - sqrtd, a);
    crate::fixed::lemma_sqrt_floor_bounds(disc * (ONE as int));
    assert(disc * (ONE as int) >= 0) by (nonlinear_arith)
        requires
            disc >= 0,
    ;
    lemma_front_face_at_smaller_root(oc, d, radius, dbound, a, half_b, sqrtd, root1);
    assert(sv_sub(sv_ray_at(ray, root1), centre) == sv_add(oc, sv_scale(root1, d)));
}

/// The mirror corollary: when the smaller root lies outside the queried
/// range — as it does for an origin inside the sphere searching forward —
/// and the larger root clears the rounding margin, any hit the test returns
/// is back-face.
pub proof fn lemma_sphere_hit_back_face(
    centre: V3,
    radius: int,
    material: MaterialS,
    ray: RayS,
    t_min: int,
    t_max: int,
    dbound: int,
)
    requires
        radius >= 1,
        0 <= dbound,
        sv_bounded(ray.direction, dbound),
        ({
            let oc = sv_sub(ray.origin, centre);
            let a = sv_len_sq(ray.direction);
            let half_b = sv_dot(oc, ray.direction);
            let c = sv_len_sq(oc) - fmul(radius, radius);
            let disc = fmul(half_b, half_b) - fmul(a, c);
            let sqrtd = fsqrt(disc);
            let root1 = fdiv(-half_b - sqrtd, a);
            let root2 = fdiv(-half_b + sqrtd, a);
            &&& a >= 1
            &&& disc >= 0
            &&& (root1 < t_min || t_max < root1)
            &&& 65536 * (65536 * sqrtd) >= 65536 * a + 65536 * abs_i(root2) + 3 * (65536 * dbound)
                + 3 * (dbound * radius) + 1
        }),
    ensures
        sphere_hit_core(centre, radius, material, ray, t_min, t_max) matches Some(h)
            ==> !h.front_face,
{
    let d = ray.direction;
    let oc = sv_sub(ray.origin, centre);
    let a = sv_len_sq(d);
    let half_b = sv_dot(oc, d);
    let c = sv_len_sq(oc) - fmul(radius, radius);
    let disc = fmul(half_b, half_b) - fmul(a, c);
    let sqrtd = fsqrt(disc);
    let root2 = fdiv(-half_b + sqrtd, a);
    crate::fixed::lemma_sqrt_floor_bounds(disc * (ONE as int));
    assert(disc * (ONE as int) >= 0) by (nonlinear_arith)
        requires
            disc >= 0,
    ;
    lemma_back_face_at_larger_root(oc, d, radius, dbound, a, half_b, sqrtd, root2);
    assert(sv_sub(sv_ray_at(ray, root2), centre) == sv_add(oc, sv_scale(root2, d)));
}

/// A hit's parameter always lies inside the queried range.
pub proof fn lemma_sphere_hit_range(
    centre: V3,
    radius: int,
    material: MaterialS,
    ray: RayS,
    t_min: int,
    t_max: int,
)
    ensures
        sphere_hit_core(centre, radius, material, ray, t_min, t_max) matches Some(h) ==> t_min
            <= h.t <= t_max,
{
}

/// Narrowing the upper bound of the search range neither invents hits nor
/// loses one that lies inside the narrowed range: the quadratic's roots are
/// ordered, so the test always reports the smallest acceptable root.
pub proof fn lemma_sphere_hit_narrow(
    centre: V3,
    radius: int,
    material: MaterialS,
    ray: RayS,
    t_min: int,
    b: int,
    t_max: int,
)
    requires
        b <= t_max,
    ensures
        sphere_hit_core(centre, radius, material, ray, t_min, b) matches Some(h)
            ==> sphere_hit_core(centre, radius, material, ray, t_min, t_max) == Some(h),
        sphere_hit_core(centre, radius, material, ray, t_min, t_max) matches Some(h) ==> (h.t
            <= b ==> sphere_hit_core(centre, radius, material, ray, t_min, b) == Some(h)),
{
    let oc = sv_sub(ray.origin, centre);
    let a = sv_len_sq(ray.direction);
    let half_b = sv_dot(oc, ray.direction);
    let c = sv_len_sq(oc) - fmul(radius, radius);
    let disc = fmul(half_b, half_b) - fmul(a, c);
    if a > 0 && disc >= 0 {
        let sqrtd = fsqrt(disc);
        crate::fixed::lemma_sqrt_floor_bounds(disc * (ONE as int));
        assert(disc * (ONE as int) >= 0) by (nonlinear_arith)
            requires
                disc >= 0,
        ;
        let n1 = -half_b - sqrtd;
        let n2 = -half_b + sqrtd;
        assert(n1 * (ONE as int) <= n2 * (ONE as int)) by (nonlinear_arith)
            requires
                n1 <= n2,
        ;
        vstd::arithmetic::div_mod::lemma_div_is_ordered(
            n1 * (ONE as int),
            n2 * (ONE as int),
            a,
        );
        assert(fdiv(n1, a) <= fdiv(n2, a));
    }
}

/// The hit routine shared by the fixed and the moving sphere.
pub(crate) fn hit_with_centre(
    centre: &Vec3,
    radius: i128,
    material: &Material,
    ray: &Ray,
    t_min: i128,
    t_max: i128,
) -> (r: Option<HitRecord>)
    requires
        sv_bounded(centre@, GEO_BOUND as int),
        radius != 0,
        abs_i(radius as int) <= GEO_BOUND as int,
        mat_wf(material@),
        ray_bounded(ray@, GEO_BOUND as int),
        abs_i(t_min as int) <= GEO_BOUND as int,
        abs_i(t_max as int) <= GEO_BOUND as int,
    ensures
        sphere_hit_core(centre@, radius as int, material@, ray@, t_min as int, t_max as int)
            matches Some(hs) ==> (r matches Some(h) && h@ == hs),
        sphere_hit_core(centre@, radius as int, material@, ray@, t_min as int, t_max as int)
            is None ==> r is None,
        r matches Some(h) ==> {
            &&& rec_wf(h@)
            &&& t_min <= h.t <= t_max
            &&& sv_dot_raw(ray@.direction, h@.normal) <= 0
            &&& h@.material == material@
        },
{
    let oc: Vec3 = ray.origin.sub(&centre);
    proof {
        lemma_dot_raw_self_nonneg(ray@.direction);
        lemma_dot_raw_bounds(ray@.direction, ray@.direction, GEO_BOUND as int, GEO_BOUND as int);
        lemma_floor_div_range(
            sv_dot_raw(ray@.direction, ray@.direction),
            ONE as int,
            3 * ((GEO_BOUND as int) * (GEO_BOUND as int)),
        );
        vstd::arithmetic::div_mod::lemma_div_pos_is_pos(
            sv_dot_raw(ray@.direction, ray@.direction),
            ONE as int,
        );
    }
    let a: i128 = ray.direction.length_squared();
    proof {
        lemma_dot_raw_bounds(oc@, ray@.direction, 0x20_0000_0000, GEO_BOUND as int);
        lemma_floor_div_range(
            sv_dot_raw(oc@, ray@.direction),
            ONE as int,
            3 * (0x20_0000_0000int * (GEO_BOUND as int)),
        );
    }
    let half_b: i128 = oc.dot(&ray.direction);
    proof {
        lemma_dot_raw_self_nonneg(oc@);
        lemma_dot_raw_bounds(oc@, oc@, 0x20_0000_0000, 0x20_0000_0000);
        lemma_floor_div_range(
            sv_dot_raw(oc@, oc@),
            ONE as int,
            3 * (0x20_0000_0000int * 0x20_0000_0000int),
        );
        vstd::arithmetic::div_mod::lemma_div_pos_is_pos(sv_dot_raw(oc@, oc@), ONE as int);
        lemma_fmul_range(radius as int, radius as int, GEO_BOUND as int, GEO_BOUND as int);
        assert((radius as int) * (radius as int) >= 0) by (nonlinear_arith);
        vstd::arithmetic::div_mod::lemma_div_pos_is_pos(
            (radius as int) * (radius as int),
            ONE as int,
        );
    }
    let c: i128 = oc.length_squared() - crate::fixed::fp_mul(radius, radius);
    proof {
        lemma_fmul_range(half_b as int, half_b as int, 0x600_0000_0000_0001, 0x600_0000_0000_0001);
        lemma_fmul_range(a as int, c as int, 0x300_0000_0000_0001, 0x1000_0000_0000_0000);
    }
    let disc: i128 = crate::fixed::fp_mul(half_b, half_b) - crate::fixed::fp_mul(a, c);
    if a <= 0 || disc < 0 {
        return None;
    }
    proof {
        lemma_fsqrt_le(disc as int, 0x1000_0000_0000_0000int);
    }
    let sqrtd: i128 = crate::fixed::fp_sqrt(disc);
    let root1: i128 = crate::fixed::fp_div(-half_b - sqrtd, a);
    let root: i128 = if root1 < t_min || t_max < root1 {
        crate::fixed::fp_div(-half_b + sqrtd, a)
    } else {
        root1
    };
    if root < t_min || t_max < root {
        return None;
    }
    proof {
        lemma_fmul_range(root as int, ray@.direction.x, GEO_BOUND as int, GEO_BOUND as int);
        lemma_fmul_range(root as int, ray@.direction.y, GEO_BOUND as int, GEO_BOUND as int);
        lemma_fmul_range(root as int, ray@.direction.z, GEO_BOUND as int, GEO_BOUND as int);
    }
    let p: Vec3 = ray.at(root);
    let pc: Vec3 = p.sub(&centre);
    proof {
        lemma_floor_div_abs(pc@.x * ONE, radius as int);
        lemma_floor_div_abs(pc@.y * ONE, radius as int);
        lemma_floor_div_abs(pc@.z * ONE, radius as int);
    }
    let outward: Vec3 = pc.div(radius);
    if !outward.in_bounds(NORMAL_BOUND) {
        return None;
    }
    let fan: (bool, Vec3) = HitRecord::face_and_normal(ray, outward);
    let rec: HitRecord = HitRecord {
        p,
        normal: fan.1,
        material: *material,
        t: root,
        front_face: fan.0,
    };
    Some(rec)
}

impl Sphere {
    /// Intersect a ray with this sphere over the parameter range
    /// [t_min, t_max], returning the closest acceptable intersection. The
    /// result is fixed exactly against `sphere_hit_core`; the orientation
    /// laws `lemma_sphere_hit_front_face` and `lemma_sphere_hit_back_face`
    /// therefore apply to it verbatim.
    pub fn hit(&self, ray: &Ray, t_min: i128, t_max: i128) -> (r: Option<HitRecord>)
        requires
            sphere_wf(self@),
            ray_bounded(ray@, GEO_BOUND as int),
            abs_i(t_min as int) <= GEO_BOUND as int,
            abs_i(t_max as int) <= GEO_BOUND as int,
        ensures
            sphere_hit_core(
                self@.centre,
                self@.radius,
                self@.material,
                ray@,
                t_min as int,
                t_max as int,
            ) matches Some(hs) ==> (r matches Some(h) && h@ == hs),
            sphere_hit_core(
                self@.centre,
                self@.radius,
                self@.material,
                ray@,
                t_min as int,
                t_max as int,
            ) is None ==> r is None,
            r matches Some(h) ==> {
                &&& rec_wf(h@)
                &&& t_min <= h.t <= t_max
                &&& sv_dot_raw(ray@.direction, h@.normal) <= 0
                &&& h@.material == self@.material
            },
    {
        hit_with_centre(&self.centre, self.radius, &self.material, ray, t_min, t_max)
    }
}

} // verus!
