use vstd::prelude::*;
use vstd::arithmetic::div_mod::lemma_div_is_ordered;
use crate::fixed::{
    abs_i, div_floor, floor_div, fmul, fdiv, fp_div, fp_mul, isqrt,
    lemma_euclid_unique, lemma_sqrt_floor_bounds, lemma_sqrt_floor_unique, mul_raw, sqrt_floor,
    ADD_BOUND, DIV_BOUND, FP_BOUND, HALF, ONE,
};
use crate::rng::Rng;

verus! {

/// Any nonzero component this close to zero counts as zero; at the fixed-point
/// resolution that leaves exactly the zero vector.
pub const NEAR_EPS: i128 = 1;

/// Mathematical model of a vector: three unbounded fixed-point scalars.
pub struct V3 {
    pub x: int,
    pub y: int,
    pub z: int,
}

/// A 3-component fixed-point vector; also used for points and colours.
#[derive(Clone, Copy, PartialEq, Eq, Structural, Debug)]
pub struct Vec3 {
    pub x: i128,
    pub y: i128,
    pub z: i128,
}

impl View for Vec3 {
    type V = V3;

    open spec fn view(&self) -> V3 {
        V3 { x: self.x as int, y: self.y as int, z: self.z as int }
    }
}

pub open spec fn sv_bounded(v: V3, m: int) -> bool {
    abs_i(v.x) <= m && abs_i(v.y) <= m && abs_i(v.z) <= m
}

pub open spec fn sv_zero() -> V3 {
    V3 { x: 0, y: 0, z: 0 }
}

pub open spec fn sv_add(a: V3, b: V3) -> V3 {
    V3 { x: a.x + b.x, y: a.y + b.y, z: a.z + b.z }
}

pub open spec fn sv_sub(a: V3, b: V3) -> V3 {
    V3 { x: a.x - b.x, y: a.y - b.y, z: a.z - b.z }
}

pub open spec fn sv_neg(a: V3) -> V3 {
    V3 { x: -a.x, y: -a.y, z: -a.z }
}

/// Scale by a fixed-point scalar, componentwise.
pub open spec fn sv_scale(t: int, v: V3) -> V3 {
    V3 { x: fmul(t, v.x), y: fmul(t, v.y), z: fmul(t, v.z) }
}

/// Componentwise product; this is how colour attenuation chains.
pub open spec fn sv_cmul(a: V3, b: V3) -> V3 {
    V3 { x: fmul(a.x, b.x), y: fmul(a.y, b.y), z: fmul(a.z, b.z) }
}

/// Divide by a fixed-point scalar, componentwise.
pub open spec fn sv_div(v: V3, t: int) -> V3 {
    V3 { x: fdiv(v.x, t), y: fdiv(v.y, t), z: fdiv(v.z, t) }
}

/// Unscaled sum of coordinate products; `sv_dot` rescales it.
pub open spec fn sv_dot_raw(a: V3, b: V3) -> int {
    a.x * b.x + a.y * b.y + a.z * b.z
}

pub open spec fn sv_dot(a: V3, b: V3) -> int {
    floor_div(sv_dot_raw(a, b), ONE as int)
}

pub open spec fn sv_len_sq(v: V3) -> int {
    sv_dot(v, v)
}

/// Length of a vector at fixed-point scale: sqrt of the unscaled square sum.
pub open spec fn sv_len(v: V3) -> int {
    sqrt_floor(sv_dot_raw(v, v))
}

/// Unit vector in the direction of v; the zero vector stays zero.
pub open spec fn sv_unit(v: V3) -> V3 {
    if sv_len(v) == 0 {
        sv_zero()
    } else {
        sv_div(v, sv_len(v))
    }
}

pub open spec fn sv_cross(a: V3, b: V3) -> V3 {
    V3 {
        x: fmul(a.y, b.z) - fmul(a.z, b.y),
        y: fmul(a.z, b.x) - fmul(a.x, b.z),
        z: fmul(a.x, b.y) - fmul(a.y, b.x),
    }
}

pub open spec fn sv_near_zero(v: V3) -> bool {
    abs_i(v.x) < NEAR_EPS && abs_i(v.y) < NEAR_EPS && abs_i(v.z) < NEAR_EPS
}

/// Mirror reflection of v about the normal n: v - 2·(v·n)·n.
pub open spec fn sv_reflect(v: V3, n: V3) -> V3 {
    sv_sub(v, sv_scale(2 * sv_dot(v, n), n))
}

/// The square sum of coordinates is nonnegative and bounded by the
/// componentwise bound.
pub proof fn lemma_dot_raw_bounds(a: V3, b: V3, aa: int, bb: int)
    requires
        0 <= aa,
        0 <= bb,
        sv_bounded(a, aa),
        sv_bounded(b, bb),
    ensures
        abs_i(sv_dot_raw(a, b)) <= 3 * (aa * bb),
        abs_i(a.x * b.x) <= aa * bb,
        abs_i(a.y * b.y) <= aa * bb,
        abs_i(a.z * b.z) <= aa * bb,
{
    assert(abs_i(a.x * b.x) <= aa * bb && abs_i(a.y * b.y) <= aa * bb && abs_i(a.z * b.z) <= aa
        * bb) by (nonlinear_arith)
        requires
            0 <= aa,
            0 <= bb,
            sv_bounded(a, aa),
            sv_bounded(b, bb),
    ;
}

pub proof fn lemma_dot_raw_self_nonneg(v: V3)
    ensures
        sv_dot_raw(v, v) >= 0,
        sv_dot_raw(v, v) >= v.x * v.x,
        sv_dot_raw(v, v) >= v.y * v.y,
        sv_dot_raw(v, v) >= v.z * v.z,
{
    assert(v.x * v.x >= 0 && v.y * v.y >= 0 && v.z * v.z >= 0) by (nonlinear_arith);
}

/// sqrt_floor is monotone.
pub proof fn lemma_sqrt_floor_monotone(m: int, n: int)
    requires
        0 <= m <= n,
    ensures
        sqrt_floor(m) <= sqrt_floor(n),
{
    lemma_sqrt_floor_bounds(m);
    lemma_sqrt_floor_bounds(n);
    let sm = sqrt_floor(m);
    let sn = sqrt_floor(n);
    if sn < sm {
        assert((sn + 1) * (sn + 1) <= sm * sm) by (nonlinear_arith)
            requires
                0 <= sn,
                sn < sm,
        ;
    }
}

/// A square-root bound: if x·ONE is at most b², the fixed-point root is at
/// most b.
pub proof fn lemma_fsqrt_le(x: int, b: int)
    requires
        0 <= x,
        0 <= b,
        x * ONE <= b * b,
    ensures
        crate::fixed::fsqrt(x) <= b,
{
    lemma_sqrt_floor_monotone(x * ONE, b * b);
    assert(b * b < (b + 1) * (b + 1)) by (nonlinear_arith)
        requires
            0 <= b,
    ;
    assert(0 <= b * b) by (nonlinear_arith)
        requires
            0 <= b,
    ;
    lemma_sqrt_floor_unique(b * b, b);
}

/// The length bounds every single coordinate's magnitude.
pub proof fn lemma_len_dominates_coords(v: V3)
    ensures
        sv_len(v) >= abs_i(v.x),
        sv_len(v) >= abs_i(v.y),
        sv_len(v) >= abs_i(v.z),
        sv_len(v) >= 0,
{
    lemma_dot_raw_self_nonneg(v);
    assert(abs_i(v.x) * abs_i(v.x) == v.x * v.x && abs_i(v.y) * abs_i(v.y) == v.y * v.y && abs_i(
        v.z) * abs_i(v.z) == v.z * v.z) by (nonlinear_arith);
    assert(v.x * v.x < (abs_i(v.x) + 1) * (abs_i(v.x) + 1) && v.y * v.y < (abs_i(v.y) + 1) * (
    abs_i(v.y) + 1) && v.z * v.z < (abs_i(v.z) + 1) * (abs_i(v.z) + 1)) by (nonlinear_arith);
    lemma_sqrt_floor_unique(v.x * v.x, abs_i(v.x));
    lemma_sqrt_floor_unique(v.y * v.y, abs_i(v.y));
    lemma_sqrt_floor_unique(v.z * v.z, abs_i(v.z));
    lemma_sqrt_floor_monotone(v.x * v.x, sv_dot_raw(v, v));
    lemma_sqrt_floor_monotone(v.y * v.y, sv_dot_raw(v, v));
    lemma_sqrt_floor_monotone(v.z * v.z, sv_dot_raw(v, v));
    lemma_sqrt_floor_bounds(sv_dot_raw(v, v));
}

/// A coordinate divided by anything at least its magnitude lands in [-ONE, ONE].
pub proof fn lemma_unit_comp_bound(c: int, len: int)
    requires
        0 < len,
        abs_i(c) <= len,
    ensures
        -(ONE as int) <= fdiv(c, len) <= ONE as int,
{
    lemma_euclid_unique(len * ONE, len, ONE as int, 0);
    lemma_euclid_unique(-len * ONE, len, -(ONE as int), 0);
    assert(-len * ONE <= c * ONE <= len * ONE) by (nonlinear_arith)
        requires
            0 < len,
            abs_i(c) <= len,
    ;
    lemma_div_is_ordered(-len * ONE, c * ONE, len);
    lemma_div_is_ordered(c * ONE, len * ONE, len);
    assert(-len * ONE == (-len) * ONE) by (nonlinear_arith);
}

/// A square-root bound without rescaling: if n is at most b², so is its
/// floor root at most b.
pub proof fn lemma_sqrt_floor_le(n: int, b: int)
    requires
        0 <= n,
        0 <= b,
        n <= b * b,
    ensures
        sqrt_floor(n) <= b,
{
    lemma_sqrt_floor_monotone(n, b * b);
    assert(0 <= b * b && b * b < (b + 1) * (b + 1)) by (nonlinear_arith)
        requires
            0 <= b,
    ;
    lemma_sqrt_floor_unique(b * b, b);
}

/// A coordinate at least half the divisor keeps, after the scaled division,
/// a magnitude of at least one half.
proof fn lemma_unit_comp_big(c: int, len: int)
    requires
        1 <= len,
        2 * abs_i(c) >= len,
    ensures
        abs_i(fdiv(c, len)) >= HALF as int,
{
    if c >= 0 {
        assert(c * ONE >= (HALF as int) * len) by (nonlinear_arith)
            requires
                2 * c >= len,
        ;
        lemma_euclid_unique((HALF as int) * len, len, HALF as int, 0);
        lemma_div_is_ordered((HALF as int) * len, c * ONE, len);
    } else {
        assert(c * ONE <= (-(HALF as int)) * len) by (nonlinear_arith)
            requires
                2 * (-c) >= len,
                c < 0,
        ;
        lemma_euclid_unique((-(HALF as int)) * len, len, -(HALF as int), 0);
        lemma_div_is_ordered(c * ONE, (-(HALF as int)) * len, len);
    }
}

/// The normalized form of any nonzero in-cube sample has length within a
/// fixed band around one: at least one half, at most sqrt(3). The lower
/// bound holds because the integer length is at most twice the largest
/// coordinate, so that coordinate normalizes to at least ONE/2; the upper
/// bound because every normalized coordinate is at most ONE in magnitude.
pub proof fn lemma_unit_len_band(p: V3)
    requires
        !sv_near_zero(p),
    ensures
        HALF as int <= sv_len(sv_unit(p)) <= 113511,
{
    let n = sv_dot_raw(p, p);
    lemma_dot_raw_self_nonneg(p);
    let ax = abs_i(p.x);
    let ay = abs_i(p.y);
    let az = abs_i(p.z);
    let pm = if ax >= ay && ax >= az {
        ax
    } else if ay >= az {
        ay
    } else {
        az
    };
    assert(pm >= 1);
    assert(pm * pm <= n && n <= 3 * (pm * pm)) by (nonlinear_arith)
        requires
            n == p.x * p.x + p.y * p.y + p.z * p.z,
            -pm <= p.x <= pm,
            -pm <= p.y <= pm,
            -pm <= p.z <= pm,
            pm == p.x || pm == -p.x || pm == p.y || pm == -p.y || pm == p.z || pm == -p.z,
    ;
    assert(n >= 1) by (nonlinear_arith)
        requires
            pm >= 1,
            pm * pm <= n,
    ;
    let len = sv_len(p);
    lemma_sqrt_floor_bounds(n);
    assert(len >= 1) by (nonlinear_arith)
        requires
            n >= 1,
            len >= 0,
            n < (len + 1) * (len + 1),
    ;
    assert(n <= (2 * pm) * (2 * pm)) by (nonlinear_arith)
        requires
            n <= 3 * (pm * pm),
            pm >= 0,
    ;
    lemma_sqrt_floor_le(n, 2 * pm);
    let u = sv_unit(p);
    if pm == ax {
        lemma_unit_comp_big(p.x, len);
    } else if pm == ay {
        lemma_unit_comp_big(p.y, len);
    } else {
        lemma_unit_comp_big(p.z, len);
    }
    lemma_len_dominates_coords(u);
    lemma_unit_bounded(p);
    lemma_dot_raw_bounds(u, u, ONE as int, ONE as int);
    lemma_dot_raw_self_nonneg(u);
    assert(sv_dot_raw(u, u) <= 12884901888);
    lemma_sqrt_floor_bounds(sv_dot_raw(u, u));
    let s = sqrt_floor(sv_dot_raw(u, u));
    assert(s <= 113511) by (nonlinear_arith)
        requires
            0 <= s,
            s * s <= 12884901888,
    ;
}

/// Every coordinate of a unit vector lies in [-ONE, ONE].
pub proof fn lemma_unit_bounded(v: V3)
    ensures
        sv_bounded(sv_unit(v), ONE as int),
{
    lemma_len_dominates_coords(v);
    let len = sv_len(v);
    if len != 0 {
        lemma_unit_comp_bound(v.x, len);
        lemma_unit_comp_bound(v.y, len);
        lemma_unit_comp_bound(v.z, len);
    }
}

impl Vec3 {
    pub fn new(x: i128, y: i128, z: i128) -> (r: Vec3)
        ensures
            r@ == (V3 { x: x as int, y: y as int, z: z as int }),
    {
        Vec3 { x, y, z }
    }

    pub fn zero() -> (r: Vec3)
        ensures
            r@ == sv_zero(),
    {
        Vec3 { x: 0, y: 0, z: 0 }
    }

    pub fn add(&self, rhs: &Vec3) -> (r: Vec3)
        requires
            sv_bounded(self@, ADD_BOUND as int),
            sv_bounded(rhs@, ADD_BOUND as int),
        ensures
            r@ == sv_add(self@, rhs@),
    {
        Vec3 { x: self.x + rhs.x, y: self.y + rhs.y, z: self.z + rhs.z }
    }

    pub fn sub(&self, rhs: &Vec3) -> (r: Vec3)
        requires
            sv_bounded(self@, ADD_BOUND as int),
            sv_bounded(rhs@, ADD_BOUND as int),
        ensures
            r@ == sv_sub(self@, rhs@),
    {
        Vec3 { x: self.x - rhs.x, y: self.y - rhs.y, z: self.z - rhs.z }
    }

    pub fn neg(&self) -> (r: Vec3)
        requires
            sv_bounded(self@, DIV_BOUND as int),
        ensures
            r@ == sv_neg(self@),
    {
        Vec3 { x: -self.x, y: -self.y, z: -self.z }
    }

    /// Scale by a fixed-point scalar.
    pub fn scale(&self, t: i128) -> (r: Vec3)
        requires
            -FP_BOUND <= t <= FP_BOUND,
            sv_bounded(self@, FP_BOUND as int),
        ensures
            r@ == sv_scale(t as int, self@),
    {
        Vec3 { x: fp_mul(t, self.x), y: fp_mul(t, self.y), z: fp_mul(t, self.z) }
    }

    /// Componentwise product (colour attenuation).
    pub fn comp_mul(&self, rhs: &Vec3) -> (r: Vec3)
        requires
            sv_bounded(self@, FP_BOUND as int),
            sv_bounded(rhs@, FP_BOUND as int),
        ensures
            r@ == sv_cmul(self@, rhs@),
    {
        Vec3 { x: fp_mul(self.x, rhs.x), y: fp_mul(self.y, rhs.y), z: fp_mul(self.z, rhs.z) }
    }

    /// Divide by a fixed-point scalar.
    pub fn div(&self, t: i128) -> (r: Vec3)
        requires
            t != 0,
            -DIV_BOUND <= t <= DIV_BOUND,
            sv_bounded(self@, FP_BOUND as int),
        ensures
            r@ == sv_div(self@, t as int),
    {
        Vec3 { x: fp_div(self.x, t), y: fp_div(self.y, t), z: fp_div(self.z, t) }
    }

    /// Fixed-point dot product.
    pub fn dot(&self, rhs: &Vec3) -> (r: i128)
        requires
            sv_bounded(self@, FP_BOUND as int),
            sv_bounded(rhs@, FP_BOUND as int),
        ensures
            r == sv_dot(self@, rhs@),
    {
        proof {
            lemma_dot_raw_bounds(self@, rhs@, FP_BOUND as int, FP_BOUND as int);
        }
        let p: i128 = self.dot_raw(rhs);
        div_floor(p, ONE)
    }

    /// Unscaled sum of coordinate products; exact, so sign tests on it are exact.
    pub fn dot_raw(&self, rhs: &Vec3) -> (r: i128)
        requires
            sv_bounded(self@, FP_BOUND as int),
            sv_bounded(rhs@, FP_BOUND as int),
        ensures
            r == sv_dot_raw(self@, rhs@),
    {
        proof {
            lemma_dot_raw_bounds(self@, rhs@, FP_BOUND as int, FP_BOUND as int);
        }
        let px: i128 = mul_raw(self.x, rhs.x);
        let py: i128 = mul_raw(self.y, rhs.y);
        let pz: i128 = mul_raw(self.z, rhs.z);
        px + py + pz
    }

    pub fn cross(&self, rhs: &Vec3) -> (r: Vec3)
        requires
            sv_bounded(self@, FP_BOUND as int),
            sv_bounded(rhs@, FP_BOUND as int),
        ensures
            r@ == sv_cross(self@, rhs@),
    {
        proof {
            crate::fixed::lemma_fmul_range(
                self@.x,
                rhs@.x,
                FP_BOUND as int,
                FP_BOUND as int,
            );
        }
        let xyz: i128 = fp_mul(self.y, rhs.z);
        let xzy: i128 = fp_mul(self.z, rhs.y);
        let yzx: i128 = fp_mul(self.z, rhs.x);
        let yxz: i128 = fp_mul(self.x, rhs.z);
        let zxy: i128 = fp_mul(self.x, rhs.y);
        let zyx: i128 = fp_mul(self.y, rhs.x);
        proof {
            lemma_cross_term(self@.y, rhs@.z);
            lemma_cross_term(self@.z, rhs@.y);
            lemma_cross_term(self@.z, rhs@.x);
            lemma_cross_term(self@.x, rhs@.z);
            lemma_cross_term(self@.x, rhs@.y);
            lemma_cross_term(self@.y, rhs@.x);
        }
        Vec3 { x: xyz - xzy, y: yzx - yxz, z: zxy - zyx }
    }

    /// Fixed-point squared length.
    pub fn length_squared(&self) -> (r: i128)
        requires
            sv_bounded(self@, FP_BOUND as int),
        ensures
            r == sv_len_sq(self@),
            r >= 0,
    {
        proof {
            lemma_dot_raw_self_nonneg(self@);
            lemma_dot_raw_bounds(self@, self@, FP_BOUND as int, FP_BOUND as int);
            vstd::arithmetic::div_mod::lemma_div_pos_is_pos(sv_dot_raw(self@, self@), ONE as int);
        }
        let p: i128 = self.dot_raw(self);
        div_floor(p, ONE)
    }

    /// Length at fixed-point scale.
    pub fn length(&self) -> (r: i128)
        requires
            sv_bounded(self@, FP_BOUND as int),
        ensures
            r == sv_len(self@),
            0 <= r <= 0xFFFF_FFFF_FFFF_FFFFi128,
    {
        proof {
            lemma_dot_raw_self_nonneg(self@);
            lemma_dot_raw_bounds(self@, self@, FP_BOUND as int, FP_BOUND as int);
        }
        let p: i128 = self.dot_raw(self);
        let r: u128 = isqrt(p as u128);
        proof {
            lemma_sqrt_floor_bounds(p as int);
        }
        r as i128
    }

    /// Unit vector in the same direction; the zero vector stays zero.
    pub fn unit_vec(&self) -> (r: Vec3)
        requires
            sv_bounded(self@, FP_BOUND as int),
        ensures
            r@ == sv_unit(self@),
            sv_bounded(r@, ONE as int),
    {
        let len: i128 = self.length();
        proof {
            lemma_unit_bounded(self@);
        }
        if len == 0 {
            Vec3::zero()
        } else {
            proof {
                lemma_len_dominates_coords(self@);
            }
            self.div(len)
        }
    }

    /// Whether every component's magnitude is at most m.
    pub fn in_bounds(&self, m: i128) -> (r: bool)
        requires
            0 <= m,
        ensures
            r == sv_bounded(self@, m as int),
    {
        -m <= self.x && self.x <= m && -m <= self.y && self.y <= m && -m <= self.z && self.z <= m
    }

    /// All components within NEAR_EPS of zero.
    pub fn is_near_zero(&self) -> (r: bool)
        requires
            sv_bounded(self@, FP_BOUND as int),
        ensures
            r == sv_near_zero(self@),
    {
        let ax: i128 = if self.x >= 0 {
            self.x
        } else {
            -self.x
        };
        let ay: i128 = if self.y >= 0 {
            self.y
        } else {
            -self.y
        };
        let az: i128 = if self.z >= 0 {
            self.z
        } else {
            -self.z
        };
        ax < NEAR_EPS && ay < NEAR_EPS && az < NEAR_EPS
    }

    /// Mirror reflection about a normal.
    pub fn reflect(&self, normal: &Vec3) -> (r: Vec3)
        requires
            sv_bounded(self@, ONE as int),
            sv_bounded(normal@, 0x1_0000_0000),
        ensures
            r@ == sv_reflect(self@, normal@),
    {
        let d: i128 = self.dot(normal);
        proof {
            lemma_dot_raw_bounds(self@, normal@, ONE as int, 0x1_0000_0000);
            crate::fixed::lemma_floor_div_range(
                sv_dot_raw(self@, normal@),
                ONE as int,
                3 * ((ONE as int) * 0x1_0000_0000),
            );
            crate::fixed::lemma_fmul_range(2 * d, normal@.x, 0x10_0000_0000_0000, 0x1_0000_0000);
            crate::fixed::lemma_fmul_range(2 * d, normal@.y, 0x10_0000_0000_0000, 0x1_0000_0000);
            crate::fixed::lemma_fmul_range(2 * d, normal@.z, 0x10_0000_0000_0000, 0x1_0000_0000);
        }
        let t: i128 = 2 * d;
        self.sub(&normal.scale(t))
    }
}

pub open spec fn sv_in_range(v: V3, lo: int, hi: int) -> bool {
    lo <= v.x <= hi && lo <= v.y <= hi && lo <= v.z <= hi
}

pub proof fn lemma_dot_raw_neg(a: V3, b: V3)
    ensures
        sv_dot_raw(sv_neg(a), b) == -sv_dot_raw(a, b),
{
    assert((-a.x) * b.x == -(a.x * b.x) && (-a.y) * b.y == -(a.y * b.y) && (-a.z) * b.z == -(a.z
        * b.z)) by (nonlinear_arith);
}

/// Negation preserves the square sum, hence the squared length.
pub proof fn lemma_len_sq_neg(v: V3)
    ensures
        sv_dot_raw(sv_neg(v), sv_neg(v)) == sv_dot_raw(v, v),
        sv_len_sq(sv_neg(v)) == sv_len_sq(v),
{
    assert((-v.x) * (-v.x) == v.x * v.x && (-v.y) * (-v.y) == v.y * v.y && (-v.z) * (-v.z) == v.z
        * v.z) by (nonlinear_arith);
}

impl Vec3 {
    /// A vector with each component drawn uniformly from [0, 1].
    pub fn random(rng: &mut Rng) -> (r: Vec3)
        ensures
            sv_in_range(r@, 0, ONE as int),
    {
        let x: i128 = rng.unit();
        let y: i128 = rng.unit();
        let z: i128 = rng.unit();
        Vec3 { x, y, z }
    }

    /// A vector with each component drawn uniformly from [min, max].
    pub fn random_with_range(rng: &mut Rng, min: i128, max: i128) -> (r: Vec3)
        requires
            min <= max,
            -FP_BOUND <= min,
            max <= FP_BOUND,
            max - min <= FP_BOUND,
        ensures
            sv_in_range(r@, min as int, max as int),
    {
        let diff: i128 = max - min;
        let dx: i128 = rng.unit();
        let dy: i128 = rng.unit();
        let dz: i128 = rng.unit();
        proof {
            crate::fixed::lemma_fmul_attenuates(diff as int, dx as int);
            crate::fixed::lemma_fmul_attenuates(diff as int, dy as int);
            crate::fixed::lemma_fmul_attenuates(diff as int, dz as int);
        }
        Vec3 {
            x: min + fp_mul(diff, dx),
            y: min + fp_mul(diff, dy),
            z: min + fp_mul(diff, dz),
        }
    }

    /// Rejection-sample a vector strictly inside the unit sphere. A bounded
    /// number of draws keeps the routine total; after that it falls back to a
    /// fixed interior point.
    pub fn random_in_unit_sphere(rng: &mut Rng) -> (r: Vec3)
        ensures
            sv_bounded(r@, ONE as int),
            sv_len_sq(r@) < ONE,
    {
        let mut tries: u32 = 0;
        while tries < 16
            invariant
                true,
            decreases 16 - tries,
        {
            let p: Vec3 = Vec3::random_with_range(rng, -ONE, ONE);
            if p.length_squared() < ONE {
                return p;
            }
            tries = tries + 1;
        }
        let fallback: Vec3 = Vec3 { x: HALF, y: 0, z: 0 };
        proof {
            assert(fallback@.x == 32768 && fallback@.y == 0 && fallback@.z == 0);
            assert(sv_dot_raw(fallback@, fallback@) == 32768 * 32768 + 0 * 0 + 0 * 0);
            assert(32768 * 32768 + 0 * 0 + 0 * 0 == 1073741824) by (nonlinear_arith);
            assert(sv_len_sq(fallback@) == floor_div(1073741824, 65536));
            assert(floor_div(1073741824, 65536) == 16384);
        }
        fallback
    }

    /// A unit vector drawn by normalizing a sample from the unit sphere; a
    /// degenerate (near-zero) sample is replaced by a fixed interior point
    /// first, so the result is never the zero vector. At fixed-point
    /// precision the normalized length is not exactly ONE: it always lies
    /// between ONE/2 and ONE·sqrt(3), and is close to ONE except for tiny
    /// samples whose integer length is coarse.
    pub fn random_unit_vector(rng: &mut Rng) -> (r: Vec3)
        ensures
            sv_bounded(r@, ONE as int),
            HALF as int <= sv_len(r@) <= 113511,
            exists|v: V3|
                sv_bounded(v, ONE as int) && sv_len_sq(v) < ONE && !sv_near_zero(v) && r@
                    == #[trigger] sv_unit(v),
    {
        let drawn: Vec3 = Vec3::random_in_unit_sphere(rng);
        let p: Vec3 = if drawn.is_near_zero() {
            Vec3 { x: HALF, y: 0, z: 0 }
        } else {
            drawn
        };
        proof {
            if drawn@ != p@ {
                assert(sv_dot_raw(p@, p@) == 32768 * 32768 + 0 * 0 + 0 * 0);
                assert(32768 * 32768 + 0 * 0 + 0 * 0 == 1073741824) by (nonlinear_arith);
                assert(sv_len_sq(p@) == floor_div(1073741824, 65536));
                assert(floor_div(1073741824, 65536) == 16384);
            }
            lemma_unit_len_band(p@);
        }
        let r: Vec3 = p.unit_vec();
        proof {
            assert(sv_bounded(p@, ONE as int) && sv_len_sq(p@) < ONE && !sv_near_zero(p@) && r@
                == sv_unit(p@));
        }
        r
    }

    /// A sample from the unit sphere, flipped if needed so it lies in the
    /// hemisphere around the given normal.
    pub fn random_in_hemisphere(rng: &mut Rng, normal: &Vec3) -> (r: Vec3)
        requires
            sv_bounded(normal@, FP_BOUND as int),
        ensures
            sv_bounded(r@, ONE as int),
            sv_dot_raw(r@, normal@) >= 0,
            sv_len_sq(r@) < ONE,
            exists|sample: V3|
                #[trigger] sv_bounded(sample, ONE as int) && sv_len_sq(sample) < ONE && (r@
                    == sample || r@ == sv_neg(sample)),
    {
        let p: Vec3 = Vec3::random_in_unit_sphere(rng);
        let d: i128 = p.dot_raw(normal);
        if d >= 0 {
            proof {
                assert(sv_bounded(p@, ONE as int) && sv_len_sq(p@) < ONE && p@ == p@);
            }
            p
        } else {
            proof {
                lemma_dot_raw_neg(p@, normal@);
                lemma_len_sq_neg(p@);
            }
            p.neg()
        }
    }

    /// Rejection-sample a vector inside the unit disc of the xy-plane, used
    /// for lens sampling; same bounded-retry scheme as the sphere sampler.
    pub fn random_in_unit_disc(rng: &mut Rng) -> (r: Vec3)
        ensures
            sv_bounded(r@, ONE as int),
            sv_len_sq(r@) < ONE,
            r@.z == 0,
    {
        let mut tries: u32 = 0;
        while tries < 16
            invariant
                true,
            decreases 16 - tries,
        {
            let x: i128 = rng.symmetric();
            let y: i128 = rng.symmetric();
            let p: Vec3 = Vec3 { x, y, z: 0 };
            if p.length_squared() < ONE {
                return p;
            }
            tries = tries + 1;
        }
        let fallback: Vec3 = Vec3 { x: HALF, y: 0, z: 0 };
        proof {
            assert(fallback@.x == 32768 && fallback@.y == 0 && fallback@.z == 0);
            assert(sv_dot_raw(fallback@, fallback@) == 32768 * 32768 + 0 * 0 + 0 * 0);
            assert(32768 * 32768 + 0 * 0 + 0 * 0 == 1073741824) by (nonlinear_arith);
            assert(sv_len_sq(fallback@) == floor_div(1073741824, 65536));
            assert(floor_div(1073741824, 65536) == 16384);
        }
        fallback
    }
}

/// Snell refraction of a unit-length direction about a normal, split into
/// the components perpendicular and parallel to the normal.
pub open spec fn sv_refract(uv: V3, n: V3, etai_over_etat: int) -> V3 {
    let d = sv_dot(sv_neg(uv), n);
    let cos = if d > ONE {
        ONE as int
    } else {
        d
    };
    let r_perp = sv_scale(etai_over_etat, sv_add(uv, sv_scale(cos, n)));
    let r_par = sv_scale(-crate::fixed::fsqrt(abs_i((ONE as int) - sv_len_sq(r_perp))), n);
    sv_add(r_perp, r_par)
}

/// Schlick's reflectance approximation:
/// r0 + (1 - r0)·(1 - cos)^5 with r0 = ((1 - ratio)/(1 + ratio))².
pub open spec fn shlick_spec(cos_theta: int, refraction_ratio: int) -> int {
    let r0a = fdiv((ONE as int) - refraction_ratio, (ONE as int) + refraction_ratio);
    let r0 = fmul(r0a, r0a);
    let f = (ONE as int) - cos_theta;
    r0 + fmul((ONE as int) - r0, fmul(fmul(fmul(fmul(f, f), f), f), f))
}

pub fn shlick_reflectance(cos_theta: i128, refraction_ratio: i128) -> (r: i128)
    requires
        -ONE <= cos_theta <= ONE,
        0 < refraction_ratio <= 0x4_0000,
    ensures
        r == shlick_spec(cos_theta as int, refraction_ratio as int),
        r >= 0,
{
    let denom: i128 = ONE + refraction_ratio;
    proof {
        lemma_unit_comp_bound((ONE - refraction_ratio) as int, denom as int);
    }
    let r0a: i128 = fp_div(ONE - refraction_ratio, denom);
    proof {
        crate::fixed::lemma_fmul_self_le_one(r0a as int);
    }
    let r0: i128 = fp_mul(r0a, r0a);
    let f: i128 = ONE - cos_theta;
    proof {
        crate::fixed::lemma_fmul_range(f as int, f as int, 0x2_0000, 0x2_0000);
        crate::fixed::lemma_fmul_nonneg(f as int, f as int);
    }
    let f2: i128 = fp_mul(f, f);
    proof {
        crate::fixed::lemma_fmul_range(f2 as int, f as int, 0x4_0000, 0x2_0000);
        crate::fixed::lemma_fmul_nonneg(f2 as int, f as int);
    }
    let f3: i128 = fp_mul(f2, f);
    proof {
        crate::fixed::lemma_fmul_range(f3 as int, f as int, 0x8_0000, 0x2_0000);
        crate::fixed::lemma_fmul_nonneg(f3 as int, f as int);
    }
    let f4: i128 = fp_mul(f3, f);
    proof {
        crate::fixed::lemma_fmul_range(f4 as int, f as int, 0x10_0000, 0x2_0000);
        crate::fixed::lemma_fmul_nonneg(f4 as int, f as int);
    }
    let f5: i128 = fp_mul(f4, f);
    proof {
        crate::fixed::lemma_fmul_range((ONE - r0) as int, f5 as int, ONE as int, 0x20_0000);
        crate::fixed::lemma_fmul_nonneg((ONE - r0) as int, f5 as int);
    }
    let m: i128 = fp_mul(ONE - r0, f5);
    r0 + m
}

impl Vec3 {
    /// Snell refraction of this unit-length direction about a normal.
    pub fn refract(&self, normal: &Vec3, etai_over_etat: i128) -> (r: Vec3)
        requires
            sv_bounded(self@, ONE as int),
            sv_bounded(normal@, 0x1_0000_0000),
            0 < etai_over_etat <= 0x4_0000,
        ensures
            r@ == sv_refract(self@, normal@, etai_over_etat as int),
    {
        let nu: Vec3 = self.neg();
        let d: i128 = nu.dot(normal);
        proof {
            lemma_dot_raw_bounds(nu@, normal@, ONE as int, 0x1_0000_0000);
            crate::fixed::lemma_floor_div_range(
                sv_dot_raw(nu@, normal@),
                ONE as int,
                3 * ((ONE as int) * 0x1_0000_0000),
            );
        }
        let cos: i128 = if d > ONE {
            ONE
        } else {
            d
        };
        proof {
            crate::fixed::lemma_fmul_range(cos as int, normal@.x, 0x4_0000_0000, 0x1_0000_0000);
            crate::fixed::lemma_fmul_range(cos as int, normal@.y, 0x4_0000_0000, 0x1_0000_0000);
            crate::fixed::lemma_fmul_range(cos as int, normal@.z, 0x4_0000_0000, 0x1_0000_0000);
        }
        let cn: Vec3 = normal.scale(cos);
        let inner: Vec3 = self.add(&cn);
        proof {
            crate::fixed::lemma_fmul_range(
                etai_over_etat as int,
                inner@.x,
                0x4_0000,
                0x8_0000_0000_0000,
            );
            crate::fixed::lemma_fmul_range(
                etai_over_etat as int,
                inner@.y,
                0x4_0000,
                0x8_0000_0000_0000,
            );
            crate::fixed::lemma_fmul_range(
                etai_over_etat as int,
                inner@.z,
                0x4_0000,
                0x8_0000_0000_0000,
            );
        }
        let r_perp: Vec3 = inner.scale(etai_over_etat);
        proof {
            lemma_dot_raw_self_nonneg(r_perp@);
            lemma_dot_raw_bounds(
                r_perp@,
                r_perp@,
                0x40_0000_0000_0000,
                0x40_0000_0000_0000,
            );
            crate::fixed::lemma_floor_div_range(
                sv_dot_raw(r_perp@, r_perp@),
                ONE as int,
                3 * (0x40_0000_0000_0000int * 0x40_0000_0000_0000int),
            );
            vstd::arithmetic::div_mod::lemma_div_pos_is_pos(
                sv_dot_raw(r_perp@, r_perp@),
                ONE as int,
            );
        }
        let ls: i128 = r_perp.length_squared();
        let inner2: i128 = ONE - ls;
        let a2: i128 = if inner2 >= 0 {
            inner2
        } else {
            -inner2
        };
        let s: i128 = crate::fixed::fp_sqrt(a2);
        proof {
            lemma_fsqrt_le(a2 as int, 0x80_0000_0000_0000int);
            crate::fixed::lemma_fmul_range(
                -(s as int),
                normal@.x,
                0x1_0000_0000_0000_0000,
                0x1_0000_0000,
            );
            crate::fixed::lemma_fmul_range(
                -(s as int),
                normal@.y,
                0x1_0000_0000_0000_0000,
                0x1_0000_0000,
            );
            crate::fixed::lemma_fmul_range(
                -(s as int),
                normal@.z,
                0x1_0000_0000_0000_0000,
                0x1_0000_0000,
            );
        }
        let r_par: Vec3 = normal.scale(-s);
        r_perp.add(&r_par)
    }
}

/// Any single fixed-point product of bounded factors is itself bounded.
proof fn lemma_cross_term(a: int, b: int)
    requires
        abs_i(a) <= FP_BOUND as int,
        abs_i(b) <= FP_BOUND as int,
    ensures
        abs_i(fmul(a, b)) <= DIV_BOUND as int / 2,
{
    crate::fixed::lemma_fmul_range(a, b, FP_BOUND as int, FP_BOUND as int);
}

} // verus!
