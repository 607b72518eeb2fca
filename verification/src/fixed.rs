use vstd::prelude::*;
use vstd::arithmetic::div_mod::{
    lemma_div_is_ordered, lemma_div_pos_is_pos, lemma_fundamental_div_mod,
    lemma_mod_division_less_than_divisor,
};

verus! {

// Scalars are fixed-point numbers: an `i128` holding the value scaled by
// `ONE`, so the raw integer `x` stands for the real number `x / 65536`.
// Every operation rounds toward negative infinity (floor), which keeps sign
// tests exact: a rounded value is negative exactly when the unrounded one is.

/// One whole unit in the fixed-point representation: 2^16.
pub const ONE: i128 = 65536;

/// Half a unit.
pub const HALF: i128 = 32768;

/// Raw magnitude admitted by the binary fixed-point operations: 2^62.
pub const FP_BOUND: i128 = 0x4000_0000_0000_0000;

/// Raw magnitude admitted by the flooring division: 2^126.
pub const DIV_BOUND: i128 = 0x4000_0000_0000_0000_0000_0000_0000_0000;

/// Raw magnitude admitted by componentwise vector sums: 2^125.
pub const ADD_BOUND: i128 = 0x2000_0000_0000_0000_0000_0000_0000_0000;

/// Raw magnitude admitted by the fixed-point square root: 2^110.
pub const SQRT_BOUND: i128 = 0x4000_0000_0000_0000_0000_0000_0000;

pub open spec fn abs_i(a: int) -> int {
    if a >= 0 {
        a
    } else {
        -a
    }
}

/// Floor division on mathematical integers (rounds toward negative infinity).
pub open spec fn floor_div(a: int, b: int) -> int {
    if b >= 0 {
        a / b
    } else {
        (-a) / (-b)
    }
}

/// Fixed-point product: (a/ONE)·(b/ONE) scaled back, rounded down.
pub open spec fn fmul(a: int, b: int) -> int {
    floor_div(a * b, ONE as int)
}

/// Fixed-point quotient: (a/ONE)/(b/ONE) scaled back, rounded down.
pub open spec fn fdiv(a: int, b: int) -> int {
    floor_div(a * ONE, b)
}

/// Integer square root, rounded down; 0 for negative arguments.
pub open spec fn sqrt_floor(n: int) -> int
    decreases n,
{
    if n <= 0 {
        0
    } else {
        let p = sqrt_floor(n - 1);
        if (p + 1) * (p + 1) <= n {
            p + 1
        } else {
            p
        }
    }
}

/// Fixed-point square root of a nonnegative scalar: sqrt(x/ONE) scaled back.
pub open spec fn fsqrt(x: int) -> int {
    sqrt_floor(x * ONE)
}

pub open spec fn clamp_spec(x: int, lo: int, hi: int) -> int {
    if x < lo {
        lo
    } else if x > hi {
        hi
    } else {
        x
    }
}

pub proof fn lemma_sqrt_floor_bounds(n: int)
    requires
        n >= 0,
    ensures
        0 <= sqrt_floor(n),
        sqrt_floor(n) * sqrt_floor(n) <= n,
        n < (sqrt_floor(n) + 1) * (sqrt_floor(n) + 1),
    decreases n,
{
    if n == 0 {
        assert(sqrt_floor(0) == 0);
    } else {
        lemma_sqrt_floor_bounds(n - 1);
        let p = sqrt_floor(n - 1);
        if (p + 1) * (p + 1) <= n {
            assert(sqrt_floor(n) == p + 1);
            assert(n == (p + 1) * (p + 1));
            assert((p + 1) * (p + 1) < (p + 2) * (p + 2)) by (nonlinear_arith)
                requires
                    p >= 0,
            ;
        } else {
            assert(sqrt_floor(n) == p);
            assert(p * p <= n - 1);
        }
    }
}

pub proof fn lemma_sqrt_floor_unique(n: int, r: int)
    requires
        n >= 0,
        0 <= r,
        r * r <= n,
        n < (r + 1) * (r + 1),
    ensures
        r == sqrt_floor(n),
{
    lemma_sqrt_floor_bounds(n);
    let s = sqrt_floor(n);
    if r < s {
        assert((r + 1) * (r + 1) <= s * s) by (nonlinear_arith)
            requires
                0 <= r,
                r < s,
        ;
    }
    if s < r {
        assert((s + 1) * (s + 1) <= r * r) by (nonlinear_arith)
            requires
                0 <= s,
                s < r,
        ;
    }
}

/// The Euclidean quotient and remainder are the unique pair with remainder in [0, b).
pub proof fn lemma_euclid_unique(a: int, b: int, q: int, r: int)
    requires
        b > 0,
        a == b * q + r,
        0 <= r < b,
    ensures
        q == a / b,
        r == a % b,
{
    lemma_fundamental_div_mod(a, b);
    lemma_mod_division_less_than_divisor(a, b);
    let q2 = a / b;
    let r2 = a % b;
    assert(q == q2) by (nonlinear_arith)
        requires
            b > 0,
            a == b * q + r,
            a == b * q2 + r2,
            0 <= r < b,
            0 <= r2 < b,
    ;
}

/// Dividing a value of magnitude at most m by d >= 1 yields a quotient of
/// magnitude at most m/d (up to the final floor step).
pub proof fn lemma_div_range_shrink(x: int, d: int, m: int)
    requires
        d >= 1,
        0 <= m,
        -m <= x <= m,
    ensures
        -(m / d) - 1 <= x / d <= m / d,
{
    lemma_fundamental_div_mod(x, d);
    lemma_mod_division_less_than_divisor(x, d);
    lemma_fundamental_div_mod(m, d);
    lemma_mod_division_less_than_divisor(m, d);
    let q = x / d;
    let r = x % d;
    let mq = m / d;
    let mr = m % d;
    assert(-mq - 1 <= q <= mq) by (nonlinear_arith)
        requires
            d >= 1,
            0 <= m,
            -m <= x <= m,
            x == d * q + r,
            0 <= r < d,
            m == d * mq + mr,
            0 <= mr < d,
    ;
}

pub proof fn lemma_floor_div_range(x: int, d: int, m: int)
    requires
        d != 0,
        0 <= m,
        -m <= x <= m,
    ensures
        -(m / abs_i(d)) - 1 <= floor_div(x, d) <= m / abs_i(d),
{
    if d >= 1 {
        lemma_div_range_shrink(x, d, m);
    } else {
        lemma_div_range_shrink(-x, -d, m);
    }
}

/// Division by a nonzero integer never raises the magnitude.
pub proof fn lemma_floor_div_abs(a: int, b: int)
    requires
        b != 0,
    ensures
        -abs_i(a) <= floor_div(a, b) <= abs_i(a),
{
    let m = abs_i(a);
    let x = if b >= 1 {
        a
    } else {
        -a
    };
    let d = abs_i(b);
    assert(floor_div(a, b) == x / d);
    lemma_fundamental_div_mod(x, d);
    lemma_mod_division_less_than_divisor(x, d);
    assert(-m <= x / d <= m) by (nonlinear_arith)
        requires
            d >= 1,
            0 <= m,
            -m <= x <= m,
            x == d * (x / d) + x % d,
            0 <= x % d < d,
    ;
}

/// A product with a fixed-point factor in [0, 1] attenuates: the result stays
/// between zero and the other factor.
pub proof fn lemma_fmul_attenuates(c: int, a: int)
    requires
        0 <= c,
        0 <= a <= ONE,
    ensures
        0 <= fmul(c, a) <= c,
{
    assert(0 <= c * a <= c * (ONE as int)) by (nonlinear_arith)
        requires
            0 <= c,
            0 <= a <= ONE,
    ;
    lemma_div_pos_is_pos(c * a, ONE as int);
    lemma_div_is_ordered(c * a, c * (ONE as int), ONE as int);
    assert(c * (ONE as int) == (ONE as int) * c) by (nonlinear_arith);
    lemma_euclid_unique(c * (ONE as int), ONE as int, c, 0);
}

/// A fixed-point product with a zero factor is exactly zero.
pub proof fn lemma_fmul_zero(x: int)
    ensures
        fmul(x, 0) == 0,
        fmul(0, x) == 0,
{
    vstd::arithmetic::div_mod::lemma_div_of0(ONE as int);
}

pub proof fn lemma_fmul_nonneg(a: int, b: int)
    requires
        0 <= a,
        0 <= b,
    ensures
        0 <= fmul(a, b),
{
    assert(0 <= a * b) by (nonlinear_arith)
        requires
            0 <= a,
            0 <= b,
    ;
    lemma_div_pos_is_pos(a * b, ONE as int);
}

/// The fixed-point square of a scalar in [-1, 1] lands in [0, 1].
pub proof fn lemma_fmul_self_le_one(c: int)
    requires
        -ONE <= c <= ONE,
    ensures
        0 <= fmul(c, c) <= ONE,
{
    assert(0 <= c * c <= (ONE as int) * (ONE as int)) by (nonlinear_arith)
        requires
            -ONE <= c <= ONE,
    ;
    lemma_div_pos_is_pos(c * c, ONE as int);
    lemma_div_is_ordered(c * c, (ONE as int) * (ONE as int), ONE as int);
    lemma_euclid_unique((ONE as int) * (ONE as int), ONE as int, ONE as int, 0);
}

pub proof fn lemma_fmul_range(a: int, b: int, aa: int, bb: int)
    requires
        0 <= aa,
        0 <= bb,
        abs_i(a) <= aa,
        abs_i(b) <= bb,
    ensures
        -((aa * bb) / (ONE as int)) - 1 <= fmul(a, b) <= (aa * bb) / (ONE as int),
{
    assert(-(aa * bb) <= a * b <= aa * bb && 0 <= aa * bb) by (nonlinear_arith)
        requires
            0 <= aa,
            0 <= bb,
            abs_i(a) <= aa,
            abs_i(b) <= bb,
    ;
    lemma_div_range_shrink(a * b, ONE as int, aa * bb);
}

/// Raw product of two bounded scalars, no rescaling.
pub fn mul_raw(a: i128, b: i128) -> (r: i128)
    requires
        -FP_BOUND <= a <= FP_BOUND,
        -FP_BOUND <= b <= FP_BOUND,
    ensures
        r == a * b,
{
    proof {
        assert(-(FP_BOUND as int) * (FP_BOUND as int) <= a * b <= (FP_BOUND as int) * (
        FP_BOUND as int)) by (nonlinear_arith)
            requires
                -FP_BOUND <= a <= FP_BOUND,
                -FP_BOUND <= b <= FP_BOUND,
        ;
    }
    a * b
}

/// Flooring division of raw scalars.
pub fn div_floor(a: i128, b: i128) -> (r: i128)
    requires
        b != 0,
        -DIV_BOUND <= a <= DIV_BOUND,
        -DIV_BOUND <= b <= DIV_BOUND,
    ensures
        r == floor_div(a as int, b as int),
{
    let a2: i128 = if b < 0 {
        -a
    } else {
        a
    };
    let b2: i128 = if b < 0 {
        -b
    } else {
        b
    };
    if a2 >= 0 {
        a2 / b2
    } else {
        let na: i128 = -a2;
        let q: i128 = na / b2;
        let rem: i128 = na % b2;
        proof {
            lemma_fundamental_div_mod(na as int, b2 as int);
            lemma_mod_division_less_than_divisor(na as int, b2 as int);
            lemma_div_pos_is_pos(na as int, b2 as int);
            if rem == 0 {
                assert(a2 as int == (b2 as int) * (-(q as int)) + 0) by (nonlinear_arith)
                    requires
                        na as int == (b2 as int) * (q as int) + (rem as int),
                        rem == 0,
                        a2 as int == -(na as int),
                ;
                lemma_euclid_unique(a2 as int, b2 as int, -(q as int), 0);
            } else {
                assert(a2 as int == (b2 as int) * (-(q as int) - 1) + ((b2 as int) - (rem as int)))
                    by (nonlinear_arith)
                    requires
                        na as int == (b2 as int) * (q as int) + (rem as int),
                        a2 as int == -(na as int),
                ;
                lemma_euclid_unique(
                    a2 as int,
                    b2 as int,
                    -(q as int) - 1,
                    (b2 as int) - (rem as int),
                );
            }
        }
        if rem == 0 {
            -q
        } else {
            -q - 1
        }
    }
}

/// Fixed-point product with rescaling.
pub fn fp_mul(a: i128, b: i128) -> (r: i128)
    requires
        -FP_BOUND <= a <= FP_BOUND,
        -FP_BOUND <= b <= FP_BOUND,
    ensures
        r == fmul(a as int, b as int),
{
    let p: i128 = mul_raw(a, b);
    proof {
        assert(-DIV_BOUND <= (a as int) * (b as int) <= DIV_BOUND) by (nonlinear_arith)
            requires
                -FP_BOUND <= a <= FP_BOUND,
                -FP_BOUND <= b <= FP_BOUND,
        ;
    }
    div_floor(p, ONE)
}

/// Fixed-point quotient with rescaling.
pub fn fp_div(a: i128, b: i128) -> (r: i128)
    requires
        b != 0,
        -FP_BOUND <= a <= FP_BOUND,
        -DIV_BOUND <= b <= DIV_BOUND,
    ensures
        r == fdiv(a as int, b as int),
{
    let n: i128 = a * ONE;
    div_floor(n, b)
}

/// Integer square root of an arbitrary u128, rounded down.
pub fn isqrt(n: u128) -> (r: u128)
    ensures
        r as int == sqrt_floor(n as int),
        r <= 0xFFFF_FFFF_FFFF_FFFFu128,
{
    let mut lo: u128 = 0;
    let mut hi: u128 = 0x1_0000_0000_0000_0000;
    proof {
        assert((n as int) < (hi as int) * (hi as int)) by (nonlinear_arith)
            requires
                hi == 0x1_0000_0000_0000_0000u128,
                n <= u128::MAX,
        ;
    }
    while lo + 1 < hi
        invariant
            0 <= lo < hi <= 0x1_0000_0000_0000_0000u128,
            (lo as int) * (lo as int) <= n as int,
            (n as int) < (hi as int) * (hi as int),
        decreases hi - lo,
    {
        let mid: u128 = lo + (hi - lo) / 2;
        proof {
            assert((mid as int) * (mid as int) <= 0xFFFF_FFFF_FFFF_FFFE_0000_0000_0000_0001)
                by (nonlinear_arith)
                requires
                    0 <= mid <= 0xFFFF_FFFF_FFFF_FFFFu128,
            ;
        }
        if mid * mid <= n {
            lo = mid;
        } else {
            hi = mid;
        }
    }
    proof {
        lemma_sqrt_floor_unique(n as int, lo as int);
    }
    lo
}

/// Fixed-point square root of a nonnegative scalar.
pub fn fp_sqrt(x: i128) -> (r: i128)
    requires
        0 <= x <= SQRT_BOUND,
    ensures
        r == fsqrt(x as int),
        0 <= r <= 0xFFFF_FFFF_FFFF_FFFFi128,
{
    let n: u128 = (x as u128) * (ONE as u128);
    let r: u128 = isqrt(n);
    r as i128
}

/// Clamp a scalar into [lo, hi].
pub fn clamp_fp(x: i128, lo: i128, hi: i128) -> (r: i128)
    requires
        lo <= hi,
    ensures
        r == clamp_spec(x as int, lo as int, hi as int),
{
    if x < lo {
        lo
    } else if x > hi {
        hi
    } else {
        x
    }
}

} // verus!
