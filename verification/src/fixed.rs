//! Fixed-point scalar arithmetic.
//!
//! A raw `i64` value `r` stands for the real number `r / SCALE`.  All
//! operations round toward negative infinity (floor), which is what the
//! Euclidean `/` of specification integers computes for a positive divisor.

use vstd::prelude::*;
use vstd::arithmetic::div_mod::{
    lemma_div_is_ordered, lemma_fundamental_div_mod, lemma_fundamental_div_mod_converse,
};

verus! {

/// One whole unit: the raw value standing for the real number 1.
pub const SCALE: i64 = 65536;

/// pi in fixed point: round(pi * SCALE).
pub const PI_FX: i64 = 205887;

/// Divisor taking degrees (raw) to radians (raw): 180 * SCALE.
pub const DEG_DEN: i64 = 180 * 65536;

/// Fixed-point product: floor of (a * b) / SCALE.
pub open spec fn fmul_s(a: int, b: int) -> int {
    (a * b) / (SCALE as int)
}

/// Fixed-point quotient: floor of (a * SCALE) / b.
pub open spec fn fdiv_s(a: int, b: int) -> int {
    (a * (SCALE as int)) / b
}

/// Operands admitted to `fmul`: the product of the raw values stays within
/// 2^78, so the quotient by SCALE stays within 2^62.
pub open spec fn fmul_ok(a: int, b: int) -> bool {
    -(0x4000_0000_0000_0000 * 0x10000) <= a * b <= 0x4000_0000_0000_0000 * 0x10000
}

/// `r` is the integer square root of `n`: the floor of the real square root.
pub open spec fn is_isqrt(n: int, r: int) -> bool {
    0 <= r && r * r <= n && n < (r + 1) * (r + 1)
}

/// The integer square root of `n`, pinned by `lemma_sqrt_floor` for n >= 0.
pub open spec fn sqrt_floor(n: int) -> int {
    choose|r: int| is_isqrt(n, r)
}

/// Magnitude bound: |a * b| <= aa * bb whenever |a| <= aa and |b| <= bb.
pub proof fn lemma_mul_le(a: int, b: int, aa: int, bb: int)
    requires
        -aa <= a <= aa,
        -bb <= b <= bb,
    ensures
        -(aa * bb) <= a * b <= aa * bb,
{
    assert(-(aa * bb) <= a * b <= aa * bb) by (nonlinear_arith)
        requires
            -aa <= a <= aa,
            -bb <= b <= bb,
    ;
}

proof fn lemma_isqrt_exists(n: int) -> (r: int)
    requires
        0 <= n,
    ensures
        is_isqrt(n, r),
    decreases n,
{
    if n == 0 {
        assert(0 * 0 <= 0 < (0 + 1) * (0 + 1)) by (nonlinear_arith);
        assert(is_isqrt(0, 0));
        0
    } else {
        let p = lemma_isqrt_exists(n - 1);
        if (p + 1) * (p + 1) <= n {
            assert(n == (p + 1) * (p + 1));
            assert(n < (p + 2) * (p + 2)) by (nonlinear_arith)
                requires
                    0 <= p,
                    n == (p + 1) * (p + 1),
            ;
            assert(is_isqrt(n, p + 1));
            p + 1
        } else {
            assert(is_isqrt(n, p));
            p
        }
    }
}

/// Two integer square roots of the same number are equal.
pub proof fn lemma_isqrt_unique(n: int, r1: int, r2: int)
    requires
        is_isqrt(n, r1),
        is_isqrt(n, r2),
    ensures
        r1 == r2,
{
    assert(r1 == r2) by (nonlinear_arith)
        requires
            0 <= r1 && r1 * r1 <= n && n < (r1 + 1) * (r1 + 1),
            0 <= r2 && r2 * r2 <= n && n < (r2 + 1) * (r2 + 1),
    ;
}

/// For n >= 0, `sqrt_floor(n)` really is the integer square root of n.
pub proof fn lemma_sqrt_floor(n: int)
    requires
        0 <= n,
    ensures
        is_isqrt(n, sqrt_floor(n)),
{
    let w = lemma_isqrt_exists(n);
    assert(is_isqrt(n, w));
}

/// Floor division of `p` by a positive divisor `d`, agreeing with the
/// Euclidean `/` of specification integers.
fn floor_div_i128(p: i128, d: i128) -> (q: i128)
    requires
        0 < d,
        -0x4000_0000_0000_0000_0000_0000_0000_0000 < p
            < 0x4000_0000_0000_0000_0000_0000_0000_0000,
    ensures
        q == (p as int) / (d as int),
{
    if p >= 0 {
        p / d
    } else {
        let m: i128 = -p;
        let q0: i128 = m / d;
        let r0: i128 = m % d;
        proof {
            lemma_fundamental_div_mod(m as int, d as int);
            assert(m as int == (d as int) * (q0 as int) + (r0 as int));
            assert(0 <= r0 < d);
        }
        if r0 == 0 {
            proof {
                assert(p as int == (-(q0 as int)) * (d as int) + 0) by (nonlinear_arith)
                    requires
                        p as int == -(m as int),
                        m as int == (d as int) * (q0 as int),
                ;
                lemma_fundamental_div_mod_converse(p as int, d as int, -(q0 as int), 0);
            }
            -q0
        } else {
            proof {
                assert(p as int == (-(q0 as int) - 1) * (d as int) + ((d as int) - (r0 as int)))
                    by (nonlinear_arith)
                    requires
                        p as int == -(m as int),
                        m as int == (d as int) * (q0 as int) + (r0 as int),
                ;
                lemma_fundamental_div_mod_converse(
                    p as int,
                    d as int,
                    -(q0 as int) - 1,
                    (d as int) - (r0 as int),
                );
            }
            -q0 - 1
        }
    }
}

/// Fixed-point multiplication, exact to the spec-level `fmul_s`.
pub fn fmul(a: i64, b: i64) -> (r: i64)
    requires
        fmul_ok(a as int, b as int),
    ensures
        r == fmul_s(a as int, b as int),
        -0x4000_0000_0000_0000 <= r <= 0x4000_0000_0000_0000,
{
    let p: i128 = (a as i128) * (b as i128);
    proof {
        let hi: int = (0x4000_0000_0000_0000 as int) * (0x10000 as int);
        lemma_div_is_ordered(p as int, hi, SCALE as int);
        lemma_div_is_ordered(-hi, p as int, SCALE as int);
        assert(hi / (SCALE as int) == 0x4000_0000_0000_0000 as int);
        assert((-hi) / (SCALE as int) == -(0x4000_0000_0000_0000 as int));
    }
    let q: i128 = floor_div_i128(p, 65536);
    q as i64
}

/// Fixed-point division by a positive divisor, exact to `fdiv_s`.
pub fn fdiv(a: i64, b: i64) -> (r: i64)
    requires
        0 < b,
        -0x4000_0000_0000_0000 <= fdiv_s(a as int, b as int) <= 0x4000_0000_0000_0000,
    ensures
        r == fdiv_s(a as int, b as int),
        -0x4000_0000_0000_0000 <= r <= 0x4000_0000_0000_0000,
{
    let p: i128 = (a as i128) * 65536;
    let q: i128 = floor_div_i128(p, b as i128);
    q as i64
}

/// Quotient magnitude bound: a numerator within 2^62 over a divisor >= 1
/// gives a fixed-point quotient within 2^62.
pub proof fn lemma_fdiv_bound(a: int, b: int)
    requires
        1 <= b,
        -0x4000_0000_0000 <= a <= 0x4000_0000_0000,
    ensures
        -0x4000_0000_0000_0000 <= fdiv_s(a, b) <= 0x4000_0000_0000_0000,
{
    let n = a * (SCALE as int);
    assert(-0x4000_0000_0000_0000 <= n <= 0x4000_0000_0000_0000);
    assert(0x4000_0000_0000_0000 <= 0x4000_0000_0000_0000 * b) by (nonlinear_arith)
        requires
            1 <= b,
    ;
    lemma_div_is_ordered(n, 0x4000_0000_0000_0000 * b, b);
    lemma_div_is_ordered(-(0x4000_0000_0000_0000 * b), n, b);
    assert((0x4000_0000_0000_0000 * b) / b == 0x4000_0000_0000_0000) by (nonlinear_arith)
        requires
            1 <= b,
    ;
    assert((-(0x4000_0000_0000_0000 * b)) / b == -0x4000_0000_0000_0000) by (nonlinear_arith)
        requires
            1 <= b,
    ;
}

/// Helper: floor division of a negated nonnegative number.
pub proof fn lemma_neg_div(x: int, d: int)
    requires
        0 <= x,
        0 < d,
    ensures
        -(x / d) - 1 <= (-x) / d <= 0,
{
    lemma_fundamental_div_mod(x, d);
    let q = x / d;
    let r = x % d;
    if r == 0 {
        assert(-x == d * (-q) + 0) by (nonlinear_arith)
            requires
                x == d * q + r,
                r == 0,
        ;
        lemma_fundamental_div_mod_converse(-x, d, -q, 0);
    } else {
        assert(-x == d * (-q - 1) + (d - r)) by (nonlinear_arith)
            requires
                x == d * q + r,
        ;
        lemma_fundamental_div_mod_converse(-x, d, -q - 1, d - r);
    }
    lemma_div_is_ordered(0, x, d);
}

/// Magnitude bound on a fixed-point product of bounded raw values.
pub proof fn lemma_fmul_s_in(a: int, b: int, aa: int, bb: int)
    requires
        -aa <= a <= aa,
        -bb <= b <= bb,
        0 <= aa,
        0 <= bb,
    ensures
        -((aa * bb) / (SCALE as int)) - 1 <= fmul_s(a, b) <= (aa * bb) / (SCALE as int),
{
    let s = SCALE as int;
    let p = aa * bb;
    assert(0 <= p) by (nonlinear_arith)
        requires
            0 <= aa,
            0 <= bb,
            p == aa * bb,
    ;
    lemma_mul_le(a, b, aa, bb);
    lemma_div_is_ordered(a * b, p, s);
    lemma_neg_div(p, s);
    lemma_div_is_ordered(-p, a * b, s);
}

/// Quotient magnitude bound from a lower bound on the divisor: a numerator
/// within `ab` over a divisor at least `bmin` gives a fixed-point quotient
/// within (ab * SCALE) / bmin + 1.
pub proof fn lemma_fdiv_divisor_bound(a: int, b: int, ab: int, bmin: int)
    requires
        1 <= bmin <= b,
        -ab <= a <= ab,
        0 <= ab,
    ensures
        -((ab * (SCALE as int)) / bmin) - 1 <= fdiv_s(a, b) <= (ab * (SCALE as int)) / bmin,
{
    let s = SCALE as int;
    let n = a * s;
    let hi = ab * s;
    assert(-hi <= n <= hi) by (nonlinear_arith)
        requires
            -ab <= a <= ab,
            0 <= ab,
            n == a * s,
            hi == ab * s,
            s == 65536,
    ;
    if a >= 0 {
        lemma_div_is_ordered(0, n, b);
        lemma_div_is_ordered(n, hi, b);
        vstd::arithmetic::div_mod::lemma_div_is_ordered_by_denominator(hi, bmin, b);
        assert(n / b <= hi / b <= hi / bmin);
    } else {
        lemma_div_is_ordered(-n, hi, b);
        vstd::arithmetic::div_mod::lemma_div_is_ordered_by_denominator(hi, bmin, b);
        assert((-n) / b <= hi / bmin);
        // floor division of the negation bounds the original from below
        lemma_fundamental_div_mod(-n, b);
        let q = (-n) / b;
        let r = (-n) % b;
        if r == 0 {
            assert(n == b * (-q) + 0) by (nonlinear_arith)
                requires
                    -n == b * q,
            ;
            lemma_fundamental_div_mod_converse(n, b, -q, 0);
        } else {
            assert(n == b * (-q - 1) + (b - r)) by (nonlinear_arith)
                requires
                    -n == b * q + r,
            ;
            lemma_fundamental_div_mod_converse(n, b, -q - 1, b - r);
        }
        lemma_div_is_ordered(0, -n, b);
        lemma_div_is_ordered(n, 0, b);
        lemma_div_is_ordered(0, hi, bmin);
    }
}

/// Fixed-point square root: the integer square root of a * SCALE, so that the
/// result is again a raw fixed-point value.
pub fn fx_sqrt(a: i64) -> (r: i64)
    requires
        0 <= a,
    ensures
        r == sqrt_floor(a * (SCALE as int)),
        is_isqrt(a * (SCALE as int), r as int),
        0 <= r < 0x200_0000_0000,
{
    let n: u128 = (a as u128) * 65536;
    let mut lo: u128 = 0;
    let mut hi: u128 = 0x200_0000_0000;
    proof {
        assert((n as int) < (hi as int) * (hi as int)) by (nonlinear_arith)
            requires
                n < 0x8000_0000_0000_0000 * 0x10000,
                hi == 0x200_0000_0000,
        ;
    }
    while lo + 1 < hi
        invariant
            (lo as int) * (lo as int) <= n as int,
            (n as int) < (hi as int) * (hi as int),
            lo < hi <= 0x200_0000_0000,
        decreases hi - lo,
    {
        let mid: u128 = lo + (hi - lo) / 2;
        proof {
            assert((mid as int) * (mid as int) <= 0x200_0000_0000 * 0x200_0000_0000)
                by (nonlinear_arith)
                requires
                    0 <= mid <= 0x200_0000_0000,
            ;
        }
        if mid * mid <= n {
            lo = mid;
        } else {
            hi = mid;
        }
    }
    proof {
        assert(is_isqrt(n as int, lo as int));
        lemma_sqrt_floor(n as int);
        lemma_isqrt_unique(n as int, lo as int, sqrt_floor(n as int));
    }
    lo as i64
}

/// Floor division of a raw value by a positive constant divisor.
pub fn idiv(x: i64, d: i64) -> (r: i64)
    requires
        0 < d,
    ensures
        r == (x as int) / (d as int),
{
    let q: i128 = floor_div_i128(x as i128, d as i128);
    proof {
        if x >= 0 {
            vstd::arithmetic::div_mod::lemma_div_pos_is_pos(x as int, d as int);
            vstd::arithmetic::div_mod::lemma_div_nonincreasing(x as int, d as int);
        } else {
            assert((x as int) * (d as int) <= x as int) by (nonlinear_arith)
                requires
                    x < 0,
                    1 <= d,
            ;
            lemma_div_is_ordered((x as int) * (d as int), x as int, d as int);
            vstd::arithmetic::div_mod::lemma_div_multiples_vanish(x as int, d as int);
            lemma_div_is_ordered(x as int, 0, d as int);
        }
    }
    q as i64
}

/// Truncated Taylor sine of a raw angle in radians:
/// x - x^3/6 + x^5/120 - x^7/5040, products rounded in fixed point.
pub open spec fn sin_s(x: int) -> int {
    let x2 = fmul_s(x, x);
    let x3 = fmul_s(x2, x);
    let x5 = fmul_s(x3, x2);
    let x7 = fmul_s(x5, x2);
    x - x3 / 6 + x5 / 120 - x7 / 5040
}

/// Truncated Taylor cosine of a raw angle in radians:
/// 1 - x^2/2 + x^4/24 - x^6/720, products rounded in fixed point.
pub open spec fn cos_s(x: int) -> int {
    let x2 = fmul_s(x, x);
    let x4 = fmul_s(x2, x2);
    let x6 = fmul_s(x4, x2);
    (SCALE as int) - x2 / 2 + x4 / 24 - x6 / 720
}

/// Truncated Taylor sine, for angles in [0, 2] radians.
pub fn sin_fx(x: i64) -> (r: i64)
    requires
        0 <= x <= 131072,
    ensures
        r == sin_s(x as int),
        -0x100_0000 <= r <= 0x100_0000,
{
    proof {
        lemma_fmul_s_in(x as int, x as int, 131072, 131072);
    }
    let x2: i64 = fmul(x, x);
    proof {
        lemma_fmul_s_in(x2 as int, x as int, 262145, 131072);
    }
    let x3: i64 = fmul(x2, x);
    proof {
        lemma_fmul_s_in(x3 as int, x2 as int, 524291, 262145);
    }
    let x5: i64 = fmul(x3, x2);
    proof {
        lemma_fmul_s_in(x5 as int, x2 as int, 2097173, 262145);
    }
    let x7: i64 = fmul(x5, x2);
    let a: i64 = idiv(x3, 6);
    let b: i64 = idiv(x5, 120);
    let c: i64 = idiv(x7, 5040);
    proof {
        lemma_div_is_ordered(x3 as int, 524291, 6);
        lemma_div_is_ordered(-524291, x3 as int, 6);
        lemma_div_is_ordered(x5 as int, 2097173, 120);
        lemma_div_is_ordered(-2097173, x5 as int, 120);
        lemma_div_is_ordered(x7 as int, 8388725, 5040);
        lemma_div_is_ordered(-8388725, x7 as int, 5040);
    }
    x - a + b - c
}

/// Truncated Taylor cosine, for angles in [0, 2] radians.
pub fn cos_fx(x: i64) -> (r: i64)
    requires
        0 <= x <= 131072,
    ensures
        r == cos_s(x as int),
        -0x100_0000 <= r <= 0x100_0000,
{
    proof {
        lemma_fmul_s_in(x as int, x as int, 131072, 131072);
    }
    let x2: i64 = fmul(x, x);
    proof {
        lemma_fmul_s_in(x2 as int, x2 as int, 262145, 262145);
    }
    let x4: i64 = fmul(x2, x2);
    proof {
        lemma_fmul_s_in(x4 as int, x2 as int, 1048585, 262145);
    }
    let x6: i64 = fmul(x4, x2);
    let a: i64 = idiv(x2, 2);
    let b: i64 = idiv(x4, 24);
    let c: i64 = idiv(x6, 720);
    proof {
        lemma_div_is_ordered(x2 as int, 262145, 2);
        lemma_div_is_ordered(-262145, x2 as int, 2);
        lemma_div_is_ordered(x4 as int, 1048585, 24);
        lemma_div_is_ordered(-1048585, x4 as int, 24);
        lemma_div_is_ordered(x6 as int, 4194357, 720);
        lemma_div_is_ordered(-4194357, x6 as int, 720);
    }
    SCALE - a + b - c
}

pub open spec fn clamp_s(x: int, min: int, max: int) -> int {
    if x < min {
        min
    } else if x > max {
        max
    } else {
        x
    }
}

/// Clamp `x` into [min, max] (first bound wins if the interval is empty).
pub fn clamp(x: i64, min: i64, max: i64) -> (r: i64)
    ensures
        r == clamp_s(x as int, min as int, max as int),
{
    if x < min {
        return min;
    }
    if x > max {
        return max;
    }
    x
}

/// Degrees (raw) to radians (raw): floor of (d * PI_FX) / (180 * SCALE).
pub open spec fn deg2rad_s(d: int) -> int {
    (d * (PI_FX as int)) / (DEG_DEN as int)
}

pub fn degrees_to_radians(d: i64) -> (r: i64)
    ensures
        r == deg2rad_s(d as int),
        -(i64::MAX as int) <= r <= i64::MAX as int,
{
    let p: i128 = (d as i128) * 205887;
    let q: i128 = floor_div_i128(p, 11796480);
    proof {
        lemma_div_is_ordered(p as int, i64::MAX as int * 11796480, 11796480);
        lemma_div_is_ordered(-(i64::MAX as int) * 11796480, p as int, 11796480);
        assert((i64::MAX as int * 11796480) / 11796480 == i64::MAX as int);
        assert((-(i64::MAX as int) * 11796480) / 11796480 == -(i64::MAX as int));
    }
    q as i64
}

} // verus!
