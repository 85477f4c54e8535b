//! 3D vectors over fixed-point scalars, with exact spec-level mirrors.
//!
//! `Vec3` holds raw fixed-point components; `V3i` is its mathematical view
//! with unbounded integer components.  Every executable operation is proved
//! equal to its spec mirror on all admitted inputs.

use vstd::prelude::*;
use vstd::arithmetic::div_mod::{
    lemma_div_is_ordered, lemma_div_multiples_vanish, lemma_fundamental_div_mod,
};
use crate::fixed;
use crate::fixed::{fmul_s, fdiv_s, fmul_ok, is_isqrt, sqrt_floor, lemma_neg_div, SCALE};

verus! {

/// Componentwise magnitude below which a vector counts as near zero
/// (about 0.01 in real terms): the fixed-point stand-in for a tiny epsilon.
pub const NEAR_ZERO_FX: i64 = 655;

#[derive(Clone, Copy, PartialEq, Eq, Structural, Debug)]
pub struct Vec3 {
    pub x: i64,
    pub y: i64,
    pub z: i64,
}

/// Mathematical view of a vector: unbounded integer components.
pub ghost struct V3i {
    pub x: int,
    pub y: int,
    pub z: int,
}

impl View for Vec3 {
    type V = V3i;

    open spec fn view(&self) -> V3i {
        V3i { x: self.x as int, y: self.y as int, z: self.z as int }
    }
}

pub open spec fn vi(x: int, y: int, z: int) -> V3i {
    V3i { x: x, y: y, z: z }
}

pub open spec fn add_i(a: V3i, b: V3i) -> V3i {
    vi(a.x + b.x, a.y + b.y, a.z + b.z)
}

pub open spec fn sub_i(a: V3i, b: V3i) -> V3i {
    vi(a.x - b.x, a.y - b.y, a.z - b.z)
}

pub open spec fn neg_i(a: V3i) -> V3i {
    vi(-a.x, -a.y, -a.z)
}

/// Componentwise fixed-point scaling by the raw scalar t.
pub open spec fn scale_i(t: int, a: V3i) -> V3i {
    vi(fmul_s(t, a.x), fmul_s(t, a.y), fmul_s(t, a.z))
}

/// Fixed-point dot product: the sum of the three rounded products.
pub open spec fn dot_i(a: V3i, b: V3i) -> int {
    fmul_s(a.x, b.x) + fmul_s(a.y, b.y) + fmul_s(a.z, b.z)
}

pub open spec fn cross_i(a: V3i, b: V3i) -> V3i {
    vi(
        fmul_s(a.y, b.z) - fmul_s(a.z, b.y),
        fmul_s(a.z, b.x) - fmul_s(a.x, b.z),
        fmul_s(a.x, b.y) - fmul_s(a.y, b.x),
    )
}

/// All components within [-b, b].
pub open spec fn vi_in(a: V3i, b: int) -> bool {
    -b <= a.x <= b && -b <= a.y <= b && -b <= a.z <= b
}

/// A pair of raw scalars whose product stays within 2^76, so a fixed-point
/// product of them stays within 2^60.
pub open spec fn mul76_ok(a: int, b: int) -> bool {
    -(0x1000_0000_0000_0000 * 0x10000) <= a * b <= 0x1000_0000_0000_0000 * 0x10000
}

pub open spec fn dot_ok(a: V3i, b: V3i) -> bool {
    mul76_ok(a.x, b.x) && mul76_ok(a.y, b.y) && mul76_ok(a.z, b.z)
}

pub open spec fn cross_ok(a: V3i, b: V3i) -> bool {
    mul76_ok(a.y, b.z) && mul76_ok(a.z, b.y) && mul76_ok(a.z, b.x) && mul76_ok(a.x, b.z)
        && mul76_ok(a.x, b.y) && mul76_ok(a.y, b.x)
}

/// Bounded vectors admit a cross product.
pub proof fn lemma_cross_ok(a: V3i, b: V3i, aa: int, bb: int)
    requires
        vi_in(a, aa),
        vi_in(b, bb),
        0 <= aa,
        0 <= bb,
        aa * bb <= 0x1000_0000_0000_0000 * 0x10000,
    ensures
        cross_ok(a, b),
{
    lemma_mul76(a.y, b.z, aa, bb);
    lemma_mul76(a.z, b.y, aa, bb);
    lemma_mul76(a.z, b.x, aa, bb);
    lemma_mul76(a.x, b.z, aa, bb);
    lemma_mul76(a.x, b.y, aa, bb);
    lemma_mul76(a.y, b.x, aa, bb);
}

/// A product within 2^76 gives a fixed-point product within 2^60.
pub proof fn lemma_fmul_s_76(a: int, b: int)
    requires
        mul76_ok(a, b),
    ensures
        fmul_ok(a, b),
        -0x1000_0000_0000_0000 <= fmul_s(a, b) <= 0x1000_0000_0000_0000,
{
    let hi: int = (0x1000_0000_0000_0000 as int) * (0x10000 as int);
    lemma_div_is_ordered(a * b, hi, SCALE as int);
    lemma_div_is_ordered(-hi, a * b, SCALE as int);
    assert(hi / (SCALE as int) == 0x1000_0000_0000_0000 as int);
    assert((-hi) / (SCALE as int) == -(0x1000_0000_0000_0000 as int));
}

/// Bounded components give a bounded product: |a| <= aa and |b| <= bb with
/// aa * bb within 2^76 admit the pair to a fixed-point product.
pub proof fn lemma_mul76(a: int, b: int, aa: int, bb: int)
    requires
        -aa <= a <= aa,
        -bb <= b <= bb,
        aa * bb <= 0x1000_0000_0000_0000 * 0x10000,
    ensures
        mul76_ok(a, b),
{
    fixed::lemma_mul_le(a, b, aa, bb);
}

/// Bounded vectors admit a dot product.
pub proof fn lemma_dot_ok(a: V3i, b: V3i, aa: int, bb: int)
    requires
        vi_in(a, aa),
        vi_in(b, bb),
        0 <= aa,
        0 <= bb,
        aa * bb <= 0x1000_0000_0000_0000 * 0x10000,
    ensures
        dot_ok(a, b),
{
    lemma_mul76(a.x, b.x, aa, bb);
    lemma_mul76(a.y, b.y, aa, bb);
    lemma_mul76(a.z, b.z, aa, bb);
}

/// The fixed-point dot product of a vector with itself is nonnegative.
pub proof fn lemma_dot_self_nonneg(a: V3i)
    ensures
        0 <= dot_i(a, a),
{
    assert(0 <= a.x * a.x && 0 <= a.y * a.y && 0 <= a.z * a.z) by (nonlinear_arith);
    lemma_div_is_ordered(0, a.x * a.x, SCALE as int);
    lemma_div_is_ordered(0, a.y * a.y, SCALE as int);
    lemma_div_is_ordered(0, a.z * a.z, SCALE as int);
}

impl Vec3 {
    pub fn new(x: i64, y: i64, z: i64) -> (r: Vec3)
        ensures
            r@ == vi(x as int, y as int, z as int),
    {
        Vec3 { x, y, z }
    }

    pub fn zero() -> (r: Vec3)
        ensures
            r@ == vi(0, 0, 0),
    {
        Vec3 { x: 0, y: 0, z: 0 }
    }

    pub fn add(self, o: Vec3) -> (r: Vec3)
        requires
            vi_in(self@, 0x2000_0000_0000_0000),
            vi_in(o@, 0x2000_0000_0000_0000),
        ensures
            r@ == add_i(self@, o@),
    {
        Vec3 { x: self.x + o.x, y: self.y + o.y, z: self.z + o.z }
    }

    pub fn sub(self, o: Vec3) -> (r: Vec3)
        requires
            vi_in(self@, 0x2000_0000_0000_0000),
            vi_in(o@, 0x2000_0000_0000_0000),
        ensures
            r@ == sub_i(self@, o@),
    {
        Vec3 { x: self.x - o.x, y: self.y - o.y, z: self.z - o.z }
    }

    pub fn neg(self) -> (r: Vec3)
        requires
            vi_in(self@, 0x4000_0000_0000_0000),
        ensures
            r@ == neg_i(self@),
    {
        Vec3 { x: -self.x, y: -self.y, z: -self.z }
    }

    /// Componentwise fixed-point scaling by the raw scalar t.
    pub fn scale(self, t: i64) -> (r: Vec3)
        requires
            mul76_ok(t as int, self@.x),
            mul76_ok(t as int, self@.y),
            mul76_ok(t as int, self@.z),
        ensures
            r@ == scale_i(t as int, self@),
            vi_in(r@, 0x1000_0000_0000_0000),
    {
        proof {
            lemma_fmul_s_76(t as int, self@.x);
            lemma_fmul_s_76(t as int, self@.y);
            lemma_fmul_s_76(t as int, self@.z);
        }
        Vec3 {
            x: fixed::fmul(t, self.x),
            y: fixed::fmul(t, self.y),
            z: fixed::fmul(t, self.z),
        }
    }

    pub fn dot(self, o: Vec3) -> (r: i64)
        requires
            dot_ok(self@, o@),
        ensures
            r == dot_i(self@, o@),
            -0x3000_0000_0000_0000 <= r <= 0x3000_0000_0000_0000,
    {
        proof {
            lemma_fmul_s_76(self@.x, o@.x);
            lemma_fmul_s_76(self@.y, o@.y);
            lemma_fmul_s_76(self@.z, o@.z);
        }
        let a: i64 = fixed::fmul(self.x, o.x);
        let b: i64 = fixed::fmul(self.y, o.y);
        let c: i64 = fixed::fmul(self.z, o.z);
        a + b + c
    }

    pub fn cross(self, o: Vec3) -> (r: Vec3)
        requires
            cross_ok(self@, o@),
        ensures
            r@ == cross_i(self@, o@),
            vi_in(r@, 0x2000_0000_0000_0000),
    {
        proof {
            lemma_fmul_s_76(self@.y, o@.z);
            lemma_fmul_s_76(self@.z, o@.y);
            lemma_fmul_s_76(self@.z, o@.x);
            lemma_fmul_s_76(self@.x, o@.z);
            lemma_fmul_s_76(self@.x, o@.y);
            lemma_fmul_s_76(self@.y, o@.x);
        }
        Vec3 {
            x: fixed::fmul(self.y, o.z) - fixed::fmul(self.z, o.y),
            y: fixed::fmul(self.z, o.x) - fixed::fmul(self.x, o.z),
            z: fixed::fmul(self.x, o.y) - fixed::fmul(self.y, o.x),
        }
    }

    /// Squared length as a raw fixed-point value.
    pub fn length_squared(self) -> (r: i64)
        requires
            dot_ok(self@, self@),
        ensures
            r == dot_i(self@, self@),
            0 <= r <= 0x3000_0000_0000_0000,
    {
        proof {
            lemma_dot_self_nonneg(self@);
        }
        self.dot(self)
    }

    /// Length as a raw fixed-point value: the rounded square root of the
    /// fixed-point squared length.
    pub fn length(self) -> (r: i64)
        requires
            dot_ok(self@, self@),
        ensures
            r == sqrt_floor(dot_i(self@, self@) * (SCALE as int)),
            0 <= r,
    {
        let q: i64 = self.length_squared();
        fixed::fx_sqrt(q)
    }
}

/// Componentwise fixed-point division by the raw scalar d.
pub open spec fn div_scalar_i(a: V3i, d: int) -> V3i {
    vi(fdiv_s(a.x, d), fdiv_s(a.y, d), fdiv_s(a.z, d))
}

impl Vec3 {
    /// Componentwise fixed-point division by the positive raw scalar d.
    pub fn div_scalar(self, d: i64) -> (r: Vec3)
        requires
            0 < d,
            vi_in(self@, 0x4000_0000_0000),
        ensures
            r@ == div_scalar_i(self@, d as int),
            vi_in(r@, 0x4000_0000_0000_0000),
    {
        proof {
            fixed::lemma_fdiv_bound(self@.x, d as int);
            fixed::lemma_fdiv_bound(self@.y, d as int);
            fixed::lemma_fdiv_bound(self@.z, d as int);
        }
        Vec3 {
            x: fixed::fdiv(self.x, d),
            y: fixed::fdiv(self.y, d),
            z: fixed::fdiv(self.z, d),
        }
    }
}

/// Componentwise halving, rounding toward negative infinity.
pub open spec fn half_vi(a: V3i) -> V3i {
    vi(a.x / 2, a.y / 2, a.z / 2)
}

/// Componentwise halving, rounding toward negative infinity.
pub fn half_v(a: Vec3) -> (r: Vec3)
    ensures
        r@ == half_vi(a@),
{
    Vec3 {
        x: fixed::idiv(a.x, 2),
        y: fixed::idiv(a.y, 2),
        z: fixed::idiv(a.z, 2),
    }
}

/// Halving keeps a componentwise bound.
pub proof fn lemma_half_bound(a: V3i, b: int)
    requires
        vi_in(a, 2 * b),
        0 <= b,
    ensures
        vi_in(half_vi(a), b),
{
    lemma_div_is_ordered(a.x, 2 * b, 2);
    lemma_div_is_ordered(a.y, 2 * b, 2);
    lemma_div_is_ordered(a.z, 2 * b, 2);
    lemma_div_is_ordered(-(2 * b), a.x, 2);
    lemma_div_is_ordered(-(2 * b), a.y, 2);
    lemma_div_is_ordered(-(2 * b), a.z, 2);
    assert((2 * b) / 2 == b);
    assert((-(2 * b)) / 2 == -b);
}

/// The fixed-point length of v: the rounded square root of the fixed-point
/// squared length, again a raw value.
pub open spec fn len_i(v: V3i) -> int {
    sqrt_floor(dot_i(v, v) * (SCALE as int))
}

/// The normalized direction of v, componentwise fixed-point division by the
/// length.
pub open spec fn unit_i(v: V3i) -> V3i {
    vi(fdiv_s(v.x, len_i(v)), fdiv_s(v.y, len_i(v)), fdiv_s(v.z, len_i(v)))
}

/// A vector with positive fixed-point squared length has positive length.
pub proof fn lemma_len_pos(v: V3i)
    requires
        1 <= dot_i(v, v),
    ensures
        256 <= len_i(v),
        is_isqrt(dot_i(v, v) * (SCALE as int), len_i(v)),
{
    let n = dot_i(v, v) * (SCALE as int);
    assert((SCALE as int) <= n) by (nonlinear_arith)
        requires
            1 <= dot_i(v, v),
            n == dot_i(v, v) * (SCALE as int),
    ;
    fixed::lemma_sqrt_floor(n);
    let l = len_i(v);
    assert(256 <= l) by (nonlinear_arith)
        requires
            0 <= l,
            65536 <= n,
            n < (l + 1) * (l + 1),
    ;
}

pub fn unit_vector(v: Vec3) -> (r: Vec3)
    requires
        dot_ok(v@, v@),
        1 <= dot_i(v@, v@),
        vi_in(v@, 0x4000_0000_0000),
    ensures
        r@ == unit_i(v@),
        vi_in(r@, 0x4000_0000_0000_0000),
{
    proof {
        lemma_len_pos(v@);
        fixed::lemma_fdiv_bound(v@.x, len_i(v@));
        fixed::lemma_fdiv_bound(v@.y, len_i(v@));
        fixed::lemma_fdiv_bound(v@.z, len_i(v@));
    }
    let len: i64 = v.length();
    Vec3 {
        x: fixed::fdiv(v.x, len),
        y: fixed::fdiv(v.y, len),
        z: fixed::fdiv(v.z, len),
    }
}

/// For a vector of fixed-point squared length at least 1/256, the normalized
/// direction has components within SCALE + 400: it is a unit vector up to
/// rounding.
pub proof fn lemma_unit_bound(v: V3i)
    requires
        256 <= dot_i(v, v),
    ensures
        vi_in(unit_i(v), (SCALE as int) + 400),
{
    let s = SCALE as int;
    let n = dot_i(v, v) * s;
    assert(256 * 65536 <= n) by (nonlinear_arith)
        requires
            256 <= dot_i(v, v),
            n == dot_i(v, v) * s,
            s == 65536,
    ;
    fixed::lemma_sqrt_floor(n);
    let l = len_i(v);
    assert(4096 <= l) by (nonlinear_arith)
        requires
            0 <= l,
            16777216 <= n,
            n < (l + 1) * (l + 1),
    ;
    // Each component squared is at most the squared length plus rounding.
    lemma_fundamental_div_mod(v.x * v.x, s);
    lemma_fundamental_div_mod(v.y * v.y, s);
    lemma_fundamental_div_mod(v.z * v.z, s);
    assert(0 <= v.x * v.x && 0 <= v.y * v.y && 0 <= v.z * v.z) by (nonlinear_arith);
    lemma_div_is_ordered(0, v.x * v.x, s);
    lemma_div_is_ordered(0, v.y * v.y, s);
    lemma_div_is_ordered(0, v.z * v.z, s);
    assert(v.x * v.x + v.y * v.y + v.z * v.z <= n + 3 * s);
    lemma_unit_bound_comp(v.x, v, l, n);
    lemma_unit_bound_comp(v.y, v, l, n);
    lemma_unit_bound_comp(v.z, v, l, n);
}

/// One component of the normalization bound: |c * c| at most n + 3 * SCALE
/// with n below (l + 1)^2 and l at least 4096 gives |fdiv_s(c, l)| within
/// SCALE + 400.
proof fn lemma_unit_bound_comp(c: int, v: V3i, l: int, n: int)
    requires
        c * c <= n + 3 * (SCALE as int),
        n < (l + 1) * (l + 1),
        4096 <= l,
        l == len_i(v),
    ensures
        -((SCALE as int) + 400) <= fdiv_s(c, l) <= (SCALE as int) + 400,
{
    let s = SCALE as int;
    assert(-(l + 25) <= c <= l + 25) by (nonlinear_arith)
        requires
            c * c <= n + 3 * s,
            n < (l + 1) * (l + 1),
            4096 <= l,
            s == 65536,
    ;
    let hi = l * (s + 400);
    assert(-hi <= c * s <= hi) by (nonlinear_arith)
        requires
            -(l + 25) <= c <= l + 25,
            4096 <= l,
            s == 65536,
            hi == l * (s + 400),
    ;
    lemma_div_is_ordered(c * s, hi, l);
    lemma_div_is_ordered(-hi, c * s, l);
    lemma_div_multiples_vanish(s + 400, l);
    lemma_div_multiples_vanish(-(s + 400), l);
    assert(hi == l * (s + 400));
    assert(-hi == l * (-(s + 400)));
}

pub open spec fn near_zero_s(v: V3i) -> bool {
    -(NEAR_ZERO_FX as int) < v.x < NEAR_ZERO_FX as int
        && -(NEAR_ZERO_FX as int) < v.y < NEAR_ZERO_FX as int
        && -(NEAR_ZERO_FX as int) < v.z < NEAR_ZERO_FX as int
}

/// True iff the vector is close to zero in all dimensions.
pub fn near_zero(e: &Vec3) -> (r: bool)
    ensures
        r == near_zero_s(e@),
{
    e.x < NEAR_ZERO_FX && e.x > -NEAR_ZERO_FX && e.y < NEAR_ZERO_FX && e.y > -NEAR_ZERO_FX
        && e.z < NEAR_ZERO_FX && e.z > -NEAR_ZERO_FX
}

/// Mirror reflection of v about the normal n: v - 2 (v . n) n.
pub open spec fn reflect_i(v: V3i, n: V3i) -> V3i {
    sub_i(v, scale_i(2 * dot_i(v, n), n))
}

/// Magnitude bound on a fixed-point dot product of bounded vectors.
pub proof fn lemma_dot_bound(a: V3i, b: V3i, aa: int, bb: int)
    requires
        vi_in(a, aa),
        vi_in(b, bb),
        0 <= aa,
        0 <= bb,
    ensures
        -3 * ((aa * bb) / (SCALE as int)) - 3 <= dot_i(a, b) <= 3 * ((aa * bb) / (SCALE as int)),
{
    let s = SCALE as int;
    let p = aa * bb;
    fixed::lemma_mul_le(a.x, b.x, aa, bb);
    fixed::lemma_mul_le(a.y, b.y, aa, bb);
    fixed::lemma_mul_le(a.z, b.z, aa, bb);
    lemma_div_is_ordered(a.x * b.x, p, s);
    lemma_div_is_ordered(a.y * b.y, p, s);
    lemma_div_is_ordered(a.z * b.z, p, s);
    lemma_neg_div(p, s);
    lemma_div_is_ordered(-p, a.x * b.x, s);
    lemma_div_is_ordered(-p, a.y * b.y, s);
    lemma_div_is_ordered(-p, a.z * b.z, s);
}

/// Magnitude bound on a fixed-point scaling of a bounded vector.
pub proof fn lemma_scale_bound(t: int, a: V3i, tt: int, ab: int)
    requires
        -tt <= t <= tt,
        vi_in(a, ab),
        0 <= tt,
        0 <= ab,
    ensures
        vi_in(scale_i(t, a), (tt * ab) / (SCALE as int) + 1),
{
    let s = SCALE as int;
    let p = tt * ab;
    assert(0 <= p) by (nonlinear_arith)
        requires
            0 <= tt,
            0 <= ab,
            p == tt * ab,
    ;
    fixed::lemma_mul_le(t, a.x, tt, ab);
    fixed::lemma_mul_le(t, a.y, tt, ab);
    fixed::lemma_mul_le(t, a.z, tt, ab);
    lemma_div_is_ordered(t * a.x, p, s);
    lemma_div_is_ordered(t * a.y, p, s);
    lemma_div_is_ordered(t * a.z, p, s);
    lemma_neg_div(p, s);
    lemma_div_is_ordered(-p, t * a.x, s);
    lemma_div_is_ordered(-p, t * a.y, s);
    lemma_div_is_ordered(-p, t * a.z, s);
}

pub fn reflect(v: Vec3, n: Vec3) -> (r: Vec3)
    requires
        vi_in(v@, 0x1000_0000),
        vi_in(n@, 0x1000_0000),
    ensures
        r@ == reflect_i(v@, n@),
        vi_in(r@, 0x2000_0000_0000_0000),
{
    proof {
        let bb: int = 0x1000_0000;
        lemma_dot_ok(v@, n@, bb, bb);
        lemma_dot_bound(v@, n@, bb, bb);
        let d = dot_i(v@, n@);
        lemma_mul76(2 * d, n@.x, 0x8000_0000_0000, bb);
        lemma_mul76(2 * d, n@.y, 0x8000_0000_0000, bb);
        lemma_mul76(2 * d, n@.z, 0x8000_0000_0000, bb);
    }
    let d: i64 = v.dot(n);
    v.sub(n.scale(2 * d))
}

/// Refraction identity at a matched boundary: with equal refraction
/// indices on both sides (a ratio of exactly one), a unit direction
/// straight against the upward unit normal passes through unchanged,
/// rounding included.
pub proof fn lemma_refract_matched_axis()
    ensures
        refract_i(vi(0, 0, -(SCALE as int)), vi(0, 0, SCALE as int), SCALE as int) == vi(
            0,
            0,
            -(SCALE as int),
        ),
{
    let s = SCALE as int;
    assert(is_isqrt(s * s, s)) by (nonlinear_arith)
        requires
            s == 65536,
    ;
    fixed::lemma_sqrt_floor(s * s);
    fixed::lemma_isqrt_unique(s * s, s, sqrt_floor(s * s));
}

/// One component of the reflection law: a lower bound for the scaled
/// product of a reflected component with the normal component.
proof fn lemma_refl_comp(s: int, d: int, vx: int, nx: int, m: int, a: int, q: int, b: int)
    requires
        s == 65536,
        s * m == (2 * d) * nx - a,
        vx * nx == s * q + b,
        0 <= a < s,
        0 <= b,
        -(s + 1) <= nx <= s + 1,
    ensures
        s * ((vx - m) * nx) >= s * s * q - (2 * d) * (nx * nx) - s * (s + 1),
{
    assert(s * ((vx - m) * nx) == s * s * q + s * b - (2 * d) * (nx * nx) + a * nx)
        by (nonlinear_arith)
        requires
            s * m == (2 * d) * nx - a,
            vx * nx == s * q + b,
    ;
    assert(a * nx >= -(s * (s + 1))) by (nonlinear_arith)
        requires
            0 <= a < s,
            -(s + 1) <= nx <= s + 1,
            0 < s,
    ;
    assert(s * b >= 0) by (nonlinear_arith)
        requires
            0 <= b,
            0 < s,
    ;
}

/// Mirror-symmetry law of reflection: about a unit normal, a direction that
/// strictly enters the surface leaves it after one reflection, rounding
/// included.  The normal is unit length in fixed point (its squared length
/// is exactly one); directions that graze the surface within 8 raw units
/// (about 0.0001) are excluded, since there rounding can swallow the sign.
pub proof fn lemma_reflect_flips_sign(v: V3i, n: V3i)
    requires
        dot_i(n, n) == SCALE as int,
        dot_i(v, n) <= -8,
    ensures
        0 < dot_i(reflect_i(v, n), n),
{
    let s = SCALE as int;
    let d = dot_i(v, n);
    let m1 = fmul_s(2 * d, n.x);
    let m2 = fmul_s(2 * d, n.y);
    let m3 = fmul_s(2 * d, n.z);
    let r = reflect_i(v, n);
    assert(r.x == v.x - m1 && r.y == v.y - m2 && r.z == v.z - m3);
    lemma_fundamental_div_mod((2 * d) * n.x, s);
    lemma_fundamental_div_mod((2 * d) * n.y, s);
    lemma_fundamental_div_mod((2 * d) * n.z, s);
    let a1 = ((2 * d) * n.x) % s;
    let a2 = ((2 * d) * n.y) % s;
    let a3 = ((2 * d) * n.z) % s;
    lemma_fundamental_div_mod(v.x * n.x, s);
    lemma_fundamental_div_mod(v.y * n.y, s);
    lemma_fundamental_div_mod(v.z * n.z, s);
    let b1 = (v.x * n.x) % s;
    let b2 = (v.y * n.y) % s;
    let b3 = (v.z * n.z) % s;
    lemma_fundamental_div_mod(n.x * n.x, s);
    lemma_fundamental_div_mod(n.y * n.y, s);
    lemma_fundamental_div_mod(n.z * n.z, s);
    let c1 = (n.x * n.x) % s;
    let c2 = (n.y * n.y) % s;
    let c3 = (n.z * n.z) % s;
    // the components of the unit normal are at most one in magnitude
    assert(0 <= n.x * n.x && 0 <= n.y * n.y && 0 <= n.z * n.z) by (nonlinear_arith);
    assert(n.x * n.x + n.y * n.y + n.z * n.z == s * s + (c1 + c2 + c3));
    assert(-(s + 1) <= n.x <= s + 1 && -(s + 1) <= n.y <= s + 1 && -(s + 1) <= n.z <= s + 1)
        by (nonlinear_arith)
        requires
            0 <= n.x * n.x && 0 <= n.y * n.y && 0 <= n.z * n.z,
            n.x * n.x + n.y * n.y + n.z * n.z == s * s + (c1 + c2 + c3),
            0 <= c1 < s && 0 <= c2 < s && 0 <= c3 < s,
            s == 65536,
    ;
    // a scaled lower bound for each reflected component
    lemma_refl_comp(s, d, v.x, n.x, m1, a1, fmul_s(v.x, n.x), b1);
    lemma_refl_comp(s, d, v.y, n.y, m2, a2, fmul_s(v.y, n.y), b2);
    lemma_refl_comp(s, d, v.z, n.z, m3, a3, fmul_s(v.z, n.z), b3);
    // the three quadratic normal terms sum against the unit length
    assert((2 * d) * (n.x * n.x) + (2 * d) * (n.y * n.y) + (2 * d) * (n.z * n.z) == (2 * d) * (s
        * s + (c1 + c2 + c3))) by (nonlinear_arith)
        requires
            n.x * n.x + n.y * n.y + n.z * n.z == s * s + (c1 + c2 + c3),
    ;
    assert((2 * d) * (s * s + (c1 + c2 + c3)) <= 2 * d * (s * s)) by (nonlinear_arith)
        requires
            d <= -8,
            0 <= c1 + c2 + c3,
    ;
    let rs = r.x * n.x + r.y * n.y + r.z * n.z;
    assert(r.x * n.x == (v.x - m1) * n.x && r.y * n.y == (v.y - m2) * n.y && r.z * n.z == (v.z
        - m3) * n.z);
    assert(s * rs == s * (r.x * n.x) + s * (r.y * n.y) + s * (r.z * n.z)) by (nonlinear_arith)
        requires
            rs == r.x * n.x + r.y * n.y + r.z * n.z,
    ;
    assert(s * rs >= s * s * d - 2 * d * (s * s) - 3 * (s * (s + 1)));
    // the reflected dot product itself
    lemma_fundamental_div_mod(r.x * n.x, s);
    lemma_fundamental_div_mod(r.y * n.y, s);
    lemma_fundamental_div_mod(r.z * n.z, s);
    let w1 = (r.x * n.x) % s;
    let w2 = (r.y * n.y) % s;
    let w3 = (r.z * n.z) % s;
    assert(rs == s * dot_i(r, n) + (w1 + w2 + w3));
    assert(s * rs == s * (s * dot_i(r, n)) + s * (w1 + w2 + w3)) by (nonlinear_arith)
        requires
            rs == s * dot_i(r, n) + (w1 + w2 + w3),
    ;
    assert(s * (w1 + w2 + w3) < 3 * (s * s)) by (nonlinear_arith)
        requires
            0 <= w1 < s && 0 <= w2 < s && 0 <= w3 < s,
            0 < s,
    ;
    assert(s * (s * dot_i(r, n)) > 2 * (s * s) - 3 * (s * (s + 1)) - 3 * (s * s) + 8 * (s * s)
        - 3 * (s * s));
    assert(0 < dot_i(r, n)) by (nonlinear_arith)
        requires
            s * (s * dot_i(r, n)) > 2 * (s * s) - 3 * (s * (s + 1)) - 3 * (s * s) + 8 * (s * s)
                - 3 * (s * s),
            s == 65536,
    ;
}

/// Snell refraction of the unit direction uv at a surface of unit normal n,
/// with the ratio of refraction indices etai_over_etat (raw fixed point).
/// The cosine is capped at one and the radicand floored at zero, as the
/// degenerate-input guards of the executable code do.
pub open spec fn refract_i(uv: V3i, n: V3i, etai_over_etat: int) -> V3i {
    let s = SCALE as int;
    let c0 = dot_i(uv, n);
    let cos = -(if c0 > s {
        s
    } else {
        c0
    });
    let perp = scale_i(etai_over_etat, add_i(uv, scale_i(cos, n)));
    let k = s - dot_i(perp, perp);
    let kk = if k < 0 {
        0
    } else {
        k
    };
    add_i(perp, scale_i(-sqrt_floor(kk * s), n))
}

pub fn refract(uv: Vec3, n: Vec3, etai_over_etat: i64) -> (r: Vec3)
    requires
        vi_in(uv@, 4 * (SCALE as int)),
        vi_in(n@, 4 * (SCALE as int)),
        0 < etai_over_etat <= 0x40_0000,
    ensures
        r@ == refract_i(uv@, n@, etai_over_etat as int),
        vi_in(r@, 0x1_0000_0000),
{
    proof {
        lemma_dot_ok(uv@, n@, 262144, 262144);
        lemma_dot_bound(uv@, n@, 262144, 262144);
    }
    let c0: i64 = uv.dot(n);
    let c1: i64 = if c0 > SCALE {
        SCALE
    } else {
        c0
    };
    let cos: i64 = -c1;
    proof {
        lemma_mul76(cos as int, n@.x, 0x80_0000, 262144);
        lemma_mul76(cos as int, n@.y, 0x80_0000, 262144);
        lemma_mul76(cos as int, n@.z, 0x80_0000, 262144);
        lemma_scale_bound(cos as int, n@, 0x80_0000, 262144);
        let hicn: int = (0x80_0000 as int) * (262144 as int);
        assert(hicn / (SCALE as int) == (4 * 0x80_0000) as int);
    }
    let cn: Vec3 = n.scale(cos);
    let inner: Vec3 = uv.add(cn);
    proof {
        let ib: int = 4 * 0x80_0000 + 1 + 4 * (SCALE as int);
        assert(vi_in(inner@, ib));
        lemma_mul76(etai_over_etat as int, inner@.x, 0x40_0000, ib);
        lemma_mul76(etai_over_etat as int, inner@.y, 0x40_0000, ib);
        lemma_mul76(etai_over_etat as int, inner@.z, 0x40_0000, ib);
        lemma_scale_bound(etai_over_etat as int, inner@, 0x40_0000, ib);
        let pb: int = (0x40_0000 * ib) / (SCALE as int) + 1;
        assert(pb <= 0x1_0000_0000);
        lemma_dot_ok(scale_i(etai_over_etat as int, inner@), scale_i(etai_over_etat as int, inner@), 0x1_0000_0000, 0x1_0000_0000);
    }
    let perp: Vec3 = inner.scale(etai_over_etat);
    proof {
        lemma_dot_self_nonneg(perp@);
    }
    let dp: i64 = perp.length_squared();
    let k: i64 = if SCALE - dp < 0 {
        0
    } else {
        SCALE - dp
    };
    let sq: i64 = fixed::fx_sqrt(k);
    proof {
        assert(sq as int <= SCALE as int) by (nonlinear_arith)
            requires
                0 <= sq,
                (sq as int) * (sq as int) <= (k as int) * (SCALE as int),
                0 <= k <= SCALE,
                SCALE == 65536,
        ;
        lemma_mul76(-(sq as int), n@.x, 65536, 262144);
        lemma_mul76(-(sq as int), n@.y, 65536, 262144);
        lemma_mul76(-(sq as int), n@.z, 65536, 262144);
        lemma_scale_bound(-(sq as int), n@, 65536, 262144);
        let hipar: int = (65536 as int) * (262144 as int);
        assert(hipar / (SCALE as int) == 262144 as int);
    }
    let par: Vec3 = n.scale(-sq);
    perp.add(par)
}

} // verus!
