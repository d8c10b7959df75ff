//! Saturating fixed-point arithmetic for the simulation.
//!
//! Every physical quantity (position, radius, velocity, world size) is an
//! `i64` counting `1/SCALE` fractions of a world unit, so `1.0` world unit is
//! the integer `SCALE`. Operations compute exactly in 128-bit intermediates,
//! truncate divisions toward zero, and saturate results into
//! `[-FX_MAX, FX_MAX]`. Each executable operation is specified exactly by a
//! spec-level mirror (`s_add`, `s_mul`, ...), so the rest of the crate can
//! state what a whole simulation pass computes as a closed formula.

use vstd::prelude::*;
use vstd::arithmetic::div_mod::{
    lemma_div_by_multiple, lemma_div_is_ordered, lemma_div_nonincreasing, lemma_div_pos_is_pos,
    lemma_fundamental_div_mod, lemma_fundamental_div_mod_converse,
    lemma_mod_division_less_than_divisor,
};
use vstd::arithmetic::mul::{lemma_mul_inequality, lemma_mul_nonnegative};

verus! {

/// Fixed-point fractions per world unit.
pub const SCALE: i64 = 1000;

/// Largest magnitude any stored quantity may take; arithmetic saturates here.
pub const FX_MAX: i64 = 1_000_000_000_000_000;

/// Saturation of an exact result into the representable range.
pub open spec fn s_clip(x: int) -> int {
    if x > FX_MAX as int {
        FX_MAX as int
    } else if x < -(FX_MAX as int) {
        -(FX_MAX as int)
    } else {
        x
    }
}

/// Division truncated toward zero (the built-in `/` on `int` is Euclidean).
pub open spec fn tdiv(a: int, b: int) -> int {
    if a >= 0 {
        a / b
    } else {
        -((-a) / b)
    }
}

/// Saturating sum of two fixed-point values.
pub open spec fn s_add(a: int, b: int) -> int {
    s_clip(a + b)
}

/// Saturating difference of two fixed-point values.
pub open spec fn s_sub(a: int, b: int) -> int {
    s_clip(a - b)
}

/// Saturating negation of a fixed-point value.
pub open spec fn s_neg(a: int) -> int {
    s_clip(-a)
}

/// Saturating fixed-point product: `a * b` rescaled back by `SCALE`.
pub open spec fn s_mul(a: int, b: int) -> int {
    s_clip(tdiv(a * b, SCALE as int))
}

/// Saturating fixed-point quotient `a / b` for positive `b`, at `SCALE` scale.
pub open spec fn s_div(a: int, b: int) -> int {
    s_clip(tdiv(a * SCALE, b))
}

/// Truncated division by a plain (unscaled) positive integer.
pub open spec fn s_divi(a: int, b: int) -> int {
    tdiv(a, b)
}

/// Dot product of two fixed-point vectors, rescaled back by `SCALE`.
pub open spec fn s_dot(ax: int, ay: int, bx: int, by: int) -> int {
    s_clip(tdiv(ax * bx + ay * by, SCALE as int))
}

/// New normal velocity of a body with mass `m1` and normal velocity `v1`
/// after a one-dimensional elastic collision against mass `m2` with normal
/// velocity `v2`; a single truncated division keeps exact mass ratios exact.
pub open spec fn s_elastic(v1: int, v2: int, m1: int, m2: int) -> int {
    s_clip(tdiv(v1 * (m1 - m2) + 2 * m2 * v2, m1 + m2))
}

/// Velocity change `2 * (v . n) * n * e` of a reflection about the unit
/// normal component `n`, scaled by the elasticity coefficient `e`.
pub open spec fn s_refl(vn: int, n: int, e: int) -> int {
    s_clip(tdiv(2 * vn * n * e, (SCALE * SCALE) as int))
}

/// `floor(sqrt(n))` over the naturals.
pub open spec fn sqrt_floor(n: nat) -> nat
    decreases n,
{
    if n == 0 {
        0
    } else {
        let r = sqrt_floor((n - 1) as nat);
        if (r + 1) * (r + 1) <= n {
            r + 1
        } else {
            r
        }
    }
}

/// Euclidean length of the fixed-point vector `(dx, dy)`: because the
/// squares carry scale `SCALE^2`, the square root is again at scale `SCALE`.
pub open spec fn s_dist(dx: int, dy: int) -> int {
    s_clip(sqrt_floor((dx * dx + dy * dy) as nat) as int)
}

/// Clamping of `v` into `[lo, hi]`, testing the lower bound first.
pub open spec fn s_clamp(v: int, lo: int, hi: int) -> int {
    if v < lo {
        lo
    } else if v > hi {
        hi
    } else {
        v
    }
}

/// Magnitude of a value.
pub open spec fn s_abs(a: int) -> int {
    if a < 0 {
        -a
    } else {
        a
    }
}

/// Fixed-point sign of a value: `-1.0` for negatives, else `+1.0`.
pub open spec fn s_sgn(a: int) -> int {
    if a < 0 {
        -(SCALE as int)
    } else {
        SCALE as int
    }
}

/// `floor(sqrt(n))` squared brackets `n`.
pub proof fn lemma_sqrt_floor_bounds(n: nat)
    ensures
        sqrt_floor(n) * sqrt_floor(n) <= n,
        n < (sqrt_floor(n) + 1) * (sqrt_floor(n) + 1),
    decreases n,
{
    if n == 0 {
        assert(sqrt_floor(n) * sqrt_floor(n) <= n && n < (sqrt_floor(n) + 1) * (sqrt_floor(n) + 1))
            by (nonlinear_arith)
            requires
                n == 0,
                sqrt_floor(n) == 0,
        ;
    } else {
        lemma_sqrt_floor_bounds((n - 1) as nat);
        let r = sqrt_floor((n - 1) as nat);
        if (r + 1) * (r + 1) <= n {
            assert(sqrt_floor(n) == r + 1);
            assert(n < (r + 2) * (r + 2)) by (nonlinear_arith)
                requires
                    n <= (r + 1) * (r + 1),
                    r >= 0,
            ;
        } else {
            assert(sqrt_floor(n) == r);
        }
    }
}

/// Any natural whose square brackets `n` is `floor(sqrt(n))`.
pub proof fn lemma_sqrt_floor_unique(n: nat, r: nat)
    requires
        r * r <= n,
        n < (r + 1) * (r + 1),
    ensures
        r == sqrt_floor(n),
{
    let s = sqrt_floor(n);
    lemma_sqrt_floor_bounds(n);
    if r < s {
        assert((r + 1) * (r + 1) <= s * s) by (nonlinear_arith)
            requires
                r + 1 <= s,
                r >= 0,
        ;
    }
    if s < r {
        assert((s + 1) * (s + 1) <= r * r) by (nonlinear_arith)
            requires
                s + 1 <= r,
                s >= 0,
        ;
    }
}

/// The square root of an exact square.
pub proof fn lemma_sqrt_floor_square(k: nat)
    ensures
        sqrt_floor(k * k) == k,
{
    assert(k * k < (k + 1) * (k + 1)) by (nonlinear_arith)
        requires
            k >= 0,
    ;
    lemma_sqrt_floor_unique(k * k, k);
}

/// `floor(sqrt(_))` is monotone.
pub proof fn lemma_sqrt_floor_monotone(m: nat, n: nat)
    requires
        m <= n,
    ensures
        sqrt_floor(m) <= sqrt_floor(n),
{
    let a = sqrt_floor(m);
    let b = sqrt_floor(n);
    lemma_sqrt_floor_bounds(m);
    lemma_sqrt_floor_bounds(n);
    if b < a {
        assert((b + 1) * (b + 1) <= a * a) by (nonlinear_arith)
            requires
                b + 1 <= a,
                b >= 0,
        ;
    }
}

/// Truncated division shrinks magnitudes and keeps signs.
pub proof fn lemma_tdiv_bounds(a: int, b: int)
    requires
        b >= 1,
    ensures
        a >= 0 ==> 0 <= tdiv(a, b) <= a,
        a < 0 ==> a <= tdiv(a, b) <= 0,
{
    if a >= 0 {
        lemma_div_pos_is_pos(a, b);
        lemma_div_nonincreasing(a, b);
    } else {
        lemma_div_pos_is_pos(-a, b);
        lemma_div_nonincreasing(-a, b);
    }
}

/// Truncated division is exact on multiples.
pub proof fn lemma_tdiv_multiple(q: int, k: int)
    requires
        k >= 1,
    ensures
        tdiv(q * k, k) == q,
{
    if q >= 0 {
        lemma_mul_nonnegative(q, k);
        lemma_div_by_multiple(q, k);
    } else {
        assert((-(q * k)) == (-q) * k) by (nonlinear_arith);
        assert(q * k <= 0) by (nonlinear_arith)
            requires
                q < 0,
                k >= 1,
        ;
        if q * k == 0 {
            assert(false) by (nonlinear_arith)
                requires
                    q * k == 0,
                    q < 0,
                    k >= 1,
            ;
        }
        lemma_div_by_multiple(-q, k);
    }
}

/// A quotient of `a * SCALE` by `b` is a unit-scale value when `|a| <= b`.
pub proof fn lemma_unit_quotient(a: int, b: int)
    requires
        0 < b,
        -b <= a <= b,
    ensures
        -(SCALE as int) <= s_div(a, b) <= SCALE as int,
{
    if a >= 0 {
        lemma_mul_inequality(a, b, SCALE as int);
        lemma_div_is_ordered(a * SCALE, b * SCALE, b);
        lemma_div_by_multiple(SCALE as int, b);
        assert(b * SCALE == SCALE * b) by (nonlinear_arith);
        lemma_div_pos_is_pos(a * SCALE, b);
        lemma_mul_nonnegative(a, SCALE as int);
    } else {
        lemma_mul_inequality(-a, b, SCALE as int);
        assert((-a) * SCALE == -(a * SCALE)) by (nonlinear_arith);
        lemma_div_is_ordered(-(a * SCALE), b * SCALE, b);
        lemma_div_by_multiple(SCALE as int, b);
        assert(b * SCALE == SCALE * b) by (nonlinear_arith);
        lemma_div_pos_is_pos(-(a * SCALE), b);
    }
}

/// Doubling the truncated half of a nonnegative value loses at most one.
pub proof fn lemma_half_double(a: int)
    requires
        a >= 0,
    ensures
        2 * s_divi(a, 2) <= a,
        a <= 2 * s_divi(a, 2) + 1,
{
    lemma_fundamental_div_mod(a, 2);
    lemma_mod_division_less_than_divisor(a, 2);
}

/// A vector's length dominates the magnitude of each component.
pub proof fn lemma_dist_dominates(dx: int, dy: int)
    requires
        -FX_MAX <= dx <= FX_MAX,
        -FX_MAX <= dy <= FX_MAX,
    ensures
        s_abs(dx) <= s_dist(dx, dy),
        s_abs(dy) <= s_dist(dx, dy),
        0 <= s_dist(dx, dy) <= FX_MAX,
{
    let adx = s_abs(dx);
    let ady = s_abs(dy);
    assert(adx * adx == dx * dx && ady * ady == dy * dy && dx * dx >= 0 && dy * dy >= 0)
        by (nonlinear_arith)
        requires
            adx == (if dx < 0 { -dx } else { dx }),
            ady == (if dy < 0 { -dy } else { dy }),
    ;
    let n = (dx * dx + dy * dy) as nat;
    lemma_sqrt_floor_square(adx as nat);
    lemma_sqrt_floor_square(ady as nat);
    lemma_sqrt_floor_monotone((dx * dx) as nat, n);
    lemma_sqrt_floor_monotone((dy * dy) as nat, n);
}

/// The square of any value, taken as a mass, is a representable nonnegative
/// fixed-point value.
pub proof fn lemma_square_mass_bounds(r: int)
    ensures
        0 <= s_mul(r, r) <= FX_MAX,
{
    assert(r * r >= 0) by (nonlinear_arith);
    lemma_tdiv_bounds(r * r, SCALE as int);
}

/// A length of zero means both components are zero.
pub proof fn lemma_zero_dist_means_coincident(dx: int, dy: int)
    requires
        s_dist(dx, dy) == 0,
    ensures
        dx == 0,
        dy == 0,
{
    assert(dx * dx >= 0 && dy * dy >= 0) by (nonlinear_arith);
    let n = (dx * dx + dy * dy) as nat;
    lemma_sqrt_floor_bounds(n);
    let s = sqrt_floor(n);
    assert(s == 0);
    assert(n == 0) by (nonlinear_arith)
        requires
            n < (s + 1) * (s + 1),
            s == 0,
            n >= 0,
    ;
    assert(dx == 0 && dy == 0) by (nonlinear_arith)
        requires
            dx * dx + dy * dy == 0,
    ;
}

/// Bound on a product from bounds on its factors.
pub proof fn lemma_product_bound(a: int, ab: int, b: int, bb: int)
    requires
        -ab <= a <= ab,
        -bb <= b <= bb,
        0 <= ab,
        0 <= bb,
    ensures
        -(ab * bb) <= a * b <= ab * bb,
{
    assert(-(ab * bb) <= a * b <= ab * bb) by (nonlinear_arith)
        requires
            -ab <= a <= ab,
            -bb <= b <= bb,
            0 <= ab,
            0 <= bb,
    ;
}

fn clip128(x: i128) -> (r: i64)
    ensures
        r as int == s_clip(x as int),
{
    if x > FX_MAX as i128 {
        FX_MAX
    } else if x < -(FX_MAX as i128) {
        -FX_MAX
    } else {
        x as i64
    }
}

fn div128(a: i128, b: i128) -> (r: i128)
    requires
        b >= 1,
        a > i128::MIN,
    ensures
        r as int == tdiv(a as int, b as int),
{
    proof {
        lemma_tdiv_bounds(a as int, b as int);
    }
    if a >= 0 {
        ((a as u128) / (b as u128)) as i128
    } else {
        let m: u128 = ((-a) as u128) / (b as u128);
        -(m as i128)
    }
}

/// Floor division of a bounded value by a positive divisor (used for grid
/// cell coordinates; the spec-level `/` on `int` is already floor for
/// positive divisors).
pub fn floor_div(a: i64, b: i64) -> (r: i64)
    requires
        b >= 1,
        -FX_MAX <= a <= FX_MAX,
    ensures
        r as int == a as int / b as int,
        -FX_MAX <= r <= FX_MAX,
{
    if a >= 0 {
        proof {
            lemma_div_pos_is_pos(a as int, b as int);
            lemma_div_nonincreasing(a as int, b as int);
        }
        ((a as u128) / (b as u128)) as i64
    } else {
        let m: u128 = (-(a as i128)) as u128;
        let bb: u128 = b as u128;
        let q: u128 = (m + bb - 1) / bb;
        proof {
            let mi = m as int;
            let bi = b as int;
            let q0 = mi / bi;
            let r0 = mi % bi;
            lemma_fundamental_div_mod(mi, bi);
            lemma_div_pos_is_pos(mi, bi);
            lemma_div_nonincreasing(mi, bi);
            lemma_mod_division_less_than_divisor(mi, bi);
            if r0 == 0 {
                assert(mi + bi - 1 == bi * q0 + (bi - 1)) by (nonlinear_arith)
                    requires
                        mi == bi * q0 + r0,
                        r0 == 0,
                ;
                lemma_fundamental_div_mod_converse(mi + bi - 1, bi, q0, bi - 1);
                assert(-mi == bi * (-q0) + 0) by (nonlinear_arith)
                    requires
                        mi == bi * q0 + r0,
                        r0 == 0,
                ;
                lemma_fundamental_div_mod_converse(-mi, bi, -q0, 0);
            } else {
                assert(mi + bi - 1 == bi * (q0 + 1) + (r0 - 1)) by (nonlinear_arith)
                    requires
                        mi == bi * q0 + r0,
                ;
                lemma_fundamental_div_mod_converse(mi + bi - 1, bi, q0 + 1, r0 - 1);
                assert(-mi == bi * (-(q0 + 1)) + (bi - r0)) by (nonlinear_arith)
                    requires
                        mi == bi * q0 + r0,
                ;
                lemma_fundamental_div_mod_converse(-mi, bi, -(q0 + 1), bi - r0);
                assert(q0 + 1 <= mi) by (nonlinear_arith)
                    requires
                        mi == bi * q0 + r0,
                        bi >= 2 || r0 == 0,
                        1 <= r0 < bi,
                        mi >= 1,
                        q0 >= 0,
                ;
            }
        }
        -((q as i128) as i64)
    }
}

/// Saturating sum.
pub fn fx_add(a: i64, b: i64) -> (r: i64)
    ensures
        r as int == s_add(a as int, b as int),
{
    clip128(a as i128 + b as i128)
}

/// Saturating difference.
pub fn fx_sub(a: i64, b: i64) -> (r: i64)
    ensures
        r as int == s_sub(a as int, b as int),
{
    clip128(a as i128 - b as i128)
}

/// Saturating negation.
pub fn fx_neg(a: i64) -> (r: i64)
    ensures
        r as int == s_neg(a as int),
{
    clip128(-(a as i128))
}

/// Saturating fixed-point product.
pub fn fx_mul(a: i64, b: i64) -> (r: i64)
    ensures
        r as int == s_mul(a as int, b as int),
{
    proof {
        lemma_product_bound(a as int, 0x8000_0000_0000_0000, b as int, 0x8000_0000_0000_0000);
    }
    let p: i128 = (a as i128) * (b as i128);
    clip128(div128(p, SCALE as i128))
}

/// Saturating fixed-point quotient by a positive divisor.
pub fn fx_div(a: i64, b: i64) -> (r: i64)
    requires
        b >= 1,
    ensures
        r as int == s_div(a as int, b as int),
{
    proof {
        lemma_product_bound(a as int, 0x8000_0000_0000_0000, SCALE as int, SCALE as int);
    }
    let p: i128 = (a as i128) * (SCALE as i128);
    clip128(div128(p, b as i128))
}

/// Truncated division by a plain positive integer.
pub fn fx_divi(a: i64, b: i64) -> (r: i64)
    requires
        b >= 1,
    ensures
        r as int == s_divi(a as int, b as int),
{
    proof {
        lemma_tdiv_bounds(a as int, b as int);
    }
    div128(a as i128, b as i128) as i64
}

/// Dot product of a unit-scale vector with an arbitrary vector.
pub fn fx_dot(ax: i64, ay: i64, bx: i64, by: i64) -> (r: i64)
    requires
        -SCALE <= ax <= SCALE,
        -SCALE <= ay <= SCALE,
    ensures
        r as int == s_dot(ax as int, ay as int, bx as int, by as int),
{
    proof {
        lemma_product_bound(ax as int, SCALE as int, bx as int, 0x8000_0000_0000_0000);
        lemma_product_bound(ay as int, SCALE as int, by as int, 0x8000_0000_0000_0000);
    }
    let p: i128 = (ax as i128) * (bx as i128) + (ay as i128) * (by as i128);
    clip128(div128(p, SCALE as i128))
}

/// One-dimensional elastic collision along the contact normal.
pub fn fx_elastic(v1: i64, v2: i64, m1: i64, m2: i64) -> (r: i64)
    requires
        0 <= m1 <= FX_MAX,
        0 <= m2 <= FX_MAX,
        m1 + m2 >= 1,
    ensures
        r as int == s_elastic(v1 as int, v2 as int, m1 as int, m2 as int),
{
    proof {
        lemma_product_bound(v1 as int, 0x8000_0000_0000_0000, m1 - m2, FX_MAX as int);
        lemma_product_bound(m2 as int, FX_MAX as int, v2 as int, 0x8000_0000_0000_0000);
    }
    let d: i64 = m1 - m2;
    let t1: i128 = (v1 as i128) * (d as i128);
    let t2: i128 = (m2 as i128) * (v2 as i128);
    let num: i128 = t1 + t2 + t2;
    proof {
        assert(num as int == v1 * (m1 - m2) + 2 * m2 * v2) by (nonlinear_arith)
            requires
                num == v1 * (m1 - m2) + t2 + t2,
                t2 == m2 * v2,
        ;
    }
    clip128(div128(num, (m1 + m2) as i128))
}

/// Reflection term `2 (v . n) n e` for a bounce off a static body.
pub fn fx_refl(vn: i64, n: i64, e: i64) -> (r: i64)
    requires
        -FX_MAX <= vn <= FX_MAX,
        -SCALE <= n <= SCALE,
        0 <= e <= SCALE,
    ensures
        r as int == s_refl(vn as int, n as int, e as int),
{
    proof {
        lemma_product_bound(vn as int, FX_MAX as int, n as int, SCALE as int);
    }
    let t: i128 = (vn as i128) * (n as i128);
    proof {
        lemma_product_bound(t + t as int, 2 * (FX_MAX as int) * (SCALE as int), e as int, SCALE as int);
    }
    let p: i128 = (t + t) * (e as i128);
    proof {
        assert(p as int == 2 * vn * n * e) by (nonlinear_arith)
            requires
                p == (t + t) * e,
                t == vn * n,
        ;
    }
    clip128(div128(p, 1_000_000))
}

fn isqrt_u128(n: u128) -> (r: u128)
    ensures
        r as nat == sqrt_floor(n as nat),
{
    let mut lo: u128 = 0;
    let mut hi: u128 = if n < 0xffff_ffff_ffff_ffff {
        n
    } else {
        0xffff_ffff_ffff_ffff
    };
    proof {
        if n < 0xffff_ffff_ffff_ffff {
            assert(n < (n + 1) * (n + 1)) by (nonlinear_arith);
        }
    }
    while lo < hi
        invariant
            lo <= hi,
            hi <= 0xffff_ffff_ffff_ffff,
            lo * lo <= n,
            n < (hi + 1) * (hi + 1),
        decreases hi - lo,
    {
        let mid: u128 = lo + (hi - lo + 1) / 2;
        proof {
            lemma_product_bound(mid as int, 0xffff_ffff_ffff_ffff, mid as int, 0xffff_ffff_ffff_ffff);
        }
        let sq: u128 = mid * mid;
        if sq <= n {
            lo = mid;
        } else {
            hi = mid - 1;
        }
    }
    proof {
        lemma_sqrt_floor_unique(n as nat, lo as nat);
    }
    lo
}

/// Length of the fixed-point vector `(dx, dy)`.
pub fn fx_dist(dx: i64, dy: i64) -> (r: i64)
    ensures
        r as int == s_dist(dx as int, dy as int),
{
    let ax: u128 = if dx >= 0 {
        dx as u128
    } else {
        (-(dx as i128)) as u128
    };
    let ay: u128 = if dy >= 0 {
        dy as u128
    } else {
        (-(dy as i128)) as u128
    };
    proof {
        assert(ax as int * ax as int == dx as int * dx as int) by (nonlinear_arith)
            requires
                ax as int == s_abs(dx as int),
        ;
        assert(ay as int * ay as int == dy as int * dy as int) by (nonlinear_arith)
            requires
                ay as int == s_abs(dy as int),
        ;
        lemma_product_bound(ax as int, 0x8000_0000_0000_0000, ax as int, 0x8000_0000_0000_0000);
        lemma_product_bound(ay as int, 0x8000_0000_0000_0000, ay as int, 0x8000_0000_0000_0000);
        lemma_mul_nonnegative(ax as int, ax as int);
        lemma_mul_nonnegative(ay as int, ay as int);
    }
    let sum: u128 = ax * ax + ay * ay;
    let q: u128 = isqrt_u128(sum);
    if q > FX_MAX as u128 {
        FX_MAX
    } else {
        q as i64
    }
}

/// Clamping into `[lo, hi]`, the lower bound winning when `lo > hi`.
pub fn clamp(value: i64, lo: i64, hi: i64) -> (r: i64)
    ensures
        r as int == s_clamp(value as int, lo as int, hi as int),
{
    if value < lo {
        lo
    } else if value > hi {
        hi
    } else {
        value
    }
}

/// Magnitude of a representable value.
pub fn fx_abs(a: i64) -> (r: i64)
    requires
        -FX_MAX <= a <= FX_MAX,
    ensures
        r as int == s_abs(a as int),
{
    if a < 0 {
        -a
    } else {
        a
    }
}

/// Fixed-point sign.
pub fn fx_sgn(a: i64) -> (r: i64)
    ensures
        r as int == s_sgn(a as int),
{
    if a < 0 {
        -SCALE
    } else {
        SCALE
    }
}

} // verus!
