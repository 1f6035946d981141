//! Fixed-point scalar arithmetic.
//!
//! A scalar is an `i64` holding the real value times [`SCALE`], so one
//! fixed-point unit is `1e-6`. All derived quantities are computed in
//! `i128` intermediates and rounded toward negative infinity, which is
//! what [`div_floor`] describes. The helpers here carry the overflow
//! proofs once, so the geometry code can state its results exactly.

use vstd::prelude::*;
use vstd::arithmetic::div_mod::{
    lemma_div_is_ordered, lemma_fundamental_div_mod, lemma_fundamental_div_mod_converse,
    lemma_mod_pos_bound,
};

verus! {

/// Number of fixed-point units per real unit.
pub const SCALE: i64 = 1_000_000;

/// Largest magnitude a coordinate of a scene point may have
/// (500 real units), chosen so that every intermediate of the
/// geometry kernels fits in an `i128`.
pub const MAX_COORD: i64 = 500_000_000;

/// A coordinate within the representable scene volume.
pub open spec fn coord_ok(c: int) -> bool {
    -MAX_COORD <= c <= MAX_COORD
}

/// Division rounding toward negative infinity, total in the divisor.
pub open spec fn div_floor(a: int, b: int) -> int {
    if b > 0 {
        a / b
    } else if b < 0 {
        (-a) / (-b)
    } else {
        0
    }
}

/// Bounds of a product from bounds of its factors.
pub proof fn lemma_mul_bound(a: int, b: int, aa: int, bb: int)
    by (nonlinear_arith)
    requires
        0 <= aa,
        0 <= bb,
        -aa <= a <= aa,
        -bb <= b <= bb,
    ensures
        -(aa * bb) <= a * b <= aa * bb,
{
}

/// Floor division of `i128` values, implemented over unsigned
/// magnitudes so the rounding direction is explicit.
pub fn divi(a: i128, b: i128) -> (q: i128)
    requires
        b != 0,
        a != i128::MIN,
        b != i128::MIN,
    ensures
        q == div_floor(a as int, b as int),
{
    let (a2, b2): (i128, i128) = if b < 0 { (-a, -b) } else { (a, b) };
    if a2 >= 0 {
        let q0: u128 = (a2 as u128) / (b2 as u128);
        proof {
            lemma_div_is_ordered(0, a2 as int, b2 as int);
            lemma_div_is_ordered(a2 as int, i128::MAX as int, b2 as int);
        }
        q0 as i128
    } else {
        let ua: u128 = (-a2) as u128;
        let ub: u128 = b2 as u128;
        let q0: u128 = ua / ub;
        let r0: u128 = ua % ub;
        proof {
            lemma_mod_pos_bound(ua as int, ub as int);
            lemma_div_is_ordered(0, ua as int, ub as int);
            lemma_div_is_ordered(ua as int, i128::MAX as int, ub as int);
            lemma_fundamental_div_mod(ua as int, ub as int);
            let aa = a2 as int;
            let bb = b2 as int;
            if r0 == 0 {
                assert(aa == -(q0 as int) * bb + 0) by (nonlinear_arith)
                    requires
                        -aa == bb * (q0 as int),
                ;
                lemma_fundamental_div_mod_converse(aa, bb, -(q0 as int), 0);
            } else {
                assert(aa == (-(q0 as int) - 1) * bb + (bb - r0)) by (nonlinear_arith)
                    requires
                        -aa == bb * (q0 as int) + r0,
                ;
                lemma_fundamental_div_mod_converse(aa, bb, -(q0 as int) - 1, bb - r0);
            }
        }
        if r0 == 0 {
            -(q0 as i128)
        } else {
            -(q0 as i128) - 1
        }
    }
}

/// The integer square root as a mathematical function: the greatest
/// `s >= 0` with `s * s <= x` (and `0` for negative arguments).
pub open spec fn sqrt_floor(x: int) -> int
    decreases x,
{
    if x <= 0 {
        0
    } else {
        let s = sqrt_floor(x - 1);
        if (s + 1) * (s + 1) <= x {
            s + 1
        } else {
            s
        }
    }
}

/// `sqrt_floor` is indeed the rounded-down square root.
pub proof fn lemma_sqrt_floor_bounds(x: int)
    requires
        x >= 0,
    ensures
        0 <= sqrt_floor(x),
        sqrt_floor(x) * sqrt_floor(x) <= x,
        x < (sqrt_floor(x) + 1) * (sqrt_floor(x) + 1),
    decreases x,
{
    if x == 0 {
        assert(sqrt_floor(0) == 0);
    } else {
        lemma_sqrt_floor_bounds(x - 1);
        let s = sqrt_floor(x - 1);
        if (s + 1) * (s + 1) <= x {
            assert((s + 2) * (s + 2) > x) by (nonlinear_arith)
                requires
                    x - 1 < (s + 1) * (s + 1),
                    s >= 0,
            ;
        }
    }
}

/// Any value with the square-root bracketing property equals `sqrt_floor`.
pub proof fn lemma_isqrt_is_sqrt_floor(x: int, r: int)
    requires
        x >= 0,
        r >= 0,
        r * r <= x,
        x < (r + 1) * (r + 1),
    ensures
        r == sqrt_floor(x),
{
    lemma_sqrt_floor_bounds(x);
    let s = sqrt_floor(x);
    assert(r == s) by (nonlinear_arith)
        requires
            r >= 0,
            s >= 0,
            r * r <= x,
            x < (r + 1) * (r + 1),
            s * s <= x,
            x < (s + 1) * (s + 1),
    ;
}

/// Integer square root: the greatest `r` with `r * r <= x`.
pub fn isqrt(x: u128) -> (r: u64)
    ensures
        (r as int) * (r as int) <= x as int,
        x < ((r as int) + 1) * ((r as int) + 1),
{
    let mut lo: u128 = 0;
    let mut hi: u128 = 0x1_0000_0000_0000_0000;
    proof {
        assert(0x1_0000_0000_0000_0000int * 0x1_0000_0000_0000_0000int > u128::MAX as int);
    }
    while hi - lo > 1
        invariant
            lo < hi <= 0x1_0000_0000_0000_0000,
            (lo as int) * (lo as int) <= x as int,
            x < (hi as int) * (hi as int),
        decreases hi - lo,
    {
        let mid = lo + (hi - lo) / 2;
        proof {
            lemma_mul_bound(mid as int, mid as int, 0xffff_ffff_ffff_ffff, 0xffff_ffff_ffff_ffff);
            assert(0xffff_ffff_ffff_ffffint * 0xffff_ffff_ffff_ffffint <= u128::MAX as int);
        }
        if mid * mid <= x {
            lo = mid;
        } else {
            hi = mid;
        }
    }
    lo as u64
}

/// Product of a factor bounded by the coordinate scale and one bounded
/// by the size of a cross-product entry or vector dot product.
pub(crate) fn mulw(a: i128, b: i128) -> (r: i128)
    requires
        -2_000_000_000 <= a <= 2_000_000_000,
        -4_000_000_000_000_000_000 <= b <= 4_000_000_000_000_000_000,
    ensures
        r == a * b,
        -8_000_000_000_000_000_000_000_000_000 <= r <= 8_000_000_000_000_000_000_000_000_000,
{
    proof {
        lemma_mul_bound(a as int, b as int, 2_000_000_000, 4_000_000_000_000_000_000);
    }
    a * b
}

/// Product of two medium-sized factors.
pub(crate) fn mulm(a: i128, b: i128) -> (r: i128)
    requires
        -4_000_000_000_000_000_000 <= a <= 4_000_000_000_000_000_000,
        -4_000_000_000_000_000_000 <= b <= 4_000_000_000_000_000_000,
    ensures
        r == a * b,
        -16_000_000_000_000_000_000_000_000_000_000_000_000 <= r
            <= 16_000_000_000_000_000_000_000_000_000_000_000_000,
{
    proof {
        lemma_mul_bound(a as int, b as int, 4_000_000_000_000_000_000, 4_000_000_000_000_000_000);
    }
    a * b
}

/// Rescales an intermediate back to fixed point: floor of `p / SCALE`.
pub(crate) fn div_scale(p: i128) -> (r: i64)
    requires
        -9_000_000_000_000_000_000_000_000 <= p <= 9_000_000_000_000_000_000_000_000,
    ensures
        r == div_floor(p as int, SCALE as int),
{
    let q = divi(p, SCALE as i128);
    proof {
        lemma_div_is_ordered(p as int, 9_000_000_000_000_000_000_000_000, SCALE as int);
        lemma_div_is_ordered(-9_000_000_000_000_000_000_000_000, p as int, SCALE as int);
        lemma_fundamental_div_mod_converse(
            9_000_000_000_000_000_000_000_000, 1_000_000, 9_000_000_000_000_000_000, 0);
        lemma_fundamental_div_mod_converse(
            -9_000_000_000_000_000_000_000_000, 1_000_000, -9_000_000_000_000_000_000, 0);
    }
    q as i64
}

/// A bound on a floor quotient from a bound on the dividend in units
/// of the divisor.
pub proof fn lemma_div_bound_by(a: int, b: int, m: int)
    requires
        b >= 1,
        0 <= m,
        -(m * b) <= a <= m * b,
    ensures
        -m <= div_floor(a, b) <= m,
{
    lemma_div_is_ordered(a, m * b, b);
    lemma_div_is_ordered(-(m * b), a, b);
    lemma_fundamental_div_mod_converse(m * b, b, m, 0);
    assert(-(m * b) == (-m) * b + 0) by (nonlinear_arith);
    lemma_fundamental_div_mod_converse(-(m * b), b, -m, 0);
}

/// `v` forced into `[lo, hi]`.
pub open spec fn clamp_i(v: int, lo: int, hi: int) -> int {
    if v < lo {
        lo
    } else if v > hi {
        hi
    } else {
        v
    }
}

/// Saturates a wide intermediate into a symmetric `i64` range.
pub(crate) fn clampi(v: i128, m: i64) -> (r: i64)
    requires
        0 < m,
    ensures
        r == clamp_i(v as int, -m as int, m as int),
{
    if v < -(m as i128) {
        -m
    } else if v > m as i128 {
        m
    } else {
        v as i64
    }
}

/// Fixed-point product of two scalars: floor of `a * b / SCALE`.
pub fn fx_mul(a: i64, b: i64) -> (r: i64)
    requires
        -1_000_000_000_000 <= a <= 1_000_000_000_000,
        -1_000_000_000_000 <= b <= 1_000_000_000_000,
    ensures
        r == div_floor(a * b, SCALE as int),
{
    proof {
        lemma_mul_bound(a as int, b as int, 1_000_000_000_000, 1_000_000_000_000);
    }
    div_scale((a as i128) * (b as i128))
}

} // verus!
