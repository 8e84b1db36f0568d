//! Fixed-point arithmetic helpers.
//!
//! A value of `1.0` is stored as `FX_ONE` (one million), so the unit
//! interval `[0, 1]` becomes the integer range `[0, FX_ONE]`.  Division
//! truncates toward zero; every helper restricts its inputs so that
//! truncation and flooring agree and no intermediate overflows.

use vstd::prelude::*;

verus! {

/// One whole unit in the fixed-point encoding.
pub const FX_ONE: i64 = 1_000_000;

/// A full turn (two pi) in fixed-point micro-radians.
pub const FX_TAU: i64 = 6_283_185;

/// Half a turn (pi) in fixed-point micro-radians.
pub const FX_PI: i64 = 3_141_592;

/// Clamp `x` into `[lo, hi]`.
pub open spec fn spec_clamp(x: int, lo: int, hi: int) -> int {
    if x < lo {
        lo
    } else if x > hi {
        hi
    } else {
        x
    }
}

/// Clamp `x` into `[lo, hi]`.
pub fn clamp(x: i64, lo: i64, hi: i64) -> (r: i64)
    requires
        lo <= hi,
    ensures
        r == spec_clamp(x as int, lo as int, hi as int),
{
    if x < lo {
        lo
    } else if x > hi {
        hi
    } else {
        x
    }
}

/// Affine remap of `x` from the interval `[a, b)` onto `[c, d]`,
/// with the quotient rounded toward negative infinity.
pub open spec fn spec_map_range(x: int, a: int, b: int, c: int, d: int) -> int {
    c + (x - a) * (d - c) / (b - a)
}

/// Affine remap of `x` from `[a, b)` onto `[c, d]`.  The result always
/// lies in `[c, d]`.
pub fn map_range(x: i64, a: i64, b: i64, c: i64, d: i64) -> (r: i64)
    requires
        a <= x < b,
        c <= d,
        0 <= b - a <= 16 * FX_ONE,
        0 <= d - c <= 16 * FX_ONE,
        -16 * FX_ONE <= c <= 16 * FX_ONE,
    ensures
        r == spec_map_range(x as int, a as int, b as int, c as int, d as int),
        c <= r <= d,
{
    let xa: i64 = x - a;
    let dc: i64 = d - c;
    let den: i64 = b - a;
    proof {
        assert(0 <= (xa as int) * (dc as int) <= (den as int) * (dc as int) <= 256 * FX_ONE
            * FX_ONE) by (nonlinear_arith)
            requires
                0 <= xa < den <= 16 * FX_ONE,
                0 <= dc <= 16 * FX_ONE,
        ;
        assert(0 <= (xa as int) * (dc as int) / (den as int) <= dc) by (nonlinear_arith)
            requires
                0 < den,
                0 <= dc,
                0 <= (xa as int) * (dc as int) <= (den as int) * (dc as int),
        ;
    }
    let q: i64 = (xa * dc) / den;
    c + q
}

/// Euclidean remainder: the representative of `x` modulo `m` in `[0, m)`.
pub open spec fn spec_emod(x: int, m: int) -> int {
    x % m
}

/// Euclidean remainder of `x` modulo `m`, always in `[0, m)`.
pub fn emod(x: i64, m: i64) -> (r: i64)
    requires
        0 < m,
        i64::MIN < x,
    ensures
        r == spec_emod(x as int, m as int),
        0 <= r < m,
{
    if x >= 0 {
        x % m
    } else {
        let t: i64 = (-x) % m;
        if t == 0 {
            proof {
                let q = (-(x as int)) / (m as int);
                vstd::arithmetic::div_mod::lemma_fundamental_div_mod(-(x as int), m as int);
                assert(x as int == (m as int) * (-q) + 0) by (nonlinear_arith)
                    requires
                        -(x as int) == (m as int) * q + (-(x as int)) % (m as int),
                        (-(x as int)) % (m as int) == 0,
                ;
                vstd::arithmetic::div_mod::lemma_mod_multiples_vanish(-q, 0, m as int);
                vstd::arithmetic::div_mod::lemma_small_mod(0, m as nat);
            }
            0
        } else {
            proof {
                let q = (-(x as int)) / (m as int);
                vstd::arithmetic::div_mod::lemma_fundamental_div_mod(-(x as int), m as int);
                assert(x as int == (m as int) * (-q - 1) + (m - t)) by (nonlinear_arith)
                    requires
                        -(x as int) == (m as int) * q + t,
                ;
                vstd::arithmetic::div_mod::lemma_mod_multiples_vanish(-q - 1, m - t, m as int);
                vstd::arithmetic::div_mod::lemma_small_mod((m - t) as nat, m as nat);
            }
            m - t
        }
    }
}

/// The effective extent of one canvas axis after supersampling by the
/// fixed-point factor `scale`.
pub open spec fn scaled_dim(d: int, scale: int) -> int {
    d * scale / (FX_ONE as int)
}

/// The canvas and scale are usable: a positive scale up to one
/// hundred, and effective extents between one pixel and the supported
/// maximum.
pub open spec fn dims_ok(w: int, h: int, scale: int) -> bool {
    &&& 0 < scale <= 100 * FX_ONE
    &&& 0 < w <= 65_535
    &&& 0 < h <= 65_535
    &&& 1 <= scaled_dim(w, scale) <= 16_383
    &&& 1 <= scaled_dim(h, scale) <= 16_383
}

/// One axis extent after supersampling.
pub fn scale_dim(d: u32, scale: i64) -> (r: i64)
    requires
        0 < scale <= 100 * FX_ONE,
        d <= 65_535,
    ensures
        r == scaled_dim(d as int, scale as int),
        0 <= r,
{
    proof {
        assert(0 <= (d as int) * (scale as int) <= 65_535 * (100 * FX_ONE)) by (nonlinear_arith)
            requires
                0 <= d <= 65_535,
                0 < scale <= 100 * FX_ONE,
        ;
        assert(0 <= (d as int) * (scale as int) / (FX_ONE as int)) by (nonlinear_arith)
            requires
                0 <= (d as int) * (scale as int),
        ;
    }
    (d as i64) * scale / FX_ONE
}

} // verus!
