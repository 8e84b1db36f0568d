//! The noise field that steers flow lines.
//!
//! A deterministic multi-octave lattice noise: integer lattice corners
//! get pseudo-random values from an arithmetic hash, values are
//! bilinearly interpolated between corners, and octaves are summed with
//! frequencies growing by the lacunarity and amplitudes shrinking by
//! the persistence.  The value at a point is then scaled by the output
//! gain and wrapped into `[0, 2 pi)` to give the local flow angle.
//! Everything is exact fixed-point arithmetic with a fixed internal
//! seed, so the field is identical across renders.

use vstd::prelude::*;
use crate::fixed::FX_ONE;
use crate::fixed::FX_TAU;
use crate::fixed::spec_emod;
use crate::fixed::emod;

verus! {

/// Multiplier for the horizontal lattice coordinate in the corner hash.
pub const HASH_X: i64 = 374_761_393;

/// Multiplier for the vertical lattice coordinate in the corner hash.
pub const HASH_Y: i64 = 668_265_263;

/// Additive constant in the corner hash: the field's fixed seed.
pub const HASH_SEED: i64 = 1_442_695_041;

/// Modulus of the corner hash, a Mersenne prime.
pub const HASH_MOD: i64 = 2_147_483_647;

/// The knobs of the noise field.
#[derive(Clone, Copy, PartialEq, Eq, Structural, Debug)]
pub struct NoiseParams {
    /// Number of octaves summed, at least one.
    pub octaves: u32,
    /// Frequency multiplier per octave, fixed point.
    pub lacunarity: i64,
    /// Amplitude multiplier per octave, fixed point.
    pub persistence: i64,
    /// Spatial frequency applied to the input coordinates, fixed point.
    pub noise_scale: i64,
    /// Output gain applied to the summed noise value, fixed point.
    pub noise_factor: i64,
}

impl NoiseParams {
    /// Octave count and multipliers stay in the ranges where every
    /// intermediate product fits the machine word.
    pub open spec fn wf(self) -> bool {
        &&& 1 <= self.octaves <= 8
        &&& 0 <= self.lacunarity <= 4 * FX_ONE
        &&& 0 <= self.persistence <= FX_ONE
        &&& 0 <= self.noise_scale <= 10_000
        &&& 0 <= self.noise_factor <= 100 * FX_ONE
    }

    /// Decide well-formedness.
    pub fn check(&self) -> (b: bool)
        ensures
            b == self.wf(),
    {
        1 <= self.octaves && self.octaves <= 8 && 0 <= self.lacunarity && self.lacunarity <= 4
            * FX_ONE && 0 <= self.persistence && self.persistence <= FX_ONE && 0
            <= self.noise_scale && self.noise_scale <= 10_000 && 0 <= self.noise_factor
            && self.noise_factor <= 100 * FX_ONE
    }
}

/// The pseudo-random lattice value at integer corner `(ix, iy)`, a
/// fixed-point value in `[0, 1]`.
#[verifier::opaque]
pub open spec fn lattice_value(ix: int, iy: int) -> int {
    let t = (ix * HASH_X + iy * HASH_Y + HASH_SEED) % (HASH_MOD as int);
    (t * t + t) % (HASH_MOD as int) % (FX_ONE + 1)
}

/// The bilinearly interpolated lattice noise at the nonnegative
/// fixed-point position `(u, v)`, in `[0, 1]`.
#[verifier::opaque]
pub open spec fn value_noise(u: int, v: int) -> int {
    let iu = u / (FX_ONE as int);
    let iv = v / (FX_ONE as int);
    let fu = u % (FX_ONE as int);
    let fv = v % (FX_ONE as int);
    let n00 = lattice_value(iu, iv);
    let n10 = lattice_value(iu + 1, iv);
    let n01 = lattice_value(iu, iv + 1);
    let n11 = lattice_value(iu + 1, iv + 1);
    let nx0 = blend(n00, n10, fu);
    let nx1 = blend(n01, n11, fu);
    blend(nx0, nx1, fv)
}

/// Linear interpolation between `a` and `b` by the fixed-point
/// fraction `f`.
pub open spec fn blend(a: int, b: int, f: int) -> int {
    (a * (FX_ONE - f) + b * f) / (FX_ONE as int)
}

/// A possibly negative fixed-point value scaled by a nonnegative
/// fixed-point gain, rounding the magnitude down.
pub open spec fn gain(v: int, g: int) -> int {
    if v >= 0 {
        g * v / (FX_ONE as int)
    } else {
        -(g * (-v) / (FX_ONE as int))
    }
}

/// The weighted sum of `o` octaves of centered lattice noise at the
/// nonnegative position `(u, v)`, starting at frequency `freq` and
/// amplitude `amp`.
pub open spec fn fractal_noise(
    u: int,
    v: int,
    o: nat,
    freq: int,
    amp: int,
    lac: int,
    pers: int,
) -> int
    decreases o,
{
    if o == 0 {
        0
    } else {
        let centered = 2 * value_noise(u * freq / (FX_ONE as int), v * freq / (FX_ONE as int))
            - FX_ONE;
        let grown = freq * lac / (FX_ONE as int);
        let next_freq = if grown > 17_000 * FX_ONE {
            17_000 * (FX_ONE as int)
        } else {
            grown
        };
        gain(centered, amp) + fractal_noise(
            u,
            v,
            (o - 1) as nat,
            next_freq,
            amp * pers / (FX_ONE as int),
            lac,
            pers,
        )
    }
}

/// The flow angle at canvas position `(x, y)` (fixed-point pixels):
/// the fractal noise value at the scaled position, amplified by the
/// output gain and wrapped into `[0, 2 pi)` micro-radians.
pub open spec fn spec_angle_at(p: NoiseParams, x: int, y: int) -> int {
    let u = x * p.noise_scale / (FX_ONE as int);
    let v = y * p.noise_scale / (FX_ONE as int);
    let n = fractal_noise(u, v, p.octaves as nat, FX_ONE as int, FX_ONE as int, p.lacunarity as int, p.persistence as int);
    spec_emod(gain(n, p.noise_factor as int), FX_TAU as int)
}

/// A convex blend of two values in `[0, 1]` stays in `[0, 1]`.
proof fn lemma_blend_range(a: int, b: int, f: int)
    requires
        0 <= a <= FX_ONE,
        0 <= b <= FX_ONE,
        0 <= f < FX_ONE,
    ensures
        0 <= blend(a, b, f) <= FX_ONE,
{
    assert(0 <= a * (FX_ONE - f) <= FX_ONE * (FX_ONE - f)) by (nonlinear_arith)
        requires
            0 <= a <= FX_ONE,
            0 <= FX_ONE - f,
    ;
    assert(0 <= b * f <= FX_ONE * f) by (nonlinear_arith)
        requires
            0 <= b <= FX_ONE,
            0 <= f,
    ;
    assert(FX_ONE * (FX_ONE - f) + FX_ONE * f == FX_ONE * FX_ONE) by (nonlinear_arith);
    assert(0 <= (a * (FX_ONE - f) + b * f) / (FX_ONE as int) <= FX_ONE) by (nonlinear_arith)
        requires
            0 <= a * (FX_ONE - f) + b * f <= FX_ONE * FX_ONE,
    ;
}

/// The corner hash for execution.
fn lattice_value_at(ix: i64, iy: i64) -> (r: i64)
    requires
        0 <= ix <= 4_000_000_000,
        0 <= iy <= 4_000_000_000,
    ensures
        r == lattice_value(ix as int, iy as int),
        0 <= r <= FX_ONE,
{
    proof {
        reveal(lattice_value);
        assert(0 <= ix * HASH_X <= 4_000_000_000 * HASH_X) by (nonlinear_arith)
            requires
                0 <= ix <= 4_000_000_000,
        ;
        assert(0 <= iy * HASH_Y <= 4_000_000_000 * HASH_Y) by (nonlinear_arith)
            requires
                0 <= iy <= 4_000_000_000,
        ;
    }
    let t: i64 = (ix * HASH_X + iy * HASH_Y + HASH_SEED) % HASH_MOD;
    proof {
        assert(0 <= t < HASH_MOD);
        assert(0 <= t * t <= HASH_MOD * HASH_MOD) by (nonlinear_arith)
            requires
                0 <= t < HASH_MOD,
        ;
    }
    let t2: i64 = (t * t + t) % HASH_MOD;
    t2 % (FX_ONE + 1)
}

/// Linear interpolation for execution.
#[verifier::spinoff_prover]
fn blend_at(a: i64, b: i64, f: i64) -> (r: i64)
    requires
        0 <= a <= FX_ONE,
        0 <= b <= FX_ONE,
        0 <= f < FX_ONE,
    ensures
        r == blend(a as int, b as int, f as int),
        0 <= r <= FX_ONE,
{
    proof {
        lemma_mul_fits(a as int, (FX_ONE - f) as int);
        lemma_mul_fits(b as int, f as int);
        lemma_blend_range(a as int, b as int, f as int);
    }
    (a * (FX_ONE - f) + b * f) / FX_ONE
}

/// Scale a possibly negative value by a nonnegative gain.
#[verifier::spinoff_prover]
fn gain_at(v: i64, g: i64) -> (r: i64)
    requires
        -16 * FX_ONE <= v <= 16 * FX_ONE,
        0 <= g <= 100 * FX_ONE,
    ensures
        r == gain(v as int, g as int),
        -1600 * FX_ONE <= r <= 1600 * FX_ONE,
        -FX_ONE <= v <= FX_ONE && g <= FX_ONE ==> -g <= r <= g,
{
    let mag: i64 = if v >= 0 {
        v
    } else {
        -v
    };
    proof {
        assert(0 <= g * mag <= (100 * FX_ONE) * (16 * FX_ONE)) by (nonlinear_arith)
            requires
                0 <= g <= 100 * FX_ONE,
                0 <= mag <= 16 * FX_ONE,
        ;
        assert(0 <= (g as int) * (mag as int) / (FX_ONE as int) <= 1600 * FX_ONE)
            by (nonlinear_arith)
            requires
                0 <= (g as int) * (mag as int) <= (100 * FX_ONE) * (16 * FX_ONE),
        ;
        if -FX_ONE <= v <= FX_ONE && g <= FX_ONE {
            assert(g * mag <= g * FX_ONE) by (nonlinear_arith)
                requires
                    0 <= g,
                    mag <= FX_ONE,
            ;
            assert((g as int) * (mag as int) / (FX_ONE as int) <= g) by (nonlinear_arith)
                requires
                    0 <= (g as int) * (mag as int) <= (g as int) * FX_ONE,
                    0 <= g,
            ;
        }
    }
    let scaled: i64 = g * mag / FX_ONE;
    if v >= 0 {
        scaled
    } else {
        -scaled
    }
}

/// The bilinear lattice noise for execution.
#[verifier::spinoff_prover]
fn value_noise_at(u: i64, v: i64) -> (r: i64)
    requires
        0 <= u <= 3_000_000_000_000_000,
        0 <= v <= 3_000_000_000_000_000,
    ensures
        r == value_noise(u as int, v as int),
        0 <= r <= FX_ONE,
{
    proof {
        reveal(value_noise);
    }
    let iu: i64 = u / FX_ONE;
    let iv: i64 = v / FX_ONE;
    let fu: i64 = u % FX_ONE;
    let fv: i64 = v % FX_ONE;
    let n00: i64 = lattice_value_at(iu, iv);
    let n10: i64 = lattice_value_at(iu + 1, iv);
    let n01: i64 = lattice_value_at(iu, iv + 1);
    let n11: i64 = lattice_value_at(iu + 1, iv + 1);
    let nx0: i64 = blend_at(n00, n10, fu);
    let nx1: i64 = blend_at(n01, n11, fu);
    blend_at(nx0, nx1, fv)
}

/// Products of two values in `[0, 1]` fixed point fit comfortably.
proof fn lemma_mul_fits(a: int, b: int)
    requires
        0 <= a <= FX_ONE,
        0 <= b <= FX_ONE,
    ensures
        0 <= a * b <= FX_ONE * FX_ONE,
{
    assert(0 <= a * b <= FX_ONE * FX_ONE) by (nonlinear_arith)
        requires
            0 <= a <= FX_ONE,
            0 <= b <= FX_ONE,
    ;
}

/// The fractal sum for execution, by recursion over the octaves.
#[verifier::rlimit(100)]
#[verifier::spinoff_prover]
fn fractal_noise_at(u: i64, v: i64, o: u32, freq: i64, amp: i64, lac: i64, pers: i64) -> (r: i64)
    requires
        0 <= u <= 200_000_000,
        0 <= v <= 200_000_000,
        o <= 8,
        0 <= freq <= 17_000 * FX_ONE,
        0 <= amp <= FX_ONE,
        0 <= lac <= 4 * FX_ONE,
        0 <= pers <= FX_ONE,
    ensures
        r == fractal_noise(u as int, v as int, o as nat, freq as int, amp as int, lac as int, pers as int),
        -(o as i64) * FX_ONE <= r <= (o as i64) * FX_ONE,
    decreases o,
{
    if o == 0 {
        0
    } else {
        proof {
            assert(0 <= u * freq <= 200_000_000 * (17_000 * FX_ONE)) by (nonlinear_arith)
                requires
                    0 <= u <= 200_000_000,
                    0 <= freq <= 17_000 * FX_ONE,
            ;
            assert(0 <= v * freq <= 200_000_000 * (17_000 * FX_ONE)) by (nonlinear_arith)
                requires
                    0 <= v <= 200_000_000,
                    0 <= freq <= 17_000 * FX_ONE,
            ;
            assert(0 <= (u as int) * (freq as int) / (FX_ONE as int) <= 3_000_000_000_000_000) by (nonlinear_arith)
                requires
                    0 <= u * freq <= 200_000_000 * (17_000 * FX_ONE),
            ;
            assert(0 <= (v as int) * (freq as int) / (FX_ONE as int) <= 3_000_000_000_000_000) by (nonlinear_arith)
                requires
                    0 <= v * freq <= 200_000_000 * (17_000 * FX_ONE),
            ;
        }
        let n: i64 = value_noise_at(u * freq / FX_ONE, v * freq / FX_ONE);
        let centered: i64 = 2 * n - FX_ONE;
        proof {
            assert(0 <= (freq as int) * (lac as int) <= 68_000_000_000_000_000)
                by (nonlinear_arith)
                requires
                    0 <= freq <= 17_000 * FX_ONE,
                    0 <= lac <= 4 * FX_ONE,
            ;
            assert(0 <= amp * pers <= FX_ONE * FX_ONE) by (nonlinear_arith)
                requires
                    0 <= amp <= FX_ONE,
                    0 <= pers <= FX_ONE,
            ;
            assert(0 <= (amp as int) * (pers as int) / (FX_ONE as int) <= FX_ONE) by (nonlinear_arith)
                requires
                    0 <= amp * pers <= FX_ONE * FX_ONE,
            ;
        }
        let part: i64 = gain_at(centered, amp);
        let next_freq_raw: i64 = freq * lac / FX_ONE;
        let next_freq: i64 = if next_freq_raw > 17_000 * FX_ONE {
            17_000 * FX_ONE
        } else {
            next_freq_raw
        };
        let rest: i64 = fractal_noise_at(u, v, o - 1, next_freq, amp * pers / FX_ONE, lac, pers);
        part + rest
    }
}

/// The flow angle for execution.
pub fn angle_at(p: &NoiseParams, x: i64, y: i64) -> (r: i64)
    requires
        p.wf(),
        0 <= x <= 20_000 * FX_ONE,
        0 <= y <= 20_000 * FX_ONE,
    ensures
        r == spec_angle_at(*p, x as int, y as int),
        0 <= r < FX_TAU,
{
    proof {
        assert(0 <= x * p.noise_scale <= (20_000 * FX_ONE) * 10_000) by (nonlinear_arith)
            requires
                0 <= x <= 20_000 * FX_ONE,
                0 <= p.noise_scale <= 10_000,
        ;
        assert(0 <= y * p.noise_scale <= (20_000 * FX_ONE) * 10_000) by (nonlinear_arith)
            requires
                0 <= y <= 20_000 * FX_ONE,
                0 <= p.noise_scale <= 10_000,
        ;
        assert(0 <= (x as int) * (p.noise_scale as int) / (FX_ONE as int) <= 200_000_000)
            by (nonlinear_arith)
            requires
                0 <= (x as int) * (p.noise_scale as int) <= (20_000 * FX_ONE) * 10_000,
        ;
        assert(0 <= (y as int) * (p.noise_scale as int) / (FX_ONE as int) <= 200_000_000)
            by (nonlinear_arith)
            requires
                0 <= (y as int) * (p.noise_scale as int) <= (20_000 * FX_ONE) * 10_000,
        ;
    }
    let u: i64 = x * p.noise_scale / FX_ONE;
    let v: i64 = y * p.noise_scale / FX_ONE;
    let n: i64 = fractal_noise_at(u, v, p.octaves, FX_ONE, FX_ONE, p.lacunarity, p.persistence);
    let amplified: i64 = gain_at(n, p.noise_factor);
    emod(amplified, FX_TAU)
}

} // verus!
