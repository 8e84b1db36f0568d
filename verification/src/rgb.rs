//! Colors and the fixed-point hue/saturation/lightness conversion.
//!
//! A color is four 8-bit channels with straight (non-premultiplied)
//! alpha.  The scene renderers compute hue, saturation and lightness in
//! fixed point and turn the triple into sRGB bytes with the exact
//! integer conversion below.

use vstd::prelude::*;
use crate::fixed::FX_ONE;
use crate::fixed::spec_clamp;
use crate::fixed::clamp;

verus! {

/// One RGBA sample, 8 bits per channel, straight alpha.
#[derive(Clone, Copy, PartialEq, Eq, Structural, Debug)]
pub struct Rgba {
    pub r: u8,
    pub g: u8,
    pub b: u8,
    pub a: u8,
}

/// An opaque color from three channel bytes.
pub open spec fn spec_rgb(r: u8, g: u8, b: u8) -> Rgba {
    Rgba { r, g, b, a: 255 }
}

/// Absolute value.
pub open spec fn iabs(x: int) -> int {
    if x < 0 {
        -x
    } else {
        x
    }
}

/// Chroma of the triple: how far the color is from gray.
pub open spec fn hsl_chroma(s: int, l: int) -> int {
    (FX_ONE - iabs(2 * l - FX_ONE)) * s / (FX_ONE as int)
}

/// Secondary component for the sector of the hue hexagon.
pub open spec fn hsl_second(h: int, s: int, l: int) -> int {
    hsl_chroma(s, l) * (FX_ONE - iabs(6 * h % (2 * FX_ONE) - FX_ONE)) / (FX_ONE as int)
}

/// The raw component triple of the hue sector, before lightness offset.
pub open spec fn hsl_sector_rgb(h: int, s: int, l: int) -> (int, int, int) {
    let c = hsl_chroma(s, l);
    let x = hsl_second(h, s, l);
    let sector = 6 * h / (FX_ONE as int);
    if sector == 0 {
        (c, x, 0)
    } else if sector == 1 {
        (x, c, 0)
    } else if sector == 2 {
        (0, c, x)
    } else if sector == 3 {
        (0, x, c)
    } else if sector == 4 {
        (x, 0, c)
    } else {
        (c, 0, x)
    }
}

/// A fixed-point channel value in `[0, 1]` as a byte in `[0, 255]`.
pub open spec fn channel_byte(v: int) -> u8 {
    (spec_clamp(v, 0, FX_ONE as int) * 255 / (FX_ONE as int)) as u8
}

/// The color of the fixed-point hue/saturation/lightness triple: the
/// standard hexagonal HSL conversion carried out in exact integer
/// arithmetic, with every channel rounded down.
pub open spec fn spec_hsl_color(h: int, s: int, l: int) -> Rgba {
    let c = hsl_chroma(s, l);
    let m = l - c / 2;
    let t = hsl_sector_rgb(h, s, l);
    spec_rgb(channel_byte(t.0 + m), channel_byte(t.1 + m), channel_byte(t.2 + m))
}

/// A fixed-point channel value as a byte.
fn channel_to_byte(v: i64) -> (r: u8)
    requires
        -4 * FX_ONE <= v <= 4 * FX_ONE,
    ensures
        r == channel_byte(v as int),
{
    let cv: i64 = clamp(v, 0, FX_ONE);
    ((cv * 255) / FX_ONE) as u8
}

/// Convert a fixed-point hue/saturation/lightness triple (each
/// coordinate in `[0, 1)` for hue, `[0, 1]` otherwise) to an opaque
/// RGBA color.
pub fn hsl_color(h: i64, s: i64, l: i64) -> (r: Rgba)
    requires
        0 <= h < FX_ONE,
        0 <= s <= FX_ONE,
        0 <= l <= FX_ONE,
    ensures
        r == spec_hsl_color(h as int, s as int, l as int),
{
    let d: i64 = 2 * l - FX_ONE;
    let ad: i64 = if d < 0 {
        -d
    } else {
        d
    };
    let spread: i64 = FX_ONE - ad;
    proof {
        assert(0 <= spread * s <= FX_ONE * FX_ONE) by (nonlinear_arith)
            requires
                0 <= spread <= FX_ONE,
                0 <= s <= FX_ONE,
        ;
        assert(0 <= spread * s / (FX_ONE as int) <= FX_ONE) by (nonlinear_arith)
            requires
                0 <= spread * s <= FX_ONE * FX_ONE,
        ;
    }
    let c: i64 = spread * s / FX_ONE;
    let t: i64 = (6 * h) % (2 * FX_ONE);
    let td: i64 = t - FX_ONE;
    let atd: i64 = if td < 0 {
        -td
    } else {
        td
    };
    let xw: i64 = FX_ONE - atd;
    proof {
        assert(0 <= c * xw <= FX_ONE * FX_ONE) by (nonlinear_arith)
            requires
                0 <= c <= FX_ONE,
                0 <= xw <= FX_ONE,
        ;
        assert(0 <= c * xw / (FX_ONE as int) <= FX_ONE) by (nonlinear_arith)
            requires
                0 <= c * xw <= FX_ONE * FX_ONE,
        ;
    }
    let x: i64 = c * xw / FX_ONE;
    let sector: i64 = (6 * h) / FX_ONE;
    let m: i64 = l - c / 2;
    let (r1, g1, b1): (i64, i64, i64) = if sector == 0 {
        (c, x, 0)
    } else if sector == 1 {
        (x, c, 0)
    } else if sector == 2 {
        (0, c, x)
    } else if sector == 3 {
        (0, x, c)
    } else if sector == 4 {
        (x, 0, c)
    } else {
        (c, 0, x)
    };
    Rgba {
        r: channel_to_byte(r1 + m),
        g: channel_to_byte(g1 + m),
        b: channel_to_byte(b1 + m),
        a: 255,
    }
}

} // verus!
