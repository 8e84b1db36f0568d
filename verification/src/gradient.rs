//! The frame scene: a vertical gradient background with five radially
//! shaded squares.
//!
//! The background fades linearly from white at the top row to black at
//! the bottom row.  A centered square and four inset corner squares are
//! then painted over it, each with the same radial recipe: three fixed
//! colors, and a tunable middle stop that sets where the second color
//! sits between the center and the rim.

use vstd::prelude::*;
use crate::fixed::FX_ONE;
use crate::fixed::spec_clamp;
use crate::fixed::clamp;
use crate::rgb::Rgba;
use crate::buffer::PixelBuffer;

verus! {

/// Innermost color of the radial shading.
pub open spec fn radial_inner() -> Rgba {
    Rgba { r: 247, g: 92, b: 3, a: 255 }
}

/// Middle color of the radial shading, placed at the tunable stop.
pub open spec fn radial_middle() -> Rgba {
    Rgba { r: 255, g: 203, b: 119, a: 255 }
}

/// Rim color of the radial shading.
pub open spec fn radial_outer() -> Rgba {
    Rgba { r: 33, g: 118, b: 174, a: 255 }
}

/// The knob of the gradient scene: the position of the middle color
/// stop along the radius, a fixed-point value in `[0, 1]`.
#[derive(Clone, Copy, PartialEq, Eq, Structural, Debug)]
pub struct GradientParams {
    pub middle_stop: i64,
}

impl GradientParams {
    /// The stop is a position on the radius: it must lie in `[0, 1]`,
    /// which also keeps the three stops `0 <= middle <= 1` monotonic.
    pub open spec fn wf(self) -> bool {
        0 <= self.middle_stop <= FX_ONE
    }

    /// Decide well-formedness.
    pub fn check(&self) -> (b: bool)
        ensures
            b == self.wf(),
    {
        0 <= self.middle_stop && self.middle_stop <= FX_ONE
    }
}

/// The integer square root: the largest `r` with `r * r <= n`.
pub open spec fn spec_isqrt(n: int) -> int
    decreases n,
{
    if n <= 0 {
        0
    } else if n < 4 {
        1
    } else {
        let r = 2 * spec_isqrt(n / 4);
        if (r + 1) * (r + 1) <= n {
            r + 1
        } else {
            r
        }
    }
}

/// The integer square root brackets `n` between consecutive squares.
proof fn lemma_isqrt_bounds(n: int)
    requires
        0 <= n,
    ensures
        0 <= spec_isqrt(n),
        spec_isqrt(n) * spec_isqrt(n) <= n,
        n < (spec_isqrt(n) + 1) * (spec_isqrt(n) + 1),
    decreases n,
{
    if n <= 0 {
        assert(spec_isqrt(n) == 0);
        assert(n < 1 * 1);
    } else if n < 4 {
        assert(spec_isqrt(n) == 1);
        assert(n < 2 * 2) by (nonlinear_arith)
            requires
                n < 4,
        ;
    } else {
        lemma_isqrt_bounds(n / 4);
        let q = spec_isqrt(n / 4);
        let r = 2 * q;
        vstd::arithmetic::div_mod::lemma_fundamental_div_mod(n, 4);
        assert(r * r <= n) by (nonlinear_arith)
            requires
                0 <= q,
                q * q <= n / 4,
                r == 2 * q,
                4 * (n / 4) <= n,
        ;
        assert(n < (r + 2) * (r + 2)) by (nonlinear_arith)
            requires
                0 <= q,
                n / 4 < (q + 1) * (q + 1),
                r == 2 * q,
                n < 4 * (n / 4) + 4,
        ;
        if (r + 1) * (r + 1) <= n {
            assert(spec_isqrt(n) == r + 1);
            assert(n < (spec_isqrt(n) + 1) * (spec_isqrt(n) + 1)) by (nonlinear_arith)
                requires
                    spec_isqrt(n) == r + 1,
                    n < (r + 2) * (r + 2),
            ;
        } else {
            assert(spec_isqrt(n) == r);
            assert(n < (spec_isqrt(n) + 1) * (spec_isqrt(n) + 1)) by (nonlinear_arith)
                requires
                    spec_isqrt(n) == r,
                    !((r + 1) * (r + 1) <= n),
            ;
        }
    }
}

/// Two integers bracketing `n` the same way are equal.
proof fn lemma_isqrt_unique(n: int, a: int, b: int)
    requires
        0 <= a,
        0 <= b,
        a * a <= n < (a + 1) * (a + 1),
        b * b <= n < (b + 1) * (b + 1),
    ensures
        a == b,
{
    if a < b {
        assert(false) by (nonlinear_arith)
            requires
                0 <= a,
                a + 1 <= b,
                n < (a + 1) * (a + 1),
                b * b <= n,
        ;
    } else if b < a {
        assert(false) by (nonlinear_arith)
            requires
                0 <= b,
                b + 1 <= a,
                n < (b + 1) * (b + 1),
                a * a <= n,
        ;
    }
}

/// The integer square root of `n`, by bisection.
pub fn isqrt(n: u64) -> (r: u64)
    requires
        n <= 1_000_000_000,
    ensures
        r == spec_isqrt(n as int),
        r * r <= n,
        r <= 40_000,
{
    let mut lo: u64 = 0;
    let mut hi: u64 = 40_000;
    proof {
        assert((40_000u64 as int) * (40_000u64 as int) > 1_000_000_000) by (nonlinear_arith);
    }
    while lo + 1 < hi
        invariant
            n <= 1_000_000_000,
            lo < hi <= 40_000,
            lo * lo <= n,
            n < hi * hi,
        decreases hi - lo,
    {
        let mid: u64 = (lo + hi) / 2;
        proof {
            assert((mid as int) * (mid as int) <= 1_600_000_000) by (nonlinear_arith)
                requires
                    0 <= mid <= 40_000,
            ;
        }
        if mid * mid <= n {
            lo = mid;
        } else {
            hi = mid;
        }
    }
    proof {
        lemma_isqrt_bounds(n as int);
        lemma_isqrt_unique(n as int, lo as int, spec_isqrt(n as int));
    }
    lo
}

/// One channel interpolated `u` of the way (fixed point) from `a` to
/// `b`.
pub open spec fn lerp_channel(a: u8, b: u8, u: int) -> u8 {
    if a <= b {
        (a + (b - a) * u / (FX_ONE as int)) as u8
    } else {
        (a - (a - b) * u / (FX_ONE as int)) as u8
    }
}

/// A color interpolated `u` of the way from `a` to `b`.
pub open spec fn spec_lerp(a: Rgba, b: Rgba, u: int) -> Rgba {
    Rgba {
        r: lerp_channel(a.r, b.r, u),
        g: lerp_channel(a.g, b.g, u),
        b: lerp_channel(a.b, b.b, u),
        a: 255,
    }
}

/// A color interpolated `u` of the way from `a` to `b`, `u` in
/// `[0, 1]` fixed point.
pub fn lerp(a: Rgba, b: Rgba, u: i64) -> (r: Rgba)
    requires
        0 <= u <= FX_ONE,
    ensures
        r == spec_lerp(a, b, u as int),
{
    Rgba {
        r: lerp_channel_at(a.r, b.r, u),
        g: lerp_channel_at(a.g, b.g, u),
        b: lerp_channel_at(a.b, b.b, u),
        a: 255,
    }
}

/// One channel interpolated `u` of the way from `a` to `b`.
fn lerp_channel_at(a: u8, b: u8, u: i64) -> (r: u8)
    requires
        0 <= u <= FX_ONE,
    ensures
        r == lerp_channel(a, b, u as int),
{
    proof {
        lemma_lerp_channel(a as int, b as int, u as int);
    }
    if a <= b {
        let d: i64 = (b as i64) - (a as i64);
        ((a as i64) + d * u / FX_ONE) as u8
    } else {
        let d: i64 = (a as i64) - (b as i64);
        ((a as i64) - d * u / FX_ONE) as u8
    }
}

/// The interpolated channel stays between its endpoints.
proof fn lemma_lerp_channel(a: int, b: int, u: int)
    requires
        0 <= a <= 255,
        0 <= b <= 255,
        0 <= u <= FX_ONE,
    ensures
        a <= b ==> a <= a + (b - a) * u / (FX_ONE as int) <= b,
        b < a ==> b <= a - (a - b) * u / (FX_ONE as int) <= a,
{
    if a <= b {
        let d = b - a;
        assert(0 <= d * u <= d * FX_ONE) by (nonlinear_arith)
            requires
                0 <= d,
                0 <= u <= FX_ONE,
        ;
        assert(0 <= d * u / (FX_ONE as int) <= d) by (nonlinear_arith)
            requires
                0 <= d * u <= d * FX_ONE,
        ;
    } else {
        let d = a - b;
        assert(0 <= d * u <= d * FX_ONE) by (nonlinear_arith)
            requires
                0 <= d,
                0 <= u <= FX_ONE,
        ;
        assert(0 <= d * u / (FX_ONE as int) <= d) by (nonlinear_arith)
            requires
                0 <= d * u <= d * FX_ONE,
        ;
    }
}

/// The radial color at squared offsets inside a square of side `s`:
/// the distance to the square's center, as a fraction of the inscribed
/// radius, is placed on the three-stop ramp with the middle stop at
/// `stop`.
pub open spec fn radial_color(stop: int, s: int, dx: int, dy: int) -> Rgba {
    let half = s / 2;
    let d = spec_isqrt((dx - half) * (dx - half) + (dy - half) * (dy - half));
    let t = if half <= 0 {
        FX_ONE as int
    } else {
        spec_clamp(d * (FX_ONE as int) / half, 0, FX_ONE as int)
    };
    if t < stop {
        spec_lerp(radial_inner(), radial_middle(), t * (FX_ONE as int) / stop)
    } else if stop < FX_ONE {
        spec_lerp(radial_middle(), radial_outer(), (t - stop) * (FX_ONE as int) / (FX_ONE - stop))
    } else {
        radial_middle()
    }
}

/// The background gray of row `y`: white at the top row, black at the
/// bottom row, linear in between.
pub open spec fn background_color(y: int, h: int) -> Rgba {
    let v = if h <= 1 {
        255int
    } else {
        255 - 255 * y / (h - 1)
    };
    Rgba { r: v as u8, g: v as u8, b: v as u8, a: 255 }
}

/// The radial color for execution.
fn radial_color_at(stop: i64, s: usize, dx: usize, dy: usize) -> (r: Rgba)
    requires
        0 <= stop <= FX_ONE,
        s <= 16_383,
        dx < s,
        dy < s,
    ensures
        r == radial_color(stop as int, s as int, dx as int, dy as int),
{
    let half: i64 = (s as i64) / 2;
    let ox: i64 = (dx as i64) - half;
    let oy: i64 = (dy as i64) - half;
    proof {
        assert(ox * ox + oy * oy <= 1_000_000_000) by (nonlinear_arith)
            requires
                -16_383 <= ox <= 16_383,
                -16_383 <= oy <= 16_383,
        ;
        assert(0 <= ox * ox) by (nonlinear_arith);
        assert(0 <= oy * oy) by (nonlinear_arith);
    }
    let ci: Rgba = Rgba { r: 247, g: 92, b: 3, a: 255 };
    let cm: Rgba = Rgba { r: 255, g: 203, b: 119, a: 255 };
    let co: Rgba = Rgba { r: 33, g: 118, b: 174, a: 255 };
    let d: i64 = isqrt((ox * ox + oy * oy) as u64) as i64;
    let t: i64 = if half <= 0 {
        FX_ONE
    } else {
        proof {
            assert(0 <= d * FX_ONE) by (nonlinear_arith)
                requires
                    0 <= d,
            ;
            assert(d * FX_ONE <= 40_000 * FX_ONE) by (nonlinear_arith)
                requires
                    0 <= d <= 40_000,
            ;
        }
        clamp(d * FX_ONE / half, 0, FX_ONE)
    };
    if t < stop {
        proof {
            assert(0 <= t * FX_ONE <= stop * FX_ONE) by (nonlinear_arith)
                requires
                    0 <= t <= stop,
            ;
            assert(0 <= (t as int) * (FX_ONE as int) / (stop as int) <= FX_ONE) by (nonlinear_arith)
                requires
                    0 < stop,
                    0 <= (t as int) * (FX_ONE as int) <= (stop as int) * (FX_ONE as int),
            ;
        }
        lerp(ci, cm, t * FX_ONE / stop)
    } else if stop < FX_ONE {
        proof {
            assert(0 <= (t - stop) * FX_ONE <= (FX_ONE - stop) * FX_ONE) by (nonlinear_arith)
                requires
                    0 <= t - stop <= FX_ONE - stop,
                    0 < FX_ONE,
            ;
            assert(0 <= (t - stop) * FX_ONE / (FX_ONE - stop) <= FX_ONE) by (nonlinear_arith)
                requires
                    0 <= (t - stop) * FX_ONE <= (FX_ONE - stop) * FX_ONE,
                    0 < FX_ONE - stop,
            ;
        }
        lerp(cm, co, (t - stop) * FX_ONE / (FX_ONE - stop))
    } else {
        cm
    }
}

/// Paint the radial square with corner `(x0, y0)` and side `s` onto
/// the buffer; pixels outside the square keep their colors.
fn paint_square(buf: &mut PixelBuffer, x0: usize, y0: usize, s: usize, stop: i64)
    requires
        old(buf).wf(),
        0 <= stop <= FX_ONE,
        s <= 16_383,
        x0 + s <= old(buf).width,
        y0 + s <= old(buf).height,
    ensures
        final(buf).wf(),
        final(buf).width == old(buf).width,
        final(buf).height == old(buf).height,
        forall|x: int, y: int|
            0 <= x < old(buf).width && 0 <= y < old(buf).height
                ==> #[trigger] final(buf).spec_pixel(x, y) == (if x0 <= x < x0 + s && y0 <= y < y0 + s {
                radial_color(stop as int, s as int, x - x0, y - y0)
            } else {
                old(buf).spec_pixel(x, y)
            }),
{
    let mut dy: usize = 0;
    while dy < s
        invariant
            buf.wf(),
            buf.width == old(buf).width,
            buf.height == old(buf).height,
            0 <= stop <= FX_ONE,
            s <= 16_383,
            x0 + s <= buf.width,
            y0 + s <= buf.height,
            dy <= s,
            forall|x: int, y: int|
                0 <= x < buf.width && 0 <= y < buf.height ==> #[trigger] buf.spec_pixel(x, y) == (
                if x0 <= x < x0 + s && y0 <= y < y0 + dy {
                    radial_color(stop as int, s as int, x - x0, y - y0)
                } else {
                    old(buf).spec_pixel(x, y)
                }),
        decreases s - dy,
    {
        let mut dx: usize = 0;
        while dx < s
            invariant
                buf.wf(),
                buf.width == old(buf).width,
                buf.height == old(buf).height,
                0 <= stop <= FX_ONE,
                s <= 16_383,
                x0 + s <= buf.width,
                y0 + s <= buf.height,
                dy < s,
                dx <= s,
                forall|x: int, y: int|
                    0 <= x < buf.width && 0 <= y < buf.height ==> #[trigger] buf.spec_pixel(x, y)
                        == (if x0 <= x < x0 + s && (y0 <= y < y0 + dy || (y == y0 + dy && x < x0
                        + dx)) {
                        radial_color(stop as int, s as int, x - x0, y - y0)
                    } else {
                        old(buf).spec_pixel(x, y)
                    }),
            decreases s - dx,
        {
            let c: Rgba = radial_color_at(stop, s, dx, dy);
            buf.set_pixel(x0 + dx, y0 + dy, c);
            dx += 1;
        }
        dy += 1;
    }
}

/// Side of the five squares: a quarter of the smaller canvas extent.
pub open spec fn square_side(w: int, h: int) -> int {
    (if w <= h {
        w
    } else {
        h
    }) / 4
}

/// The finished frame-scene pixel at `(x, y)`: the last square painted
/// over the position wins (painting order: center, top-left, top-right,
/// bottom-left, bottom-right), and elsewhere the background gradient
/// shows.
pub open spec fn gradient_pixel(p: GradientParams, w: int, h: int, x: int, y: int) -> Rgba {
    let s = square_side(w, h);
    let m = s / 2;
    let cx = (w - s) / 2;
    let cy = (h - s) / 2;
    let stop = p.middle_stop as int;
    if w - m - s <= x < w - m && h - m - s <= y < h - m {
        radial_color(stop, s, x - (w - m - s), y - (h - m - s))
    } else if m <= x < m + s && h - m - s <= y < h - m {
        radial_color(stop, s, x - m, y - (h - m - s))
    } else if w - m - s <= x < w - m && m <= y < m + s {
        radial_color(stop, s, x - (w - m - s), y - m)
    } else if m <= x < m + s && m <= y < m + s {
        radial_color(stop, s, x - m, y - m)
    } else if cx <= x < cx + s && cy <= y < cy + s {
        radial_color(stop, s, x - cx, y - cy)
    } else {
        background_color(y, h)
    }
}

/// Fill the whole buffer with the vertical white-to-black background.
fn paint_background(buf: &mut PixelBuffer)
    requires
        old(buf).wf(),
        1 <= old(buf).width,
        1 <= old(buf).height,
    ensures
        final(buf).wf(),
        final(buf).width == old(buf).width,
        final(buf).height == old(buf).height,
        forall|x: int, y: int|
            0 <= x < old(buf).width && 0 <= y < old(buf).height
                ==> #[trigger] final(buf).spec_pixel(x, y) == background_color(
                y,
                old(buf).height as int,
            ),
{
    let h: usize = buf.height;
    let w: usize = buf.width;
    let mut y: usize = 0;
    while y < h
        invariant
            buf.wf(),
            buf.width == w,
            buf.height == h,
            1 <= w,
            1 <= h <= 16_383,
            y <= h,
            forall|xx: int, yy: int|
                0 <= xx < w && 0 <= yy < y ==> #[trigger] buf.spec_pixel(xx, yy)
                    == background_color(yy, h as int),
        decreases h - y,
    {
        let v: u8 = if h <= 1 {
            255
        } else {
            proof {
                assert(255 * (y as int) <= 255 * ((h - 1) as int));
                vstd::arithmetic::div_mod::lemma_div_is_ordered(
                    255 * (y as int),
                    255 * ((h - 1) as int),
                    (h - 1) as int,
                );
                vstd::arithmetic::div_mod::lemma_div_by_multiple(255, (h - 1) as int);
                assert(0 <= 255 * (y as int));
                vstd::arithmetic::div_mod::lemma_div_is_ordered(
                    0,
                    255 * (y as int),
                    (h - 1) as int,
                );
            }
            (255 - (255 * (y as i64)) / ((h as i64) - 1)) as u8
        };
        let c: Rgba = Rgba { r: v, g: v, b: v, a: 255 };
        proof {
            assert(c == background_color(y as int, h as int));
        }
        let mut x: usize = 0;
        while x < w
            invariant
                buf.wf(),
                buf.width == w,
                buf.height == h,
                1 <= w,
                1 <= h,
                y < h,
                x <= w,
                c == background_color(y as int, h as int),
                forall|xx: int, yy: int|
                    0 <= xx < w && 0 <= yy < y ==> #[trigger] buf.spec_pixel(xx, yy)
                        == background_color(yy, h as int),
                forall|xx: int|
                    0 <= xx < x ==> #[trigger] buf.spec_pixel(xx, y as int) == background_color(
                        y as int,
                        h as int,
                    ),
            decreases w - x,
        {
            buf.set_pixel(x, y, c);
            x += 1;
        }
        y += 1;
    }
}

/// Render the frame scene onto a `width` by `height` canvas: the
/// background gradient, then the five radially shaded squares in
/// painting order.
pub fn gradient(width: usize, height: usize, params: &GradientParams) -> (r: PixelBuffer)
    requires
        params.wf(),
        1 <= width <= 16_383,
        1 <= height <= 16_383,
    ensures
        r.wf(),
        r.width == width,
        r.height == height,
        forall|x: int, y: int|
            0 <= x < width && 0 <= y < height ==> #[trigger] r.spec_pixel(x, y) == gradient_pixel(
                *params,
                width as int,
                height as int,
                x,
                y,
            ),
{
    let side: usize = if width <= height {
        width
    } else {
        height
    } / 4;
    let m: usize = side / 2;
    let cx: usize = (width - side) / 2;
    let cy: usize = (height - side) / 2;
    let stop: i64 = params.middle_stop;
    let mut buf = PixelBuffer::new(width, height, Rgba { r: 0, g: 0, b: 0, a: 255 });
    paint_background(&mut buf);
    let ghost b0 = buf;
    paint_square(&mut buf, cx, cy, side, stop);
    let ghost b1 = buf;
    paint_square(&mut buf, m, m, side, stop);
    let ghost b2 = buf;
    paint_square(&mut buf, width - m - side, m, side, stop);
    let ghost b3 = buf;
    paint_square(&mut buf, m, height - m - side, side, stop);
    let ghost b4 = buf;
    paint_square(&mut buf, width - m - side, height - m - side, side, stop);
    proof {
        assert forall|x: int, y: int|
            0 <= x < width && 0 <= y < height implies #[trigger] buf.spec_pixel(x, y)
            == gradient_pixel(*params, width as int, height as int, x, y) by {
            assert(b0.spec_pixel(x, y) == background_color(y, height as int));
            assert(b1.spec_pixel(x, y) == (if cx <= x < cx + side && cy <= y < cy + side {
                radial_color(stop as int, side as int, x - cx, y - cy)
            } else {
                b0.spec_pixel(x, y)
            }));
            assert(b2.spec_pixel(x, y) == (if m <= x < m + side && m <= y < m + side {
                radial_color(stop as int, side as int, x - m, y - m)
            } else {
                b1.spec_pixel(x, y)
            }));
            assert(b3.spec_pixel(x, y) == (if width - m - side <= x < width - m && m <= y < m
                + side {
                radial_color(stop as int, side as int, x - (width - m - side), y - m)
            } else {
                b2.spec_pixel(x, y)
            }));
            assert(b4.spec_pixel(x, y) == (if m <= x < m + side && height - m - side <= y < height
                - m {
                radial_color(stop as int, side as int, x - m, y - (height - m - side))
            } else {
                b3.spec_pixel(x, y)
            }));
            assert(buf.spec_pixel(x, y) == (if width - m - side <= x < width - m && height - m
                - side <= y < height - m {
                radial_color(
                    stop as int,
                    side as int,
                    x - (width - m - side),
                    y - (height - m - side),
                )
            } else {
                b4.spec_pixel(x, y)
            }));
        }
    }
    buf
}

} // verus!
