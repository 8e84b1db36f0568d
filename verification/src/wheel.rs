//! The color-wheel scene.
//!
//! Every vertical pixel column of the canvas gets one uniform color:
//! hue comes from the circular anchor map over four hue anchors,
//! saturation and lightness from the linear anchor map over their
//! anchors, each optionally phase-shifted, and the triple is converted
//! to an opaque RGBA color.  The result is a banded spectrum strip.

use vstd::prelude::*;
use crate::fixed::FX_ONE;
use crate::fixed::scaled_dim;
use crate::fixed::dims_ok;
use crate::fixed::scale_dim;
use crate::fixed::emod;
use crate::color::anchors_wf;
use crate::color::ints;
use crate::color::spec_map_circle;
use crate::color::spec_map_interval;
use crate::color::map_circle;
use crate::color::map_interval;
use crate::rgb::Rgba;
use crate::rgb::spec_hsl_color;
use crate::rgb::hsl_color;
use crate::buffer::PixelBuffer;
use crate::halton::lemma_coord_range;

verus! {

/// Half-width of the pure hue zone around each hue anchor.
pub const HUE_BAND: i64 = 50_000;

/// Half-width of the zone around each saturation or lightness anchor.
pub const SL_BAND: i64 = 100_000;

/// The knobs of the wheel scene: four hue anchors, four saturation
/// anchors, three lightness anchors and two phase offsets, all
/// fixed-point values in `[0, 1]`.
#[derive(Clone, Copy, PartialEq, Eq, Structural, Debug)]
pub struct WheelParams {
    pub hue1: i64,
    pub hue2: i64,
    pub hue3: i64,
    pub hue4: i64,
    pub sat1: i64,
    pub sat2: i64,
    pub sat3: i64,
    pub sat4: i64,
    pub light1: i64,
    pub light2: i64,
    pub light3: i64,
    pub sat_offset: i64,
    pub light_offset: i64,
}

impl WheelParams {
    /// The hue anchors in order.
    pub open spec fn hues(self) -> Seq<int> {
        seq![self.hue1 as int, self.hue2 as int, self.hue3 as int, self.hue4 as int]
    }

    /// The saturation anchors in order.
    pub open spec fn sats(self) -> Seq<int> {
        seq![self.sat1 as int, self.sat2 as int, self.sat3 as int, self.sat4 as int]
    }

    /// The lightness anchors in order.
    pub open spec fn lights(self) -> Seq<int> {
        seq![self.light1 as int, self.light2 as int, self.light3 as int]
    }

    /// Every knob lies in `[0, 1]`.
    pub open spec fn in_range(self) -> bool {
        &&& 0 <= self.hue1 <= FX_ONE
        &&& 0 <= self.hue2 <= FX_ONE
        &&& 0 <= self.hue3 <= FX_ONE
        &&& 0 <= self.hue4 <= FX_ONE
        &&& 0 <= self.sat1 <= FX_ONE
        &&& 0 <= self.sat2 <= FX_ONE
        &&& 0 <= self.sat3 <= FX_ONE
        &&& 0 <= self.sat4 <= FX_ONE
        &&& 0 <= self.light1 <= FX_ONE
        &&& 0 <= self.light2 <= FX_ONE
        &&& 0 <= self.light3 <= FX_ONE
        &&& 0 <= self.sat_offset <= FX_ONE
        &&& 0 <= self.light_offset <= FX_ONE
    }

    /// Each anchor family is nondecreasing.
    pub open spec fn sorted(self) -> bool {
        &&& self.hue1 <= self.hue2 <= self.hue3 <= self.hue4
        &&& self.sat1 <= self.sat2 <= self.sat3 <= self.sat4
        &&& self.light1 <= self.light2 <= self.light3
    }

    /// A well-formed parameter set: knobs in range and anchors ordered.
    pub open spec fn wf(self) -> bool {
        self.in_range() && self.sorted()
    }

    /// Build a parameter set from its thirteen knobs.
    pub fn new(
        hue1: i64,
        hue2: i64,
        hue3: i64,
        hue4: i64,
        sat1: i64,
        sat2: i64,
        sat3: i64,
        sat4: i64,
        light1: i64,
        light2: i64,
        light3: i64,
        sat_offset: i64,
        light_offset: i64,
    ) -> (r: WheelParams)
        ensures
            r == (WheelParams {
                hue1,
                hue2,
                hue3,
                hue4,
                sat1,
                sat2,
                sat3,
                sat4,
                light1,
                light2,
                light3,
                sat_offset,
                light_offset,
            }),
    {
        WheelParams {
            hue1,
            hue2,
            hue3,
            hue4,
            sat1,
            sat2,
            sat3,
            sat4,
            light1,
            light2,
            light3,
            sat_offset,
            light_offset,
        }
    }

    /// Decide whether every knob lies in `[0, 1]`.
    pub fn check_in_range(&self) -> (b: bool)
        ensures
            b == self.in_range(),
    {
        0 <= self.hue1 && self.hue1 <= FX_ONE && 0 <= self.hue2 && self.hue2 <= FX_ONE && 0
            <= self.hue3 && self.hue3 <= FX_ONE && 0 <= self.hue4 && self.hue4 <= FX_ONE && 0
            <= self.sat1 && self.sat1 <= FX_ONE && 0 <= self.sat2 && self.sat2 <= FX_ONE && 0
            <= self.sat3 && self.sat3 <= FX_ONE && 0 <= self.sat4 && self.sat4 <= FX_ONE && 0
            <= self.light1 && self.light1 <= FX_ONE && 0 <= self.light2 && self.light2 <= FX_ONE
            && 0 <= self.light3 && self.light3 <= FX_ONE && 0 <= self.sat_offset
            && self.sat_offset <= FX_ONE && 0 <= self.light_offset && self.light_offset <= FX_ONE
    }

    /// Decide whether each anchor family is nondecreasing.
    pub fn check_sorted(&self) -> (b: bool)
        ensures
            b == self.sorted(),
    {
        self.hue1 <= self.hue2 && self.hue2 <= self.hue3 && self.hue3 <= self.hue4 && self.sat1
            <= self.sat2 && self.sat2 <= self.sat3 && self.sat3 <= self.sat4 && self.light1
            <= self.light2 && self.light2 <= self.light3
    }
}

/// The horizontal position of column `i` of `w`, as a fixed-point
/// fraction of the sweep in `[0, 1)`.
pub open spec fn column_frac(i: int, w: int) -> int {
    i * (FX_ONE as int) / w
}

/// The color of column `i` of a `w`-column wheel canvas: hue from the
/// circular map, saturation and lightness from the linear map at the
/// phase-shifted position, converted to RGBA.
pub open spec fn wheel_column_color(p: WheelParams, i: int, w: int) -> Rgba {
    let t = column_frac(i, w);
    let hx = spec_map_circle(p.hues(), HUE_BAND as int, t);
    let sx = spec_map_interval(p.sats(), SL_BAND as int, (t + p.sat_offset) % (FX_ONE as int));
    let lx = spec_map_interval(p.lights(), SL_BAND as int, (t + p.light_offset) % (FX_ONE as int));
    spec_hsl_color(hx, sx, lx)
}

/// Render the wheel scene onto a `width` by `height` canvas
/// supersampled by `scale`: every column `i` of the effective canvas
/// is filled top to bottom with `wheel_column_color`.
pub fn wheel(width: u32, height: u32, scale: i64, params: &WheelParams) -> (r: PixelBuffer)
    requires
        params.wf(),
        dims_ok(width as int, height as int, scale as int),
    ensures
        r.wf(),
        r.width == scaled_dim(width as int, scale as int),
        r.height == scaled_dim(height as int, scale as int),
        forall|x: int, y: int|
            0 <= x < r.width && 0 <= y < r.height ==> #[trigger] r.spec_pixel(x, y)
                == wheel_column_color(*params, x, scaled_dim(width as int, scale as int)),
{
    let width: usize = scale_dim(width, scale) as usize;
    let height: usize = scale_dim(height, scale) as usize;
    let hues: Vec<i64> = vec![params.hue1, params.hue2, params.hue3, params.hue4];
    let sats: Vec<i64> = vec![params.sat1, params.sat2, params.sat3, params.sat4];
    let lights: Vec<i64> = vec![params.light1, params.light2, params.light3];
    proof {
        assert(ints(hues@) =~= params.hues());
        assert(ints(sats@) =~= params.sats());
        assert(ints(lights@) =~= params.lights());
        assert(anchors_wf(params.hues()));
        assert(anchors_wf(params.sats()));
        assert(anchors_wf(params.lights()));
    }
    let mut buf = PixelBuffer::new(width, height, Rgba { r: 0, g: 0, b: 0, a: 255 });
    let mut x: usize = 0;
    while x < width
        invariant
            params.wf(),
            1 <= width <= 16_383,
            1 <= height <= 16_383,
            ints(hues@) == params.hues(),
            ints(sats@) == params.sats(),
            ints(lights@) == params.lights(),
            anchors_wf(params.hues()),
            anchors_wf(params.sats()),
            anchors_wf(params.lights()),
            buf.wf(),
            buf.width == width,
            buf.height == height,
            x <= width,
            forall|c: int, y: int|
                0 <= c < x && 0 <= y < height ==> #[trigger] buf.spec_pixel(c, y)
                    == wheel_column_color(*params, c, width as int),
        decreases width - x,
    {
        proof {
            lemma_coord_range(FX_ONE as int, x as nat, width as nat);
            assert((x as int) * (FX_ONE as int) == (FX_ONE as int) * (x as int));
        }
        let t: i64 = (x as i64) * FX_ONE / (width as i64);
        proof {
            assert(t == column_frac(x as int, width as int));
            assert(0 <= t < FX_ONE);
        }
        let hx: i64 = map_circle(hues.as_slice(), HUE_BAND, t);
        let ts: i64 = emod(t + params.sat_offset, FX_ONE);
        let tl: i64 = emod(t + params.light_offset, FX_ONE);
        let sx: i64 = map_interval(sats.as_slice(), SL_BAND, ts);
        let lx: i64 = map_interval(lights.as_slice(), SL_BAND, tl);
        let col: Rgba = hsl_color(hx, sx, lx);
        proof {
            assert(col == wheel_column_color(*params, x as int, width as int));
        }
        let mut y: usize = 0;
        while y < height
            invariant
                buf.wf(),
                buf.width == width,
                buf.height == height,
                x < width,
                y <= height,
                col == wheel_column_color(*params, x as int, width as int),
                forall|c: int, yy: int|
                    0 <= c < x && 0 <= yy < height ==> #[trigger] buf.spec_pixel(c, yy)
                        == wheel_column_color(*params, c, width as int),
                forall|yy: int|
                    0 <= yy < y ==> #[trigger] buf.spec_pixel(x as int, yy) == col,
            decreases height - y,
        {
            buf.set_pixel(x, y, col);
            y += 1;
        }
        x += 1;
    }
    buf
}

} // verus!
