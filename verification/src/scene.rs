//! The render entry point.
//!
//! A scene is one of three parameter sets; `render` checks the canvas
//! and the parameters, and either paints the scene at the scaled size
//! or reports exactly why the configuration is unusable.  Rendering is
//! a pure function of its arguments: the contracts pin every pixel of
//! the wheel and frame scenes, and two calls with equal arguments
//! yield byte-identical buffers.

use vstd::prelude::*;
use crate::fixed::FX_ONE;
use crate::fixed::scaled_dim;
use crate::fixed::dims_ok;
use crate::fixed::scale_dim;
use crate::buffer::PixelBuffer;
use crate::wheel::WheelParams;
use crate::wheel::wheel_column_color;
use crate::wheel::wheel;
use crate::gradient::GradientParams;
use crate::gradient::gradient_pixel;
use crate::gradient::gradient;
use crate::flow::FlowParams;
use crate::flow::flow_data;
use crate::flow::flow;

verus! {

/// Why a configuration was rejected.
#[derive(Clone, Copy, PartialEq, Eq, Structural, Debug)]
pub enum ConfigError {
    /// The canvas size or scale leaves the supported range.
    CanvasOutOfRange,
    /// A numeric knob leaves its documented range.
    ValueOutOfRange,
    /// An anchor family is not in nondecreasing order.
    NonMonotonicAnchors,
    /// The middle gradient stop does not lie between its neighbors.
    NonMonotonicStops,
}

/// The parameters of one render call.
#[derive(Clone, Copy, PartialEq, Eq, Structural, Debug)]
pub enum SceneParams {
    /// The banded color-wheel strip.
    Wheel(WheelParams),
    /// The gradient frame with five shaded squares.
    Gradient(GradientParams),
    /// The noise-driven flow field.
    Flow(FlowParams),
}

/// The parameters are well-formed for their scene.
pub open spec fn scene_wf(p: SceneParams) -> bool {
    match p {
        SceneParams::Wheel(wp) => wp.wf(),
        SceneParams::Gradient(gp) => gp.wf(),
        SceneParams::Flow(fp) => fp.wf(),
    }
}

/// The buffer is a finished wheel image of the given extents.
pub open spec fn wheel_image(b: PixelBuffer, p: WheelParams, w: int, h: int) -> bool {
    &&& b.wf()
    &&& b.width == w
    &&& b.height == h
    &&& forall|x: int, y: int|
        0 <= x < w && 0 <= y < h ==> #[trigger] b.spec_pixel(x, y) == wheel_column_color(p, x, w)
}

/// The buffer is a finished frame image of the given extents.
pub open spec fn gradient_image(b: PixelBuffer, p: GradientParams, w: int, h: int) -> bool {
    &&& b.wf()
    &&& b.width == w
    &&& b.height == h
    &&& forall|x: int, y: int|
        0 <= x < w && 0 <= y < h ==> #[trigger] b.spec_pixel(x, y) == gradient_pixel(p, w, h, x, y)
}

/// The buffer is a finished flow image of the given extents.
pub open spec fn flow_image(b: PixelBuffer, p: FlowParams, w: int, h: int) -> bool {
    &&& b.wf()
    &&& b.width == w
    &&& b.height == h
    &&& b.data@ == flow_data(p, w, h)
}

/// The error that a malformed configuration earns, if any.
pub open spec fn config_error(w: int, h: int, scale: int, p: SceneParams) -> Option<ConfigError> {
    if !dims_ok(w, h, scale) {
        Some(ConfigError::CanvasOutOfRange)
    } else {
        match p {
            SceneParams::Wheel(wp) => if !wp.in_range() {
                Some(ConfigError::ValueOutOfRange)
            } else if !wp.sorted() {
                Some(ConfigError::NonMonotonicAnchors)
            } else {
                None
            },
            SceneParams::Gradient(gp) => if !gp.wf() {
                Some(ConfigError::NonMonotonicStops)
            } else {
                None
            },
            SceneParams::Flow(fp) => if !fp.wf() {
                Some(ConfigError::ValueOutOfRange)
            } else {
                None
            },
        }
    }
}

/// Render the scene onto a `width` by `height` canvas supersampled by
/// `scale`.  Success comes exactly on usable canvases with well-formed
/// parameters; otherwise the specific configuration error is
/// returned.  For the wheel and frame scenes the contract pins every
/// pixel of the result.
pub fn render(width: u32, height: u32, scale: i64, params: &SceneParams) -> (r: Result<
    PixelBuffer,
    ConfigError,
>)
    ensures
        r.is_ok() == (dims_ok(width as int, height as int, scale as int) && scene_wf(*params)),
        r.is_err() ==> r == Result::<PixelBuffer, ConfigError>::Err(
            config_error(width as int, height as int, scale as int, *params).unwrap(),
        ),
        r matches Ok(b) ==> b.wf() && b.width == scaled_dim(width as int, scale as int)
            && b.height == scaled_dim(height as int, scale as int),
        *params matches SceneParams::Wheel(wp) ==> (r matches Ok(b) ==> wheel_image(
            b,
            wp,
            scaled_dim(width as int, scale as int),
            scaled_dim(height as int, scale as int),
        )),
        *params matches SceneParams::Gradient(gp) ==> (r matches Ok(b) ==> gradient_image(
            b,
            gp,
            scaled_dim(width as int, scale as int),
            scaled_dim(height as int, scale as int),
        )),
        *params matches SceneParams::Flow(fp) ==> (r matches Ok(b) ==> flow_image(
            b,
            fp,
            scaled_dim(width as int, scale as int),
            scaled_dim(height as int, scale as int),
        )),
{
    if scale <= 0 || scale > 100 * FX_ONE || width == 0 || width > 65_535 || height == 0 || height
        > 65_535 {
        return Err(ConfigError::CanvasOutOfRange);
    }
    let ew: i64 = scale_dim(width, scale);
    let eh: i64 = scale_dim(height, scale);
    if ew < 1 || ew > 16_383 || eh < 1 || eh > 16_383 {
        return Err(ConfigError::CanvasOutOfRange);
    }
    let sw: usize = ew as usize;
    let sh: usize = eh as usize;
    match params {
        SceneParams::Wheel(wp) => {
            if !wp.check_in_range() {
                Err(ConfigError::ValueOutOfRange)
            } else if !wp.check_sorted() {
                Err(ConfigError::NonMonotonicAnchors)
            } else {
                Ok(wheel(width, height, scale, wp))
            }
        },
        SceneParams::Gradient(gp) => {
            if !gp.check() {
                Err(ConfigError::NonMonotonicStops)
            } else {
                Ok(gradient(sw, sh, gp))
            }
        },
        SceneParams::Flow(fp) => {
            if !fp.check() {
                Err(ConfigError::ValueOutOfRange)
            } else {
                Ok(flow(sw, sh, fp))
            }
        },
    }
}

/// Two buffers of the same extents that agree on every pixel hold the
/// same samples.
pub proof fn lemma_buffers_pointwise_equal(b1: PixelBuffer, b2: PixelBuffer)
    requires
        b1.wf(),
        b2.wf(),
        b1.width == b2.width,
        b1.height == b2.height,
        forall|x: int, y: int|
            0 <= x < b1.width && 0 <= y < b1.height ==> #[trigger] b1.spec_pixel(x, y)
                == #[trigger] b2.spec_pixel(x, y),
    ensures
        b1.data@ == b2.data@,
{
    let w = b1.width as int;
    let h = b1.height as int;
    assert forall|k: int| 0 <= k < b1.data@.len() implies b1.data@[k] == b2.data@[k] by {
        let x = k % w;
        let y = k / w;
        vstd::arithmetic::div_mod::lemma_fundamental_div_mod(k, w);
        assert(0 <= x < w);
        assert(0 <= y < h) by (nonlinear_arith)
            requires
                0 <= k < w * h,
                0 < w,
                y == k / w,
                k == w * y + x,
                0 <= x < w,
        ;
        assert(y * w + x == k);
        assert(b1.spec_pixel(x, y) == b2.spec_pixel(x, y));
    }
    assert(b1.data@ =~= b2.data@);
}

/// Rendering is idempotent for the wheel scene: two buffers that both
/// satisfy the wheel contract for the same parameters and extents are
/// byte-identical.
pub proof fn lemma_wheel_render_deterministic(
    p: WheelParams,
    w: int,
    h: int,
    b1: PixelBuffer,
    b2: PixelBuffer,
)
    requires
        wheel_image(b1, p, w, h),
        wheel_image(b2, p, w, h),
    ensures
        b1.data@ == b2.data@,
{
    lemma_buffers_pointwise_equal(b1, b2);
}

/// Rendering is idempotent for the frame scene: two buffers that both
/// satisfy the frame contract for the same parameters and extents are
/// byte-identical.
pub proof fn lemma_gradient_render_deterministic(
    p: GradientParams,
    w: int,
    h: int,
    b1: PixelBuffer,
    b2: PixelBuffer,
)
    requires
        gradient_image(b1, p, w, h),
        gradient_image(b2, p, w, h),
    ensures
        b1.data@ == b2.data@,
{
    lemma_buffers_pointwise_equal(b1, b2);
}

/// Rendering is idempotent for the flow scene: two buffers that both
/// satisfy the flow contract for the same parameters and extents are
/// byte-identical.
pub proof fn lemma_flow_render_deterministic(
    p: FlowParams,
    w: int,
    h: int,
    b1: PixelBuffer,
    b2: PixelBuffer,
)
    requires
        flow_image(b1, p, w, h),
        flow_image(b2, p, w, h),
    ensures
        b1.data@ == b2.data@,
{
}

} // verus!
