//! The flow-field scene.
//!
//! Well-distributed seed points are traced through the noise field, in
//! sampler order; each traced curve with more than two points is drawn
//! by stamping a disc of the stroke radius at every curve point, and a
//! decorative pearl disc at each end whose radius comes from a small
//! deterministic generator, so identical parameters draw identical
//! images.

use vstd::prelude::*;
use crate::fixed::FX_ONE;
use crate::rgb::Rgba;
use crate::rgb::iabs;
use crate::buffer::PixelBuffer;
use crate::noise::NoiseParams;
use crate::halton::sample_points;
use crate::halton::spec_sample_points;
use crate::grid::OccupancyGrid;
use crate::trace::trace;
use crate::trace::spec_trace;

verus! {

/// The knobs of the flow scene.
#[derive(Clone, Copy, PartialEq, Eq, Structural, Debug)]
pub struct FlowParams {
    /// Minimum distance kept between curves, fixed-point pixels; zero
    /// disables the occupancy grid entirely.
    pub separation: i64,
    /// Number of seed points taken from the sampler.
    pub starts: u32,
    /// Maximum number of vertices per curve.
    pub length: u32,
    /// Step length between consecutive curve points, fixed-point
    /// pixels.
    pub step: i64,
    /// Radius of the decorative end markers, fixed-point pixels.
    pub pearl_size: i64,
    /// Radius of the stroke discs, fixed-point pixels.
    pub stroke_weight: i64,
    /// Spatial frequency of the noise field, fixed point.
    pub noise_scale: i64,
    /// Output gain of the noise field, fixed point.
    pub noise_factor: i64,
    /// Octave count of the noise field.
    pub octaves: u32,
    /// Frequency multiplier per octave, fixed point.
    pub lacunarity: i64,
    /// Amplitude multiplier per octave, fixed point.
    pub persistence: i64,
}

impl FlowParams {
    /// The noise-field portion of the knobs.
    pub open spec fn spec_noise(self) -> NoiseParams {
        NoiseParams {
            octaves: self.octaves,
            lacunarity: self.lacunarity,
            persistence: self.persistence,
            noise_scale: self.noise_scale,
            noise_factor: self.noise_factor,
        }
    }

    /// Every knob in its documented range.
    pub open spec fn wf(self) -> bool {
        &&& self.separation == 0 || FX_ONE <= self.separation <= 2_000_000_000
        &&& 1 <= self.starts <= 10_000
        &&& 1 <= self.length <= 10_000
        &&& 0 < self.step <= 100 * FX_ONE
        &&& 0 <= self.pearl_size <= 50 * FX_ONE
        &&& 0 <= self.stroke_weight <= 50 * FX_ONE
        &&& self.spec_noise().wf()
    }

    /// Decide well-formedness.
    pub fn check(&self) -> (b: bool)
        ensures
            b == self.wf(),
    {
        let np = NoiseParams {
            octaves: self.octaves,
            lacunarity: self.lacunarity,
            persistence: self.persistence,
            noise_scale: self.noise_scale,
            noise_factor: self.noise_factor,
        };
        (self.separation == 0 || (FX_ONE <= self.separation && self.separation <= 2_000_000_000))
            && 1 <= self.starts && self.starts <= 10_000 && 1 <= self.length && self.length
            <= 10_000 && 0 < self.step && self.step <= 100 * FX_ONE && 0 <= self.pearl_size
            && self.pearl_size <= 50 * FX_ONE && 0 <= self.stroke_weight && self.stroke_weight
            <= 50 * FX_ONE && np.check()
    }
}

/// One draw of the deterministic pearl-size generator: a Lehmer step.
pub open spec fn spec_lcg(s: int) -> int {
    (s * 48_271) % 2_147_483_647
}

/// Advance the pearl-size generator.
fn lcg_next(s: i64) -> (r: i64)
    requires
        0 < s < 2_147_483_647,
    ensures
        r == spec_lcg(s as int),
        0 <= r < 2_147_483_647,
{
    proof {
        assert(0 <= s * 48_271 <= 2_147_483_647 * 48_271) by (nonlinear_arith)
            requires
                0 < s < 2_147_483_647,
        ;
    }
    (s * 48_271) % 2_147_483_647
}

/// A pixel is covered by the disc when the squared distance from the
/// pixel's fixed-point position to the center, measured in
/// milli-pixels, is within the squared radius.
pub open spec fn disc_covers(cx: int, cy: int, rad: int, x: int, y: int) -> bool {
    let dx = iabs(x * (FX_ONE as int) - cx) / 1000;
    let dy = iabs(y * (FX_ONE as int) - cy) / 1000;
    dx * dx + dy * dy <= (rad / 1000) * (rad / 1000)
}

/// The buffer samples after stamping one disc: covered positions take
/// the disc color, all others keep theirs.
pub open spec fn disc_apply(
    data: Seq<Rgba>,
    w: int,
    cx: int,
    cy: int,
    rad: int,
    c: Rgba,
) -> Seq<Rgba> {
    Seq::new(
        data.len(),
        |k: int|
            if disc_covers(cx, cy, rad, k % w, k / w) {
                c
            } else {
                data[k]
            },
    )
}

/// Background color of the flow scene.
pub open spec fn flow_background() -> Rgba {
    Rgba { r: 18, g: 22, b: 33, a: 255 }
}

/// Stroke color of the traced curves.
pub open spec fn stroke_color() -> Rgba {
    Rgba { r: 221, g: 210, b: 188, a: 255 }
}

/// Color of the pearl end markers.
pub open spec fn pearl_color() -> Rgba {
    Rgba { r: 176, g: 121, b: 80, a: 255 }
}

/// Discs applied in order, each over the result of the previous ones.
pub open spec fn apply_discs(data: Seq<Rgba>, w: int, ds: Seq<(int, int, int, Rgba)>) -> Seq<Rgba>
    decreases ds.len(),
{
    if ds.len() == 0 {
        data
    } else {
        apply_discs(disc_apply(data, w, ds[0].0, ds[0].1, ds[0].2, ds[0].3), w, ds.drop_first())
    }
}

/// Appending one disc to the list stamps it last.
proof fn lemma_apply_discs_push(data: Seq<Rgba>, w: int, ds: Seq<(int, int, int, Rgba)>, d: (
    int,
    int,
    int,
    Rgba,
))
    ensures
        apply_discs(data, w, ds.push(d)) == disc_apply(
            apply_discs(data, w, ds),
            w,
            d.0,
            d.1,
            d.2,
            d.3,
        ),
    decreases ds.len(),
{
    if ds.len() == 0 {
        assert(ds.push(d).drop_first() =~= Seq::<(int, int, int, Rgba)>::empty());
        assert(ds.push(d)[0] == d);
        assert(apply_discs(data, w, ds.push(d)) == apply_discs(
            disc_apply(data, w, d.0, d.1, d.2, d.3),
            w,
            ds.push(d).drop_first(),
        ));
        assert(apply_discs(disc_apply(data, w, d.0, d.1, d.2, d.3), w, ds.push(d).drop_first())
            == disc_apply(data, w, d.0, d.1, d.2, d.3));
        assert(apply_discs(data, w, ds) == data);
    } else {
        assert(ds.push(d)[0] == ds[0]);
        assert(ds.push(d).drop_first() =~= ds.drop_first().push(d));
        let head = disc_apply(data, w, ds[0].0, ds[0].1, ds[0].2, ds[0].3);
        assert(apply_discs(data, w, ds.push(d)) == apply_discs(head, w, ds.drop_first().push(d)));
        lemma_apply_discs_push(head, w, ds.drop_first(), d);
        assert(apply_discs(data, w, ds) == apply_discs(head, w, ds.drop_first()));
    }
}

/// The discs drawn for one kept curve, in drawing order: a stroke disc
/// at every curve point, then a pearl at the first and the last point,
/// sized by two draws of the generator.
pub open spec fn curve_discs(
    pts: Seq<(i64, i64)>,
    stroke_r: int,
    pearl_size: int,
    rng: int,
) -> Seq<(int, int, int, Rgba)> {
    let strokes = pts.map_values(
        |p: (i64, i64)| (p.0 as int, p.1 as int, stroke_r, stroke_color()),
    );
    let s1 = spec_lcg(rng);
    let s2 = spec_lcg(s1);
    strokes.push(
        (
            pts[0].0 as int,
            pts[0].1 as int,
            spec_pearl_radius(pearl_size, s1),
            pearl_color(),
        ),
    ).push(
        (
            pts[pts.len() - 1].0 as int,
            pts[pts.len() - 1].1 as int,
            spec_pearl_radius(pearl_size, s2),
            pearl_color(),
        ),
    )
}

/// The generator state after one curve: two draws when the curve was
/// kept, re-seeded if the state ever leaves the generator's range.
pub open spec fn rng_after(rng: int, kept: bool) -> int {
    let s = if kept {
        spec_lcg(spec_lcg(rng))
    } else {
        rng
    };
    if s <= 0 || s >= 2_147_483_647 {
        1
    } else {
        s
    }
}

/// Stamp a filled disc; pixels outside the disc keep their colors.
fn fill_disc(buf: &mut PixelBuffer, cx: i64, cy: i64, rad: i64, c: Rgba)
    requires
        old(buf).wf(),
        -20_000 * FX_ONE <= cx <= 20_000 * FX_ONE,
        -20_000 * FX_ONE <= cy <= 20_000 * FX_ONE,
        0 <= rad <= 100 * FX_ONE,
    ensures
        final(buf).wf(),
        final(buf).width == old(buf).width,
        final(buf).height == old(buf).height,
        forall|x: int, y: int|
            0 <= x < old(buf).width && 0 <= y < old(buf).height
                ==> #[trigger] final(buf).spec_pixel(x, y) == (if disc_covers(
                cx as int,
                cy as int,
                rad as int,
                x,
                y,
            ) {
                c
            } else {
                old(buf).spec_pixel(x, y)
            }),
        final(buf).data@ == disc_apply(
            old(buf).data@,
            old(buf).width as int,
            cx as int,
            cy as int,
            rad as int,
            c,
        ),
{
    let w: usize = buf.width;
    let h: usize = buf.height;
    let mut y: usize = 0;
    while y < h
        invariant
            buf.wf(),
            buf.width == w,
            buf.height == h,
            w <= 16_383,
            h <= 16_383,
            -20_000 * FX_ONE <= cx <= 20_000 * FX_ONE,
            -20_000 * FX_ONE <= cy <= 20_000 * FX_ONE,
            0 <= rad <= 100 * FX_ONE,
            y <= h,
            forall|xx: int, yy: int|
                0 <= xx < w && 0 <= yy < y ==> #[trigger] buf.spec_pixel(xx, yy) == (
                if disc_covers(cx as int, cy as int, rad as int, xx, yy) {
                    c
                } else {
                    old(buf).spec_pixel(xx, yy)
                }),
            forall|xx: int, yy: int|
                0 <= xx < w && y <= yy < h ==> #[trigger] buf.spec_pixel(xx, yy) == old(
                    buf,
                ).spec_pixel(xx, yy),
        decreases h - y,
    {
        let mut x: usize = 0;
        while x < w
            invariant
                buf.wf(),
                buf.width == w,
                buf.height == h,
                w <= 16_383,
                h <= 16_383,
                -20_000 * FX_ONE <= cx <= 20_000 * FX_ONE,
                -20_000 * FX_ONE <= cy <= 20_000 * FX_ONE,
                0 <= rad <= 100 * FX_ONE,
                y < h,
                x <= w,
                forall|xx: int, yy: int|
                    0 <= xx < w && 0 <= yy < y ==> #[trigger] buf.spec_pixel(xx, yy) == (
                    if disc_covers(cx as int, cy as int, rad as int, xx, yy) {
                        c
                    } else {
                        old(buf).spec_pixel(xx, yy)
                    }),
                forall|xx: int|
                    0 <= xx < x ==> #[trigger] buf.spec_pixel(xx, y as int) == (if disc_covers(
                        cx as int,
                        cy as int,
                        rad as int,
                        xx,
                        y as int,
                    ) {
                        c
                    } else {
                        old(buf).spec_pixel(xx, y as int)
                    }),
                forall|xx: int, yy: int|
                    0 <= xx < w && y < yy < h ==> #[trigger] buf.spec_pixel(xx, yy) == old(
                        buf,
                    ).spec_pixel(xx, yy),
                forall|xx: int|
                    x <= xx < w ==> #[trigger] buf.spec_pixel(xx, y as int) == old(
                        buf,
                    ).spec_pixel(xx, y as int),
            decreases w - x,
        {
            let ox: i64 = (x as i64) * FX_ONE - cx;
            let oy: i64 = (y as i64) * FX_ONE - cy;
            let px: i64 = if ox < 0 {
                -ox
            } else {
                ox
            } / 1000;
            let py: i64 = if oy < 0 {
                -oy
            } else {
                oy
            } / 1000;
            let rm: i64 = rad / 1000;
            proof {
                lemma_disc_test_fits(px as int, py as int, rm as int);
            }
            if px * px + py * py <= rm * rm {
                buf.set_pixel(x, y, c);
            }
            x += 1;
        }
        y += 1;
    }
    proof {
        let dd = disc_apply(
            old(buf).data@,
            old(buf).width as int,
            cx as int,
            cy as int,
            rad as int,
            c,
        );
        let wi = buf.width as int;
        let hi = buf.height as int;
        assert forall|k: int| 0 <= k < buf.data@.len() implies buf.data@[k] == dd[k] by {
            let xx = k % wi;
            let yy = k / wi;
            vstd::arithmetic::div_mod::lemma_fundamental_div_mod(k, wi);
            assert(0 <= xx < wi);
            assert(0 <= yy < hi) by (nonlinear_arith)
                requires
                    0 <= k < wi * hi,
                    0 < wi,
                    yy == k / wi,
                    k == wi * yy + xx,
                    0 <= xx < wi,
            ;
            assert(yy * wi + xx == k);
            assert(buf.spec_pixel(xx, yy) == buf.data@[k]);
            assert(old(buf).spec_pixel(xx, yy) == old(buf).data@[k]);
        }
        assert(buf.data@ =~= dd);
    }
}

/// The squared-distance test of the disc stays within the machine
/// range.
proof fn lemma_disc_test_fits(px: int, py: int, rm: int)
    requires
        0 <= px <= 40_000_000,
        0 <= py <= 40_000_000,
        0 <= rm <= 100_000,
    ensures
        0 <= px * px <= 1_600_000_000_000_000,
        0 <= py * py <= 1_600_000_000_000_000,
        0 <= rm * rm <= 10_000_000_000,
{
    assert(0 <= px * px <= 1_600_000_000_000_000) by (nonlinear_arith)
        requires
            0 <= px <= 40_000_000,
    ;
    assert(0 <= py * py <= 1_600_000_000_000_000) by (nonlinear_arith)
        requires
            0 <= py <= 40_000_000,
    ;
    assert(0 <= rm * rm <= 10_000_000_000) by (nonlinear_arith)
        requires
            0 <= rm <= 100_000,
    ;
}

/// The buffer samples, grid contents and generator state after the
/// curves of the first `k` seed points.
#[verifier::opaque]
pub open spec fn flow_state(
    p: FlowParams,
    w: int,
    h: int,
    data0: Seq<Rgba>,
    cells0: Seq<Seq<(i64, i64)>>,
    cols: int,
    starts: Seq<(i64, i64)>,
    k: nat,
) -> (Seq<Rgba>, Seq<Seq<(i64, i64)>>, int)
    decreases k,
{
    if k == 0 {
        (data0, cells0, 1)
    } else {
        let prev = flow_state(p, w, h, data0, cells0, cols, starts, (k - 1) as nat);
        let st = spec_trace(
            p.spec_noise(),
            p.step as int,
            w * (FX_ONE as int),
            h * (FX_ONE as int),
            p.separation as int,
            cols,
            prev.1,
            starts[k - 1],
            p.length as nat,
        );
        let kept = st.0.len() > 2;
        (
            if kept {
                apply_discs(
                    prev.0,
                    w,
                    curve_discs(
                        st.0,
                        (p.stroke_weight / 2) as int,
                        p.pearl_size as int,
                        prev.2,
                    ),
                )
            } else {
                prev.0
            },
            st.1,
            rng_after(prev.2, kept),
        )
    }
}

/// Before any curve, the state is the initial one.
proof fn lemma_flow_state_base(
    p: FlowParams,
    w: int,
    h: int,
    data0: Seq<Rgba>,
    cells0: Seq<Seq<(i64, i64)>>,
    cols0: int,
    starts: Seq<(i64, i64)>,
)
    ensures
        flow_state(p, w, h, data0, cells0, cols0, starts, 0) == (data0, cells0, 1int),
{
    reveal(flow_state);
}

/// One more seed point advances the state by one traced curve.
proof fn lemma_flow_state_step(
    p: FlowParams,
    w: int,
    h: int,
    data0: Seq<Rgba>,
    cells0: Seq<Seq<(i64, i64)>>,
    cols0: int,
    starts: Seq<(i64, i64)>,
    k: nat,
)
    requires
        k < starts.len(),
    ensures
        flow_state(p, w, h, data0, cells0, cols0, starts, (k + 1) as nat) == ({
            let prev = flow_state(p, w, h, data0, cells0, cols0, starts, k);
            let st = spec_trace(
                p.spec_noise(),
                p.step as int,
                w * (FX_ONE as int),
                h * (FX_ONE as int),
                p.separation as int,
                cols0,
                prev.1,
                starts[k as int],
                p.length as nat,
            );
            let kept = st.0.len() > 2;
            (
                if kept {
                    apply_discs(
                        prev.0,
                        w,
                        curve_discs(
                            st.0,
                            (p.stroke_weight / 2) as int,
                            p.pearl_size as int,
                            prev.2,
                        ),
                    )
                } else {
                    prev.0
                },
                st.1,
                rng_after(prev.2, kept),
            )
        }),
{
    reveal(flow_state);
}

/// The finished flow image: the background, then every kept curve of
/// the sample sequence, as a pure function of the parameters and the
/// canvas extents.
pub open spec fn flow_data(p: FlowParams, w: int, h: int) -> Seq<Rgba> {
    let starts = spec_sample_points(w, h, p.starts as nat, 0);
    let cols = if p.separation == 0 {
        0int
    } else {
        (w * (FX_ONE as int)) / (p.separation as int) + 1
    };
    let rows = if p.separation == 0 {
        0int
    } else {
        (h * (FX_ONE as int)) / (p.separation as int) + 1
    };
    let cells0 = Seq::new(
        (cols * rows) as nat,
        |c: int| Seq::<(i64, i64)>::empty(),
    );
    let data0 = Seq::new((w * h) as nat, |k: int| flow_background());
    flow_state(p, w, h, data0, cells0, cols, starts, p.starts as nat).0
}

/// Render the flow scene onto a `width` by `height` canvas: a solid
/// background, then every curve of more than two points traced from
/// the sampler's seed points, stroked with discs and finished with a
/// pearl at either end.
#[verifier::rlimit(100)]
#[verifier::spinoff_prover]
pub fn flow(width: usize, height: usize, params: &FlowParams) -> (r: PixelBuffer)
    requires
        params.wf(),
        1 <= width <= 16_383,
        1 <= height <= 16_383,
    ensures
        r.wf(),
        r.width == width,
        r.height == height,
        r.data@ == flow_data(*params, width as int, height as int),
{
    let bg: Rgba = Rgba { r: 18, g: 22, b: 33, a: 255 };
    let mut buf = PixelBuffer::new(width, height, bg);
    let starts: Vec<(i64, i64)> = sample_points(width as u32, height as u32, params.starts, 0);
    let w_fx: i64 = (width as i64) * FX_ONE;
    let h_fx: i64 = (height as i64) * FX_ONE;
    let np = NoiseParams {
        octaves: params.octaves,
        lacunarity: params.lacunarity,
        persistence: params.persistence,
        noise_scale: params.noise_scale,
        noise_factor: params.noise_factor,
    };
    let mut grid: OccupancyGrid = OccupancyGrid::new(w_fx, h_fx, params.separation);
    let ghost data0 = Seq::new((width * height) as nat, |k: int| flow_background());
    let ghost cells0 = grid.contents();
    let ghost cols0 = grid.cols as int;
    proof {
        assert(bg == flow_background());
        assert(buf.data@ =~= data0);
        assert(cells0.len() == grid.cells@.len());
        assert forall|c: int| 0 <= c < cells0.len() implies (#[trigger] cells0[c]).len() == 0 by {
            assert(cells0[c] == grid.cells@[c]@);
        }
        lemma_flow_state_base(*params, width as int, height as int, data0, cells0, cols0, starts@);
        if params.separation == 0 {
            assert(cols0 == 0);
            assert(cells0.len() == 0);
        } else {
            assert(w_fx as int == (width as int) * (FX_ONE as int));
            assert(h_fx as int == (height as int) * (FX_ONE as int));
            assert(cols0 == ((width as int) * (FX_ONE as int)) / (params.separation as int) + 1);
            assert(grid.cells@.len() == grid.cols * grid.rows);
            assert((grid.cols * grid.rows) as int == cols0 * (grid.rows as int))
                by (nonlinear_arith)
                requires
                    cols0 == grid.cols as int,
            ;
            assert(cells0.len() == cols0 * (((height as int) * (FX_ONE as int)) / (
            params.separation as int) + 1));
        }
    }
    let mut rng: i64 = 1;
    let n: usize = starts.len();
    let mut k: usize = 0;
    while k < n
        invariant
            buf.wf(),
            buf.width == width,
            buf.height == height,
            1 <= width <= 16_383,
            1 <= height <= 16_383,
            np.wf(),
            np == params.spec_noise(),
            grid.wf(),
            grid.sep == params.separation,
            grid.cols as int == cols0,
            params.wf(),
            w_fx == (width as i64) * FX_ONE,
            h_fx == (height as i64) * FX_ONE,
            FX_ONE <= w_fx <= 16_383 * FX_ONE,
            FX_ONE <= h_fx <= 16_383 * FX_ONE,
            grid.sep > 0 ==> (w_fx as int) <= (grid.cols as int) * (grid.sep as int) && (
            h_fx as int) <= (grid.rows as int) * (grid.sep as int),
            0 < rng < 2_147_483_647,
            n == starts@.len(),
            forall|j: int|
                0 <= j < n ==> 0 <= (#[trigger] starts@[j]).0 < w_fx && 0 <= starts@[j].1 < h_fx,
            k <= n,
            buf.data@ == flow_state(
                *params,
                width as int,
                height as int,
                data0,
                cells0,
                cols0,
                starts@,
                k as nat,
            ).0,
            grid.contents() == flow_state(
                *params,
                width as int,
                height as int,
                data0,
                cells0,
                cols0,
                starts@,
                k as nat,
            ).1,
            rng as int == flow_state(
                *params,
                width as int,
                height as int,
                data0,
                cells0,
                cols0,
                starts@,
                k as nat,
            ).2,
        decreases n - k,
    {
        let (sx, sy): (i64, i64) = starts[k];
        proof {
            lemma_flow_state_step(
                *params,
                width as int,
                height as int,
                data0,
                cells0,
                cols0,
                starts@,
                k as nat,
            );
        }
        rng = trace_and_draw(&mut buf, &mut grid, &np, params, sx, sy, w_fx, h_fx, rng);
        k += 1;
    }
    proof {
        lemma_flow_data_matches(*params, width as int, height as int, data0, cells0, cols0, starts@);
    }
    buf
}

/// The packaged flow image equals the fold from the concrete initial
/// state that `flow` builds.
#[verifier::spinoff_prover]
proof fn lemma_flow_data_matches(
    p: FlowParams,
    w: int,
    h: int,
    data0: Seq<Rgba>,
    cells0: Seq<Seq<(i64, i64)>>,
    cols0: int,
    starts: Seq<(i64, i64)>,
)
    requires
        1 <= w,
        1 <= h,
        p.separation >= 0,
        starts == spec_sample_points(w, h, p.starts as nat, 0),
        data0 == Seq::new((w * h) as nat, |k: int| flow_background()),
        p.separation == 0 ==> cols0 == 0 && cells0.len() == 0,
        p.separation > 0 ==> cols0 == (w * (FX_ONE as int)) / (p.separation as int) + 1
            && cells0.len() == cols0 * ((h * (FX_ONE as int)) / (p.separation as int) + 1),
        forall|c: int| 0 <= c < cells0.len() ==> (#[trigger] cells0[c]).len() == 0,
    ensures
        flow_data(p, w, h) == flow_state(p, w, h, data0, cells0, cols0, starts, p.starts as nat).0,
{
    let cols = if p.separation == 0 {
        0int
    } else {
        (w * (FX_ONE as int)) / (p.separation as int) + 1
    };
    let rows = if p.separation == 0 {
        0int
    } else {
        (h * (FX_ONE as int)) / (p.separation as int) + 1
    };
    if p.separation > 0 {
        assert(0 <= (w * (FX_ONE as int)) / (p.separation as int)) by (nonlinear_arith)
            requires
                1 <= w,
                0 < p.separation,
        ;
        assert(0 <= (h * (FX_ONE as int)) / (p.separation as int)) by (nonlinear_arith)
            requires
                1 <= h,
                0 < p.separation,
        ;
    }
    let spec_cells0 = Seq::new((cols * rows) as nat, |c: int| Seq::<(i64, i64)>::empty());
    assert(cells0.len() == spec_cells0.len());
    assert forall|c: int| 0 <= c < cells0.len() implies cells0[c] == spec_cells0[c] by {
        assert(cells0[c].len() == 0);
        assert(cells0[c] =~= Seq::<(i64, i64)>::empty());
    }
    assert(cells0 =~~= spec_cells0);
}

/// Trace one curve and, if it is long enough to keep, draw its stroke
/// discs and end pearls; returns the advanced generator state.
#[verifier::rlimit(100)]
#[verifier::spinoff_prover]
fn trace_and_draw(
    buf: &mut PixelBuffer,
    grid: &mut OccupancyGrid,
    np: &NoiseParams,
    params: &FlowParams,
    sx: i64,
    sy: i64,
    w_fx: i64,
    h_fx: i64,
    rng: i64,
) -> (r: i64)
    requires
        old(buf).wf(),
        old(grid).wf(),
        np.wf(),
        params.wf(),
        FX_ONE <= w_fx <= 16_383 * FX_ONE,
        FX_ONE <= h_fx <= 16_383 * FX_ONE,
        old(grid).sep > 0 ==> (w_fx as int) <= (old(grid).cols as int) * (old(
            grid,
        ).sep as int) && (h_fx as int) <= (old(grid).rows as int) * (old(grid).sep as int),
        0 <= sx < w_fx,
        0 <= sy < h_fx,
        0 < rng < 2_147_483_647,
    ensures
        final(buf).wf(),
        final(buf).width == old(buf).width,
        final(buf).height == old(buf).height,
        final(grid).wf(),
        final(grid).sep == old(grid).sep,
        final(grid).cols == old(grid).cols,
        final(grid).rows == old(grid).rows,
        0 < r < 2_147_483_647,
        ({
            let st = spec_trace(
                *np,
                params.step as int,
                w_fx as int,
                h_fx as int,
                old(grid).sep as int,
                old(grid).cols as int,
                old(grid).contents(),
                (sx, sy),
                params.length as nat,
            );
            let kept = st.0.len() > 2;
            &&& final(grid).contents() == st.1
            &&& r == rng_after(rng as int, kept)
            &&& final(buf).data@ == (if kept {
                apply_discs(
                    old(buf).data@,
                    old(buf).width as int,
                    curve_discs(
                        st.0,
                        (params.stroke_weight / 2) as int,
                        params.pearl_size as int,
                        rng as int,
                    ),
                )
            } else {
                old(buf).data@
            })
        }),
{
    let stroke: Rgba = Rgba { r: 221, g: 210, b: 188, a: 255 };
    let pearl: Rgba = Rgba { r: 176, g: 121, b: 80, a: 255 };
    let stroke_r: i64 = params.stroke_weight / 2;
    let mut state: i64 = rng;
    let pts: Vec<(i64, i64)> = trace(
        np,
        grid,
        sx,
        sy,
        params.step,
        params.length as usize,
        w_fx,
        h_fx,
    );
    let ghost strokes = pts@.map_values(
        |p: (i64, i64)| (p.0 as int, p.1 as int, stroke_r as int, stroke_color()),
    );
    if pts.len() > 2 {
        let m: usize = pts.len();
        let mut i: usize = 0;
        proof {
            assert(strokes.take(0) =~= Seq::<(int, int, int, Rgba)>::empty());
        }
        while i < m
            invariant
                buf.wf(),
                buf.width == old(buf).width,
                buf.height == old(buf).height,
                params.wf(),
                stroke_r == params.stroke_weight / 2,
                stroke == stroke_color(),
                m == pts@.len(),
                strokes == pts@.map_values(
                    |p: (i64, i64)| (p.0 as int, p.1 as int, stroke_r as int, stroke_color()),
                ),
                forall|j: int|
                    0 <= j < m ==> 0 <= (#[trigger] pts@[j]).0 < w_fx && 0 <= pts@[j].1 < h_fx,
                FX_ONE <= w_fx <= 16_383 * FX_ONE,
                FX_ONE <= h_fx <= 16_383 * FX_ONE,
                i <= m,
                buf.data@ == apply_discs(
                    old(buf).data@,
                    old(buf).width as int,
                    strokes.take(i as int),
                ),
            decreases m - i,
        {
            let p: (i64, i64) = pts[i];
            proof {
                assert(strokes[i as int] == (
                    p.0 as int,
                    p.1 as int,
                    stroke_r as int,
                    stroke_color(),
                ));
            }
            fill_disc(buf, p.0, p.1, stroke_r, stroke);
            proof {
                lemma_apply_discs_push(
                    old(buf).data@,
                    old(buf).width as int,
                    strokes.take(i as int),
                    strokes[i as int],
                );
                assert(strokes.take(i as int).push(strokes[i as int]) =~= strokes.take(
                    i as int + 1,
                ));
            }
            i += 1;
        }
        proof {
            assert(strokes.take(m as int) =~= strokes);
        }
        state = lcg_next(state);
        let r1: i64 = pearl_radius(params.pearl_size, state);
        let first: (i64, i64) = pts[0];
        fill_disc(buf, first.0, first.1, r1, pearl);
        proof {
            lemma_apply_discs_push(
                old(buf).data@,
                old(buf).width as int,
                strokes,
                (
                    first.0 as int,
                    first.1 as int,
                    spec_pearl_radius(params.pearl_size as int, spec_lcg(rng as int)),
                    pearl_color(),
                ),
            );
        }
        state = lcg_next(state);
        let r2: i64 = pearl_radius(params.pearl_size, state);
        let last: (i64, i64) = pts[m - 1];
        fill_disc(buf, last.0, last.1, r2, pearl);
        proof {
            lemma_apply_discs_push(
                old(buf).data@,
                old(buf).width as int,
                strokes.push(
                    (
                        first.0 as int,
                        first.1 as int,
                        spec_pearl_radius(params.pearl_size as int, spec_lcg(rng as int)),
                        pearl_color(),
                    ),
                ),
                (
                    last.0 as int,
                    last.1 as int,
                    spec_pearl_radius(
                        params.pearl_size as int,
                        spec_lcg(spec_lcg(rng as int)),
                    ),
                    pearl_color(),
                ),
            );
        }
    }
    if state <= 0 || state >= 2_147_483_647 {
        1
    } else {
        state
    }
}

/// The pearl radius drawn for one curve end: between half and the full
/// pearl size, set by the generator state.
pub open spec fn spec_pearl_radius(size: int, s: int) -> int {
    size / 2 + (s % (FX_ONE as int)) * (size / 2) / (FX_ONE as int)
}

/// The pearl radius for execution.
fn pearl_radius(size: i64, s: i64) -> (r: i64)
    requires
        0 <= size <= 50 * FX_ONE,
        0 <= s,
    ensures
        r == spec_pearl_radius(size as int, s as int),
        0 <= r <= size,
{
    let f: i64 = s % FX_ONE;
    proof {
        assert(0 <= f * (size / 2) <= FX_ONE * (size / 2)) by (nonlinear_arith)
            requires
                0 <= f < FX_ONE,
                0 <= size / 2,
        ;
        assert(0 <= (f as int) * ((size / 2) as int) / (FX_ONE as int) <= size / 2)
            by (nonlinear_arith)
            requires
                0 <= (f as int) * ((size / 2) as int) <= (FX_ONE as int) * ((size / 2) as int),
        ;
    }
    size / 2 + f * (size / 2) / FX_ONE
}

} // verus!
