//! The flow-field curve tracer.
//!
//! Starting from a seed point, the tracer repeatedly reads the local
//! noise angle, steps by a fixed length in that direction, and stops
//! when the curve reaches its maximum length, leaves the canvas, or
//! (with a positive separation) would land too close to an already
//! recorded point in the occupancy grid.  Every accepted point is
//! recorded in the grid, so later curves are kept apart from earlier
//! ones.  Directions come from a rational approximation of the sine,
//! so the whole step is exact integer arithmetic.

use vstd::prelude::*;
use crate::fixed::FX_ONE;
use crate::fixed::FX_TAU;
use crate::fixed::FX_PI;
use crate::fixed::spec_emod;
use crate::fixed::emod;
use crate::noise::NoiseParams;
use crate::noise::spec_angle_at;
use crate::noise::angle_at;
use crate::noise::gain;
use crate::grid::OccupancyGrid;
use crate::grid::dist2;
use crate::grid::lemma_cell_index_bound;

verus! {

/// Pi squared, in fixed point (`FX_PI * FX_PI / FX_ONE`).
pub const FX_PI2: i64 = 9_869_600;

/// Half of pi in fixed point.
pub const FX_HALF_PI: i64 = 1_570_796;

/// The rational sine approximation on `[0, pi]`: the classical
/// `16 a (pi - a) / (5 pi^2 - 4 a (pi - a))` formula carried out in
/// fixed point.
pub open spec fn sin_half(a: int) -> int {
    let t = a * (FX_PI - a) / (FX_ONE as int);
    16 * t * (FX_ONE as int) / (5 * FX_PI2 - 4 * t)
}

/// The approximate sine of an angle in `[0, 2 pi)` micro-radians.
pub open spec fn sin_fx(a: int) -> int {
    if a <= FX_PI {
        sin_half(a)
    } else {
        -sin_half(a - FX_PI)
    }
}

/// The approximate cosine: the sine a quarter turn ahead.
pub open spec fn cos_fx(a: int) -> int {
    sin_fx(spec_emod(a + FX_HALF_PI, FX_TAU as int))
}

/// The sine approximation on the half turn stays within twice one
/// unit.
proof fn lemma_sin_half_bounds(a: int)
    requires
        0 <= a <= FX_PI,
    ensures
        0 <= sin_half(a) <= 2 * FX_ONE,
{
    let t = a * (FX_PI - a) / (FX_ONE as int);
    assert(0 <= a * (FX_PI - a) <= 2_467_401_000_000) by (nonlinear_arith)
        requires
            0 <= a <= FX_PI,
            FX_PI == 3_141_592,
    ;
    assert(0 <= t <= 2_467_401) by (nonlinear_arith)
        requires
            0 <= a * (FX_PI - a) <= 2_467_401_000_000,
            t == a * (FX_PI - a) / (FX_ONE as int),
    ;
    let num = 16 * t * (FX_ONE as int);
    let den = 5 * FX_PI2 - 4 * t;
    assert(16 * t * (FX_ONE as int) == (16 * t) * (FX_ONE as int));
    assert(den >= 39_478_396);
    assert(num <= 2 * FX_ONE * den) by (nonlinear_arith)
        requires
            num == 16 * t * (FX_ONE as int),
            den == 5 * FX_PI2 - 4 * t,
            0 <= t <= 2_467_401,
            FX_PI2 == 9_869_600,
    ;
    assert(0 <= num / den <= 2 * FX_ONE) by (nonlinear_arith)
        requires
            0 <= num <= 2 * FX_ONE * den,
            0 < den,
    ;
}

/// The approximate sine and cosine stay within twice one unit in
/// magnitude.
pub proof fn lemma_dir_bounds(a: int)
    requires
        0 <= a < FX_TAU,
    ensures
        -2 * FX_ONE <= sin_fx(a) <= 2 * FX_ONE,
        -2 * FX_ONE <= cos_fx(a) <= 2 * FX_ONE,
{
    if a <= FX_PI {
        lemma_sin_half_bounds(a);
    } else {
        lemma_sin_half_bounds(a - FX_PI);
    }
    let b = spec_emod(a + FX_HALF_PI, FX_TAU as int);
    assert(0 <= b < FX_TAU);
    if b <= FX_PI {
        lemma_sin_half_bounds(b);
    } else {
        lemma_sin_half_bounds(b - FX_PI);
    }
}

/// The approximate sine for execution.
pub fn sin_at(a: i64) -> (r: i64)
    requires
        0 <= a < FX_TAU,
    ensures
        r == sin_fx(a as int),
        -2 * FX_ONE <= r <= 2 * FX_ONE,
{
    proof {
        lemma_dir_bounds(a as int);
    }
    if a <= FX_PI {
        sin_half_at(a)
    } else {
        -sin_half_at(a - FX_PI)
    }
}

/// The rational sine formula for execution.
fn sin_half_at(a: i64) -> (r: i64)
    requires
        0 <= a <= FX_PI,
    ensures
        r == sin_half(a as int),
        0 <= r <= 2 * FX_ONE,
{
    proof {
        lemma_sin_half_bounds(a as int);
        assert(0 <= (a as int) * ((FX_PI - a) as int) <= 2_467_401_000_000) by (nonlinear_arith)
            requires
                0 <= a <= FX_PI,
                FX_PI == 3_141_592,
        ;
    }
    let t: i64 = a * (FX_PI - a) / FX_ONE;
    proof {
        assert(0 <= t <= 2_467_401) by (nonlinear_arith)
            requires
                0 <= (a as int) * ((FX_PI - a) as int) <= 2_467_401_000_000,
                t == (a as int) * ((FX_PI - a) as int) / (FX_ONE as int),
        ;
    }
    let num: i64 = 16 * t * FX_ONE;
    let den: i64 = 5 * FX_PI2 - 4 * t;
    num / den
}

/// The approximate cosine for execution.
pub fn cos_at(a: i64) -> (r: i64)
    requires
        0 <= a < FX_TAU,
    ensures
        r == cos_fx(a as int),
        -2 * FX_ONE <= r <= 2 * FX_ONE,
{
    let b: i64 = emod(a + FX_HALF_PI, FX_TAU);
    sin_at(b)
}

/// The successor of a curve point: one step of length `step` in the
/// direction of the local noise angle.
pub open spec fn flow_next(np: NoiseParams, step: int, p: (int, int)) -> (int, int) {
    let a = spec_angle_at(np, p.0, p.1);
    (p.0 + gain(cos_fx(a), step), p.1 + gain(sin_fx(a), step))
}

/// The `k`-th point of the ideal (unclipped) curve from `seed`.
pub open spec fn flow_iter(np: NoiseParams, step: int, seed: (int, int), k: nat) -> (int, int)
    decreases k,
{
    if k == 0 {
        seed
    } else {
        flow_next(np, step, flow_iter(np, step, seed, (k - 1) as nat))
    }
}

/// The point lies on the canvas of the given fixed-point extents.
pub open spec fn in_canvas(p: (int, int), w: int, h: int) -> bool {
    0 <= p.0 < w && 0 <= p.1 < h
}

/// The cell of `p` in grid contents laid out with `cols` columns of
/// cells of side `sep`.
pub open spec fn cell_of(sep: int, cols: int, p: (i64, i64)) -> int {
    (p.1 as int / sep) * cols + p.0 as int / sep
}

/// The cell of `p` admits it: every point already recorded there lies
/// at least `sep` away; a degenerate grid admits everything.
pub open spec fn admits(sep: int, cols: int, cells: Seq<Seq<(i64, i64)>>, p: (i64, i64)) -> bool {
    sep == 0 || {
        let cell = cells[cell_of(sep, cols, p)];
        forall|i: int| 0 <= i < cell.len() ==> dist2(#[trigger] cell[i], p) >= sep * sep
    }
}

/// The grid contents after recording `p` in its cell; a degenerate
/// grid records nothing.
pub open spec fn record(sep: int, cols: int, cells: Seq<Seq<(i64, i64)>>, p: (i64, i64)) -> Seq<
    Seq<(i64, i64)>,
> {
    if sep == 0 {
        cells
    } else {
        cells.update(cell_of(sep, cols, p), cells[cell_of(sep, cols, p)].push(p))
    }
}

/// One whole trace as a function of the starting state: the accepted
/// points and the grid contents after recording them.  A point is
/// accepted while fuel remains if it lies on the canvas and its cell
/// admits it; the trace then continues from its flow successor.
pub open spec fn spec_trace(
    np: NoiseParams,
    step: int,
    w: int,
    h: int,
    sep: int,
    cols: int,
    cells: Seq<Seq<(i64, i64)>>,
    cur: (i64, i64),
    fuel: nat,
) -> (Seq<(i64, i64)>, Seq<Seq<(i64, i64)>>)
    decreases fuel,
{
    if fuel == 0 {
        (Seq::empty(), cells)
    } else if !in_canvas((cur.0 as int, cur.1 as int), w, h) {
        (Seq::empty(), cells)
    } else if !admits(sep, cols, cells, cur) {
        (Seq::empty(), cells)
    } else {
        let next = flow_next(np, step, (cur.0 as int, cur.1 as int));
        let rec = spec_trace(
            np,
            step,
            w,
            h,
            sep,
            cols,
            record(sep, cols, cells, cur),
            (next.0 as i64, next.1 as i64),
            (fuel - 1) as nat,
        );
        (seq![cur].add(rec.0), rec.1)
    }
}

/// Trace one curve from `(sx, sy)`.  Points are accepted one at a
/// time: an accepted point must lie on the canvas and (for a positive
/// separation) be admissible in the occupancy grid, and is then
/// recorded in the grid.  The curve ends at `max_len` points or at the
/// first rejected point; with separation zero it is never cut short by
/// the grid, so it ends only by length or by leaving the canvas.
pub fn trace(
    np: &NoiseParams,
    grid: &mut OccupancyGrid,
    sx: i64,
    sy: i64,
    step: i64,
    max_len: usize,
    w: i64,
    h: i64,
) -> (pts: Vec<(i64, i64)>)
    requires
        np.wf(),
        old(grid).wf(),
        0 < step <= 100 * FX_ONE,
        max_len <= 100_000,
        FX_ONE <= w <= 16_383 * FX_ONE,
        FX_ONE <= h <= 16_383 * FX_ONE,
        old(grid).sep > 0 ==> (w as int) <= (old(grid).cols as int) * (old(grid).sep as int) && (
        h as int) <= (old(grid).rows as int) * (old(grid).sep as int),
        -1 <= sx,
        sx < w + 1,
        -1 <= sy,
        sy < h + 1,
    ensures
        final(grid).wf(),
        final(grid).sep == old(grid).sep,
        final(grid).cols == old(grid).cols,
        final(grid).rows == old(grid).rows,
        pts@.len() <= max_len,
        forall|i: int|
            0 <= i < pts@.len() ==> ((#[trigger] pts@[i]).0 as int, pts@[i].1 as int)
                == flow_iter(*np, step as int, (sx as int, sy as int), i as nat),
        forall|i: int|
            0 <= i < pts@.len() ==> in_canvas(
                ((#[trigger] pts@[i]).0 as int, pts@[i].1 as int),
                w as int,
                h as int,
            ),
        old(grid).sep == 0 ==> *final(grid) == *old(grid),
        old(grid).sep == 0 && pts@.len() < max_len ==> !in_canvas(
            flow_iter(*np, step as int, (sx as int, sy as int), pts@.len() as nat),
            w as int,
            h as int,
        ),
        ({
            let st = spec_trace(
                *np,
                step as int,
                w as int,
                h as int,
                old(grid).sep as int,
                old(grid).cols as int,
                old(grid).contents(),
                (sx, sy),
                max_len as nat,
            );
            pts@ == st.0 && final(grid).contents() == st.1
        }),
{
    let mut pts: Vec<(i64, i64)> = Vec::new();
    let mut cx: i64 = sx;
    let mut cy: i64 = sy;
    let ghost cells0 = grid.contents();
    while pts.len() < max_len
        invariant
            np.wf(),
            grid.wf(),
            grid.sep == old(grid).sep,
            grid.cols == old(grid).cols,
            grid.rows == old(grid).rows,
            0 < step <= 100 * FX_ONE,
            max_len <= 100_000,
            FX_ONE <= w <= 16_383 * FX_ONE,
            FX_ONE <= h <= 16_383 * FX_ONE,
            grid.sep > 0 ==> (w as int) <= (grid.cols as int) * (grid.sep as int) && (h as int)
                <= (grid.rows as int) * (grid.sep as int),
            pts@.len() <= max_len,
            (cx as int, cy as int) == flow_iter(
                *np,
                step as int,
                (sx as int, sy as int),
                pts@.len() as nat,
            ),
            -(300 * FX_ONE) <= cx < w + 300 * FX_ONE,
            -(300 * FX_ONE) <= cy < h + 300 * FX_ONE,
            forall|i: int|
                0 <= i < pts@.len() ==> ((#[trigger] pts@[i]).0 as int, pts@[i].1 as int)
                    == flow_iter(*np, step as int, (sx as int, sy as int), i as nat),
            forall|i: int|
                0 <= i < pts@.len() ==> in_canvas(
                    ((#[trigger] pts@[i]).0 as int, pts@[i].1 as int),
                    w as int,
                    h as int,
                ),
            old(grid).sep == 0 ==> *grid == *old(grid),
            cells0 == old(grid).contents(),
            spec_trace(
                *np,
                step as int,
                w as int,
                h as int,
                grid.sep as int,
                grid.cols as int,
                cells0,
                (sx, sy),
                max_len as nat,
            ) == ({
                let rest = spec_trace(
                    *np,
                    step as int,
                    w as int,
                    h as int,
                    grid.sep as int,
                    grid.cols as int,
                    grid.contents(),
                    (cx, cy),
                    (max_len - pts@.len()) as nat,
                );
                (pts@.add(rest.0), rest.1)
            }),
        decreases max_len - pts@.len(),
    {
        let ghost fuel = (max_len - pts@.len()) as nat;
        if cx < 0 || cx >= w || cy < 0 || cy >= h {
            proof {
                assert(!in_canvas((cx as int, cy as int), w as int, h as int));
                assert(spec_trace(
                    *np,
                    step as int,
                    w as int,
                    h as int,
                    grid.sep as int,
                    grid.cols as int,
                    grid.contents(),
                    (cx, cy),
                    fuel,
                ) == (Seq::<(i64, i64)>::empty(), grid.contents()));
                assert(pts@.add(Seq::<(i64, i64)>::empty()) =~= pts@);
            }
            return pts;
        }
        if grid.sep > 0 {
            proof {
                assert(grid.in_domain(cx as int, cy as int));
            }
            if !grid.is_free(cx, cy) {
                proof {
                    lemma_admits_matches(*grid, cx, cy);
                    assert(!admits(grid.sep as int, grid.cols as int, grid.contents(), (cx, cy)));
                    assert(pts@.add(Seq::<(i64, i64)>::empty()) =~= pts@);
                }
                return pts;
            }
            proof {
                lemma_admits_matches(*grid, cx, cy);
            }
            let ghost gpre = *grid;
            grid.insert(cx, cy);
            proof {
                let ci = gpre.cell_index(cx as int, cy as int);
                lemma_cell_index_bound(gpre, cx as int, cy as int);
                assert(cell_of(gpre.sep as int, gpre.cols as int, (cx, cy)) == ci);
                let rec = record(gpre.sep as int, gpre.cols as int, gpre.contents(), (cx, cy));
                assert(grid.contents().len() == grid.cells@.len());
                assert(gpre.contents().len() == gpre.cells@.len());
                assert(rec.len() == gpre.contents().len());
                assert forall|c2: int| 0 <= c2 < grid.cells@.len() implies grid.contents()[c2]
                    == rec[c2] by {
                    assert(grid.contents()[c2] == grid.cells@[c2]@);
                    assert(gpre.contents()[c2] == gpre.cells@[c2]@);
                    if c2 == ci {
                        assert(grid.cells@[c2]@ == gpre.cells@[c2]@.push((cx, cy)));
                        assert(rec[c2] == gpre.contents()[ci].push((cx, cy)));
                    } else {
                        assert(grid.cells@[c2] == gpre.cells@[c2]);
                        assert(rec[c2] == gpre.contents()[c2]);
                    }
                }
                assert(grid.contents() =~~= rec);
            }
        } else {
            proof {
                assert(admits(grid.sep as int, grid.cols as int, grid.contents(), (cx, cy)));
                assert(record(grid.sep as int, grid.cols as int, grid.contents(), (cx, cy))
                    == grid.contents());
            }
        }
        pts.push((cx, cy));
        let a: i64 = angle_at(np, cx, cy);
        let c: i64 = cos_at(a);
        let s: i64 = sin_at(a);
        let dx: i64 = scale_step(c, step);
        let dy: i64 = scale_step(s, step);
        cx = cx + dx;
        cy = cy + dy;
    }
    proof {
        assert(spec_trace(
            *np,
            step as int,
            w as int,
            h as int,
            grid.sep as int,
            grid.cols as int,
            grid.contents(),
            (cx, cy),
            0,
        ) == (Seq::<(i64, i64)>::empty(), grid.contents()));
        assert(pts@.add(Seq::<(i64, i64)>::empty()) =~= pts@);
    }
    pts
}

/// The cell of a well-formed positive-separation grid admits a point
/// of its domain exactly when the grid's own admissibility test does.
proof fn lemma_admits_matches(g: OccupancyGrid, x: i64, y: i64)
    requires
        g.wf(),
        g.sep > 0,
        g.in_domain(x as int, y as int),
    ensures
        admits(g.sep as int, g.cols as int, g.contents(), (x, y)) == g.spec_is_free(
            x as int,
            y as int,
        ),
{
    let c = g.cell_index(x as int, y as int);
    lemma_cell_index_bound(g, x as int, y as int);
    assert(g.contents().len() == g.cells@.len());
    assert(cell_of(g.sep as int, g.cols as int, (x, y)) == c);
    assert(g.contents()[c] == g.cells@[c]@);
}

/// One direction component scaled by the step length.
fn scale_step(dir: i64, step: i64) -> (r: i64)
    requires
        -2 * FX_ONE <= dir <= 2 * FX_ONE,
        0 < step <= 100 * FX_ONE,
    ensures
        r == gain(dir as int, step as int),
        -200 * FX_ONE <= r <= 200 * FX_ONE,
{
    let mag: i64 = if dir >= 0 {
        dir
    } else {
        -dir
    };
    proof {
        assert(0 <= step * mag <= (100 * FX_ONE) * (2 * FX_ONE)) by (nonlinear_arith)
            requires
                0 < step <= 100 * FX_ONE,
                0 <= mag <= 2 * FX_ONE,
        ;
        assert(0 <= (step as int) * (mag as int) / (FX_ONE as int) <= 200 * FX_ONE)
            by (nonlinear_arith)
            requires
                0 <= (step as int) * (mag as int) <= (100 * FX_ONE) * (2 * FX_ONE),
        ;
    }
    let scaled: i64 = step * mag / FX_ONE;
    if dir >= 0 {
        scaled
    } else {
        -scaled
    }
}

} // verus!
