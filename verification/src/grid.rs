//! The occupancy grid that keeps flow lines apart.
//!
//! The canvas is cut into square cells whose side is the separation
//! distance.  Every accepted curve point is recorded in the cell that
//! contains it, and a new point is admitted only if every point already
//! recorded in its cell lies at least the separation away.  A grid with
//! separation zero is degenerate: it has no cells and admits everything.

use vstd::prelude::*;
use crate::fixed::FX_ONE;

verus! {

/// The squared distance between two fixed-point points.
pub open spec fn dist2(p: (i64, i64), q: (i64, i64)) -> int {
    (p.0 - q.0) * (p.0 - q.0) + (p.1 - q.1) * (p.1 - q.1)
}

/// A spatial hash over the canvas.  `cells` is row-major with `cols`
/// columns of `rows` rows; each cell holds the points recorded inside
/// it.
pub struct OccupancyGrid {
    pub sep: i64,
    pub cols: usize,
    pub rows: usize,
    pub cells: Vec<Vec<(i64, i64)>>,
}

impl OccupancyGrid {
    /// The recorded points of every cell, as plain sequences.
    pub open spec fn contents(self) -> Seq<Seq<(i64, i64)>> {
        self.cells@.map_values(|v: Vec<(i64, i64)>| v@)
    }

    /// The cell index of a point inside the covered region.
    pub open spec fn cell_index(self, x: int, y: int) -> int {
        (y / (self.sep as int)) * (self.cols as int) + x / (self.sep as int)
    }

    /// The point lies in the region the cells cover.
    pub open spec fn in_domain(self, x: int, y: int) -> bool {
        &&& 0 <= x < (self.cols as int) * (self.sep as int)
        &&& 0 <= y < (self.rows as int) * (self.sep as int)
    }

    /// Structural soundness and the separation law: every recorded
    /// point sits in the cell of its own coordinates, and any two
    /// points recorded in one cell are at least `sep` apart.
    pub open spec fn wf(self) -> bool {
        if self.sep == 0 {
            self.cells@.len() == 0
        } else {
            &&& FX_ONE <= self.sep <= 2_000_000_000
            &&& 1 <= self.cols <= 20_000
            &&& 1 <= self.rows <= 20_000
            &&& self.cells@.len() == self.cols * self.rows
            &&& forall|c: int, i: int|
                0 <= c < self.cells@.len() && 0 <= i < self.cells@[c]@.len() ==> {
                    let p = #[trigger] self.cells@[c]@[i];
                    self.in_domain(p.0 as int, p.1 as int) && self.cell_index(
                        p.0 as int,
                        p.1 as int,
                    ) == c
                }
            &&& forall|c: int, i: int, j: int|
                0 <= c < self.cells@.len() && 0 <= i < j < self.cells@[c]@.len() ==> dist2(
                    #[trigger] self.cells@[c]@[i],
                    #[trigger] self.cells@[c]@[j],
                ) >= (self.sep as int) * (self.sep as int)
        }
    }

    /// Every point already recorded in the cell of `(x, y)` lies at
    /// least the separation away; degenerate grids admit everything.
    pub open spec fn spec_is_free(self, x: int, y: int) -> bool {
        self.sep == 0 || {
            let cell = self.cells@[self.cell_index(x, y)]@;
            forall|i: int|
                0 <= i < cell.len() ==> dist2(#[trigger] cell[i], ((x as i64), (y as i64)))
                    >= (self.sep as int) * (self.sep as int)
        }
    }

    /// A fresh grid covering a `w` by `h` fixed-point canvas with
    /// cells of side `sep`; no cells at all when `sep` is zero.
    pub fn new(w: i64, h: i64, sep: i64) -> (g: OccupancyGrid)
        requires
            sep == 0 || FX_ONE <= sep <= 2_000_000_000,
            FX_ONE <= w <= 16_383 * FX_ONE,
            FX_ONE <= h <= 16_383 * FX_ONE,
        ensures
            g.wf(),
            g.sep == sep,
            sep == 0 ==> g.cols == 0 && g.rows == 0,
            sep > 0 ==> g.cols == w / sep + 1 && g.rows == h / sep + 1,
            sep > 0 ==> (w as int) < (g.cols as int) * (g.sep as int) && (h as int) < (
            g.rows as int) * (g.sep as int),
            forall|c: int| 0 <= c < g.cells@.len() ==> (#[trigger] g.cells@[c])@.len() == 0,
    {
        if sep == 0 {
            OccupancyGrid { sep, cols: 0, rows: 0, cells: Vec::new() }
        } else {
            proof {
                vstd::arithmetic::div_mod::lemma_fundamental_div_mod(w as int, sep as int);
                vstd::arithmetic::div_mod::lemma_fundamental_div_mod(h as int, sep as int);
                assert(w / sep <= 16_383) by {
                    vstd::arithmetic::div_mod::lemma_div_is_ordered(
                        w as int,
                        16_383 * FX_ONE,
                        sep as int,
                    );
                    vstd::arithmetic::div_mod::lemma_div_is_ordered_by_denominator(
                        16_383 * FX_ONE,
                        FX_ONE as int,
                        sep as int,
                    );
                }
                assert(h / sep <= 16_383) by {
                    vstd::arithmetic::div_mod::lemma_div_is_ordered(
                        h as int,
                        16_383 * FX_ONE,
                        sep as int,
                    );
                    vstd::arithmetic::div_mod::lemma_div_is_ordered_by_denominator(
                        16_383 * FX_ONE,
                        FX_ONE as int,
                        sep as int,
                    );
                }
            }
            let cols: usize = (w / sep + 1) as usize;
            let rows: usize = (h / sep + 1) as usize;
            proof {
                assert(cols * rows <= 20_000 * 20_000) by (nonlinear_arith)
                    requires
                        1 <= cols <= 20_000,
                        1 <= rows <= 20_000,
                ;
            }
            let total: usize = cols * rows;
            let mut cells: Vec<Vec<(i64, i64)>> = Vec::new();
            let mut k: usize = 0;
            while k < total
                invariant
                    k <= total,
                    cells@.len() == k,
                    forall|c: int| 0 <= c < k ==> (#[trigger] cells@[c])@.len() == 0,
                decreases total - k,
            {
                cells.push(Vec::new());
                k += 1;
            }
            let g = OccupancyGrid { sep, cols, rows, cells };
            proof {
                assert((w as int) < (g.cols as int) * (g.sep as int) && (h as int) < (
                g.rows as int) * (g.sep as int)) by (nonlinear_arith)
                    requires
                        g.cols == w / sep + 1,
                        g.rows == h / sep + 1,
                        g.sep == sep,
                        0 < sep,
                        w == sep * (w as int / sep as int) + (w as int % sep as int),
                        h == sep * (h as int / sep as int) + (h as int % sep as int),
                        0 <= (w as int % sep as int) < sep,
                        0 <= (h as int % sep as int) < sep,
                ;
            }
            g
        }
    }

    /// Decide whether `(x, y)` is admissible in its cell.
    pub fn is_free(&self, x: i64, y: i64) -> (b: bool)
        requires
            self.wf(),
            self.sep > 0 ==> self.in_domain(x as int, y as int),
        ensures
            b == self.spec_is_free(x as int, y as int),
    {
        if self.sep == 0 {
            return true;
        }
        proof {
            lemma_cell_index_bound(*self, x as int, y as int);
            assert(((y as int) / (self.sep as int)) * (self.cols as int) < 400_000_000)
                by (nonlinear_arith)
                requires
                    0 <= (y as int) / (self.sep as int) < 20_000,
                    0 < self.cols <= 20_000,
            ;
            assert(0 <= ((y as int) / (self.sep as int)) * (self.cols as int))
                by (nonlinear_arith)
                requires
                    0 <= (y as int) / (self.sep as int),
                    0 < self.cols,
            ;
        }
        let c: usize = ((y / self.sep) as usize) * self.cols + ((x / self.sep) as usize);
        let cell: &Vec<(i64, i64)> = &self.cells[c];
        let n: usize = cell.len();
        let mut i: usize = 0;
        while i < n
            invariant
                self.wf(),
                self.sep > 0,
                self.in_domain(x as int, y as int),
                n == cell@.len(),
                cell@ == self.cells@[self.cell_index(x as int, y as int)]@,
                0 <= self.cell_index(x as int, y as int) < self.cells@.len(),
                i <= n,
                forall|j: int|
                    0 <= j < i ==> dist2(#[trigger] cell@[j], (x, y)) >= (self.sep as int) * (
                    self.sep as int),
            decreases n - i,
        {
            let q: (i64, i64) = cell[i];
            proof {
                lemma_same_cell_close(*self, q, (x, y));
                assert(0 <= (q.0 - x) * (q.0 - x) < 4_000_000_000_000_000_000)
                    by (nonlinear_arith)
                    requires
                        -2_000_000_000 < q.0 - x < 2_000_000_000,
                ;
                assert(0 <= (q.1 - y) * (q.1 - y) < 4_000_000_000_000_000_000)
                    by (nonlinear_arith)
                    requires
                        -2_000_000_000 < q.1 - y < 2_000_000_000,
                ;
                assert(0 <= self.sep * self.sep <= 4_000_000_000_000_000_000)
                    by (nonlinear_arith)
                    requires
                        0 <= self.sep <= 2_000_000_000,
                ;
            }
            let dx: i64 = q.0 - x;
            let dy: i64 = q.1 - y;
            if dx * dx + dy * dy < self.sep * self.sep {
                return false;
            }
            i += 1;
        }
        true
    }

    /// Record an admissible point in its cell; degenerate grids record
    /// nothing.
    pub fn insert(&mut self, x: i64, y: i64)
        requires
            old(self).wf(),
            old(self).sep > 0 ==> old(self).in_domain(x as int, y as int),
            old(self).spec_is_free(x as int, y as int),
        ensures
            final(self).wf(),
            final(self).sep == old(self).sep,
            final(self).cols == old(self).cols,
            final(self).rows == old(self).rows,
            old(self).sep == 0 ==> *final(self) == *old(self),
            old(self).sep > 0 ==> {
                let c = old(self).cell_index(x as int, y as int);
                &&& final(self).cells@.len() == old(self).cells@.len()
                &&& final(self).cells@[c]@ == old(self).cells@[c]@.push((x, y))
                &&& forall|c2: int|
                    0 <= c2 < old(self).cells@.len() && c2 != c ==> final(self).cells@[c2]
                        == old(self).cells@[c2]
            },
    {
        if self.sep == 0 {
            return ;
        }
        proof {
            lemma_cell_index_bound(*self, x as int, y as int);
            assert(((y as int) / (self.sep as int)) * (self.cols as int) < 400_000_000)
                by (nonlinear_arith)
                requires
                    0 <= (y as int) / (self.sep as int) < 20_000,
                    0 < self.cols <= 20_000,
            ;
            assert(0 <= ((y as int) / (self.sep as int)) * (self.cols as int))
                by (nonlinear_arith)
                requires
                    0 <= (y as int) / (self.sep as int),
                    0 < self.cols,
            ;
        }
        let c: usize = ((y / self.sep) as usize) * self.cols + ((x / self.sep) as usize);
        let mut cell: Vec<(i64, i64)> = self.cells.remove(c);
        cell.push((x, y));
        self.cells.insert(c, cell);
        proof {
            let oldc = old(self).cells@;
            let newc = self.cells@;
            let ci = old(self).cell_index(x as int, y as int);
            assert(newc =~= oldc.update(ci, newc[ci]));
            assert(newc[ci]@ =~= oldc[ci]@.push((x, y)));
            assert forall|c2: int, i: int|
                0 <= c2 < newc.len() && 0 <= i < newc[c2]@.len() implies {
                let p = #[trigger] newc[c2]@[i];
                self.in_domain(p.0 as int, p.1 as int) && self.cell_index(p.0 as int, p.1 as int)
                    == c2
            } by {
                if c2 == ci && i == newc[c2]@.len() - 1 {
                    assert(newc[c2]@[i] == ((x, y)));
                } else {
                    assert(newc[c2]@[i] == oldc[c2]@[i]);
                }
            }
            assert forall|c2: int, i: int, j: int|
                0 <= c2 < newc.len() && 0 <= i < j < newc[c2]@.len() implies dist2(
                #[trigger] newc[c2]@[i],
                #[trigger] newc[c2]@[j],
            ) >= (self.sep as int) * (self.sep as int) by {
                if c2 == ci && j == newc[c2]@.len() - 1 {
                    assert(newc[c2]@[i] == oldc[c2]@[i]);
                    assert(newc[c2]@[j] == ((x, y)));
                    assert(dist2(oldc[ci]@[i], ((x, y))) >= (old(self).sep as int) * (old(
                        self,
                    ).sep as int));
                    assert(dist2(oldc[ci]@[i], ((x, y))) == dist2(newc[c2]@[i], newc[c2]@[j]))
                        by (nonlinear_arith)
                        requires
                            oldc[ci]@[i] == newc[c2]@[i],
                            newc[c2]@[j] == ((x, y)),
                    ;
                } else {
                    assert(newc[c2]@[i] == oldc[c2]@[i]);
                    assert(newc[c2]@[j] == oldc[c2]@[j]);
                }
            }
        }
    }
}

/// The separation law of the grid: two distinct points recorded in
/// one cell of a well-formed grid lie at least the separation apart.
pub proof fn lemma_grid_separation(g: OccupancyGrid, c: int, i: int, j: int)
    requires
        g.wf(),
        g.sep > 0,
        0 <= c < g.cells@.len(),
        0 <= i < j < g.cells@[c]@.len(),
    ensures
        dist2(g.cells@[c]@[i], g.cells@[c]@[j]) >= (g.sep as int) * (g.sep as int),
{
}

/// A point of the domain indexes a real cell.
pub proof fn lemma_cell_index_bound(g: OccupancyGrid, x: int, y: int)
    requires
        g.wf(),
        g.sep > 0,
        g.in_domain(x, y),
    ensures
        0 <= g.cell_index(x, y) < g.cells@.len(),
        x / (g.sep as int) < g.cols,
        y / (g.sep as int) < g.rows,
        0 <= x / (g.sep as int),
        0 <= y / (g.sep as int),
{
    assert(x / (g.sep as int) < g.cols) by (nonlinear_arith)
        requires
            0 < g.sep,
            0 <= x < (g.cols as int) * (g.sep as int),
    ;
    assert(y / (g.sep as int) < g.rows) by (nonlinear_arith)
        requires
            0 < g.sep,
            0 <= y < (g.rows as int) * (g.sep as int),
    ;
    assert(0 <= x / (g.sep as int) && 0 <= y / (g.sep as int)) by (nonlinear_arith)
        requires
            0 < g.sep,
            0 <= x,
            0 <= y,
    ;
    assert((y / (g.sep as int)) * (g.cols as int) + x / (g.sep as int) < (g.cols as int) * (
    g.rows as int)) by (nonlinear_arith)
        requires
            0 <= x / (g.sep as int) < g.cols,
            0 <= y / (g.sep as int) < g.rows,
    ;
    assert(0 <= (y / (g.sep as int)) * (g.cols as int)) by (nonlinear_arith)
        requires
            0 <= y / (g.sep as int),
            0 <= g.cols,
    ;
}

/// Two points recorded in (or indexed to) the same cell are less than
/// one cell side apart on each axis.
proof fn lemma_same_cell_close(g: OccupancyGrid, q: (i64, i64), p: (i64, i64))
    requires
        g.wf(),
        g.sep > 0,
        g.in_domain(p.0 as int, p.1 as int),
        g.in_domain(q.0 as int, q.1 as int),
        g.cell_index(q.0 as int, q.1 as int) == g.cell_index(p.0 as int, p.1 as int),
    ensures
        -g.sep < q.0 - p.0 < g.sep,
        -g.sep < q.1 - p.1 < g.sep,
{
    lemma_cell_index_bound(g, p.0 as int, p.1 as int);
    lemma_cell_index_bound(g, q.0 as int, q.1 as int);
    let s = g.sep as int;
    let cols = g.cols as int;
    assert(q.0 as int / s == p.0 as int / s && q.1 as int / s == p.1 as int / s)
        by (nonlinear_arith)
        requires
            (q.1 as int / s) * cols + q.0 as int / s == (p.1 as int / s) * cols + p.0 as int / s,
            0 <= q.0 as int / s < cols,
            0 <= p.0 as int / s < cols,
    ;
    vstd::arithmetic::div_mod::lemma_fundamental_div_mod(q.0 as int, g.sep as int);
    vstd::arithmetic::div_mod::lemma_fundamental_div_mod(p.0 as int, g.sep as int);
    vstd::arithmetic::div_mod::lemma_fundamental_div_mod(q.1 as int, g.sep as int);
    vstd::arithmetic::div_mod::lemma_fundamental_div_mod(p.1 as int, g.sep as int);
}

} // verus!
