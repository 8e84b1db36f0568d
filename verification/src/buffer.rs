//! The render target.
//!
//! A `PixelBuffer` owns a `width` by `height` grid of RGBA samples in
//! row-major order, straight (non-premultiplied) alpha.  It is created
//! by one render call, filled, and handed to the caller, who may flatten
//! it to bytes for encoding.

use vstd::prelude::*;
use crate::rgb::Rgba;

verus! {

/// A `width` by `height` raster of RGBA samples, row-major.
pub struct PixelBuffer {
    pub width: usize,
    pub height: usize,
    pub data: Vec<Rgba>,
}

impl PixelBuffer {
    /// The sample grid is complete and small enough that every index
    /// computation stays well inside the machine range.
    pub open spec fn wf(self) -> bool {
        &&& self.data@.len() == self.width * self.height
        &&& self.width <= 16_383
        &&& self.height <= 16_383
    }

    /// The sample at column `x` of row `y`.
    pub open spec fn spec_pixel(self, x: int, y: int) -> Rgba {
        self.data@[y * self.width + x]
    }

    /// A fresh buffer with every sample set to `fill`.
    pub fn new(width: usize, height: usize, fill: Rgba) -> (r: PixelBuffer)
        requires
            width <= 16_383,
            height <= 16_383,
        ensures
            r.wf(),
            r.width == width,
            r.height == height,
            forall|x: int, y: int|
                0 <= x < width && 0 <= y < height ==> #[trigger] r.spec_pixel(x, y) == fill,
            r.data@ == Seq::new((width * height) as nat, |k: int| fill),
    {
        proof {
            assert(width * height <= 16_383 * 16_383) by (nonlinear_arith)
                requires
                    width <= 16_383,
                    height <= 16_383,
            ;
        }
        let total: usize = width * height;
        let mut data: Vec<Rgba> = Vec::new();
        let mut k: usize = 0;
        while k < total
            invariant
                k <= total,
                data@.len() == k,
                forall|j: int| 0 <= j < k ==> data@[j] == fill,
            decreases total - k,
        {
            data.push(fill);
            k += 1;
        }
        let r = PixelBuffer { width, height, data };
        proof {
            assert forall|x: int, y: int|
                0 <= x < width && 0 <= y < height implies #[trigger] r.spec_pixel(x, y)
                == fill by {
                lemma_row_major_bound(x, y, width as int, height as int);
            }
            assert(r.data@ =~= Seq::new((width * height) as nat, |k: int| fill));
        }
        r
    }

    /// Overwrite the sample at `(x, y)`; all other samples keep their
    /// value.
    pub fn set_pixel(&mut self, x: usize, y: usize, c: Rgba)
        requires
            old(self).wf(),
            x < old(self).width,
            y < old(self).height,
        ensures
            final(self).wf(),
            final(self).width == old(self).width,
            final(self).height == old(self).height,
            final(self).spec_pixel(x as int, y as int) == c,
            forall|x2: int, y2: int|
                0 <= x2 < old(self).width && 0 <= y2 < old(self).height && !(x2 == x && y2 == y)
                    ==> #[trigger] final(self).spec_pixel(x2, y2) == old(self).spec_pixel(x2, y2),
    {
        proof {
            lemma_row_major_bound(x as int, y as int, self.width as int, self.height as int);
        }
        let idx: usize = y * self.width + x;
        self.data.set(idx, c);
        proof {
            assert forall|x2: int, y2: int|
                0 <= x2 < old(self).width && 0 <= y2 < old(self).height && !(x2 == x as int && y2
                    == y as int) implies #[trigger] self.spec_pixel(x2, y2) == old(
                self,
            ).spec_pixel(x2, y2) by {
                lemma_row_major_bound(x2, y2, self.width as int, self.height as int);
                lemma_row_major_distinct(
                    x as int,
                    y as int,
                    x2,
                    y2,
                    self.width as int,
                );
            }
        }
    }

    /// Read the sample at `(x, y)`.
    pub fn get_pixel(&self, x: usize, y: usize) -> (r: Rgba)
        requires
            self.wf(),
            x < self.width,
            y < self.height,
        ensures
            r == self.spec_pixel(x as int, y as int),
    {
        proof {
            lemma_row_major_bound(x as int, y as int, self.width as int, self.height as int);
        }
        self.data[y * self.width + x]
    }

    /// Flatten the raster to its row-major RGBA byte sequence, four
    /// bytes per sample, straight alpha.
    pub fn to_bytes(&self) -> (r: Vec<u8>)
        requires
            self.wf(),
        ensures
            r@.len() == 4 * self.data@.len(),
            forall|p: int|
                0 <= p < self.data@.len() ==> r@[4 * p] == (#[trigger] self.data@[p]).r && r@[4 * p
                    + 1] == self.data@[p].g && r@[4 * p + 2] == self.data@[p].b && r@[4 * p + 3]
                    == self.data@[p].a,
    {
        proof {
            assert(self.width * self.height <= 16_383 * 16_383) by (nonlinear_arith)
                requires
                    self.width <= 16_383,
                    self.height <= 16_383,
            ;
        }
        let n: usize = self.data.len();
        let mut out: Vec<u8> = Vec::new();
        let mut p: usize = 0;
        while p < n
            invariant
                n == self.data@.len(),
                n <= 16_383 * 16_383,
                p <= n,
                out@.len() == 4 * p,
                forall|j: int|
                    0 <= j < p ==> out@[4 * j] == (#[trigger] self.data@[j]).r && out@[4 * j + 1]
                        == self.data@[j].g && out@[4 * j + 2] == self.data@[j].b && out@[4 * j + 3]
                        == self.data@[j].a,
            decreases n - p,
        {
            let s: Rgba = self.data[p];
            out.push(s.r);
            out.push(s.g);
            out.push(s.b);
            out.push(s.a);
            p += 1;
        }
        out
    }
}

/// A row-major index stays inside the sample grid.
proof fn lemma_row_major_bound(x: int, y: int, w: int, h: int)
    requires
        0 <= x < w,
        0 <= y < h,
        w <= 16_383,
        h <= 16_383,
    ensures
        0 <= y * w + x < w * h,
        w * h <= 16_383 * 16_383,
{
    assert(w * h <= 16_383 * 16_383) by (nonlinear_arith)
        requires
            0 < w <= 16_383,
            0 < h <= 16_383,
    ;
    assert(y * w + x < w * h) by (nonlinear_arith)
        requires
            0 <= x < w,
            0 <= y < h,
    ;
    assert(0 <= y * w) by (nonlinear_arith)
        requires
            0 <= y,
            0 <= w,
    ;
}

/// Distinct coordinates map to distinct row-major indices.
proof fn lemma_row_major_distinct(x1: int, y1: int, x2: int, y2: int, w: int)
    requires
        0 <= x1 < w,
        0 <= x2 < w,
        0 <= y1,
        0 <= y2,
        !(x1 == x2 && y1 == y2),
    ensures
        y1 * w + x1 != y2 * w + x2,
{
    if y1 == y2 {
    } else {
        assert(y1 * w + x1 != y2 * w + x2) by (nonlinear_arith)
            requires
                0 <= x1 < w,
                0 <= x2 < w,
                y1 != y2,
        ;
    }
}

} // verus!
