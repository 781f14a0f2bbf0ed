use vstd::prelude::*;
use crate::fixed::{FINE, MAX_DIM};

verus! {

/// Alpha above which an occluder texel blocks light (0.8 of full opacity).
pub const OPAQUE_ALPHA: u8 = 204;

/// The occluder layer: a grid of alpha values, row 0 at the bottom, stored row by row.
pub struct OccluderLayer {
    pub width: usize,
    pub height: usize,
    pub alpha: Vec<u8>,
}

/// Texel index along an axis of `size` texels for a fine coordinate in `[0, FINE]`
/// (nearest texel, the far edge clamped onto the last one).
pub open spec fn texel(fine: int, size: int) -> int {
    if fine * size / (FINE as int) < size - 1 {
        fine * size / (FINE as int)
    } else {
        size - 1
    }
}

impl OccluderLayer {
    pub open spec fn wf(&self) -> bool {
        &&& 0 < self.width <= MAX_DIM
        &&& 0 < self.height <= MAX_DIM
        &&& self.alpha@.len() == self.width * self.height
    }

    /// Texel `(tx, ty)` blocks light.
    pub open spec fn opaque(&self, tx: int, ty: int) -> bool {
        self.alpha@[ty * self.width + tx] > OPAQUE_ALPHA
    }

    /// No texel of the layer blocks light.
    pub open spec fn clear_of_occluders(&self) -> bool {
        forall|tx: int, ty: int|
            0 <= tx < self.width && 0 <= ty < self.height ==> !#[trigger] self.opaque(tx, ty)
    }

    /// The texel that a point at fine coordinates `(fx, fy)` falls in blocks light.
    pub open spec fn opaque_at(&self, fx: int, fy: int) -> bool {
        self.opaque(texel(fx, self.width as int), texel(fy, self.height as int))
    }

    /// A fully transparent layer of `width` by `height` texels.
    pub fn new(width: usize, height: usize) -> (r: OccluderLayer)
        requires
            0 < width <= MAX_DIM,
            0 < height <= MAX_DIM,
        ensures
            r.wf(),
            r.width == width,
            r.height == height,
            forall|i: int| 0 <= i < r.alpha@.len() ==> r.alpha@[i] == 0,
    {
        assert(width * height <= MAX_DIM * MAX_DIM) by (nonlinear_arith)
            requires
                width <= MAX_DIM,
                height <= MAX_DIM,
        ;
        let n: usize = width * height;
        let mut alpha: Vec<u8> = Vec::new();
        while alpha.len() < n
            invariant
                alpha@.len() <= n,
                forall|i: int| 0 <= i < alpha@.len() ==> alpha@[i] == 0,
            decreases n - alpha@.len(),
        {
            alpha.push(0);
        }
        OccluderLayer { width, height, alpha }
    }

    /// Whether the texel under the fine point `(fx, fy)` blocks light.
    pub fn is_opaque_at(&self, fx: i64, fy: i64) -> (r: bool)
        requires
            self.wf(),
            0 <= fx <= FINE,
            0 <= fy <= FINE,
        ensures
            r == self.opaque_at(fx as int, fy as int),
    {
        let tx = Self::texel_index(fx, self.width);
        let ty = Self::texel_index(fy, self.height);
        assert(ty * self.width + tx < self.width * self.height <= MAX_DIM * MAX_DIM)
            by (nonlinear_arith)
            requires
                ty < self.height <= MAX_DIM,
                tx < self.width <= MAX_DIM,
        ;
        self.alpha[ty * self.width + tx] > OPAQUE_ALPHA
    }

    fn texel_index(fine: i64, size: usize) -> (r: usize)
        requires
            0 <= fine <= FINE,
            0 < size <= MAX_DIM,
        ensures
            r as int == texel(fine as int, size as int),
            r < size,
    {
        assert(fine * size <= FINE * MAX_DIM) by (nonlinear_arith)
            requires
                0 <= fine <= FINE,
                0 < size <= MAX_DIM,
        ;
        assert(fine * size >= 0) by (nonlinear_arith)
            requires
                0 <= fine,
                0 < size,
        ;
        let t: u64 = (fine as u64) * (size as u64) / (FINE as u64);
        if t < (size as u64) - 1 {
            t as usize
        } else {
            size - 1
        }
    }

    /// Sets every texel of the rectangle `[x0, x1) x [y0, y1)` to alpha `a`,
    /// leaving the others as they were.
    pub fn fill_rect(&mut self, x0: usize, y0: usize, x1: usize, y1: usize, a: u8)
        requires
            old(self).wf(),
            x0 <= x1 <= old(self).width,
            y0 <= y1 <= old(self).height,
        ensures
            final(self).wf(),
            final(self).width == old(self).width,
            final(self).height == old(self).height,
            forall|tx: int, ty: int|
                0 <= tx < old(self).width && 0 <= ty < old(self).height ==>
                    #[trigger] final(self).alpha@[ty * old(self).width + tx] == if x0 <= tx < x1
                        && y0 <= ty < y1 {
                        a
                    } else {
                        old(self).alpha@[ty * old(self).width + tx]
                    },
    {
        let w = self.width;
        let ghost h = self.height as int;
        let ghost before = self.alpha@;
        let mut y: usize = y0;
        while y < y1
            invariant
                self.wf(),
                self.width == w,
                self.height == h,
                x0 <= x1 <= w,
                y0 <= y <= y1 <= h,
                forall|tx: int, ty: int|
                    0 <= tx < w && 0 <= ty < h ==> #[trigger] self.alpha@[ty * w + tx] == if x0
                        <= tx < x1 && y0 <= ty < y {
                        a
                    } else {
                        before[ty * w + tx]
                    },
            decreases y1 - y,
        {
            let mut x: usize = x0;
            while x < x1
                invariant
                    self.wf(),
                    self.width == w,
                    self.height == h,
                    x0 <= x <= x1 <= w,
                    y0 <= y < y1 <= h,
                    forall|tx: int, ty: int|
                        0 <= tx < w && 0 <= ty < h ==> #[trigger] self.alpha@[ty * w + tx] == if (
                        x0 <= tx < x1 && y0 <= ty < y) || (ty == y && x0 <= tx < x) {
                            a
                        } else {
                            before[ty * w + tx]
                        },
                decreases x1 - x,
            {
                assert(y * w + x < w * h <= MAX_DIM * MAX_DIM) by (nonlinear_arith)
                    requires
                        y < h <= MAX_DIM,
                        x < w <= MAX_DIM,
                ;
                let ghost idx = y * w + x;
                self.alpha.set(y * w + x, a);
                assert forall|tx: int, ty: int| 0 <= tx < w && 0 <= ty < h implies #[trigger] self.alpha@[ty * w + tx] == if (
                x0 <= tx < x1 && y0 <= ty < y) || (ty == y && x0 <= tx < x + 1) {
                    a
                } else {
                    before[ty * w + tx]
                } by {
                    lemma_index_distinct(tx, ty, x as int, y as int, w as int);
                    assert(ty * w + tx < w * h) by (nonlinear_arith)
                        requires
                            ty < h,
                            tx < w,
                    ;
                }
                x = x + 1;
            }
            y = y + 1;
        }
    }
}

/// Row-major indices of distinct texels differ.
proof fn lemma_index_distinct(tx: int, ty: int, x: int, y: int, w: int)
    requires
        0 <= tx < w,
        0 <= x < w,
        0 <= ty,
        0 <= y,
    ensures
        (ty * w + tx == y * w + x) <==> (tx == x && ty == y),
{
    if ty < y {
        assert(ty * w + tx < y * w + x) by (nonlinear_arith)
            requires
                ty + 1 <= y,
                0 <= tx < w,
                0 <= x,
        ;
    } else if y < ty {
        assert(y * w + x < ty * w + tx) by (nonlinear_arith)
            requires
                y + 1 <= ty,
                0 <= x < w,
                0 <= tx,
        ;
    }
}

} // verus!
