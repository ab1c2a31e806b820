//! A two-dimensional array of `i32` samples stored as a grid of lazily
//! allocated blocks.  Blocks that were never written read back as zero.
use vstd::prelude::*;

use crate::math::{ceil_div, lemma_ceil_div_covers, opj_uint_ceildiv};
use vstd::arithmetic::div_mod::lemma_fundamental_div_mod_converse;

verus! {

/// Block-sparse 2-D array.  The grid has `block_count_hor` x `block_count_ver`
/// blocks of `block_width` x `block_height` samples each; a block is `None`
/// until something is written into it.
#[derive(Clone)]
pub struct SparseArray {
    pub width: u32,
    pub height: u32,
    pub block_width: u32,
    pub block_height: u32,
    pub block_count_hor: u32,
    pub block_count_ver: u32,
    pub blocks: Vec<Option<Vec<i32>>>,
}

/// Index, in `blocks`, of the block holding sample `(x, y)`.
pub open spec fn block_of(sa: SparseArray, x: int, y: int) -> int {
    (y / sa.block_height as int) * sa.block_count_hor as int + x / sa.block_width as int
}

/// Position of sample `(x, y)` inside its block (row-major).
pub open spec fn offset_in_block(sa: SparseArray, x: int, y: int) -> int {
    (y % sa.block_height as int) * sa.block_width as int + x % sa.block_width as int
}

impl SparseArray {
    /// The structural invariant: the grid covers the array, the block table has
    /// one slot per grid cell, and every allocated block is full-sized.
    pub open spec fn wf(&self) -> bool {
        &&& self.width > 0
        &&& self.height > 0
        &&& self.block_width > 0
        &&& self.block_height > 0
        &&& self.block_count_hor == ceil_div(self.width as int, self.block_width as int)
        &&& self.block_count_ver == ceil_div(self.height as int, self.block_height as int)
        &&& self.block_count_hor * self.block_count_ver <= u32::MAX
        &&& self.blocks@.len() == self.block_count_hor * self.block_count_ver
        &&& forall|i: int|
            0 <= i < self.blocks@.len() && (#[trigger] self.blocks@[i]) is Some ==> self.blocks@[i].unwrap()@.len()
                == self.block_width * self.block_height
    }

    pub open spec fn in_bounds(&self, x: int, y: int) -> bool {
        0 <= x < self.width && 0 <= y < self.height
    }

    /// The sample stored at `(x, y)`: the block's entry, or zero for a block
    /// that was never allocated.
    pub open spec fn value_at(&self, x: int, y: int) -> i32 {
        match self.blocks@[block_of(*self, x, y)] {
            Some(b) => b@[offset_in_block(*self, x, y)],
            None => 0,
        }
    }

    /// Same dimensions and grid as `other`.
    pub open spec fn same_shape(&self, other: &SparseArray) -> bool {
        &&& self.width == other.width
        &&& self.height == other.height
        &&& self.block_width == other.block_width
        &&& self.block_height == other.block_height
        &&& self.block_count_hor == other.block_count_hor
        &&& self.block_count_ver == other.block_count_ver
        &&& self.blocks@.len() == other.blocks@.len()
    }
}

/// Every sample of an in-bounds position lives in an existing block slot, at
/// an offset inside a full-sized block.
pub proof fn lemma_layout(sa: SparseArray, x: int, y: int)
    requires
        sa.wf(),
        sa.in_bounds(x, y),
    ensures
        0 <= block_of(sa, x, y) < sa.blocks@.len(),
        0 <= offset_in_block(sa, x, y) < sa.block_width * sa.block_height,
        x / sa.block_width as int == block_of(sa, x, y) % sa.block_count_hor as int,
        y / sa.block_height as int == block_of(sa, x, y) / sa.block_count_hor as int,
{
    let bw = sa.block_width as int;
    let bh = sa.block_height as int;
    let hor = sa.block_count_hor as int;
    let ver = sa.block_count_ver as int;
    lemma_ceil_div_covers(sa.width as int, bw);
    lemma_ceil_div_covers(sa.height as int, bh);
    let bx = x / bw;
    let by = y / bh;
    assert(0 <= bx < hor) by (nonlinear_arith)
        requires
            0 <= x < hor * bw,
            bw > 0,
            bx == x / bw,
    ;
    assert(0 <= by < ver) by (nonlinear_arith)
        requires
            0 <= y < ver * bh,
            bh > 0,
            by == y / bh,
    ;
    assert(0 <= by * hor + bx < hor * ver) by (nonlinear_arith)
        requires
            0 <= bx < hor,
            0 <= by < ver,
    ;
    let ox = x % bw;
    let oy = y % bh;
    assert(0 <= oy * bw + ox < bw * bh) by (nonlinear_arith)
        requires
            0 <= ox < bw,
            0 <= oy < bh,
            ox == x % bw,
            oy == y % bh,
    ;
    lemma_fundamental_div_mod_converse(by * hor + bx, hor, by, bx);
}

/// Distinct in-bounds positions never share a storage cell.
pub proof fn lemma_layout_injective(sa: SparseArray, x1: int, y1: int, x2: int, y2: int)
    requires
        sa.wf(),
        sa.in_bounds(x1, y1),
        sa.in_bounds(x2, y2),
        block_of(sa, x1, y1) == block_of(sa, x2, y2),
        offset_in_block(sa, x1, y1) == offset_in_block(sa, x2, y2),
    ensures
        x1 == x2,
        y1 == y2,
{
    let bw = sa.block_width as int;
    let bh = sa.block_height as int;
    lemma_layout(sa, x1, y1);
    lemma_layout(sa, x2, y2);
    let o = offset_in_block(sa, x1, y1);
    lemma_fundamental_div_mod_converse(o, bw, y1 % bh, x1 % bw);
    lemma_fundamental_div_mod_converse(o, bw, y2 % bh, x2 % bw);
    assert(x1 == x2) by (nonlinear_arith)
        requires
            bw > 0,
            x1 / bw == x2 / bw,
            x1 % bw == x2 % bw,
    ;
    assert(y1 == y2) by (nonlinear_arith)
        requires
            bh > 0,
            y1 / bh == y2 / bh,
            y1 % bh == y2 % bh,
    ;
}

impl SparseArray {
    /// Creates an empty array, or `None` when a dimension is zero or the
    /// number of blocks does not fit in a `u32`.
    pub fn new(width: u32, height: u32, block_width: u32, block_height: u32) -> (r: Option<Self>)
        ensures
            (width == 0 || height == 0 || block_width == 0 || block_height == 0) ==> r is None,
            (width > 0 && height > 0 && block_width > 0 && block_height > 0) ==> (r is Some
                <==> ceil_div(width as int, block_width as int) * ceil_div(
                height as int,
                block_height as int,
            ) <= u32::MAX),
            r matches Some(sa) ==> {
                &&& sa.wf()
                &&& sa.width == width
                &&& sa.height == height
                &&& sa.block_width == block_width
                &&& sa.block_height == block_height
                &&& forall|i: int| 0 <= i < sa.blocks@.len() ==> #[trigger] sa.blocks@[i] is None
                &&& forall|x: int, y: int| sa.in_bounds(x, y) ==> #[trigger] sa.value_at(x, y) == 0
            },
    {
        if width == 0 || height == 0 || block_width == 0 || block_height == 0 {
            return None;
        }
        let block_count_hor = opj_uint_ceildiv(width, block_width);
        let block_count_ver = opj_uint_ceildiv(height, block_height);
        proof {
            lemma_ceil_div_covers(width as int, block_width as int);
            lemma_ceil_div_covers(height as int, block_height as int);
        }
        if block_count_hor > u32::MAX / block_count_ver {
            assert(block_count_hor * block_count_ver > u32::MAX) by (nonlinear_arith)
                requires
                    block_count_ver > 0,
                    block_count_hor > u32::MAX / block_count_ver,
            ;
            return None;
        }
        assert(block_count_hor * block_count_ver <= u32::MAX) by (nonlinear_arith)
            requires
                block_count_ver > 0,
                block_count_hor <= u32::MAX / block_count_ver,
        ;
        let total_blocks = (block_count_hor * block_count_ver) as usize;
        let mut blocks: Vec<Option<Vec<i32>>> = Vec::new();
        let mut i: usize = 0;
        while i < total_blocks
            invariant
                i <= total_blocks,
                blocks@.len() == i,
                forall|j: int| 0 <= j < i ==> #[trigger] blocks@[j] is None,
            decreases total_blocks - i,
        {
            blocks.push(None);
            i = i + 1;
        }
        let sa = Self {
            width,
            height,
            block_width,
            block_height,
            block_count_hor,
            block_count_ver,
            blocks,
        };
        proof {
            assert forall|x: int, y: int| sa.in_bounds(x, y) implies #[trigger] sa.value_at(x, y) == 0 by {
                lemma_layout(sa, x, y);
            }
        }
        Some(sa)
    }

    /// Position in `blocks` of grid cell `(x, y)`.
    fn block_index(&self, x: u32, y: u32) -> (r: usize)
        requires
            y * self.block_count_hor + x <= u32::MAX,
        ensures
            r == y * self.block_count_hor + x,
    {
        (y * self.block_count_hor + x) as usize
    }

    /// The samples of grid cell `(x, y)`, or `None` when the cell is outside
    /// the grid or not allocated.
    pub fn data_block(&self, x: u32, y: u32) -> (r: Option<&[i32]>)
        requires
            y * self.block_count_hor + x <= u32::MAX,
        ensures
            ({
                let i = y * self.block_count_hor + x;
                &&& (i >= self.blocks@.len() || self.blocks@[i] is None) ==> r is None
                &&& (i < self.blocks@.len() && self.blocks@[i] is Some) ==> (r is Some && r.unwrap()@
                    == self.blocks@[i].unwrap()@)
            }),
    {
        let index = self.block_index(x, y);
        if index < self.blocks.len() {
            match &self.blocks[index] {
                Some(b) => Some(b.as_slice()),
                None => None,
            }
        } else {
            None
        }
    }

    /// Mutable access to the samples of grid cell `(x, y)`, or `None` when the
    /// cell is outside the grid or not allocated.
    pub fn data_block_mut(&mut self, x: u32, y: u32) -> (r: Option<&mut [i32]>)
        requires
            y * old(self).block_count_hor + x <= u32::MAX,
        ensures
            ({
                let i = y * old(self).block_count_hor + x;
                &&& (i >= old(self).blocks@.len() || old(self).blocks@[i] is None) ==> (r is None
                    && final(self).same_shape(old(self)) && final(self).blocks@ == old(self).blocks@)
                &&& (i < old(self).blocks@.len() && old(self).blocks@[i] is Some) ==> {
                    &&& r is Some
                    &&& r.unwrap()@ == old(self).blocks@[i].unwrap()@
                    &&& final(self).width == old(self).width
                    &&& final(self).height == old(self).height
                    &&& final(self).block_width == old(self).block_width
                    &&& final(self).block_height == old(self).block_height
                    &&& final(self).block_count_hor == old(self).block_count_hor
                    &&& final(self).block_count_ver == old(self).block_count_ver
                    &&& final(self).blocks@.len() == old(self).blocks@.len()
                    &&& forall|j: int|
                        0 <= j < old(self).blocks@.len() && j != i ==> #[trigger] final(self).blocks@[j]
                            == old(self).blocks@[j]
                    &&& final(self).blocks@[i] is Some
                    &&& final(self).blocks@[i].unwrap()@ == final(r.unwrap())@
                }
            }),
    {
        let index = self.block_index(x, y);
        if index < self.blocks.len() {
            match self.blocks[index].as_mut() {
                Some(b) => Some(b.as_mut_slice()),
                None => None,
            }
        } else {
            None
        }
    }

    /// Stores `value` as the samples of grid cell `(x, y)`.
    pub fn set_data_block(&mut self, x: u32, y: u32, value: Vec<i32>)
        requires
            y * old(self).block_count_hor + x <= u32::MAX,
            y * old(self).block_count_hor + x < old(self).blocks@.len(),
        ensures
            final(self).width == old(self).width,
            final(self).height == old(self).height,
            final(self).block_width == old(self).block_width,
            final(self).block_height == old(self).block_height,
            final(self).block_count_hor == old(self).block_count_hor,
            final(self).block_count_ver == old(self).block_count_ver,
            final(self).blocks@ == old(self).blocks@.update(
                y * old(self).block_count_hor + x,
                Some(value),
            ),
    {
        let index = self.block_index(x, y);
        self.blocks.set(index, Some(value));
    }
}

/// Whether `[x0, x1) x [y0, y1)` is a non-empty region inside the array.
pub open spec fn region_valid(sa: SparseArray, x0: int, y0: int, x1: int, y1: int) -> bool {
    !(x0 >= sa.width || x1 <= x0 || x1 > sa.width || y0 >= sa.height || y1 <= y0 || y1
        > sa.height)
}

/// Whether `[x0, x1) x [y0, y1)` is a non-empty region inside the array.
pub fn is_region_valid(sa: &SparseArray, x0: u32, y0: u32, x1: u32, y1: u32) -> (r: bool)
    ensures
        r == region_valid(*sa, x0 as int, y0 as int, x1 as int, y1 as int),
{
    !(x0 >= sa.width || x1 <= x0 || x1 > sa.width || y0 >= sa.height || y1 <= y0 || y1
        > sa.height)
}


/// Whether `(x, y)` lies in the rectangle `[x0, x1) x [y0, y1)`.
pub open spec fn in_rect(x0: int, y0: int, x1: int, y1: int, x: int, y: int) -> bool {
    x0 <= x < x1 && y0 <= y < y1
}

/// Position, in a strided buffer, of the sample for `(x, y)` of a region
/// whose first sample `(x0, y0)` sits at position 0.
pub open spec fn strided_index(x0: int, y0: int, col_stride: int, line_stride: int, x: int, y: int) -> int {
    (y - y0) * line_stride + (x - x0) * col_stride
}

/// The strided positions of the last sample of the region fit in the buffer
/// (and the column offset fits in a `u32`).
pub open spec fn strided_fits(
    x0: int,
    y0: int,
    x1: int,
    y1: int,
    col_stride: int,
    line_stride: int,
    len: int,
) -> bool {
    &&& (x1 - 1 - x0) * col_stride <= u32::MAX
    &&& strided_index(x0, y0, col_stride, line_stride, x1 - 1, y1 - 1) < len
}

/// No two samples of the region share a strided position.
pub open spec fn strides_injective(
    x0: int,
    y0: int,
    x1: int,
    y1: int,
    col_stride: int,
    line_stride: int,
) -> bool {
    forall|xa: int, ya: int, xb: int, yb: int|
        in_rect(x0, y0, x1, y1, xa, ya) && in_rect(x0, y0, x1, y1, xb, yb) && #[trigger] strided_index(
            x0,
            y0,
            col_stride,
            line_stride,
            xa,
            ya,
        ) == #[trigger] strided_index(x0, y0, col_stride, line_stride, xb, yb) ==> xa == xb && ya
            == yb
}

/// Some sample of the region that satisfies `done` is placed at position `i`.
pub open spec fn hit(
    x0: int,
    y0: int,
    x1: int,
    y1: int,
    cs: int,
    ls: int,
    done: spec_fn(int, int) -> bool,
    i: int,
) -> bool {
    exists|x: int, y: int|
        #![trigger strided_index(x0, y0, cs, ls, x, y)]
        in_rect(x0, y0, x1, y1, x, y) && done(x, y) && strided_index(x0, y0, cs, ls, x, y) == i
}

/// The state of a strided destination after copying the samples selected by
/// `done` out of `sa`: each position that some selected sample maps to holds
/// the value of one such sample; every other position keeps its old value.
pub open spec fn copied_out(
    sa: SparseArray,
    x0: int,
    y0: int,
    x1: int,
    y1: int,
    cs: int,
    ls: int,
    done: spec_fn(int, int) -> bool,
    orig: Seq<i32>,
    d: Seq<i32>,
) -> bool {
    &&& d.len() == orig.len()
    &&& forall|i: int|
        0 <= i < d.len() && #[trigger] hit(x0, y0, x1, y1, cs, ls, done, i) ==> exists|x: int, y: int|
            #![trigger strided_index(x0, y0, cs, ls, x, y)]
            in_rect(x0, y0, x1, y1, x, y) && done(x, y) && strided_index(x0, y0, cs, ls, x, y) == i
                && d[i] == sa.value_at(x, y)
    &&& forall|i: int|
        0 <= i < d.len() && !hit(x0, y0, x1, y1, cs, ls, done, i) ==> #[trigger] d[i] == orig[i]
}

proof fn lemma_copied_out_empty(
    sa: SparseArray,
    x0: int,
    y0: int,
    x1: int,
    y1: int,
    cs: int,
    ls: int,
    done: spec_fn(int, int) -> bool,
    orig: Seq<i32>,
)
    requires
        forall|x: int, y: int| in_rect(x0, y0, x1, y1, x, y) ==> !#[trigger] done(x, y),
    ensures
        copied_out(sa, x0, y0, x1, y1, cs, ls, done, orig, orig),
{
}

proof fn lemma_copied_out_equiv(
    sa: SparseArray,
    x0: int,
    y0: int,
    x1: int,
    y1: int,
    cs: int,
    ls: int,
    done1: spec_fn(int, int) -> bool,
    done2: spec_fn(int, int) -> bool,
    orig: Seq<i32>,
    d: Seq<i32>,
)
    requires
        copied_out(sa, x0, y0, x1, y1, cs, ls, done1, orig, d),
        forall|x: int, y: int|
            in_rect(x0, y0, x1, y1, x, y) ==> (#[trigger] done1(x, y) <==> #[trigger] done2(x, y)),
    ensures
        copied_out(sa, x0, y0, x1, y1, cs, ls, done2, orig, d),
{
    assert forall|i: int| 0 <= i < d.len() implies hit(x0, y0, x1, y1, cs, ls, done1, i) == hit(
        x0,
        y0,
        x1,
        y1,
        cs,
        ls,
        done2,
        i,
    ) by {
        if hit(x0, y0, x1, y1, cs, ls, done1, i) {
            let (x, y) = choose|x: int, y: int|
                #![trigger strided_index(x0, y0, cs, ls, x, y)]
                in_rect(x0, y0, x1, y1, x, y) && done1(x, y) && strided_index(x0, y0, cs, ls, x, y)
                    == i;
            assert(done2(x, y));
        }
        if hit(x0, y0, x1, y1, cs, ls, done2, i) {
            let (x, y) = choose|x: int, y: int|
                #![trigger strided_index(x0, y0, cs, ls, x, y)]
                in_rect(x0, y0, x1, y1, x, y) && done2(x, y) && strided_index(x0, y0, cs, ls, x, y)
                    == i;
            assert(done1(x, y));
        }
    }
    assert forall|i: int|
        0 <= i < d.len() && #[trigger] hit(x0, y0, x1, y1, cs, ls, done2, i) implies exists|x: int, y: int|
        #![trigger strided_index(x0, y0, cs, ls, x, y)]
        in_rect(x0, y0, x1, y1, x, y) && done2(x, y) && strided_index(x0, y0, cs, ls, x, y) == i
            && d[i] == sa.value_at(x, y) by {
        assert(hit(x0, y0, x1, y1, cs, ls, done1, i));
        let (x, y) = choose|x: int, y: int|
            #![trigger strided_index(x0, y0, cs, ls, x, y)]
            in_rect(x0, y0, x1, y1, x, y) && done1(x, y) && strided_index(x0, y0, cs, ls, x, y) == i
                && d[i] == sa.value_at(x, y);
        assert(done2(x, y));
    }
}

proof fn lemma_copied_out_step(
    sa: SparseArray,
    x0: int,
    y0: int,
    x1: int,
    y1: int,
    cs: int,
    ls: int,
    done1: spec_fn(int, int) -> bool,
    done2: spec_fn(int, int) -> bool,
    orig: Seq<i32>,
    d: Seq<i32>,
    px: int,
    py: int,
)
    requires
        copied_out(sa, x0, y0, x1, y1, cs, ls, done1, orig, d),
        in_rect(x0, y0, x1, y1, px, py),
        0 <= strided_index(x0, y0, cs, ls, px, py) < d.len(),
        forall|x: int, y: int|
            in_rect(x0, y0, x1, y1, x, y) ==> (#[trigger] done2(x, y) <==> (done1(x, y) || (x == px
                && y == py))),
    ensures
        copied_out(
            sa,
            x0,
            y0,
            x1,
            y1,
            cs,
            ls,
            done2,
            orig,
            d.update(strided_index(x0, y0, cs, ls, px, py), sa.value_at(px, py)),
        ),
{
    let j = strided_index(x0, y0, cs, ls, px, py);
    let d2 = d.update(j, sa.value_at(px, py));
    assert(done2(px, py));
    assert forall|i: int| 0 <= i < d.len() && i != j implies hit(x0, y0, x1, y1, cs, ls, done1, i)
        == hit(x0, y0, x1, y1, cs, ls, done2, i) by {
        if hit(x0, y0, x1, y1, cs, ls, done1, i) {
            let (x, y) = choose|x: int, y: int|
                #![trigger strided_index(x0, y0, cs, ls, x, y)]
                in_rect(x0, y0, x1, y1, x, y) && done1(x, y) && strided_index(x0, y0, cs, ls, x, y)
                    == i;
            assert(done2(x, y));
        }
        if hit(x0, y0, x1, y1, cs, ls, done2, i) {
            let (x, y) = choose|x: int, y: int|
                #![trigger strided_index(x0, y0, cs, ls, x, y)]
                in_rect(x0, y0, x1, y1, x, y) && done2(x, y) && strided_index(x0, y0, cs, ls, x, y)
                    == i;
            assert(done1(x, y));
        }
    }
    assert(hit(x0, y0, x1, y1, cs, ls, done2, j));
    assert forall|i: int|
        0 <= i < d2.len() && #[trigger] hit(x0, y0, x1, y1, cs, ls, done2, i) implies exists|x: int, y: int|
        #![trigger strided_index(x0, y0, cs, ls, x, y)]
        in_rect(x0, y0, x1, y1, x, y) && done2(x, y) && strided_index(x0, y0, cs, ls, x, y) == i
            && d2[i] == sa.value_at(x, y) by {
        if i == j {
            assert(strided_index(x0, y0, cs, ls, px, py) == i);
        } else {
            assert(hit(x0, y0, x1, y1, cs, ls, done1, i));
            let (x, y) = choose|x: int, y: int|
                #![trigger strided_index(x0, y0, cs, ls, x, y)]
                in_rect(x0, y0, x1, y1, x, y) && done1(x, y) && strided_index(x0, y0, cs, ls, x, y)
                    == i && d[i] == sa.value_at(x, y);
            assert(done2(x, y));
        }
    }
    assert forall|i: int|
        0 <= i < d2.len() && !hit(x0, y0, x1, y1, cs, ls, done2, i) implies #[trigger] d2[i]
        == orig[i] by {
        assert(i != j);
    }
}

/// Bound on a strided position inside the region.
proof fn lemma_strided_bound(
    x0: int,
    y0: int,
    x1: int,
    y1: int,
    cs: int,
    ls: int,
    x: int,
    y: int,
)
    requires
        in_rect(x0, y0, x1, y1, x, y),
        cs >= 0,
        ls >= 0,
    ensures
        0 <= (x - x0) * cs <= (x1 - 1 - x0) * cs,
        0 <= (y - y0) * ls,
        0 <= strided_index(x0, y0, cs, ls, x, y) <= strided_index(x0, y0, cs, ls, x1 - 1, y1 - 1),
{
    assert(0 <= (x - x0) * cs <= (x1 - 1 - x0) * cs) by (nonlinear_arith)
        requires
            x0 <= x < x1,
            cs >= 0,
    ;
    assert(0 <= (y - y0) * ls <= (y1 - 1 - y0) * ls) by (nonlinear_arith)
        requires
            y0 <= y < y1,
            ls >= 0,
    ;
}

/// Splitting a coordinate into block number and in-block offset, one step at
/// a time.
proof fn lemma_block_step(y: int, bh: int, by: int, off: int, r: int)
    requires
        bh > 0,
        y >= 0,
        by == y / bh,
        off == y % bh,
        0 <= r,
        off + r < bh,
    ensures
        (y + r) / bh == by,
        (y + r) % bh == off + r,
{
    vstd::arithmetic::div_mod::lemma_fundamental_div_mod(y, bh);
    assert(y + r == by * bh + (off + r)) by (nonlinear_arith)
        requires
            y == bh * (y / bh) + y % bh,
            by == y / bh,
            off == y % bh,
    ;
    lemma_fundamental_div_mod_converse(y + r, bh, by, off + r);
}

/// Moving to the start of the next block.
proof fn lemma_block_next(y: int, bh: int, by: int, off: int)
    requires
        bh > 0,
        y >= 0,
        by == y / bh,
        off == y % bh,
    ensures
        (y + (bh - off)) / bh == by + 1,
        (y + (bh - off)) % bh == 0,
{
    vstd::arithmetic::div_mod::lemma_fundamental_div_mod(y, bh);
    assert(y + (bh - off) == (by + 1) * bh + 0) by (nonlinear_arith)
        requires
            y == bh * (y / bh) + y % bh,
            by == y / bh,
            off == y % bh,
    ;
    lemma_fundamental_div_mod_converse(y + (bh - off), bh, by + 1, 0);
}

/// The result of reading region `[x0, x1) x [y0, y1)` of `sa` into a strided
/// destination: positions that samples map to hold the value of such a
/// sample, the others are untouched, and with injective strides each
/// sample's position holds exactly that sample.
pub open spec fn read_result(
    sa: SparseArray,
    x0: int,
    y0: int,
    x1: int,
    y1: int,
    cs: int,
    ls: int,
    orig: Seq<i32>,
    d: Seq<i32>,
) -> bool {
    &&& copied_out(sa, x0, y0, x1, y1, cs, ls, |x: int, y: int| true, orig, d)
    &&& strides_injective(x0, y0, x1, y1, cs, ls) ==> forall|x: int, y: int|
        in_rect(x0, y0, x1, y1, x, y) ==> d[strided_index(x0, y0, cs, ls, x, y)] == #[trigger] sa.value_at(
            x,
            y,
        )
}

/// Copies region `[x0, x1) x [y0, y1)` of `sa` into `dest`, sample `(x, y)`
/// going to `dest[(y - y0) * dest_line_stride + (x - x0) * dest_col_stride]`;
/// samples of blocks never written read as zero.  An invalid region leaves
/// `dest` alone and returns `forgiving`.
pub fn sparse_array_read(
    sa: &SparseArray,
    x0: u32,
    y0: u32,
    x1: u32,
    y1: u32,
    dest: &mut [i32],
    dest_col_stride: u32,
    dest_line_stride: u32,
    forgiving: bool,
) -> (r: bool)
    requires
        sa.wf(),
        region_valid(*sa, x0 as int, y0 as int, x1 as int, y1 as int) ==> strided_fits(
            x0 as int,
            y0 as int,
            x1 as int,
            y1 as int,
            dest_col_stride as int,
            dest_line_stride as int,
            old(dest)@.len() as int,
        ),
    ensures
        !region_valid(*sa, x0 as int, y0 as int, x1 as int, y1 as int) ==> r == forgiving
            && final(dest)@ == old(dest)@,
        region_valid(*sa, x0 as int, y0 as int, x1 as int, y1 as int) ==> r && read_result(
            *sa,
            x0 as int,
            y0 as int,
            x1 as int,
            y1 as int,
            dest_col_stride as int,
            dest_line_stride as int,
            old(dest)@,
            final(dest)@,
        ),
{
    if !is_region_valid(sa, x0, y0, x1, y1) {
        return forgiving;
    }
    let ghost orig = dest@;
    let ghost (gx0, gy0, gx1, gy1) = (x0 as int, y0 as int, x1 as int, y1 as int);
    let ghost cs = dest_col_stride as int;
    let ghost ls = dest_line_stride as int;
    let bw = sa.block_width;
    let bh = sa.block_height;
    let mut y = y0;
    let mut block_y = y0 / bh;
    proof {
        lemma_copied_out_empty(*sa, gx0, gy0, gx1, gy1, cs, ls, |px: int, py: int| py < y0, orig);
    }
    while y < y1
        invariant
            sa.wf(),
            bw == sa.block_width,
            bh == sa.block_height,
            region_valid(*sa, gx0, gy0, gx1, gy1),
            gx0 == x0,
            gy0 == y0,
            gx1 == x1,
            gy1 == y1,
            cs == dest_col_stride,
            ls == dest_line_stride,
            strided_fits(gx0, gy0, gx1, gy1, cs, ls, orig.len() as int),
            y0 <= y <= y1,
            y < y1 ==> block_y == y / bh,
            y < y1 ==> (y == y0 || y % bh == 0),
            copied_out(*sa, gx0, gy0, gx1, gy1, cs, ls, |px: int, py: int| py < y, orig, dest@),
        decreases y1 - y,
    {
        let y_incr_full = if y == y0 {
            bh - y0 % bh
        } else {
            bh
        };
        let block_y_offset = bh - y_incr_full;
        let y_incr = if y_incr_full < y1 - y {
            y_incr_full
        } else {
            y1 - y
        };
        let mut block_x = x0 / bw;
        let mut x = x0;
        let ghost yy = y;
        proof {
            lemma_copied_out_equiv(
                *sa,
                gx0,
                gy0,
                gx1,
                gy1,
                cs,
                ls,
                |px: int, py: int| py < yy,
                |px: int, py: int| py < yy || (py < yy + y_incr && px < x0),
                orig,
                dest@,
            );
        }
        while x < x1
            invariant
                sa.wf(),
                bw == sa.block_width,
                bh == sa.block_height,
                region_valid(*sa, gx0, gy0, gx1, gy1),
                gx0 == x0,
                gy0 == y0,
                gx1 == x1,
                gy1 == y1,
                cs == dest_col_stride,
                ls == dest_line_stride,
                strided_fits(gx0, gy0, gx1, gy1, cs, ls, orig.len() as int),
                y0 <= y < y1,
                yy == y,
                block_y == y / bh,
                block_y_offset == y % bh,
                0 < y_incr <= bh - block_y_offset,
                y + y_incr <= y1,
                y_incr_full == bh - block_y_offset,
                y_incr < y_incr_full ==> y + y_incr == y1,
                x0 <= x <= x1,
                x < x1 ==> block_x == x / bw,
                x < x1 ==> (x == x0 || x % bw == 0),
                copied_out(
                    *sa,
                    gx0,
                    gy0,
                    gx1,
                    gy1,
                    cs,
                    ls,
                    |px: int, py: int| py < yy || (py < yy + y_incr && px < x),
                    orig,
                    dest@,
                ),
            decreases x1 - x,
        {
            let x_incr_full = if x == x0 {
                bw - x0 % bw
            } else {
                bw
            };
            let block_x_offset = bw - x_incr_full;
            let x_incr = if x_incr_full < x1 - x {
                x_incr_full
            } else {
                x1 - x
            };
            proof {
                lemma_layout(*sa, x as int, y as int);
                lemma_block_step(y as int, bh as int, block_y as int, block_y_offset as int, 0);
                lemma_block_step(x as int, bw as int, block_x as int, block_x_offset as int, 0);
            }
            let src_block = sa.data_block(block_x, block_y);
            let ghost xx = x;
            let mut r: u32 = 0;
            proof {
                lemma_copied_out_equiv(
                    *sa,
                    gx0,
                    gy0,
                    gx1,
                    gy1,
                    cs,
                    ls,
                    |px: int, py: int| py < yy || (py < yy + y_incr && px < x),
                    |px: int, py: int|
                        py < yy || (py < yy + y_incr && px < xx) || (xx <= px < xx + x_incr
                            && py < yy + 0),
                    orig,
                    dest@,
                );
            }
            while r < y_incr
                invariant
                    sa.wf(),
                    bw == sa.block_width,
                    bh == sa.block_height,
                    region_valid(*sa, gx0, gy0, gx1, gy1),
                    gx0 == x0,
                    gy0 == y0,
                    gx1 == x1,
                    gy1 == y1,
                    cs == dest_col_stride,
                    ls == dest_line_stride,
                    strided_fits(gx0, gy0, gx1, gy1, cs, ls, orig.len() as int),
                    y0 <= y < y1,
                    yy == y,
                    xx == x,
                    block_y == y / bh,
                    block_y_offset == y % bh,
                    0 < y_incr <= bh - block_y_offset,
                    y + y_incr <= y1,
                    x0 <= x < x1,
                    block_x == x / bw,
                    block_x_offset == x % bw,
                    0 < x_incr <= bw - block_x_offset,
                    x + x_incr <= x1,
                    block_y * sa.block_count_hor + block_x == block_of(*sa, x as int, y as int),
                    block_of(*sa, x as int, y as int) < sa.blocks@.len(),
                    src_block is None <==> sa.blocks@[block_of(*sa, x as int, y as int)] is None,
                    src_block is Some ==> src_block.unwrap()@ == sa.blocks@[block_of(
                        *sa,
                        x as int,
                        y as int,
                    )].unwrap()@,
                    0 <= r <= y_incr,
                    copied_out(
                        *sa,
                        gx0,
                        gy0,
                        gx1,
                        gy1,
                        cs,
                        ls,
                        |px: int, py: int|
                            py < yy || (py < yy + y_incr && px < xx) || (xx <= px < xx + x_incr
                                && py < yy + r),
                        orig,
                        dest@,
                    ),
                decreases y_incr - r,
            {
                let mut k: u32 = 0;
                let ghost rr = r;
                proof {
                    lemma_copied_out_equiv(
                        *sa,
                        gx0,
                        gy0,
                        gx1,
                        gy1,
                        cs,
                        ls,
                        |px: int, py: int|
                            py < yy || (py < yy + y_incr && px < xx) || (xx <= px < xx + x_incr
                                && py < yy + r),
                        |px: int, py: int|
                            py < yy || (py < yy + y_incr && px < xx) || (xx <= px < xx + x_incr
                                && py < yy + rr) || (py == yy + rr && xx <= px < xx + 0),
                        orig,
                        dest@,
                    );
                }
                while k < x_incr
                    invariant
                        sa.wf(),
                        bw == sa.block_width,
                        bh == sa.block_height,
                        region_valid(*sa, gx0, gy0, gx1, gy1),
                        gx0 == x0,
                        gy0 == y0,
                        gx1 == x1,
                        gy1 == y1,
                        cs == dest_col_stride,
                        ls == dest_line_stride,
                        strided_fits(gx0, gy0, gx1, gy1, cs, ls, orig.len() as int),
                        dest@.len() == orig.len(),
                        y0 <= y < y1,
                        yy == y,
                        xx == x,
                        rr == r,
                        block_y == y / bh,
                        block_y_offset == y % bh,
                        0 < y_incr <= bh - block_y_offset,
                        y + y_incr <= y1,
                        x0 <= x < x1,
                        block_x == x / bw,
                        block_x_offset == x % bw,
                        0 < x_incr <= bw - block_x_offset,
                        x + x_incr <= x1,
                        block_y * sa.block_count_hor + block_x == block_of(*sa, x as int, y as int),
                        block_of(*sa, x as int, y as int) < sa.blocks@.len(),
                        src_block is None <==> sa.blocks@[block_of(*sa, x as int, y as int)] is None,
                        src_block is Some ==> src_block.unwrap()@ == sa.blocks@[block_of(
                            *sa,
                            x as int,
                            y as int,
                        )].unwrap()@,
                        0 <= r < y_incr,
                        0 <= k <= x_incr,
                        copied_out(
                            *sa,
                            gx0,
                            gy0,
                            gx1,
                            gy1,
                            cs,
                            ls,
                            |px: int, py: int|
                                py < yy || (py < yy + y_incr && px < xx) || (xx <= px < xx + x_incr
                                    && py < yy + rr) || (py == yy + rr && xx <= px < xx + k),
                            orig,
                            dest@,
                        ),
                    decreases x_incr - k,
                {
                    let ghost px = (x + k) as int;
                    let ghost py = (y + r) as int;
                    proof {
                        lemma_block_step(y as int, bh as int, block_y as int, block_y_offset as int, r as int);
                        lemma_block_step(x as int, bw as int, block_x as int, block_x_offset as int, k as int);
                        lemma_layout(*sa, px, py);
                        lemma_strided_bound(gx0, gy0, gx1, gy1, cs, ls, px, py);
                        assert(block_of(*sa, px, py) == block_of(*sa, x as int, y as int));
                        assert(0 <= offset_in_block(*sa, px, py) < (bw as int) * (bh as int));
                    }
                    let v: i32 = match src_block {
                        Some(b) => {
                            proof {
                                assert((block_y_offset + r) * bw + block_x_offset + k
                                    == offset_in_block(*sa, px, py));
                                assert(sa.blocks@[block_of(*sa, px, py)] is Some);
                                assert(b@.len() == (bw as int) * (bh as int));
                            }
                            let blen = b.len();
                            let row = block_y_offset as usize + r as usize;
                            assert(row * bw <= offset_in_block(*sa, px, py)) by (nonlinear_arith)
                                requires
                                    row * bw + block_x_offset + k == offset_in_block(*sa, px, py),
                                    block_x_offset >= 0,
                                    k >= 0,
                            ;
                            b[row * bw as usize + block_x_offset as usize + k as usize]
                        },
                        None => 0,
                    };
                    let dlen = dest.len();
                    let col: u32 = (x + k - x0) * dest_col_stride;
                    let di: usize = ((y + r - y0) as usize) * (dest_line_stride as usize)
                        + col as usize;
                    proof {
                        assert(v == sa.value_at(px, py));
                        assert(di == strided_index(gx0, gy0, cs, ls, px, py));
                        lemma_copied_out_step(
                            *sa,
                            gx0,
                            gy0,
                            gx1,
                            gy1,
                            cs,
                            ls,
                            |qx: int, qy: int|
                                qy < yy || (qy < yy + y_incr && qx < xx) || (xx <= qx < xx + x_incr
                                    && qy < yy + rr) || (qy == yy + rr && xx <= qx < xx + k),
                            |qx: int, qy: int|
                                qy < yy || (qy < yy + y_incr && qx < xx) || (xx <= qx < xx + x_incr
                                    && qy < yy + rr) || (qy == yy + rr && xx <= qx < xx + k + 1),
                            orig,
                            dest@,
                            px,
                            py,
                        );
                    }
                    dest[di] = v;
                    k = k + 1;
                }
                proof {
                    lemma_copied_out_equiv(
                        *sa,
                        gx0,
                        gy0,
                        gx1,
                        gy1,
                        cs,
                        ls,
                        |px: int, py: int|
                            py < yy || (py < yy + y_incr && px < xx) || (xx <= px < xx + x_incr
                                && py < yy + rr) || (py == yy + rr && xx <= px < xx + x_incr),
                        |px: int, py: int|
                            py < yy || (py < yy + y_incr && px < xx) || (xx <= px < xx + x_incr
                                && py < yy + rr + 1),
                        orig,
                        dest@,
                    );
                }
                r = r + 1;
            }
            proof {
                lemma_copied_out_equiv(
                    *sa,
                    gx0,
                    gy0,
                    gx1,
                    gy1,
                    cs,
                    ls,
                    |px: int, py: int|
                        py < yy || (py < yy + y_incr && px < xx) || (xx <= px < xx + x_incr && py
                            < yy + y_incr),
                    |px: int, py: int| py < yy || (py < yy + y_incr && px < xx + x_incr),
                    orig,
                    dest@,
                );
                if x_incr == x_incr_full {
                    lemma_block_next(x as int, bw as int, block_x as int, block_x_offset as int);
                }
            }
            block_x = block_x + 1;
            x = x + x_incr;
        }
        proof {
            lemma_copied_out_equiv(
                *sa,
                gx0,
                gy0,
                gx1,
                gy1,
                cs,
                ls,
                |px: int, py: int| py < yy || (py < yy + y_incr && px < x1),
                |px: int, py: int| py < yy + y_incr,
                orig,
                dest@,
            );
            if y_incr == y_incr_full {
                lemma_block_next(y as int, bh as int, block_y as int, block_y_offset as int);
            }
        }
        block_y = block_y + 1;
        y = y + y_incr;
    }
    proof {
        lemma_copied_out_equiv(
            *sa,
            gx0,
            gy0,
            gx1,
            gy1,
            cs,
            ls,
            |px: int, py: int| py < y1,
            |px: int, py: int| true,
            orig,
            dest@,
        );
        assert forall|px: int, py: int| in_rect(gx0, gy0, gx1, gy1, px, py) implies 0
            <= #[trigger] strided_index(gx0, gy0, cs, ls, px, py) < dest@.len() by {
            lemma_strided_bound(gx0, gy0, gx1, gy1, cs, ls, px, py);
        }
        lemma_read_result_injective(*sa, gx0, gy0, gx1, gy1, cs, ls, orig, dest@);
    }
    true
}

proof fn lemma_read_result_injective(
    sa: SparseArray,
    x0: int,
    y0: int,
    x1: int,
    y1: int,
    cs: int,
    ls: int,
    orig: Seq<i32>,
    d: Seq<i32>,
)
    requires
        copied_out(sa, x0, y0, x1, y1, cs, ls, |x: int, y: int| true, orig, d),
        forall|x: int, y: int|
            in_rect(x0, y0, x1, y1, x, y) ==> 0 <= #[trigger] strided_index(x0, y0, cs, ls, x, y)
                < d.len(),
    ensures
        read_result(sa, x0, y0, x1, y1, cs, ls, orig, d),
{
    if strides_injective(x0, y0, x1, y1, cs, ls) {
        assert forall|x: int, y: int| in_rect(x0, y0, x1, y1, x, y) implies d[strided_index(
            x0,
            y0,
            cs,
            ls,
            x,
            y,
        )] == #[trigger] sa.value_at(x, y) by {
            let i = strided_index(x0, y0, cs, ls, x, y);
            assert(hit(x0, y0, x1, y1, cs, ls, |x: int, y: int| true, i));
            let (qx, qy) = choose|qx: int, qy: int|
                #![trigger strided_index(x0, y0, cs, ls, qx, qy)]
                in_rect(x0, y0, x1, y1, qx, qy) && strided_index(x0, y0, cs, ls, qx, qy) == i
                    && d[i] == sa.value_at(qx, qy);
        }
    }
}


/// Samples already visited when the block walk is at row `r`, column `k` of
/// the block that starts at `(xx, yy)` and spans `xi` x `yi` samples: all rows
/// above the current band of blocks, the blocks of this band left of `xx`,
/// the rows above `r` in the current block, and the first `k` samples of
/// row `r`.
pub open spec fn visited(yy: int, yi: int, xx: int, xi: int, r: int, k: int) -> spec_fn(int, int) -> bool {
    |px: int, py: int|
        py < yy || (py < yy + yi && px < xx) || (xx <= px < xx + xi && py < yy + r) || (py == yy + r
            && xx <= px < xx + k)
}

/// Whether block `i` holds a sample of the region `[x0, x1) x [y0, y1)`.
pub open spec fn block_meets(sa: SparseArray, i: int, x0: int, y0: int, x1: int, y1: int) -> bool {
    exists|x: int, y: int|
        in_rect(x0, y0, x1, y1, x, y) && sa.in_bounds(x, y) && #[trigger] block_of(sa, x, y) == i
}

/// `sa` is `orig` with the samples of the region that satisfy `done` replaced
/// by their source values; allocated blocks stay allocated, the blocks of
/// those samples are allocated, and blocks outside the region are as they
/// were.
pub open spec fn copied_in(
    orig: SparseArray,
    sa: SparseArray,
    x0: int,
    y0: int,
    x1: int,
    y1: int,
    cs: int,
    ls: int,
    done: spec_fn(int, int) -> bool,
    src: Seq<i32>,
) -> bool {
    &&& sa.wf()
    &&& sa.same_shape(&orig)
    &&& forall|i: int|
        0 <= i < orig.blocks@.len() && (#[trigger] orig.blocks@[i]) is Some ==> sa.blocks@[i] is Some
    &&& forall|i: int|
        0 <= i < orig.blocks@.len() && !block_meets(orig, i, x0, y0, x1, y1) ==> #[trigger] sa.blocks@[i]
            == orig.blocks@[i]
    &&& forall|x: int, y: int|
        sa.in_bounds(x, y) && in_rect(x0, y0, x1, y1, x, y) && done(x, y) ==> (#[trigger] sa.blocks@[block_of(
            sa,
            x,
            y,
        )]) is Some
    &&& forall|x: int, y: int|
        sa.in_bounds(x, y) ==> #[trigger] sa.value_at(x, y) == (if in_rect(x0, y0, x1, y1, x, y) && done(
            x,
            y,
        ) {
            src[strided_index(x0, y0, cs, ls, x, y)]
        } else {
            orig.value_at(x, y)
        })
}

proof fn lemma_copied_in_equiv(
    orig: SparseArray,
    sa: SparseArray,
    x0: int,
    y0: int,
    x1: int,
    y1: int,
    cs: int,
    ls: int,
    done1: spec_fn(int, int) -> bool,
    done2: spec_fn(int, int) -> bool,
    src: Seq<i32>,
)
    requires
        copied_in(orig, sa, x0, y0, x1, y1, cs, ls, done1, src),
        forall|x: int, y: int|
            in_rect(x0, y0, x1, y1, x, y) ==> (#[trigger] done1(x, y) <==> #[trigger] done2(x, y)),
    ensures
        copied_in(orig, sa, x0, y0, x1, y1, cs, ls, done2, src),
{
    assert forall|x: int, y: int| sa.in_bounds(x, y) implies #[trigger] sa.value_at(x, y) == (if in_rect(
        x0,
        y0,
        x1,
        y1,
        x,
        y,
    ) && done2(x, y) {
        src[strided_index(x0, y0, cs, ls, x, y)]
    } else {
        orig.value_at(x, y)
    }) by {
        if in_rect(x0, y0, x1, y1, x, y) {
            assert(done1(x, y) == done2(x, y));
        }
    }
}

/// Allocating a zero block where there was none changes no sample.
proof fn lemma_alloc_block(sa1: SparseArray, sa2: SparseArray, bi: int)
    requires
        sa1.wf(),
        sa2.same_shape(&sa1),
        0 <= bi < sa1.blocks@.len(),
        sa1.blocks@[bi] is None,
        sa2.blocks@[bi] is Some,
        sa2.blocks@[bi].unwrap()@ == Seq::new(
            (sa1.block_width * sa1.block_height) as nat,
            |i: int| 0i32,
        ),
        forall|j: int| 0 <= j < sa1.blocks@.len() && j != bi ==> #[trigger] sa2.blocks@[j] == sa1.blocks@[j],
    ensures
        sa2.wf(),
        forall|x: int, y: int| sa1.in_bounds(x, y) ==> #[trigger] sa2.value_at(x, y) == sa1.value_at(x, y),
{
    assert forall|x: int, y: int| sa1.in_bounds(x, y) implies #[trigger] sa2.value_at(x, y)
        == sa1.value_at(x, y) by {
        lemma_layout(sa1, x, y);
    }
}

/// Overwriting one stored sample changes exactly the sample at `(px, py)`.
proof fn lemma_set_sample(sa1: SparseArray, sa2: SparseArray, px: int, py: int, v: i32)
    requires
        sa1.wf(),
        sa2.same_shape(&sa1),
        sa1.in_bounds(px, py),
        sa1.blocks@[block_of(sa1, px, py)] is Some,
        sa2.blocks@[block_of(sa1, px, py)] is Some,
        sa2.blocks@[block_of(sa1, px, py)].unwrap()@ == sa1.blocks@[block_of(
            sa1,
            px,
            py,
        )].unwrap()@.update(offset_in_block(sa1, px, py), v),
        forall|j: int|
            0 <= j < sa1.blocks@.len() && j != block_of(sa1, px, py) ==> #[trigger] sa2.blocks@[j]
                == sa1.blocks@[j],
    ensures
        sa2.wf(),
        sa2.value_at(px, py) == v,
        forall|x: int, y: int|
            sa1.in_bounds(x, y) && !(x == px && y == py) ==> #[trigger] sa2.value_at(x, y)
                == sa1.value_at(x, y),
{
    lemma_layout(sa1, px, py);
    assert forall|x: int, y: int| sa1.in_bounds(x, y) && !(x == px && y == py) implies #[trigger] sa2.value_at(
        x,
        y,
    ) == sa1.value_at(x, y) by {
        lemma_layout(sa1, x, y);
        if block_of(sa1, x, y) == block_of(sa1, px, py) && offset_in_block(sa1, x, y)
            == offset_in_block(sa1, px, py) {
            lemma_layout_injective(sa1, x, y, px, py);
        }
    }
}

/// A block of `n` zero samples.
fn zero_block(n: usize) -> (v: Vec<i32>)
    ensures
        v@ == Seq::new(n as nat, |i: int| 0i32),
{
    let mut v: Vec<i32> = Vec::with_capacity(n);
    let mut i: usize = 0;
    while i < n
        invariant
            i <= n,
            v@ == Seq::new(i as nat, |j: int| 0i32),
        decreases n - i,
    {
        v.push(0);
        i = i + 1;
    }
    v
}

/// Stores `v` at position `off` of allocated block `index`.
fn set_block_sample(sa: &mut SparseArray, index: usize, off: usize, v: i32)
    requires
        index < old(sa).blocks@.len(),
        old(sa).blocks@[index as int] is Some,
        off < old(sa).blocks@[index as int].unwrap()@.len(),
    ensures
        final(sa).same_shape(old(sa)),
        final(sa).blocks@[index as int] is Some,
        final(sa).blocks@[index as int].unwrap()@ == old(sa).blocks@[index as int].unwrap()@.update(
            off as int,
            v,
        ),
        forall|j: int|
            0 <= j < old(sa).blocks@.len() && j != index ==> #[trigger] final(sa).blocks@[j]
                == old(sa).blocks@[j],
{
    match sa.blocks[index].as_mut() {
        Some(b) => {
            b[off] = v;
        },
        None => {},
    }
}

/// The result of writing region `[x0, x1) x [y0, y1)` from a strided source:
/// the samples of the region take their source values, all other samples
/// keep theirs, allocated blocks stay allocated, every block the region
/// meets is allocated, and every other block is as it was.
pub open spec fn write_result(
    orig: SparseArray,
    sa: SparseArray,
    x0: int,
    y0: int,
    x1: int,
    y1: int,
    cs: int,
    ls: int,
    src: Seq<i32>,
) -> bool {
    &&& copied_in(orig, sa, x0, y0, x1, y1, cs, ls, |x: int, y: int| true, src)
    &&& forall|i: int|
        0 <= i < orig.blocks@.len() && block_meets(orig, i, x0, y0, x1, y1) ==> (#[trigger] sa.blocks@[i]) is Some
}

/// Copies a strided source into region `[x0, x1) x [y0, y1)` of `sa`:
/// sample `(x, y)` takes `src[(y - y0) * src_line_stride + (x - x0) *
/// src_col_stride]`.  Blocks the region touches are allocated (zero-filled)
/// first.  An invalid region leaves `sa` alone and returns `forgiving`.
pub fn sparse_array_write(
    sa: &mut SparseArray,
    x0: u32,
    y0: u32,
    x1: u32,
    y1: u32,
    src: &[i32],
    src_col_stride: u32,
    src_line_stride: u32,
    forgiving: bool,
) -> (r: bool)
    requires
        old(sa).wf(),
        region_valid(*old(sa), x0 as int, y0 as int, x1 as int, y1 as int) ==> {
            &&& strided_fits(
                x0 as int,
                y0 as int,
                x1 as int,
                y1 as int,
                src_col_stride as int,
                src_line_stride as int,
                src@.len() as int,
            )
            &&& old(sa).block_width * old(sa).block_height <= u32::MAX
        },
    ensures
        !region_valid(*old(sa), x0 as int, y0 as int, x1 as int, y1 as int) ==> r == forgiving
            && final(sa).same_shape(old(sa)) && final(sa).blocks@ == old(sa).blocks@,
        region_valid(*old(sa), x0 as int, y0 as int, x1 as int, y1 as int) ==> r && write_result(
            *old(sa),
            *final(sa),
            x0 as int,
            y0 as int,
            x1 as int,
            y1 as int,
            src_col_stride as int,
            src_line_stride as int,
            src@,
        ),
{
    if !is_region_valid(sa, x0, y0, x1, y1) {
        return forgiving;
    }
    let ghost orig = *sa;
    let ghost (gx0, gy0, gx1, gy1) = (x0 as int, y0 as int, x1 as int, y1 as int);
    let ghost cs = src_col_stride as int;
    let ghost ls = src_line_stride as int;
    let bw = sa.block_width;
    let bh = sa.block_height;
    let mut y = y0;
    let mut block_y = y0 / bh;
    proof {
        assert forall|i: int| 0 <= i < orig.blocks@.len() && (#[trigger] orig.blocks@[i]) is Some implies sa.blocks@[i] is Some by {}
    }
    while y < y1
        invariant
            orig.wf(),
            bw == orig.block_width,
            bh == orig.block_height,
            bw * bh <= u32::MAX,
            region_valid(orig, gx0, gy0, gx1, gy1),
            gx0 == x0,
            gy0 == y0,
            gx1 == x1,
            gy1 == y1,
            cs == src_col_stride,
            ls == src_line_stride,
            strided_fits(gx0, gy0, gx1, gy1, cs, ls, src@.len() as int),
            y0 <= y <= y1,
            y < y1 ==> block_y == y / bh,
            y < y1 ==> (y == y0 || y % bh == 0),
            copied_in(orig, *sa, gx0, gy0, gx1, gy1, cs, ls, |px: int, py: int| py < y, src@),
        decreases y1 - y,
    {
        let y_incr_full = if y == y0 {
            bh - y0 % bh
        } else {
            bh
        };
        let block_y_offset = bh - y_incr_full;
        let y_incr = if y_incr_full < y1 - y {
            y_incr_full
        } else {
            y1 - y
        };
        let mut block_x = x0 / bw;
        let mut x = x0;
        let ghost yy: int = y as int;
        proof {
            lemma_copied_in_equiv(
                orig,
                *sa,
                gx0,
                gy0,
                gx1,
                gy1,
                cs,
                ls,
                |px: int, py: int| py < yy,
                visited(yy, y_incr as int, x0 as int, 0, 0, 0),
                src@,
            );
        }
        while x < x1
            invariant
                orig.wf(),
                bw == orig.block_width,
                bh == orig.block_height,
                bw * bh <= u32::MAX,
                region_valid(orig, gx0, gy0, gx1, gy1),
                gx0 == x0,
                gy0 == y0,
                gx1 == x1,
                gy1 == y1,
                cs == src_col_stride,
                ls == src_line_stride,
                strided_fits(gx0, gy0, gx1, gy1, cs, ls, src@.len() as int),
                y0 <= y < y1,
                yy == y,
                block_y == y / bh,
                block_y_offset == y % bh,
                0 < y_incr <= bh - block_y_offset,
                y + y_incr <= y1,
                y_incr_full == bh - block_y_offset,
                y_incr < y_incr_full ==> y + y_incr == y1,
                x0 <= x <= x1,
                x < x1 ==> block_x == x / bw,
                x < x1 ==> (x == x0 || x % bw == 0),
                copied_in(orig, *sa, gx0, gy0, gx1, gy1, cs, ls, visited(yy, y_incr as int, x as int, 0, 0, 0), src@),
            decreases x1 - x,
        {
            let x_incr_full = if x == x0 {
                bw - x0 % bw
            } else {
                bw
            };
            let block_x_offset = bw - x_incr_full;
            let x_incr = if x_incr_full < x1 - x {
                x_incr_full
            } else {
                x1 - x
            };
            proof {
                lemma_layout(orig, x as int, y as int);
                lemma_block_step(y as int, bh as int, block_y as int, block_y_offset as int, 0);
                lemma_block_step(x as int, bw as int, block_x as int, block_x_offset as int, 0);
            }
            let ghost bi = block_of(orig, x as int, y as int);
            let index = sa.block_index(block_x, block_y);
            if sa.blocks[index].is_none() {
                let ghost before = *sa;
                let z = zero_block((bw * bh) as usize);
                sa.blocks.set(index, Some(z));
                proof {
                    lemma_alloc_block(before, *sa, bi);
                    assert(in_rect(gx0, gy0, gx1, gy1, x as int, y as int) && orig.in_bounds(x as int, y as int)
                        && block_of(orig, x as int, y as int) == bi);
                    assert(block_meets(orig, bi, gx0, gy0, gx1, gy1));
                    assert forall|i: int|
                        0 <= i < orig.blocks@.len() && !block_meets(orig, i, gx0, gy0, gx1, gy1) implies #[trigger] sa.blocks@[i]
                            == orig.blocks@[i] by {
                        assert(before.blocks@[i] == orig.blocks@[i]);
                    }
                    assert forall|qx: int, qy: int|
                        sa.in_bounds(qx, qy) && in_rect(gx0, gy0, gx1, gy1, qx, qy) && visited(yy, y_incr as int, x as int, 0, 0, 0)(qx, qy)
                        implies (#[trigger] sa.blocks@[block_of(*sa, qx, qy)]) is Some by {
                        lemma_layout(orig, qx, qy);
                        if block_of(*sa, qx, qy) != bi {
                            assert(before.blocks@[block_of(before, qx, qy)] is Some);
                        }
                    }
                }
            }
            let ghost xx: int = x as int;
            let mut r: u32 = 0;
            proof {
                lemma_copied_in_equiv(
                    orig,
                    *sa,
                    gx0,
                    gy0,
                    gx1,
                    gy1,
                    cs,
                    ls,
                    visited(yy, y_incr as int, x as int, 0, 0, 0),
                    visited(yy, y_incr as int, xx, x_incr as int, 0, 0),
                    src@,
                );
            }
            while r < y_incr
                invariant
                    orig.wf(),
                    bw == orig.block_width,
                    bh == orig.block_height,
                    bw * bh <= u32::MAX,
                    region_valid(orig, gx0, gy0, gx1, gy1),
                    gx0 == x0,
                    gy0 == y0,
                    gx1 == x1,
                    gy1 == y1,
                    cs == src_col_stride,
                    ls == src_line_stride,
                    strided_fits(gx0, gy0, gx1, gy1, cs, ls, src@.len() as int),
                    y0 <= y < y1,
                    yy == y,
                    xx == x,
                    block_y == y / bh,
                    block_y_offset == y % bh,
                    0 < y_incr <= bh - block_y_offset,
                    y + y_incr <= y1,
                    x0 <= x < x1,
                    block_x == x / bw,
                    block_x_offset == x % bw,
                    0 < x_incr <= bw - block_x_offset,
                    x + x_incr <= x1,
                    index == bi,
                    bi == block_of(orig, x as int, y as int),
                    bi < orig.blocks@.len(),
                    sa.blocks@[bi] is Some,
                    0 <= r <= y_incr,
                    copied_in(orig, *sa, gx0, gy0, gx1, gy1, cs, ls, visited(yy, y_incr as int, xx, x_incr as int, r as int, 0), src@),
                decreases y_incr - r,
            {
                let mut k: u32 = 0;
                let ghost rr: int = r as int;
                while k < x_incr
                    invariant
                        orig.wf(),
                        bw == orig.block_width,
                        bh == orig.block_height,
                        bw * bh <= u32::MAX,
                        region_valid(orig, gx0, gy0, gx1, gy1),
                        gx0 == x0,
                        gy0 == y0,
                        gx1 == x1,
                        gy1 == y1,
                        cs == src_col_stride,
                        ls == src_line_stride,
                        strided_fits(gx0, gy0, gx1, gy1, cs, ls, src@.len() as int),
                        y0 <= y < y1,
                        yy == y,
                        xx == x,
                        rr == r,
                        block_y == y / bh,
                        block_y_offset == y % bh,
                        0 < y_incr <= bh - block_y_offset,
                        y + y_incr <= y1,
                        x0 <= x < x1,
                        block_x == x / bw,
                        block_x_offset == x % bw,
                        0 < x_incr <= bw - block_x_offset,
                        x + x_incr <= x1,
                        index == bi,
                        bi == block_of(orig, x as int, y as int),
                        bi < orig.blocks@.len(),
                        sa.blocks@[bi] is Some,
                        0 <= r < y_incr,
                        0 <= k <= x_incr,
                        copied_in(orig, *sa, gx0, gy0, gx1, gy1, cs, ls, visited(yy, y_incr as int, xx, x_incr as int, rr, k as int), src@),
                    decreases x_incr - k,
                {
                    let ghost px = (x + k) as int;
                    let ghost py = (y + r) as int;
                    proof {
                        lemma_block_step(y as int, bh as int, block_y as int, block_y_offset as int, r as int);
                        lemma_block_step(x as int, bw as int, block_x as int, block_x_offset as int, k as int);
                        lemma_layout(orig, px, py);
                        lemma_strided_bound(gx0, gy0, gx1, gy1, cs, ls, px, py);
                        assert(block_of(orig, px, py) == bi);
                        assert(block_of(*sa, px, py) == bi);
                    }
                    let slen = src.len();
                    let col: u32 = (x + k - x0) * src_col_stride;
                    let si: usize = ((y + r - y0) as usize) * (src_line_stride as usize) + col as usize;
                    let v = src[si];
                    let row = block_y_offset as usize + r as usize;
                    proof {
                        assert(row * bw + block_x_offset + k == offset_in_block(orig, px, py));
                        assert(row * bw <= offset_in_block(orig, px, py)) by (nonlinear_arith)
                            requires
                                row * bw + block_x_offset + k == offset_in_block(orig, px, py),
                                block_x_offset >= 0,
                                k >= 0,
                        ;
                        assert(si == strided_index(gx0, gy0, cs, ls, px, py));
                        assert(sa.blocks@[bi].unwrap()@.len() == (bw as int) * (bh as int));
                    }
                    let off = row * bw as usize + block_x_offset as usize + k as usize;
                    let ghost before = *sa;
                    set_block_sample(sa, index, off, v);
                    proof {
                        lemma_set_sample(before, *sa, px, py, v);
                        assert forall|qx: int, qy: int| sa.in_bounds(qx, qy) implies #[trigger] sa.value_at(
                            qx,
                            qy,
                        ) == (if in_rect(gx0, gy0, gx1, gy1, qx, qy) && visited(yy, y_incr as int, xx, x_incr as int, rr, k + 1)(qx, qy) {
                            src@[strided_index(gx0, gy0, cs, ls, qx, qy)]
                        } else {
                            orig.value_at(qx, qy)
                        }) by {
                            if !(qx == px && qy == py) {
                                assert(before.value_at(qx, qy) == sa.value_at(qx, qy));
                            }
                        }
                        assert forall|i: int| 0 <= i < orig.blocks@.len() && (#[trigger] orig.blocks@[i]) is Some implies sa.blocks@[i] is Some by {
                            assert(before.blocks@[i] is Some);
                        }
                        assert(in_rect(gx0, gy0, gx1, gy1, px, py) && orig.in_bounds(px, py) && block_of(orig, px, py) == bi);
                        assert(block_meets(orig, bi, gx0, gy0, gx1, gy1));
                        assert forall|i: int|
                            0 <= i < orig.blocks@.len() && !block_meets(orig, i, gx0, gy0, gx1, gy1) implies #[trigger] sa.blocks@[i]
                                == orig.blocks@[i] by {
                            assert(before.blocks@[i] == orig.blocks@[i]);
                        }
                        assert forall|qx: int, qy: int|
                            sa.in_bounds(qx, qy) && in_rect(gx0, gy0, gx1, gy1, qx, qy) && visited(yy, y_incr as int, xx, x_incr as int, rr, k + 1)(qx, qy)
                            implies (#[trigger] sa.blocks@[block_of(*sa, qx, qy)]) is Some by {
                            lemma_layout(orig, qx, qy);
                            if block_of(*sa, qx, qy) != bi {
                                assert(before.blocks@[block_of(before, qx, qy)] is Some);
                            }
                        }
                    }
                    k = k + 1;
                }
                proof {
                    lemma_copied_in_equiv(
                        orig,
                        *sa,
                        gx0,
                        gy0,
                        gx1,
                        gy1,
                        cs,
                        ls,
                        visited(yy, y_incr as int, xx, x_incr as int, rr, x_incr as int),
                        visited(yy, y_incr as int, xx, x_incr as int, rr + 1, 0),
                        src@,
                    );
                }
                r = r + 1;
            }
            proof {
                lemma_copied_in_equiv(
                    orig,
                    *sa,
                    gx0,
                    gy0,
                    gx1,
                    gy1,
                    cs,
                    ls,
                    visited(yy, y_incr as int, xx, x_incr as int, y_incr as int, 0),
                    visited(yy, y_incr as int, xx + x_incr as int, 0, 0, 0),
                    src@,
                );
                if x_incr == x_incr_full {
                    lemma_block_next(x as int, bw as int, block_x as int, block_x_offset as int);
                }
            }
            block_x = block_x + 1;
            x = x + x_incr;
        }
        proof {
            lemma_copied_in_equiv(
                orig,
                *sa,
                gx0,
                gy0,
                gx1,
                gy1,
                cs,
                ls,
                visited(yy, y_incr as int, x1 as int, 0, 0, 0),
                |px: int, py: int| py < yy + y_incr,
                src@,
            );
            if y_incr == y_incr_full {
                lemma_block_next(y as int, bh as int, block_y as int, block_y_offset as int);
            }
        }
        block_y = block_y + 1;
        y = y + y_incr;
    }
    proof {
        lemma_copied_in_equiv(
            orig,
            *sa,
            gx0,
            gy0,
            gx1,
            gy1,
            cs,
            ls,
            |px: int, py: int| py < y1,
            |px: int, py: int| true,
            src@,
        );
        assert forall|i: int|
            0 <= i < orig.blocks@.len() && block_meets(orig, i, gx0, gy0, gx1, gy1) implies (#[trigger] sa.blocks@[i]) is Some by {
            let (wx, wy) = choose|wx: int, wy: int|
                in_rect(gx0, gy0, gx1, gy1, wx, wy) && orig.in_bounds(wx, wy) && #[trigger] block_of(orig, wx, wy) == i;
            assert(sa.blocks@[block_of(*sa, wx, wy)] is Some);
        }
    }
    true
}


/// Reading back a region that was just written gives, at each sample's
/// destination position, the value the write took from the source, whenever
/// the destination strides place distinct samples at distinct positions.
pub proof fn lemma_read_after_write(
    before: SparseArray,
    after: SparseArray,
    x0: int,
    y0: int,
    x1: int,
    y1: int,
    src_cs: int,
    src_ls: int,
    src: Seq<i32>,
    dest_cs: int,
    dest_ls: int,
    dest_before: Seq<i32>,
    dest_after: Seq<i32>,
)
    requires
        0 <= x0,
        0 <= y0,
        region_valid(before, x0, y0, x1, y1),
        write_result(before, after, x0, y0, x1, y1, src_cs, src_ls, src),
        read_result(after, x0, y0, x1, y1, dest_cs, dest_ls, dest_before, dest_after),
        strides_injective(x0, y0, x1, y1, dest_cs, dest_ls),
    ensures
        forall|x: int, y: int|
            in_rect(x0, y0, x1, y1, x, y) ==> dest_after[strided_index(x0, y0, dest_cs, dest_ls, x, y)]
                == src[#[trigger] strided_index(x0, y0, src_cs, src_ls, x, y)],
{
    assert forall|x: int, y: int| in_rect(x0, y0, x1, y1, x, y) implies dest_after[strided_index(
        x0,
        y0,
        dest_cs,
        dest_ls,
        x,
        y,
    )] == src[#[trigger] strided_index(x0, y0, src_cs, src_ls, x, y)] by {
        assert(after.in_bounds(x, y));
        assert(after.value_at(x, y) == src[strided_index(x0, y0, src_cs, src_ls, x, y)]);
    }
}

/// Writing a region changes no sample outside it.
pub proof fn lemma_write_keeps_outside(
    before: SparseArray,
    after: SparseArray,
    x0: int,
    y0: int,
    x1: int,
    y1: int,
    cs: int,
    ls: int,
    src: Seq<i32>,
    x: int,
    y: int,
)
    requires
        write_result(before, after, x0, y0, x1, y1, cs, ls, src),
        before.in_bounds(x, y),
        !in_rect(x0, y0, x1, y1, x, y),
    ensures
        after.value_at(x, y) == before.value_at(x, y),
{
    assert(after.in_bounds(x, y));
}

} // verus!
