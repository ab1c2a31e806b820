//! Moving the samples of a decoded tile into the output image: the part of
//! each tile component that falls in the output component is copied to its
//! place, or the tile buffer is handed over when it is the whole component.
use vstd::prelude::*;

use crate::image::{comps_of, opj_image, opj_image_comp};
use crate::math::{ceil_div, opj_uint_ceildivpow2};

verus! {

/// Where a tile component lands in an output component: the first column
/// and row it covers in the output, the first column and row of the tile
/// component that is copied, and the size of the copied block.
#[derive(Clone, Copy, Debug)]
pub struct Placement {
    pub start_x: u32,
    pub start_y: u32,
    pub off_x: u32,
    pub off_y: u32,
    pub width: u32,
    pub height: u32,
}

/// The output span `[d0, d1)` and the tile span `[r0, r1)` touch or
/// overlap.
pub open spec fn spans_meet(d0: int, d1: int, r0: int, r1: int) -> bool {
    d1 >= r0 && d0 <= r1
}

pub open spec fn imax(a: int, b: int) -> int {
    if a > b { a } else { b }
}

pub open spec fn imin(a: int, b: int) -> int {
    if a < b { a } else { b }
}

/// The placement of the tile span `[r0, r1)` in the output span
/// `[d0, d1)`: where their intersection starts in each, and its length.
pub open spec fn axis_start(d0: int, r0: int) -> int {
    imax(d0, r0) - d0
}

pub open spec fn axis_off(d0: int, r0: int) -> int {
    imax(d0, r0) - r0
}

pub open spec fn axis_len(d0: int, d1: int, r0: int, r1: int) -> int {
    imin(d1, r1) - imax(d0, r0)
}

/// The output span of a component along one axis, at its reduction factor.
pub open spec fn out_start(o: u32, factor: u32) -> int {
    ceil_div(o as int, vstd::arithmetic::power2::pow2(factor as nat) as int)
}

proof fn lemma_u32_as_i32(v: u32)
    ensures
        v <= i32::MAX ==> (v as i32) as int == v as int,
        v > i32::MAX ==> (v as i32) < 0,
{
    assert(v <= 0x7fff_ffff ==> (v as i32) as int == v as int) by (bit_vector);
    assert(v > 0x7fff_ffff ==> (v as i32) < 0) by (bit_vector);
}

/// One axis of a placement: where the tile span lands in the output span
/// `[d0, d0 + dlen)`.  `None` when the spans do not meet.
fn place_axis(d0: u32, dlen: u32, r0: i32, r1: i32) -> (r: Option<(u32, u32, u32)>)
    requires
        d0 + dlen <= i32::MAX,
        0 <= r0 <= r1,
    ensures
        r is Some <==> spans_meet(d0 as int, d0 + dlen, r0 as int, r1 as int),
        r matches Some(p) ==> {
            &&& p.0 == axis_start(d0 as int, r0 as int)
            &&& p.1 == axis_off(d0 as int, r0 as int)
            &&& p.2 == axis_len(d0 as int, d0 + dlen, r0 as int, r1 as int)
        },
{
    let d1 = d0.wrapping_add(dlen);
    let wsrc = (r1 - r0) as u32;
    let start: u32;
    let off0: i32;
    let len: u32;
    let off1: i32;
    if d0 < r0 as u32 {
        start = (r0 as u32).wrapping_sub(d0);
        off0 = 0;
        if d1 >= r1 as u32 {
            len = wsrc;
            off1 = 0;
        } else {
            len = d1.wrapping_sub(r0 as u32);
            off1 = wsrc.wrapping_sub(len) as i32;
        }
    } else {
        start = 0;
        off0 = d0 as i32 - r0;
        if d1 >= r1 as u32 {
            len = wsrc.wrapping_sub(off0 as u32);
            off1 = 0;
        } else {
            len = dlen;
            off1 = r1 - d1 as i32;
        }
    }
    proof {
        lemma_u32_as_i32(len);
        lemma_u32_as_i32(d0);
        lemma_u32_as_i32(d1);
        lemma_u32_as_i32(wsrc);
        lemma_u32_as_i32(wsrc.wrapping_sub(len));
    }
    if off0 < 0 || off1 < 0 {
        return None;
    }
    if (len as i32) < 0 {
        return None;
    }
    Some((start, off0 as u32, len))
}

/// Where a tile component with the region `[rx0, rx1) x [ry0, ry1)` lands in
/// the output component `c`, or `None` when they do not meet.
pub open spec fn placement_of(
    c: opj_image_comp,
    rx0: i32,
    ry0: i32,
    rx1: i32,
    ry1: i32,
) -> Option<Placement> {
    let x0 = out_start(c.x0, c.factor);
    let y0 = out_start(c.y0, c.factor);
    if spans_meet(x0, x0 + c.w, rx0 as int, rx1 as int) && spans_meet(y0, y0 + c.h, ry0 as int, ry1 as int) {
        Some(
            Placement {
                start_x: axis_start(x0, rx0 as int) as u32,
                start_y: axis_start(y0, ry0 as int) as u32,
                off_x: axis_off(x0, rx0 as int) as u32,
                off_y: axis_off(y0, ry0 as int) as u32,
                width: axis_len(x0, x0 + c.w, rx0 as int, rx1 as int) as u32,
                height: axis_len(y0, y0 + c.h, ry0 as int, ry1 as int) as u32,
            },
        )
    } else {
        None
    }
}

/// The output component and the tile region fit the sizes the placement
/// needs: coordinates within `i32` and a non-empty region order.
pub open spec fn placeable(c: opj_image_comp, rx0: i32, ry0: i32, rx1: i32, ry1: i32) -> bool {
    &&& c.factor < 32
    &&& out_start(c.x0, c.factor) + c.w <= i32::MAX
    &&& out_start(c.y0, c.factor) + c.h <= i32::MAX
    &&& 0 <= rx0 <= rx1
    &&& 0 <= ry0 <= ry1
}

/// The output component is handed the tile buffer itself: it has no samples
/// yet, and the tile buffer is exactly the component.
pub open spec fn hands_over(c: opj_image_comp, p: Placement, stride: u32) -> bool {
    &&& c.data is None
    &&& p.off_x == 0 && p.off_y * stride == 0
    &&& p.start_x == 0 && p.start_y * c.w == 0
    &&& stride == c.w
    &&& p.width == c.w
    &&& p.height == c.h
}

/// A buffer of `w * h` samples would be too large to address.
pub open spec fn alloc_too_large(w: u32, h: u32) -> bool {
    h == 0 || w > (usize::MAX as int) / (h as int) || w * h > (usize::MAX as int) / 4
}

/// Sample `(x, y)` of the output after the copy: from the tile buffer
/// inside the placed block, else as it was (`base`).
pub open spec fn copied_sample(
    base: Seq<i32>,
    src: Seq<i32>,
    w: int,
    stride: int,
    p: Placement,
    x: int,
    y: int,
) -> i32 {
    if p.start_x <= x < p.start_x + p.width && p.start_y <= y < p.start_y + p.height {
        src[(y - p.start_y + p.off_y) * stride + (x - p.start_x + p.off_x)]
    } else {
        base[y * w + x]
    }
}

/// `v` holds, for every sample of a `w x h` component, the copied sample.
pub open spec fn copied(v: Seq<i32>, base: Seq<i32>, src: Seq<i32>, w: int, h: int, stride: int, p: Placement) -> bool {
    &&& v.len() == w * h
    &&& forall|x: int, y: int|
        0 <= x < w && 0 <= y < h ==> #[trigger] v[y * w + x] == copied_sample(base, src, w, stride, p, x, y)
}

proof fn lemma_index(x: int, y: int, w: int, h: int)
    requires
        0 <= x < w,
        0 <= y < h,
    ensures
        0 <= y * w + x < w * h,
        (y * w + x) / w == y,
        (y * w + x) % w == x,
{
    assert(0 <= y * w + x < w * h) by (nonlinear_arith)
        requires
            0 <= x < w,
            0 <= y < h,
    ;
    vstd::arithmetic::div_mod::lemma_fundamental_div_mod_converse(y * w + x, w, y, x);
}

proof fn lemma_src_index(j: int, i: int, oy: int, ox: int, stride: int, height: int, width: int, hsrc: int)
    requires
        0 <= j < height,
        0 <= i < width,
        0 <= ox,
        0 <= oy,
        ox + width <= stride,
        oy + height <= hsrc,
    ensures
        0 <= (j + oy) * stride + (i + ox) < hsrc * stride,
{
    assert(0 <= (j + oy) * stride + (i + ox) < hsrc * stride) by (nonlinear_arith)
        requires
            0 <= j < height,
            0 <= i < width,
            0 <= ox,
            0 <= oy,
            ox + width <= stride,
            oy + height <= hsrc,
    ;
}

/// Whether sample `(x, y)` has been written once the rows before row `j`
/// of the block, and the first `i` samples of row `j`, are copied.
pub open spec fn block_done(p: Placement, x: int, y: int, j: int, i: int) -> bool {
    ||| (p.start_y <= y < p.start_y + j && p.start_x <= x < p.start_x + p.width)
    ||| (y == p.start_y + j && p.start_x <= x < p.start_x + i)
}

/// Copies the placed block of the tile buffer `src` into `v`, a `w x h`
/// component.
fn copy_block(v: &mut Vec<i32>, src: &Vec<i32>, w: u32, h: u32, stride: u32, p: Placement)
    requires
        old(v)@.len() == w * h,
        p.start_x + p.width <= w,
        p.start_y + p.height <= h,
        p.off_x + p.width <= stride,
        p.off_y + p.height <= i32::MAX,
        (p.off_y + p.height) * stride <= src@.len(),
    ensures
        copied(final(v)@, old(v)@, src@, w as int, h as int, stride as int, p),
{
    let ghost base = v@;
    let ghost wi = w as int;
    let ghost hi = h as int;
    let ghost si = stride as int;
    proof {
        assert((p.off_y + p.height) * stride <= src@.len() ==> p.height == 0 || p.off_y * stride
            + p.height * stride <= src@.len()) by (nonlinear_arith);
    }
    let mut j: u32 = 0;
    while j < p.height
        invariant
            j <= p.height,
            v@.len() == wi * hi,
            wi == w && hi == h && si == stride,
            p.start_x + p.width <= w,
            p.start_y + p.height <= h,
            p.off_x + p.width <= stride,
            p.off_y + p.height <= i32::MAX,
            (p.off_y + p.height) * stride <= src@.len(),
            forall|x: int, y: int|
                0 <= x < wi && 0 <= y < hi ==> #[trigger] v@[y * wi + x] == if block_done(p, x, y, j as int, 0) {
                    copied_sample(base, src@, wi, si, p, x, y)
                } else {
                    base[y * wi + x]
                },
        decreases p.height - j,
    {
        let mut i: u32 = 0;
        while i < p.width
            invariant
                i <= p.width,
                j < p.height,
                v@.len() == wi * hi,
                wi == w && hi == h && si == stride,
                p.start_x + p.width <= w,
                p.start_y + p.height <= h,
                p.off_x + p.width <= stride,
                p.off_y + p.height <= i32::MAX,
                (p.off_y + p.height) * stride <= src@.len(),
                forall|x: int, y: int|
                    0 <= x < wi && 0 <= y < hi ==> #[trigger] v@[y * wi + x] == if block_done(p, x, y, j as int, i as int) {
                        copied_sample(base, src@, wi, si, p, x, y)
                    } else {
                        base[y * wi + x]
                    },
            decreases p.width - i,
        {
            let x = p.start_x + i;
            let y = p.start_y + j;
            proof {
                lemma_index(x as int, y as int, wi, hi);
                lemma_src_index(j as int, i as int, p.off_y as int, p.off_x as int, si, p.height as int, p.width as int, (p.off_y + p.height) as int);
                assert((p.off_y + p.height) * stride <= src@.len());
            }
            let vlen = v.len();
            assert(y * wi + x < vlen);
            let k: usize = y as usize * w as usize + x as usize;
            let slen = src.len();
            assert((j + p.off_y) * si + (i + p.off_x) < slen) by (nonlinear_arith)
                requires
                    0 <= (j + p.off_y) * si + (i + p.off_x) < (p.off_y + p.height) * si,
                    (p.off_y + p.height) * si <= slen,
            ;
            let sk: usize = (j + p.off_y) as usize * stride as usize + (i + p.off_x) as usize;
            let val = src[sk];
            let ghost before = v@;
            v.set(k, val);
            proof {
                assert forall|xx: int, yy: int| 0 <= xx < wi && 0 <= yy < hi implies #[trigger] v@[yy * wi + xx] == if block_done(p, xx, yy, j as int, i + 1) {
                    copied_sample(base, src@, wi, si, p, xx, yy)
                } else {
                    base[yy * wi + xx]
                } by {
                    lemma_index(xx, yy, wi, hi);
                    if yy * wi + xx == k {
                        assert(xx == x && yy == y);
                    }
                    assert(before[yy * wi + xx] == if block_done(p, xx, yy, j as int, i as int) {
                        copied_sample(base, src@, wi, si, p, xx, yy)
                    } else {
                        base[yy * wi + xx]
                    });
                }
            }
            i = i + 1;
        }
        proof {
            assert forall|xx: int, yy: int| 0 <= xx < wi && 0 <= yy < hi implies #[trigger] v@[yy * wi + xx] == if block_done(p, xx, yy, j + 1, 0) {
                copied_sample(base, src@, wi, si, p, xx, yy)
            } else {
                base[yy * wi + xx]
            } by {
                assert(block_done(p, xx, yy, j + 1, 0) == block_done(p, xx, yy, j as int, p.width as int));
            }
        }
        j = j + 1;
    }
    proof {
        assert forall|xx: int, yy: int| 0 <= xx < wi && 0 <= yy < hi implies #[trigger] v@[yy * wi + xx] == copied_sample(base, src@, wi, si, p, xx, yy) by {
            assert(v@[yy * wi + xx] == if block_done(p, xx, yy, p.height as int, 0) {
                copied_sample(base, src@, wi, si, p, xx, yy)
            } else {
                base[yy * wi + xx]
            });
        }
    }
}

/// The samples a component has before the copy: its own, or zeros for a
/// fresh buffer.
pub open spec fn base_samples(c: opj_image_comp) -> Seq<i32> {
    match c.data {
        Some(d) => d@,
        None => Seq::new((c.w * c.h) as nat, |k: int| 0i32),
    }
}

/// The component properties other than the samples are those of `o`.
pub open spec fn same_but_data(n: opj_image_comp, o: opj_image_comp) -> bool {
    &&& n.dx == o.dx && n.dy == o.dy && n.w == o.w && n.h == o.h && n.x0 == o.x0 && n.y0 == o.y0
    &&& n.prec == o.prec && n.bpp == o.bpp && n.sgnd == o.sgnd && n.resno_decoded == o.resno_decoded
    &&& n.factor == o.factor && n.alpha == o.alpha
}

/// Whether copying the tile region into `c` succeeds: the region meets the
/// component, and the component can hold its samples.
pub open spec fn copy_ok(c: opj_image_comp, rx0: i32, ry0: i32, rx1: i32, ry1: i32, stride: u32) -> bool {
    let p = placement_of(c, rx0, ry0, rx1, ry1);
    &&& p is Some
    &&& hands_over(c, p.unwrap(), stride) || c.data is Some || !alloc_too_large(c.w, c.h)
}

/// `nd` and `nsrc` are the output component `od` and the tile buffer `osrc`
/// once the tile region is moved into the component, `ok` telling whether
/// it could be.
pub open spec fn copy_result(
    nd: opj_image_comp,
    od: opj_image_comp,
    nsrc: Option<Vec<i32>>,
    osrc: Option<Vec<i32>>,
    rx0: i32,
    ry0: i32,
    rx1: i32,
    ry1: i32,
    stride: u32,
    ok: bool,
) -> bool {
    let p = placement_of(od, rx0, ry0, rx1, ry1).unwrap();
    &&& osrc.is_none() ==> ok && nd == od && nsrc.is_none()
    &&& osrc.is_some() ==> {
        let sv = osrc.unwrap()@;
        &&& ok == copy_ok(od, rx0, ry0, rx1, ry1, stride)
        &&& !ok ==> nd == od && nsrc == osrc
        &&& ok && hands_over(od, p, stride) ==> {
            &&& same_but_data(nd, od)
            &&& nd.data == osrc
            &&& nsrc.is_none()
        }
        &&& ok && !hands_over(od, p, stride) ==> {
            &&& same_but_data(nd, od)
            &&& nd.data.is_some()
            &&& copied(nd.data.unwrap()@, base_samples(od), sv, od.w as int, od.h as int, stride as int, p)
            &&& nsrc == osrc
        }
    }
}

/// Moves the samples of a decoded tile component (`src`, the region
/// `[rx0, rx1) x [ry0, ry1)` with rows `stride` samples apart) into the
/// output component `dest`: the part of the region inside the component is
/// copied to its place, or the tile buffer itself becomes the component's
/// when it is exactly the component.  Fails when the region and the
/// component do not meet, or when a buffer for the component is too large.
pub fn opj_j2k_copy_tile_component(
    dest: &mut opj_image_comp,
    src: &mut Option<Vec<i32>>,
    rx0: i32,
    ry0: i32,
    rx1: i32,
    ry1: i32,
    stride: u32,
) -> (ok: bool)
    requires
        placeable(*old(dest), rx0, ry0, rx1, ry1),
        old(dest).wf(),
        old(src).is_some() ==> rx1 - rx0 <= stride && (ry1 - ry0) * stride <= old(src).unwrap()@.len(),
    ensures
        copy_result(*final(dest), *old(dest), *final(src), *old(src), rx0, ry0, rx1, ry1, stride, ok),
{
    if src.is_none() {
        return true;
    }
    let ghost o = *dest;
    let x0 = opj_uint_ceildivpow2(dest.x0, dest.factor);
    let y0 = opj_uint_ceildivpow2(dest.y0, dest.factor);
    let px = place_axis(x0, dest.w, rx0, rx1);
    let py = place_axis(y0, dest.h, ry0, ry1);
    if px.is_none() || py.is_none() {
        return false;
    }
    let (start_x, off_x, width) = px.unwrap();
    let (start_y, off_y, height) = py.unwrap();
    let p = Placement { start_x, start_y, off_x, off_y, width, height };
    assert(placement_of(o, rx0, ry0, rx1, ry1) == Some(p));
    assert(off_y <= i32::MAX && start_y <= i32::MAX);
    assert(off_y as int * stride as int <= 0x7fff_ffff * 0xffff_ffff && start_y as int * o.w as int
        <= 0x7fff_ffff * 0xffff_ffff) by (nonlinear_arith)
        requires
            off_y <= 0x7fff_ffff,
            start_y <= 0x7fff_ffff,
            stride <= 0xffff_ffff,
            o.w <= 0xffff_ffff,
    ;
    let start_src: u64 = off_x as u64 + off_y as u64 * stride as u64;
    let start_dest: u64 = start_x as u64 + start_y as u64 * dest.w as u64;
    if dest.data.is_none() && start_src == 0 && start_dest == 0 && stride == dest.w && width == dest.w
        && height == dest.h {
        proof {
            assert(off_y * stride == 0 && start_y * dest.w == 0) by (nonlinear_arith)
                requires
                    off_x as int + off_y * stride == 0,
                    start_x as int + start_y * dest.w == 0,
                    off_x >= 0 && start_x >= 0 && off_y * stride >= 0 && start_y * dest.w >= 0,
            ;
        }
        dest.data = src.take();
        return true;
    }
    proof {
        if hands_over(o, p, stride) {
            assert(start_src == 0 && start_dest == 0);
        }
    }
    let w = dest.w;
    let h = dest.h;
    let mut v: Vec<i32> = match dest.data.take() {
        Some(d) => d,
        None => {
            assert(w as int * h as int <= 0xffff_ffff * 0xffff_ffff) by (nonlinear_arith)
                requires
                    w <= 0xffff_ffff,
                    h <= 0xffff_ffff,
            ;
            let wh: u64 = w as u64 * h as u64;
            if h == 0 || w as usize > usize::MAX / (h as usize) || wh > (usize::MAX / 4) as u64 {
                return false;
            }
            assert(w * h <= usize::MAX) by (nonlinear_arith)
                requires
                    h > 0,
                    w <= (usize::MAX as int) / (h as int),
            ;
            let mut z: Vec<i32> = Vec::new();
            let n: usize = (w as usize) * (h as usize);
            let mut k: usize = 0;
            while k < n
                invariant
                    k <= n,
                    n == w * h,
                    z@.len() == k,
                    forall|t: int| 0 <= t < k ==> #[trigger] z@[t] == 0i32,
                decreases n - k,
            {
                z.push(0);
                k = k + 1;
            }
            assert(z@ =~= base_samples(o));
            z
        },
    };
    let sv = src.as_ref().unwrap();
    proof {
        assert((off_y + height) * stride <= sv@.len()) by (nonlinear_arith)
            requires
                off_y + height <= ry1 - ry0,
                (ry1 - ry0) * stride <= sv@.len(),
                stride >= 0,
        ;
    }
    copy_block(&mut v, sv, w, h, stride, p);
    dest.data = Some(v);
    true
}

/// A resolution of a decoded tile component: its extent, and the window of
/// it that is decoded.
#[derive(Clone, Copy, Debug)]
pub struct opj_tcd_resolution {
    pub x0: i32,
    pub y0: i32,
    pub x1: i32,
    pub y1: i32,
    pub win_x0: u32,
    pub win_y0: u32,
    pub win_x1: u32,
    pub win_y1: u32,
}

/// A tile component: its extent in the component's coordinates, its
/// resolutions, and the samples of the whole tile component or of the
/// decoded window.
#[derive(Clone, Debug)]
pub struct opj_tcd_tilecomp {
    pub x0: i32,
    pub y0: i32,
    pub x1: i32,
    pub y1: i32,
    pub resolutions: Vec<opj_tcd_resolution>,
    pub minimum_num_resolutions: u32,
    pub data: Option<Vec<i32>>,
    pub data_win: Option<Vec<i32>>,
}

/// The region of a decoded tile component at the resolution `resno`, and
/// the distance between its rows: the whole resolution (rows as wide as
/// the lowest decoded resolution's) when the whole tile is decoded, else the
/// decoded window.
pub open spec fn tile_region(tc: opj_tcd_tilecomp, resno: int, whole: bool) -> (i32, i32, i32, i32, u32) {
    let r = tc.resolutions@[resno];
    if whole {
        let m = tc.resolutions@[tc.minimum_num_resolutions - 1];
        (r.x0, r.y0, r.x1, r.y1, (m.x1 - m.x0) as u32)
    } else {
        (r.win_x0 as i32, r.win_y0 as i32, r.win_x1 as i32, r.win_y1 as i32, ((r.win_x1 - r.win_x0
            + 0x1_0000_0000) % 0x1_0000_0000) as u32)
    }
}

/// The samples of a decoded tile component that are moved out.
pub open spec fn tile_buffer(tc: opj_tcd_tilecomp, whole: bool) -> Option<Vec<i32>> {
    if whole {
        tc.data
    } else {
        tc.data_win
    }
}

/// A decoded tile component whose region fits the output component and
/// whose samples cover its region.
pub open spec fn tile_comp_ok(tc: opj_tcd_tilecomp, resno: int, whole: bool, dest: opj_image_comp) -> bool {
    let (rx0, ry0, rx1, ry1, stride) = tile_region(tc, resno, whole);
    &&& 0 <= resno < tc.resolutions@.len()
    &&& 1 <= tc.minimum_num_resolutions <= tc.resolutions@.len()
    &&& whole ==> {
        let m = tc.resolutions@[tc.minimum_num_resolutions - 1];
        0 <= m.x0 <= m.x1
    }
    &&& placeable(dest, rx0, ry0, rx1, ry1)
    &&& dest.wf()
    &&& tile_buffer(tc, whole).is_some() ==> rx1 - rx0 <= stride && (ry1 - ry0) * stride <= tile_buffer(
        tc,
        whole,
    ).unwrap()@.len()
}

/// `nt` is `ot` with its tile buffer replaced by `b`.
pub open spec fn with_buffer(nt: opj_tcd_tilecomp, ot: opj_tcd_tilecomp, whole: bool, b: Option<Vec<i32>>) -> bool {
    &&& nt.x0 == ot.x0 && nt.y0 == ot.y0 && nt.x1 == ot.x1 && nt.y1 == ot.y1
    &&& nt.resolutions@ == ot.resolutions@
    &&& nt.minimum_num_resolutions == ot.minimum_num_resolutions
    &&& if whole {
        nt.data == b && nt.data_win == ot.data_win
    } else {
        nt.data_win == b && nt.data == ot.data
    }
}

/// Component `i` of the output once the tile's component `i` is moved into
/// it, with its decoded resolution `resno`.
pub open spec fn comp_moved(
    nd: opj_image_comp,
    od: opj_image_comp,
    nt: opj_tcd_tilecomp,
    ot: opj_tcd_tilecomp,
    resno: u32,
    whole: bool,
    ok: bool,
) -> bool {
    let (rx0, ry0, rx1, ry1, stride) = tile_region(ot, resno as int, whole);
    let od2 = opj_image_comp { resno_decoded: resno, ..od };
    &&& with_buffer(nt, ot, whole, tile_buffer(nt, whole))
    &&& copy_result(nd, od2, tile_buffer(nt, whole), tile_buffer(ot, whole), rx0, ry0, rx1, ry1, stride, ok)
}

/// Whether moving the tile's component into output component `od`
/// succeeds.
pub open spec fn comp_move_ok(od: opj_image_comp, ot: opj_tcd_tilecomp, resno: u32, whole: bool) -> bool {
    let (rx0, ry0, rx1, ry1, stride) = tile_region(ot, resno as int, whole);
    tile_buffer(ot, whole).is_none() || copy_ok(od, rx0, ry0, rx1, ry1, stride)
}

fn move_one(
    dest: &mut opj_image_comp,
    tc: &mut opj_tcd_tilecomp,
    resno: u32,
    whole: bool,
) -> (ok: bool)
    requires
        tile_comp_ok(*old(tc), resno as int, whole, *old(dest)),
    ensures
        comp_moved(*final(dest), *old(dest), *final(tc), *old(tc), resno, whole, ok),
        ok == comp_move_ok(*old(dest), *old(tc), resno, whole),
{
    dest.resno_decoded = resno;
    let r = tc.resolutions[resno as usize];
    if whole {
        let m = tc.resolutions[(tc.minimum_num_resolutions - 1) as usize];
        let stride = (m.x1 - m.x0) as u32;
        let mut b = tc.data.take();
        let ok = opj_j2k_copy_tile_component(dest, &mut b, r.x0, r.y0, r.x1, r.y1, stride);
        tc.data = b;
        ok
    } else {
        let stride = r.win_x1.wrapping_sub(r.win_x0);
        let mut b = tc.data_win.take();
        let ok = opj_j2k_copy_tile_component(
            dest,
            &mut b,
            r.win_x0 as i32,
            r.win_y0 as i32,
            r.win_x1 as i32,
            r.win_y1 as i32,
            stride,
        );
        tc.data_win = b;
        ok
    }
}

/// Moves every component of a decoded tile into the output image, each at
/// the resolution its codec component was decoded to (`resnos`): see
/// `opj_j2k_copy_tile_component`.  Stops at the first component that cannot
/// be moved, leaving the later ones as they were.
pub fn opj_j2k_update_image_data(
    tilecomps: &mut Vec<opj_tcd_tilecomp>,
    resnos: &[u32],
    whole_tile_decoding: bool,
    output: &mut opj_image,
) -> (ok: bool)
    requires
        output.comps is Some,
        resnos@.len() <= old(tilecomps)@.len(),
        resnos@.len() <= comps_of(*old(output)).len(),
        forall|i: int|
            0 <= i < resnos@.len() ==> #[trigger] tile_comp_ok(
                old(tilecomps)@[i],
                resnos@[i] as int,
                whole_tile_decoding,
                comps_of(*old(output))[i],
            ),
    ensures
        final(tilecomps)@.len() == old(tilecomps)@.len(),
        comps_of(*final(output)).len() == comps_of(*old(output)).len(),
        final(output).x0 == old(output).x0 && final(output).y0 == old(output).y0,
        final(output).x1 == old(output).x1 && final(output).y1 == old(output).y1,
        final(output).numcomps == old(output).numcomps,
        final(output).color_space == old(output).color_space,
        final(output).icc_profile_buf == old(output).icc_profile_buf,
        final(output).icc_profile_len == old(output).icc_profile_len,
        final(output).comps is Some,
        ok == forall|i: int|
            0 <= i < resnos@.len() ==> #[trigger] comp_move_ok(
                comps_of(*old(output))[i],
                old(tilecomps)@[i],
                resnos@[i],
                whole_tile_decoding,
            ),
        forall|i: int|
            0 <= i < comps_of(*old(output)).len() ==> {
                let reached = i < resnos@.len() && forall|j: int|
                    0 <= j < i ==> #[trigger] comp_move_ok(
                        comps_of(*old(output))[j],
                        old(tilecomps)@[j],
                        resnos@[j],
                        whole_tile_decoding,
                    );
                if reached {
                    comp_moved(
                        #[trigger] comps_of(*final(output))[i],
                        comps_of(*old(output))[i],
                        final(tilecomps)@[i],
                        old(tilecomps)@[i],
                        resnos@[i],
                        whole_tile_decoding,
                        comp_move_ok(
                            comps_of(*old(output))[i],
                            old(tilecomps)@[i],
                            resnos@[i],
                            whole_tile_decoding,
                        ),
                    )
                } else {
                    comps_of(*final(output))[i] == comps_of(*old(output))[i]
                }
            },
        forall|i: int|
            resnos@.len() <= i < old(tilecomps)@.len() ==> #[trigger] final(tilecomps)@[i]
                == old(tilecomps)@[i],
{
    let ghost od = comps_of(*output);
    let ghost ot = tilecomps@;
    let mut comps = output.comps.take().unwrap();
    let mut i: usize = 0;
    let mut ok = true;
    while i < resnos.len()
        invariant
            ok,
            i <= resnos@.len(),
            resnos@.len() <= ot.len(),
            resnos@.len() <= od.len(),
            comps@.len() == od.len(),
            tilecomps@.len() == ot.len(),
            od == comps_of(*old(output)),
            ot == old(tilecomps)@,
            output.x0 == old(output).x0 && output.y0 == old(output).y0,
            output.x1 == old(output).x1 && output.y1 == old(output).y1,
            output.numcomps == old(output).numcomps,
            output.color_space == old(output).color_space,
            output.icc_profile_buf == old(output).icc_profile_buf,
            output.icc_profile_len == old(output).icc_profile_len,
            forall|k: int|
                0 <= k < resnos@.len() ==> #[trigger] tile_comp_ok(
                    ot[k],
                    resnos@[k] as int,
                    whole_tile_decoding,
                    od[k],
                ),
            forall|k: int|
                0 <= k < i ==> #[trigger] comp_move_ok(od[k], ot[k], resnos@[k], whole_tile_decoding),
            forall|k: int|
                0 <= k < i ==> comp_moved(
                    #[trigger] comps@[k],
                    od[k],
                    tilecomps@[k],
                    ot[k],
                    resnos@[k],
                    whole_tile_decoding,
                    true,
                ),
            forall|k: int| i <= k < od.len() ==> #[trigger] comps@[k] == od[k],
            forall|k: int| i <= k < ot.len() ==> #[trigger] tilecomps@[k] == ot[k],
        decreases resnos@.len() - i,
    {
        let mut d = comps.remove(i);
        let mut t = tilecomps.remove(i);
        let step = move_one(&mut d, &mut t, resnos[i], whole_tile_decoding);
        comps.insert(i, d);
        tilecomps.insert(i, t);
        if !step {
            output.comps = Some(comps);
            proof {
                assert(!comp_move_ok(od[i as int], ot[i as int], resnos@[i as int], whole_tile_decoding));
            }
            return false;
        }
        i = i + 1;
    }
    output.comps = Some(comps);
    ok
}

} // verus!
