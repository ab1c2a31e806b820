//! Gathering the samples of a tile from the components of the source image
//! before it is encoded: for each component, the rows of the tile's region,
//! and how many bytes each sample is handed over in.
use vstd::prelude::*;

use crate::image::{comps_of, opj_image, opj_image_comp};
use crate::math::{ceil_div, opj_uint_ceildiv};
use crate::tile_copy::opj_tcd_tilecomp;

verus! {

/// Where a tile component lies in an image component: the bytes per sample,
/// the tile's width and height, the component's origin, its width, the
/// samples between the end of a tile row and the start of the next, and the
/// index of the tile's first sample.
#[derive(Clone, Copy, Debug, PartialEq, Eq, Structural)]
pub struct TileDims {
    pub size_comp: u32,
    pub width: u32,
    pub height: u32,
    pub offset_x: u32,
    pub offset_y: u32,
    pub image_width: u32,
    pub stride: u32,
    pub tile_offset: u32,
}

/// The bytes a sample of `prec` bits is handed over in: one, two or four
/// (three is rounded up), or more for over 32 bits.
pub open spec fn comp_bytes(prec: u32) -> u32 {
    let s = prec / 8 + if prec % 8 != 0 {
        1u32
    } else {
        0u32
    };
    if s == 3 {
        4
    } else {
        s as u32
    }
}

/// The placement of a tile component in an image component, with the
/// wrapping arithmetic of 32-bit unsigned integers.
pub open spec fn tile_dims(image: opj_image, tc: opj_tcd_tilecomp, comp: opj_image_comp) -> TileDims {
    let width = (tc.x1 - tc.x0) as u32;
    let ox = ceil_div(image.x0 as int, comp.dx as int) as u32;
    let oy = ceil_div(image.y0 as int, comp.dy as int) as u32;
    let iw = ceil_div(image.x1 - image.x0, comp.dx as int) as u32;
    TileDims {
        size_comp: comp_bytes(comp.prec),
        width,
        height: (tc.y1 - tc.y0) as u32,
        offset_x: ox,
        offset_y: oy,
        image_width: iw,
        stride: iw.wrapping_sub(width),
        tile_offset: (tc.x0 as u32).wrapping_sub(ox).wrapping_add(
            (tc.y0 as u32).wrapping_sub(oy).wrapping_mul(iw),
        ),
    }
}

/// A tile component and an image component whose placement can be
/// computed: a non-empty, not too wide tile region, an image whose origin
/// precedes its end, and a non-zero subsampling.
pub open spec fn dims_computable(image: opj_image, tc: opj_tcd_tilecomp, comp: opj_image_comp) -> bool {
    &&& comp.dx > 0
    &&& comp.dy > 0
    &&& image.x0 <= image.x1
    &&& tc.x0 <= tc.x1
    &&& tc.y0 <= tc.y1
    &&& tc.x1 - tc.x0 <= i32::MAX
    &&& tc.y1 - tc.y0 <= i32::MAX
}

/// Where a tile component lies in an image component.
pub fn opj_get_tile_dimensions(image: &opj_image, tc: &opj_tcd_tilecomp, comp: &opj_image_comp) -> (r:
    TileDims)
    requires
        dims_computable(*image, *tc, *comp),
    ensures
        r == tile_dims(*image, *tc, *comp),
{
    proof {
        let p = comp.prec;
        assert(p >> 3u32 == p / 8) by (bit_vector);
        assert(p & 7 == p % 8) by (bit_vector);
    }
    let mut size_comp = comp.prec >> 3u32;
    if comp.prec & 7 != 0 {
        size_comp = size_comp + 1;
    }
    if size_comp == 3 {
        size_comp = 4;
    }
    let width = (tc.x1 - tc.x0) as u32;
    let height = (tc.y1 - tc.y0) as u32;
    let offset_x = opj_uint_ceildiv(image.x0, comp.dx);
    let offset_y = opj_uint_ceildiv(image.y0, comp.dy);
    let image_width = opj_uint_ceildiv(image.x1 - image.x0, comp.dx);
    let stride = image_width.wrapping_sub(width);
    let tile_offset = (tc.x0 as u32).wrapping_sub(offset_x).wrapping_add(
        (tc.y0 as u32).wrapping_sub(offset_y).wrapping_mul(image_width),
    );
    TileDims {
        size_comp,
        width,
        height,
        offset_x,
        offset_y,
        image_width,
        stride,
        tile_offset,
    }
}

/// The samples of a component handed over for a tile, in the bytes of each
/// (`size`): none when a sample would take more than four bytes.
#[derive(Clone, Debug)]
pub struct TileSamples {
    pub size: u32,
    pub values: Vec<i32>,
}

/// The samples of the tile's region, row after row, in an image component
/// whose samples are `data`.
pub open spec fn region_samples(d: TileDims, data: Seq<i32>) -> Seq<i32> {
    Seq::new(
        (d.height * d.width) as nat,
        |k: int| data[d.tile_offset + (k / d.width as int) * d.image_width + k % d.width as int],
    )
}

/// The samples of an image component, empty when it has none.
pub open spec fn comp_samples(c: opj_image_comp) -> Seq<i32> {
    match c.data {
        Some(v) => v@,
        None => Seq::empty(),
    }
}

/// The tile region of a component lies within its samples, row by row.
pub open spec fn region_readable(image: opj_image, tc: opj_tcd_tilecomp, comp: opj_image_comp) -> bool {
    let d = tile_dims(image, tc, comp);
    &&& dims_computable(image, tc, comp)
    &&& comp.data is Some
    &&& d.width <= d.image_width
    &&& d.height > 0 && d.width > 0 ==> d.tile_offset + (d.height - 1) * d.image_width + d.width
        <= comp_samples(comp).len()
}

/// What is handed over for one component of the tile.
pub open spec fn comp_tile_samples(image: opj_image, tc: opj_tcd_tilecomp, comp: opj_image_comp) -> (
    u32,
    Seq<i32>,
) {
    let d = tile_dims(image, tc, comp);
    (d.size_comp, if d.size_comp == 1 || d.size_comp == 2 || d.size_comp == 4 {
        region_samples(d, comp_samples(comp))
    } else {
        Seq::empty()
    })
}

fn gather(d: TileDims, data: &Vec<i32>) -> (r: Vec<i32>)
    requires
        d.width <= d.image_width,
        d.height > 0 && d.width > 0 ==> d.tile_offset + (d.height - 1) * d.image_width + d.width
            <= data@.len(),
    ensures
        r@ == region_samples(d, data@),
{
    let w = d.width as usize;
    let h = d.height as usize;
    let iw = d.image_width as usize;
    let off = d.tile_offset as usize;
    let n = data.len();
    let mut out: Vec<i32> = Vec::new();
    if w == 0 || h == 0 {
        assert(d.height * d.width == 0) by (nonlinear_arith)
            requires
                d.width == 0 || d.height == 0,
        ;
        assert(out@ =~= region_samples(d, data@));
        return out;
    }
    let mut row: usize = 0;
    while row < h
        invariant
            row <= h,
            w <= iw,
            w == d.width,
            h == d.height,
            iw == d.image_width,
            off == d.tile_offset,
            h > 0 && w > 0,
            off + (h - 1) * iw + w <= data@.len(),
            n == data@.len(),
            out@.len() == row * w,
            forall|k: int|
                0 <= k < out@.len() ==> #[trigger] out@[k] == data@[off + (k / w as int) * iw + k
                    % w as int],
        decreases h - row,
    {
        assert(off + row * iw + w <= data@.len()) by (nonlinear_arith)
            requires
                row < h,
                off + (h - 1) * iw + w <= data@.len(),
        ;
        let base = off + row * iw;
        let mut col: usize = 0;
        while col < w
            invariant
                row < h,
                col <= w <= iw,
                w == d.width,
                iw == d.image_width,
                off == d.tile_offset,
                base == off + row * iw,
                base + w <= data@.len(),
                n == data@.len(),
                out@.len() == row * w + col,
                forall|k: int|
                    0 <= k < out@.len() ==> #[trigger] out@[k] == data@[off + (k / w as int) * iw
                        + k % w as int],
            decreases w - col,
        {
            proof {
                vstd::arithmetic::div_mod::lemma_fundamental_div_mod_converse(
                    (row * w + col) as int,
                    w as int,
                    row as int,
                    col as int,
                );
            }
            out.push(data[base + col]);
            col = col + 1;
        }
        assert(out@.len() == (row + 1) * w) by (nonlinear_arith)
            requires
                out@.len() == row * w + w,
        ;
        row = row + 1;
    }
    assert(out@.len() == d.height * d.width) by (nonlinear_arith)
        requires
            out@.len() == h * w,
            h == d.height,
            w == d.width,
    ;
    assert(out@ =~= region_samples(d, data@));
    out
}

/// Gathers the samples of a tile from the components of the source image:
/// for each component, the bytes a sample takes and the samples of the
/// tile's region, row after row; a component whose samples would take more
/// than four bytes gives none.
pub fn opj_j2k_get_tile_data(image: &opj_image, tilecomps: &Vec<opj_tcd_tilecomp>) -> (r: Vec<
    TileSamples,
>)
    requires
        image.comps is Some,
        image.numcomps <= tilecomps@.len(),
        image.numcomps <= comps_of(*image).len(),
        forall|i: int|
            0 <= i < image.numcomps ==> #[trigger] region_readable(
                *image,
                tilecomps@[i],
                comps_of(*image)[i],
            ),
    ensures
        r@.len() == image.numcomps,
        forall|i: int|
            0 <= i < image.numcomps ==> (#[trigger] r@[i].size, r@[i].values@) == comp_tile_samples(
                *image,
                tilecomps@[i],
                comps_of(*image)[i],
            ),
{
    let comps = match &image.comps {
        Some(c) => c,
        None => {
            return Vec::new();
        },
    };
    let mut out: Vec<TileSamples> = Vec::new();
    let mut i: usize = 0;
    while i < image.numcomps as usize
        invariant
            i <= image.numcomps,
            image.numcomps <= tilecomps@.len(),
            image.numcomps <= comps@.len(),
            comps@ == comps_of(*image),
            forall|j: int|
                0 <= j < image.numcomps ==> #[trigger] region_readable(
                    *image,
                    tilecomps@[j],
                    comps_of(*image)[j],
                ),
            out@.len() == i,
            forall|j: int|
                0 <= j < i ==> (#[trigger] out@[j].size, out@[j].values@) == comp_tile_samples(
                    *image,
                    tilecomps@[j],
                    comps_of(*image)[j],
                ),
        decreases image.numcomps - i,
    {
        assert(region_readable(*image, tilecomps@[i as int], comps@[i as int]));
        let comp = &comps[i];
        let d = opj_get_tile_dimensions(image, &tilecomps[i], comp);
        let values = if d.size_comp == 1 || d.size_comp == 2 || d.size_comp == 4 {
            match &comp.data {
                Some(data) => gather(d, data),
                None => Vec::new(),
            }
        } else {
            Vec::new()
        };
        out.push(TileSamples { size: d.size_comp, values });
        i = i + 1;
    }
    out
}

/// Whether the tile region of a component lies within its samples.
fn region_readable_exec(image: &opj_image, tc: &opj_tcd_tilecomp, comp: &opj_image_comp) -> (r: bool)
    ensures
        r == region_readable(*image, *tc, *comp),
{
    if comp.dx == 0 || comp.dy == 0 || image.x0 > image.x1 || tc.x0 > tc.x1 || tc.y0 > tc.y1 {
        return false;
    }
    if (tc.x1 as i64) - (tc.x0 as i64) > i32::MAX as i64 || (tc.y1 as i64) - (tc.y0 as i64) > i32::MAX as i64 {
        return false;
    }
    let d = opj_get_tile_dimensions(image, tc, comp);
    match &comp.data {
        None => false,
        Some(data) => {
            let h = d.height as u64;
            let iw = d.image_width as u64;
            assert(h == 0 || (h - 1) * iw <= 0xffff_ffff * 0xffff_ffff) by (nonlinear_arith)
                requires
                    h <= 0xffff_ffff,
                    iw <= 0xffff_ffff,
            ;
            d.width <= d.image_width && (h == 0 || d.width == 0 || (d.tile_offset as u64) + (h - 1) * iw
                + (d.width as u64) <= data.len() as u64)
        },
    }
}

/// Whether every tile component's region lies within the samples of its
/// image component, as gathering the tile's samples needs.
pub fn region_fits(image: &opj_image, tilecomps: &Vec<opj_tcd_tilecomp>) -> (r: bool)
    ensures
        r == (image.comps is Some && image.numcomps <= tilecomps@.len() && image.numcomps
            <= comps_of(*image).len() && forall|i: int|
            0 <= i < image.numcomps ==> #[trigger] region_readable(
                *image,
                tilecomps@[i],
                comps_of(*image)[i],
            )),
{
    let comps = match &image.comps {
        Some(c) => c,
        None => {
            return false;
        },
    };
    if image.numcomps as usize > tilecomps.len() || image.numcomps as usize > comps.len() {
        return false;
    }
    let mut i: usize = 0;
    while i < image.numcomps as usize
        invariant
            i <= image.numcomps <= tilecomps@.len(),
            image.numcomps <= comps@.len(),
            comps@ == comps_of(*image),
            forall|k: int| 0 <= k < i ==> #[trigger] region_readable(*image, tilecomps@[k], comps_of(*image)[k]),
        decreases image.numcomps - i,
    {
        if !region_readable_exec(image, &tilecomps[i], &comps[i]) {
            return false;
        }
        i = i + 1;
    }
    true
}

} // verus!
