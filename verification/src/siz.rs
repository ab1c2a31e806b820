//! The SIZ marker segment (image and tile size): reading it into the image
//! and coding parameters, writing it from them, and deriving the component
//! geometry of the decoded area.
use vstd::prelude::*;

use crate::cio::{
    be_bytes, be_value, lemma_be_bytes, lemma_be_value_bound, lemma_pow256_small, opj_read_bytes,
    pow256, push_be,
};
use crate::image::{opj_image, opj_image_comp, comps_of, OPJ_CLRSPC_UNSPECIFIED};
use crate::j2k::{J2KState, J2K_STATE_MH};
use crate::math::{ceil_div, opj_uint_adds, opj_uint_ceildiv, opj_uint_ceildivpow2, opj_uint_max, opj_uint_min, lemma_ceil_div_covers};

verus! {

/// The coding parameters that the SIZ segment carries: capabilities, tile
/// grid origin and size, and the resulting number of tiles.
#[derive(Clone, Copy, Debug)]
pub struct opj_cp {
    pub rsiz: u16,
    pub tx0: u32,
    pub ty0: u32,
    pub tdx: u32,
    pub tdy: u32,
    pub tw: u32,
    pub th: u32,
}

/// What the decoder knows when it meets the SIZ segment.
#[derive(Clone, Copy, Debug)]
pub struct SizDecoderState {
    /// Non-zero when only dumping the codestream.
    pub dump_state: u32,
    /// Image size announced by a JP2 header box (0 when there is none).
    pub ihdr_w: u32,
    pub ihdr_h: u32,
    /// Resolution reduction factor applied to every component.
    pub reduce: u32,
    /// Whether a decode area restricts the tiles to decode.
    pub discard_tiles: bool,
    /// The decode area, in canvas coordinates, when `discard_tiles` holds.
    pub start_x: u32,
    pub start_y: u32,
    pub end_x: u32,
    pub end_y: u32,
}

/// Why a SIZ segment was refused.
#[derive(Clone, Copy, Debug, PartialEq, Eq, Structural)]
pub enum SizError {
    /// The segment is shorter than its fixed part, or its component part is
    /// not a whole number of 3-byte entries.
    MarkerSize,
    /// More than 16384 components.
    IllegalComponentCount,
    /// The component count disagrees with the segment size.
    ComponentCountMismatch,
    /// The image area is empty.
    EmptyImage,
    /// A tile dimension is zero.
    InvalidTileSize,
    /// The tile grid origin is past the image origin, or the first tile ends
    /// before it.
    IllegalTileOffset,
    /// The image size disagrees with the JP2 header.
    HeaderSizeMismatch,
    /// A component sampling factor is outside `1..=255`.
    InvalidSampling,
    /// A component precision is above 31 bits.
    InvalidPrecision,
    /// The tile grid is empty or has more than 65535 tiles.
    InvalidTileCount,
}

/// The result of reading a SIZ segment.
pub struct SizInfo {
    pub image: opj_image,
    pub cp: opj_cp,
    /// The tiles to decode: `[start_tile_x, end_tile_x) x [start_tile_y, end_tile_y)`.
    pub start_tile_x: u32,
    pub start_tile_y: u32,
    pub end_tile_x: u32,
    pub end_tile_y: u32,
    /// Default DC level shift of each component.
    pub dc_level_shift: Vec<i32>,
    /// Number of tiles of the grid.
    pub nb_tiles: u32,
    /// The decoder state after the segment.
    pub state: J2KState,
}

/// The big-endian field of `n` bytes at `off`.
pub open spec fn field(data: Seq<u8>, off: int, n: int) -> int {
    be_value(data.subrange(off, off + n)) as int
}

pub open spec fn siz_rsiz(d: Seq<u8>) -> int { field(d, 0, 2) }
pub open spec fn siz_x1(d: Seq<u8>) -> int { field(d, 2, 4) }
pub open spec fn siz_y1(d: Seq<u8>) -> int { field(d, 6, 4) }
pub open spec fn siz_x0(d: Seq<u8>) -> int { field(d, 10, 4) }
pub open spec fn siz_y0(d: Seq<u8>) -> int { field(d, 14, 4) }
pub open spec fn siz_tdx(d: Seq<u8>) -> int { field(d, 18, 4) }
pub open spec fn siz_tdy(d: Seq<u8>) -> int { field(d, 22, 4) }
pub open spec fn siz_tx0(d: Seq<u8>) -> int { field(d, 26, 4) }
pub open spec fn siz_ty0(d: Seq<u8>) -> int { field(d, 30, 4) }
pub open spec fn siz_csiz(d: Seq<u8>) -> int { field(d, 34, 2) }

/// Precision of component `i`: the low seven bits of its Ssiz byte, plus one.
pub open spec fn siz_prec(d: Seq<u8>, i: int) -> int { d[36 + 3 * i] % 128 + 1 }
/// Signedness of component `i`: the top bit of its Ssiz byte.
pub open spec fn siz_sgnd(d: Seq<u8>, i: int) -> int { (d[36 + 3 * i] / 128) as int }
pub open spec fn siz_dx(d: Seq<u8>, i: int) -> int { d[37 + 3 * i] as int }
pub open spec fn siz_dy(d: Seq<u8>, i: int) -> int { d[38 + 3 * i] as int }

/// `a + b` saturated at `u32::MAX`.
pub open spec fn sat_add(a: int, b: int) -> int {
    if a + b > u32::MAX { u32::MAX as int } else { a + b }
}

/// The fault of component `i`, if any (sampling is checked first).
pub open spec fn siz_comp_error(d: Seq<u8>, i: int) -> Option<SizError> {
    if siz_dx(d, i) < 1 || siz_dy(d, i) < 1 {
        Some(SizError::InvalidSampling)
    } else if siz_prec(d, i) > 31 {
        Some(SizError::InvalidPrecision)
    } else {
        None
    }
}

/// The fault of the first faulty component among the first `n`.
pub open spec fn siz_comps_error(d: Seq<u8>, n: int) -> Option<SizError>
    decreases n,
{
    if n <= 0 {
        None
    } else {
        match siz_comps_error(d, n - 1) {
            Some(e) => Some(e),
            None => siz_comp_error(d, n - 1),
        }
    }
}

/// Number of tile columns and rows of the grid the segment describes.
pub open spec fn siz_tw(d: Seq<u8>) -> int { ceil_div(siz_x1(d) - siz_tx0(d), siz_tdx(d)) }
pub open spec fn siz_th(d: Seq<u8>) -> int { ceil_div(siz_y1(d) - siz_ty0(d), siz_tdy(d)) }

/// The reason, checked in the decoder's order, why the fixed part of the SIZ
/// segment of `size` bytes in `d` is refused, or `None` when it is accepted.
pub open spec fn siz_header_error(d: Seq<u8>, size: int, st: SizDecoderState) -> Option<SizError> {
    if size < 36 || (size - 36) % 3 != 0 {
        Some(SizError::MarkerSize)
    } else if siz_csiz(d) >= 16385 {
        Some(SizError::IllegalComponentCount)
    } else if siz_csiz(d) != (size - 36) / 3 {
        Some(SizError::ComponentCountMismatch)
    } else if siz_x0(d) >= siz_x1(d) || siz_y0(d) >= siz_y1(d) {
        Some(SizError::EmptyImage)
    } else if siz_tdx(d) == 0 || siz_tdy(d) == 0 {
        Some(SizError::InvalidTileSize)
    } else if siz_tx0(d) > siz_x0(d) || siz_ty0(d) > siz_y0(d) || sat_add(siz_tx0(d), siz_tdx(d))
        <= siz_x0(d) || sat_add(siz_ty0(d), siz_tdy(d)) <= siz_y0(d) {
        Some(SizError::IllegalTileOffset)
    } else if st.dump_state == 0 && st.ihdr_w > 0 && st.ihdr_h > 0 && (st.ihdr_w != siz_x1(d)
        - siz_x0(d) || st.ihdr_h != siz_y1(d) - siz_y0(d)) {
        Some(SizError::HeaderSizeMismatch)
    } else {
        None
    }
}

/// The reason, checked in the decoder's order, why the SIZ segment of
/// `size` bytes in `d` is refused, or `None` when it is accepted.
pub open spec fn siz_error(d: Seq<u8>, size: int, st: SizDecoderState) -> Option<SizError> {
    if siz_header_error(d, size, st) is Some {
        siz_header_error(d, size, st)
    } else if siz_comps_error(d, siz_csiz(d)) is Some {
        siz_comps_error(d, siz_csiz(d))
    } else if siz_tw(d) == 0 || siz_th(d) == 0 || siz_tw(d) > 65535int / siz_th(d) {
        Some(SizError::InvalidTileCount)
    } else {
        None
    }
}

/// `x - y` wrapped to 32 bits.
pub open spec fn wrap_sub(x: int, y: int) -> int {
    if x - y < 0 { x - y + 0x1_0000_0000 } else { x - y }
}

/// Component `c` has the format of entry `i` of the segment, the reduction
/// factor `reduce`, and no samples yet.
pub open spec fn siz_comp_read(c: opj_image_comp, d: Seq<u8>, i: int, reduce: u32) -> bool {
    &&& c.prec == siz_prec(d, i)
    &&& c.sgnd == siz_sgnd(d, i)
    &&& c.dx == siz_dx(d, i)
    &&& c.dy == siz_dy(d, i)
    &&& c.resno_decoded == 0
    &&& c.factor == reduce
    &&& c.bpp == 0
    &&& c.alpha == 0
    &&& c.data is None
}

/// Reads the SIZ segment of `header_size` bytes at the start of `data`.  On
/// success the image has the segment's canvas and components (their geometry
/// derived by `opj_image_comp_header_update`), the coding parameters its
/// capabilities and tile grid, and the decoder the tiles to decode and the
/// default DC level shifts.
pub fn opj_j2k_read_siz(data: &[u8], header_size: u32, st: &SizDecoderState) -> (r: Result<SizInfo, SizError>)
    requires
        header_size <= data@.len(),
        siz_error(data@, header_size as int, *st) is None ==> st.reduce < 64,
        siz_error(data@, header_size as int, *st) is None && st.discard_tiles ==> st.end_x
            >= siz_tx0(data@) && st.end_y >= siz_ty0(data@),
    ensures
        r is Err <==> siz_error(data@, header_size as int, *st) is Some,
        r matches Err(e) ==> siz_error(data@, header_size as int, *st) == Some(e),
        r matches Ok(info) ==> {
            let d = data@;
            let n = siz_csiz(d);
            &&& info.cp.rsiz == siz_rsiz(d)
            &&& info.image.x0 == siz_x0(d) && info.image.y0 == siz_y0(d)
            &&& info.image.x1 == siz_x1(d) && info.image.y1 == siz_y1(d)
            &&& info.cp.tdx == siz_tdx(d) && info.cp.tdy == siz_tdy(d)
            &&& info.cp.tx0 == siz_tx0(d) && info.cp.ty0 == siz_ty0(d)
            &&& info.cp.tw == siz_tw(d) && info.cp.th == siz_th(d)
            &&& info.nb_tiles == siz_tw(d) * siz_th(d)
            &&& info.image.numcomps == n
            &&& info.image.color_space == OPJ_CLRSPC_UNSPECIFIED
            &&& info.image.icc_profile_buf is None
            &&& info.image.wf()
            &&& comps_of(info.image).len() == n
            &&& forall|i: int|
                0 <= i < n ==> siz_comp_read(#[trigger] comps_of(info.image)[i], d, i, st.reduce)
                    && comp_geometry(comps_of(info.image)[i], info.image, info.cp)
            &&& info.dc_level_shift@.len() == n
            &&& forall|i: int|
                0 <= i < n ==> #[trigger] info.dc_level_shift@[i] == (if siz_sgnd(d, i) == 0 {
                    vstd::arithmetic::power2::pow2((siz_prec(d, i) - 1) as nat) as int
                } else {
                    0
                })
            &&& st.discard_tiles ==> {
                &&& info.start_tile_x == wrap_sub(st.start_x as int, siz_tx0(d)) / siz_tdx(d)
                &&& info.start_tile_y == wrap_sub(st.start_y as int, siz_ty0(d)) / siz_tdy(d)
                &&& info.end_tile_x == ceil_div(st.end_x - siz_tx0(d), siz_tdx(d))
                &&& info.end_tile_y == ceil_div(st.end_y - siz_ty0(d), siz_tdy(d))
            }
            &&& !st.discard_tiles ==> {
                &&& info.start_tile_x == 0 && info.start_tile_y == 0
                &&& info.end_tile_x == siz_tw(d) && info.end_tile_y == siz_th(d)
            }
            &&& info.state == J2K_STATE_MH
        },
{
    let ghost d = data@;
    if header_size < 36 {
        return Err(SizError::MarkerSize);
    }
    let remaining = header_size - 36;
    let nb_comp = remaining / 3;
    if remaining % 3 != 0 {
        return Err(SizError::MarkerSize);
    }
    let rsiz = opj_read_bytes(data, 0, 2);
    let x1 = opj_read_bytes(data, 2, 4);
    let y1 = opj_read_bytes(data, 6, 4);
    let x0 = opj_read_bytes(data, 10, 4);
    let y0 = opj_read_bytes(data, 14, 4);
    let tdx = opj_read_bytes(data, 18, 4);
    let tdy = opj_read_bytes(data, 22, 4);
    let tx0 = opj_read_bytes(data, 26, 4);
    let ty0 = opj_read_bytes(data, 30, 4);
    let csiz = opj_read_bytes(data, 34, 2);
    proof {
        lemma_pow256_small();
        lemma_be_value_bound(d.subrange(0, 2));
    }
    if csiz >= 16385 {
        return Err(SizError::IllegalComponentCount);
    }
    let numcomps = csiz;
    if numcomps != nb_comp {
        return Err(SizError::ComponentCountMismatch);
    }
    if x0 >= x1 || y0 >= y1 {
        return Err(SizError::EmptyImage);
    }
    if tdx == 0 || tdy == 0 {
        return Err(SizError::InvalidTileSize);
    }
    let tx1 = opj_uint_adds(tx0, tdx);
    let ty1 = opj_uint_adds(ty0, tdy);
    if tx0 > x0 || ty0 > y0 || tx1 <= x0 || ty1 <= y0 {
        return Err(SizError::IllegalTileOffset);
    }
    if st.dump_state == 0 {
        let siz_w = x1 - x0;
        let siz_h = y1 - y0;
        if st.ihdr_w > 0 && st.ihdr_h > 0 && (st.ihdr_w != siz_w || st.ihdr_h != siz_h) {
            return Err(SizError::HeaderSizeMismatch);
        }
    }
    let mut comps: Vec<opj_image_comp> = Vec::new();
    let mut i: u32 = 0;
    while i < numcomps
        invariant
            i <= numcomps,
            numcomps == siz_csiz(d),
            36 + 3 * numcomps <= header_size <= d.len(),
            d == data@,
            siz_header_error(d, header_size as int, *st) is None,
            comps@.len() == i,
            siz_comps_error(d, i as int) is None,
            forall|j: int| 0 <= j < i ==> siz_comp_read(#[trigger] comps@[j], d, j, st.reduce),
            forall|j: int| 0 <= j < i ==> (#[trigger] comps@[j]).w == 0 && comps@[j].h == 0
                && comps@[j].x0 == 0 && comps@[j].y0 == 0,
        decreases numcomps - i,
    {
        let base = 36 + 3 * i as usize;
        let ssiz = data[base] as u32;
        proof {
            assert(ssiz < 256 ==> (ssiz & 0x7f) == ssiz % 128 && (ssiz >> 7u32) == ssiz / 128)
                by (bit_vector);
        }
        let prec = (ssiz & 0x7f) + 1;
        let sgnd = ssiz >> 7u32;
        let dx = data[base + 1] as u32;
        let dy = data[base + 2] as u32;
        if dx < 1 || dx > 255 || dy < 1 || dy > 255 {
            proof {
                lemma_first_comp_error(d, i as int, numcomps as int);
            }
            return Err(SizError::InvalidSampling);
        }
        if prec > 31 {
            proof {
                lemma_first_comp_error(d, i as int, numcomps as int);
            }
            return Err(SizError::InvalidPrecision);
        }
        comps.push(opj_image_comp {
            dx,
            dy,
            w: 0,
            h: 0,
            x0: 0,
            y0: 0,
            prec,
            bpp: 0,
            sgnd,
            resno_decoded: 0,
            factor: st.reduce,
            data: None,
            alpha: 0,
        });
        i = i + 1;
    }
    let tw = opj_uint_ceildiv(x1 - tx0, tdx);
    let th = opj_uint_ceildiv(y1 - ty0, tdy);
    if tw == 0 || th == 0 || tw > 65535 / th {
        return Err(SizError::InvalidTileCount);
    }
    assert((tw as int) * (th as int) <= 65535) by (nonlinear_arith)
        requires
            th > 0,
            tw <= 65535int / (th as int),
    ;
    let nb_tiles = tw * th;
    let (start_tile_x, start_tile_y, end_tile_x, end_tile_y) = if st.discard_tiles {
        (
            st.start_x.wrapping_sub(tx0) / tdx,
            st.start_y.wrapping_sub(ty0) / tdy,
            opj_uint_ceildiv(st.end_x - tx0, tdx),
            opj_uint_ceildiv(st.end_y - ty0, tdy),
        )
    } else {
        (0, 0, tw, th)
    };
    let mut dc_level_shift: Vec<i32> = Vec::new();
    let mut k: usize = 0;
    while k < comps.len()
        invariant
            k <= comps@.len(),
            comps@.len() == numcomps,
            numcomps == siz_csiz(d),
            forall|j: int| 0 <= j < numcomps ==> siz_comp_read(#[trigger] comps@[j], d, j, st.reduce),
            siz_comps_error(d, numcomps as int) is None,
            dc_level_shift@.len() == k,
            forall|j: int|
                0 <= j < k ==> #[trigger] dc_level_shift@[j] == (if siz_sgnd(d, j) == 0 {
                    vstd::arithmetic::power2::pow2((siz_prec(d, j) - 1) as nat) as int
                } else {
                    0
                }),
        decreases comps@.len() - k,
    {
        proof {
            lemma_comps_ok(d, numcomps as int, k as int);
        }
        let c = &comps[k];
        if c.sgnd == 0 {
            proof {
                vstd::bits::lemma_u32_pow2_no_overflow((c.prec - 1) as nat);
                vstd::bits::lemma_u32_shl_is_mul(1, (c.prec - 1) as u32);
                vstd::arithmetic::power2::lemma_pow2_strictly_increases((c.prec - 1) as nat, 31);
                vstd::arithmetic::power2::lemma2_to64();
            }
            dc_level_shift.push((1u32 << (c.prec - 1)) as i32);
        } else {
            dc_level_shift.push(0);
        }
        k = k + 1;
    }
    proof {
        assert forall|j: int| 0 <= j < numcomps implies (#[trigger] comps@[j]).dx > 0
            && comps@[j].dy > 0 && comps@[j].factor < 64 by {
            lemma_comps_ok(d, numcomps as int, j);
        }
    }
    let mut image = opj_image::default();
    image.x0 = x0;
    image.y0 = y0;
    image.x1 = x1;
    image.y1 = y1;
    image.numcomps = numcomps;
    image.comps = Some(comps);
    let cp = opj_cp { rsiz: rsiz as u16, tx0, ty0, tdx, tdy, tw, th };
    opj_image_comp_header_update(&mut image, &cp);
    Ok(SizInfo {
        image,
        cp,
        start_tile_x,
        start_tile_y,
        end_tile_x,
        end_tile_y,
        dc_level_shift,
        nb_tiles,
        state: J2K_STATE_MH,
    })
}

proof fn lemma_comps_ok(d: Seq<u8>, n: int, k: int)
    requires
        siz_comps_error(d, n) is None,
        0 <= k < n,
    ensures
        siz_comp_error(d, k) is None,
    decreases n,
{
    if k < n - 1 {
        lemma_comps_ok(d, n - 1, k);
    }
}

proof fn lemma_first_comp_error(d: Seq<u8>, k: int, n: int)
    requires
        0 <= k < n,
        siz_comps_error(d, k) is None,
    ensures
        siz_comps_error(d, n) == siz_comp_error(d, k) || siz_comp_error(d, k) is None,
    decreases n,
{
    if k < n - 1 {
        lemma_first_comp_error(d, k, n - 1);
    }
}

/// The area of the canvas covered by the tile grid and the image: its left,
/// top, right and bottom edges.
pub open spec fn covered_area(img: opj_image, cp: opj_cp) -> (int, int, int, int) {
    let lx0 = if cp.tx0 > img.x0 { cp.tx0 as int } else { img.x0 as int };
    let ly0 = if cp.ty0 > img.y0 { cp.ty0 as int } else { img.y0 as int };
    let gx1 = (cp.tx0 + ((cp.tw - 1 + 0x1_0000_0000) % 0x1_0000_0000) * cp.tdx % 0x1_0000_0000)
        % 0x1_0000_0000;
    let gy1 = (cp.ty0 + ((cp.th - 1 + 0x1_0000_0000) % 0x1_0000_0000) * cp.tdy % 0x1_0000_0000)
        % 0x1_0000_0000;
    let ex1 = sat_add(gx1, cp.tdx as int);
    let ey1 = sat_add(gy1, cp.tdy as int);
    let lx1 = if ex1 < img.x1 { ex1 } else { img.x1 as int };
    let ly1 = if ey1 < img.y1 { ey1 } else { img.y1 as int };
    (lx0, ly0, lx1, ly1)
}

/// Component `c` spans the covered area at its sampling, reduced by its
/// factor.
pub open spec fn comp_geometry(c: opj_image_comp, img: opj_image, cp: opj_cp) -> bool {
    let (lx0, ly0, lx1, ly1) = covered_area(img, cp);
    let cx0 = ceil_div(lx0, c.dx as int);
    let cy0 = ceil_div(ly0, c.dy as int);
    let cx1 = ceil_div(lx1, c.dx as int);
    let cy1 = ceil_div(ly1, c.dy as int);
    &&& c.x0 == cx0
    &&& c.y0 == cy0
    &&& c.w == ceil_div(wrap_sub(cx1, cx0), vstd::arithmetic::power2::pow2(c.factor as nat) as int)
    &&& c.h == ceil_div(wrap_sub(cy1, cy0), vstd::arithmetic::power2::pow2(c.factor as nat) as int)
}

/// Sets every component's origin and size to the part of the canvas that
/// the tile grid and the image both cover, at the component's sampling and
/// reduction factor.
#[verifier::rlimit(40)]
pub fn opj_image_comp_header_update(image: &mut opj_image, cp: &opj_cp)
    requires
        forall|i: int|
            0 <= i < comps_of(*old(image)).len() ==> (#[trigger] comps_of(*old(image))[i]).dx > 0
                && comps_of(*old(image))[i].dy > 0 && comps_of(*old(image))[i].factor < 64,
    ensures
        final(image).x0 == old(image).x0 && final(image).y0 == old(image).y0,
        final(image).x1 == old(image).x1 && final(image).y1 == old(image).y1,
        final(image).numcomps == old(image).numcomps,
        final(image).color_space == old(image).color_space,
        final(image).icc_profile_buf == old(image).icc_profile_buf,
        final(image).icc_profile_len == old(image).icc_profile_len,
        final(image).comps is Some <==> old(image).comps is Some,
        comps_of(*final(image)).len() == comps_of(*old(image)).len(),
        forall|i: int|
            0 <= i < comps_of(*old(image)).len() ==> {
                let c = #[trigger] comps_of(*final(image))[i];
                let o = comps_of(*old(image))[i];
                &&& comp_geometry(c, *old(image), *cp)
                &&& c.dx == o.dx && c.dy == o.dy && c.prec == o.prec && c.bpp == o.bpp
                &&& c.sgnd == o.sgnd && c.resno_decoded == o.resno_decoded && c.factor == o.factor
                &&& c.data == o.data && c.alpha == o.alpha
            },
{
    let ghost img0 = *image;
    let l_x0 = opj_uint_max(cp.tx0, image.x0);
    let l_y0 = opj_uint_max(cp.ty0, image.y0);
    let gx1 = cp.tx0.wrapping_add(cp.tw.wrapping_sub(1).wrapping_mul(cp.tdx));
    let gy1 = cp.ty0.wrapping_add(cp.th.wrapping_sub(1).wrapping_mul(cp.tdy));
    let l_x1 = opj_uint_min(opj_uint_adds(gx1, cp.tdx), image.x1);
    let l_y1 = opj_uint_min(opj_uint_adds(gy1, cp.tdy), image.y1);
    proof {
        let (ax0, ay0, ax1, ay1) = covered_area(img0, *cp);
        assert(l_x0 == ax0 && l_y0 == ay0);
        assert(l_x1 == ax1 && l_y1 == ay1);
    }
    if image.comps.is_some() {
        let mut comps = image.comps.take().unwrap();
        let mut i: usize = 0;
        while i < comps.len()
            invariant
                i <= comps@.len(),
                comps@.len() == comps_of(img0).len(),
                img0.comps is Some,
                covered_area(img0, *cp) == (l_x0 as int, l_y0 as int, l_x1 as int, l_y1 as int),
                forall|j: int| 0 <= j < comps@.len() ==> (#[trigger] comps_of(img0)[j]).dx > 0
                    && comps_of(img0)[j].dy > 0 && comps_of(img0)[j].factor < 64,
                forall|j: int|
                    0 <= j < i ==> {
                        let c = #[trigger] comps@[j];
                        let o = comps_of(img0)[j];
                        &&& comp_geometry(c, img0, *cp)
                        &&& c.dx == o.dx && c.dy == o.dy && c.prec == o.prec && c.bpp == o.bpp
                        &&& c.sgnd == o.sgnd && c.resno_decoded == o.resno_decoded && c.factor
                            == o.factor
                        &&& c.data == o.data && c.alpha == o.alpha
                    },
                forall|j: int| i <= j < comps@.len() ==> #[trigger] comps@[j] == comps_of(img0)[j],
            decreases comps@.len() - i,
        {
            let dx = comps[i].dx;
            let dy = comps[i].dy;
            let factor = comps[i].factor;
            let cx0 = opj_uint_ceildiv(l_x0, dx);
            let cy0 = opj_uint_ceildiv(l_y0, dy);
            let cx1 = opj_uint_ceildiv(l_x1, dx);
            let cy1 = opj_uint_ceildiv(l_y1, dy);
            let w = opj_uint_ceildivpow2(cx1.wrapping_sub(cx0), factor);
            let h = opj_uint_ceildivpow2(cy1.wrapping_sub(cy0), factor);
            set_geometry(&mut comps[i], w, h, cx0, cy0);
            i = i + 1;
        }
        image.comps = Some(comps);
    }
}

/// Sets a component's size and origin.
fn set_geometry(c: &mut opj_image_comp, w: u32, h: u32, x0: u32, y0: u32)
    ensures
        final(c).w == w && final(c).h == h && final(c).x0 == x0 && final(c).y0 == y0,
        final(c).dx == old(c).dx && final(c).dy == old(c).dy && final(c).prec == old(c).prec,
        final(c).bpp == old(c).bpp && final(c).sgnd == old(c).sgnd,
        final(c).resno_decoded == old(c).resno_decoded && final(c).factor == old(c).factor,
        final(c).data == old(c).data && final(c).alpha == old(c).alpha,
{
    c.w = w;
    c.h = h;
    c.x0 = x0;
    c.y0 = y0;
}

/// The Ssiz byte of a component: its precision minus one, with the sign in
/// the top bit.
pub open spec fn ssiz_byte(prec: u32, sgnd: u32) -> u8 {
    ((prec - 1 + sgnd * 128) % 256) as u8
}

/// The three bytes that describe a component in the SIZ segment.
pub open spec fn comp_entry(c: opj_image_comp) -> Seq<u8> {
    seq![ssiz_byte(c.prec, c.sgnd), (c.dx % 256) as u8, (c.dy % 256) as u8]
}

/// The component entries of `cs`, in order.
pub open spec fn comp_entries(cs: Seq<opj_image_comp>) -> Seq<u8>
    decreases cs.len(),
{
    if cs.len() == 0 {
        Seq::empty()
    } else {
        comp_entries(cs.drop_last()) + comp_entry(cs.last())
    }
}

/// The SIZ marker code.
pub const J2K_MS_SIZ: u32 = 0xff51;

/// The fixed part of the SIZ segment that follows the marker and its length:
/// capabilities, canvas, tile grid and number of components.
#[verifier::opaque]
pub open spec fn siz_fixed(image: opj_image, cp: opj_cp) -> Seq<u8> {
    be_bytes(cp.rsiz as nat, 2) + be_bytes(image.x1 as nat, 4) + be_bytes(image.y1 as nat, 4)
        + be_bytes(image.x0 as nat, 4) + be_bytes(image.y0 as nat, 4) + be_bytes(cp.tdx as nat, 4)
        + be_bytes(cp.tdy as nat, 4) + be_bytes(cp.tx0 as nat, 4) + be_bytes(cp.ty0 as nat, 4)
        + be_bytes(image.numcomps as nat, 2)
}

/// The SIZ segment of an image and its coding parameters: the marker, the
/// segment length, the fixed part and one entry per component.
#[verifier::opaque]
pub open spec fn siz_segment(image: opj_image, cp: opj_cp) -> Seq<u8> {
    be_bytes(J2K_MS_SIZ as nat, 2) + be_bytes((38 + 3 * image.numcomps) as nat, 2) + siz_fixed(
        image,
        cp,
    ) + comp_entries(comps_of(image))
}

/// Writes the SIZ segment of `image` and `cp`, marker included.
pub fn opj_j2k_write_siz(image: &opj_image, cp: &opj_cp) -> (r: Vec<u8>)
    requires
        image.comps is Some,
        comps_of(*image).len() == image.numcomps,
        40 + 3 * image.numcomps <= u32::MAX,
    ensures
        r@ == siz_segment(*image, *cp),
        r@.len() == 40 + 3 * image.numcomps,
{
    let size_len: u32 = 40 + 3 * image.numcomps;
    let mut out: Vec<u8> = Vec::new();
    push_be(&mut out, J2K_MS_SIZ, 2);
    push_be(&mut out, size_len - 2, 2);
    push_be(&mut out, cp.rsiz as u32, 2);
    push_be(&mut out, image.x1, 4);
    push_be(&mut out, image.y1, 4);
    push_be(&mut out, image.x0, 4);
    push_be(&mut out, image.y0, 4);
    push_be(&mut out, cp.tdx, 4);
    push_be(&mut out, cp.tdy, 4);
    push_be(&mut out, cp.tx0, 4);
    push_be(&mut out, cp.ty0, 4);
    push_be(&mut out, image.numcomps, 2);
    let ghost head = out@;
    proof {
        reveal(siz_fixed);
        reveal(siz_segment);
    }
    assert(head =~= be_bytes(J2K_MS_SIZ as nat, 2) + be_bytes((38 + 3 * image.numcomps) as nat, 2)
        + siz_fixed(*image, *cp));
    let comps = image.comps.as_ref().unwrap();
    let mut i: usize = 0;
    while i < comps.len()
        invariant
            i <= comps@.len(),
            comps@ == comps_of(*image),
            out@ == head + comp_entries(comps@.subrange(0, i as int)),
        decreases comps@.len() - i,
    {
        let c = &comps[i];
        let ssiz: u32 = c.prec.wrapping_sub(1).wrapping_add(c.sgnd << 7u32);
        proof {
            lemma_ssiz(c.prec, c.sgnd);
        }
        out.push((ssiz % 256) as u8);
        out.push((c.dx % 256) as u8);
        out.push((c.dy % 256) as u8);
        proof {
            let s = comps@.subrange(0, i + 1);
            assert(s.drop_last() =~= comps@.subrange(0, i as int));
            assert(out@ =~= head + comp_entries(s));
        }
        i = i + 1;
    }
    assert(comps@.subrange(0, comps@.len() as int) =~= comps@);
    proof {
        lemma_siz_segment_len(*image, *cp);
    }
    out
}

proof fn lemma_comp_entries_len(cs: Seq<opj_image_comp>)
    ensures
        comp_entries(cs).len() == 3 * cs.len(),
    decreases cs.len(),
{
    if cs.len() > 0 {
        lemma_comp_entries_len(cs.drop_last());
    }
}

proof fn lemma_siz_segment_len(image: opj_image, cp: opj_cp)
    ensures
        siz_fixed(image, cp).len() == 36,
        siz_segment(image, cp).len() == 40 + 3 * comps_of(image).len(),
{
    reveal(siz_fixed);
    reveal(siz_segment);
    lemma_be_bytes(J2K_MS_SIZ as nat, 2);
    lemma_be_bytes((38 + 3 * image.numcomps) as nat, 2);
    lemma_be_bytes(cp.rsiz as nat, 2);
    lemma_be_bytes(image.x1 as nat, 4);
    lemma_be_bytes(image.y1 as nat, 4);
    lemma_be_bytes(image.x0 as nat, 4);
    lemma_be_bytes(image.y0 as nat, 4);
    lemma_be_bytes(cp.tdx as nat, 4);
    lemma_be_bytes(cp.tdy as nat, 4);
    lemma_be_bytes(cp.tx0 as nat, 4);
    lemma_be_bytes(cp.ty0 as nat, 4);
    lemma_be_bytes(image.numcomps as nat, 2);
    lemma_comp_entries_len(comps_of(image));
}

proof fn lemma_ssiz(prec: u32, sgnd: u32)
    ensures
        prec.wrapping_sub(1).wrapping_add(sgnd << 7u32) % 256 == ssiz_byte(prec, sgnd),
{
    let m: int = 0x1_0000_0000;
    let x = prec - 1 + sgnd * 128;
    let sh = sgnd << 7u32;
    assert((sgnd << 7u32) as int == (sgnd as int * 128) % 0x1_0000_0000) by (bit_vector);
    vstd::arithmetic::div_mod::lemma_fundamental_div_mod(sgnd as int * 128, m);
    let q = (sgnd as int * 128) / m;
    let a = prec.wrapping_sub(1);
    let r = a.wrapping_add(sh);
    let ka: int = if prec >= 1 { 0 } else { 1 };
    let kr: int = if a + sh > u32::MAX { 1 } else { 0 };
    assert(r == x + m * (ka - q - kr));
    assert(0x1_0000_0000 * (ka - q - kr) == 256 * (0x100_0000 * (ka - q - kr))) by (nonlinear_arith);
    vstd::arithmetic::div_mod::lemma_mod_multiples_vanish(0x100_0000 * (ka - q - kr), x, 256);
}

proof fn lemma_comp_entries_index(cs: Seq<opj_image_comp>, i: int)
    requires
        0 <= i < cs.len(),
    ensures
        comp_entries(cs).len() == 3 * cs.len(),
        comp_entries(cs)[3 * i] == ssiz_byte(cs[i].prec, cs[i].sgnd),
        comp_entries(cs)[3 * i + 1] == (cs[i].dx % 256) as u8,
        comp_entries(cs)[3 * i + 2] == (cs[i].dy % 256) as u8,
    decreases cs.len(),
{
    lemma_comp_entries_len(cs);
    lemma_comp_entries_len(cs.drop_last());
    if i < cs.len() - 1 {
        lemma_comp_entries_index(cs.drop_last(), i);
    }
}

/// The segment that follows the SIZ marker and its length field: the fixed
/// part, then the component entries.
proof fn lemma_siz_body(image: opj_image, cp: opj_cp)
    ensures
        ({
            let seg = siz_segment(image, cp);
            &&& seg.subrange(4, seg.len() as int) =~= siz_fixed(image, cp) + comp_entries(
                comps_of(image),
            )
            &&& seg.subrange(0, 2) =~= be_bytes(J2K_MS_SIZ as nat, 2)
            &&& seg.subrange(2, 4) =~= be_bytes((38 + 3 * image.numcomps) as nat, 2)
        }),
{
    reveal(siz_segment);
    lemma_siz_segment_len(image, cp);
    lemma_be_bytes(J2K_MS_SIZ as nat, 2);
    lemma_be_bytes((38 + 3 * image.numcomps) as nat, 2);
}

/// The fields of the fixed part read back as the values written into it.
#[verifier::rlimit(60)]
proof fn lemma_siz_fixed_fields(image: opj_image, cp: opj_cp, rest: Seq<u8>)
    ensures
        ({
            let d = siz_fixed(image, cp) + rest;
            &&& siz_rsiz(d) == cp.rsiz
            &&& siz_x1(d) == image.x1
            &&& siz_y1(d) == image.y1
            &&& siz_x0(d) == image.x0
            &&& siz_y0(d) == image.y0
            &&& siz_tdx(d) == cp.tdx
            &&& siz_tdy(d) == cp.tdy
            &&& siz_tx0(d) == cp.tx0
            &&& siz_ty0(d) == cp.ty0
            &&& siz_csiz(d) == image.numcomps % 65536
            &&& forall|k: int| 0 <= k < rest.len() ==> d[36 + k] == rest[k]
        }),
{
    reveal(siz_fixed);
    lemma_siz_segment_len(image, cp);
    lemma_pow256_small();
    let d = siz_fixed(image, cp) + rest;
    lemma_be_bytes(cp.rsiz as nat, 2);
    lemma_be_bytes(image.x1 as nat, 4);
    lemma_be_bytes(image.y1 as nat, 4);
    lemma_be_bytes(image.x0 as nat, 4);
    lemma_be_bytes(image.y0 as nat, 4);
    lemma_be_bytes(cp.tdx as nat, 4);
    lemma_be_bytes(cp.tdy as nat, 4);
    lemma_be_bytes(cp.tx0 as nat, 4);
    lemma_be_bytes(cp.ty0 as nat, 4);
    lemma_be_bytes(image.numcomps as nat, 2);
    assert(d.subrange(0, 2) =~= be_bytes(cp.rsiz as nat, 2));
    assert(d.subrange(2, 6) =~= be_bytes(image.x1 as nat, 4));
    assert(d.subrange(6, 10) =~= be_bytes(image.y1 as nat, 4));
    assert(d.subrange(10, 14) =~= be_bytes(image.x0 as nat, 4));
    assert(d.subrange(14, 18) =~= be_bytes(image.y0 as nat, 4));
    assert(d.subrange(18, 22) =~= be_bytes(cp.tdx as nat, 4));
    assert(d.subrange(22, 26) =~= be_bytes(cp.tdy as nat, 4));
    assert(d.subrange(26, 30) =~= be_bytes(cp.tx0 as nat, 4));
    assert(d.subrange(30, 34) =~= be_bytes(cp.ty0 as nat, 4));
    assert(d.subrange(34, 36) =~= be_bytes(image.numcomps as nat, 2));
}

/// What the SIZ writer produces, the SIZ reader accepts and reads back.  For
/// an image and tile grid that the reader's checks admit, the segment after
/// the marker and its length field carries the image's canvas, the tile
/// grid, the capabilities and the precision, signedness and sampling of
/// every component; the length field gives the size of that segment plus
/// its own two bytes.
#[verifier::rlimit(50)]
pub proof fn lemma_siz_roundtrip(image: opj_image, cp: opj_cp, st: SizDecoderState)
    requires
        image.comps is Some,
        comps_of(image).len() == image.numcomps,
        image.numcomps <= 16384,
        image.x0 < image.x1,
        image.y0 < image.y1,
        cp.tdx > 0,
        cp.tdy > 0,
        cp.tx0 <= image.x0,
        cp.ty0 <= image.y0,
        cp.tx0 + cp.tdx > image.x0,
        cp.ty0 + cp.tdy > image.y0,
        ceil_div(image.x1 - cp.tx0, cp.tdx as int) * ceil_div(image.y1 - cp.ty0, cp.tdy as int)
            <= 65535,
        st.dump_state == 0 && st.ihdr_w > 0 && st.ihdr_h > 0 ==> st.ihdr_w == image.x1 - image.x0
            && st.ihdr_h == image.y1 - image.y0,
        forall|i: int|
            0 <= i < image.numcomps ==> {
                let c = #[trigger] comps_of(image)[i];
                &&& 1 <= c.prec <= 31
                &&& c.sgnd <= 1
                &&& 1 <= c.dx <= 255
                &&& 1 <= c.dy <= 255
            },
    ensures
        ({
            let seg = siz_segment(image, cp);
            let d = seg.subrange(4, seg.len() as int);
            &&& field(seg, 0, 2) == J2K_MS_SIZ
            &&& field(seg, 2, 2) == d.len() + 2
            &&& siz_error(d, d.len() as int, st) is None
            &&& siz_rsiz(d) == cp.rsiz
            &&& siz_x0(d) == image.x0 && siz_y0(d) == image.y0
            &&& siz_x1(d) == image.x1 && siz_y1(d) == image.y1
            &&& siz_tdx(d) == cp.tdx && siz_tdy(d) == cp.tdy
            &&& siz_tx0(d) == cp.tx0 && siz_ty0(d) == cp.ty0
            &&& siz_csiz(d) == image.numcomps
            &&& forall|i: int|
                0 <= i < image.numcomps ==> {
                    let c = #[trigger] comps_of(image)[i];
                    &&& siz_prec(d, i) == c.prec
                    &&& siz_sgnd(d, i) == c.sgnd
                    &&& siz_dx(d, i) == c.dx
                    &&& siz_dy(d, i) == c.dy
                }
        }),
{
    let seg = siz_segment(image, cp);
    let d = seg.subrange(4, seg.len() as int);
    let cs = comps_of(image);
    let n = image.numcomps as int;
    lemma_siz_body(image, cp);
    lemma_siz_segment_len(image, cp);
    lemma_siz_fixed_fields(image, cp, comp_entries(cs));
    lemma_pow256_small();
    lemma_be_bytes(J2K_MS_SIZ as nat, 2);
    lemma_be_bytes((38 + 3 * image.numcomps) as nat, 2);
    assert forall|i: int| 0 <= i < n implies {
        let c = #[trigger] comps_of(image)[i];
        &&& siz_prec(d, i) == c.prec
        &&& siz_sgnd(d, i) == c.sgnd
        &&& siz_dx(d, i) == c.dx
        &&& siz_dy(d, i) == c.dy
    } by {
        lemma_siz_comp_fields(d, cs, i);
    }
    lemma_siz_accepts(d, image, cp, st);
}

/// A segment whose fields are those of an admissible image and tile grid is
/// accepted.
proof fn lemma_siz_accepts(d: Seq<u8>, image: opj_image, cp: opj_cp, st: SizDecoderState)
    requires
        comps_of(image).len() == image.numcomps,
        image.numcomps <= 16384,
        d.len() == 36 + 3 * image.numcomps,
        image.x0 < image.x1,
        image.y0 < image.y1,
        cp.tdx > 0,
        cp.tdy > 0,
        cp.tx0 <= image.x0,
        cp.ty0 <= image.y0,
        cp.tx0 + cp.tdx > image.x0,
        cp.ty0 + cp.tdy > image.y0,
        ceil_div(image.x1 - cp.tx0, cp.tdx as int) * ceil_div(image.y1 - cp.ty0, cp.tdy as int)
            <= 65535,
        st.dump_state == 0 && st.ihdr_w > 0 && st.ihdr_h > 0 ==> st.ihdr_w == image.x1 - image.x0
            && st.ihdr_h == image.y1 - image.y0,
        siz_x0(d) == image.x0 && siz_y0(d) == image.y0,
        siz_x1(d) == image.x1 && siz_y1(d) == image.y1,
        siz_tdx(d) == cp.tdx && siz_tdy(d) == cp.tdy,
        siz_tx0(d) == cp.tx0 && siz_ty0(d) == cp.ty0,
        siz_csiz(d) == image.numcomps,
        forall|j: int|
            0 <= j < image.numcomps ==> {
                let c = #[trigger] comps_of(image)[j];
                &&& siz_prec(d, j) == c.prec
                &&& siz_dx(d, j) == c.dx
                &&& siz_dy(d, j) == c.dy
                &&& 1 <= c.prec <= 31
                &&& 1 <= c.dx <= 255
                &&& 1 <= c.dy <= 255
            },
    ensures
        siz_error(d, d.len() as int, st) is None,
{
    lemma_comps_none(d, comps_of(image), image.numcomps as int);
    lemma_tile_count(
        ceil_div(image.x1 - cp.tx0, cp.tdx as int),
        ceil_div(image.y1 - cp.ty0, cp.tdy as int),
        image.x1 - cp.tx0,
        cp.tdx as int,
        image.y1 - cp.ty0,
        cp.tdy as int,
    );
}

proof fn lemma_siz_comp_fields(d: Seq<u8>, cs: Seq<opj_image_comp>, i: int)
    requires
        0 <= i < cs.len(),
        d.len() == 36 + 3 * cs.len(),
        forall|k: int| 0 <= k < comp_entries(cs).len() ==> d[36 + k] == comp_entries(cs)[k],
        1 <= cs[i].prec <= 31,
        cs[i].sgnd <= 1,
        1 <= cs[i].dx <= 255,
        1 <= cs[i].dy <= 255,
    ensures
        siz_prec(d, i) == cs[i].prec,
        siz_sgnd(d, i) == cs[i].sgnd,
        siz_dx(d, i) == cs[i].dx,
        siz_dy(d, i) == cs[i].dy,
{
    lemma_comp_entries_index(cs, i);
    assert(d[36 + 3 * i] == comp_entries(cs)[3 * i]);
    assert(d[37 + 3 * i] == comp_entries(cs)[3 * i + 1]);
    assert(d[38 + 3 * i] == comp_entries(cs)[3 * i + 2]);
}

proof fn lemma_tile_count(tw: int, th: int, w: int, tdx: int, h: int, tdy: int)
    requires
        tw == ceil_div(w, tdx),
        th == ceil_div(h, tdy),
        w > 0,
        h > 0,
        tdx > 0,
        tdy > 0,
        tw * th <= 65535,
    ensures
        tw > 0,
        th > 0,
        tw <= 65535int / th,
{
    crate::math::lemma_ceil_div_covers(w, tdx);
    crate::math::lemma_ceil_div_covers(h, tdy);
    vstd::arithmetic::div_mod::lemma_div_is_ordered(tw * th, 65535, th);
    vstd::arithmetic::div_mod::lemma_div_multiples_vanish(tw, th);
    vstd::arithmetic::mul::lemma_mul_is_commutative(tw, th);
}

proof fn lemma_comps_none(d: Seq<u8>, cs: Seq<opj_image_comp>, i: int)
    requires
        0 <= i <= cs.len(),
        forall|j: int|
            0 <= j < cs.len() ==> {
                let c = #[trigger] cs[j];
                &&& siz_prec(d, j) == c.prec
                &&& siz_dx(d, j) == c.dx
                &&& siz_dy(d, j) == c.dy
                &&& 1 <= c.prec <= 31
                &&& 1 <= c.dx <= 255
                &&& 1 <= c.dy <= 255
            },
    ensures
        siz_comps_error(d, i) is None,
    decreases i,
{
    if i > 0 {
        lemma_comps_none(d, cs, i - 1);
        let c = cs[i - 1];
    }
}


/// Along one axis: the first sample index at or past `l0` at sampling `d`,
/// and the number of reduced samples, each standing for `f` of them, up to
/// `l1`, cover exactly the canvas positions of `[l0, l1)`.
proof fn lemma_axis_covers(l0: int, l1: int, d: int, f: int, x0: int, w: int)
    requires
        0 <= l0 <= l1 <= u32::MAX,
        d > 0,
        f > 0,
        x0 == ceil_div(l0, d),
        w == ceil_div(wrap_sub(ceil_div(l1, d), x0), f),
    ensures
        x0 * d >= l0,
        (x0 - 1) * d < l0,
        forall|i: int| l0 <= #[trigger] (i * d) < l1 ==> x0 <= i < x0 + w * f,
        w > 0 ==> (x0 + (w - 1) * f) * d < l1,
{
    let e = ceil_div(l1, d);
    lemma_ceil_div_covers(l0, d);
    lemma_ceil_div_covers(l1, d);
    vstd::arithmetic::div_mod::lemma_div_is_ordered(l0 + d - 1, l1 + d - 1, d);
    assert(x0 <= e);
    let n = e - x0;
    assert(wrap_sub(e, x0) == n);
    lemma_ceil_div_covers(n, f);
    assert((x0 - 1) * d < l0) by (nonlinear_arith)
        requires
            (x0 - 1) * d < l0 || l0 == 0,
            l0 == 0 ==> x0 == 0,
            d > 0,
    {
    }
    assert forall|i: int| l0 <= #[trigger] (i * d) < l1 implies x0 <= i < x0 + w * f by {
        assert(i < e) by (nonlinear_arith)
            requires
                i * d < l1,
                e * d >= l1,
                d > 0,
        ;
        assert(i >= x0) by (nonlinear_arith)
            requires
                i * d >= l0,
                (x0 - 1) * d < l0,
                d > 0,
        ;
    }
    if w > 0 {
        assert(n > 0);
        assert(l1 > 0) by (nonlinear_arith)
            requires
                e > 0,
                e * d >= l1,
                e == ceil_div(l1, d),
                l1 >= 0,
                d > 0,
                l1 == 0 ==> e == 0,
        ;
        assert((x0 + (w - 1) * f) * d < l1) by (nonlinear_arith)
            requires
                (w - 1) * f < n,
                n == e - x0,
                (e - 1) * d < l1,
                d > 0,
        ;
    }
}

/// A component set up from the SIZ segment spans exactly the samples of the
/// covered area at its sampling: its first column and row are the first
/// multiples of `dx` and `dy` in the area, every sample of the area lies
/// within its columns and rows (each reduced one standing for `2^factor` of
/// them), and its last column and row start inside the area.
pub proof fn lemma_comp_geometry_covers(c: opj_image_comp, img: opj_image, cp: opj_cp)
    requires
        comp_geometry(c, img, cp),
        c.dx > 0,
        c.dy > 0,
        covered_area(img, cp).0 <= covered_area(img, cp).2,
        covered_area(img, cp).1 <= covered_area(img, cp).3,
    ensures
        ({
            let (lx0, ly0, lx1, ly1) = covered_area(img, cp);
            let f = vstd::arithmetic::power2::pow2(c.factor as nat) as int;
            &&& c.x0 * c.dx >= lx0
            &&& (c.x0 - 1) * c.dx < lx0
            &&& c.y0 * c.dy >= ly0
            &&& (c.y0 - 1) * c.dy < ly0
            &&& forall|i: int| lx0 <= #[trigger] (i * c.dx) < lx1 ==> c.x0 <= i < c.x0 + c.w * f
            &&& forall|j: int| ly0 <= #[trigger] (j * c.dy) < ly1 ==> c.y0 <= j < c.y0 + c.h * f
            &&& c.w > 0 ==> (c.x0 + (c.w - 1) * f) * c.dx < lx1
            &&& c.h > 0 ==> (c.y0 + (c.h - 1) * f) * c.dy < ly1
        }),
{
    let (lx0, ly0, lx1, ly1) = covered_area(img, cp);
    let f = vstd::arithmetic::power2::pow2(c.factor as nat) as int;
    vstd::arithmetic::power2::lemma_pow2_pos(c.factor as nat);
    lemma_axis_covers(lx0, lx1, c.dx as int, f, c.x0 as int, c.w as int);
    lemma_axis_covers(ly0, ly1, c.dy as int, f, c.y0 as int, c.h as int);
}

} // verus!
