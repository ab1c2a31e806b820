//! The area of the image to decode: the tiles it covers and the size of
//! every component over it.
use vstd::prelude::*;

use crate::image::{comps_of, opj_image, opj_image_comp};
use crate::j2k::{J2KState, J2K_STATE_TPHSOT};
use crate::math::{ceil_div, opj_int_ceildiv, opj_int_ceildivpow2, opj_uint_ceildiv};
use crate::siz::opj_cp;

verus! {

/// Why a decode area was refused.
#[derive(Clone, Copy, Debug, PartialEq, Eq, Structural)]
pub enum DecodeAreaError {
    /// The main header has not been read.
    HeaderNotRead,
    /// The left edge is negative.
    NegativeLeft,
    /// The left edge is past the right edge of the image.
    LeftOutside,
    /// The top edge is negative.
    NegativeTop,
    /// The top edge is below the bottom edge of the image.
    TopOutside,
    /// The right edge is not positive.
    NonPositiveRight,
    /// The right edge is left of the left edge of the image.
    RightOutside,
    /// The bottom edge is not positive.
    NonPositiveBottom,
    /// The bottom edge is above the top edge of the image.
    BottomOutside,
    /// A coordinate of the area is above `i32::MAX`.
    CoordinatesTooLarge,
    /// A component would have a negative width.
    InvalidComponentWidth,
    /// A component would have a negative height.
    InvalidComponentHeight,
}

/// The tiles the decoder decodes: columns `start_tile_x..end_tile_x` and rows
/// `start_tile_y..end_tile_y`, and whether the others are skipped.
#[derive(Clone, Copy, Debug)]
pub struct DecodeArea {
    pub start_tile_x: u32,
    pub start_tile_y: u32,
    pub end_tile_x: u32,
    pub end_tile_y: u32,
    pub discard_tiles: bool,
}

/// Component `c` over the image area of `img`: its origin and its size at
/// its reduction factor.
pub open spec fn dims_x0(c: opj_image_comp, img: opj_image) -> int {
    ceil_div(img.x0 as int, c.dx as int)
}

pub open spec fn dims_y0(c: opj_image_comp, img: opj_image) -> int {
    ceil_div(img.y0 as int, c.dy as int)
}

pub open spec fn dims_w(c: opj_image_comp, img: opj_image) -> int {
    let p = vstd::arithmetic::power2::pow2(c.factor as nat) as int;
    ceil_div(ceil_div(img.x1 as int, c.dx as int), p) - ceil_div(dims_x0(c, img), p)
}

pub open spec fn dims_h(c: opj_image_comp, img: opj_image) -> int {
    let p = vstd::arithmetic::power2::pow2(c.factor as nat) as int;
    ceil_div(ceil_div(img.y1 as int, c.dy as int), p) - ceil_div(dims_y0(c, img), p)
}

/// The fault of component `c` over the area of `img`, if any.
pub open spec fn comp_dims_error(c: opj_image_comp, img: opj_image) -> Option<DecodeAreaError> {
    if dims_w(c, img) < 0 {
        Some(DecodeAreaError::InvalidComponentWidth)
    } else if dims_h(c, img) < 0 {
        Some(DecodeAreaError::InvalidComponentHeight)
    } else {
        None
    }
}

/// The fault of the first faulty component among the first `n`.
pub open spec fn comps_dims_error(cs: Seq<opj_image_comp>, img: opj_image, n: int) -> Option<
    DecodeAreaError,
>
    decreases n,
{
    if n <= 0 {
        None
    } else {
        match comps_dims_error(cs, img, n - 1) {
            Some(e) => Some(e),
            None => comp_dims_error(cs[n - 1], img),
        }
    }
}

/// The image area fits in `i32`.
pub open spec fn coords_ok(img: opj_image) -> bool {
    img.x0 <= i32::MAX && img.y0 <= i32::MAX && img.x1 <= i32::MAX && img.y1 <= i32::MAX
}

/// The fault, checked in the decoder's order, that stops the components
/// from being sized over the image area, or `None`.
pub open spec fn dims_error(img: opj_image) -> Option<DecodeAreaError> {
    dims_error_of(comps_of(img), img)
}

/// The fault that stops the components `cs` from being sized over the area
/// of `img`, or `None`.
pub open spec fn dims_error_of(cs: Seq<opj_image_comp>, img: opj_image) -> Option<DecodeAreaError> {
    if cs.len() > 0 && !coords_ok(img) {
        Some(DecodeAreaError::CoordinatesTooLarge)
    } else {
        comps_dims_error(cs, img, cs.len() as int)
    }
}

/// `n` is `o` sized over the area of `img`: the components before the first
/// faulty one sized, that one partly, the later ones as they were.
pub open spec fn dims_updated(n: Seq<opj_image_comp>, o: Seq<opj_image_comp>, img: opj_image) -> bool {
    &&& n.len() == o.len()
    &&& forall|i: int|
        0 <= i < o.len() ==> {
            if !coords_ok(img) || comps_dims_error(o, img, i) is Some {
                #[trigger] n[i] == o[i]
            } else {
                comp_sized(
                    n[i],
                    o[i],
                    img,
                    match comp_dims_error(o[i], img) {
                        None => 2,
                        Some(DecodeAreaError::InvalidComponentHeight) => 1,
                        Some(_) => 0,
                    },
                )
            }
        }
}

/// `n` is `o` with its origin, and as much of its size as the steps before
/// step `k` set (0: origin only, 1: and width, 2: and height).
pub open spec fn comp_sized(n: opj_image_comp, o: opj_image_comp, img: opj_image, k: int) -> bool {
    &&& n.x0 == dims_x0(o, img)
    &&& n.y0 == dims_y0(o, img)
    &&& n.w == if k >= 1 {
        dims_w(o, img)
    } else {
        o.w as int
    }
    &&& n.h == if k >= 2 {
        dims_h(o, img)
    } else {
        o.h as int
    }
    &&& n.dx == o.dx && n.dy == o.dy && n.prec == o.prec && n.bpp == o.bpp && n.sgnd == o.sgnd
    &&& n.resno_decoded == o.resno_decoded && n.factor == o.factor && n.data == o.data && n.alpha
        == o.alpha
}

/// Components that can be sized: positive sampling that fits in `i32`, and a
/// reduction factor below 63.
pub open spec fn comps_sizable(cs: Seq<opj_image_comp>) -> bool {
    forall|i: int|
        0 <= i < cs.len() ==> 1 <= (#[trigger] cs[i]).dx <= i32::MAX && 1 <= cs[i].dy <= i32::MAX
            && cs[i].factor < 63
}

fn update_comp_dims(c: &mut opj_image_comp, img: &opj_image) -> (r: Result<(), DecodeAreaError>)
    requires
        coords_ok(*img),
        1 <= old(c).dx <= i32::MAX,
        1 <= old(c).dy <= i32::MAX,
        old(c).factor < 63,
    ensures
        r is Err <==> comp_dims_error(*old(c), *img) is Some,
        r matches Err(e) ==> comp_dims_error(*old(c), *img) == Some(e),
        comp_sized(
            *final(c),
            *old(c),
            *img,
            match r {
                Ok(_) => 2,
                Err(DecodeAreaError::InvalidComponentHeight) => 1,
                Err(_) => 0,
            },
        ),
{
    let ghost o = *c;
    c.x0 = opj_uint_ceildiv(img.x0, c.dx);
    c.y0 = opj_uint_ceildiv(img.y0, c.dy);
    proof {
        crate::math::lemma_ceil_div_covers(img.x0 as int, o.dx as int);
        crate::math::lemma_ceil_div_covers(img.y0 as int, o.dy as int);
        crate::math::lemma_ceil_div_covers(img.x1 as int, o.dx as int);
        crate::math::lemma_ceil_div_covers(img.y1 as int, o.dy as int);
    }
    let cx1 = opj_int_ceildiv(img.x1 as i32, c.dx as i32);
    let cy1 = opj_int_ceildiv(img.y1 as i32, c.dy as i32);
    let f = c.factor as i32;
    let w = opj_int_ceildivpow2(cx1, f) - opj_int_ceildivpow2(c.x0 as i32, f);
    if w < 0 {
        return Err(DecodeAreaError::InvalidComponentWidth);
    }
    c.w = w as u32;
    let h = opj_int_ceildivpow2(cy1, f) - opj_int_ceildivpow2(c.y0 as i32, f);
    if h < 0 {
        return Err(DecodeAreaError::InvalidComponentHeight);
    }
    c.h = h as u32;
    Ok(())
}

/// Sizes every component over the image area: its origin, and its width and
/// height at its reduction factor.  Stops at the first component whose size
/// would be negative, leaving it partly sized and the later ones as they
/// were.
pub fn opj_j2k_update_image_dimensions(image: &mut opj_image) -> (r: Result<(), DecodeAreaError>)
    requires
        comps_sizable(comps_of(*old(image))),
    ensures
        r is Err <==> dims_error(*old(image)) is Some,
        r matches Err(e) ==> dims_error(*old(image)) == Some(e),
        final(image).x0 == old(image).x0 && final(image).y0 == old(image).y0,
        final(image).x1 == old(image).x1 && final(image).y1 == old(image).y1,
        final(image).numcomps == old(image).numcomps,
        final(image).color_space == old(image).color_space,
        final(image).icc_profile_buf == old(image).icc_profile_buf,
        final(image).icc_profile_len == old(image).icc_profile_len,
        final(image).comps is Some <==> old(image).comps is Some,
        dims_updated(comps_of(*final(image)), comps_of(*old(image)), *old(image)),
{
    if image.comps.is_none() {
        return Ok(());
    }
    let ghost img0 = *image;
    let mut comps = image.comps.take().unwrap();
    let ghost o = comps@;
    if comps.len() > 0 && (image.x0 > 0x7fff_ffff || image.y0 > 0x7fff_ffff || image.x1 > 0x7fff_ffff
        || image.y1 > 0x7fff_ffff) {
        image.comps = Some(comps);
        return Err(DecodeAreaError::CoordinatesTooLarge);
    }
    let mut i: usize = 0;
    while i < comps.len()
        invariant
            i <= comps@.len(),
            comps@.len() == o.len(),
            o == comps_of(img0),
            coords_ok(img0) || o.len() == 0,
            img0.x0 == image.x0 && img0.y0 == image.y0 && img0.x1 == image.x1 && img0.y1 == image.y1,
            img0.numcomps == image.numcomps && img0.color_space == image.color_space,
            img0.icc_profile_buf == image.icc_profile_buf && img0.icc_profile_len == image.icc_profile_len,
            img0 == *old(image),
            comps_sizable(o),
            comps_dims_error(o, img0, i as int) is None,
            forall|k: int| 0 <= k < i ==> comp_sized(#[trigger] comps@[k], o[k], img0, 2),
            forall|k: int| i <= k < o.len() ==> #[trigger] comps@[k] == o[k],
        decreases o.len() - i,
    {
        let mut c = comps.remove(i);
        let ghost before = comps@;
        let res = update_comp_dims(&mut c, image);
        comps.insert(i, c);
        proof {
            assert(comps_dims_error(o, img0, i + 1) == comp_dims_error(o[i as int], img0));
        }
        if res.is_err() {
            image.comps = Some(comps);
            proof {
                let n = comps_of(*image);
                assert forall|k: int| 0 <= k < o.len() implies {
                    if !coords_ok(img0) || comps_dims_error(o, img0, k) is Some {
                        #[trigger] n[k] == o[k]
                    } else {
                        comp_sized(
                            n[k],
                            o[k],
                            img0,
                            match comp_dims_error(o[k], img0) {
                                None => 2,
                                Some(DecodeAreaError::InvalidComponentHeight) => 1,
                                Some(_) => 0,
                            },
                        )
                    }
                } by {
                    if k > i {
                        lemma_dims_error_sticks(o, img0, i + 1, k);
                    }
                    if k < i {
                        lemma_dims_error_none_prefix(o, img0, k + 1, i as int);
                    }
                }
                lemma_dims_error_sticks(o, img0, i + 1, o.len() as int);
                assert(dims_error(img0) == comp_dims_error(o[i as int], img0));
            }
            return res;
        }
        i = i + 1;
    }
    image.comps = Some(comps);
    proof {
        let n = comps_of(*image);
        assert forall|k: int| 0 <= k < o.len() implies {
            if !coords_ok(img0) || comps_dims_error(o, img0, k) is Some {
                #[trigger] n[k] == o[k]
            } else {
                comp_sized(
                    n[k],
                    o[k],
                    img0,
                    match comp_dims_error(o[k], img0) {
                        None => 2,
                        Some(DecodeAreaError::InvalidComponentHeight) => 1,
                        Some(_) => 0,
                    },
                )
            }
        } by {
            lemma_dims_error_none_prefix(o, img0, k, o.len() as int);
            lemma_dims_error_none_prefix(o, img0, k + 1, o.len() as int);
        }
    }
    Ok(())
}

proof fn lemma_dims_error_sticks(cs: Seq<opj_image_comp>, img: opj_image, a: int, b: int)
    requires
        0 <= a <= b,
        comps_dims_error(cs, img, a) is Some,
    ensures
        comps_dims_error(cs, img, b) == comps_dims_error(cs, img, a),
    decreases b - a,
{
    if a < b {
        lemma_dims_error_sticks(cs, img, a, b - 1);
    }
}

proof fn lemma_dims_error_none_prefix(cs: Seq<opj_image_comp>, img: opj_image, a: int, b: int)
    requires
        0 <= a <= b,
        comps_dims_error(cs, img, b) is None,
    ensures
        comps_dims_error(cs, img, a) is None,
    decreases b - a,
{
    if a < b {
        lemma_dims_error_none_prefix(cs, img, a, b - 1);
    }
}

/// The outcome of the left edge `sx` of a decode area on an image whose
/// canvas is that of `h`: refused when negative or past the right edge,
/// else the area's left edge (at least the image's) and its first tile
/// column.
pub open spec fn left_error(sx: i32, h: opj_image) -> Option<DecodeAreaError> {
    if sx < 0 {
        Some(DecodeAreaError::NegativeLeft)
    } else if sx > h.x1 {
        Some(DecodeAreaError::LeftOutside)
    } else {
        None
    }
}

pub open spec fn top_error(sy: i32, h: opj_image) -> Option<DecodeAreaError> {
    if sy < 0 {
        Some(DecodeAreaError::NegativeTop)
    } else if sy > h.y1 {
        Some(DecodeAreaError::TopOutside)
    } else {
        None
    }
}

pub open spec fn right_error(ex: i32, h: opj_image) -> Option<DecodeAreaError> {
    if ex <= 0 {
        Some(DecodeAreaError::NonPositiveRight)
    } else if ex < h.x0 {
        Some(DecodeAreaError::RightOutside)
    } else {
        None
    }
}

pub open spec fn bottom_error(ey: i32, h: opj_image) -> Option<DecodeAreaError> {
    if ey <= 0 {
        Some(DecodeAreaError::NonPositiveBottom)
    } else if ey < h.y0 {
        Some(DecodeAreaError::BottomOutside)
    } else {
        None
    }
}

/// The first edge fault among the first `k` edges (left, top, right,
/// bottom).
pub open spec fn edges_error(
    k: int,
    sx: i32,
    sy: i32,
    ex: i32,
    ey: i32,
    h: opj_image,
) -> Option<DecodeAreaError> {
    if k >= 1 && left_error(sx, h) is Some {
        left_error(sx, h)
    } else if k >= 2 && top_error(sy, h) is Some {
        top_error(sy, h)
    } else if k >= 3 && right_error(ex, h) is Some {
        right_error(ex, h)
    } else if k >= 4 && bottom_error(ey, h) is Some {
        bottom_error(ey, h)
    } else {
        None
    }
}

/// The components of an image with their reduction factor set to `reduce`.
pub open spec fn with_factor(cs: Seq<opj_image_comp>, reduce: u32) -> Seq<opj_image_comp> {
    cs.map_values(|c: opj_image_comp| opj_image_comp { factor: reduce, ..c })
}

/// The decode area asked for: the whole image when all four edges are zero,
/// else the edges clamped to the image.
pub open spec fn whole_image(sx: i32, sy: i32, ex: i32, ey: i32) -> bool {
    sx == 0 && sy == 0 && ex == 0 && ey == 0
}

pub open spec fn area_x0(sx: i32, h: opj_image) -> u32 {
    if sx < h.x0 { h.x0 } else { sx as u32 }
}

pub open spec fn area_y0(sy: i32, h: opj_image) -> u32 {
    if sy < h.y0 { h.y0 } else { sy as u32 }
}

pub open spec fn area_x1(ex: i32, h: opj_image) -> u32 {
    if ex > h.x1 { h.x1 } else { ex as u32 }
}

pub open spec fn area_y1(ey: i32, h: opj_image) -> u32 {
    if ey > h.y1 { h.y1 } else { ey as u32 }
}

/// The tile range of the decode area.
pub open spec fn area_start_tile_x(sx: i32, h: opj_image, cp: opj_cp) -> int {
    if sx < h.x0 { 0 } else { (sx - cp.tx0) / (cp.tdx as int) }
}

pub open spec fn area_start_tile_y(sy: i32, h: opj_image, cp: opj_cp) -> int {
    if sy < h.y0 { 0 } else { (sy - cp.ty0) / (cp.tdy as int) }
}

pub open spec fn area_end_tile_x(ex: i32, h: opj_image, cp: opj_cp) -> int {
    if ex > h.x1 { cp.tw as int } else { ceil_div(ex - cp.tx0, cp.tdx as int) }
}

pub open spec fn area_end_tile_y(ey: i32, h: opj_image, cp: opj_cp) -> int {
    if ey > h.y1 { cp.th as int } else { ceil_div(ey - cp.ty0, cp.tdy as int) }
}

/// The image canvas once the edges before edge `k` are applied (or the
/// whole image canvas).
pub open spec fn area_canvas(
    img: opj_image,
    h: opj_image,
    k: int,
    sx: i32,
    sy: i32,
    ex: i32,
    ey: i32,
) -> opj_image {
    if whole_image(sx, sy, ex, ey) {
        opj_image { x0: h.x0, y0: h.y0, x1: h.x1, y1: h.y1, ..img }
    } else {
        opj_image {
            x0: if k >= 1 { area_x0(sx, h) } else { img.x0 },
            y0: if k >= 2 { area_y0(sy, h) } else { img.y0 },
            x1: if k >= 3 { area_x1(ex, h) } else { img.x1 },
            y1: if k >= 4 { area_y1(ey, h) } else { img.y1 },
            ..img
        }
    }
}

/// Number of edges applied before the first faulty one (4 when none is).
pub open spec fn edges_applied(sx: i32, sy: i32, ex: i32, ey: i32, h: opj_image) -> int {
    if left_error(sx, h) is Some {
        0
    } else if top_error(sy, h) is Some {
        1
    } else if right_error(ex, h) is Some {
        2
    } else if bottom_error(ey, h) is Some {
        3
    } else {
        4
    }
}

/// Sizing components depends on the image area alone.
proof fn lemma_dims_same_canvas(cs: Seq<opj_image_comp>, n: Seq<opj_image_comp>, a: opj_image, b: opj_image)
    requires
        a.x0 == b.x0 && a.y0 == b.y0 && a.x1 == b.x1 && a.y1 == b.y1,
    ensures
        dims_error_of(cs, a) == dims_error_of(cs, b),
        dims_updated(n, cs, a) == dims_updated(n, cs, b),
{
    assert forall|k: int| 0 <= k <= cs.len() implies #[trigger] comps_dims_error(cs, a, k) == comps_dims_error(cs, b, k) by {
        lemma_comps_dims_error_canvas(cs, a, b, k);
    }
    assert forall|i: int| 0 <= i < cs.len() implies #[trigger] comp_dims_error(cs[i], a) == comp_dims_error(cs[i], b) by {}
}

proof fn lemma_comps_dims_error_canvas(cs: Seq<opj_image_comp>, a: opj_image, b: opj_image, k: int)
    requires
        a.x0 == b.x0 && a.y0 == b.y0 && a.x1 == b.x1 && a.y1 == b.y1,
    ensures
        comps_dims_error(cs, a, k) == comps_dims_error(cs, b, k),
    decreases k,
{
    if k > 0 {
        lemma_comps_dims_error_canvas(cs, a, b, k - 1);
    }
}

fn set_factors(image: &mut opj_image, reduce: u32)
    ensures
        comps_of(*final(image)) == with_factor(comps_of(*old(image)), reduce),
        *final(image) == (opj_image { comps: final(image).comps, ..*old(image) }),
        final(image).comps is Some <==> old(image).comps is Some,
{
    if image.comps.is_some() {
        let mut comps = image.comps.take().unwrap();
        let ghost o = comps@;
        let mut i: usize = 0;
        while i < comps.len()
            invariant
                i <= comps@.len(),
                comps@.len() == o.len(),
                forall|k: int| 0 <= k < i ==> #[trigger] comps@[k] == (opj_image_comp { factor: reduce, ..o[k] }),
                forall|k: int| i <= k < o.len() ==> #[trigger] comps@[k] == o[k],
            decreases o.len() - i,
        {
            let mut c = comps.remove(i);
            c.factor = reduce;
            comps.insert(i, c);
            i = i + 1;
        }
        assert(comps@ =~= with_factor(o, reduce));
        image.comps = Some(comps);
    }
}

/// Sets the area of the image to decode, in canvas coordinates: the whole
/// image when all four edges are zero, else the given edges, clamped to the
/// image canvas `header` (a left or top edge before the image starts at the
/// image, a right or bottom edge past it ends at the image).  Every
/// component of `image` gets the reduction factor `reduce` and is sized
/// over the area, and `area` gets the tile range to decode.  Refused while
/// the main header is unread (`state` short of the first tile-part), except
/// for a single tile that is already decoded.
pub fn opj_j2k_set_decode_area(
    image: &mut opj_image,
    area: &mut DecodeArea,
    header: &opj_image,
    cp: &opj_cp,
    reduce: u32,
    state: J2KState,
    single_tile_decoded: bool,
    start_x: i32,
    start_y: i32,
    end_x: i32,
    end_y: i32,
) -> (r: Result<(), DecodeAreaError>)
    requires
        (cp.tw == 1 && cp.th == 1 && single_tile_decoded) || state == J2K_STATE_TPHSOT ==> {
            &&& cp.tdx > 0
            &&& cp.tdy > 0
            &&& cp.tx0 <= header.x0
            &&& cp.ty0 <= header.y0
            &&& reduce < 63
            &&& forall|i: int|
                0 <= i < comps_of(*old(image)).len() ==> 1 <= (#[trigger] comps_of(*old(image))[i]).dx
                    <= i32::MAX && 1 <= comps_of(*old(image))[i].dy <= i32::MAX
        },
    ensures
        ({
            let pending = !(cp.tw == 1 && cp.th == 1 && single_tile_decoded) && state != J2K_STATE_TPHSOT;
            let whole = whole_image(start_x, start_y, end_x, end_y);
            let k = if whole { 4 } else { edges_applied(start_x, start_y, end_x, end_y, *header) };
            let cs = with_factor(comps_of(*old(image)), reduce);
            let canvas = area_canvas(*old(image), *header, k, start_x, start_y, end_x, end_y);
            let edge_err = if whole { None } else { edges_error(4, start_x, start_y, end_x, end_y, *header) };
            &&& pending ==> {
                &&& r == Err::<(), DecodeAreaError>(DecodeAreaError::HeaderNotRead)
                &&& *final(image) == *old(image)
                &&& *final(area) == *old(area)
            }
            &&& !pending ==> {
                &&& final(image).x0 == canvas.x0 && final(image).y0 == canvas.y0
                &&& final(image).x1 == canvas.x1 && final(image).y1 == canvas.y1
                &&& final(image).numcomps == old(image).numcomps
                &&& final(image).color_space == old(image).color_space
                &&& final(image).icc_profile_buf == old(image).icc_profile_buf
                &&& final(image).icc_profile_len == old(image).icc_profile_len
                &&& final(image).comps is Some <==> old(image).comps is Some
                &&& edge_err matches Some(e) ==> {
                    &&& r == Err::<(), DecodeAreaError>(e)
                    &&& comps_of(*final(image)) == cs
                }
                &&& edge_err is None ==> {
                    &&& r is Err <==> dims_error_of(cs, canvas) is Some
                    &&& r matches Err(e) ==> dims_error_of(cs, canvas) == Some(e)
                    &&& dims_updated(comps_of(*final(image)), cs, canvas)
                }
                &&& whole ==> *final(area) == (DecodeArea {
                    start_tile_x: 0,
                    start_tile_y: 0,
                    end_tile_x: cp.tw,
                    end_tile_y: cp.th,
                    discard_tiles: old(area).discard_tiles,
                })
                &&& !whole ==> {
                    &&& final(area).start_tile_x == if k >= 1 {
                        area_start_tile_x(start_x, *header, *cp)
                    } else {
                        old(area).start_tile_x as int
                    }
                    &&& final(area).start_tile_y == if k >= 2 {
                        area_start_tile_y(start_y, *header, *cp)
                    } else {
                        old(area).start_tile_y as int
                    }
                    &&& final(area).end_tile_x == if k >= 3 {
                        area_end_tile_x(end_x, *header, *cp)
                    } else {
                        old(area).end_tile_x as int
                    }
                    &&& final(area).end_tile_y == if k >= 4 {
                        area_end_tile_y(end_y, *header, *cp)
                    } else {
                        old(area).end_tile_y as int
                    }
                    &&& final(area).discard_tiles == (k >= 4 || old(area).discard_tiles)
                }
            }
        }),
{
    if !(cp.tw == 1 && cp.th == 1 && single_tile_decoded) {
        if state != J2K_STATE_TPHSOT {
            return Err(DecodeAreaError::HeaderNotRead);
        }
    }
    set_factors(image, reduce);
    if start_x == 0 && start_y == 0 && end_x == 0 && end_y == 0 {
        area.start_tile_x = 0;
        area.start_tile_y = 0;
        area.end_tile_x = cp.tw;
        area.end_tile_y = cp.th;
        image.x0 = header.x0;
        image.y0 = header.y0;
        image.x1 = header.x1;
        image.y1 = header.y1;
        proof {
            let canvas = area_canvas(*old(image), *header, 4, start_x, start_y, end_x, end_y);
            lemma_dims_same_canvas(comps_of(*image), comps_of(*image), *image, canvas);
        }
        let ghost mid = *image;
        let r = opj_j2k_update_image_dimensions(image);
        proof {
            let canvas = area_canvas(*old(image), *header, 4, start_x, start_y, end_x, end_y);
            lemma_dims_same_canvas(comps_of(mid), comps_of(*image), mid, canvas);
        }
        return r;
    }
    if start_x < 0 {
        return Err(DecodeAreaError::NegativeLeft);
    } else if start_x as u32 > header.x1 {
        return Err(DecodeAreaError::LeftOutside);
    } else if (start_x as u32) < header.x0 {
        area.start_tile_x = 0;
        image.x0 = header.x0;
    } else {
        area.start_tile_x = (start_x as u32 - cp.tx0) / cp.tdx;
        image.x0 = start_x as u32;
    }
    if start_y < 0 {
        return Err(DecodeAreaError::NegativeTop);
    } else if start_y as u32 > header.y1 {
        return Err(DecodeAreaError::TopOutside);
    } else if (start_y as u32) < header.y0 {
        area.start_tile_y = 0;
        image.y0 = header.y0;
    } else {
        area.start_tile_y = (start_y as u32 - cp.ty0) / cp.tdy;
        image.y0 = start_y as u32;
    }
    if end_x <= 0 {
        return Err(DecodeAreaError::NonPositiveRight);
    } else if (end_x as u32) < header.x0 {
        return Err(DecodeAreaError::RightOutside);
    } else if end_x as u32 > header.x1 {
        area.end_tile_x = cp.tw;
        image.x1 = header.x1;
    } else {
        area.end_tile_x = opj_uint_ceildiv(end_x as u32 - cp.tx0, cp.tdx);
        image.x1 = end_x as u32;
    }
    if end_y <= 0 {
        return Err(DecodeAreaError::NonPositiveBottom);
    } else if (end_y as u32) < header.y0 {
        return Err(DecodeAreaError::BottomOutside);
    }
    if end_y as u32 > header.y1 {
        area.end_tile_y = cp.th;
        image.y1 = header.y1;
    } else {
        area.end_tile_y = opj_uint_ceildiv(end_y as u32 - cp.ty0, cp.tdy);
        image.y1 = end_y as u32;
    }
    area.discard_tiles = true;
    let ghost mid = *image;
    let r = opj_j2k_update_image_dimensions(image);
    proof {
        let canvas = area_canvas(*old(image), *header, 4, start_x, start_y, end_x, end_y);
        lemma_dims_same_canvas(comps_of(mid), comps_of(*image), mid, canvas);
    }
    r
}

} // verus!
