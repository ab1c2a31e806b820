//! Tile-part headers: the SOT marker segment that starts each tile-part,
//! and the bookkeeping of tile-parts per tile.
use vstd::prelude::*;

use crate::cio::{be_value, lemma_be_value_bound, lemma_pow256_small, opj_read_bytes};
use crate::j2k::{J2KState, J2K_STATE_TPH};

verus! {

/// Where a tile-part lies in the codestream.
#[derive(Clone, Copy, Debug)]
pub struct opj_tp_index {
    pub start_pos: i64,
    pub end_header: i64,
    pub end_pos: i64,
}

/// A marker met in the codestream: its code, where it starts and the
/// length of its segment.
#[derive(Clone, Copy, Debug, PartialEq, Eq, Structural)]
pub struct opj_marker_info {
    pub type_: u16,
    pub pos: i64,
    pub len: i32,
}

/// The codestream index entry of a tile: its tile-parts and the markers
/// met in its headers.
#[derive(Clone, Debug)]
pub struct opj_tile_index {
    pub tileno: u32,
    pub nb_tps: u32,
    pub current_nb_tps: u32,
    pub current_tpsno: u32,
    pub tp_index: Option<Vec<opj_tp_index>>,
    pub marker: Vec<opj_marker_info>,
}

/// The tile-parts seen so far of one tile.
#[derive(Clone, Copy, Debug)]
pub struct opj_tile_parts {
    /// Index of the last tile-part read (-1 before the first).
    pub m_current_tile_part_number: i32,
    /// Number of tile-parts of the tile, 0 while unknown.
    pub m_nb_tile_parts: u32,
}

/// What the decoder tracks while reading tile-part headers.
#[derive(Clone, Debug)]
pub struct opj_tile_decoder {
    pub m_current_tile_number: u32,
    /// The only tile to decode, or -1 to decode those of the decode area.
    pub m_tile_ind_to_dec: i32,
    /// Whether the numbers of tile-parts that the headers give are one short.
    pub m_nb_tile_parts_correction: bool,
    pub m_last_tile_part: bool,
    pub m_can_decode: bool,
    /// Bytes of tile-part data to skip after the header.
    pub m_sot_length: u32,
    pub m_state: J2KState,
    pub m_skip_data: bool,
    pub m_start_tile_x: u32,
    pub m_start_tile_y: u32,
    pub m_end_tile_x: u32,
    pub m_end_tile_y: u32,
    /// The codestream index, one entry per tile, when one is kept.
    pub tile_index: Option<Vec<opj_tile_index>>,
}

/// Why a SOT segment was refused.
#[derive(Clone, Copy, Debug, PartialEq, Eq, Structural)]
pub enum SotError {
    /// The segment is not 8 bytes long.
    MarkerSize,
    /// The tile number is past the last tile.
    InvalidTileNumber,
    /// The tile-part does not follow the previous one of its tile.
    InvalidTilePartIndex,
    /// The tile-part length is 1 to 11 or 13.
    InvalidPsot,
    /// The tile-part index is past the number of tile-parts known for the
    /// tile.
    TilePartBeyondCount,
    /// The tile-part index is past the number of tile-parts the header
    /// gives.
    TilePartBeyondHeaderCount,
}

/// The fields of a SOT segment: tile number, tile-part length, tile-part
/// index and number of tile-parts.
pub open spec fn sot_isot(d: Seq<u8>) -> int {
    be_value(d.subrange(0, 2)) as int
}

pub open spec fn sot_psot(d: Seq<u8>) -> int {
    be_value(d.subrange(2, 6)) as int
}

pub open spec fn sot_tpsot(d: Seq<u8>) -> int {
    d[6] as int
}

pub open spec fn sot_tnsot(d: Seq<u8>) -> int {
    d[7] as int
}

/// The tile-part index of the segment is checked against the previous one
/// when all tiles are decoded or when its tile is the one to decode.
pub open spec fn sot_checks_order(dec: opj_tile_decoder, tile: int) -> bool {
    dec.m_tile_ind_to_dec < 0 || tile == dec.m_tile_ind_to_dec
}

/// The number of tile-parts that the segment gives, corrected when the
/// headers are known to be one short.
pub open spec fn sot_num_parts(d: Seq<u8>, dec: opj_tile_decoder) -> int {
    (sot_tnsot(d) + if dec.m_nb_tile_parts_correction {
        1int
    } else {
        0int
    }) % 0x1_0000_0000
}

/// The reason, checked in the decoder's order, why the SOT segment of
/// `size` bytes is refused, or `None`.
pub open spec fn sot_error(
    d: Seq<u8>,
    size: int,
    dec: opj_tile_decoder,
    tiles: Seq<opj_tile_parts>,
    nb_tiles: int,
) -> Option<SotError> {
    let tile = sot_isot(d);
    let part = sot_tpsot(d);
    let psot = sot_psot(d);
    if size != 8 {
        Some(SotError::MarkerSize)
    } else if tile >= nb_tiles {
        Some(SotError::InvalidTileNumber)
    } else if sot_checks_order(dec, tile) && tiles[tile].m_current_tile_part_number + 1 != part {
        Some(SotError::InvalidTilePartIndex)
    } else if psot != 0 && psot < 14 && psot != 12 {
        Some(SotError::InvalidPsot)
    } else if tiles[tile].m_nb_tile_parts != 0 && part >= tiles[tile].m_nb_tile_parts {
        Some(SotError::TilePartBeyondCount)
    } else if sot_tnsot(d) != 0 && part >= sot_num_parts(d, dec) {
        Some(SotError::TilePartBeyondHeaderCount)
    } else {
        None
    }
}

/// The number of tile-parts of the tile once the segment is read.
pub open spec fn sot_nb_parts(d: Seq<u8>, dec: opj_tile_decoder, t: opj_tile_parts) -> int {
    if sot_tnsot(d) != 0 {
        sot_num_parts(d, dec)
    } else {
        t.m_nb_tile_parts as int
    }
}

/// Whether a tile lies outside the tiles to decode.
pub open spec fn sot_skip(dec: opj_tile_decoder, tile: int, tw: int) -> bool {
    if dec.m_tile_ind_to_dec == -1 {
        let x = tile % tw;
        let y = tile / tw;
        x < dec.m_start_tile_x || x >= dec.m_end_tile_x || y < dec.m_start_tile_y || y
            >= dec.m_end_tile_y
    } else {
        tile != dec.m_tile_ind_to_dec
    }
}

/// `v` is `o` resized to `len` entries: the first entries kept, new ones
/// zero.
pub open spec fn resized(v: Seq<opj_tp_index>, o: Seq<opj_tp_index>, len: int) -> bool {
    &&& v.len() == len
    &&& forall|k: int| 0 <= k < len && k < o.len() ==> #[trigger] v[k] == o[k]
    &&& forall|k: int|
        o.len() <= k < len ==> #[trigger] v[k] == (opj_tp_index { start_pos: 0, end_header: 0, end_pos: 0 })
}

/// The tile-parts of a tile index entry, empty when none are allocated.
pub open spec fn tp_of(t: opj_tile_index) -> Seq<opj_tp_index> {
    match t.tp_index {
        Some(v) => v@,
        None => Seq::empty(),
    }
}

/// The index entry `n` once tile-part `part` of tile `tile` is read: the
/// tile-part counts that the segment gives, or room for this tile-part.
pub open spec fn sot_index_ok(
    n: opj_tile_index,
    o: opj_tile_index,
    tile: int,
    part: int,
    num_parts: int,
    tnsot: int,
) -> bool {
    &&& n.tileno == tile
    &&& n.current_tpsno == part
    &&& n.marker@ == o.marker@
    &&& n.tp_index is Some
    &&& if tnsot != 0 {
        &&& n.nb_tps == num_parts
        &&& n.current_nb_tps == num_parts
        &&& resized(tp_of(n), tp_of(o), num_parts)
    } else {
        let room = if o.tp_index is None {
            10
        } else {
            o.current_nb_tps as int
        };
        &&& n.nb_tps == o.nb_tps
        &&& n.current_nb_tps == if part >= room {
            part + 1
        } else {
            room
        }
        &&& resized(tp_of(n), tp_of(o), n.current_nb_tps as int)
    }
}

/// An index entry whose tile-part table, when allocated, has
/// `current_nb_tps` entries.
pub open spec fn tile_index_wf(t: opj_tile_index) -> bool {
    t.tp_index matches Some(v) ==> v@.len() == t.current_nb_tps
}

/// The codestream index entries, empty when no index is kept.
pub open spec fn index_of(dec: opj_tile_decoder) -> Seq<opj_tile_index> {
    match dec.tile_index {
        Some(v) => v@,
        None => Seq::empty(),
    }
}

/// The decoder fields that reading a SOT segment never changes.
pub open spec fn sot_frame(n: opj_tile_decoder, o: opj_tile_decoder) -> bool {
    &&& n.m_tile_ind_to_dec == o.m_tile_ind_to_dec
    &&& n.m_nb_tile_parts_correction == o.m_nb_tile_parts_correction
    &&& n.m_start_tile_x == o.m_start_tile_x
    &&& n.m_start_tile_y == o.m_start_tile_y
    &&& n.m_end_tile_x == o.m_end_tile_x
    &&& n.m_end_tile_y == o.m_end_tile_y
}

/// The decoder fields that a refused segment leaves as they are (the
/// current tile number and the last-tile-part flag aside).
pub open spec fn sot_kept(n: opj_tile_decoder, o: opj_tile_decoder) -> bool {
    &&& sot_frame(n, o)
    &&& n.m_can_decode == o.m_can_decode
    &&& n.m_sot_length == o.m_sot_length
    &&& n.m_state == o.m_state
    &&& n.m_skip_data == o.m_skip_data
    &&& n.tile_index == o.tile_index
}

fn resize_tp(v: &mut Vec<opj_tp_index>, len: u32)
    ensures
        resized(final(v)@, old(v)@, len as int),
{
    let ghost o = v@;
    let zero = opj_tp_index { start_pos: 0, end_header: 0, end_pos: 0 };
    if v.len() > len as usize {
        v.truncate(len as usize);
    } else {
        while v.len() < len as usize
            invariant
                o.len() <= v@.len() <= len,
                forall|k: int| 0 <= k < o.len() ==> #[trigger] v@[k] == o[k],
                forall|k: int| o.len() <= k < v@.len() ==> #[trigger] v@[k] == zero,
            decreases len - v@.len(),
        {
            v.push(zero);
        }
    }
}

/// Updates the index entry of tile `tile` for tile-part `part`.
fn update_tile_index(t: &mut opj_tile_index, tile: u32, part: u32, num_parts: u32, tnsot: u32)
    requires
        tile_index_wf(*old(t)),
        part < 256,
        tnsot != 0 ==> num_parts == tnsot || num_parts == tnsot + 1,
    ensures
        tile_index_wf(*final(t)),
        sot_index_ok(*final(t), *old(t), tile as int, part as int, num_parts as int, tnsot as int),
{
    t.tileno = tile;
    t.current_tpsno = part;
    if tnsot != 0 {
        t.nb_tps = num_parts;
        t.current_nb_tps = num_parts;
        let mut v = match t.tp_index.take() {
            Some(v) => v,
            None => Vec::new(),
        };
        resize_tp(&mut v, num_parts);
        t.tp_index = Some(v);
    } else {
        if t.tp_index.is_none() {
            t.current_nb_tps = 10;
            let mut v = Vec::new();
            resize_tp(&mut v, 10);
            t.tp_index = Some(v);
        }
        if part >= t.current_nb_tps {
            t.current_nb_tps = part + 1;
            let mut v = t.tp_index.take().unwrap();
            resize_tp(&mut v, part + 1);
            t.tp_index = Some(v);
        }
    }
}

/// Records tile-part `part` of tile `tile` in the codestream index, when
/// one is kept.
fn record_tile_part(index: &mut Option<Vec<opj_tile_index>>, tile: u32, part: u32, num_parts: u32, tnsot: u32)
    requires
        part < 256,
        tnsot != 0 ==> num_parts == tnsot || num_parts == tnsot + 1,
        old(index).is_some() ==> tile < old(index).unwrap()@.len() && forall|i: int|
            0 <= i < old(index).unwrap()@.len() ==> #[trigger] tile_index_wf(old(index).unwrap()@[i]),
    ensures
        old(index).is_none() ==> final(index).is_none(),
        old(index).is_some() ==> {
            let v = old(index).unwrap()@;
            let w = final(index).unwrap()@;
            &&& final(index).is_some()
            &&& w.len() == v.len()
            &&& forall|i: int| 0 <= i < v.len() ==> #[trigger] tile_index_wf(w[i])
            &&& forall|i: int| 0 <= i < v.len() && i != tile ==> #[trigger] w[i] == v[i]
            &&& sot_index_ok(w[tile as int], v[tile as int], tile as int, part as int, num_parts as int, tnsot as int)
        },
{
    if index.is_some() {
        let mut v = index.take().unwrap();
        let ghost v0 = v@;
        let mut entry = v.remove(tile as usize);
        update_tile_index(&mut entry, tile, part, num_parts, tnsot);
        v.insert(tile as usize, entry);
        assert(forall|i: int| 0 <= i < v0.len() && i != tile ==> #[trigger] v@[i] == v0[i]);
        *index = Some(v);
    }
}

/// The fields of a SOT segment of `size` bytes (the bytes of `data` after
/// its length): tile number, tile-part length, tile-part index and number of
/// tile-parts; `None` unless the segment has its 8 bytes.
pub fn opj_j2k_get_sot_values(data: &[u8], size: u32) -> (r: Option<(u32, u32, u32, u32)>)
    requires
        size <= data@.len(),
    ensures
        size != 8 ==> r is None,
        size == 8 ==> (r matches Some(v) && v.0 == sot_isot(data@) && v.1 == sot_psot(data@) && v.2
            == sot_tpsot(data@) && v.3 == sot_tnsot(data@)),
{
    if size != 8 {
        return None;
    }
    let tile_no = opj_read_bytes(data, 0, 2);
    let tot_len = opj_read_bytes(data, 2, 4);
    Some((tile_no, tot_len, data[6] as u32, data[7] as u32))
}

/// Reads a SOT segment (the `header_size` bytes of `data`) for a tile grid
/// of `tw x th` tiles: checks the tile number and the tile-part index
/// against what was read before, records the tile-part in its tile, and
/// tells whether the tile can now be decoded, how much data follows the
/// header and whether it is skipped.
#[verifier::rlimit(30)]
pub fn opj_j2k_read_sot(
    dec: &mut opj_tile_decoder,
    tiles: &mut Vec<opj_tile_parts>,
    tw: u32,
    th: u32,
    data: &[u8],
    header_size: u32,
) -> (r: Result<(), SotError>)
    requires
        header_size <= data@.len(),
        tw * th <= u32::MAX,
        old(tiles)@.len() == tw * th,
        old(dec).m_tile_ind_to_dec >= -1,
        forall|i: int| 0 <= i < old(tiles)@.len() ==> #[trigger] old(tiles)@[i].m_current_tile_part_number
            < i32::MAX,
        old(dec).tile_index matches Some(v) ==> v@.len() == tw * th && forall|i: int|
            0 <= i < v@.len() ==> #[trigger] tile_index_wf(v@[i]),
    ensures
        final(tiles)@.len() == old(tiles)@.len(),
        sot_frame(*final(dec), *old(dec)),
        ({
            let d = data@;
            let err = sot_error(d, header_size as int, *old(dec), old(tiles)@, tw * th);
            let tile = sot_isot(d);
            let part = sot_tpsot(d);
            let t0 = old(tiles)@[tile];
            &&& r is Err <==> err is Some
            &&& r matches Err(e) ==> err == Some(e)
            &&& header_size != 8 ==> {
                &&& sot_kept(*final(dec), *old(dec))
                &&& final(dec).m_current_tile_number == old(dec).m_current_tile_number
                &&& final(dec).m_last_tile_part == old(dec).m_last_tile_part
                &&& final(tiles)@ == old(tiles)@
            }
            &&& header_size == 8 ==> final(dec).m_current_tile_number == tile
            &&& (err == Some(SotError::InvalidTileNumber) || err == Some(
                SotError::InvalidTilePartIndex,
            )) ==> {
                &&& sot_kept(*final(dec), *old(dec))
                &&& final(dec).m_last_tile_part == old(dec).m_last_tile_part
                &&& final(tiles)@ == old(tiles)@
            }
            &&& (err == Some(SotError::InvalidPsot) || err == Some(SotError::TilePartBeyondCount)
                || err == Some(SotError::TilePartBeyondHeaderCount)) ==> {
                &&& sot_kept(*final(dec), *old(dec))
                &&& final(dec).m_last_tile_part == (err != Some(SotError::InvalidPsot)
                    || old(dec).m_last_tile_part)
                &&& final(tiles)@ == old(tiles)@.update(
                    tile,
                    opj_tile_parts { m_current_tile_part_number: part as i32, ..t0 },
                )
            }
            &&& err is None ==> {
                let nb = sot_nb_parts(d, *old(dec), t0);
                let last = old(dec).m_last_tile_part || sot_psot(d) == 0;
                &&& final(tiles)@ == old(tiles)@.update(
                    tile,
                    opj_tile_parts { m_current_tile_part_number: part as i32, m_nb_tile_parts: nb as u32 },
                )
                &&& final(dec).m_last_tile_part == last
                &&& final(dec).m_can_decode == (old(dec).m_can_decode || (nb != 0 && nb == part + 1))
                &&& final(dec).m_sot_length == if last {
                    0
                } else {
                    (sot_psot(d) - 12 + 0x1_0000_0000) % 0x1_0000_0000
                }
                &&& final(dec).m_state == J2K_STATE_TPH
                &&& final(dec).m_skip_data == sot_skip(*old(dec), tile, tw as int)
                &&& old(dec).tile_index is None ==> final(dec).tile_index is None
                &&& old(dec).tile_index is Some ==> {
                    let v = index_of(*old(dec));
                    let w = index_of(*final(dec));
                    &&& final(dec).tile_index is Some
                    &&& w.len() == v.len()
                    &&& forall|i: int| 0 <= i < v.len() ==> #[trigger] tile_index_wf(w[i])
                    &&& forall|i: int| 0 <= i < v.len() && i != tile ==> #[trigger] w[i] == v[i]
                    &&& sot_index_ok(w[tile], v[tile], tile, part, sot_num_parts(d, *old(dec)), sot_tnsot(d))
                }
            }
        }),
{
    let ghost d = data@;
    let (tile_no, tot_len, current_part, tnsot) = match opj_j2k_get_sot_values(data, header_size) {
        Some(v) => v,
        None => {
            return Err(SotError::MarkerSize);
        },
    };
    proof {
        lemma_pow256_small();
        lemma_be_value_bound(d.subrange(0, 2));
    }
    dec.m_current_tile_number = tile_no;
    let nb_tiles = tw * th;
    if tile_no >= nb_tiles {
        return Err(SotError::InvalidTileNumber);
    }
    let tile_x = tile_no % tw;
    let tile_y = tile_no / tw;
    let t0 = tiles[tile_no as usize];
    if dec.m_tile_ind_to_dec < 0 || tile_no == dec.m_tile_ind_to_dec as u32 {
        if t0.m_current_tile_part_number + 1 != current_part as i32 {
            return Err(SotError::InvalidTilePartIndex);
        }
    }
    let mut t = t0;
    t.m_current_tile_part_number = current_part as i32;
    tiles.set(tile_no as usize, t);
    if tot_len != 0 && tot_len < 14 && tot_len != 12 {
        return Err(SotError::InvalidPsot);
    }
    if tot_len == 0 {
        dec.m_last_tile_part = true;
    }
    if t.m_nb_tile_parts != 0 && current_part >= t.m_nb_tile_parts {
        dec.m_last_tile_part = true;
        return Err(SotError::TilePartBeyondCount);
    }
    let mut num_parts = tnsot;
    if tnsot != 0 {
        num_parts = tnsot + if dec.m_nb_tile_parts_correction { 1 } else { 0 };
        if current_part >= num_parts {
            dec.m_last_tile_part = true;
            return Err(SotError::TilePartBeyondHeaderCount);
        }
        t.m_nb_tile_parts = num_parts;
        tiles.set(tile_no as usize, t);
    }
    if t.m_nb_tile_parts != 0 && t.m_nb_tile_parts == current_part + 1 {
        dec.m_can_decode = true;
    }
    if !dec.m_last_tile_part {
        dec.m_sot_length = tot_len.wrapping_sub(12);
    } else {
        dec.m_sot_length = 0;
    }
    dec.m_state = J2K_STATE_TPH;
    if dec.m_tile_ind_to_dec == -1 {
        dec.m_skip_data = tile_x < dec.m_start_tile_x || tile_x >= dec.m_end_tile_x || tile_y
            < dec.m_start_tile_y || tile_y >= dec.m_end_tile_y;
    } else {
        dec.m_skip_data = tile_no != dec.m_tile_ind_to_dec as u32;
    }
    record_tile_part(&mut dec.tile_index, tile_no, current_part, num_parts, tnsot);
    Ok(())
}

} // verus!
