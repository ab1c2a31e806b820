//! The codestream index: where the main header starts and ends, the markers
//! met in it, and for every tile its tile-parts and the markers of its
//! headers.
use vstd::prelude::*;

use crate::j2k::{marker_code, J2KMarker};
use crate::tile::{opj_marker_info, opj_tile_index, opj_tp_index};

verus! {

/// The codestream index of a decoder.
#[derive(Clone, Debug)]
pub struct opj_codestream_index {
    pub main_head_start: i64,
    pub main_head_end: i64,
    pub codestream_size: u64,
    /// The markers of the main header, in the order met.
    pub marker: Vec<opj_marker_info>,
    pub nb_of_tiles: u32,
    /// One entry per tile, once the tiles are known.
    pub tile_index: Option<Vec<opj_tile_index>>,
}

/// A new codestream index: nothing recorded yet.
pub fn opj_j2k_create_cstr_index() -> (r: opj_codestream_index)
    ensures
        r.main_head_start == 0,
        r.main_head_end == 0,
        r.codestream_size == 0,
        r.marker@.len() == 0,
        r.nb_of_tiles == 0,
        r.tile_index is None,
{
    opj_codestream_index {
        main_head_start: 0,
        main_head_end: 0,
        codestream_size: 0,
        marker: Vec::new(),
        nb_of_tiles: 0,
        tile_index: None,
    }
}

/// The index entry of marker `m` at `pos` with a segment of `len` bytes.
pub open spec fn marker_entry(m: J2KMarker, pos: i64, len: u32) -> opj_marker_info {
    opj_marker_info { type_: (marker_code(m) % 65536) as u16, pos, len: len as i32 }
}

fn make_entry(m: J2KMarker, pos: i64, len: u32) -> (r: opj_marker_info)
    ensures
        r == marker_entry(m, pos, len),
{
    let code = m.as_u32();
    opj_marker_info { type_: (code % 65536) as u16, pos, len: len as i32 }
}

/// Records a marker of the main header.
pub fn opj_j2k_add_mhmarker(cstr_index: &mut opj_codestream_index, marker: J2KMarker, pos: i64, len: u32) -> (r: bool)
    ensures
        r,
        final(cstr_index).marker@ == old(cstr_index).marker@.push(marker_entry(marker, pos, len)),
        *final(cstr_index) == (opj_codestream_index { marker: final(cstr_index).marker, ..*old(cstr_index) }),
{
    let e = make_entry(marker, pos, len);
    cstr_index.marker.push(e);
    true
}

/// The index entry of a tile once a marker of its headers is recorded:
/// the marker added to its list and, for a SOT marker, the start of its
/// current tile-part set to `pos` when its tile-parts are allocated.
pub open spec fn tile_marker_added(n: opj_tile_index, o: opj_tile_index, m: J2KMarker, pos: i64, len: u32) -> bool {
    &&& n.marker@ == o.marker@.push(marker_entry(m, pos, len))
    &&& n.tileno == o.tileno
    &&& n.nb_tps == o.nb_tps
    &&& n.current_nb_tps == o.current_nb_tps
    &&& n.current_tpsno == o.current_tpsno
    &&& match o.tp_index {
        None => n.tp_index is None,
        Some(tp) => n.tp_index matches Some(ntp) && if m == J2KMarker::SOT {
            ntp@ == tp@.update(
                o.current_tpsno as int,
                opj_tp_index { start_pos: pos, ..tp@[o.current_tpsno as int] },
            )
        } else {
            ntp@ == tp@
        },
    }
}

/// Records a marker of the headers of tile `tileno`.
pub fn opj_j2k_add_tlmarker(
    tileno: u32,
    cstr_index: &mut opj_codestream_index,
    marker: J2KMarker,
    pos: i64,
    len: u32,
) -> (r: bool)
    requires
        old(cstr_index).tile_index matches Some(v) && tileno < v@.len() && (marker == J2KMarker::SOT
            ==> (v@[tileno as int].tp_index matches Some(tp) ==> v@[tileno as int].current_tpsno
            < tp@.len())),
    ensures
        r,
        final(cstr_index).tile_index matches Some(w) && {
            let v = old(cstr_index).tile_index.unwrap()@;
            &&& w@.len() == v.len()
            &&& tile_marker_added(w@[tileno as int], v[tileno as int], marker, pos, len)
            &&& forall|i: int| 0 <= i < v.len() && i != tileno ==> #[trigger] w@[i] == v[i]
        },
        *final(cstr_index) == (opj_codestream_index {
            tile_index: final(cstr_index).tile_index,
            ..*old(cstr_index)
        }),
{
    let e = make_entry(marker, pos, len);
    let mut v = cstr_index.tile_index.take().unwrap();
    let ghost v0 = v@;
    let mut t = v.remove(tileno as usize);
    let ghost t0 = t;
    t.marker.push(e);
    if marker == J2KMarker::SOT {
        let cur = t.current_tpsno as usize;
        if let Some(tp) = &mut t.tp_index {
            let mut p = tp[cur];
            p.start_pos = pos;
            tp.set(cur, p);
        }
    }
    assert(tile_marker_added(t, t0, marker, pos, len));
    v.insert(tileno as usize, t);
    assert(forall|i: int| 0 <= i < v0.len() && i != tileno ==> #[trigger] v@[i] == v0[i]);
    cstr_index.tile_index = Some(v);
    true
}

/// A fresh index entry of a tile: nothing recorded.
pub open spec fn empty_tile_index(t: opj_tile_index) -> bool {
    &&& t.tileno == 0
    &&& t.nb_tps == 0
    &&& t.current_nb_tps == 0
    &&& t.current_tpsno == 0
    &&& t.tp_index is None
    &&& t.marker@.len() == 0
}

fn empty_entry() -> (r: opj_tile_index)
    ensures
        empty_tile_index(r),
{
    opj_tile_index {
        tileno: 0,
        nb_tps: 0,
        current_nb_tps: 0,
        current_tpsno: 0,
        tp_index: None,
        marker: Vec::new(),
    }
}

/// Gives the codestream index one empty entry per tile of a `tw x th` grid
/// (their number modulo 2^32).
pub fn opj_j2k_allocate_tile_element_cstr_index(cstr_index: &mut opj_codestream_index, tw: u32, th: u32) -> (r: bool)
    ensures
        r,
        final(cstr_index).nb_of_tiles == tw.wrapping_mul(th),
        final(cstr_index).tile_index matches Some(v) && v@.len() == tw.wrapping_mul(th) && forall|i: int|
            0 <= i < v@.len() ==> empty_tile_index(#[trigger] v@[i]),
        *final(cstr_index) == (opj_codestream_index {
            nb_of_tiles: final(cstr_index).nb_of_tiles,
            tile_index: final(cstr_index).tile_index,
            ..*old(cstr_index)
        }),
{
    let n = tw.wrapping_mul(th);
    let mut v: Vec<opj_tile_index> = Vec::new();
    let mut i: u32 = 0;
    while i < n
        invariant
            i <= n,
            v@.len() == i,
            forall|k: int| 0 <= k < i ==> empty_tile_index(#[trigger] v@[k]),
        decreases n - i,
    {
        v.push(empty_entry());
        i = i + 1;
    }
    cstr_index.nb_of_tiles = n;
    cstr_index.tile_index = Some(v);
    true
}

/// The copy of a tile's index entry handed to the user: its markers, its
/// number of tile-parts and that many tile-parts; nothing else.
pub open spec fn tile_index_copy(n: opj_tile_index, o: opj_tile_index) -> bool {
    &&& n.tileno == 0
    &&& n.current_nb_tps == 0
    &&& n.current_tpsno == 0
    &&& n.marker@ == o.marker@
    &&& n.nb_tps == o.nb_tps
    &&& match o.tp_index {
        None => n.tp_index is None,
        Some(tp) => n.tp_index matches Some(ntp) && ntp@ == tp@.subrange(0, o.nb_tps as int),
    }
}

/// Every tile entry whose tile-parts are allocated has at least as many as
/// its number of tile-parts says.
pub open spec fn tile_parts_cover(v: Seq<opj_tile_index>) -> bool {
    forall|i: int|
        0 <= i < v.len() ==> ((#[trigger] v[i]).tp_index matches Some(tp) ==> v[i].nb_tps
            <= tp@.len())
}

fn copy_tile_entry(o: &opj_tile_index) -> (r: opj_tile_index)
    requires
        o.tp_index matches Some(tp) ==> o.nb_tps <= tp@.len(),
    ensures
        tile_index_copy(r, *o),
{
    let tp_index = match &o.tp_index {
        None => None,
        Some(tp) => {
            let mut c: Vec<opj_tp_index> = Vec::new();
            let mut k: usize = 0;
            while k < o.nb_tps as usize
                invariant
                    k <= o.nb_tps <= tp@.len(),
                    c@ == tp@.subrange(0, k as int),
                decreases o.nb_tps - k,
            {
                c.push(tp[k]);
                k = k + 1;
                assert(c@ =~= tp@.subrange(0, k as int));
            }
            Some(c)
        },
    };
    let mut marker: Vec<opj_marker_info> = Vec::new();
    let mut k: usize = 0;
    while k < o.marker.len()
        invariant
            k <= o.marker@.len(),
            marker@ == o.marker@.subrange(0, k as int),
        decreases o.marker@.len() - k,
    {
        marker.push(o.marker[k]);
        k = k + 1;
        assert(marker@ =~= o.marker@.subrange(0, k as int));
    }
    assert(marker@ =~= o.marker@);
    opj_tile_index { tileno: 0, nb_tps: o.nb_tps, current_nb_tps: 0, current_tpsno: 0, tp_index, marker }
}

/// A copy of the codestream index for the user: the main header's extent,
/// the codestream size, its markers, and a copy of every tile entry.
pub fn j2k_get_cstr_index(cstr_index: &opj_codestream_index) -> (r: opj_codestream_index)
    requires
        cstr_index.tile_index matches Some(v) ==> tile_parts_cover(v@),
    ensures
        r.main_head_start == cstr_index.main_head_start,
        r.main_head_end == cstr_index.main_head_end,
        r.codestream_size == cstr_index.codestream_size,
        r.marker@ == cstr_index.marker@,
        r.nb_of_tiles == cstr_index.nb_of_tiles,
        match cstr_index.tile_index {
            None => r.tile_index is None,
            Some(v) => r.tile_index matches Some(w) && w@.len() == v@.len() && forall|i: int|
                0 <= i < v@.len() ==> tile_index_copy(#[trigger] w@[i], v@[i]),
        },
{
    let mut marker: Vec<opj_marker_info> = Vec::new();
    let mut k: usize = 0;
    while k < cstr_index.marker.len()
        invariant
            k <= cstr_index.marker@.len(),
            marker@ == cstr_index.marker@.subrange(0, k as int),
        decreases cstr_index.marker@.len() - k,
    {
        marker.push(cstr_index.marker[k]);
        k = k + 1;
        assert(marker@ =~= cstr_index.marker@.subrange(0, k as int));
    }
    assert(marker@ =~= cstr_index.marker@);
    let tile_index = match &cstr_index.tile_index {
        None => None,
        Some(v) => {
            let mut w: Vec<opj_tile_index> = Vec::new();
            let mut i: usize = 0;
            while i < v.len()
                invariant
                    i <= v@.len(),
                    tile_parts_cover(v@),
                    w@.len() == i,
                    forall|j: int| 0 <= j < i ==> tile_index_copy(#[trigger] w@[j], v@[j]),
                decreases v@.len() - i,
            {
                assert(v@[i as int].tp_index matches Some(tp) ==> v@[i as int].nb_tps <= tp@.len());
                w.push(copy_tile_entry(&v[i]));
                i = i + 1;
            }
            Some(w)
        },
    };
    opj_codestream_index {
        main_head_start: cstr_index.main_head_start,
        main_head_end: cstr_index.main_head_end,
        codestream_size: cstr_index.codestream_size,
        marker,
        nb_of_tiles: cstr_index.nb_of_tiles,
        tile_index,
    }
}

/// Records where the main header ends: at `pos`, the position in the
/// stream.
pub fn opj_j2k_get_end_header(cstr_index: &mut opj_codestream_index, pos: i64)
    ensures
        *final(cstr_index) == (opj_codestream_index { main_head_end: pos, ..*old(cstr_index) }),
{
    cstr_index.main_head_end = pos;
}

/// Records the size of the codestream once it is written, `pos` being the
/// position in the stream: the bytes from the start of the main header.
pub fn opj_j2k_write_epc(cstr_index: &mut Option<opj_codestream_index>, pos: i64)
    requires
        *old(cstr_index) matches Some(c) ==> c.main_head_start as u64 <= pos as u64,
    ensures
        match *old(cstr_index) {
            None => *final(cstr_index) is None,
            Some(c) => *final(cstr_index) == Some(
                opj_codestream_index {
                    codestream_size: ((pos as u64) - (c.main_head_start as u64)) as u64,
                    ..c
                },
            ),
        },
{
    if let Some(c) = cstr_index {
        c.codestream_size = (pos as u64) - (c.main_head_start as u64);
    }
}

/// The total of the tile-part counts of the first `n` tile entries.
pub open spec fn tile_parts_sum(v: Seq<opj_tile_index>, n: int) -> int
    decreases n,
{
    if n <= 0 {
        0
    } else {
        tile_parts_sum(v, n - 1) + v[n - 1].nb_tps
    }
}

/// The number of tile-parts that the index records over all its tiles,
/// modulo 2^32 (zero when it has no tile entries): a dump of the index
/// shows its tiles only when it is not zero.
pub fn opj_j2k_index_tile_parts(cstr_index: &opj_codestream_index) -> (r: u32)
    ensures
        r == match cstr_index.tile_index {
            None => 0,
            Some(v) => tile_parts_sum(v@, v@.len() as int) % 0x1_0000_0000,
        },
{
    match &cstr_index.tile_index {
        None => 0,
        Some(v) => {
            let mut acc: u32 = 0;
            let mut i: usize = 0;
            while i < v.len()
                invariant
                    i <= v@.len(),
                    acc == tile_parts_sum(v@, i as int) % 0x1_0000_0000,
                decreases v@.len() - i,
            {
                acc = acc.wrapping_add(v[i].nb_tps);
                i = i + 1;
            }
            acc
        },
    }
}

} // verus!
