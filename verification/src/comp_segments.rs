//! The COC and QCC marker segments that an encoder writes for the
//! components whose coding style or quantization differs from the first
//! component's, and the room that the tile headers may need.
//!
//! An encoder builds each marker segment in a header buffer that it keeps
//! from one segment to the next, then sends the first bytes of that buffer.
use vstd::prelude::*;

use crate::cio::{be_bytes, lemma_be_bytes, push_be};
use crate::coding::{
    comp_room, opj_j2k_compare_SPCod_SPCoc, opj_j2k_compare_SQcd_SQcc,
    opj_j2k_get_SPCod_SPCoc_size, opj_j2k_get_SQcd_SQcc_size, opj_j2k_write_SPCod_SPCoc,
    opj_j2k_write_SQcd_SQcc, opj_j2k_write_rgn, qcc_error, rgn_segment, seg_compno, spcod_bytes, spcod_same, spcod_size,
    sqcd_bands, sqcd_bytes, sqcd_len, sqcd_nbands, sqcd_ok, sqcd_parsed, sqcd_numgbits, sqcd_qntsty, sqcd_same, sqcd_size, sqcd_steps,
    sqcd_valid, sqcd_writable, lemma_sqcd_roundtrip,
};
use crate::encoder::{opj_stepsize, opj_tccp, opj_tcp, OPJ_J2K_MAXBANDS};
use crate::math::{ceil_div, opj_uint_ceildiv, opj_uint_max};
use crate::params::J2K_MAX_POCS;
use crate::poc::{max_poc_size, opj_j2k_get_max_poc_size};

verus! {

/// The marker of a COC segment.
pub const J2K_MS_COC: u32 = 0xff53;

/// The marker of a QCC segment.
pub const J2K_MS_QCC: u32 = 0xff5d;

/// `buf` with its first bytes replaced by `bytes`.
pub open spec fn overwritten(buf: Seq<u8>, bytes: Seq<u8>) -> Seq<u8> {
    bytes + buf.subrange(bytes.len() as int, buf.len() as int)
}

/// `buf` grown with zero bytes to at least `n` bytes.
pub open spec fn grown(buf: Seq<u8>, n: int) -> Seq<u8> {
    if buf.len() >= n {
        buf
    } else {
        buf + Seq::new((n - buf.len()) as nat, |i: int| 0u8)
    }
}

/// Replaces the first bytes of `data` by `bytes`.
pub(crate) fn overwrite_prefix(data: &mut Vec<u8>, bytes: &Vec<u8>)
    requires
        bytes@.len() <= old(data)@.len(),
    ensures
        final(data)@ == overwritten(old(data)@, bytes@),
{
    let ghost o = data@;
    let mut i: usize = 0;
    while i < bytes.len()
        invariant
            i <= bytes@.len() <= o.len(),
            data@.len() == o.len(),
            forall|k: int| 0 <= k < i ==> #[trigger] data@[k] == bytes@[k],
            forall|k: int| i <= k < o.len() ==> #[trigger] data@[k] == o[k],
        decreases bytes@.len() - i,
    {
        data.set(i, bytes[i]);
        i = i + 1;
    }
    assert(data@ =~= overwritten(o, bytes@));
}

/// Grows `data` with zero bytes to at least `n` bytes.
pub(crate) fn grow(data: &mut Vec<u8>, n: usize)
    ensures
        final(data)@ == grown(old(data)@, n as int),
{
    let ghost o = data@;
    while data.len() < n
        invariant
            o.len() <= data@.len(),
            data@.len() <= (if o.len() >= n {
                o.len() as int
            } else {
                n as int
            }),
            forall|k: int| 0 <= k < o.len() ==> #[trigger] data@[k] == o[k],
            forall|k: int| o.len() <= k < data@.len() ==> #[trigger] data@[k] == 0u8,
        decreases n - data@.len(),
    {
        data.push(0);
    }
    assert(data@ =~= grown(o, n as int));
}

/// A component whose SPcod or SPcoc element can be measured, written and
/// compared: at most 33 resolutions, each with its precinct exponents.
pub open spec fn spcod_ready(t: opj_tccp) -> bool {
    &&& t.numresolutions <= 33
    &&& t.numresolutions <= t.prcw@.len()
    &&& t.numresolutions <= t.prch@.len()
}

/// The bytes the COC segment of component `c` takes, in an image of `n`
/// components.
pub open spec fn coc_size(tcp: opj_tcp, n: u32, c: u32) -> int {
    5 + comp_room(n as int) + spcod_size(tcp.tccps@[c as int])
}

/// What the COC segment of component `c` is built from: marker, length,
/// component number and coding style, then the SPcoc element of the first
/// component where it fits in the room that component `c`'s element would
/// take (the rest of the segment is what the buffer held).
pub open spec fn coc_bytes(tcp: opj_tcp, n: u32, c: u32) -> Seq<u8> {
    let t0 = tcp.tccps@[0];
    let t = tcp.tccps@[c as int];
    be_bytes(J2K_MS_COC as nat, 2) + be_bytes((coc_size(tcp, n, c) - 2) as nat, 2) + be_bytes(
        c as nat,
        comp_room(n as int) as nat,
    ) + seq![(t.csty % 256) as u8] + if spcod_size(t0) <= spcod_size(t) {
        spcod_bytes(t0)
    } else {
        Seq::empty()
    }
}

fn coc_segment(tcp: &opj_tcp, nb_comps: u32, comp_no: u32) -> (r: Vec<u8>)
    requires
        comp_no < tcp.tccps@.len(),
        spcod_ready(tcp.tccps@[0]),
        spcod_ready(tcp.tccps@[comp_no as int]),
    ensures
        r@ == coc_bytes(*tcp, nb_comps, comp_no),
        r@.len() <= coc_size(*tcp, nb_comps, comp_no),
{
    let t = &tcp.tccps[comp_no as usize];
    let room: u32 = if nb_comps <= 256 {
        1
    } else {
        2
    };
    let sp = opj_j2k_get_SPCod_SPCoc_size(t);
    let size = 5 + room + sp;
    let mut out: Vec<u8> = Vec::new();
    push_be(&mut out, J2K_MS_COC, 2);
    push_be(&mut out, size - 2, 2);
    push_be(&mut out, comp_no, room as usize);
    out.push((t.csty % 256) as u8);
    let ghost head = out@;
    let mut left: u32 = sp;
    let _ = opj_j2k_write_SPCod_SPCoc(&tcp.tccps[0], &mut out, &mut left);
    proof {
        lemma_be_bytes(J2K_MS_COC as nat, 2);
        lemma_be_bytes((size - 2) as nat, 2);
        lemma_be_bytes(comp_no as nat, room as nat);
    }
    assert(out@ =~= coc_bytes(*tcp, nb_comps, comp_no));
    out
}

/// Writes the COC segment of component `comp_no` of a tile, in an image of
/// `nb_comps` components, over the first bytes of `data`, and returns the
/// number of bytes the segment takes.
pub fn opj_j2k_write_coc_in_memory(tcp: &opj_tcp, nb_comps: u32, comp_no: u32, data: &mut Vec<u8>) -> (written: u32)
    requires
        comp_no < tcp.tccps@.len(),
        spcod_ready(tcp.tccps@[0]),
        spcod_ready(tcp.tccps@[comp_no as int]),
        old(data)@.len() >= coc_size(*tcp, nb_comps, comp_no),
    ensures
        written == coc_size(*tcp, nb_comps, comp_no),
        final(data)@ == overwritten(old(data)@, coc_bytes(*tcp, nb_comps, comp_no)),
{
    let seg = coc_segment(tcp, nb_comps, comp_no);
    overwrite_prefix(data, &seg);
    let room: u32 = if nb_comps <= 256 {
        1
    } else {
        2
    };
    5 + room + opj_j2k_get_SPCod_SPCoc_size(&tcp.tccps[comp_no as usize])
}

/// The header buffer once the COC segment of component `c` is built in it.
pub open spec fn coc_buffer(tcp: opj_tcp, n: u32, c: u32, buf: Seq<u8>) -> Seq<u8> {
    overwritten(grown(buf, coc_size(tcp, n, c)), coc_bytes(tcp, n, c))
}

/// Builds the COC segment of component `comp_no` in the header buffer,
/// growing it when it is too short, and returns the bytes to send: the
/// first bytes of the buffer, as many as the segment takes.
pub fn opj_j2k_write_coc(tcp: &opj_tcp, nb_comps: u32, comp_no: u32, buf: &mut Vec<u8>) -> (r: Vec<u8>)
    requires
        comp_no < tcp.tccps@.len(),
        spcod_ready(tcp.tccps@[0]),
        spcod_ready(tcp.tccps@[comp_no as int]),
    ensures
        final(buf)@ == coc_buffer(*tcp, nb_comps, comp_no, old(buf)@),
        r@ == coc_buffer(*tcp, nb_comps, comp_no, old(buf)@).subrange(
            0,
            coc_size(*tcp, nb_comps, comp_no),
        ),
{
    let room: u32 = if nb_comps <= 256 {
        1
    } else {
        2
    };
    let size = 5 + room + opj_j2k_get_SPCod_SPCoc_size(&tcp.tccps[comp_no as usize]);
    grow(buf, size as usize);
    let _ = opj_j2k_write_coc_in_memory(tcp, nb_comps, comp_no, buf);
    let mut out: Vec<u8> = Vec::new();
    let mut i: usize = 0;
    while i < size as usize
        invariant
            i <= size <= buf@.len(),
            out@ == buf@.subrange(0, i as int),
        decreases size - i,
    {
        out.push(buf[i]);
        i = i + 1;
        assert(out@ =~= buf@.subrange(0, i as int));
    }
    out
}

/// Whether components `a` and `b` of a tile share their coding style and
/// SPcoc element.
pub fn opj_j2k_compare_coc(tcp: &opj_tcp, a: u32, b: u32) -> (r: bool)
    requires
        a < tcp.tccps@.len(),
        b < tcp.tccps@.len(),
        spcod_ready(tcp.tccps@[a as int]),
        spcod_ready(tcp.tccps@[b as int]),
    ensures
        r == (tcp.tccps@[a as int].csty == tcp.tccps@[b as int].csty && spcod_same(
            tcp.tccps@[a as int],
            tcp.tccps@[b as int],
        )),
{
    if tcp.tccps[a as usize].csty != tcp.tccps[b as usize].csty {
        return false;
    }
    opj_j2k_compare_SPCod_SPCoc(&tcp.tccps[a as usize], &tcp.tccps[b as usize])
}

/// Component `c` of a tile needs a COC segment: its coding style or its
/// SPcoc element differs from the first component's.
pub open spec fn coc_needed(tcp: opj_tcp, c: int) -> bool {
    !(tcp.tccps@[0].csty == tcp.tccps@[c].csty && spcod_same(tcp.tccps@[0], tcp.tccps@[c]))
}

/// The header buffer and the bytes sent once the COC segments of
/// components `1..c` are written, where needed.
pub open spec fn all_coc(tcp: opj_tcp, n: u32, buf: Seq<u8>, c: int) -> (Seq<u8>, Seq<u8>)
    decreases c,
{
    if c <= 1 {
        (buf, Seq::empty())
    } else {
        let (b, o) = all_coc(tcp, n, buf, c - 1);
        if coc_needed(tcp, c - 1) {
            let b2 = coc_buffer(tcp, n, (c - 1) as u32, b);
            (b2, o + b2.subrange(0, coc_size(tcp, n, (c - 1) as u32)))
        } else {
            (b, o)
        }
    }
}

/// Writes a COC segment for every component but the first whose coding
/// style differs from the first one's, in order; returns the bytes to send.
pub fn opj_j2k_write_all_coc(tcp: &opj_tcp, nb_comps: u32, buf: &mut Vec<u8>) -> (r: Vec<u8>)
    requires
        nb_comps <= tcp.tccps@.len(),
        forall|i: int| 0 <= i < nb_comps ==> spcod_ready(#[trigger] tcp.tccps@[i]),
    ensures
        final(buf)@ == all_coc(*tcp, nb_comps, old(buf)@, nb_comps as int).0,
        r@ == all_coc(*tcp, nb_comps, old(buf)@, nb_comps as int).1,
{
    let ghost b0 = buf@;
    let mut out: Vec<u8> = Vec::new();
    if nb_comps == 0 {
        return out;
    }
    let mut c: u32 = 1;
    while c < nb_comps
        invariant
            1 <= c <= nb_comps <= tcp.tccps@.len(),
            forall|i: int| 0 <= i < nb_comps ==> spcod_ready(#[trigger] tcp.tccps@[i]),
            buf@ == all_coc(*tcp, nb_comps, b0, c as int).0,
            out@ == all_coc(*tcp, nb_comps, b0, c as int).1,
        decreases nb_comps - c,
    {
        assert(spcod_ready(tcp.tccps@[0]));
        assert(spcod_ready(tcp.tccps@[c as int]));
        if !opj_j2k_compare_coc(tcp, 0, c) {
            let seg = opj_j2k_write_coc(tcp, nb_comps, c, buf);
            out.append(&mut seg.clone());
        }
        c = c + 1;
    }
    out
}

/// The largest SPcoc element among the first `j` components.
pub open spec fn max_spcod_comps(tccps: Seq<opj_tccp>, j: int) -> int
    decreases j,
{
    if j <= 0 {
        0
    } else {
        let r = max_spcod_comps(tccps, j - 1);
        let m = spcod_size(tccps[j - 1]);
        if m > r {
            m
        } else {
            r
        }
    }
}

/// The largest SPcoc element among the first `nc` components of the first
/// `i` tiles.
pub open spec fn max_spcod_tiles(tcps: Seq<opj_tcp>, nc: int, i: int) -> int
    decreases i,
{
    if i <= 0 {
        0
    } else {
        let r = max_spcod_tiles(tcps, nc, i - 1);
        let m = max_spcod_comps(tcps[i - 1].tccps@, nc);
        if m > r {
            m
        } else {
            r
        }
    }
}

/// Every tile has `nb_comps` components, each with at most 33 resolutions.
pub open spec fn tiles_measurable(tcps: Seq<opj_tcp>, nb_comps: u32) -> bool {
    forall|i: int|
        0 <= i < tcps.len() ==> nb_comps <= (#[trigger] tcps[i]).tccps@.len() && forall|j: int|
            0 <= j < nb_comps ==> (#[trigger] tcps[i].tccps@[j]).numresolutions <= 33
}

/// The bytes the largest COC segment of the tiles may take: six, and the
/// largest SPcoc element of their components.
pub fn opj_j2k_get_max_coc_size(tcps: &Vec<opj_tcp>, nb_comps: u32) -> (r: u32)
    requires
        tiles_measurable(tcps@, nb_comps),
    ensures
        r == 6 + max_spcod_tiles(tcps@, nb_comps as int, tcps@.len() as int),
{
    let mut max: u32 = 0;
    let mut i: usize = 0;
    while i < tcps.len()
        invariant
            i <= tcps@.len(),
            tiles_measurable(tcps@, nb_comps),
            max == max_spcod_tiles(tcps@, nb_comps as int, i as int),
            max <= 38,
        decreases tcps@.len() - i,
    {
        let tccps = &tcps[i].tccps;
        let mut j: u32 = 0;
        let mut m: u32 = 0;
        while j < nb_comps
            invariant
                j <= nb_comps <= tccps@.len(),
                tccps@ == tcps@[i as int].tccps@,
                forall|k: int| 0 <= k < nb_comps ==> (#[trigger] tccps@[k]).numresolutions <= 33,
                m == max_spcod_comps(tccps@, j as int),
                m <= 38,
            decreases nb_comps - j,
        {
            let sz = opj_j2k_get_SPCod_SPCoc_size(&tccps[j as usize]);
            if sz > m {
                m = sz;
            }
            j = j + 1;
        }
        if m > max {
            max = m;
        }
        i = i + 1;
    }
    6 + max
}

/// The bytes the largest QCC segment of the tiles may take, counted as for
/// a COC segment.
pub fn opj_j2k_get_max_qcc_size(tcps: &Vec<opj_tcp>, nb_comps: u32) -> (r: u32)
    requires
        tiles_measurable(tcps@, nb_comps),
    ensures
        r == 6 + max_spcod_tiles(tcps@, nb_comps as int, tcps@.len() as int),
{
    opj_j2k_get_max_coc_size(tcps, nb_comps)
}

/// The largest number of tile-parts among the first `i` tiles.
pub open spec fn max_tile_parts(tcps: Seq<opj_tcp>, i: int) -> int
    decreases i,
{
    if i <= 0 {
        0
    } else {
        let r = max_tile_parts(tcps, i - 1);
        let m = tcps[i - 1].m_nb_tile_parts as int;
        if m > r {
            m
        } else {
            r
        }
    }
}

/// The bytes the TLM entries of the tile with the most tile-parts take,
/// twelve per tile-part, modulo 2^32.
pub fn opj_j2k_get_max_toc_size(tcps: &Vec<opj_tcp>) -> (r: u32)
    ensures
        r == (12 * max_tile_parts(tcps@, tcps@.len() as int)) % 0x1_0000_0000,
{
    let mut max: u32 = 0;
    let mut i: usize = 0;
    while i < tcps.len()
        invariant
            i <= tcps@.len(),
            max == max_tile_parts(tcps@, i as int),
        decreases tcps@.len() - i,
    {
        max = opj_uint_max(max, tcps[i].m_nb_tile_parts);
        i = i + 1;
    }
    12u32.wrapping_mul(max)
}

/// The room the tile headers of an encoder may need beyond their fixed
/// segments, modulo 2^32: the TLM entries, a COC and a QCC segment for every
/// component but the first outside the profiles 3 to 6, the largest POC
/// segment, and with PLT segments the room reserved for them.
pub open spec fn header_room(tcps: Seq<opj_tcp>, n: u32, rsiz: u16, plt: Option<u32>) -> u32 {
    let toc = ((12 * max_tile_parts(tcps, tcps.len() as int)) % 0x1_0000_0000) as u32;
    let coc = (6 + max_spcod_tiles(tcps, n as int, tcps.len() as int)) as u32;
    let m = n.wrapping_sub(1);
    let nb1 = if !(3 <= rsiz <= 6) {
        toc.wrapping_add(m.wrapping_mul(coc)).wrapping_add(m.wrapping_mul(coc))
    } else {
        toc
    };
    let nb2 = nb1.wrapping_add(max_poc_size(tcps) as u32);
    match plt {
        None => nb2,
        Some(count) => {
            let nb3 = nb2.wrapping_add(5u32.wrapping_mul(count));
            nb3.wrapping_add(plt_reserve(nb2, count))
        },
    }
}

/// The bytes reserved for the PLT segments of a tile-part of at most
/// `count` packets, after `nb` bytes of other headers: six per segment of
/// 16382 packets, five per packet, the other headers again, and one.
pub open spec fn plt_reserve(nb: u32, count: u32) -> u32 {
    let nb3 = nb.wrapping_add(5u32.wrapping_mul(count));
    6u32.wrapping_mul(ceil_div(count as int, 16382) as u32).wrapping_add(nb3).wrapping_add(1)
}

/// The room the tile headers of an encoder may need beyond their fixed
/// segments; `plt` is, when PLT segments are written, the largest number of
/// packets of a tile, and `reserved_plt` then becomes the room reserved for
/// them.
pub fn opj_j2k_get_specific_header_sizes(
    tcps: &Vec<opj_tcp>,
    nb_comps: u32,
    rsiz: u16,
    plt: Option<u32>,
    reserved_plt: &mut u32,
) -> (r: u32)
    requires
        tiles_measurable(tcps@, nb_comps),
        forall|i: int| 0 <= i < tcps@.len() ==> (#[trigger] tcps@[i]).numpocs < J2K_MAX_POCS,
    ensures
        r == header_room(tcps@, nb_comps, rsiz, plt),
        *final(reserved_plt) == match plt {
            None => *old(reserved_plt),
            Some(count) => plt_reserve(
                header_room(tcps@, nb_comps, rsiz, None),
                count,
            ),
        },
{
    let mut nb: u32 = opj_j2k_get_max_toc_size(tcps);
    let m = nb_comps.wrapping_sub(1);
    if !(3 <= rsiz && rsiz <= 6) {
        let coc = opj_j2k_get_max_coc_size(tcps, nb_comps);
        nb = nb.wrapping_add(m.wrapping_mul(coc));
        let qcc = opj_j2k_get_max_qcc_size(tcps, nb_comps);
        nb = nb.wrapping_add(m.wrapping_mul(qcc));
    }
    nb = nb.wrapping_add(opj_j2k_get_max_poc_size(tcps));
    if let Some(count) = plt {
        let mut reserved: u32 = 6u32.wrapping_mul(opj_uint_ceildiv(count, 16382));
        nb = nb.wrapping_add(5u32.wrapping_mul(count));
        reserved = reserved.wrapping_add(nb);
        reserved = reserved.wrapping_add(1);
        *reserved_plt = reserved;
        nb = nb.wrapping_add(reserved);
    }
    nb
}

/// The RGN segments of the first `c` components of a tile that have a
/// region of interest, in order, in an image of `n` components.
pub open spec fn regions_bytes(tcp: opj_tcp, n: u32, c: int) -> Seq<u8>
    decreases c,
{
    if c <= 0 {
        Seq::empty()
    } else {
        let t = tcp.tccps@[c - 1];
        regions_bytes(tcp, n, c - 1) + if t.roishift != 0 {
            rgn_segment((c - 1) as u32, t.roishift, n)
        } else {
            Seq::empty()
        }
    }
}

/// Writes the RGN segment of every component of the first tile whose
/// region of interest shift is not zero, in an image of `nb_comps`
/// components.
pub fn opj_j2k_write_regions(tcp: &opj_tcp, nb_comps: u32) -> (r: Vec<u8>)
    requires
        nb_comps <= tcp.tccps@.len(),
    ensures
        r@ == regions_bytes(*tcp, nb_comps, nb_comps as int),
{
    let mut out: Vec<u8> = Vec::new();
    let mut c: u32 = 0;
    while c < nb_comps
        invariant
            c <= nb_comps <= tcp.tccps@.len(),
            out@ == regions_bytes(*tcp, nb_comps, c as int),
        decreases nb_comps - c,
    {
        if tcp.tccps[c as usize].roishift != 0 {
            let seg = opj_j2k_write_rgn(tcp, c, nb_comps);
            out.append(&mut seg.clone());
        }
        c = c + 1;
        assert(out@ =~= regions_bytes(*tcp, nb_comps, c as int));
    }
    out
}

/// The bytes the QCC segment of component `c` takes, in an image of `n`
/// components.
pub open spec fn qcc_size(tcp: opj_tcp, n: u32, c: u32) -> int {
    4 + comp_room(n as int) + sqcd_size(tcp.tccps@[c as int])
}

/// The QCC segment of component `c`: marker, length, component number and
/// the component's quantization element.
pub open spec fn qcc_bytes(tcp: opj_tcp, n: u32, c: u32) -> Seq<u8> {
    be_bytes(J2K_MS_QCC as nat, 2) + be_bytes((qcc_size(tcp, n, c) - 2) as nat, 2) + be_bytes(
        c as nat,
        comp_room(n as int) as nat,
    ) + sqcd_bytes(tcp.tccps@[c as int])
}

fn qcc_segment(tcp: &opj_tcp, nb_comps: u32, comp_no: u32) -> (r: Vec<u8>)
    requires
        comp_no < tcp.tccps@.len(),
        sqcd_writable(tcp.tccps@[comp_no as int]),
    ensures
        r@ == qcc_bytes(*tcp, nb_comps, comp_no),
        r@.len() == qcc_size(*tcp, nb_comps, comp_no),
{
    let t = &tcp.tccps[comp_no as usize];
    let room: u32 = if nb_comps <= 256 {
        1
    } else {
        2
    };
    let sq = opj_j2k_get_SQcd_SQcc_size(t);
    let size = 4 + room + sq;
    let mut out: Vec<u8> = Vec::new();
    push_be(&mut out, J2K_MS_QCC, 2);
    push_be(&mut out, size - 2, 2);
    push_be(&mut out, comp_no, room as usize);
    let mut left: u32 = sq;
    let ok = opj_j2k_write_SQcd_SQcc(t, &mut out, &mut left);
    assert(ok);
    proof {
        lemma_be_bytes(J2K_MS_QCC as nat, 2);
        lemma_be_bytes((size - 2) as nat, 2);
        lemma_be_bytes(comp_no as nat, room as nat);
    }
    assert(out@ =~= qcc_bytes(*tcp, nb_comps, comp_no));
    out
}

/// Writes the QCC segment of component `comp_no` of a tile, in an image of
/// `nb_comps` components, over the first bytes of `data`, and returns the
/// number of bytes it took.
pub fn opj_j2k_write_qcc_in_memory(tcp: &opj_tcp, nb_comps: u32, comp_no: u32, data: &mut Vec<u8>) -> (written: u32)
    requires
        comp_no < tcp.tccps@.len(),
        sqcd_writable(tcp.tccps@[comp_no as int]),
        old(data)@.len() >= qcc_size(*tcp, nb_comps, comp_no),
    ensures
        written == qcc_size(*tcp, nb_comps, comp_no),
        final(data)@ == overwritten(old(data)@, qcc_bytes(*tcp, nb_comps, comp_no)),
{
    let seg = qcc_segment(tcp, nb_comps, comp_no);
    overwrite_prefix(data, &seg);
    seg.len() as u32
}

/// The header buffer once the QCC segment of component `c` is built in it.
pub open spec fn qcc_buffer(tcp: opj_tcp, n: u32, c: u32, buf: Seq<u8>) -> Seq<u8> {
    overwritten(grown(buf, qcc_size(tcp, n, c)), qcc_bytes(tcp, n, c))
}

/// Builds the QCC segment of component `comp_no` in the header buffer,
/// growing it when it is too short, and returns the bytes to send: the
/// segment.
pub fn opj_j2k_write_qcc(tcp: &opj_tcp, nb_comps: u32, comp_no: u32, buf: &mut Vec<u8>) -> (r: Vec<u8>)
    requires
        comp_no < tcp.tccps@.len(),
        sqcd_writable(tcp.tccps@[comp_no as int]),
    ensures
        final(buf)@ == qcc_buffer(*tcp, nb_comps, comp_no, old(buf)@),
        r@ == qcc_bytes(*tcp, nb_comps, comp_no),
{
    let seg = qcc_segment(tcp, nb_comps, comp_no);
    grow(buf, seg.len());
    overwrite_prefix(buf, &seg);
    seg
}

/// Whether components `a` and `b` of a tile share their QCC segment body.
pub fn opj_j2k_compare_qcc(tcp: &opj_tcp, a: u32, b: u32) -> (r: bool)
    requires
        a < tcp.tccps@.len(),
        b < tcp.tccps@.len(),
        sqcd_writable(tcp.tccps@[a as int]),
        sqcd_writable(tcp.tccps@[b as int]),
    ensures
        r == sqcd_same(tcp.tccps@[a as int], tcp.tccps@[b as int]),
{
    opj_j2k_compare_SQcd_SQcc(&tcp.tccps[a as usize], &tcp.tccps[b as usize])
}

/// The header buffer and the bytes sent once the QCC segments of
/// components `1..c` are written, each only where its quantization differs
/// from the first component's.
pub open spec fn all_qcc(tcp: opj_tcp, n: u32, buf: Seq<u8>, c: int) -> (Seq<u8>, Seq<u8>)
    decreases c,
{
    if c <= 1 {
        (buf, Seq::empty())
    } else {
        let (b, o) = all_qcc(tcp, n, buf, c - 1);
        if sqcd_same(tcp.tccps@[0], tcp.tccps@[c - 1]) {
            (b, o)
        } else {
            (qcc_buffer(tcp, n, (c - 1) as u32, b), o + qcc_bytes(tcp, n, (c - 1) as u32))
        }
    }
}

/// Writes a QCC segment for every component but the first whose
/// quantization differs from the first one's, in order; returns the bytes
/// to send.
pub fn opj_j2k_write_all_qcc(tcp: &opj_tcp, nb_comps: u32, buf: &mut Vec<u8>) -> (r: Vec<u8>)
    requires
        nb_comps <= tcp.tccps@.len(),
        forall|i: int| 0 <= i < nb_comps ==> sqcd_writable(#[trigger] tcp.tccps@[i]),
    ensures
        final(buf)@ == all_qcc(*tcp, nb_comps, old(buf)@, nb_comps as int).0,
        r@ == all_qcc(*tcp, nb_comps, old(buf)@, nb_comps as int).1,
{
    let ghost b0 = buf@;
    let mut out: Vec<u8> = Vec::new();
    if nb_comps == 0 {
        return out;
    }
    let mut c: u32 = 1;
    while c < nb_comps
        invariant
            1 <= c <= nb_comps <= tcp.tccps@.len(),
            forall|i: int| 0 <= i < nb_comps ==> sqcd_writable(#[trigger] tcp.tccps@[i]),
            buf@ == all_qcc(*tcp, nb_comps, b0, c as int).0,
            out@ == all_qcc(*tcp, nb_comps, b0, c as int).1,
        decreases nb_comps - c,
    {
        assert(sqcd_writable(tcp.tccps@[0]));
        assert(sqcd_writable(tcp.tccps@[c as int]));
        if !opj_j2k_compare_qcc(tcp, 0, c) {
            let seg = opj_j2k_write_qcc(tcp, nb_comps, c, buf);
            out.append(&mut seg.clone());
        }
        c = c + 1;
    }
    out
}

/// The SQcd or SQcc element `d` reads the same after any bytes.
proof fn lemma_sqcd_shift(pre: Seq<u8>, d: Seq<u8>, old: Seq<opj_stepsize>, size: int)
    requires
        size == d.len(),
        sqcd_ok(d, 0, size),
    ensures
        sqcd_qntsty(pre + d, pre.len() as int) == sqcd_qntsty(d, 0),
        sqcd_numgbits(pre + d, pre.len() as int) == sqcd_numgbits(d, 0),
        sqcd_ok(pre + d, pre.len() as int, size),
        sqcd_len(pre + d, pre.len() as int, size) == sqcd_len(d, 0, size),
        forall|k: int|
            0 <= k < sqcd_bands(sqcd_qntsty(d, 0), size - 1) && k < OPJ_J2K_MAXBANDS
                ==> #[trigger] sqcd_steps(old, pre + d, pre.len() as int, size)[k] == sqcd_steps(
                old,
                d,
                0,
                size,
            )[k],
{
    let e = pre + d;
    let p = pre.len() as int;
    let q = sqcd_qntsty(d, 0);
    assert(e[p] == d[0]);
    assert forall|k: int|
        0 <= k < sqcd_bands(q, size - 1) implies sqcd_parsed(e, p, q, k) == sqcd_parsed(d, 0, q, k) by {
        if q == 0 {
            assert(1 + k < size);
            assert(e[p + 1 + k] == d[1 + k]);
        } else {
            assert(2 + 2 * k < size);
            assert(e[p + 1 + 2 * k] == d[1 + 2 * k]);
            assert(e[p + 2 + 2 * k] == d[2 + 2 * k]);
        }
    }
    assert forall|k: int|
        0 <= k < sqcd_bands(q, size - 1) && k < OPJ_J2K_MAXBANDS implies #[trigger] sqcd_steps(
        old,
        e,
        p,
        size,
    )[k] == sqcd_steps(old, d, 0, size)[k] by {
        assert(sqcd_parsed(e, p, q, k) == sqcd_parsed(d, 0, q, k));
    }
}

/// Reading back the body of the QCC segment written for a component of an
/// image of as many components as the tile has is accepted and gives that
/// component the quantization style, guard bits and step sizes it has.
pub proof fn lemma_qcc_roundtrip(tcp: opj_tcp, comp_no: u32, old: Seq<opj_stepsize>)
    requires
        comp_no < tcp.tccps@.len() <= 65536,
        sqcd_valid(tcp.tccps@[comp_no as int]),
    ensures
        ({
            let n = tcp.tccps@.len() as u32;
            let t = tcp.tccps@[comp_no as int];
            let seg = qcc_bytes(tcp, n, comp_no);
            let body = seg.subrange(4, seg.len() as int);
            let room = comp_room(n as int);
            &&& qcc_error(n as int, body, body.len() as int) is None
            &&& seg_compno(body, room) == comp_no
            &&& sqcd_qntsty(body, room) == t.qntsty
            &&& sqcd_numgbits(body, room) == t.numgbits
            &&& forall|k: int|
                0 <= k < sqcd_nbands(t) ==> #[trigger] sqcd_steps(old, body, room, body.len() - room)[k]
                    == t.stepsizes@[k]
        }),
{
    let n = tcp.tccps@.len() as u32;
    let t = tcp.tccps@[comp_no as int];
    let room = comp_room(n as int);
    lemma_sqcd_roundtrip(t, old);
    reveal_with_fuel(be_bytes, 3);
    lemma_be_bytes(J2K_MS_QCC as nat, 2);
    lemma_be_bytes((qcc_size(tcp, n, comp_no) - 2) as nat, 2);
    lemma_be_bytes(comp_no as nat, room as nat);
    let seg = qcc_bytes(tcp, n, comp_no);
    let body = seg.subrange(4, seg.len() as int);
    assert(body =~= be_bytes(comp_no as nat, room as nat) + sqcd_bytes(t));
    if room == 1 {
        assert(comp_no < 256);
    } else {
        assert(comp_no < 65536);
    }
    lemma_sqcd_shift(be_bytes(comp_no as nat, room as nat), sqcd_bytes(t), old, sqcd_size(t));
    assert(body.len() - room == sqcd_size(t));
}

} // verus!
