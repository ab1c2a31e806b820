//! Marker segments that the encoder writes around the coding parameters:
//! the start and end of the codestream, the comment, the tile-part lengths
//! and the start of each tile part.
use vstd::prelude::*;

use crate::cio::{be_bytes, be_value, lemma_be_bytes, lemma_pow256_small, push_be};
use crate::tile::{sot_isot, sot_tnsot, sot_tpsot};
use crate::header::plt_pending;

verus! {

/// The marker that starts a codestream.
pub const J2K_MS_SOC: u32 = 0xff4f;

/// The marker that ends a codestream.
pub const J2K_MS_EOC: u32 = 0xffd9;

/// The marker of a comment segment.
pub const J2K_MS_COM: u32 = 0xff64;

/// The marker of a tile-part length segment.
pub const J2K_MS_TLM: u32 = 0xff55;

/// The marker that starts a tile part.
pub const J2K_MS_SOT: u32 = 0xff90;

/// The most tile parts a TLM segment is written for.
pub const TLM_MAX_TILE_PARTS: u32 = 10921;

/// Writes the marker that starts a codestream.
pub fn opj_j2k_write_soc() -> (r: Vec<u8>)
    ensures
        r@ == be_bytes(J2K_MS_SOC as nat, 2),
{
    let mut out: Vec<u8> = Vec::new();
    push_be(&mut out, J2K_MS_SOC, 2);
    out
}

/// Writes the marker that ends a codestream.
pub fn opj_j2k_write_eoc() -> (r: Vec<u8>)
    ensures
        r@ == be_bytes(J2K_MS_EOC as nat, 2),
{
    let mut out: Vec<u8> = Vec::new();
    push_be(&mut out, J2K_MS_EOC, 2);
    out
}

/// The comment segment of a comment: marker, length, registration 1 (text
/// in Latin-1) and the bytes of the comment.
pub open spec fn com_segment(comment: Seq<u8>) -> Seq<u8> {
    be_bytes(J2K_MS_COM as nat, 2) + be_bytes((comment.len() + 4) as nat, 2) + be_bytes(1, 2) + comment
}

/// Writes the comment segment of a comment.
pub fn opj_j2k_write_com(comment: &[u8]) -> (r: Vec<u8>)
    requires
        comment@.len() + 6 <= 0xffff_ffff,
    ensures
        r@ == com_segment(comment@),
{
    let total: u32 = comment.len() as u32 + 6;
    let mut out: Vec<u8> = Vec::new();
    push_be(&mut out, J2K_MS_COM, 2);
    push_be(&mut out, total - 2, 2);
    push_be(&mut out, 1, 2);
    let ghost head = out@;
    let mut i: usize = 0;
    while i < comment.len()
        invariant
            i <= comment@.len(),
            out@ == head + comment@.subrange(0, i as int),
        decreases comment@.len() - i,
    {
        out.push(comment[i]);
        i = i + 1;
        assert(out@ =~= head + comment@.subrange(0, i as int));
    }
    assert(comment@.subrange(0, comment@.len() as int) =~= comment@);
    out
}

/// The bytes a TLM entry takes: a one-byte tile number and a 4-byte length
/// for up to 255 tile parts, else a two-byte tile number.
pub open spec fn tlm_entry_len(total_tile_parts: u32) -> int {
    if total_tile_parts <= 255 {
        5
    } else {
        6
    }
}

/// The TLM segment written before the tile parts: marker, length, index 0,
/// the sizes of its fields, and room for one entry per tile part, zero until
/// the entries are known.
pub open spec fn tlm_segment(total_tile_parts: u32) -> Seq<u8> {
    let size = tlm_entry_len(total_tile_parts);
    be_bytes(J2K_MS_TLM as nat, 2) + be_bytes((4 + size * total_tile_parts) as nat, 2) + seq![
        0u8,
        if size == 5 {
            0x50u8
        } else {
            0x60u8
        },
    ] + Seq::new((size * total_tile_parts) as nat, |i: int| 0u8)
}

/// Writes the TLM segment for `total_tile_parts` tile parts, with room for
/// their entries, and tells whether tile numbers take one byte; more than
/// 10921 tile parts are refused.
pub fn opj_j2k_write_tlm(total_tile_parts: u32) -> (r: Option<(Vec<u8>, bool)>)
    ensures
        total_tile_parts > TLM_MAX_TILE_PARTS ==> r is None,
        total_tile_parts <= TLM_MAX_TILE_PARTS ==> (r matches Some((seg, is_byte)) && seg@ == tlm_segment(
            total_tile_parts,
        ) && is_byte == (total_tile_parts <= 255)),
{
    if total_tile_parts > TLM_MAX_TILE_PARTS {
        return None;
    }
    let is_byte = total_tile_parts <= 255;
    let size: u32 = if is_byte {
        5
    } else {
        6
    };
    let n: u32 = size * total_tile_parts;
    let mut out: Vec<u8> = Vec::new();
    push_be(&mut out, J2K_MS_TLM, 2);
    push_be(&mut out, 4 + n, 2);
    out.push(0);
    out.push(if is_byte {
        0x50
    } else {
        0x60
    });
    let ghost head = out@;
    let mut i: u32 = 0;
    while i < n
        invariant
            i <= n,
            out@ == head + Seq::new(i as nat, |k: int| 0u8),
        decreases n - i,
    {
        out.push(0);
        i = i + 1;
        assert(out@ =~= head + Seq::new(i as nat, |k: int| 0u8));
    }
    Some((out, is_byte))
}

/// The TLM entry of a tile part: its tile number in one or two bytes, then
/// its length in four.
pub open spec fn tlm_entry(is_byte: bool, tile_no: u32, tile_part_size: u32) -> Seq<u8> {
    be_bytes(
        tile_no as nat,
        if is_byte {
            1
        } else {
            2
        },
    ) + be_bytes(tile_part_size as nat, 4)
}

/// Adds the TLM entry of a tile part to those written so far.
pub fn opj_j2k_update_tlm(entries: &mut Vec<u8>, is_byte: bool, tile_no: u32, tile_part_size: u32)
    ensures
        final(entries)@ == old(entries)@ + tlm_entry(is_byte, tile_no, tile_part_size),
{
    let ghost start = entries@;
    if is_byte {
        push_be(entries, tile_no, 1);
    } else {
        push_be(entries, tile_no, 2);
    }
    push_be(entries, tile_part_size, 4);
    assert(entries@ =~= start + tlm_entry(is_byte, tile_no, tile_part_size));
}

/// Writes the start of a tile part at the beginning of `data`, where
/// `total_data_size` bytes are free: the marker, the length 10 of the
/// segment, the tile number, and after the four bytes of the tile part's
/// length (left as they are, for the caller to fill) its number and the
/// number of tile parts of the tile. It fails, writing nothing, with fewer
/// than 12 bytes free.
pub fn opj_j2k_write_sot(
    data: &mut Vec<u8>,
    total_data_size: u32,
    tile_no: u32,
    tile_part_no: u32,
    nb_tile_parts: u32,
) -> (r: bool)
    requires
        total_data_size <= old(data)@.len(),
    ensures
        r == (total_data_size >= 12),
        !r ==> final(data)@ == old(data)@,
        r ==> {
            let d = final(data)@;
            &&& d.len() == old(data)@.len()
            &&& d.subrange(0, 6) == be_bytes(J2K_MS_SOT as nat, 2) + be_bytes(10, 2) + be_bytes(
                tile_no as nat,
                2,
            )
            &&& d.subrange(6, 10) == old(data)@.subrange(6, 10)
            &&& d[10] == (tile_part_no % 256) as u8
            &&& d[11] == (nb_tile_parts % 256) as u8
            &&& d.subrange(12, d.len() as int) == old(data)@.subrange(12, d.len() as int)
        },
{
    if total_data_size < 12 {
        return false;
    }
    let mut head: Vec<u8> = Vec::new();
    push_be(&mut head, J2K_MS_SOT, 2);
    push_be(&mut head, 10, 2);
    push_be(&mut head, tile_no, 2);
    proof {
        lemma_be_bytes(J2K_MS_SOT as nat, 2);
        lemma_be_bytes(10, 2);
        lemma_be_bytes(tile_no as nat, 2);
    }
    let ghost old_data = data@;
    let mut i: usize = 0;
    while i < 6
        invariant
            i <= 6,
            head@.len() == 6,
            data@.len() == old_data.len(),
            old_data.len() >= 12,
            forall|k: int| 0 <= k < i ==> #[trigger] data@[k] == head@[k],
            forall|k: int| i <= k < old_data.len() ==> #[trigger] data@[k] == old_data[k],
        decreases 6 - i,
    {
        data.set(i, head[i]);
        i = i + 1;
    }
    data.set(10, (tile_part_no % 256) as u8);
    data.set(11, (nb_tile_parts % 256) as u8);
    assert(data@.subrange(0, 6) =~= head@);
    assert(data@.subrange(6, 10) =~= old_data.subrange(6, 10));
    assert(data@.subrange(12, data@.len() as int) =~= old_data.subrange(12, data@.len() as int));
    true
}

/// The marker of a packet length segment.
pub const J2K_MS_PLT: u32 = 0xff58;

/// The 7-bit groups of `v`, most significant first, each with its top bit
/// set but the last one (when `last`).
pub open spec fn plt_groups(v: nat, last: bool) -> Seq<u8>
    decreases v,
{
    let b = ((v % 128) + if last {
        0int
    } else {
        128int
    }) as u8;
    if v < 128 {
        seq![b]
    } else {
        plt_groups(v / 128, false).push(b)
    }
}

/// The length of a packet as a PLT segment writes it.
pub open spec fn plt_varlen(v: u32) -> Seq<u8> {
    plt_groups(v as nat, true)
}

/// `128^k`.
pub open spec fn pow128(k: nat) -> nat
    decreases k,
{
    if k == 0 {
        1
    } else {
        128 * pow128((k - 1) as nat)
    }
}

proof fn lemma_groups_len(v: nat, last: bool, k: nat)
    requires
        k >= 1,
        v < pow128(k),
    ensures
        1 <= plt_groups(v, last).len() <= k,
    decreases k,
{
    if v >= 128 {
        assert(k >= 2) by {
            if k == 1 {
                assert(pow128(1) == 128 * pow128(0));
            }
        }
        assert(v / 128 < pow128((k - 1) as nat)) by (nonlinear_arith)
            requires
                v < 128 * pow128((k - 1) as nat),
        ;
        lemma_groups_len(v / 128, false, (k - 1) as nat);
    }
}

proof fn lemma_varlen_len(v: u32)
    ensures
        1 <= plt_varlen(v).len() <= 5,
{
    reveal_with_fuel(pow128, 6);
    assert(pow128(5) == 34359738368);
    lemma_groups_len(v as nat, true, 5);
}

fn plt_groups_exec(v: u32, last: bool) -> (r: Vec<u8>)
    ensures
        r@ == plt_groups(v as nat, last),
    decreases v,
{
    let b: u8 = ((v % 128) + if last {
        0
    } else {
        128
    }) as u8;
    if v < 128 {
        let mut r: Vec<u8> = Vec::new();
        r.push(b);
        r
    } else {
        let mut r = plt_groups_exec(v / 128, false);
        r.push(b);
        r
    }
}

/// The head of PLT segment `z` whose length field is `len`.
pub open spec fn plt_head(z: nat, len: nat) -> Seq<u8> {
    be_bytes(J2K_MS_PLT as nat, 2) + be_bytes(len, 2) + seq![z as u8]
}

/// After the first `i` packets: the finished PLT segments, the packet
/// lengths of the one being filled and its index; `None` once a 257th
/// segment would be needed. A segment holds as many lengths as fit in its
/// 65535 bytes.
pub open spec fn plt_state(sizes: Seq<u32>, i: int) -> Option<(Seq<u8>, Seq<u8>, nat)>
    decreases i,
{
    if i <= 0 {
        Some((Seq::empty(), Seq::empty(), 0nat))
    } else {
        match plt_state(sizes, i - 1) {
            None => None,
            Some((done, cur, z)) => {
                let vb = plt_varlen(sizes[i - 1]);
                if 3 + cur.len() + vb.len() > 65535 {
                    if z == 255 {
                        None
                    } else {
                        Some((done + plt_head(z, 3 + cur.len()) + cur, vb, z + 1))
                    }
                } else {
                    Some((done, cur + vb, z))
                }
            },
        }
    }
}

/// The PLT segments of a tile part whose packets have the given lengths,
/// or `None` when they would need more than 256 segments.
pub open spec fn plt_bytes(sizes: Seq<u32>) -> Option<Seq<u8>> {
    match plt_state(sizes, sizes.len() as int) {
        None => None,
        Some((done, cur, z)) => Some(done + plt_head(z, 3 + cur.len()) + cur),
    }
}

fn push_plt_head(out: &mut Vec<u8>, z: u8, len: usize)
    requires
        len <= 65535,
    ensures
        final(out)@ == old(out)@ + plt_head(z as nat, len as nat),
{
    push_be(out, J2K_MS_PLT, 2);
    push_be(out, len as u32, 2);
    out.push(z);
    proof {
        lemma_be_bytes(len as nat, 2);
    }
    assert(final(out)@ =~= old(out)@ + plt_head(z as nat, len as nat));
}

/// Writes the PLT segments of a tile part: the length of each of its
/// packets, in as many segments as needed. Fails when more than 256 would
/// be.
pub fn opj_j2k_write_plt_in_memory(packet_sizes: &[u32]) -> (r: Option<Vec<u8>>)
    ensures
        match plt_bytes(packet_sizes@) {
            None => r is None,
            Some(b) => r matches Some(v) && v@ == b,
        },
{
    let mut done: Vec<u8> = Vec::new();
    let mut cur: Vec<u8> = Vec::new();
    let mut z: u8 = 0;
    let mut i: usize = 0;
    while i < packet_sizes.len()
        invariant
            i <= packet_sizes@.len(),
            plt_state(packet_sizes@, i as int) == Some((done@, cur@, z as nat)),
            3 + cur@.len() <= 65535,
        decreases packet_sizes@.len() - i,
    {
        let vb = plt_groups_exec(packet_sizes[i], true);
        proof {
            lemma_varlen_len(packet_sizes@[i as int]);
        }
        if 3 + cur.len() + vb.len() > 65535 {
            if z == 255 {
                assert(plt_state(packet_sizes@, i + 1) is None);
                let mut k: usize = i + 1;
                while k < packet_sizes.len()
                    invariant
                        i < k <= packet_sizes@.len(),
                        plt_state(packet_sizes@, k as int) is None,
                    decreases packet_sizes@.len() - k,
                {
                    k = k + 1;
                }
                return None;
            }
            push_plt_head(&mut done, z, 3 + cur.len());
            done.append(&mut cur);
            cur = vb;
            z = z + 1;
        } else {
            let mut w = vb;
            cur.append(&mut w);
        }
        i = i + 1;
    }
    let mut out = done;
    push_plt_head(&mut out, z, 3 + cur.len());
    out.append(&mut cur);
    Some(out)
}

proof fn lemma_pending_after_varlen(s: Seq<u8>, v: u32)
    ensures
        plt_pending(s + plt_varlen(v)) == 0,
{
    let vb = plt_varlen(v);
    lemma_varlen_len(v);
    let b = vb.last();
    assert(b == (v % 128) as u8);
    assert((s + vb).last() == b);
    assert((b as u32) & 0x80 == 0) by (bit_vector)
        requires
            b < 128,
    ;
}

/// Every PLT segment that the writer fills holds whole packet lengths:
/// reading the lengths gathered in it leaves none unfinished.
pub proof fn lemma_plt_segments_complete(sizes: Seq<u32>, i: int)
    requires
        0 <= i <= sizes.len(),
        plt_state(sizes, i) is Some,
    ensures
        plt_pending(plt_state(sizes, i).unwrap().1) == 0,
    decreases i,
{
    if i > 0 {
        let (done, cur, z) = plt_state(sizes, i - 1).unwrap();
        let vb = plt_varlen(sizes[i - 1]);
        if 3 + cur.len() + vb.len() > 65535 {
            lemma_pending_after_varlen(Seq::empty(), sizes[i - 1]);
            assert(Seq::<u8>::empty() + vb =~= vb);
        } else {
            lemma_pending_after_varlen(cur, sizes[i - 1]);
        }
    }
}

/// When the packet lengths of a tile part fit in one PLT segment, the
/// segment the writer produces is read back as well formed.
pub proof fn lemma_plt_single_segment_read(sizes: Seq<u32>)
    requires
        plt_bytes(sizes) is Some,
        plt_state(sizes, sizes.len() as int).unwrap().0.len() == 0,
    ensures
        ({
            let b = plt_bytes(sizes).unwrap();
            let body = b.subrange(4, b.len() as int);
            &&& b.subrange(0, 2) == seq![0xffu8, 0x58]
            &&& body.len() >= 1
            &&& plt_pending(body.subrange(1, body.len() as int)) == 0
        }),
{
    let n = sizes.len() as int;
    let (done, cur, z) = plt_state(sizes, n).unwrap();
    lemma_plt_segments_complete(sizes, n);
    let b = plt_bytes(sizes).unwrap();
    reveal_with_fuel(be_bytes, 3);
    lemma_be_bytes(J2K_MS_PLT as nat, 2);
    lemma_be_bytes((3 + cur.len()) as nat, 2);
    assert(b =~= plt_head(z, (3 + cur.len()) as nat) + cur);
    assert(b.subrange(0, 2) =~= seq![0xffu8, 0x58]);
    let body = b.subrange(4, b.len() as int);
    assert(body.subrange(1, body.len() as int) =~= cur);
}

/// The entries of the TLM segment once every tile-part length is known, and
/// where in the stream they go: past the marker, length and the two index
/// bytes of the segment, which starts at `tlm_start`. Each entry takes five
/// bytes with one-byte tile numbers, else six.
pub fn opj_j2k_write_updated_tlm(entries: &Vec<u8>, is_byte: bool, total_tile_parts: u32, tlm_start: i64) -> (r: (
    i64,
    Vec<u8>,
))
    requires
        (if is_byte {
            5u32
        } else {
            6u32
        }).wrapping_mul(total_tile_parts) <= entries@.len(),
        tlm_start <= i64::MAX - 6,
    ensures
        r.0 == tlm_start + 6,
        r.1@ == entries@.subrange(
            0,
            (if is_byte {
                5u32
            } else {
                6u32
            }).wrapping_mul(total_tile_parts) as int,
        ),
{
    let per: u32 = if is_byte {
        5
    } else {
        6
    };
    let size = per.wrapping_mul(total_tile_parts) as usize;
    let mut out: Vec<u8> = Vec::new();
    let mut i: usize = 0;
    while i < size
        invariant
            i <= size <= entries@.len(),
            out@ == entries@.subrange(0, i as int),
        decreases size - i,
    {
        out.push(entries[i]);
        i = i + 1;
        assert(out@ =~= entries@.subrange(0, i as int));
    }
    (tlm_start + 6, out)
}

/// The head of a tile-part that `opj_j2k_write_sot` wrote reads back as a
/// SOT marker with a 10-byte segment giving the tile number, the tile-part
/// index and the number of tile-parts written, when each fits its field.
pub proof fn lemma_sot_roundtrip(d: Seq<u8>, tile_no: u32, tile_part_no: u32, nb_tile_parts: u32)
    requires
        d.len() >= 12,
        d.subrange(0, 6) == be_bytes(J2K_MS_SOT as nat, 2) + be_bytes(10, 2) + be_bytes(
            tile_no as nat,
            2,
        ),
        d[10] == (tile_part_no % 256) as u8,
        d[11] == (nb_tile_parts % 256) as u8,
        tile_no < 65536,
        tile_part_no < 256,
        nb_tile_parts < 256,
    ensures
        be_value(d.subrange(0, 2)) == J2K_MS_SOT,
        be_value(d.subrange(2, 4)) == 10,
        sot_isot(d.subrange(4, 12)) == tile_no,
        sot_tpsot(d.subrange(4, 12)) == tile_part_no,
        sot_tnsot(d.subrange(4, 12)) == nb_tile_parts,
{
    lemma_pow256_small();
    lemma_be_bytes(J2K_MS_SOT as nat, 2);
    lemma_be_bytes(10, 2);
    lemma_be_bytes(tile_no as nat, 2);
    let a = be_bytes(J2K_MS_SOT as nat, 2);
    let b = be_bytes(10, 2);
    let c = be_bytes(tile_no as nat, 2);
    let h = d.subrange(0, 6);
    assert(h == a + b + c);
    assert(d.subrange(0, 2) =~= a) by {
        assert(d[0] == h[0] && d[1] == h[1]);
    }
    assert(d.subrange(2, 4) =~= b) by {
        assert(d[2] == h[2] && d[3] == h[3]);
        assert(h[2] == (a + b + c)[2] && h[3] == (a + b + c)[3]);
    }
    let x = d.subrange(4, 12);
    assert(x.subrange(0, 2) =~= c) by {
        assert(x[0] == h[4] && x[1] == h[5]);
        assert(h[4] == (a + b + c)[4] && h[5] == (a + b + c)[5]);
    }
    assert(x[6] == d[10] && x[7] == d[11]);
}

} // verus!
