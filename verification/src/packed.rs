//! Packed packet headers: the PPM segments of the main header and the PPT
//! segments of a tile-part header, kept by their index and then merged
//! into one buffer of packet headers.
use vstd::prelude::*;

use crate::cio::be_value;

verus! {

/// The packed packet headers of the main header or of a tile: whether any
/// segment was met, the data of each segment by its index, and once merged
/// the packet headers in one buffer.
pub struct PackedHeaders {
    pub present: bool,
    pub markers: Vec<Option<Vec<u8>>>,
    pub buffer: Option<Vec<u8>>,
}

/// Why a PPM or PPT segment, or their merge, was refused.
#[derive(Clone, Copy, Debug, PartialEq, Eq, Structural)]
pub enum PackedError {
    /// The segment has no data after its index.
    TooShort,
    /// A PPT segment in a codestream whose main header has packed headers.
    AlreadyInMainHeader,
    /// A second segment with the same index.
    Duplicate,
    /// No bytes to keep: the segment carries its index alone, or the merge
    /// would give an empty buffer.
    Empty,
    /// The lengths of the packet headers do not match the data.
    Corrupted,
    /// The segments of the tile were merged before.
    AlreadyMerged,
}

/// The data of each segment, by its index.
pub open spec fn markers_view(m: Seq<Option<Vec<u8>>>) -> Seq<Option<Seq<u8>>> {
    Seq::new(
        m.len(),
        |i: int|
            match m[i] {
                Some(v) => Some(v@),
                None => None,
            },
    )
}

/// The segments by index, grown with empty slots up to index `z`.
pub open spec fn grown(m: Seq<Option<Seq<u8>>>, z: int) -> Seq<Option<Seq<u8>>> {
    if m.len() <= z {
        m + Seq::new((z + 1 - m.len()) as nat, |i: int| None)
    } else {
        m
    }
}

/// How a PPM or PPT segment of `size` bytes is refused, after the slots are
/// grown to its index.
pub open spec fn ppx_error(m: Seq<Option<Seq<u8>>>, d: Seq<u8>, size: int) -> Option<PackedError> {
    let z = d[0] as int;
    if grown(m, z)[z] is Some {
        Some(PackedError::Duplicate)
    } else if size == 1 {
        Some(PackedError::Empty)
    } else {
        None
    }
}

/// Keeps the data of a segment of `size` bytes at the slot its first byte
/// names.
fn read_ppx(ph: &mut PackedHeaders, data: &[u8], size: u32) -> (r: Result<(), PackedError>)
    requires
        2 <= size <= data@.len(),
    ensures
        final(ph).present,
        final(ph).buffer == old(ph).buffer,
        match ppx_error(markers_view(old(ph).markers@), data@, size as int) {
            Some(e) => r == Err::<(), PackedError>(e) && markers_view(final(ph).markers@) == grown(
                markers_view(old(ph).markers@),
                data@[0] as int,
            ),
            None => r is Ok && markers_view(final(ph).markers@) == grown(
                markers_view(old(ph).markers@),
                data@[0] as int,
            ).update(data@[0] as int, Some(data@.subrange(1, size as int))),
        },
{
    ph.present = true;
    let z = data[0] as usize;
    let ghost m0 = markers_view(ph.markers@);
    let ghost raw0 = ph.markers@;
    let ghost n0 = raw0.len();
    while ph.markers.len() <= z
        invariant
            n0 <= z ==> ph.markers@.len() <= z + 1,
            n0 > z ==> ph.markers@.len() == n0,
            ph.markers@.len() >= n0,
            ph.markers@ == raw0 + Seq::new((ph.markers@.len() - n0) as nat, |i: int| None::<Vec<u8>>),
            ph.present,
            ph.buffer == old(ph).buffer,
            raw0 == old(ph).markers@,
            n0 == raw0.len(),
        decreases z + 1 - ph.markers@.len(),
    {
        ph.markers.push(None);
        assert(ph.markers@ =~= raw0 + Seq::new((ph.markers@.len() - n0) as nat, |i: int| None::<Vec<u8>>));
    }
    assert(markers_view(ph.markers@) =~= grown(m0, z as int)) by {
        assert forall|k: int| 0 <= k < ph.markers@.len() implies #[trigger] markers_view(ph.markers@)[k]
            == grown(m0, z as int)[k] by {
            if k < n0 {
                assert(ph.markers@[k] == raw0[k]);
            } else {
                assert(ph.markers@[k] is None);
            }
        }
    }
    if ph.markers[z].is_some() {
        return Err(PackedError::Duplicate);
    }
    if size == 1 {
        return Err(PackedError::Empty);
    }
    let mut v: Vec<u8> = Vec::new();
    let mut k: usize = 1;
    while k < size as usize
        invariant
            1 <= k <= size <= data@.len(),
            v@ == data@.subrange(1, k as int),
        decreases size - k,
    {
        v.push(data[k]);
        k = k + 1;
        assert(v@ =~= data@.subrange(1, k as int));
    }
    let ghost before = markers_view(ph.markers@);
    ph.markers.set(z, Some(v));
    assert(markers_view(ph.markers@) =~= before.update(z as int, Some(data@.subrange(1, size as int))));
    Ok(())
}

/// Reads a PPM segment of `size` bytes: its first byte is its index among
/// the PPM segments, the rest are packed packet headers, kept at that
/// index. A segment without headers, or one whose index was seen before,
/// is refused (the slots are still grown to its index).
pub fn opj_j2k_read_ppm(ph: &mut PackedHeaders, data: &[u8], size: u32) -> (r: Result<(), PackedError>)
    requires
        size <= data@.len(),
    ensures
        size < 2 ==> r == Err::<(), PackedError>(PackedError::TooShort) && *final(ph) == *old(ph),
        size >= 2 ==> {
            &&& final(ph).present
            &&& final(ph).buffer == old(ph).buffer
            &&& match ppx_error(markers_view(old(ph).markers@), data@, size as int) {
                Some(e) => r == Err::<(), PackedError>(e) && markers_view(final(ph).markers@) == grown(
                    markers_view(old(ph).markers@),
                    data@[0] as int,
                ),
                None => r is Ok && markers_view(final(ph).markers@) == grown(
                    markers_view(old(ph).markers@),
                    data@[0] as int,
                ).update(data@[0] as int, Some(data@.subrange(1, size as int))),
            }
        },
{
    if size < 2 {
        return Err(PackedError::TooShort);
    }
    read_ppx(ph, data, size)
}

/// Reads a PPT segment of `size` bytes into the packed headers of a tile,
/// as a PPM segment is read; it is refused when the main header has packed
/// headers (`ppm`).
pub fn opj_j2k_read_ppt(ph: &mut PackedHeaders, ppm: bool, data: &[u8], size: u32) -> (r: Result<
    (),
    PackedError,
>)
    requires
        size <= data@.len(),
    ensures
        size < 2 ==> r == Err::<(), PackedError>(PackedError::TooShort) && *final(ph) == *old(ph),
        size >= 2 && ppm ==> r == Err::<(), PackedError>(PackedError::AlreadyInMainHeader) && *final(ph) == *old(ph),
        size >= 2 && !ppm ==> {
            &&& final(ph).present
            &&& final(ph).buffer == old(ph).buffer
            &&& match ppx_error(markers_view(old(ph).markers@), data@, size as int) {
                Some(e) => r == Err::<(), PackedError>(e) && markers_view(final(ph).markers@) == grown(
                    markers_view(old(ph).markers@),
                    data@[0] as int,
                ),
                None => r is Ok && markers_view(final(ph).markers@) == grown(
                    markers_view(old(ph).markers@),
                    data@[0] as int,
                ).update(data@[0] as int, Some(data@.subrange(1, size as int))),
            }
        },
{
    if size < 2 {
        return Err(PackedError::TooShort);
    }
    if ppm {
        return Err(PackedError::AlreadyInMainHeader);
    }
    read_ppx(ph, data, size)
}

/// The largest sum of packet header lengths.
pub open spec fn len_max() -> int {
    0xffff_ffff
}

/// The packet headers in `d`, a run of 4-byte lengths each followed by as
/// many bytes, when the lengths add up to at most `budget`: the header bytes,
/// how many bytes of the last header are still to come (from the next
/// segment), and the sum of the lengths. `None` when a length field is cut
/// or the lengths exceed the budget.
pub open spec fn ppm_fields(d: Seq<u8>, budget: int) -> Option<(Seq<u8>, int, int)>
    decreases d.len(),
{
    if d.len() == 0 {
        Some((Seq::empty(), 0, 0))
    } else if d.len() < 4 {
        None
    } else {
        let n = be_value(d.subrange(0, 4)) as int;
        let r = d.subrange(4, d.len() as int);
        if n > budget {
            None
        } else if r.len() >= n {
            match ppm_fields(r.subrange(n, r.len() as int), budget - n) {
                Some((q, rem, s)) => Some((r.subrange(0, n) + q, rem, n + s)),
                None => None,
            }
        } else {
            Some((r, n - r.len(), n))
        }
    }
}

/// The packet headers in the data `d` of one PPM segment, whose first `rem`
/// bytes end a header of the previous segment.
pub open spec fn ppm_marker(d: Seq<u8>, rem: int, budget: int) -> Option<(Seq<u8>, int, int)> {
    if rem >= d.len() {
        Some((d, rem - d.len(), 0))
    } else {
        match ppm_fields(d.subrange(rem, d.len() as int), budget) {
            Some((q, r2, s)) => Some((d.subrange(0, rem) + q, r2, s)),
            None => None,
        }
    }
}

/// The packet headers in the first `i` PPM segments: the header bytes, the
/// bytes still to come, and the sum of the lengths.
pub open spec fn ppm_scan(m: Seq<Option<Seq<u8>>>, i: int) -> Option<(Seq<u8>, int, int)>
    decreases i,
{
    if i <= 0 {
        Some((Seq::empty(), 0, 0))
    } else {
        match ppm_scan(m, i - 1) {
            None => None,
            Some((p, rem, s)) => match m[i - 1] {
                None => Some((p, rem, s)),
                Some(d) => match ppm_marker(d, rem, len_max() - s) {
                    Some((q, r2, s2)) => Some((p + q, r2, s + s2)),
                    None => None,
                },
            },
        }
    }
}

/// The PPM segments merge: every length field is whole, the lengths add up
/// to at most `len_max()` and to more than zero, and the last header ends
/// with the last segment.
pub open spec fn ppm_merges(m: Seq<Option<Seq<u8>>>) -> bool {
    match ppm_scan(m, m.len() as int) {
        Some((p, rem, s)) => rem == 0 && s != 0,
        None => false,
    }
}

/// The packet headers of merged PPM segments.
pub open spec fn ppm_merged(m: Seq<Option<Seq<u8>>>) -> Seq<u8> {
    match ppm_scan(m, m.len() as int) {
        Some((p, rem, s)) => p,
        None => Seq::empty(),
    }
}

/// Appends the packet headers in `d` from `pos` on to `out`, within `budget`.
fn scan_fields(d: &Vec<u8>, pos: usize, budget: u64, out: &mut Vec<u8>) -> (r: Option<(u64, u64)>)
    requires
        pos <= d@.len(),
        budget <= len_max(),
    ensures
        match ppm_fields(d@.subrange(pos as int, d@.len() as int), budget as int) {
            Some((q, rem, s)) => r == Some((rem as u64, s as u64)) && final(out)@ == old(out)@ + q
                && 0 <= rem <= len_max() && 0 <= s <= budget,
            None => r is None,
        },
        r matches Some((a, b)) ==> b <= budget && a <= len_max(),
{
    let ghost start = out@;
    let ghost whole = d@.subrange(pos as int, d@.len() as int);
    let dl = d.len();
    let mut p = pos;
    let mut sum: u64 = 0;
    loop
        invariant
            pos <= p <= d@.len(),
            dl == d@.len(),
            sum <= budget <= len_max(),
            whole == d@.subrange(pos as int, d@.len() as int),
            ppm_fields(whole, budget as int) == match ppm_fields(
                d@.subrange(p as int, d@.len() as int),
                budget - sum,
            ) {
                Some((q, rem, s)) => Some(((out@.subrange(start.len() as int, out@.len() as int) + q), rem, sum + s)),
                None => None,
            },
            out@.len() >= start.len(),
            out@.subrange(0, start.len() as int) == start,
            start == old(out)@,
        decreases d@.len() - p,
    {
        let ghost cur = d@.subrange(p as int, d@.len() as int);
        let ghost acc = out@.subrange(start.len() as int, out@.len() as int);
        let left = d.len() - p;
        if left == 0 {
            assert(cur.len() == 0);
            assert(ppm_fields(cur, budget - sum) == Some((Seq::<u8>::empty(), 0int, 0int)));
            assert(acc + Seq::<u8>::empty() =~= acc);
            assert(out@ =~= start + acc);
            return Some((0, sum));
        }
        if left < 4 {
            return None;
        }
        let n: u64 = d[p] as u64 * 0x100_0000 + d[p + 1] as u64 * 0x1_0000 + d[p + 2] as u64 * 0x100
            + d[p + 3] as u64;
        proof {
            let f = cur.subrange(0, 4);
            assert(f =~= seq![d@[p as int], d@[p + 1], d@[p + 2], d@[p + 3]]);
            reveal_with_fuel(be_value, 5);
            assert(f.drop_last().drop_last().drop_last().drop_last() =~= Seq::<u8>::empty());
            assert(f.drop_last().drop_last().drop_last() =~= seq![d@[p as int]]);
            assert(f.drop_last().drop_last() =~= seq![d@[p as int], d@[p + 1]]);
            assert(f.drop_last() =~= seq![d@[p as int], d@[p + 1], d@[p + 2]]);
        }
        assert(n == be_value(cur.subrange(0, 4)));
        if n > budget - sum {
            return None;
        }
        let body = left - 4;
        let ghost r = cur.subrange(4, cur.len() as int);
        assert(r =~= d@.subrange(p + 4, d@.len() as int));
        if body as u64 >= n {
            let mut k: usize = 0;
            let ghost before = out@;
            while (k as u64) < n
                invariant
                    k <= n <= body,
                    dl == d@.len(),
                    body == left - 4,
                    left == d@.len() - p,
                    p + 4 + body <= d@.len(),
                    out@ == before + d@.subrange(p + 4, p + 4 + k),
                decreases n - k,
            {
                out.push(d[p + 4 + k]);
                k = k + 1;
                assert(out@ =~= before + d@.subrange(p + 4, p + 4 + k));
            }
            assert(r.subrange(0, n as int) =~= d@.subrange(p + 4, p + 4 + n));
            assert(r.subrange(n as int, r.len() as int) =~= d@.subrange(p + 4 + n, d@.len() as int));
            assert(out@.subrange(start.len() as int, out@.len() as int) =~= acc + r.subrange(0, n as int));
            assert(out@.subrange(0, start.len() as int) =~= start);
            assert(ppm_fields(cur, budget - sum) == match ppm_fields(r.subrange(n as int, r.len() as int), budget - sum - n) {
                Some((q, rem, s)) => Some((r.subrange(0, n as int) + q, rem, n + s)),
                None => None,
            });
            p = p + 4 + n as usize;
            sum = sum + n;
        } else {
            let mut k: usize = 0;
            let ghost before = out@;
            while k < body
                invariant
                    k <= body,
                    dl == d@.len(),
                    body == left - 4,
                    left == d@.len() - p,
                    p + 4 + body <= d@.len(),
                    out@ == before + d@.subrange(p + 4, p + 4 + k),
                decreases body - k,
            {
                out.push(d[p + 4 + k]);
                k = k + 1;
                assert(out@ =~= before + d@.subrange(p + 4, p + 4 + k));
            }
            assert(r =~= d@.subrange(p + 4, p + 4 + body));
            assert(ppm_fields(cur, budget - sum) == Some((r, n - r.len(), n as int)));
            assert(out@ =~= start + (acc + r));
            return Some((n - body as u64, sum + n));
        }
    }
}

/// Appends the packet headers in the data of one PPM segment to `out`, the
/// first `rem` bytes ending a header of the previous segment.
fn scan_marker(d: &Vec<u8>, rem: u64, budget: u64, out: &mut Vec<u8>) -> (r: Option<(u64, u64)>)
    requires
        budget <= len_max(),
        rem <= len_max(),
    ensures
        match ppm_marker(d@, rem as int, budget as int) {
            Some((q, r2, s)) => r == Some((r2 as u64, s as u64)) && final(out)@ == old(out)@ + q
                && 0 <= r2 <= len_max() && 0 <= s <= budget,
            None => r is None,
        },
        r matches Some((a, b)) ==> b <= budget && a <= len_max(),
{
    let ghost start = out@;
    if rem >= d.len() as u64 {
        let mut k: usize = 0;
        while k < d.len()
            invariant
                k <= d@.len(),
                out@ == start + d@.subrange(0, k as int),
            decreases d@.len() - k,
        {
            out.push(d[k]);
            k = k + 1;
            assert(out@ =~= start + d@.subrange(0, k as int));
        }
        assert(d@.subrange(0, d@.len() as int) =~= d@);
        return Some((rem - d.len() as u64, 0));
    }
    let dl = d.len();
    let mut k: usize = 0;
    while (k as u64) < rem
        invariant
            k <= rem < d@.len(),
            dl == d@.len(),
            out@ == start + d@.subrange(0, k as int),
        decreases rem - k,
    {
        out.push(d[k]);
        k = k + 1;
        assert(out@ =~= start + d@.subrange(0, k as int));
    }
    let ghost mid = out@;
    let r = scan_fields(d, rem as usize, budget, out);
    match r {
        Some((r2, s)) => {
            assert(out@ =~= start + (d@.subrange(0, rem as int) + out@.subrange(mid.len() as int, out@.len() as int)));
            Some((r2, s))
        },
        None => None,
    }
}

proof fn lemma_scan_none(m: Seq<Option<Seq<u8>>>, j: int, k: int)
    requires
        0 <= j <= k,
        ppm_scan(m, j) is None,
    ensures
        ppm_scan(m, k) is None,
    decreases k - j,
{
    if j < k {
        lemma_scan_none(m, j, k - 1);
    }
}

/// Merges the PPM segments of the main header, in the order of their
/// indexes, into one buffer of packet headers: each segment is a run of
/// 4-byte lengths each followed by a header of as many bytes, the last of
/// which may go on in the next segment. The segments are then dropped.
/// Without PPM segments nothing happens; when the segments do not merge
/// nothing changes.
pub fn opj_j2k_merge_ppm(ph: &mut PackedHeaders) -> (r: Result<(), PackedError>)
    requires
        old(ph).buffer is None,
    ensures
        !old(ph).present ==> r is Ok && *final(ph) == *old(ph),
        old(ph).present ==> {
            let m = markers_view(old(ph).markers@);
            match ppm_scan(m, m.len() as int) {
                Some((p, rem, s)) => if rem != 0 {
                    r == Err::<(), PackedError>(PackedError::Corrupted) && *final(ph) == *old(ph)
                } else if s == 0 {
                    r == Err::<(), PackedError>(PackedError::Empty) && *final(ph) == *old(ph)
                } else {
                    &&& r is Ok
                    &&& final(ph).present
                    &&& final(ph).markers@.len() == 0
                    &&& final(ph).buffer matches Some(b) && b@ == p
                },
                None => r == Err::<(), PackedError>(PackedError::Corrupted) && *final(ph) == *old(ph),
            }
        },
{
    if !ph.present {
        return Ok(());
    }
    let ghost m = markers_view(ph.markers@);
    let mut out: Vec<u8> = Vec::new();
    let mut rem: u64 = 0;
    let mut sum: u64 = 0;
    let mut i: usize = 0;
    while i < ph.markers.len()
        invariant
            i <= ph.markers@.len(),
            m == markers_view(ph.markers@),
            *ph == *old(ph),
            ph.present,
            ppm_scan(m, i as int) == Some((out@, rem as int, sum as int)),
            sum <= len_max(),
            rem <= len_max(),
        decreases ph.markers@.len() - i,
    {
        match &ph.markers[i] {
            None => {
                assert(m[i as int] is None);
                assert(ppm_scan(m, i as int + 1) == ppm_scan(m, i as int));
            },
            Some(d) => {
                assert(m[i as int] == Some(d@));
                let ghost before = out@;
                let ghost brem = rem;
                let ghost bsum = sum;
                match scan_marker(d, rem, 0xffff_ffff - sum, &mut out) {
                    Some((r2, s2)) => {
                        proof {
                            let q = out@.subrange(before.len() as int, out@.len() as int);
                            assert(out@ =~= before + q);
                        }
                        rem = r2;
                        sum = sum + s2;
                        proof {
                            let q = out@.subrange(before.len() as int, out@.len() as int);
                            assert(ppm_marker(d@, brem as int, len_max() - bsum) == Some((q, r2 as int, s2 as int)));
                            assert(ppm_scan(m, i as int + 1) == Some((before + q, rem as int, sum as int)));
                        }
                    },
                    None => {
                        proof {
                            lemma_scan_none(m, i as int + 1, m.len() as int);
                        }
                        return Err(PackedError::Corrupted);
                    },
                }
            },
        }
        i = i + 1;
    }
    if rem != 0 {
        return Err(PackedError::Corrupted);
    }
    if sum == 0 {
        return Err(PackedError::Empty);
    }
    ph.buffer = Some(out);
    ph.markers = Vec::new();
    Ok(())
}

/// The data of the first `i` PPT segments, one after the other.
pub open spec fn ppt_concat(m: Seq<Option<Seq<u8>>>, i: int) -> Seq<u8>
    decreases i,
{
    if i <= 0 {
        Seq::empty()
    } else {
        ppt_concat(m, i - 1) + match m[i - 1] {
            Some(d) => d,
            None => Seq::empty(),
        }
    }
}

/// Merges the PPT segments of a tile, in the order of their indexes, into
/// one buffer of packet headers: their data one after the other. The
/// segments are then dropped. Without PPT segments nothing happens; it
/// fails, changing nothing, when they were merged before or hold no byte.
pub fn opj_j2k_merge_ppt(ph: &mut PackedHeaders) -> (r: Result<(), PackedError>)
    requires
        ppt_concat(markers_view(old(ph).markers@), old(ph).markers@.len() as int).len()
            <= 0xffff_ffff,
    ensures
        old(ph).buffer is Some ==> r == Err::<(), PackedError>(PackedError::AlreadyMerged) && *final(
            ph) == *old(ph),
        old(ph).buffer is None && !old(ph).present ==> r is Ok && *final(ph) == *old(ph),
        old(ph).buffer is None && old(ph).present ==> {
            let c = ppt_concat(markers_view(old(ph).markers@), old(ph).markers@.len() as int);
            if c.len() == 0 {
                r == Err::<(), PackedError>(PackedError::Empty) && *final(ph) == *old(ph)
            } else {
                &&& r is Ok
                &&& final(ph).present
                &&& final(ph).markers@.len() == 0
                &&& final(ph).buffer matches Some(b) && b@ == c
            }
        },
{
    if ph.buffer.is_some() {
        return Err(PackedError::AlreadyMerged);
    }
    if !ph.present {
        return Ok(());
    }
    let ghost m = markers_view(ph.markers@);
    let mut out: Vec<u8> = Vec::new();
    let mut i: usize = 0;
    while i < ph.markers.len()
        invariant
            i <= ph.markers@.len(),
            m == markers_view(ph.markers@),
            *ph == *old(ph),
            out@ == ppt_concat(m, i as int),
        decreases ph.markers@.len() - i,
    {
        match &ph.markers[i] {
            None => {
                assert(m[i as int] is None);
                assert(out@ =~= ppt_concat(m, i as int + 1));
            },
            Some(d) => {
                assert(m[i as int] == Some(d@));
                let ghost before = out@;
                let mut k: usize = 0;
                while k < d.len()
                    invariant
                        k <= d@.len(),
                        out@ == before + d@.subrange(0, k as int),
                    decreases d@.len() - k,
                {
                    out.push(d[k]);
                    k = k + 1;
                    assert(out@ =~= before + d@.subrange(0, k as int));
                }
                assert(d@.subrange(0, d@.len() as int) =~= d@);
                assert(out@ =~= ppt_concat(m, i as int + 1));
            },
        }
        i = i + 1;
    }
    if out.len() == 0 {
        return Err(PackedError::Empty);
    }
    ph.buffer = Some(out);
    ph.markers = Vec::new();
    Ok(())
}

} // verus!
