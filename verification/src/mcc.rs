//! The MCC marker segment: a multiple component collection, which ties a
//! decorrelation array and an offset array (MCT records) to the components
//! it transforms.
use vstd::prelude::*;

use crate::cio::{lemma_be_value_bound, lemma_pow256_small, opj_read_bytes, pow256};
use crate::siz::field;

verus! {

/// A multiple component collection: its index, the number of components it
/// transforms, whether its transform is reversible, and the positions (in
/// the tile's MCT records) of its decorrelation and offset arrays.
#[derive(Clone, Copy, Debug)]
pub struct opj_mcc_record {
    pub m_index: u32,
    pub m_nb_comps: u32,
    pub m_is_irreversible: bool,
    pub m_decorrelation_array: Option<usize>,
    pub m_offset_array: Option<usize>,
}

/// The position of the first record from `j` on with index `idx`, or the
/// number of records when none has it.
pub open spec fn find_mcc(records: Seq<opj_mcc_record>, idx: int, j: int) -> int
    decreases records.len() - j,
{
    if j >= records.len() || j < 0 {
        records.len() as int
    } else if records[j].m_index == idx {
        j
    } else {
        find_mcc(records, idx, j + 1)
    }
}

/// The position of the first MCT record with index `idx`, if any.
pub open spec fn find_mct(mct: Seq<u32>, idx: int) -> Option<usize> {
    find_mct_from(mct, idx, 0)
}

/// The position of the first MCT record from `j` on with index `idx`.
pub open spec fn find_mct_from(mct: Seq<u32>, idx: int, j: int) -> Option<usize>
    decreases mct.len() - j,
{
    if j >= mct.len() || j < 0 {
        None
    } else if mct[j] == idx {
        Some(j as usize)
    } else {
        find_mct_from(mct, idx, j + 1)
    }
}

/// The `n` component indices from byte `start`, `bpc` bytes each, are
/// `0, 1, ..., n - 1`.
pub open spec fn indices_ok(d: Seq<u8>, start: int, n: int, bpc: int) -> bool {
    forall|j: int| 0 <= j < n ==> #[trigger] field(d, start + j * bpc, bpc) == j
}

/// The fields of an MCC segment with a single collection.
pub open spec fn mcc_n(d: Seq<u8>) -> int {
    field(d, 8, 2) % 0x8000
}

pub open spec fn mcc_bpc(d: Seq<u8>) -> int {
    1 + field(d, 8, 2) / 0x8000
}

pub open spec fn mcc_m_raw(d: Seq<u8>) -> int {
    field(d, 10 + mcc_n(d) * mcc_bpc(d), 2)
}

pub open spec fn mcc_bpc2(d: Seq<u8>) -> int {
    1 + mcc_m_raw(d) / 0x8000
}

pub open spec fn mcc_t(d: Seq<u8>) -> int {
    field(d, 12 + mcc_n(d) * mcc_bpc(d) + mcc_n(d) * mcc_bpc2(d), 3)
}

/// How far the segment is read: 0 when refused or ignored before the
/// collection, 1 once its number of components is known, 2 once its
/// transform is known.
pub open spec fn mcc_stage(d: Seq<u8>, size: int) -> int {
    let n = mcc_n(d);
    if size < 7 || field(d, 0, 2) != 0 || field(d, 3, 2) != 0 || field(d, 5, 2) != 1 || size - 7 < 3
        || d[7] != 1 {
        0
    } else if size - 10 < mcc_bpc(d) * n + 2 || !indices_ok(d, 10, n, mcc_bpc(d)) || mcc_m_raw(d)
        % 0x8000 != n || size - 12 - mcc_bpc(d) * n < mcc_bpc2(d) * n + 3 || !indices_ok(
        d,
        12 + n * mcc_bpc(d),
        n,
        mcc_bpc2(d),
    ) {
        1
    } else {
        2
    }
}

/// Whether the MCC segment of `size` bytes is accepted (read, or ignored as
/// a kind of collection that is not supported), given the indices of the
/// tile's MCT records.
pub open spec fn mcc_accepted(d: Seq<u8>, size: int, mct: Seq<u32>) -> bool {
    let n = mcc_n(d);
    let t = mcc_t(d);
    let deco = t % 256;
    let off = (t / 256) % 256;
    if size < 2 {
        false
    } else if field(d, 0, 2) != 0 {
        true
    } else if size < 7 {
        false
    } else if field(d, 3, 2) != 0 || field(d, 5, 2) > 1 {
        true
    } else if field(d, 5, 2) == 0 {
        size == 7
    } else if size - 7 < 3 {
        false
    } else if d[7] != 1 {
        true
    } else if size - 10 < mcc_bpc(d) * n + 2 {
        false
    } else if !indices_ok(d, 10, n, mcc_bpc(d)) || mcc_m_raw(d) % 0x8000 != n {
        true
    } else if size - 12 - mcc_bpc(d) * n < mcc_bpc2(d) * n + 3 {
        false
    } else if !indices_ok(d, 12 + n * mcc_bpc(d), n, mcc_bpc2(d)) {
        true
    } else if deco != 0 && find_mct(mct, deco) is None {
        false
    } else if off != 0 && find_mct(mct, off) is None {
        false
    } else {
        size - 12 - mcc_bpc(d) * n - mcc_bpc2(d) * n - 3 == 0
    }
}

/// Whether the segment gives a whole collection (not ignored, not refused),
/// so that a new record is kept.
pub open spec fn mcc_complete(d: Seq<u8>, size: int, mct: Seq<u32>) -> bool {
    ||| (size == 7 && field(d, 0, 2) == 0 && field(d, 3, 2) == 0 && field(d, 5, 2) == 0)
    ||| (mcc_stage(d, size) == 2 && mcc_accepted(d, size, mct))
}

/// A record once the segment is read into it as far as it goes.
pub open spec fn mcc_updated(r: opj_mcc_record, d: Seq<u8>, size: int, mct: Seq<u32>) -> opj_mcc_record {
    let stage = mcc_stage(d, size);
    let t = mcc_t(d);
    let deco = t % 256;
    let off = (t / 256) % 256;
    let deco_pos = if deco != 0 { find_mct(mct, deco) } else { None };
    if stage == 0 {
        r
    } else if stage == 1 {
        opj_mcc_record { m_nb_comps: mcc_n(d) as u32, ..r }
    } else {
        opj_mcc_record {
            m_nb_comps: mcc_n(d) as u32,
            m_is_irreversible: (t / 0x10000) % 2 == 0,
            m_decorrelation_array: deco_pos,
            m_offset_array: if deco != 0 && deco_pos is None {
                None
            } else if off != 0 {
                find_mct(mct, off)
            } else {
                None
            },
            ..r
        }
    }
}

/// How the collection of an MCC segment was read.
#[derive(Clone, Copy, Debug, PartialEq, Eq, Structural)]
enum CollectionRead {
    Refused,
    Ignored,
    Complete,
}

fn find_mct_exec(mct: &[u32], idx: u32) -> (r: Option<usize>)
    ensures
        r == find_mct(mct@, idx as int),
{
    let mut j: usize = 0;
    while j < mct.len()
        invariant
            j <= mct@.len(),
            find_mct(mct@, idx as int) == find_mct_from(mct@, idx as int, j as int),
        decreases mct@.len() - j,
    {
        if mct[j] == idx {
            return Some(j);
        }
        j = j + 1;
    }
    None
}

/// Checks that the `n` component indices from byte `start` are `0..n`.
fn check_indices(data: &[u8], size: u32, start: u32, n: u32, bpc: u32) -> (r: bool)
    requires
        1 <= bpc <= 2,
        start + n * bpc <= size <= data@.len(),
    ensures
        r == indices_ok(data@, start as int, n as int, bpc as int),
{
    let mut j: u32 = 0;
    while j < n
        invariant
            j <= n,
            1 <= bpc <= 2,
            start + n * bpc <= size <= data@.len(),
            forall|k: int| 0 <= k < j ==> #[trigger] field(data@, start + k * bpc, bpc as int) == k,
        decreases n - j,
    {
        assert(start + j * bpc + bpc <= start + n * bpc) by (nonlinear_arith)
            requires
                j < n,
                bpc >= 1,
        ;
        let v = opj_read_bytes(data, (start + j * bpc) as usize, bpc as usize);
        if v != j {
            assert(field(data@, start + j * bpc, bpc as int) != j);
            return false;
        }
        j = j + 1;
    }
    true
}

proof fn lemma_bits16(v: u32)
    requires
        v < 0x10000,
    ensures
        v >> 15u32 == v / 0x8000,
        v & 0x7fff == v % 0x8000,
{
    assert(v < 0x10000 ==> v >> 15u32 == v / 0x8000 && v & 0x7fff == v % 0x8000) by (bit_vector);
}

proof fn lemma_bits24(t: u32)
    requires
        t < 0x100_0000,
    ensures
        (t >> 16u32) & 1 == (t / 0x10000) % 2,
        t & 0xff == t % 256,
        (t >> 8u32) & 0xff == (t / 256) % 256,
{
    assert(t < 0x100_0000 ==> (t >> 16u32) & 1 == (t / 0x10000) % 2 && t & 0xff == t % 256 && (t
        >> 8u32) & 0xff == (t / 256) % 256) by (bit_vector);
}

/// Reads the single collection of an MCC segment into `rec`.
fn read_collection(rec: &mut opj_mcc_record, mct: &[u32], data: &[u8], size: u32) -> (r: CollectionRead)
    requires
        7 <= size <= data@.len(),
        field(data@, 0, 2) == 0,
        field(data@, 3, 2) == 0,
        field(data@, 5, 2) == 1,
    ensures
        (r == CollectionRead::Refused) == !mcc_accepted(data@, size as int, mct@),
        (r == CollectionRead::Complete) == (mcc_stage(data@, size as int) == 2 && mcc_accepted(
            data@,
            size as int,
            mct@,
        )),
        *final(rec) == mcc_updated(*old(rec), data@, size as int, mct@),
{
    let ghost d = data@;
    proof {
        lemma_pow256_small();
    }
    let mut rem = size - 7;
    if rem < 3 {
        return CollectionRead::Refused;
    }
    if data[7] != 1 {
        return CollectionRead::Ignored;
    }
    let nraw = opj_read_bytes(data, 8, 2);
    proof {
        lemma_be_value_bound(d.subrange(8, 10));
        lemma_bits16(nraw);
    }
    let bpc = 1 + (nraw >> 15u32);
    let n = nraw & 0x7fff;
    assert(bpc * n <= 2 * 0x7fff) by (nonlinear_arith)
        requires
            1 <= bpc <= 2,
            n <= 0x7fff,
    ;
    rec.m_nb_comps = n;
    rem = rem - 3;
    if rem < bpc * n + 2 {
        return CollectionRead::Refused;
    }
    rem = rem - (bpc * n + 2);
    if !check_indices(data, size, 10, n, bpc) {
        return CollectionRead::Ignored;
    }
    let mraw = opj_read_bytes(data, (10 + n * bpc) as usize, 2);
    proof {
        lemma_be_value_bound(d.subrange(10 + n * bpc, 10 + n * bpc + 2));
        lemma_bits16(mraw);
    }
    let bpc2 = 1 + (mraw >> 15u32);
    let m = mraw & 0x7fff;
    assert(bpc2 * n <= 2 * 0x7fff) by (nonlinear_arith)
        requires
            1 <= bpc2 <= 2,
            n <= 0x7fff,
    ;
    if m != n {
        return CollectionRead::Ignored;
    }
    if rem < bpc2 * n + 3 {
        return CollectionRead::Refused;
    }
    rem = rem - (bpc2 * n + 3);
    if !check_indices(data, size, 12 + n * bpc, n, bpc2) {
        return CollectionRead::Ignored;
    }
    let t = opj_read_bytes(data, (12 + n * bpc + n * bpc2) as usize, 3);
    proof {
        lemma_be_value_bound(d.subrange(12 + n * bpc + n * bpc2, 12 + n * bpc + n * bpc2 + 3));
        lemma_bits24(t);
    }
    rec.m_is_irreversible = (t >> 16u32) & 1 == 0;
    rec.m_decorrelation_array = None;
    rec.m_offset_array = None;
    let deco = t & 0xff;
    if deco != 0 {
        match find_mct_exec(mct, deco) {
            Some(p) => {
                rec.m_decorrelation_array = Some(p);
            },
            None => {
                return CollectionRead::Refused;
            },
        }
    }
    let off = (t >> 8u32) & 0xff;
    if off != 0 {
        match find_mct_exec(mct, off) {
            Some(p) => {
                rec.m_offset_array = Some(p);
            },
            None => {
                return CollectionRead::Refused;
            },
        }
    }
    if rem != 0 {
        return CollectionRead::Refused;
    }
    CollectionRead::Complete
}

/// A new collection record with index `idx`, before its segment is read.
pub open spec fn new_mcc(idx: int) -> opj_mcc_record {
    opj_mcc_record {
        m_index: idx as u32,
        m_nb_comps: 0,
        m_is_irreversible: false,
        m_decorrelation_array: None,
        m_offset_array: None,
    }
}

/// Reads an MCC segment (the `size` bytes of `data`) into the collection
/// records of a tile, given the indices of its MCT records.  A segment that
/// spans several segments, or that holds several collections, a collection
/// other than an array decorrelation, or component indices out of order, is
/// accepted and ignored.  The collection updates the record with its index,
/// as far as it is read, or is added as a new record once read whole.
pub fn opj_j2k_read_mcc(records: &mut Vec<opj_mcc_record>, mct: &[u32], data: &[u8], size: u32) -> (r: bool)
    requires
        size <= data@.len(),
    ensures
        r == mcc_accepted(data@, size as int, mct@),
        ({
            let d = data@;
            let o = old(records)@;
            let k = find_mcc(o, d[2] as int, 0);
            if size < 7 || field(d, 0, 2) != 0 {
                final(records)@ == o
            } else if k < o.len() {
                final(records)@ == o.update(k, mcc_updated(o[k], d, size as int, mct@))
            } else if mcc_complete(d, size as int, mct@) {
                final(records)@ == o.push(mcc_updated(new_mcc(d[2] as int), d, size as int, mct@))
            } else {
                final(records)@ == o
            }
        }),
{
    let ghost d = data@;
    if size < 2 {
        return false;
    }
    let z = opj_read_bytes(data, 0, 2);
    if z != 0 {
        return true;
    }
    if size < 7 {
        return false;
    }
    let indix = data[2] as u32;
    let mut k: usize = 0;
    while k < records.len() && records[k].m_index != indix
        invariant
            k <= records@.len(),
            find_mcc(records@, indix as int, 0) == find_mcc(records@, indix as int, k as int),
        decreases records@.len() - k,
    {
        k = k + 1;
    }
    let is_new = k == records.len();
    let mut rec = if is_new {
        opj_mcc_record {
            m_index: indix,
            m_nb_comps: 0,
            m_is_irreversible: false,
            m_decorrelation_array: None,
            m_offset_array: None,
        }
    } else {
        records[k]
    };
    let y = opj_read_bytes(data, 3, 2);
    let q = opj_read_bytes(data, 5, 2);
    let outcome = if y != 0 || q > 1 {
        CollectionRead::Ignored
    } else if q == 0 {
        if size - 7 != 0 {
            CollectionRead::Refused
        } else {
            CollectionRead::Complete
        }
    } else {
        read_collection(&mut rec, mct, data, size)
    };
    if !is_new {
        records.set(k, rec);
    } else if outcome == CollectionRead::Complete {
        records.push(rec);
    }
    outcome != CollectionRead::Refused
}

} // verus!
