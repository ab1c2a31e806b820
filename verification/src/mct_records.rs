//! MCT records (the arrays of a multiple component transformation, as the
//! MCT marker segment carries them) and the component bit depths of the CBD
//! marker segment.
use vstd::prelude::*;

use crate::cio::{be_bytes, lemma_be_bytes, push_be};
use crate::coding::{at, at16};
use crate::image::opj_image_comp;
use crate::j2k::{mct_element_type_of, MCTElementType};
use crate::mcc::opj_mcc_record;

verus! {

/// An MCT record: its index, the kind of array it holds (dependency,
/// decorrelation or offset), the type of its elements, and their bytes.
#[derive(Clone, Debug)]
pub struct opj_mct_data {
    pub m_element_type: MCTElementType,
    pub m_array_type: u32,
    pub m_index: u32,
    pub m_data: Vec<u8>,
}

/// Why an MCT or CBD segment was refused.
#[derive(Clone, Copy, Debug, PartialEq, Eq, Structural)]
pub enum MctError {
    /// The segment is shorter than its fixed fields.
    TooShort,
    /// The segment does not have the length its fields take.
    BadLength,
    /// A CBD segment for another number of components than the image has.
    BadCount,
    /// A component precision above 31 bits.
    BadPrecision,
}

/// The code of an element type in the segments: 0 to 3 for 16-bit and
/// 32-bit integers, single and double precision reals.
pub open spec fn element_code(t: MCTElementType) -> u32 {
    match t {
        MCTElementType::INT16 => 0,
        MCTElementType::INT32 => 1,
        MCTElementType::FLOAT => 2,
        MCTElementType::DOUBLE => 3,
    }
}

fn element_code_exec(t: MCTElementType) -> (r: u32)
    ensures
        r == element_code(t),
{
    match t {
        MCTElementType::INT16 => 0,
        MCTElementType::INT32 => 1,
        MCTElementType::FLOAT => 2,
        MCTElementType::DOUBLE => 3,
    }
}

/// The position of the first record with index `idx`, or the number of
/// records when none has it.
pub open spec fn find_record(records: Seq<opj_mct_data>, idx: u32, j: int) -> int
    decreases records.len() - j,
{
    if j >= records.len() || j < 0 {
        records.len() as int
    } else if records[j].m_index == idx {
        j
    } else {
        find_record(records, idx, j + 1)
    }
}

proof fn lemma_find_record(records: Seq<opj_mct_data>, idx: u32, j: int)
    requires
        0 <= j <= records.len(),
    ensures
        j <= find_record(records, idx, j) <= records.len(),
        find_record(records, idx, j) < records.len() ==> records[find_record(records, idx, j)].m_index
            == idx,
        forall|k: int| j <= k < find_record(records, idx, j) ==> records[k].m_index != idx,
    decreases records.len() - j,
{
    if j < records.len() && records[j].m_index != idx {
        lemma_find_record(records, idx, j + 1);
    }
}

/// A record with the given index, kind, element type and bytes.
pub open spec fn record_is(r: opj_mct_data, idx: u32, array_type: u32, et: MCTElementType, data: Seq<
    u8,
>) -> bool {
    &&& r.m_index == idx
    &&& r.m_array_type == array_type
    &&& r.m_element_type == et
    &&& r.m_data@ == data
}

/// An MCT segment of `size` bytes carries a whole array: it is the only
/// segment of its array (`Zmct` zero) and is not continued (`Ymct` zero).
pub open spec fn mct_whole(d: Seq<u8>) -> bool {
    at16(d, 4) == 0
}

/// Reads an MCT segment of `size` bytes into the records of a tile. A
/// segment that is one of several for its array is skipped. Otherwise the
/// record with its index (the low byte of `Imct`), or a new one after the
/// others, gets the array kind and element type of `Imct` and, when the
/// array is not continued in other segments, its bytes (else none).
pub fn opj_j2k_read_mct(records: &mut Vec<opj_mct_data>, data: &[u8], size: u32) -> (r: Result<
    (),
    MctError,
>)
    requires
        size <= data@.len(),
    ensures
        size < 2 ==> r == Err::<(), MctError>(MctError::TooShort) && final(records)@ == old(records)@,
        size >= 2 && at16(data@, 0) != 0 ==> r is Ok && final(records)@ == old(records)@,
        size >= 2 && at16(data@, 0) == 0 && size <= 6 ==> r == Err::<(), MctError>(MctError::TooShort)
            && final(records)@ == old(records)@,
        size > 6 && at16(data@, 0) == 0 ==> {
            let imct = at16(data@, 2);
            let idx = (imct % 256) as u32;
            let k = find_record(old(records)@, idx, 0);
            let n = old(records)@.len();
            &&& r is Ok
            &&& final(records)@.len() == if k < n {
                n
            } else {
                n + 1
            }
            &&& record_is(
                final(records)@[k],
                idx,
                ((imct / 256) % 4) as u32,
                mct_element_type_of(((imct / 1024) % 4) as u32),
                if mct_whole(data@) {
                    data@.subrange(6, size as int)
                } else {
                    Seq::empty()
                },
            )
            &&& forall|j: int| 0 <= j < n && j != k ==> #[trigger] final(records)@[j] == old(records)@[j]
        },
{
    if size < 2 {
        return Err(MctError::TooShort);
    }
    let zmct: u32 = data[0] as u32 * 256 + data[1] as u32;
    if zmct != 0 {
        return Ok(());
    }
    if size <= 6 {
        return Err(MctError::TooShort);
    }
    let imct: u32 = data[2] as u32 * 256 + data[3] as u32;
    let idx: u32 = imct % 256;
    let ghost old_recs = records@;
    proof {
        lemma_find_record(old_recs, idx, 0);
    }
    let mut k: usize = 0;
    while k < records.len() && records[k].m_index != idx
        invariant
            k <= records@.len(),
            records@ == old_recs,
            k <= find_record(old_recs, idx, 0),
            find_record(old_recs, idx, 0) <= old_recs.len(),
            find_record(old_recs, idx, 0) < old_recs.len() ==> old_recs[find_record(old_recs, idx, 0)].m_index == idx,
            forall|j: int| 0 <= j < find_record(old_recs, idx, 0) ==> old_recs[j].m_index != idx,
        decreases records@.len() - k,
    {
        k = k + 1;
    }
    assert(k == find_record(old_recs, idx, 0));
    let ymct: u32 = data[4] as u32 * 256 + data[5] as u32;
    let mut bytes: Vec<u8> = Vec::new();
    if ymct == 0 {
        let mut i: usize = 6;
        while i < size as usize
            invariant
                6 <= i <= size <= data@.len(),
                bytes@ == data@.subrange(6, i as int),
            decreases size - i,
        {
            bytes.push(data[i]);
            i = i + 1;
            assert(bytes@ =~= data@.subrange(6, i as int));
        }
    } else {
        assert(bytes@ =~= Seq::<u8>::empty());
    }
    let rec = opj_mct_data {
        m_element_type: MCTElementType::new((imct / 1024) % 4),
        m_array_type: (imct / 256) % 4,
        m_index: idx,
        m_data: bytes,
    };
    if k == records.len() {
        records.push(rec);
    } else {
        records.set(k, rec);
    }
    Ok(())
}

/// The marker of an MCT segment.
pub const J2K_MS_MCT: u32 = 0xff74;

/// The MCT segment of a record: marker, length, `Zmct` zero, `Imct` (index
/// in the low byte, array kind and element type above), `Ymct` zero, then
/// the bytes of the array.
pub open spec fn mct_segment(r: opj_mct_data) -> Seq<u8> {
    be_bytes(J2K_MS_MCT as nat, 2) + be_bytes((8 + r.m_data@.len()) as nat, 2) + be_bytes(0, 2)
        + be_bytes(((r.m_index % 256) + r.m_array_type * 256 + element_code(r.m_element_type) * 1024) as nat, 2)
        + be_bytes(0, 2) + r.m_data@
}

/// Writes the MCT segment of a record whose index fits in a byte and whose
/// array kind fits in two bits.
pub fn opj_j2k_write_mct_record(rec: &opj_mct_data) -> (r: Vec<u8>)
    requires
        rec.m_array_type < 4,
        rec.m_data@.len() + 10 <= 0xffff_ffff,
    ensures
        r@ == mct_segment(*rec),
{
    let size: u32 = 10 + rec.m_data.len() as u32;
    let code = element_code_exec(rec.m_element_type);
    let imct: u32 = (rec.m_index % 256) + rec.m_array_type * 256 + code * 1024;
    let mut out: Vec<u8> = Vec::new();
    push_be(&mut out, J2K_MS_MCT, 2);
    push_be(&mut out, size - 2, 2);
    push_be(&mut out, 0, 2);
    push_be(&mut out, imct, 2);
    push_be(&mut out, 0, 2);
    let ghost head = out@;
    let mut i: usize = 0;
    while i < rec.m_data.len()
        invariant
            i <= rec.m_data@.len(),
            out@ == head + rec.m_data@.subrange(0, i as int),
        decreases rec.m_data@.len() - i,
    {
        out.push(rec.m_data[i]);
        i = i + 1;
        assert(out@ =~= head + rec.m_data@.subrange(0, i as int));
    }
    assert(rec.m_data@.subrange(0, rec.m_data@.len() as int) =~= rec.m_data@);
    out
}

/// Reading back the body of the MCT segment written for a record with some
/// bytes gives a record with its index, array kind, element type and bytes.
pub proof fn lemma_mct_roundtrip(rec: opj_mct_data)
    requires
        rec.m_index < 256,
        rec.m_array_type < 4,
        1 <= rec.m_data@.len(),
        rec.m_data@.len() + 10 <= 0xffff,
    ensures
        ({
            let seg = mct_segment(rec);
            let body = seg.subrange(4, seg.len() as int);
            let imct = at16(body, 2);
            &&& body.len() > 6
            &&& at16(body, 0) == 0
            &&& mct_whole(body)
            &&& (imct % 256) as u32 == rec.m_index
            &&& ((imct / 256) % 4) as u32 == rec.m_array_type
            &&& mct_element_type_of(((imct / 1024) % 4) as u32) == rec.m_element_type
            &&& body.subrange(6, body.len() as int) == rec.m_data@
        }),
{
    let code = element_code(rec.m_element_type);
    let v = rec.m_index + rec.m_array_type * 256 + code * 1024;
    assert(rec.m_index % 256 == rec.m_index);
    reveal_with_fuel(be_bytes, 3);
    lemma_be_bytes(J2K_MS_MCT as nat, 2);
    lemma_be_bytes((8 + rec.m_data@.len()) as nat, 2);
    lemma_be_bytes(0, 2);
    lemma_be_bytes(v as nat, 2);
    let seg = mct_segment(rec);
    let body = seg.subrange(4, seg.len() as int);
    assert(body =~= be_bytes(0, 2) + be_bytes(v as nat, 2) + be_bytes(0, 2) + rec.m_data@);
    assert(v < 65536);
    assert(at16(body, 2) == v);
    assert((v / 256) % 4 == rec.m_array_type && (v / 1024) % 4 == code && v % 256 == rec.m_index) by (nonlinear_arith)
        requires
            v == rec.m_index + rec.m_array_type * 256 + code * 1024,
            rec.m_index < 256,
            rec.m_array_type < 4,
            code < 4,
    ;
    assert(body.subrange(6, body.len() as int) =~= rec.m_data@);
    assert(mct_element_type_of(code) == rec.m_element_type);
}

/// The bit depth byte of a component in a CBD segment: its signedness in
/// the top bit, one less than its precision below.
pub open spec fn cbd_byte(c: opj_image_comp) -> u8 {
    ((c.sgnd << 7u32) | (if c.prec == 0 {
        0xffff_ffffu32
    } else {
        (c.prec - 1) as u32
    })) as u8
}

/// The marker of a CBD segment.
pub const J2K_MS_CBD: u32 = 0xff78;

/// The CBD segment of the components of an image: marker, length, their
/// number, then the bit depth byte of each.
pub open spec fn cbd_segment(comps: Seq<opj_image_comp>) -> Seq<u8> {
    be_bytes(J2K_MS_CBD as nat, 2) + be_bytes((4 + comps.len()) as nat, 2) + be_bytes(
        comps.len() as nat,
        2,
    ) + Seq::new(comps.len(), |i: int| cbd_byte(comps[i]))
}

/// Writes the CBD segment of the components of an image.
pub fn opj_j2k_write_cbd(comps: &Vec<opj_image_comp>) -> (r: Vec<u8>)
    requires
        comps@.len() + 6 <= 0xffff_ffff,
    ensures
        r@ == cbd_segment(comps@),
{
    let n = comps.len() as u32;
    let mut out: Vec<u8> = Vec::new();
    push_be(&mut out, J2K_MS_CBD, 2);
    push_be(&mut out, 6 + n - 2, 2);
    push_be(&mut out, n, 2);
    let ghost head = out@;
    let mut i: usize = 0;
    while i < comps.len()
        invariant
            i <= comps@.len(),
            out@ == head + Seq::new(i as nat, |k: int| cbd_byte(comps@[k])),
        decreases comps@.len() - i,
    {
        let c = &comps[i];
        let pm1: u32 = if c.prec == 0 {
            0xffff_ffff
        } else {
            c.prec - 1
        };
        out.push(((c.sgnd << 7) | pm1) as u8);
        i = i + 1;
        assert(out@ =~= head + Seq::new(i as nat, |k: int| cbd_byte(comps@[k])));
    }
    out
}

/// How a CBD segment of `size` bytes is refused for an image of `numcomps`
/// components.
pub open spec fn cbd_error(numcomps: u32, d: Seq<u8>, size: int) -> Option<MctError> {
    if size != numcomps + 2 {
        Some(MctError::BadLength)
    } else if at16(d, 0) != numcomps {
        Some(MctError::BadCount)
    } else if exists|i: int| 0 <= i < numcomps && #[trigger] d[2 + i] % 128 + 1 > 31 {
        Some(MctError::BadPrecision)
    } else {
        None
    }
}

/// Reads a CBD segment of `size` bytes: the signedness and precision of
/// every component of the image. When it is refused nothing changes.
pub fn opj_j2k_read_cbd(comps: &mut Vec<opj_image_comp>, data: &[u8], size: u32) -> (r: Result<
    (),
    MctError,
>)
    requires
        size <= data@.len(),
        old(comps)@.len() <= 0xffff,
    ensures
        match cbd_error(old(comps)@.len() as u32, data@, size as int) {
            Some(e) => r == Err::<(), MctError>(e) && final(comps)@ == old(comps)@,
            None => {
                &&& r is Ok
                &&& final(comps)@.len() == old(comps)@.len()
                &&& forall|i: int|
                    0 <= i < old(comps)@.len() ==> #[trigger] final(comps)@[i] == (opj_image_comp {
                        sgnd: (data@[2 + i] / 128) as u32,
                        prec: (data@[2 + i] % 128 + 1) as u32,
                        ..old(comps)@[i]
                    })
            },
        },
{
    let n = comps.len() as u32;
    if size != n + 2 {
        return Err(MctError::BadLength);
    }
    if data[0] as u32 * 256 + data[1] as u32 != n {
        return Err(MctError::BadCount);
    }
    let mut i: usize = 0;
    while i < n as usize
        invariant
            i <= n,
            n + 2 == size <= data@.len(),
            n == old(comps)@.len(),
            comps@ == old(comps)@,
            at16(data@, 0) == n,
            forall|k: int| 0 <= k < i ==> !(#[trigger] data@[2 + k] % 128 + 1 > 31),
        decreases n - i,
    {
        if data[2 + i] % 128 + 1 > 31 {
            assert(data@[2 + i as int] % 128 + 1 > 31);
            return Err(MctError::BadPrecision);
        }
        i = i + 1;
    }
    let ghost old_comps = comps@;
    let mut i: usize = 0;
    while i < n as usize
        invariant
            i <= n,
            n == old_comps.len(),
            n + 2 == size <= data@.len(),
            comps@.len() == n,
            forall|k: int| i <= k < n ==> #[trigger] comps@[k] == old_comps[k],
            forall|k: int|
                0 <= k < i ==> #[trigger] comps@[k] == (opj_image_comp {
                    sgnd: (data@[2 + k] / 128) as u32,
                    prec: (data@[2 + k] % 128 + 1) as u32,
                    ..old_comps[k]
                }),
        decreases n - i,
    {
        let b = data[2 + i];
        let mut c = comps.remove(i);
        c.sgnd = (b / 128) as u32;
        c.prec = (b % 128 + 1) as u32;
        comps.insert(i, c);
        i = i + 1;
    }
    Ok(())
}

proof fn lemma_cbd_byte(s: u32, p: u32)
    requires
        s <= 1,
        1 <= p <= 31,
    ensures
        (((s << 7u32) | ((p - 1) as u32)) as u8) / 128 == s,
        (((s << 7u32) | ((p - 1) as u32)) as u8) % 128 + 1 == p,
{
    let q: u32 = (p - 1) as u32;
    assert(q < 128);
    assert((((s << 7u32) | q) as u8) / 128 == s && (((s << 7u32) | q) as u8) % 128 == q) by (bit_vector)
        requires
            s <= 1,
            q < 128,
    ;
}

/// Reading back the body of the CBD segment written for the components of
/// an image gives each component its signedness and precision, when each is
/// signed or not and has 1 to 31 bits.
pub proof fn lemma_cbd_roundtrip(comps: Seq<opj_image_comp>)
    requires
        comps.len() <= 0xffff,
        forall|i: int|
            0 <= i < comps.len() ==> (#[trigger] comps[i]).sgnd <= 1 && 1 <= comps[i].prec <= 31,
    ensures
        ({
            let seg = cbd_segment(comps);
            let body = seg.subrange(4, seg.len() as int);
            &&& cbd_error(comps.len() as u32, body, body.len() as int) is None
            &&& forall|i: int|
                0 <= i < comps.len() ==> (body[2 + i] / 128) as u32 == comps[i].sgnd && (body[2 + i]
                    % 128 + 1) as u32 == comps[i].prec
        }),
{
    let n = comps.len();
    reveal_with_fuel(be_bytes, 3);
    lemma_be_bytes(J2K_MS_CBD as nat, 2);
    lemma_be_bytes((4 + n) as nat, 2);
    lemma_be_bytes(n as nat, 2);
    let seg = cbd_segment(comps);
    let body = seg.subrange(4, seg.len() as int);
    assert(body =~= be_bytes(n as nat, 2) + Seq::new(n, |i: int| cbd_byte(comps[i])));
    assert(at16(body, 0) == n);
    assert forall|i: int| 0 <= i < n implies (body[2 + i] / 128) as u32 == comps[i].sgnd && (body[2
        + i] % 128 + 1) as u32 == comps[i].prec by {
        assert(body[2 + i] == cbd_byte(comps[i]));
        lemma_cbd_byte(comps[i].sgnd, comps[i].prec);
    }
    assert(!(exists|i: int| 0 <= i < n && #[trigger] body[2 + i] % 128 + 1 > 31));
}

/// The marker of an MCC segment.
pub const J2K_MS_MCC: u32 = 0xff75;

/// The marker of an MCO segment.
pub const J2K_MS_MCO: u32 = 0xff77;

/// The component numbers `0..n`, each in `bpc` bytes.
pub open spec fn comp_numbers(n: nat, bpc: nat) -> Seq<u8>
    decreases n,
{
    if n == 0 {
        Seq::empty()
    } else {
        comp_numbers((n - 1) as nat, bpc) + be_bytes((n - 1) as nat, bpc)
    }
}

/// The `Tmcci` field of a collection: the reversibility bit above the MCT
/// index of the offset array above that of the decorrelation array.
pub open spec fn mcc_tmcci(rec: opj_mcc_record, mct: Seq<u32>) -> u32 {
    let rev: u32 = if rec.m_is_irreversible {
        0
    } else {
        1
    };
    let deco: u32 = match rec.m_decorrelation_array {
        Some(p) => mct[p as int],
        None => 0,
    };
    let off: u32 = match rec.m_offset_array {
        Some(p) => mct[p as int] << 8u32,
        None => 0,
    };
    (rev << 16u32) | deco | off
}

/// The MCC segment of a collection whose MCT records have the indices
/// `mct`: one array-based collection of its components, the same as inputs
/// and outputs, numbered in one byte, or two above 255 components.
pub open spec fn mcc_segment(rec: opj_mcc_record, mct: Seq<u32>) -> Seq<u8> {
    let bpc: nat = if rec.m_nb_comps > 255 {
        2
    } else {
        1
    };
    let mask: u32 = if rec.m_nb_comps > 255 {
        0x8000
    } else {
        0
    };
    let size = 19 + 2 * rec.m_nb_comps * bpc;
    be_bytes(J2K_MS_MCC as nat, 2) + be_bytes((size - 2) as nat, 2) + be_bytes(0, 2) + be_bytes(
        rec.m_index as nat,
        1,
    ) + be_bytes(0, 2) + be_bytes(1, 2) + be_bytes(1, 1) + be_bytes((rec.m_nb_comps | mask) as nat, 2)
        + comp_numbers(rec.m_nb_comps as nat, bpc) + be_bytes((rec.m_nb_comps | mask) as nat, 2)
        + comp_numbers(rec.m_nb_comps as nat, bpc) + be_bytes(mcc_tmcci(rec, mct) as nat, 3)
}

fn push_comp_numbers(out: &mut Vec<u8>, n: u32, bpc: usize)
    requires
        1 <= bpc <= 2,
    ensures
        final(out)@ == old(out)@ + comp_numbers(n as nat, bpc as nat),
{
    let ghost start = out@;
    let mut i: u32 = 0;
    while i < n
        invariant
            i <= n,
            1 <= bpc <= 2,
            out@ == start + comp_numbers(i as nat, bpc as nat),
        decreases n - i,
    {
        push_be(out, i, bpc);
        i = i + 1;
        assert(out@ =~= start + comp_numbers(i as nat, bpc as nat));
    }
}

/// Writes the MCC segment of a collection, given the indices of the tile's
/// MCT records, to which its arrays point.
pub fn opj_j2k_write_mcc_record(rec: &opj_mcc_record, mct: &[u32]) -> (r: Vec<u8>)
    requires
        rec.m_nb_comps <= 16384,
        rec.m_decorrelation_array matches Some(p) ==> p < mct@.len(),
        rec.m_offset_array matches Some(p) ==> p < mct@.len(),
    ensures
        r@ == mcc_segment(*rec, mct@),
{
    let n = rec.m_nb_comps;
    let (bpc, mask): (usize, u32) = if n > 255 {
        (2, 0x8000)
    } else {
        (1, 0)
    };
    assert(2 * n * bpc <= 2 * 16384 * 2) by (nonlinear_arith)
        requires
            n <= 16384,
            bpc <= 2,
    ;
    let size: u32 = 19 + 2 * n * bpc as u32;
    let mut out: Vec<u8> = Vec::new();
    push_be(&mut out, J2K_MS_MCC, 2);
    push_be(&mut out, size - 2, 2);
    push_be(&mut out, 0, 2);
    push_be(&mut out, rec.m_index, 1);
    push_be(&mut out, 0, 2);
    push_be(&mut out, 1, 2);
    push_be(&mut out, 1, 1);
    push_be(&mut out, n | mask, 2);
    push_comp_numbers(&mut out, n, bpc);
    push_be(&mut out, n | mask, 2);
    push_comp_numbers(&mut out, n, bpc);
    let rev: u32 = if rec.m_is_irreversible {
        0
    } else {
        1
    };
    let deco: u32 = match rec.m_decorrelation_array {
        Some(p) => mct[p],
        None => 0,
    };
    let off: u32 = match rec.m_offset_array {
        Some(p) => mct[p] << 8u32,
        None => 0,
    };
    let tmcci: u32 = (rev << 16u32) | deco | off;
    push_be(&mut out, tmcci, 3);
    out
}

/// The MCO segment of a tile's collections: their number, then the index
/// of each, in one byte.
pub open spec fn mco_segment(recs: Seq<opj_mcc_record>) -> Seq<u8> {
    be_bytes(J2K_MS_MCO as nat, 2) + be_bytes((3 + recs.len()) as nat, 2) + be_bytes(
        recs.len() as nat,
        1,
    ) + Seq::new(recs.len(), |i: int| (recs[i].m_index % 256) as u8)
}

/// Writes the MCO segment of a tile: the collections applied to it, in
/// order.
pub fn opj_j2k_write_mco(recs: &Vec<opj_mcc_record>) -> (r: Vec<u8>)
    requires
        recs@.len() + 5 <= 0xffff_ffff,
    ensures
        r@ == mco_segment(recs@),
{
    let n = recs.len() as u32;
    let mut out: Vec<u8> = Vec::new();
    push_be(&mut out, J2K_MS_MCO, 2);
    push_be(&mut out, 5 + n - 2, 2);
    push_be(&mut out, n, 1);
    let ghost head = out@;
    let mut i: usize = 0;
    while i < recs.len()
        invariant
            i <= recs@.len(),
            out@ == head + Seq::new(i as nat, |k: int| (recs@[k].m_index % 256) as u8),
        decreases recs@.len() - i,
    {
        out.push((recs[i].m_index % 256) as u8);
        i = i + 1;
        assert(out@ =~= head + Seq::new(i as nat, |k: int| (recs@[k].m_index % 256) as u8));
    }
    out
}

/// The indices of MCT records.
pub open spec fn mct_indices(recs: Seq<opj_mct_data>) -> Seq<u32> {
    Seq::new(recs.len(), |i: int| recs[i].m_index)
}

/// The MCT segments of the first `n` records, one after the other.
pub open spec fn mct_segments(recs: Seq<opj_mct_data>, n: int) -> Seq<u8>
    decreases n,
{
    if n <= 0 {
        Seq::empty()
    } else {
        mct_segments(recs, n - 1) + mct_segment(recs[n - 1])
    }
}

/// The MCC segments of the first `n` collections, one after the other.
pub open spec fn mcc_segments(recs: Seq<opj_mcc_record>, mct: Seq<u32>, n: int) -> Seq<u8>
    decreases n,
{
    if n <= 0 {
        Seq::empty()
    } else {
        mcc_segments(recs, mct, n - 1) + mcc_segment(recs[n - 1], mct)
    }
}

/// Writes the segments of a custom component transformation: the bit
/// depths of the components, the MCT segment of every record, the MCC
/// segment of every collection and the MCO segment that applies them.
pub fn opj_j2k_write_mct_data_group(
    comps: &Vec<opj_image_comp>,
    mct_records: &Vec<opj_mct_data>,
    mcc_records: &Vec<opj_mcc_record>,
) -> (r: Vec<u8>)
    requires
        comps@.len() + 6 <= 0xffff_ffff,
        forall|i: int|
            0 <= i < mct_records@.len() ==> (#[trigger] mct_records@[i]).m_array_type < 4
                && mct_records@[i].m_data@.len() + 10 <= 0xffff_ffff,
        forall|i: int|
            0 <= i < mcc_records@.len() ==> {
                let c = #[trigger] mcc_records@[i];
                &&& c.m_nb_comps <= 16384
                &&& c.m_decorrelation_array matches Some(p) ==> p < mct_records@.len()
                &&& c.m_offset_array matches Some(p) ==> p < mct_records@.len()
            },
        mcc_records@.len() + 5 <= 0xffff_ffff,
    ensures
        r@ == cbd_segment(comps@) + mct_segments(mct_records@, mct_records@.len() as int)
            + mcc_segments(mcc_records@, mct_indices(mct_records@), mcc_records@.len() as int)
            + mco_segment(mcc_records@),
{
    let mut out = opj_j2k_write_cbd(comps);
    let ghost a = out@;
    let mut i: usize = 0;
    while i < mct_records.len()
        invariant
            i <= mct_records@.len(),
            forall|k: int|
                0 <= k < mct_records@.len() ==> (#[trigger] mct_records@[k]).m_array_type < 4
                    && mct_records@[k].m_data@.len() + 10 <= 0xffff_ffff,
            out@ == a + mct_segments(mct_records@, i as int),
        decreases mct_records@.len() - i,
    {
        let seg = opj_j2k_write_mct_record(&mct_records[i]);
        let ghost before = out@;
        let mut k: usize = 0;
        while k < seg.len()
            invariant
                k <= seg@.len(),
                out@ == before + seg@.subrange(0, k as int),
            decreases seg@.len() - k,
        {
            out.push(seg[k]);
            k = k + 1;
            assert(out@ =~= before + seg@.subrange(0, k as int));
        }
        assert(seg@.subrange(0, seg@.len() as int) =~= seg@);
        i = i + 1;
        assert(out@ =~= a + mct_segments(mct_records@, i as int));
    }
    let mut idx: Vec<u32> = Vec::new();
    let mut j: usize = 0;
    while j < mct_records.len()
        invariant
            j <= mct_records@.len(),
            idx@ == mct_indices(mct_records@).subrange(0, j as int),
        decreases mct_records@.len() - j,
    {
        idx.push(mct_records[j].m_index);
        j = j + 1;
        assert(idx@ =~= mct_indices(mct_records@).subrange(0, j as int));
    }
    assert(idx@ =~= mct_indices(mct_records@));
    let ghost b = out@;
    let mut i: usize = 0;
    while i < mcc_records.len()
        invariant
            i <= mcc_records@.len(),
            idx@ == mct_indices(mct_records@),
            idx@.len() == mct_records@.len(),
            forall|k: int|
                0 <= k < mcc_records@.len() ==> {
                    let c = #[trigger] mcc_records@[k];
                    &&& c.m_nb_comps <= 16384
                    &&& c.m_decorrelation_array matches Some(p) ==> p < mct_records@.len()
                    &&& c.m_offset_array matches Some(p) ==> p < mct_records@.len()
                },
            out@ == b + mcc_segments(mcc_records@, idx@, i as int),
        decreases mcc_records@.len() - i,
    {
        let seg = opj_j2k_write_mcc_record(&mcc_records[i], idx.as_slice());
        let ghost before = out@;
        let mut k: usize = 0;
        while k < seg.len()
            invariant
                k <= seg@.len(),
                out@ == before + seg@.subrange(0, k as int),
            decreases seg@.len() - k,
        {
            out.push(seg[k]);
            k = k + 1;
            assert(out@ =~= before + seg@.subrange(0, k as int));
        }
        assert(seg@.subrange(0, seg@.len() as int) =~= seg@);
        i = i + 1;
        assert(out@ =~= b + mcc_segments(mcc_records@, idx@, i as int));
    }
    let mco = opj_j2k_write_mco(mcc_records);
    let ghost c = out@;
    let mut k: usize = 0;
    while k < mco.len()
        invariant
            k <= mco@.len(),
            out@ == c + mco@.subrange(0, k as int),
        decreases mco@.len() - k,
    {
        out.push(mco[k]);
        k = k + 1;
        assert(out@ =~= c + mco@.subrange(0, k as int));
    }
    assert(mco@.subrange(0, mco@.len() as int) =~= mco@);
    out
}

} // verus!
