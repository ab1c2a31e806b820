//! The coding style and quantization of tile components, as the COD, COC,
//! QCD and QCC marker segments carry them: their SPcod/SPcoc and SQcd/SQcc
//! elements, read into and written from the parameters of a component.
use vstd::prelude::*;

use crate::cio::{be_bytes, lemma_be_bytes, push_be};
use crate::encoder::{opj_stepsize, opj_tccp, opj_tcp, OPJ_J2K_MAXBANDS};

verus! {

/// Why a coding style or quantization element was refused.
#[derive(Clone, Copy, Debug, PartialEq, Eq, Structural)]
pub enum CodingError {
    /// An SPcod or SPcoc element is shorter than its fields.
    SPCodTooShort,
    /// More than 33 resolutions.
    TooManyResolutions,
    /// The decoder is asked to remove as many resolutions as there are, or
    /// more.
    ReduceTooLarge,
    /// The code-block width or height exponent is out of range.
    BadCodeBlockSize,
    /// Code blocks of mixed HT style, which are not supported.
    MixedHtCodeBlocks,
    /// A wavelet transformation other than 9-7 or 5-3.
    BadTransform,
    /// A precinct exponent of zero above the lowest resolution.
    BadPrecinctSize,
    /// An SQcd or SQcc element is shorter than its step sizes.
    SQcdTooShort,
}

/// One byte of the data, as an integer.
pub open spec fn at(d: Seq<u8>, i: int) -> int {
    d[i] as int
}

/// The number of resolutions that an SPcod element at `pos` gives.
pub open spec fn spcod_numres(d: Seq<u8>, pos: int) -> int {
    at(d, pos) + 1
}

/// A precinct byte whose width and height exponents are both non-zero.
pub open spec fn precinct_ok(b: u8) -> bool {
    b % 16 != 0 && b / 16 != 0
}

/// How the fixed fields of an SPcod or SPcoc element of `size` bytes at
/// `pos` are refused, for a component of coding style `csty` of which
/// `reduce` resolutions are to be removed.
pub open spec fn spcod_head_error(csty: u32, reduce: u32, d: Seq<u8>, pos: int, size: int) -> Option<
    CodingError,
> {
    let nr = spcod_numres(d, pos);
    let w = at(d, pos + 1) + 2;
    let h = at(d, pos + 2) + 2;
    if size < 5 {
        Some(CodingError::SPCodTooShort)
    } else if nr > 33 {
        Some(CodingError::TooManyResolutions)
    } else if reduce >= nr {
        Some(CodingError::ReduceTooLarge)
    } else if w > 10 || h > 10 || w + h > 12 {
        Some(CodingError::BadCodeBlockSize)
    } else if at(d, pos + 3) >= 128 {
        Some(CodingError::MixedHtCodeBlocks)
    } else if at(d, pos + 4) > 1 {
        Some(CodingError::BadTransform)
    } else if csty % 2 == 1 && size - 5 < nr {
        Some(CodingError::SPCodTooShort)
    } else {
        None
    }
}

/// How an SPcod or SPcoc element is refused; `None` when it is accepted.
pub open spec fn spcod_error(csty: u32, reduce: u32, d: Seq<u8>, pos: int, size: int) -> Option<
    CodingError,
> {
    let nr = spcod_numres(d, pos);
    if spcod_head_error(csty, reduce, d, pos, size) is Some {
        spcod_head_error(csty, reduce, d, pos, size)
    } else if csty % 2 == 1 && exists|i: int| 1 <= i < nr && !precinct_ok(#[trigger] d[pos + 5 + i]) {
        Some(CodingError::BadPrecinctSize)
    } else {
        None
    }
}

/// The bytes an SPcod element takes: five, and one per resolution with
/// custom precincts.
pub open spec fn spcod_len(csty: u32, d: Seq<u8>, pos: int) -> int {
    if csty % 2 == 1 {
        5 + spcod_numres(d, pos)
    } else {
        5
    }
}

/// The precinct width exponents an SPcod element gives: from its bytes with
/// custom precincts, else 15 for every resolution.
pub open spec fn spcod_prcw(csty: u32, d: Seq<u8>, pos: int) -> Seq<u32> {
    Seq::new(
        spcod_numres(d, pos) as nat,
        |i: int|
            if csty % 2 == 1 {
                (d[pos + 5 + i] % 16) as u32
            } else {
                15u32
            },
    )
}

/// The precinct height exponents an SPcod element gives.
pub open spec fn spcod_prch(csty: u32, d: Seq<u8>, pos: int) -> Seq<u32> {
    Seq::new(
        spcod_numres(d, pos) as nat,
        |i: int|
            if csty % 2 == 1 {
                (d[pos + 5 + i] / 16) as u32
            } else {
                15u32
            },
    )
}

/// `t` has the coding style that the SPcod element at `pos` gives, for a
/// component of coding style `csty`.
pub open spec fn spcod_fields(t: opj_tccp, csty: u32, d: Seq<u8>, pos: int) -> bool {
    &&& t.numresolutions == spcod_numres(d, pos)
    &&& t.cblkw == at(d, pos + 1) + 2
    &&& t.cblkh == at(d, pos + 2) + 2
    &&& t.cblksty == at(d, pos + 3)
    &&& t.qmfbid == at(d, pos + 4)
    &&& t.prcw@ == spcod_prcw(csty, d, pos)
    &&& t.prch@ == spcod_prch(csty, d, pos)
}

/// `t` keeps the coding style, region of interest and level shift of `old`.
pub open spec fn style_kept(old: opj_tccp, t: opj_tccp) -> bool {
    &&& t.csty == old.csty
    &&& t.numresolutions == old.numresolutions
    &&& t.cblkw == old.cblkw
    &&& t.cblkh == old.cblkh
    &&& t.cblksty == old.cblksty
    &&& t.qmfbid == old.qmfbid
    &&& t.roishift == old.roishift
    &&& t.prcw@ == old.prcw@
    &&& t.prch@ == old.prch@
    &&& t.m_dc_level_shift == old.m_dc_level_shift
}

/// `t` keeps the quantization, region of interest and level shift of `old`.
pub open spec fn quant_kept(old: opj_tccp, t: opj_tccp) -> bool {
    &&& t.qntsty == old.qntsty
    &&& t.numgbits == old.numgbits
    &&& t.roishift == old.roishift
    &&& t.stepsizes@ == old.stepsizes@
    &&& t.m_dc_level_shift == old.m_dc_level_shift
}

/// `t` is `old` with the coding style that the SPcod element at `pos`
/// gives; what the element does not carry is kept.
pub open spec fn spcod_read(old: opj_tccp, t: opj_tccp, d: Seq<u8>, pos: int) -> bool {
    &&& spcod_fields(t, old.csty, d, pos)
    &&& t.csty == old.csty
    &&& quant_kept(old, t)
}

/// Checks an SPcod or SPcoc element without reading it into a component:
/// the bytes it takes, or why it is refused.
pub fn opj_j2k_check_SPCod_SPCoc(csty: u32, reduce: u32, data: &[u8], pos: usize, size: u32) -> (r:
    Result<u32, CodingError>)
    requires
        pos + size <= data@.len(),
    ensures
        match spcod_error(csty, reduce, data@, pos as int, size as int) {
            Some(e) => r == Err::<u32, CodingError>(e),
            None => r == Ok::<u32, CodingError>(spcod_len(csty, data@, pos as int) as u32),
        },
{
    if size < 5 {
        return Err(CodingError::SPCodTooShort);
    }
    let nr: u32 = data[pos] as u32 + 1;
    if nr > 33 {
        return Err(CodingError::TooManyResolutions);
    }
    if reduce >= nr {
        return Err(CodingError::ReduceTooLarge);
    }
    let w: u32 = data[pos + 1] as u32 + 2;
    let h: u32 = data[pos + 2] as u32 + 2;
    if w > 10 || h > 10 || w + h > 12 {
        return Err(CodingError::BadCodeBlockSize);
    }
    if data[pos + 3] >= 128 {
        return Err(CodingError::MixedHtCodeBlocks);
    }
    if data[pos + 4] > 1 {
        return Err(CodingError::BadTransform);
    }
    if csty % 2 == 1 {
        if size - 5 < nr {
            return Err(CodingError::SPCodTooShort);
        }
        let mut i: u32 = 1;
        while i < nr
            invariant
                1 <= i <= nr <= 33,
                pos + 5 + nr <= data@.len() <= usize::MAX,
                csty % 2 == 1,
                spcod_head_error(csty, reduce, data@, pos as int, size as int) is None,
                nr == spcod_numres(data@, pos as int),
                forall|j: int| 1 <= j < i ==> precinct_ok(#[trigger] data@[pos + 5 + j]),
            decreases nr - i,
        {
            let b = data[pos + 5 + i as usize];
            if !(b % 16 != 0 && b / 16 != 0) {
                assert(!precinct_ok(data@[pos + 5 + i]));
                return Err(CodingError::BadPrecinctSize);
            }
            i = i + 1;
        }
        Ok(5 + nr)
    } else {
        Ok(5)
    }
}

/// Reads an SPcod or SPcoc element of `*header_size` bytes at `pos` into
/// the component `tccp`, of which `reduce` resolutions are to be removed.
/// On success the bytes it took are deducted from `*header_size`; when it is
/// refused nothing changes.
pub fn opj_j2k_read_SPCod_SPCoc(
    tccp: &mut opj_tccp,
    reduce: u32,
    data: &[u8],
    pos: usize,
    header_size: &mut u32,
) -> (r: Result<(), CodingError>)
    requires
        pos + *old(header_size) <= data@.len(),
    ensures
        match spcod_error(old(tccp).csty, reduce, data@, pos as int, *old(header_size) as int) {
            Some(e) => r == Err::<(), CodingError>(e) && *final(tccp) == *old(tccp) && *final(header_size) == *old(header_size),
            None => r is Ok && spcod_read(*old(tccp), *final(tccp), data@, pos as int) && *final(header_size) == *old(header_size) - spcod_len(old(tccp).csty, data@, pos as int),
        },
{
    let len = match opj_j2k_check_SPCod_SPCoc(tccp.csty, reduce, data, pos, *header_size) {
        Ok(n) => n,
        Err(e) => {
            return Err(e);
        },
    };
    let nr: u32 = data[pos] as u32 + 1;
    let custom = tccp.csty % 2 == 1;
    let mut prcw: Vec<u32> = Vec::new();
    let mut prch: Vec<u32> = Vec::new();
    let mut i: u32 = 0;
    while i < nr
        invariant
            i <= nr <= 33,
            nr == spcod_numres(data@, pos as int),
            custom == (tccp.csty % 2 == 1),
            custom ==> pos + 5 + nr <= data@.len() <= usize::MAX,
            prcw@.len() == i,
            prch@.len() == i,
            forall|j: int| 0 <= j < i ==> #[trigger] prcw@[j] == spcod_prcw(tccp.csty, data@, pos as int)[j],
            forall|j: int| 0 <= j < i ==> #[trigger] prch@[j] == spcod_prch(tccp.csty, data@, pos as int)[j],
        decreases nr - i,
    {
        if custom {
            let b = data[pos + 5 + i as usize];
            prcw.push((b % 16) as u32);
            prch.push((b / 16) as u32);
        } else {
            prcw.push(15);
            prch.push(15);
        }
        i = i + 1;
    }
    assert(prcw@ =~= spcod_prcw(tccp.csty, data@, pos as int));
    assert(prch@ =~= spcod_prch(tccp.csty, data@, pos as int));
    tccp.numresolutions = nr;
    tccp.cblkw = data[pos + 1] as u32 + 2;
    tccp.cblkh = data[pos + 2] as u32 + 2;
    tccp.cblksty = data[pos + 3] as u32;
    tccp.qmfbid = data[pos + 4] as u32;
    tccp.prcw = prcw;
    tccp.prch = prch;
    *header_size = *header_size - len;
    Ok(())
}

/// The SPcod or SPcoc element that the component's coding style is written
/// as: each field in one byte, and with custom precincts one byte per
/// resolution, the height exponent in its upper half.
pub open spec fn spcod_bytes(t: opj_tccp) -> Seq<u8> {
    seq![
        ((t.numresolutions + 255) % 256) as u8,
        ((t.cblkw + 254) % 256) as u8,
        ((t.cblkh + 254) % 256) as u8,
        (t.cblksty % 256) as u8,
        (t.qmfbid % 256) as u8,
    ] + if t.csty % 2 == 1 {
        precinct_bytes(t)
    } else {
        Seq::empty()
    }
}

/// The custom precincts of a component, one byte per resolution with the
/// height exponent in its upper half.
pub open spec fn precinct_bytes(t: opj_tccp) -> Seq<u8> {
    Seq::new(t.numresolutions as nat, |i: int| ((t.prcw@[i] + t.prch@[i] * 16) % 256) as u8)
}

/// The bytes the component's SPcod or SPcoc element takes.
pub open spec fn spcod_size(t: opj_tccp) -> int {
    if t.csty % 2 == 1 {
        5 + t.numresolutions
    } else {
        5
    }
}

/// The number of bytes the SPcod or SPcoc element of a component takes.
pub fn opj_j2k_get_SPCod_SPCoc_size(tccp: &opj_tccp) -> (r: u32)
    requires
        tccp.numresolutions <= 33,
    ensures
        r == spcod_size(*tccp),
{
    if tccp.csty % 2 == 1 {
        5 + tccp.numresolutions
    } else {
        5
    }
}

/// Writes the SPcod or SPcoc element of a component after `out`, where
/// `*header_size` bytes are left. It fails, writing nothing, when the element
/// does not fit; else the bytes it took are deducted from `*header_size`.
pub fn opj_j2k_write_SPCod_SPCoc(tccp: &opj_tccp, out: &mut Vec<u8>, header_size: &mut u32) -> (r:
    bool)
    requires
        tccp.csty % 2 == 1 ==> tccp.numresolutions <= tccp.prcw@.len() && tccp.numresolutions
            <= tccp.prch@.len(),
    ensures
        r == (*old(header_size) >= spcod_size(*tccp)),
        r ==> final(out)@ == old(out)@ + spcod_bytes(*tccp) && *final(header_size) == *old(header_size) - spcod_size(*tccp),
        !r ==> final(out)@ == old(out)@ && *final(header_size) == *old(header_size),
{
    let custom = tccp.csty % 2 == 1;
    if *header_size < 5 || (custom && *header_size - 5 < tccp.numresolutions) {
        return false;
    }
    let ghost start = out@;
    out.push(((tccp.numresolutions as u64 + 255) % 256) as u8);
    out.push(((tccp.cblkw as u64 + 254) % 256) as u8);
    out.push(((tccp.cblkh as u64 + 254) % 256) as u8);
    out.push((tccp.cblksty % 256) as u8);
    out.push((tccp.qmfbid % 256) as u8);
    let ghost head = out@;
    assert(head =~= start + spcod_bytes(*tccp).subrange(0, 5));
    if custom {
        let mut i: u32 = 0;
        while i < tccp.numresolutions
            invariant
                i <= tccp.numresolutions <= tccp.prcw@.len(),
                tccp.numresolutions <= tccp.prch@.len(),
                out@.len() == head.len() + i,
                forall|j: int| 0 <= j < head.len() ==> #[trigger] out@[j] == head[j],
                forall|j: int|
                    0 <= j < i ==> #[trigger] out@[head.len() + j] == ((tccp.prcw@[j] + tccp.prch@[j]
                        * 16) % 256) as u8,
            decreases tccp.numresolutions - i,
        {
            let w = tccp.prcw[i as usize] as u64;
            let h = tccp.prch[i as usize] as u64;
            out.push(((w + h * 16) % 256) as u8);
            i = i + 1;
        }
        *header_size = *header_size - 5 - tccp.numresolutions;
        assert(out@.len() == head.len() + precinct_bytes(*tccp).len());
        assert forall|k: int| 0 <= k < out@.len() implies #[trigger] out@[k] == (head + precinct_bytes(*tccp))[k] by {
            if k >= head.len() {
                assert(out@[head.len() + (k - head.len())] == ((tccp.prcw@[k - head.len()] + tccp.prch@[k - head.len()] * 16) % 256) as u8);
            }
        }
        assert(out@ =~= head + precinct_bytes(*tccp));
    } else {
        *header_size = *header_size - 5;
    }
    assert(out@ =~= start + spcod_bytes(*tccp));
    true
}

/// A component whose coding style its SPcod element carries whole, for a
/// decoder that removes `reduce` resolutions: every field in its range, and
/// the precincts either custom, 4-bit and non-zero above the lowest
/// resolution, or all of the default size.
pub open spec fn spcod_valid(t: opj_tccp, reduce: u32) -> bool {
    &&& 1 <= t.numresolutions <= 33
    &&& reduce < t.numresolutions
    &&& 2 <= t.cblkw <= 10
    &&& 2 <= t.cblkh <= 10
    &&& t.cblkw + t.cblkh <= 12
    &&& t.cblksty < 128
    &&& t.qmfbid <= 1
    &&& t.prcw@.len() == t.numresolutions
    &&& t.prch@.len() == t.numresolutions
    &&& forall|i: int|
        #![trigger t.prcw@[i]]
        #![trigger t.prch@[i]]
        0 <= i < t.numresolutions ==> if t.csty % 2 == 1 {
            &&& t.prcw@[i] <= 15
            &&& t.prch@[i] <= 15
            &&& i >= 1 ==> t.prcw@[i] >= 1 && t.prch@[i] >= 1
        } else {
            t.prcw@[i] == 15 && t.prch@[i] == 15
        }
}

proof fn lemma_precinct_byte(w: u32, h: u32)
    requires
        w <= 15,
        h <= 15,
    ensures
        ((w + h * 16) % 256) as u8 % 16 == w,
        ((w + h * 16) % 256) as u8 / 16 == h,
{
    assert((w + h * 16) % 256 == w + h * 16);
    assert((w + h * 16) % 16 == w && (w + h * 16) / 16 == h) by (nonlinear_arith)
        requires
            w <= 15,
            h <= 15,
    ;
}

/// The SPcod element of a valid component, written after any bytes `pre`,
/// is accepted there, takes its bytes, and carries every field and precinct.
pub proof fn lemma_spcod_at(t: opj_tccp, reduce: u32, pre: Seq<u8>)
    requires
        spcod_valid(t, reduce),
    ensures
        ({
            let d = pre + spcod_bytes(t);
            let pos = pre.len() as int;
            &&& spcod_bytes(t).len() == spcod_size(t)
            &&& spcod_error(t.csty, reduce, d, pos, spcod_size(t)) is None
            &&& spcod_len(t.csty, d, pos) == spcod_size(t)
            &&& spcod_numres(d, pos) == t.numresolutions
            &&& at(d, pos + 1) + 2 == t.cblkw
            &&& at(d, pos + 2) + 2 == t.cblkh
            &&& at(d, pos + 3) == t.cblksty
            &&& at(d, pos + 4) == t.qmfbid
            &&& spcod_prcw(t.csty, d, pos) == t.prcw@
            &&& spcod_prch(t.csty, d, pos) == t.prch@
        }),
{
    let b = spcod_bytes(t);
    let d = pre + b;
    let pos = pre.len() as int;
    assert forall|i: int| 0 <= i < b.len() implies d[pos + i] == #[trigger] b[i] by {}
    assert(d[pos] == b[0] && d[pos + 1] == b[1] && d[pos + 2] == b[2]);
    assert(d[pos + 3] == b[3] && d[pos + 4] == b[4]);
    if t.csty % 2 == 1 {
        assert forall|i: int| 0 <= i < t.numresolutions implies d[pos + 5 + i] % 16 == t.prcw@[i]
            && d[pos + 5 + i] / 16 == t.prch@[i] by {
            assert(d[pos + (5 + i)] == b[5 + i]);
            assert(b[5 + i] == precinct_bytes(t)[i]);
            lemma_precinct_byte(t.prcw@[i], t.prch@[i]);
        }
        assert(!(exists|i: int| 1 <= i < spcod_numres(d, pos) && !precinct_ok(#[trigger] d[pos + 5 + i])));
    }
    assert(spcod_prcw(t.csty, d, pos) =~= t.prcw@);
    assert(spcod_prch(t.csty, d, pos) =~= t.prch@);
}

/// Reading back the SPcod element written for a component gives its coding
/// style: the element is accepted, takes all its bytes, and carries every
/// field and precinct.
pub proof fn lemma_spcod_roundtrip(t: opj_tccp, reduce: u32)
    requires
        spcod_valid(t, reduce),
    ensures
        spcod_error(t.csty, reduce, spcod_bytes(t), 0, spcod_bytes(t).len() as int) is None,
        spcod_len(t.csty, spcod_bytes(t), 0) == spcod_bytes(t).len(),
        spcod_bytes(t).len() == spcod_size(t),
        forall|u: opj_tccp, v: opj_tccp|
            u.csty == t.csty && #[trigger] spcod_read(u, v, spcod_bytes(t), 0) ==> spcod_same(v, t)
                && v.prcw@ == t.prcw@ && v.prch@ == t.prch@,
{
    lemma_spcod_at(t, reduce, Seq::empty());
    assert(Seq::<u8>::empty() + spcod_bytes(t) =~= spcod_bytes(t));
}

/// Two components share their SPcod element: the same resolutions,
/// code blocks, transformation, precinct choice and precincts.
pub open spec fn spcod_same(a: opj_tccp, b: opj_tccp) -> bool {
    &&& a.numresolutions == b.numresolutions
    &&& a.cblkw == b.cblkw
    &&& a.cblkh == b.cblkh
    &&& a.cblksty == b.cblksty
    &&& a.qmfbid == b.qmfbid
    &&& a.csty % 2 == b.csty % 2
    &&& forall|i: int|
        0 <= i < a.numresolutions ==> a.prcw@[i] == b.prcw@[i] && a.prch@[i] == b.prch@[i]
}

/// Whether two components have the same SPcod or SPcoc element.
pub fn opj_j2k_compare_SPCod_SPCoc(a: &opj_tccp, b: &opj_tccp) -> (r: bool)
    requires
        a.numresolutions <= a.prcw@.len(),
        a.numresolutions <= a.prch@.len(),
        a.numresolutions == b.numresolutions ==> a.numresolutions <= b.prcw@.len()
            && a.numresolutions <= b.prch@.len(),
    ensures
        r == spcod_same(*a, *b),
{
    if a.numresolutions != b.numresolutions || a.cblkw != b.cblkw || a.cblkh != b.cblkh
        || a.cblksty != b.cblksty || a.qmfbid != b.qmfbid || a.csty % 2 != b.csty % 2 {
        return false;
    }
    let mut i: u32 = 0;
    while i < a.numresolutions
        invariant
            i <= a.numresolutions,
            a.numresolutions == b.numresolutions,
            a.numresolutions <= a.prcw@.len(),
            a.numresolutions <= a.prch@.len(),
            a.numresolutions <= b.prcw@.len(),
            a.numresolutions <= b.prch@.len(),
            forall|j: int| 0 <= j < i ==> a.prcw@[j] == b.prcw@[j] && a.prch@[j] == b.prch@[j],
        decreases a.numresolutions - i,
    {
        if a.prcw[i as usize] != b.prcw[i as usize] || a.prch[i as usize] != b.prch[i as usize] {
            return false;
        }
        i = i + 1;
    }
    true
}

/// The quantization style an SQcd or SQcc element at `pos` gives.
pub open spec fn sqcd_qntsty(d: Seq<u8>, pos: int) -> u32 {
    (d[pos] % 32) as u32
}

/// The number of guard bits an SQcd or SQcc element at `pos` gives.
pub open spec fn sqcd_numgbits(d: Seq<u8>, pos: int) -> u32 {
    (d[pos] / 32) as u32
}

/// The number of step sizes an element carries in `rest` bytes: one when
/// they are derived, else one per byte without a mantissa, one per two bytes
/// with one.
pub open spec fn sqcd_bands(qntsty: u32, rest: int) -> int {
    if qntsty == 1 {
        1
    } else if qntsty == 0 {
        rest
    } else {
        rest / 2
    }
}

/// The bytes those step sizes take.
pub open spec fn sqcd_need(qntsty: u32, rest: int) -> int {
    if qntsty == 0 {
        sqcd_bands(qntsty, rest)
    } else {
        2 * sqcd_bands(qntsty, rest)
    }
}

/// An SQcd or SQcc element of `size` bytes at `pos` is accepted: it has its
/// style byte and room for its step sizes.
pub open spec fn sqcd_ok(d: Seq<u8>, pos: int, size: int) -> bool {
    size >= 1 && size - 1 >= sqcd_need(sqcd_qntsty(d, pos), size - 1)
}

/// The bytes an accepted SQcd or SQcc element takes.
pub open spec fn sqcd_len(d: Seq<u8>, pos: int, size: int) -> int {
    1 + sqcd_need(sqcd_qntsty(d, pos), size - 1)
}

/// Step size `k` as the element at `pos` writes it: an exponent in the upper
/// five bits of a byte, or an exponent and an 11-bit mantissa in two bytes.
pub open spec fn sqcd_parsed(d: Seq<u8>, pos: int, qntsty: u32, k: int) -> opj_stepsize {
    if qntsty == 0 {
        opj_stepsize { expn: (d[pos + 1 + k] / 8) as i32, mant: 0 }
    } else {
        let v = at(d, pos + 1 + 2 * k) * 256 + at(d, pos + 2 + 2 * k);
        opj_stepsize { expn: (v / 2048) as i32, mant: (v % 2048) as i32 }
    }
}

/// Step size `k` derived from the first one: its exponent lowered by one
/// every three sub-bands, down to zero, and its mantissa.
pub open spec fn derived_step(s0: opj_stepsize, k: int) -> opj_stepsize {
    opj_stepsize {
        expn: if s0.expn - (k - 1) / 3 > 0 {
            (s0.expn - (k - 1) / 3) as i32
        } else {
            0i32
        },
        mant: s0.mant,
    }
}

/// The step sizes after reading the element at `pos` over `old`: derived
/// from the one it carries, or those it carries followed by the old ones.
pub open spec fn sqcd_steps(old: Seq<opj_stepsize>, d: Seq<u8>, pos: int, size: int) -> Seq<
    opj_stepsize,
> {
    let q = sqcd_qntsty(d, pos);
    let nb = sqcd_bands(q, size - 1);
    Seq::new(
        OPJ_J2K_MAXBANDS as nat,
        |k: int|
            if q == 1 {
                if k == 0 {
                    sqcd_parsed(d, pos, q, 0)
                } else {
                    derived_step(sqcd_parsed(d, pos, q, 0), k)
                }
            } else if k < nb {
                sqcd_parsed(d, pos, q, k)
            } else {
                old[k]
            },
    )
}

/// `t` is `old` with the quantization that the SQcd element of `size` bytes
/// at `pos` gives; what the element does not carry is kept.
pub open spec fn sqcd_read(old: opj_tccp, t: opj_tccp, d: Seq<u8>, pos: int, size: int) -> bool {
    &&& t.qntsty == sqcd_qntsty(d, pos)
    &&& t.numgbits == sqcd_numgbits(d, pos)
    &&& t.stepsizes@ == sqcd_steps(old.stepsizes@, d, pos, size)
    &&& style_kept(old, t)
}

/// Checks an SQcd or SQcc element of `size` bytes at `pos`: the bytes it
/// takes, or why it is refused.
pub fn opj_j2k_check_SQcd_SQcc(data: &[u8], pos: usize, size: u32) -> (r: Result<u32, CodingError>)
    requires
        pos + size <= data@.len(),
    ensures
        sqcd_ok(data@, pos as int, size as int) ==> r == Ok::<u32, CodingError>(
            sqcd_len(data@, pos as int, size as int) as u32,
        ),
        !sqcd_ok(data@, pos as int, size as int) ==> r == Err::<u32, CodingError>(
            CodingError::SQcdTooShort,
        ),
{
    if size < 1 {
        return Err(CodingError::SQcdTooShort);
    }
    let rest = size - 1;
    let q: u32 = (data[pos] % 32) as u32;
    let nb: u32 = if q == 1 {
        1
    } else if q == 0 {
        rest
    } else {
        rest / 2
    };
    if q == 0 {
        if rest < nb {
            return Err(CodingError::SQcdTooShort);
        }
        Ok(1 + nb)
    } else {
        if rest / 2 < nb {
            return Err(CodingError::SQcdTooShort);
        }
        Ok(1 + 2 * nb)
    }
}

/// Reads an SQcd or SQcc element of `*header_size` bytes at `pos` into the
/// component `tccp`. On success the bytes it took are deducted from
/// `*header_size`; when it is refused nothing changes.
pub fn opj_j2k_read_SQcd_SQcc(tccp: &mut opj_tccp, data: &[u8], pos: usize, header_size: &mut u32) -> (r:
    Result<(), CodingError>)
    requires
        pos + *old(header_size) <= data@.len(),
        old(tccp).stepsizes@.len() == OPJ_J2K_MAXBANDS,
    ensures
        sqcd_ok(data@, pos as int, *old(header_size) as int) ==> r is Ok && sqcd_read(
            *old(tccp),
            *final(tccp),
            data@,
            pos as int,
            *old(header_size) as int,
        ) && *final(header_size) == *old(header_size) - sqcd_len(
            data@,
            pos as int,
            *old(header_size) as int,
        ),
        !sqcd_ok(data@, pos as int, *old(header_size) as int) ==> r == Err::<(), CodingError>(
            CodingError::SQcdTooShort,
        ) && *final(tccp) == *old(tccp) && *final(header_size) == *old(header_size),
{
    let size = *header_size;
    let len = match opj_j2k_check_SQcd_SQcc(data, pos, size) {
        Ok(n) => n,
        Err(e) => {
            return Err(e);
        },
    };
    let ghost d = data@;
    let ghost old_steps = tccp.stepsizes@;
    let q: u32 = (data[pos] % 32) as u32;
    let rest = size - 1;
    let nb: u32 = if q == 1 {
        1
    } else if q == 0 {
        rest
    } else {
        rest / 2
    };
    let lim: u32 = if nb < 97 {
        nb
    } else {
        97
    };
    let mut steps = tccp.stepsizes.clone();
    assert(steps@ =~= old_steps) by {
        assert(forall|k: int| 0 <= k < steps@.len() ==> vstd::pervasive::cloned(old_steps[k], #[trigger] steps@[k]));
    }
    let mut k: u32 = 0;
    while k < lim
        invariant
            k <= lim <= nb,
            lim <= 97,
            d == data@,
            q == sqcd_qntsty(d, pos as int),
            nb == sqcd_bands(q, size - 1),
            sqcd_ok(d, pos as int, size as int),
            pos + size <= d.len() <= usize::MAX,
            steps@.len() == OPJ_J2K_MAXBANDS,
            forall|j: int| 0 <= j < k ==> #[trigger] steps@[j] == sqcd_parsed(d, pos as int, q, j),
            forall|j: int| k <= j < 97 ==> #[trigger] steps@[j] == old_steps[j],
        decreases lim - k,
    {
        let s = if q == 0 {
            let b = data[pos + 1 + k as usize];
            opj_stepsize { expn: (b / 8) as i32, mant: 0 }
        } else {
            let v: u32 = data[pos + 1 + 2 * k as usize] as u32 * 256 + data[pos + 2 + 2 * k as usize] as u32;
            opj_stepsize { expn: (v / 2048) as i32, mant: (v % 2048) as i32 }
        };
        steps.set(k as usize, s);
        k = k + 1;
    }
    if q == 1 {
        let s0 = steps[0];
        assert(0 <= s0.expn < 32) by {
            let v = at(d, pos + 1) * 256 + at(d, pos + 2);
            assert(s0 == sqcd_parsed(d, pos as int, q, 0));
            assert(0 <= v <= 65535);
        }
        let mut k: u32 = 1;
        while k < 97
            invariant
                1 <= k <= 97,
                0 <= s0.expn < 32,
                steps@.len() == OPJ_J2K_MAXBANDS,
                s0 == steps@[0],
                forall|j: int| 1 <= j < k ==> #[trigger] steps@[j] == derived_step(s0, j),
            decreases 97 - k,
        {
            let e: i32 = if s0.expn - ((k - 1) / 3) as i32 > 0 {
                s0.expn - ((k - 1) / 3) as i32
            } else {
                0
            };
            steps.set(k as usize, opj_stepsize { expn: e, mant: s0.mant });
            k = k + 1;
        }
    }
    assert(steps@ =~= sqcd_steps(old_steps, d, pos as int, size as int));
    tccp.qntsty = q;
    tccp.numgbits = (data[pos] / 32) as u32;
    tccp.stepsizes = steps;
    *header_size = size - len;
    Ok(())
}

/// The number of step sizes a component's quantization writes: one when
/// the others are derived from it, else one per sub-band.
pub open spec fn sqcd_nbands(t: opj_tccp) -> int {
    if t.qntsty == 1 {
        1
    } else {
        3 * t.numresolutions - 2
    }
}

/// The bytes a component's SQcd or SQcc element takes.
pub open spec fn sqcd_size(t: opj_tccp) -> int {
    if t.qntsty == 0 {
        1 + sqcd_nbands(t)
    } else {
        1 + 2 * sqcd_nbands(t)
    }
}

/// The two bytes of step size `k` with a mantissa: the exponent above the
/// 11 bits of the mantissa, as 16 bits.
pub open spec fn step_word(t: opj_tccp, k: int) -> int {
    ((t.stepsizes@[k].expn as u32) as int * 2048 + (t.stepsizes@[k].mant as u32) as int) % 65536
}

/// The step sizes of a component as its SQcd or SQcc element writes them.
pub open spec fn step_bytes(t: opj_tccp) -> Seq<u8> {
    if t.qntsty == 0 {
        Seq::new(
            sqcd_nbands(t) as nat,
            |k: int| (((t.stepsizes@[k].expn as u32) as int * 8) % 256) as u8,
        )
    } else {
        Seq::new(
            (2 * sqcd_nbands(t)) as nat,
            |j: int|
                if j % 2 == 0 {
                    (step_word(t, j / 2) / 256) as u8
                } else {
                    (step_word(t, j / 2) % 256) as u8
                },
        )
    }
}

/// The SQcd or SQcc element of a component: its style and guard bits in one
/// byte, then its step sizes.
pub open spec fn sqcd_bytes(t: opj_tccp) -> Seq<u8> {
    seq![((t.qntsty + t.numgbits * 32) % 256) as u8] + step_bytes(t)
}

/// A component whose quantization an SQcd element can be written for: its
/// sub-bands, when it has a step size for each, are those of 1 to 33
/// resolutions.
pub open spec fn sqcd_writable(t: opj_tccp) -> bool {
    &&& t.qntsty != 1 ==> 1 <= t.numresolutions <= 33
    &&& t.stepsizes@.len() == OPJ_J2K_MAXBANDS
}

/// The number of bytes the SQcd or SQcc element of a component takes.
pub fn opj_j2k_get_SQcd_SQcc_size(tccp: &opj_tccp) -> (r: u32)
    requires
        sqcd_writable(*tccp),
    ensures
        r == sqcd_size(*tccp),
{
    let nb: u32 = if tccp.qntsty == 1 {
        1
    } else {
        3 * tccp.numresolutions - 2
    };
    if tccp.qntsty == 0 {
        1 + nb
    } else {
        1 + 2 * nb
    }
}

/// Writes the SQcd or SQcc element of a component after `out`, where
/// `*header_size` bytes are left. It fails, writing nothing, when the element
/// does not fit; else the bytes it took are deducted from `*header_size`.
pub fn opj_j2k_write_SQcd_SQcc(tccp: &opj_tccp, out: &mut Vec<u8>, header_size: &mut u32) -> (r:
    bool)
    requires
        sqcd_writable(*tccp),
    ensures
        r == (*old(header_size) >= sqcd_size(*tccp)),
        r ==> final(out)@ == old(out)@ + sqcd_bytes(*tccp) && *final(header_size) == *old(header_size)
            - sqcd_size(*tccp),
        !r ==> final(out)@ == old(out)@ && *final(header_size) == *old(header_size),
{
    let size = opj_j2k_get_SQcd_SQcc_size(tccp);
    if *header_size < size {
        return false;
    }
    let nb: u32 = if tccp.qntsty == 1 {
        1
    } else {
        3 * tccp.numresolutions - 2
    };
    let ghost start = out@;
    out.push(((tccp.qntsty as u64 + tccp.numgbits as u64 * 32) % 256) as u8);
    let ghost head = out@;
    let mut k: u32 = 0;
    while k < nb
        invariant
            k <= nb,
            nb == sqcd_nbands(*tccp),
            nb <= 97,
            sqcd_writable(*tccp),
            forall|j: int| 0 <= j < head.len() ==> #[trigger] out@[j] == head[j],
            tccp.qntsty == 0 ==> out@.len() == head.len() + k,
            tccp.qntsty != 0 ==> out@.len() == head.len() + 2 * k,
            forall|j: int|
                0 <= j < (if tccp.qntsty == 0 {
                    k as int
                } else {
                    2 * k
                }) ==> #[trigger] out@[head.len() + j] == step_bytes(*tccp)[j],
        decreases nb - k,
    {
        let s = tccp.stepsizes[k as usize];
        if tccp.qntsty == 0 {
            out.push((((s.expn as u32) as u64 * 8) % 256) as u8);
        } else {
            let v: u64 = ((s.expn as u32) as u64 * 2048 + (s.mant as u32) as u64) % 65536;
            assert(v == step_word(*tccp, k as int));
            assert(step_bytes(*tccp)[2 * k] == (v / 256) as u8);
            assert(step_bytes(*tccp)[2 * k + 1] == (v % 256) as u8);
            out.push((v / 256) as u8);
            out.push((v % 256) as u8);
        }
        k = k + 1;
    }
    assert(out@ =~= head + step_bytes(*tccp)) by {
        assert forall|j: int| 0 <= j < out@.len() implies #[trigger] out@[j] == (head + step_bytes(
            *tccp,
        ))[j] by {
            if j >= head.len() {
                assert(out@[head.len() + (j - head.len())] == step_bytes(*tccp)[j - head.len()]);
            }
        }
    }
    assert(out@ =~= start + sqcd_bytes(*tccp));
    *header_size = *header_size - size;
    true
}

/// A component whose quantization its SQcd element carries whole: a style
/// that fits in five bits, up to seven guard bits, and step sizes with
/// 5-bit exponents and, where written, 11-bit mantissas.
pub open spec fn sqcd_valid(t: opj_tccp) -> bool {
    &&& t.qntsty < 32
    &&& t.numgbits < 8
    &&& sqcd_writable(t)
    &&& forall|k: int|
        0 <= k < sqcd_nbands(t) ==> {
            &&& 0 <= #[trigger] t.stepsizes@[k].expn < 32
            &&& t.qntsty == 0 ==> t.stepsizes@[k].mant == 0
            &&& t.qntsty != 0 ==> 0 <= t.stepsizes@[k].mant < 2048
        }
}

proof fn lemma_style_byte(q: u32, g: u32)
    requires
        q < 32,
        g < 8,
    ensures
        ((q + g * 32) % 256) as u8 % 32 == q,
        ((q + g * 32) % 256) as u8 / 32 == g,
{
    assert((q + g * 32) % 256 == q + g * 32);
    assert((q + g * 32) % 32 == q && (q + g * 32) / 32 == g) by (nonlinear_arith)
        requires
            q < 32,
            g < 8,
    ;
}

proof fn lemma_step_word(e: int, m: int)
    requires
        0 <= e < 32,
        0 <= m < 2048,
    ensures
        ((e * 2048 + m) % 65536) == e * 2048 + m,
        ((e * 2048 + m) / 256) * 256 + (e * 2048 + m) % 256 == e * 2048 + m,
        (e * 2048 + m) / 256 < 256,
        (e * 2048 + m) / 2048 == e,
        (e * 2048 + m) % 2048 == m,
{
    assert((e * 2048 + m) / 2048 == e && (e * 2048 + m) % 2048 == m) by (nonlinear_arith)
        requires
            0 <= e < 32,
            0 <= m < 2048,
    ;
}

/// Reading back the SQcd element written for a component gives its
/// quantization: the element is accepted, takes all its bytes, and carries
/// the style, the guard bits and every step size it writes.
pub proof fn lemma_sqcd_roundtrip(t: opj_tccp, old: Seq<opj_stepsize>)
    requires
        sqcd_valid(t),
    ensures
        sqcd_bytes(t).len() == sqcd_size(t),
        sqcd_ok(sqcd_bytes(t), 0, sqcd_size(t)),
        sqcd_len(sqcd_bytes(t), 0, sqcd_size(t)) == sqcd_size(t),
        sqcd_qntsty(sqcd_bytes(t), 0) == t.qntsty,
        sqcd_numgbits(sqcd_bytes(t), 0) == t.numgbits,
        forall|k: int|
            0 <= k < sqcd_nbands(t) ==> #[trigger] sqcd_steps(old, sqcd_bytes(t), 0, sqcd_size(t))[k]
                == t.stepsizes@[k],
{
    let d = sqcd_bytes(t);
    lemma_style_byte(t.qntsty, t.numgbits);
    assert(d[0] == ((t.qntsty + t.numgbits * 32) % 256) as u8);
    let q = t.qntsty;
    assert(sqcd_bands(q, sqcd_size(t) - 1) == sqcd_nbands(t));
    assert forall|k: int| 0 <= k < sqcd_nbands(t) implies #[trigger] sqcd_parsed(d, 0, q, k)
        == t.stepsizes@[k] by {
        let e = t.stepsizes@[k].expn;
        let m = t.stepsizes@[k].mant;
        assert((e as u32) as int == e);
        assert((m as u32) as int == m);
        if q == 0 {
            assert(d[1 + k] == step_bytes(t)[k]);
            assert((e * 8) % 256 == e * 8);
            assert((e * 8) / 8 == e);
        } else {
            lemma_step_word(e as int, m as int);
            assert(d[1 + 2 * k] == step_bytes(t)[2 * k]);
            assert(d[2 + 2 * k] == step_bytes(t)[2 * k + 1]);
            assert(step_word(t, k) == e * 2048 + m);
            assert((2 * k) / 2 == k && (2 * k) % 2 == 0);
            assert((2 * k + 1) / 2 == k && (2 * k + 1) % 2 == 1);
        }
    }
}

/// Two components share their SQcd element: the same style and guard bits,
/// the same number of sub-bands, and the same exponents, and mantissas where
/// they are written.
pub open spec fn sqcd_same(a: opj_tccp, b: opj_tccp) -> bool {
    &&& a.qntsty == b.qntsty
    &&& a.numgbits == b.numgbits
    &&& sqcd_nbands(a) == sqcd_nbands(b)
    &&& forall|k: int| 0 <= k < sqcd_nbands(a) ==> a.stepsizes@[k].expn == b.stepsizes@[k].expn
    &&& a.qntsty != 0 ==> forall|k: int|
        0 <= k < sqcd_nbands(a) ==> a.stepsizes@[k].mant == b.stepsizes@[k].mant
}

/// Whether two components have the same SQcd or SQcc element.
pub fn opj_j2k_compare_SQcd_SQcc(a: &opj_tccp, b: &opj_tccp) -> (r: bool)
    requires
        sqcd_writable(*a),
        sqcd_writable(*b),
    ensures
        r == sqcd_same(*a, *b),
{
    if a.qntsty != b.qntsty || a.numgbits != b.numgbits {
        return false;
    }
    let nb: u32 = if a.qntsty == 1 {
        1
    } else {
        let na = 3 * a.numresolutions - 2;
        if na != 3 * b.numresolutions - 2 {
            return false;
        }
        na
    };
    let mut k: u32 = 0;
    while k < nb
        invariant
            k <= nb <= 97,
            nb == sqcd_nbands(*a),
            nb == sqcd_nbands(*b),
            a.stepsizes@.len() == 97,
            b.stepsizes@.len() == 97,
            forall|j: int| 0 <= j < k ==> a.stepsizes@[j].expn == b.stepsizes@[j].expn,
        decreases nb - k,
    {
        if a.stepsizes[k as usize].expn != b.stepsizes[k as usize].expn {
            return false;
        }
        k = k + 1;
    }
    if a.qntsty != 0 {
        let mut k: u32 = 0;
        while k < nb
            invariant
                k <= nb <= 97,
                nb == sqcd_nbands(*a),
                a.qntsty != 0,
                a.stepsizes@.len() == 97,
                b.stepsizes@.len() == 97,
                forall|j: int| 0 <= j < k ==> a.stepsizes@[j].mant == b.stepsizes@[j].mant,
            decreases nb - k,
        {
            if a.stepsizes[k as usize].mant != b.stepsizes[k as usize].mant {
                return false;
            }
            k = k + 1;
        }
    }
    true
}

/// Why a COD, COC, QCD or QCC marker segment was refused.
#[derive(Clone, Copy, Debug, PartialEq, Eq, Structural)]
pub enum SegmentError {
    /// The segment is shorter than its fixed fields.
    TooShort,
    /// A coding style with bits that are not known.
    UnknownScod,
    /// No quality layer.
    BadLayerCount,
    /// A multiple component transformation other than none or the first.
    BadMct,
    /// A component that the image does not have.
    BadComponent,
    /// The coding style or quantization element is refused.
    Element(CodingError),
    /// Bytes are left after the element.
    Trailing,
    /// The segment does not have the length its fields take.
    BadLength,
}

/// A 16-bit big-endian field of the data.
pub open spec fn at16(d: Seq<u8>, i: int) -> int {
    at(d, i) * 256 + at(d, i + 1)
}

/// The progression order a COD segment gives: its byte, or unknown past the
/// last known order.
pub open spec fn cod_prg(d: Seq<u8>) -> i32 {
    if at(d, 1) > 4 {
        -1i32
    } else {
        at(d, 1) as i32
    }
}

/// How a COD segment of `size` bytes is refused for a decoder that removes
/// `reduce` resolutions; `None` when it is accepted.
pub open spec fn cod_error(reduce: u32, d: Seq<u8>, size: int) -> Option<SegmentError> {
    let c = (at(d, 0) % 2) as u32;
    if size < 5 {
        Some(SegmentError::TooShort)
    } else if at(d, 0) >= 8 {
        Some(SegmentError::UnknownScod)
    } else if at16(d, 2) < 1 {
        Some(SegmentError::BadLayerCount)
    } else if at(d, 4) > 1 {
        Some(SegmentError::BadMct)
    } else if spcod_error(c, reduce, d, 5, size - 5) is Some {
        Some(SegmentError::Element(spcod_error(c, reduce, d, 5, size - 5)->0))
    } else if size - 5 != spcod_len(c, d, 5) {
        Some(SegmentError::Trailing)
    } else {
        None
    }
}

/// The fields of a tile that are not its components' parameters.
pub open spec fn tcp_head_same(a: opj_tcp, b: opj_tcp) -> bool {
    &&& a.cod == b.cod
    &&& a.numlayers == b.numlayers
    &&& a.num_layers_to_decode == b.num_layers_to_decode
    &&& a.csty == b.csty
    &&& a.prg == b.prg
    &&& a.mct == b.mct
    &&& a.POC == b.POC
    &&& a.numpocs == b.numpocs
    &&& a.pocs@ == b.pocs@
    &&& a.m_nb_tile_parts == b.m_nb_tile_parts
}

/// `t` has the tile-wide fields of an accepted COD segment, for a decoder
/// asked for `layer` layers (zero: all of them).
pub open spec fn cod_head(old: opj_tcp, t: opj_tcp, layer: u32, d: Seq<u8>) -> bool {
    &&& t.cod
    &&& t.csty == at(d, 0)
    &&& t.prg == cod_prg(d)
    &&& t.numlayers == at16(d, 2)
    &&& t.num_layers_to_decode == if layer != 0 {
        layer as int
    } else {
        at16(d, 2)
    }
    &&& t.mct == at(d, 4)
    &&& t.POC == old.POC
    &&& t.numpocs == old.numpocs
    &&& t.pocs@ == old.pocs@
}

/// Copies the coding style of the first component of a tile to all the
/// others: resolutions, code blocks, transformation and precincts.
pub fn opj_j2k_copy_tile_component_parameters(tcp: &mut opj_tcp)
    requires
        old(tcp).tccps@.len() >= 1,
    ensures
        final(tcp).tccps@.len() == old(tcp).tccps@.len(),
        tcp_head_same(*old(tcp), *final(tcp)),
        final(tcp).tccps@[0] == old(tcp).tccps@[0],
        forall|i: int|
            1 <= i < old(tcp).tccps@.len() ==> {
                let r = old(tcp).tccps@[0];
                let t = #[trigger] final(tcp).tccps@[i];
                &&& t.numresolutions == r.numresolutions
                &&& t.cblkw == r.cblkw
                &&& t.cblkh == r.cblkh
                &&& t.cblksty == r.cblksty
                &&& t.qmfbid == r.qmfbid
                &&& t.prcw@ == r.prcw@
                &&& t.prch@ == r.prch@
                &&& t.csty == old(tcp).tccps@[i].csty
                &&& quant_kept(old(tcp).tccps@[i], t)
            },
{
    let ghost old_tccps = tcp.tccps@;
    let n = tcp.tccps.len();
    let mut i: usize = 1;
    while i < n
        invariant
            1 <= i <= n,
            n == old_tccps.len(),
            tcp.tccps@.len() == n,
            tcp_head_same(*old(tcp), *tcp),
            tcp.tccps@[0] == old_tccps[0],
            forall|j: int| i <= j < n ==> #[trigger] tcp.tccps@[j] == old_tccps[j],
            forall|j: int|
                1 <= j < i ==> {
                    let r = old_tccps[0];
                    let t = #[trigger] tcp.tccps@[j];
                    &&& t.numresolutions == r.numresolutions
                    &&& t.cblkw == r.cblkw
                    &&& t.cblkh == r.cblkh
                    &&& t.cblksty == r.cblksty
                    &&& t.qmfbid == r.qmfbid
                    &&& t.prcw@ == r.prcw@
                    &&& t.prch@ == r.prch@
                    &&& t.csty == old_tccps[j].csty
                    &&& quant_kept(old_tccps[j], t)
                },
        decreases n - i,
    {
        let prcw = tcp.tccps[0].prcw.clone();
        let prch = tcp.tccps[0].prch.clone();
        assert(prcw@ =~= old_tccps[0].prcw@) by {
            assert(forall|k: int| 0 <= k < prcw@.len() ==> vstd::pervasive::cloned(old_tccps[0].prcw@[k], #[trigger] prcw@[k]));
        }
        assert(prch@ =~= old_tccps[0].prch@) by {
            assert(forall|k: int| 0 <= k < prch@.len() ==> vstd::pervasive::cloned(old_tccps[0].prch@[k], #[trigger] prch@[k]));
        }
        let mut t = tcp.tccps.remove(i);
        t.numresolutions = tcp.tccps[0].numresolutions;
        t.cblkw = tcp.tccps[0].cblkw;
        t.cblkh = tcp.tccps[0].cblkh;
        t.cblksty = tcp.tccps[0].cblksty;
        t.qmfbid = tcp.tccps[0].qmfbid;
        t.prcw = prcw;
        t.prch = prch;
        tcp.tccps.insert(i, t);
        i = i + 1;
    }
}

/// Copies the quantization of the first component of a tile to all the
/// others: style, guard bits and step sizes.
pub fn opj_j2k_copy_tile_quantization_parameters(tcp: &mut opj_tcp)
    requires
        old(tcp).tccps@.len() >= 1,
    ensures
        final(tcp).tccps@.len() == old(tcp).tccps@.len(),
        tcp_head_same(*old(tcp), *final(tcp)),
        final(tcp).tccps@[0] == old(tcp).tccps@[0],
        forall|i: int|
            1 <= i < old(tcp).tccps@.len() ==> {
                let r = old(tcp).tccps@[0];
                let o = old(tcp).tccps@[i];
                let t = #[trigger] final(tcp).tccps@[i];
                &&& t.qntsty == r.qntsty
                &&& t.numgbits == r.numgbits
                &&& t.stepsizes@ == r.stepsizes@
                &&& t == (opj_tccp { qntsty: t.qntsty, numgbits: t.numgbits, stepsizes: t.stepsizes, ..o })
            },
{
    let ghost old_tccps = tcp.tccps@;
    let n = tcp.tccps.len();
    let mut i: usize = 1;
    while i < n
        invariant
            1 <= i <= n,
            n == old_tccps.len(),
            tcp.tccps@.len() == n,
            tcp_head_same(*old(tcp), *tcp),
            tcp.tccps@[0] == old_tccps[0],
            forall|j: int| i <= j < n ==> #[trigger] tcp.tccps@[j] == old_tccps[j],
            forall|j: int|
                1 <= j < i ==> {
                    let r = old_tccps[0];
                    let o = old_tccps[j];
                    let t = #[trigger] tcp.tccps@[j];
                    &&& t.qntsty == r.qntsty
                    &&& t.numgbits == r.numgbits
                    &&& t.stepsizes@ == r.stepsizes@
                    &&& t == (opj_tccp { qntsty: t.qntsty, numgbits: t.numgbits, stepsizes: t.stepsizes, ..o })
                },
        decreases n - i,
    {
        let steps = tcp.tccps[0].stepsizes.clone();
        assert(steps@ =~= old_tccps[0].stepsizes@) by {
            assert(forall|k: int| 0 <= k < steps@.len() ==> vstd::pervasive::cloned(old_tccps[0].stepsizes@[k], #[trigger] steps@[k]));
        }
        let mut t = tcp.tccps.remove(i);
        t.qntsty = tcp.tccps[0].qntsty;
        t.numgbits = tcp.tccps[0].numgbits;
        t.stepsizes = steps;
        tcp.tccps.insert(i, t);
        i = i + 1;
    }
}

/// The coding style element of every component of `t` is the one the COD
/// segment carries, and the rest of each component is as in `old`.
pub open spec fn cod_components(old: opj_tcp, t: opj_tcp, d: Seq<u8>) -> bool {
    let c = (at(d, 0) % 2) as u32;
    &&& t.tccps@.len() == old.tccps@.len()
    &&& forall|i: int|
        0 <= i < old.tccps@.len() ==> {
            &&& (#[trigger] t.tccps@[i]).csty == c
            &&& spcod_fields(t.tccps@[i], c, d, 5)
            &&& quant_kept(old.tccps@[i], t.tccps@[i])
        }
}

/// Sets the coding style of every component of a tile.
fn set_component_styles(tcp: &mut opj_tcp, c: u32)
    ensures
        final(tcp).tccps@.len() == old(tcp).tccps@.len(),
        tcp_head_same(*old(tcp), *final(tcp)),
        forall|i: int|
            0 <= i < old(tcp).tccps@.len() ==> #[trigger] final(tcp).tccps@[i] == (opj_tccp {
                csty: c,
                ..old(tcp).tccps@[i]
            }),
{
    let ghost old_tccps = tcp.tccps@;
    let n = tcp.tccps.len();
    let mut i: usize = 0;
    while i < n
        invariant
            i <= n,
            n == old_tccps.len(),
            tcp.tccps@.len() == n,
            tcp_head_same(*old(tcp), *tcp),
            forall|j: int| i <= j < n ==> #[trigger] tcp.tccps@[j] == old_tccps[j],
            forall|j: int| 0 <= j < i ==> #[trigger] tcp.tccps@[j] == (opj_tccp { csty: c, ..old_tccps[j] }),
        decreases n - i,
    {
        let mut t = tcp.tccps.remove(i);
        t.csty = c;
        tcp.tccps.insert(i, t);
        i = i + 1;
    }
}

/// Reads a COD segment of `size` bytes into the parameters of a tile, for a
/// decoder that removes `reduce` resolutions and is asked for `layer`
/// layers (zero: all of them). The coding style it carries is given to
/// every component. When the segment is refused nothing changes.
pub fn opj_j2k_read_cod(tcp: &mut opj_tcp, layer: u32, reduce: u32, data: &[u8], size: u32) -> (r:
    Result<(), SegmentError>)
    requires
        size <= data@.len(),
        old(tcp).tccps@.len() >= 1,
    ensures
        match cod_error(reduce, data@, size as int) {
            Some(e) => r == Err::<(), SegmentError>(e) && *final(tcp) == *old(tcp),
            None => r is Ok && cod_head(*old(tcp), *final(tcp), layer, data@) && cod_components(
                *old(tcp),
                *final(tcp),
                data@,
            ),
        },
{
    if size < 5 {
        return Err(SegmentError::TooShort);
    }
    let scod = data[0];
    if scod >= 8 {
        return Err(SegmentError::UnknownScod);
    }
    let nl: u32 = data[2] as u32 * 256 + data[3] as u32;
    if nl < 1 {
        return Err(SegmentError::BadLayerCount);
    }
    if data[4] > 1 {
        return Err(SegmentError::BadMct);
    }
    let c: u32 = (scod % 2) as u32;
    let len = match opj_j2k_check_SPCod_SPCoc(c, reduce, data, 5, size - 5) {
        Ok(n) => n,
        Err(e) => {
            return Err(SegmentError::Element(e));
        },
    };
    if size - 5 != len {
        return Err(SegmentError::Trailing);
    }
    let ghost old_tcp = *tcp;
    tcp.cod = true;
    tcp.csty = scod as u32;
    tcp.prg = if data[1] > 4 {
        -1
    } else {
        data[1] as i32
    };
    tcp.numlayers = nl;
    tcp.num_layers_to_decode = if layer != 0 {
        layer
    } else {
        nl
    };
    tcp.mct = data[4] as u32;
    let ghost head = *tcp;
    set_component_styles(tcp, c);
    let ghost styled = tcp.tccps@;
    let mut t0 = tcp.tccps.remove(0);
    let mut hs: u32 = size - 5;
    let _ = opj_j2k_read_SPCod_SPCoc(&mut t0, reduce, data, 5, &mut hs);
    tcp.tccps.insert(0, t0);
    let ghost read = tcp.tccps@;
    assert(read.len() == old_tcp.tccps@.len());
    opj_j2k_copy_tile_component_parameters(tcp);
    assert forall|i: int| 0 <= i < old_tcp.tccps@.len() implies {
        &&& (#[trigger] tcp.tccps@[i]).csty == c
        &&& spcod_fields(tcp.tccps@[i], c, data@, 5)
        &&& quant_kept(old_tcp.tccps@[i], tcp.tccps@[i])
    } by {
        if i > 0 {
            assert(read[i] == styled[i]);
            assert(styled[i] == (opj_tccp { csty: c, ..old_tcp.tccps@[i] }));
        } else {
            assert(styled[0] == (opj_tccp { csty: c, ..old_tcp.tccps@[0] }));
        }
    }
    Ok(())
}

/// The bytes a component number takes in a COC or QCC segment: one for up
/// to 256 components, else two.
pub open spec fn comp_room(numcomps: int) -> int {
    if numcomps <= 256 {
        1
    } else {
        2
    }
}

/// The component number a COC or QCC segment starts with.
pub open spec fn seg_compno(d: Seq<u8>, room: int) -> int {
    if room == 1 {
        at(d, 0)
    } else {
        at16(d, 0)
    }
}

/// How a COC segment of `size` bytes is refused for an image of `numcomps`
/// components and a decoder that removes `reduce` resolutions.
pub open spec fn coc_error(numcomps: int, reduce: u32, d: Seq<u8>, size: int) -> Option<SegmentError> {
    let room = comp_room(numcomps);
    let c = at(d, room) as u32;
    if size < room + 1 {
        Some(SegmentError::TooShort)
    } else if seg_compno(d, room) >= numcomps {
        Some(SegmentError::BadComponent)
    } else if spcod_error(c, reduce, d, room + 1, size - room - 1) is Some {
        Some(SegmentError::Element(spcod_error(c, reduce, d, room + 1, size - room - 1)->0))
    } else if size - room - 1 != spcod_len(c, d, room + 1) {
        Some(SegmentError::Trailing)
    } else {
        None
    }
}

/// Reads a COC segment of `size` bytes: the coding style of one component
/// of the tile. When the segment is refused nothing changes.
pub fn opj_j2k_read_coc(tcp: &mut opj_tcp, reduce: u32, data: &[u8], size: u32) -> (r: Result<
    (),
    SegmentError,
>)
    requires
        size <= data@.len(),
    ensures
        match coc_error(old(tcp).tccps@.len() as int, reduce, data@, size as int) {
            Some(e) => r == Err::<(), SegmentError>(e) && *final(tcp) == *old(tcp),
            None => {
                let room = comp_room(old(tcp).tccps@.len() as int);
                let k = seg_compno(data@, room);
                let c = at(data@, room) as u32;
                &&& r is Ok
                &&& tcp_head_same(*old(tcp), *final(tcp))
                &&& final(tcp).tccps@.len() == old(tcp).tccps@.len()
                &&& final(tcp).tccps@[k].csty == c
                &&& spcod_fields(final(tcp).tccps@[k], c, data@, room + 1)
                &&& quant_kept(old(tcp).tccps@[k], final(tcp).tccps@[k])
                &&& forall|i: int|
                    0 <= i < old(tcp).tccps@.len() && i != k ==> #[trigger] final(tcp).tccps@[i]
                        == old(tcp).tccps@[i]
            },
        },
{
    let n = tcp.tccps.len();
    let room: u32 = if n <= 256 {
        1
    } else {
        2
    };
    if size < room + 1 {
        return Err(SegmentError::TooShort);
    }
    let k: usize = if room == 1 {
        data[0] as usize
    } else {
        data[0] as usize * 256 + data[1] as usize
    };
    if k >= n {
        return Err(SegmentError::BadComponent);
    }
    let c: u32 = data[room as usize] as u32;
    let len = match opj_j2k_check_SPCod_SPCoc(c, reduce, data, room as usize + 1, size - room - 1) {
        Ok(v) => v,
        Err(e) => {
            return Err(SegmentError::Element(e));
        },
    };
    if size - room - 1 != len {
        return Err(SegmentError::Trailing);
    }
    let ghost old_tccps = tcp.tccps@;
    let mut t = tcp.tccps.remove(k);
    t.csty = c;
    let mut hs: u32 = size - room - 1;
    let _ = opj_j2k_read_SPCod_SPCoc(&mut t, reduce, data, room as usize + 1, &mut hs);
    tcp.tccps.insert(k, t);
    assert forall|i: int| 0 <= i < n && i != k implies #[trigger] tcp.tccps@[i] == old_tccps[i] by {
    }
    Ok(())
}

/// How a QCD segment of `size` bytes is refused.
pub open spec fn qcd_error(d: Seq<u8>, size: int) -> Option<SegmentError> {
    if !sqcd_ok(d, 0, size) {
        Some(SegmentError::Element(CodingError::SQcdTooShort))
    } else if size != sqcd_len(d, 0, size) {
        Some(SegmentError::Trailing)
    } else {
        None
    }
}

/// Reads a QCD segment of `size` bytes into the parameters of a tile: the
/// quantization it carries is given to every component. When the segment
/// is refused nothing changes.
pub fn opj_j2k_read_qcd(tcp: &mut opj_tcp, data: &[u8], size: u32) -> (r: Result<(), SegmentError>)
    requires
        size <= data@.len(),
        old(tcp).tccps@.len() >= 1,
        old(tcp).tccps@[0].stepsizes@.len() == OPJ_J2K_MAXBANDS,
    ensures
        match qcd_error(data@, size as int) {
            Some(e) => r == Err::<(), SegmentError>(e) && *final(tcp) == *old(tcp),
            None => {
                &&& r is Ok
                &&& tcp_head_same(*old(tcp), *final(tcp))
                &&& final(tcp).tccps@.len() == old(tcp).tccps@.len()
                &&& forall|i: int|
                    0 <= i < old(tcp).tccps@.len() ==> {
                        let o = old(tcp).tccps@[i];
                        let t = #[trigger] final(tcp).tccps@[i];
                        &&& t.qntsty == sqcd_qntsty(data@, 0)
                        &&& t.numgbits == sqcd_numgbits(data@, 0)
                        &&& t.stepsizes@ == sqcd_steps(
                            old(tcp).tccps@[0].stepsizes@,
                            data@,
                            0,
                            size as int,
                        )
                        &&& style_kept(o, t)
                    }
            },
        },
{
    let len = match opj_j2k_check_SQcd_SQcc(data, 0, size) {
        Ok(v) => v,
        Err(e) => {
            return Err(SegmentError::Element(e));
        },
    };
    if size != len {
        return Err(SegmentError::Trailing);
    }
    let ghost old_tccps = tcp.tccps@;
    let mut t0 = tcp.tccps.remove(0);
    let mut hs: u32 = size;
    let _ = opj_j2k_read_SQcd_SQcc(&mut t0, data, 0, &mut hs);
    tcp.tccps.insert(0, t0);
    let ghost read = tcp.tccps@;
    opj_j2k_copy_tile_quantization_parameters(tcp);
    assert forall|i: int| 0 <= i < old_tccps.len() implies {
        let o = old_tccps[i];
        let t = #[trigger] tcp.tccps@[i];
        &&& t.qntsty == sqcd_qntsty(data@, 0)
        &&& t.numgbits == sqcd_numgbits(data@, 0)
        &&& t.stepsizes@ == sqcd_steps(old_tccps[0].stepsizes@, data@, 0, size as int)
        &&& style_kept(o, t)
    } by {
        if i > 0 {
            assert(read[i] == old_tccps[i]);
        }
    }
    Ok(())
}

/// How a QCC segment of `size` bytes is refused for an image of `numcomps`
/// components.
pub open spec fn qcc_error(numcomps: int, d: Seq<u8>, size: int) -> Option<SegmentError> {
    let room = comp_room(numcomps);
    if size < room {
        Some(SegmentError::TooShort)
    } else if seg_compno(d, room) >= numcomps {
        Some(SegmentError::BadComponent)
    } else if !sqcd_ok(d, room, size - room) {
        Some(SegmentError::Element(CodingError::SQcdTooShort))
    } else if size - room != sqcd_len(d, room, size - room) {
        Some(SegmentError::Trailing)
    } else {
        None
    }
}

/// Reads a QCC segment of `size` bytes: the quantization of one component
/// of the tile. When the segment is refused nothing changes.
pub fn opj_j2k_read_qcc(tcp: &mut opj_tcp, data: &[u8], size: u32) -> (r: Result<(), SegmentError>)
    requires
        size <= data@.len(),
        forall|i: int|
            0 <= i < old(tcp).tccps@.len() ==> (#[trigger] old(tcp).tccps@[i]).stepsizes@.len()
                == OPJ_J2K_MAXBANDS,
    ensures
        match qcc_error(old(tcp).tccps@.len() as int, data@, size as int) {
            Some(e) => r == Err::<(), SegmentError>(e) && *final(tcp) == *old(tcp),
            None => {
                let room = comp_room(old(tcp).tccps@.len() as int);
                let k = seg_compno(data@, room);
                &&& r is Ok
                &&& tcp_head_same(*old(tcp), *final(tcp))
                &&& final(tcp).tccps@.len() == old(tcp).tccps@.len()
                &&& sqcd_read(
                    old(tcp).tccps@[k],
                    final(tcp).tccps@[k],
                    data@,
                    room,
                    size - room,
                )
                &&& forall|i: int|
                    0 <= i < old(tcp).tccps@.len() && i != k ==> #[trigger] final(tcp).tccps@[i]
                        == old(tcp).tccps@[i]
            },
        },
{
    let n = tcp.tccps.len();
    let room: u32 = if n <= 256 {
        1
    } else {
        2
    };
    if size < room {
        return Err(SegmentError::TooShort);
    }
    let k: usize = if room == 1 {
        data[0] as usize
    } else {
        data[0] as usize * 256 + data[1] as usize
    };
    if k >= n {
        return Err(SegmentError::BadComponent);
    }
    let len = match opj_j2k_check_SQcd_SQcc(data, room as usize, size - room) {
        Ok(v) => v,
        Err(e) => {
            return Err(SegmentError::Element(e));
        },
    };
    if size - room != len {
        return Err(SegmentError::Trailing);
    }
    let ghost old_tccps = tcp.tccps@;
    let mut t = tcp.tccps.remove(k);
    let mut hs: u32 = size - room;
    let _ = opj_j2k_read_SQcd_SQcc(&mut t, data, room as usize, &mut hs);
    tcp.tccps.insert(k, t);
    assert forall|i: int| 0 <= i < n && i != k implies #[trigger] tcp.tccps@[i] == old_tccps[i] by {
    }
    Ok(())
}

/// The marker of a COD segment.
pub const J2K_MS_COD: u32 = 0xff52;

/// The marker of a QCD segment.
pub const J2K_MS_QCD: u32 = 0xff5c;

/// What follows the length of a tile's COD segment: its coding style,
/// progression order, layers and component transformation, then the coding
/// style element of its first component.
pub open spec fn cod_body(tcp: opj_tcp) -> Seq<u8> {
    seq![(tcp.csty % 256) as u8, ((tcp.prg as u32) % 256) as u8] + be_bytes(tcp.numlayers as nat, 2)
        + seq![(tcp.mct % 256) as u8] + spcod_bytes(tcp.tccps@[0])
}

/// The COD segment of a tile: marker, length and body.
pub open spec fn cod_segment(tcp: opj_tcp) -> Seq<u8> {
    be_bytes(J2K_MS_COD as nat, 2) + be_bytes((7 + spcod_size(tcp.tccps@[0])) as nat, 2) + cod_body(
        tcp,
    )
}

/// Writes the COD segment of a tile: its coding style and that of its
/// first component.
pub fn opj_j2k_write_cod(tcp: &opj_tcp) -> (r: Vec<u8>)
    requires
        tcp.tccps@.len() >= 1,
        tcp.tccps@[0].numresolutions <= 33,
        tcp.tccps@[0].csty % 2 == 1 ==> tcp.tccps@[0].numresolutions <= tcp.tccps@[0].prcw@.len()
            && tcp.tccps@[0].numresolutions <= tcp.tccps@[0].prch@.len(),
    ensures
        r@ == cod_segment(*tcp),
{
    let t0 = &tcp.tccps[0];
    let size = 9 + opj_j2k_get_SPCod_SPCoc_size(t0);
    let mut out: Vec<u8> = Vec::new();
    push_be(&mut out, J2K_MS_COD, 2);
    push_be(&mut out, size - 2, 2);
    out.push((tcp.csty % 256) as u8);
    out.push(((tcp.prg as u32) % 256) as u8);
    push_be(&mut out, tcp.numlayers, 2);
    out.push((tcp.mct % 256) as u8);
    let mut room: u32 = size - 9;
    let ok = opj_j2k_write_SPCod_SPCoc(t0, &mut out, &mut room);
    assert(ok);
    assert(out@ =~= cod_segment(*tcp));
    out
}

/// The QCD segment of a tile: marker, length and the quantization element
/// of its first component.
pub open spec fn qcd_segment(tcp: opj_tcp) -> Seq<u8> {
    be_bytes(J2K_MS_QCD as nat, 2) + be_bytes((2 + sqcd_size(tcp.tccps@[0])) as nat, 2) + sqcd_bytes(
        tcp.tccps@[0],
    )
}

/// Writes the QCD segment of a tile: the quantization of its first
/// component.
pub fn opj_j2k_write_qcd(tcp: &opj_tcp) -> (r: Vec<u8>)
    requires
        tcp.tccps@.len() >= 1,
        sqcd_writable(tcp.tccps@[0]),
    ensures
        r@ == qcd_segment(*tcp),
{
    let t0 = &tcp.tccps[0];
    let size = 4 + opj_j2k_get_SQcd_SQcc_size(t0);
    let mut out: Vec<u8> = Vec::new();
    push_be(&mut out, J2K_MS_QCD, 2);
    push_be(&mut out, size - 2, 2);
    let mut room: u32 = size - 4;
    let ok = opj_j2k_write_SQcd_SQcc(t0, &mut out, &mut room);
    assert(ok);
    assert(out@ =~= qcd_segment(*tcp));
    out
}

/// A tile whose COD segment carries its coding parameters whole, for a
/// decoder that removes `reduce` resolutions: a known coding style that
/// agrees with its first component's, a known progression order, 1 to
/// 65535 layers, at most the first component transformation, and a first
/// component whose style its element carries whole.
pub open spec fn cod_valid(tcp: opj_tcp, reduce: u32) -> bool {
    &&& tcp.tccps@.len() >= 1
    &&& spcod_valid(tcp.tccps@[0], reduce)
    &&& tcp.csty < 8
    &&& tcp.tccps@[0].csty % 2 == tcp.csty % 2
    &&& 0 <= tcp.prg <= 4
    &&& 1 <= tcp.numlayers <= 65535
    &&& tcp.mct <= 1
}

/// Reading back the body of the COD segment written for a tile is accepted
/// and gives its coding style, progression order, layers, component
/// transformation, and to every component the coding style element of its
/// first component.
pub proof fn lemma_cod_roundtrip(tcp: opj_tcp, reduce: u32)
    requires
        cod_valid(tcp, reduce),
    ensures
        cod_segment(tcp).subrange(4, cod_segment(tcp).len() as int) == cod_body(tcp),
        cod_error(reduce, cod_body(tcp), cod_body(tcp).len() as int) is None,
        at(cod_body(tcp), 0) == tcp.csty,
        cod_prg(cod_body(tcp)) == tcp.prg,
        at16(cod_body(tcp), 2) == tcp.numlayers,
        at(cod_body(tcp), 4) == tcp.mct,
        forall|v: opj_tccp|
            v.csty == (at(cod_body(tcp), 0) % 2) as u32 && #[trigger] spcod_fields(
                v,
                (at(cod_body(tcp), 0) % 2) as u32,
                cod_body(tcp),
                5,
            ) ==> spcod_same(v, tcp.tccps@[0]) && v.prcw@ == tcp.tccps@[0].prcw@ && v.prch@
                == tcp.tccps@[0].prch@,
{
    let t0 = tcp.tccps@[0];
    let nl = be_bytes(tcp.numlayers as nat, 2);
    reveal_with_fuel(be_bytes, 3);
    let pre = seq![(tcp.csty % 256) as u8, ((tcp.prg as u32) % 256) as u8] + nl + seq![(tcp.mct % 256) as u8];
    let b = cod_body(tcp);
    assert(b =~= pre + spcod_bytes(t0));
    lemma_spcod_at(t0, reduce, pre);
    lemma_be_bytes(J2K_MS_COD as nat, 2);
    lemma_be_bytes((7 + spcod_size(t0)) as nat, 2);
    assert(cod_segment(tcp).subrange(4, cod_segment(tcp).len() as int) =~= b);
    assert(pre.len() == 5);
    assert(at(b, 0) == tcp.csty);
    assert((tcp.prg as u32) as int == tcp.prg);
    assert(at(b, 1) == tcp.prg);
    assert(at16(b, 2) == tcp.numlayers);
    assert(at(b, 4) == tcp.mct);
    assert(((at(b, 0) % 2) as u32) % 2 == t0.csty % 2);
    assert(spcod_prcw((at(b, 0) % 2) as u32, b, 5) =~= spcod_prcw(t0.csty, b, 5));
    assert(spcod_prch((at(b, 0) % 2) as u32, b, 5) =~= spcod_prch(t0.csty, b, 5));
}

/// Reading back the body of the QCD segment written for a tile is accepted
/// and gives to every component the quantization style, guard bits and
/// step sizes of its first component.
pub proof fn lemma_qcd_roundtrip(tcp: opj_tcp, old: Seq<opj_stepsize>)
    requires
        tcp.tccps@.len() >= 1,
        sqcd_valid(tcp.tccps@[0]),
    ensures
        qcd_segment(tcp).subrange(4, qcd_segment(tcp).len() as int) == sqcd_bytes(tcp.tccps@[0]),
        qcd_error(sqcd_bytes(tcp.tccps@[0]), sqcd_size(tcp.tccps@[0])) is None,
        sqcd_qntsty(sqcd_bytes(tcp.tccps@[0]), 0) == tcp.tccps@[0].qntsty,
        sqcd_numgbits(sqcd_bytes(tcp.tccps@[0]), 0) == tcp.tccps@[0].numgbits,
        forall|k: int|
            0 <= k < sqcd_nbands(tcp.tccps@[0]) ==> #[trigger] sqcd_steps(
                old,
                sqcd_bytes(tcp.tccps@[0]),
                0,
                sqcd_size(tcp.tccps@[0]),
            )[k] == tcp.tccps@[0].stepsizes@[k],
{
    let t0 = tcp.tccps@[0];
    lemma_sqcd_roundtrip(t0, old);
    lemma_be_bytes(J2K_MS_QCD as nat, 2);
    lemma_be_bytes((2 + sqcd_size(t0)) as nat, 2);
    assert(qcd_segment(tcp).subrange(4, qcd_segment(tcp).len() as int) =~= sqcd_bytes(t0));
}

/// The marker of an RGN segment.
pub const J2K_MS_RGN: u32 = 0xff5e;

/// How an RGN segment of `size` bytes is refused for an image of `numcomps`
/// components.
pub open spec fn rgn_error(numcomps: int, d: Seq<u8>, size: int) -> Option<SegmentError> {
    let room = comp_room(numcomps);
    if size != 2 + room {
        Some(SegmentError::BadLength)
    } else if seg_compno(d, room) >= numcomps {
        Some(SegmentError::BadComponent)
    } else {
        None
    }
}

/// Reads an RGN segment of `size` bytes: the region of interest shift of
/// one component of the tile. When the segment is refused nothing changes.
pub fn opj_j2k_read_rgn(tcp: &mut opj_tcp, data: &[u8], size: u32) -> (r: Result<(), SegmentError>)
    requires
        size <= data@.len(),
    ensures
        match rgn_error(old(tcp).tccps@.len() as int, data@, size as int) {
            Some(e) => r == Err::<(), SegmentError>(e) && *final(tcp) == *old(tcp),
            None => {
                let room = comp_room(old(tcp).tccps@.len() as int);
                let k = seg_compno(data@, room);
                &&& r is Ok
                &&& tcp_head_same(*old(tcp), *final(tcp))
                &&& final(tcp).tccps@ == old(tcp).tccps@.update(
                    k,
                    opj_tccp { roishift: at(data@, room + 1) as i32, ..old(tcp).tccps@[k] },
                )
            },
        },
{
    let n = tcp.tccps.len();
    let room: u32 = if n <= 256 {
        1
    } else {
        2
    };
    if size != 2 + room {
        return Err(SegmentError::BadLength);
    }
    let k: usize = if room == 1 {
        data[0] as usize
    } else {
        data[0] as usize * 256 + data[1] as usize
    };
    if k >= n {
        return Err(SegmentError::BadComponent);
    }
    let mut t = tcp.tccps.remove(k);
    t.roishift = data[room as usize + 1] as i32;
    tcp.tccps.insert(k, t);
    Ok(())
}

/// The RGN segment of component `compno` with shift `roishift`, in an image
/// of `numcomps` components.
pub open spec fn rgn_segment(compno: u32, roishift: i32, numcomps: u32) -> Seq<u8> {
    let room = comp_room(numcomps as int);
    be_bytes(J2K_MS_RGN as nat, 2) + be_bytes((4 + room) as nat, 2) + be_bytes(compno as nat, room as nat)
        + seq![0u8, ((roishift as u32) % 256) as u8]
}

/// Writes the RGN segment of a component of a tile in an image of
/// `nb_comps` components: its number, an implicit region style and its
/// shift.
pub fn opj_j2k_write_rgn(tcp: &opj_tcp, comp_no: u32, nb_comps: u32) -> (r: Vec<u8>)
    requires
        comp_no < tcp.tccps@.len(),
    ensures
        r@ == rgn_segment(comp_no, tcp.tccps@[comp_no as int].roishift, nb_comps),
{
    let room: u32 = if nb_comps <= 256 {
        1
    } else {
        2
    };
    let mut out: Vec<u8> = Vec::new();
    push_be(&mut out, J2K_MS_RGN, 2);
    push_be(&mut out, 4 + room, 2);
    push_be(&mut out, comp_no, room as usize);
    out.push(0);
    out.push(((tcp.tccps[comp_no as usize].roishift as u32) % 256) as u8);
    out
}

/// Reading back the body of the RGN segment written for a component of an
/// image of as many components as the tile has sets its shift back, when
/// the shift fits in a byte.
pub proof fn lemma_rgn_roundtrip(tcp: opj_tcp, comp_no: u32)
    requires
        comp_no < tcp.tccps@.len() <= 65536,
        0 <= tcp.tccps@[comp_no as int].roishift < 256,
    ensures
        ({
            let nc = tcp.tccps@.len() as u32;
            let seg = rgn_segment(comp_no, tcp.tccps@[comp_no as int].roishift, nc);
            let body = seg.subrange(4, seg.len() as int);
            let room = comp_room(nc as int);
            &&& rgn_error(nc as int, body, body.len() as int) is None
            &&& seg_compno(body, room) == comp_no
            &&& at(body, room + 1) as i32 == tcp.tccps@[comp_no as int].roishift
        }),
{
    let nc = tcp.tccps@.len() as u32;
    let room = comp_room(nc as int);
    let e = tcp.tccps@[comp_no as int].roishift;
    reveal_with_fuel(be_bytes, 3);
    lemma_be_bytes(J2K_MS_RGN as nat, 2);
    lemma_be_bytes((4 + room) as nat, 2);
    lemma_be_bytes(comp_no as nat, room as nat);
    let seg = rgn_segment(comp_no, e, nc);
    let body = seg.subrange(4, seg.len() as int);
    assert(body =~= be_bytes(comp_no as nat, room as nat) + seq![0u8, ((e as u32) % 256) as u8]);
    assert((e as u32) as int == e);
    if room == 1 {
        assert(comp_no < 256);
    } else {
        assert(comp_no < 65536);
    }
}

} // verus!
