//! Reading the codestream headers: the decisions the decoder takes for each
//! marker of the main header and of a tile-part header, and the marker
//! segments whose content is only checked.
use vstd::prelude::*;

use crate::cio::{be_value, lemma_be_value_bound, lemma_pow256_small, opj_read_bytes};
use crate::j2k::{
    marker_of_code, marker_states, J2KMarker, J2KState, J2K_STATE_MH, J2K_STATE_MHSIZ,
    J2K_STATE_NONE, J2K_STATE_TPH, J2K_STATE_TPHSOT,
};
use crate::tile::{opj_j2k_get_sot_values, opj_tile_parts, sot_isot, sot_psot, sot_tnsot, sot_tpsot};

verus! {

/// Why a codestream header was refused.
#[derive(Clone, Copy, Debug, PartialEq, Eq, Structural)]
pub enum HeaderError {
    /// The codestream does not start with a SOC marker.
    MissingSoc,
    /// A marker code was expected (`0xff..`).
    InvalidMarker,
    /// A marker appears where it is not allowed.
    MisplacedMarker,
    /// A marker segment length below 2.
    InvalidMarkerSize,
    /// The main header has no SIZ marker.
    MissingSiz,
    /// The main header has no COD marker.
    MissingCod,
    /// The main header has no QCD marker.
    MissingQcd,
    /// The codestream ends inside a marker segment.
    StreamTooShort,
    /// A SOT segment whose length is not 10.
    InconsistentMarkerSize,
    /// A tile-part header is asked for before the main header was read.
    NotReady,
    /// A marker segment longer than what is left of the codestream.
    SegmentExceedsStream,
    /// The handler of a marker refused its segment.
    SegmentRefused,
    /// The tile-part data after the SOD marker could not be read.
    SodRefused,
    /// The look-ahead for the number of tile-parts failed.
    CorrectionFailed,
    /// The tile could not be made ready to decode.
    TileSetupFailed,
}

/// Reads the SOC marker that starts a codestream: the first two bytes of
/// `data` must be its code.  The decoder then expects the SIZ marker.
pub fn opj_j2k_read_soc(data: &[u8], state: &mut J2KState) -> (r: bool)
    ensures
        r == (data@.len() >= 2 && be_value(data@.subrange(0, 2)) == 0xff4f),
        r ==> *final(state) == J2K_STATE_MHSIZ,
        !r ==> *final(state) == *old(state),
{
    if data.len() < 2 {
        return false;
    }
    let marker = J2KMarker::from_buffer(data);
    proof {
        lemma_pow256_small();
        lemma_be_value_bound(data@.subrange(0, 2));
    }
    if marker != J2KMarker::SOC {
        return false;
    }
    *state = J2K_STATE_MHSIZ;
    true
}

/// What the decoder does with the marker it meets in the main header.
#[derive(Clone, Copy, Debug, PartialEq, Eq, Structural)]
pub enum MainHeaderStep {
    /// The first tile-part starts: the main header is over.
    Done,
    /// Read the marker's segment with its handler.
    ReadSegment,
    /// Refuse the codestream.
    Fail(HeaderError),
}

/// The progress of the main header: the decoder state and which of the
/// required SIZ, COD and QCD markers were seen.
#[derive(Clone, Copy, Debug)]
pub struct MainHeaderScan {
    pub state: J2KState,
    pub has_siz: bool,
    pub has_cod: bool,
    pub has_qcd: bool,
}

/// The step the main header takes on `marker` in state `state`.
pub open spec fn main_header_step(state: J2KState, marker: J2KMarker) -> MainHeaderStep {
    if marker == J2KMarker::SOT {
        MainHeaderStep::Done
    } else if crate::j2k::marker_code(marker) < 0xff00 {
        MainHeaderStep::Fail(HeaderError::InvalidMarker)
    } else if state & marker_states(marker) == J2K_STATE_NONE {
        MainHeaderStep::Fail(HeaderError::MisplacedMarker)
    } else {
        MainHeaderStep::ReadSegment
    }
}

impl MainHeaderScan {
    /// The scan after the SOC marker: the SIZ marker is expected next.
    pub fn new() -> (r: Self)
        ensures
            r.state == J2K_STATE_MHSIZ && !r.has_siz && !r.has_cod && !r.has_qcd,
    {
        MainHeaderScan { state: J2K_STATE_MHSIZ, has_siz: false, has_cod: false, has_qcd: false }
    }

    /// Takes the next marker of the main header (an unknown marker already
    /// resolved to the marker that follows it): the SOT marker ends the
    /// header, a code that is no marker or a marker out of place is refused,
    /// any other marker has its segment read.  The SIZ, COD and QCD markers
    /// are noted before the place is checked.
    pub fn next_marker(&mut self, marker: J2KMarker) -> (r: MainHeaderStep)
        ensures
            r == main_header_step(old(self).state, marker),
            final(self).state == old(self).state,
            final(self).has_siz == (old(self).has_siz || (r != MainHeaderStep::Done && !(
            crate::j2k::marker_code(marker) < 0xff00) && marker == J2KMarker::SIZ)),
            final(self).has_cod == (old(self).has_cod || (r != MainHeaderStep::Done && !(
            crate::j2k::marker_code(marker) < 0xff00) && marker == J2KMarker::COD)),
            final(self).has_qcd == (old(self).has_qcd || (r != MainHeaderStep::Done && !(
            crate::j2k::marker_code(marker) < 0xff00) && marker == J2KMarker::QCD)),
    {
        if marker == J2KMarker::SOT {
            return MainHeaderStep::Done;
        }
        if marker.is_invalid() {
            return MainHeaderStep::Fail(HeaderError::InvalidMarker);
        }
        if marker == J2KMarker::SIZ {
            self.has_siz = true;
        }
        if marker == J2KMarker::COD {
            self.has_cod = true;
        }
        if marker == J2KMarker::QCD {
            self.has_qcd = true;
        }
        if self.state & marker.states() == J2K_STATE_NONE {
            return MainHeaderStep::Fail(HeaderError::MisplacedMarker);
        }
        MainHeaderStep::ReadSegment
    }

    /// Ends the main header: the SIZ, COD and QCD markers must all have been
    /// seen, checked in that order.  The decoder then expects a tile-part.
    pub fn finish(&mut self) -> (r: Result<(), HeaderError>)
        ensures
            !old(self).has_siz ==> r == Err::<(), HeaderError>(HeaderError::MissingSiz),
            old(self).has_siz && !old(self).has_cod ==> r == Err::<(), HeaderError>(HeaderError::MissingCod),
            old(self).has_siz && old(self).has_cod && !old(self).has_qcd ==> r == Err::<(), HeaderError>(
                HeaderError::MissingQcd,
            ),
            old(self).has_siz && old(self).has_cod && old(self).has_qcd ==> r is Ok,
            r is Ok ==> final(self).state == J2K_STATE_TPHSOT,
            r is Err ==> final(self).state == old(self).state,
            final(self).has_siz == old(self).has_siz && final(self).has_cod == old(self).has_cod
                && final(self).has_qcd == old(self).has_qcd,
    {
        if !self.has_siz {
            return Err(HeaderError::MissingSiz);
        }
        if !self.has_cod {
            return Err(HeaderError::MissingCod);
        }
        if !self.has_qcd {
            return Err(HeaderError::MissingQcd);
        }
        self.state = J2K_STATE_TPHSOT;
        Ok(())
    }
}

/// The length of a marker segment past its length field: the 16-bit length
/// read, less its own two bytes.  A length below 2 is refused.
pub fn opj_j2k_marker_segment_size(raw: u32) -> (r: Result<u32, HeaderError>)
    ensures
        raw < 2 ==> r == Err::<u32, HeaderError>(HeaderError::InvalidMarkerSize),
        raw >= 2 ==> r == Ok::<u32, HeaderError>((raw - 2) as u32),
{
    if raw < 2 {
        Err(HeaderError::InvalidMarkerSize)
    } else {
        Ok(raw - 2)
    }
}

/// Whether `marker` may appear in decoder state `state`.
pub fn opj_j2k_marker_allowed(state: J2KState, marker: J2KMarker) -> (r: bool)
    ensures
        r == (state & marker_states(marker) != J2K_STATE_NONE),
{
    state & marker.states() != J2K_STATE_NONE
}

/// In a tile-part header, the length of a marker segment past its length
/// field, and the tile-part data left once the segment (with its marker and
/// length field) is read: the data left is counted down only in the
/// tile-part header state.  A length below 2 is refused.
pub fn opj_j2k_tile_marker_size(state: J2KState, sot_length: u32, raw: u32) -> (r: Result<(u32, u32), HeaderError>)
    requires
        raw <= 0xffff,
    ensures
        raw < 2 ==> r == Err::<(u32, u32), HeaderError>(HeaderError::InvalidMarkerSize),
        raw >= 2 ==> (r matches Ok((size, left)) && size == raw - 2 && left == if state & J2K_STATE_TPH
            != J2K_STATE_NONE {
            (sot_length - (raw + 2) + 0x1_0000_0000) % 0x1_0000_0000
        } else {
            sot_length as int
        }),
{
    if raw < 2 {
        return Err(HeaderError::InvalidMarkerSize);
    }
    let left = if state & J2K_STATE_TPH != J2K_STATE_NONE {
        sot_length.wrapping_sub(raw + 2)
    } else {
        sot_length
    };
    Ok((raw - 2, left))
}

/// Whether the CRG segment of `size` bytes has the 4 bytes per component of
/// an image of `numcomps` components.
pub fn opj_j2k_read_crg(size: u32, numcomps: u32) -> (r: bool)
    ensures
        r == (size == (numcomps * 4) % 0x1_0000_0000),
{
    size == numcomps.wrapping_mul(4)
}

/// The number of bytes of a TLM entry: the tile index (0, 1 or 2 bytes, bits
/// 4-5 of Stlm) and the tile-part length (2 or 4 bytes, bit 6).
pub open spec fn tlm_entry_size(stlm: u8) -> int {
    let st = (stlm as int / 16) % 4;
    let sp = (stlm as int / 64) % 2;
    (sp + 1) * 2 + st
}

/// Whether a TLM segment of `size` bytes is well formed: its two header
/// bytes, then whole entries.
pub fn opj_j2k_read_tlm(data: &[u8], size: u32) -> (r: bool)
    requires
        size <= data@.len(),
    ensures
        r == (size >= 2 && (size - 2) % tlm_entry_size(data@[1]) == 0),
{
    if size < 2 {
        return false;
    }
    let remaining = size - 2;
    let stlm = data[1] as u32;
    let st = (stlm >> 4u32) & 3;
    let sp = (stlm >> 6u32) & 1;
    proof {
        assert(stlm < 256 ==> (stlm >> 4u32) & 3 == (stlm / 16) % 4 && (stlm >> 6u32) & 1 == (stlm
            / 64) % 2) by (bit_vector);
    }
    let quotient = (sp + 1) * 2 + st;
    remaining % quotient == 0
}

/// Whether a PLM segment of `size` bytes has at least its index byte.
pub fn opj_j2k_read_plm(size: u32) -> (r: bool)
    ensures
        r == (size >= 1),
{
    size >= 1
}

/// The packet length being gathered after the bytes of `s`: seven bits per
/// byte, a byte with its top bit clear ending a length.
pub open spec fn plt_pending(s: Seq<u8>) -> u32
    decreases s.len(),
{
    if s.len() == 0 {
        0
    } else {
        let acc = plt_pending(s.drop_last());
        let b = s.last() as u32;
        if b & 0x80 != 0 {
            (acc | (b & 0x7f)) << 7u32
        } else {
            0
        }
    }
}

/// Whether a PLT segment of `size` bytes is well formed: its index byte,
/// then packet lengths of which none is left unfinished.
pub fn opj_j2k_read_plt(data: &[u8], size: u32) -> (r: bool)
    requires
        size <= data@.len(),
    ensures
        r == (size >= 1 && plt_pending(data@.subrange(1, size as int)) == 0),
{
    if size < 1 {
        return false;
    }
    let mut packet_len: u32 = 0;
    let mut i: u32 = 1;
    while i < size
        invariant
            1 <= i <= size <= data@.len(),
            packet_len == plt_pending(data@.subrange(1, i as int)),
        decreases size - i,
    {
        let b = data[i as usize] as u32;
        proof {
            assert(data@.subrange(1, i + 1).drop_last() =~= data@.subrange(1, i as int));
        }
        packet_len = packet_len | (b & 0x7f);
        if b & 0x80 != 0 {
            packet_len = packet_len << 7u32;
        } else {
            packet_len = 0;
        }
        i = i + 1;
    }
    packet_len == 0
}

/// Counts one more tile-part for every tile whose number of tile-parts is
/// known, once the codestream turns out to give numbers of tile-parts one
/// short.
pub fn opj_j2k_apply_nb_tile_parts_correction(tiles: &mut Vec<opj_tile_parts>)
    ensures
        final(tiles)@.len() == old(tiles)@.len(),
        forall|i: int|
            0 <= i < old(tiles)@.len() ==> {
                let o = old(tiles)@[i];
                let n = #[trigger] final(tiles)@[i];
                &&& n.m_current_tile_part_number == o.m_current_tile_part_number
                &&& n.m_nb_tile_parts == if o.m_nb_tile_parts != 0 {
                    ((o.m_nb_tile_parts + 1) % 0x1_0000_0000) as u32
                } else {
                    0
                }
            },
{
    let ghost o = tiles@;
    let mut i: usize = 0;
    while i < tiles.len()
        invariant
            i <= tiles@.len(),
            tiles@.len() == o.len(),
            forall|k: int|
                0 <= k < i ==> {
                    let n = #[trigger] tiles@[k];
                    &&& n.m_current_tile_part_number == o[k].m_current_tile_part_number
                    &&& n.m_nb_tile_parts == if o[k].m_nb_tile_parts != 0 {
                        ((o[k].m_nb_tile_parts + 1) % 0x1_0000_0000) as u32
                    } else {
                        0
                    }
                },
            forall|k: int| i <= k < o.len() ==> #[trigger] tiles@[k] == o[k],
        decreases o.len() - i,
    {
        let mut t = tiles[i];
        if t.m_nb_tile_parts != 0 {
            t.m_nb_tile_parts = t.m_nb_tile_parts.wrapping_add(1);
        }
        tiles.set(i, t);
        i = i + 1;
    }
}

/// A tile whose only tile-part said nothing of the number of tile-parts
/// (`TPsot == 0` and `TNsot == 0`).
pub open spec fn tile_unfinished(t: opj_tile_parts) -> bool {
    t.m_current_tile_part_number == 0 && t.m_nb_tile_parts == 0
}

/// The first such tile, when the codestream ends early on its last tile.
pub fn opj_j2k_find_unfinished_tile(tiles: &[opj_tile_parts]) -> (r: Option<usize>)
    ensures
        r matches Some(i) ==> i < tiles@.len() && tile_unfinished(tiles@[i as int]) && forall|k: int|
            0 <= k < i ==> !#[trigger] tile_unfinished(tiles@[k]),
        r is None ==> forall|k: int| 0 <= k < tiles@.len() ==> !#[trigger] tile_unfinished(tiles@[k]),
{
    let mut i: usize = 0;
    while i < tiles.len()
        invariant
            i <= tiles@.len(),
            forall|k: int| 0 <= k < i ==> !#[trigger] tile_unfinished(tiles@[k]),
        decreases tiles@.len() - i,
    {
        if tiles[i].m_current_tile_part_number == 0 && tiles[i].m_nb_tile_parts == 0 {
            return Some(i);
        }
        i = i + 1;
    }
    None
}

/// The first tile from `current` on that has data to decode, or the number
/// of tiles when none has.
pub fn opj_j2k_next_tile_with_data(current: usize, has_data: &[bool]) -> (r: usize)
    requires
        current <= has_data@.len(),
    ensures
        current <= r <= has_data@.len(),
        r < has_data@.len() ==> has_data@[r as int],
        forall|k: int| current <= k < r ==> !#[trigger] has_data@[k],
{
    let mut i = current;
    while i < has_data.len() && !has_data[i]
        invariant
            current <= i <= has_data@.len(),
            forall|k: int| current <= k < i ==> !#[trigger] has_data@[k],
        decreases has_data@.len() - i,
    {
        i = i + 1;
    }
    i
}

/// What the search past an unknown marker does with the next two bytes of
/// the codestream.
#[derive(Clone, Copy, Debug, PartialEq, Eq, Structural)]
pub enum UnknownStep {
    /// Not a marker code: read on.
    Skip,
    /// A marker out of its place: the codestream is refused.
    Misplaced,
    /// A known marker in its place ends the search; the unknown segment is
    /// recorded in the index unless the marker starts a tile-part.
    Found { marker: J2KMarker, record: bool },
    /// Another unknown marker: read on, the unknown segment now `size`
    /// bytes long.
    Unknown { size: u32 },
}

/// The step the search past an unknown marker takes on the code `code`, in
/// decoder state `state`, the unknown segment being `size` bytes long.
pub open spec fn unknown_step(state: J2KState, code: u32, size: u32) -> UnknownStep {
    let m = marker_of_code(code);
    if code < 0xff00 {
        UnknownStep::Skip
    } else if state & marker_states(m) == J2K_STATE_NONE {
        UnknownStep::Misplaced
    } else if !(m is UNK) {
        UnknownStep::Found { marker: m, record: m != J2KMarker::SOT }
    } else {
        UnknownStep::Unknown { size: size.wrapping_add(2) }
    }
}

/// Takes the next code met while skipping an unknown marker segment.
pub fn opj_j2k_read_unk_step(state: J2KState, code: u32, size: u32) -> (r: UnknownStep)
    ensures
        r == unknown_step(state, code, size),
{
    if code < 0xff00 {
        return UnknownStep::Skip;
    }
    let m = J2KMarker::from(code);
    if state & m.states() == J2K_STATE_NONE {
        UnknownStep::Misplaced
    } else if !m.is_unknown() {
        UnknownStep::Found { marker: m, record: m != J2KMarker::SOT }
    } else {
        UnknownStep::Unknown { size: size.wrapping_add(2) }
    }
}

/// What the look-ahead for a tile's next tile-part does with the bytes met
/// at the next marker.
#[derive(Clone, Copy, Debug, PartialEq, Eq, Structural)]
pub enum CorrectionStep {
    /// The look-ahead is over: whether the numbers of tile-parts of the
    /// codestream are one short.
    Done(bool),
    /// The tile-part belongs to another tile: skip this many bytes to the
    /// next marker.
    Skip(u32),
    /// The codestream is refused.
    Fail(HeaderError),
}

/// The step the look-ahead takes on the (up to 12) bytes `h` that follow:
/// a marker, and for a SOT marker its length and segment. Another marker,
/// or the end of the codestream, ends it with no correction; a tile-part of
/// tile `tile_no` ends it, with a correction when its index equals its
/// number of tile-parts; a tile-part of another tile is skipped, unless its
/// length says it runs to the end.
pub open spec fn correction_step(tile_no: u32, h: Seq<u8>) -> CorrectionStep {
    if h.len() < 2 || be_value(h.subrange(0, 2)) != 0xff90 {
        CorrectionStep::Done(false)
    } else if h.len() < 4 {
        CorrectionStep::Fail(HeaderError::StreamTooShort)
    } else if be_value(h.subrange(2, 4)) != 10 {
        CorrectionStep::Fail(HeaderError::InconsistentMarkerSize)
    } else if h.len() < 12 {
        CorrectionStep::Fail(HeaderError::StreamTooShort)
    } else {
        let d = h.subrange(4, 12);
        if sot_isot(d) == tile_no {
            CorrectionStep::Done(sot_tpsot(d) == sot_tnsot(d))
        } else if sot_psot(d) < 14 {
            CorrectionStep::Done(false)
        } else {
            CorrectionStep::Skip((sot_psot(d) - 12) as u32)
        }
    }
}

/// Takes the bytes met at the next marker while looking ahead for the next
/// tile-part of tile `tile_no`.
pub fn opj_j2k_nb_tile_parts_correction_step(tile_no: u32, h: &[u8]) -> (r: CorrectionStep)
    requires
        h@.len() <= 12,
    ensures
        r == correction_step(tile_no, h@),
{
    if h.len() < 2 || opj_read_bytes(h, 0, 2) != 0xff90 {
        return CorrectionStep::Done(false);
    }
    if h.len() < 4 {
        return CorrectionStep::Fail(HeaderError::StreamTooShort);
    }
    if opj_read_bytes(h, 2, 2) != 10 {
        return CorrectionStep::Fail(HeaderError::InconsistentMarkerSize);
    }
    if h.len() < 12 {
        return CorrectionStep::Fail(HeaderError::StreamTooShort);
    }
    let d = vstd::slice::slice_subrange(h, 4, 12);
    match opj_j2k_get_sot_values(d, 8) {
        Some((tile, tot_len, current, num)) => {
            if tile == tile_no {
                CorrectionStep::Done(current == num)
            } else if tot_len < 14 {
                CorrectionStep::Done(false)
            } else {
                CorrectionStep::Skip(tot_len - 12)
            }
        },
        None => CorrectionStep::Done(false),
    }
}

} // verus!
