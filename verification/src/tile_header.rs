//! Reading a tile-part header: the decisions the decoder takes between the
//! reads of the codestream, as a state machine. The caller reads the
//! codestream, runs the marker handlers and the tile-part data reader, and
//! hands back what they gave; the machine answers with what to do next.
use vstd::prelude::*;

use crate::header::{opj_j2k_apply_nb_tile_parts_correction, opj_j2k_find_unfinished_tile, tile_unfinished, HeaderError};
use crate::j2k::{
    marker_of_code, marker_states, J2KMarker, J2K_STATE_DATA, J2K_STATE_EOC, J2K_STATE_NEOC,
    J2K_STATE_NONE, J2K_STATE_TPH, J2K_STATE_TPHSOT,
};
use crate::tile::{opj_tile_decoder, opj_tile_parts};

verus! {

/// Where the reading of a tile-part header waits for the caller.
#[derive(Clone, Copy, Debug, PartialEq, Eq, Structural)]
pub enum TileHeaderPhase {
    /// Before a tile-part header is asked for.
    Init,
    /// At the top of a marker: is anything left of the codestream?
    BytesLeft,
    /// The length field of the marker segment.
    MarkerSize,
    /// After the length of a `0x8080` marker: is anything left?
    Check8080,
    /// A segment longer than the header buffer: is that much left?
    Room,
    /// The segment is being read.
    Segment,
    /// The segment is being handled by its marker's handler.
    Handled,
    /// The rest of the tile-part is being skipped.
    Skip,
    /// The code of the marker that follows the segment.
    MarkerId,
    /// The markers of the header are over, the codestream was found ended:
    /// is anything left?
    AfterInner,
    /// The tile-part data after the SOD marker is being read.
    Sod,
    /// The look-ahead for the numbers of tile-parts.
    Correction,
    /// The code of the marker after the tile-part.
    NextMarker,
    /// Which tiles have data.
    TilesWithData,
    /// The tile is being made ready to decode.
    SetUp,
    /// The header is read, or refused.
    Finished,
}

/// The reader of tile-part headers: where it waits, the marker at hand and
/// the length of its segment, the size of the header buffer, the position
/// of the last SOT marker read, the number of tiles, and whether the
/// look-ahead for the numbers of tile-parts was made.
#[derive(Clone, Copy, Debug)]
pub struct TileHeaderReader {
    pub phase: TileHeaderPhase,
    pub marker: J2KMarker,
    pub size: u32,
    pub header_data_size: u32,
    pub last_sot_read_pos: i64,
    pub nb_tiles: u32,
    pub correction_checked: bool,
}

/// What the caller does next.
#[derive(Clone, Copy, Debug, PartialEq, Eq, Structural)]
pub enum TileHeaderAction {
    /// Tell how many bytes of the codestream are left.
    QueryBytesLeft,
    /// Read two bytes (a length field or a marker code).
    ReadTwoBytes,
    /// Read a segment of this many bytes into the header buffer.
    ReadSegment(u32),
    /// Hand the segment (this many bytes) to the marker's handler, and note
    /// the marker in the codestream index.
    HandleSegment(J2KMarker, u32),
    /// Skip this many bytes of the codestream.
    Skip(u32),
    /// Read the tile-part data after the SOD marker.
    ReadSod,
    /// Look ahead for the next tile-part of the current tile.
    CheckCorrection,
    /// Tell which tiles have data.
    ListTilesWithData,
    /// Make this tile ready to decode.
    SetUpTile(u32),
    /// The header of this tile is read: decode it.
    Go(u32),
    /// No tile is left to decode.
    NoMoreTiles,
    /// The codestream is refused.
    Fail(HeaderError),
}

/// What the caller hands back.
#[derive(Clone, Debug)]
pub enum TileHeaderEvent {
    /// A tile-part header is asked for.
    Start,
    /// This many bytes of the codestream are left.
    BytesLeft(i64),
    /// The two bytes read, big-endian, or none when the codestream ended.
    TwoBytes(Option<u32>),
    /// Whether the whole segment was read.
    SegmentRead(bool),
    /// Whether the handler accepted the segment, and the position in the
    /// codestream after it.
    Handled(bool, i64),
    /// How many bytes were skipped.
    Skipped(i64),
    /// Whether the tile-part data could be read, and whether all of it was.
    SodRead(bool, bool),
    /// The look-ahead: whether the numbers of tile-parts are one short, or
    /// none when it failed.
    Correction(Option<bool>),
    /// For each tile, whether it has data.
    TilesWithData(Vec<bool>),
    /// Whether the tile was made ready to decode.
    TileSetUp(bool),
}

/// The reader, the decoder, the tiles' tile-part counts and the action,
/// after a step.
pub type TileHeaderOutcome = (TileHeaderReader, opj_tile_decoder, Seq<opj_tile_parts>, TileHeaderAction);

/// Whether the event answers what the reader waits for.
pub open spec fn event_fits(r: TileHeaderReader, ev: TileHeaderEvent) -> bool {
    match ev {
        TileHeaderEvent::Start => true,
        TileHeaderEvent::BytesLeft(_) => r.phase == TileHeaderPhase::BytesLeft || r.phase
            == TileHeaderPhase::Check8080 || r.phase == TileHeaderPhase::Room || r.phase
            == TileHeaderPhase::AfterInner,
        TileHeaderEvent::TwoBytes(v) => (r.phase == TileHeaderPhase::MarkerSize || r.phase
            == TileHeaderPhase::MarkerId || r.phase == TileHeaderPhase::NextMarker) && (v matches Some(
            c) ==> c <= 0xffff),
        TileHeaderEvent::SegmentRead(_) => r.phase == TileHeaderPhase::Segment,
        TileHeaderEvent::Handled(_, _) => r.phase == TileHeaderPhase::Handled,
        TileHeaderEvent::Skipped(_) => r.phase == TileHeaderPhase::Skip,
        TileHeaderEvent::SodRead(_, _) => r.phase == TileHeaderPhase::Sod,
        TileHeaderEvent::Correction(_) => r.phase == TileHeaderPhase::Correction,
        TileHeaderEvent::TilesWithData(h) => r.phase == TileHeaderPhase::TilesWithData && h@.len()
            == r.nb_tiles,
        TileHeaderEvent::TileSetUp(_) => r.phase == TileHeaderPhase::SetUp,
    }
}

/// The reader, waiting at `p`.
pub open spec fn at_phase(r: TileHeaderReader, p: TileHeaderPhase) -> TileHeaderReader {
    TileHeaderReader { phase: p, ..r }
}

/// The codestream refused with `e`: the reader is finished.
pub open spec fn fail_outcome(
    r: TileHeaderReader,
    d: opj_tile_decoder,
    t: Seq<opj_tile_parts>,
    e: HeaderError,
) -> TileHeaderOutcome {
    (at_phase(r, TileHeaderPhase::Finished), d, t, TileHeaderAction::Fail(e))
}

/// The tile-part counts once they are known to be one short: one more for
/// every tile whose count is known.
pub open spec fn corrected(t: Seq<opj_tile_parts>) -> Seq<opj_tile_parts> {
    Seq::new(
        t.len(),
        |i: int|
            opj_tile_parts {
                m_current_tile_part_number: t[i].m_current_tile_part_number,
                m_nb_tile_parts: if t[i].m_nb_tile_parts != 0 {
                    ((t[i].m_nb_tile_parts + 1) % 0x1_0000_0000) as u32
                } else {
                    0
                },
            },
    )
}

/// The first tile that has a single tile-part saying nothing of the number
/// of tile-parts.
pub open spec fn first_unfinished(t: Seq<opj_tile_parts>) -> Option<int> {
    if exists|i: int| 0 <= i < t.len() && #[trigger] tile_unfinished(t[i]) {
        Some(
            choose|i: int|
                0 <= i < t.len() && #[trigger] tile_unfinished(t[i]) && forall|k: int|
                    0 <= k < i ==> !tile_unfinished(t[k]),
        )
    } else {
        None
    }
}

/// The first tile from `c` on that has data, or `c` when it is past the
/// tiles, or the number of tiles when none has.
pub open spec fn next_with_data(c: int, h: Seq<bool>) -> int
    decreases h.len() - c,
{
    if c < 0 || c >= h.len() || h[c] {
        c
    } else {
        next_with_data(c + 1, h)
    }
}

/// The position of a marker whose segment of `size` bytes past its length
/// field ends at `tell`: back over the segment, the length and the code.
pub open spec fn marker_position(tell: i64, size: u32) -> u32 {
    (((tell as u32) as int - size - 4) % 0x1_0000_0000) as u32
}

/// After the markers: an EOC marker ends the codestream (the tile number
/// goes back to 0); then, unless the tile can be decoded, the tiles with
/// data are asked for, else the tile is made ready.
pub open spec fn th_tail(r: TileHeaderReader, d: opj_tile_decoder, t: Seq<opj_tile_parts>) -> TileHeaderOutcome {
    let d1 = if r.marker == J2KMarker::EOC && d.m_state != J2K_STATE_EOC {
        opj_tile_decoder { m_current_tile_number: 0, m_state: J2K_STATE_EOC, ..d }
    } else {
        d
    };
    if !d1.m_can_decode {
        (at_phase(r, TileHeaderPhase::TilesWithData), d1, t, TileHeaderAction::ListTilesWithData)
    } else {
        (
            at_phase(r, TileHeaderPhase::SetUp),
            d1,
            t,
            TileHeaderAction::SetUpTile(d1.m_current_tile_number),
        )
    }
}

/// After the tile-part data: a tile that can be decoded ends the markers,
/// else the next marker is read.
pub open spec fn th_after_sod(r: TileHeaderReader, d: opj_tile_decoder, t: Seq<opj_tile_parts>) -> TileHeaderOutcome {
    if d.m_can_decode {
        th_tail(r, d, t)
    } else {
        (at_phase(r, TileHeaderPhase::NextMarker), d, t, TileHeaderAction::ReadTwoBytes)
    }
}

/// At the SOD marker: the tile-part data is read, or, when it was skipped,
/// a new tile-part header is expected.
pub open spec fn th_sod(r: TileHeaderReader, d: opj_tile_decoder, t: Seq<opj_tile_parts>) -> TileHeaderOutcome {
    if !d.m_skip_data {
        (at_phase(r, TileHeaderPhase::Sod), d, t, TileHeaderAction::ReadSod)
    } else {
        th_after_sod(
            r,
            opj_tile_decoder { m_skip_data: false, m_can_decode: false, m_state: J2K_STATE_TPHSOT, ..d },
            t,
        )
    }
}

/// The markers of the tile-part header are over: when the codestream was
/// found ended, whether anything is left decides.
pub open spec fn th_after_inner(r: TileHeaderReader, d: opj_tile_decoder, t: Seq<opj_tile_parts>) -> TileHeaderOutcome {
    if d.m_state == J2K_STATE_NEOC {
        (at_phase(r, TileHeaderPhase::AfterInner), d, t, TileHeaderAction::QueryBytesLeft)
    } else {
        th_sod(r, d, t)
    }
}

/// At a marker of the tile-part header: up to the SOD marker, the
/// codestream is asked whether anything is left.
pub open spec fn th_inner(r: TileHeaderReader, d: opj_tile_decoder, t: Seq<opj_tile_parts>) -> TileHeaderOutcome {
    if r.marker != J2KMarker::SOD {
        (at_phase(r, TileHeaderPhase::BytesLeft), d, t, TileHeaderAction::QueryBytesLeft)
    } else {
        th_after_inner(r, d, t)
    }
}

/// At a tile-part: until a tile can be decoded or the EOC marker is met,
/// its header is read.
pub open spec fn th_outer(r: TileHeaderReader, d: opj_tile_decoder, t: Seq<opj_tile_parts>) -> TileHeaderOutcome {
    if !d.m_can_decode && r.marker != J2KMarker::EOC {
        th_inner(r, d, t)
    } else {
        th_tail(r, d, t)
    }
}

/// A length field `raw` (at least 2) read: in a tile-part header the data
/// left of the tile-part is counted down by the segment, its length field
/// and its code; a marker out of place is refused; a segment longer than
/// the header buffer is checked against the codestream, else read.
pub open spec fn th_size(r: TileHeaderReader, d: opj_tile_decoder, t: Seq<opj_tile_parts>, raw: u32) -> TileHeaderOutcome {
    let d1 = if d.m_state & J2K_STATE_TPH != J2K_STATE_NONE {
        opj_tile_decoder {
            m_sot_length: ((d.m_sot_length - (raw + 2) + 0x1_0000_0000) % 0x1_0000_0000) as u32,
            ..d
        }
    } else {
        d
    };
    let size = (raw - 2) as u32;
    let r1 = TileHeaderReader { size: size, ..r };
    if d1.m_state & marker_states(r.marker) == J2K_STATE_NONE {
        fail_outcome(r1, d1, t, HeaderError::MisplacedMarker)
    } else if size > r.header_data_size {
        (at_phase(r1, TileHeaderPhase::Room), d1, t, TileHeaderAction::QueryBytesLeft)
    } else {
        (at_phase(r1, TileHeaderPhase::Segment), d1, t, TileHeaderAction::ReadSegment(size))
    }
}

/// A tile-part header is asked for: after the EOC marker the markers are
/// over; otherwise the decoder must wait for a SOT marker.
pub open spec fn th_start(r: TileHeaderReader, d: opj_tile_decoder, t: Seq<opj_tile_parts>) -> TileHeaderOutcome {
    if d.m_state == J2K_STATE_EOC {
        th_outer(TileHeaderReader { marker: J2KMarker::EOC, ..r }, d, t)
    } else if d.m_state != J2K_STATE_TPHSOT {
        fail_outcome(r, d, t, HeaderError::NotReady)
    } else {
        th_outer(TileHeaderReader { marker: J2KMarker::SOT, ..r }, d, t)
    }
}

/// The reader waits for the codestream's length: none left ends the
/// markers; after the length of a `0x8080` marker, none left ends them too;
/// for a segment longer than the header buffer, too little left refuses
/// it; after the markers, none left ends the tile-parts.
pub open spec fn th_on_bytes_left(r: TileHeaderReader, d: opj_tile_decoder, t: Seq<opj_tile_parts>, n: i64) -> TileHeaderOutcome {
    if r.phase == TileHeaderPhase::BytesLeft {
        if n == 0 {
            th_after_inner(r, opj_tile_decoder { m_state: J2K_STATE_NEOC, ..d }, t)
        } else {
            (at_phase(r, TileHeaderPhase::MarkerSize), d, t, TileHeaderAction::ReadTwoBytes)
        }
    } else if r.phase == TileHeaderPhase::Check8080 {
        if n == 0 {
            th_after_inner(r, opj_tile_decoder { m_state: J2K_STATE_NEOC, ..d }, t)
        } else {
            th_size(r, d, t, r.size)
        }
    } else if r.phase == TileHeaderPhase::Room {
        if r.size > n {
            fail_outcome(r, d, t, HeaderError::SegmentExceedsStream)
        } else {
            (
                at_phase(TileHeaderReader { header_data_size: r.size, ..r }, TileHeaderPhase::Segment),
                d,
                t,
                TileHeaderAction::ReadSegment(r.size),
            )
        }
    } else if n == 0 {
        th_tail(r, d, t)
    } else {
        th_sod(r, d, t)
    }
}

/// The reader gets two bytes, or none when the codestream ended: a length
/// field, the code of the marker after a segment, or the code of the
/// marker after a tile-part. The codestream ending after the tile-parts of
/// the last tile is taken as the missing EOC marker when a tile has a
/// single tile-part that said nothing of the number of tile-parts.
pub open spec fn th_on_two_bytes(r: TileHeaderReader, d: opj_tile_decoder, t: Seq<opj_tile_parts>, v: Option<u32>) -> TileHeaderOutcome {
    if r.phase == TileHeaderPhase::MarkerSize {
        match v {
            None => fail_outcome(r, d, t, HeaderError::StreamTooShort),
            Some(raw) => if raw < 2 {
                fail_outcome(r, d, t, HeaderError::InvalidMarkerSize)
            } else if r.marker == J2KMarker::UNK(0x8080) {
                (
                    at_phase(TileHeaderReader { size: raw, ..r }, TileHeaderPhase::Check8080),
                    d,
                    t,
                    TileHeaderAction::QueryBytesLeft,
                )
            } else {
                th_size(r, d, t, raw)
            },
        }
    } else if r.phase == TileHeaderPhase::MarkerId {
        match v {
            None => fail_outcome(r, d, t, HeaderError::StreamTooShort),
            Some(c) => th_inner(TileHeaderReader { marker: marker_of_code(c), ..r }, d, t),
        }
    } else {
        match v {
            Some(c) => th_outer(TileHeaderReader { marker: marker_of_code(c), ..r }, d, t),
            None => if (d.m_current_tile_number + 1) % 0x1_0000_0000 == r.nb_tiles
                && first_unfinished(t) is Some {
                th_tail(
                    TileHeaderReader { marker: J2KMarker::EOC, ..r },
                    opj_tile_decoder {
                        m_current_tile_number: first_unfinished(t)->0 as u32,
                        m_state: J2K_STATE_EOC,
                        ..d
                    },
                    t,
                )
            } else {
                fail_outcome(r, d, t, HeaderError::StreamTooShort)
            },
        }
    }
}

/// The handler took the segment: the position of the last SOT marker read
/// is kept; then the rest of the tile-part is skipped when its data is not
/// wanted, else the next marker code is read.
pub open spec fn th_on_handled(r: TileHeaderReader, d: opj_tile_decoder, t: Seq<opj_tile_parts>, ok: bool, tell: i64) -> TileHeaderOutcome {
    if !ok {
        fail_outcome(r, d, t, HeaderError::SegmentRefused)
    } else {
        let pos = marker_position(tell, r.size);
        let r1 = if r.marker == J2KMarker::SOT && pos > r.last_sot_read_pos {
            TileHeaderReader { last_sot_read_pos: pos as i64, ..r }
        } else {
            r
        };
        if d.m_skip_data {
            (at_phase(r1, TileHeaderPhase::Skip), d, t, TileHeaderAction::Skip(d.m_sot_length))
        } else {
            (at_phase(r1, TileHeaderPhase::MarkerId), d, t, TileHeaderAction::ReadTwoBytes)
        }
    }
}

/// The tile-part data was read: the decoder expects a new tile-part when
/// all of it was, else the codestream is found ended; the first tile that
/// can be decoded is looked ahead of for the numbers of tile-parts.
pub open spec fn th_on_sod(r: TileHeaderReader, d: opj_tile_decoder, t: Seq<opj_tile_parts>, ok: bool, complete: bool) -> TileHeaderOutcome {
    if !ok {
        fail_outcome(r, d, t, HeaderError::SodRefused)
    } else {
        let d1 = opj_tile_decoder {
            m_state: if complete {
                J2K_STATE_TPHSOT
            } else {
                J2K_STATE_NEOC
            },
            ..d
        };
        if d1.m_can_decode && !r.correction_checked {
            (
                at_phase(TileHeaderReader { correction_checked: true, ..r }, TileHeaderPhase::Correction),
                d1,
                t,
                TileHeaderAction::CheckCorrection,
            )
        } else {
            th_after_sod(r, d1, t)
        }
    }
}

/// The tiles with data are known: the first from the current tile on is
/// made ready, or none is left.
pub open spec fn th_on_tiles(r: TileHeaderReader, d: opj_tile_decoder, t: Seq<opj_tile_parts>, h: Seq<bool>) -> TileHeaderOutcome {
    let k = next_with_data(d.m_current_tile_number as int, h);
    let d1 = opj_tile_decoder { m_current_tile_number: k as u32, ..d };
    if k == r.nb_tiles {
        (at_phase(r, TileHeaderPhase::Finished), d1, t, TileHeaderAction::NoMoreTiles)
    } else {
        (at_phase(r, TileHeaderPhase::SetUp), d1, t, TileHeaderAction::SetUpTile(k as u32))
    }
}

/// What the reader does with the event.
pub open spec fn tile_header_next(
    r: TileHeaderReader,
    d: opj_tile_decoder,
    t: Seq<opj_tile_parts>,
    ev: TileHeaderEvent,
) -> TileHeaderOutcome {
    match ev {
        TileHeaderEvent::Start => th_start(r, d, t),
        TileHeaderEvent::BytesLeft(n) => th_on_bytes_left(r, d, t, n),
        TileHeaderEvent::TwoBytes(v) => th_on_two_bytes(r, d, t, v),
        TileHeaderEvent::SegmentRead(ok) => if !ok {
            fail_outcome(r, d, t, HeaderError::StreamTooShort)
        } else {
            (
                at_phase(r, TileHeaderPhase::Handled),
                d,
                t,
                TileHeaderAction::HandleSegment(r.marker, r.size),
            )
        },
        TileHeaderEvent::Handled(ok, tell) => th_on_handled(r, d, t, ok, tell),
        TileHeaderEvent::Skipped(n) => if n != d.m_sot_length {
            fail_outcome(r, d, t, HeaderError::StreamTooShort)
        } else {
            th_inner(TileHeaderReader { marker: J2KMarker::SOD, ..r }, d, t)
        },
        TileHeaderEvent::SodRead(ok, complete) => th_on_sod(r, d, t, ok, complete),
        TileHeaderEvent::Correction(c) => match c {
            None => fail_outcome(r, d, t, HeaderError::CorrectionFailed),
            Some(true) => th_after_sod(
                r,
                opj_tile_decoder { m_can_decode: false, m_nb_tile_parts_correction: true, ..d },
                corrected(t),
            ),
            Some(false) => th_after_sod(r, d, t),
        },
        TileHeaderEvent::TilesWithData(h) => th_on_tiles(r, d, t, h@),
        TileHeaderEvent::TileSetUp(ok) => if !ok {
            fail_outcome(r, d, t, HeaderError::TileSetupFailed)
        } else {
            (
                at_phase(r, TileHeaderPhase::Finished),
                opj_tile_decoder { m_state: d.m_state | J2K_STATE_DATA, ..d },
                t,
                TileHeaderAction::Go(d.m_current_tile_number),
            )
        },
    }
}

/// The reader's own invariant: while it waits to check a `0x8080`
/// marker, it holds the length field read.
pub open spec fn reader_wf(r: TileHeaderReader) -> bool {
    r.phase == TileHeaderPhase::Check8080 ==> 2 <= r.size <= 0xffff
}

/// The position of a marker whose segment of `size` bytes past its length
/// field ends at `tell`, as the codestream index records it.
pub fn opj_j2k_marker_position(tell: i64, size: u32) -> (p: u32)
    ensures
        p == marker_position(tell, size),
{
    let t = tell as u32;
    let p = t.wrapping_sub(size).wrapping_sub(4);
    p
}

impl TileHeaderReader {
    /// A reader waiting for its first tile-part header, for a codestream of
    /// `nb_tiles` tiles.
    pub fn new(nb_tiles: u32) -> (r: Self)
        ensures
            r.phase == TileHeaderPhase::Init,
            r.marker == J2KMarker::SOT,
            r.size == 0,
            r.header_data_size == 0,
            r.last_sot_read_pos == 0,
            r.nb_tiles == nb_tiles,
            !r.correction_checked,
    {
        TileHeaderReader {
            phase: TileHeaderPhase::Init,
            marker: J2KMarker::SOT,
            size: 0,
            header_data_size: 0,
            last_sot_read_pos: 0,
            nb_tiles,
            correction_checked: false,
        }
    }
}

fn th_fail(rd: &mut TileHeaderReader, e: HeaderError) -> (a: TileHeaderAction)
    ensures
        *final(rd) == at_phase(*old(rd), TileHeaderPhase::Finished),
        a == TileHeaderAction::Fail(e),
{
    rd.phase = TileHeaderPhase::Finished;
    TileHeaderAction::Fail(e)
}

fn th_tail_exec(rd: &mut TileHeaderReader, dec: &mut opj_tile_decoder, tiles: &Vec<opj_tile_parts>) -> (a: TileHeaderAction)
    ensures
        (*final(rd), *final(dec), tiles@, a) == th_tail(*old(rd), *old(dec), tiles@),
{
    if rd.marker == J2KMarker::EOC && dec.m_state != J2K_STATE_EOC {
        dec.m_current_tile_number = 0;
        dec.m_state = J2K_STATE_EOC;
    }
    if !dec.m_can_decode {
        rd.phase = TileHeaderPhase::TilesWithData;
        TileHeaderAction::ListTilesWithData
    } else {
        rd.phase = TileHeaderPhase::SetUp;
        TileHeaderAction::SetUpTile(dec.m_current_tile_number)
    }
}

fn th_after_sod_exec(rd: &mut TileHeaderReader, dec: &mut opj_tile_decoder, tiles: &Vec<opj_tile_parts>) -> (a: TileHeaderAction)
    ensures
        (*final(rd), *final(dec), tiles@, a) == th_after_sod(*old(rd), *old(dec), tiles@),
{
    if dec.m_can_decode {
        th_tail_exec(rd, dec, tiles)
    } else {
        rd.phase = TileHeaderPhase::NextMarker;
        TileHeaderAction::ReadTwoBytes
    }
}

fn th_sod_exec(rd: &mut TileHeaderReader, dec: &mut opj_tile_decoder, tiles: &Vec<opj_tile_parts>) -> (a: TileHeaderAction)
    ensures
        (*final(rd), *final(dec), tiles@, a) == th_sod(*old(rd), *old(dec), tiles@),
{
    if !dec.m_skip_data {
        rd.phase = TileHeaderPhase::Sod;
        TileHeaderAction::ReadSod
    } else {
        dec.m_skip_data = false;
        dec.m_can_decode = false;
        dec.m_state = J2K_STATE_TPHSOT;
        th_after_sod_exec(rd, dec, tiles)
    }
}

fn th_after_inner_exec(rd: &mut TileHeaderReader, dec: &mut opj_tile_decoder, tiles: &Vec<opj_tile_parts>) -> (a: TileHeaderAction)
    ensures
        (*final(rd), *final(dec), tiles@, a) == th_after_inner(*old(rd), *old(dec), tiles@),
{
    if dec.m_state == J2K_STATE_NEOC {
        rd.phase = TileHeaderPhase::AfterInner;
        TileHeaderAction::QueryBytesLeft
    } else {
        th_sod_exec(rd, dec, tiles)
    }
}

fn th_inner_exec(rd: &mut TileHeaderReader, dec: &mut opj_tile_decoder, tiles: &Vec<opj_tile_parts>) -> (a: TileHeaderAction)
    ensures
        (*final(rd), *final(dec), tiles@, a) == th_inner(*old(rd), *old(dec), tiles@),
{
    if rd.marker != J2KMarker::SOD {
        rd.phase = TileHeaderPhase::BytesLeft;
        TileHeaderAction::QueryBytesLeft
    } else {
        th_after_inner_exec(rd, dec, tiles)
    }
}

fn th_outer_exec(rd: &mut TileHeaderReader, dec: &mut opj_tile_decoder, tiles: &Vec<opj_tile_parts>) -> (a: TileHeaderAction)
    ensures
        (*final(rd), *final(dec), tiles@, a) == th_outer(*old(rd), *old(dec), tiles@),
{
    if !dec.m_can_decode && rd.marker != J2KMarker::EOC {
        th_inner_exec(rd, dec, tiles)
    } else {
        th_tail_exec(rd, dec, tiles)
    }
}

fn th_size_exec(rd: &mut TileHeaderReader, dec: &mut opj_tile_decoder, tiles: &Vec<opj_tile_parts>, raw: u32) -> (a: TileHeaderAction)
    requires
        2 <= raw <= 0xffff,
    ensures
        (*final(rd), *final(dec), tiles@, a) == th_size(*old(rd), *old(dec), tiles@, raw),
{
    if dec.m_state & J2K_STATE_TPH != J2K_STATE_NONE {
        dec.m_sot_length = dec.m_sot_length.wrapping_sub(raw + 2);
    }
    let size = raw - 2;
    rd.size = size;
    if dec.m_state & rd.marker.states() == J2K_STATE_NONE {
        th_fail(rd, HeaderError::MisplacedMarker)
    } else if size > rd.header_data_size {
        rd.phase = TileHeaderPhase::Room;
        TileHeaderAction::QueryBytesLeft
    } else {
        rd.phase = TileHeaderPhase::Segment;
        TileHeaderAction::ReadSegment(size)
    }
}

fn th_first_unfinished(tiles: &Vec<opj_tile_parts>) -> (r: Option<usize>)
    ensures
        r matches Some(i) ==> first_unfinished(tiles@) == Some(i as int),
        r is None ==> first_unfinished(tiles@) is None,
{
    let r = opj_j2k_find_unfinished_tile(tiles.as_slice());
    proof {
        let t = tiles@;
        match r {
            Some(i) => {
                assert(tile_unfinished(t[i as int]));
                let j = choose|j: int|
                    0 <= j < t.len() && #[trigger] tile_unfinished(t[j]) && forall|k: int|
                        0 <= k < j ==> !tile_unfinished(t[k]);
                assert(0 <= i < t.len() && tile_unfinished(t[i as int]) && forall|k: int|
                    0 <= k < i ==> !tile_unfinished(t[k]));
                if j < i {
                    assert(!tile_unfinished(t[j]));
                } else if j > i {
                    assert(!tile_unfinished(t[i as int]));
                }
            },
            None => {
                assert(!exists|i: int| 0 <= i < t.len() && #[trigger] tile_unfinished(t[i]));
            },
        }
    }
    r
}

fn th_next_with_data(c: u32, h: &Vec<bool>) -> (k: u32)
    requires
        h@.len() <= u32::MAX,
    ensures
        k == next_with_data(c as int, h@),
{
    let mut k = c;
    while (k as usize) < h.len() && !h[k as usize]
        invariant
            h@.len() <= u32::MAX,
            c <= k,
            next_with_data(k as int, h@) == next_with_data(c as int, h@),
        decreases h@.len() - k,
    {
        k = k + 1;
    }
    k
}

fn th_bytes_left_exec(rd: &mut TileHeaderReader, dec: &mut opj_tile_decoder, tiles: &Vec<opj_tile_parts>, n: i64) -> (a: TileHeaderAction)
    requires
        reader_wf(*old(rd)),
    ensures
        (*final(rd), *final(dec), tiles@, a) == th_on_bytes_left(*old(rd), *old(dec), tiles@, n),
{
    if rd.phase == TileHeaderPhase::BytesLeft {
        if n == 0 {
            dec.m_state = J2K_STATE_NEOC;
            th_after_inner_exec(rd, dec, tiles)
        } else {
            rd.phase = TileHeaderPhase::MarkerSize;
            TileHeaderAction::ReadTwoBytes
        }
    } else if rd.phase == TileHeaderPhase::Check8080 {
        if n == 0 {
            dec.m_state = J2K_STATE_NEOC;
            th_after_inner_exec(rd, dec, tiles)
        } else {
            let raw = rd.size;
            th_size_exec(rd, dec, tiles, raw)
        }
    } else if rd.phase == TileHeaderPhase::Room {
        if rd.size as i64 > n {
            th_fail(rd, HeaderError::SegmentExceedsStream)
        } else {
            rd.header_data_size = rd.size;
            rd.phase = TileHeaderPhase::Segment;
            TileHeaderAction::ReadSegment(rd.size)
        }
    } else if n == 0 {
        th_tail_exec(rd, dec, tiles)
    } else {
        th_sod_exec(rd, dec, tiles)
    }
}

fn th_two_bytes_exec(rd: &mut TileHeaderReader, dec: &mut opj_tile_decoder, tiles: &Vec<opj_tile_parts>, v: Option<u32>) -> (a: TileHeaderAction)
    requires
        v matches Some(c) ==> c <= 0xffff,
    ensures
        (*final(rd), *final(dec), tiles@, a) == th_on_two_bytes(*old(rd), *old(dec), tiles@, v),
{
    if rd.phase == TileHeaderPhase::MarkerSize {
        match v {
            None => th_fail(rd, HeaderError::StreamTooShort),
            Some(raw) => {
                if raw < 2 {
                    th_fail(rd, HeaderError::InvalidMarkerSize)
                } else if rd.marker == J2KMarker::UNK(0x8080) {
                    rd.size = raw;
                    rd.phase = TileHeaderPhase::Check8080;
                    TileHeaderAction::QueryBytesLeft
                } else {
                    th_size_exec(rd, dec, tiles, raw)
                }
            },
        }
    } else if rd.phase == TileHeaderPhase::MarkerId {
        match v {
            None => th_fail(rd, HeaderError::StreamTooShort),
            Some(c) => {
                rd.marker = J2KMarker::from(c);
                th_inner_exec(rd, dec, tiles)
            },
        }
    } else {
        match v {
            Some(c) => {
                rd.marker = J2KMarker::from(c);
                th_outer_exec(rd, dec, tiles)
            },
            None => {
                if dec.m_current_tile_number.wrapping_add(1) == rd.nb_tiles {
                    match th_first_unfinished(tiles) {
                        Some(i) => {
                            rd.marker = J2KMarker::EOC;
                            dec.m_current_tile_number = i as u32;
                            dec.m_state = J2K_STATE_EOC;
                            th_tail_exec(rd, dec, tiles)
                        },
                        None => th_fail(rd, HeaderError::StreamTooShort),
                    }
                } else {
                    th_fail(rd, HeaderError::StreamTooShort)
                }
            },
        }
    }
}

fn th_handled_exec(rd: &mut TileHeaderReader, dec: &mut opj_tile_decoder, tiles: &Vec<opj_tile_parts>, ok: bool, tell: i64) -> (a: TileHeaderAction)
    ensures
        (*final(rd), *final(dec), tiles@, a) == th_on_handled(*old(rd), *old(dec), tiles@, ok, tell),
{
    if !ok {
        th_fail(rd, HeaderError::SegmentRefused)
    } else {
        let pos = opj_j2k_marker_position(tell, rd.size);
        if rd.marker == J2KMarker::SOT && pos as i64 > rd.last_sot_read_pos {
            rd.last_sot_read_pos = pos as i64;
        }
        if dec.m_skip_data {
            rd.phase = TileHeaderPhase::Skip;
            TileHeaderAction::Skip(dec.m_sot_length)
        } else {
            rd.phase = TileHeaderPhase::MarkerId;
            TileHeaderAction::ReadTwoBytes
        }
    }
}

fn th_sod_read_exec(rd: &mut TileHeaderReader, dec: &mut opj_tile_decoder, tiles: &Vec<opj_tile_parts>, ok: bool, complete: bool) -> (a: TileHeaderAction)
    ensures
        (*final(rd), *final(dec), tiles@, a) == th_on_sod(*old(rd), *old(dec), tiles@, ok, complete),
{
    if !ok {
        th_fail(rd, HeaderError::SodRefused)
    } else {
        dec.m_state = if complete {
            J2K_STATE_TPHSOT
        } else {
            J2K_STATE_NEOC
        };
        if dec.m_can_decode && !rd.correction_checked {
            rd.correction_checked = true;
            rd.phase = TileHeaderPhase::Correction;
            TileHeaderAction::CheckCorrection
        } else {
            th_after_sod_exec(rd, dec, tiles)
        }
    }
}

fn th_tiles_exec(rd: &mut TileHeaderReader, dec: &mut opj_tile_decoder, tiles: &Vec<opj_tile_parts>, h: &Vec<bool>) -> (a: TileHeaderAction)
    requires
        h@.len() == old(rd).nb_tiles,
    ensures
        (*final(rd), *final(dec), tiles@, a) == th_on_tiles(*old(rd), *old(dec), tiles@, h@),
{
    let k = th_next_with_data(dec.m_current_tile_number, h);
    dec.m_current_tile_number = k;
    if k == rd.nb_tiles {
        rd.phase = TileHeaderPhase::Finished;
        TileHeaderAction::NoMoreTiles
    } else {
        rd.phase = TileHeaderPhase::SetUp;
        TileHeaderAction::SetUpTile(k)
    }
}

fn th_correction_exec(rd: &mut TileHeaderReader, dec: &mut opj_tile_decoder, tiles: &mut Vec<opj_tile_parts>, c: Option<bool>) -> (a: TileHeaderAction)
    ensures
        (*final(rd), *final(dec), final(tiles)@, a) == match c {
            None => fail_outcome(*old(rd), *old(dec), old(tiles)@, HeaderError::CorrectionFailed),
            Some(true) => th_after_sod(
                *old(rd),
                opj_tile_decoder { m_can_decode: false, m_nb_tile_parts_correction: true, ..*old(dec) },
                corrected(old(tiles)@),
            ),
            Some(false) => th_after_sod(*old(rd), *old(dec), old(tiles)@),
        },
{
    match c {
        None => th_fail(rd, HeaderError::CorrectionFailed),
        Some(true) => {
            dec.m_can_decode = false;
            dec.m_nb_tile_parts_correction = true;
            opj_j2k_apply_nb_tile_parts_correction(tiles);
            proof {
                assert(tiles@ =~= corrected(old(tiles)@));
            }
            th_after_sod_exec(rd, dec, tiles)
        },
        Some(false) => th_after_sod_exec(rd, dec, tiles),
    }
}

fn th_start_exec(rd: &mut TileHeaderReader, dec: &mut opj_tile_decoder, tiles: &Vec<opj_tile_parts>) -> (a: TileHeaderAction)
    ensures
        (*final(rd), *final(dec), tiles@, a) == th_start(*old(rd), *old(dec), tiles@),
{
    if dec.m_state == J2K_STATE_EOC {
        rd.marker = J2KMarker::EOC;
        th_outer_exec(rd, dec, tiles)
    } else if dec.m_state != J2K_STATE_TPHSOT {
        th_fail(rd, HeaderError::NotReady)
    } else {
        rd.marker = J2KMarker::SOT;
        th_outer_exec(rd, dec, tiles)
    }
}

/// Takes the caller's answer `ev` and says what to do next, as
/// `tile_header_next` has it: the reader `rd`, the decoder `dec` and the
/// tile-part counts `tiles` are updated as the reading of a tile-part
/// header goes.
pub fn opj_j2k_tile_header_step(
    rd: &mut TileHeaderReader,
    dec: &mut opj_tile_decoder,
    tiles: &mut Vec<opj_tile_parts>,
    ev: TileHeaderEvent,
) -> (a: TileHeaderAction)
    requires
        reader_wf(*old(rd)),
        event_fits(*old(rd), ev),
        old(tiles)@.len() == old(rd).nb_tiles,
    ensures
        (*final(rd), *final(dec), final(tiles)@, a) == tile_header_next(
            *old(rd),
            *old(dec),
            old(tiles)@,
            ev,
        ),
{
    match ev {
        TileHeaderEvent::Start => th_start_exec(rd, dec, tiles),
        TileHeaderEvent::BytesLeft(n) => th_bytes_left_exec(rd, dec, tiles, n),
        TileHeaderEvent::TwoBytes(v) => th_two_bytes_exec(rd, dec, tiles, v),
        TileHeaderEvent::SegmentRead(ok) => {
            if !ok {
                th_fail(rd, HeaderError::StreamTooShort)
            } else {
                rd.phase = TileHeaderPhase::Handled;
                TileHeaderAction::HandleSegment(rd.marker, rd.size)
            }
        },
        TileHeaderEvent::Handled(ok, tell) => th_handled_exec(rd, dec, tiles, ok, tell),
        TileHeaderEvent::Skipped(n) => {
            if n != dec.m_sot_length as i64 {
                th_fail(rd, HeaderError::StreamTooShort)
            } else {
                rd.marker = J2KMarker::SOD;
                th_inner_exec(rd, dec, tiles)
            }
        },
        TileHeaderEvent::SodRead(ok, complete) => th_sod_read_exec(rd, dec, tiles, ok, complete),
        TileHeaderEvent::Correction(c) => th_correction_exec(rd, dec, tiles, c),
        TileHeaderEvent::TilesWithData(h) => th_tiles_exec(rd, dec, tiles, &h),
        TileHeaderEvent::TileSetUp(ok) => {
            if !ok {
                th_fail(rd, HeaderError::TileSetupFailed)
            } else {
                dec.m_state = dec.m_state | J2K_STATE_DATA;
                rd.phase = TileHeaderPhase::Finished;
                TileHeaderAction::Go(dec.m_current_tile_number)
            }
        },
    }
}

/// Every step keeps the reader's invariant and the number of tile-part
/// counts, so that the reader can be stepped again.
pub proof fn lemma_tile_header_step_keeps(
    r: TileHeaderReader,
    d: opj_tile_decoder,
    t: Seq<opj_tile_parts>,
    ev: TileHeaderEvent,
)
    requires
        reader_wf(r),
        event_fits(r, ev),
        t.len() == r.nb_tiles,
    ensures
        reader_wf(tile_header_next(r, d, t, ev).0),
        tile_header_next(r, d, t, ev).2.len() == t.len(),
        tile_header_next(r, d, t, ev).0.nb_tiles == r.nb_tiles,
{
}

} // verus!
