use lib::header::HeaderError;
use lib::j2k::{J2KMarker, J2K_STATE_DATA, J2K_STATE_EOC, J2K_STATE_MH, J2K_STATE_NEOC, J2K_STATE_TPH, J2K_STATE_TPHSOT};
use lib::tile::{opj_tile_decoder, opj_tile_parts};
use lib::tile_header::{
    opj_j2k_marker_position, opj_j2k_tile_header_step, TileHeaderAction, TileHeaderEvent,
    TileHeaderPhase, TileHeaderReader,
};

fn decoder(state: u32) -> opj_tile_decoder {
    opj_tile_decoder {
        m_current_tile_number: 0,
        m_tile_ind_to_dec: -1,
        m_nb_tile_parts_correction: false,
        m_last_tile_part: false,
        m_can_decode: false,
        m_sot_length: 0,
        m_state: state,
        m_skip_data: false,
        m_start_tile_x: 0,
        m_start_tile_y: 0,
        m_end_tile_x: 2,
        m_end_tile_y: 1,
        tile_index: None,
    }
}

fn parts(n: usize) -> Vec<opj_tile_parts> {
    vec![opj_tile_parts { m_current_tile_part_number: -1, m_nb_tile_parts: 0 }; n]
}

#[test]
fn a_tile_part_header_is_read_up_to_its_data() {
    let mut rd = TileHeaderReader::new(2);
    let mut dec = decoder(J2K_STATE_TPHSOT);
    let mut tiles = parts(2);
    let mut step = |rd: &mut TileHeaderReader, dec: &mut opj_tile_decoder, ev: TileHeaderEvent| {
        opj_j2k_tile_header_step(rd, dec, &mut tiles, ev)
    };
    assert_eq!(step(&mut rd, &mut dec, TileHeaderEvent::Start), TileHeaderAction::QueryBytesLeft);
    assert_eq!(step(&mut rd, &mut dec, TileHeaderEvent::BytesLeft(100)), TileHeaderAction::ReadTwoBytes);
    // The SOT segment: 10 bytes, longer than the empty header buffer.
    assert_eq!(step(&mut rd, &mut dec, TileHeaderEvent::TwoBytes(Some(10))), TileHeaderAction::QueryBytesLeft);
    assert_eq!(rd.phase, TileHeaderPhase::Room);
    assert_eq!(step(&mut rd, &mut dec, TileHeaderEvent::BytesLeft(98)), TileHeaderAction::ReadSegment(8));
    assert_eq!(rd.header_data_size, 8);
    assert_eq!(
        step(&mut rd, &mut dec, TileHeaderEvent::SegmentRead(true)),
        TileHeaderAction::HandleSegment(J2KMarker::SOT, 8)
    );
    // What the SOT handler leaves: a tile-part header of tile 0 that can be decoded.
    dec.m_state = J2K_STATE_TPH;
    dec.m_sot_length = 50;
    dec.m_can_decode = true;
    assert_eq!(step(&mut rd, &mut dec, TileHeaderEvent::Handled(true, 14)), TileHeaderAction::ReadTwoBytes);
    assert_eq!(rd.last_sot_read_pos, 2);
    assert_eq!(step(&mut rd, &mut dec, TileHeaderEvent::TwoBytes(Some(0xff93))), TileHeaderAction::ReadSod);
    assert_eq!(step(&mut rd, &mut dec, TileHeaderEvent::SodRead(true, true)), TileHeaderAction::CheckCorrection);
    assert_eq!(dec.m_state, J2K_STATE_TPHSOT);
    assert_eq!(step(&mut rd, &mut dec, TileHeaderEvent::Correction(Some(false))), TileHeaderAction::SetUpTile(0));
    assert_eq!(step(&mut rd, &mut dec, TileHeaderEvent::TileSetUp(true)), TileHeaderAction::Go(0));
    assert_eq!(dec.m_state, J2K_STATE_TPHSOT | J2K_STATE_DATA);
    assert_eq!(rd.phase, TileHeaderPhase::Finished);
}

#[test]
fn segment_lengths_are_counted_down_in_a_tile_part_header() {
    let mut rd = TileHeaderReader::new(1);
    rd.header_data_size = 100;
    let mut dec = decoder(J2K_STATE_TPH);
    dec.m_sot_length = 40;
    let mut tiles = parts(1);
    rd.phase = TileHeaderPhase::MarkerSize;
    rd.marker = J2KMarker::COD;
    let a = opj_j2k_tile_header_step(&mut rd, &mut dec, &mut tiles, TileHeaderEvent::TwoBytes(Some(12)));
    assert_eq!(a, TileHeaderAction::ReadSegment(10));
    assert_eq!(dec.m_sot_length, 40 - 14);
}

#[test]
fn a_reader_before_the_tile_parts_is_refused() {
    let mut rd = TileHeaderReader::new(1);
    let mut dec = decoder(J2K_STATE_MH);
    let mut tiles = parts(1);
    let a = opj_j2k_tile_header_step(&mut rd, &mut dec, &mut tiles, TileHeaderEvent::Start);
    assert_eq!(a, TileHeaderAction::Fail(HeaderError::NotReady));
}

#[test]
fn short_or_misplaced_segments_are_refused() {
    let mut tiles = parts(1);
    let mut rd = TileHeaderReader::new(1);
    let mut dec = decoder(J2K_STATE_TPHSOT);
    opj_j2k_tile_header_step(&mut rd, &mut dec, &mut tiles, TileHeaderEvent::Start);
    opj_j2k_tile_header_step(&mut rd, &mut dec, &mut tiles, TileHeaderEvent::BytesLeft(5));
    let a = opj_j2k_tile_header_step(&mut rd, &mut dec, &mut tiles, TileHeaderEvent::TwoBytes(Some(1)));
    assert_eq!(a, TileHeaderAction::Fail(HeaderError::InvalidMarkerSize));

    let mut rd = TileHeaderReader::new(1);
    let mut dec = decoder(J2K_STATE_TPHSOT);
    opj_j2k_tile_header_step(&mut rd, &mut dec, &mut tiles, TileHeaderEvent::Start);
    opj_j2k_tile_header_step(&mut rd, &mut dec, &mut tiles, TileHeaderEvent::BytesLeft(5));
    let a = opj_j2k_tile_header_step(&mut rd, &mut dec, &mut tiles, TileHeaderEvent::TwoBytes(None));
    assert_eq!(a, TileHeaderAction::Fail(HeaderError::StreamTooShort));

    let mut rd = TileHeaderReader::new(1);
    rd.phase = TileHeaderPhase::MarkerSize;
    rd.marker = J2KMarker::SIZ;
    let mut dec = decoder(J2K_STATE_TPH);
    let a = opj_j2k_tile_header_step(&mut rd, &mut dec, &mut tiles, TileHeaderEvent::TwoBytes(Some(6)));
    assert_eq!(a, TileHeaderAction::Fail(HeaderError::MisplacedMarker));

    let mut rd = TileHeaderReader::new(1);
    let mut dec = decoder(J2K_STATE_TPHSOT);
    opj_j2k_tile_header_step(&mut rd, &mut dec, &mut tiles, TileHeaderEvent::Start);
    opj_j2k_tile_header_step(&mut rd, &mut dec, &mut tiles, TileHeaderEvent::BytesLeft(5));
    opj_j2k_tile_header_step(&mut rd, &mut dec, &mut tiles, TileHeaderEvent::TwoBytes(Some(10)));
    let a = opj_j2k_tile_header_step(&mut rd, &mut dec, &mut tiles, TileHeaderEvent::BytesLeft(3));
    assert_eq!(a, TileHeaderAction::Fail(HeaderError::SegmentExceedsStream));
}

#[test]
fn an_ended_codestream_ends_the_tile_parts() {
    let mut tiles = parts(2);
    let mut rd = TileHeaderReader::new(2);
    let mut dec = decoder(J2K_STATE_TPHSOT);
    opj_j2k_tile_header_step(&mut rd, &mut dec, &mut tiles, TileHeaderEvent::Start);
    let a = opj_j2k_tile_header_step(&mut rd, &mut dec, &mut tiles, TileHeaderEvent::BytesLeft(0));
    assert_eq!(a, TileHeaderAction::QueryBytesLeft);
    assert_eq!(dec.m_state, J2K_STATE_NEOC);
    let a = opj_j2k_tile_header_step(&mut rd, &mut dec, &mut tiles, TileHeaderEvent::BytesLeft(0));
    assert_eq!(a, TileHeaderAction::ListTilesWithData);
    let a = opj_j2k_tile_header_step(&mut rd, &mut dec, &mut tiles, TileHeaderEvent::TilesWithData(vec![false, true]));
    assert_eq!(a, TileHeaderAction::SetUpTile(1));
    assert_eq!(dec.m_current_tile_number, 1);

    let mut rd = TileHeaderReader::new(2);
    rd.phase = TileHeaderPhase::TilesWithData;
    let a = opj_j2k_tile_header_step(&mut rd, &mut dec, &mut tiles, TileHeaderEvent::TilesWithData(vec![false, false]));
    assert_eq!(a, TileHeaderAction::NoMoreTiles);
    assert_eq!(dec.m_current_tile_number, 2);
}

#[test]
fn a_missing_eoc_after_the_last_tile_is_tolerated() {
    let mut tiles = parts(2);
    tiles[0] = opj_tile_parts { m_current_tile_part_number: 0, m_nb_tile_parts: 0 };
    tiles[1] = opj_tile_parts { m_current_tile_part_number: 0, m_nb_tile_parts: 0 };
    let mut rd = TileHeaderReader::new(2);
    rd.phase = TileHeaderPhase::NextMarker;
    let mut dec = decoder(J2K_STATE_TPHSOT);
    dec.m_current_tile_number = 1;
    let a = opj_j2k_tile_header_step(&mut rd, &mut dec, &mut tiles, TileHeaderEvent::TwoBytes(None));
    assert_eq!(a, TileHeaderAction::ListTilesWithData);
    assert_eq!(dec.m_state, J2K_STATE_EOC);
    assert_eq!(dec.m_current_tile_number, 0);
    assert_eq!(rd.marker, J2KMarker::EOC);

    let mut rd = TileHeaderReader::new(2);
    rd.phase = TileHeaderPhase::NextMarker;
    let mut dec = decoder(J2K_STATE_TPHSOT);
    let a = opj_j2k_tile_header_step(&mut rd, &mut dec, &mut tiles, TileHeaderEvent::TwoBytes(None));
    assert_eq!(a, TileHeaderAction::Fail(HeaderError::StreamTooShort));
}

#[test]
fn numbers_of_tile_parts_one_short_are_corrected() {
    let mut tiles = parts(2);
    tiles[0].m_nb_tile_parts = 1;
    let mut rd = TileHeaderReader::new(2);
    rd.phase = TileHeaderPhase::Correction;
    let mut dec = decoder(J2K_STATE_TPHSOT);
    dec.m_can_decode = true;
    let a = opj_j2k_tile_header_step(&mut rd, &mut dec, &mut tiles, TileHeaderEvent::Correction(Some(true)));
    assert_eq!(a, TileHeaderAction::ReadTwoBytes);
    assert!(!dec.m_can_decode && dec.m_nb_tile_parts_correction);
    assert_eq!((tiles[0].m_nb_tile_parts, tiles[1].m_nb_tile_parts), (2, 0));
}

#[test]
fn skipped_tile_parts_wait_for_the_next_header() {
    let mut tiles = parts(1);
    let mut rd = TileHeaderReader::new(1);
    rd.phase = TileHeaderPhase::Handled;
    rd.marker = J2KMarker::SOT;
    rd.size = 8;
    let mut dec = decoder(J2K_STATE_TPH);
    dec.m_skip_data = true;
    dec.m_sot_length = 30;
    let a = opj_j2k_tile_header_step(&mut rd, &mut dec, &mut tiles, TileHeaderEvent::Handled(true, 112));
    assert_eq!(a, TileHeaderAction::Skip(30));
    assert_eq!(rd.last_sot_read_pos, 100);
    let a = opj_j2k_tile_header_step(&mut rd, &mut dec, &mut tiles, TileHeaderEvent::Skipped(30));
    assert_eq!(a, TileHeaderAction::ReadTwoBytes);
    assert_eq!(rd.phase, TileHeaderPhase::NextMarker);
    assert!(!dec.m_skip_data && dec.m_state == J2K_STATE_TPHSOT);
    assert_eq!(opj_j2k_marker_position(112, 8), 100);
}
