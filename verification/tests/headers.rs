use lib::header::{
    opj_j2k_apply_nb_tile_parts_correction, opj_j2k_find_unfinished_tile, opj_j2k_marker_allowed,
    opj_j2k_marker_segment_size, opj_j2k_next_tile_with_data, opj_j2k_read_crg, opj_j2k_read_plm,
    opj_j2k_read_plt, opj_j2k_read_soc, opj_j2k_read_tlm, opj_j2k_tile_marker_size, HeaderError,
    MainHeaderScan, MainHeaderStep,
};
use lib::image::{opj_image, opj_image_comp};
use lib::j2k::{
    opj_j2k_convert_progression_order, J2KMarker, MCTElementType, ProgressionOrder, ProgressionStep,
    J2K_STATE_MH, J2K_STATE_MHSIZ, J2K_STATE_TPH, J2K_STATE_TPHSOT,
};
use lib::siz::{opj_cp, opj_j2k_read_siz, opj_j2k_write_siz, SizDecoderState, SizError};
use lib::tile::{opj_j2k_read_sot, opj_tile_decoder, opj_tile_parts, SotError};

#[test]
fn markers_round_trip_through_their_codes() {
    for code in [0xff4fu32, 0xff90, 0xff93, 0xffd9, 0xff51, 0xff52, 0xff5c, 0xff5f, 0xff64, 0xff74] {
        let m = J2KMarker::from(code);
        assert!(!m.is_unknown());
        assert_eq!(m.as_u32(), code);
    }
    assert!(J2KMarker::from(0xff30).is_unknown());
    assert_eq!(J2KMarker::from(0xff30).as_u32(), 0xff30);
    assert!(J2KMarker::from(0x1234).is_invalid());
    assert_eq!(J2KMarker::from_buffer(&[0xff, 0x90]), J2KMarker::SOT);
    assert_eq!(J2KMarker::SIZ.states(), J2K_STATE_MHSIZ);
}

#[test]
fn progression_orders_and_element_types() {
    assert_eq!(opj_j2k_convert_progression_order(4), ProgressionOrder::CPRL);
    assert_eq!(opj_j2k_convert_progression_order(2), ProgressionOrder::Unknown);
    assert_eq!(ProgressionOrder::RLCP.get_order_str(), "RLCP");
    assert_eq!(ProgressionOrder::LRCP.get_step(1), ProgressionStep::Resolution);
    assert_eq!(ProgressionOrder::LRCP.get_step(4), ProgressionStep::Unknown);
    assert_eq!(ProgressionOrder::PCRL.get_order()[0].as_byte(), b'P');
    assert!(matches!(MCTElementType::new(6), MCTElementType::FLOAT));
    assert_eq!(MCTElementType::new(3).size(), 8);
    assert_eq!(MCTElementType::new(0).size(), 2);
}

#[test]
fn main_header_scan() {
    let mut st = 0u32;
    assert!(!opj_j2k_read_soc(&[0xff, 0x51], &mut st));
    assert_eq!(st, 0);
    assert!(opj_j2k_read_soc(&[0xff, 0x4f, 0xff], &mut st));
    assert_eq!(st, J2K_STATE_MHSIZ);
    let mut scan = MainHeaderScan::new();
    assert_eq!(scan.next_marker(J2KMarker::COD), MainHeaderStep::Fail(HeaderError::MisplacedMarker));
    assert_eq!(scan.finish(), Err(HeaderError::MissingSiz));
    assert_eq!(scan.next_marker(J2KMarker::SIZ), MainHeaderStep::ReadSegment);
    assert_eq!(scan.finish(), Err(HeaderError::MissingQcd));
    scan.state = J2K_STATE_MH;
    assert_eq!(scan.next_marker(J2KMarker::COD), MainHeaderStep::ReadSegment);
    assert_eq!(scan.next_marker(J2KMarker::UNK(0x10)), MainHeaderStep::Fail(HeaderError::InvalidMarker));
    assert_eq!(scan.finish(), Err(HeaderError::MissingQcd));
    assert_eq!(scan.next_marker(J2KMarker::QCD), MainHeaderStep::ReadSegment);
    assert_eq!(scan.next_marker(J2KMarker::SOT), MainHeaderStep::Done);
    assert_eq!(scan.finish(), Ok(()));
    assert_eq!(scan.state, J2K_STATE_TPHSOT);
}

#[test]
fn marker_sizes_and_places() {
    assert_eq!(opj_j2k_marker_segment_size(1), Err(HeaderError::InvalidMarkerSize));
    assert_eq!(opj_j2k_marker_segment_size(10), Ok(8));
    assert!(opj_j2k_marker_allowed(J2K_STATE_MH, J2KMarker::COD));
    assert!(!opj_j2k_marker_allowed(J2K_STATE_MHSIZ, J2KMarker::COD));
    assert_eq!(opj_j2k_tile_marker_size(J2K_STATE_TPH, 100, 10), Ok((8, 88)));
    assert_eq!(opj_j2k_tile_marker_size(J2K_STATE_MH, 100, 10), Ok((8, 100)));
    assert_eq!(opj_j2k_tile_marker_size(J2K_STATE_TPH, 100, 1), Err(HeaderError::InvalidMarkerSize));
}

#[test]
fn checked_only_segments() {
    assert!(opj_j2k_read_crg(8, 2));
    assert!(!opj_j2k_read_crg(7, 2));
    assert!(opj_j2k_read_tlm(&[0, 0x50, 1, 0, 0, 0, 9], 7));
    assert!(!opj_j2k_read_tlm(&[0, 0x50, 1, 0, 0, 0], 6));
    assert!(opj_j2k_read_plm(1));
    assert!(!opj_j2k_read_plm(0));
    assert!(opj_j2k_read_plt(&[0, 0x81, 0x01, 0x05], 4));
    assert!(!opj_j2k_read_plt(&[0, 0x81], 2));
}

#[test]
fn tile_part_bookkeeping() {
    let mut tiles = vec![
        opj_tile_parts { m_current_tile_part_number: 0, m_nb_tile_parts: 2 },
        opj_tile_parts { m_current_tile_part_number: 0, m_nb_tile_parts: 0 },
    ];
    opj_j2k_apply_nb_tile_parts_correction(&mut tiles);
    assert_eq!(tiles[0].m_nb_tile_parts, 3);
    assert_eq!(tiles[1].m_nb_tile_parts, 0);
    assert_eq!(opj_j2k_next_tile_with_data(1, &[true, false, false, true]), 3);
    assert_eq!(opj_j2k_next_tile_with_data(0, &[false, false]), 2);
    let unfinished = [
        opj_tile_parts { m_current_tile_part_number: 1, m_nb_tile_parts: 2 },
        opj_tile_parts { m_current_tile_part_number: 0, m_nb_tile_parts: 0 },
    ];
    assert_eq!(opj_j2k_find_unfinished_tile(&unfinished), Some(1));
}

fn decoder() -> opj_tile_decoder {
    opj_tile_decoder {
        m_current_tile_number: 0,
        m_tile_ind_to_dec: -1,
        m_nb_tile_parts_correction: false,
        m_last_tile_part: false,
        m_can_decode: false,
        m_sot_length: 0,
        m_state: J2K_STATE_TPHSOT,
        m_skip_data: false,
        m_start_tile_x: 0,
        m_start_tile_y: 0,
        m_end_tile_x: 2,
        m_end_tile_y: 1,
        tile_index: None,
    }
}

#[test]
fn sot_segments() {
    let mut dec = decoder();
    let mut tiles = vec![opj_tile_parts { m_current_tile_part_number: -1, m_nb_tile_parts: 0 }; 2];
    let sot = [0u8, 1, 0, 0, 0, 100, 0, 1];
    assert_eq!(opj_j2k_read_sot(&mut dec, &mut tiles, 2, 1, &sot, 8), Ok(()));
    assert_eq!(dec.m_current_tile_number, 1);
    assert_eq!(dec.m_sot_length, 100 - 12);
    assert_eq!(tiles[1].m_current_tile_part_number, 0);
    assert_eq!(tiles[1].m_nb_tile_parts, 1);
    assert!(!dec.m_last_tile_part);
    let mut d3 = decoder();
    let mut t3 = vec![opj_tile_parts { m_current_tile_part_number: -1, m_nb_tile_parts: 0 }; 2];
    assert_eq!(opj_j2k_read_sot(&mut d3, &mut t3, 2, 1, &[0, 0, 0, 0, 0, 0, 0, 1], 8), Ok(()));
    assert!(d3.m_last_tile_part);
    let mut d2 = decoder();
    assert_eq!(opj_j2k_read_sot(&mut d2, &mut tiles, 2, 1, &sot, 7), Err(SotError::MarkerSize));
    assert_eq!(
        opj_j2k_read_sot(&mut d2, &mut tiles, 2, 1, &[0, 5, 0, 0, 0, 100, 0, 1], 8),
        Err(SotError::InvalidTileNumber)
    );
    assert_eq!(
        opj_j2k_read_sot(&mut d2, &mut tiles, 2, 1, &[0, 0, 0, 0, 0, 5, 0, 1], 8),
        Err(SotError::InvalidPsot)
    );
}

fn comp(prec: u32, sgnd: u32, dx: u32, dy: u32) -> opj_image_comp {
    let mut c = opj_image_comp::default();
    c.prec = prec;
    c.sgnd = sgnd;
    c.dx = dx;
    c.dy = dy;
    c
}

#[test]
fn siz_write_then_read() {
    let mut image = opj_image::default();
    image.x0 = 0;
    image.y0 = 0;
    image.x1 = 40;
    image.y1 = 30;
    image.numcomps = 2;
    image.comps = Some(vec![comp(8, 0, 1, 1), comp(12, 1, 2, 2)]);
    let cp = opj_cp { rsiz: 0, tx0: 0, ty0: 0, tdx: 16, tdy: 16, tw: 3, th: 2 };
    let seg = opj_j2k_write_siz(&image, &cp);
    assert_eq!(seg.len(), 40 + 6);
    assert_eq!(&seg[..4], &[0xff, 0x51, 0x00, 44]);
    let st = SizDecoderState {
        dump_state: 0,
        ihdr_w: 0,
        ihdr_h: 0,
        reduce: 0,
        discard_tiles: false,
        start_x: 0,
        start_y: 0,
        end_x: 0,
        end_y: 0,
    };
    let info = opj_j2k_read_siz(&seg[4..], 42, &st).unwrap();
    assert_eq!((info.image.x1, info.image.y1, info.image.numcomps), (40, 30, 2));
    assert_eq!((info.cp.tdx, info.cp.tdy, info.cp.tw, info.cp.th), (16, 16, 3, 2));
    assert_eq!(info.nb_tiles, 6);
    let comps = info.image.comps.as_ref().unwrap();
    assert_eq!((comps[1].prec, comps[1].sgnd, comps[1].dx, comps[1].dy), (12, 1, 2, 2));
    assert_eq!((comps[1].w, comps[1].h), (20, 15));
    assert!(matches!(opj_j2k_read_siz(&seg[4..], 41, &st), Err(SizError::MarkerSize)));
}
