use lib::encoder::{opj_tccp, opj_tcp, zero_stepsizes};
use lib::header::{
    opj_j2k_nb_tile_parts_correction_step, opj_j2k_read_unk_step, CorrectionStep, HeaderError,
    UnknownStep,
};
use lib::j2k::{J2KMarker, J2K_STATE_MH, J2K_STATE_MHSIZ, J2K_STATE_TPH};
use lib::procedures::J2KProcedure::{
    CreateTcd, DestroyHeaderMemory, EndEncoding, GetEndHeader, InitInfo, UpdateRates, WriteAllCoc,
    WriteAllQcc, WriteCod, WriteCom, WriteEoc, WriteEpc, WriteMctDataGroup, WritePoc, WriteQcd,
    WriteRegions, WriteSiz, WriteSoc, WriteTlm, WriteUpdatedTlm,
};
use lib::procedures::{
    opj_j2k_setup_encoding_validation, opj_j2k_setup_end_compress, opj_j2k_setup_header_writing,
    J2KProcedure,
};
use lib::settings::opj_j2k_mct_validation;
use lib::tile::opj_j2k_get_sot_values;

#[test]
fn encoder_validation_steps() {
    assert_eq!(
        opj_j2k_setup_encoding_validation(),
        vec![J2KProcedure::BuildEncoder, J2KProcedure::EncodingValidation, J2KProcedure::MctValidation]
    );
}

#[test]
fn header_writing_steps() {
    let plain = opj_j2k_setup_header_writing(false, 0, false, false);
    assert_eq!(
        plain,
        vec![
            InitInfo, WriteSoc, WriteSiz, WriteCod, WriteQcd, WriteAllCoc, WriteAllQcc,
            WriteRegions, CreateTcd, UpdateRates
        ]
    );
    let full = opj_j2k_setup_header_writing(true, 4, true, true);
    assert_eq!(&full[7..], &[WriteTlm, WritePoc, WriteRegions, WriteCom, GetEndHeader, CreateTcd, UpdateRates]);
    let part2 = opj_j2k_setup_header_writing(true, 0x8100, false, false);
    assert_eq!(&part2[7..], &[WriteTlm, WriteRegions, WriteMctDataGroup, CreateTcd, UpdateRates]);
}

#[test]
fn end_compress_steps() {
    assert_eq!(opj_j2k_setup_end_compress(false), vec![WriteEoc, WriteEpc, EndEncoding, DestroyHeaderMemory]);
    assert_eq!(
        opj_j2k_setup_end_compress(true),
        vec![WriteEoc, WriteUpdatedTlm, WriteEpc, EndEncoding, DestroyHeaderMemory]
    );
}

fn tccp(qmfbid: u32) -> opj_tccp {
    opj_tccp {
        csty: 0,
        numresolutions: 1,
        cblkw: 6,
        cblkh: 6,
        cblksty: 0,
        qmfbid,
        qntsty: 0,
        numgbits: 2,
        roishift: 0,
        prcw: vec![],
        prch: vec![],
        stepsizes: zero_stepsizes(),
        m_dc_level_shift: 0,
    }
}

fn tcp(mct: u32, qmfbid: u32) -> opj_tcp {
    opj_tcp {
        cod: false,
        numlayers: 1,
        num_layers_to_decode: 1,
        csty: 0,
        prg: 0,
        mct,
        POC: false,
        numpocs: 0,
        pocs: vec![],
        tccps: vec![tccp(0), tccp(qmfbid)],
        m_nb_tile_parts: 0,
        m_mct_records: vec![],
        m_mcc_records: vec![],
    }
}

#[test]
fn custom_transformations_are_validated_in_part_2() {
    let tiles = vec![tcp(2, 0), tcp(1, 1)];
    assert!(opj_j2k_mct_validation(0x8200, &tiles, &vec![true, false], 2));
    assert!(!opj_j2k_mct_validation(0x8200, &tiles, &vec![false, false], 2));
    let reversible = vec![tcp(2, 1)];
    assert!(!opj_j2k_mct_validation(0x8200, &reversible, &vec![true], 2));
    assert!(opj_j2k_mct_validation(0x8200, &reversible, &vec![true], 1));
    assert!(opj_j2k_mct_validation(0, &reversible, &vec![false], 2));
}

#[test]
fn search_past_an_unknown_marker() {
    assert_eq!(opj_j2k_read_unk_step(J2K_STATE_MH, 0x1234, 2), UnknownStep::Skip);
    assert_eq!(
        opj_j2k_read_unk_step(J2K_STATE_MH, 0xff52, 2),
        UnknownStep::Found { marker: J2KMarker::COD, record: true }
    );
    assert_eq!(
        opj_j2k_read_unk_step(J2K_STATE_MH, 0xff90, 4),
        UnknownStep::Found { marker: J2KMarker::SOT, record: false }
    );
    assert_eq!(opj_j2k_read_unk_step(J2K_STATE_MH, 0xff30, 4), UnknownStep::Unknown { size: 6 });
    assert_eq!(opj_j2k_read_unk_step(J2K_STATE_MHSIZ, 0xff52, 2), UnknownStep::Misplaced);
    assert_eq!(opj_j2k_read_unk_step(J2K_STATE_TPH, 0xff51, 2), UnknownStep::Misplaced);
}

#[test]
fn sot_values() {
    let d = [0x00u8, 0x03, 0x00, 0x00, 0x01, 0x00, 0x02, 0x05];
    assert_eq!(opj_j2k_get_sot_values(&d, 8), Some((3, 256, 2, 5)));
    assert_eq!(opj_j2k_get_sot_values(&d, 7), None);
}

#[test]
fn looking_ahead_for_the_next_tile_part() {
    let sot = |tile: u8, len: u32, part: u8, num: u8| {
        let l = len.to_be_bytes();
        vec![0xff, 0x90, 0x00, 0x0a, 0x00, tile, l[0], l[1], l[2], l[3], part, num]
    };
    assert_eq!(opj_j2k_nb_tile_parts_correction_step(3, &sot(3, 100, 1, 1)), CorrectionStep::Done(true));
    assert_eq!(opj_j2k_nb_tile_parts_correction_step(3, &sot(3, 100, 1, 2)), CorrectionStep::Done(false));
    assert_eq!(opj_j2k_nb_tile_parts_correction_step(3, &sot(2, 100, 0, 1)), CorrectionStep::Skip(88));
    assert_eq!(opj_j2k_nb_tile_parts_correction_step(3, &sot(2, 0, 0, 1)), CorrectionStep::Done(false));
    assert_eq!(opj_j2k_nb_tile_parts_correction_step(3, &[0xff, 0xd9]), CorrectionStep::Done(false));
    assert_eq!(opj_j2k_nb_tile_parts_correction_step(3, &[0xff]), CorrectionStep::Done(false));
    assert_eq!(
        opj_j2k_nb_tile_parts_correction_step(3, &[0xff, 0x90, 0x00]),
        CorrectionStep::Fail(HeaderError::StreamTooShort)
    );
    assert_eq!(
        opj_j2k_nb_tile_parts_correction_step(3, &[0xff, 0x90, 0x00, 0x0b]),
        CorrectionStep::Fail(HeaderError::InconsistentMarkerSize)
    );
    assert_eq!(
        opj_j2k_nb_tile_parts_correction_step(3, &sot(3, 100, 1, 1)[..8]),
        CorrectionStep::Fail(HeaderError::StreamTooShort)
    );
}
