use lib::encoder::{opj_tccp, zero_stepsizes};
use lib::image::{opj_image, opj_image_comp};
use lib::j2k::MCTElementType;
use lib::mct_records::{
    opj_j2k_read_cbd, opj_j2k_read_mct, opj_j2k_write_cbd, opj_j2k_write_mct_record, opj_mct_data,
    MctError,
};
use lib::settings::{
    opj_j2k_are_all_used_components_decoded, opj_j2k_decoding_validation,
    opj_j2k_encoding_validation, opj_j2k_set_decoded_components,
    opj_j2k_set_decoded_resolution_factor,
};

#[test]
fn mct_segment_creates_then_replaces_a_record() {
    let mut recs: Vec<opj_mct_data> = Vec::new();
    let seg = [0u8, 0, 0x05, 0x07, 0, 0, 1, 2, 3];
    assert_eq!(opj_j2k_read_mct(&mut recs, &seg, 9), Ok(()));
    assert_eq!(recs.len(), 1);
    assert_eq!(recs[0].m_index, 7);
    assert_eq!(recs[0].m_array_type, 1);
    assert!(matches!(recs[0].m_element_type, MCTElementType::INT32));
    assert_eq!(recs[0].m_data, vec![1, 2, 3]);
    let seg2 = [0u8, 0, 0x08, 0x07, 0, 0, 9];
    assert_eq!(opj_j2k_read_mct(&mut recs, &seg2, 7), Ok(()));
    assert_eq!(recs.len(), 1);
    assert!(matches!(recs[0].m_element_type, MCTElementType::FLOAT));
    assert_eq!(recs[0].m_array_type, 0);
    assert_eq!(recs[0].m_data, vec![9]);
    let seg3 = [0u8, 0, 0x00, 0x02, 0, 1, 9];
    assert_eq!(opj_j2k_read_mct(&mut recs, &seg3, 7), Ok(()));
    assert_eq!(recs.len(), 2);
    assert!(recs[1].m_data.is_empty());
}

#[test]
fn mct_segment_errors_and_skips() {
    let mut recs: Vec<opj_mct_data> = Vec::new();
    assert_eq!(opj_j2k_read_mct(&mut recs, &[0], 1), Err(MctError::TooShort));
    assert_eq!(opj_j2k_read_mct(&mut recs, &[0, 0, 0, 1, 0, 0], 6), Err(MctError::TooShort));
    assert_eq!(opj_j2k_read_mct(&mut recs, &[0, 1, 0, 1, 0, 0, 5], 7), Ok(()));
    assert!(recs.is_empty());
}

#[test]
fn mct_record_write_then_read() {
    let rec = opj_mct_data {
        m_element_type: MCTElementType::INT16,
        m_array_type: 2,
        m_index: 3,
        m_data: vec![0, 1, 0, 2],
    };
    let seg = opj_j2k_write_mct_record(&rec);
    assert_eq!(seg, vec![0xff, 0x74, 0x00, 0x0c, 0, 0, 0x02, 0x03, 0, 0, 0, 1, 0, 2]);
    let mut recs = Vec::new();
    assert_eq!(opj_j2k_read_mct(&mut recs, &seg[4..], (seg.len() - 4) as u32), Ok(()));
    assert_eq!(recs[0].m_index, 3);
    assert_eq!(recs[0].m_array_type, 2);
    assert!(matches!(recs[0].m_element_type, MCTElementType::INT16));
    assert_eq!(recs[0].m_data, rec.m_data);
}

fn comp(sgnd: u32, prec: u32) -> opj_image_comp {
    let mut c = opj_image_comp::default();
    c.sgnd = sgnd;
    c.prec = prec;
    c
}

#[test]
fn cbd_write_then_read() {
    let comps = vec![comp(1, 12), comp(0, 8)];
    let seg = opj_j2k_write_cbd(&comps);
    assert_eq!(seg, vec![0xff, 0x78, 0x00, 0x06, 0x00, 0x02, 0x8b, 0x07]);
    let mut back = vec![comp(0, 1), comp(1, 1)];
    assert_eq!(opj_j2k_read_cbd(&mut back, &seg[4..], 4), Ok(()));
    assert_eq!((back[0].sgnd, back[0].prec), (1, 12));
    assert_eq!((back[1].sgnd, back[1].prec), (0, 8));
}

#[test]
fn cbd_errors() {
    let mut comps = vec![comp(0, 8)];
    assert_eq!(opj_j2k_read_cbd(&mut comps, &[0, 1, 7, 0], 4), Err(MctError::BadLength));
    assert_eq!(opj_j2k_read_cbd(&mut comps, &[0, 2, 7], 3), Err(MctError::BadCount));
    assert_eq!(opj_j2k_read_cbd(&mut comps, &[0, 1, 31], 3), Err(MctError::BadPrecision));
    assert_eq!(comps[0].prec, 8);
}

fn tccp(numres: u32) -> opj_tccp {
    opj_tccp {
        csty: 0,
        numresolutions: numres,
        cblkw: 4,
        cblkh: 4,
        cblksty: 0,
        qmfbid: 1,
        qntsty: 0,
        numgbits: 2,
        roishift: 0,
        prcw: vec![],
        prch: vec![],
        stepsizes: zero_stepsizes(),
        m_dc_level_shift: 0,
    }
}

fn image(n: u32) -> opj_image {
    let mut im = opj_image::default();
    im.numcomps = n;
    im.comps = Some((0..n).map(|_| opj_image_comp::default()).collect());
    im
}

#[test]
fn resolution_factor_is_given_to_components_in_order() {
    let mut reduce = 0u32;
    let mut im = image(2);
    let t = vec![tccp(4), tccp(6)];
    assert!(opj_j2k_set_decoded_resolution_factor(&mut reduce, &mut im, Some(&t), 3));
    assert_eq!(reduce, 3);
    assert_eq!(im.comps.as_ref().unwrap()[1].factor, 3);
    let mut im = image(2);
    let t = vec![tccp(6), tccp(2)];
    assert!(!opj_j2k_set_decoded_resolution_factor(&mut reduce, &mut im, Some(&t), 3));
    assert_eq!(im.comps.as_ref().unwrap()[0].factor, 3);
    assert_eq!(im.comps.as_ref().unwrap()[1].factor, 0);
    let mut empty = opj_image::default();
    assert!(!opj_j2k_set_decoded_resolution_factor(&mut reduce, &mut empty, None, 1));
    assert_eq!(reduce, 1);
}

#[test]
fn decoded_components_are_checked() {
    let mut sel = vec![9];
    assert!(!opj_j2k_set_decoded_components(None, &[0], &mut sel));
    assert!(!opj_j2k_set_decoded_components(Some(3), &[0, 3], &mut sel));
    assert!(!opj_j2k_set_decoded_components(Some(3), &[1, 1], &mut sel));
    assert_eq!(sel, vec![9]);
    assert!(opj_j2k_set_decoded_components(Some(3), &[2, 0], &mut sel));
    assert_eq!(sel, vec![2, 0]);
    assert!(opj_j2k_set_decoded_components(Some(3), &[], &mut sel));
    assert!(sel.is_empty());
}

#[test]
fn used_components_decoded() {
    let mut comps = vec![opj_image_comp::default(), opj_image_comp::default()];
    comps[1].data = Some(vec![]);
    assert!(opj_j2k_are_all_used_components_decoded(&[1], &comps));
    assert!(!opj_j2k_are_all_used_components_decoded(&[0, 1], &comps));
    assert!(!opj_j2k_are_all_used_components_decoded(&[], &comps));
    comps[0].data = Some(vec![1]);
    assert!(opj_j2k_are_all_used_components_decoded(&[], &comps));
}

#[test]
fn validations() {
    assert!(opj_j2k_decoding_validation(0));
    assert!(!opj_j2k_decoding_validation(4));
    assert!(opj_j2k_encoding_validation(0, 6, 32, 32));
    assert!(!opj_j2k_encoding_validation(0, 6, 31, 32));
    assert!(!opj_j2k_encoding_validation(0, 0, 32, 32));
    assert!(!opj_j2k_encoding_validation(0, 33, u32::MAX, u32::MAX));
    assert!(opj_j2k_encoding_validation(0, 32, 1 << 31, 1 << 31));
    assert!(!opj_j2k_encoding_validation(2, 1, 1, 1));
}
