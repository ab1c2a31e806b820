use lib::image::opj_image_comp;
use lib::j2k::MCTElementType;
use lib::mcc::{opj_j2k_read_mcc, opj_mcc_record};
use lib::mct_records::{
    opj_j2k_write_cbd, opj_j2k_write_mcc_record, opj_j2k_write_mco, opj_j2k_write_mct_data_group,
    opj_j2k_write_mct_record, opj_mct_data,
};

fn collection(index: u32, n: u32, irreversible: bool) -> opj_mcc_record {
    opj_mcc_record {
        m_index: index,
        m_nb_comps: n,
        m_is_irreversible: irreversible,
        m_decorrelation_array: Some(0),
        m_offset_array: Some(1),
    }
}

#[test]
fn mcc_segment_of_three_components() {
    let seg = opj_j2k_write_mcc_record(&collection(1, 3, false), &[5, 6]);
    assert_eq!(
        seg,
        vec![
            0xff, 0x75, 0x00, 0x17, 0x00, 0x00, 0x01, 0x00, 0x00, 0x00, 0x01, 0x01, 0x00, 0x03,
            0, 1, 2, 0x00, 0x03, 0, 1, 2, 0x01, 0x06, 0x05,
        ]
    );
}

#[test]
fn mcc_segment_irreversible_without_offsets() {
    let mut rec = collection(2, 1, true);
    rec.m_offset_array = None;
    let seg = opj_j2k_write_mcc_record(&rec, &[9]);
    assert_eq!(
        seg,
        vec![
            0xff, 0x75, 0x00, 0x13, 0x00, 0x00, 0x02, 0x00, 0x00, 0x00, 0x01, 0x01, 0x00, 0x01,
            0, 0x00, 0x01, 0, 0x00, 0x00, 0x09,
        ]
    );
}

#[test]
fn mcc_segment_numbers_many_components_in_two_bytes() {
    let mut rec = collection(0, 256, false);
    rec.m_decorrelation_array = None;
    rec.m_offset_array = None;
    let seg = opj_j2k_write_mcc_record(&rec, &[]);
    assert_eq!(seg.len(), 19 + 2 * 256 * 2);
    assert_eq!(&seg[2..4], &[0x04, 0x11]);
    assert_eq!(&seg[12..14], &[0x81, 0x00]);
    assert_eq!(&seg[14..18], &[0, 0, 0, 1]);
    assert_eq!(&seg[seg.len() - 3..], &[0x01, 0x00, 0x00]);
}

#[test]
fn mcc_segment_is_read_back() {
    let seg = opj_j2k_write_mcc_record(&collection(1, 3, false), &[5, 6]);
    let mut recs: Vec<opj_mcc_record> = Vec::new();
    let ok = opj_j2k_read_mcc(&mut recs, &[5, 6], &seg[4..], (seg.len() - 4) as u32);
    assert!(ok);
    assert_eq!(recs.len(), 1);
    assert_eq!(recs[0].m_index, 1);
    assert_eq!(recs[0].m_nb_comps, 3);
    assert!(!recs[0].m_is_irreversible);
    assert_eq!(recs[0].m_decorrelation_array, Some(0));
    assert_eq!(recs[0].m_offset_array, Some(1));
}

#[test]
fn mco_segment_lists_collections_in_order() {
    let recs = vec![collection(4, 1, false), collection(2, 1, false)];
    assert_eq!(opj_j2k_write_mco(&recs), vec![0xff, 0x77, 0x00, 0x05, 0x02, 0x04, 0x02]);
    assert_eq!(opj_j2k_write_mco(&Vec::new()), vec![0xff, 0x77, 0x00, 0x03, 0x00]);
}

#[test]
fn data_group_is_the_segments_one_after_the_other() {
    let mut c = opj_image_comp::default();
    c.prec = 8;
    let comps = vec![c.clone(), c.clone(), c];
    let mct = vec![
        opj_mct_data {
            m_element_type: MCTElementType::INT16,
            m_array_type: 1,
            m_index: 5,
            m_data: vec![0, 1],
        },
        opj_mct_data {
            m_element_type: MCTElementType::INT32,
            m_array_type: 2,
            m_index: 6,
            m_data: vec![0, 0, 0, 7],
        },
    ];
    let mcc = vec![collection(1, 3, false)];
    let group = opj_j2k_write_mct_data_group(&comps, &mct, &mcc);
    let mut expected = opj_j2k_write_cbd(&comps);
    expected.extend(opj_j2k_write_mct_record(&mct[0]));
    expected.extend(opj_j2k_write_mct_record(&mct[1]));
    expected.extend(opj_j2k_write_mcc_record(&mcc[0], &[5, 6]));
    expected.extend(opj_j2k_write_mco(&mcc));
    assert_eq!(group, expected);
    assert_eq!(&group[..4], &[0xff, 0x78, 0x00, 0x07]);
    assert_eq!(&group[group.len() - 6..], &[0xff, 0x77, 0x00, 0x04, 0x01, 0x01]);
}
