use lib::encoder::{opj_j2k_setup_mct_encoding, opj_tccp, opj_tcp, zero_stepsizes};
use lib::j2k::MCTElementType;
use lib::mcc::opj_mcc_record;
use lib::mco::{opj_j2k_add_mct, opj_j2k_read_mco, McoApply, McoRead};
use lib::mct_records::opj_mct_data;

fn tccp(shift: i32) -> opj_tccp {
    opj_tccp {
        csty: 0,
        numresolutions: 1,
        cblkw: 6,
        cblkh: 6,
        cblksty: 0,
        qmfbid: 0,
        qntsty: 0,
        numgbits: 2,
        roishift: 0,
        prcw: vec![],
        prch: vec![],
        stepsizes: zero_stepsizes(),
        m_dc_level_shift: shift,
    }
}

fn tcp() -> opj_tcp {
    opj_tcp {
        cod: false,
        numlayers: 1,
        num_layers_to_decode: 1,
        csty: 0,
        prg: 0,
        mct: 2,
        POC: false,
        numpocs: 0,
        pocs: vec![],
        tccps: vec![tccp(5), tccp(6)],
        m_nb_tile_parts: 0,
        m_mct_records: vec![],
        m_mcc_records: vec![],
    }
}

fn array(t: MCTElementType, index: u32, data: Vec<u8>) -> opj_mct_data {
    opj_mct_data { m_element_type: t, m_array_type: 1, m_index: index, m_data: data }
}

fn records() -> (Vec<opj_mcc_record>, Vec<opj_mct_data>) {
    let mcc = vec![opj_mcc_record {
        m_index: 1,
        m_nb_comps: 2,
        m_is_irreversible: true,
        m_decorrelation_array: Some(0),
        m_offset_array: Some(1),
    }];
    let mct = vec![
        array(MCTElementType::INT16, 3, vec![0; 8]),
        array(MCTElementType::INT16, 4, vec![0, 7, 0, 9]),
    ];
    (mcc, mct)
}

#[test]
fn mco_applies_integer_offsets() {
    let (mcc, mct) = records();
    let mut t = tcp();
    let r = opj_j2k_read_mco(&mut t, &mcc, &mct, 2, &[1, 1], 2);
    assert_eq!(r, McoRead::Read(Some(McoApply::Applied { matrix: Some(0), real_offsets: None })));
    assert_eq!((t.tccps[0].m_dc_level_shift, t.tccps[1].m_dc_level_shift), (7, 9));
}

#[test]
fn mco_leaves_real_offsets_to_the_caller() {
    let (mcc, mut mct) = records();
    mct[1] = array(MCTElementType::FLOAT, 4, vec![0; 8]);
    let mut t = tcp();
    let r = opj_j2k_read_mco(&mut t, &mcc, &mct, 2, &[1, 1], 2);
    assert_eq!(r, McoRead::Read(Some(McoApply::Applied { matrix: Some(0), real_offsets: Some(1) })));
    assert_eq!((t.tccps[0].m_dc_level_shift, t.tccps[1].m_dc_level_shift), (0, 0));
}

#[test]
fn mco_with_another_index_only_resets_the_shifts() {
    let (mcc, mct) = records();
    let mut t = tcp();
    let r = opj_j2k_read_mco(&mut t, &mcc, &mct, 2, &[1, 8], 2);
    assert_eq!(r, McoRead::Read(Some(McoApply::Discarded)));
    assert_eq!((t.tccps[0].m_dc_level_shift, t.tccps[1].m_dc_level_shift), (0, 0));
    let mut u = tcp();
    assert_eq!(opj_j2k_read_mco(&mut u, &mcc, &mct, 2, &[0], 1), McoRead::Read(None));
    assert_eq!(u.tccps[1].m_dc_level_shift, 0);
}

#[test]
fn mco_refused_or_ignored_changes_nothing() {
    let (mcc, mct) = records();
    let mut t = tcp();
    assert_eq!(opj_j2k_read_mco(&mut t, &mcc, &mct, 2, &[], 0), McoRead::Refused);
    assert_eq!(opj_j2k_read_mco(&mut t, &mcc, &mct, 2, &[1, 1], 1), McoRead::Refused);
    assert_eq!(opj_j2k_read_mco(&mut t, &mcc, &mct, 2, &[2, 1, 1], 3), McoRead::Ignored);
    assert_eq!((t.tccps[0].m_dc_level_shift, t.tccps[1].m_dc_level_shift), (5, 6));
}

#[test]
fn arrays_of_the_wrong_size_are_refused() {
    let (mcc, mut mct) = records();
    mct[0].m_data = vec![0; 6];
    let mut t = tcp();
    assert_eq!(opj_j2k_add_mct(&mut t, &mcc, &mct, 2, 1), McoApply::Refused { matrix: None });
    let (mcc, mut mct) = records();
    mct[1].m_data = vec![0; 3];
    assert_eq!(opj_j2k_add_mct(&mut t, &mcc, &mct, 2, 1), McoApply::Refused { matrix: Some(0) });
    assert_eq!(t.tccps[0].m_dc_level_shift, 5);
}

#[test]
fn only_the_first_collection_is_looked_at() {
    let (mut mcc, mct) = records();
    let mut second = mcc[0];
    second.m_index = 2;
    mcc.push(second);
    let mut t = tcp();
    assert_eq!(opj_j2k_add_mct(&mut t, &mcc, &mct, 2, 2), McoApply::Discarded);
    assert_eq!(opj_j2k_add_mct(&mut t, &mcc, &mct, 3, 1), McoApply::Discarded);
    assert_eq!(t.tccps[1].m_dc_level_shift, 6);
}

#[test]
fn custom_transform_records_its_arrays() {
    let mut t = tcp();
    t.m_mct_records.push(array(MCTElementType::INT16, 7, vec![1, 2]));
    let deco: Vec<u8> = (0u8..16).collect();
    let offsets: Vec<u8> = vec![9; 8];
    assert!(opj_j2k_setup_mct_encoding(&mut t, 2, Some(deco.clone()), offsets.clone()));
    assert_eq!(t.m_mct_records.len(), 3);
    assert_eq!(t.m_mct_records[0].m_index, 7);
    let d = &t.m_mct_records[1];
    assert_eq!((d.m_index, d.m_array_type, d.m_element_type), (1, 1, MCTElementType::FLOAT));
    assert_eq!(d.m_data, deco);
    let o = &t.m_mct_records[2];
    assert_eq!((o.m_index, o.m_array_type, o.m_element_type), (2, 2, MCTElementType::FLOAT));
    assert_eq!(o.m_data, offsets);
    assert_eq!(t.m_mcc_records.len(), 1);
    let c = t.m_mcc_records[0];
    assert_eq!((c.m_index, c.m_nb_comps, c.m_is_irreversible), (3, 2, true));
    assert_eq!((c.m_decorrelation_array, c.m_offset_array), (Some(1), Some(2)));
}

#[test]
fn custom_transform_without_matrix_records_offsets_only() {
    let mut t = tcp();
    assert!(opj_j2k_setup_mct_encoding(&mut t, 2, None, vec![0; 8]));
    assert_eq!(t.m_mct_records.len(), 1);
    assert_eq!((t.m_mct_records[0].m_index, t.m_mct_records[0].m_array_type), (1, 2));
    let c = t.m_mcc_records[0];
    assert_eq!((c.m_index, c.m_decorrelation_array, c.m_offset_array), (2, None, Some(0)));
}

#[test]
fn other_transforms_are_left_alone() {
    let mut t = tcp();
    t.mct = 1;
    assert!(opj_j2k_setup_mct_encoding(&mut t, 2, Some(vec![0; 16]), vec![0; 8]));
    assert!(t.m_mct_records.is_empty() && t.m_mcc_records.is_empty());
}
