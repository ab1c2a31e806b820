use lib::coding::opj_j2k_read_qcc;
use lib::comp_segments::{
    opj_j2k_compare_coc, opj_j2k_compare_qcc, opj_j2k_get_max_coc_size,
    opj_j2k_get_max_qcc_size, opj_j2k_get_max_toc_size, opj_j2k_get_specific_header_sizes,
    opj_j2k_write_all_coc, opj_j2k_write_all_qcc, opj_j2k_write_coc,
    opj_j2k_write_coc_in_memory, opj_j2k_write_qcc, opj_j2k_write_qcc_in_memory,
    opj_j2k_write_regions,
};
use lib::encoder::{opj_tccp, opj_tcp, zero_stepsizes};

fn tccp(numres: u32) -> opj_tccp {
    opj_tccp {
        csty: 0,
        numresolutions: numres,
        cblkw: 6,
        cblkh: 6,
        cblksty: 0,
        qmfbid: 1,
        qntsty: 0,
        numgbits: 2,
        roishift: 0,
        prcw: vec![15; 33],
        prch: vec![15; 33],
        stepsizes: zero_stepsizes(),
        m_dc_level_shift: 0,
    }
}

fn tcp(tccps: Vec<opj_tccp>) -> opj_tcp {
    opj_tcp {
        cod: false,
        numlayers: 1,
        num_layers_to_decode: 1,
        csty: 0,
        prg: 0,
        mct: 0,
        POC: false,
        numpocs: 0,
        pocs: vec![],
        tccps,
        m_nb_tile_parts: 2,
        m_mct_records: vec![],
        m_mcc_records: vec![],
    }
}

#[test]
fn qcc_segment_bytes() {
    let mut c1 = tccp(1);
    c1.stepsizes[0].expn = 8;
    let t = tcp(vec![tccp(1), c1, tccp(1)]);
    let seg = opj_j2k_write_qcc(&t, 3, 1, &mut Vec::new());
    assert_eq!(seg, vec![0xff, 0x5d, 0x00, 0x05, 0x01, 0x40, 0x40]);
    let mut data = vec![0xaau8; 9];
    assert_eq!(opj_j2k_write_qcc_in_memory(&t, 3, 1, &mut data), 7);
    assert_eq!(data, vec![0xff, 0x5d, 0x00, 0x05, 0x01, 0x40, 0x40, 0xaa, 0xaa]);
}

#[test]
fn qcc_segment_numbers_many_components_in_two_bytes() {
    let t = tcp(vec![tccp(1), tccp(1)]);
    let seg = opj_j2k_write_qcc(&t, 300, 1, &mut Vec::new());
    assert_eq!(seg, vec![0xff, 0x5d, 0x00, 0x06, 0x00, 0x01, 0x40, 0x00]);
}

#[test]
fn qcc_segment_is_read_back() {
    let mut c1 = tccp(2);
    c1.qntsty = 2;
    c1.numgbits = 1;
    for k in 0..4 {
        c1.stepsizes[k].expn = 10 + k as i32;
        c1.stepsizes[k].mant = 100 * k as i32;
    }
    let t = tcp(vec![tccp(2), c1.clone()]);
    let seg = opj_j2k_write_qcc(&t, 2, 1, &mut Vec::new());
    let mut back = tcp(vec![tccp(2), tccp(2)]);
    assert_eq!(opj_j2k_read_qcc(&mut back, &seg[4..], (seg.len() - 4) as u32), Ok(()));
    assert_eq!(back.tccps[1].qntsty, 2);
    assert_eq!(back.tccps[1].numgbits, 1);
    assert_eq!(&back.tccps[1].stepsizes[..4], &c1.stepsizes[..4]);
    assert_eq!(back.tccps[0].numgbits, 2);
}

#[test]
fn qcc_written_only_where_quantization_differs() {
    let mut c1 = tccp(1);
    c1.numgbits = 3;
    let t = tcp(vec![tccp(1), c1, tccp(1)]);
    assert!(!opj_j2k_compare_qcc(&t, 0, 1));
    assert!(opj_j2k_compare_qcc(&t, 0, 2));
    let mut buf = Vec::new();
    let all = opj_j2k_write_all_qcc(&t, 3, &mut buf);
    assert_eq!(all, opj_j2k_write_qcc(&t, 3, 1, &mut Vec::new()));
    assert_eq!(buf, all);
    let same = tcp(vec![tccp(1), tccp(1)]);
    let mut buf2 = vec![1u8, 2];
    assert!(opj_j2k_write_all_qcc(&same, 2, &mut buf2).is_empty());
    assert_eq!(buf2, vec![1, 2]);
}

#[test]
fn coc_segment_carries_the_first_components_element() {
    let mut c1 = tccp(3);
    c1.cblkw = 5;
    let t = tcp(vec![tccp(3), c1]);
    let mut buf = Vec::new();
    let seg = opj_j2k_write_coc(&t, 2, 1, &mut buf);
    assert_eq!(seg, vec![0xff, 0x53, 0x00, 0x09, 0x01, 0x00, 0x02, 0x04, 0x04, 0x00, 0x01]);
    assert_eq!(buf, seg);
}

#[test]
fn coc_segment_keeps_the_buffer_where_the_element_does_not_fit() {
    let mut c0 = tccp(2);
    c0.csty = 1;
    c0.prcw = vec![3; 33];
    c0.prch = vec![4; 33];
    let t = tcp(vec![c0, tccp(2)]);
    let mut buf = vec![0xaau8; 12];
    let seg = opj_j2k_write_coc(&t, 2, 1, &mut buf);
    assert_eq!(seg, vec![0xff, 0x53, 0x00, 0x09, 0x01, 0x00, 0xaa, 0xaa, 0xaa, 0xaa, 0xaa]);
    assert_eq!(buf.len(), 12);
    let mut data = vec![0u8; 11];
    assert_eq!(opj_j2k_write_coc_in_memory(&t, 2, 1, &mut data), 11);
    assert_eq!(&data[..6], &[0xff, 0x53, 0x00, 0x09, 0x01, 0x00]);
}

#[test]
fn coc_written_only_where_coding_style_differs() {
    let mut c2 = tccp(3);
    c2.cblksty = 8;
    let t = tcp(vec![tccp(3), tccp(3), c2]);
    assert!(opj_j2k_compare_coc(&t, 0, 1));
    assert!(!opj_j2k_compare_coc(&t, 0, 2));
    let mut style = tccp(3);
    style.csty = 2;
    let t2 = tcp(vec![tccp(3), style]);
    assert!(!opj_j2k_compare_coc(&t2, 0, 1));
    let mut buf = Vec::new();
    let all = opj_j2k_write_all_coc(&t, 3, &mut buf);
    assert_eq!(all, vec![0xff, 0x53, 0x00, 0x09, 0x02, 0x00, 0x02, 0x04, 0x04, 0x00, 0x01]);
}

#[test]
fn header_room_counts() {
    let tiles = vec![tcp(vec![tccp(3), tccp(3)])];
    assert_eq!(opj_j2k_get_max_coc_size(&tiles, 2), 11);
    assert_eq!(opj_j2k_get_max_qcc_size(&tiles, 2), 11);
    assert_eq!(opj_j2k_get_max_toc_size(&tiles), 24);
    let mut reserved = 7u32;
    assert_eq!(opj_j2k_get_specific_header_sizes(&tiles, 2, 0, None, &mut reserved), 59);
    assert_eq!(reserved, 7);
    assert_eq!(opj_j2k_get_specific_header_sizes(&tiles, 2, 4, None, &mut reserved), 37);
    assert_eq!(opj_j2k_get_specific_header_sizes(&tiles, 2, 0, Some(100), &mut reserved), 1125);
    assert_eq!(reserved, 566);
    let mut custom = tccp(4);
    custom.csty = 1;
    let more = vec![tcp(vec![tccp(3), tccp(3)]), tcp(vec![tccp(3), custom])];
    assert_eq!(opj_j2k_get_max_coc_size(&more, 2), 15);
    assert_eq!(opj_j2k_get_max_toc_size(&Vec::new()), 0);
}

#[test]
fn regions_only_for_shifted_components() {
    let mut c1 = tccp(1);
    c1.roishift = 5;
    let t = tcp(vec![tccp(1), c1, tccp(1)]);
    assert_eq!(opj_j2k_write_regions(&t, 3), vec![0xff, 0x5e, 0x00, 0x05, 0x01, 0x00, 0x05]);
    assert!(opj_j2k_write_regions(&tcp(vec![tccp(1)]), 1).is_empty());
}
