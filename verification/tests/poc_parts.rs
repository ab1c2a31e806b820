use lib::encoder::{opj_tccp, opj_tcp, zero_stepsizes};
use lib::params::opj_poc;
use lib::poc::{opj_j2k_get_max_poc_size, opj_j2k_read_poc, opj_j2k_write_poc_in_memory, PocError};
use lib::tile_parts::{opj_j2k_calculate_tp, opj_j2k_get_num_tp};

fn tccp() -> opj_tccp {
    opj_tccp {
        csty: 0,
        numresolutions: 3,
        cblkw: 4,
        cblkh: 4,
        cblksty: 0,
        qmfbid: 1,
        qntsty: 0,
        numgbits: 2,
        roishift: 0,
        prcw: vec![15; 3],
        prch: vec![15; 3],
        stepsizes: zero_stepsizes(),
        m_dc_level_shift: 0,
    }
}

fn tcp(prg: i32, numlayers: u32, pocs: Vec<opj_poc>) -> opj_tcp {
    let n = pocs.len() as u32;
    opj_tcp {
        cod: false,
        numlayers,
        num_layers_to_decode: 0,
        csty: 0,
        prg,
        mct: 0,
        POC: n > 0,
        numpocs: if n > 0 { n - 1 } else { 0 },
        pocs,
        tccps: vec![tccp()],
        m_nb_tile_parts: 0,
        m_mct_records: vec![],
        m_mcc_records: vec![],
    }
}

#[test]
fn reads_poc_changes_with_cut_ends() {
    let mut t = tcp(0, 4, vec![]);
    let data = [0u8, 1, 0, 9, 3, 5, 2, 1, 0, 0, 2, 2, 1, 4];
    assert_eq!(opj_j2k_read_poc(&mut t, 3, &data, 14), Ok(()));
    assert!(t.POC);
    assert_eq!(t.numpocs, 1);
    assert_eq!(t.pocs.len(), 2);
    let p = t.pocs[0];
    assert_eq!((p.resno0, p.compno0, p.layno1, p.resno1, p.compno1, p.prg), (0, 1, 4, 3, 3, 2));
    let q = t.pocs[1];
    assert_eq!((q.resno0, q.compno0, q.layno1, q.resno1, q.compno1, q.prg), (1, 0, 2, 2, 1, 4));
    let mut u = t.clone();
    assert_eq!(opj_j2k_read_poc(&mut u, 3, &data, 7), Ok(()));
    assert_eq!(u.numpocs, 2);
    assert_eq!(u.pocs.len(), 3);
}

#[test]
fn refuses_bad_poc_segments() {
    let mut t = tcp(0, 4, vec![]);
    assert_eq!(opj_j2k_read_poc(&mut t, 3, &[0u8; 8], 8), Err(PocError::BadLength));
    assert_eq!(opj_j2k_read_poc(&mut t, 3, &[0u8; 6], 6), Err(PocError::BadLength));
    assert_eq!(opj_j2k_read_poc(&mut t, 3, &[0u8; 7 * 32], 7 * 32), Err(PocError::TooManyPocs));
    assert_eq!(opj_j2k_read_poc(&mut t, 300, &[0u8; 9], 9), Ok(()));
    assert!(!t.pocs.is_empty());
}

#[test]
fn writes_pocs_then_cuts_their_ends() {
    let mut p = opj_poc::default();
    p.resno0 = 1;
    p.compno0 = 0;
    p.layno1 = 9;
    p.resno1 = 7;
    p.compno1 = 5;
    p.prg = 2;
    let mut t = tcp(0, 4, vec![p]);
    let seg = opj_j2k_write_poc_in_memory(&mut t, 3);
    assert_eq!(seg, vec![0xff, 0x5f, 0x00, 0x09, 1, 0, 0x00, 9, 7, 5, 2]);
    assert_eq!(t.pocs[0].layno1, 4);
    assert_eq!(t.pocs[0].resno1, 3);
    assert_eq!(t.pocs[0].compno1, 3);
    let mut back = tcp(0, 4, vec![]);
    assert_eq!(opj_j2k_read_poc(&mut back, 3, &seg[4..], 7), Ok(()));
    assert_eq!(back.pocs[0].layno1, 4);
    assert_eq!(back.pocs[0].resno1, 7);
    assert_eq!(back.pocs[0].compno1, 3);
}

#[test]
fn largest_poc_segment() {
    let tiles = vec![tcp(0, 1, vec![opj_poc::default(); 3]), tcp(0, 1, vec![opj_poc::default()])];
    assert_eq!(opj_j2k_get_max_poc_size(&tiles), 4 + 9 * 3);
    assert_eq!(opj_j2k_get_max_poc_size(&vec![]), 13);
}

#[test]
fn tile_parts_split_at_the_flagged_step() {
    let mut p = opj_poc::default();
    p.compE = 3;
    p.resE = 5;
    p.prcE = 7;
    p.layE = 2;
    let t = tcp(4, 1, vec![p]);
    let mut pos = -5;
    assert_eq!(opj_j2k_get_num_tp(&t, 0, true, b'R', &mut pos), 3 * 7 * 5);
    assert_eq!(pos, 0);
    let mut pos = -5;
    assert_eq!(opj_j2k_get_num_tp(&t, 0, true, b'C', &mut pos), 3);
    assert_eq!(pos, 0);
    let mut pos = -5;
    assert_eq!(opj_j2k_get_num_tp(&t, 0, true, b'X', &mut pos), 3 * 7 * 5 * 2);
    assert_eq!(pos, -5);
    assert_eq!(opj_j2k_get_num_tp(&t, 0, false, b'R', &mut pos), 1);
    let lrcp = tcp(0, 1, vec![p]);
    assert_eq!(opj_j2k_get_num_tp(&lrcp, 0, true, b'R', &mut pos), 2 * 5);
}

#[test]
fn tile_parts_of_every_tile() {
    let mut p = opj_poc::default();
    p.compE = 2;
    let mut q = opj_poc::default();
    q.compE = 4;
    let mut tiles = vec![tcp(4, 1, vec![p, q]), tcp(4, 1, vec![q])];
    let mut pos = 9;
    opj_j2k_calculate_tp(&mut tiles, true, b'C', &mut pos);
    assert_eq!(tiles[0].m_nb_tile_parts, 6);
    assert_eq!(tiles[1].m_nb_tile_parts, 4);
    assert_eq!(pos, 0);
    opj_j2k_calculate_tp(&mut tiles, false, b'C', &mut pos);
    assert_eq!(tiles[0].m_nb_tile_parts, 2);
}

#[test]
fn poc_segment_through_the_header_buffer() {
    let mut p = opj_poc::default();
    p.resno0 = 1;
    p.layno1 = 9;
    p.resno1 = 7;
    p.compno1 = 5;
    p.prg = 2;
    let mut t = tcp(0, 4, vec![p]);
    let mut buf = vec![0xeeu8; 14];
    let seg = lib::poc::opj_j2k_write_poc(&mut t, 3, &mut buf);
    assert_eq!(seg, vec![0xff, 0x5f, 0x00, 0x09, 1, 0, 0x00, 9, 7, 5, 2]);
    assert_eq!(&buf[..11], &seg[..]);
    assert_eq!(&buf[11..], &[0xee, 0xee, 0xee]);
    assert_eq!(t.pocs[0].layno1, 4);
}
