use lib::writer::{
    opj_j2k_update_tlm, opj_j2k_write_com, opj_j2k_write_eoc, opj_j2k_write_soc, opj_j2k_write_sot,
    opj_j2k_write_tlm,
};

#[test]
fn start_and_end_markers() {
    assert_eq!(opj_j2k_write_soc(), vec![0xff, 0x4f]);
    assert_eq!(opj_j2k_write_eoc(), vec![0xff, 0xd9]);
}

#[test]
fn comment_segment() {
    let seg = opj_j2k_write_com(b"hi");
    assert_eq!(seg, vec![0xff, 0x64, 0x00, 0x06, 0x00, 0x01, b'h', b'i']);
}

#[test]
fn tlm_segment_with_byte_tile_numbers() {
    let (seg, is_byte) = opj_j2k_write_tlm(2).unwrap();
    assert!(is_byte);
    assert_eq!(seg.len(), 6 + 10);
    assert_eq!(&seg[..6], &[0xff, 0x55, 0x00, 14, 0x00, 0x50]);
    assert!(seg[6..].iter().all(|b| *b == 0));
}

#[test]
fn tlm_segment_with_two_byte_tile_numbers_and_limit() {
    let (seg, is_byte) = opj_j2k_write_tlm(256).unwrap();
    assert!(!is_byte);
    assert_eq!(seg[5], 0x60);
    assert_eq!(seg.len(), 6 + 6 * 256);
    assert!(opj_j2k_write_tlm(10921).is_some());
    assert!(opj_j2k_write_tlm(10922).is_none());
}

#[test]
fn tlm_entries() {
    let mut e = Vec::new();
    opj_j2k_update_tlm(&mut e, true, 3, 0x0102_0304);
    opj_j2k_update_tlm(&mut e, false, 0x0105, 9);
    assert_eq!(e, vec![3, 1, 2, 3, 4, 0x01, 0x05, 0, 0, 0, 9]);
}

#[test]
fn sot_segment_leaves_the_length_field() {
    let mut buf = vec![0xaau8; 14];
    assert!(opj_j2k_write_sot(&mut buf, 14, 5, 1, 3));
    assert_eq!(&buf[..6], &[0xff, 0x90, 0x00, 0x0a, 0x00, 0x05]);
    assert_eq!(&buf[6..10], &[0xaa, 0xaa, 0xaa, 0xaa]);
    assert_eq!(buf[10], 1);
    assert_eq!(buf[11], 3);
    assert_eq!(&buf[12..], &[0xaa, 0xaa]);
    let mut small = vec![0u8; 11];
    assert!(!opj_j2k_write_sot(&mut small, 11, 5, 1, 3));
    assert_eq!(small, vec![0u8; 11]);
}

#[test]
fn updated_tlm_entries_and_their_place() {
    let entries: Vec<u8> = (0..20).collect();
    let (pos, bytes) = lib::writer::opj_j2k_write_updated_tlm(&entries, true, 3, 100);
    assert_eq!(pos, 106);
    assert_eq!(bytes, (0..15).collect::<Vec<u8>>());
    let (_, six) = lib::writer::opj_j2k_write_updated_tlm(&entries, false, 3, 0);
    assert_eq!(six.len(), 18);
}

#[test]
fn written_sot_reads_back() {
    let mut buf = vec![0u8; 12];
    assert!(opj_j2k_write_sot(&mut buf, 12, 7, 2, 4));
    buf[6..10].copy_from_slice(&[0, 0, 0, 40]);
    assert_eq!(lib::tile::opj_j2k_get_sot_values(&buf[4..], 8), Some((7, 40, 2, 4)));
}
