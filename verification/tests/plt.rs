use lib::header::opj_j2k_read_plt;
use lib::writer::opj_j2k_write_plt_in_memory;

#[test]
fn plt_segment_of_a_few_packets() {
    let seg = opj_j2k_write_plt_in_memory(&[5, 200, 20000, 0]).unwrap();
    assert_eq!(
        seg,
        vec![0xff, 0x58, 0x00, 0x0a, 0x00, 0x05, 0x81, 0x48, 0x81, 0x9c, 0x20, 0x00]
    );
    assert!(opj_j2k_read_plt(&seg[4..], (seg.len() - 4) as u32));
}

#[test]
fn plt_segment_without_packets() {
    assert_eq!(opj_j2k_write_plt_in_memory(&[]).unwrap(), vec![0xff, 0x58, 0x00, 0x03, 0x00]);
}

#[test]
fn plt_largest_length_takes_five_bytes() {
    let seg = opj_j2k_write_plt_in_memory(&[u32::MAX]).unwrap();
    assert_eq!(seg, vec![0xff, 0x58, 0x00, 0x08, 0x00, 0x8f, 0xff, 0xff, 0xff, 0x7f]);
}

#[test]
fn plt_lengths_spill_into_a_second_segment() {
    let sizes = vec![200u32; 32767];
    let seg = opj_j2k_write_plt_in_memory(&sizes).unwrap();
    assert_eq!(seg.len(), 5 + 65532 + 5 + 2);
    assert_eq!(&seg[..5], &[0xff, 0x58, 0xff, 0xff, 0x00]);
    assert_eq!(&seg[5..7], &[0x81, 0x48]);
    assert_eq!(&seg[65537..], &[0xff, 0x58, 0x00, 0x05, 0x01, 0x81, 0x48]);
}

#[test]
fn plt_refuses_more_than_256_segments() {
    let per_segment = 13106usize;
    let sizes = vec![1u32 << 30; per_segment * 256 + 1];
    assert!(opj_j2k_write_plt_in_memory(&sizes).is_none());
    let fits = vec![1u32 << 30; per_segment * 256];
    let seg = opj_j2k_write_plt_in_memory(&fits).unwrap();
    assert_eq!(seg.len(), 256 * (5 + per_segment * 5));
    assert_eq!(&seg[seg.len() - 5 - per_segment * 5..][..5], &[0xff, 0x58, 0xff, 0xfd, 0xff]);
}
