use lib::packed::{
    opj_j2k_merge_ppm, opj_j2k_merge_ppt, opj_j2k_read_ppm, opj_j2k_read_ppt, PackedError,
    PackedHeaders,
};

fn empty() -> PackedHeaders {
    PackedHeaders { present: false, markers: vec![], buffer: None }
}

#[test]
fn ppm_segments_are_kept_by_index() {
    let mut ph = empty();
    assert_eq!(opj_j2k_read_ppm(&mut ph, &[2, 9, 9], 3), Ok(()));
    assert!(ph.present);
    assert_eq!(ph.markers.len(), 3);
    assert_eq!(ph.markers[2], Some(vec![9, 9]));
    assert_eq!(ph.markers[0], None);
    assert_eq!(opj_j2k_read_ppm(&mut ph, &[2, 1], 2), Err(PackedError::Duplicate));
    assert_eq!(opj_j2k_read_ppm(&mut ph, &[0], 1), Err(PackedError::TooShort));
    let mut other = empty();
    assert_eq!(opj_j2k_read_ppt(&mut other, true, &[0, 1], 2), Err(PackedError::AlreadyInMainHeader));
    assert!(!other.present);
}

#[test]
fn ppm_headers_may_run_over_segments() {
    let mut ph = empty();
    assert_eq!(opj_j2k_read_ppm(&mut ph, &[0, 0, 0, 0, 3, 0xa, 0xb], 7), Ok(()));
    assert_eq!(opj_j2k_read_ppm(&mut ph, &[1, 0xc, 0, 0, 0, 1, 0xd], 7), Ok(()));
    assert_eq!(opj_j2k_merge_ppm(&mut ph), Ok(()));
    assert_eq!(ph.buffer, Some(vec![0xa, 0xb, 0xc, 0xd]));
    assert!(ph.markers.is_empty());
}

#[test]
fn ppm_merge_errors() {
    let mut ph = empty();
    opj_j2k_read_ppm(&mut ph, &[0, 0, 0, 0, 5, 1], 6).unwrap();
    assert_eq!(opj_j2k_merge_ppm(&mut ph), Err(PackedError::Corrupted));
    assert!(ph.buffer.is_none());
    let mut ph = empty();
    opj_j2k_read_ppm(&mut ph, &[0, 0, 0, 1], 4).unwrap();
    assert_eq!(opj_j2k_merge_ppm(&mut ph), Err(PackedError::Corrupted));
    let mut ph = empty();
    opj_j2k_read_ppm(&mut ph, &[0, 0, 0, 0, 0], 5).unwrap();
    assert_eq!(opj_j2k_merge_ppm(&mut ph), Err(PackedError::Empty));
    let mut none = empty();
    assert_eq!(opj_j2k_merge_ppm(&mut none), Ok(()));
    assert!(none.buffer.is_none());
}

#[test]
fn ppt_segments_are_concatenated() {
    let mut ph = empty();
    assert_eq!(opj_j2k_read_ppt(&mut ph, false, &[1, 3, 4], 3), Ok(()));
    assert_eq!(opj_j2k_read_ppt(&mut ph, false, &[0, 1, 2], 3), Ok(()));
    assert_eq!(opj_j2k_merge_ppt(&mut ph), Ok(()));
    assert_eq!(ph.buffer, Some(vec![1, 2, 3, 4]));
    assert_eq!(opj_j2k_merge_ppt(&mut ph), Err(PackedError::AlreadyMerged));
}
