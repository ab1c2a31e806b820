use lib::cio::{opj_read_bytes, opj_write_bytes, push_be};
use lib::math::{
    opj_int_ceildiv, opj_int_ceildivpow2, opj_int_floorlog2, opj_uint_adds, opj_uint_ceildiv,
    opj_uint_ceildivpow2, opj_uint_max, opj_uint_min,
};

#[test]
fn ceiling_divisions() {
    assert_eq!(opj_uint_ceildiv(7, 2), 4);
    assert_eq!(opj_uint_ceildiv(8, 2), 4);
    assert_eq!(opj_uint_ceildiv(0, 5), 0);
    assert_eq!(opj_uint_ceildiv(u32::MAX, 1), u32::MAX);
    assert_eq!(opj_int_ceildiv(7, 3), 3);
    assert_eq!(opj_uint_ceildivpow2(9, 2), 3);
    assert_eq!(opj_int_ceildivpow2(9, 3), 2);
}

#[test]
fn min_max_and_saturating_add() {
    assert_eq!(opj_uint_min(3, 9), 3);
    assert_eq!(opj_uint_max(3, 9), 9);
    assert_eq!(opj_uint_adds(u32::MAX - 1, 5), u32::MAX);
    assert_eq!(opj_uint_adds(1, 2), 3);
}

#[test]
fn floor_log2() {
    assert_eq!(opj_int_floorlog2(1), 0);
    assert_eq!(opj_int_floorlog2(64), 6);
    assert_eq!(opj_int_floorlog2(65), 6);
    assert_eq!(opj_int_floorlog2(1024), 10);
}

#[test]
fn big_endian_fields_round_trip() {
    let mut buf = [0u8; 6];
    opj_write_bytes(&mut buf, 1, 0x1234_5678, 4);
    assert_eq!(buf, [0, 0x12, 0x34, 0x56, 0x78, 0]);
    assert_eq!(opj_read_bytes(&buf, 1, 4), 0x1234_5678);
    assert_eq!(opj_read_bytes(&buf, 2, 2), 0x3456);
    opj_write_bytes(&mut buf, 0, 0xabcd, 1);
    assert_eq!(buf[0], 0xcd);
    let mut v = vec![9u8];
    push_be(&mut v, 0xff51, 2);
    push_be(&mut v, 7, 3);
    assert_eq!(v, vec![9, 0xff, 0x51, 0, 0, 7]);
}
