use lib::image::{opj_image, opj_image_comp, opj_image_comptparm};
use lib::mct::{opj_int_fix_mul, opj_mct_decode, opj_mct_encode, opj_mct_encode_custom_fixed};

fn parm(w: u32, h: u32, prec: u32, sgnd: u32) -> opj_image_comptparm {
    opj_image_comptparm { dx: 1, dy: 1, w, h, x0: 0, y0: 0, prec, bpp: 0, sgnd }
}

#[test]
fn rct_forward_exact_values() {
    let mut r = [10, 255];
    let mut g = [20, 0];
    let mut b = [30, 0];
    opj_mct_encode(&mut r, &mut g, &mut b, 2);
    assert_eq!((r[0], g[0], b[0]), (20, 10, -10));
    assert_eq!((r[1], g[1], b[1]), (63, 0, 255));
}

#[test]
fn rct_round_trip() {
    let orig_r = [0, 17, 255, -40, 1000];
    let orig_g = [0, 200, 3, 77, -999];
    let orig_b = [0, 5, 128, -1, 12345];
    let (mut r, mut g, mut b) = (orig_r, orig_g, orig_b);
    opj_mct_encode(&mut r, &mut g, &mut b, 5);
    opj_mct_decode(&mut r, &mut g, &mut b, 5);
    assert_eq!((r, g, b), (orig_r, orig_g, orig_b));
}

#[test]
fn rct_only_touches_the_first_samples() {
    let mut r = [1, 2, 3];
    let mut g = [1, 2, 3];
    let mut b = [1, 2, 3];
    opj_mct_encode(&mut r, &mut g, &mut b, 1);
    assert_eq!(&r[1..], &[2, 3]);
}

#[test]
fn fixed_point_products() {
    assert_eq!(opj_int_fix_mul(8192, 5), 5);
    assert_eq!(opj_int_fix_mul(4096, 3), 2);
    assert_eq!(opj_int_fix_mul(-8192, 7), -7);
    let m = [8192, 0, 0, 8192 * 2];
    let mut data = vec![vec![3, 4], vec![5, 6]];
    opj_mct_encode_custom_fixed(&m, 2, &mut data, 2);
    assert_eq!(data, vec![vec![3, 4], vec![10, 12]]);
}

#[test]
fn image_creation() {
    let img = opj_image::create(&[parm(2, 3, 8, 0), parm(1, 1, 12, 1)], 1).unwrap();
    assert_eq!(img.numcomps, 2);
    let comps = img.comps.as_ref().unwrap();
    assert_eq!(comps[0].data.as_ref().unwrap().len(), 6);
    assert_eq!(comps[1].prec, 12);
    assert!(opj_image::create(&[], 1).is_none());
    let t = opj_image::tile_create(&[parm(4, 4, 8, 0)], 1).unwrap();
    assert!(t.comps.as_ref().unwrap()[0].data.is_none());
}

#[test]
fn set_rgb_requires_matching_planes() {
    let mut img = opj_image::create(&[parm(1, 1, 8, 0), parm(1, 1, 8, 0), parm(1, 1, 8, 0)], 1).unwrap();
    assert!(!img.set_rgb(2, 1, &[1, 2], &[3, 4], &[5]));
    assert!(img.set_rgb(2, 1, &[1, 2], &[3, 4], &[5, 6]));
    let comps = img.comps.as_ref().unwrap();
    assert_eq!(comps[2].data.as_ref().unwrap(), &vec![5, 6]);
    assert_eq!(comps[0].w, 2);
}

#[test]
fn clip_and_scale() {
    let mut c = opj_image_comp::default();
    c.w = 4;
    c.h = 1;
    c.prec = 8;
    c.data = Some(vec![-5, 3, 300, 255]);
    c.clip(8);
    assert_eq!(c.data.as_ref().unwrap(), &vec![0, 3, 255, 255]);
    c.scale(4);
    assert_eq!(c.data.as_ref().unwrap(), &vec![0, 0, 15, 15]);
    assert_eq!(c.prec, 4);
    c.scale(8);
    assert_eq!(c.data.as_ref().unwrap(), &vec![0, 0, 255, 255]);
    let mut s = opj_image_comp::default();
    s.sgnd = 1;
    s.prec = 8;
    s.w = 2;
    s.h = 1;
    s.data = Some(vec![-200, 200]);
    s.clip(8);
    assert_eq!(s.data.as_ref().unwrap(), &vec![-128, 127]);
}

#[test]
fn clip_to_32_bits_keeps_the_allowed_range() {
    let mut s = opj_image_comp::default();
    s.sgnd = 1;
    s.w = 2;
    s.h = 1;
    s.data = Some(vec![-5, 7]);
    s.clip(32);
    assert_eq!(s.data.as_ref().unwrap(), &vec![-5, 7]);
    assert_eq!(s.prec, 32);
    let mut u = opj_image_comp::default();
    u.w = 2;
    u.h = 1;
    u.data = Some(vec![-5, i32::MAX]);
    u.clip(32);
    assert_eq!(u.data.as_ref().unwrap(), &vec![0, i32::MAX]);
}

#[test]
fn scaling_up_then_down_gives_the_samples_back() {
    let mut u = opj_image_comp::default();
    u.w = 5;
    u.h = 1;
    u.prec = 5;
    u.data = Some(vec![0, 1, 7, 30, 31]);
    u.scale(16);
    assert_eq!(u.data.as_ref().unwrap(), &vec![0, 2114, 14798, 63420, 65535]);
    u.scale(5);
    assert_eq!(u.data.as_ref().unwrap(), &vec![0, 1, 7, 30, 31]);
    assert_eq!(u.prec, 5);
    let mut s = opj_image_comp::default();
    s.sgnd = 1;
    s.w = 4;
    s.h = 1;
    s.prec = 6;
    s.data = Some(vec![-32, -1, 0, 31]);
    s.scale(31);
    s.scale(6);
    assert_eq!(s.data.as_ref().unwrap(), &vec![-32, -1, 0, 31]);
}
