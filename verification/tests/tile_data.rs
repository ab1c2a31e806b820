use lib::image::{opj_image, opj_image_comp};
use lib::tile_copy::opj_tcd_tilecomp;
use lib::tile_data::{opj_get_tile_dimensions, opj_j2k_get_tile_data, TileDims};

fn comp(dx: u32, prec: u32, w: u32, h: u32) -> opj_image_comp {
    let mut c = opj_image_comp::default();
    c.dx = dx;
    c.dy = dx;
    c.w = w;
    c.h = h;
    c.prec = prec;
    c.data = Some((0..(w * h) as i32).collect());
    c
}

fn tile(x0: i32, y0: i32, x1: i32, y1: i32) -> opj_tcd_tilecomp {
    opj_tcd_tilecomp {
        x0,
        y0,
        x1,
        y1,
        resolutions: vec![],
        minimum_num_resolutions: 0,
        data: None,
        data_win: None,
    }
}

fn image(comps: Vec<opj_image_comp>) -> opj_image {
    let mut im = opj_image::default();
    im.x1 = 4;
    im.y1 = 3;
    im.numcomps = comps.len() as u32;
    im.comps = Some(comps);
    im
}

#[test]
fn tile_dimensions_in_a_component() {
    let im = image(vec![comp(1, 8, 4, 3)]);
    let d = opj_get_tile_dimensions(&im, &tile(1, 1, 3, 3), &im.comps.as_ref().unwrap()[0]);
    assert_eq!(
        d,
        TileDims {
            size_comp: 1,
            width: 2,
            height: 2,
            offset_x: 0,
            offset_y: 0,
            image_width: 4,
            stride: 2,
            tile_offset: 5,
        }
    );
}

#[test]
fn tile_dimensions_with_an_offset_origin() {
    let mut im = image(vec![comp(2, 12, 3, 2)]);
    im.x0 = 2;
    im.y0 = 2;
    im.x1 = 8;
    im.y1 = 6;
    let d = opj_get_tile_dimensions(&im, &tile(2, 1, 4, 3), &im.comps.as_ref().unwrap()[0]);
    assert_eq!((d.size_comp, d.offset_x, d.offset_y, d.image_width), (2, 1, 1, 3));
    assert_eq!((d.width, d.height, d.stride, d.tile_offset), (2, 2, 1, 1));
}

#[test]
fn sample_sizes_follow_the_precision() {
    let t = tile(0, 0, 1, 1);
    for (prec, size) in [(1, 1), (8, 1), (9, 2), (16, 2), (17, 4), (24, 4), (32, 4), (33, 5)] {
        let im = image(vec![comp(1, prec, 4, 3)]);
        let d = opj_get_tile_dimensions(&im, &t, &im.comps.as_ref().unwrap()[0]);
        assert_eq!(d.size_comp, size);
    }
}

#[test]
fn tile_data_gathers_the_region_rows() {
    let im = image(vec![comp(1, 8, 4, 3), comp(1, 16, 4, 3), comp(1, 40, 4, 3)]);
    let tiles = vec![tile(1, 1, 3, 3), tile(0, 0, 4, 1), tile(0, 0, 2, 2)];
    let out = opj_j2k_get_tile_data(&im, &tiles);
    assert_eq!(out.len(), 3);
    assert_eq!((out[0].size, out[0].values.clone()), (1, vec![5, 6, 9, 10]));
    assert_eq!((out[1].size, out[1].values.clone()), (2, vec![0, 1, 2, 3]));
    assert_eq!(out[2].size, 5);
    assert!(out[2].values.is_empty());
}

#[test]
fn region_checks_before_gathering() {
    let im = image(vec![comp(1, 8, 4, 3)]);
    assert!(lib::tile_data::region_fits(&im, &vec![tile(1, 1, 3, 3)]));
    assert!(!lib::tile_data::region_fits(&im, &vec![tile(1, 1, 5, 3)]));
    assert!(!lib::tile_data::region_fits(&im, &vec![tile(1, 1, 3, 4)]));
    assert!(lib::tile_data::region_fits(&im, &vec![tile(2, 1, 4, 3)]));
    assert!(!lib::tile_data::region_fits(&im, &vec![]));
    let mut no_data = comp(1, 8, 4, 3);
    no_data.data = None;
    assert!(!lib::tile_data::region_fits(&image(vec![no_data]), &vec![tile(0, 0, 1, 1)]));
}
