use lib::area::{opj_j2k_set_decode_area, opj_j2k_update_image_dimensions, DecodeArea, DecodeAreaError};
use lib::image::{opj_image, opj_image_comp};
use lib::j2k::{J2K_STATE_MH, J2K_STATE_TPHSOT};
use lib::mcc::{opj_j2k_read_mcc, opj_mcc_record};
use lib::siz::opj_cp;
use lib::tile_copy::opj_j2k_copy_tile_component;

fn comp(dx: u32, dy: u32) -> opj_image_comp {
    let mut c = opj_image_comp::default();
    c.dx = dx;
    c.dy = dy;
    c.prec = 8;
    c
}

fn image(x0: u32, y0: u32, x1: u32, y1: u32) -> opj_image {
    let mut im = opj_image::default();
    im.x0 = x0;
    im.y0 = y0;
    im.x1 = x1;
    im.y1 = y1;
    im.numcomps = 2;
    im.comps = Some(vec![comp(1, 1), comp(2, 2)]);
    im
}

#[test]
fn component_sizes_follow_the_canvas() {
    let mut im = image(1, 1, 11, 8);
    assert_eq!(opj_j2k_update_image_dimensions(&mut im), Ok(()));
    let cs = im.comps.as_ref().unwrap();
    assert_eq!((cs[0].x0, cs[0].y0, cs[0].w, cs[0].h), (1, 1, 10, 7));
    assert_eq!((cs[1].x0, cs[1].y0, cs[1].w, cs[1].h), (1, 1, 5, 3));
}

#[test]
fn decode_area_whole_image_and_part() {
    let header = image(0, 0, 100, 50);
    let cp = opj_cp { rsiz: 0, tx0: 0, ty0: 0, tdx: 32, tdy: 32, tw: 4, th: 2 };
    let mut area = DecodeArea { start_tile_x: 9, start_tile_y: 9, end_tile_x: 9, end_tile_y: 9, discard_tiles: false };
    let mut im = image(0, 0, 100, 50);
    assert_eq!(
        opj_j2k_set_decode_area(&mut im, &mut area, &header, &cp, 0, J2K_STATE_MH, false, 0, 0, 0, 0),
        Err(DecodeAreaError::HeaderNotRead)
    );
    assert_eq!(area.start_tile_x, 9);
    assert_eq!(
        opj_j2k_set_decode_area(&mut im, &mut area, &header, &cp, 1, J2K_STATE_TPHSOT, false, 0, 0, 0, 0),
        Ok(())
    );
    assert_eq!((area.start_tile_x, area.start_tile_y, area.end_tile_x, area.end_tile_y), (0, 0, 4, 2));
    assert_eq!(im.comps.as_ref().unwrap()[0].factor, 1);
    assert_eq!(im.comps.as_ref().unwrap()[0].w, 50);
    let mut im2 = image(0, 0, 100, 50);
    assert_eq!(
        opj_j2k_set_decode_area(&mut im2, &mut area, &header, &cp, 0, J2K_STATE_TPHSOT, false, 40, 10, 70, 40),
        Ok(())
    );
    assert_eq!((area.start_tile_x, area.start_tile_y, area.end_tile_x, area.end_tile_y), (1, 0, 3, 2));
    assert_eq!((im2.x0, im2.y0, im2.x1, im2.y1), (40, 10, 70, 40));
    assert_eq!(im2.comps.as_ref().unwrap()[0].w, 30);
    assert!(area.discard_tiles);
    let mut im3 = image(0, 0, 100, 50);
    assert_eq!(
        opj_j2k_set_decode_area(&mut im3, &mut area, &header, &cp, 0, J2K_STATE_TPHSOT, false, -1, 0, 10, 10),
        Err(DecodeAreaError::NegativeLeft)
    );
    assert_eq!(
        opj_j2k_set_decode_area(&mut im3, &mut area, &header, &cp, 0, J2K_STATE_TPHSOT, false, 200, 0, 300, 10),
        Err(DecodeAreaError::LeftOutside)
    );
}

#[test]
fn tile_component_copy() {
    let mut dest = comp(1, 1);
    dest.x0 = 0;
    dest.y0 = 0;
    dest.w = 4;
    dest.h = 2;
    dest.data = Some(vec![0; 8]);
    let mut src = Some(vec![1, 2, 3, 4]);
    assert!(opj_j2k_copy_tile_component(&mut dest, &mut src, 1, 0, 3, 2, 2));
    assert_eq!(dest.data.as_ref().unwrap(), &vec![0, 1, 2, 0, 0, 3, 4, 0]);
}

#[test]
fn mcc_single_collection() {
    let mut recs: Vec<opj_mcc_record> = Vec::new();
    let data = [0u8, 0, 3, 0, 0, 0, 1, 1, 0, 2, 0, 1, 0, 2, 0, 1, 0, 0, 0];
    let ok = opj_j2k_read_mcc(&mut recs, &[0, 1], &data, data.len() as u32);
    assert!(ok);
    assert_eq!(recs.len(), 1);
    assert_eq!(recs[0].m_index, 3);
    assert_eq!(recs[0].m_nb_comps, 2);
    assert!(recs[0].m_is_irreversible);
    assert!(!opj_j2k_read_mcc(&mut recs, &[], &data[..1], 1));
    let bad = [0u8, 0, 4, 0, 0, 0, 1, 1, 0, 2, 0, 1, 0, 2, 0, 1, 0, 0, 7];
    assert!(!opj_j2k_read_mcc(&mut recs, &[], &bad, bad.len() as u32));
}
