use lib::cstr_index::{
    j2k_get_cstr_index, opj_j2k_add_mhmarker, opj_j2k_add_tlmarker,
    opj_j2k_allocate_tile_element_cstr_index, opj_j2k_create_cstr_index, opj_j2k_get_end_header,
    opj_j2k_write_epc,
};
use lib::j2k::J2KMarker;
use lib::tile::{opj_marker_info, opj_tp_index};

fn zero_tp() -> opj_tp_index {
    opj_tp_index { start_pos: 0, end_header: 0, end_pos: 0 }
}

#[test]
fn main_header_markers_are_recorded_in_order() {
    let mut idx = opj_j2k_create_cstr_index();
    assert!(idx.marker.is_empty() && idx.tile_index.is_none());
    assert!(opj_j2k_add_mhmarker(&mut idx, J2KMarker::SIZ, 2, 47));
    assert!(opj_j2k_add_mhmarker(&mut idx, J2KMarker::UNK(0xff30), 51, 4));
    assert_eq!(
        idx.marker,
        vec![
            opj_marker_info { type_: 0xff51, pos: 2, len: 47 },
            opj_marker_info { type_: 0xff30, pos: 51, len: 4 },
        ]
    );
    opj_j2k_get_end_header(&mut idx, 120);
    assert_eq!(idx.main_head_end, 120);
}

#[test]
fn tile_markers_and_tile_part_starts() {
    let mut idx = opj_j2k_create_cstr_index();
    assert!(opj_j2k_allocate_tile_element_cstr_index(&mut idx, 2, 3));
    assert_eq!(idx.nb_of_tiles, 6);
    assert_eq!(idx.tile_index.as_ref().unwrap().len(), 6);
    {
        let t = &mut idx.tile_index.as_mut().unwrap()[4];
        t.tp_index = Some(vec![zero_tp(); 3]);
        t.current_tpsno = 1;
    }
    assert!(opj_j2k_add_tlmarker(4, &mut idx, J2KMarker::SOT, 300, 10));
    assert!(opj_j2k_add_tlmarker(4, &mut idx, J2KMarker::COD, 312, 12));
    let tiles = idx.tile_index.as_ref().unwrap();
    assert_eq!(tiles[4].marker.len(), 2);
    assert_eq!(tiles[4].marker[0], opj_marker_info { type_: 0xff90, pos: 300, len: 10 });
    assert_eq!(tiles[4].tp_index.as_ref().unwrap()[1].start_pos, 300);
    assert_eq!(tiles[4].tp_index.as_ref().unwrap()[0].start_pos, 0);
    assert!(tiles[3].marker.is_empty());
}

#[test]
fn user_copy_of_the_index() {
    let mut idx = opj_j2k_create_cstr_index();
    idx.main_head_start = 7;
    opj_j2k_add_mhmarker(&mut idx, J2KMarker::SOC, 7, 0);
    opj_j2k_allocate_tile_element_cstr_index(&mut idx, 1, 2);
    {
        let t = &mut idx.tile_index.as_mut().unwrap()[1];
        t.tileno = 1;
        t.nb_tps = 2;
        t.current_nb_tps = 10;
        t.current_tpsno = 1;
        let mut tp = vec![zero_tp(); 10];
        tp[1].end_pos = 99;
        t.tp_index = Some(tp);
    }
    opj_j2k_add_tlmarker(1, &mut idx, J2KMarker::SOT, 40, 10);
    let copy = j2k_get_cstr_index(&idx);
    assert_eq!(copy.main_head_start, 7);
    assert_eq!(copy.marker, idx.marker);
    assert_eq!(copy.nb_of_tiles, 2);
    let t = &copy.tile_index.as_ref().unwrap()[1];
    assert_eq!((t.tileno, t.nb_tps, t.current_nb_tps, t.current_tpsno), (0, 2, 0, 0));
    assert_eq!(t.tp_index.as_ref().unwrap().len(), 2);
    assert_eq!(t.tp_index.as_ref().unwrap()[1].end_pos, 99);
    assert_eq!(t.tp_index.as_ref().unwrap()[1].start_pos, 40);
    assert_eq!(t.marker.len(), 1);
    assert!(copy.tile_index.as_ref().unwrap()[0].tp_index.is_none());
}

#[test]
fn codestream_size_counts_from_the_main_header() {
    let mut idx = Some(opj_j2k_create_cstr_index());
    idx.as_mut().unwrap().main_head_start = 12;
    opj_j2k_write_epc(&mut idx, 1000);
    assert_eq!(idx.unwrap().codestream_size, 988);
    let mut none = None;
    opj_j2k_write_epc(&mut none, 5);
    assert!(none.is_none());
}

#[test]
fn tile_parts_total_over_the_index() {
    let mut idx = opj_j2k_create_cstr_index();
    assert_eq!(lib::cstr_index::opj_j2k_index_tile_parts(&idx), 0);
    opj_j2k_allocate_tile_element_cstr_index(&mut idx, 3, 1);
    assert_eq!(lib::cstr_index::opj_j2k_index_tile_parts(&idx), 0);
    idx.tile_index.as_mut().unwrap()[0].nb_tps = 2;
    idx.tile_index.as_mut().unwrap()[2].nb_tps = 5;
    assert_eq!(lib::cstr_index::opj_j2k_index_tile_parts(&idx), 7);
}
