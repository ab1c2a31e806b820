use lib::encoder::{opj_j2k_check_encoder_parameters, opj_j2k_setup_encoder, SetupError};
use lib::image::{opj_image, opj_image_comp};
use lib::options::opj_j2k_encoder_set_extra_options;
use lib::params::{
    opj_cparameters, opj_j2k_check_poc_val, opj_j2k_get_imf_max_NL, opj_j2k_initialise_4K_poc,
    opj_j2k_is_cinema_compliant, opj_poc, to_u32,
};

fn defaults() -> opj_cparameters {
    opj_cparameters {
        tile_size_on: 0,
        cp_tx0: 0,
        cp_ty0: 0,
        cp_tdx: 0,
        cp_tdy: 0,
        cp_disto_alloc: 0,
        cp_fixed_alloc: 0,
        cp_fixed_quality: 0,
        cp_matrice: None,
        tcp_numlayers: 0,
        csty: 0,
        prog_order: 0,
        POC: vec![opj_poc::default(); 32],
        numpocs: 0,
        numresolution: 6,
        cblockw_init: 64,
        cblockh_init: 64,
        mode: 0,
        irreversible: 0,
        roi_compno: -1,
        roi_shift: 0,
        res_spec: 0,
        prcw_init: vec![0; 33],
        prch_init: vec![0; 33],
        image_offset_x0: 0,
        image_offset_y0: 0,
        subsampling_dx: 1,
        subsampling_dy: 1,
        tp_on: 0,
        tp_flag: 0,
        tcp_mct: 0,
        cp_cinema: 0,
        cp_rsiz: 0,
        max_cs_size: 0,
        max_comp_size: 0,
        rsiz: 0,
    }
}

fn gray(w: u32, h: u32) -> opj_image {
    let mut c = opj_image_comp::default();
    c.dx = 1;
    c.dy = 1;
    c.w = w;
    c.h = h;
    c.prec = 8;
    let mut im = opj_image::default();
    im.x1 = w;
    im.y1 = h;
    im.numcomps = 1;
    im.comps = Some(vec![c]);
    im
}

#[test]
fn parameter_checks() {
    assert_eq!(opj_j2k_check_encoder_parameters(&defaults()), None);
    let mut p = defaults();
    p.numresolution = 34;
    assert_eq!(opj_j2k_check_encoder_parameters(&p), Some(SetupError::InvalidResolutionCount));
    let mut p = defaults();
    p.cblockw_init = 2;
    assert_eq!(opj_j2k_check_encoder_parameters(&p), Some(SetupError::InvalidCodeBlockWidth));
    let mut p = defaults();
    p.cblockw_init = 128;
    assert_eq!(opj_j2k_check_encoder_parameters(&p), Some(SetupError::CodeBlockTooLarge));
    let mut p = defaults();
    p.cblockh_init = 48;
    assert_eq!(opj_j2k_check_encoder_parameters(&p), Some(SetupError::CodeBlockHeightNotPowerOfTwo));
    let mut p = defaults();
    p.cp_fixed_alloc = 1;
    assert_eq!(opj_j2k_check_encoder_parameters(&p), Some(SetupError::MissingAllocationMatrix));
}

#[test]
fn sets_up_a_single_tile_encoder() {
    let mut p = defaults();
    let image = gray(64, 32);
    let setup = opj_j2k_setup_encoder(&mut p, &image, 0, None).unwrap();
    assert_eq!((setup.cp.tw, setup.cp.th), (1, 1));
    assert_eq!((setup.cp.tdx, setup.cp.tdy), (64, 32));
    assert_eq!(setup.tcps.len(), 1);
    let tccp = &setup.tcps[0].tccps[0];
    assert_eq!(tccp.numresolutions, 6);
    assert_eq!((tccp.cblkw, tccp.cblkh), (6, 6));
    assert_eq!(tccp.qmfbid, 1);
    assert_eq!(tccp.m_dc_level_shift, 128);
    assert_eq!(setup.tcps[0].numlayers, 1);
    assert!(!setup.plt);
}

#[test]
fn refuses_bad_parameters_when_setting_up() {
    let mut p = defaults();
    p.numresolution = 0;
    let image = gray(8, 8);
    assert!(matches!(
        opj_j2k_setup_encoder(&mut p, &image, 0, None),
        Err(SetupError::InvalidResolutionCount)
    ));
}

#[test]
fn extra_options_apply_in_order() {
    let mut p = defaults();
    let image = gray(16, 16);
    let mut setup = opj_j2k_setup_encoder(&mut p, &image, 0, None).unwrap();
    assert!(opj_j2k_encoder_set_extra_options(&mut setup, &["PLT=YES", "TLM=YES", "GUARD_BITS=5"]));
    assert!(setup.plt);
    assert!(setup.tlm);
    assert_eq!(setup.tcps[0].tccps[0].numgbits, 5);
    assert!(!opj_j2k_encoder_set_extra_options(&mut setup, &["PLT=NO", "BOGUS", "TLM=NO"]));
    assert!(!setup.plt);
    assert!(setup.tlm);
    assert!(!opj_j2k_encoder_set_extra_options(&mut setup, &["GUARD_BITS=9"]));
    assert_eq!(setup.tcps[0].tccps[0].numgbits, 5);
}

#[test]
fn progression_order_change_checks() {
    let mut full = opj_poc::default();
    full.tile = 1;
    full.resno1 = 3;
    full.compno1 = 1;
    full.layno1 = 2;
    assert!(opj_j2k_check_poc_val(&[full], 0, 1, 3, 1, 2));
    let mut half = full;
    half.resno1 = 2;
    assert!(!opj_j2k_check_poc_val(&[half], 0, 1, 3, 1, 2));
    let mut rest = full;
    rest.resno0 = 2;
    assert!(opj_j2k_check_poc_val(&[half, rest], 0, 2, 3, 1, 2));
    let mut other_tile = full;
    other_tile.tile = 2;
    assert!(!opj_j2k_check_poc_val(&[other_tile], 0, 1, 3, 1, 2));
}

#[test]
fn profile_helpers() {
    let mut pocs = vec![opj_poc::default(); 32];
    assert_eq!(opj_j2k_initialise_4K_poc(&mut pocs, 7), 2);
    assert_eq!(pocs[0].resno1, 6);
    assert_eq!(pocs[1].resno0, 6);
    assert_eq!(to_u32(-1), u32::MAX);
    let image = gray(1920, 1080);
    assert_eq!(opj_j2k_get_imf_max_NL(&defaults(), &image), -1);
    let mut three = gray(2048, 1080);
    let c = three.comps.as_ref().unwrap()[0].clone();
    three.numcomps = 3;
    three.comps = Some(vec![c.clone(), c.clone(), c.clone()]);
    assert!(!opj_j2k_is_cinema_compliant(&three, 3));
    let mut c12 = c;
    c12.prec = 12;
    three.comps = Some(vec![c12.clone(), c12.clone(), c12]);
    assert!(opj_j2k_is_cinema_compliant(&three, 3));
}

#[test]
fn an_image_without_components_is_refused() {
    let mut p = defaults();
    let mut image = gray(8, 8);
    image.numcomps = 0;
    image.comps = Some(vec![]);
    assert!(matches!(opj_j2k_setup_encoder(&mut p, &image, 0, None), Err(SetupError::NoComponents)));
}

#[test]
fn bad_parameters_leave_an_empty_image_alone() {
    let mut p = defaults();
    p.numresolution = 40;
    let image = opj_image::default();
    assert!(matches!(
        opj_j2k_setup_encoder(&mut p, &image, 0, None),
        Err(SetupError::InvalidResolutionCount)
    ));
    assert_eq!(p.numresolution, 40);
}
