use lib::coding::{
    opj_j2k_check_SPCod_SPCoc, opj_j2k_check_SQcd_SQcc, opj_j2k_compare_SPCod_SPCoc,
    opj_j2k_compare_SQcd_SQcc, opj_j2k_copy_tile_component_parameters,
    opj_j2k_copy_tile_quantization_parameters, opj_j2k_get_SPCod_SPCoc_size,
    opj_j2k_get_SQcd_SQcc_size, opj_j2k_read_SPCod_SPCoc, opj_j2k_read_SQcd_SQcc, opj_j2k_read_coc,
    opj_j2k_read_cod, opj_j2k_read_qcc, opj_j2k_read_qcd, opj_j2k_read_rgn, opj_j2k_write_SPCod_SPCoc,
    opj_j2k_write_SQcd_SQcc, opj_j2k_write_cod, opj_j2k_write_qcd, opj_j2k_write_rgn, CodingError,
    SegmentError,
};
use lib::encoder::{opj_stepsize, opj_tccp, opj_tcp, zero_stepsizes};

fn tccp(csty: u32) -> opj_tccp {
    opj_tccp {
        csty,
        numresolutions: 0,
        cblkw: 0,
        cblkh: 0,
        cblksty: 0,
        qmfbid: 0,
        qntsty: 0,
        numgbits: 0,
        roishift: 0,
        prcw: vec![],
        prch: vec![],
        stepsizes: zero_stepsizes(),
        m_dc_level_shift: 0,
    }
}

fn tcp(n: usize) -> opj_tcp {
    opj_tcp {
        cod: false,
        numlayers: 0,
        num_layers_to_decode: 0,
        csty: 0,
        prg: 0,
        mct: 0,
        POC: false,
        numpocs: 0,
        pocs: vec![],
        tccps: (0..n).map(|_| tccp(0)).collect(),
        m_nb_tile_parts: 0,
        m_mct_records: vec![],
        m_mcc_records: vec![],
    }
}

#[test]
fn reads_spcod_with_default_precincts() {
    let mut t = tccp(0);
    let data = [4u8, 4, 4, 0, 1];
    let mut size = 5u32;
    assert_eq!(opj_j2k_read_SPCod_SPCoc(&mut t, 0, &data, 0, &mut size), Ok(()));
    assert_eq!(size, 0);
    assert_eq!(t.numresolutions, 5);
    assert_eq!((t.cblkw, t.cblkh, t.cblksty, t.qmfbid), (6, 6, 0, 1));
    assert_eq!(t.prcw, vec![15; 5]);
    assert_eq!(t.prch, vec![15; 5]);
}

#[test]
fn reads_spcod_with_custom_precincts() {
    let mut t = tccp(1);
    let data = [1u8, 3, 3, 0x40, 0, 0x00, 0x78, 9];
    let mut size = 8u32;
    assert_eq!(opj_j2k_read_SPCod_SPCoc(&mut t, 0, &data, 0, &mut size), Ok(()));
    assert_eq!(size, 1);
    assert_eq!(t.numresolutions, 2);
    assert_eq!(t.prcw, vec![0, 8]);
    assert_eq!(t.prch, vec![0, 7]);
    assert_eq!(t.cblksty, 0x40);
}

#[test]
fn refuses_bad_spcod_elements() {
    let e = |csty: u32, reduce: u32, d: &[u8]| opj_j2k_check_SPCod_SPCoc(csty, reduce, d, 0, d.len() as u32);
    assert_eq!(e(0, 0, &[1, 2, 2, 0]), Err(CodingError::SPCodTooShort));
    assert_eq!(e(0, 0, &[33, 2, 2, 0, 0]), Err(CodingError::TooManyResolutions));
    assert_eq!(e(0, 3, &[2, 2, 2, 0, 0]), Err(CodingError::ReduceTooLarge));
    assert_eq!(e(0, 0, &[2, 9, 2, 0, 0]), Err(CodingError::BadCodeBlockSize));
    assert_eq!(e(0, 0, &[2, 6, 6, 0, 0]), Err(CodingError::BadCodeBlockSize));
    assert_eq!(e(0, 0, &[2, 2, 2, 0x80, 0]), Err(CodingError::MixedHtCodeBlocks));
    assert_eq!(e(0, 0, &[2, 2, 2, 0, 2]), Err(CodingError::BadTransform));
    assert_eq!(e(1, 0, &[2, 2, 2, 0, 0, 0x11, 0x11]), Err(CodingError::SPCodTooShort));
    assert_eq!(e(1, 0, &[1, 2, 2, 0, 0, 0x00, 0x10]), Err(CodingError::BadPrecinctSize));
    assert_eq!(e(1, 0, &[1, 2, 2, 0, 0, 0x00, 0x11]), Ok(7));
    let mut t = tccp(0);
    let before = t.clone();
    let mut size = 5u32;
    assert_eq!(
        opj_j2k_read_SPCod_SPCoc(&mut t, 0, &[2u8, 2, 2, 0, 7], 0, &mut size),
        Err(CodingError::BadTransform)
    );
    assert_eq!(size, 5);
    assert_eq!(t.numresolutions, before.numresolutions);
}

#[test]
fn spcod_write_then_read_gives_back_the_style() {
    let mut t = tccp(1);
    t.numresolutions = 3;
    t.cblkw = 4;
    t.cblkh = 5;
    t.cblksty = 0x21;
    t.qmfbid = 1;
    t.prcw = vec![0, 7, 15];
    t.prch = vec![1, 8, 15];
    assert_eq!(opj_j2k_get_SPCod_SPCoc_size(&t), 8);
    let mut out = vec![0xeeu8];
    let mut room = 10u32;
    assert!(opj_j2k_write_SPCod_SPCoc(&t, &mut out, &mut room));
    assert_eq!(room, 2);
    assert_eq!(out, vec![0xee, 2, 2, 3, 0x21, 1, 0x10, 0x87, 0xff]);
    let mut u = tccp(1);
    let mut size = 8u32;
    assert_eq!(opj_j2k_read_SPCod_SPCoc(&mut u, 0, &out, 1, &mut size), Ok(()));
    assert_eq!(size, 0);
    assert!(opj_j2k_compare_SPCod_SPCoc(&t, &u));
    assert_eq!(u.prcw, t.prcw);
    assert_eq!(u.prch, t.prch);
    let mut tiny = 7u32;
    let mut none = Vec::new();
    assert!(!opj_j2k_write_SPCod_SPCoc(&t, &mut none, &mut tiny));
    assert!(none.is_empty());
    assert_eq!(tiny, 7);
}

#[test]
fn sqcd_reads_expounded_and_derived_steps() {
    let mut t = tccp(0);
    let data = [0x42u8, 0x48, 0x03];
    let mut size = 3u32;
    assert_eq!(opj_j2k_read_SQcd_SQcc(&mut t, &data, 0, &mut size), Ok(()));
    assert_eq!(size, 0);
    assert_eq!(t.qntsty, 2);
    assert_eq!(t.numgbits, 2);
    assert_eq!(t.stepsizes[0], opj_stepsize { expn: 9, mant: 3 });
    assert_eq!(t.stepsizes[1], opj_stepsize { expn: 0, mant: 0 });
    let mut d = tccp(0);
    let data = [0x21u8, 0x48, 0x03];
    let mut size = 3u32;
    assert_eq!(opj_j2k_read_SQcd_SQcc(&mut d, &data, 0, &mut size), Ok(()));
    assert_eq!(d.qntsty, 1);
    assert_eq!(d.numgbits, 1);
    assert_eq!(d.stepsizes[0], opj_stepsize { expn: 9, mant: 3 });
    assert_eq!(d.stepsizes[1], opj_stepsize { expn: 9, mant: 3 });
    assert_eq!(d.stepsizes[4], opj_stepsize { expn: 8, mant: 3 });
    assert_eq!(d.stepsizes[96], opj_stepsize { expn: 0, mant: 3 });
    let mut r = tccp(0);
    let data = [0x40u8, 0x48, 0x10];
    let mut size = 3u32;
    assert_eq!(opj_j2k_read_SQcd_SQcc(&mut r, &data, 0, &mut size), Ok(()));
    assert_eq!(r.qntsty, 0);
    assert_eq!(r.stepsizes[0], opj_stepsize { expn: 9, mant: 0 });
    assert_eq!(r.stepsizes[1], opj_stepsize { expn: 2, mant: 0 });
    assert_eq!(opj_j2k_check_SQcd_SQcc(&[0x01u8, 0x00], 0, 2), Err(CodingError::SQcdTooShort));
    assert_eq!(opj_j2k_check_SQcd_SQcc(&[], 0, 0), Err(CodingError::SQcdTooShort));
}

#[test]
fn sqcd_write_then_read_gives_back_the_quantization() {
    let mut t = tccp(0);
    t.numresolutions = 2;
    t.qntsty = 2;
    t.numgbits = 3;
    for k in 0..4 {
        t.stepsizes[k] = opj_stepsize { expn: 10 + k as i32, mant: 100 * k as i32 };
    }
    assert_eq!(opj_j2k_get_SQcd_SQcc_size(&t), 1 + 2 * 4);
    let mut out = Vec::new();
    let mut room = 9u32;
    assert!(opj_j2k_write_SQcd_SQcc(&t, &mut out, &mut room));
    assert_eq!(room, 0);
    assert_eq!(out[0], 2 + 3 * 32);
    let mut u = tccp(0);
    u.numresolutions = 2;
    let mut size = 9u32;
    assert_eq!(opj_j2k_read_SQcd_SQcc(&mut u, &out, 0, &mut size), Ok(()));
    assert!(opj_j2k_compare_SQcd_SQcc(&t, &u));
    for k in 0..4 {
        assert_eq!(u.stepsizes[k], t.stepsizes[k]);
    }
    let mut small = 8u32;
    let mut none = Vec::new();
    assert!(!opj_j2k_write_SQcd_SQcc(&t, &mut none, &mut small));
    assert!(none.is_empty());
}

#[test]
fn copies_component_parameters() {
    let mut p = tcp(3);
    p.tccps[0].numresolutions = 4;
    p.tccps[0].cblkw = 5;
    p.tccps[0].prcw = vec![15; 4];
    p.tccps[0].prch = vec![15; 4];
    p.tccps[0].qntsty = 2;
    p.tccps[0].stepsizes[3] = opj_stepsize { expn: 7, mant: 7 };
    p.tccps[2].roishift = 5;
    opj_j2k_copy_tile_component_parameters(&mut p);
    assert_eq!(p.tccps[2].numresolutions, 4);
    assert_eq!(p.tccps[2].cblkw, 5);
    assert_eq!(p.tccps[2].prcw, vec![15; 4]);
    assert_eq!(p.tccps[2].qntsty, 0);
    assert_eq!(p.tccps[2].roishift, 5);
    opj_j2k_copy_tile_quantization_parameters(&mut p);
    assert_eq!(p.tccps[1].qntsty, 2);
    assert_eq!(p.tccps[1].stepsizes[3], opj_stepsize { expn: 7, mant: 7 });
    assert_eq!(p.tccps[2].roishift, 5);
}

#[test]
fn cod_segment_read_sets_every_component() {
    let mut p = tcp(2);
    let body = [0x01u8, 0x02, 0x00, 0x03, 0x01, 2, 4, 4, 0, 1, 0x00, 0x77, 0x88];
    assert_eq!(opj_j2k_read_cod(&mut p, 0, 0, &body, 13), Ok(()));
    assert!(p.cod);
    assert_eq!((p.csty, p.prg, p.numlayers, p.num_layers_to_decode, p.mct), (1, 2, 3, 3, 1));
    for c in &p.tccps {
        assert_eq!(c.csty, 1);
        assert_eq!(c.numresolutions, 3);
        assert_eq!(c.prcw, vec![0, 7, 8]);
        assert_eq!(c.prch, vec![0, 7, 8]);
    }
    let mut q = tcp(1);
    let body = [0x00u8, 0x09, 0x00, 0x05, 0x00, 0, 4, 4, 0, 1];
    assert_eq!(opj_j2k_read_cod(&mut q, 2, 0, &body, 10), Ok(()));
    assert_eq!(q.prg, -1);
    assert_eq!(q.num_layers_to_decode, 2);
}

#[test]
fn cod_segment_errors() {
    let mut p = tcp(1);
    assert_eq!(opj_j2k_read_cod(&mut p, 0, 0, &[0, 0, 0, 1], 4), Err(SegmentError::TooShort));
    assert_eq!(
        opj_j2k_read_cod(&mut p, 0, 0, &[8, 0, 0, 1, 0, 0, 4, 4, 0, 1], 10),
        Err(SegmentError::UnknownScod)
    );
    assert_eq!(
        opj_j2k_read_cod(&mut p, 0, 0, &[0, 0, 0, 0, 0, 0, 4, 4, 0, 1], 10),
        Err(SegmentError::BadLayerCount)
    );
    assert_eq!(
        opj_j2k_read_cod(&mut p, 0, 0, &[0, 0, 0, 1, 2, 0, 4, 4, 0, 1], 10),
        Err(SegmentError::BadMct)
    );
    assert_eq!(
        opj_j2k_read_cod(&mut p, 0, 0, &[0, 0, 0, 1, 0, 0, 4, 4, 0, 5], 10),
        Err(SegmentError::Element(CodingError::BadTransform))
    );
    assert_eq!(
        opj_j2k_read_cod(&mut p, 0, 0, &[0, 0, 0, 1, 0, 0, 4, 4, 0, 1, 0], 11),
        Err(SegmentError::Trailing)
    );
    assert!(!p.cod);
}

#[test]
fn cod_write_then_read() {
    let mut p = tcp(2);
    p.csty = 1;
    p.prg = 3;
    p.numlayers = 5;
    p.mct = 1;
    p.tccps[0].csty = 1;
    p.tccps[0].numresolutions = 2;
    p.tccps[0].cblkw = 4;
    p.tccps[0].cblkh = 4;
    p.tccps[0].qmfbid = 1;
    p.tccps[0].prcw = vec![3, 5];
    p.tccps[0].prch = vec![4, 6];
    let seg = opj_j2k_write_cod(&p);
    assert_eq!(&seg[..4], &[0xff, 0x52, 0x00, (seg.len() - 2) as u8]);
    let mut q = tcp(2);
    let body = &seg[4..];
    assert_eq!(opj_j2k_read_cod(&mut q, 0, 0, body, body.len() as u32), Ok(()));
    assert_eq!((q.csty, q.prg, q.numlayers, q.mct), (1, 3, 5, 1));
    assert_eq!(q.tccps[1].prcw, vec![3, 5]);
    assert_eq!(q.tccps[1].prch, vec![4, 6]);
}

#[test]
fn coc_qcd_qcc_and_rgn_segments() {
    let mut p = tcp(3);
    assert_eq!(opj_j2k_read_coc(&mut p, 0, &[2, 0, 1, 4, 4, 0, 0], 7), Ok(()));
    assert_eq!(p.tccps[2].numresolutions, 2);
    assert_eq!(p.tccps[2].qmfbid, 0);
    assert_eq!(p.tccps[0].numresolutions, 0);
    assert_eq!(opj_j2k_read_coc(&mut p, 0, &[3, 0, 1, 4, 4, 0, 0], 7), Err(SegmentError::BadComponent));
    assert_eq!(opj_j2k_read_coc(&mut p, 0, &[1], 1), Err(SegmentError::TooShort));

    assert_eq!(opj_j2k_read_qcd(&mut p, &[0x21, 0x48, 0x03], 3), Ok(()));
    for c in &p.tccps {
        assert_eq!(c.qntsty, 1);
        assert_eq!(c.stepsizes[0], opj_stepsize { expn: 9, mant: 3 });
    }
    assert_eq!(opj_j2k_read_qcd(&mut p, &[0x21, 0x48, 0x03, 0], 4), Err(SegmentError::Trailing));
    assert_eq!(opj_j2k_read_qcc(&mut p, &[1, 0x40, 0x08], 3), Ok(()));
    assert_eq!(p.tccps[1].qntsty, 0);
    assert_eq!(p.tccps[1].stepsizes[0], opj_stepsize { expn: 1, mant: 0 });
    assert_eq!(p.tccps[0].qntsty, 1);
    assert_eq!(opj_j2k_read_qcc(&mut p, &[5, 0x40, 0x08], 3), Err(SegmentError::BadComponent));

    let seg = opj_j2k_write_rgn(&{
        let mut r = tcp(3);
        r.tccps[1].roishift = 7;
        r
    }, 1, 3);
    assert_eq!(seg, vec![0xff, 0x5e, 0x00, 0x05, 0x01, 0x00, 0x07]);
    assert_eq!(opj_j2k_read_rgn(&mut p, &seg[4..], 3), Ok(()));
    assert_eq!(p.tccps[1].roishift, 7);
    assert_eq!(opj_j2k_read_rgn(&mut p, &seg[4..], 2), Err(SegmentError::BadLength));
    assert_eq!(opj_j2k_read_rgn(&mut p, &[4, 0, 1], 3), Err(SegmentError::BadComponent));
}

#[test]
fn qcd_write_then_read() {
    let mut p = tcp(2);
    p.tccps[0].numresolutions = 1;
    p.tccps[0].qntsty = 0;
    p.tccps[0].numgbits = 2;
    p.tccps[0].stepsizes[0] = opj_stepsize { expn: 13, mant: 0 };
    let seg = opj_j2k_write_qcd(&p);
    assert_eq!(seg, vec![0xff, 0x5c, 0x00, 0x04, 0x40, 13 * 8]);
    let mut q = tcp(2);
    assert_eq!(opj_j2k_read_qcd(&mut q, &seg[4..], 2), Ok(()));
    assert_eq!(q.tccps[1].stepsizes[0], opj_stepsize { expn: 13, mant: 0 });
    assert_eq!(q.tccps[1].numgbits, 2);
}
