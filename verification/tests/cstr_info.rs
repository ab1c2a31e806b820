use lib::cstr_info::j2k_get_cstr_info;
use lib::encoder::{opj_stepsize, opj_tccp, opj_tcp, zero_stepsizes};
use lib::siz::opj_cp;

fn tccp(numres: u32, qntsty: u32) -> opj_tccp {
    let mut steps = zero_stepsizes();
    for k in 0..97 {
        steps[k] = opj_stepsize { expn: k as i32, mant: 1000 + k as i32 };
    }
    opj_tccp {
        csty: 1,
        numresolutions: numres,
        cblkw: 6,
        cblkh: 5,
        cblksty: 8,
        qmfbid: 0,
        qntsty,
        numgbits: 2,
        roishift: 4,
        prcw: (0..33).collect(),
        prch: (100..133).collect(),
        stepsizes: steps,
        m_dc_level_shift: 0,
    }
}

fn tcp(tccps: Vec<opj_tccp>) -> opj_tcp {
    opj_tcp {
        cod: true,
        numlayers: 3,
        num_layers_to_decode: 3,
        csty: 1,
        prg: 2,
        mct: 1,
        POC: false,
        numpocs: 0,
        pocs: vec![],
        tccps,
        m_nb_tile_parts: 0,
        m_mct_records: vec![],
        m_mcc_records: vec![],
    }
}

#[test]
fn codestream_info_of_the_default_tile() {
    let cp = opj_cp { rsiz: 0, tx0: 1, ty0: 2, tdx: 64, tdy: 32, tw: 3, th: 4 };
    let d = tcp(vec![tccp(3, 2), tccp(33, 2), tccp(5, 1)]);
    let info = j2k_get_cstr_info(&cp, 3, &d);
    assert_eq!((info.tx0, info.ty0, info.tdx, info.tdy, info.tw, info.th), (1, 2, 64, 32, 3, 4));
    assert_eq!(info.nbcomps, 3);
    let t = &info.m_default_tile_info;
    assert_eq!((t.csty, t.prg, t.numlayers, t.mct), (1, 2, 3, 1));
    let c0 = &t.tccp_info[0];
    assert_eq!((c0.numresolutions, c0.cblkw, c0.cblkh, c0.cblksty, c0.roishift), (3, 6, 5, 8, 4));
    assert_eq!(&c0.prcw[..4], &[0, 1, 2, 0]);
    assert_eq!(&c0.prch[..4], &[100, 101, 102, 0]);
    assert_eq!(&c0.stepsizes_expn[..8], &[0, 1, 2, 3, 4, 5, 6, 0]);
    assert_eq!(c0.stepsizes_mant[6], 1006);
    let c1 = &t.tccp_info[1];
    assert!(c1.prcw.iter().all(|v| *v == 0));
    assert!(c1.stepsizes_expn.iter().all(|v| *v == 0));
    let c2 = &t.tccp_info[2];
    assert_eq!(&c2.stepsizes_mant[..2], &[1000, 0]);
}
