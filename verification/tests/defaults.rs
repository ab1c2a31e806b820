use lib::defaults::opj_j2k_copy_default_tcp;
use lib::encoder::{opj_tccp, opj_tcp, zero_stepsizes};
use lib::j2k::MCTElementType;
use lib::mcc::opj_mcc_record;
use lib::mct_records::opj_mct_data;

fn tccp(numres: u32) -> opj_tccp {
    opj_tccp {
        csty: 1,
        numresolutions: numres,
        cblkw: 6,
        cblkh: 5,
        cblksty: 0,
        qmfbid: 1,
        qntsty: 0,
        numgbits: 2,
        roishift: 3,
        prcw: vec![15; 33],
        prch: vec![14; 33],
        stepsizes: zero_stepsizes(),
        m_dc_level_shift: 128,
    }
}

#[test]
fn every_tile_starts_from_the_defaults() {
    let default = opj_tcp {
        cod: true,
        numlayers: 3,
        num_layers_to_decode: 2,
        csty: 1,
        prg: 2,
        mct: 1,
        POC: false,
        numpocs: 0,
        pocs: vec![],
        tccps: vec![tccp(4), tccp(5)],
        m_nb_tile_parts: 0,
        m_mct_records: vec![opj_mct_data {
            m_element_type: MCTElementType::INT16,
            m_array_type: 1,
            m_index: 1,
            m_data: vec![0, 1, 0, 2],
        }],
        m_mcc_records: vec![opj_mcc_record {
            m_index: 1,
            m_nb_comps: 2,
            m_is_irreversible: false,
            m_decorrelation_array: Some(0),
            m_offset_array: None,
        }],
    };
    let mut other = default.clone();
    other.numlayers = 9;
    other.tccps.clear();
    let mut tiles = vec![other.clone(), other.clone(), other];
    opj_j2k_copy_default_tcp(&default, &mut tiles);
    assert_eq!(tiles.len(), 3);
    for t in &tiles {
        assert!(!t.cod);
        assert_eq!((t.numlayers, t.num_layers_to_decode, t.csty, t.prg, t.mct), (3, 2, 1, 2, 1));
        assert_eq!(t.tccps.len(), 2);
        assert_eq!(t.tccps[1].numresolutions, 5);
        assert_eq!(t.tccps[0].prch, vec![14; 33]);
        assert_eq!(t.tccps[0].m_dc_level_shift, 128);
        assert_eq!(t.m_mct_records[0].m_data, vec![0, 1, 0, 2]);
        assert_eq!(t.m_mcc_records[0].m_decorrelation_array, Some(0));
    }
}
