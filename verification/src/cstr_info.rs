//! The codestream information handed to the user once the main header is
//! read: the tile grid and the default coding parameters of the tiles.
use vstd::prelude::*;

use crate::encoder::{opj_tccp, opj_tcp, OPJ_J2K_MAXBANDS};
use crate::siz::opj_cp;

verus! {

/// The coding parameters of one component as the user sees them: precinct
/// sizes for up to 33 resolutions and step sizes for up to 97 sub-bands,
/// zero where not copied.
#[derive(Clone, Debug)]
pub struct opj_tccp_info {
    pub compno: u32,
    pub csty: u32,
    pub numresolutions: u32,
    pub cblkw: u32,
    pub cblkh: u32,
    pub cblksty: u32,
    pub qmfbid: u32,
    pub prcw: Vec<u32>,
    pub prch: Vec<u32>,
    pub qntsty: u32,
    pub numgbits: u32,
    pub stepsizes_mant: Vec<u32>,
    pub stepsizes_expn: Vec<u32>,
    pub roishift: i32,
}

/// The coding parameters of a tile as the user sees them.
#[derive(Clone, Debug)]
pub struct opj_tile_info_v2 {
    pub tileno: i32,
    pub csty: u32,
    pub prg: i32,
    pub numlayers: u32,
    pub mct: u32,
    pub tccp_info: Vec<opj_tccp_info>,
}

/// The codestream information: the tile grid, the number of components and
/// the default tile parameters.
#[derive(Clone, Debug)]
pub struct opj_codestream_info_v2 {
    pub tx0: u32,
    pub ty0: u32,
    pub tdx: u32,
    pub tdy: u32,
    pub tw: u32,
    pub th: u32,
    pub nbcomps: u32,
    pub m_default_tile_info: opj_tile_info_v2,
}

/// The number of step sizes of a component: one when derived, else three
/// per resolution but the first.
pub open spec fn info_bands(t: opj_tccp) -> int {
    if t.qntsty == 1 {
        1
    } else {
        3 * t.numresolutions - 2
    }
}

/// Entry `k` of a table of `n` entries whose first `m` are copied from
/// `src` (when `copied`), the others zero.
pub open spec fn copied_entry(src: Seq<u32>, k: int, m: int, copied: bool) -> u32 {
    if copied && k < m {
        src[k]
    } else {
        0
    }
}

/// The user's view of a component's parameters: every field, the precinct
/// sizes when it has fewer than 33 resolutions, the step sizes when it has
/// fewer than 97 sub-bands.
pub open spec fn tccp_info_of(i: opj_tccp_info, t: opj_tccp) -> bool {
    let prc = t.numresolutions < 33;
    let nb = info_bands(t);
    let steps = nb < 97;
    &&& i.csty == t.csty
    &&& i.numresolutions == t.numresolutions
    &&& i.cblkw == t.cblkw
    &&& i.cblkh == t.cblkh
    &&& i.cblksty == t.cblksty
    &&& i.qmfbid == t.qmfbid
    &&& i.qntsty == t.qntsty
    &&& i.numgbits == t.numgbits
    &&& i.roishift == t.roishift
    &&& i.compno == 0
    &&& i.prcw@.len() == 33
    &&& i.prch@.len() == 33
    &&& forall|k: int| 0 <= k < 33 ==> #[trigger] i.prcw@[k] == copied_entry(t.prcw@, k, t.numresolutions as int, prc)
    &&& forall|k: int| 0 <= k < 33 ==> #[trigger] i.prch@[k] == copied_entry(t.prch@, k, t.numresolutions as int, prc)
    &&& i.stepsizes_mant@.len() == OPJ_J2K_MAXBANDS
    &&& i.stepsizes_expn@.len() == OPJ_J2K_MAXBANDS
    &&& forall|k: int|
        0 <= k < OPJ_J2K_MAXBANDS ==> #[trigger] i.stepsizes_mant@[k] == if steps && k < nb {
            t.stepsizes@[k].mant as u32
        } else {
            0
        }
    &&& forall|k: int|
        0 <= k < OPJ_J2K_MAXBANDS ==> #[trigger] i.stepsizes_expn@[k] == if steps && k < nb {
            t.stepsizes@[k].expn as u32
        } else {
            0
        }
}

/// A component whose parameters can be shown: a number of resolutions
/// whose sub-band count fits 32 bits, and the tables it is copied from.
pub open spec fn tccp_showable(t: opj_tccp) -> bool {
    &&& t.numresolutions <= 715827882
    &&& t.stepsizes@.len() == OPJ_J2K_MAXBANDS
    &&& t.numresolutions < 33 ==> t.numresolutions <= t.prcw@.len() && t.numresolutions <= t.prch@.len()
}

fn table_copy(src: &Vec<u32>, m: u32, copied: bool) -> (r: Vec<u32>)
    requires
        copied ==> m <= 33 && m <= src@.len(),
    ensures
        r@.len() == 33,
        forall|k: int| 0 <= k < 33 ==> #[trigger] r@[k] == copied_entry(src@, k, m as int, copied),
{
    let mut r: Vec<u32> = Vec::new();
    let mut k: usize = 0;
    while k < 33
        invariant
            k <= 33,
            copied ==> m <= 33 && m <= src@.len(),
            r@.len() == k,
            forall|j: int| 0 <= j < k ==> #[trigger] r@[j] == copied_entry(src@, j, m as int, copied),
        decreases 33 - k,
    {
        if copied && (k as u32) < m {
            r.push(src[k]);
        } else {
            r.push(0);
        }
        k = k + 1;
    }
    r
}

fn tccp_info(t: &opj_tccp) -> (r: opj_tccp_info)
    requires
        tccp_showable(*t),
    ensures
        tccp_info_of(r, *t),
{
    let prc = t.numresolutions < 33;
    let nb: i32 = if t.qntsty == 1 {
        1
    } else {
        (t.numresolutions as i32) * 3 - 2
    };
    let steps = nb < 97;
    let mut mant: Vec<u32> = Vec::new();
    let mut expn: Vec<u32> = Vec::new();
    let mut k: usize = 0;
    while k < OPJ_J2K_MAXBANDS
        invariant
            k <= OPJ_J2K_MAXBANDS,
            t.stepsizes@.len() == OPJ_J2K_MAXBANDS,
            nb == info_bands(*t),
            steps == (nb < 97),
            mant@.len() == k,
            expn@.len() == k,
            forall|j: int|
                0 <= j < k ==> #[trigger] mant@[j] == if steps && j < nb {
                    t.stepsizes@[j].mant as u32
                } else {
                    0
                },
            forall|j: int|
                0 <= j < k ==> #[trigger] expn@[j] == if steps && j < nb {
                    t.stepsizes@[j].expn as u32
                } else {
                    0
                },
        decreases OPJ_J2K_MAXBANDS - k,
    {
        if steps && (k as i32) < nb {
            mant.push(t.stepsizes[k].mant as u32);
            expn.push(t.stepsizes[k].expn as u32);
        } else {
            mant.push(0);
            expn.push(0);
        }
        k = k + 1;
    }
    opj_tccp_info {
        compno: 0,
        csty: t.csty,
        numresolutions: t.numresolutions,
        cblkw: t.cblkw,
        cblkh: t.cblkh,
        cblksty: t.cblksty,
        qmfbid: t.qmfbid,
        prcw: table_copy(&t.prcw, t.numresolutions, prc),
        prch: table_copy(&t.prch, t.numresolutions, prc),
        qntsty: t.qntsty,
        numgbits: t.numgbits,
        stepsizes_mant: mant,
        stepsizes_expn: expn,
        roishift: t.roishift,
    }
}

/// The codestream information of a decoder: the tile grid of its coding
/// parameters, its number of components and the user's view of its default
/// tile parameters, component by component.
pub fn j2k_get_cstr_info(cp: &opj_cp, numcomps: u32, default_tcp: &opj_tcp) -> (r: opj_codestream_info_v2)
    requires
        numcomps <= default_tcp.tccps@.len(),
        forall|i: int| 0 <= i < numcomps ==> tccp_showable(#[trigger] default_tcp.tccps@[i]),
    ensures
        r.nbcomps == numcomps,
        r.tx0 == cp.tx0 && r.ty0 == cp.ty0 && r.tdx == cp.tdx && r.tdy == cp.tdy,
        r.tw == cp.tw && r.th == cp.th,
        r.m_default_tile_info.tileno == 0,
        r.m_default_tile_info.csty == default_tcp.csty,
        r.m_default_tile_info.prg == default_tcp.prg,
        r.m_default_tile_info.numlayers == default_tcp.numlayers,
        r.m_default_tile_info.mct == default_tcp.mct,
        r.m_default_tile_info.tccp_info@.len() == numcomps,
        forall|i: int|
            0 <= i < numcomps ==> tccp_info_of(
                #[trigger] r.m_default_tile_info.tccp_info@[i],
                default_tcp.tccps@[i],
            ),
{
    let mut infos: Vec<opj_tccp_info> = Vec::new();
    let mut i: u32 = 0;
    while i < numcomps
        invariant
            i <= numcomps <= default_tcp.tccps@.len(),
            forall|k: int| 0 <= k < numcomps ==> tccp_showable(#[trigger] default_tcp.tccps@[k]),
            infos@.len() == i,
            forall|k: int| 0 <= k < i ==> tccp_info_of(#[trigger] infos@[k], default_tcp.tccps@[k]),
        decreases numcomps - i,
    {
        infos.push(tccp_info(&default_tcp.tccps[i as usize]));
        i = i + 1;
    }
    opj_codestream_info_v2 {
        tx0: cp.tx0,
        ty0: cp.ty0,
        tdx: cp.tdx,
        tdy: cp.tdy,
        tw: cp.tw,
        th: cp.th,
        nbcomps: numcomps,
        m_default_tile_info: opj_tile_info_v2 {
            tileno: 0,
            csty: default_tcp.csty,
            prg: default_tcp.prg,
            numlayers: default_tcp.numlayers,
            mct: default_tcp.mct,
            tccp_info: infos,
        },
    }
}

} // verus!
