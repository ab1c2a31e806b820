//! Giving every tile the coding parameters of the main header once it is
//! read: each tile starts from a copy of the default tile parameters.
use vstd::prelude::*;

use crate::encoder::{opj_tccp, opj_tcp};
use crate::mct_records::opj_mct_data;

verus! {

/// A copy of the elements of `v`.
fn copy_vec<T: Copy>(v: &Vec<T>) -> (r: Vec<T>)
    ensures
        r@ == v@,
{
    let mut r: Vec<T> = Vec::new();
    let mut i: usize = 0;
    while i < v.len()
        invariant
            i <= v@.len(),
            r@ == v@.subrange(0, i as int),
        decreases v@.len() - i,
    {
        r.push(v[i]);
        i = i + 1;
        assert(r@ =~= v@.subrange(0, i as int));
    }
    assert(r@ =~= v@);
    r
}

/// Two components have the same coding parameters.
pub open spec fn tccp_same(a: opj_tccp, b: opj_tccp) -> bool {
    &&& a.csty == b.csty
    &&& a.numresolutions == b.numresolutions
    &&& a.cblkw == b.cblkw
    &&& a.cblkh == b.cblkh
    &&& a.cblksty == b.cblksty
    &&& a.qmfbid == b.qmfbid
    &&& a.qntsty == b.qntsty
    &&& a.numgbits == b.numgbits
    &&& a.roishift == b.roishift
    &&& a.prcw@ == b.prcw@
    &&& a.prch@ == b.prch@
    &&& a.stepsizes@ == b.stepsizes@
    &&& a.m_dc_level_shift == b.m_dc_level_shift
}

fn copy_tccp(t: &opj_tccp) -> (r: opj_tccp)
    ensures
        tccp_same(r, *t),
{
    opj_tccp {
        csty: t.csty,
        numresolutions: t.numresolutions,
        cblkw: t.cblkw,
        cblkh: t.cblkh,
        cblksty: t.cblksty,
        qmfbid: t.qmfbid,
        qntsty: t.qntsty,
        numgbits: t.numgbits,
        roishift: t.roishift,
        prcw: copy_vec(&t.prcw),
        prch: copy_vec(&t.prch),
        stepsizes: copy_vec(&t.stepsizes),
        m_dc_level_shift: t.m_dc_level_shift,
    }
}

/// Two MCT records are the same.
pub open spec fn mct_same(a: opj_mct_data, b: opj_mct_data) -> bool {
    &&& a.m_element_type == b.m_element_type
    &&& a.m_array_type == b.m_array_type
    &&& a.m_index == b.m_index
    &&& a.m_data@ == b.m_data@
}

fn copy_mct(m: &opj_mct_data) -> (r: opj_mct_data)
    ensures
        mct_same(r, *m),
{
    opj_mct_data {
        m_element_type: m.m_element_type,
        m_array_type: m.m_array_type,
        m_index: m.m_index,
        m_data: copy_vec(&m.m_data),
    }
}

/// A tile's parameters copied from the default ones: all of them, with no
/// COD segment of its own yet.
pub open spec fn tcp_from_default(n: opj_tcp, d: opj_tcp) -> bool {
    &&& !n.cod
    &&& n.numlayers == d.numlayers
    &&& n.num_layers_to_decode == d.num_layers_to_decode
    &&& n.csty == d.csty
    &&& n.prg == d.prg
    &&& n.mct == d.mct
    &&& n.POC == d.POC
    &&& n.numpocs == d.numpocs
    &&& n.pocs@ == d.pocs@
    &&& n.tccps@.len() == d.tccps@.len()
    &&& forall|i: int| 0 <= i < d.tccps@.len() ==> tccp_same(#[trigger] n.tccps@[i], d.tccps@[i])
    &&& n.m_nb_tile_parts == d.m_nb_tile_parts
    &&& n.m_mct_records@.len() == d.m_mct_records@.len()
    &&& forall|i: int|
        0 <= i < d.m_mct_records@.len() ==> mct_same(#[trigger] n.m_mct_records@[i], d.m_mct_records@[i])
    &&& n.m_mcc_records@ == d.m_mcc_records@
}

fn copy_default(d: &opj_tcp) -> (r: opj_tcp)
    ensures
        tcp_from_default(r, *d),
{
    let mut tccps: Vec<opj_tccp> = Vec::new();
    let mut i: usize = 0;
    while i < d.tccps.len()
        invariant
            i <= d.tccps@.len(),
            tccps@.len() == i,
            forall|k: int| 0 <= k < i ==> tccp_same(#[trigger] tccps@[k], d.tccps@[k]),
        decreases d.tccps@.len() - i,
    {
        tccps.push(copy_tccp(&d.tccps[i]));
        i = i + 1;
    }
    let mut mct: Vec<opj_mct_data> = Vec::new();
    let mut j: usize = 0;
    while j < d.m_mct_records.len()
        invariant
            j <= d.m_mct_records@.len(),
            mct@.len() == j,
            forall|k: int| 0 <= k < j ==> mct_same(#[trigger] mct@[k], d.m_mct_records@[k]),
        decreases d.m_mct_records@.len() - j,
    {
        mct.push(copy_mct(&d.m_mct_records[j]));
        j = j + 1;
    }
    opj_tcp {
        cod: false,
        numlayers: d.numlayers,
        num_layers_to_decode: d.num_layers_to_decode,
        csty: d.csty,
        prg: d.prg,
        mct: d.mct,
        POC: d.POC,
        numpocs: d.numpocs,
        pocs: copy_vec(&d.pocs),
        tccps,
        m_nb_tile_parts: d.m_nb_tile_parts,
        m_mct_records: mct,
        m_mcc_records: copy_vec(&d.m_mcc_records),
    }
}

/// Gives every tile a copy of the default coding parameters that the main
/// header set: its components, its MCT records and its collections (which
/// keep pointing at the same records), with no COD segment of its own yet.
pub fn opj_j2k_copy_default_tcp(default_tcp: &opj_tcp, tcps: &mut Vec<opj_tcp>)
    ensures
        final(tcps)@.len() == old(tcps)@.len(),
        forall|i: int| 0 <= i < old(tcps)@.len() ==> tcp_from_default(#[trigger] final(tcps)@[i], *default_tcp),
{
    let n = tcps.len();
    let mut v: Vec<opj_tcp> = Vec::new();
    let mut i: usize = 0;
    while i < n
        invariant
            i <= n,
            v@.len() == i,
            forall|k: int| 0 <= k < i ==> tcp_from_default(#[trigger] v@[k], *default_tcp),
        decreases n - i,
    {
        v.push(copy_default(default_tcp));
        i = i + 1;
    }
    *tcps = v;
}

} // verus!
