//! The MCO marker segment of a decoder: which multiple component collection
//! the decoded components go through, and what that collection makes of the
//! tile: its decoding matrix and the offsets of its components.
use vstd::prelude::*;

use crate::cio::be_value;
use crate::encoder::opj_tcp;
use crate::j2k::{
    mct_element_size, opj_j2k_read_int16_to_int32, opj_j2k_read_int32_to_int32, MCTElementType,
};
use crate::mcc::opj_mcc_record;
use crate::mct_records::opj_mct_data;

verus! {

/// What applying a collection to a tile did. The decoding matrix and the
/// offsets read as real numbers are built by the caller from the MCT
/// records named here.
#[derive(Clone, Copy, Debug, PartialEq, Eq, Structural)]
pub enum McoApply {
    /// The first collection has another index, or does not transform every
    /// component: nothing changes.
    Discarded,
    /// An array has not the size that the components need: the collection
    /// is refused; `matrix` names the MCT record that the decoding matrix
    /// was already taken from.
    Refused { matrix: Option<usize> },
    /// The collection applies: its decoding matrix is taken from the MCT
    /// record `matrix`; integer offsets become the components' level shifts
    /// here, real ones (`real_offsets`) are left to the caller.
    Applied { matrix: Option<usize>, real_offsets: Option<usize> },
}

/// An MCT record holds the elements for `count` values.
pub open spec fn array_fits(rec: opj_mct_data, count: u32) -> bool {
    rec.m_data@.len() == mct_element_size(rec.m_element_type).wrapping_mul(count)
}

/// What applying the collection with index `index` does, for an image of
/// `n` components. Only the first collection of the tile is looked at.
pub open spec fn add_mct_result(mcc: Seq<opj_mcc_record>, mct: Seq<opj_mct_data>, n: u32, index: u32) -> McoApply {
    if mcc.len() == 0 || mcc[0].m_index != index || mcc[0].m_nb_comps != n {
        McoApply::Discarded
    } else {
        let rec = mcc[0];
        let deco_ok = match rec.m_decorrelation_array {
            None => true,
            Some(p) => array_fits(mct[p as int], n.wrapping_mul(n)),
        };
        if !deco_ok {
            McoApply::Refused { matrix: None }
        } else {
            match rec.m_offset_array {
                None => McoApply::Applied { matrix: rec.m_decorrelation_array, real_offsets: None },
                Some(q) => if !array_fits(mct[q as int], n) {
                    McoApply::Refused { matrix: rec.m_decorrelation_array }
                } else {
                    McoApply::Applied {
                        matrix: rec.m_decorrelation_array,
                        real_offsets: if is_integer(mct[q as int].m_element_type) {
                            None
                        } else {
                            Some(q)
                        },
                    }
                },
            }
        }
    }
}

/// The element types read without real numbers.
pub open spec fn is_integer(t: MCTElementType) -> bool {
    t == MCTElementType::INT16 || t == MCTElementType::INT32
}

/// Value `j` of an array of integer elements, as a level shift.
pub open spec fn int_element(rec: opj_mct_data, j: int) -> i32 {
    if rec.m_element_type == MCTElementType::INT16 {
        be_value(rec.m_data@.subrange(2 * j, 2 * j + 2)) as i32
    } else {
        (be_value(rec.m_data@.subrange(4 * j, 4 * j + 4)) as u32) as i32
    }
}

/// The level shifts of the components once the collection is applied
/// (after those of the first `n` components are reset to zero when
/// `reset`): those of the integer offset array for the first `n`, when it
/// has one; the others kept. Nothing else of the tile changes.
pub open spec fn shifts_after(
    t: opj_tcp,
    o: opj_tcp,
    mcc: Seq<opj_mcc_record>,
    mct: Seq<opj_mct_data>,
    n: u32,
    r: McoApply,
    reset: bool,
) -> bool {
    &&& t.tccps@.len() == o.tccps@.len()
    &&& forall|j: int|
        0 <= j < o.tccps@.len() ==> {
            let ot = #[trigger] o.tccps@[j];
            let nt = t.tccps@[j];
            let set = r matches McoApply::Applied { real_offsets: None, .. } && mcc[0].m_offset_array
                is Some && j < n;
            &&& nt == (crate::encoder::opj_tccp { m_dc_level_shift: nt.m_dc_level_shift, ..ot })
            &&& nt.m_dc_level_shift == if set {
                int_element(mct[mcc[0].m_offset_array.unwrap() as int], j)
            } else if reset && j < n {
                0
            } else {
                ot.m_dc_level_shift
            }
        }
    &&& t == (opj_tcp { tccps: t.tccps, ..o })
}

/// The collections of a tile point into its MCT records.
pub open spec fn collections_point(mcc: Seq<opj_mcc_record>, mct: Seq<opj_mct_data>) -> bool {
    forall|i: int|
        0 <= i < mcc.len() ==> {
            &&& (#[trigger] mcc[i]).m_decorrelation_array matches Some(p) ==> p < mct.len()
            &&& mcc[i].m_offset_array matches Some(p) ==> p < mct.len()
        }
}

/// Applies the collection with index `index` to a tile of an image of
/// `nb_comps` components.
pub fn opj_j2k_add_mct(
    tcp: &mut opj_tcp,
    mcc: &Vec<opj_mcc_record>,
    mct: &Vec<opj_mct_data>,
    nb_comps: u32,
    index: u32,
) -> (r: McoApply)
    requires
        collections_point(mcc@, mct@),
        nb_comps <= old(tcp).tccps@.len(),
        nb_comps <= 16384,
    ensures
        r == add_mct_result(mcc@, mct@, nb_comps, index),
        shifts_after(*final(tcp), *old(tcp), mcc@, mct@, nb_comps, r, false),
{
    if mcc.len() == 0 || mcc[0].m_index != index || mcc[0].m_nb_comps != nb_comps {
        return McoApply::Discarded;
    }
    let rec = mcc[0];
    if let Some(p) = rec.m_decorrelation_array {
        let a = &mct[p];
        if a.m_data.len() as u64 != a.m_element_type.size().wrapping_mul(nb_comps.wrapping_mul(nb_comps))
            as u64 {
            return McoApply::Refused { matrix: None };
        }
    }
    match rec.m_offset_array {
        None => McoApply::Applied { matrix: rec.m_decorrelation_array, real_offsets: None },
        Some(q) => {
            let a = &mct[q];
            if a.m_data.len() as u64 != a.m_element_type.size().wrapping_mul(nb_comps) as u64 {
                return McoApply::Refused { matrix: rec.m_decorrelation_array };
            }
            if a.m_element_type == MCTElementType::INT16 || a.m_element_type == MCTElementType::INT32 {
                let mut vals: Vec<i32> = Vec::new();
                let mut k: u32 = 0;
                while k < nb_comps
                    invariant
                        k <= nb_comps,
                        vals@.len() == k,
                    decreases nb_comps - k,
                {
                    vals.push(0);
                    k = k + 1;
                }
                if a.m_element_type == MCTElementType::INT16 {
                    opj_j2k_read_int16_to_int32(a.m_data.as_slice(), vals.as_mut_slice(), nb_comps);
                } else {
                    opj_j2k_read_int32_to_int32(a.m_data.as_slice(), vals.as_mut_slice(), nb_comps);
                }
                let ghost o = tcp.tccps@;
                let ghost t0 = *tcp;
                let mut j: u32 = 0;
                while j < nb_comps
                    invariant
                        j <= nb_comps <= o.len(),
                        vals@.len() == nb_comps,
                        tcp.tccps@.len() == o.len(),
                        *tcp == (opj_tcp { tccps: tcp.tccps, ..t0 }),
                        forall|i: int| 0 <= i < nb_comps ==> #[trigger] vals@[i] == int_element(*a, i),
                        forall|i: int|
                            0 <= i < o.len() ==> #[trigger] tcp.tccps@[i] == (crate::encoder::opj_tccp {
                                m_dc_level_shift: if i < j {
                                    vals@[i]
                                } else {
                                    o[i].m_dc_level_shift
                                },
                                ..o[i]
                            }),
                    decreases nb_comps - j,
                {
                    let mut t = tcp.tccps.remove(j as usize);
                    t.m_dc_level_shift = vals[j as usize];
                    tcp.tccps.insert(j as usize, t);
                    j = j + 1;
                }
                McoApply::Applied { matrix: rec.m_decorrelation_array, real_offsets: None }
            } else {
                McoApply::Applied { matrix: rec.m_decorrelation_array, real_offsets: Some(q) }
            }
        },
    }
}

/// What reading an MCO segment did.
#[derive(Clone, Copy, Debug, PartialEq, Eq, Structural)]
pub enum McoRead {
    /// The segment is empty, or has not the length that its number of
    /// stages gives: refused, nothing changes.
    Refused,
    /// More than one transformation stage: ignored, nothing changes.
    Ignored,
    /// The level shifts of the components were reset and the decoding
    /// matrix dropped; then the stage, when there is one, applied the
    /// collection it names, with this outcome.
    Read(Option<McoApply>),
}

/// What reading the MCO segment of `size` bytes does.
pub open spec fn mco_result(d: Seq<u8>, size: u32, mcc: Seq<opj_mcc_record>, mct: Seq<opj_mct_data>, n: u32) -> McoRead {
    if size < 1 {
        McoRead::Refused
    } else if d[0] > 1 {
        McoRead::Ignored
    } else if size != d[0] + 1 {
        McoRead::Refused
    } else if d[0] == 1 {
        McoRead::Read(Some(add_mct_result(mcc, mct, n, d[1] as u32)))
    } else {
        McoRead::Read(None)
    }
}

/// Reads an MCO segment (the `size` bytes of `data`) for a tile of an image
/// of `nb_comps` components, given its collections and MCT records.
pub fn opj_j2k_read_mco(
    tcp: &mut opj_tcp,
    mcc: &Vec<opj_mcc_record>,
    mct: &Vec<opj_mct_data>,
    nb_comps: u32,
    data: &[u8],
    size: u32,
) -> (r: McoRead)
    requires
        size <= data@.len(),
        collections_point(mcc@, mct@),
        nb_comps <= old(tcp).tccps@.len(),
        nb_comps <= 16384,
    ensures
        r == mco_result(data@, size, mcc@, mct@, nb_comps),
        match r {
            McoRead::Read(Some(a)) => shifts_after(*final(tcp), *old(tcp), mcc@, mct@, nb_comps, a, true),
            McoRead::Read(None) => shifts_after(
                *final(tcp),
                *old(tcp),
                mcc@,
                mct@,
                nb_comps,
                McoApply::Discarded,
                true,
            ),
            _ => *final(tcp) == *old(tcp),
        },
{
    if size < 1 {
        return McoRead::Refused;
    }
    let nb_stages = data[0] as u32;
    if nb_stages > 1 {
        return McoRead::Ignored;
    }
    if size != nb_stages + 1 {
        return McoRead::Refused;
    }
    let ghost o = tcp.tccps@;
    let ghost t0 = *tcp;
    let mut j: u32 = 0;
    while j < nb_comps
        invariant
            j <= nb_comps <= o.len(),
            tcp.tccps@.len() == o.len(),
            *tcp == (opj_tcp { tccps: tcp.tccps, ..t0 }),
            forall|i: int|
                0 <= i < o.len() ==> #[trigger] tcp.tccps@[i] == (crate::encoder::opj_tccp {
                    m_dc_level_shift: if i < j {
                        0
                    } else {
                        o[i].m_dc_level_shift
                    },
                    ..o[i]
                }),
        decreases nb_comps - j,
    {
        let mut t = tcp.tccps.remove(j as usize);
        t.m_dc_level_shift = 0;
        tcp.tccps.insert(j as usize, t);
        j = j + 1;
    }
    if nb_stages == 1 {
        let ghost mid = *tcp;
        let a = opj_j2k_add_mct(tcp, mcc, mct, nb_comps, data[1] as u32);
        assert forall|i: int| 0 <= i < o.len() implies {
            let ot = #[trigger] t0.tccps@[i];
            let nt = tcp.tccps@[i];
            let set = a matches McoApply::Applied { real_offsets: None, .. }
                && mcc@[0].m_offset_array is Some && i < nb_comps;
            &&& nt == (crate::encoder::opj_tccp { m_dc_level_shift: nt.m_dc_level_shift, ..ot })
            &&& nt.m_dc_level_shift == if set {
                int_element(mct@[mcc@[0].m_offset_array.unwrap() as int], i)
            } else if i < nb_comps {
                0
            } else {
                ot.m_dc_level_shift
            }
        } by {
            assert(mid.tccps@[i] == (crate::encoder::opj_tccp {
                m_dc_level_shift: if i < nb_comps {
                    0
                } else {
                    o[i].m_dc_level_shift
                },
                ..o[i]
            }));
        }
        assert(*tcp == (opj_tcp { tccps: tcp.tccps, ..t0 }));
        assert(tcp.tccps@.len() == t0.tccps@.len());
        assert(shifts_after(*tcp, t0, mcc@, mct@, nb_comps, a, true));
        McoRead::Read(Some(a))
    } else {
        McoRead::Read(None)
    }
}

} // verus!
