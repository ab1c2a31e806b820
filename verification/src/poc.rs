//! Progression order changes of a tile, as the POC marker segment carries
//! them.
use vstd::prelude::*;

use crate::cio::{be_bytes, lemma_be_bytes, push_be};
use crate::coding::{at, at16, comp_room};
use crate::comp_segments::{grow, grown, overwrite_prefix, overwritten};
use crate::encoder::opj_tcp;
use crate::params::{opj_poc, J2K_MAX_POCS};

verus! {

/// Why a POC segment was refused.
#[derive(Clone, Copy, Debug, PartialEq, Eq, Structural)]
pub enum PocError {
    /// The segment holds no change, or a part of one.
    BadLength,
    /// The tile would have 32 changes or more.
    TooManyPocs,
}

/// A component number of `room` bytes at `i`.
pub open spec fn comp_field(d: Seq<u8>, i: int, room: int) -> int {
    if room == 1 {
        at(d, i)
    } else {
        at16(d, i)
    }
}

/// The bytes one change takes in a POC segment.
pub open spec fn poc_chunk(room: int) -> int {
    5 + 2 * room
}

/// A change that covers nothing, which the fields a segment carries are
/// written over.
pub open spec fn poc_zero() -> opj_poc {
    opj_poc {
        resno0: 0,
        compno0: 0,
        layno1: 0,
        resno1: 0,
        compno1: 0,
        layno0: 0,
        precno0: 0,
        precno1: 0,
        prg1: 0,
        prg: 0,
        tile: 0,
        compE: 0,
        resE: 0,
        prcE: 0,
        layE: 0,
    }
}

/// Change `j` of a POC segment, in a tile of `numlayers` layers and an
/// image of `numcomps` components: its last layer and component are cut to
/// those the tile has.
pub open spec fn poc_entry(d: Seq<u8>, j: int, room: int, numlayers: u32, numcomps: u32) -> opj_poc {
    let b = j * poc_chunk(room);
    let layno1 = at16(d, b + 1 + room);
    let compno1 = comp_field(d, b + 4 + room, room);
    opj_poc {
        resno0: at(d, b) as u32,
        compno0: comp_field(d, b + 1, room) as u32,
        layno1: if layno1 < numlayers {
            layno1 as u32
        } else {
            numlayers
        },
        resno1: at(d, b + 3 + room) as u32,
        compno1: if compno1 < numcomps {
            compno1 as u32
        } else {
            numcomps
        },
        prg: at(d, b + 4 + 2 * room) as i32,
        ..poc_zero()
    }
}

/// The number of changes a tile has.
pub open spec fn poc_count(tcp: opj_tcp) -> int {
    if tcp.POC {
        tcp.numpocs + 1
    } else {
        0
    }
}

/// How a POC segment of `size` bytes is refused for a tile that has
/// `old_nb` changes, in an image of `numcomps` components.
pub open spec fn poc_error(old_nb: int, numcomps: int, size: int) -> Option<PocError> {
    let chunk = poc_chunk(comp_room(numcomps));
    if size / chunk == 0 || size % chunk != 0 {
        Some(PocError::BadLength)
    } else if size / chunk + old_nb >= J2K_MAX_POCS {
        Some(PocError::TooManyPocs)
    } else {
        None
    }
}

/// Reads a POC segment of `size` bytes for a tile in an image of `numcomps`
/// components: the changes it carries follow those the tile has. When the
/// segment is refused nothing changes.
pub fn opj_j2k_read_poc(tcp: &mut opj_tcp, numcomps: u32, data: &[u8], size: u32) -> (r: Result<
    (),
    PocError,
>)
    requires
        size <= data@.len(),
        old(tcp).POC ==> old(tcp).numpocs < J2K_MAX_POCS,
        old(tcp).pocs@.len() == poc_count(*old(tcp)),
    ensures
        match poc_error(poc_count(*old(tcp)), numcomps as int, size as int) {
            Some(e) => r == Err::<(), PocError>(e) && *final(tcp) == *old(tcp),
            None => {
                let room = comp_room(numcomps as int);
                let n = size as int / poc_chunk(room);
                let old_nb = poc_count(*old(tcp));
                &&& r is Ok
                &&& final(tcp).POC
                &&& final(tcp).numpocs == old_nb + n - 1
                &&& final(tcp).pocs@ == old(tcp).pocs@ + Seq::new(
                    n as nat,
                    |j: int| poc_entry(data@, j, room, old(tcp).numlayers, numcomps),
                )
                &&& *final(tcp) == (opj_tcp {
                    POC: true,
                    numpocs: final(tcp).numpocs,
                    pocs: final(tcp).pocs,
                    ..*old(tcp)
                })
            },
        },
{
    let room: u32 = if numcomps <= 256 {
        1
    } else {
        2
    };
    let chunk: u32 = 5 + 2 * room;
    let n = size / chunk;
    if n == 0 || size % chunk != 0 {
        return Err(PocError::BadLength);
    }
    let old_nb: u32 = if tcp.POC {
        tcp.numpocs + 1
    } else {
        0
    };
    if n >= 32 || n + old_nb >= 32 {
        return Err(PocError::TooManyPocs);
    }
    let ghost old_pocs = tcp.pocs@;
    let ghost d = data@;
    let numlayers = tcp.numlayers;
    let dlen = data.len();
    let mut pocs = Vec::new();
    std::mem::swap(&mut pocs, &mut tcp.pocs);
    let mut j: u32 = 0;
    while j < n
        invariant
            j <= n,
            n == size / chunk,
            chunk == poc_chunk(room as int),
            room == comp_room(numcomps as int),
            size <= d.len() == dlen,
            d == data@,
            pocs@.len() == old_pocs.len() + j,
            pocs@ == old_pocs + Seq::new(
                j as nat,
                |k: int| poc_entry(d, k, room as int, numlayers, numcomps),
            ),
        decreases n - j,
    {
        proof {
            assert((j + 1) * chunk <= n * chunk) by (nonlinear_arith)
                requires
                    j < n,
            ;
            assert(n * chunk <= size) by (nonlinear_arith)
                requires
                    n == size / chunk,
                    chunk > 0,
            ;
            assert((j + 1) * chunk == j * chunk + chunk) by (nonlinear_arith);
        }
        let b: usize = (j * chunk) as usize;
        let r = room as usize;
        let compno0: u32 = if room == 1 {
            data[b + 1] as u32
        } else {
            data[b + 1] as u32 * 256 + data[b + 2] as u32
        };
        let layno1: u32 = data[b + 1 + r] as u32 * 256 + data[b + 2 + r] as u32;
        let compno1: u32 = if room == 1 {
            data[b + 4 + r] as u32
        } else {
            data[b + 4 + r] as u32 * 256 + data[b + 5 + r] as u32
        };
        let mut p = opj_poc::default();
        p.resno0 = data[b] as u32;
        p.compno0 = compno0;
        p.layno1 = if layno1 < numlayers {
            layno1
        } else {
            numlayers
        };
        p.resno1 = data[b + 3 + r] as u32;
        p.compno1 = if compno1 < numcomps {
            compno1
        } else {
            numcomps
        };
        p.prg = data[b + 4 + 2 * r] as i32;
        assert(p == poc_entry(d, j as int, room as int, numlayers, numcomps));
        pocs.push(p);
        assert(pocs@ =~= old_pocs + Seq::new(
            (j + 1) as nat,
            |k: int| poc_entry(d, k, room as int, numlayers, numcomps),
        ));
        j = j + 1;
    }
    tcp.pocs = pocs;
    tcp.POC = true;
    tcp.numpocs = old_nb + n - 1;
    Ok(())
}

/// The marker of a POC segment.
pub const J2K_MS_POC: u32 = 0xff5f;

/// One change as a POC segment writes it, with component numbers of `room`
/// bytes; each field is cut to the bytes it takes.
pub open spec fn poc_entry_bytes(p: opj_poc, room: int) -> Seq<u8> {
    be_bytes(p.resno0 as nat, 1) + be_bytes(p.compno0 as nat, room as nat) + be_bytes(
        p.layno1 as nat,
        2,
    ) + be_bytes(p.resno1 as nat, 1) + be_bytes(p.compno1 as nat, room as nat) + be_bytes(
        (p.prg as u32) as nat,
        1,
    )
}

/// The first `n` changes as a POC segment writes them.
pub open spec fn poc_body(pocs: Seq<opj_poc>, n: int, room: int) -> Seq<u8>
    decreases n,
{
    if n <= 0 {
        Seq::empty()
    } else {
        poc_body(pocs, n - 1, room) + poc_entry_bytes(pocs[n - 1], room)
    }
}

/// The smaller of two numbers taken as signed 32-bit integers, back as
/// unsigned.
pub open spec fn smaller_as_i32(a: u32, b: u32) -> u32 {
    if (a as i32) < (b as i32) {
        (a as i32) as u32
    } else {
        (b as i32) as u32
    }
}

/// A change after it was written: its last layer, resolution and component
/// cut to those of the tile, its first component and the image.
pub open spec fn poc_clamped(p: opj_poc, numlayers: u32, numres: u32, numcomps: u32) -> opj_poc {
    opj_poc {
        layno1: smaller_as_i32(p.layno1, numlayers),
        resno1: smaller_as_i32(p.resno1, numres),
        compno1: smaller_as_i32(p.compno1, numcomps),
        ..p
    }
}

fn smaller_as_i32_exec(a: u32, b: u32) -> (r: u32)
    ensures
        r == smaller_as_i32(a, b),
{
    if (a as i32) < (b as i32) {
        (a as i32) as u32
    } else {
        (b as i32) as u32
    }
}

/// Writes the POC segment of a tile in an image of `numcomps` components:
/// every change it has. Once written, the last layer, resolution and
/// component of each change are cut to those of the tile, its first
/// component and the image.
pub fn opj_j2k_write_poc_in_memory(tcp: &mut opj_tcp, numcomps: u32) -> (r: Vec<u8>)
    requires
        old(tcp).numpocs < J2K_MAX_POCS,
        old(tcp).pocs@.len() > old(tcp).numpocs,
        old(tcp).tccps@.len() >= 1,
    ensures
        ({
            let room = comp_room(numcomps as int);
            let nb = old(tcp).numpocs + 1;
            &&& r@ == be_bytes(J2K_MS_POC as nat, 2) + be_bytes(
                (2 + poc_chunk(room) * nb) as nat,
                2,
            ) + poc_body(old(tcp).pocs@, nb, room)
            &&& final(tcp).pocs@.len() == old(tcp).pocs@.len()
            &&& forall|k: int|
                0 <= k < old(tcp).pocs@.len() ==> #[trigger] final(tcp).pocs@[k] == if k < nb {
                    poc_clamped(
                        old(tcp).pocs@[k],
                        old(tcp).numlayers,
                        old(tcp).tccps@[0].numresolutions,
                        numcomps,
                    )
                } else {
                    old(tcp).pocs@[k]
                }
            &&& *final(tcp) == (opj_tcp { pocs: final(tcp).pocs, ..*old(tcp) })
        }),
{
    let room: u32 = if numcomps <= 256 {
        1
    } else {
        2
    };
    let nb = tcp.numpocs + 1;
    let chunk: u32 = 5 + 2 * room;
    assert(chunk * nb <= 9 * 32) by (nonlinear_arith)
        requires
            chunk <= 9,
            nb <= 32,
    ;
    let mut out: Vec<u8> = Vec::new();
    push_be(&mut out, J2K_MS_POC, 2);
    push_be(&mut out, 2 + chunk * nb, 2);
    let ghost head = out@;
    let ghost old_pocs = tcp.pocs@;
    let numlayers = tcp.numlayers;
    let numres = tcp.tccps[0].numresolutions;
    let mut pocs = Vec::new();
    std::mem::swap(&mut pocs, &mut tcp.pocs);
    let mut i: u32 = 0;
    while i < nb
        invariant
            i <= nb <= old_pocs.len(),
            room == comp_room(numcomps as int),
            pocs@.len() == old_pocs.len(),
            out@ == head + poc_body(old_pocs, i as int, room as int),
            forall|k: int|
                0 <= k < old_pocs.len() ==> #[trigger] pocs@[k] == if k < i {
                    poc_clamped(old_pocs[k], numlayers, numres, numcomps)
                } else {
                    old_pocs[k]
                },
        decreases nb - i,
    {
        let mut p = pocs.remove(i as usize);
        assert(p == old_pocs[i as int]);
        let ghost before = out@;
        push_be(&mut out, p.resno0, 1);
        push_be(&mut out, p.compno0, room as usize);
        push_be(&mut out, p.layno1, 2);
        push_be(&mut out, p.resno1, 1);
        push_be(&mut out, p.compno1, room as usize);
        push_be(&mut out, p.prg as u32, 1);
        assert(out@ =~= before + poc_entry_bytes(old_pocs[i as int], room as int));
        p.layno1 = smaller_as_i32_exec(p.layno1, numlayers);
        p.resno1 = smaller_as_i32_exec(p.resno1, numres);
        p.compno1 = smaller_as_i32_exec(p.compno1, numcomps);
        pocs.insert(i as usize, p);
        assert(pocs@.len() == old_pocs.len());
        i = i + 1;
    }
    tcp.pocs = pocs;
    proof {
        assert(tcp.pocs@ =~= tcp.pocs@);
    }
    out
}

/// The bytes the largest POC segment of the tiles takes: four, and nine per
/// change of the tile with the most.
pub open spec fn max_poc_size(tcps: Seq<opj_tcp>) -> int
    decreases tcps.len(),
{
    if tcps.len() == 0 {
        13int
    } else {
        let rest = max_poc_size(tcps.drop_last());
        let mine = 4 + 9 * (tcps.last().numpocs + 1);
        if mine > rest {
            mine
        } else {
            rest
        }
    }
}

/// The number of bytes the largest POC segment of the tiles takes.
pub fn opj_j2k_get_max_poc_size(tcps: &Vec<opj_tcp>) -> (r: u32)
    requires
        forall|i: int| 0 <= i < tcps@.len() ==> (#[trigger] tcps@[i]).numpocs < J2K_MAX_POCS,
    ensures
        r == max_poc_size(tcps@),
{
    let mut max: u32 = 0;
    let mut i: usize = 0;
    while i < tcps.len()
        invariant
            i <= tcps@.len(),
            forall|k: int| 0 <= k < tcps@.len() ==> (#[trigger] tcps@[k]).numpocs < J2K_MAX_POCS,
            max < J2K_MAX_POCS,
            4 + 9 * (max + 1) == max_poc_size(tcps@.subrange(0, i as int)),
        decreases tcps@.len() - i,
    {
        assert(tcps@.subrange(0, i as int + 1).drop_last() =~= tcps@.subrange(0, i as int));
        if tcps[i].numpocs > max {
            max = tcps[i].numpocs;
        }
        i = i + 1;
    }
    assert(tcps@.subrange(0, tcps@.len() as int) =~= tcps@);
    4 + 9 * (max + 1)
}

/// Builds the POC segment of a tile in the header buffer, growing it when
/// it is too short, and returns the bytes to send: the segment (see
/// `opj_j2k_write_poc_in_memory`, whose changes to the tile it makes).
pub fn opj_j2k_write_poc(tcp: &mut opj_tcp, numcomps: u32, buf: &mut Vec<u8>) -> (r: Vec<u8>)
    requires
        old(tcp).numpocs < J2K_MAX_POCS,
        old(tcp).pocs@.len() > old(tcp).numpocs,
        old(tcp).tccps@.len() >= 1,
    ensures
        ({
            let room = comp_room(numcomps as int);
            let nb = old(tcp).numpocs + 1;
            &&& r@ == be_bytes(J2K_MS_POC as nat, 2) + be_bytes(
                (2 + poc_chunk(room) * nb) as nat,
                2,
            ) + poc_body(old(tcp).pocs@, nb, room)
            &&& final(buf)@ == overwritten(grown(old(buf)@, r@.len() as int), r@)
            &&& final(tcp).pocs@.len() == old(tcp).pocs@.len()
            &&& forall|k: int|
                0 <= k < old(tcp).pocs@.len() ==> #[trigger] final(tcp).pocs@[k] == if k < nb {
                    poc_clamped(
                        old(tcp).pocs@[k],
                        old(tcp).numlayers,
                        old(tcp).tccps@[0].numresolutions,
                        numcomps,
                    )
                } else {
                    old(tcp).pocs@[k]
                }
            &&& *final(tcp) == (opj_tcp { pocs: final(tcp).pocs, ..*old(tcp) })
        }),
{
    let seg = opj_j2k_write_poc_in_memory(tcp, numcomps);
    grow(buf, seg.len());
    overwrite_prefix(buf, &seg);
    seg
}

/// A change whose fields fit the bytes a POC segment gives them, with
/// component numbers of `room` bytes.
pub open spec fn poc_fits(p: opj_poc, room: int) -> bool {
    let cmax: int = if room == 1 {
        256
    } else {
        65536
    };
    &&& p.resno0 < 256
    &&& p.compno0 < cmax
    &&& p.layno1 < 65536
    &&& p.resno1 < 256
    &&& p.compno1 < cmax
    &&& 0 <= p.prg < 256
}

/// A change as reading it back gives it, in a tile of `numlayers` layers
/// and an image of `numcomps` components: its fields, the last layer and
/// component cut to those the tile has, nothing else.
pub open spec fn poc_read_back(p: opj_poc, numlayers: u32, numcomps: u32) -> opj_poc {
    opj_poc {
        resno0: p.resno0,
        compno0: p.compno0,
        layno1: if p.layno1 < numlayers {
            p.layno1
        } else {
            numlayers
        },
        resno1: p.resno1,
        compno1: if p.compno1 < numcomps {
            p.compno1
        } else {
            numcomps
        },
        prg: p.prg,
        ..poc_zero()
    }
}

proof fn lemma_poc_entry_len(p: opj_poc, room: int)
    requires
        room == 1 || room == 2,
    ensures
        poc_entry_bytes(p, room).len() == poc_chunk(room),
{
    lemma_be_bytes(p.resno0 as nat, 1);
    lemma_be_bytes(p.compno0 as nat, room as nat);
    lemma_be_bytes(p.layno1 as nat, 2);
    lemma_be_bytes(p.resno1 as nat, 1);
    lemma_be_bytes(p.compno1 as nat, room as nat);
    lemma_be_bytes((p.prg as u32) as nat, 1);
}

proof fn lemma_poc_body_len(pocs: Seq<opj_poc>, n: int, room: int)
    requires
        room == 1 || room == 2,
        0 <= n,
    ensures
        poc_body(pocs, n, room).len() == n * poc_chunk(room),
    decreases n,
{
    if n > 0 {
        lemma_poc_body_len(pocs, n - 1, room);
        lemma_poc_entry_len(pocs[n - 1], room);
        assert(poc_body(pocs, n, room) == poc_body(pocs, n - 1, room) + poc_entry_bytes(
            pocs[n - 1],
            room,
        ));
        assert(n * poc_chunk(room) == (n - 1) * poc_chunk(room) + poc_chunk(room)) by (nonlinear_arith);
    } else {
        assert(n * poc_chunk(room) == 0) by (nonlinear_arith)
            requires
                n == 0,
        ;
    }
}

proof fn lemma_poc_body_chunk(pocs: Seq<opj_poc>, n: int, room: int, j: int, k: int)
    requires
        room == 1 || room == 2,
        0 <= j < n,
        0 <= k < poc_chunk(room),
    ensures
        poc_body(pocs, n, room)[j * poc_chunk(room) + k] == poc_entry_bytes(pocs[j], room)[k],
    decreases n,
{
    let c = poc_chunk(room);
    lemma_poc_body_len(pocs, n - 1, room);
    lemma_poc_entry_len(pocs[n - 1], room);
    let prev = poc_body(pocs, n - 1, room);
    let last = poc_entry_bytes(pocs[n - 1], room);
    assert(poc_body(pocs, n, room) == prev + last);
    if j < n - 1 {
        assert(j * c + k < (n - 1) * c) by (nonlinear_arith)
            requires
                j < n - 1,
                k < c,
                c > 0,
        ;
        lemma_poc_body_chunk(pocs, n - 1, room, j, k);
        assert((prev + last)[j * c + k] == prev[j * c + k]);
    } else {
        assert(j * c == (n - 1) * c);
        assert((prev + last)[j * c + k] == last[k]);
    }
}

proof fn lemma_poc_entry_fields(p: opj_poc, room: int)
    requires
        room == 1 || room == 2,
        poc_fits(p, room),
    ensures
        ({
            let e = poc_entry_bytes(p, room);
            &&& e.len() == poc_chunk(room)
            &&& at(e, 0) == p.resno0
            &&& comp_field(e, 1, room) == p.compno0
            &&& at16(e, 1 + room) == p.layno1
            &&& at(e, 3 + room) == p.resno1
            &&& comp_field(e, 4 + room, room) == p.compno1
            &&& at(e, 4 + 2 * room) == p.prg
        }),
{
    reveal_with_fuel(be_bytes, 3);
    lemma_be_bytes(p.compno0 as nat, room as nat);
    lemma_be_bytes(p.compno1 as nat, room as nat);
    let e = poc_entry_bytes(p, room);
    assert((p.prg as u32) as int == p.prg);
}

/// Reading back the body of the POC segment written for the first `nb`
/// changes of a tile, into a tile with no changes, is accepted and gives
/// each change back, its last layer and component cut to those of the
/// tile, when every field fits the bytes it is written in.
pub proof fn lemma_poc_roundtrip(pocs: Seq<opj_poc>, nb: int, numlayers: u32, numcomps: u32)
    requires
        1 <= nb <= pocs.len(),
        nb < J2K_MAX_POCS,
        forall|j: int| 0 <= j < nb ==> poc_fits(#[trigger] pocs[j], comp_room(numcomps as int)),
    ensures
        ({
            let room = comp_room(numcomps as int);
            let body = poc_body(pocs, nb, room);
            &&& poc_error(0, numcomps as int, body.len() as int) is None
            &&& body.len() as int / poc_chunk(room) == nb
            &&& forall|j: int|
                0 <= j < nb ==> #[trigger] poc_entry(body, j, room, numlayers, numcomps)
                    == poc_read_back(pocs[j], numlayers, numcomps)
        }),
{
    let room = comp_room(numcomps as int);
    let c = poc_chunk(room);
    let body = poc_body(pocs, nb, room);
    lemma_poc_body_len(pocs, nb, room);
    vstd::arithmetic::div_mod::lemma_fundamental_div_mod_converse(body.len() as int, c, nb, 0);
    assert forall|j: int| 0 <= j < nb implies #[trigger] poc_entry(body, j, room, numlayers, numcomps)
        == poc_read_back(pocs[j], numlayers, numcomps) by {
        let p = pocs[j];
        let e = poc_entry_bytes(p, room);
        let b = j * c;
        lemma_poc_entry_fields(p, room);
        assert forall|k: int| 0 <= k < c implies body[b + k] == e[k] by {
            lemma_poc_body_chunk(pocs, nb, room, j, k);
        }
        assert(at(body, b) == at(e, 0));
        assert(comp_field(body, b + 1, room) == comp_field(e, 1, room)) by {
            assert(body[b + 1] == e[1]);
            assert(body[b + 2] == e[2]);
        }
        assert(at16(body, b + 1 + room) == at16(e, 1 + room)) by {
            assert(body[b + 1 + room] == e[1 + room]);
            assert(body[b + 2 + room] == e[2 + room]);
        }
        assert(at(body, b + 3 + room) == at(e, 3 + room)) by {
            assert(body[b + 3 + room] == e[3 + room]);
        }
        assert(comp_field(body, b + 4 + room, room) == comp_field(e, 4 + room, room)) by {
            assert(body[b + 4 + room] == e[4 + room]);
            if room == 2 {
                assert(body[b + 5 + room] == e[5 + room]);
            }
        }
        assert(at(body, b + 4 + 2 * room) == at(e, 4 + 2 * room)) by {
            assert(body[b + 4 + 2 * room] == e[4 + 2 * room]);
        }
    }
}

} // verus!
