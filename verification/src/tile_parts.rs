//! How many tile parts each tile is written in, when the encoder splits
//! tiles at a step of their progression order.
use vstd::prelude::*;

use crate::encoder::opj_tcp;
use crate::j2k::{
    opj_j2k_convert_progression_order, order_of_code, order_steps, step_byte, ProgressionOrder,
    ProgressionStep,
};
use crate::params::opj_poc;

verus! {

/// The extent of a change along one step of a progression order.
pub open spec fn step_extent(s: ProgressionStep, p: opj_poc) -> u32 {
    match s {
        ProgressionStep::Component => p.compE,
        ProgressionStep::Resolution => p.resE,
        ProgressionStep::Precinct => p.prcE,
        ProgressionStep::Layer => p.layE,
        ProgressionStep::Unknown => 1,
    }
}

/// The product, modulo 2^32, of `acc` and the extents of the steps from
/// step `i` on, up to and including the first step named by `flag`.
pub open spec fn tp_product(steps: Seq<ProgressionStep>, p: opj_poc, flag: u8, i: int, acc: int) -> int
    decreases steps.len() - i,
{
    if i < 0 || i >= steps.len() {
        acc
    } else {
        let a = (acc * step_extent(steps[i], p)) % 0x1_0000_0000;
        if step_byte(steps[i]) == flag {
            a
        } else {
            tp_product(steps, p, flag, i + 1, a)
        }
    }
}

/// Some step of the order is named by `flag`.
pub open spec fn flag_in(steps: Seq<ProgressionStep>, flag: u8) -> bool {
    exists|i: int| 0 <= i < steps.len() && step_byte(#[trigger] steps[i]) == flag
}

/// The number of tile parts that change `p` of a tile with progression
/// order code `prg` is split into.
pub open spec fn num_tp(prg: i32, p: opj_poc, tp_on: bool, flag: u8) -> int {
    if tp_on {
        tp_product(order_steps(order_of_code(prg)), p, flag, 0, 1)
    } else {
        1
    }
}

/// The number of tile parts that change `pino` of a tile is split into: with
/// splitting on, the product of its extents along the steps of the tile's
/// order, outermost first, up to the step named by `tp_flag`. When a step is
/// so named, `*tp_pos` is set to 0.
pub fn opj_j2k_get_num_tp(tcp: &opj_tcp, pino: u32, tp_on: bool, tp_flag: u8, tp_pos: &mut i32) -> (r:
    u32)
    requires
        pino < tcp.pocs@.len(),
        order_of_code(tcp.prg) != ProgressionOrder::Unknown,
    ensures
        r == num_tp(tcp.prg, tcp.pocs@[pino as int], tp_on, tp_flag),
        *final(tp_pos) == if tp_on && flag_in(order_steps(order_of_code(tcp.prg)), tp_flag) {
            0
        } else {
            *old(tp_pos)
        },
{
    let p = tcp.pocs[pino as usize];
    let prog = opj_j2k_convert_progression_order(tcp.prg);
    if !tp_on {
        return 1;
    }
    let steps = prog.get_order();
    let ghost s = steps@;
    let mut tpnum: u32 = 1;
    let mut i: usize = 0;
    while i < steps.len()
        invariant
            i <= s.len(),
            tp_on,
            s == steps@,
            s == order_steps(order_of_code(tcp.prg)),
            p == tcp.pocs@[pino as int],
            tp_product(s, p, tp_flag, i as int, tpnum as int) == tp_product(s, p, tp_flag, 0, 1),
            forall|k: int| 0 <= k < i ==> step_byte(#[trigger] s[k]) != tp_flag,
            *tp_pos == *old(tp_pos),
        decreases s.len() - i,
    {
        let step = steps[i];
        let e: u32 = match step {
            ProgressionStep::Component => p.compE,
            ProgressionStep::Resolution => p.resE,
            ProgressionStep::Precinct => p.prcE,
            ProgressionStep::Layer => p.layE,
            ProgressionStep::Unknown => 1,
        };
        assert(tpnum as u64 * e as u64 <= 0xffff_ffff * 0xffff_ffff) by (nonlinear_arith)
            requires
                tpnum <= 0xffff_ffffu32,
                e <= 0xffff_ffffu32,
        ;
        let prev = tpnum;
        tpnum = ((tpnum as u64 * e as u64) % 0x1_0000_0000) as u32;
        assert(s[i as int] == step);
        assert(e == step_extent(step, p));
        assert(tp_product(s, p, tp_flag, i as int, prev as int) == if step_byte(step) == tp_flag {
            tpnum as int
        } else {
            tp_product(s, p, tp_flag, i + 1, tpnum as int)
        });
        if step.as_byte() == tp_flag {
            *tp_pos = 0;
            return tpnum;
        }
        i = i + 1;
    }
    tpnum
}

/// The number of tile parts of a tile: the sum, modulo 2^32, over its
/// changes of the parts each is split into.
pub open spec fn tile_tp_sum(tcp: opj_tcp, n: int, tp_on: bool, flag: u8) -> int
    decreases n,
{
    if n <= 0 {
        0
    } else {
        (tile_tp_sum(tcp, n - 1, tp_on, flag) + num_tp(tcp.prg, tcp.pocs@[n - 1], tp_on, flag))
            % 0x1_0000_0000
    }
}

/// A tile whose tile parts can be counted: a known split order and an
/// entry for each of its changes.
pub open spec fn tp_countable(tcp: opj_tcp) -> bool {
    &&& order_of_code(tcp.prg) != ProgressionOrder::Unknown
    &&& tcp.numpocs < tcp.pocs@.len()
}

/// Counts the tile parts of every tile from the extents of its changes,
/// which the packet iterator has set: each tile gets the sum of the parts
/// its changes are split into. When a step is named by `tp_flag`,
/// `*tp_pos` is set to 0.
pub fn opj_j2k_calculate_tp(tcps: &mut Vec<opj_tcp>, tp_on: bool, tp_flag: u8, tp_pos: &mut i32)
    requires
        forall|t: int| 0 <= t < old(tcps)@.len() ==> tp_countable(#[trigger] old(tcps)@[t]),
    ensures
        final(tcps)@.len() == old(tcps)@.len(),
        forall|t: int|
            0 <= t < old(tcps)@.len() ==> #[trigger] final(tcps)@[t] == (opj_tcp {
                m_nb_tile_parts: tile_tp_sum(
                    old(tcps)@[t],
                    old(tcps)@[t].numpocs + 1,
                    tp_on,
                    tp_flag,
                ) as u32,
                ..old(tcps)@[t]
            }),
{
    let ghost old_tcps = tcps@;
    let n = tcps.len();
    let mut t: usize = 0;
    while t < n
        invariant
            t <= n,
            n == old_tcps.len(),
            tcps@.len() == n,
            forall|k: int| 0 <= k < n ==> tp_countable(#[trigger] old_tcps[k]),
            forall|k: int| t <= k < n ==> #[trigger] tcps@[k] == old_tcps[k],
            forall|k: int|
                0 <= k < t ==> #[trigger] tcps@[k] == (opj_tcp {
                    m_nb_tile_parts: tile_tp_sum(old_tcps[k], old_tcps[k].numpocs + 1, tp_on, tp_flag) as u32,
                    ..old_tcps[k]
                }),
        decreases n - t,
    {
        let mut tcp = tcps.remove(t);
        assert(tcp == old_tcps[t as int]);
        let mut total: u32 = 0;
        let mut pino: u64 = 0;
        while pino <= tcp.numpocs as u64
            invariant
                pino <= tcp.numpocs + 1,
                tcp == old_tcps[t as int],
                tp_countable(tcp),
                total == tile_tp_sum(tcp, pino as int, tp_on, tp_flag),
            decreases tcp.numpocs + 1 - pino,
        {
            let k = opj_j2k_get_num_tp(&tcp, pino as u32, tp_on, tp_flag, tp_pos);
            total = ((total as u64 + k as u64) % 0x1_0000_0000) as u32;
            pino = pino + 1;
        }
        tcp.m_nb_tile_parts = total;
        tcps.insert(t, tcp);
        t = t + 1;
    }
}

} // verus!
