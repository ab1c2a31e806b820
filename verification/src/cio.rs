//! Big-endian integer fields of the codestream.
use vstd::prelude::*;

use vstd::arithmetic::div_mod::{lemma_div_denominator, lemma_fundamental_div_mod};

verus! {

/// `256` to the power `n`.
pub open spec fn pow256(n: nat) -> nat
    decreases n,
{
    if n == 0 {
        1
    } else {
        256 * pow256((n - 1) as nat)
    }
}

/// The unsigned value of a big-endian byte string.
pub open spec fn be_value(s: Seq<u8>) -> nat
    decreases s.len(),
{
    if s.len() == 0 {
        0
    } else {
        be_value(s.drop_last()) * 256 + s.last() as nat
    }
}

pub proof fn lemma_be_value_bound(s: Seq<u8>)
    ensures
        be_value(s) < pow256(s.len()),
    decreases s.len(),
{
    if s.len() > 0 {
        lemma_be_value_bound(s.drop_last());
        assert(be_value(s) < pow256(s.len())) by (nonlinear_arith)
            requires
                be_value(s) == be_value(s.drop_last()) * 256 + s.last(),
                be_value(s.drop_last()) < pow256(s.drop_last().len()),
                pow256(s.len()) == 256 * pow256(s.drop_last().len()),
                s.last() < 256,
        ;
    }
}

pub proof fn lemma_pow256_small()
    ensures
        pow256(0) == 1,
        pow256(1) == 256,
        pow256(2) == 65536,
        pow256(3) == 16777216,
        pow256(4) == 4294967296,
{
    reveal_with_fuel(pow256, 5);
}

/// `256^k` for `k <= 4`.
fn pow256_u64(k: usize) -> (r: u64)
    requires
        k <= 4,
    ensures
        r == pow256(k as nat),
        r > 0,
{
    proof {
        lemma_pow256_small();
    }
    if k == 0 {
        1
    } else if k == 1 {
        256
    } else if k == 2 {
        65536
    } else if k == 3 {
        16777216
    } else {
        4294967296
    }
}

/// Reads the `n`-byte big-endian unsigned integer at `buf[pos..pos + n]`.
pub fn opj_read_bytes(buf: &[u8], pos: usize, n: usize) -> (r: u32)
    requires
        1 <= n <= 4,
        pos + n <= buf@.len(),
    ensures
        r == be_value(buf@.subrange(pos as int, pos + n)),
{
    let buf_len = buf.len();
    let mut v: u32 = 0;
    let mut i: usize = 0;
    proof {
        lemma_pow256_small();
    }
    while i < n
        invariant
            i <= n <= 4,
            pos + n <= buf@.len(),
            buf_len == buf@.len(),
            v == be_value(buf@.subrange(pos as int, pos + i)),
        decreases n - i,
    {
        proof {
            lemma_be_value_bound(buf@.subrange(pos as int, pos + i));
            lemma_pow256_small();
            assert(v < 16777216) by {
                if i == 0 {
                } else if i == 1 {
                } else if i == 2 {
                } else {
                }
            }
            assert(buf@.subrange(pos as int, pos + i + 1).drop_last() =~= buf@.subrange(
                pos as int,
                pos + i,
            ));
        }
        v = v * 256 + buf[pos + i] as u32;
        i = i + 1;
    }
    v
}

/// Writes the `n` low-order bytes of `value`, most significant first, into
/// `buf[pos..pos + n]`; the rest of `buf` is unchanged.
pub fn opj_write_bytes(buf: &mut [u8], pos: usize, value: u32, n: usize)
    requires
        1 <= n <= 4,
        pos + n <= old(buf)@.len(),
    ensures
        final(buf)@.len() == old(buf)@.len(),
        be_value(final(buf)@.subrange(pos as int, pos + n)) == value as int % pow256(n as nat) as int,
        forall|j: int|
            0 <= j < old(buf)@.len() && !(pos <= j < pos + n) ==> #[trigger] final(buf)@[j] == old(
                buf,
            )@[j],
{
    let ghost orig = buf@;
    let buf_len = buf.len();
    let p = pow256_u64(n);
    let vv: u64 = value as u64 % p;
    proof {
        assert(vv as int / p as int == 0) by (nonlinear_arith)
            requires
                0 <= vv < p,
        ;
    }
    let mut i: usize = 0;
    while i < n
        invariant
            i <= n <= 4,
            pos + n <= buf@.len(),
            buf_len == buf@.len(),
            buf@.len() == orig.len(),
            p == pow256(n as nat),
            vv == value as int % p as int,
            be_value(buf@.subrange(pos as int, pos + i)) == vv as int / pow256((n - i) as nat) as int,
            forall|j: int|
                0 <= j < orig.len() && !(pos <= j < pos + i) ==> #[trigger] buf@[j] == orig[j],
        decreases n - i,
    {
        let d = pow256_u64(n - 1 - i);
        let byte = ((vv / d) % 256) as u8;
        let ghost before = buf@;
        buf[pos + i] = byte;
        proof {
            let dd = d as int;
            assert(pow256((n - i) as nat) == 256 * dd);
            assert(dd > 0) by {
                lemma_pow256_small();
            }
            lemma_div_denominator(vv as int, dd, 256);
            lemma_fundamental_div_mod(vv as int / dd, 256);
            assert(buf@.subrange(pos as int, pos + i + 1).drop_last() =~= before.subrange(
                pos as int,
                pos + i,
            ));
            assert(buf@.subrange(pos as int, pos + i + 1).last() == byte);
            assert((vv as int / dd) / 256 == vv as int / (dd * 256));
            assert(dd * 256 == 256 * dd) by (nonlinear_arith);
        }
        i = i + 1;
    }
    proof {
        assert(pow256(0) == 1);
        assert(vv as int / 1 == vv as int);
    }
}

/// The `n`-byte big-endian encoding of `v`, reduced modulo `256^n`.
pub open spec fn be_bytes(v: nat, n: nat) -> Seq<u8>
    decreases n,
{
    if n == 0 {
        Seq::empty()
    } else {
        be_bytes(v / 256, (n - 1) as nat).push((v % 256) as u8)
    }
}

/// The encoding has `n` bytes and reads back as `v` modulo `256^n`.
pub proof fn lemma_be_bytes(v: nat, n: nat)
    ensures
        be_bytes(v, n).len() == n,
        be_value(be_bytes(v, n)) == v % pow256(n),
    decreases n,
{
    if n > 0 {
        lemma_be_bytes(v / 256, (n - 1) as nat);
        let b = be_bytes(v, n);
        assert(b.drop_last() =~= be_bytes(v / 256, (n - 1) as nat));
        lemma_pow256_pos((n - 1) as nat);
        vstd::arithmetic::div_mod::lemma_mod_breakdown(v as int, 256, pow256((n - 1) as nat) as int);
        assert(256 * ((v as int / 256) % pow256((n - 1) as nat) as int) == ((v as int / 256) % pow256(
            (n - 1) as nat,
        ) as int) * 256) by (nonlinear_arith);
    }
}

pub proof fn lemma_pow256_pos(n: nat)
    ensures
        pow256(n) > 0,
    decreases n,
{
    if n > 0 {
        lemma_pow256_pos((n - 1) as nat);
    }
}

/// Appends the `n` low-order bytes of `value` to `out`, most significant
/// first.
pub fn push_be(out: &mut Vec<u8>, value: u32, n: usize)
    requires
        1 <= n <= 4,
    ensures
        final(out)@ == old(out)@ + be_bytes(value as nat, n as nat),
{
    let ghost start = out@;
    let mut i: usize = n;
    proof {
        lemma_pow256_small();
    }
    while i > 0
        invariant
            i <= n <= 4,
            out@ == start + be_bytes(value as nat / pow256(i as nat), (n - i) as nat),
        decreases i,
    {
        let ghost before = out@;
        let sh = pow256_u64(i - 1);
        let byte = ((value as u64 / sh) % 256) as u8;
        out.push(byte);
        proof {
            let p = pow256((i - 1) as nat) as int;
            assert(pow256(i as nat) == 256 * p);
            vstd::arithmetic::div_mod::lemma_div_denominator(value as int, p, 256);
            assert(p * 256 == 256 * p) by (nonlinear_arith);
            assert(be_bytes(value as nat / pow256((i - 1) as nat), (n - i + 1) as nat) == be_bytes(
                value as nat / pow256(i as nat),
                (n - i) as nat,
            ).push(byte));
        }
        i = i - 1;
    }
    proof {
        assert(value as nat / pow256(0) == value as nat);
    }
}

} // verus!
