//! Small integer helpers shared by the codec modules.
use vstd::prelude::*;

verus! {

/// Ceiling of `a / b` over the integers.
pub open spec fn ceil_div(a: int, b: int) -> int
    recommends
        b > 0,
{
    (a + b - 1) / b
}

proof fn lemma_ceil_div_bounds(a: int, b: int)
    by (nonlinear_arith)
    requires
        0 <= a,
        0 < b,
    ensures
        a % b != 0 ==> ceil_div(a, b) == a / b + 1,
        a % b == 0 ==> ceil_div(a, b) == a / b,
{
}

/// `ceil_div(a, b)` blocks of size `b` cover `a` items, with less than one
/// block to spare.
pub proof fn lemma_ceil_div_covers(a: int, b: int)
    by (nonlinear_arith)
    requires
        0 <= a,
        0 < b,
    ensures
        ceil_div(a, b) * b >= a,
        (ceil_div(a, b) - 1) * b < a || a == 0,
        0 <= ceil_div(a, b) <= a || (a == 0 && ceil_div(a, b) == 0),
        a > 0 ==> ceil_div(a, b) > 0,
{
}

/// Divides `a` by `b`, rounding up.
pub fn opj_uint_ceildiv(a: u32, b: u32) -> (r: u32)
    requires
        b > 0,
    ensures
        r == ceil_div(a as int, b as int),
{
    proof {
        lemma_ceil_div_bounds(a as int, b as int);
    }
    let q = a / b;
    if a % b != 0 {
        assert(q < a) by (nonlinear_arith)
            requires
                q == a / b,
                a % b != 0,
                b > 0,
        ;
        q + 1
    } else {
        q
    }
}

/// Integer division rounding towards zero, as Rust's `/` does.
pub open spec fn trunc_div(a: int, b: int) -> int {
    if a >= 0 {
        a / b
    } else {
        -((-a) / b)
    }
}

/// The smaller of two `u32`.
pub fn opj_uint_min(a: u32, b: u32) -> (r: u32)
    ensures
        r == if a < b {
            a
        } else {
            b
        },
{
    if a < b {
        a
    } else {
        b
    }
}

/// The larger of two `u32`.
pub fn opj_uint_max(a: u32, b: u32) -> (r: u32)
    ensures
        r == if a > b {
            a
        } else {
            b
        },
{
    if a > b {
        a
    } else {
        b
    }
}

/// `a + b`, saturated at `u32::MAX`.
pub fn opj_uint_adds(a: u32, b: u32) -> (r: u32)
    ensures
        r == if a + b > u32::MAX {
            u32::MAX as int
        } else {
            a + b
        },
{
    let sum = a as u64 + b as u64;
    if sum > u32::MAX as u64 {
        u32::MAX
    } else {
        sum as u32
    }
}

/// Divides `a` by `2^b`, rounding up.
pub fn opj_uint_ceildivpow2(a: u32, b: u32) -> (r: u32)
    requires
        b < 64,
    ensures
        r == ceil_div(a as int, vstd::arithmetic::power2::pow2(b as nat) as int),
{
    proof {
        vstd::bits::lemma_u64_pow2_no_overflow(b as nat);
        vstd::bits::lemma_u64_shl_is_mul(1, b as u64);
        vstd::arithmetic::power2::lemma_pow2_pos(b as nat);
    }
    let p: u64 = 1u64 << (b as u64);
    assert(p <= 0x8000_0000_0000_0000) by (bit_vector)
        requires
            p == 1u64 << (b as u64),
            b < 64,
    ;
    let n: u64 = a as u64 + (p - 1);
    proof {
        vstd::bits::lemma_u64_shr_is_div(n, b as u64);
        lemma_ceil_div_covers(a as int, p as int);
        assert(ceil_div(a as int, p as int) <= a) by (nonlinear_arith)
            requires
                p >= 1,
                ceil_div(a as int, p as int) == (a + p - 1) / (p as int),
                a >= 0,
        ;
    }
    (n >> (b as u64)) as u32
}

/// The base-2 logarithm of `a`, rounded down (0 for `a <= 1`).
pub open spec fn floor_log2(a: int) -> int
    decreases a,
{
    if a <= 1 {
        0
    } else {
        1 + floor_log2(a / 2)
    }
}

/// The base-2 logarithm of `a`, rounded down; 0 for `a <= 1`.
pub fn opj_int_floorlog2(a: i32) -> (r: i32)
    ensures
        r == floor_log2(a as int),
        0 <= r < 32,
{
    let mut v = a;
    let mut l: i32 = 0;
    proof {
        vstd::arithmetic::power2::lemma2_to64();
        assert(v as int * vstd::arithmetic::power2::pow2(l as nat) == v);
    }
    while v > 1
        invariant
            0 <= l < 31,
            v > 1 ==> v as int * vstd::arithmetic::power2::pow2(l as nat) <= a,
            l + floor_log2(v as int) == floor_log2(a as int),
        decreases v,
    {
        assert(v >> 1u32 == v / 2) by (bit_vector)
            requires
                v > 1,
        ;
        let ghost p = vstd::arithmetic::power2::pow2(l as nat) as int;
        proof {
            vstd::arithmetic::power2::lemma_pow2_adds(l as nat, 1);
            vstd::arithmetic::power2::lemma2_to64();
            vstd::arithmetic::power2::lemma_pow2_pos(l as nat);
            assert(2 * p <= a) by (nonlinear_arith)
                requires
                    v >= 2,
                    p > 0,
                    v * p <= a,
            ;
            if l + 1 >= 31 {
                vstd::arithmetic::power2::lemma_pow2_strictly_increases(30, (l + 1) as nat);
            }
            assert((v / 2) * (2 * p) <= v * p) by (nonlinear_arith)
                requires
                    v >= 2,
                    p > 0,
            ;
        }
        v = v >> 1u32;
        l = l + 1;
    }
    l
}
/// `a / b` rounded up, for a non-negative `a` and a positive `b`.
pub fn opj_int_ceildiv(a: i32, b: i32) -> (r: i32)
    requires
        a >= 0,
        b > 0,
    ensures
        r == ceil_div(a as int, b as int),
{
    proof {
        lemma_ceil_div_covers(a as int, b as int);
    }
    let n: i64 = a as i64 + b as i64 - 1;
    let q: i64 = n / (b as i64);
    assert(q == ceil_div(a as int, b as int));
    q as i32
}

/// `a / 2^b` rounded up, for a non-negative `a`.
pub fn opj_int_ceildivpow2(a: i32, b: i32) -> (r: i32)
    requires
        a >= 0,
        0 <= b < 63,
    ensures
        r == ceil_div(a as int, vstd::arithmetic::power2::pow2(b as nat) as int),
        0 <= r <= a,
{
    proof {
        vstd::bits::lemma_u64_pow2_no_overflow(b as nat);
        vstd::bits::lemma_u64_shl_is_mul(1, b as u64);
        vstd::arithmetic::power2::lemma_pow2_pos(b as nat);
        vstd::arithmetic::power2::lemma_pow2_strictly_increases(b as nat, 63);
        vstd::arithmetic::power2::lemma2_to64_rest();
    }
    let p: u64 = 1u64 << (b as u64);
    let r = opj_uint64_ceildiv(a as u64, p);
    proof {
        lemma_ceil_div_covers(a as int, p as int);
    }
    r as i32
}

fn opj_uint64_ceildiv(a: u64, b: u64) -> (r: u64)
    requires
        b > 0,
        a < 0x8000_0000,
    ensures
        r == ceil_div(a as int, b as int),
{
    proof {
        lemma_ceil_div_bounds(a as int, b as int);
    }
    let q = a / b;
    if a % b != 0 {
        q + 1
    } else {
        q
    }
}
} // verus!
