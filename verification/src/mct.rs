//! Multi-component transforms on integer samples: the reversible colour
//! transform (RCT) and the fixed-point custom transform.
use vstd::prelude::*;

use vstd::arithmetic::div_mod::lemma_fundamental_div_mod_converse;

verus! {

/// An `i32` arithmetic right shift rounds towards minus infinity.
proof fn lemma_shr2_i32(x: i32)
    ensures
        (x >> 2u32) as int == (x as int) / 4,
{
    assert((x >> 2u32) * 4 <= x && x < (x >> 2u32) * 4 + 4) by (bit_vector);
    lemma_fundamental_div_mod_converse(x as int, 4, (x >> 2u32) as int, x - (x >> 2u32) * 4);
}

/// An `i64` arithmetic right shift by 13 rounds towards minus infinity.
proof fn lemma_shr13_i64(x: i64)
    ensures
        (x >> 13u64) as int == (x as int) / 8192,
{
    assert((x >> 13u64) * 8192 <= x && x < (x >> 13u64) * 8192 + 8192) by (bit_vector);
    lemma_fundamental_div_mod_converse(
        x as int,
        8192,
        (x >> 13u64) as int,
        x - (x >> 13u64) * 8192,
    );
}

pub open spec fn fits_i32(x: int) -> bool {
    i32::MIN <= x <= i32::MAX
}

/// Product of two Q13 fixed-point numbers, rounded to nearest.
pub open spec fn fix_mul(a: int, b: int) -> int {
    (a * b + 4096) / 8192
}

/// Multiplies `a` by the Q13 fixed-point coefficient `b`, rounding to
/// nearest (ties upwards).
pub fn opj_int_fix_mul(a: i32, b: i32) -> (r: i32)
    requires
        fits_i32(fix_mul(a as int, b as int)),
    ensures
        r == fix_mul(a as int, b as int),
{
    assert(-0x4000_0000_0000_0000 <= (a as int) * (b as int) <= 0x4000_0000_0000_0000)
        by (nonlinear_arith)
        requires
            i32::MIN <= a <= i32::MAX,
            i32::MIN <= b <= i32::MAX,
    ;
    let mut temp: i64 = a as i64 * b as i64;
    temp = temp + 4096;
    proof {
        lemma_shr13_i64(temp);
    }
    (temp >> 13u64) as i32
}

/// Forward reversible colour transform of one `(r, g, b)` sample.
pub open spec fn rct_forward(r: int, g: int, b: int) -> (int, int, int) {
    ((r + 2 * g + b) / 4, b - g, r - g)
}

/// Inverse reversible colour transform of one `(y, u, v)` sample.
pub open spec fn rct_inverse(y: int, u: int, v: int) -> (int, int, int) {
    let g = y - (u + v) / 4;
    (v + g, g, u + g)
}

/// Every intermediate of the forward transform of `(r, g, b)` fits in `i32`.
pub open spec fn rct_forward_fits(r: int, g: int, b: int) -> bool {
    &&& fits_i32(2 * g)
    &&& fits_i32(r + 2 * g)
    &&& fits_i32(r + 2 * g + b)
    &&& fits_i32(b - g)
    &&& fits_i32(r - g)
}

/// Every intermediate of the inverse transform of `(y, u, v)` fits in `i32`.
pub open spec fn rct_inverse_fits(y: int, u: int, v: int) -> bool {
    let g = y - (u + v) / 4;
    &&& fits_i32(u + v)
    &&& fits_i32(g)
    &&& fits_i32(v + g)
    &&& fits_i32(u + g)
}

/// The inverse transform undoes the forward transform.
pub proof fn lemma_rct_roundtrip(r: int, g: int, b: int)
    ensures
        ({
            let (y, u, v) = rct_forward(r, g, b);
            rct_inverse(y, u, v) == (r, g, b)
        }),
{
    let s = r + b - 2 * g;
    // (r + 2g + b) / 4 - (r + b - 2g) / 4 == g, as the numerators differ by 4g.
    vstd::arithmetic::div_mod::lemma_fundamental_div_mod(s, 4);
    lemma_fundamental_div_mod_converse(s + 4 * g, 4, s / 4 + g, s % 4);
    assert(r + 2 * g + b == s + 4 * g);
    assert((b - g) + (r - g) == s);
}

/// Forward reversible colour transform of the first `n` samples of three
/// components, in place: `c0` becomes luma, `c1` and `c2` the differences.
pub fn opj_mct_encode(c0: &mut [i32], c1: &mut [i32], c2: &mut [i32], n: usize)
    requires
        n <= old(c0)@.len(),
        n <= old(c1)@.len(),
        n <= old(c2)@.len(),
        forall|i: int|
            0 <= i < n ==> rct_forward_fits(
                #[trigger] old(c0)@[i] as int,
                old(c1)@[i] as int,
                old(c2)@[i] as int,
            ),
    ensures
        final(c0)@.len() == old(c0)@.len(),
        final(c1)@.len() == old(c1)@.len(),
        final(c2)@.len() == old(c2)@.len(),
        forall|i: int|
            0 <= i < n ==> (#[trigger] final(c0)@[i] as int, final(c1)@[i] as int, final(c2)@[i] as int)
                == rct_forward(old(c0)@[i] as int, old(c1)@[i] as int, old(c2)@[i] as int),
        forall|i: int| n <= i < old(c0)@.len() ==> #[trigger] final(c0)@[i] == old(c0)@[i],
        forall|i: int| n <= i < old(c1)@.len() ==> #[trigger] final(c1)@[i] == old(c1)@[i],
        forall|i: int| n <= i < old(c2)@.len() ==> #[trigger] final(c2)@[i] == old(c2)@[i],
{
    let ghost o0 = c0@;
    let ghost o1 = c1@;
    let ghost o2 = c2@;
    let mut i: usize = 0;
    while i < n
        invariant
            i <= n,
            n <= o0.len(),
            n <= o1.len(),
            n <= o2.len(),
            c0@.len() == o0.len(),
            c1@.len() == o1.len(),
            c2@.len() == o2.len(),
            forall|j: int|
                0 <= j < n ==> rct_forward_fits(#[trigger] o0[j] as int, o1[j] as int, o2[j] as int),
            forall|j: int|
                0 <= j < i ==> (#[trigger] c0@[j] as int, c1@[j] as int, c2@[j] as int) == rct_forward(
                    o0[j] as int,
                    o1[j] as int,
                    o2[j] as int,
                ),
            forall|j: int| i <= j < o0.len() ==> #[trigger] c0@[j] == o0[j],
            forall|j: int| i <= j < o1.len() ==> #[trigger] c1@[j] == o1[j],
            forall|j: int| i <= j < o2.len() ==> #[trigger] c2@[j] == o2[j],
        decreases n - i,
    {
        let r = c0[i];
        let g = c1[i];
        let b = c2[i];
        assert(rct_forward_fits(o0[i as int] as int, o1[i as int] as int, o2[i as int] as int));
        let s = r + g * 2 + b;
        proof {
            lemma_shr2_i32(s);
        }
        let y = s >> 2u32;
        let u = b - g;
        let v = r - g;
        c0[i] = y;
        c1[i] = u;
        c2[i] = v;
        i = i + 1;
    }
}

/// Inverse reversible colour transform of the first `n` samples of three
/// components, in place.
pub fn opj_mct_decode(c0: &mut [i32], c1: &mut [i32], c2: &mut [i32], n: usize)
    requires
        n <= old(c0)@.len(),
        n <= old(c1)@.len(),
        n <= old(c2)@.len(),
        forall|i: int|
            0 <= i < n ==> rct_inverse_fits(
                #[trigger] old(c0)@[i] as int,
                old(c1)@[i] as int,
                old(c2)@[i] as int,
            ),
    ensures
        final(c0)@.len() == old(c0)@.len(),
        final(c1)@.len() == old(c1)@.len(),
        final(c2)@.len() == old(c2)@.len(),
        forall|i: int|
            0 <= i < n ==> (#[trigger] final(c0)@[i] as int, final(c1)@[i] as int, final(c2)@[i] as int)
                == rct_inverse(old(c0)@[i] as int, old(c1)@[i] as int, old(c2)@[i] as int),
        forall|i: int| n <= i < old(c0)@.len() ==> #[trigger] final(c0)@[i] == old(c0)@[i],
        forall|i: int| n <= i < old(c1)@.len() ==> #[trigger] final(c1)@[i] == old(c1)@[i],
        forall|i: int| n <= i < old(c2)@.len() ==> #[trigger] final(c2)@[i] == old(c2)@[i],
{
    let ghost o0 = c0@;
    let ghost o1 = c1@;
    let ghost o2 = c2@;
    let mut i: usize = 0;
    while i < n
        invariant
            i <= n,
            n <= o0.len(),
            n <= o1.len(),
            n <= o2.len(),
            c0@.len() == o0.len(),
            c1@.len() == o1.len(),
            c2@.len() == o2.len(),
            forall|j: int|
                0 <= j < n ==> rct_inverse_fits(#[trigger] o0[j] as int, o1[j] as int, o2[j] as int),
            forall|j: int|
                0 <= j < i ==> (#[trigger] c0@[j] as int, c1@[j] as int, c2@[j] as int) == rct_inverse(
                    o0[j] as int,
                    o1[j] as int,
                    o2[j] as int,
                ),
            forall|j: int| i <= j < o0.len() ==> #[trigger] c0@[j] == o0[j],
            forall|j: int| i <= j < o1.len() ==> #[trigger] c1@[j] == o1[j],
            forall|j: int| i <= j < o2.len() ==> #[trigger] c2@[j] == o2[j],
        decreases n - i,
    {
        let y = c0[i];
        let u = c1[i];
        let v = c2[i];
        assert(rct_inverse_fits(o0[i as int] as int, o1[i as int] as int, o2[i as int] as int));
        let s = u + v;
        proof {
            lemma_shr2_i32(s);
        }
        let g = y - (s >> 2u32);
        let r = v + g;
        let b = u + g;
        c0[i] = r;
        c1[i] = g;
        c2[i] = b;
        i = i + 1;
    }
}

/// Sum of the first `k` fixed-point products of row `j` of the `nb` x `nb`
/// matrix with the sample vector `cur`.
pub open spec fn fix_row_sum(matrix: Seq<i32>, nb: int, j: int, cur: Seq<i32>, k: int) -> int
    decreases k,
{
    if k <= 0 {
        0
    } else {
        fix_row_sum(matrix, nb, j, cur, k - 1) + fix_mul(
            matrix[j * nb + k - 1] as int,
            cur[k - 1] as int,
        )
    }
}

/// Every product and every running sum of the transform of `cur` fits in
/// `i32`.
pub open spec fn custom_fits(matrix: Seq<i32>, nb: int, cur: Seq<i32>) -> bool {
    forall|j: int, k: int|
        0 <= j < nb && 0 <= k < nb ==> fits_i32(
            #[trigger] fix_mul(matrix[j * nb + k] as int, cur[k] as int),
        ) && fits_i32(fix_row_sum(matrix, nb, j, cur, k + 1))
}

/// Sample `i` of every component, as a vector.
pub open spec fn column(data: Seq<Vec<i32>>, i: int) -> Seq<i32> {
    Seq::new(data.len(), |c: int| data[c]@[i])
}

proof fn lemma_row_offset(nb: int, j: int, k: int)
    by (nonlinear_arith)
    requires
        0 <= j < nb,
        0 <= k < nb,
    ensures
        0 <= j * nb + k < nb * nb,
        j * nb <= j * nb + k,
{
}

/// Applies the `nb_comp` x `nb_comp` Q13 fixed-point matrix `matrix` (row
/// major) to the first `n` samples of the components in `data`: sample `i` of
/// component `j` becomes the sum over `k` of `matrix[j][k]` times the old
/// sample `i` of component `k`, each product rounded to nearest.
pub fn opj_mct_encode_custom_fixed(matrix: &[i32], n: usize, data: &mut Vec<Vec<i32>>, nb_comp: u32)
    requires
        old(data)@.len() == nb_comp,
        nb_comp * nb_comp <= matrix@.len(),
        forall|c: int| 0 <= c < nb_comp ==> n <= (#[trigger] old(data)@[c])@.len(),
        forall|i: int| 0 <= i < n ==> custom_fits(matrix@, nb_comp as int, #[trigger] column(old(data)@, i)),
    ensures
        final(data)@.len() == old(data)@.len(),
        forall|c: int| 0 <= c < nb_comp ==> (#[trigger] final(data)@[c])@.len() == old(data)@[c]@.len(),
        forall|c: int, i: int|
            0 <= c < nb_comp && 0 <= i < n ==> (#[trigger] final(data)@[c]@[i]) as int == fix_row_sum(
                matrix@,
                nb_comp as int,
                c,
                column(old(data)@, i),
                nb_comp as int,
            ),
        forall|c: int, i: int|
            0 <= c < nb_comp && n <= i < old(data)@[c]@.len() ==> #[trigger] final(data)@[c]@[i]
                == old(data)@[c]@[i],
{
    let ghost od = data@;
    let nb = nb_comp as usize;
    let matrix_len = matrix.len();
    let mut i: usize = 0;
    while i < n
        invariant
            i <= n,
            nb == nb_comp,
            matrix_len == matrix@.len(),
            od.len() == nb,
            data@.len() == nb,
            nb * nb <= matrix@.len(),
            forall|c: int| 0 <= c < nb ==> (#[trigger] data@[c])@.len() == od[c]@.len(),
            forall|c: int| 0 <= c < nb ==> n <= (#[trigger] od[c])@.len(),
            forall|q: int| 0 <= q < n ==> custom_fits(matrix@, nb as int, #[trigger] column(od, q)),
            forall|c: int, q: int|
                0 <= c < nb && 0 <= q < i ==> (#[trigger] data@[c]@[q]) as int == fix_row_sum(
                    matrix@,
                    nb as int,
                    c,
                    column(od, q),
                    nb as int,
                ),
            forall|c: int, q: int|
                0 <= c < nb && i <= q < od[c]@.len() ==> #[trigger] data@[c]@[q] == od[c]@[q],
        decreases n - i,
    {
        let mut cur: Vec<i32> = Vec::with_capacity(nb);
        let mut j: usize = 0;
        while j < nb
            invariant
                j <= nb,
                i < n,
                data@.len() == nb,
                forall|c: int| 0 <= c < nb ==> n <= (#[trigger] data@[c])@.len(),
                forall|c: int, q: int|
                    0 <= c < nb && i <= q < od[c]@.len() ==> #[trigger] data@[c]@[q] == od[c]@[q],
                forall|c: int| 0 <= c < nb ==> (#[trigger] data@[c])@.len() == od[c]@.len(),
                od.len() == nb,
                cur@.len() == j,
                forall|c: int| 0 <= c < j ==> #[trigger] cur@[c] == od[c]@[i as int],
            decreases nb - j,
        {
            cur.push(data[j][i]);
            j = j + 1;
        }
        assert(cur@ =~= column(od, i as int));
        assert(custom_fits(matrix@, nb as int, column(od, i as int)));
        let mut j: usize = 0;
        while j < nb
            invariant
                j <= nb,
                i < n,
                nb == nb_comp,
                nb * nb <= matrix@.len(),
                matrix_len == matrix@.len(),
                od.len() == nb,
                data@.len() == nb,
                cur@ == column(od, i as int),
                custom_fits(matrix@, nb as int, cur@),
                forall|c: int| 0 <= c < nb ==> (#[trigger] data@[c])@.len() == od[c]@.len(),
                forall|c: int| 0 <= c < nb ==> n <= (#[trigger] od[c])@.len(),
                forall|c: int, q: int|
                    0 <= c < nb && 0 <= q < i ==> (#[trigger] data@[c]@[q]) as int == fix_row_sum(
                        matrix@,
                        nb as int,
                        c,
                        column(od, q),
                        nb as int,
                    ),
                forall|c: int|
                    0 <= c < j ==> (#[trigger] data@[c]@[i as int]) as int == fix_row_sum(
                        matrix@,
                        nb as int,
                        c,
                        cur@,
                        nb as int,
                    ),
                forall|c: int, q: int|
                    0 <= c < nb && i <= q < od[c]@.len() && !(c < j && q == i) ==> #[trigger] data@[c]@[q]
                        == od[c]@[q],
            decreases nb - j,
        {
            let mut acc: i32 = 0;
            let mut k: usize = 0;
            while k < nb
                invariant
                    k <= nb,
                    j < nb,
                    nb * nb <= matrix@.len(),
                    matrix_len == matrix@.len(),
                    cur@.len() == nb,
                    custom_fits(matrix@, nb as int, cur@),
                    acc as int == fix_row_sum(matrix@, nb as int, j as int, cur@, k as int),
                decreases nb - k,
            {
                proof {
                    lemma_row_offset(nb as int, j as int, k as int);
                    assert(fits_i32(fix_mul(matrix@[j * nb + k] as int, cur@[k as int] as int)));
                }
                let p = opj_int_fix_mul(matrix[j * nb + k], cur[k]);
                acc = acc + p;
                k = k + 1;
            }
            data[j][i] = acc;
            j = j + 1;
        }
        i = i + 1;
    }
}

} // verus!
