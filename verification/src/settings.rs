//! What a user chooses of a decode (the resolutions to drop, the
//! components to decode) and the checks a codec runs before it starts.
use vstd::prelude::*;

use crate::encoder::{opj_tccp, opj_tcp};
use crate::image::{opj_image, opj_image_comp};
use crate::j2k::{J2KState, J2K_STATE_NONE};
use vstd::arithmetic::power2::{lemma2_to64, lemma_pow2_strictly_increases, lemma_pow2_unfold, pow2};

verus! {

/// The first of the `n` components whose resolutions number `res_factor`
/// or fewer, or `n` when every one has more.
pub open spec fn first_too_coarse(tccps: Seq<opj_tccp>, res_factor: u32, n: int) -> int
    decreases n,
{
    if n <= 0 {
        0
    } else if first_too_coarse(tccps, res_factor, n - 1) < n - 1 {
        first_too_coarse(tccps, res_factor, n - 1)
    } else if res_factor >= tccps[n - 1].numresolutions {
        n - 1
    } else {
        n
    }
}

proof fn lemma_first_too_coarse(tccps: Seq<opj_tccp>, res_factor: u32, n: int)
    requires
        n >= 0,
    ensures
        0 <= first_too_coarse(tccps, res_factor, n) <= n,
        forall|i: int|
            0 <= i < first_too_coarse(tccps, res_factor, n) ==> res_factor < (
            #[trigger] tccps[i]).numresolutions,
        first_too_coarse(tccps, res_factor, n) < n ==> res_factor >= tccps[first_too_coarse(
            tccps,
            res_factor,
            n,
        )].numresolutions,
    decreases n,
{
    if n > 0 {
        lemma_first_too_coarse(tccps, res_factor, n - 1);
    }
}

/// Sets the number of resolutions to remove when decoding. It is recorded
/// in `*reduce` whatever happens; with a header read (components and the
/// default coding parameters known) each component gets it as its factor,
/// in order, until one has no more resolutions than that, which fails.
/// Without a header it fails and no component changes.
pub fn opj_j2k_set_decoded_resolution_factor(
    reduce: &mut u32,
    image: &mut opj_image,
    default_tccps: Option<&Vec<opj_tccp>>,
    res_factor: u32,
) -> (r: bool)
    requires
        old(image).comps matches Some(c) ==> c@.len() == old(image).numcomps,
        default_tccps matches Some(t) ==> t@.len() >= old(image).numcomps,
    ensures
        *final(reduce) == res_factor,
        final(image).numcomps == old(image).numcomps,
        final(image).comps is Some == old(image).comps is Some,
        (old(image).comps is None || default_tccps is None) ==> !r && *final(image) == *old(image),
        (old(image).comps is Some && default_tccps is Some) ==> {
            let n = old(image).numcomps as int;
            let tccps = default_tccps.unwrap()@;
            let k = first_too_coarse(tccps, res_factor, n);
            let old_c = old(image).comps.unwrap()@;
            let new_c = final(image).comps.unwrap()@;
            &&& r == (k == n)
            &&& new_c.len() == old_c.len()
            &&& forall|i: int|
                0 <= i < n ==> #[trigger] new_c[i] == if i < k {
                    opj_image_comp { factor: res_factor, ..old_c[i] }
                } else {
                    old_c[i]
                }
            &&& *final(image) == (opj_image { comps: final(image).comps, ..*old(image) })
        },
{
    *reduce = res_factor;
    let tccps = match default_tccps {
        Some(t) => t,
        None => {
            return false;
        },
    };
    if image.comps.is_none() {
        return false;
    }
    let n = image.numcomps;
    let ghost old_image = *image;
    let ghost old_c = image.comps.unwrap()@;
    let mut comps = image.comps.take().unwrap();
    proof {
        lemma_first_too_coarse(tccps@, res_factor, n as int);
    }
    let ghost k = first_too_coarse(tccps@, res_factor, n as int);
    let mut i: u32 = 0;
    let mut ok = true;
    while i < n
        invariant_except_break
            i <= k,
            ok,
        invariant
            i <= n,
            n == old_c.len(),
            tccps@.len() >= n,
            k == first_too_coarse(tccps@, res_factor, n as int),
            0 <= k <= n,
            forall|j: int| 0 <= j < k ==> res_factor < (#[trigger] tccps@[j]).numresolutions,
            k < n ==> res_factor >= tccps@[k].numresolutions,
            comps@.len() == n,
            forall|j: int|
                0 <= j < n ==> #[trigger] comps@[j] == if j < i {
                    opj_image_comp { factor: res_factor, ..old_c[j] }
                } else {
                    old_c[j]
                },
        ensures
            (ok && i == n && k == n) || (!ok && i == k && k < n),
            comps@.len() == n,
            forall|j: int|
                0 <= j < n ==> #[trigger] comps@[j] == if j < i {
                    opj_image_comp { factor: res_factor, ..old_c[j] }
                } else {
                    old_c[j]
                },
        decreases n - i,
    {
        if res_factor >= tccps[i as usize].numresolutions {
            ok = false;
            break;
        }
        let mut c = comps.remove(i as usize);
        c.factor = res_factor;
        comps.insert(i as usize, c);
        i = i + 1;
    }
    image.comps = Some(comps);
    assert(k == i);
    ok
}

/// The components are numbers of components of an image of `numcomps`,
/// none twice.
pub open spec fn components_ok(numcomps: u32, comps: Seq<u32>) -> bool {
    &&& forall|i: int| 0 <= i < comps.len() ==> #[trigger] comps[i] < numcomps
    &&& forall|i: int, j: int| 0 <= i < j < comps.len() ==> comps[i] != comps[j]
}

/// Chooses the components to decode, once the header has told how many the
/// image has (`numcomps`; `None` before): the list is kept when every
/// number is a component of the image and none comes twice, else nothing
/// changes.
pub fn opj_j2k_set_decoded_components(
    numcomps: Option<u32>,
    components: &[u32],
    selected: &mut Vec<u32>,
) -> (r: bool)
    ensures
        r == (numcomps matches Some(n) && components_ok(n, components@)),
        r ==> final(selected)@ == components@,
        !r ==> final(selected)@ == old(selected)@,
{
    let n = match numcomps {
        Some(n) => n,
        None => {
            return false;
        },
    };
    let mut seen: Vec<bool> = Vec::new();
    let mut k: u32 = 0;
    while k < n
        invariant
            k <= n,
            seen@.len() == k,
            forall|j: int| 0 <= j < k ==> !(#[trigger] seen@[j]),
        decreases n - k,
    {
        seen.push(false);
        k = k + 1;
    }
    let mut i: usize = 0;
    while i < components.len()
        invariant
            i <= components@.len(),
            seen@.len() == n,
            numcomps == Some(n),
            forall|a: int| 0 <= a < i ==> #[trigger] components@[a] < n,
            forall|a: int, b: int| 0 <= a < b < i ==> components@[a] != components@[b],
            forall|c: int|
                0 <= c < n ==> (#[trigger] seen@[c] <==> exists|a: int|
                    0 <= a < i && components@[a] == c),
        decreases components@.len() - i,
    {
        let c = components[i];
        if c >= n {
            assert(!(components@[i as int] < n));
            return false;
        }
        if seen[c as usize] {
            let ghost a = choose|a: int| 0 <= a < i && components@[a] == c;
            assert(components@[a] == components@[i as int]);
            return false;
        }
        seen.set(c as usize, true);
        i = i + 1;
    }
    let mut out: Vec<u32> = Vec::new();
    let mut j: usize = 0;
    while j < components.len()
        invariant
            j <= components@.len(),
            out@ == components@.subrange(0, j as int),
        decreases components@.len() - j,
    {
        out.push(components[j]);
        j = j + 1;
        assert(out@ =~= components@.subrange(0, j as int));
    }
    assert(out@ =~= components@);
    *selected = out;
    true
}

/// Every component that was to be decoded has samples: those chosen, or
/// all of the image when none was chosen.
pub open spec fn all_used_decoded(selected: Seq<u32>, comps: Seq<opj_image_comp>) -> bool {
    if selected.len() > 0 {
        forall|i: int| 0 <= i < selected.len() ==> comps[#[trigger] selected[i] as int].data is Some
    } else {
        forall|i: int| 0 <= i < comps.len() ==> (#[trigger] comps[i]).data is Some
    }
}

/// Whether every component that was to be decoded was decoded.
pub fn opj_j2k_are_all_used_components_decoded(selected: &[u32], comps: &Vec<opj_image_comp>) -> (r:
    bool)
    requires
        forall|i: int| 0 <= i < selected@.len() ==> #[trigger] selected@[i] < comps@.len(),
    ensures
        r == all_used_decoded(selected@, comps@),
{
    let mut all = true;
    if selected.len() > 0 {
        let mut i: usize = 0;
        while i < selected.len()
            invariant
                i <= selected@.len(),
                selected@.len() > 0,
                forall|a: int| 0 <= a < selected@.len() ==> #[trigger] selected@[a] < comps@.len(),
                all == forall|a: int| 0 <= a < i ==> comps@[#[trigger] selected@[a] as int].data is Some,
            decreases selected@.len() - i,
        {
            if comps[selected[i] as usize].data.is_none() {
                all = false;
            }
            i = i + 1;
        }
    } else {
        let mut i: usize = 0;
        while i < comps.len()
            invariant
                i <= comps@.len(),
                selected@.len() == 0,
                all == forall|a: int| 0 <= a < i ==> (#[trigger] comps@[a]).data is Some,
            decreases comps@.len() - i,
        {
            if comps[i].data.is_none() {
                all = false;
            }
            i = i + 1;
        }
    }
    all
}

/// A decoder may start when it is in no state yet.
pub fn opj_j2k_decoding_validation(state: J2KState) -> (r: bool)
    ensures
        r == (state == J2K_STATE_NONE),
{
    state == J2K_STATE_NONE
}

/// An encoder may start: it is in no state yet, and the first component
/// of the first tile has 1 to 32 resolutions, the lowest of which a tile
/// of `tdx` by `tdy` still has room for.
pub open spec fn encoding_valid(state: J2KState, numresolutions: u32, tdx: u32, tdy: u32) -> bool {
    &&& 1 <= numresolutions <= 32
    &&& tdx >= pow2((numresolutions - 1) as nat)
    &&& tdy >= pow2((numresolutions - 1) as nat)
    &&& state == J2K_STATE_NONE
}

fn pow2_u64(n: u32) -> (r: u64)
    requires
        n <= 32,
    ensures
        r == pow2(n as nat),
{
    let mut r: u64 = 1;
    let mut i: u32 = 0;
    proof {
        lemma2_to64();
    }
    while i < n
        invariant
            i <= n <= 32,
            r == pow2(i as nat),
            r <= 0x1_0000_0000,
        decreases n - i,
    {
        proof {
            lemma_pow2_bound(i as nat);
        }
        r = r * 2;
        i = i + 1;
    }
    r
}

proof fn lemma_pow2_bound(n: nat)
    requires
        n < 32,
    ensures
        pow2(n) <= 0x8000_0000nat,
        pow2(n + 1) == 2 * pow2(n),
{
    lemma2_to64();
    if n < 31 {
        lemma_pow2_strictly_increases(n, 31);
    }
    lemma_pow2_unfold(n + 1);
}

/// Whether an encoder may start, from its state, the resolutions of the
/// first component of the first tile and the tile size.
pub fn opj_j2k_encoding_validation(state: J2KState, numresolutions: u32, tdx: u32, tdy: u32) -> (r:
    bool)
    ensures
        r == encoding_valid(state, numresolutions, tdx, tdy),
{
    if numresolutions == 0 || numresolutions > 32 {
        return false;
    }
    let p = pow2_u64(numresolutions - 1);
    if (tdx as u64) < p || (tdy as u64) < p {
        return false;
    }
    state == J2K_STATE_NONE
}

/// Whether the custom component transformations of a tile are valid for
/// the part 2 profiles: a tile that uses one has its coding matrix and only
/// irreversible wavelets on its first `n` components.
pub open spec fn tile_mct_valid(t: opj_tcp, has_matrix: bool, n: u32) -> bool {
    t.mct == 2 ==> has_matrix && forall|j: int| 0 <= j < n ==> (#[trigger] t.tccps@[j]).qmfbid % 2 == 0
}

/// Whether the custom component transformations of an encoder are valid:
/// always outside the part 2 profiles with such transformations, else in
/// every tile. `has_matrix` tells for each tile whether its coding matrix
/// is set.
pub fn opj_j2k_mct_validation(rsiz: u16, tcps: &Vec<opj_tcp>, has_matrix: &Vec<bool>, nb_comps: u32) -> (r: bool)
    requires
        has_matrix@.len() == tcps@.len(),
        forall|i: int| 0 <= i < tcps@.len() ==> nb_comps <= (#[trigger] tcps@[i]).tccps@.len(),
    ensures
        r == (rsiz & 0x8200 == 0x8200 ==> forall|i: int|
            0 <= i < tcps@.len() ==> tile_mct_valid(#[trigger] tcps@[i], has_matrix@[i], nb_comps)),
{
    if rsiz & 0x8200 != 0x8200 {
        return true;
    }
    let mut valid = true;
    let mut i: usize = 0;
    while i < tcps.len()
        invariant
            i <= tcps@.len() == has_matrix@.len(),
            rsiz & 0x8200 == 0x8200,
            forall|k: int| 0 <= k < tcps@.len() ==> nb_comps <= (#[trigger] tcps@[k]).tccps@.len(),
            valid == forall|k: int| 0 <= k < i ==> tile_mct_valid(#[trigger] tcps@[k], has_matrix@[k], nb_comps),
        decreases tcps@.len() - i,
    {
        let t = &tcps[i];
        if t.mct == 2 {
            let mut ok = has_matrix[i];
            let mut j: u32 = 0;
            while j < nb_comps
                invariant
                    j <= nb_comps <= t.tccps@.len(),
                    ok == (has_matrix@[i as int] && forall|k: int| 0 <= k < j ==> (#[trigger] t.tccps@[k]).qmfbid % 2 == 0),
                decreases nb_comps - j,
            {
                ok = ok && t.tccps[j as usize].qmfbid & 1 == 0;
                proof {
                    let q = t.tccps@[j as int].qmfbid;
                    assert(q & 1 == q % 2) by (bit_vector);
                }
                j = j + 1;
            }
            valid = valid && ok;
        }
        i = i + 1;
    }
    valid
}

} // verus!
