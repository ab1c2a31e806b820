//! Encoder parameters: the digital cinema and IMF profiles, progression
//! order changes, and the checks and defaults that set up an encoder.
use vstd::prelude::*;

use crate::image::{comps_of, opj_image};
use crate::j2k::{OPJ_CPRL, OPJ_LRCP, OPJ_PROG_ORDER};

verus! {

/// A progression order change: the packets of layers below `layno1`,
/// resolutions `resno0..resno1` and components `compno0..compno1` of tile
/// `tile` (numbered from one) follow the order `prg1`.
#[derive(Clone, Copy, Debug)]
pub struct opj_poc {
    pub resno0: u32,
    pub compno0: u32,
    pub layno1: u32,
    pub resno1: u32,
    pub compno1: u32,
    pub layno0: u32,
    pub precno0: u32,
    pub precno1: u32,
    pub prg1: OPJ_PROG_ORDER,
    pub prg: OPJ_PROG_ORDER,
    pub tile: u32,
    pub compE: u32,
    pub resE: u32,
    pub prcE: u32,
    pub layE: u32,
}

impl opj_poc {
    /// A progression order change that covers nothing.
    pub fn default() -> (r: Self)
        ensures
            r.resno0 == 0 && r.compno0 == 0 && r.layno1 == 0 && r.resno1 == 0 && r.compno1 == 0,
            r.layno0 == 0 && r.precno0 == 0 && r.precno1 == 0 && r.tile == 0,
            r.prg1 == OPJ_LRCP && r.prg == OPJ_LRCP,
            r.compE == 0 && r.resE == 0 && r.prcE == 0 && r.layE == 0,
    {
        opj_poc {
            resno0: 0,
            compno0: 0,
            layno1: 0,
            resno1: 0,
            compno1: 0,
            layno0: 0,
            precno0: 0,
            precno1: 0,
            prg1: OPJ_LRCP,
            prg: OPJ_LRCP,
            tile: 0,
            compE: 0,
            resE: 0,
            prcE: 0,
            layE: 0,
        }
    }
}

/// Number of precinct sizes the parameters can give, one per resolution.
pub const J2K_MAXRLVLS: usize = 33;

/// Number of progression order changes the parameters can give.
pub const J2K_MAX_POCS: usize = 32;

/// Most quality layers, and most resolutions, a fixed allocation matrix can
/// describe.
pub const J2K_TCD_MATRIX_MAX_LAYER_COUNT: i32 = 10;
pub const J2K_TCD_MATRIX_MAX_RESOLUTION_COUNT: i32 = 10;

/// The `tp_flag` that splits tile parts by component.
pub const TP_FLAG_COMPONENT: i8 = 67;

/// The integer compression parameters.  The quality layer rates and
/// distortion ratios, and the multiple component transform matrix, are
/// floating-point values that the encoder's caller keeps beside them.
#[derive(Clone, Debug)]
pub struct opj_cparameters {
    pub tile_size_on: i32,
    pub cp_tx0: i32,
    pub cp_ty0: i32,
    pub cp_tdx: i32,
    pub cp_tdy: i32,
    pub cp_disto_alloc: i32,
    pub cp_fixed_alloc: i32,
    pub cp_fixed_quality: i32,
    /// The fixed allocation matrix, when `cp_fixed_alloc` is set.
    pub cp_matrice: Option<Vec<i32>>,
    pub tcp_numlayers: i32,
    pub csty: i32,
    pub prog_order: OPJ_PROG_ORDER,
    pub POC: Vec<opj_poc>,
    pub numpocs: u32,
    pub numresolution: i32,
    pub cblockw_init: i32,
    pub cblockh_init: i32,
    pub mode: i32,
    pub irreversible: i32,
    pub roi_compno: i32,
    pub roi_shift: i32,
    pub res_spec: i32,
    pub prcw_init: Vec<i32>,
    pub prch_init: Vec<i32>,
    pub image_offset_x0: i32,
    pub image_offset_y0: i32,
    pub subsampling_dx: i32,
    pub subsampling_dy: i32,
    pub tp_on: i8,
    pub tp_flag: i8,
    pub tcp_mct: i8,
    /// Deprecated cinema profile selector (0: none, 1: 2K at 24 fps, 2: 2K
    /// at 48 fps, 3: 4K at 24 fps), read only when `rsiz` is zero.
    pub cp_cinema: u32,
    /// Deprecated profile selector, read only when `rsiz` is zero.
    pub cp_rsiz: u32,
    pub max_cs_size: i32,
    pub max_comp_size: i32,
    pub rsiz: u16,
}

impl opj_cparameters {
    /// The precinct tables have one entry per resolution level and the
    /// progression order change table its fixed number of entries.
    pub open spec fn wf(&self) -> bool {
        &&& self.prcw_init@.len() == J2K_MAXRLVLS
        &&& self.prch_init@.len() == J2K_MAXRLVLS
        &&& self.POC@.len() == J2K_MAX_POCS
    }
}

/// The value of `v` read as an unsigned 32-bit integer.
pub open spec fn as_u32(v: i32) -> int {
    if v >= 0 {
        v as int
    } else {
        v + 0x1_0000_0000
    }
}

/// `v` read as an unsigned 32-bit integer.
pub fn to_u32(v: i32) -> (r: u32)
    ensures
        r == as_u32(v),
{
    proof {
        assert((v as u32) as int == if v >= 0 {
            v as int
        } else {
            v + 0x1_0000_0000
        }) by (bit_vector);
    }
    v as u32
}

/// The profile part of a capabilities value (its high byte).
pub open spec fn profile_of(rsiz: u16) -> int {
    (rsiz as int / 256) * 256
}

/// The main level of an IMF capabilities value (its low four bits).
pub open spec fn imf_mainlevel(rsiz: u16) -> int {
    rsiz as int % 16
}

/// The sub level of an IMF capabilities value (bits four to seven).
pub open spec fn imf_sublevel(rsiz: u16) -> int {
    (rsiz as int / 16) % 16
}

fn profile(rsiz: u16) -> (r: u16)
    ensures
        r == profile_of(rsiz),
{
    proof {
        assert(rsiz & 0xff00 == (rsiz / 256) * 256) by (bit_vector);
    }
    rsiz & 0xff00
}

/// The IMF 2K, 4K and 8K profiles (single tile, irreversible transform).
pub open spec fn is_imf_single_tile(profile: int) -> bool {
    profile == 0x400 || profile == 0x500 || profile == 0x600
}

/// The IMF profiles: 2K, 4K, 8K and their reversible variants.
pub open spec fn is_imf_profile(profile: int) -> bool {
    0x400 <= profile <= 0x900 && profile % 256 == 0
}

/// The tile width the IMF rules look at: the tile width when tiling is on,
/// else the image width.
pub open spec fn imf_xtsiz(p: opj_cparameters, image: opj_image) -> int {
    if p.tile_size_on != 0 {
        as_u32(p.cp_tdx)
    } else {
        image.x1 as int
    }
}

/// The most decomposition levels an IMF profile allows for a tile width, or
/// -1 when it sets no bound.
pub open spec fn imf_max_nl(profile: int, xtsiz: int) -> int {
    if profile == 0x400 {
        5
    } else if profile == 0x500 {
        6
    } else if profile == 0x600 {
        7
    } else if profile == 0x700 {
        if xtsiz >= 2048 {
            5
        } else if xtsiz >= 1024 {
            4
        } else {
            -1
        }
    } else if profile == 0x800 {
        if xtsiz >= 4096 {
            6
        } else if xtsiz >= 2048 {
            5
        } else if xtsiz >= 1024 {
            4
        } else {
            -1
        }
    } else if profile == 0x900 {
        if xtsiz >= 8192 {
            7
        } else if xtsiz >= 4096 {
            6
        } else if xtsiz >= 2048 {
            5
        } else if xtsiz >= 1024 {
            4
        } else {
            -1
        }
    } else {
        -1
    }
}

/// The most decomposition levels the IMF profile of the parameters allows,
/// or -1 when it sets no bound.
pub fn opj_j2k_get_imf_max_NL(parameters: &opj_cparameters, image: &opj_image) -> (r: i32)
    ensures
        r == imf_max_nl(profile_of(parameters.rsiz), imf_xtsiz(*parameters, *image)),
{
    let profile = profile(parameters.rsiz);
    let xtsiz: u32 = if parameters.tile_size_on != 0 {
        to_u32(parameters.cp_tdx)
    } else {
        image.x1
    };
    if profile == 0x400 {
        5
    } else if profile == 0x500 {
        6
    } else if profile == 0x600 {
        7
    } else if profile == 0x700 {
        if xtsiz >= 2048 {
            5
        } else if xtsiz >= 1024 {
            4
        } else {
            -1
        }
    } else if profile == 0x800 {
        if xtsiz >= 4096 {
            6
        } else if xtsiz >= 2048 {
            5
        } else if xtsiz >= 1024 {
            4
        } else {
            -1
        }
    } else if profile == 0x900 {
        if xtsiz >= 8192 {
            7
        } else if xtsiz >= 4096 {
            6
        } else if xtsiz >= 2048 {
            5
        } else if xtsiz >= 1024 {
            4
        } else {
            -1
        }
    } else {
        -1
    }
}

/// The largest number of resolutions, at most `n`, whose lowest resolution
/// still has a pixel across the image of size `w x h` (0 when none has).
pub open spec fn fit_resolutions(n: int, w: int, h: int) -> int
    decreases n,
{
    if n <= 0 {
        n
    } else if w >= vstd::arithmetic::power2::pow2((n - 1) as nat) && h >= vstd::arithmetic::power2::pow2(
        (n - 1) as nat,
    ) {
        n
    } else {
        fit_resolutions(n - 1, w, h)
    }
}

/// The default precincts: with one resolution a single 128 x 128 precinct,
/// else 256 x 256 precincts for the first `numresolution - 1` entries.
pub open spec fn default_precincts(p: opj_cparameters) -> bool {
    if p.numresolution == 1 {
        &&& p.res_spec == 1
        &&& p.prcw_init@[0] == 128
        &&& p.prch_init@[0] == 128
    } else {
        &&& p.res_spec == p.numresolution - 1
        &&& forall|i: int| 0 <= i < p.res_spec ==> #[trigger] p.prcw_init@[i] == 256
        &&& forall|i: int| 0 <= i < p.res_spec ==> #[trigger] p.prch_init@[i] == 256
    }
}

/// The precinct entries that the default precincts do not set are those of
/// `o`.
pub open spec fn other_precincts_kept(p: opj_cparameters, o: opj_cparameters) -> bool {
    let set = if p.numresolution == 1 {
        1
    } else if p.res_spec > 0 {
        p.res_spec as int
    } else {
        0
    };
    &&& p.prcw_init@.len() == o.prcw_init@.len()
    &&& p.prch_init@.len() == o.prch_init@.len()
    &&& forall|i: int| set <= i < J2K_MAXRLVLS ==> #[trigger] p.prcw_init@[i] == o.prcw_init@[i]
    &&& forall|i: int| set <= i < J2K_MAXRLVLS ==> #[trigger] p.prch_init@[i] == o.prch_init@[i]
}

/// The fields other than the precinct sizes are those of `b`.
pub open spec fn except_precincts(a: opj_cparameters, b: opj_cparameters) -> bool {
    &&& imf_frame(a, b)
    &&& a.cblockw_init == b.cblockw_init
    &&& a.cblockh_init == b.cblockh_init
    &&& a.tp_flag == b.tp_flag
    &&& a.tp_on == b.tp_on
    &&& a.prog_order == b.prog_order
    &&& a.irreversible == b.irreversible
    &&& a.numresolution == b.numresolution
    &&& a.csty == b.csty
    &&& a.rsiz == b.rsiz
}

/// Sets the default precincts.
fn set_default_precincts(parameters: &mut opj_cparameters)
    requires
        old(parameters).wf(),
        i32::MIN < old(parameters).numresolution <= J2K_MAXRLVLS + 1,
    ensures
        final(parameters).wf(),
        default_precincts(*final(parameters)),
        other_precincts_kept(*final(parameters), *old(parameters)),
        except_precincts(*final(parameters), *old(parameters)),
{
    if parameters.numresolution == 1 {
        parameters.res_spec = 1;
        parameters.prcw_init.set(0, 128);
        parameters.prch_init.set(0, 128);
    } else {
        parameters.res_spec = parameters.numresolution - 1;
        let mut i: i32 = 0;
        while i < parameters.res_spec
            invariant
                parameters.wf(),
                parameters.res_spec == parameters.numresolution - 1,
                except_precincts(*parameters, *old(parameters)),
                parameters.numresolution <= J2K_MAXRLVLS + 1,
                0 <= i,
                i <= parameters.res_spec || i == 0,
                forall|k: int| 0 <= k < i ==> #[trigger] parameters.prcw_init@[k] == 256,
                forall|k: int| 0 <= k < i ==> #[trigger] parameters.prch_init@[k] == 256,
                forall|k: int| i <= k < J2K_MAXRLVLS ==> #[trigger] parameters.prcw_init@[k]
                    == old(parameters).prcw_init@[k],
                forall|k: int| i <= k < J2K_MAXRLVLS ==> #[trigger] parameters.prch_init@[k]
                    == old(parameters).prch_init@[k],
            decreases parameters.res_spec - i,
        {
            parameters.prcw_init.set(i as usize, 256);
            parameters.prch_init.set(i as usize, 256);
            i = i + 1;
        }

    }
}

/// The fields that neither the IMF nor the cinema defaults change.
pub open spec fn profile_frame(a: opj_cparameters, b: opj_cparameters) -> bool {
    &&& a.cp_disto_alloc == b.cp_disto_alloc
    &&& a.cp_fixed_alloc == b.cp_fixed_alloc
    &&& a.cp_fixed_quality == b.cp_fixed_quality
    &&& a.cp_matrice == b.cp_matrice
    &&& a.numpocs == b.numpocs
    &&& a.roi_shift == b.roi_shift
    &&& a.tcp_mct == b.tcp_mct
    &&& a.cp_cinema == b.cp_cinema
    &&& a.cp_rsiz == b.cp_rsiz
}

/// The fields that the IMF defaults leave as they are.
pub open spec fn imf_frame(a: opj_cparameters, b: opj_cparameters) -> bool {
    &&& profile_frame(a, b)
    &&& a.tile_size_on == b.tile_size_on
    &&& a.cp_tx0 == b.cp_tx0
    &&& a.cp_ty0 == b.cp_ty0
    &&& a.cp_tdx == b.cp_tdx
    &&& a.cp_tdy == b.cp_tdy
    &&& a.tcp_numlayers == b.tcp_numlayers
    &&& a.POC@ == b.POC@
    &&& a.mode == b.mode
    &&& a.roi_compno == b.roi_compno
    &&& a.image_offset_x0 == b.image_offset_x0
    &&& a.image_offset_y0 == b.image_offset_y0
    &&& a.subsampling_dx == b.subsampling_dx
    &&& a.subsampling_dy == b.subsampling_dy
    &&& a.max_cs_size == b.max_cs_size
    &&& a.max_comp_size == b.max_comp_size
}

/// The number of resolutions the IMF defaults choose: when left at its
/// default of 6 on an image at the origin, it is bounded by the profile's
/// decomposition limit and, without tiling, reduced until the lowest
/// resolution still covers a pixel.
pub open spec fn imf_numresolution(p: opj_cparameters, image: opj_image) -> int {
    if p.numresolution == 6 && image.x0 == 0 && image.y0 == 0 {
        let m = imf_max_nl(profile_of(p.rsiz), imf_xtsiz(p, image));
        let n1 = if m >= 0 && 6 > m {
            m + 1
        } else {
            6
        };
        if p.tile_size_on == 0 {
            fit_resolutions(n1, image.x1 as int, image.y1 as int)
        } else {
            n1
        }
    } else {
        p.numresolution as int
    }
}

pub proof fn lemma_fit_bounds(n: int, w: int, h: int)
    ensures
        n > 0 ==> 0 <= fit_resolutions(n, w, h) <= n,
        n <= 0 ==> fit_resolutions(n, w, h) == n,
    decreases n,
{
    if n > 0 {
        lemma_fit_bounds(n - 1, w, h);
    }
}

/// The largest number of resolutions, at most `n`, that the image of size
/// `w x h` can hold.
fn fit_numresolution(n: i32, w: u32, h: u32) -> (r: i32)
    requires
        n <= 6,
    ensures
        r == fit_resolutions(n as int, w as int, h as int),
{
    proof {
        lemma_fit_bounds(n as int, w as int, h as int);
    }
    let mut k = n;
    let mut done = false;
    while k > 0 && !done
        invariant
            k <= n <= 6,
            done ==> k > 0 && k == fit_resolutions(k as int, w as int, h as int),
            fit_resolutions(k as int, w as int, h as int) == fit_resolutions(n as int, w as int, h as int),
        decreases k, if done { 0int } else { 1int },
    {
        let s: u32 = 1u32 << ((k - 1) as u32);
        proof {
            vstd::arithmetic::power2::lemma2_to64();
            vstd::bits::lemma_u32_pow2_no_overflow((k - 1) as nat);
            vstd::bits::lemma_u32_shl_is_mul(1, (k - 1) as u32);
        }
        if w < s {
            k = k - 1;
        } else {
            if h >= s {
                done = true;
            } else {
                k = k - 1;
            }
        }
    }
    k
}

/// `n` is `o` with the IMF defaults applied for the image (its capabilities
/// aside).
pub open spec fn imf_applied(n: opj_cparameters, o: opj_cparameters, image: opj_image) -> bool {
    &&& n.wf()
    &&& imf_frame(n, o)
    &&& o.cblockw_init == 64 && o.cblockh_init == 64 ==> n.cblockw_init == 32 && n.cblockh_init == 32
    &&& !(o.cblockw_init == 64 && o.cblockh_init == 64) ==> n.cblockw_init == o.cblockw_init
        && n.cblockh_init == o.cblockh_init
    &&& n.tp_flag == TP_FLAG_COMPONENT
    &&& n.tp_on == 1
    &&& n.prog_order == if o.prog_order == OPJ_LRCP {
        OPJ_CPRL
    } else {
        o.prog_order
    }
    &&& n.irreversible == if is_imf_single_tile(profile_of(o.rsiz)) {
        1
    } else {
        o.irreversible
    }
    &&& n.numresolution == imf_numresolution(o, image)
    &&& o.csty == 0 ==> {
        &&& n.csty == 1
        &&& default_precincts(n)
        &&& other_precincts_kept(n, o)
    }
    &&& o.csty != 0 ==> {
        &&& n.csty == o.csty
        &&& n.res_spec == o.res_spec
        &&& n.prcw_init@ == o.prcw_init@
        &&& n.prch_init@ == o.prch_init@
    }
}

/// The IMF defaults never raise the number of resolutions, and keep it
/// positive on an image that is at least one pixel wide and high.
pub proof fn lemma_imf_numresolution_bounds(p: opj_cparameters, image: opj_image)
    requires
        1 <= p.numresolution <= 33,
    ensures
        0 <= imf_numresolution(p, image) <= p.numresolution,
        image.x1 >= 1 && image.y1 >= 1 ==> imf_numresolution(p, image) >= 1,
{
    if p.numresolution == 6 && image.x0 == 0 && image.y0 == 0 {
        let m = imf_max_nl(profile_of(p.rsiz), imf_xtsiz(p, image));
        let n1 = if m >= 0 && 6 > m {
            m + 1
        } else {
            6
        };
        lemma_fit_bounds(n1, image.x1 as int, image.y1 as int);
        if image.x1 >= 1 && image.y1 >= 1 {
            lemma_fit_positive(n1, image.x1 as int, image.y1 as int);
        }
    }
}

proof fn lemma_fit_positive(n: int, w: int, h: int)
    requires
        n >= 1,
        w >= 1,
        h >= 1,
    ensures
        fit_resolutions(n, w, h) >= 1,
    decreases n,
{
    vstd::arithmetic::power2::lemma2_to64();
    if n > 1 {
        lemma_fit_positive(n - 1, w, h);
    }
}

/// Applies the IMF defaults: 32 x 32 code blocks in place of the default
/// 64 x 64, one tile part per component, CPRL in place of LRCP, the 9-7
/// transform for the single-tile profiles, a number of resolutions that
/// fits the profile and the image, and default precincts when none are
/// given.
pub fn opj_j2k_set_imf_parameters(parameters: &mut opj_cparameters, image: &opj_image)
    requires
        old(parameters).wf(),
        old(parameters).csty == 0 ==> i32::MIN < old(parameters).numresolution <= J2K_MAXRLVLS + 1,
    ensures
        imf_applied(*final(parameters), *old(parameters), *image),
        final(parameters).rsiz == old(parameters).rsiz,
{
    let profile = profile(parameters.rsiz);
    if parameters.cblockw_init == 64 && parameters.cblockh_init == 64 {
        parameters.cblockw_init = 32;
        parameters.cblockh_init = 32;
    }
    parameters.tp_flag = TP_FLAG_COMPONENT;
    parameters.tp_on = 1;
    if parameters.prog_order == OPJ_LRCP {
        parameters.prog_order = OPJ_CPRL;
    }
    if profile == 0x400 || profile == 0x500 || profile == 0x600 {
        parameters.irreversible = 1;
    }
    if parameters.numresolution == 6 && image.x0 == 0 && image.y0 == 0 {
        let max_nl = opj_j2k_get_imf_max_NL(parameters, image);
        if max_nl >= 0 && parameters.numresolution > max_nl {
            parameters.numresolution = max_nl + 1;
        }
        if parameters.tile_size_on == 0 {
            proof {
                lemma_fit_bounds(parameters.numresolution as int, image.x1 as int, image.y1 as int);
            }
            parameters.numresolution = fit_numresolution(parameters.numresolution, image.x1, image.y1);
        }
    }
    if parameters.csty == 0 {
        parameters.csty = 1;
        set_default_precincts(parameters);
    }
}

/// The most sub level an IMF main level allows.
pub open spec fn imf_max_sublevel(mainlevel: int) -> int {
    if mainlevel == 0 {
        15
    } else if mainlevel <= 3 {
        1
    } else {
        mainlevel - 2
    }
}

/// The IMF main level is at most 11 and the sub level within its bound.
pub open spec fn imf_levels_ok(rsiz: u16) -> bool {
    imf_mainlevel(rsiz) <= 11 && imf_sublevel(rsiz) <= imf_max_sublevel(imf_mainlevel(rsiz))
}

/// With tiling on, the single-tile profiles need a tile that covers the
/// image; the others also accept 1024 x 1024 tiles (and 2048 or 4096 square
/// tiles for the larger profiles).
pub open spec fn imf_tiles_ok(p: opj_cparameters, image: opj_image, profile: int) -> bool {
    let covers = as_u32(p.cp_tdx) >= image.x1 && as_u32(p.cp_tdy) >= image.y1;
    p.tile_size_on != 0 ==> if is_imf_single_tile(profile) {
        covers
    } else {
        ||| covers
        ||| p.cp_tdx == 1024 && p.cp_tdy == 1024
        ||| p.cp_tdx == 2048 && p.cp_tdy == 2048 && (profile == 0x500 || profile == 0x600)
        ||| p.cp_tdx == 4096 && p.cp_tdy == 4096 && profile == 0x600
    }
}

/// Component `i` is unsigned with 8 to 16 bits, not subsampled vertically,
/// and subsampled horizontally as the IMF rules allow: not for the first
/// component, by one or two for the second, as the previous one after that.
pub open spec fn imf_comp_ok(cs: Seq<crate::image::opj_image_comp>, i: int) -> bool {
    &&& 8 <= cs[i].prec <= 16
    &&& cs[i].sgnd == 0
    &&& i == 0 ==> cs[i].dx == 1
    &&& i == 1 ==> cs[i].dx == 1 || cs[i].dx == 2
    &&& i > 1 ==> cs[i].dx == cs[i - 1].dx
    &&& cs[i].dy == 1
}

/// The first component fits the largest picture of the profile.
pub open spec fn imf_size_ok(profile: int, w: u32, h: u32) -> bool {
    if profile == 0x400 || profile == 0x700 {
        w <= 2048 && h <= 1556
    } else if profile == 0x500 || profile == 0x800 {
        w <= 4096 && h <= 3112
    } else {
        w <= 8192 && h <= 6224
    }
}

/// Precinct entry `i` is 256 x 256.
pub open spec fn precinct_256(p: opj_cparameters, i: int) -> bool {
    p.prcw_init@[i] == 256 && p.prch_init@[i] == 256
}

/// The precincts are 128 x 128 with one resolution, else 256 x 256 for every
/// given entry.
pub open spec fn imf_precincts_ok(p: opj_cparameters) -> bool {
    if p.numresolution == 1 {
        p.res_spec == 1 && p.prcw_init@[0] == 128 && p.prch_init@[0] == 128
    } else {
        forall|i: int| 0 <= i < p.res_spec ==> #[trigger] precinct_256(p, i)
    }
}

/// Whether an image and its compression parameters meet the IMF profile
/// that `rsiz` names.
pub open spec fn imf_compliant_r(p: opj_cparameters, image: opj_image, rsiz: u16) -> bool {
    let profile = profile_of(rsiz);
    let cs = comps_of(image);
    let nl = p.numresolution - 1;
    let max_nl = imf_max_nl(profile, imf_xtsiz(p, image));
    &&& imf_levels_ok(rsiz)
    &&& image.numcomps <= 3
    &&& image.x0 == 0 && image.y0 == 0
    &&& p.cp_tx0 == 0 && p.cp_ty0 == 0
    &&& imf_tiles_ok(p, image, profile)
    &&& forall|i: int| 0 <= i < image.numcomps ==> #[trigger] imf_comp_ok(cs, i)
    &&& imf_size_ok(profile, cs[0].w, cs[0].h)
    &&& p.roi_compno == -1
    &&& p.cblockw_init == 32 && p.cblockh_init == 32
    &&& p.prog_order == OPJ_CPRL
    &&& p.numpocs == 0
    &&& p.mode == 0
    &&& if is_imf_single_tile(profile) {
        p.irreversible == 1
    } else {
        p.irreversible == 0
    }
    &&& p.tcp_numlayers == 1
    &&& max_nl >= 0 ==> 1 <= nl <= max_nl
    &&& imf_precincts_ok(p)
}

/// Whether an image and its compression parameters meet the IMF profile
/// that the parameters name.
pub open spec fn imf_compliant(p: opj_cparameters, image: opj_image) -> bool {
    imf_compliant_r(p, image, p.rsiz)
}

/// Checks an image and its compression parameters against the IMF profile
/// that the parameters name.
pub fn opj_j2k_is_imf_compliant(parameters: &opj_cparameters, image: &opj_image) -> (r: bool)
    requires
        parameters.wf(),
        is_imf_profile(profile_of(parameters.rsiz)),
        image.comps is Some,
        comps_of(*image).len() == image.numcomps,
        image.numcomps >= 1,
        parameters.numresolution > i32::MIN,
        parameters.numresolution != 1 ==> parameters.res_spec <= J2K_MAXRLVLS,
    ensures
        r == imf_compliant(*parameters, *image),
{
    let rsiz = parameters.rsiz;
    let profile = profile(rsiz);
    let mainlevel: u16 = rsiz & 0xf;
    let sublevel: u16 = (rsiz >> 4u16) & 0xf;
    proof {
        assert(rsiz & 0xf == rsiz % 16 && (rsiz >> 4u16) & 0xf == (rsiz / 16) % 16) by (bit_vector);
    }
    let nl = parameters.numresolution - 1;
    let xtsiz: u32 = if parameters.tile_size_on != 0 {
        to_u32(parameters.cp_tdx)
    } else {
        image.x1
    };
    let mut ret = true;
    if mainlevel > 11 {
        ret = false;
    } else {
        let max_sub: u16 = if mainlevel == 0 {
            15
        } else if mainlevel <= 3 {
            1
        } else {
            mainlevel - 2
        };
        if sublevel > max_sub {
            ret = false;
        }
    }
    if image.numcomps > 3 {
        ret = false;
    }
    if image.x0 != 0 || image.y0 != 0 {
        ret = false;
    }
    if parameters.cp_tx0 != 0 || parameters.cp_ty0 != 0 {
        ret = false;
    }
    if parameters.tile_size_on != 0 {
        let tdx = to_u32(parameters.cp_tdx);
        let tdy = to_u32(parameters.cp_tdy);
        if profile == 0x400 || profile == 0x500 || profile == 0x600 {
            if tdx < image.x1 || tdy < image.y1 {
                ret = false;
            }
        } else if !(tdx >= image.x1 && tdy >= image.y1) && !(parameters.cp_tdx == 1024
            && parameters.cp_tdy == 1024) && !(parameters.cp_tdx == 2048 && parameters.cp_tdy == 2048
            && (profile == 0x500 || profile == 0x600)) && !(parameters.cp_tdx == 4096
            && parameters.cp_tdy == 4096 && profile == 0x600) {
            ret = false;
        }
    }
    let comps = image.comps.as_ref().unwrap();
    let ghost cs = comps@;
    let mut comps_ok = true;
    let mut i: usize = 0;
    while i < comps.len()
        invariant
            i <= cs.len(),
            cs == comps@,
            cs == comps_of(*image),
            comps_ok <==> forall|j: int| 0 <= j < i ==> #[trigger] imf_comp_ok(cs, j),
        decreases cs.len() - i,
    {
        let c = &comps[i];
        let mut ok = c.prec >= 8 && c.prec <= 16 && c.sgnd == 0 && c.dy == 1;
        if i == 0 && c.dx != 1 {
            ok = false;
        }
        if i == 1 && c.dx != 1 && c.dx != 2 {
            ok = false;
        }
        if i > 1 && c.dx != comps[i - 1].dx {
            ok = false;
        }
        proof {
            assert(ok == imf_comp_ok(cs, i as int));
            if !comps_ok {
                let w = choose|j: int| 0 <= j < i && !#[trigger] imf_comp_ok(cs, j);
                assert(0 <= w < i + 1 && !imf_comp_ok(cs, w));
            }
        }
        comps_ok = comps_ok && ok;
        i = i + 1;
    }
    if !comps_ok {
        ret = false;
    }
    let w0 = comps[0].w;
    let h0 = comps[0].h;
    if profile == 0x400 || profile == 0x700 {
        if w0 > 2048 || h0 > 1556 {
            ret = false;
        }
    } else if profile == 0x500 || profile == 0x800 {
        if w0 > 4096 || h0 > 3112 {
            ret = false;
        }
    } else {
        if w0 > 8192 || h0 > 6224 {
            ret = false;
        }
    }
    if parameters.roi_compno != -1 {
        ret = false;
    }
    if parameters.cblockw_init != 32 || parameters.cblockh_init != 32 {
        ret = false;
    }
    if parameters.prog_order != OPJ_CPRL {
        ret = false;
    }
    if parameters.numpocs != 0 {
        ret = false;
    }
    if parameters.mode != 0 {
        ret = false;
    }
    if profile == 0x400 || profile == 0x500 || profile == 0x600 {
        if parameters.irreversible != 1 {
            ret = false;
        }
    } else if parameters.irreversible != 0 {
        ret = false;
    }
    if parameters.tcp_numlayers != 1 {
        ret = false;
    }
    let max_nl = opj_j2k_get_imf_max_NL(parameters, image);
    if max_nl >= 0 && !(1 <= nl && nl <= max_nl) {
        ret = false;
    }
    if parameters.numresolution == 1 {
        if parameters.res_spec != 1 || parameters.prcw_init[0] != 128 || parameters.prch_init[0]
            != 128 {
            ret = false;
        }
    } else {
        let mut prec_ok = true;
        let mut k: i32 = 0;
        while k < parameters.res_spec
            invariant
                parameters.wf(),
                parameters.res_spec <= J2K_MAXRLVLS,
                0 <= k,
                k <= parameters.res_spec || k == 0,
                prec_ok <==> forall|j: int| 0 <= j < k ==> #[trigger] precinct_256(*parameters, j),
            decreases parameters.res_spec - k,
        {
            let ok = parameters.prcw_init[k as usize] == 256 && parameters.prch_init[k as usize] == 256;
            proof {
                assert(ok == precinct_256(*parameters, k as int));
                if !prec_ok {
                    let w = choose|j: int| 0 <= j < k && !#[trigger] precinct_256(*parameters, j);
                    assert(0 <= w < k + 1 && !precinct_256(*parameters, w));
                }
            }
            prec_ok = prec_ok && ok;
            k = k + 1;
        }
        if !prec_ok {
            ret = false;
        }
    }
    ret
}

/// Fills the first two progression order changes of the 4K digital cinema
/// profile: all but the highest resolution, then the highest, for the three
/// components of the single layer, in CPRL order.  Returns their number.
pub fn opj_j2k_initialise_4K_poc(POC: &mut Vec<opj_poc>, numres: i32) -> (r: i32)
    requires
        old(POC)@.len() >= 2,
        numres > i32::MIN,
    ensures
        r == 2,
        final(POC)@.len() == old(POC)@.len(),
        forall|i: int| 2 <= i < old(POC)@.len() ==> #[trigger] final(POC)@[i] == old(POC)@[i],
        ({
            let p0 = final(POC)@[0];
            let p1 = final(POC)@[1];
            &&& p0.tile == 1 && p0.resno0 == 0 && p0.compno0 == 0 && p0.layno1 == 1
            &&& p0.resno1 == as_u32((numres - 1) as i32) && p0.compno1 == 3 && p0.prg1 == OPJ_CPRL
            &&& p1.tile == 1 && p1.resno0 == as_u32((numres - 1) as i32) && p1.compno0 == 0
            &&& p1.layno1 == 1 && p1.resno1 == as_u32(numres) && p1.compno1 == 3
            &&& p1.prg1 == OPJ_CPRL
            &&& p0.layno0 == old(POC)@[0].layno0 && p0.precno0 == old(POC)@[0].precno0
            &&& p0.precno1 == old(POC)@[0].precno1 && p0.prg == old(POC)@[0].prg
            &&& p0.compE == old(POC)@[0].compE && p0.resE == old(POC)@[0].resE
            &&& p0.prcE == old(POC)@[0].prcE && p0.layE == old(POC)@[0].layE
            &&& p1.layno0 == old(POC)@[1].layno0 && p1.precno0 == old(POC)@[1].precno0
            &&& p1.precno1 == old(POC)@[1].precno1 && p1.prg == old(POC)@[1].prg
            &&& p1.compE == old(POC)@[1].compE && p1.resE == old(POC)@[1].resE
            &&& p1.prcE == old(POC)@[1].prcE && p1.layE == old(POC)@[1].layE
        }),
{
    let mut p0 = POC[0];
    p0.tile = 1;
    p0.resno0 = 0;
    p0.compno0 = 0;
    p0.layno1 = 1;
    p0.resno1 = to_u32(numres - 1);
    p0.compno1 = 3;
    p0.prg1 = OPJ_CPRL;
    POC.set(0, p0);
    let mut p1 = POC[1];
    p1.tile = 1;
    p1.resno0 = to_u32(numres - 1);
    p1.compno0 = 0;
    p1.layno1 = 1;
    p1.resno1 = to_u32(numres);
    p1.compno1 = 3;
    p1.prg1 = OPJ_CPRL;
    POC.set(1, p1);
    2
}

/// The number of resolutions the digital cinema profiles allow: at most 6
/// for the 2K profile (3), between 1 and 7 for the 4K profile (4).
pub open spec fn cinema_numresolution(rsiz: u16, n: int) -> int {
    if rsiz == 3 && n > 6 {
        6
    } else if rsiz == 4 && n < 2 {
        1
    } else if rsiz == 4 && n > 7 {
        7
    } else {
        n
    }
}

/// `v` bounded to `limit`, with `limit` in place of a value that is not
/// positive.
pub open spec fn cinema_limit(v: int, limit: int) -> int {
    if v <= 0 || v > limit {
        limit
    } else {
        v
    }
}

/// Most bytes of a digital cinema codestream, and of one of its
/// components, per image at 24 images per second.
pub const CINEMA_24_CS: i32 = 1302083;
pub const CINEMA_24_COMP: i32 = 1041666;

/// `n` is `o` with the digital cinema profile applied to its integer
/// parameters (its capabilities aside).
pub open spec fn cinema_applied(n: opj_cparameters, o: opj_cparameters) -> bool {
    &&& n.wf()
    &&& profile_frame_kept_by_cinema(n, o)
    &&& n.tile_size_on == 0
    &&& n.cp_tdx == 1 && n.cp_tdy == 1
    &&& n.tp_flag == TP_FLAG_COMPONENT && n.tp_on == 1
    &&& n.cp_tx0 == 0 && n.cp_ty0 == 0
    &&& n.image_offset_x0 == 0 && n.image_offset_y0 == 0
    &&& n.cblockw_init == 32 && n.cblockh_init == 32
    &&& n.mode == 0
    &&& n.roi_compno == -1
    &&& n.subsampling_dx == 1 && n.subsampling_dy == 1
    &&& n.irreversible == 1
    &&& n.tcp_numlayers == if o.tcp_numlayers > 1 {
        1
    } else {
        o.tcp_numlayers
    }
    &&& n.numresolution == cinema_numresolution(o.rsiz, o.numresolution as int)
    &&& n.csty == o.csty | 1
    &&& default_precincts(n)
    &&& other_precincts_kept(n, o)
    &&& n.prog_order == OPJ_CPRL
    &&& o.rsiz == 4 ==> n.numpocs == 2
    &&& o.rsiz != 4 ==> n.numpocs == 0
    &&& n.POC@.len() == o.POC@.len()
    &&& o.rsiz == 4 ==> {
        let p0 = n.POC@[0];
        let p1 = n.POC@[1];
        let nres = n.numresolution;
        &&& p0.tile == 1 && p0.resno0 == 0 && p0.compno0 == 0 && p0.layno1 == 1
        &&& p0.resno1 == nres - 1 && p0.compno1 == 3 && p0.prg1 == OPJ_CPRL
        &&& p1.tile == 1 && p1.resno0 == nres - 1 && p1.compno0 == 0 && p1.layno1 == 1
        &&& p1.resno1 == nres && p1.compno1 == 3 && p1.prg1 == OPJ_CPRL
    }
    &&& o.rsiz != 4 ==> n.POC@ == o.POC@
    &&& forall|i: int| 2 <= i < J2K_MAX_POCS ==> #[trigger] n.POC@[i] == o.POC@[i]
    &&& n.cp_disto_alloc == 1
    &&& n.max_cs_size == cinema_limit(o.max_cs_size as int, CINEMA_24_CS as int)
    &&& n.max_comp_size == cinema_limit(o.max_comp_size as int, CINEMA_24_COMP as int)
}

/// The fields that the digital cinema profile leaves as they are.
pub open spec fn profile_frame_kept_by_cinema(n: opj_cparameters, o: opj_cparameters) -> bool {
    &&& n.cp_fixed_alloc == o.cp_fixed_alloc
    &&& n.cp_fixed_quality == o.cp_fixed_quality
    &&& n.cp_matrice == o.cp_matrice
    &&& n.roi_shift == o.roi_shift
    &&& n.tcp_mct == o.tcp_mct
    &&& n.cp_cinema == o.cp_cinema
    &&& n.cp_rsiz == o.cp_rsiz
}

/// Applies the digital cinema profile (2K or 4K) to the integer parameters:
/// no tiling, one tile part per component, tile and image at the origin,
/// 32 x 32 code blocks without mode switches, no region of interest or
/// subsampling, the 9-7 transform, one quality layer, a number of
/// resolutions the profile allows, default precincts, CPRL order (with the
/// two progression changes of the 4K profile), rate allocation, and the
/// profile's size limits.  The rate of the single layer (the last rate when
/// there were several, else a rate derived from the size limit) is a
/// floating-point value that the caller sets.
pub fn opj_j2k_set_cinema_parameters(parameters: &mut opj_cparameters)
    requires
        old(parameters).wf(),
        old(parameters).numresolution > i32::MIN,
        old(parameters).rsiz == 3 || old(parameters).rsiz == 4 || old(parameters).numresolution
            <= J2K_MAXRLVLS + 1,
    ensures
        cinema_applied(*final(parameters), *old(parameters)),
        final(parameters).rsiz == old(parameters).rsiz,
{
    parameters.tile_size_on = 0;
    parameters.cp_tdx = 1;
    parameters.cp_tdy = 1;
    parameters.tp_flag = TP_FLAG_COMPONENT;
    parameters.tp_on = 1;
    parameters.cp_tx0 = 0;
    parameters.cp_ty0 = 0;
    parameters.image_offset_x0 = 0;
    parameters.image_offset_y0 = 0;
    parameters.cblockw_init = 32;
    parameters.cblockh_init = 32;
    parameters.mode = 0;
    parameters.roi_compno = -1;
    parameters.subsampling_dx = 1;
    parameters.subsampling_dy = 1;
    parameters.irreversible = 1;
    if parameters.tcp_numlayers > 1 {
        parameters.tcp_numlayers = 1;
    }
    if parameters.rsiz == 3 {
        if parameters.numresolution > 6 {
            parameters.numresolution = 6;
        }
    } else if parameters.rsiz == 4 {
        if parameters.numresolution < 2 {
            parameters.numresolution = 1;
        } else if parameters.numresolution > 7 {
            parameters.numresolution = 7;
        }
    }
    parameters.csty = parameters.csty | 1;
    set_default_precincts(parameters);
    parameters.prog_order = OPJ_CPRL;
    if parameters.rsiz == 4 {
        let n = parameters.numresolution;
        parameters.numpocs = opj_j2k_initialise_4K_poc(&mut parameters.POC, n) as u32;
    } else {
        parameters.numpocs = 0;
    }
    parameters.cp_disto_alloc = 1;
    if parameters.max_cs_size <= 0 {
        parameters.max_cs_size = CINEMA_24_CS;
    } else if parameters.max_cs_size > CINEMA_24_CS {
        parameters.max_cs_size = CINEMA_24_CS;
    }
    if parameters.max_comp_size <= 0 {
        parameters.max_comp_size = CINEMA_24_COMP;
    } else if parameters.max_comp_size > CINEMA_24_COMP {
        parameters.max_comp_size = CINEMA_24_COMP;
    }
}

/// Whether an image meets the digital cinema profile `rsiz`: three unsigned
/// 12-bit components, and a first component of at most 2048 x 1080 (2K) or
/// 4096 x 2160 (4K).
pub open spec fn cinema_compliant(image: opj_image, rsiz: u16) -> bool {
    let cs = comps_of(image);
    &&& image.numcomps == 3
    &&& forall|i: int| 0 <= i < 3 ==> #[trigger] cs[i].prec == 12 && cs[i].sgnd == 0
    &&& rsiz == 3 ==> cs[0].w <= 2048 && cs[0].h <= 1080
    &&& rsiz == 4 ==> cs[0].w <= 4096 && cs[0].h <= 2160
}

/// Checks an image against the digital cinema profile `rsiz`.
pub fn opj_j2k_is_cinema_compliant(image: &opj_image, rsiz: u16) -> (r: bool)
    requires
        image.comps is Some,
        comps_of(*image).len() == image.numcomps,
    ensures
        r == cinema_compliant(*image, rsiz),
{
    if image.numcomps != 3 {
        return false;
    }
    let comps = image.comps.as_ref().unwrap();
    let mut i: usize = 0;
    while i < 3
        invariant
            i <= 3,
            comps@ == comps_of(*image),
            comps@.len() == 3,
            forall|j: int| 0 <= j < i ==> #[trigger] comps@[j].prec == 12 && comps@[j].sgnd == 0,
        decreases 3 - i,
    {
        if comps[i].prec != 12 || comps[i].sgnd != 0 {
            return false;
        }
        i = i + 1;
    }
    assert(forall|j: int| 0 <= j < 3 ==> #[trigger] comps_of(*image)[j].prec == 12
        && comps_of(*image)[j].sgnd == 0);
    if rsiz == 3 {
        if comps[0].w > 2048 || comps[0].h > 1080 {
            return false;
        }
    } else if rsiz == 4 {
        if comps[0].w > 4096 || comps[0].h > 2160 {
            return false;
        }
    }
    true
}

/// Progression order change `poc` applies to tile `tileno` and covers the
/// packet of layer `l`, resolution `r` and component `c` (each within the
/// tile's counts; layers always start at zero).
pub open spec fn poc_covers(poc: opj_poc, tileno: u32, l: int, r: int, c: int) -> bool {
    &&& poc.tile == (tileno as int + 1) % 0x1_0000_0000
    &&& poc.resno0 <= r < poc.resno1
    &&& poc.compno0 <= c < poc.compno1
    &&& 0 <= l < poc.layno1
}

/// One of the first `n` changes covers the packet `(l, r, c)`.
pub open spec fn pocs_cover(pocs: Seq<opj_poc>, n: int, tileno: u32, l: int, r: int, c: int) -> bool {
    exists|i: int| 0 <= i < n && #[trigger] poc_covers(pocs[i], tileno, l, r, c)
}

/// Every packet of the tile (every layer, resolution and component) is
/// covered by one of the first `n` changes.
pub open spec fn pocs_complete(
    pocs: Seq<opj_poc>,
    n: int,
    tileno: u32,
    nb_res: int,
    num_comps: int,
    num_layers: int,
) -> bool {
    forall|l: int, r: int, c: int|
        0 <= l < num_layers && 0 <= r < nb_res && 0 <= c < num_comps ==> #[trigger] pocs_cover(
            pocs,
            n,
            tileno,
            l,
            r,
            c,
        )
}

/// The position of packet `(l, r, c)` in a table ordered by layer, then
/// resolution, then component.
pub open spec fn packet_index(l: int, r: int, c: int, nb_res: int, num_comps: int) -> int {
    l * (nb_res * num_comps) + r * num_comps + c
}

proof fn lemma_packet_index(l: int, r: int, c: int, nb_res: int, num_comps: int, num_layers: int)
    by (nonlinear_arith)
    requires
        0 <= l < num_layers,
        0 <= r < nb_res,
        0 <= c < num_comps,
    ensures
        0 <= packet_index(l, r, c, nb_res, num_comps) < num_layers * nb_res * num_comps,
        r * num_comps + c < nb_res * num_comps,
{
    assert(r * num_comps + c < nb_res * num_comps) by {
        assert(r * num_comps + c < (r + 1) * num_comps);
        assert((r + 1) * num_comps <= nb_res * num_comps);
    }
    assert(l * (nb_res * num_comps) + (nb_res * num_comps) <= num_layers * (nb_res * num_comps));
}

proof fn lemma_packet_index_inj(
    l1: int,
    r1: int,
    c1: int,
    l2: int,
    r2: int,
    c2: int,
    nb_res: int,
    num_comps: int,
)
    requires
        0 <= r1 < nb_res,
        0 <= c1 < num_comps,
        0 <= r2 < nb_res,
        0 <= c2 < num_comps,
        0 <= l1,
        0 <= l2,
        packet_index(l1, r1, c1, nb_res, num_comps) == packet_index(l2, r2, c2, nb_res, num_comps),
    ensures
        l1 == l2 && r1 == r2 && c1 == c2,
{
    let rc = nb_res * num_comps;
    lemma_packet_index(l1, r1, c1, nb_res, num_comps, l1 + 1);
    lemma_packet_index(l2, r2, c2, nb_res, num_comps, l2 + 1);
    vstd::arithmetic::div_mod::lemma_fundamental_div_mod_converse(
        packet_index(l1, r1, c1, nb_res, num_comps),
        rc,
        l1,
        r1 * num_comps + c1,
    );
    vstd::arithmetic::div_mod::lemma_fundamental_div_mod_converse(
        packet_index(l2, r2, c2, nb_res, num_comps),
        rc,
        l2,
        r2 * num_comps + c2,
    );
    vstd::arithmetic::div_mod::lemma_fundamental_div_mod_converse(r1 * num_comps + c1, num_comps, r1, c1);
    vstd::arithmetic::div_mod::lemma_fundamental_div_mod_converse(r2 * num_comps + c2, num_comps, r2, c2);
}

/// Every position below `num_layers * nb_res * num_comps` is the position of
/// a packet.
proof fn lemma_packet_of_index(k: int, nb_res: int, num_comps: int, num_layers: int)
    requires
        nb_res > 0,
        num_comps > 0,
        0 <= k < num_layers * nb_res * num_comps,
    ensures
        ({
            let l = k / (nb_res * num_comps);
            let r = (k % (nb_res * num_comps)) / num_comps;
            let c = k % num_comps;
            &&& 0 <= l < num_layers && 0 <= r < nb_res && 0 <= c < num_comps
            &&& packet_index(l, r, c, nb_res, num_comps) == k
        }),
{
    let rc = nb_res * num_comps;
    assert(rc > 0) by (nonlinear_arith)
        requires
            nb_res > 0,
            num_comps > 0,
            rc == nb_res * num_comps,
    ;
    vstd::arithmetic::div_mod::lemma_fundamental_div_mod(k, rc);
    let m = k % rc;
    vstd::arithmetic::div_mod::lemma_fundamental_div_mod(m, num_comps);
    vstd::arithmetic::div_mod::lemma_mod_mod(k, num_comps, nb_res);
    assert(num_comps * nb_res == rc) by (nonlinear_arith)
        requires
            rc == nb_res * num_comps,
    ;
    assert(k / rc < num_layers) by (nonlinear_arith)
        requires
            0 <= k < num_layers * nb_res * num_comps,
            rc == nb_res * num_comps,
            rc > 0,
            k == rc * (k / rc) + k % rc,
            0 <= k % rc,
    ;
    assert(m / num_comps < nb_res) by (nonlinear_arith)
        requires
            0 <= m < rc,
            rc == nb_res * num_comps,
            num_comps > 0,
            m == num_comps * (m / num_comps) + m % num_comps,
            0 <= m % num_comps,
    ;
    assert(packet_index(k / rc, m / num_comps, k % num_comps, nb_res, num_comps) == k) by (nonlinear_arith)
        requires
            k == rc * (k / rc) + m,
            m == num_comps * (m / num_comps) + m % num_comps,
            m % num_comps == k % num_comps,
            rc == nb_res * num_comps,
    ;
    assert(k / rc >= 0 && m / num_comps >= 0) by (nonlinear_arith)
        requires
            k >= 0,
            m >= 0,
            rc > 0,
            num_comps > 0,
    ;
}

/// The packets of one progression change marked so far: those of earlier
/// changes, and those of change `poc` before resolution `rc`, component `cc`
/// of that resolution, layer `lc` of that component.
pub open spec fn marked_upto(
    pocs: Seq<opj_poc>,
    i: int,
    tileno: u32,
    rc: int,
    cc: int,
    lc: int,
    l: int,
    r: int,
    c: int,
) -> bool {
    ||| pocs_cover(pocs, i, tileno, l, r, c)
    ||| (poc_covers(pocs[i], tileno, l, r, c) && (r < rc || (r == rc && (c < cc || (c == cc && l
        < lc)))))
}

/// Whether the first `nb_pocs` progression order changes, among those that
/// apply to tile `tileno`, cover every packet of the tile: every layer
/// below `num_layers`, resolution below `nb_res` and component below
/// `num_comps`.
pub fn opj_j2k_check_poc_val(
    p_pocs: &[opj_poc],
    tileno: u32,
    nb_pocs: u32,
    nb_res: u32,
    num_comps: u32,
    num_layers: u32,
) -> (r: bool)
    requires
        0 < nb_pocs <= p_pocs@.len(),
        num_layers * nb_res * num_comps <= u32::MAX,
    ensures
        r == pocs_complete(
            p_pocs@,
            nb_pocs as int,
            tileno,
            nb_res as int,
            num_comps as int,
            num_layers as int,
        ),
{
    let ghost pocs = p_pocs@;
    let ghost nr = nb_res as int;
    let ghost nc = num_comps as int;
    let ghost nl = num_layers as int;
    assert((nl >= 1 ==> nr * nc <= nl * nr * nc && nl * (nr * nc) == nl * nr * nc) && (nl == 0
        ==> nl * nr * nc == 0)) by (nonlinear_arith)
        requires
            nl >= 0,
            nr >= 0,
            nc >= 0,
    ;
    let total: u32 = if num_layers == 0 {
        0
    } else {
        num_layers * (nb_res * num_comps)
    };
    assert(total == nl * nr * nc);
    let step_r: u32 = num_comps;
    let step_l: u32 = if num_layers == 0 {
        0
    } else {
        nb_res * num_comps
    };
    let mut packets: Vec<bool> = Vec::new();
    let mut k: u32 = 0;
    while k < total
        invariant
            k <= total,
            packets@.len() == k,
            forall|j: int| 0 <= j < k ==> !#[trigger] packets@[j],
        decreases total - k,
    {
        packets.push(false);
        k = k + 1;
    }
    proof {
        assert forall|l: int, r: int, c: int|
            0 <= l < nl && 0 <= r < nr && 0 <= c < nc implies packets@[packet_index(l, r, c, nr, nc)]
            == #[trigger] pocs_cover(pocs, 0, tileno, l, r, c) by {
            lemma_packet_index(l, r, c, nr, nc, nl);
        }
    }
    let mut i: u32 = 0;
    while i < nb_pocs
        invariant
            i <= nb_pocs <= pocs.len(),
            pocs == p_pocs@,
            nr == nb_res as int && nc == num_comps as int && nl == num_layers as int,
            total == nl * nr * nc,
            nl * nr * nc <= u32::MAX,
            step_r == nc,
            nl > 0 ==> step_l == nr * nc,
            packets@.len() == total,
            forall|l: int, r: int, c: int|
                0 <= l < nl && 0 <= r < nr && 0 <= c < nc ==> packets@[packet_index(
                    l,
                    r,
                    c,
                    nr,
                    nc,
                )] == #[trigger] pocs_cover(pocs, i as int, tileno, l, r, c),
        decreases nb_pocs - i,
    {
        let poc = p_pocs[i as usize];
        if tileno.wrapping_add(1) == poc.tile {
            let res_end = if poc.resno1 < nb_res { poc.resno1 } else { nb_res };
            let comp_end = if poc.compno1 < num_comps { poc.compno1 } else { num_comps };
            let lay_end = if poc.layno1 < num_layers { poc.layno1 } else { num_layers };
            proof {
                assert forall|l: int, r: int, c: int|
                    0 <= l < nl && 0 <= r < nr && 0 <= c < nc implies packets@[packet_index(
                        l,
                        r,
                        c,
                        nr,
                        nc,
                    )] == #[trigger] marked_upto(
                        pocs,
                        i as int,
                        tileno,
                        poc.resno0 as int,
                        0,
                        0,
                        l,
                        r,
                        c,
                    ) by {
                    assert(packets@[packet_index(l, r, c, nr, nc)] == pocs_cover(
                        pocs,
                        i as int,
                        tileno,
                        l,
                        r,
                        c,
                    ));
                }
            }
            let mut resno = poc.resno0;
            while resno < res_end
                invariant
                    pocs == p_pocs@,
                    poc == pocs[i as int],
                    poc.tile == (tileno as int + 1) % 0x1_0000_0000,
                    i < nb_pocs <= pocs.len(),
                    nr == nb_res as int && nc == num_comps as int && nl == num_layers as int,
                    total == nl * nr * nc,
                    nl * nr * nc <= u32::MAX,
                    step_r == nc,
                    nl > 0 ==> step_l == nr * nc,
                    res_end <= nr,
                    comp_end <= nc,
                    lay_end <= nl,
                    res_end == (if poc.resno1 < nb_res { poc.resno1 } else { nb_res }),
                    comp_end == (if poc.compno1 < num_comps { poc.compno1 } else { num_comps }),
                    lay_end == (if poc.layno1 < num_layers { poc.layno1 } else { num_layers }),
                    poc.resno0 <= resno,
                    resno <= res_end || resno == poc.resno0,
                    packets@.len() == total,
                    forall|l: int, r: int, c: int|
                        0 <= l < nl && 0 <= r < nr && 0 <= c < nc ==> packets@[packet_index(
                            l,
                            r,
                            c,
                            nr,
                            nc,
                        )] == #[trigger] marked_upto(pocs, i as int, tileno, resno as int, 0, 0, l, r, c),
                decreases res_end - resno,
            {
                proof {
                    assert forall|l: int, r: int, c: int|
                        0 <= l < nl && 0 <= r < nr && 0 <= c < nc implies packets@[packet_index(
                            l,
                            r,
                            c,
                            nr,
                            nc,
                        )] == #[trigger] marked_upto(
                            pocs,
                            i as int,
                            tileno,
                            resno as int,
                            poc.compno0 as int,
                            0,
                            l,
                            r,
                            c,
                        ) by {
                        assert(packets@[packet_index(l, r, c, nr, nc)] == marked_upto(
                            pocs,
                            i as int,
                            tileno,
                            resno as int,
                            0,
                            0,
                            l,
                            r,
                            c,
                        ));
                    }
                }
                let mut compno = poc.compno0;
                while compno < comp_end
                    invariant
                        pocs == p_pocs@,
                        poc == pocs[i as int],
                        poc.tile == (tileno as int + 1) % 0x1_0000_0000,
                        i < nb_pocs <= pocs.len(),
                        nr == nb_res as int && nc == num_comps as int && nl == num_layers as int,
                        total == nl * nr * nc,
                        nl * nr * nc <= u32::MAX,
                        step_r == nc,
                        nl > 0 ==> step_l == nr * nc,
                        res_end <= nr,
                        comp_end <= nc,
                        lay_end <= nl,
                        comp_end == (if poc.compno1 < num_comps { poc.compno1 } else { num_comps }),
                        lay_end == (if poc.layno1 < num_layers { poc.layno1 } else { num_layers }),
                        res_end == (if poc.resno1 < nb_res { poc.resno1 } else { nb_res }),
                        poc.resno0 <= resno < res_end,
                        poc.compno0 <= compno,
                        compno <= comp_end || compno == poc.compno0,
                        packets@.len() == total,
                        forall|l: int, r: int, c: int|
                            0 <= l < nl && 0 <= r < nr && 0 <= c < nc ==> packets@[packet_index(
                                l,
                                r,
                                c,
                                nr,
                                nc,
                            )] == #[trigger] marked_upto(
                                pocs,
                                i as int,
                                tileno,
                                resno as int,
                                compno as int,
                                0,
                                l,
                                r,
                                c,
                            ),
                    decreases comp_end - compno,
                {
                    let mut layno: u32 = 0;
                    while layno < lay_end
                        invariant
                            pocs == p_pocs@,
                            poc == pocs[i as int],
                            poc.tile == (tileno as int + 1) % 0x1_0000_0000,
                            i < nb_pocs <= pocs.len(),
                            nr == nb_res as int && nc == num_comps as int && nl == num_layers as int,
                            total == nl * nr * nc,
                            nl * nr * nc <= u32::MAX,
                            step_r == nc,
                            nl > 0 ==> step_l == nr * nc,
                            res_end <= nr,
                            comp_end <= nc,
                            lay_end <= nl,
                            lay_end == (if poc.layno1 < num_layers { poc.layno1 } else { num_layers }),
                            res_end == (if poc.resno1 < nb_res { poc.resno1 } else { nb_res }),
                            comp_end == (if poc.compno1 < num_comps { poc.compno1 } else { num_comps }),
                            poc.resno0 <= resno < res_end,
                            poc.compno0 <= compno < comp_end,
                            layno <= lay_end,
                            packets@.len() == total,
                            forall|l: int, r: int, c: int|
                                0 <= l < nl && 0 <= r < nr && 0 <= c < nc ==> packets@[packet_index(
                                    l,
                                    r,
                                    c,
                                    nr,
                                    nc,
                                )] == #[trigger] marked_upto(
                                    pocs,
                                    i as int,
                                    tileno,
                                    resno as int,
                                    compno as int,
                                    layno as int,
                                    l,
                                    r,
                                    c,
                                ),
                        decreases lay_end - layno,
                    {
                        proof {
                            lemma_packet_index(layno as int, resno as int, compno as int, nr, nc, nl);
                        }
                        let idx = layno * step_l + resno * step_r + compno;
                        assert(idx == packet_index(layno as int, resno as int, compno as int, nr, nc));
                        assert(poc_covers(pocs[i as int], tileno, layno as int, resno as int, compno as int));
                        let ghost before = packets@;
                        packets.set(idx as usize, true);
                        proof {
                            assert forall|l: int, r: int, c: int|
                                0 <= l < nl && 0 <= r < nr && 0 <= c < nc implies packets@[packet_index(
                                    l,
                                    r,
                                    c,
                                    nr,
                                    nc,
                                )] == #[trigger] marked_upto(
                                    pocs,
                                    i as int,
                                    tileno,
                                    resno as int,
                                    compno as int,
                                    layno + 1,
                                    l,
                                    r,
                                    c,
                                ) by {
                                lemma_packet_index(l, r, c, nr, nc, nl);
                                if packet_index(l, r, c, nr, nc) == idx {
                                    lemma_packet_index_inj(
                                        l,
                                        r,
                                        c,
                                        layno as int,
                                        resno as int,
                                        compno as int,
                                        nr,
                                        nc,
                                    );
                                }
                                assert(before[packet_index(l, r, c, nr, nc)] == marked_upto(
                                    pocs,
                                    i as int,
                                    tileno,
                                    resno as int,
                                    compno as int,
                                    layno as int,
                                    l,
                                    r,
                                    c,
                                ));
                            }
                        }
                        layno = layno + 1;
                    }
                    proof {
                        assert forall|l: int, r: int, c: int|
                            0 <= l < nl && 0 <= r < nr && 0 <= c < nc implies packets@[packet_index(
                                l,
                                r,
                                c,
                                nr,
                                nc,
                            )] == #[trigger] marked_upto(
                                pocs,
                                i as int,
                                tileno,
                                resno as int,
                                compno + 1,
                                0,
                                l,
                                r,
                                c,
                            ) by {
                            assert(packets@[packet_index(l, r, c, nr, nc)] == marked_upto(
                                pocs,
                                i as int,
                                tileno,
                                resno as int,
                                compno as int,
                                layno as int,
                                l,
                                r,
                                c,
                            ));
                        }
                    }
                    compno = compno + 1;
                }
                proof {
                    assert forall|l: int, r: int, c: int|
                        0 <= l < nl && 0 <= r < nr && 0 <= c < nc implies packets@[packet_index(
                            l,
                            r,
                            c,
                            nr,
                            nc,
                        )] == #[trigger] marked_upto(pocs, i as int, tileno, resno + 1, 0, 0, l, r, c) by {
                        assert(packets@[packet_index(l, r, c, nr, nc)] == marked_upto(
                            pocs,
                            i as int,
                            tileno,
                            resno as int,
                            compno as int,
                            0,
                            l,
                            r,
                            c,
                        ));
                    }
                }
                resno = resno + 1;
            }
            proof {
                assert forall|l: int, r: int, c: int|
                    0 <= l < nl && 0 <= r < nr && 0 <= c < nc implies packets@[packet_index(
                        l,
                        r,
                        c,
                        nr,
                        nc,
                    )] == #[trigger] pocs_cover(pocs, i + 1, tileno, l, r, c) by {
                    assert(packets@[packet_index(l, r, c, nr, nc)] == marked_upto(
                        pocs,
                        i as int,
                        tileno,
                        resno as int,
                        0,
                        0,
                        l,
                        r,
                        c,
                    ));
                    if poc_covers(pocs[i as int], tileno, l, r, c) {
                        assert(pocs_cover(pocs, i + 1, tileno, l, r, c));
                    }
                    if pocs_cover(pocs, i + 1, tileno, l, r, c) {
                        let w = choose|j: int|
                            0 <= j < i + 1 && #[trigger] poc_covers(pocs[j], tileno, l, r, c);
                        if w < i {
                            assert(pocs_cover(pocs, i as int, tileno, l, r, c));
                        }
                    }
                }
            }
        } else {
            proof {
                assert forall|l: int, r: int, c: int|
                    0 <= l < nl && 0 <= r < nr && 0 <= c < nc implies packets@[packet_index(
                        l,
                        r,
                        c,
                        nr,
                        nc,
                    )] == #[trigger] pocs_cover(pocs, i + 1, tileno, l, r, c) by {
                    assert(packets@[packet_index(l, r, c, nr, nc)] == pocs_cover(
                        pocs,
                        i as int,
                        tileno,
                        l,
                        r,
                        c,
                    ));
                    if pocs_cover(pocs, i + 1, tileno, l, r, c) {
                        let w = choose|j: int|
                            0 <= j < i + 1 && #[trigger] poc_covers(pocs[j], tileno, l, r, c);
                        assert(w < i);
                    }
                }
            }
        }
        i = i + 1;
    }
    let mut all = true;
    let mut k: u32 = 0;
    while k < total
        invariant
            k <= total,
            packets@.len() == total,
            all <==> forall|j: int| 0 <= j < k ==> #[trigger] packets@[j],
        decreases total - k,
    {
        if !packets[k as usize] {
            all = false;
        }
        k = k + 1;
    }
    proof {
        if all {
            assert forall|l: int, r: int, c: int|
                0 <= l < nl && 0 <= r < nr && 0 <= c < nc implies #[trigger] pocs_cover(
                    pocs,
                    nb_pocs as int,
                    tileno,
                    l,
                    r,
                    c,
                ) by {
                lemma_packet_index(l, r, c, nr, nc, nl);
            }
        } else {
            let w = choose|j: int| 0 <= j < total && !#[trigger] packets@[j];
            lemma_packet_of_index(w, nr, nc, nl);
            let l = w / (nr * nc);
            let r = (w % (nr * nc)) / nc;
            let c = w % nc;
            assert(!pocs_cover(pocs, nb_pocs as int, tileno, l, r, c));
        }
    }
    all
}


/// The digital cinema profiles bound the number of resolutions: the 2K
/// profile keeps a requested number up to 6 (five decomposition levels) and
/// lowers a larger one to 6; the 4K profile keeps a requested number from 2
/// to 7, raises a smaller one to 1 and lowers a larger one to 7.
pub proof fn lemma_cinema_numresolution(q: opj_cparameters, p: opj_cparameters)
    requires
        cinema_applied(q, p),
    ensures
        p.rsiz == 3 ==> q.numresolution == if p.numresolution <= 6 {
            p.numresolution
        } else {
            6
        },
        p.rsiz == 3 ==> q.numresolution <= 6,
        p.rsiz == 4 ==> q.numresolution == if p.numresolution < 2 {
            1
        } else if p.numresolution > 7 {
            7
        } else {
            p.numresolution
        },
        p.rsiz == 4 ==> 1 <= q.numresolution <= 7,
{
}

/// The IMF profiles fix the wavelet transform: parameters compliant with the
/// 2K, 4K or 8K profile (0x400, 0x500, 0x600) use the irreversible 9-7
/// transform, and parameters compliant with a reversible profile (0x700,
/// 0x800, 0x900) the reversible 5-3 one.
pub proof fn lemma_imf_wavelet(p: opj_cparameters, image: opj_image)
    requires
        imf_compliant(p, image),
    ensures
        (profile_of(p.rsiz) == 0x400 || profile_of(p.rsiz) == 0x500 || profile_of(p.rsiz) == 0x600)
            ==> p.irreversible == 1,
        (profile_of(p.rsiz) == 0x700 || profile_of(p.rsiz) == 0x800 || profile_of(p.rsiz) == 0x900)
            ==> p.irreversible == 0,
{
}

/// Setting up the 2K, 4K or 8K IMF profile selects the irreversible 9-7
/// transform, which those profiles require.
pub proof fn lemma_imf_setup_wavelet(n: opj_cparameters, o: opj_cparameters, image: opj_image)
    requires
        imf_applied(n, o, image),
        profile_of(o.rsiz) == 0x400 || profile_of(o.rsiz) == 0x500 || profile_of(o.rsiz) == 0x600,
    ensures
        n.irreversible == 1,
{
}


/// The digital cinema profiles encode a single tile in component-wise tile
/// parts, in the CPRL order with one quality layer at most, with 32 x 32
/// code blocks in the default mode, the irreversible transform, no
/// subsampling and no region of interest, and precincts of 256 x 256 (128 x
/// 128 with a single resolution); the 4K profile adds two progression order
/// changes that split the last resolution off.
pub proof fn lemma_cinema_settings(q: opj_cparameters, p: opj_cparameters)
    requires
        cinema_applied(q, p),
    ensures
        q.tile_size_on == 0 && q.cp_tx0 == 0 && q.cp_ty0 == 0,
        q.tp_on == 1 && q.tp_flag == 67,
        q.prog_order == 4,
        q.tcp_numlayers <= 1 || q.tcp_numlayers == p.tcp_numlayers,
        q.cblockw_init == 32 && q.cblockh_init == 32 && q.mode == 0,
        q.irreversible == 1,
        q.subsampling_dx == 1 && q.subsampling_dy == 1,
        q.roi_compno == -1,
        q.csty & 1 == 1,
        q.numresolution == 1 ==> q.res_spec == 1 && q.prcw_init@[0] == 128 && q.prch_init@[0] == 128,
        q.numresolution != 1 ==> q.res_spec == q.numresolution - 1 && forall|i: int|
            0 <= i < q.res_spec ==> q.prcw_init@[i] == 256 && #[trigger] q.prch_init@[i] == 256,
        p.rsiz == 4 ==> q.numpocs == 2 && q.POC@[0].resno1 == q.numresolution - 1 && q.POC@[1].resno0
            == q.numresolution - 1 && q.POC@[1].resno1 == q.numresolution,
        p.rsiz != 4 ==> q.numpocs == 0,
{
    let c = p.csty;
    assert((c | 1) & 1 == 1) by (bit_vector);
}


/// What every IMF profile asks of an encode: at most three components, the
/// image and the tile grid at the canvas origin, 32 x 32 code blocks in the
/// default mode, the CPRL order with no progression order changes, a
/// single quality layer, and no region of interest.
pub proof fn lemma_imf_requirements(p: opj_cparameters, image: opj_image)
    requires
        imf_compliant(p, image),
    ensures
        image.numcomps <= 3,
        image.x0 == 0 && image.y0 == 0 && p.cp_tx0 == 0 && p.cp_ty0 == 0,
        p.cblockw_init == 32 && p.cblockh_init == 32 && p.mode == 0,
        p.prog_order == 4 && p.numpocs == 0,
        p.tcp_numlayers == 1,
        p.roi_compno == -1,
{
}


proof fn lemma_fit_at_least_two(n: int, w: int, h: int)
    requires
        n >= 2,
        w >= 2,
        h >= 2,
    ensures
        fit_resolutions(n, w, h) >= 2,
    decreases n,
{
    vstd::arithmetic::power2::lemma2_to64();
    if !(w >= vstd::arithmetic::power2::pow2((n - 1) as nat) && h >= vstd::arithmetic::power2::pow2(
        (n - 1) as nat,
    )) {
        if n > 2 {
            lemma_fit_at_least_two(n - 1, w, h);
        }
    }
}

/// The IMF defaults make parameters compliant: with the default settings
/// (six resolutions, 64 x 64 code blocks, LRCP, no precincts, no tiling,
/// one layer, no progression order changes, default mode, no region of
/// interest), an image that meets the profile's component and size limits,
/// at the origin and at least 2 x 2, is compliant once the IMF profile is
/// set up for it (a reversible profile also needing the reversible
/// transform asked for).
pub proof fn lemma_imf_setup_compliant(n: opj_cparameters, o: opj_cparameters, image: opj_image)
    requires
        imf_applied(n, o, image),
        n.rsiz == o.rsiz,
        is_imf_profile(profile_of(o.rsiz)),
        imf_levels_ok(o.rsiz),
        !is_imf_single_tile(profile_of(o.rsiz)) ==> o.irreversible == 0,
        o.numresolution == 6,
        o.cblockw_init == 64 && o.cblockh_init == 64,
        o.prog_order == OPJ_LRCP,
        o.csty == 0,
        o.tile_size_on == 0,
        o.cp_tx0 == 0 && o.cp_ty0 == 0,
        o.roi_compno == -1,
        o.numpocs == 0,
        o.mode == 0,
        o.tcp_numlayers == 1,
        image.numcomps <= 3,
        image.x0 == 0 && image.y0 == 0,
        image.x1 >= 2 && image.y1 >= 2,
        forall|i: int| 0 <= i < image.numcomps ==> #[trigger] imf_comp_ok(comps_of(image), i),
        imf_size_ok(profile_of(o.rsiz), comps_of(image)[0].w, comps_of(image)[0].h),
    ensures
        imf_compliant(n, image),
{
    let m = imf_max_nl(profile_of(o.rsiz), imf_xtsiz(o, image));
    let n1 = if m >= 0 && 6 > m {
        m + 1
    } else {
        6
    };
    assert(n1 >= 2);
    lemma_fit_bounds(n1, image.x1 as int, image.y1 as int);
    lemma_fit_at_least_two(n1, image.x1 as int, image.y1 as int);
    assert(n.numresolution == fit_resolutions(n1, image.x1 as int, image.y1 as int));
    assert(imf_xtsiz(n, image) == imf_xtsiz(o, image));
    assert forall|i: int| 0 <= i < n.res_spec implies #[trigger] precinct_256(n, i) by {
        assert(n.prcw_init@[i] == 256);
        assert(n.prch_init@[i] == 256);
    }
    assert(imf_precincts_ok(n));
}

} // verus!
