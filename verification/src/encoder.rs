//! Setting up an encoder from its compression parameters: the checks on the
//! parameters, the deprecated profile selectors, the profiles, the tile grid
//! and the coding parameters of every tile and component.
use vstd::prelude::*;

use crate::image::{comps_of, opj_image};
use crate::mcc::opj_mcc_record;
use crate::j2k::MCTElementType;
use crate::mct_records::{opj_mct_data, record_is};
use crate::math::{ceil_div, floor_log2, lemma_ceil_div_covers, opj_int_floorlog2, opj_uint_ceildiv};
use crate::params::{
    as_u32, cinema_applied, cinema_compliant, imf_applied, imf_compliant, imf_frame,
    opj_cparameters, opj_poc, to_u32, opj_j2k_is_cinema_compliant, opj_j2k_is_imf_compliant,
    opj_j2k_set_cinema_parameters, opj_j2k_set_imf_parameters, profile_of, J2K_MAXRLVLS,
    J2K_MAX_POCS, J2K_TCD_MATRIX_MAX_LAYER_COUNT, J2K_TCD_MATRIX_MAX_RESOLUTION_COUNT,
};
use crate::j2k::OPJ_PROG_ORDER;
use crate::siz::{opj_cp, wrap_sub};

verus! {

/// Why compression parameters were refused.
#[derive(Clone, Copy, Debug, PartialEq, Eq, Structural)]
pub enum SetupError {
    /// The number of resolutions is not in `1..=33`.
    InvalidResolutionCount,
    /// The code block width is not in `4..=1024`.
    InvalidCodeBlockWidth,
    /// The code block height is not in `4..=1024`.
    InvalidCodeBlockHeight,
    /// A code block has more than 4096 samples.
    CodeBlockTooLarge,
    /// The code block width is not a power of two.
    CodeBlockWidthNotPowerOfTwo,
    /// The code block height is not a power of two.
    CodeBlockHeightNotPowerOfTwo,
    /// A fixed allocation is asked for without its matrix.
    MissingAllocationMatrix,
    /// A fixed allocation is asked for with more than 10 layers.
    TooManyLayers,
    /// A fixed allocation is asked for with more than 10 resolutions.
    TooManyResolutions,
    /// Tiling is on with a zero tile width.
    InvalidTileWidth,
    /// Tiling is on with a zero tile height.
    InvalidTileHeight,
    /// The tile grid has more than 65535 tiles.
    InvalidTileCount,
    /// A progression order change of a tile starts past the last component.
    InvalidPocComponent,
    /// The image has no component, so a tile has no component parameters.
    NoComponents,
}

/// The reason, checked in the encoder's order, why the parameters are
/// refused before anything is set up, or `None`.
pub open spec fn param_error(p: opj_cparameters) -> Option<SetupError> {
    if p.numresolution <= 0 || p.numresolution > 33 {
        Some(SetupError::InvalidResolutionCount)
    } else if p.cblockw_init < 4 || p.cblockw_init > 1024 {
        Some(SetupError::InvalidCodeBlockWidth)
    } else if p.cblockh_init < 4 || p.cblockh_init > 1024 {
        Some(SetupError::InvalidCodeBlockHeight)
    } else if p.cblockw_init * p.cblockh_init > 4096 {
        Some(SetupError::CodeBlockTooLarge)
    } else if p.cblockw_init != vstd::arithmetic::power2::pow2(floor_log2(p.cblockw_init as int) as nat) {
        Some(SetupError::CodeBlockWidthNotPowerOfTwo)
    } else if p.cblockh_init != vstd::arithmetic::power2::pow2(floor_log2(p.cblockh_init as int) as nat) {
        Some(SetupError::CodeBlockHeightNotPowerOfTwo)
    } else if p.cp_fixed_alloc != 0 && p.cp_matrice is None {
        Some(SetupError::MissingAllocationMatrix)
    } else if p.cp_fixed_alloc != 0 && p.tcp_numlayers > J2K_TCD_MATRIX_MAX_LAYER_COUNT {
        Some(SetupError::TooManyLayers)
    } else if p.cp_fixed_alloc != 0 && p.numresolution > J2K_TCD_MATRIX_MAX_RESOLUTION_COUNT {
        Some(SetupError::TooManyResolutions)
    } else {
        None
    }
}

proof fn lemma_shl_pow2(k: i32)
    requires
        0 <= k <= 10,
    ensures
        1i32 << (k as u32) == vstd::arithmetic::power2::pow2(k as nat),
{
    vstd::arithmetic::power2::lemma2_to64();
    assert(0 <= k <= 10 ==> (1i32 << (k as u32)) as int == if k == 0 {
        1int
    } else if k == 1 {
        2
    } else if k == 2 {
        4
    } else if k == 3 {
        8
    } else if k == 4 {
        16
    } else if k == 5 {
        32
    } else if k == 6 {
        64
    } else if k == 7 {
        128
    } else if k == 8 {
        256
    } else if k == 9 {
        512
    } else {
        1024
    }) by (bit_vector);
}

proof fn lemma_floor_log2_small(a: int, k: nat)
    requires
        1 <= a < vstd::arithmetic::power2::pow2(k + 1),
    ensures
        floor_log2(a) <= k,
    decreases k,
{
    vstd::arithmetic::power2::lemma2_to64();
    if a > 1 {
        if k == 0 {
            assert(false);
        } else {
            vstd::arithmetic::power2::lemma_pow2_unfold(k + 1);
            lemma_floor_log2_small(a / 2, (k - 1) as nat);
        }
    }
}

/// Checks the number of resolutions, the code block size and the fixed
/// allocation settings.
pub fn opj_j2k_check_encoder_parameters(parameters: &opj_cparameters) -> (r: Option<SetupError>)
    ensures
        r == param_error(*parameters),
{
    if parameters.numresolution <= 0 || parameters.numresolution > 33 {
        return Some(SetupError::InvalidResolutionCount);
    }
    if parameters.cblockw_init < 4 || parameters.cblockw_init > 1024 {
        return Some(SetupError::InvalidCodeBlockWidth);
    }
    if parameters.cblockh_init < 4 || parameters.cblockh_init > 1024 {
        return Some(SetupError::InvalidCodeBlockHeight);
    }
    assert(parameters.cblockw_init * parameters.cblockh_init <= 1024 * 1024) by (nonlinear_arith)
        requires
            4 <= parameters.cblockw_init <= 1024,
            4 <= parameters.cblockh_init <= 1024,
    ;
    if parameters.cblockw_init * parameters.cblockh_init > 4096 {
        return Some(SetupError::CodeBlockTooLarge);
    }
    let cblkw = opj_int_floorlog2(parameters.cblockw_init);
    let cblkh = opj_int_floorlog2(parameters.cblockh_init);
    proof {
        vstd::arithmetic::power2::lemma2_to64();
        lemma_floor_log2_small(parameters.cblockw_init as int, 10);
        lemma_floor_log2_small(parameters.cblockh_init as int, 10);
        lemma_shl_pow2(cblkw);
        lemma_shl_pow2(cblkh);
    }
    if parameters.cblockw_init != (1i32 << (cblkw as u32)) {
        return Some(SetupError::CodeBlockWidthNotPowerOfTwo);
    }
    if parameters.cblockh_init != (1i32 << (cblkh as u32)) {
        return Some(SetupError::CodeBlockHeightNotPowerOfTwo);
    }
    if parameters.cp_fixed_alloc != 0 {
        if parameters.cp_matrice.is_none() {
            return Some(SetupError::MissingAllocationMatrix);
        }
        if parameters.tcp_numlayers > J2K_TCD_MATRIX_MAX_LAYER_COUNT {
            return Some(SetupError::TooManyLayers);
        }
        if parameters.numresolution > J2K_TCD_MATRIX_MAX_RESOLUTION_COUNT {
            return Some(SetupError::TooManyResolutions);
        }
    }
    None
}

/// The capabilities that the deprecated cinema and profile selectors give
/// when `rsiz` is zero.
pub open spec fn deprecated_rsiz(p: opj_cparameters) -> u16 {
    if p.rsiz != 0 {
        p.rsiz
    } else {
        let from_cinema: u16 = if p.cp_cinema == 1 || p.cp_cinema == 2 {
            3
        } else if p.cp_cinema == 3 {
            4
        } else {
            0
        };
        if p.cp_rsiz == 3 {
            3
        } else if p.cp_rsiz == 4 {
            4
        } else if p.cp_rsiz == 0x8100 {
            0x8100
        } else {
            from_cinema
        }
    }
}

/// The codestream size limit that the deprecated cinema selector gives.
pub open spec fn deprecated_max_cs_size(p: opj_cparameters) -> i32 {
    if p.rsiz == 0 && (p.cp_cinema == 1 || p.cp_cinema == 3) {
        1302083
    } else if p.rsiz == 0 && p.cp_cinema == 2 {
        651041
    } else {
        p.max_cs_size
    }
}

/// The component size limit that the deprecated cinema selector gives.
pub open spec fn deprecated_max_comp_size(p: opj_cparameters) -> i32 {
    if p.rsiz == 0 && (p.cp_cinema == 1 || p.cp_cinema == 3) {
        1041666
    } else if p.rsiz == 0 && p.cp_cinema == 2 {
        520833
    } else {
        p.max_comp_size
    }
}

/// The parameters once the deprecated selectors are read, the number of
/// layers defaults to one lossless layer, and a missing codestream size
/// limit is replaced by the one that the rate of the last layer gives
/// (`rate_cs_size`).
pub open spec fn prepared(p: opj_cparameters, rate_cs_size: i32) -> opj_cparameters {
    let cs = deprecated_max_cs_size(p);
    opj_cparameters {
        rsiz: deprecated_rsiz(p),
        max_cs_size: if cs <= 0 {
            rate_cs_size
        } else {
            cs
        },
        max_comp_size: deprecated_max_comp_size(p),
        tcp_numlayers: if p.tcp_numlayers == 0 {
            1
        } else {
            p.tcp_numlayers
        },
        cp_disto_alloc: if p.tcp_numlayers == 0 {
            1
        } else {
            p.cp_disto_alloc
        },
        ..p
    }
}

/// All the fields but the capabilities are those of `b`.
pub open spec fn same_but_rsiz(a: opj_cparameters, b: opj_cparameters) -> bool {
    &&& imf_frame(a, b)
    &&& a.cblockw_init == b.cblockw_init
    &&& a.cblockh_init == b.cblockh_init
    &&& a.tp_flag == b.tp_flag
    &&& a.tp_on == b.tp_on
    &&& a.prog_order == b.prog_order
    &&& a.irreversible == b.irreversible
    &&& a.numresolution == b.numresolution
    &&& a.csty == b.csty
    &&& a.res_spec == b.res_spec
    &&& a.prcw_init@ == b.prcw_init@
    &&& a.prch_init@ == b.prch_init@
}

/// Whether a profile asks for tile-part lengths (TLM markers): the digital
/// cinema and the IMF profiles.
pub open spec fn tlm_profile(rsiz: u16) -> bool {
    (3 <= rsiz <= 6) || (0x400 <= rsiz <= 0x99b)
}

/// `n` is `o` once its profile is managed: the digital cinema and IMF
/// profiles get their defaults and are kept when the image meets them; the
/// scalable cinema, long term storage, broadcast and unsupported Part-2
/// profiles are dropped; any other capabilities are kept.
pub open spec fn profile_managed(n: opj_cparameters, o: opj_cparameters, image: opj_image) -> bool {
    let r = o.rsiz;
    if r == 3 || r == 4 {
        &&& cinema_applied(n, o)
        &&& n.rsiz == if cinema_compliant(image, r) {
            r
        } else {
            0
        }
    } else if 0x400 <= r <= 0x99b {
        &&& imf_applied(n, o, image)
        &&& n.rsiz == if imf_compliant(opj_cparameters { rsiz: r, ..n }, image) {
            r
        } else {
            0
        }
    } else if r == 5 || r == 6 || r == 7 || (0x100 <= r <= 0x30b) || (r >= 0x8000 && r != 0x8100) {
        &&& same_but_rsiz(n, o)
        &&& n.rsiz == 0
    } else {
        &&& same_but_rsiz(n, o)
        &&& n.rsiz == r
    }
}

/// Applies the profile that the capabilities name; see `profile_managed`.
pub fn opj_j2k_manage_profile(parameters: &mut opj_cparameters, image: &opj_image)
    requires
        old(parameters).wf(),
        1 <= old(parameters).numresolution <= 33,
        old(parameters).res_spec <= J2K_MAXRLVLS,
        image.comps is Some,
        comps_of(*image).len() == image.numcomps,
        0x400 <= old(parameters).rsiz <= 0x99b ==> image.numcomps >= 1,
    ensures
        final(parameters).wf(),
        profile_managed(*final(parameters), *old(parameters), *image),
{
    let r = parameters.rsiz;
    proof {
        assert(r & 0x8000 != 0 <==> r >= 0x8000) by (bit_vector);
    }
    if r >= 3 && r <= 6 {
        if r == 5 || r == 6 {
            parameters.rsiz = 0;
        } else {
            opj_j2k_set_cinema_parameters(parameters);
            if !opj_j2k_is_cinema_compliant(image, parameters.rsiz) {
                parameters.rsiz = 0;
            }
            assert(profile_managed(*parameters, *old(parameters), *image));
        }
    } else if r == 7 {
        parameters.rsiz = 0;
    } else if r >= 0x100 && r <= 0x30b {
        parameters.rsiz = 0;
    } else if r >= 0x400 && r <= 0x99b {
        opj_j2k_set_imf_parameters(parameters, image);
        proof {
            crate::params::lemma_imf_numresolution_bounds(*old(parameters), *image);
            assert(r & 0xff00 == (r / 256) * 256) by (bit_vector);
            assert(0x400 <= profile_of(r) <= 0x900 && profile_of(r) % 256 == 0) by (nonlinear_arith)
                requires
                    0x400 <= r <= 0x99b,
                    profile_of(r) == (r as int / 256) * 256,
            ;
        }
        let ghost mid = *parameters;
        let ok = opj_j2k_is_imf_compliant(parameters, image);
        if !ok {
            parameters.rsiz = 0;
        }
        assert(mid == opj_cparameters { rsiz: r, ..*parameters });
        assert(profile_managed(*parameters, *old(parameters), *image));
    } else if r & 0x8000 != 0 {
        if r == 0x8000 {
            parameters.rsiz = 0;
        } else if r != 0x8100 {
            parameters.rsiz = 0;
        }
    }
}

/// The quantization step size of one sub-band: exponent and mantissa.
#[derive(Clone, Copy, Debug, PartialEq, Eq, Structural)]
pub struct opj_stepsize {
    pub expn: i32,
    pub mant: i32,
}

/// The number of sub-bands a component can have.
pub const OPJ_J2K_MAXBANDS: usize = 97;

/// The step sizes of a component before any is known: all zero.
pub fn zero_stepsizes() -> (v: Vec<opj_stepsize>)
    ensures
        v@.len() == OPJ_J2K_MAXBANDS,
        forall|k: int| 0 <= k < OPJ_J2K_MAXBANDS ==> #[trigger] v@[k] == (opj_stepsize { expn: 0, mant: 0 }),
{
    let mut v: Vec<opj_stepsize> = Vec::new();
    let mut k: usize = 0;
    while k < OPJ_J2K_MAXBANDS
        invariant
            k <= OPJ_J2K_MAXBANDS,
            v@.len() == k,
            forall|j: int| 0 <= j < k ==> #[trigger] v@[j] == (opj_stepsize { expn: 0, mant: 0 }),
        decreases OPJ_J2K_MAXBANDS - k,
    {
        v.push(opj_stepsize { expn: 0, mant: 0 });
        k = k + 1;
    }
    v
}

/// The coding parameters of one component of a tile.
#[derive(Clone, Debug)]
pub struct opj_tccp {
    pub csty: u32,
    pub numresolutions: u32,
    pub cblkw: u32,
    pub cblkh: u32,
    pub cblksty: u32,
    pub qmfbid: u32,
    pub qntsty: u32,
    pub numgbits: u32,
    pub roishift: i32,
    /// Precinct width and height exponents, one per resolution.
    pub prcw: Vec<u32>,
    pub prch: Vec<u32>,
    /// Quantization step sizes, one per sub-band.
    pub stepsizes: Vec<opj_stepsize>,
    pub m_dc_level_shift: i32,
}

/// The coding parameters of one tile.
#[derive(Clone, Debug)]
pub struct opj_tcp {
    /// Whether a COD marker gave the tile its coding style.
    pub cod: bool,
    pub numlayers: u32,
    /// How many quality layers are decoded.
    pub num_layers_to_decode: u32,
    pub csty: u32,
    pub prg: OPJ_PROG_ORDER,
    pub mct: u32,
    /// Whether progression order changes apply to the tile.
    pub POC: bool,
    /// One less than the number of progression order changes, when there
    /// are some.
    pub numpocs: u32,
    pub pocs: Vec<opj_poc>,
    pub tccps: Vec<opj_tccp>,
    /// The number of tile parts the tile is written in.
    pub m_nb_tile_parts: u32,
    /// The arrays of its custom component transformation (MCT records).
    pub m_mct_records: Vec<opj_mct_data>,
    /// Its multiple component collections.
    pub m_mcc_records: Vec<opj_mcc_record>,
}

/// How quality layers are allocated.
#[derive(Clone, Copy, Debug, PartialEq, Eq, Structural)]
pub enum QualityLayerAllocationStrategy {
    RateDistortionRatio,
    FixedDistortionRatio,
    FixedLayer,
}

/// What an encoder is set up with: the coding parameters of the image and
/// of every tile.
#[derive(Clone, Debug)]
pub struct EncoderSetup {
    pub cp: opj_cp,
    pub nb_comps: u32,
    /// Whether tile-part lengths (TLM markers) are written.
    pub tlm: bool,
    /// Whether packet lengths (PLT markers) are written.
    pub plt: bool,
    pub max_comp_size: u32,
    pub strategy: QualityLayerAllocationStrategy,
    /// The fixed allocation matrix (layers x resolutions x 3), when one is
    /// used.
    pub matrice: Option<Vec<i32>>,
    pub tp_on: bool,
    pub tp_flag: u8,
    pub tcps: Vec<opj_tcp>,
}

/// The exponent of a precinct size: its base-2 logarithm, at least 1.
pub open spec fn prc_exponent(v: i32) -> u32 {
    if v < 1 {
        1
    } else {
        floor_log2(v as int) as u32
    }
}

/// The precinct exponent of resolution `r` from the sizes `init` given for
/// the highest resolutions first: the given size, or past the given ones
/// the last given size halved once per further resolution; 15 when no
/// precinct sizes are given.
pub open spec fn precinct_exponent(p: opj_cparameters, init: Seq<i32>, r: int) -> u32 {
    if p.csty & 1 != 0 {
        let k = p.numresolution - 1 - r;
        if k < p.res_spec {
            prc_exponent(init[k])
        } else {
            prc_exponent(init[p.res_spec - 1] >> ((k - (p.res_spec - 1)) as u32))
        }
    } else {
        15
    }
}

/// The precinct exponents of a component: those of its resolutions, then
/// zeros.
pub open spec fn precincts_ok(v: Seq<u32>, p: opj_cparameters, init: Seq<i32>) -> bool {
    &&& v.len() == J2K_MAXRLVLS
    &&& forall|r: int| 0 <= r < p.numresolution ==> #[trigger] v[r] == precinct_exponent(p, init, r)
    &&& forall|r: int| p.numresolution <= r < J2K_MAXRLVLS ==> #[trigger] v[r] == 0
}

/// The DC level shift of component `i`: the one given with a custom
/// component transform, else half the range of an unsigned component.
pub open spec fn dc_level_shift(image: opj_image, i: int, custom: Option<Seq<i32>>) -> i32 {
    match custom {
        Some(d) => d[i],
        None => if comps_of(image)[i].sgnd == 0 {
            1i32 << ((comps_of(image)[i].prec - 1) as u32)
        } else {
            0
        },
    }
}

/// The coding parameters of component `i` that the parameters give. The
/// step sizes follow from the wavelet norms, which are reals: here they are
/// all zero, one per sub-band, for the caller to fill.
pub open spec fn tccp_ok(
    t: opj_tccp,
    p: opj_cparameters,
    image: opj_image,
    i: int,
    custom: Option<Seq<i32>>,
) -> bool {
    &&& t.csty == (p.csty & 1) as u32
    &&& t.numresolutions == p.numresolution as u32
    &&& t.cblkw == floor_log2(p.cblockw_init as int)
    &&& t.cblkh == floor_log2(p.cblockh_init as int)
    &&& t.cblksty == as_u32(p.mode)
    &&& t.qmfbid == if p.irreversible != 0 {
        0u32
    } else {
        1u32
    }
    &&& t.qntsty == if p.irreversible != 0 {
        2u32
    } else {
        0u32
    }
    &&& t.numgbits == 2
    &&& t.roishift == if (i as i32) == p.roi_compno {
        p.roi_shift
    } else {
        0
    }
    &&& t.m_dc_level_shift == dc_level_shift(image, i, custom)
    &&& precincts_ok(t.prcw@, p, p.prcw_init@)
    &&& precincts_ok(t.prch@, p, p.prch_init@)
    &&& t.stepsizes@ == Seq::new(OPJ_J2K_MAXBANDS as nat, |k: int| opj_stepsize { expn: 0, mant: 0 })
}

/// Number of the first `n` changes that apply to the tile numbered `tile`
/// (from one).
pub open spec fn count_tile(pocs: Seq<opj_poc>, n: int, tile: int) -> int
    decreases n,
{
    if n <= 0 {
        0
    } else {
        count_tile(pocs, n - 1, tile) + if pocs[n - 1].tile == tile {
            1int
        } else {
            0int
        }
    }
}

/// Number of progression order changes of tile `tileno` (from zero).
pub open spec fn tile_poc_count(p: opj_cparameters, tileno: int) -> int {
    if p.numpocs != 0 {
        count_tile(p.POC@, p.numpocs as int, tileno + 1)
    } else {
        0
    }
}

/// A tile's progression order change built from the given one, its
/// component range cut to the image's components.
pub open spec fn tile_poc(q: opj_poc, src: opj_poc, numcomps: u32) -> bool {
    &&& q.resno0 == src.resno0
    &&& q.compno0 == src.compno0
    &&& q.layno1 == src.layno1
    &&& q.resno1 == src.resno1
    &&& q.compno1 == if src.compno1 < numcomps {
        src.compno1
    } else {
        numcomps
    }
    &&& q.prg1 == src.prg1
    &&& q.tile == src.tile
    &&& q.layno0 == 0 && q.precno0 == 0 && q.precno1 == 0 && q.prg == 0
    &&& q.compE == 0 && q.resE == 0 && q.prcE == 0 && q.layE == 0
}

/// The component transform of a tile: the custom one (2) when given, else
/// the one asked for, except that the colour transform (1) is dropped when
/// the first three components differ in sampling.
pub open spec fn tile_mct(p: opj_cparameters, image: opj_image, custom: Option<Seq<i32>>) -> u32 {
    let cs = comps_of(image);
    let m = as_u32(p.tcp_mct as i32) as u32;
    if custom is Some {
        2
    } else if m == 1 && image.numcomps >= 3 && (cs[0].dx != cs[1].dx || cs[0].dx != cs[2].dx
        || cs[0].dy != cs[1].dy || cs[0].dy != cs[2].dy) {
        0
    } else {
        m
    }
}

/// The coding parameters of tile `tileno` that the parameters give.
pub open spec fn tcp_ok(
    t: opj_tcp,
    p: opj_cparameters,
    image: opj_image,
    tileno: int,
    custom: Option<Seq<i32>>,
) -> bool {
    let m = tile_poc_count(p, tileno);
    &&& t.numlayers == as_u32(p.tcp_numlayers)
    &&& t.csty == as_u32(p.csty)
    &&& t.prg == p.prog_order
    &&& t.mct == tile_mct(p, image, custom)
    &&& t.POC == (m > 0)
    &&& t.numpocs == if m > 0 {
        m - 1
    } else {
        0
    }
    &&& t.pocs@.len() == m
    &&& forall|k: int| 0 <= k < m ==> #[trigger] tile_poc(t.pocs@[k], p.POC@[k], image.numcomps)
    &&& t.tccps@.len() == image.numcomps
    &&& forall|i: int| 0 <= i < image.numcomps ==> #[trigger] tccp_ok(t.tccps@[i], p, image, i, custom)
    &&& t.m_mct_records@.len() == 0
    &&& t.m_mcc_records@.len() == 0
}

/// The DC level shifts given with a custom component transform.
pub open spec fn custom_view(c: Option<&[i32]>) -> Option<Seq<i32>> {
    match c {
        Some(d) => Some(d@),
        None => None,
    }
}

/// Builds the precinct exponents of a component.
fn build_precincts(p: &opj_cparameters, init: &Vec<i32>) -> (v: Vec<u32>)
    requires
        p.wf(),
        init@.len() == J2K_MAXRLVLS,
        1 <= p.numresolution <= 33,
        p.res_spec <= J2K_MAXRLVLS,
        p.csty & 1 != 0 ==> p.res_spec >= 1 && p.numresolution - p.res_spec <= 31,
    ensures
        precincts_ok(v@, *p, init@),
{
    let mut v: Vec<u32> = Vec::new();
    let n = p.numresolution;
    let mut r: i32 = 0;
    while r < 33
        invariant
            0 <= r <= 33,
            v@.len() == r,
            n == p.numresolution,
            1 <= n <= 33,
            init@.len() == J2K_MAXRLVLS,
            p.res_spec <= J2K_MAXRLVLS,
            p.csty & 1 != 0 ==> p.res_spec >= 1 && p.numresolution - p.res_spec <= 31,
            forall|k: int| 0 <= k < r && k < n ==> #[trigger] v@[k] == precinct_exponent(*p, init@, k),
            forall|k: int| n <= k < r ==> #[trigger] v@[k] == 0,
        decreases 33 - r,
    {
        if r < n {
            if p.csty & 1 != 0 {
                let k = n - 1 - r;
                let size = if k < p.res_spec {
                    init[k as usize]
                } else {
                    init[(p.res_spec - 1) as usize] >> ((k - (p.res_spec - 1)) as u32)
                };
                if size < 1 {
                    v.push(1);
                } else {
                    let e = opj_int_floorlog2(size);
                    v.push(e as u32);
                }
            } else {
                v.push(15);
            }
        } else {
            v.push(0);
        }
        r = r + 1;
    }
    v
}

/// Builds the coding parameters of component `i` of a tile.
fn build_tccp(
    p: &opj_cparameters,
    image: &opj_image,
    i: usize,
    custom_dc_shift: Option<&[i32]>,
) -> (t: opj_tccp)
    requires
        p.wf(),
        1 <= p.numresolution <= 33,
        p.res_spec <= J2K_MAXRLVLS,
        p.csty & 1 != 0 ==> p.res_spec >= 1 && p.numresolution - p.res_spec <= 31,
        4 <= p.cblockw_init <= 1024,
        4 <= p.cblockh_init <= 1024,
        image.comps is Some,
        i < comps_of(*image).len(),
        custom_dc_shift matches Some(d) ==> i < d@.len(),
        custom_dc_shift is None && comps_of(*image)[i as int].sgnd == 0 ==> 1 <= comps_of(
            *image,
        )[i as int].prec <= 32,
    ensures
        tccp_ok(t, *p, *image, i as int, custom_view(custom_dc_shift)),
{
    let comps = image.comps.as_ref().unwrap();
    let dc: i32 = match custom_dc_shift {
        Some(d) => d[i],
        None => if comps[i].sgnd == 0 {
            1i32 << (comps[i].prec - 1)
        } else {
            0
        },
    };
    let cblkw = opj_int_floorlog2(p.cblockw_init);
    let cblkh = opj_int_floorlog2(p.cblockh_init);
    let stepsizes = zero_stepsizes();
    assert(stepsizes@ =~= Seq::new(OPJ_J2K_MAXBANDS as nat, |k: int| opj_stepsize { expn: 0, mant: 0 }));
    opj_tccp {
        csty: (p.csty & 1) as u32,
        numresolutions: p.numresolution as u32,
        cblkw: cblkw as u32,
        cblkh: cblkh as u32,
        cblksty: to_u32(p.mode),
        qmfbid: if p.irreversible != 0 { 0 } else { 1 },
        qntsty: if p.irreversible != 0 { 2 } else { 0 },
        numgbits: 2,
        roishift: if (i as i32) == p.roi_compno { p.roi_shift } else { 0 },
        prcw: build_precincts(p, &p.prcw_init),
        prch: build_precincts(p, &p.prch_init),
        stepsizes,
        m_dc_level_shift: dc,
    }
}

/// Some progression order change of tile `tileno` starts past the image's
/// last component.
pub open spec fn tile_poc_error(p: opj_cparameters, numcomps: u32, tileno: int) -> bool {
    exists|k: int| 0 <= k < tile_poc_count(p, tileno) && #[trigger] p.POC@[k].compno0 >= numcomps
}

proof fn lemma_count_tile_mono(pocs: Seq<opj_poc>, a: int, b: int, tile: int)
    requires
        0 <= a <= b,
    ensures
        count_tile(pocs, a, tile) <= count_tile(pocs, b, tile),
        count_tile(pocs, b, tile) <= b,
    decreases b,
{
    if b > 0 {
        if a < b {
            lemma_count_tile_mono(pocs, a, b - 1, tile);
        } else {
            lemma_count_tile_mono(pocs, b - 1, b - 1, tile);
        }
    }
}

/// Builds the coding parameters of tile `tileno`, or reports a progression
/// order change that starts past the last component.
fn build_tcp(
    p: &opj_cparameters,
    image: &opj_image,
    tileno: u32,
    custom_dc_shift: Option<&[i32]>,
) -> (r: Result<opj_tcp, SetupError>)
    requires
        p.wf(),
        1 <= p.numresolution <= 33,
        p.res_spec <= J2K_MAXRLVLS,
        p.csty & 1 != 0 ==> p.res_spec >= 1 && p.numresolution - p.res_spec <= 31,
        4 <= p.cblockw_init <= 1024,
        4 <= p.cblockh_init <= 1024,
        p.numpocs <= J2K_MAX_POCS,
        tileno < u32::MAX,
        image.comps is Some,
        comps_of(*image).len() == image.numcomps,
        custom_dc_shift matches Some(d) ==> image.numcomps <= d@.len(),
        custom_dc_shift is None ==> forall|i: int|
            0 <= i < image.numcomps && (#[trigger] comps_of(*image)[i]).sgnd == 0 ==> 1
                <= comps_of(*image)[i].prec <= 32,
    ensures
        r is Err <==> tile_poc_error(*p, image.numcomps, tileno as int) || image.numcomps == 0,
        r matches Err(e) ==> e == if tile_poc_error(*p, image.numcomps, tileno as int) {
            SetupError::InvalidPocComponent
        } else {
            SetupError::NoComponents
        },
        r matches Ok(t) ==> tcp_ok(t, *p, *image, tileno as int, custom_view(custom_dc_shift)),
{
    let numcomps = image.numcomps;
    let ghost m = tile_poc_count(*p, tileno as int);
    let mut pocs: Vec<opj_poc> = Vec::new();
    let mut n_tile: u32 = 0;
    if p.numpocs != 0 {
        let mut i: u32 = 0;
        while i < p.numpocs
            invariant
                p.wf(),
                p.numpocs <= J2K_MAX_POCS,
                tileno < u32::MAX,
                numcomps == image.numcomps,
                i <= p.numpocs,
                m == count_tile(p.POC@, p.numpocs as int, tileno + 1),
                n_tile == count_tile(p.POC@, i as int, tileno + 1),
                n_tile <= i,
                pocs@.len() == n_tile,
                forall|k: int| 0 <= k < n_tile ==> #[trigger] tile_poc(pocs@[k], p.POC@[k], numcomps),
                forall|k: int| 0 <= k < n_tile ==> #[trigger] p.POC@[k].compno0 < numcomps,
            decreases p.numpocs - i,
        {
            proof {
                lemma_count_tile_mono(p.POC@, i as int, i + 1, tileno + 1);
                lemma_count_tile_mono(p.POC@, i + 1, p.numpocs as int, tileno + 1);
            }
            if tileno + 1 == p.POC[i as usize].tile {
                let src = p.POC[n_tile as usize];
                if src.compno0 >= numcomps {
                    proof {
                        assert(count_tile(p.POC@, i + 1, tileno + 1) == n_tile + 1);
                        assert(0 <= n_tile < m && p.POC@[n_tile as int].compno0 >= numcomps);
                        assert(tile_poc_count(*p, tileno as int) == m);
                    }
                    return Err(SetupError::InvalidPocComponent);
                }
                let mut q = opj_poc::default();
                q.resno0 = src.resno0;
                q.compno0 = src.compno0;
                q.layno1 = src.layno1;
                q.resno1 = src.resno1;
                q.compno1 = if src.compno1 < numcomps {
                    src.compno1
                } else {
                    numcomps
                };
                q.prg1 = src.prg1;
                q.tile = src.tile;
                pocs.push(q);
                n_tile = n_tile + 1;
            }
            i = i + 1;
        }
    }
    proof {
        if tile_poc_error(*p, numcomps, tileno as int) {
            let k = choose|k: int| 0 <= k < m && #[trigger] p.POC@[k].compno0 >= numcomps;
            assert(p.POC@[k].compno0 < numcomps);
        }
    }
    if numcomps == 0 {
        return Err(SetupError::NoComponents);
    }
    let comps = image.comps.as_ref().unwrap();
    let mut mct: u32 = to_u32(p.tcp_mct as i32);
    if custom_dc_shift.is_some() {
        mct = 2;
    } else if mct == 1 && numcomps >= 3 {
        if comps[0].dx != comps[1].dx || comps[0].dx != comps[2].dx || comps[0].dy != comps[1].dy
            || comps[0].dy != comps[2].dy {
            mct = 0;
        }
    }
    let mut tccps: Vec<opj_tccp> = Vec::new();
    let mut c: usize = 0;
    while c < comps.len()
        invariant
            p.wf(),
            1 <= p.numresolution <= 33,
            p.res_spec <= J2K_MAXRLVLS,
            p.csty & 1 != 0 ==> p.res_spec >= 1 && p.numresolution - p.res_spec <= 31,
            4 <= p.cblockw_init <= 1024,
            4 <= p.cblockh_init <= 1024,
            image.comps is Some,
            comps@ == comps_of(*image),
            comps@.len() == numcomps,
            numcomps == image.numcomps,
            custom_dc_shift matches Some(d) ==> image.numcomps <= d@.len(),
            custom_dc_shift is None ==> forall|i: int|
                0 <= i < image.numcomps && (#[trigger] comps_of(*image)[i]).sgnd == 0 ==> 1
                    <= comps_of(*image)[i].prec <= 32,
            c <= comps@.len(),
            tccps@.len() == c,
            forall|i: int|
                0 <= i < c ==> #[trigger] tccp_ok(tccps@[i], *p, *image, i, custom_view(custom_dc_shift)),
        decreases comps@.len() - c,
    {
        let t = build_tccp(p, image, c, custom_dc_shift);
        tccps.push(t);
        c = c + 1;
    }
    Ok(opj_tcp {
        cod: false,
        numlayers: to_u32(p.tcp_numlayers),
        num_layers_to_decode: 0,
        csty: to_u32(p.csty),
        prg: p.prog_order,
        mct,
        POC: n_tile > 0,
        numpocs: if n_tile > 0 {
            n_tile - 1
        } else {
            0
        },
        pocs,
        tccps,
        m_nb_tile_parts: 0,
        m_mct_records: Vec::new(),
        m_mcc_records: Vec::new(),
    })
}

/// Number of tile columns and rows: the grid of the given tile size when
/// tiling is on, else a single tile.
pub open spec fn grid_tw(q: opj_cparameters, image: opj_image) -> int {
    if q.tile_size_on != 0 {
        ceil_div(image.x1 - as_u32(q.cp_tx0), as_u32(q.cp_tdx))
    } else {
        1
    }
}

pub open spec fn grid_th(q: opj_cparameters, image: opj_image) -> int {
    if q.tile_size_on != 0 {
        ceil_div(image.y1 - as_u32(q.cp_ty0), as_u32(q.cp_tdy))
    } else {
        1
    }
}

/// The tile size: the given one when tiling is on, else the image extent
/// from the tile origin.
pub open spec fn grid_tdx(q: opj_cparameters, image: opj_image) -> int {
    if q.tile_size_on != 0 {
        as_u32(q.cp_tdx)
    } else {
        wrap_sub(image.x1 as int, as_u32(q.cp_tx0))
    }
}

pub open spec fn grid_tdy(q: opj_cparameters, image: opj_image) -> int {
    if q.tile_size_on != 0 {
        as_u32(q.cp_tdy)
    } else {
        wrap_sub(image.y1 as int, as_u32(q.cp_ty0))
    }
}

/// The reason, checked in the encoder's order, why the tile grid and the
/// tiles cannot be set up from the managed parameters `q`, or `None`.
pub open spec fn encoder_error(q: opj_cparameters, image: opj_image) -> Option<SetupError> {
    if q.tile_size_on != 0 && as_u32(q.cp_tdx) == 0 {
        Some(SetupError::InvalidTileWidth)
    } else if q.tile_size_on != 0 && as_u32(q.cp_tdy) == 0 {
        Some(SetupError::InvalidTileHeight)
    } else if q.tile_size_on != 0 && grid_tw(q, image) > 65535int / grid_th(q, image) {
        Some(SetupError::InvalidTileCount)
    } else if image.numcomps == 0 && grid_tw(q, image) * grid_th(q, image) >= 1 && !tile_poc_error(
        q,
        0,
        0,
    ) {
        Some(SetupError::NoComponents)
    } else if exists|t: int|
        0 <= t < grid_tw(q, image) * grid_th(q, image) && #[trigger] tile_poc_error(
            q,
            image.numcomps,
            t,
        ) {
        Some(SetupError::InvalidPocComponent)
    } else {
        None
    }
}

/// The quality layer allocation that the parameters ask for.
pub open spec fn allocation_strategy(q: opj_cparameters) -> QualityLayerAllocationStrategy {
    if q.cp_fixed_alloc != 0 {
        QualityLayerAllocationStrategy::FixedLayer
    } else if q.cp_fixed_quality != 0 {
        QualityLayerAllocationStrategy::FixedDistortionRatio
    } else {
        QualityLayerAllocationStrategy::RateDistortionRatio
    }
}

/// Number of entries of the fixed allocation matrix.
pub open spec fn matrix_len(q: opj_cparameters) -> int {
    3 * q.tcp_numlayers * q.numresolution
}

/// `enc` is the encoder set up from the managed parameters `q`.
pub open spec fn encoder_ok(
    enc: EncoderSetup,
    q: opj_cparameters,
    image: opj_image,
    tlm: bool,
    custom: Option<Seq<i32>>,
) -> bool {
    let tw = grid_tw(q, image);
    let th = grid_th(q, image);
    &&& enc.cp.rsiz == q.rsiz
    &&& enc.cp.tx0 == as_u32(q.cp_tx0) && enc.cp.ty0 == as_u32(q.cp_ty0)
    &&& enc.cp.tdx == grid_tdx(q, image) && enc.cp.tdy == grid_tdy(q, image)
    &&& enc.cp.tw == tw && enc.cp.th == th
    &&& enc.nb_comps == image.numcomps
    &&& enc.tlm == tlm
    &&& !enc.plt
    &&& enc.max_comp_size == as_u32(q.max_comp_size)
    &&& enc.strategy == allocation_strategy(q)
    &&& q.cp_fixed_alloc != 0 ==> (enc.matrice matches Some(m) && m@ == q.cp_matrice.unwrap()@.subrange(
        0,
        matrix_len(q),
    ))
    &&& q.cp_fixed_alloc == 0 ==> enc.matrice is None
    &&& enc.tp_on == (q.tp_on != 0)
    &&& enc.tp_flag == if q.tp_on != 0 {
        q.tp_flag as u8
    } else {
        0u8
    }
    &&& enc.tcps@.len() == tw * th
    &&& forall|t: int| 0 <= t < tw * th ==> #[trigger] tcp_ok(enc.tcps@[t], q, image, t, custom)
}

/// Reads the deprecated profile selectors, defaults to one lossless layer
/// and takes `rate_cs_size` as the size limit when none is given.
fn prepare_parameters(parameters: &mut opj_cparameters, rate_cs_size: i32)
    ensures
        *final(parameters) == prepared(*old(parameters), rate_cs_size),
{
    if parameters.rsiz == 0 {
        if parameters.cp_cinema == 1 {
            parameters.rsiz = 3;
            parameters.max_cs_size = 1302083;
            parameters.max_comp_size = 1041666;
        } else if parameters.cp_cinema == 2 {
            parameters.rsiz = 3;
            parameters.max_cs_size = 651041;
            parameters.max_comp_size = 520833;
        } else if parameters.cp_cinema == 3 {
            parameters.rsiz = 4;
            parameters.max_cs_size = 1302083;
            parameters.max_comp_size = 1041666;
        }
        if parameters.cp_rsiz == 3 {
            parameters.rsiz = 3;
        } else if parameters.cp_rsiz == 4 {
            parameters.rsiz = 4;
        } else if parameters.cp_rsiz == 0x8100 {
            parameters.rsiz = 0x8100;
        }
    }
    if parameters.tcp_numlayers == 0 {
        parameters.tcp_numlayers = 1;
        parameters.cp_disto_alloc = 1;
    }
    if parameters.max_cs_size <= 0 {
        parameters.max_cs_size = rate_cs_size;
    }
}

/// The tile grid of the managed parameters: origin, tile size and number of
/// tile columns and rows.
fn build_grid(q: &opj_cparameters, image: &opj_image) -> (r: Result<opj_cp, SetupError>)
    requires
        q.tile_size_on != 0 ==> image.x1 >= as_u32(q.cp_tx0) && image.y1 > as_u32(q.cp_ty0),
    ensures
        r matches Err(e) ==> encoder_error(*q, *image) == Some(e) && e != SetupError::InvalidPocComponent
            && e != SetupError::NoComponents,
        r matches Ok(cp) ==> {
            &&& encoder_error(*q, *image) is None || encoder_error(*q, *image) == Some(
                SetupError::InvalidPocComponent,
            ) || encoder_error(*q, *image) == Some(SetupError::NoComponents)
            &&& cp.rsiz == q.rsiz
            &&& cp.tx0 == as_u32(q.cp_tx0) && cp.ty0 == as_u32(q.cp_ty0)
            &&& cp.tdx == grid_tdx(*q, *image) && cp.tdy == grid_tdy(*q, *image)
            &&& cp.tw == grid_tw(*q, *image) && cp.th == grid_th(*q, *image)
            &&& cp.tw * cp.th <= 65535
        },
{
    let tx0 = to_u32(q.cp_tx0);
    let ty0 = to_u32(q.cp_ty0);
    let mut tdx = to_u32(q.cp_tdx);
    let mut tdy = to_u32(q.cp_tdy);
    let mut tw: u32 = 1;
    let mut th: u32 = 1;
    if q.tile_size_on != 0 {
        if tdx == 0 {
            return Err(SetupError::InvalidTileWidth);
        }
        if tdy == 0 {
            return Err(SetupError::InvalidTileHeight);
        }
        tw = opj_uint_ceildiv(image.x1 - tx0, tdx);
        th = opj_uint_ceildiv(image.y1 - ty0, tdy);
        proof {
            lemma_ceil_div_covers((image.y1 - ty0) as int, tdy as int);
        }
        if tw > 65535 / th {
            return Err(SetupError::InvalidTileCount);
        }
        assert((tw as int) * (th as int) <= 65535) by (nonlinear_arith)
            requires
                th > 0,
                tw <= 65535int / (th as int),
        ;
    } else {
        tdx = image.x1.wrapping_sub(tx0);
        tdy = image.y1.wrapping_sub(ty0);
    }
    Ok(opj_cp { rsiz: q.rsiz, tx0, ty0, tdx, tdy, tw, th })
}

/// A copy of the first entries of the fixed allocation matrix, one per
/// layer, resolution and of three values.
fn copy_matrix(q: &opj_cparameters) -> (m: Vec<i32>)
    requires
        q.cp_matrice is Some,
        0 <= q.tcp_numlayers <= 10,
        1 <= q.numresolution <= 10,
        matrix_len(*q) <= q.cp_matrice.unwrap()@.len(),
    ensures
        m@ == q.cp_matrice.unwrap()@.subrange(0, matrix_len(*q)),
{
    let src = q.cp_matrice.as_ref().unwrap();
    assert(3 * q.tcp_numlayers <= 30 && 3 * q.tcp_numlayers * q.numresolution <= 300) by (nonlinear_arith)
        requires
            0 <= q.tcp_numlayers <= 10,
            1 <= q.numresolution <= 10,
    ;
    let len: usize = (3 * q.tcp_numlayers * q.numresolution) as usize;
    let mut m: Vec<i32> = Vec::new();
    let mut k: usize = 0;
    while k < len
        invariant
            k <= len <= src@.len(),
            len == matrix_len(*q),
            src@ == q.cp_matrice.unwrap()@,
            m@ == src@.subrange(0, k as int),
        decreases len - k,
    {
        m.push(src[k]);
        k = k + 1;
    }
    m
}

/// The coding parameters of every tile, or the progression order change
/// that starts past the last component.
fn build_tcps(
    q: &opj_cparameters,
    image: &opj_image,
    nb_tiles: u32,
    custom_dc_shift: Option<&[i32]>,
) -> (r: Result<Vec<opj_tcp>, SetupError>)
    requires
        q.wf(),
        1 <= q.numresolution <= 33,
        q.res_spec <= J2K_MAXRLVLS,
        q.csty & 1 != 0 ==> q.res_spec >= 1 && q.numresolution - q.res_spec <= 31,
        4 <= q.cblockw_init <= 1024,
        4 <= q.cblockh_init <= 1024,
        q.numpocs <= J2K_MAX_POCS,
        nb_tiles <= 65535,
        image.comps is Some,
        comps_of(*image).len() == image.numcomps,
        custom_dc_shift matches Some(d) ==> image.numcomps <= d@.len(),
        custom_dc_shift is None ==> forall|i: int|
            0 <= i < image.numcomps && (#[trigger] comps_of(*image)[i]).sgnd == 0 ==> 1
                <= comps_of(*image)[i].prec <= 32,
    ensures
        r is Err <==> (exists|t: int| 0 <= t < nb_tiles && #[trigger] tile_poc_error(*q, image.numcomps, t))
            || (image.numcomps == 0 && nb_tiles >= 1),
        r matches Err(e) ==> e == if image.numcomps == 0 && !tile_poc_error(*q, image.numcomps, 0) {
            SetupError::NoComponents
        } else {
            SetupError::InvalidPocComponent
        },
        r matches Ok(v) ==> {
            &&& v@.len() == nb_tiles
            &&& forall|t: int| 0 <= t < nb_tiles ==> #[trigger] tcp_ok(v@[t], *q, *image, t, custom_view(custom_dc_shift))
        },
{
    let mut tcps: Vec<opj_tcp> = Vec::new();
    let mut tileno: u32 = 0;
    while tileno < nb_tiles
        invariant
            q.wf(),
            1 <= q.numresolution <= 33,
            q.res_spec <= J2K_MAXRLVLS,
            q.csty & 1 != 0 ==> q.res_spec >= 1 && q.numresolution - q.res_spec <= 31,
            4 <= q.cblockw_init <= 1024,
            4 <= q.cblockh_init <= 1024,
            q.numpocs <= J2K_MAX_POCS,
            nb_tiles <= 65535,
            image.comps is Some,
            comps_of(*image).len() == image.numcomps,
            custom_dc_shift matches Some(d) ==> image.numcomps <= d@.len(),
            custom_dc_shift is None ==> forall|i: int|
                0 <= i < image.numcomps && (#[trigger] comps_of(*image)[i]).sgnd == 0 ==> 1
                    <= comps_of(*image)[i].prec <= 32,
            tileno <= nb_tiles,
            tcps@.len() == tileno,
            forall|t: int| 0 <= t < tileno ==> !#[trigger] tile_poc_error(*q, image.numcomps, t),
            tileno > 0 ==> image.numcomps > 0,
            forall|t: int|
                0 <= t < tileno ==> #[trigger] tcp_ok(tcps@[t], *q, *image, t, custom_view(custom_dc_shift)),
        decreases nb_tiles - tileno,
    {
        match build_tcp(q, image, tileno, custom_dc_shift) {
            Ok(t) => {
                tcps.push(t);
            },
            Err(e) => {
                return Err(e);
            },
        }
        tileno = tileno + 1;
    }
    Ok(tcps)
}

/// Sets up an encoder: checks the parameters, reads the deprecated profile
/// selectors, defaults to one lossless layer, takes `rate_cs_size` (the
/// codestream size that the rate of the last layer gives, 0 without a rate)
/// as the size limit when none is given, manages the profile, and builds the
/// tile grid and the coding parameters of every tile and component.  With
/// `custom_dc_shift`, a custom component transform is used and these are
/// the DC level shifts of the components.  The floating-point parts (the
/// layer rates and distortion ratios, the custom transform matrices and the
/// quantization step sizes) are left to the caller.
pub fn opj_j2k_setup_encoder(
    parameters: &mut opj_cparameters,
    image: &opj_image,
    rate_cs_size: i32,
    custom_dc_shift: Option<&[i32]>,
) -> (r: Result<EncoderSetup, SetupError>)
    requires
        param_error(*old(parameters)) is None ==> {
            let r = deprecated_rsiz(*old(parameters));
            &&& old(parameters).wf()
            &&& old(parameters).res_spec <= J2K_MAXRLVLS
            &&& old(parameters).numpocs <= J2K_MAX_POCS
            &&& image.comps is Some
            &&& comps_of(*image).len() == image.numcomps
            &&& custom_dc_shift matches Some(d) ==> image.numcomps <= d@.len()
            &&& custom_dc_shift is None ==> forall|i: int|
                0 <= i < image.numcomps && (#[trigger] comps_of(*image)[i]).sgnd == 0 ==> 1
                    <= comps_of(*image)[i].prec <= 32
            &&& r != 3 && r != 4 && old(parameters).csty & 1 != 0 ==> old(parameters).res_spec >= 1
                && old(parameters).numresolution - old(parameters).res_spec <= 31
            &&& r != 3 && r != 4 && old(parameters).tile_size_on != 0 ==> image.x1 >= as_u32(
                old(parameters).cp_tx0,
            ) && image.y1 > as_u32(old(parameters).cp_ty0)
            &&& 0x400 <= r <= 0x99b ==> image.x1 >= 1 && image.y1 >= 1 && image.numcomps >= 1
            &&& old(parameters).cp_fixed_alloc != 0 ==> old(parameters).tcp_numlayers >= 0
            &&& old(parameters).cp_fixed_alloc != 0 && old(parameters).cp_matrice is Some ==> old(
                parameters,
            ).cp_matrice.unwrap()@.len() >= matrix_len(prepared(*old(parameters), rate_cs_size))
        },
    ensures
        param_error(*old(parameters)) matches Some(e) ==> {
            &&& r == Err::<EncoderSetup, SetupError>(e)
            &&& same_but_rsiz(*final(parameters), *old(parameters))
            &&& final(parameters).rsiz == old(parameters).rsiz
        },
        param_error(*old(parameters)) is None ==> {
            let q = *final(parameters);
            &&& q.wf()
            &&& profile_managed(q, prepared(*old(parameters), rate_cs_size), *image)
            &&& r is Err <==> encoder_error(q, *image) is Some
            &&& r matches Err(e) ==> encoder_error(q, *image) == Some(e)
            &&& r matches Ok(enc) ==> encoder_ok(
                enc,
                q,
                *image,
                tlm_profile(deprecated_rsiz(*old(parameters))),
                custom_view(custom_dc_shift),
            )
        },
{
    if let Some(e) = opj_j2k_check_encoder_parameters(parameters) {
        return Err(e);
    }
    prepare_parameters(parameters, rate_cs_size);
    let ghost p1 = *parameters;
    let r = parameters.rsiz;
    let tlm = (r >= 3 && r <= 6) || (r >= 0x400 && r <= 0x99b);
    opj_j2k_manage_profile(parameters, image);
    let ghost q = *parameters;
    proof {
        lemma_managed_bounds(q, p1, *image);
    }
    let cp = match build_grid(parameters, image) {
        Ok(cp) => cp,
        Err(e) => {
            return Err(e);
        },
    };
    let matrice: Option<Vec<i32>> = if parameters.cp_fixed_alloc != 0 {
        proof {
            assert(3 * q.tcp_numlayers * q.numresolution <= 3 * p1.tcp_numlayers * p1.numresolution)
                by (nonlinear_arith)
                requires
                    0 <= q.tcp_numlayers <= p1.tcp_numlayers,
                    1 <= q.numresolution <= p1.numresolution,
            ;
        }
        Some(copy_matrix(parameters))
    } else {
        None
    };
    let strategy = if parameters.cp_fixed_alloc != 0 {
        QualityLayerAllocationStrategy::FixedLayer
    } else if parameters.cp_fixed_quality != 0 {
        QualityLayerAllocationStrategy::FixedDistortionRatio
    } else {
        QualityLayerAllocationStrategy::RateDistortionRatio
    };
    let tcps = match build_tcps(parameters, image, cp.tw * cp.th, custom_dc_shift) {
        Ok(v) => v,
        Err(e) => {
            return Err(e);
        },
    };
    Ok(EncoderSetup {
        cp,
        nb_comps: image.numcomps,
        tlm,
        plt: false,
        max_comp_size: to_u32(parameters.max_comp_size),
        strategy,
        matrice,
        tp_on: parameters.tp_on != 0,
        tp_flag: if parameters.tp_on != 0 {
            parameters.tp_flag as u8
        } else {
            0
        },
        tcps,
    })
}

/// What profile management keeps of the checked parameters: the number of
/// resolutions, the code block size and the precinct settings stay within
/// what the tiles' coding parameters need.
proof fn lemma_managed_bounds(q: opj_cparameters, p: opj_cparameters, image: opj_image)
    requires
        profile_managed(q, p, image),
        p.wf(),
        1 <= p.numresolution <= 33,
        p.res_spec <= J2K_MAXRLVLS,
        4 <= p.cblockw_init <= 1024,
        4 <= p.cblockh_init <= 1024,
        p.numpocs <= J2K_MAX_POCS,
        p.rsiz != 3 && p.rsiz != 4 && p.csty & 1 != 0 ==> p.res_spec >= 1 && p.numresolution
            - p.res_spec <= 31,
        0x400 <= p.rsiz <= 0x99b ==> image.x1 >= 1 && image.y1 >= 1,
    ensures
        q.wf(),
        1 <= q.numresolution <= p.numresolution,
        q.res_spec <= J2K_MAXRLVLS,
        q.csty & 1 != 0 ==> q.res_spec >= 1 && q.numresolution - q.res_spec <= 31,
        4 <= q.cblockw_init <= 1024,
        4 <= q.cblockh_init <= 1024,
        q.numpocs <= J2K_MAX_POCS,
        q.tcp_numlayers <= p.tcp_numlayers || q.tcp_numlayers == 1,
        q.tile_size_on != 0 ==> q.tile_size_on == p.tile_size_on && q.cp_tx0 == p.cp_tx0
            && q.cp_ty0 == p.cp_ty0 && (p.rsiz != 3 && p.rsiz != 4),
        q.cp_fixed_alloc == p.cp_fixed_alloc && q.cp_matrice == p.cp_matrice,
{
    if 0x400 <= p.rsiz <= 0x99b {
        crate::params::lemma_imf_numresolution_bounds(p, image);
    }
    if p.rsiz == 3 || p.rsiz == 4 {
        let c = p.csty;
        assert((c | 1) & 1 != 0) by (bit_vector);
    }
}


/// The kind of an MCT record that holds a decorrelation matrix.
pub const MCT_TYPE_DECORRELATION: u32 = 1;

/// The kind of an MCT record that holds the offsets added to components.
pub const MCT_TYPE_OFFSET: u32 = 2;

/// What setting up a custom component transform for `numcomps` components
/// leaves in the tile's records: after the records it had, the
/// decorrelation array (when there is one) with index 1, then the offset
/// array with the next index, both of single precision reals holding the
/// given bytes; and one new collection after the collections it had, with
/// the next index, irreversible, over `numcomps` components, pointing at
/// those two records. Nothing else of the tile changes.
pub open spec fn mct_encoding_set_up(
    o: opj_tcp,
    n: opj_tcp,
    numcomps: u32,
    deco: Option<Seq<u8>>,
    offsets: Seq<u8>,
) -> bool {
    let base = o.m_mct_records@.len();
    let k: int = if deco is Some { 1 } else { 0 };
    &&& n == (opj_tcp { m_mct_records: n.m_mct_records, m_mcc_records: n.m_mcc_records, ..o })
    &&& n.m_mct_records@.len() == base + k + 1
    &&& n.m_mct_records@.subrange(0, base as int) == o.m_mct_records@
    &&& deco is Some ==> record_is(
        n.m_mct_records@[base as int],
        1,
        MCT_TYPE_DECORRELATION,
        MCTElementType::FLOAT,
        deco->0,
    )
    &&& record_is(
        n.m_mct_records@[base + k],
        (1 + k) as u32,
        MCT_TYPE_OFFSET,
        MCTElementType::FLOAT,
        offsets,
    )
    &&& n.m_mcc_records@ == o.m_mcc_records@.push(
        opj_mcc_record {
            m_index: (2 + k) as u32,
            m_nb_comps: numcomps,
            m_is_irreversible: true,
            m_decorrelation_array: if deco is Some { Some(base as usize) } else { None },
            m_offset_array: Some((base + k) as usize),
        },
    )
}

/// Sets up the custom component transform of a tile whose transform is
/// custom (`mct` 2): records its decoding matrix (`deco_bytes`, the
/// `numcomps * numcomps` reals of the matrix written as big-endian single
/// precision reals, when the tile has one) and its offsets (`offset_bytes`,
/// the DC level shifts of the components written the same way) as MCT
/// records, and a collection that ties them to the components. A tile with
/// another transform is left as it is. Returns whether it succeeded, which
/// it always does.
pub fn opj_j2k_setup_mct_encoding(
    tcp: &mut opj_tcp,
    numcomps: u32,
    deco_bytes: Option<Vec<u8>>,
    offset_bytes: Vec<u8>,
) -> (r: bool)
    ensures
        r,
        old(tcp).mct != 2 ==> *final(tcp) == *old(tcp),
        old(tcp).mct == 2 ==> mct_encoding_set_up(
            *old(tcp),
            *final(tcp),
            numcomps,
            match deco_bytes {
                Some(d) => Some(d@),
                None => None,
            },
            offset_bytes@,
        ),
{
    if tcp.mct != 2 {
        return true;
    }
    let ghost o = *tcp;
    let base = tcp.m_mct_records.len();
    let mut index: u32 = 1;
    let mut deco_pos: Option<usize> = None;
    match deco_bytes {
        Some(d) => {
            tcp.m_mct_records.push(
                opj_mct_data {
                    m_element_type: MCTElementType::FLOAT,
                    m_array_type: MCT_TYPE_DECORRELATION,
                    m_index: index,
                    m_data: d,
                },
            );
            deco_pos = Some(base);
            index = 2;
        },
        None => {},
    }
    let offset_pos = tcp.m_mct_records.len();
    tcp.m_mct_records.push(
        opj_mct_data {
            m_element_type: MCTElementType::FLOAT,
            m_array_type: MCT_TYPE_OFFSET,
            m_index: index,
            m_data: offset_bytes,
        },
    );
    tcp.m_mcc_records.push(
        opj_mcc_record {
            m_index: index + 1,
            m_nb_comps: numcomps,
            m_is_irreversible: true,
            m_decorrelation_array: deco_pos,
            m_offset_array: Some(offset_pos),
        },
    );
    proof {
        assert(tcp.m_mct_records@.subrange(0, base as int) =~= o.m_mct_records@);
    }
    true
}


/// `v` is a power of two.
pub open spec fn is_power_of_two(v: int) -> bool {
    exists|k: nat| vstd::arithmetic::power2::pow2(k) == v
}

proof fn lemma_floor_log2_pow2(k: nat)
    ensures
        floor_log2(vstd::arithmetic::power2::pow2(k) as int) == k,
    decreases k,
{
    vstd::arithmetic::power2::lemma_pow2_pos(k);
    if k > 0 {
        vstd::arithmetic::power2::lemma_pow2_unfold(k);
        vstd::arithmetic::power2::lemma_pow2_pos((k - 1) as nat);
        lemma_floor_log2_pow2((k - 1) as nat);
        assert(vstd::arithmetic::power2::pow2(k) as int / 2 == vstd::arithmetic::power2::pow2((k - 1) as nat));
    } else {
        vstd::arithmetic::power2::lemma2_to64();
    }
}

/// The parameter check accepts exactly the parameters with 1 to 33
/// resolutions and code blocks whose width and height are powers of two
/// from 4 to 1024 with at most 4096 samples, that ask for a fixed
/// allocation only with its matrix, at most 10 layers and at most 10
/// resolutions.
pub proof fn lemma_param_check_accepts(p: opj_cparameters)
    ensures
        param_error(p) is None <==> {
            &&& 1 <= p.numresolution <= 33
            &&& 4 <= p.cblockw_init <= 1024
            &&& 4 <= p.cblockh_init <= 1024
            &&& p.cblockw_init * p.cblockh_init <= 4096
            &&& is_power_of_two(p.cblockw_init as int)
            &&& is_power_of_two(p.cblockh_init as int)
            &&& p.cp_fixed_alloc != 0 ==> p.cp_matrice is Some && p.tcp_numlayers <= 10
                && p.numresolution <= 10
        },
{
    let w = p.cblockw_init as int;
    let h = p.cblockh_init as int;
    if w != vstd::arithmetic::power2::pow2(floor_log2(w) as nat) && is_power_of_two(w) {
        let k = choose|k: nat| vstd::arithmetic::power2::pow2(k) == w;
        lemma_floor_log2_pow2(k);
    }
    if h != vstd::arithmetic::power2::pow2(floor_log2(h) as nat) && is_power_of_two(h) {
        let k = choose|k: nat| vstd::arithmetic::power2::pow2(k) == h;
        lemma_floor_log2_pow2(k);
    }
    if w == vstd::arithmetic::power2::pow2(floor_log2(w) as nat) {
        assert(is_power_of_two(w));
    }
    if h == vstd::arithmetic::power2::pow2(floor_log2(h) as nat) {
        assert(is_power_of_two(h));
    }
}

} // verus!
