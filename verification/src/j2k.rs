//! Codestream vocabulary: markers, decoder states, progression orders and
//! the element types of MCT records, plus the small marker-segment checks.
use vstd::prelude::*;

use crate::cio::{be_value, opj_read_bytes, pow256, lemma_pow256_small};

verus! {

/// Decoder state bits (a set of `J2K_STATE_*` flags).
pub type J2KState = u32;

pub const J2K_STATE_NONE: u32 = 0;
pub const J2K_STATE_MHSOC: u32 = 1;
pub const J2K_STATE_MHSIZ: u32 = 2;
pub const J2K_STATE_MH: u32 = 4;
pub const J2K_STATE_TPHSOT: u32 = 8;
pub const J2K_STATE_TPH: u32 = 16;
pub const J2K_STATE_MT: u32 = 32;
pub const J2K_STATE_NEOC: u32 = 64;
pub const J2K_STATE_DATA: u32 = 128;
pub const J2K_STATE_EOC: u32 = 256;
pub const J2K_STATE_ERR: u32 = 32768;

/// Storage type of the elements of an MCT record.
#[derive(Debug, Clone, Copy, PartialEq, Eq, Structural)]
pub enum MCTElementType {
    DOUBLE,
    FLOAT,
    INT32,
    INT16,
}

/// The element type coded in the two low bits of `num`.
pub open spec fn mct_element_type_of(num: u32) -> MCTElementType {
    let t = num % 4;
    if t == 0 {
        MCTElementType::INT16
    } else if t == 1 {
        MCTElementType::INT32
    } else if t == 2 {
        MCTElementType::FLOAT
    } else {
        MCTElementType::DOUBLE
    }
}

/// Size in bytes of one element of each type.
pub open spec fn mct_element_size(t: MCTElementType) -> u32 {
    match t {
        MCTElementType::INT16 => 2,
        MCTElementType::INT32 => 4,
        MCTElementType::FLOAT => 4,
        MCTElementType::DOUBLE => 8,
    }
}

impl MCTElementType {
    /// The element type coded in the two low bits of `num`.
    pub fn new(num: u32) -> (r: Self)
        ensures
            r == mct_element_type_of(num),
    {
        let t = num & 3u32;
        assert(t == num % 4) by (bit_vector)
            requires
                t == num & 3u32,
        ;
        if t == 0 {
            Self::INT16
        } else if t == 1 {
            Self::INT32
        } else if t == 2 {
            Self::FLOAT
        } else {
            Self::DOUBLE
        }
    }

    /// Size in bytes of one element.
    pub fn size(&self) -> (r: u32)
        ensures
            r == mct_element_size(*self),
    {
        match self {
            Self::INT16 => 2,
            Self::INT32 => 4,
            Self::FLOAT => 4,
            Self::DOUBLE => 8,
        }
    }
}

/// Reads `nb` big-endian 16-bit elements from `src` into `dest`, each as its
/// unsigned value.
pub fn opj_j2k_read_int16_to_int32(src: &[u8], dest: &mut [i32], nb: u32)
    requires
        2 * nb <= src@.len(),
        nb <= old(dest)@.len(),
    ensures
        final(dest)@.len() == old(dest)@.len(),
        forall|i: int|
            0 <= i < nb ==> #[trigger] final(dest)@[i] as int == be_value(src@.subrange(2 * i, 2 * i + 2)),
        forall|i: int| nb <= i < old(dest)@.len() ==> #[trigger] final(dest)@[i] == old(dest)@[i],
{
    let ghost orig = dest@;
    let src_len = src.len();
    let mut i: u32 = 0;
    while i < nb
        invariant
            i <= nb,
            2 * nb <= src@.len(),
            src_len == src@.len(),
            nb <= orig.len(),
            dest@.len() == orig.len(),
            forall|j: int|
                0 <= j < i ==> #[trigger] dest@[j] as int == be_value(src@.subrange(2 * j, 2 * j + 2)),
            forall|j: int| i <= j < orig.len() ==> #[trigger] dest@[j] == orig[j],
        decreases nb - i,
    {
        let pos = 2 * i as usize;
        let v = opj_read_bytes(src, pos, 2);
        proof {
            crate::cio::lemma_be_value_bound(src@.subrange(pos as int, pos + 2));
            lemma_pow256_small();
        }
        dest[i as usize] = v as i32;
        i = i + 1;
    }
}

/// Reads `nb` big-endian 32-bit elements from `src` into `dest`, each
/// reinterpreted as a two's-complement `i32`.
pub fn opj_j2k_read_int32_to_int32(src: &[u8], dest: &mut [i32], nb: u32)
    requires
        4 * nb <= src@.len(),
        nb <= old(dest)@.len(),
    ensures
        final(dest)@.len() == old(dest)@.len(),
        forall|i: int|
            0 <= i < nb ==> #[trigger] final(dest)@[i] == (be_value(src@.subrange(4 * i, 4 * i + 4)) as u32) as i32,
        forall|i: int| nb <= i < old(dest)@.len() ==> #[trigger] final(dest)@[i] == old(dest)@[i],
{
    let ghost orig = dest@;
    let src_len = src.len();
    let mut i: u32 = 0;
    while i < nb
        invariant
            i <= nb,
            4 * nb <= src@.len(),
            src_len == src@.len(),
            nb <= orig.len(),
            dest@.len() == orig.len(),
            forall|j: int|
                0 <= j < i ==> #[trigger] dest@[j] == (be_value(src@.subrange(4 * j, 4 * j + 4)) as u32) as i32,
            forall|j: int| i <= j < orig.len() ==> #[trigger] dest@[j] == orig[j],
        decreases nb - i,
    {
        let pos = 4 * i as usize;
        let v = opj_read_bytes(src, pos, 4);
        dest[i as usize] = v as i32;
        i = i + 1;
    }
}

/// One step of a progression order.
#[derive(Debug, Clone, Copy, PartialEq, Eq, Structural)]
pub enum ProgressionStep {
    Unknown,
    Component,
    Resolution,
    Precinct,
    Layer,
}

/// The letter that names a step in progression-order strings.
pub open spec fn step_byte(s: ProgressionStep) -> u8 {
    match s {
        ProgressionStep::Component => 67,
        ProgressionStep::Resolution => 82,
        ProgressionStep::Precinct => 80,
        ProgressionStep::Layer => 76,
        ProgressionStep::Unknown => 0,
    }
}

impl ProgressionStep {
    /// `b'C'`, `b'R'`, `b'P'` or `b'L'`, and 0 for an unknown step.
    pub fn as_byte(&self) -> (r: u8)
        ensures
            r == step_byte(*self),
    {
        match self {
            Self::Component => 67,
            Self::Resolution => 82,
            Self::Precinct => 80,
            Self::Layer => 76,
            Self::Unknown => 0,
        }
    }
}

/// Progression order codes of the coding parameters.
pub type OPJ_PROG_ORDER = i32;

pub const OPJ_PROG_UNKNOWN: i32 = -1;
pub const OPJ_LRCP: i32 = 0;
pub const OPJ_RLCP: i32 = 1;
pub const OPJ_RPCL: i32 = 2;
pub const OPJ_PCRL: i32 = 3;
pub const OPJ_CPRL: i32 = 4;

/// The progression orders the encoder can split tile parts by.
#[derive(Debug, Clone, Copy, PartialEq, Eq, Structural)]
pub enum ProgressionOrder {
    Unknown,
    CPRL,
    PCRL,
    RLCP,
    LRCP,
}

pub open spec fn order_of_code(code: i32) -> ProgressionOrder {
    if code == OPJ_CPRL {
        ProgressionOrder::CPRL
    } else if code == OPJ_PCRL {
        ProgressionOrder::PCRL
    } else if code == OPJ_RLCP {
        ProgressionOrder::RLCP
    } else if code == OPJ_LRCP {
        ProgressionOrder::LRCP
    } else {
        ProgressionOrder::Unknown
    }
}

/// The steps of an order, outermost first.
pub open spec fn order_steps(o: ProgressionOrder) -> Seq<ProgressionStep> {
    match o {
        ProgressionOrder::CPRL => seq![
            ProgressionStep::Component,
            ProgressionStep::Precinct,
            ProgressionStep::Resolution,
            ProgressionStep::Layer,
        ],
        ProgressionOrder::PCRL => seq![
            ProgressionStep::Precinct,
            ProgressionStep::Component,
            ProgressionStep::Resolution,
            ProgressionStep::Layer,
        ],
        ProgressionOrder::RLCP => seq![
            ProgressionStep::Resolution,
            ProgressionStep::Layer,
            ProgressionStep::Component,
            ProgressionStep::Precinct,
        ],
        ProgressionOrder::LRCP => seq![
            ProgressionStep::Layer,
            ProgressionStep::Resolution,
            ProgressionStep::Component,
            ProgressionStep::Precinct,
        ],
        ProgressionOrder::Unknown => seq![],
    }
}

/// The name of an order: the letters of its steps.
pub open spec fn order_name(o: ProgressionOrder) -> Seq<char> {
    match o {
        ProgressionOrder::CPRL => seq!['C', 'P', 'R', 'L'],
        ProgressionOrder::PCRL => seq!['P', 'C', 'R', 'L'],
        ProgressionOrder::RLCP => seq!['R', 'L', 'C', 'P'],
        ProgressionOrder::LRCP => seq!['L', 'R', 'C', 'P'],
        ProgressionOrder::Unknown => seq![],
    }
}

impl ProgressionOrder {
    /// The order for a progression order code; codes without a tile-part
    /// split order (RPCL, unknown) give `Unknown`.
    pub fn from_c_enum(enum_prog: OPJ_PROG_ORDER) -> (r: Self)
        ensures
            r == order_of_code(enum_prog),
    {
        if enum_prog == OPJ_CPRL {
            Self::CPRL
        } else if enum_prog == OPJ_PCRL {
            Self::PCRL
        } else if enum_prog == OPJ_RLCP {
            Self::RLCP
        } else if enum_prog == OPJ_LRCP {
            Self::LRCP
        } else {
            Self::Unknown
        }
    }

    /// The steps of this order, outermost first.
    pub fn get_order(&self) -> (r: &'static [ProgressionStep])
        ensures
            r@ == order_steps(*self),
    {
        match self {
            Self::CPRL => &[
                ProgressionStep::Component,
                ProgressionStep::Precinct,
                ProgressionStep::Resolution,
                ProgressionStep::Layer,
            ],
            Self::PCRL => &[
                ProgressionStep::Precinct,
                ProgressionStep::Component,
                ProgressionStep::Resolution,
                ProgressionStep::Layer,
            ],
            Self::RLCP => &[
                ProgressionStep::Resolution,
                ProgressionStep::Layer,
                ProgressionStep::Component,
                ProgressionStep::Precinct,
            ],
            Self::LRCP => &[
                ProgressionStep::Layer,
                ProgressionStep::Resolution,
                ProgressionStep::Component,
                ProgressionStep::Precinct,
            ],
            Self::Unknown => &[],
        }
    }

    /// The name of this order ("CPRL", ...), empty for `Unknown`.
    pub fn get_order_str(&self) -> (r: &'static str)
        ensures
            r@ == order_name(*self),
    {
        proof {
            reveal_strlit("CPRL");
            reveal_strlit("PCRL");
            reveal_strlit("RLCP");
            reveal_strlit("LRCP");
            reveal_strlit("");
        }
        match self {
            Self::CPRL => "CPRL",
            Self::PCRL => "PCRL",
            Self::RLCP => "RLCP",
            Self::LRCP => "LRCP",
            Self::Unknown => "",
        }
    }

    /// Step number `pos` of this order, or `Unknown` past its end (or for a
    /// negative position).
    pub fn get_step(&self, pos: i32) -> (r: ProgressionStep)
        ensures
            0 <= pos < order_steps(*self).len() ==> r == order_steps(*self)[pos as int],
            !(0 <= pos < order_steps(*self).len()) ==> r == ProgressionStep::Unknown,
    {
        let steps = self.get_order();
        if 0 <= pos && (pos as usize) < steps.len() {
            steps[pos as usize]
        } else {
            ProgressionStep::Unknown
        }
    }
}

/// The order for a progression order code.
pub fn opj_j2k_convert_progression_order(prg_order: OPJ_PROG_ORDER) -> (r: ProgressionOrder)
    ensures
        r == order_of_code(prg_order),
{
    ProgressionOrder::from_c_enum(prg_order)
}

/// A codestream marker; `UNK` carries a code with no named marker.
#[derive(Debug, Clone, Copy, PartialEq, Eq, Structural)]
pub enum J2KMarker {
    UNK(u32),
    SOC,
    SOT,
    SOD,
    EOC,
    CAP,
    SIZ,
    COD,
    COC,
    CPF,
    RGN,
    QCD,
    QCC,
    POC,
    TLM,
    PLM,
    PLT,
    PPM,
    PPT,
    SOP,
    EPH,
    CRG,
    COM,
    CBD,
    MCC,
    MCT,
    MCO,
}

/// The marker named by a 16-bit code, `UNK(code)` for any other code.
pub open spec fn marker_of_code(num: u32) -> J2KMarker {
    if num == 0xff4f {
        J2KMarker::SOC
    } else if num == 0xff90 {
        J2KMarker::SOT
    } else if num == 0xff93 {
        J2KMarker::SOD
    } else if num == 0xffd9 {
        J2KMarker::EOC
    } else if num == 0xff50 {
        J2KMarker::CAP
    } else if num == 0xff51 {
        J2KMarker::SIZ
    } else if num == 0xff52 {
        J2KMarker::COD
    } else if num == 0xff53 {
        J2KMarker::COC
    } else if num == 0xff59 {
        J2KMarker::CPF
    } else if num == 0xff5e {
        J2KMarker::RGN
    } else if num == 0xff5c {
        J2KMarker::QCD
    } else if num == 0xff5d {
        J2KMarker::QCC
    } else if num == 0xff5f {
        J2KMarker::POC
    } else if num == 0xff55 {
        J2KMarker::TLM
    } else if num == 0xff57 {
        J2KMarker::PLM
    } else if num == 0xff58 {
        J2KMarker::PLT
    } else if num == 0xff60 {
        J2KMarker::PPM
    } else if num == 0xff61 {
        J2KMarker::PPT
    } else if num == 0xff91 {
        J2KMarker::SOP
    } else if num == 0xff92 {
        J2KMarker::EPH
    } else if num == 0xff63 {
        J2KMarker::CRG
    } else if num == 0xff64 {
        J2KMarker::COM
    } else if num == 0xff78 {
        J2KMarker::CBD
    } else if num == 0xff75 {
        J2KMarker::MCC
    } else if num == 0xff74 {
        J2KMarker::MCT
    } else if num == 0xff77 {
        J2KMarker::MCO
    } else {
        J2KMarker::UNK(num)
    }
}

/// The code of a marker.
pub open spec fn marker_code(m: J2KMarker) -> u32 {
    match m {
        J2KMarker::SOC => 0xff4f,
        J2KMarker::SOT => 0xff90,
        J2KMarker::SOD => 0xff93,
        J2KMarker::EOC => 0xffd9,
        J2KMarker::CAP => 0xff50,
        J2KMarker::SIZ => 0xff51,
        J2KMarker::COD => 0xff52,
        J2KMarker::COC => 0xff53,
        J2KMarker::CPF => 0xff59,
        J2KMarker::RGN => 0xff5e,
        J2KMarker::QCD => 0xff5c,
        J2KMarker::QCC => 0xff5d,
        J2KMarker::POC => 0xff5f,
        J2KMarker::TLM => 0xff55,
        J2KMarker::PLM => 0xff57,
        J2KMarker::PLT => 0xff58,
        J2KMarker::PPM => 0xff60,
        J2KMarker::PPT => 0xff61,
        J2KMarker::SOP => 0xff91,
        J2KMarker::EPH => 0xff92,
        J2KMarker::CRG => 0xff63,
        J2KMarker::COM => 0xff64,
        J2KMarker::CBD => 0xff78,
        J2KMarker::MCC => 0xff75,
        J2KMarker::MCT => 0xff74,
        J2KMarker::MCO => 0xff77,
        J2KMarker::UNK(num) => num,
    }
}

/// The decoder states in which a marker may appear.
pub open spec fn marker_states(m: J2KMarker) -> u32 {
    match m {
        J2KMarker::SOT => J2K_STATE_MH | J2K_STATE_TPHSOT,
        J2KMarker::SIZ => J2K_STATE_MHSIZ,
        J2KMarker::TLM => J2K_STATE_MH,
        J2KMarker::PLM => J2K_STATE_MH,
        J2KMarker::PLT => J2K_STATE_TPH,
        J2KMarker::PPM => J2K_STATE_MH,
        J2KMarker::PPT => J2K_STATE_TPH,
        J2KMarker::SOP => J2K_STATE_NONE,
        J2KMarker::CRG => J2K_STATE_MH,
        J2KMarker::CBD => J2K_STATE_MH,
        J2KMarker::CAP => J2K_STATE_MH,
        J2KMarker::CPF => J2K_STATE_MH,
        _ => J2K_STATE_MH | J2K_STATE_TPH,
    }
}

impl J2KMarker {
    /// The marker named by `num`.
    pub fn from(num: u32) -> (r: Self)
        ensures
            r == marker_of_code(num),
    {
        if num == 0xff4f {
            Self::SOC
        } else if num == 0xff90 {
            Self::SOT
        } else if num == 0xff93 {
            Self::SOD
        } else if num == 0xffd9 {
            Self::EOC
        } else if num == 0xff50 {
            Self::CAP
        } else if num == 0xff51 {
            Self::SIZ
        } else if num == 0xff52 {
            Self::COD
        } else if num == 0xff53 {
            Self::COC
        } else if num == 0xff59 {
            Self::CPF
        } else if num == 0xff5e {
            Self::RGN
        } else if num == 0xff5c {
            Self::QCD
        } else if num == 0xff5d {
            Self::QCC
        } else if num == 0xff5f {
            Self::POC
        } else if num == 0xff55 {
            Self::TLM
        } else if num == 0xff57 {
            Self::PLM
        } else if num == 0xff58 {
            Self::PLT
        } else if num == 0xff60 {
            Self::PPM
        } else if num == 0xff61 {
            Self::PPT
        } else if num == 0xff91 {
            Self::SOP
        } else if num == 0xff92 {
            Self::EPH
        } else if num == 0xff63 {
            Self::CRG
        } else if num == 0xff64 {
            Self::COM
        } else if num == 0xff78 {
            Self::CBD
        } else if num == 0xff75 {
            Self::MCC
        } else if num == 0xff74 {
            Self::MCT
        } else if num == 0xff77 {
            Self::MCO
        } else {
            Self::UNK(num)
        }
    }

    /// The marker whose big-endian code is in the first two bytes of `buf`.
    pub fn from_buffer(buf: &[u8]) -> (r: Self)
        requires
            2 <= buf@.len(),
        ensures
            r == marker_of_code(be_value(buf@.subrange(0, 2)) as u32),
    {
        let marker = opj_read_bytes(buf, 0, 2);
        Self::from(marker)
    }

    /// The code of this marker.
    pub fn as_u32(&self) -> (r: u32)
        ensures
            r == marker_code(*self),
    {
        match self {
            Self::SOC => 0xff4f,
            Self::SOT => 0xff90,
            Self::SOD => 0xff93,
            Self::EOC => 0xffd9,
            Self::CAP => 0xff50,
            Self::SIZ => 0xff51,
            Self::COD => 0xff52,
            Self::COC => 0xff53,
            Self::CPF => 0xff59,
            Self::RGN => 0xff5e,
            Self::QCD => 0xff5c,
            Self::QCC => 0xff5d,
            Self::POC => 0xff5f,
            Self::TLM => 0xff55,
            Self::PLM => 0xff57,
            Self::PLT => 0xff58,
            Self::PPM => 0xff60,
            Self::PPT => 0xff61,
            Self::SOP => 0xff91,
            Self::EPH => 0xff92,
            Self::CRG => 0xff63,
            Self::COM => 0xff64,
            Self::CBD => 0xff78,
            Self::MCC => 0xff75,
            Self::MCT => 0xff74,
            Self::MCO => 0xff77,
            Self::UNK(num) => *num,
        }
    }

    /// A code below `0xff00` is not a marker at all.
    pub fn is_invalid(&self) -> (r: bool)
        ensures
            r == (marker_code(*self) < 0xff00),
    {
        self.as_u32() < 0xff00u32
    }

    /// Whether this code names no known marker.
    pub fn is_unknown(&self) -> (r: bool)
        ensures
            r == (*self is UNK),
    {
        match self {
            Self::UNK(_) => true,
            _ => false,
        }
    }

    /// The decoder states in which this marker is expected.
    pub fn states(&self) -> (r: J2KState)
        ensures
            r == marker_states(*self),
    {
        match self {
            Self::SOT => J2K_STATE_MH | J2K_STATE_TPHSOT,
            Self::COD => J2K_STATE_MH | J2K_STATE_TPH,
            Self::COC => J2K_STATE_MH | J2K_STATE_TPH,
            Self::RGN => J2K_STATE_MH | J2K_STATE_TPH,
            Self::QCD => J2K_STATE_MH | J2K_STATE_TPH,
            Self::QCC => J2K_STATE_MH | J2K_STATE_TPH,
            Self::POC => J2K_STATE_MH | J2K_STATE_TPH,
            Self::SIZ => J2K_STATE_MHSIZ,
            Self::TLM => J2K_STATE_MH,
            Self::PLM => J2K_STATE_MH,
            Self::PLT => J2K_STATE_TPH,
            Self::PPM => J2K_STATE_MH,
            Self::PPT => J2K_STATE_TPH,
            Self::SOP => J2K_STATE_NONE,
            Self::CRG => J2K_STATE_MH,
            Self::COM => J2K_STATE_MH | J2K_STATE_TPH,
            Self::MCT => J2K_STATE_MH | J2K_STATE_TPH,
            Self::CBD => J2K_STATE_MH,
            Self::CAP => J2K_STATE_MH,
            Self::CPF => J2K_STATE_MH,
            Self::MCC => J2K_STATE_MH | J2K_STATE_TPH,
            Self::MCO => J2K_STATE_MH | J2K_STATE_TPH,
            _ => J2K_STATE_MH | J2K_STATE_TPH,
        }
    }
}

/// Reading a marker from its code and writing the code back gives the same
/// code, for every 32-bit code.
pub proof fn lemma_marker_code_roundtrip(num: u32)
    ensures
        marker_code(marker_of_code(num)) == num,
{
}

/// A named marker is recovered from its code; so is an unknown marker whose
/// code names no marker.
pub proof fn lemma_marker_roundtrip(m: J2KMarker)
    requires
        m matches J2KMarker::UNK(c) ==> marker_of_code(c) is UNK,
    ensures
        marker_of_code(marker_code(m)) == m,
{
}


/// Where the markers may appear, as the codestream syntax has them: in the
/// main header (after SIZ) every marker but SIZ, SOP, PLT and PPT; in a
/// tile-part header every marker but SOT, SIZ, the main-header-only TLM,
/// PLM, PPM, CRG, CBD, CAP and CPF, and SOP; the SIZ marker only right
/// after SOC; a SOT marker where a tile-part starts.
pub proof fn lemma_marker_places(m: J2KMarker)
    ensures
        (J2K_STATE_MH & marker_states(m) != J2K_STATE_NONE) <==> !(m == J2KMarker::SIZ || m
            == J2KMarker::SOP || m == J2KMarker::PLT || m == J2KMarker::PPT),
        (J2K_STATE_TPH & marker_states(m) != J2K_STATE_NONE) <==> !(m == J2KMarker::SOT || m
            == J2KMarker::SIZ || m == J2KMarker::TLM || m == J2KMarker::PLM || m == J2KMarker::PPM
            || m == J2KMarker::CRG || m == J2KMarker::CBD || m == J2KMarker::CAP || m
            == J2KMarker::CPF || m == J2KMarker::SOP),
        (J2K_STATE_MHSIZ & marker_states(m) != J2K_STATE_NONE) <==> m == J2KMarker::SIZ,
        (J2K_STATE_TPHSOT & marker_states(m) != J2K_STATE_NONE) <==> m == J2KMarker::SOT,
{
    assert(4u32 & 12u32 != 0 && 16u32 & 12u32 == 0 && 2u32 & 12u32 == 0 && 8u32 & 12u32 != 0) by (bit_vector);
    assert(4u32 & 2u32 == 0 && 16u32 & 2u32 == 0 && 2u32 & 2u32 != 0 && 8u32 & 2u32 == 0) by (bit_vector);
    assert(4u32 & 4u32 != 0 && 16u32 & 4u32 == 0 && 2u32 & 4u32 == 0 && 8u32 & 4u32 == 0) by (bit_vector);
    assert(4u32 & 16u32 == 0 && 16u32 & 16u32 != 0 && 2u32 & 16u32 == 0 && 8u32 & 16u32 == 0) by (bit_vector);
    assert(4u32 & 0u32 == 0 && 16u32 & 0u32 == 0 && 2u32 & 0u32 == 0 && 8u32 & 0u32 == 0) by (bit_vector);
    assert(4u32 & 20u32 != 0 && 16u32 & 20u32 != 0 && 2u32 & 20u32 == 0 && 8u32 & 20u32 == 0) by (bit_vector);
    assert(J2K_STATE_MH | J2K_STATE_TPHSOT == 12u32) by (bit_vector);
    assert(J2K_STATE_MH | J2K_STATE_TPH == 20u32) by (bit_vector);
}

} // verus!
