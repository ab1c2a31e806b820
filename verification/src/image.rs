//! Images and image components: geometry, sample buffers and ICC profiles.
use vstd::prelude::*;

use crate::math::trunc_div;
use vstd::arithmetic::power2::{lemma2_to64, lemma_pow2_strictly_increases, pow2};

verus! {

/// Colour space codes.
pub type OPJ_COLOR_SPACE = i32;

pub const OPJ_CLRSPC_UNKNOWN: i32 = -1;
pub const OPJ_CLRSPC_UNSPECIFIED: i32 = 0;
pub const OPJ_CLRSPC_SRGB: i32 = 1;
pub const OPJ_CLRSPC_GRAY: i32 = 2;
pub const OPJ_CLRSPC_SYCC: i32 = 3;
pub const OPJ_CLRSPC_EYCC: i32 = 4;
pub const OPJ_CLRSPC_CMYK: i32 = 5;

/// Size of the CIELab colour description kept in the ICC buffer (nine
/// 32-bit words) when the profile length is zero.
pub const CIE_LAB_BYTE_SIZE: usize = 36;

/// One image component: its sampling, geometry, precision and samples.
#[derive(Clone, Debug)]
pub struct opj_image_comp {
    pub dx: u32,
    pub dy: u32,
    pub w: u32,
    pub h: u32,
    pub x0: u32,
    pub y0: u32,
    pub prec: u32,
    pub bpp: u32,
    pub sgnd: u32,
    pub resno_decoded: u32,
    pub factor: u32,
    pub data: Option<Vec<i32>>,
    pub alpha: u16,
}

/// The samples of a component, empty when it has none.
pub open spec fn samples(c: opj_image_comp) -> Seq<i32> {
    match c.data {
        Some(d) => d@,
        None => Seq::empty(),
    }
}

impl opj_image_comp {
    /// A component's sample buffer, when present, holds `w * h` samples.
    pub open spec fn wf(&self) -> bool {
        self.data matches Some(d) ==> d@.len() == self.w * self.h
    }

    /// The properties other than the samples are those of `other`.
    pub open spec fn same_props(&self, other: opj_image_comp) -> bool {
        &&& self.dx == other.dx
        &&& self.dy == other.dy
        &&& self.w == other.w
        &&& self.h == other.h
        &&& self.x0 == other.x0
        &&& self.y0 == other.y0
        &&& self.prec == other.prec
        &&& self.bpp == other.bpp
        &&& self.sgnd == other.sgnd
        &&& self.resno_decoded == other.resno_decoded
        &&& self.factor == other.factor
        &&& self.alpha == other.alpha
    }

    /// A component with every property zero and no samples.
    pub fn default() -> (r: Self)
        ensures
            r.dx == 0 && r.dy == 0 && r.w == 0 && r.h == 0 && r.x0 == 0 && r.y0 == 0,
            r.prec == 0 && r.bpp == 0 && r.sgnd == 0 && r.resno_decoded == 0 && r.factor == 0,
            r.data is None,
            r.alpha == 0,
    {
        Self {
            dx: 0,
            dy: 0,
            w: 0,
            h: 0,
            x0: 0,
            y0: 0,
            prec: 0,
            bpp: 0,
            sgnd: 0,
            resno_decoded: 0,
            factor: 0,
            data: None,
            alpha: 0,
        }
    }

    /// Copies the properties of `other`, not its samples; this component's
    /// samples are released.
    pub fn copy_props(&mut self, other: &opj_image_comp)
        ensures
            final(self).same_props(*other),
            final(self).data is None,
    {
        self.clear_data();
        self.dx = other.dx;
        self.dy = other.dy;
        self.w = other.w;
        self.h = other.h;
        self.x0 = other.x0;
        self.y0 = other.y0;
        self.prec = other.prec;
        self.bpp = other.bpp;
        self.sgnd = other.sgnd;
        self.resno_decoded = other.resno_decoded;
        self.factor = other.factor;
        self.alpha = other.alpha;
    }

    /// Copies `other`, samples included.  Fails only when a buffer of
    /// `w * h` samples is too large to address.
    pub fn copy(&mut self, other: &opj_image_comp) -> (r: bool)
        requires
            other.wf(),
        ensures
            final(self).same_props(*other),
            other.data is None ==> r && final(self).data is None,
            other.data is Some ==> (r <==> other.w * other.h * 4 <= usize::MAX),
            other.data is Some && r ==> final(self).data is Some && final(self).data.unwrap()@
                == other.data.unwrap()@,
            other.data is Some && !r ==> final(self).data is None,
            final(self).wf(),
    {
        self.copy_props(other);
        match &other.data {
            Some(o_data) => self.set_data(o_data.as_slice()),
            None => true,
        }
    }

    /// Changes the dimensions; the samples are released when they change.
    pub fn set_dims(&mut self, w: u32, h: u32)
        ensures
            final(self).w == w,
            final(self).h == h,
            (old(self).w == w && old(self).h == h) ==> *final(self) == *old(self),
            !(old(self).w == w && old(self).h == h) ==> final(self).data is None,
            final(self).dx == old(self).dx && final(self).dy == old(self).dy,
            final(self).x0 == old(self).x0 && final(self).y0 == old(self).y0,
            final(self).prec == old(self).prec && final(self).bpp == old(self).bpp,
            final(self).sgnd == old(self).sgnd,
            final(self).resno_decoded == old(self).resno_decoded,
            final(self).factor == old(self).factor && final(self).alpha == old(self).alpha,
    {
        if self.w == w && self.h == h {
            return;
        }
        self.w = w;
        self.h = h;
        self.clear_data();
    }

    /// Releases the samples.
    pub fn clear_data(&mut self)
        ensures
            final(self).same_props(*old(self)),
            final(self).data is None,
    {
        self.data = None;
    }

    /// Replaces the samples by `w * h` zeros.  Fails, leaving no samples,
    /// when that many 32-bit samples are too large to address.
    pub fn alloc_data(&mut self) -> (r: bool)
        ensures
            final(self).same_props(*old(self)),
            r == (old(self).w * old(self).h * 4 <= usize::MAX),
            r ==> final(self).data is Some && final(self).data.unwrap()@ == Seq::new(
                (old(self).w * old(self).h) as nat,
                |i: int| 0i32,
            ),
            !r ==> final(self).data is None,
    {
        self.clear_data();
        let len = match (self.w as usize).checked_mul(self.h as usize) {
            Some(n) => match n.checked_mul(4) {
                Some(_) => n,
                None => {
                    return false;
                },
            },
            None => {
                return false;
            },
        };
        let mut v: Vec<i32> = Vec::with_capacity(len);
        let mut i: usize = 0;
        while i < len
            invariant
                i <= len,
                v@ == Seq::new(i as nat, |j: int| 0i32),
            decreases len - i,
        {
            v.push(0);
            i = i + 1;
        }
        self.data = Some(v);
        true
    }

    /// Takes the samples of `other`, which is left without samples.
    pub fn move_data(&mut self, other: &mut opj_image_comp)
        ensures
            final(self).same_props(*old(self)),
            final(self).data == old(other).data,
            final(other).same_props(*old(other)),
            final(other).data is None,
    {
        self.clear_data();
        self.data = other.data.take();
    }

    /// The samples, if any.
    pub fn data(&self) -> (r: Option<&[i32]>)
        ensures
            self.data is None ==> r is None,
            self.data is Some ==> r is Some && r.unwrap()@ == self.data.unwrap()@,
    {
        match &self.data {
            Some(d) => Some(d.as_slice()),
            None => None,
        }
    }

    /// The samples, if any, for writing.
    pub fn data_mut(&mut self) -> (r: Option<&mut [i32]>)
        ensures
            old(self).data is None ==> r is None && *final(self) == *old(self),
            old(self).data is Some ==> {
                &&& r is Some
                &&& r.unwrap()@ == old(self).data.unwrap()@
                &&& final(self).same_props(*old(self))
                &&& final(self).data is Some
                &&& final(self).data.unwrap()@ == final(r.unwrap())@
            },
    {
        match self.data.as_mut() {
            Some(d) => Some(d.as_mut_slice()),
            None => None,
        }
    }

    /// Stores a copy of `data` as the samples, allocating the buffer when the
    /// component has none.  Fails, leaving no samples, only when the buffer
    /// is too large to address.
    pub fn set_data(&mut self, data: &[i32]) -> (r: bool)
        requires
            old(self).wf(),
            data@.len() == old(self).w * old(self).h,
        ensures
            final(self).same_props(*old(self)),
            final(self).wf(),
            old(self).data is Some ==> r,
            old(self).data is None ==> (r <==> old(self).w * old(self).h * 4 <= usize::MAX),
            r ==> final(self).data is Some && final(self).data.unwrap()@ == data@,
            !r ==> final(self).data is None,
    {
        if self.data.is_none() {
            if !self.alloc_data() {
                return false;
            }
        }
        let mut d = self.data.take().unwrap();
        let mut i: usize = 0;
        let n = data.len();
        while i < n
            invariant
                i <= n,
                n == data@.len(),
                d@.len() == n,
                forall|j: int| 0 <= j < i ==> #[trigger] d@[j] == data@[j],
            decreases n - i,
        {
            d[i] = data[i];
            i = i + 1;
        }
        assert(d@ =~= data@);
        self.data = Some(d);
        true
    }
}

/// The range `[min, max]` that a sample of precision `precision` may take:
/// `[0, 2^p - 1]` unsigned, `[-2^(p-1), 2^(p-1) - 1]` signed.
pub open spec fn clip_range(precision: u32, signed: bool) -> (int, int) {
    if !signed {
        (0, pow2(precision as nat) - 1)
    } else {
        (-pow2((precision - 1) as nat), pow2((precision - 1) as nat) - 1)
    }
}

/// `v` clamped into `[lo, hi]`, then truncated to 32 bits.
pub open spec fn clamp_to(v: int, lo: int, hi: int) -> i32 {
    (if v < lo {
        lo
    } else if v > hi {
        hi
    } else {
        v
    }) as i32
}

proof fn lemma_shl_small(p: u32)
    requires
        p <= 31,
    ensures
        1 <= (1i64 << p) <= 0x8000_0000,
{
    assert(1 <= (1i64 << p) <= 0x8000_0000) by (bit_vector)
        requires
            p <= 31,
    ;
}

proof fn lemma_shl_i64_pos(p: u32)
    requires
        p <= 62,
    ensures
        (1i64 << p) >= 1,
{
    assert((1i64 << p) >= 1) by (bit_vector)
        requires
            p <= 62,
    ;
}

proof fn lemma_shl_u64_pos(p: u32)
    requires
        p < 64,
    ensures
        (1u64 << p) >= 1,
        p >= 1 ==> (1u64 << p) >= 2,
{
    assert((1u64 << p) >= 1 && (p >= 1 ==> (1u64 << p) >= 2)) by (bit_vector)
        requires
            p < 64,
    ;
}

impl opj_image_comp {
    /// Clamps every sample into the range of `precision` bits (unsigned, or
    /// signed when the component is) and records the new precision; a
    /// component without samples is left unchanged.
    pub fn clip(&mut self, precision: u32)
        requires
            old(self).sgnd != 0 ==> precision != 0,
        ensures
            old(self).data is None ==> *final(self) == *old(self),
            old(self).data is Some ==> {
                &&& final(self).prec == precision
                &&& final(self).data is Some
                &&& final(self).data.unwrap()@.len() == old(self).data.unwrap()@.len()
                &&& forall|i: int|
                    0 <= i < old(self).data.unwrap()@.len() ==> #[trigger] final(self).data.unwrap()@[i]
                        == clamp_to(
                        old(self).data.unwrap()@[i] as int,
                        clip_range(precision, old(self).sgnd != 0).0,
                        clip_range(precision, old(self).sgnd != 0).1,
                    )
                &&& final(self).dx == old(self).dx && final(self).dy == old(self).dy
                &&& final(self).w == old(self).w && final(self).h == old(self).h
                &&& final(self).x0 == old(self).x0 && final(self).y0 == old(self).y0
                &&& final(self).bpp == old(self).bpp && final(self).sgnd == old(self).sgnd
                &&& final(self).resno_decoded == old(self).resno_decoded
                &&& final(self).factor == old(self).factor && final(self).alpha == old(self).alpha
            },
    {
        let signed = self.sgnd != 0;
        if self.data.is_none() {
            return;
        }
        let (min, max): (i64, i64) = if precision <= 31 && !signed {
            proof {
                vstd::bits::lemma_u64_pow2_no_overflow(precision as nat);
                vstd::bits::lemma_u64_shl_is_mul(1, precision as u64);
                lemma2_to64();
                if precision < 31 {
                    lemma_pow2_strictly_increases(precision as nat, 31);
                }
            }
            let m = (1u64 << precision as u64) - 1;
            assert(m == pow2(precision as nat) - 1);
            (0, m as i64)
        } else if precision <= 31 && signed {
            proof {
                vstd::bits::lemma_u64_pow2_no_overflow((precision - 1) as nat);
                vstd::bits::lemma_u64_shl_is_mul(1, (precision - 1) as u64);
                lemma2_to64();
                if precision - 1 < 31 {
                    lemma_pow2_strictly_increases((precision - 1) as nat, 31);
                }
            }
            let m = (1u64 << (precision - 1) as u64) - 1;
            assert(m == pow2((precision - 1) as nat) - 1);
            let max = m as i64;
            (-max - 1, max)
        } else if signed {
            proof {
                lemma2_to64();
                if precision - 1 > 31 {
                    lemma_pow2_strictly_increases(31, (precision - 1) as nat);
                }
            }
            (-0x8000_0000, 0x7fff_ffff)
        } else {
            proof {
                lemma2_to64();
                lemma_pow2_strictly_increases(31, precision as nat);
            }
            (0, 0x7fff_ffff)
        };
        proof {
            let (lo, hi) = clip_range(precision, signed);
            assert forall|v: i32| #[trigger] clamp_to(v as int, min as int, max as int) == clamp_to(
                v as int,
                lo,
                hi,
            ) by {}
        }
        let mut d = self.data.take().unwrap();
        let ghost od = d@;
        let n = d.len();
        let mut i: usize = 0;
        while i < n
            invariant
                i <= n,
                n == d@.len(),
                od.len() == n,
                min <= max,
                forall|j: int|
                    0 <= j < i ==> #[trigger] d@[j] == clamp_to(od[j] as int, min as int, max as int),
                forall|j: int| i <= j < n ==> #[trigger] d@[j] == od[j],
                forall|v: i32| #[trigger] clamp_to(v as int, min as int, max as int) == clamp_to(
                    v as int,
                    clip_range(precision, signed).0,
                    clip_range(precision, signed).1,
                ),
            decreases n - i,
        {
            let v = d[i] as i64;
            let c: i64 = if v < min {
                min
            } else if v > max {
                max
            } else {
                v
            };
            d[i] = c as i32;
            i = i + 1;
        }
        self.data = Some(d);
        self.prec = precision;
    }

    /// Rescales the samples to precision `precision`: a shift right when the
    /// precision drops (arithmetic for signed components), a proportional
    /// stretch when it grows.  Nothing changes without samples or when the
    /// precision is already `precision`.
    pub fn scale(&mut self, precision: u32)
        requires
            old(self).prec > precision && old(self).data is Some ==> old(self).prec - precision < 32,
            old(self).prec < precision && old(self).data is Some ==> scale_up_ok(
                old(self).data.unwrap()@,
                old(self).prec,
                precision,
                old(self).sgnd != 0,
            ),
        ensures
            (old(self).prec == precision || old(self).data is None) ==> *final(self) == *old(self),
            (old(self).prec != precision && old(self).data is Some) ==> {
                &&& final(self).prec == precision
                &&& final(self).data is Some
                &&& final(self).data.unwrap()@.len() == old(self).data.unwrap()@.len()
                &&& forall|i: int|
                    0 <= i < old(self).data.unwrap()@.len() ==> #[trigger] final(self).data.unwrap()@[i]
                        == scaled(old(self).data.unwrap()@[i], old(self).prec, precision, old(self).sgnd != 0)
                &&& final(self).dx == old(self).dx && final(self).dy == old(self).dy
                &&& final(self).w == old(self).w && final(self).h == old(self).h
                &&& final(self).x0 == old(self).x0 && final(self).y0 == old(self).y0
                &&& final(self).bpp == old(self).bpp && final(self).sgnd == old(self).sgnd
                &&& final(self).resno_decoded == old(self).resno_decoded
                &&& final(self).factor == old(self).factor && final(self).alpha == old(self).alpha
            },
    {
        if self.prec == precision {
            return;
        }
        if self.prec < precision {
            self.scale_up(precision);
            return;
        }
        let sgnd = self.sgnd != 0;
        let shift = self.prec - precision;
        if self.data.is_none() {
            return;
        }
        let mut d = self.data.take().unwrap();
        let ghost od = d@;
        let n = d.len();
        let mut i: usize = 0;
        while i < n
            invariant
                i <= n,
                n == d@.len(),
                od.len() == n,
                shift == old(self).prec - precision,
                0 < shift < 32,
                sgnd == (old(self).sgnd != 0),
                forall|j: int|
                    0 <= j < i ==> #[trigger] d@[j] == scaled(od[j], old(self).prec, precision, sgnd),
                forall|j: int| i <= j < n ==> #[trigger] d@[j] == od[j],
            decreases n - i,
        {
            if sgnd {
                d[i] = d[i] >> shift;
            } else {
                d[i] = ((d[i] as u32) >> shift) as i32;
            }
            i = i + 1;
        }
        self.data = Some(d);
        self.prec = precision;
    }

    /// Stretches the samples from the current precision to `precision`.
    fn scale_up(&mut self, precision: u32)
        requires
            old(self).prec < precision,
            old(self).data is Some ==> scale_up_ok(
                old(self).data.unwrap()@,
                old(self).prec,
                precision,
                old(self).sgnd != 0,
            ),
        ensures
            old(self).data is None ==> *final(self) == *old(self),
            old(self).data is Some ==> {
                &&& final(self).prec == precision
                &&& final(self).data is Some
                &&& final(self).data.unwrap()@.len() == old(self).data.unwrap()@.len()
                &&& forall|i: int|
                    0 <= i < old(self).data.unwrap()@.len() ==> #[trigger] final(self).data.unwrap()@[i]
                        == scaled(old(self).data.unwrap()@[i], old(self).prec, precision, old(self).sgnd != 0)
                &&& final(self).dx == old(self).dx && final(self).dy == old(self).dy
                &&& final(self).w == old(self).w && final(self).h == old(self).h
                &&& final(self).x0 == old(self).x0 && final(self).y0 == old(self).y0
                &&& final(self).bpp == old(self).bpp && final(self).sgnd == old(self).sgnd
                &&& final(self).resno_decoded == old(self).resno_decoded
                &&& final(self).factor == old(self).factor && final(self).alpha == old(self).alpha
            },
    {
        let signed = self.sgnd != 0;
        let old_prec = self.prec;
        if self.data.is_none() {
            return;
        }
        let mut d = self.data.take().unwrap();
        let ghost od = d@;
        let n = d.len();
        proof {
            assert(scale_up_ok(od, old_prec, precision, signed));
        }
        if signed {
            proof {
                lemma_shl_i64_pos((old_prec - 1) as u32);
            }
            let new_max: i64 = 1i64 << (precision - 1);
            let old_max: i64 = 1i64 << (old_prec - 1);
            let mut i: usize = 0;
            while i < n
                invariant
                    i <= n,
                    n == d@.len(),
                    od.len() == n,
                    signed,
                    old_prec == old(self).prec,
                    scale_up_ok(od, old_prec, precision, signed),
                    new_max == signed_max(precision),
                    old_max == signed_max(old_prec),
                    old_max >= 1,
                    forall|j: int|
                        0 <= j < i ==> #[trigger] d@[j] == scaled(od[j], old_prec, precision, signed),
                    forall|j: int| i <= j < n ==> #[trigger] d@[j] == od[j],
                decreases n - i,
            {
                assert(scale_up_fits(od[i as int], old_prec, precision, signed));
                let v = d[i] as i64 * new_max;
                d[i] = (v / old_max) as i32;
                i = i + 1;
            }
        } else {
            proof {
                lemma_shl_u64_pos(precision);
                lemma_shl_u64_pos(old_prec);
            }
            let new_max: u64 = (1u64 << precision) - 1;
            let old_max: u64 = (1u64 << old_prec) - 1;
            let mut i: usize = 0;
            while i < n
                invariant
                    i <= n,
                    n == d@.len(),
                    od.len() == n,
                    !signed,
                    old_prec == old(self).prec,
                    scale_up_ok(od, old_prec, precision, signed),
                    new_max == unsigned_max(precision),
                    old_max == unsigned_max(old_prec),
                    n > 0 ==> old_max >= 1,
                    forall|j: int|
                        0 <= j < i ==> #[trigger] d@[j] == scaled(od[j], old_prec, precision, signed),
                    forall|j: int| i <= j < n ==> #[trigger] d@[j] == od[j],
                decreases n - i,
            {
                assert(scale_up_fits(od[i as int], old_prec, precision, signed));
                let v = d[i] as u64 * new_max;
                d[i] = (v / old_max) as i32;
                i = i + 1;
            }
        }
        self.data = Some(d);
        self.prec = precision;
    }
}

/// `2^(p - 1)`, as the 64-bit shift computes it.
pub open spec fn signed_max(p: u32) -> i64 {
    1i64 << ((p - 1) as u32)
}

/// `2^p - 1`, as the 64-bit shift computes it.
pub open spec fn unsigned_max(p: u32) -> u64 {
    ((1u64 << p) - 1) as u64
}

/// The sample `v` rescaled from precision `from` to precision `to`.
pub open spec fn scaled(v: i32, from: u32, to: u32, signed: bool) -> i32 {
    if from > to {
        if signed {
            v >> ((from - to) as u32)
        } else {
            ((v as u32) >> ((from - to) as u32)) as i32
        }
    } else if signed {
        trunc_div(v as int * signed_max(to) as int, signed_max(from) as int) as i32
    } else {
        (((v as u64) as int * unsigned_max(to) as int) / (unsigned_max(from) as int)) as i32
    }
}

/// Stretching `v` from `from` to `to` bits stays within 64-bit arithmetic.
pub open spec fn scale_up_fits(v: i32, from: u32, to: u32, signed: bool) -> bool {
    if signed {
        i64::MIN <= v as int * signed_max(to) as int <= i64::MAX
    } else {
        (v as u64) as int * unsigned_max(to) as int <= u64::MAX
    }
}

/// The shifts of a stretch from `from` to `to` bits are in range, the divisor
/// is not zero, and every sample's product fits.
pub open spec fn scale_up_ok(d: Seq<i32>, from: u32, to: u32, signed: bool) -> bool {
    &&& from < to
    &&& signed ==> 1 <= from && to <= 64
    &&& !signed ==> to < 64 && (d.len() > 0 ==> 1 <= from)
    &&& forall|i: int| 0 <= i < d.len() ==> scale_up_fits(#[trigger] d[i], from, to, signed)
}

/// `v` lies in the range of a sample of `p` bits: `[0, 2^p)` unsigned,
/// `[-2^(p-1), 2^(p-1))` signed.
pub open spec fn sample_in_range(v: i32, p: u32, signed: bool) -> bool {
    if signed {
        -pow2((p - 1) as nat) <= v < pow2((p - 1) as nat)
    } else {
        0 <= v < pow2(p as nat)
    }
}

/// The samples `d` rescaled from precision `from` to precision `to`, as
/// `opj_image_comp::scale` rescales them.
pub open spec fn scaled_all(d: Seq<i32>, from: u32, to: u32, signed: bool) -> Seq<i32> {
    d.map_values(|v: i32| scaled(v, from, to, signed))
}

proof fn lemma_shl_pow2(n: u32)
    requires
        n <= 62,
    ensures
        (1i64 << n) == pow2(n as nat),
        (1u64 << n) == pow2(n as nat),
{
    vstd::bits::lemma_u64_pow2_no_overflow(n as nat);
    vstd::bits::lemma_u64_shl_is_mul(1, n as u64);
    lemma2_to64();
    if n < 62 {
        lemma_pow2_strictly_increases(n as nat, 62);
    }
    assert((1i64 << n) == (1u64 << n) as i64) by (bit_vector)
        requires
            n <= 62,
    ;
    assert((1u64 << n) == (1u64 << (n as u64))) by (bit_vector);
    assert((1u64 << n) <= 0x4000_0000_0000_0000u64) by (bit_vector)
        requires
            n <= 62,
    ;
    assert(((1u64 << n) as i64) as int == (1u64 << n) as int);
}

proof fn lemma_scale_roundtrip_sample(v: i32, p1: u32, p2: u32, signed: bool)
    requires
        1 <= p1 < p2 <= 31,
        sample_in_range(v, p1, signed),
    ensures
        scale_up_fits(v, p1, p2, signed),
        scaled(scaled(v, p1, p2, signed), p2, p1, signed) == v,
{
    let k = (p2 - p1) as nat;
    lemma_pow2_strictly_increases(p1 as nat, 31);
    if p2 < 31 {
        lemma_pow2_strictly_increases(p2 as nat, 31);
    }
    vstd::arithmetic::power2::lemma_pow2_adds(k, (p1 - 1) as nat);
    vstd::arithmetic::power2::lemma_pow2_adds(k, p1 as nat);
    vstd::arithmetic::power2::lemma_pow2_pos(k);
    vstd::arithmetic::power2::lemma_pow2_pos((p1 - 1) as nat);
    lemma2_to64();
    if k < 31 {
        lemma_pow2_strictly_increases(k, 31);
    }
    let e = pow2(k) as int;
    if signed {
        lemma_shl_pow2((p2 - 1) as u32);
        lemma_shl_pow2((p1 - 1) as u32);
        let m1 = pow2((p1 - 1) as nat) as int;
        if p1 > 1 {
            lemma_pow2_strictly_increases((p1 - 1) as nat, 30);
        }
        assert(pow2((p2 - 1) as nat) == e * m1);
        assert(v * (e * m1) == (v * e) * m1) by (nonlinear_arith);
        if p2 < 31 {
            lemma_pow2_strictly_increases((p2 - 1) as nat, 30);
        }
        assert(m1 * e <= 0x4000_0000) by (nonlinear_arith)
            requires
                e * m1 == pow2((p2 - 1) as nat),
                pow2((p2 - 1) as nat) <= pow2(30),
                pow2(30) == 0x4000_0000,
        ;
        assert(-0x4000_0000 <= v * e < 0x4000_0000) by (nonlinear_arith)
            requires
                -m1 <= v < m1,
                e > 0,
                m1 * e <= 0x4000_0000,
        ;
        assert(i64::MIN <= v * (e * m1) <= i64::MAX) by (nonlinear_arith)
            requires
                -0x4000_0000 <= v * e <= 0x4000_0000,
                1 <= m1 <= 0x4000_0000,
                v * (e * m1) == (v * e) * m1,
        ;
        let w = v * e;
        assert(trunc_div(w * m1, m1) == w) by {
            if w >= 0 {
                vstd::arithmetic::div_mod::lemma_div_multiples_vanish(w, m1);
                assert(w * m1 == m1 * w) by (nonlinear_arith);
            } else {
                vstd::arithmetic::div_mod::lemma_div_multiples_vanish(-w, m1);
                assert((-w) * m1 == m1 * (-w)) by (nonlinear_arith);
                assert(-(w * m1) == (-w) * m1) by (nonlinear_arith);
            }
        }
        let wi = w as i32;
        assert(scaled(v, p1, p2, signed) == wi);
        let kk = k as u32;
        lemma_shl_pow2(kk);
        let mm: i32 = (1i64 << kk) as i32;
        assert(mm == e);
        assert(wi == v * mm);
        assert(mm == (1i32 << kk)) by (bit_vector)
            requires
                mm == (1i64 << kk) as i32,
                kk < 31,
        ;
        assert((wi >> kk) == v) by (bit_vector)
            requires
                wi == v * mm,
                mm == (1i32 << kk),
                kk < 31,
                -0x4000_0000 <= v * mm <= 0x4000_0000,
        ;
    } else {
        lemma_shl_pow2(p2);
        lemma_shl_pow2(p1);
        let m1 = pow2(p1 as nat) as int - 1;
        let m2 = pow2(p2 as nat) as int - 1;
        assert(m2 == e * (m1 + 1) - 1);
        assert(v * m2 <= u64::MAX) by (nonlinear_arith)
            requires
                0 <= v <= m1,
                m2 <= 0xffff_ffff,
                m1 <= 0x7fff_ffff,
        ;
        let q = (v * m2) / m1;
        assert(v * e <= q < (v + 1) * e) by (nonlinear_arith)
            requires
                m1 >= 1,
                0 <= v <= m1,
                e >= 2,
                m2 == e * (m1 + 1) - 1,
                q == (v * m2) / m1,
        ;
        assert(q / e == v) by (nonlinear_arith)
            requires
                v * e <= q < (v + 1) * e,
                e >= 1,
                v >= 0,
        ;
        assert(q < 0x8000_0000) by (nonlinear_arith)
            requires
                q < (v + 1) * e,
                v + 1 <= m1 + 1,
                e * (m1 + 1) == pow2(p2 as nat),
                pow2(p2 as nat) <= 0x8000_0000,
                e >= 1,
        ;
        assert(scaled(v, p1, p2, signed) == q as i32);
        let qi = q as u32;
        assert((q as i32) as u32 == qi);
        vstd::bits::lemma_u32_shr_is_div(qi, k as u32);
    }
}

/// Scaling samples up to more bits and back down to their precision gives
/// them back, and the stretch up is within 64-bit arithmetic.
pub proof fn lemma_scale_up_then_down(d: Seq<i32>, p1: u32, p2: u32, signed: bool)
    requires
        1 <= p1 < p2 <= 31,
        forall|i: int| 0 <= i < d.len() ==> sample_in_range(#[trigger] d[i], p1, signed),
    ensures
        scale_up_ok(d, p1, p2, signed),
        scaled_all(scaled_all(d, p1, p2, signed), p2, p1, signed) == d,
{
    assert forall|i: int| 0 <= i < d.len() implies scale_up_fits(#[trigger] d[i], p1, p2, signed)
        && scaled(scaled(d[i], p1, p2, signed), p2, p1, signed) == d[i] by {
        lemma_scale_roundtrip_sample(d[i], p1, p2, signed);
    }
    assert(scaled_all(scaled_all(d, p1, p2, signed), p2, p1, signed) =~= d);
}

/// Construction parameters of one image component.
#[derive(Copy, Clone, Debug, Default)]
pub struct opj_image_comptparm {
    pub dx: u32,
    pub dy: u32,
    pub w: u32,
    pub h: u32,
    pub x0: u32,
    pub y0: u32,
    pub prec: u32,
    pub bpp: u32,
    pub sgnd: u32,
}

/// An ICC profile, or the CIELab colour description stored in its place.
#[derive(Clone, Debug, PartialEq, Eq)]
pub enum ICCProfile {
    CIELab(Vec<u8>),
    ICC(Vec<u8>),
}

/// A borrowed ICC profile, or a borrowed CIELab colour description.
#[derive(Clone, Copy, Debug)]
pub enum ICCProfileRef<'a> {
    CIELab(&'a [u8]),
    ICC(&'a [u8]),
}

impl<'a> ICCProfileRef<'a> {
    /// The bytes of the profile.
    pub open spec fn bytes(&self) -> Seq<u8> {
        match *self {
            ICCProfileRef::CIELab(b) => b@,
            ICCProfileRef::ICC(b) => b@,
        }
    }

    /// Number of bytes of the profile.
    pub fn len(&self) -> (r: usize)
        ensures
            r == self.bytes().len(),
    {
        match self {
            ICCProfileRef::CIELab(b) => b.len(),
            ICCProfileRef::ICC(b) => b.len(),
        }
    }
}

/// An image: its canvas, colour space, components and ICC profile.  A
/// present ICC buffer with a zero length holds a CIELab description.
#[derive(Clone, Debug)]
pub struct opj_image {
    pub x0: u32,
    pub y0: u32,
    pub x1: u32,
    pub y1: u32,
    pub numcomps: u32,
    pub color_space: OPJ_COLOR_SPACE,
    pub comps: Option<Vec<opj_image_comp>>,
    pub icc_profile_buf: Option<Vec<u8>>,
    pub icc_profile_len: u32,
}

/// A component that has samples, with the offset that maps its signed
/// samples to unsigned ones.
pub struct ImageCompRef<'a> {
    pub comp: &'a opj_image_comp,
    pub adjust: i32,
    pub data: &'a [i32],
}

/// The components of an image, empty when it has none.
pub open spec fn comps_of(img: opj_image) -> Seq<opj_image_comp> {
    match img.comps {
        Some(v) => v@,
        None => Seq::empty(),
    }
}

/// The profile an image carries, if any.
pub open spec fn icc_of(img: opj_image) -> Option<ICCProfile> {
    match img.icc_profile_buf {
        None => None,
        Some(b) => if img.icc_profile_len == 0 {
            Some(ICCProfile::CIELab(b))
        } else {
            Some(ICCProfile::ICC(b))
        },
    }
}

/// The bytes of the profile an image carries: the CIELab description, or the
/// first `icc_profile_len` bytes of the buffer.
pub open spec fn icc_bytes(img: opj_image) -> Seq<u8> {
    match img.icc_profile_buf {
        None => Seq::empty(),
        Some(b) => if img.icc_profile_len == 0 {
            b@.subrange(0, CIE_LAB_BYTE_SIZE as int)
        } else {
            b@.subrange(0, img.icc_profile_len as int)
        },
    }
}

/// The components that have samples, in order.
pub open spec fn comps_with_data(s: Seq<opj_image_comp>) -> Seq<opj_image_comp> {
    s.filter(|c: opj_image_comp| c.data is Some)
}

/// The offset that maps a component's signed samples to unsigned ones.
pub open spec fn comp_adjust(c: opj_image_comp) -> i32 {
    if c.sgnd != 0 {
        1i32 << ((c.prec - 1) as u32)
    } else {
        0
    }
}

/// The header fields of an image: canvas and colour space.
pub open spec fn same_header(a: opj_image, b: opj_image) -> bool {
    &&& a.x0 == b.x0
    &&& a.y0 == b.y0
    &&& a.x1 == b.x1
    &&& a.y1 == b.y1
    &&& a.color_space == b.color_space
}

impl opj_image {
    /// The component table, when present, has `numcomps` well-formed
    /// entries, and the ICC buffer holds the bytes its length announces.
    pub open spec fn wf(&self) -> bool {
        &&& self.comps matches Some(v) ==> v@.len() == self.numcomps && forall|i: int|
            0 <= i < v@.len() ==> (#[trigger] v@[i]).wf()
        &&& self.icc_profile_buf matches Some(b) ==> if self.icc_profile_len == 0 {
            b@.len() >= CIE_LAB_BYTE_SIZE
        } else {
            b@.len() >= self.icc_profile_len
        }
    }

    /// An empty image: zero canvas, unknown colour space, no components, no
    /// profile.
    pub fn default() -> (r: Self)
        ensures
            r.x0 == 0 && r.y0 == 0 && r.x1 == 0 && r.y1 == 0,
            r.numcomps == 0,
            r.color_space == OPJ_CLRSPC_UNSPECIFIED,
            r.comps is None,
            r.icc_profile_buf is None,
            r.icc_profile_len == 0,
    {
        Self {
            x0: 0,
            y0: 0,
            x1: 0,
            y1: 0,
            numcomps: 0,
            color_space: OPJ_CLRSPC_UNSPECIFIED,
            comps: None,
            icc_profile_buf: None,
            icc_profile_len: 0,
        }
    }

    /// A boxed empty image.
    pub fn new() -> (r: Box<Self>)
        ensures
            r.x0 == 0 && r.y0 == 0 && r.x1 == 0 && r.y1 == 0,
            r.numcomps == 0,
            r.color_space == OPJ_CLRSPC_UNSPECIFIED,
            r.comps is None,
            r.icc_profile_buf is None,
            r.icc_profile_len == 0,
    {
        Box::new(Self::default())
    }

    /// Releases the components; an image without a component table is left
    /// unchanged.
    pub fn clear_comps(&mut self)
        ensures
            final(self).comps is None,
            same_header(*final(self), *old(self)),
            final(self).icc_profile_buf == old(self).icc_profile_buf,
            final(self).icc_profile_len == old(self).icc_profile_len,
            old(self).comps is Some ==> final(self).numcomps == 0,
            old(self).comps is None ==> final(self).numcomps == old(self).numcomps,
    {
        if self.comps.is_some() {
            self.comps = None;
            self.numcomps = 0;
        }
    }

    /// Replaces the components by `numcomps` empty ones.  A request for no
    /// components fails and leaves the image without a component table.
    pub fn alloc_comps(&mut self, numcomps: u32) -> (r: bool)
        ensures
            r == (numcomps > 0),
            r ==> final(self).numcomps == numcomps && final(self).comps is Some && comps_of(
                *final(self),
            ).len() == numcomps,
            r ==> forall|i: int|
                0 <= i < numcomps ==> {
                    let c = #[trigger] comps_of(*final(self))[i];
                    &&& c.dx == 0 && c.dy == 0 && c.w == 0 && c.h == 0 && c.x0 == 0 && c.y0 == 0
                    &&& c.prec == 0 && c.bpp == 0 && c.sgnd == 0 && c.resno_decoded == 0
                    &&& c.factor == 0 && c.data is None && c.alpha == 0
                },
            !r ==> final(self).numcomps == 0 && final(self).comps is None,
            same_header(*final(self), *old(self)),
            final(self).icc_profile_buf == old(self).icc_profile_buf,
            final(self).icc_profile_len == old(self).icc_profile_len,
            old(self).wf() ==> final(self).wf(),
    {
        self.clear_comps();
        self.numcomps = numcomps;
        if numcomps == 0 {
            self.numcomps = 0;
            return false;
        }
        let mut v: Vec<opj_image_comp> = Vec::new();
        let mut i: u32 = 0;
        while i < numcomps
            invariant
                i <= numcomps,
                v@.len() == i,
                forall|j: int|
                    0 <= j < i ==> {
                        let c = #[trigger] v@[j];
                        &&& c.dx == 0 && c.dy == 0 && c.w == 0 && c.h == 0 && c.x0 == 0 && c.y0
                            == 0
                        &&& c.prec == 0 && c.bpp == 0 && c.sgnd == 0 && c.resno_decoded == 0
                        &&& c.factor == 0 && c.data is None && c.alpha == 0
                    },
            decreases numcomps - i,
        {
            v.push(opj_image_comp::default());
            i = i + 1;
        }
        self.comps = Some(v);
        true
    }

    /// The components, if the image has a component table.
    pub fn comps(&self) -> (r: Option<&[opj_image_comp]>)
        ensures
            self.comps is None ==> r is None,
            self.comps is Some ==> r is Some && r.unwrap()@ == comps_of(*self),
    {
        match &self.comps {
            Some(v) => Some(v.as_slice()),
            None => None,
        }
    }

    /// The components, if any, for writing.
    pub fn comps_mut(&mut self) -> (r: Option<&mut [opj_image_comp]>)
        ensures
            old(self).comps is None ==> r is None && final(self).comps is None,
            old(self).comps is Some ==> {
                &&& r is Some
                &&& r.unwrap()@ == comps_of(*old(self))
                &&& final(self).comps is Some
                &&& comps_of(*final(self)) == final(r.unwrap())@
            },
            same_header(*final(self), *old(self)),
            final(self).numcomps == old(self).numcomps,
            final(self).icc_profile_buf == old(self).icc_profile_buf,
            final(self).icc_profile_len == old(self).icc_profile_len,
    {
        match self.comps.as_mut() {
            Some(v) => Some(v.as_mut_slice()),
            None => None,
        }
    }

    /// Width, height and precision of the first component, or zeros.
    pub fn comp0_dims_prec(&self) -> (r: (usize, usize, i32))
        ensures
            comps_of(*self).len() > 0 ==> r == (
                comps_of(*self)[0].w as usize,
                comps_of(*self)[0].h as usize,
                comps_of(*self)[0].prec as i32,
            ),
            comps_of(*self).len() == 0 ==> r == (0usize, 0usize, 0i32),
    {
        if let Some(comps) = &self.comps {
            if comps.len() > 0 {
                let comp = &comps[0];
                return (comp.w as usize, comp.h as usize, comp.prec as i32);
            }
        }
        (0, 0, 0)
    }

    /// Whether the image has components and they all share the size and
    /// sampling of the first.
    pub fn comps_same_dims(&self) -> (r: bool)
        ensures
            r == (comps_of(*self).len() > 0 && forall|i: int|
                0 < i < comps_of(*self).len() ==> {
                    let c = #[trigger] comps_of(*self)[i];
                    let c0 = comps_of(*self)[0];
                    c.w == c0.w && c.h == c0.h && c.dx == c0.dx && c.dy == c0.dy
                }),
    {
        if let Some(comps) = &self.comps {
            if comps.len() > 0 {
                let c0 = &comps[0];
                let mut i: usize = 1;
                while i < comps.len()
                    invariant
                        1 <= i <= comps@.len(),
                        comps@ == comps_of(*self),
                        *c0 == comps@[0],
                        forall|j: int|
                            0 < j < i ==> {
                                let c = #[trigger] comps@[j];
                                c.w == c0.w && c.h == c0.h && c.dx == c0.dx && c.dy == c0.dy
                            },
                    decreases comps@.len() - i,
                {
                    let comp = &comps[i];
                    if comp.w != c0.w || comp.h != c0.h || comp.dx != c0.dx || comp.dy != c0.dy {
                        return false;
                    }
                    i = i + 1;
                }
                return true;
            }
        }
        false
    }

    /// Whether the image has components and they all share the size,
    /// sampling, precision and signedness of the first.
    pub fn comps_match(&self) -> (r: bool)
        ensures
            r == (comps_of(*self).len() > 0 && forall|i: int|
                0 < i < comps_of(*self).len() ==> {
                    let c = #[trigger] comps_of(*self)[i];
                    let c0 = comps_of(*self)[0];
                    c.w == c0.w && c.h == c0.h && c.dx == c0.dx && c.dy == c0.dy && c.prec
                        == c0.prec && c.sgnd == c0.sgnd
                }),
    {
        if let Some(comps) = &self.comps {
            if comps.len() > 0 {
                let c0 = &comps[0];
                let mut i: usize = 1;
                while i < comps.len()
                    invariant
                        1 <= i <= comps@.len(),
                        comps@ == comps_of(*self),
                        *c0 == comps@[0],
                        forall|j: int|
                            0 < j < i ==> {
                                let c = #[trigger] comps@[j];
                                c.w == c0.w && c.h == c0.h && c.dx == c0.dx && c.dy == c0.dy
                                    && c.prec == c0.prec && c.sgnd == c0.sgnd
                            },
                    decreases comps@.len() - i,
                {
                    let comp = &comps[i];
                    if comp.w != c0.w || comp.h != c0.h || comp.dx != c0.dx || comp.dy != c0.dy
                        || comp.prec != c0.prec || comp.sgnd != c0.sgnd {
                        return false;
                    }
                    i = i + 1;
                }
                return true;
            }
        }
        false
    }

    /// Moves the components into a new image with the same header; this
    /// image is left without components.  The profile stays here.
    pub fn take_comps(&mut self) -> (r: Self)
        ensures
            same_header(r, *old(self)),
            r.numcomps == old(self).numcomps,
            r.comps == old(self).comps,
            r.icc_profile_buf is None,
            r.icc_profile_len == 0,
            same_header(*final(self), *old(self)),
            final(self).comps is None,
            old(self).comps is Some ==> final(self).numcomps == 0,
            old(self).comps is None ==> final(self).numcomps == old(self).numcomps,
            final(self).icc_profile_buf == old(self).icc_profile_buf,
            final(self).icc_profile_len == old(self).icc_profile_len,
    {
        let mut image = Self::default();
        image.x0 = self.x0;
        image.y0 = self.y0;
        image.x1 = self.x1;
        image.y1 = self.y1;
        image.numcomps = self.numcomps;
        image.color_space = self.color_space;
        if self.comps.is_some() {
            image.comps = self.comps.take();
            image.numcomps = self.numcomps;
            self.numcomps = 0;
        }
        image
    }

    /// Whether the image carries an ICC profile (or CIELab description).
    pub fn has_icc_profile(&self) -> (r: bool)
        ensures
            r == (self.icc_profile_buf is Some),
    {
        self.icc_profile_buf.is_some()
    }

    /// Drops the profile.
    pub fn clear_icc_profile(&mut self)
        ensures
            final(self).icc_profile_buf is None,
            old(self).icc_profile_buf is Some ==> final(self).icc_profile_len == 0,
            old(self).icc_profile_buf is None ==> final(self).icc_profile_len == old(
                self,
            ).icc_profile_len,
            same_header(*final(self), *old(self)),
            final(self).numcomps == old(self).numcomps,
            final(self).comps == old(self).comps,
    {
        if self.icc_profile_buf.is_some() {
            self.icc_profile_buf = None;
            self.icc_profile_len = 0;
        }
    }

    /// The profile, if any: a CIELab description when the recorded length is
    /// zero, else the first `icc_profile_len` bytes of the buffer.
    pub fn icc_profile(&self) -> (r: Option<ICCProfileRef<'_>>)
        requires
            self.wf(),
        ensures
            self.icc_profile_buf is None ==> r is None,
            self.icc_profile_buf is Some ==> r is Some && r.unwrap().bytes() == icc_bytes(*self),
            self.icc_profile_buf is Some && self.icc_profile_len == 0 ==> r.unwrap() is CIELab,
            self.icc_profile_buf is Some && self.icc_profile_len != 0 ==> r.unwrap() is ICC,
    {
        match &self.icc_profile_buf {
            None => None,
            Some(b) => {
                if self.icc_profile_len == 0 {
                    Some(ICCProfileRef::CIELab(vstd::slice::slice_subrange(b.as_slice(), 0, CIE_LAB_BYTE_SIZE)))
                } else {
                    Some(ICCProfileRef::ICC(vstd::slice::slice_subrange(b.as_slice(), 0, self.icc_profile_len as usize)))
                }
            },
        }
    }

    /// Removes the profile and returns it as an owned value.
    pub fn take_icc_profile(&mut self) -> (r: Option<ICCProfile>)
        requires
            old(self).wf(),
        ensures
            old(self).icc_profile_buf is None ==> r is None,
            old(self).icc_profile_buf is Some && old(self).icc_profile_len == 0 ==> (r matches Some(
                ICCProfile::CIELab(b),
            ) && b@ == icc_bytes(*old(self))),
            old(self).icc_profile_buf is Some && old(self).icc_profile_len != 0 ==> (r matches Some(
                ICCProfile::ICC(b),
            ) && b@ == icc_bytes(*old(self))),
            final(self).icc_profile_buf is None,
            old(self).icc_profile_buf is Some ==> final(self).icc_profile_len == 0,
            old(self).icc_profile_buf is None ==> final(self).icc_profile_len == old(
                self,
            ).icc_profile_len,
            same_header(*final(self), *old(self)),
            final(self).numcomps == old(self).numcomps,
            final(self).comps == old(self).comps,
    {
        let profile = match self.icc_profile() {
            None => None,
            Some(ICCProfileRef::CIELab(b)) => Some(ICCProfile::CIELab(vstd::slice::slice_to_vec(b))),
            Some(ICCProfileRef::ICC(b)) => Some(ICCProfile::ICC(vstd::slice::slice_to_vec(b))),
        };
        self.clear_icc_profile();
        profile
    }

    /// Stores a copy of `icc_profile`; an empty profile just drops the
    /// current one.  A CIELab description is stored with a zero length.
    pub fn copy_icc_profile(&mut self, icc_profile: ICCProfileRef<'_>) -> (r: bool)
        ensures
            r,
            icc_profile.bytes().len() == 0 ==> final(self).icc_profile_buf is None,
            icc_profile.bytes().len() > 0 ==> {
                &&& final(self).icc_profile_buf is Some
                &&& final(self).icc_profile_buf.unwrap()@ == icc_profile.bytes()
                &&& icc_profile is CIELab ==> final(self).icc_profile_len == 0
                &&& icc_profile is ICC ==> final(self).icc_profile_len == icc_profile.bytes().len() as u32
            },
            same_header(*final(self), *old(self)),
            final(self).numcomps == old(self).numcomps,
            final(self).comps == old(self).comps,
            old(self).wf() && (icc_profile is CIELab ==> icc_profile.bytes().len() == 0
                || icc_profile.bytes().len() >= CIE_LAB_BYTE_SIZE) && icc_profile.bytes().len() <= u32::MAX
                ==> final(self).wf(),
    {
        if icc_profile.len() == 0 {
            self.clear_icc_profile();
            return true;
        }
        match icc_profile {
            ICCProfileRef::CIELab(src) => {
                self.icc_profile_buf = Some(vstd::slice::slice_to_vec(src));
                self.icc_profile_len = 0;
            },
            ICCProfileRef::ICC(src) => {
                self.icc_profile_buf = Some(vstd::slice::slice_to_vec(src));
                self.icc_profile_len = src.len() as u32;
            },
        }
        true
    }
}

/// Sets the properties that construction parameters give a component.
fn apply_params(c: &mut opj_image_comp, p: &opj_image_comptparm)
    ensures
        final(c).dx == p.dx && final(c).dy == p.dy && final(c).w == p.w && final(c).h == p.h,
        final(c).x0 == p.x0 && final(c).y0 == p.y0 && final(c).prec == p.prec && final(c).sgnd
            == p.sgnd,
        final(c).bpp == old(c).bpp && final(c).resno_decoded == old(c).resno_decoded,
        final(c).factor == old(c).factor && final(c).alpha == old(c).alpha,
        final(c).data == old(c).data,
{
    c.dx = p.dx;
    c.dy = p.dy;
    c.w = p.w;
    c.h = p.h;
    c.x0 = p.x0;
    c.y0 = p.y0;
    c.prec = p.prec;
    c.sgnd = p.sgnd;
}

/// Component `c` was built from parameters `p`, with zero-filled samples
/// when `with_data` holds and none otherwise.
pub open spec fn built_from(c: opj_image_comp, p: opj_image_comptparm, with_data: bool) -> bool {
    &&& c.dx == p.dx && c.dy == p.dy && c.w == p.w && c.h == p.h
    &&& c.x0 == p.x0 && c.y0 == p.y0 && c.prec == p.prec && c.sgnd == p.sgnd
    &&& c.bpp == 0 && c.resno_decoded == 0 && c.factor == 0 && c.alpha == 0
    &&& with_data ==> c.data is Some && c.data.unwrap()@ == Seq::new(
        (p.w * p.h) as nat,
        |i: int| 0i32,
    )
    &&& !with_data ==> c.data is None
}

/// The sample buffer of a component built from `p` can be addressed.
pub open spec fn data_addressable(p: opj_image_comptparm) -> bool {
    p.w * p.h * 4 <= usize::MAX
}

impl opj_image {
    /// Builds an image with one component per parameter set (their count
    /// taken as a `u32`), zero-filled samples when `alloc_data` holds.  No
    /// components, or a sample buffer too large to address, give `None`.
    fn create_internal(
        params: &[opj_image_comptparm],
        clrspc: OPJ_COLOR_SPACE,
        alloc_data: bool,
    ) -> (r: Option<Box<Self>>)
        ensures
            r is Some <==> (params@.len() as u32 > 0 && (alloc_data ==> forall|i: int|
                0 <= i < params@.len() as u32 ==> data_addressable(#[trigger] params@[i]))),
            r matches Some(img) ==> {
                &&& img.wf()
                &&& img.x0 == 0 && img.y0 == 0 && img.x1 == 0 && img.y1 == 0
                &&& img.color_space == clrspc
                &&& img.numcomps == params@.len() as u32
                &&& img.comps is Some
                &&& forall|i: int|
                    0 <= i < img.numcomps ==> built_from(
                        #[trigger] comps_of(*img)[i],
                        params@[i],
                        alloc_data,
                    )
                &&& img.icc_profile_buf is None && img.icc_profile_len == 0
            },
    {
        let mut image = Self::new();
        image.color_space = clrspc;
        let n = params.len() as u32;
        if !image.alloc_comps(n) {
            return None;
        }
        let mut comps = image.comps.take().unwrap();
        let mut i: usize = 0;
        while i < n as usize
            invariant
                n == params@.len() as u32,
                n <= params@.len(),
                i <= n,
                comps@.len() == n,
                forall|j: int| 0 <= j < i ==> built_from(#[trigger] comps@[j], params@[j], alloc_data),
                forall|j: int| 0 <= j < i ==> (#[trigger] comps@[j]).wf(),
                alloc_data ==> forall|j: int| 0 <= j < i ==> data_addressable(#[trigger] params@[j]),
                forall|j: int|
                    i <= j < n ==> {
                        let c = #[trigger] comps@[j];
                        &&& c.dx == 0 && c.dy == 0 && c.w == 0 && c.h == 0 && c.x0 == 0 && c.y0
                            == 0
                        &&& c.prec == 0 && c.bpp == 0 && c.sgnd == 0 && c.resno_decoded == 0
                        &&& c.factor == 0 && c.data is None && c.alpha == 0
                    },
            decreases n - i,
        {
            apply_params(&mut comps[i], &params[i]);
            if alloc_data {
                if !comps[i].alloc_data() {
                    return None;
                }
            }
            i = i + 1;
        }
        image.comps = Some(comps);
        Some(image)
    }

    /// Builds an image with zero-filled components from the parameters; see
    /// `create_internal` for when it fails.
    pub fn create(params: &[opj_image_comptparm], clrspc: OPJ_COLOR_SPACE) -> (r: Option<Box<Self>>)
        ensures
            r is Some <==> (params@.len() as u32 > 0 && forall|i: int|
                0 <= i < params@.len() as u32 ==> data_addressable(#[trigger] params@[i])),
            r matches Some(img) ==> {
                &&& img.wf()
                &&& img.color_space == clrspc
                &&& img.numcomps == params@.len() as u32
                &&& img.comps is Some
                &&& forall|i: int|
                    0 <= i < img.numcomps ==> built_from(#[trigger] comps_of(*img)[i], params@[i], true)
                &&& img.icc_profile_buf is None
            },
    {
        Self::create_internal(params, clrspc, true)
    }

    /// Builds an image whose components have no samples yet; fails only for
    /// an empty parameter list.
    pub fn tile_create(params: &[opj_image_comptparm], clrspc: OPJ_COLOR_SPACE) -> (r: Option<Box<Self>>)
        ensures
            r is Some <==> params@.len() as u32 > 0,
            r matches Some(img) ==> {
                &&& img.wf()
                &&& img.color_space == clrspc
                &&& img.numcomps == params@.len() as u32
                &&& img.comps is Some
                &&& forall|i: int|
                    0 <= i < img.numcomps ==> built_from(#[trigger] comps_of(*img)[i], params@[i], false)
                &&& img.icc_profile_buf is None
            },
    {
        Self::create_internal(params, clrspc, false)
    }

    /// Gives the first three components the size `w` x `h`, the sampling of
    /// the first, and the samples `r`, `g`, `b`; the colour space becomes
    /// sRGB.  Fails, changing nothing, unless each plane has `w * h` samples.
    pub fn set_rgb(&mut self, w: usize, h: usize, r: &[i32], g: &[i32], b: &[i32]) -> (res: bool)
        requires
            w * h <= usize::MAX,
            r@.len() == w * h && g@.len() == w * h && b@.len() == w * h ==> {
                &&& old(self).wf()
                &&& old(self).comps is Some ==> comps_of(*old(self)).len() >= 3 && w <= u32::MAX && h
                    <= u32::MAX
            },
        ensures
            res == (r@.len() == w * h && g@.len() == w * h && b@.len() == w * h),
            !res ==> *final(self) == *old(self),
            res ==> {
                &&& final(self).color_space == OPJ_CLRSPC_SRGB
                &&& final(self).wf()
                &&& final(self).x0 == old(self).x0 && final(self).y0 == old(self).y0
                &&& final(self).x1 == old(self).x1 && final(self).y1 == old(self).y1
                &&& final(self).numcomps == old(self).numcomps
                &&& final(self).icc_profile_buf == old(self).icc_profile_buf
                &&& final(self).icc_profile_len == old(self).icc_profile_len
                &&& old(self).comps is None ==> final(self).comps is None
                &&& old(self).comps is Some ==> rgb_set(
                    comps_of(*old(self)),
                    comps_of(*final(self)),
                    w as u32,
                    h as u32,
                    r@,
                    g@,
                    b@,
                )
            },
    {
        let len = w * h;
        if r.len() != len || g.len() != len || b.len() != len {
            return false;
        }
        if self.comps.is_some() {
            let mut comps = self.comps.take().unwrap();
            let ghost oc = comps@;
            let w = w as u32;
            let h = h as u32;
            assert((w as int) * (h as int) == len);
            comps[0].set_dims(w, h);
            comps[1].set_dims(w, h);
            comps[2].set_dims(w, h);
            let dx0 = comps[0].dx;
            let dy0 = comps[0].dy;
            comps[1].dx = dx0;
            comps[2].dx = dx0;
            comps[1].dy = dy0;
            comps[2].dy = dy0;
            assert(comps@[0].wf() && comps@[1].wf() && comps@[2].wf());
            comps[0].set_data(r);
            comps[1].set_data(g);
            comps[2].set_data(b);
            assert forall|i: int| 0 <= i < comps@.len() implies (#[trigger] comps@[i]).wf() by {
                if i >= 3 {
                    assert(comps@[i] == oc[i]);
                }
            }
            self.comps = Some(comps);
        }
        self.color_space = OPJ_CLRSPC_SRGB;
        true
    }

    /// The components that have samples, in order, each with its samples and
    /// the offset that maps signed samples to unsigned ones; `None` without a
    /// component table.
    pub fn comps_data_iter(&self) -> (r: Option<Vec<ImageCompRef<'_>>>)
        requires
            self.wf(),
            forall|i: int|
                0 <= i < comps_of(*self).len() && (#[trigger] comps_of(*self)[i]).data is Some
                    && comps_of(*self)[i].sgnd != 0 ==> 1 <= comps_of(*self)[i].prec <= 32,
        ensures
            self.comps is None ==> r is None,
            self.comps is Some ==> r is Some && {
                let with_data = comps_with_data(comps_of(*self));
                &&& r.unwrap()@.len() == with_data.len()
                &&& forall|i: int|
                    0 <= i < with_data.len() ==> {
                        let e = #[trigger] r.unwrap()@[i];
                        &&& *e.comp == with_data[i]
                        &&& e.adjust == comp_adjust(with_data[i])
                        &&& e.data@ == samples(with_data[i])
                    }
            },
    {
        match &self.comps {
            None => None,
            Some(comps) => {
                let mut out: Vec<ImageCompRef<'_>> = Vec::new();
                let mut i: usize = 0;
                while i < comps.len()
                    invariant
                        i <= comps@.len(),
                        comps@ == comps_of(*self),
                        forall|j: int|
                            0 <= j < comps@.len() && (#[trigger] comps@[j]).data is Some && comps@[j].sgnd
                                != 0 ==> 1 <= comps@[j].prec <= 32,
                        out@.len() == comps_with_data(comps@.subrange(0, i as int)).len(),
                        forall|k: int|
                            0 <= k < out@.len() ==> {
                                let e = #[trigger] out@[k];
                                let c = comps_with_data(comps@.subrange(0, i as int))[k];
                                &&& *e.comp == c
                                &&& e.adjust == comp_adjust(c)
                                &&& e.data@ == samples(c)
                            },
                    decreases comps@.len() - i,
                {
                    let comp = &comps[i];
                    let ghost prev = out@;
                    match &comp.data {
                        Some(d) => {
                            let adjust: i32 = if comp.sgnd != 0 {
                                1i32 << (comp.prec - 1)
                            } else {
                                0
                            };
                            out.push(ImageCompRef { comp, adjust, data: d.as_slice() });
                        },
                        None => {},
                    }
                    proof {
                        let s1 = comps@.subrange(0, i + 1);
                        assert(s1.drop_last() =~= comps@.subrange(0, i as int));
                        assert(s1.last() == comps@[i as int]);
                        reveal_with_fuel(Seq::filter, 1);
                        assert(comps_with_data(s1) == if s1.last().data is Some {
                            comps_with_data(s1.drop_last()).push(s1.last())
                        } else {
                            comps_with_data(s1.drop_last())
                        });
                    }
                    i = i + 1;
                }
                proof {
                    assert(comps@.subrange(0, comps@.len() as int) =~= comps@);
                }
                Some(out)
            },
        }
    }
}

/// The components `after` are `before` with the first three given size
/// `w` x `h`, the sampling of the first, and the planes `r`, `g`, `b` (or no
/// samples when such a plane is too large to address).
pub open spec fn rgb_set(
    before: Seq<opj_image_comp>,
    after: Seq<opj_image_comp>,
    w: u32,
    h: u32,
    r: Seq<i32>,
    g: Seq<i32>,
    b: Seq<i32>,
) -> bool {
    &&& after.len() == before.len()
    &&& forall|i: int| 3 <= i < before.len() ==> #[trigger] after[i] == before[i]
    &&& forall|i: int|
        0 <= i < 3 ==> {
            let a = #[trigger] after[i];
            let o = before[i];
            &&& a.w == w && a.h == h
            &&& a.dx == before[0].dx && a.dy == before[0].dy
            &&& a.x0 == o.x0 && a.y0 == o.y0 && a.prec == o.prec && a.bpp == o.bpp
            &&& a.sgnd == o.sgnd && a.resno_decoded == o.resno_decoded && a.factor == o.factor
            &&& a.alpha == o.alpha
            &&& (w * h * 4 <= usize::MAX || (o.data is Some && o.w == w && o.h == h)) ==> a.data
                is Some && a.data.unwrap()@ == (if i == 0 {
                r
            } else if i == 1 {
                g
            } else {
                b
            })
            &&& !(w * h * 4 <= usize::MAX || (o.data is Some && o.w == w && o.h == h)) ==> a.data
                is None
        }
}

/// Every property of `c` is zero.
pub open spec fn zero_props(c: opj_image_comp) -> bool {
    &&& c.dx == 0 && c.dy == 0 && c.w == 0 && c.h == 0 && c.x0 == 0 && c.y0 == 0
    &&& c.prec == 0 && c.bpp == 0 && c.sgnd == 0 && c.resno_decoded == 0
    &&& c.factor == 0 && c.alpha == 0
}

/// A component with the properties of `c` and no samples.
fn props_only(c: &opj_image_comp) -> (r: opj_image_comp)
    ensures
        r.same_props(*c),
        r.data is None,
{
    opj_image_comp {
        dx: c.dx,
        dy: c.dy,
        w: c.w,
        h: c.h,
        x0: c.x0,
        y0: c.y0,
        prec: c.prec,
        bpp: c.bpp,
        sgnd: c.sgnd,
        resno_decoded: c.resno_decoded,
        factor: c.factor,
        data: None,
        alpha: c.alpha,
    }
}

/// Copies the canvas, the components' properties (not their samples), the
/// colour space and the profile of `src` into `dest`.  When `src` announces
/// no components, `dest` is left with none and keeps its colour space and
/// profile.
pub fn opj_copy_image_header(src: &opj_image, dest: &mut opj_image)
    requires
        src.wf(),
    ensures
        final(dest).x0 == src.x0 && final(dest).y0 == src.y0,
        final(dest).x1 == src.x1 && final(dest).y1 == src.y1,
        src.numcomps == 0 ==> {
            &&& final(dest).comps is None
            &&& final(dest).numcomps == 0
            &&& final(dest).color_space == old(dest).color_space
            &&& final(dest).icc_profile_buf == old(dest).icc_profile_buf
            &&& final(dest).icc_profile_len == old(dest).icc_profile_len
        },
        src.numcomps > 0 ==> {
            &&& final(dest).numcomps == src.numcomps
            &&& final(dest).comps is Some
            &&& final(dest).color_space == src.color_space
            &&& forall|i: int|
                0 <= i < src.numcomps ==> {
                    let c = #[trigger] comps_of(*final(dest))[i];
                    &&& c.data is None
                    &&& src.comps is Some ==> c.same_props(comps_of(*src)[i])
                    &&& src.comps is None ==> zero_props(c)
                }
            &&& src.icc_profile_buf is Some ==> final(dest).icc_profile_buf is Some && icc_bytes(
                *final(dest),
            ) == icc_bytes(*src) && final(dest).icc_profile_len == src.icc_profile_len
            &&& src.icc_profile_buf is None ==> final(dest).icc_profile_buf == old(
                dest,
            ).icc_profile_buf && final(dest).icc_profile_len == old(dest).icc_profile_len
        },
{
    dest.x0 = src.x0;
    dest.y0 = src.y0;
    dest.x1 = src.x1;
    dest.y1 = src.y1;
    if !dest.alloc_comps(src.numcomps) {
        dest.comps = None;
        dest.numcomps = 0;
        return;
    }
    let mut comps = dest.comps.take().unwrap();
    if let Some(sc) = &src.comps {
        let mut i: usize = 0;
        while i < sc.len()
            invariant
                i <= sc@.len(),
                sc@.len() == src.numcomps,
                comps@.len() == src.numcomps,
                forall|j: int|
                    0 <= j < i ==> (#[trigger] comps@[j]).same_props(sc@[j]) && comps@[j].data is None,
                forall|j: int|
                    i <= j < comps@.len() ==> zero_props(#[trigger] comps@[j]) && comps@[j].data is None,
            decreases sc@.len() - i,
        {
            let c = props_only(&sc[i]);
            comps.set(i, c);
            i = i + 1;
        }
    }
    dest.comps = Some(comps);
    dest.color_space = src.color_space;
    match src.icc_profile() {
        Some(p) => {
            dest.copy_icc_profile(p);
        },
        None => {},
    }
}

} // verus!
