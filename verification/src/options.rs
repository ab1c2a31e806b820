//! Extra options of an encoder, given as `NAME=VALUE` strings: packet
//! lengths (`PLT=YES|NO`), tile-part lengths (`TLM=YES|NO`) and the number
//! of guard bits (`GUARD_BITS=n`).
use vstd::prelude::*;

use crate::encoder::{opj_tccp, opj_tcp, EncoderSetup};

verus! {

/// A decimal digit.
pub open spec fn is_digit(c: char) -> bool {
    '0' <= c <= '9'
}

/// Every character of `s` is a decimal digit.
pub open spec fn all_digits(s: Seq<char>) -> bool {
    forall|i: int| 0 <= i < s.len() ==> is_digit(#[trigger] s[i])
}

/// The value of a string of decimal digits.
pub open spec fn digits_value(s: Seq<char>) -> int
    decreases s.len(),
{
    if s.len() == 0 {
        0
    } else {
        digits_value(s.drop_last()) * 10 + (s.last() as int - '0' as int)
    }
}

/// A 32-bit signed integer written in decimal: an optional sign, then at
/// least one digit and nothing else, within the range of the type.
pub open spec fn parse_i32(s: Seq<char>) -> Option<i32> {
    let signed = s.len() > 0 && (s[0] == '+' || s[0] == '-');
    let body = if signed {
        s.subrange(1, s.len() as int)
    } else {
        s
    };
    let v = if s.len() > 0 && s[0] == '-' {
        -digits_value(body)
    } else {
        digits_value(body)
    };
    if body.len() == 0 || !all_digits(body) {
        None
    } else if i32::MIN <= v <= i32::MAX {
        Some(v as i32)
    } else {
        None
    }
}

proof fn lemma_digits_prefix(s: Seq<char>, k: int)
    requires
        0 <= k <= s.len(),
        forall|i: int| 0 <= i < s.len() ==> is_digit(#[trigger] s[i]),
    ensures
        digits_value(s.subrange(0, k)) <= digits_value(s),
        0 <= digits_value(s.subrange(0, k)),
    decreases s.len() - k,
{
    if k < s.len() {
        lemma_digits_prefix(s, k + 1);
        let p = s.subrange(0, k + 1);
        assert(p.drop_last() =~= s.subrange(0, k));
        assert(is_digit(p.last()));
    } else {
        assert(s.subrange(0, k) =~= s);
        lemma_digits_nonneg(s);
    }
}

proof fn lemma_digits_nonneg(s: Seq<char>)
    requires
        forall|i: int| 0 <= i < s.len() ==> is_digit(#[trigger] s[i]),
    ensures
        digits_value(s) >= 0,
    decreases s.len(),
{
    if s.len() > 0 {
        assert(is_digit(s.last()));
        lemma_digits_nonneg(s.drop_last());
    }
}

/// Reads a 32-bit signed decimal integer from the characters of `s` from
/// `from` on.
pub fn parse_i32_from(s: &str, from: usize) -> (r: Option<i32>)
    ensures
        from <= s@.len() ==> r == parse_i32(s@.subrange(from as int, s@.len() as int)),
        from > s@.len() ==> r is None,
{
    let n = s.unicode_len();
    if from >= n {
        proof {
            if from == n {
                assert(s@.subrange(from as int, s@.len() as int).len() == 0);
            }
        }
        return None;
    }
    let ghost t = s@.subrange(from as int, s@.len() as int);
    let c0 = s.get_char(from);
    assert(t[0] == c0);
    let neg = c0 == '-';
    let signed = c0 == '+' || c0 == '-';
    let start = if signed {
        from + 1
    } else {
        from
    };
    let ghost body = if signed {
        t.subrange(1, t.len() as int)
    } else {
        t
    };
    assert(body =~= s@.subrange(start as int, s@.len() as int));
    if start >= n {
        assert(body.len() == 0);
        return None;
    }
    let mut acc: i64 = 0;
    let mut i: usize = start;
    while i < n
        invariant
            start <= i <= n,
            n == s@.len(),
            from < n,
            t == s@.subrange(from as int, s@.len() as int),
            signed == (t.len() > 0 && (t[0] == '+' || t[0] == '-')),
            neg == (t.len() > 0 && t[0] == '-'),
            body == (if signed {
                t.subrange(1, t.len() as int)
            } else {
                t
            }),
            start == (if signed {
                from + 1
            } else {
                from as int
            }),
            body == s@.subrange(start as int, n as int),
            forall|k: int| 0 <= k < i - start ==> is_digit(#[trigger] body[k]),
            acc == digits_value(body.subrange(0, i - start)),
            0 <= acc <= 0x8000_0000,
        decreases n - i,
    {
        let c = s.get_char(i);
        assert(c == body[i - start]);
        if !('0' <= c && c <= '9') {
            assert(!is_digit(body[i - start]));
            assert(!all_digits(body));
            return None;
        }
        let d = (c as u32 - '0' as u32) as i64;
        let next = acc * 10 + d;
        proof {
            let p = body.subrange(0, i - start + 1);
            assert(p.drop_last() =~= body.subrange(0, i - start));
            assert(p.last() == c);
        }
        if next > 0x8000_0000 {
            proof {
                let rest = body;
                assert(next == digits_value(body.subrange(0, i - start + 1)));
                if all_digits(rest) {
                    lemma_digits_prefix(rest, i - start + 1);
                    assert(digits_value(body) > 0x8000_0000);
                }
            }
            return None;
        }
        acc = next;
        i = i + 1;
    }
    assert(body.subrange(0, n - start) =~= body);
    let v: i64 = if neg {
        -acc
    } else {
        acc
    };
    if v < -0x8000_0000 || v > 0x7fff_ffff {
        None
    } else {
        Some(v as i32)
    }
}

/// Whether the characters of `s` are those of `t`.
fn str_eq(s: &str, t: &str) -> (r: bool)
    ensures
        r == (s@ == t@),
{
    let n = s.unicode_len();
    if n != t.unicode_len() {
        return false;
    }
    let mut i: usize = 0;
    while i < n
        invariant
            i <= n,
            n == s@.len(),
            n == t@.len(),
            forall|k: int| 0 <= k < i ==> s@[k] == t@[k],
        decreases n - i,
    {
        if s.get_char(i) != t.get_char(i) {
            return false;
        }
        i = i + 1;
    }
    assert(s@ =~= t@);
    true
}

/// Whether `s` starts with the characters of `p`.
fn str_starts_with(s: &str, p: &str) -> (r: bool)
    ensures
        r == (p@.len() <= s@.len() && s@.subrange(0, p@.len() as int) == p@),
{
    let n = p.unicode_len();
    if n > s.unicode_len() {
        return false;
    }
    let mut i: usize = 0;
    while i < n
        invariant
            i <= n,
            n == p@.len(),
            n <= s@.len(),
            forall|k: int| 0 <= k < i ==> s@[k] == p@[k],
        decreases n - i,
    {
        if s.get_char(i) != p.get_char(i) {
            assert(s@.subrange(0, n as int)[i as int] != p@[i as int]);
            return false;
        }
        i = i + 1;
    }
    assert(s@.subrange(0, n as int) =~= p@);
    true
}

/// What an extra option sets.
#[derive(Clone, Copy, Debug, PartialEq, Eq, Structural)]
pub enum ExtraOption {
    Plt(bool),
    Tlm(bool),
    GuardBits(u32),
    Invalid,
}

/// The characters of `s` start with those of `p`.
pub open spec fn has_prefix(s: Seq<char>, p: Seq<char>) -> bool {
    p.len() <= s.len() && s.subrange(0, p.len() as int) == p
}

/// The number of guard bits a `GUARD_BITS=` option gives: the number after
/// the sign, zero when there is none, refused outside `0..=7`.
pub open spec fn guard_bits_of(s: Seq<char>) -> ExtraOption {
    let v = match parse_i32(s.subrange(11, s.len() as int)) {
        Some(v) => v as int,
        None => 0,
    };
    if 0 <= v <= 7 {
        ExtraOption::GuardBits(v as u32)
    } else {
        ExtraOption::Invalid
    }
}

/// What an option string sets, given the strings of its accepted forms.
pub open spec fn option_of(s: Seq<char>) -> ExtraOption {
    if has_prefix(s, "PLT="@) {
        if s == "PLT=YES"@ {
            ExtraOption::Plt(true)
        } else if s == "PLT=NO"@ {
            ExtraOption::Plt(false)
        } else {
            ExtraOption::Invalid
        }
    } else if has_prefix(s, "TLM="@) {
        if s == "TLM=YES"@ {
            ExtraOption::Tlm(true)
        } else if s == "TLM=NO"@ {
            ExtraOption::Tlm(false)
        } else {
            ExtraOption::Invalid
        }
    } else if has_prefix(s, "GUARD_BITS="@) {
        guard_bits_of(s)
    } else {
        ExtraOption::Invalid
    }
}

/// Reads one option string.
pub fn opj_j2k_parse_extra_option(s: &str) -> (r: ExtraOption)
    ensures
        r == option_of(s@),
{
    proof {
        reveal_strlit("GUARD_BITS=");
    }
    if str_starts_with(s, "PLT=") {
        if str_eq(s, "PLT=YES") {
            ExtraOption::Plt(true)
        } else if str_eq(s, "PLT=NO") {
            ExtraOption::Plt(false)
        } else {
            ExtraOption::Invalid
        }
    } else if str_starts_with(s, "TLM=") {
        if str_eq(s, "TLM=YES") {
            ExtraOption::Tlm(true)
        } else if str_eq(s, "TLM=NO") {
            ExtraOption::Tlm(false)
        } else {
            ExtraOption::Invalid
        }
    } else if str_starts_with(s, "GUARD_BITS=") {
        assert("GUARD_BITS="@.len() == 11);
        let v: i32 = match parse_i32_from(s, 11) {
            Some(v) => v,
            None => 0,
        };
        if 0 <= v && v <= 7 {
            ExtraOption::GuardBits(v as u32)
        } else {
            ExtraOption::Invalid
        }
    } else {
        ExtraOption::Invalid
    }
}

/// The number of options applied: those before the first invalid one.
pub open spec fn options_applied(opts: Seq<ExtraOption>) -> int
    decreases opts.len(),
{
    if opts.len() == 0 {
        0
    } else if options_applied(opts.drop_last()) < opts.len() - 1 {
        options_applied(opts.drop_last())
    } else if opts.last() == ExtraOption::Invalid {
        opts.len() - 1
    } else {
        opts.len() as int
    }
}

proof fn lemma_applied_stable(opts: Seq<ExtraOption>, k: int)
    requires
        0 <= k <= opts.len(),
        options_applied(opts.subrange(0, k)) < k,
    ensures
        options_applied(opts) == options_applied(opts.subrange(0, k)),
    decreases opts.len() - k,
{
    if opts.len() == k {
        assert(opts.subrange(0, k) =~= opts);
    } else {
        let d = opts.drop_last();
        assert(d.subrange(0, k) =~= opts.subrange(0, k));
        lemma_applied_stable(d, k);
    }
}

/// Whether packet lengths are written after the first `n` options.
pub open spec fn plt_after(opts: Seq<ExtraOption>, n: int, plt: bool) -> bool
    decreases n,
{
    if n <= 0 {
        plt
    } else {
        match opts[n - 1] {
            ExtraOption::Plt(b) => b,
            _ => plt_after(opts, n - 1, plt),
        }
    }
}

/// Whether tile-part lengths are written after the first `n` options.
pub open spec fn tlm_after(opts: Seq<ExtraOption>, n: int, tlm: bool) -> bool
    decreases n,
{
    if n <= 0 {
        tlm
    } else {
        match opts[n - 1] {
            ExtraOption::Tlm(b) => b,
            _ => tlm_after(opts, n - 1, tlm),
        }
    }
}

/// The guard bits the first `n` options set last, if any.
pub open spec fn guard_after(opts: Seq<ExtraOption>, n: int) -> Option<u32>
    decreases n,
{
    if n <= 0 {
        None
    } else {
        match opts[n - 1] {
            ExtraOption::GuardBits(g) => Some(g),
            _ => guard_after(opts, n - 1),
        }
    }
}

/// The tiles of `t` are those of `old` with `g` guard bits, when some, for
/// their first `nb_comps` components.
pub open spec fn guard_set(old: Seq<opj_tcp>, t: Seq<opj_tcp>, nb_comps: u32, g: Option<u32>) -> bool {
    &&& t.len() == old.len()
    &&& forall|k: int|
        0 <= k < old.len() ==> {
            let o = old[k];
            let n = #[trigger] t[k];
            &&& n.tccps@.len() == o.tccps@.len()
            &&& n == (opj_tcp { tccps: n.tccps, ..o })
            &&& forall|i: int|
                0 <= i < o.tccps@.len() ==> #[trigger] n.tccps@[i] == match g {
                    Some(v) => if i < nb_comps {
                        opj_tccp { numgbits: v, ..o.tccps@[i] }
                    } else {
                        o.tccps@[i]
                    },
                    None => o.tccps@[i],
                }
        }
}

/// Gives `g` guard bits to the first `nb_comps` components of every tile.
fn set_guard_bits(tcps: &mut Vec<opj_tcp>, nb_comps: u32, g: u32)
    requires
        forall|k: int| 0 <= k < old(tcps)@.len() ==> (#[trigger] old(tcps)@[k]).tccps@.len() >= nb_comps,
    ensures
        guard_set(old(tcps)@, final(tcps)@, nb_comps, Some(g)),
{
    let ghost old_tcps = tcps@;
    let n = tcps.len();
    let mut k: usize = 0;
    while k < n
        invariant
            k <= n,
            n == old_tcps.len(),
            tcps@.len() == n,
            forall|j: int| 0 <= j < n ==> (#[trigger] old_tcps[j]).tccps@.len() >= nb_comps,
            forall|j: int| k <= j < n ==> #[trigger] tcps@[j] == old_tcps[j],
            guard_set(old_tcps.subrange(0, k as int), tcps@.subrange(0, k as int), nb_comps, Some(g)),
        decreases n - k,
    {
        let mut tcp = tcps.remove(k);
        let ghost o = tcp;
        let mut i: usize = 0;
        while i < nb_comps as usize
            invariant
                i <= nb_comps <= o.tccps@.len(),
                tcp.tccps@.len() == o.tccps@.len(),
                tcp == (opj_tcp { tccps: tcp.tccps, ..o }),
                forall|j: int|
                    0 <= j < o.tccps@.len() ==> #[trigger] tcp.tccps@[j] == if j < i {
                        opj_tccp { numgbits: g, ..o.tccps@[j] }
                    } else {
                        o.tccps@[j]
                    },
            decreases nb_comps - i,
        {
            let mut c = tcp.tccps.remove(i);
            c.numgbits = g;
            tcp.tccps.insert(i, c);
            i = i + 1;
        }
        tcps.insert(k, tcp);
        proof {
            assert(old_tcps.subrange(0, k as int + 1) =~= old_tcps.subrange(0, k as int).push(o));
            assert forall|j: int| 0 <= j <= k implies {
                let oo = old_tcps.subrange(0, k as int + 1)[j];
                let nn = #[trigger] tcps@.subrange(0, k as int + 1)[j];
                &&& nn.tccps@.len() == oo.tccps@.len()
                &&& nn == (opj_tcp { tccps: nn.tccps, ..oo })
                &&& forall|i: int|
                    0 <= i < oo.tccps@.len() ==> #[trigger] nn.tccps@[i] == if i < nb_comps {
                        opj_tccp { numgbits: g, ..oo.tccps@[i] }
                    } else {
                        oo.tccps@[i]
                    }
            } by {
                if j < k {
                    assert(tcps@.subrange(0, k as int + 1)[j] == tcps@.subrange(0, k as int)[j]);
                    assert(old_tcps.subrange(0, k as int + 1)[j] == old_tcps.subrange(0, k as int)[j]);
                }
            }
        }
        k = k + 1;
    }
    assert(old_tcps.subrange(0, n as int) =~= old_tcps);
    assert(tcps@.subrange(0, n as int) =~= tcps@);
}

/// Applies extra options to an encoder, in order: `PLT=YES|NO` and
/// `TLM=YES|NO` choose whether packet and tile-part lengths are written,
/// `GUARD_BITS=n` gives every component of every tile `n` guard bits (`n`
/// in `0..=7`; a value that is not a number counts as 0). It stops at the
/// first invalid option, which fails; the options before it stay applied.
pub fn opj_j2k_encoder_set_extra_options(setup: &mut EncoderSetup, options: &[&str]) -> (r: bool)
    requires
        forall|k: int|
            0 <= k < old(setup).tcps@.len() ==> (#[trigger] old(setup).tcps@[k]).tccps@.len()
                >= old(setup).nb_comps,
    ensures
        ({
            let opts = Seq::new(options@.len(), |i: int| option_of(options@[i]@));
            let n = options_applied(opts);
            &&& r == (n == opts.len())
            &&& final(setup).plt == plt_after(opts, n, old(setup).plt)
            &&& final(setup).tlm == tlm_after(opts, n, old(setup).tlm)
            &&& guard_set(old(setup).tcps@, final(setup).tcps@, old(setup).nb_comps, guard_after(opts, n))
            &&& *final(setup) == (EncoderSetup {
                plt: final(setup).plt,
                tlm: final(setup).tlm,
                tcps: final(setup).tcps,
                ..*old(setup)
            })
        }),
{
    let ghost opts = Seq::new(options@.len(), |i: int| option_of(options@[i]@));
    let ghost old_setup = *setup;
    let mut i: usize = 0;
    while i < options.len()
        invariant
            i <= options@.len(),
            opts == Seq::new(options@.len(), |j: int| option_of(options@[j]@)),
            options_applied(opts.subrange(0, i as int)) == i,
            setup.plt == plt_after(opts, i as int, old_setup.plt),
            setup.tlm == tlm_after(opts, i as int, old_setup.tlm),
            guard_set(old_setup.tcps@, setup.tcps@, old_setup.nb_comps, guard_after(opts, i as int)),
            *setup == (EncoderSetup { plt: setup.plt, tlm: setup.tlm, tcps: setup.tcps, ..old_setup }),
            forall|k: int|
                0 <= k < old_setup.tcps@.len() ==> (#[trigger] old_setup.tcps@[k]).tccps@.len()
                    >= old_setup.nb_comps,
            old_setup == *old(setup),
        decreases options@.len() - i,
    {
        let o = opj_j2k_parse_extra_option(options[i]);
        assert(o == opts[i as int]);
        assert(opts.subrange(0, i as int + 1).drop_last() =~= opts.subrange(0, i as int));
        match o {
            ExtraOption::Plt(b) => {
                setup.plt = b;
            },
            ExtraOption::Tlm(b) => {
                setup.tlm = b;
            },
            ExtraOption::GuardBits(g) => {
                let ghost before = setup.tcps@;
                let nb = setup.nb_comps;
                let mut tcps = Vec::new();
                std::mem::swap(&mut tcps, &mut setup.tcps);
                assert forall|k: int| 0 <= k < tcps@.len() implies (#[trigger] tcps@[k]).tccps@.len() >= nb by {
                    assert(tcps@[k].tccps@.len() == old_setup.tcps@[k].tccps@.len());
                }
                set_guard_bits(&mut tcps, nb, g);
                setup.tcps = tcps;
                assert forall|k: int| 0 <= k < old_setup.tcps@.len() implies {
                    let oo = old_setup.tcps@[k];
                    let nn = #[trigger] setup.tcps@[k];
                    &&& nn.tccps@.len() == oo.tccps@.len()
                    &&& nn == (opj_tcp { tccps: nn.tccps, ..oo })
                    &&& forall|c: int|
                        0 <= c < oo.tccps@.len() ==> #[trigger] nn.tccps@[c] == if c < nb {
                            opj_tccp { numgbits: g, ..oo.tccps@[c] }
                        } else {
                            oo.tccps@[c]
                        }
                } by {
                    assert forall|c: int| 0 <= c < old_setup.tcps@[k].tccps@.len() implies #[trigger] setup.tcps@[k].tccps@[c] == if c < nb {
                        opj_tccp { numgbits: g, ..old_setup.tcps@[k].tccps@[c] }
                    } else {
                        old_setup.tcps@[k].tccps@[c]
                    } by {
                        assert(before[k].tccps@[c] == match guard_after(opts, i as int) {
                            Some(v) => if c < nb {
                                opj_tccp { numgbits: v, ..old_setup.tcps@[k].tccps@[c] }
                            } else {
                                old_setup.tcps@[k].tccps@[c]
                            },
                            None => old_setup.tcps@[k].tccps@[c],
                        });
                    }
                }
            },
            ExtraOption::Invalid => {
                proof {
                    assert(options_applied(opts.subrange(0, i as int + 1)) == i);
                    lemma_applied_stable(opts, i as int + 1);
                }
                return false;
            },
        }
        i = i + 1;
    }
    assert(opts.subrange(0, options@.len() as int) =~= opts);
    true
}

} // verus!
