//! The duration grammar for the build tool's summary line. It accepts a bare
//! number of seconds surrounded by separator characters, or a sum of terms
//! such as `4m 26s`, `0.86s` and `120ms`: each term is an integer with an
//! optional decimal fraction, followed by a unit of minutes (`m`), seconds
//! (`s`) or milliseconds (`ms`). The total is converted to whole milliseconds
//! by rounding down.
//!
//! The grammar is bounded to machine range by design: a term whose integer
//! part does not fit 64 bits, a fraction over 19 digits, and a total of 2^64
//! milliseconds or more all fail the parse. Leading zeros are value, not
//! length: a zero-padded small number is accepted whatever its width.

use vstd::prelude::*;

use crate::text;
use crate::text::is_digit;

verus! {

/// A separator inside a duration fragment.
pub open spec fn is_junk_char(c: char) -> bool {
    c == ' ' || c == '.'
}

/// A character that can form a unit word.
pub open spec fn is_unit_char(c: char) -> bool {
    c == 'm' || c == 's'
}

/// A character that can appear in a duration fragment of the summary line.
pub open spec fn is_fragment_char(c: char) -> bool {
    is_digit(c) || is_junk_char(c) || is_unit_char(c)
}

pub open spec fn digit_p() -> spec_fn(char) -> bool {
    |c: char| is_digit(c)
}

pub open spec fn nondigit_p() -> spec_fn(char) -> bool {
    |c: char| !is_digit(c)
}

pub open spec fn nonjunk_p() -> spec_fn(char) -> bool {
    |c: char| !is_junk_char(c)
}

pub open spec fn nonunit_p() -> spec_fn(char) -> bool {
    |c: char| !is_unit_char(c)
}

/// Nanoseconds per unit word: `m`, `s` and `ms` are the recognized units.
pub open spec fn spec_unit_ns(u: Seq<char>) -> Option<int> {
    if u == "m"@ {
        Some(60_000_000_000)
    } else if u == "s"@ {
        Some(1_000_000_000)
    } else if u == "ms"@ {
        Some(1_000_000)
    } else {
        None
    }
}

/// One term starting at `pos` (which holds a digit): its value in
/// nanoseconds and the position just after it, or `None` when the term has no
/// recognizable unit or is beyond the recognized lengths.
pub open spec fn spec_term(s: Seq<char>, pos: int) -> Option<(int, int)> {
    let ie = text::spec_scan(s, pos, nondigit_p());
    let has_dec = ie < s.len() && s[ie] == '.' && ie + 1 < s.len() && is_digit(s[ie + 1]);
    let de = if has_dec {
        text::spec_scan(s, ie + 1, nondigit_p())
    } else {
        ie
    };
    let us = text::spec_scan(s, de, nonjunk_p());
    let ue = text::spec_scan(s, us, nonunit_p());
    if ue == us {
        None
    } else {
        match spec_unit_ns(s.subrange(us, ue)) {
            None => None,
            Some(uns) => {
                if text::spec_digits_val(s.subrange(pos, ie)) >= 0x1_0000_0000_0000_0000 || (
                has_dec && de - (ie + 1) > 19) {
                    None
                } else {
                    let iv = text::spec_digits_val(s.subrange(pos, ie));
                    let ns = if has_dec {
                        iv * uns + text::spec_digits_val(s.subrange(ie + 1, de)) * uns / text::pow10(
                            de - (ie + 1),
                        )
                    } else {
                        iv * uns
                    };
                    Some((ns, ue))
                }
            },
        }
    }
}

/// The summed nanoseconds of all terms at or after `pos`, or `None` when any
/// term is malformed.
pub open spec fn spec_terms_ns(s: Seq<char>, pos: int) -> Option<int>
    decreases s.len() - pos,
{
    if pos < 0 || pos >= s.len() {
        Some(0)
    } else if !is_digit(s[pos]) {
        spec_terms_ns(s, pos + 1)
    } else {
        match spec_term(s, pos) {
            None => None,
            Some((ns, ue)) => {
                if ue <= pos || ue > s.len() {
                    None
                } else {
                    match spec_terms_ns(s, ue) {
                        None => None,
                        Some(r) => Some(ns + r),
                    }
                }
            },
        }
    }
}

/// The whole fragment read as a bare number of seconds: a single run of
/// digits with only separator characters around it.
pub open spec fn spec_bare_seconds(s: Seq<char>) -> Option<int> {
    let i = text::spec_scan(s, 0, digit_p());
    let j = text::spec_scan(s, i, nondigit_p());
    if i < s.len() && (forall|t: int| 0 <= t < i ==> is_junk_char(#[trigger] s[t])) && (forall|
        t: int,
    |
        j <= t < s.len() ==> is_junk_char(#[trigger] s[t])) {
        Some(text::spec_digits_val(s.subrange(i, j)))
    } else {
        None
    }
}

/// The milliseconds a duration fragment denotes, or `None` when it is not in
/// the recognized grammar or out of machine range.
pub open spec fn spec_parse_fragment(s: Seq<char>) -> Option<u64> {
    match spec_bare_seconds(s) {
        Some(v) => {
            if 1000 * v < 0x1_0000_0000_0000_0000 {
                Some((1000 * v) as u64)
            } else {
                None
            }
        },
        None => {
            if text::spec_scan(s, 0, digit_p()) < s.len() {
                match spec_terms_ns(s, 0) {
                    None => None,
                    Some(ns) => {
                        let ms = ns / 1_000_000;
                        if ms < 0x1_0000_0000_0000_0000 {
                            Some(ms as u64)
                        } else {
                            None
                        }
                    },
                }
            } else {
                None
            }
        },
    }
}

fn exec_is_digit(c: char) -> (b: bool)
    ensures
        b == is_digit(c),
{
    '0' <= c && c <= '9'
}

fn exec_is_junk(c: char) -> (b: bool)
    ensures
        b == is_junk_char(c),
{
    c == ' ' || c == '.'
}

fn exec_is_unit(c: char) -> (b: bool)
    ensures
        b == is_unit_char(c),
{
    c == 'm' || c == 's'
}

/// First digit at or after `from`.
fn scan_digit(s: &str, from: usize) -> (j: usize)
    requires
        from <= s@.len(),
    ensures
        j as int == text::spec_scan(s@, from as int, digit_p()),
        from <= j <= s@.len(),
        j < s@.len() ==> is_digit(s@[j as int]),
        forall|t: int| from <= t < j ==> !is_digit(#[trigger] s@[t]),
{
    let n = s.unicode_len();
    let mut j = from;
    while j < n && !exec_is_digit(s.get_char(j))
        invariant
            from <= j <= n,
            n == s@.len(),
            forall|t: int| from <= t < j ==> !is_digit(#[trigger] s@[t]),
        decreases n - j,
    {
        j += 1;
    }
    proof {
        text::lemma_spec_scan_is(s@, from as int, digit_p(), j as int);
    }
    j
}

/// First non-digit at or after `from`.
fn scan_nondigit(s: &str, from: usize) -> (j: usize)
    requires
        from <= s@.len(),
    ensures
        j as int == text::spec_scan(s@, from as int, nondigit_p()),
        from <= j <= s@.len(),
        j < s@.len() ==> !is_digit(s@[j as int]),
        forall|t: int| from <= t < j ==> is_digit(#[trigger] s@[t]),
{
    let n = s.unicode_len();
    let mut j = from;
    while j < n && exec_is_digit(s.get_char(j))
        invariant
            from <= j <= n,
            n == s@.len(),
            forall|t: int| from <= t < j ==> is_digit(#[trigger] s@[t]),
        decreases n - j,
    {
        j += 1;
    }
    proof {
        text::lemma_spec_scan_is(s@, from as int, nondigit_p(), j as int);
    }
    j
}

/// First non-separator at or after `from`.
fn scan_nonjunk(s: &str, from: usize) -> (j: usize)
    requires
        from <= s@.len(),
    ensures
        j as int == text::spec_scan(s@, from as int, nonjunk_p()),
        from <= j <= s@.len(),
        forall|t: int| from <= t < j ==> is_junk_char(#[trigger] s@[t]),
{
    let n = s.unicode_len();
    let mut j = from;
    while j < n && exec_is_junk(s.get_char(j))
        invariant
            from <= j <= n,
            n == s@.len(),
            forall|t: int| from <= t < j ==> is_junk_char(#[trigger] s@[t]),
        decreases n - j,
    {
        j += 1;
    }
    proof {
        text::lemma_spec_scan_is(s@, from as int, nonjunk_p(), j as int);
    }
    j
}

/// First non-unit character at or after `from`.
fn scan_nonunit(s: &str, from: usize) -> (j: usize)
    requires
        from <= s@.len(),
    ensures
        j as int == text::spec_scan(s@, from as int, nonunit_p()),
        from <= j <= s@.len(),
        forall|t: int| from <= t < j ==> is_unit_char(#[trigger] s@[t]),
{
    let n = s.unicode_len();
    let mut j = from;
    while j < n && exec_is_unit(s.get_char(j))
        invariant
            from <= j <= n,
            n == s@.len(),
            forall|t: int| from <= t < j ==> is_unit_char(#[trigger] s@[t]),
        decreases n - j,
    {
        j += 1;
    }
    proof {
        text::lemma_spec_scan_is(s@, from as int, nonunit_p(), j as int);
    }
    j
}

/// Every position in `[from, to)` holds a separator character.
fn all_junk(s: &str, from: usize, to: usize) -> (b: bool)
    requires
        from <= to <= s@.len(),
    ensures
        b == (forall|t: int| from <= t < to ==> is_junk_char(#[trigger] s@[t])),
{
    let mut j = from;
    while j < to
        invariant
            from <= j <= to <= s@.len(),
            forall|t: int| from <= t < j ==> is_junk_char(#[trigger] s@[t]),
        decreases to - j,
    {
        if !exec_is_junk(s.get_char(j)) {
            return false;
        }
        j += 1;
    }
    true
}

/// Skipping a stretch with no digits does not change the summed terms.
proof fn lemma_terms_skip(s: Seq<char>, a: int, b: int)
    requires
        0 <= a <= b <= s.len(),
        forall|t: int| a <= t < b ==> !is_digit(#[trigger] s[t]),
    ensures
        spec_terms_ns(s, a) == spec_terms_ns(s, b),
    decreases b - a,
{
    if a < b {
        lemma_terms_skip(s, a + 1, b);
    }
}

/// A well-formed term sum is non-negative.
proof fn lemma_terms_nonneg(s: Seq<char>, pos: int)
    requires
        0 <= pos,
    ensures
        match spec_terms_ns(s, pos) {
            Some(r) => r >= 0,
            None => true,
        },
    decreases s.len() - pos,
{
    if pos >= s.len() {
    } else if !is_digit(s[pos]) {
        lemma_terms_nonneg(s, pos + 1);
    } else {
        lemma_term_nonneg(s, pos);
        match spec_term(s, pos) {
            None => {},
            Some((ns, ue)) => {
                lemma_terms_nonneg(s, ue);
            },
        }
    }
}

/// A recognized term denotes a non-negative number of nanoseconds.
proof fn lemma_term_nonneg(s: Seq<char>, pos: int)
    requires
        0 <= pos < s.len(),
        is_digit(s[pos]),
    ensures
        match spec_term(s, pos) {
            Some((ns, ue)) => ns >= 0 && pos < ue <= s.len(),
            None => true,
        },
{
    text::lemma_spec_scan(s, pos, nondigit_p());
    let ie = text::spec_scan(s, pos, nondigit_p());
    let has_dec = ie < s.len() && s[ie] == '.' && ie + 1 < s.len() && is_digit(s[ie + 1]);
    let de = if has_dec {
        text::spec_scan(s, ie + 1, nondigit_p())
    } else {
        ie
    };
    if has_dec {
        text::lemma_spec_scan(s, ie + 1, nondigit_p());
    }
    let us = text::spec_scan(s, de, nonjunk_p());
    text::lemma_spec_scan(s, de, nonjunk_p());
    let ue = text::spec_scan(s, us, nonunit_p());
    text::lemma_spec_scan(s, us, nonunit_p());
    if ue != us {
        match spec_unit_ns(s.subrange(us, ue)) {
            None => {},
            Some(uns) => {
                assert(uns > 0);
                if !(text::spec_digits_val(s.subrange(pos, ie)) >= 0x1_0000_0000_0000_0000 || (
                has_dec && de - (ie + 1) > 19)) {
                    let iv = text::spec_digits_val(s.subrange(pos, ie));
                    text::lemma_digits_val_bounds(s.subrange(pos, ie));
                    assert(iv * uns >= 0) by (nonlinear_arith)
                        requires
                            iv >= 0,
                            uns > 0,
                    ;
                    if has_dec {
                        let dv = text::spec_digits_val(s.subrange(ie + 1, de));
                        text::lemma_digits_val_bounds(s.subrange(ie + 1, de));
                        let p = text::pow10(de - (ie + 1));
                        text::lemma_pow10_pos(de - (ie + 1));
                        assert(dv * uns >= 0) by (nonlinear_arith)
                            requires
                                dv >= 0,
                                uns > 0,
                        ;
                        assert(dv * uns / p >= 0) by (nonlinear_arith)
                            requires
                                dv * uns >= 0,
                                p >= 1,
                        ;
                    }
                    assert(pos < ie);
                }
            },
        }
    }
}

/// A digit run of bounded length has a bounded value.
proof fn lemma_run_digits_upper(s: Seq<char>, a: int, b: int, cap: int)
    requires
        0 <= a <= b <= s.len(),
        forall|t: int| a <= t < b ==> is_digit(#[trigger] s[t]),
        b - a <= cap,
    ensures
        0 <= text::spec_digits_val(s.subrange(a, b)),
        text::spec_digits_val(s.subrange(a, b)) < text::pow10(cap),
{
    let sub = s.subrange(a, b);
    assert forall|t: int| 0 <= t < sub.len() implies is_digit(#[trigger] sub[t]) by {
        assert(sub[t] == s[t + a]);
    }
    text::lemma_digits_val_upper(sub);
    text::lemma_digits_val_bounds(sub);
    text::lemma_pow10_mono(b - a, cap);
}

/// Powers of ten up to ten quintillion, as run-time values.
fn pow10_u64(e: usize) -> (r: u64)
    requires
        e <= 19,
    ensures
        r as int == text::pow10(e as int),
        r >= 1,
{
    proof {
        reveal_with_fuel(text::pow10, 21);
    }
    if e == 0 {
        1
    } else if e == 1 {
        10
    } else if e == 2 {
        100
    } else if e == 3 {
        1_000
    } else if e == 4 {
        10_000
    } else if e == 5 {
        100_000
    } else if e == 6 {
        1_000_000
    } else if e == 7 {
        10_000_000
    } else if e == 8 {
        100_000_000
    } else if e == 9 {
        1_000_000_000
    } else if e == 10 {
        10_000_000_000
    } else if e == 11 {
        100_000_000_000
    } else if e == 12 {
        1_000_000_000_000
    } else if e == 13 {
        10_000_000_000_000
    } else if e == 14 {
        100_000_000_000_000
    } else if e == 15 {
        1_000_000_000_000_000
    } else if e == 16 {
        10_000_000_000_000_000
    } else if e == 17 {
        100_000_000_000_000_000
    } else if e == 18 {
        1_000_000_000_000_000_000
    } else {
        10_000_000_000_000_000_000
    }
}

/// Nanoseconds per unit word, as a run-time value.
fn unit_ns(u: &str) -> (r: Option<u64>)
    ensures
        match r {
            Some(v) => spec_unit_ns(u@) == Some(v as int) && 1_000_000 <= v <= 60_000_000_000,
            None => spec_unit_ns(u@) is None,
        },
{
    if text::str_eq(u, "m") {
        Some(60_000_000_000)
    } else if text::str_eq(u, "s") {
        Some(1_000_000_000)
    } else if text::str_eq(u, "ms") {
        Some(1_000_000)
    } else {
        None
    }
}

/// Milliseconds of 2^64, as nanoseconds: totals at or above this bound are
/// out of range whatever follows.
const NS_CAP: u128 = 18_446_744_073_709_551_616_000_000;

/// Reads a duration fragment; returns its total in whole milliseconds, or
/// `None` when the fragment is not in the recognized grammar or out of
/// machine range.
#[verifier::rlimit(60)]
pub fn parse_fragment(s: &str) -> (r: Option<u64>)
    ensures
        r == spec_parse_fragment(s@),
{
    let n = s.unicode_len();
    let i = scan_digit(s, 0);
    if i == n {
        return None;
    }
    let j = scan_nondigit(s, i);
    if all_junk(s, 0, i) && all_junk(s, j, n) {
        // A bare number of seconds.
        proof {
            let si = text::spec_scan(s@, 0, digit_p());
            let sj = text::spec_scan(s@, si, nondigit_p());
            assert(si == i as int);
            assert(sj == j as int);
            assert(spec_bare_seconds(s@) == Some(
                text::spec_digits_val(s@.subrange(i as int, j as int)),
            ));
            lemma_run_digits_upper(s@, i as int, j as int, j - i);
        }
        match text::digits_to_u64(s, i, j) {
            None => {
                proof {
                    let v = text::spec_digits_val(s@.subrange(i as int, j as int));
                    assert(1000 * v >= v) by (nonlinear_arith)
                        requires
                            v >= 0x1_0000_0000_0000_0000,
                    ;
                }
                return None;
            },
            Some(v) => {
                if v > u64::MAX / 1000 {
                    proof {
                        assert(1000 * (v as int) >= 0x1_0000_0000_0000_0000);
                    }
                    return None;
                }
                return Some(v * 1000);
            },
        }
    }
    // A sum of unit terms.
    let ghost total = spec_terms_ns(s@, 0);
    let mut pos: usize = 0;
    let mut acc: u128 = 0;
    while pos < n
        invariant
            pos <= n,
            n == s@.len(),
            acc <= NS_CAP,
            spec_bare_seconds(s@) is None,
            text::spec_scan(s@, 0, digit_p()) < s@.len(),
            match spec_terms_ns(s@, pos as int) {
                Some(r) => total == Some(acc as int + r),
                None => total is None,
            },
            total == spec_terms_ns(s@, 0),
        decreases n - pos,
    {
        let d = scan_digit(s, pos);
        proof {
            lemma_terms_skip(s@, pos as int, d as int);
        }
        if d == n {
            proof {
                assert(spec_terms_ns(s@, d as int) == Some(0int));
            }
            pos = d;
            continue ;
        }
        let pos0 = d;
        let ie = scan_nondigit(s, pos0);
        let has_dec = ie < n && s.get_char(ie) == '.' && ie + 1 < n && exec_is_digit(
            s.get_char(ie + 1),
        );
        let de = if has_dec {
            scan_nondigit(s, ie + 1)
        } else {
            ie
        };
        let us = scan_nonjunk(s, de);
        let ue = scan_nonunit(s, us);
        if ue == us {
            proof {
                assert(spec_term(s@, pos0 as int) is None);
            }
            return None;
        }
        let unit = s.substring_char(us, ue);
        proof {
            assert(unit@ =~= s@.subrange(us as int, ue as int));
        }
        let uns = match unit_ns(unit) {
            None => {
                proof {
                    assert(spec_term(s@, pos0 as int) is None);
                }
                return None;
            },
            Some(u) => u,
        };
        if has_dec && de - (ie + 1) > 19 {
            proof {
                assert(spec_term(s@, pos0 as int) is None);
            }
            return None;
        }
        proof {
            lemma_run_digits_upper(s@, pos0 as int, ie as int, ie - pos0);
        }
        let iv = match text::digits_to_u64(s, pos0, ie) {
            Some(v) => v,
            None => {
                // The integer part's value does not fit 64 bits.
                proof {
                    assert(spec_term(s@, pos0 as int) is None);
                }
                return None;
            },
        };
        proof {
            assert((iv as int) * (uns as int) <= 0xffff_ffff_ffff_ffff * 60_000_000_000)
                by (nonlinear_arith)
                requires
                    0 <= (iv as int) <= 0xffff_ffff_ffff_ffff,
                    0 <= (uns as int) <= 60_000_000_000,
            ;
        }
        let main_ns: u128 = (iv as u128) * (uns as u128);
        proof {
            assert(main_ns as int == (iv as int) * (uns as int));
        }
        let frac_ns: u128 = if has_dec {
            proof {
                reveal_with_fuel(text::pow10, 21);
                lemma_run_digits_upper(s@, ie + 1, de as int, 19);
                assert(text::pow10(19) == 10_000_000_000_000_000_000);
            }
            let dv = match text::digits_to_u64(s, ie + 1, de) {
                Some(v) => v,
                None => {
                    proof {
                        assert(false);
                    }
                    return None;
                },
            };
            let p = pow10_u64(de - (ie + 1));
            proof {
                assert((dv as int) * (uns as int) <= 10_000_000_000_000_000_000 * 60_000_000_000)
                    by (nonlinear_arith)
                    requires
                        0 <= (dv as int) <= 10_000_000_000_000_000_000,
                        0 <= (uns as int) <= 60_000_000_000,
                ;
            }
            ((dv as u128) * (uns as u128)) / (p as u128)
        } else {
            0
        };
        let term_ns: u128 = main_ns + frac_ns;
        proof {
            if has_dec {
                let dvs = text::spec_digits_val(s@.subrange(ie + 1, de as int));
                let p = text::pow10(de - (ie + 1));
                assert(frac_ns as int == dvs * (uns as int) / p);
            }
            assert(spec_term(s@, pos0 as int) == Some(((term_ns as int), (ue as int))));
            lemma_term_nonneg(s@, pos0 as int);
            lemma_terms_nonneg(s@, ue as int);
        }
        acc = acc + term_ns;
        pos = ue;
        if acc > NS_CAP {
            proof {
                match spec_terms_ns(s@, pos as int) {
                    Some(r) => {
                        let ns = acc as int + r;
                        assert(total == Some(ns));
                        vstd::arithmetic::div_mod::lemma_div_is_ordered(
                            18_446_744_073_709_551_616_000_000,
                            ns,
                            1_000_000,
                        );
                        assert(18_446_744_073_709_551_616_000_000int / 1_000_000
                            == 0x1_0000_0000_0000_0000);
                    },
                    None => {},
                }
            }
            return None;
        }
    }
    proof {
        assert(total == Some(acc as int));
    }
    let ms: u128 = acc / 1_000_000;
    if ms > u64::MAX as u128 {
        return None;
    }
    Some(ms as u64)
}

} // verus!
