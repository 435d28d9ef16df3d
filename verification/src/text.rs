//! Small verified text utilities shared by the parsers, the path helpers and
//! the result-file codec: literal matching, character scanning, and the
//! decimal rendering and reading of unsigned integers.

use vstd::prelude::*;

verus! {

/// `p` occurs in `s` starting at position `i`.
pub open spec fn spec_match_at(s: Seq<char>, i: int, p: Seq<char>) -> bool {
    0 <= i && i + p.len() <= s.len() && s.subrange(i, i + p.len() as int) == p
}

/// Whether `lit` occurs in `s` at character position `i`.
pub fn match_at(s: &str, i: usize, lit: &str) -> (b: bool)
    ensures
        b == spec_match_at(s@, i as int, lit@),
{
    let n = s.unicode_len();
    let m = lit.unicode_len();
    if i > n || m > n - i {
        proof {
            assert(!spec_match_at(s@, i as int, lit@));
        }
        return false;
    }
    let mut k: usize = 0;
    while k < m
        invariant
            0 <= k <= m,
            i + m <= n,
            n == s@.len(),
            m == lit@.len(),
            forall|t: int| 0 <= t < k ==> s@[i + t] == lit@[t],
        decreases m - k,
    {
        if s.get_char(i + k) != lit.get_char(k) {
            proof {
                assert(s@.subrange(i as int, i + m) != lit@) by {
                    assert(s@.subrange(i as int, i + m)[k as int] != lit@[k as int]);
                }
            }
            return false;
        }
        k += 1;
    }
    proof {
        assert(s@.subrange(i as int, i + m) =~= lit@);
    }
    true
}

/// Whether the views of two string slices are equal.
pub fn str_eq(a: &str, b: &str) -> (r: bool)
    ensures
        r == (a@ == b@),
{
    if a.unicode_len() != b.unicode_len() {
        return false;
    }
    let r = match_at(a, 0, b);
    proof {
        if r {
            assert(a@.subrange(0, a@.len() as int) =~= a@);
        } else {
            if a@ == b@ {
                assert(a@.subrange(0, b@.len() as int) =~= b@);
            }
        }
    }
    r
}

/// The first position at or after `from` whose character satisfies `p`, or
/// the length of `s` if there is none.
pub open spec fn spec_scan(s: Seq<char>, from: int, p: spec_fn(char) -> bool) -> int
    decreases s.len() - from,
{
    if from < 0 || from >= s.len() {
        s.len() as int
    } else if p(s[from]) {
        from
    } else {
        spec_scan(s, from + 1, p)
    }
}

pub proof fn lemma_spec_scan(s: Seq<char>, from: int, p: spec_fn(char) -> bool)
    requires
        0 <= from <= s.len(),
    ensures
        from <= spec_scan(s, from, p) <= s.len(),
        spec_scan(s, from, p) < s.len() ==> p(s[spec_scan(s, from, p)]),
        forall|t: int| from <= t < spec_scan(s, from, p) ==> !p(s[t]),
    decreases s.len() - from,
{
    if from < s.len() && !p(s[from]) {
        lemma_spec_scan(s, from + 1, p);
    }
}

/// A position with the characterization of `spec_scan` is `spec_scan`.
pub proof fn lemma_spec_scan_is(s: Seq<char>, from: int, p: spec_fn(char) -> bool, r: int)
    requires
        0 <= from <= r <= s.len(),
        r < s.len() ==> p(s[r]),
        forall|t: int| from <= t < r ==> !p(s[t]),
    ensures
        spec_scan(s, from, p) == r,
    decreases r - from,
{
    if from < r {
        lemma_spec_scan_is(s, from + 1, p, r);
    }
}

/// A concatenated pattern occurs at a position exactly when its parts occur
/// back to back.
pub proof fn lemma_match_at_split(s: Seq<char>, i: int, a: Seq<char>, b: Seq<char>)
    ensures
        spec_match_at(s, i, a + b) <==> (spec_match_at(s, i, a) && spec_match_at(s, i + a.len(), b)),
{
    if spec_match_at(s, i, a + b) {
        assert(s.subrange(i, i + a.len() as int) =~= a) by {
            assert forall|t: int| 0 <= t < a.len() implies s.subrange(i, i + a.len() as int)[t]
                == a[t] by {
                assert(s.subrange(i, i + (a + b).len() as int)[t] == (a + b)[t]);
            }
        }
        assert(s.subrange(i + a.len(), i + a.len() + b.len() as int) =~= b) by {
            assert forall|t: int|
                0 <= t < b.len() implies s.subrange(
                i + a.len(),
                i + a.len() + b.len() as int,
            )[t] == b[t] by {
                assert(s.subrange(i, i + (a + b).len() as int)[a.len() + t] == (a + b)[a.len()
                    + t]);
            }
        }
    }
    if spec_match_at(s, i, a) && spec_match_at(s, i + a.len(), b) {
        assert(s.subrange(i, i + (a + b).len() as int) =~= a + b) by {
            assert forall|t: int|
                0 <= t < (a + b).len() implies s.subrange(i, i + (a + b).len() as int)[t] == (a
                + b)[t] by {
                if t < a.len() {
                    assert(s.subrange(i, i + a.len() as int)[t] == a[t]);
                } else {
                    assert(s.subrange(i + a.len(), i + a.len() + b.len() as int)[t - a.len()]
                        == b[t - a.len()]);
                }
            }
        }
    }
}

/// A matched pattern's first character sits at the match position.
pub proof fn lemma_match_char(s: Seq<char>, i: int, p: Seq<char>)
    requires
        spec_match_at(s, i, p),
        p.len() >= 1,
    ensures
        s[i] == p[0],
{
    assert(s.subrange(i, i + p.len() as int)[0] == s[i]);
}

/// The last position in `[lo, j]` where `pat` occurs, searching downward.
pub open spec fn spec_last_occurrence(s: Seq<char>, lo: int, j: int, pat: Seq<char>) -> Option<
    int,
>
    decreases j - lo + 1,
{
    if j < lo {
        None
    } else if spec_match_at(s, j, pat) {
        Some(j)
    } else {
        spec_last_occurrence(s, lo, j - 1, pat)
    }
}

/// Finds the last occurrence of `pat` at a position in `[lo, top]`.
pub fn find_last_occurrence(s: &str, lo: usize, top: usize, pat: &str) -> (r: Option<usize>)
    requires
        lo <= s@.len(),
        top < s@.len(),
    ensures
        match r {
            Some(j) => lo <= j <= top && spec_match_at(s@, j as int, pat@)
                && spec_last_occurrence(s@, lo as int, top as int, pat@) == Some(j as int),
            None => spec_last_occurrence(s@, lo as int, top as int, pat@) is None,
        },
{
    if top < lo {
        return None;
    }
    let n = s.unicode_len();
    let mut j: usize = top + 1;
    while j > lo
        invariant
            lo <= j <= top + 1,
            top < n == s@.len(),
            lo <= s@.len(),
            spec_last_occurrence(s@, lo as int, top as int, pat@) == spec_last_occurrence(
                s@,
                lo as int,
                j - 1,
                pat@,
            ),
        decreases j,
    {
        j -= 1;
        if match_at(s, j, pat) {
            return Some(j);
        }
    }
    None
}

/// A decimal digit.
pub open spec fn is_digit(c: char) -> bool {
    '0' <= c && c <= '9'
}

/// The value of a decimal digit character.
pub open spec fn digit_val(c: char) -> int {
    c as int - '0' as int
}

/// The digit character for a value in `0..10`.
pub open spec fn digit_char(d: int) -> char {
    if d == 0 {
        '0'
    } else if d == 1 {
        '1'
    } else if d == 2 {
        '2'
    } else if d == 3 {
        '3'
    } else if d == 4 {
        '4'
    } else if d == 5 {
        '5'
    } else if d == 6 {
        '6'
    } else if d == 7 {
        '7'
    } else if d == 8 {
        '8'
    } else {
        '9'
    }
}

/// The decimal rendering of a non-negative integer, without leading zeros
/// (a single zero for 0).
pub open spec fn spec_dec(n: int) -> Seq<char>
    decreases n,
{
    if n < 10 {
        seq![digit_char(n)]
    } else {
        spec_dec(n / 10).push(digit_char(n % 10))
    }
}

/// The value of a sequence of decimal digit characters, most significant
/// first.
pub open spec fn spec_digits_val(s: Seq<char>) -> int
    decreases s.len(),
{
    if s.len() == 0 {
        0
    } else {
        spec_digits_val(s.drop_last()) * 10 + digit_val(s.last())
    }
}

/// The digit character of a value in `0..10` reads back as that value.
pub proof fn lemma_digit_char_val(d: int)
    requires
        0 <= d < 10,
    ensures
        is_digit(digit_char(d)),
        digit_val(digit_char(d)) == d,
{
}

pub proof fn lemma_dec_digits(n: int)
    requires
        n >= 0,
    ensures
        spec_dec(n).len() >= 1,
        forall|i: int| 0 <= i < spec_dec(n).len() ==> is_digit(#[trigger] spec_dec(n)[i]),
        spec_digits_val(spec_dec(n)) == n,
    decreases n,
{
    if n < 10 {
        lemma_digit_char_val(n);
        assert(spec_dec(n) =~= seq![digit_char(n)]);
        assert(spec_dec(n).drop_last() =~= Seq::<char>::empty());
        assert(spec_dec(n).last() == digit_char(n));
        assert(spec_digits_val(Seq::<char>::empty()) == 0);
        assert(spec_digits_val(spec_dec(n)) == 0 * 10 + digit_val(digit_char(n)));
    } else {
        lemma_dec_digits(n / 10);
        lemma_digit_char_val(n % 10);
        assert(spec_dec(n).drop_last() =~= spec_dec(n / 10));
        assert(spec_dec(n).last() == digit_char(n % 10));
        assert(spec_digits_val(spec_dec(n)) == spec_digits_val(spec_dec(n / 10)) * 10 + digit_val(
            digit_char(n % 10),
        ));
        assert(n == (n / 10) * 10 + n % 10) by (nonlinear_arith)
            requires
                n >= 10,
        ;
    }
}

/// Decimal renderings are injective: equal renderings mean equal numbers.
pub proof fn lemma_dec_injective(a: int, b: int)
    requires
        a >= 0,
        b >= 0,
        spec_dec(a) == spec_dec(b),
    ensures
        a == b,
{
    lemma_dec_digits(a);
    lemma_dec_digits(b);
}

/// A single-character string for a digit value.
fn digit_str(d: u64) -> (s: &'static str)
    requires
        d < 10,
    ensures
        s@ =~= seq![digit_char(d as int)],
{
    proof {
        reveal_strlit("0");
        reveal_strlit("1");
        reveal_strlit("2");
        reveal_strlit("3");
        reveal_strlit("4");
        reveal_strlit("5");
        reveal_strlit("6");
        reveal_strlit("7");
        reveal_strlit("8");
        reveal_strlit("9");
    }
    if d == 0 {
        "0"
    } else if d == 1 {
        "1"
    } else if d == 2 {
        "2"
    } else if d == 3 {
        "3"
    } else if d == 4 {
        "4"
    } else if d == 5 {
        "5"
    } else if d == 6 {
        "6"
    } else if d == 7 {
        "7"
    } else if d == 8 {
        "8"
    } else {
        "9"
    }
}

/// Renders `n` in decimal.
pub fn u64_to_string(n: u64) -> (s: String)
    ensures
        s@ == spec_dec(n as int),
    decreases n,
{
    if n < 10 {
        let s = String::from_str(digit_str(n));
        proof {
            assert(s@ =~= spec_dec(n as int));
        }
        s
    } else {
        let mut s = u64_to_string(n / 10);
        s.append(digit_str(n % 10));
        proof {
            assert(s@ =~= spec_dec(n as int));
        }
        s
    }
}

/// Reads a sequence of decimal digit characters as a `u64`, most significant
/// first; `None` when the value does not fit.
pub fn digits_to_u64(s: &str, from: usize, to: usize) -> (r: Option<u64>)
    requires
        from <= to <= s@.len(),
        forall|t: int| from <= t < to ==> is_digit(#[trigger] s@[t]),
    ensures
        ({
            let v = spec_digits_val(s@.subrange(from as int, to as int));
            if v < 0x1_0000_0000_0000_0000 {
                r == Some(v as u64)
            } else {
                r is None
            }
        }),
{
    let ghost whole = s@.subrange(from as int, to as int);
    proof {
        lemma_digits_val_bounds(whole);
    }
    let mut acc: u64 = 0;
    let mut i = from;
    while i < to
        invariant
            from <= i <= to <= s@.len(),
            forall|t: int| from <= t < to ==> is_digit(#[trigger] s@[t]),
            whole == s@.subrange(from as int, to as int),
            acc as int == spec_digits_val(s@.subrange(from as int, i as int)),
        decreases to - i,
    {
        let c = s.get_char(i);
        proof {
            assert(is_digit(s@[i as int]));
            lemma_digits_val_prefix(s@, from as int, i + 1, to as int);
            assert(s@.subrange(from as int, i + 1).drop_last() =~= s@.subrange(
                from as int,
                i as int,
            ));
            assert(s@.subrange(from as int, i + 1).last() == s@[i as int]);
        }
        let d: u64 = (c as u32 as u64) - 48;
        if acc > (u64::MAX - d) / 10 {
            proof {
                assert(spec_digits_val(s@.subrange(from as int, i + 1)) == acc * 10 + d);
                assert(acc * 10 + d > u64::MAX);
            }
            return None;
        }
        proof {
            assert(acc * 10 + d <= u64::MAX);
        }
        acc = acc * 10 + d;
        i += 1;
    }
    proof {
        assert(s@.subrange(from as int, i as int) == whole);
    }
    Some(acc)
}

/// The power of ten with exponent `e` (1 for non-positive `e`).
pub open spec fn pow10(e: int) -> int
    decreases e,
{
    if e <= 0 {
        1
    } else {
        10 * pow10(e - 1)
    }
}

pub proof fn lemma_pow10_pos(e: int)
    ensures
        pow10(e) >= 1,
    decreases e,
{
    if e > 0 {
        lemma_pow10_pos(e - 1);
    }
}

/// Powers of ten grow with the exponent.
pub proof fn lemma_pow10_mono(a: int, b: int)
    requires
        a <= b,
    ensures
        pow10(a) <= pow10(b),
    decreases b - a,
{
    if a < b {
        lemma_pow10_mono(a, b - 1);
        lemma_pow10_pos(b - 1);
    }
}

/// A string of `n` digits has a value below the `n`-th power of ten.
pub proof fn lemma_digits_val_upper(s: Seq<char>)
    requires
        forall|t: int| 0 <= t < s.len() ==> is_digit(#[trigger] s[t]),
    ensures
        spec_digits_val(s) < pow10(s.len() as int),
    decreases s.len(),
{
    if s.len() == 0 {
    } else {
        lemma_digits_val_upper(s.drop_last());
        lemma_digits_val_bounds(s.drop_last());
        let a = spec_digits_val(s.drop_last());
        let p = pow10(s.len() - 1);
        assert(a <= p - 1);
        assert(a * 10 <= (p - 1) * 10) by (nonlinear_arith)
            requires
                a <= p - 1,
        ;
        assert(digit_val(s.last()) <= 9);
        assert(pow10(s.len() as int) == 10 * p);
    }
}

/// A digit string's value is non-negative, and grows monotonically with its
/// prefixes.
pub proof fn lemma_digits_val_bounds(s: Seq<char>)
    requires
        forall|t: int| 0 <= t < s.len() ==> is_digit(#[trigger] s[t]),
    ensures
        spec_digits_val(s) >= 0,
    decreases s.len(),
{
    if s.len() > 0 {
        lemma_digits_val_bounds(s.drop_last());
    }
}

/// The value of a prefix of a digit string is at most the value of the whole.
pub proof fn lemma_digits_val_prefix(s: Seq<char>, from: int, mid: int, to: int)
    requires
        0 <= from <= mid <= to <= s.len(),
        forall|t: int| from <= t < to ==> is_digit(#[trigger] s[t]),
    ensures
        spec_digits_val(s.subrange(from, mid)) <= spec_digits_val(s.subrange(from, to)),
    decreases to - mid,
{
    if mid < to {
        lemma_digits_val_prefix(s, from, mid + 1, to);
        let a = s.subrange(from, mid);
        let b = s.subrange(from, mid + 1);
        assert(b.drop_last() =~= a);
        assert(b.last() == s[mid]);
        lemma_digits_val_bounds(a);
        assert(spec_digits_val(b) == spec_digits_val(a) * 10 + digit_val(s[mid]));
        assert(spec_digits_val(a) * 10 >= spec_digits_val(a)) by (nonlinear_arith)
            requires
                spec_digits_val(a) >= 0,
        ;
    }
}

} // verus!
