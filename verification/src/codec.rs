//! The textual format of a stored result file, as an explicit encode/decode
//! pair. The format is structured text with a fixed layout: the host
//! identity first, then one object per repo holding its timing buckets and
//! artifact sizes, with composite keys flattened into comma-joined strings
//! and quotes and backslashes escaped inside quoted fields.
//! The decoder reads exactly what the encoder writes: a loaded file that was
//! written by `encode_result_file` always yields the record set it encoded.

use vstd::prelude::*;

use crate::cargo::{Bytes, CompilerMode, Milliseconds, ProfileMode};
use crate::profile::{CompileTimeKey, Profile, ProfileView, SizeKey};
use crate::rustup;
use crate::store::ProfileSet;
use crate::system::SystemInfo;
use crate::text;

verus! {

/// A text with no double quote; every flattened key is one.
pub open spec fn spec_text_ok(s: Seq<char>) -> bool {
    forall|t: int| 0 <= t < s.len() ==> s[t] != '"'
}

/// A character the quoted-field encoding puts a backslash before.
pub open spec fn is_escaped_char(c: char) -> bool {
    c == '"' || c == '\\'
}

pub open spec fn escaped_p() -> spec_fn(char) -> bool {
    |c: char| is_escaped_char(c)
}

/// The quoted-field encoding of a text: a backslash before every quote and
/// backslash, everything else literal, so any text can sit inside a quoted
/// field.
pub open spec fn spec_escape(s: Seq<char>) -> Seq<char>
    decreases s.len(),
{
    if s.len() == 0 {
        Seq::empty()
    } else if is_escaped_char(s[0]) {
        seq!['\\', s[0]] + spec_escape(s.skip(1))
    } else {
        seq![s[0]] + spec_escape(s.skip(1))
    }
}

/// The quoted-field encoding distributes over concatenation.
proof fn lemma_escape_concat(a: Seq<char>, b: Seq<char>)
    ensures
        spec_escape(a + b) == spec_escape(a) + spec_escape(b),
    decreases a.len(),
{
    if a.len() == 0 {
        assert(a + b =~= b);
        assert(spec_escape(a) + spec_escape(b) =~= spec_escape(b));
    } else {
        lemma_escape_concat(a.skip(1), b);
        assert((a + b).skip(1) =~= a.skip(1) + b);
        assert((a + b)[0] == a[0]);
        if is_escaped_char(a[0]) {
            assert(spec_escape(a + b) =~= spec_escape(a) + spec_escape(b));
        } else {
            assert(spec_escape(a + b) =~= spec_escape(a) + spec_escape(b));
        }
    }
}

/// A text without quotes or backslashes encodes as itself.
proof fn lemma_escape_clean(s: Seq<char>)
    requires
        forall|t: int| 0 <= t < s.len() ==> !is_escaped_char(#[trigger] s[t]),
    ensures
        spec_escape(s) == s,
    decreases s.len(),
{
    if s.len() > 0 {
        assert(!is_escaped_char(s[0]));
        assert forall|t: int| 0 <= t < s.skip(1).len() implies !is_escaped_char(
            #[trigger] s.skip(1)[t],
        ) by {
            assert(s.skip(1)[t] == s[t + 1]);
        }
        lemma_escape_clean(s.skip(1));
        assert(spec_escape(s) =~= s);
    }
}

/// How a text's encoding splits at its first escaped character.
proof fn lemma_escape_first(s: Seq<char>)
    ensures
        ({
            let k = text::spec_scan(s, 0, escaped_p());
            if k == s.len() {
                spec_escape(s) == s
            } else {
                spec_escape(s) == s.take(k) + seq!['\\', s[k]] + spec_escape(s.skip(k + 1))
            }
        }),
{
    let k = text::spec_scan(s, 0, escaped_p());
    text::lemma_spec_scan(s, 0, escaped_p());
    if k == s.len() {
        lemma_escape_clean(s);
    } else {
        assert(s =~= s.take(k) + s.skip(k));
        lemma_escape_concat(s.take(k), s.skip(k));
        assert forall|t: int| 0 <= t < s.take(k).len() implies !is_escaped_char(
            #[trigger] s.take(k)[t],
        ) by {
            assert(s.take(k)[t] == s[t]);
        }
        lemma_escape_clean(s.take(k));
        assert(s.skip(k)[0] == s[k]);
        assert(is_escaped_char(s.skip(k)[0]));
        assert(s.skip(k).skip(1) =~= s.skip(k + 1));
        assert(spec_escape(s.skip(k)) == seq!['\\', s[k]] + spec_escape(s.skip(k + 1)));
        assert(spec_escape(s) =~= s.take(k) + seq!['\\', s[k]] + spec_escape(s.skip(k + 1)));
    }
}

/// First quote or backslash at or after `from`.
fn scan_escaped(s: &str, from: usize) -> (j: usize)
    requires
        from <= s@.len(),
    ensures
        j as int == text::spec_scan(s@, from as int, escaped_p()),
        from <= j <= s@.len(),
        j < s@.len() ==> is_escaped_char(s@[j as int]),
        forall|t: int| from <= t < j ==> !is_escaped_char(#[trigger] s@[t]),
{
    let n = s.unicode_len();
    let mut j = from;
    while j < n && s.get_char(j) != '"' && s.get_char(j) != '\\'
        invariant
            from <= j <= n,
            n == s@.len(),
            forall|t: int| from <= t < j ==> !is_escaped_char(#[trigger] s@[t]),
        decreases n - j,
    {
        j += 1;
    }
    proof {
        text::lemma_spec_scan_is(s@, from as int, escaped_p(), j as int);
    }
    j
}

/// Writes a text into a quoted field, escaping quotes and backslashes.
fn enc_escaped(out: &mut String, s: &str)
    ensures
        final(out)@ == old(out)@ + spec_escape(s@),
{
    let n = s.unicode_len();
    let mut i: usize = 0;
    while i < n
        invariant
            i <= n,
            n == s@.len(),
            out@ == old(out)@ + spec_escape(s@.take(i as int)),
        decreases n - i,
    {
        let j = scan_escaped(s, i);
        out.append(s.substring_char(i, j));
        proof {
            assert(s@.take(j as int) =~= s@.take(i as int) + s@.subrange(i as int, j as int));
            lemma_escape_concat(s@.take(i as int), s@.subrange(i as int, j as int));
            assert forall|t: int|
                0 <= t < s@.subrange(i as int, j as int).len() implies !is_escaped_char(
                #[trigger] s@.subrange(i as int, j as int)[t],
            ) by {
                assert(s@.subrange(i as int, j as int)[t] == s@[i + t]);
            }
            lemma_escape_clean(s@.subrange(i as int, j as int));
            assert(out@ =~= old(out)@ + spec_escape(s@.take(j as int)));
        }
        if j < n {
            out.append("\\");
            out.append(s.substring_char(j, j + 1));
            proof {
                reveal_strlit("\\");
                assert(s@.take(j + 1) =~= s@.take(j as int) + s@.subrange(j as int, j + 1));
                lemma_escape_concat(s@.take(j as int), s@.subrange(j as int, j + 1));
                assert(s@.subrange(j as int, j + 1)[0] == s@[j as int]);
                assert(s@.subrange(j as int, j + 1).skip(1) =~= Seq::<char>::empty());
                assert(spec_escape(Seq::<char>::empty()) =~= Seq::<char>::empty());
                assert(is_escaped_char(s@[j as int]));
                assert(seq!['\\', s@[j as int]] + Seq::<char>::empty() =~= seq![
                    '\\',
                    s@[j as int],
                ]);
                assert(spec_escape(s@.subrange(j as int, j + 1)) =~= seq![
                    '\\',
                    s@[j as int],
                ]);
                assert(out@ =~= old(out)@ + spec_escape(s@.take(j + 1)));
            }
            i = j + 1;
        } else {
            i = j;
        }
    }
    proof {
        assert(s@.take(n as int) =~= s@);
    }
}

/// The flattened key of one timing bucket: version, compiler mode and
/// profile mode, comma-joined.
pub open spec fn spec_enc_ct_key(k: CompileTimeKey) -> Seq<char> {
    k.version.spec_string() + ","@ + k.compiler_mode.spec_name() + ","@
        + k.profile_mode.spec_name()
}

/// The flattened key of one size entry: version and compiler mode,
/// comma-joined.
pub open spec fn spec_enc_sz_key(k: SizeKey) -> Seq<char> {
    k.version.spec_string() + ","@ + k.compiler_mode.spec_name()
}

/// A bucket's sample array.
pub open spec fn spec_enc_ms_array(vs: Seq<Milliseconds>) -> Seq<char> {
    "["@ + spec_enc_ms_list(vs) + "]"@
}

/// The samples of a bucket, comma-joined.
pub open spec fn spec_enc_ms_list(vs: Seq<Milliseconds>) -> Seq<char> {
    spec_enc_list(vs, ms_item_f(), ","@)
}

/// One timing-bucket line.
pub open spec fn spec_enc_ct_entry(e: (CompileTimeKey, Seq<Milliseconds>)) -> Seq<char> {
    "        \""@ + spec_enc_ct_key(e.0) + "\": "@ + spec_enc_ms_array(e.1)
}

/// Entry texts joined by a separator.
pub open spec fn spec_enc_list<T>(es: Seq<T>, f: spec_fn(T) -> Seq<char>, sep: Seq<char>) -> Seq<
    char,
>
    decreases es.len(),
{
    if es.len() == 0 {
        Seq::empty()
    } else if es.len() == 1 {
        f(es[0])
    } else {
        f(es[0]) + sep + spec_enc_list(es.skip(1), f, sep)
    }
}

pub open spec fn ms_item_f() -> spec_fn(Milliseconds) -> Seq<char> {
    |m: Milliseconds| text::spec_dec(m.0 as int)
}

pub open spec fn ct_entry_f() -> spec_fn((CompileTimeKey, Seq<Milliseconds>)) -> Seq<char> {
    |e: (CompileTimeKey, Seq<Milliseconds>)| spec_enc_ct_entry(e)
}

/// Timing-bucket lines, comma-joined.
pub open spec fn spec_enc_ct_entries(es: Seq<(CompileTimeKey, Seq<Milliseconds>)>) -> Seq<char> {
    spec_enc_list(es, ct_entry_f(), ",\n"@)
}

/// A record's timing map.
pub open spec fn spec_enc_ct_map(es: Seq<(CompileTimeKey, Seq<Milliseconds>)>) -> Seq<char> {
    if es.len() == 0 {
        "{}"@
    } else {
        "{\n"@ + spec_enc_ct_entries(es) + "\n      }"@
    }
}

/// One size line.
pub open spec fn spec_enc_sz_entry(e: (SizeKey, Bytes)) -> Seq<char> {
    "        \""@ + spec_enc_sz_key(e.0) + "\": "@ + text::spec_dec(e.1.0 as int)
}

pub open spec fn sz_entry_f() -> spec_fn((SizeKey, Bytes)) -> Seq<char> {
    |e: (SizeKey, Bytes)| spec_enc_sz_entry(e)
}

/// Size lines, comma-joined.
pub open spec fn spec_enc_sz_entries(es: Seq<(SizeKey, Bytes)>) -> Seq<char> {
    spec_enc_list(es, sz_entry_f(), ",\n"@)
}

/// A record's size map.
pub open spec fn spec_enc_sz_map(es: Seq<(SizeKey, Bytes)>) -> Seq<char> {
    if es.len() == 0 {
        "{}"@
    } else {
        "{\n"@ + spec_enc_sz_entries(es) + "\n      }"@
    }
}

/// One repo's record.
pub open spec fn spec_enc_profile(p: Profile) -> Seq<char> {
    "{\n      \"compile_times\": "@ + spec_enc_ct_map(p.ct_entries())
        + ",\n      \"output_sizes\": "@ + spec_enc_sz_map(p.sz_entries()) + "\n    }"@
}

/// One repo line.
pub open spec fn spec_enc_profile_entry(e: (Seq<char>, Profile)) -> Seq<char> {
    "    \""@ + spec_escape(e.0) + "\": "@ + spec_enc_profile(e.1)
}

pub open spec fn profile_entry_f() -> spec_fn((Seq<char>, Profile)) -> Seq<char> {
    |e: (Seq<char>, Profile)| spec_enc_profile_entry(e)
}

/// Repo lines, comma-joined.
pub open spec fn spec_enc_profile_entries(es: Seq<(Seq<char>, Profile)>) -> Seq<char> {
    spec_enc_list(es, profile_entry_f(), ",\n"@)
}

/// The record-set object.
pub open spec fn spec_enc_profiles(es: Seq<(Seq<char>, Profile)>) -> Seq<char> {
    if es.len() == 0 {
        "{}"@
    } else {
        "{\n"@ + spec_enc_profile_entries(es) + "\n  }"@
    }
}

/// A whole result file.
pub open spec fn spec_enc_result_file(si: SystemInfo, set: ProfileSet) -> Seq<char> {
    "{\n  \"system_info\": {\n    \"num_cores\": "@ + text::spec_dec(si.num_cores as int)
        + ",\n    \"num_physical_cores\": "@ + text::spec_dec(si.num_physical_cores as int)
        + ",\n    \"cpu_model\": \""@ + spec_escape(si.cpu_model@) + "\"\n  },\n  \"profiles\": "@
        + spec_enc_profiles(set.raw_entries()) + "\n}"@
}

/// Writes one timing key.
fn enc_ct_key(out: &mut String, k: CompileTimeKey)
    ensures
        final(out)@ == old(out)@ + spec_enc_ct_key(k),
{
    out.append(k.version.get_string());
    out.append(",");
    out.append(k.compiler_mode.name());
    out.append(",");
    out.append(k.profile_mode.name());
    proof {
        assert(out@ =~= old(out)@ + spec_enc_ct_key(k));
    }
}

/// Writes one size key.
fn enc_sz_key(out: &mut String, k: SizeKey)
    ensures
        final(out)@ == old(out)@ + spec_enc_sz_key(k),
{
    out.append(k.version.get_string());
    out.append(",");
    out.append(k.compiler_mode.name());
    proof {
        assert(out@ =~= old(out)@ + spec_enc_sz_key(k));
    }
}

/// Writes a bucket's sample array.
fn enc_ms_array(out: &mut String, vs: &Vec<Milliseconds>)
    ensures
        final(out)@ == old(out)@ + spec_enc_ms_array(vs@),
{
    out.append("[");
    let n = vs.len();
    let mut i: usize = 0;
    while i < n
        invariant
            i <= n,
            n == vs@.len(),
            out@ == old(out)@ + "["@ + spec_list_prefix(vs@, i as int, ms_item_f(), ","@),
        decreases n - i,
    {
        let d = text::u64_to_string(vs[i].0);
        out.append(d.as_str());
        if i + 1 < n {
            out.append(",");
        }
        proof {
            assert(ms_item_f()(vs@[i as int]) == text::spec_dec(vs@[i as int].0 as int));
            assert(out@ =~= old(out)@ + "["@ + spec_list_prefix(vs@, i + 1, ms_item_f(), ","@));
        }
        i += 1;
    }
    out.append("]");
    proof {
        if n > 0 {
            lemma_list_prefix_whole(vs@, ms_item_f(), ","@);
        } else {
            assert(spec_enc_ms_list(vs@) =~= Seq::<char>::empty());
        }
        assert(out@ =~= old(out)@ + spec_enc_ms_array(vs@));
    }
}

/// The list text written after `i` entries have been written, separators
/// included.
pub open spec fn spec_list_prefix<T>(
    es: Seq<T>,
    i: int,
    f: spec_fn(T) -> Seq<char>,
    sep: Seq<char>,
) -> Seq<char>
    decreases i,
{
    if i <= 0 {
        Seq::empty()
    } else if i == es.len() {
        spec_list_prefix(es, i - 1, f, sep) + f(es[i - 1])
    } else {
        spec_list_prefix(es, i - 1, f, sep) + f(es[i - 1]) + sep
    }
}

/// Writing entry by entry agrees with the recursive list encoding.
proof fn lemma_list_prefix_is_list<T>(es: Seq<T>, i: int, f: spec_fn(T) -> Seq<char>, sep: Seq<char>)
    requires
        0 < i <= es.len(),
    ensures
        spec_list_prefix(es, i, f, sep) + spec_enc_list(es.skip(i), f, sep) == spec_enc_list(
            es,
            f,
            sep,
        ),
    decreases i,
{
    if i == 1 {
        assert(spec_list_prefix(es, 0, f, sep) =~= Seq::<char>::empty());
        if es.len() == 1 {
            assert(es.skip(1).len() == 0);
            assert(spec_list_prefix(es, 1, f, sep) + spec_enc_list(es.skip(1), f, sep)
                =~= spec_enc_list(es, f, sep));
        } else {
            assert(spec_list_prefix(es, 1, f, sep) + spec_enc_list(es.skip(1), f, sep)
                =~= spec_enc_list(es, f, sep));
        }
    } else {
        lemma_list_prefix_is_list(es, i - 1, f, sep);
        lemma_enc_list_unroll(es, i - 1, f, sep);
        assert(spec_list_prefix(es, i, f, sep) + spec_enc_list(es.skip(i), f, sep)
            =~= spec_list_prefix(es, i - 1, f, sep) + spec_enc_list(es.skip(i - 1), f, sep));
    }
}

/// Unrolls the list encoding one entry at a time.
proof fn lemma_enc_list_unroll<T>(es: Seq<T>, i: int, f: spec_fn(T) -> Seq<char>, sep: Seq<char>)
    requires
        0 <= i < es.len(),
    ensures
        spec_enc_list(es.skip(i), f, sep) == if i + 1 == es.len() {
            f(es[i])
        } else {
            f(es[i]) + sep + spec_enc_list(es.skip(i + 1), f, sep)
        },
{
    assert(es.skip(i).len() == es.len() - i);
    assert(es.skip(i)[0] == es[i]);
    if i + 1 < es.len() {
        assert(es.skip(i).skip(1) =~= es.skip(i + 1));
    }
}

/// A fully written prefix is the whole list text.
proof fn lemma_list_prefix_whole<T>(es: Seq<T>, f: spec_fn(T) -> Seq<char>, sep: Seq<char>)
    requires
        es.len() > 0,
    ensures
        spec_list_prefix(es, es.len() as int, f, sep) == spec_enc_list(es, f, sep),
{
    lemma_list_prefix_is_list(es, es.len() as int, f, sep);
    assert(spec_enc_list(es.skip(es.len() as int), f, sep) =~= Seq::<char>::empty());
    assert(spec_list_prefix(es, es.len() as int, f, sep) + Seq::<char>::empty()
        =~= spec_list_prefix(es, es.len() as int, f, sep));
}

/// Writes a record's timing map.
fn enc_ct_map(out: &mut String, p: &Profile)
    ensures
        final(out)@ == old(out)@ + spec_enc_ct_map(p.ct_entries()),
{
    let ghost es = p.ct_entries();
    let n = p.compile_times_len();
    if n == 0 {
        out.append("{}");
        proof {
            assert(out@ =~= old(out)@ + spec_enc_ct_map(es));
        }
        return ;
    }
    out.append("{\n");
    let mut i: usize = 0;
    while i < n
        invariant
            0 < n == es.len(),
            i <= n,
            es == p.ct_entries(),
            out@ == old(out)@ + "{\n"@ + spec_list_prefix(es, i as int, ct_entry_f(), ",\n"@),
        decreases n - i,
    {
        let (k, vs) = p.compile_times_at(i);
        out.append("        \"");
        enc_ct_key(out, k);
        out.append("\": ");
        enc_ms_array(out, vs);
        if i + 1 < n {
            out.append(",\n");
        }
        proof {
            assert(ct_entry_f()(es[i as int]) == spec_enc_ct_entry(es[i as int]));
            assert(out@ =~= old(out)@ + "{\n"@ + spec_list_prefix(es, i + 1, ct_entry_f(), ",\n"@));
        }
        i += 1;
    }
    out.append("\n      }");
    proof {
        lemma_list_prefix_whole(es, ct_entry_f(), ",\n"@);
        assert(out@ =~= old(out)@ + spec_enc_ct_map(es));
    }
}

/// Writes a record's size map.
fn enc_sz_map(out: &mut String, p: &Profile)
    ensures
        final(out)@ == old(out)@ + spec_enc_sz_map(p.sz_entries()),
{
    let ghost es = p.sz_entries();
    let n = p.output_sizes_len();
    if n == 0 {
        out.append("{}");
        proof {
            assert(out@ =~= old(out)@ + spec_enc_sz_map(es));
        }
        return ;
    }
    out.append("{\n");
    let mut i: usize = 0;
    while i < n
        invariant
            0 < n == es.len(),
            i <= n,
            es == p.sz_entries(),
            out@ == old(out)@ + "{\n"@ + spec_list_prefix(es, i as int, sz_entry_f(), ",\n"@),
        decreases n - i,
    {
        let (k, b) = p.output_sizes_at(i);
        out.append("        \"");
        enc_sz_key(out, k);
        out.append("\": ");
        let d = text::u64_to_string(b.0);
        out.append(d.as_str());
        if i + 1 < n {
            out.append(",\n");
        }
        proof {
            assert(sz_entry_f()(es[i as int]) == spec_enc_sz_entry(es[i as int]));
            assert(out@ =~= old(out)@ + "{\n"@ + spec_list_prefix(es, i + 1, sz_entry_f(), ",\n"@));
        }
        i += 1;
    }
    out.append("\n      }");
    proof {
        lemma_list_prefix_whole(es, sz_entry_f(), ",\n"@);
        assert(out@ =~= old(out)@ + spec_enc_sz_map(es));
    }
}

/// Writes one repo's record.
fn enc_profile(out: &mut String, p: &Profile)
    ensures
        final(out)@ == old(out)@ + spec_enc_profile(*p),
{
    out.append("{\n      \"compile_times\": ");
    enc_ct_map(out, p);
    out.append(",\n      \"output_sizes\": ");
    enc_sz_map(out, p);
    out.append("\n    }");
    proof {
        assert(out@ =~= old(out)@ + spec_enc_profile(*p));
    }
}

/// Writes the record-set object.
#[verifier::rlimit(30)]
fn enc_profiles(out: &mut String, set: &ProfileSet)
    ensures
        final(out)@ == old(out)@ + spec_enc_profiles(set.raw_entries()),
{
    let ghost es = set.raw_entries();
    let n = set.len();
    proof {
        crate::store::lemma_set_entry_views(*set);
    }
    if n == 0 {
        out.append("{}");
        proof {
            assert(out@ =~= old(out)@ + spec_enc_profiles(es));
        }
        return ;
    }
    out.append("{\n");
    let mut i: usize = 0;
    while i < n
        invariant
            0 < n == es.len(),
            i <= n,
            es == set.raw_entries(),
            set.entries().len() == es.len(),
            out@ == old(out)@ + "{\n"@ + spec_list_prefix(es, i as int, profile_entry_f(), ",\n"@),
        decreases n - i,
    {
        let name = set.name_at(i);
        proof {
            crate::store::lemma_set_entry_views(*set);
        }
        let p = set.profile_at(i);
        out.append("    \"");
        enc_escaped(out, name.as_str());
        out.append("\": ");
        enc_profile(out, p);
        if i + 1 < n {
            out.append(",\n");
        }
        proof {
            assert(profile_entry_f()(es[i as int]) == spec_enc_profile_entry(es[i as int]));
            assert(out@ =~= old(out)@ + "{\n"@ + spec_list_prefix(
                es,
                i + 1,
                profile_entry_f(),
                ",\n"@,
            ));
        }
        i += 1;
    }
    out.append("\n  }");
    proof {
        lemma_list_prefix_whole(es, profile_entry_f(), ",\n"@);
        assert(out@ =~= old(out)@ + spec_enc_profiles(es));
    }
}

/// Writes a whole result file: the host identity, then every repo's record,
/// in a fixed layout with deterministic entry order.
pub fn encode_result_file(si: &SystemInfo, set: &ProfileSet) -> (out: String)
    ensures
        out@ == spec_enc_result_file(*si, *set),
{
    let mut out = String::new();
    out.append("{\n  \"system_info\": {\n    \"num_cores\": ");
    let d1 = text::u64_to_string(si.num_cores as u64);
    out.append(d1.as_str());
    out.append(",\n    \"num_physical_cores\": ");
    let d2 = text::u64_to_string(si.num_physical_cores as u64);
    out.append(d2.as_str());
    out.append(",\n    \"cpu_model\": \"");
    enc_escaped(&mut out, si.cpu_model.as_str());
    out.append("\"\n  },\n  \"profiles\": ");
    enc_profiles(&mut out, set);
    out.append("\n}");
    proof {
        assert(out@ =~= spec_enc_result_file(*si, *set));
    }
    out
}

pub open spec fn quote_p() -> spec_fn(char) -> bool {
    |c: char| c == '"'
}

pub open spec fn nondigit_cp() -> spec_fn(char) -> bool {
    |c: char| !text::is_digit(c)
}

/// Consumes an expected literal.
fn expect_lit(s: &str, pos: usize, lit: &str) -> (r: Option<usize>)
    requires
        pos <= s@.len(),
    ensures
        match r {
            Some(p2) => text::spec_match_at(s@, pos as int, lit@) && p2 == pos + lit@.len() && p2
                <= s@.len(),
            None => !text::spec_match_at(s@, pos as int, lit@),
        },
{
    let n = s.unicode_len();
    let m = lit.unicode_len();
    if text::match_at(s, pos, lit) {
        Some(pos + m)
    } else {
        None
    }
}

/// First non-digit at or after `from`.
fn scan_nondigit_cp(s: &str, from: usize) -> (j: usize)
    requires
        from <= s@.len(),
    ensures
        j as int == text::spec_scan(s@, from as int, nondigit_cp()),
        from <= j <= s@.len(),
        j < s@.len() ==> !text::is_digit(s@[j as int]),
        forall|t: int| from <= t < j ==> text::is_digit(#[trigger] s@[t]),
{
    let n = s.unicode_len();
    let mut j = from;
    while j < n && '0' <= s.get_char(j) && s.get_char(j) <= '9'
        invariant
            from <= j <= n,
            n == s@.len(),
            forall|t: int| from <= t < j ==> text::is_digit(#[trigger] s@[t]),
        decreases n - j,
    {
        j += 1;
    }
    proof {
        text::lemma_spec_scan_is(s@, from as int, nondigit_cp(), j as int);
    }
    j
}

/// Reads a decimal number.
fn dec_u64(s: &str, pos: usize) -> (r: Option<(u64, usize)>)
    requires
        pos <= s@.len(),
    ensures
        ({
            let e = text::spec_scan(s@, pos as int, nondigit_cp());
            match r {
                Some(v) => {
                    &&& pos < e <= s@.len()
                    &&& v.1 == e
                    &&& v.0 as int == text::spec_digits_val(s@.subrange(pos as int, e))
                },
                None => e == pos || text::spec_digits_val(s@.subrange(pos as int, e))
                    >= 0x1_0000_0000_0000_0000,
            }
        }),
{
    let e = scan_nondigit_cp(s, pos);
    if e == pos {
        return None;
    }
    proof {
        let sub = s@.subrange(pos as int, e as int);
        assert forall|t: int| 0 <= t < sub.len() implies text::is_digit(#[trigger] sub[t]) by {
            assert(sub[t] == s@[pos + t]);
        }
        text::lemma_digits_val_bounds(sub);
    }
    match text::digits_to_u64(s, pos, e) {
        Some(v) => Some((v, e)),
        None => None,
    }
}

/// Reads characters up to the next quote, consuming it.
fn dec_name(s: &str, pos: usize) -> (r: Option<(String, usize)>)
    requires
        pos <= s@.len(),
    ensures
        ({
            let q = text::spec_scan(s@, pos as int, quote_p());
            match r {
                Some(v) => {
                    &&& q < s@.len()
                    &&& pos <= q
                    &&& v.0@ == s@.subrange(pos as int, q)
                    &&& v.1 == q + 1 <= s@.len()
                },
                None => q == s@.len(),
            }
        }),
{
    let n = s.unicode_len();
    let mut j = pos;
    while j < n && s.get_char(j) != '"'
        invariant
            pos <= j <= n,
            n == s@.len(),
            forall|t: int| pos <= t < j ==> s@[t] != '"',
        decreases n - j,
    {
        j += 1;
    }
    proof {
        text::lemma_spec_scan_is(s@, pos as int, quote_p(), j as int);
    }
    if j == n {
        return None;
    }
    let m = s.substring_char(pos, j).to_owned();
    proof {
        assert(m@ =~= s@.subrange(pos as int, j as int));
    }
    Some((m, j + 1))
}

/// How a flattened timing key is laid out.
#[verifier::rlimit(50)]
proof fn lemma_ct_key_structure(q: Seq<char>, k: CompileTimeKey)
    requires
        q == spec_enc_ct_key(k),
    ensures
        ({
            let vs = k.version.spec_string();
            let cm = k.compiler_mode.spec_name();
            let pm = k.profile_mode.spec_name();
            &&& q.len() == 8 + cm.len() + pm.len()
            &&& q.subrange(0int, 6int) == vs
            &&& q.subrange(7int, 7 + cm.len() as int) == cm
            &&& q.subrange(8 + cm.len() as int, q.len() as int) == pm
            &&& text::spec_scan(q, 0, comma_p()) == 6
            &&& text::spec_scan(q, 7, comma_p()) == 7 + cm.len()
            &&& forall|t: int| 8 + cm.len() as int <= t < q.len() ==> #[trigger] q[t] != ','
        }),
{
    reveal_strlit(",");
    let vs = k.version.spec_string();
    let cm = k.compiler_mode.spec_name();
    let pm = k.profile_mode.spec_name();
    rustup::lemma_version_string_shape(k.version);
    crate::cargo::lemma_compiler_mode_name_shape(k.compiler_mode);
    crate::cargo::lemma_profile_mode_name_shape(k.profile_mode);
    assert(text::spec_match_at(q, 0, q)) by {
        assert(q.subrange(0, q.len() as int) =~= q);
    }
    assert(q =~= (vs + ","@ + cm + ","@) + pm);
    text::lemma_match_at_split(q, 0, vs + ","@ + cm + ","@, pm);
    assert(vs + ","@ + cm + ","@ =~= (vs + ","@ + cm) + ","@);
    text::lemma_match_at_split(q, 0, vs + ","@ + cm, ","@);
    assert(vs + ","@ + cm =~= (vs + ","@) + cm);
    text::lemma_match_at_split(q, 0, vs + ","@, cm);
    text::lemma_match_at_split(q, 0, vs, ","@);
    assert(q.subrange(0int, 6int) == vs);
    assert(q[6] == ","@[0]);
    assert(q.subrange(7int, 7 + cm.len() as int) == cm);
    assert(q[7 + cm.len() as int] == ","@[0]);
    assert(q.subrange(8 + cm.len() as int, q.len() as int) == pm) by {
        assert(text::spec_match_at(q, 8 + cm.len() as int, pm));
        assert(q.subrange(8 + cm.len() as int, 8 + cm.len() + pm.len() as int) == pm);
        assert(8 + cm.len() + pm.len() == q.len());
    }
    assert forall|t: int| 0 <= t < 6 implies #[trigger] q[t] != ',' by {
        assert(q.subrange(0int, 6int)[t] == q[t]);
        assert(vs[t] != ',');
    }
    text::lemma_spec_scan_is(q, 0, comma_p(), 6);
    assert forall|t: int| 7 <= t < 7 + cm.len() implies #[trigger] q[t] != ',' by {
        assert(q.subrange(7int, 7 + cm.len() as int)[t - 7] == q[t]);
        assert(cm[t - 7] != ',');
    }
    text::lemma_spec_scan_is(q, 7, comma_p(), 7 + cm.len() as int);
    assert forall|t: int| 8 + cm.len() as int <= t < q.len() implies #[trigger] q[t] != ',' by {
        assert(q.subrange(8 + cm.len() as int, q.len() as int)[t - 8 - cm.len()] == q[t]);
        assert(pm[t - 8 - cm.len()] != ',');
    }
}

pub open spec fn comma_p() -> spec_fn(char) -> bool {
    |c: char| c == ','
}

/// First comma at or after `from`.
fn scan_comma(s: &str, from: usize) -> (j: usize)
    requires
        from <= s@.len(),
    ensures
        j as int == text::spec_scan(s@, from as int, comma_p()),
        from <= j <= s@.len(),
{
    let n = s.unicode_len();
    let mut j = from;
    while j < n && s.get_char(j) != ','
        invariant
            from <= j <= n,
            n == s@.len(),
            forall|t: int| from <= t < j ==> s@[t] != ',',
        decreases n - j,
    {
        j += 1;
    }
    proof {
        text::lemma_spec_scan_is(s@, from as int, comma_p(), j as int);
    }
    j
}

/// Reads a flattened timing key back.
fn parse_ct_key(q: &str) -> (r: Option<CompileTimeKey>)
    ensures
        forall|k: CompileTimeKey| q@ == spec_enc_ct_key(k) ==> r == Some(k),
{
    let n = q.unicode_len();
    let c1 = scan_comma(q, 0);
    if c1 == n {
        proof {
            assert forall|k: CompileTimeKey| q@ == spec_enc_ct_key(k) implies false by {
                lemma_ct_key_structure(q@, k);
            }
        }
        return None;
    }
    let vsub = q.substring_char(0, c1);
    let vr = rustup::version_from_str(vsub);
    let c2 = scan_comma(q, c1 + 1);
    if c2 == n {
        proof {
            assert forall|k: CompileTimeKey| q@ == spec_enc_ct_key(k) implies false by {
                lemma_ct_key_structure(q@, k);
            }
        }
        return None;
    }
    let csub = q.substring_char(c1 + 1, c2);
    let cr = CompilerMode::from_str(csub);
    let psub = q.substring_char(c2 + 1, n);
    let pr = ProfileMode::from_str(psub);
    let out = match (vr, cr, pr) {
        (Some(v), Some(c), Some(p)) => Some(
            CompileTimeKey { version: v, compiler_mode: c, profile_mode: p },
        ),
        _ => None,
    };
    proof {
        assert forall|k: CompileTimeKey| q@ == spec_enc_ct_key(k) implies out == Some(k) by {
            lemma_ct_key_structure(q@, k);
            assert(c1 == 6);
            assert(vsub@ == k.version.spec_string());
            rustup::lemma_version_string_round_trip(k.version);
            assert(c2 == 7 + k.compiler_mode.spec_name().len());
            assert(csub@ == k.compiler_mode.spec_name());
            crate::cargo::lemma_compiler_mode_name_round_trip(k.compiler_mode);
            assert(psub@ == k.profile_mode.spec_name());
            crate::cargo::lemma_profile_mode_name_round_trip(k.profile_mode);
        }
    }
    out
}

/// How a flattened size key is laid out.
#[verifier::rlimit(50)]
proof fn lemma_sz_key_structure(q: Seq<char>, k: SizeKey)
    requires
        q == spec_enc_sz_key(k),
    ensures
        ({
            let vs = k.version.spec_string();
            let cm = k.compiler_mode.spec_name();
            &&& q.len() == 7 + cm.len()
            &&& q.subrange(0int, 6int) == vs
            &&& q.subrange(7int, q.len() as int) == cm
            &&& text::spec_scan(q, 0, comma_p()) == 6
            &&& forall|t: int| 7 <= t < q.len() ==> #[trigger] q[t] != ','
        }),
{
    reveal_strlit(",");
    let vs = k.version.spec_string();
    let cm = k.compiler_mode.spec_name();
    rustup::lemma_version_string_shape(k.version);
    crate::cargo::lemma_compiler_mode_name_shape(k.compiler_mode);
    assert(text::spec_match_at(q, 0, q)) by {
        assert(q.subrange(0, q.len() as int) =~= q);
    }
    assert(q =~= (vs + ","@) + cm);
    text::lemma_match_at_split(q, 0, vs + ","@, cm);
    text::lemma_match_at_split(q, 0, vs, ","@);
    assert(q.subrange(0int, 6int) == vs);
    assert(q[6] == ","@[0]);
    assert(q.subrange(7int, q.len() as int) == cm) by {
        assert(text::spec_match_at(q, 7, cm));
        assert(q.subrange(7int, 7 + cm.len() as int) == cm);
        assert(7 + cm.len() == q.len());
    }
    assert forall|t: int| 0 <= t < 6 implies #[trigger] q[t] != ',' by {
        assert(q.subrange(0int, 6int)[t] == q[t]);
        assert(vs[t] != ',');
    }
    text::lemma_spec_scan_is(q, 0, comma_p(), 6);
    assert forall|t: int| 7 <= t < q.len() implies #[trigger] q[t] != ',' by {
        assert(q.subrange(7int, q.len() as int)[t - 7] == q[t]);
        assert(cm[t - 7] != ',');
    }
}

/// Reads a flattened size key back.
fn parse_sz_key(q: &str) -> (r: Option<SizeKey>)
    ensures
        forall|k: SizeKey| q@ == spec_enc_sz_key(k) ==> r == Some(k),
{
    let n = q.unicode_len();
    let c1 = scan_comma(q, 0);
    if c1 == n {
        proof {
            assert forall|k: SizeKey| q@ == spec_enc_sz_key(k) implies false by {
                lemma_sz_key_structure(q@, k);
            }
        }
        return None;
    }
    let vsub = q.substring_char(0, c1);
    let vr = rustup::version_from_str(vsub);
    let csub = q.substring_char(c1 + 1, n);
    let cr = CompilerMode::from_str(csub);
    let out = match (vr, cr) {
        (Some(v), Some(c)) => Some(SizeKey { version: v, compiler_mode: c }),
        _ => None,
    };
    proof {
        assert forall|k: SizeKey| q@ == spec_enc_sz_key(k) implies out == Some(k) by {
            lemma_sz_key_structure(q@, k);
            assert(c1 == 6);
            assert(vsub@ == k.version.spec_string());
            rustup::lemma_version_string_round_trip(k.version);
            assert(csub@ == k.compiler_mode.spec_name());
            crate::cargo::lemma_compiler_mode_name_round_trip(k.compiler_mode);
        }
    }
    out
}

/// Reads the samples of a bucket after the opening bracket, consuming the
/// closing one. Whatever it returns, on the text the encoder writes for a
/// non-empty bucket it returns exactly that bucket appended to `acc`.
fn dec_ms_items(s: &str, pos: usize, acc: Vec<Milliseconds>) -> (r: Option<
    (Vec<Milliseconds>, usize),
>)
    requires
        pos <= s@.len(),
    ensures
        match r {
            Some(v) => pos < v.1 <= s@.len(),
            None => true,
        },
        forall|vs: Seq<Milliseconds>|
            vs.len() > 0 && text::spec_match_at(
                s@,
                pos as int,
                #[trigger] spec_enc_ms_list(vs) + "]"@,
            ) ==> match r {
                Some(v) => v.0@ == acc@ + vs && v.1 == pos + spec_enc_ms_list(vs).len() + 1,
                None => false,
            },
    decreases s@.len() - pos,
{
    let n = s.unicode_len();
    let first = dec_u64(s, pos);
    proof {
        assert forall|vs: Seq<Milliseconds>|
            vs.len() > 0 && text::spec_match_at(
                s@,
                pos as int,
                #[trigger] spec_enc_ms_list(vs) + "]"@,
            ) implies first == Some((vs[0].0, (pos + text::spec_dec(vs[0].0 as int).len()) as usize))
            && (pos + text::spec_dec(vs[0].0 as int).len()) < s@.len() by {
            lemma_first_item_pinned(s@, pos as int, vs);
        }
    }
    match first {
        None => None,
        Some((v, p)) => {
            if p == n {
                return None;
            }
            let c = s.get_char(p);
            if c == ',' {
                let mut acc2 = acc;
                acc2.push(Milliseconds(v));
                let ghost acc2v = acc2@;
                let rec = dec_ms_items(s, p + 1, acc2);
                proof {
                    assert forall|vs: Seq<Milliseconds>|
                        vs.len() > 0 && text::spec_match_at(
                            s@,
                            pos as int,
                            #[trigger] spec_enc_ms_list(vs) + "]"@,
                        ) implies match rec {
                        Some(w) => w.0@ == acc@ + vs && w.1 == pos + spec_enc_ms_list(vs).len()
                            + 1,
                        None => false,
                    } by {
                        lemma_first_item_pinned(s@, pos as int, vs);
                        let l0 = text::spec_dec(vs[0].0 as int).len() as int;
                        if vs.len() == 1 {
                            // the character after the number would be the closing bracket
                            reveal_strlit("]");
                            assert(s@[pos + l0] == ']');
                            assert(false);
                        } else {
                            reveal_strlit(",");
                            let restl = spec_enc_ms_list(vs.skip(1));
                            assert(spec_enc_ms_list(vs) + "]"@ =~= text::spec_dec(vs[0].0 as int)
                                + ","@ + (restl + "]"@));
                            text::lemma_match_at_split(
                                s@,
                                pos as int,
                                text::spec_dec(vs[0].0 as int) + ","@,
                                restl + "]"@,
                            );
                            text::lemma_match_at_split(
                                s@,
                                pos as int,
                                text::spec_dec(vs[0].0 as int),
                                ","@,
                            );
                            assert(vs.skip(1).len() > 0);
                            assert(text::spec_match_at(s@, p + 1, restl + "]"@));
                            assert(acc2v == acc@.push(vs[0]));
                            assert(acc2v + vs.skip(1) =~= acc@ + vs);
                        }
                    }
                }
                rec
            } else if c == ']' {
                let mut acc2 = acc;
                acc2.push(Milliseconds(v));
                let out = Some((acc2, p + 1));
                proof {
                    assert forall|vs: Seq<Milliseconds>|
                        vs.len() > 0 && text::spec_match_at(
                            s@,
                            pos as int,
                            #[trigger] spec_enc_ms_list(vs) + "]"@,
                        ) implies match out {
                        Some(w) => w.0@ == acc@ + vs && w.1 == pos + spec_enc_ms_list(vs).len()
                            + 1,
                        None => false,
                    } by {
                        lemma_first_item_pinned(s@, pos as int, vs);
                        let l0 = text::spec_dec(vs[0].0 as int).len() as int;
                        if vs.len() == 1 {
                            assert(acc@.push(vs[0]) =~= acc@ + vs);
                        } else {
                            reveal_strlit(",");
                            assert(s@[pos + l0] == ',');
                            assert(false);
                        }
                    }
                }
                out
            } else {
                proof {
                    assert forall|vs: Seq<Milliseconds>|
                        vs.len() > 0 && text::spec_match_at(
                            s@,
                            pos as int,
                            #[trigger] spec_enc_ms_list(vs) + "]"@,
                        ) implies false by {
                        lemma_first_item_pinned(s@, pos as int, vs);
                        let l0 = text::spec_dec(vs[0].0 as int).len() as int;
                        reveal_strlit(",");
                        reveal_strlit("]");
                        if vs.len() == 1 {
                            assert(s@[pos + l0] == ']');
                        } else {
                            assert(s@[pos + l0] == ',');
                        }
                    }
                }
                None
            }
        },
    }
}

/// On encoder output, the first sample of a bucket sits at the read
/// position as a digit run followed by a comma or the closing bracket.
proof fn lemma_first_item_pinned(s: Seq<char>, pos: int, vs: Seq<Milliseconds>)
    requires
        vs.len() > 0,
        text::spec_match_at(s, pos, spec_enc_ms_list(vs) + "]"@),
    ensures
        ({
            let d0 = text::spec_dec(vs[0].0 as int);
            &&& 0 <= pos
            &&& pos + d0.len() < s.len()
            &&& text::spec_scan(s, pos, nondigit_cp()) == pos + d0.len()
            &&& text::spec_digits_val(s.subrange(pos, pos + d0.len() as int)) == vs[0].0 as int
            &&& (if vs.len() == 1 {
                s[pos + d0.len()] == ']'
            } else {
                s[pos + d0.len()] == ','
            })
            &&& spec_enc_ms_list(vs).len() == if vs.len() == 1 {
                d0.len() as int
            } else {
                d0.len() + 1 + spec_enc_ms_list(vs.skip(1)).len() as int
            }
        }),
{
    reveal_strlit(",");
    reveal_strlit("]");
    let d0 = text::spec_dec(vs[0].0 as int);
    text::lemma_dec_digits(vs[0].0 as int);
    assert(ms_item_f()(vs[0]) == d0);
    if vs.len() == 1 {
        assert(spec_enc_ms_list(vs) == d0);
        text::lemma_match_at_split(s, pos, d0, "]"@);
        assert(s.subrange(pos, pos + d0.len() as int) == d0);
        text::lemma_match_char(s, pos + d0.len(), "]"@);
        assert(s[pos + d0.len()] == ']');
    } else {
        let restl = spec_enc_ms_list(vs.skip(1));
        assert(spec_enc_ms_list(vs) == d0 + ","@ + restl);
        assert(spec_enc_ms_list(vs) + "]"@ =~= d0 + (","@ + (restl + "]"@)));
        text::lemma_match_at_split(s, pos, d0, ","@ + (restl + "]"@));
        text::lemma_match_at_split(s, pos + d0.len(), ","@, restl + "]"@);
        assert(s.subrange(pos, pos + d0.len() as int) == d0);
        text::lemma_match_char(s, pos + d0.len(), ","@);
        assert(s[pos + d0.len()] == ',');
    }
    assert forall|t: int| pos <= t < pos + d0.len() implies text::is_digit(#[trigger] s[t]) by {
        assert(s.subrange(pos, pos + d0.len() as int)[t - pos] == s[t]);
    }
    text::lemma_spec_scan_is(s, pos, nondigit_cp(), pos + d0.len());
    assert(s.subrange(pos, pos + d0.len() as int) == d0);
}

/// Reads a bucket's sample array. On the text the encoder writes it returns
/// exactly the encoded bucket.
fn dec_ms_array(s: &str, pos: usize) -> (r: Option<(Vec<Milliseconds>, usize)>)
    requires
        pos <= s@.len(),
    ensures
        match r {
            Some(v) => pos < v.1 <= s@.len(),
            None => true,
        },
        forall|vs: Seq<Milliseconds>|
            text::spec_match_at(s@, pos as int, #[trigger] spec_enc_ms_array(vs)) ==> match r {
                Some(v) => v.0@ == vs && v.1 == pos + spec_enc_ms_array(vs).len(),
                None => false,
            },
{
    let n = s.unicode_len();
    let p1 = match expect_lit(s, pos, "[") {
        Some(p1) => p1,
        None => {
            proof {
                assert forall|vs: Seq<Milliseconds>|
                    text::spec_match_at(s@, pos as int, #[trigger] spec_enc_ms_array(vs)) implies false by {
                    text::lemma_match_at_split(
                        s@,
                        pos as int,
                        "["@,
                        spec_enc_ms_list(vs) + "]"@,
                    );
                    assert(spec_enc_ms_array(vs) =~= "["@ + (spec_enc_ms_list(vs) + "]"@));
                }
            }
            return None;
        },
    };
    if p1 < n && s.get_char(p1) == ']' {
        let out = Some((Vec::<Milliseconds>::new(), p1 + 1));
        proof {
            reveal_strlit("[");
            reveal_strlit("]");
            assert forall|vs: Seq<Milliseconds>|
                text::spec_match_at(s@, pos as int, #[trigger] spec_enc_ms_array(vs)) implies match out {
                Some(v) => v.0@ == vs && v.1 == pos + spec_enc_ms_array(vs).len(),
                None => false,
            } by {
                assert(spec_enc_ms_array(vs) =~= "["@ + (spec_enc_ms_list(vs) + "]"@));
                text::lemma_match_at_split(s@, pos as int, "["@, spec_enc_ms_list(vs) + "]"@);
                if vs.len() > 0 {
                    lemma_first_item_pinned(s@, p1 as int, vs);
                    text::lemma_dec_digits(vs[0].0 as int);
                    let d0 = text::spec_dec(vs[0].0 as int);
                    assert(s@[p1 as int] == s@.subrange(p1 as int, p1 + d0.len() as int)[0]);
                    assert(text::is_digit(s@[p1 as int]));
                    assert(false);
                } else {
                    assert(spec_enc_ms_list(vs) =~= Seq::<char>::empty());
                    assert(Seq::<char>::empty() + "]"@ =~= "]"@);
                }
            }
        }
        return out;
    }
    let out = dec_ms_items(s, p1, Vec::new());
    proof {
        reveal_strlit("[");
        reveal_strlit("]");
        assert forall|vs: Seq<Milliseconds>|
            text::spec_match_at(s@, pos as int, #[trigger] spec_enc_ms_array(vs)) implies match out {
            Some(v) => v.0@ == vs && v.1 == pos + spec_enc_ms_array(vs).len(),
            None => false,
        } by {
            assert(spec_enc_ms_array(vs) =~= "["@ + (spec_enc_ms_list(vs) + "]"@));
            text::lemma_match_at_split(s@, pos as int, "["@, spec_enc_ms_list(vs) + "]"@);
            if vs.len() == 0 {
                assert(spec_enc_ms_list(vs) =~= Seq::<char>::empty());
                assert(Seq::<char>::empty() + "]"@ =~= "]"@);
                text::lemma_match_char(s@, p1 as int, "]"@);
                assert(s@[p1 as int] == ']');
                assert(false);
            } else {
                assert(Seq::<Milliseconds>::empty() + vs =~= vs);
            }
        }
    }
    out
}

/// A flattened timing key holds no quote character.
proof fn lemma_ct_key_text_ok(k: CompileTimeKey)
    ensures
        spec_text_ok(spec_enc_ct_key(k)),
{
    reveal_strlit(",");
    let q = spec_enc_ct_key(k);
    lemma_ct_key_structure(q, k);
    rustup::lemma_version_string_shape(k.version);
    crate::cargo::lemma_compiler_mode_name_shape(k.compiler_mode);
    crate::cargo::lemma_profile_mode_name_shape(k.profile_mode);
    let cm = k.compiler_mode.spec_name();
    assert forall|t: int| 0 <= t < q.len() implies q[t] != '"' by {
        if t < 6 {
            assert(q.subrange(0int, 6int)[t] == q[t]);
        } else if t == 6 {
            assert(q[6] != '"');
        } else if t < 7 + cm.len() {
            assert(q.subrange(7int, 7 + cm.len() as int)[t - 7] == q[t]);
        } else if t == 7 + cm.len() {
            assert(text::spec_scan(q, 7, comma_p()) == 7 + cm.len());
            text::lemma_spec_scan(q, 7, comma_p());
            assert(q[t] == ',');
        } else {
            assert(q.subrange(8 + cm.len() as int, q.len() as int)[t - 8 - cm.len()] == q[t]);
        }
    }
}

/// A flattened size key holds no quote character.
proof fn lemma_sz_key_text_ok(k: SizeKey)
    ensures
        spec_text_ok(spec_enc_sz_key(k)),
{
    reveal_strlit(",");
    let q = spec_enc_sz_key(k);
    lemma_sz_key_structure(q, k);
    rustup::lemma_version_string_shape(k.version);
    crate::cargo::lemma_compiler_mode_name_shape(k.compiler_mode);
    assert forall|t: int| 0 <= t < q.len() implies q[t] != '"' by {
        if t < 6 {
            assert(q.subrange(0int, 6int)[t] == q[t]);
        } else if t == 6 {
            assert(q[6] != '"');
        } else {
            assert(q.subrange(7int, q.len() as int)[t - 7] == q[t]);
        }
    }
}

/// On encoder output, the first timing entry of a non-empty map sits at the
/// read position: indent and quote, then its key, quote-colon, its array, and
/// a separator or the closing text.
#[verifier::rlimit(100)]
proof fn lemma_first_ct_entry_pinned(
    s: Seq<char>,
    pos: int,
    es: Seq<(CompileTimeKey, Seq<Milliseconds>)>,
    close: Seq<char>,
)
    requires
        es.len() > 0,
        close.len() >= 1,
        close[0] == '\n',
        text::spec_match_at(s, pos, spec_enc_ct_entries(es) + close),
    ensures
        ({
            let key = spec_enc_ct_key(es[0].0);
            let arr = spec_enc_ms_array(es[0].1);
            let e0 = spec_enc_ct_entry(es[0]);
            &&& 0 <= pos
            &&& e0.len() == 12 + key.len() + arr.len()
            &&& text::spec_match_at(s, pos, "        \""@)
            &&& text::spec_scan(s, pos + 9, quote_p()) == pos + 9 + key.len()
            &&& pos + 9 + key.len() < s.len()
            &&& s.subrange(pos + 9, pos + 9 + key.len() as int) == key
            &&& text::spec_match_at(s, pos + 10 + key.len(), ": "@)
            &&& text::spec_match_at(s, pos + 12 + key.len(), arr)
            &&& s[pos + e0.len()] == (if es.len() == 1 {
                '\n'
            } else {
                ','
            })
            &&& (es.len() > 1 ==> text::spec_match_at(s, pos + e0.len(), ",\n"@)
                && text::spec_match_at(
                s,
                pos + e0.len() + 2,
                spec_enc_ct_entries(es.skip(1)) + close,
            ))
            &&& (es.len() == 1 ==> text::spec_match_at(s, pos + e0.len(), close))
            &&& spec_enc_ct_entries(es).len() == (if es.len() == 1 {
                e0.len() as int
            } else {
                e0.len() + 2 + spec_enc_ct_entries(es.skip(1)).len() as int
            })
        }),
{
    reveal_strlit("        \"");
    reveal_strlit("\": ");
    reveal_strlit(": ");
    reveal_strlit(",\n");
    let key = spec_enc_ct_key(es[0].0);
    let arr = spec_enc_ms_array(es[0].1);
    let e0 = spec_enc_ct_entry(es[0]);
    assert(ct_entry_f()(es[0]) == e0);
    let rest: Seq<char> = if es.len() == 1 {
        close
    } else {
        ",\n"@ + (spec_enc_ct_entries(es.skip(1)) + close)
    };
    assert(text::spec_match_at(s, pos, e0 + rest)) by {
        if es.len() == 1 {
            assert(spec_enc_ct_entries(es) + close =~= e0 + rest);
        } else {
            assert(spec_enc_ct_entries(es) + close =~= e0 + rest);
        }
    }
    text::lemma_match_at_split(s, pos, e0, rest);
    assert(e0 =~= ("        \""@ + key + "\": "@) + arr);
    text::lemma_match_at_split(s, pos, "        \""@ + key + "\": "@, arr);
    assert("        \""@ + key + "\": "@ =~= ("        \""@ + key) + "\": "@);
    text::lemma_match_at_split(s, pos, "        \""@ + key, "\": "@);
    text::lemma_match_at_split(s, pos, "        \""@, key);
    assert("\": "@ =~= "\""@ + ": "@) by {
        reveal_strlit("\"");
        assert("\""@.len() == 1);
        assert("\": "@[0] == '"');
    }
    text::lemma_match_at_split(s, pos + 9 + key.len(), "\""@, ": "@);
    assert(s.subrange(pos + 9, pos + 9 + key.len() as int) == key);
    lemma_ct_key_text_ok(es[0].0);
    assert forall|t: int| pos + 9 <= t < pos + 9 + key.len() implies s[t] != '"' by {
        assert(s.subrange(pos + 9, pos + 9 + key.len() as int)[t - pos - 9] == s[t]);
    }
    assert(s[pos + 9 + key.len()] == '"') by {
        reveal_strlit("\"");
        text::lemma_match_char(s, pos + 9 + key.len(), "\""@);
    }
    text::lemma_spec_scan_is(s, pos + 9, quote_p(), pos + 9 + key.len());
    if es.len() == 1 {
        text::lemma_match_char(s, pos + e0.len(), close);
    } else {
        text::lemma_match_at_split(
            s,
            pos + e0.len(),
            ",\n"@,
            spec_enc_ct_entries(es.skip(1)) + close,
        );
        text::lemma_match_char(s, pos + e0.len(), ",\n"@);
    }
}

/// Reads the timing entries of a non-empty map and the closing text after
/// them. On encoder output it returns exactly the encoded entries appended
/// to `acc`.
fn dec_ct_entries(
    s: &str,
    pos: usize,
    acc: Vec<(CompileTimeKey, Vec<Milliseconds>)>,
) -> (r: Option<(Vec<(CompileTimeKey, Vec<Milliseconds>)>, usize)>)
    requires
        pos <= s@.len(),
    ensures
        match r {
            Some(v) => pos < v.1 <= s@.len(),
            None => true,
        },
        forall|es: Seq<(CompileTimeKey, Seq<Milliseconds>)>|
            es.len() > 0 && text::spec_match_at(
                s@,
                pos as int,
                #[trigger] spec_enc_ct_entries(es) + "\n      }"@,
            ) ==> match r {
                Some(v) => crate::profile::ct_pairs_view(v.0@) == crate::profile::ct_pairs_view(
                    acc@,
                ) + es && v.1 == pos + spec_enc_ct_entries(es).len() + 8,
                None => false,
            },
    decreases s@.len() - pos,
{
    let ghost close = "\n      }"@;
    proof {
        reveal_strlit("\n      }");
        reveal_strlit("        \"");
        reveal_strlit(": ");
        reveal_strlit(",\n");
    }
    let p1 = match expect_lit(s, pos, "        \"") {
        Some(p) => p,
        None => {
            proof {
                assert forall|es: Seq<(CompileTimeKey, Seq<Milliseconds>)>|
                    es.len() > 0 && text::spec_match_at(
                        s@,
                        pos as int,
                        #[trigger] spec_enc_ct_entries(es) + "\n      }"@,
                    ) implies false by {
                    lemma_first_ct_entry_pinned(s@, pos as int, es, close);
                }
            }
            return None;
        },
    };
    let (name, p2) = match dec_name(s, p1) {
        Some(v) => v,
        None => {
            proof {
                assert forall|es: Seq<(CompileTimeKey, Seq<Milliseconds>)>|
                    es.len() > 0 && text::spec_match_at(
                        s@,
                        pos as int,
                        #[trigger] spec_enc_ct_entries(es) + "\n      }"@,
                    ) implies false by {
                    lemma_first_ct_entry_pinned(s@, pos as int, es, close);
                    assert(p1 == pos + 9);
                }
            }
            return None;
        },
    };
    let kr = parse_ct_key(name.as_str());
    let p3 = match expect_lit(s, p2, ": ") {
        Some(p) => p,
        None => {
            proof {
                assert forall|es: Seq<(CompileTimeKey, Seq<Milliseconds>)>|
                    es.len() > 0 && text::spec_match_at(
                        s@,
                        pos as int,
                        #[trigger] spec_enc_ct_entries(es) + "\n      }"@,
                    ) implies false by {
                    lemma_first_ct_entry_pinned(s@, pos as int, es, close);
                    let key = spec_enc_ct_key(es[0].0);
                    assert(p1 == pos + 9);
                    assert(p2 == pos + 10 + key.len());
                }
            }
            return None;
        },
    };
    let (arr, p4) = match dec_ms_array(s, p3) {
        Some(v) => v,
        None => {
            proof {
                assert forall|es: Seq<(CompileTimeKey, Seq<Milliseconds>)>|
                    es.len() > 0 && text::spec_match_at(
                        s@,
                        pos as int,
                        #[trigger] spec_enc_ct_entries(es) + "\n      }"@,
                    ) implies false by {
                    lemma_first_ct_entry_pinned(s@, pos as int, es, close);
                    let key = spec_enc_ct_key(es[0].0);
                    assert(p1 == pos + 9);
                    assert(p2 == pos + 10 + key.len());
                    assert(p3 == pos + 12 + key.len());
                    assert(text::spec_match_at(s@, p3 as int, spec_enc_ms_array(es[0].1)));
                }
            }
            return None;
        },
    };
    let k = match kr {
        Some(k) => k,
        None => {
            proof {
                assert forall|es: Seq<(CompileTimeKey, Seq<Milliseconds>)>|
                    es.len() > 0 && text::spec_match_at(
                        s@,
                        pos as int,
                        #[trigger] spec_enc_ct_entries(es) + "\n      }"@,
                    ) implies false by {
                    lemma_first_ct_entry_pinned(s@, pos as int, es, close);
                    let key = spec_enc_ct_key(es[0].0);
                    assert(p1 == pos + 9);
                    assert(name@ == key);
                }
            }
            return None;
        },
    };
    let mut acc2 = acc;
    acc2.push((k, arr));
    let ghost acc2v = acc2@;
    match expect_lit(s, p4, ",\n") {
        Some(p5) => {
            let rec = dec_ct_entries(s, p5, acc2);
            proof {
                assert forall|es: Seq<(CompileTimeKey, Seq<Milliseconds>)>|
                    es.len() > 0 && text::spec_match_at(
                        s@,
                        pos as int,
                        #[trigger] spec_enc_ct_entries(es) + "\n      }"@,
                    ) implies match rec {
                    Some(v) => crate::profile::ct_pairs_view(v.0@)
                        == crate::profile::ct_pairs_view(acc@) + es && v.1 == pos
                        + spec_enc_ct_entries(es).len() + 8,
                    None => false,
                } by {
                    lemma_first_ct_entry_pinned(s@, pos as int, es, close);
                    let key = spec_enc_ct_key(es[0].0);
                    let e0 = spec_enc_ct_entry(es[0]);
                    assert(p1 == pos + 9);
                    assert(name@ == key);
                    assert(k == es[0].0);
                    assert(p2 == pos + 10 + key.len());
                    assert(p3 == pos + 12 + key.len());
                    assert(text::spec_match_at(s@, p3 as int, spec_enc_ms_array(es[0].1)));
                    assert(arr@ == es[0].1);
                    assert(p4 == pos + e0.len());
                    text::lemma_match_char(s@, p4 as int, ",\n"@);
                    if es.len() == 1 {
                        assert(s@[p4 as int] == '\n');
                        assert(false);
                    } else {
                        assert(es.skip(1).len() > 0);
                        assert(p5 == pos + e0.len() + 2);
                        assert(text::spec_match_at(
                            s@,
                            p5 as int,
                            spec_enc_ct_entries(es.skip(1)) + close,
                        ));
                        assert(crate::profile::ct_pairs_view(acc2v)
                            =~= crate::profile::ct_pairs_view(acc@).push((k, arr@)));
                        assert((k, arr@) == es[0]);
                        assert(crate::profile::ct_pairs_view(acc@).push(es[0]) + es.skip(1)
                            =~= crate::profile::ct_pairs_view(acc@) + es);
                    }
                }
            }
            rec
        },
        None => {
            match expect_lit(s, p4, "\n      }") {
                Some(p5) => {
                    let out = Some((acc2, p5));
                    proof {
                        assert forall|es: Seq<(CompileTimeKey, Seq<Milliseconds>)>|
                            es.len() > 0 && text::spec_match_at(
                                s@,
                                pos as int,
                                #[trigger] spec_enc_ct_entries(es) + "\n      }"@,
                            ) implies match out {
                            Some(v) => crate::profile::ct_pairs_view(v.0@)
                                == crate::profile::ct_pairs_view(acc@) + es && v.1 == pos
                                + spec_enc_ct_entries(es).len() + 8,
                            None => false,
                        } by {
                            lemma_first_ct_entry_pinned(s@, pos as int, es, close);
                            let key = spec_enc_ct_key(es[0].0);
                            let e0 = spec_enc_ct_entry(es[0]);
                            assert(p1 == pos + 9);
                            assert(name@ == key);
                            assert(k == es[0].0);
                            assert(p2 == pos + 10 + key.len());
                            assert(p3 == pos + 12 + key.len());
                            assert(text::spec_match_at(s@, p3 as int, spec_enc_ms_array(es[0].1)));
                            assert(arr@ == es[0].1);
                            assert(p4 == pos + e0.len());
                            if es.len() == 1 {
                                assert((k, arr@) == es[0]);
                                assert(crate::profile::ct_pairs_view(acc2v)
                                    =~= crate::profile::ct_pairs_view(acc@) + es);
                            } else {
                                text::lemma_match_char(s@, p4 as int, ",\n"@);
                                assert(s@[p4 as int] == ',');
                                text::lemma_match_char(s@, p4 as int, "\n      }"@);
                                assert(false);
                            }
                        }
                    }
                    out
                },
                None => {
                    proof {
                        assert forall|es: Seq<(CompileTimeKey, Seq<Milliseconds>)>|
                            es.len() > 0 && text::spec_match_at(
                                s@,
                                pos as int,
                                #[trigger] spec_enc_ct_entries(es) + "\n      }"@,
                            ) implies false by {
                            lemma_first_ct_entry_pinned(s@, pos as int, es, close);
                            let key = spec_enc_ct_key(es[0].0);
                            let e0 = spec_enc_ct_entry(es[0]);
                            assert(p1 == pos + 9);
                            assert(name@ == key);
                            assert(p2 == pos + 10 + key.len());
                            assert(p3 == pos + 12 + key.len());
                            assert(text::spec_match_at(s@, p3 as int, spec_enc_ms_array(es[0].1)));
                            assert(p4 == pos + e0.len());
                            if es.len() == 1 {
                                assert(text::spec_match_at(s@, p4 as int, close));
                            } else {
                                assert(text::spec_match_at(s@, p4 as int, ",\n"@));
                            }
                        }
                    }
                    None
                },
            }
        },
    }
}

/// Reads a record's timing map.
fn dec_ct_map(s: &str, pos: usize) -> (r: Option<(Vec<(CompileTimeKey, Vec<Milliseconds>)>, usize)>)
    requires
        pos <= s@.len(),
    ensures
        match r {
            Some(v) => pos < v.1 <= s@.len(),
            None => true,
        },
        forall|es: Seq<(CompileTimeKey, Seq<Milliseconds>)>|
            text::spec_match_at(s@, pos as int, #[trigger] spec_enc_ct_map(es)) ==> match r {
                Some(v) => crate::profile::ct_pairs_view(v.0@) == es && v.1 == pos
                    + spec_enc_ct_map(es).len(),
                None => false,
            },
{
    let n = s.unicode_len();
    proof {
        reveal_strlit("{");
        reveal_strlit("{}");
        reveal_strlit("{\n");
        reveal_strlit("\n      }");
        reveal_strlit("        \"");
    }
    let p1 = match expect_lit(s, pos, "{") {
        Some(p) => p,
        None => {
            proof {
                assert forall|es: Seq<(CompileTimeKey, Seq<Milliseconds>)>|
                    text::spec_match_at(s@, pos as int, #[trigger] spec_enc_ct_map(es)) implies false by {
                    lemma_ct_map_head(s@, pos as int, es);
                }
            }
            return None;
        },
    };
    if p1 < n && s.get_char(p1) == '}' {
        let out = Some((Vec::<(CompileTimeKey, Vec<Milliseconds>)>::new(), p1 + 1));
        proof {
            assert forall|es: Seq<(CompileTimeKey, Seq<Milliseconds>)>|
                text::spec_match_at(s@, pos as int, #[trigger] spec_enc_ct_map(es)) implies match out {
                Some(v) => crate::profile::ct_pairs_view(v.0@) == es && v.1 == pos
                    + spec_enc_ct_map(es).len(),
                None => false,
            } by {
                lemma_ct_map_head(s@, pos as int, es);
                if es.len() > 0 {
                    assert(s@[p1 as int] == '\n');
                    assert(false);
                } else {
                    assert(crate::profile::ct_pairs_view(Seq::<(
                        CompileTimeKey,
                        Vec<Milliseconds>,
                    )>::empty()) =~= es);
                }
            }
        }
        return out;
    }
    if p1 < n && s.get_char(p1) == '\n' {
        let rec = dec_ct_entries(s, p1 + 1, Vec::new());
        proof {
            assert forall|es: Seq<(CompileTimeKey, Seq<Milliseconds>)>|
                text::spec_match_at(s@, pos as int, #[trigger] spec_enc_ct_map(es)) implies match rec {
                Some(v) => crate::profile::ct_pairs_view(v.0@) == es && v.1 == pos
                    + spec_enc_ct_map(es).len(),
                None => false,
            } by {
                lemma_ct_map_head(s@, pos as int, es);
                if es.len() == 0 {
                    assert(s@[p1 as int] == '}');
                    assert(false);
                } else {
                    assert(text::spec_match_at(
                        s@,
                        p1 + 1,
                        spec_enc_ct_entries(es) + "\n      }"@,
                    ));
                    assert(crate::profile::ct_pairs_view(
                        Seq::<(CompileTimeKey, Vec<Milliseconds>)>::empty(),
                    ) + es =~= es);
                }
            }
        }
        return rec;
    }
    proof {
        assert forall|es: Seq<(CompileTimeKey, Seq<Milliseconds>)>|
            text::spec_match_at(s@, pos as int, #[trigger] spec_enc_ct_map(es)) implies false by {
            lemma_ct_map_head(s@, pos as int, es);
        }
    }
    None
}

/// How a timing map opens on encoder output.
proof fn lemma_ct_map_head(s: Seq<char>, pos: int, es: Seq<(CompileTimeKey, Seq<Milliseconds>)>)
    requires
        text::spec_match_at(s, pos, spec_enc_ct_map(es)),
    ensures
        text::spec_match_at(s, pos, "{"@),
        pos + 1 < s.len(),
        s[pos + 1] == (if es.len() == 0 {
            '}'
        } else {
            '\n'
        }),
        es.len() > 0 ==> text::spec_match_at(s, pos + 2, spec_enc_ct_entries(es) + "\n      }"@),
        spec_enc_ct_map(es).len() == (if es.len() == 0 {
            2int
        } else {
            2 + spec_enc_ct_entries(es).len() + 8int
        }),
{
    reveal_strlit("{");
    reveal_strlit("{}");
    reveal_strlit("{\n");
    reveal_strlit("\n      }");
    if es.len() == 0 {
        assert(spec_enc_ct_map(es) =~= "{"@ + "}"@) by {
            reveal_strlit("}");
        }
        text::lemma_match_at_split(s, pos, "{"@, "}"@);
        text::lemma_match_char(s, pos + 1, "}"@);
        reveal_strlit("}");
    } else {
        assert(spec_enc_ct_map(es) =~= "{"@ + ("\n"@ + (spec_enc_ct_entries(es) + "\n      }"@)))
            by {
            reveal_strlit("\n");
        }
        text::lemma_match_at_split(
            s,
            pos,
            "{"@,
            "\n"@ + (spec_enc_ct_entries(es) + "\n      }"@),
        );
        text::lemma_match_at_split(s, pos + 1, "\n"@, spec_enc_ct_entries(es) + "\n      }"@);
        text::lemma_match_char(s, pos + 1, "\n"@);
        reveal_strlit("\n");
    }
}

/// On encoder output, the first size entry of a non-empty map sits at the
/// read position: indent and quote, its key, quote-colon, its number, and a
/// separator or the closing text.
#[verifier::rlimit(100)]
proof fn lemma_first_sz_entry_pinned(
    s: Seq<char>,
    pos: int,
    es: Seq<(SizeKey, Bytes)>,
    close: Seq<char>,
)
    requires
        es.len() > 0,
        close.len() >= 1,
        close[0] == '\n',
        text::spec_match_at(s, pos, spec_enc_sz_entries(es) + close),
    ensures
        ({
            let key = spec_enc_sz_key(es[0].0);
            let num = text::spec_dec(es[0].1.0 as int);
            let e0 = spec_enc_sz_entry(es[0]);
            &&& 0 <= pos
            &&& e0.len() == 12 + key.len() + num.len()
            &&& text::spec_match_at(s, pos, "        \""@)
            &&& text::spec_scan(s, pos + 9, quote_p()) == pos + 9 + key.len()
            &&& pos + 9 + key.len() < s.len()
            &&& s.subrange(pos + 9, pos + 9 + key.len() as int) == key
            &&& text::spec_match_at(s, pos + 10 + key.len(), ": "@)
            &&& text::spec_scan(s, pos + 12 + key.len(), nondigit_cp()) == pos + e0.len()
            &&& text::spec_digits_val(s.subrange(pos + 12 + key.len(), pos + e0.len() as int))
                == es[0].1.0 as int
            &&& pos + e0.len() < s.len()
            &&& s[pos + e0.len()] == (if es.len() == 1 {
                '\n'
            } else {
                ','
            })
            &&& (es.len() > 1 ==> text::spec_match_at(s, pos + e0.len(), ",\n"@)
                && text::spec_match_at(
                s,
                pos + e0.len() + 2,
                spec_enc_sz_entries(es.skip(1)) + close,
            ))
            &&& (es.len() == 1 ==> text::spec_match_at(s, pos + e0.len(), close))
            &&& spec_enc_sz_entries(es).len() == (if es.len() == 1 {
                e0.len() as int
            } else {
                e0.len() + 2 + spec_enc_sz_entries(es.skip(1)).len() as int
            })
        }),
{
    reveal_strlit("        \"");
    reveal_strlit("\": ");
    reveal_strlit(": ");
    reveal_strlit(",\n");
    let key = spec_enc_sz_key(es[0].0);
    let num = text::spec_dec(es[0].1.0 as int);
    let e0 = spec_enc_sz_entry(es[0]);
    text::lemma_dec_digits(es[0].1.0 as int);
    assert(sz_entry_f()(es[0]) == e0);
    let rest: Seq<char> = if es.len() == 1 {
        close
    } else {
        ",\n"@ + (spec_enc_sz_entries(es.skip(1)) + close)
    };
    assert(text::spec_match_at(s, pos, e0 + rest)) by {
        if es.len() == 1 {
            assert(spec_enc_sz_entries(es) + close =~= e0 + rest);
        } else {
            assert(spec_enc_sz_entries(es) + close =~= e0 + rest);
        }
    }
    text::lemma_match_at_split(s, pos, e0, rest);
    assert(e0 =~= ("        \""@ + key + "\": "@) + num);
    text::lemma_match_at_split(s, pos, "        \""@ + key + "\": "@, num);
    assert("        \""@ + key + "\": "@ =~= ("        \""@ + key) + "\": "@);
    text::lemma_match_at_split(s, pos, "        \""@ + key, "\": "@);
    text::lemma_match_at_split(s, pos, "        \""@, key);
    assert("\": "@ =~= "\""@ + ": "@) by {
        reveal_strlit("\"");
        assert("\": "@[0] == '"');
    }
    text::lemma_match_at_split(s, pos + 9 + key.len(), "\""@, ": "@);
    assert(s.subrange(pos + 9, pos + 9 + key.len() as int) == key);
    lemma_sz_key_text_ok(es[0].0);
    assert forall|t: int| pos + 9 <= t < pos + 9 + key.len() implies s[t] != '"' by {
        assert(s.subrange(pos + 9, pos + 9 + key.len() as int)[t - pos - 9] == s[t]);
    }
    assert(s[pos + 9 + key.len()] == '"') by {
        reveal_strlit("\"");
        text::lemma_match_char(s, pos + 9 + key.len(), "\""@);
    }
    text::lemma_spec_scan_is(s, pos + 9, quote_p(), pos + 9 + key.len());
    // the number's digit run
    let vstart = pos + 12 + key.len();
    assert(s.subrange(vstart, vstart + num.len() as int) == num);
    assert forall|t: int| vstart <= t < vstart + num.len() implies text::is_digit(
        #[trigger] s[t],
    ) by {
        assert(s.subrange(vstart, vstart + num.len() as int)[t - vstart] == s[t]);
    }
    if es.len() == 1 {
        text::lemma_match_char(s, pos + e0.len(), close);
    } else {
        text::lemma_match_at_split(
            s,
            pos + e0.len(),
            ",\n"@,
            spec_enc_sz_entries(es.skip(1)) + close,
        );
        text::lemma_match_char(s, pos + e0.len(), ",\n"@);
    }
    text::lemma_spec_scan_is(s, vstart, nondigit_cp(), pos + e0.len());
    assert(text::spec_digits_val(s.subrange(vstart, pos + e0.len() as int)) == es[0].1.0 as int)
        by {
        assert(s.subrange(vstart, pos + e0.len() as int) == num);
    }
}

/// Reads the size entries of a non-empty map and the closing text after
/// them. On encoder output it returns exactly the encoded entries appended
/// to `acc`.
fn dec_sz_entries(s: &str, pos: usize, acc: Vec<(SizeKey, Bytes)>) -> (r: Option<
    (Vec<(SizeKey, Bytes)>, usize),
>)
    requires
        pos <= s@.len(),
    ensures
        match r {
            Some(v) => pos < v.1 <= s@.len(),
            None => true,
        },
        forall|es: Seq<(SizeKey, Bytes)>|
            es.len() > 0 && text::spec_match_at(
                s@,
                pos as int,
                #[trigger] spec_enc_sz_entries(es) + "\n      }"@,
            ) ==> match r {
                Some(v) => v.0@ == acc@ + es && v.1 == pos + spec_enc_sz_entries(es).len() + 8,
                None => false,
            },
    decreases s@.len() - pos,
{
    let ghost close = "\n      }"@;
    proof {
        reveal_strlit("\n      }");
        reveal_strlit("        \"");
        reveal_strlit(": ");
        reveal_strlit(",\n");
    }
    let p1 = match expect_lit(s, pos, "        \"") {
        Some(p) => p,
        None => {
            proof {
                assert forall|es: Seq<(SizeKey, Bytes)>|
                    es.len() > 0 && text::spec_match_at(
                        s@,
                        pos as int,
                        #[trigger] spec_enc_sz_entries(es) + "\n      }"@,
                    ) implies false by {
                    lemma_first_sz_entry_pinned(s@, pos as int, es, close);
                }
            }
            return None;
        },
    };
    let (name, p2) = match dec_name(s, p1) {
        Some(v) => v,
        None => {
            proof {
                assert forall|es: Seq<(SizeKey, Bytes)>|
                    es.len() > 0 && text::spec_match_at(
                        s@,
                        pos as int,
                        #[trigger] spec_enc_sz_entries(es) + "\n      }"@,
                    ) implies false by {
                    lemma_first_sz_entry_pinned(s@, pos as int, es, close);
                    assert(p1 == pos + 9);
                }
            }
            return None;
        },
    };
    let kr = parse_sz_key(name.as_str());
    let p3 = match expect_lit(s, p2, ": ") {
        Some(p) => p,
        None => {
            proof {
                assert forall|es: Seq<(SizeKey, Bytes)>|
                    es.len() > 0 && text::spec_match_at(
                        s@,
                        pos as int,
                        #[trigger] spec_enc_sz_entries(es) + "\n      }"@,
                    ) implies false by {
                    lemma_first_sz_entry_pinned(s@, pos as int, es, close);
                    let key = spec_enc_sz_key(es[0].0);
                    assert(p1 == pos + 9);
                    assert(p2 == pos + 10 + key.len());
                }
            }
            return None;
        },
    };
    let (num, p4) = match dec_u64(s, p3) {
        Some(v) => v,
        None => {
            proof {
                assert forall|es: Seq<(SizeKey, Bytes)>|
                    es.len() > 0 && text::spec_match_at(
                        s@,
                        pos as int,
                        #[trigger] spec_enc_sz_entries(es) + "\n      }"@,
                    ) implies false by {
                    lemma_first_sz_entry_pinned(s@, pos as int, es, close);
                    let key = spec_enc_sz_key(es[0].0);
                    assert(p1 == pos + 9);
                    assert(p2 == pos + 10 + key.len());
                    assert(p3 == pos + 12 + key.len());
                }
            }
            return None;
        },
    };
    let k = match kr {
        Some(k) => k,
        None => {
            proof {
                assert forall|es: Seq<(SizeKey, Bytes)>|
                    es.len() > 0 && text::spec_match_at(
                        s@,
                        pos as int,
                        #[trigger] spec_enc_sz_entries(es) + "\n      }"@,
                    ) implies false by {
                    lemma_first_sz_entry_pinned(s@, pos as int, es, close);
                    let key = spec_enc_sz_key(es[0].0);
                    assert(p1 == pos + 9);
                    assert(name@ == key);
                }
            }
            return None;
        },
    };
    let mut acc2 = acc;
    acc2.push((k, Bytes(num)));
    let ghost acc2v = acc2@;
    match expect_lit(s, p4, ",\n") {
        Some(p5) => {
            let rec = dec_sz_entries(s, p5, acc2);
            proof {
                assert forall|es: Seq<(SizeKey, Bytes)>|
                    es.len() > 0 && text::spec_match_at(
                        s@,
                        pos as int,
                        #[trigger] spec_enc_sz_entries(es) + "\n      }"@,
                    ) implies match rec {
                    Some(v) => v.0@ == acc@ + es && v.1 == pos + spec_enc_sz_entries(es).len()
                        + 8,
                    None => false,
                } by {
                    lemma_first_sz_entry_pinned(s@, pos as int, es, close);
                    let key = spec_enc_sz_key(es[0].0);
                    let e0 = spec_enc_sz_entry(es[0]);
                    assert(p1 == pos + 9);
                    assert(name@ == key);
                    assert(k == es[0].0);
                    assert(p2 == pos + 10 + key.len());
                    assert(p3 == pos + 12 + key.len());
                    assert(num as int == es[0].1.0 as int);
                    assert(Bytes(num) == es[0].1);
                    assert(p4 == pos + e0.len());
                    text::lemma_match_char(s@, p4 as int, ",\n"@);
                    if es.len() == 1 {
                        assert(s@[p4 as int] == '\n');
                        assert(false);
                    } else {
                        assert(es.skip(1).len() > 0);
                        assert(p5 == pos + e0.len() + 2);
                        assert(acc2v =~= acc@.push(es[0]));
                        assert(acc@.push(es[0]) + es.skip(1) =~= acc@ + es);
                    }
                }
            }
            rec
        },
        None => {
            match expect_lit(s, p4, "\n      }") {
                Some(p5) => {
                    let out = Some((acc2, p5));
                    proof {
                        assert forall|es: Seq<(SizeKey, Bytes)>|
                            es.len() > 0 && text::spec_match_at(
                                s@,
                                pos as int,
                                #[trigger] spec_enc_sz_entries(es) + "\n      }"@,
                            ) implies match out {
                            Some(v) => v.0@ == acc@ + es && v.1 == pos + spec_enc_sz_entries(
                                es,
                            ).len() + 8,
                            None => false,
                        } by {
                            lemma_first_sz_entry_pinned(s@, pos as int, es, close);
                            let key = spec_enc_sz_key(es[0].0);
                            let e0 = spec_enc_sz_entry(es[0]);
                            assert(p1 == pos + 9);
                            assert(name@ == key);
                            assert(k == es[0].0);
                            assert(p2 == pos + 10 + key.len());
                            assert(p3 == pos + 12 + key.len());
                            assert(num as int == es[0].1.0 as int);
                            assert(Bytes(num) == es[0].1);
                            assert(p4 == pos + e0.len());
                            if es.len() == 1 {
                                assert(acc2v =~= acc@ + es);
                            } else {
                                text::lemma_match_char(s@, p4 as int, ",\n"@);
                                text::lemma_match_char(s@, p4 as int, "\n      }"@);
                                assert(false);
                            }
                        }
                    }
                    out
                },
                None => {
                    proof {
                        assert forall|es: Seq<(SizeKey, Bytes)>|
                            es.len() > 0 && text::spec_match_at(
                                s@,
                                pos as int,
                                #[trigger] spec_enc_sz_entries(es) + "\n      }"@,
                            ) implies false by {
                            lemma_first_sz_entry_pinned(s@, pos as int, es, close);
                            let key = spec_enc_sz_key(es[0].0);
                            let e0 = spec_enc_sz_entry(es[0]);
                            assert(p1 == pos + 9);
                            assert(name@ == key);
                            assert(p2 == pos + 10 + key.len());
                            assert(p3 == pos + 12 + key.len());
                            assert(p4 == pos + e0.len());
                            if es.len() == 1 {
                                assert(text::spec_match_at(s@, p4 as int, close));
                            } else {
                                assert(text::spec_match_at(s@, p4 as int, ",\n"@));
                            }
                        }
                    }
                    None
                },
            }
        },
    }
}

/// Reads a record's size map.
fn dec_sz_map(s: &str, pos: usize) -> (r: Option<(Vec<(SizeKey, Bytes)>, usize)>)
    requires
        pos <= s@.len(),
    ensures
        match r {
            Some(v) => pos < v.1 <= s@.len(),
            None => true,
        },
        forall|es: Seq<(SizeKey, Bytes)>|
            text::spec_match_at(s@, pos as int, #[trigger] spec_enc_sz_map(es)) ==> match r {
                Some(v) => v.0@ == es && v.1 == pos + spec_enc_sz_map(es).len(),
                None => false,
            },
{
    let n = s.unicode_len();
    proof {
        reveal_strlit("{");
        reveal_strlit("{}");
        reveal_strlit("{\n");
        reveal_strlit("\n      }");
    }
    let p1 = match expect_lit(s, pos, "{") {
        Some(p) => p,
        None => {
            proof {
                assert forall|es: Seq<(SizeKey, Bytes)>|
                    text::spec_match_at(s@, pos as int, #[trigger] spec_enc_sz_map(es)) implies false by {
                    lemma_sz_map_head(s@, pos as int, es);
                }
            }
            return None;
        },
    };
    if p1 < n && s.get_char(p1) == '}' {
        let out = Some((Vec::<(SizeKey, Bytes)>::new(), p1 + 1));
        proof {
            assert forall|es: Seq<(SizeKey, Bytes)>|
                text::spec_match_at(s@, pos as int, #[trigger] spec_enc_sz_map(es)) implies match out {
                Some(v) => v.0@ == es && v.1 == pos + spec_enc_sz_map(es).len(),
                None => false,
            } by {
                lemma_sz_map_head(s@, pos as int, es);
                if es.len() > 0 {
                    assert(s@[p1 as int] == '\n');
                    assert(false);
                } else {
                    assert(Seq::<(SizeKey, Bytes)>::empty() =~= es);
                }
            }
        }
        return out;
    }
    if p1 < n && s.get_char(p1) == '\n' {
        let rec = dec_sz_entries(s, p1 + 1, Vec::new());
        proof {
            assert forall|es: Seq<(SizeKey, Bytes)>|
                text::spec_match_at(s@, pos as int, #[trigger] spec_enc_sz_map(es)) implies match rec {
                Some(v) => v.0@ == es && v.1 == pos + spec_enc_sz_map(es).len(),
                None => false,
            } by {
                lemma_sz_map_head(s@, pos as int, es);
                if es.len() == 0 {
                    assert(s@[p1 as int] == '}');
                    assert(false);
                } else {
                    assert(text::spec_match_at(
                        s@,
                        p1 + 1,
                        spec_enc_sz_entries(es) + "\n      }"@,
                    ));
                    assert(Seq::<(SizeKey, Bytes)>::empty() + es =~= es);
                }
            }
        }
        return rec;
    }
    proof {
        assert forall|es: Seq<(SizeKey, Bytes)>|
            text::spec_match_at(s@, pos as int, #[trigger] spec_enc_sz_map(es)) implies false by {
            lemma_sz_map_head(s@, pos as int, es);
        }
    }
    None
}

/// How a size map opens on encoder output.
proof fn lemma_sz_map_head(s: Seq<char>, pos: int, es: Seq<(SizeKey, Bytes)>)
    requires
        text::spec_match_at(s, pos, spec_enc_sz_map(es)),
    ensures
        text::spec_match_at(s, pos, "{"@),
        pos + 1 < s.len(),
        s[pos + 1] == (if es.len() == 0 {
            '}'
        } else {
            '\n'
        }),
        es.len() > 0 ==> text::spec_match_at(s, pos + 2, spec_enc_sz_entries(es) + "\n      }"@),
        spec_enc_sz_map(es).len() == (if es.len() == 0 {
            2int
        } else {
            2 + spec_enc_sz_entries(es).len() + 8int
        }),
{
    reveal_strlit("{");
    reveal_strlit("{}");
    reveal_strlit("{\n");
    reveal_strlit("\n      }");
    if es.len() == 0 {
        assert(spec_enc_sz_map(es) =~= "{"@ + "}"@) by {
            reveal_strlit("}");
        }
        text::lemma_match_at_split(s, pos, "{"@, "}"@);
        text::lemma_match_char(s, pos + 1, "}"@);
        reveal_strlit("}");
    } else {
        assert(spec_enc_sz_map(es) =~= "{"@ + ("\n"@ + (spec_enc_sz_entries(es) + "\n      }"@)))
            by {
            reveal_strlit("\n");
        }
        text::lemma_match_at_split(
            s,
            pos,
            "{"@,
            "\n"@ + (spec_enc_sz_entries(es) + "\n      }"@),
        );
        text::lemma_match_at_split(s, pos + 1, "\n"@, spec_enc_sz_entries(es) + "\n      }"@);
        text::lemma_match_char(s, pos + 1, "\n"@);
        reveal_strlit("\n");
    }
}

/// How one record's object is laid out on encoder output.
proof fn lemma_profile_pinned(s: Seq<char>, pos: int, xp: Profile)
    requires
        text::spec_match_at(s, pos, spec_enc_profile(xp)),
    ensures
        ({
            let la = "{\n      \"compile_times\": "@;
            let lb = ",\n      \"output_sizes\": "@;
            let lc = "\n    }"@;
            let ct = spec_enc_ct_map(xp.ct_entries());
            let sz = spec_enc_sz_map(xp.sz_entries());
            &&& text::spec_match_at(s, pos, la)
            &&& text::spec_match_at(s, pos + la.len(), ct)
            &&& text::spec_match_at(s, pos + la.len() + ct.len(), lb)
            &&& text::spec_match_at(s, pos + la.len() + ct.len() + lb.len(), sz)
            &&& text::spec_match_at(s, pos + la.len() + ct.len() + lb.len() + sz.len(), lc)
            &&& spec_enc_profile(xp).len() == la.len() + ct.len() + lb.len() + sz.len()
                + lc.len()
        }),
{
    let la = "{\n      \"compile_times\": "@;
    let lb = ",\n      \"output_sizes\": "@;
    let lc = "\n    }"@;
    let ct = spec_enc_ct_map(xp.ct_entries());
    let sz = spec_enc_sz_map(xp.sz_entries());
    assert(spec_enc_profile(xp) =~= (((la + ct) + lb) + sz) + lc);
    text::lemma_match_at_split(s, pos, ((la + ct) + lb) + sz, lc);
    text::lemma_match_at_split(s, pos, (la + ct) + lb, sz);
    text::lemma_match_at_split(s, pos, la + ct, lb);
    text::lemma_match_at_split(s, pos, la, ct);
}

/// Reads one record. On encoder output it returns a record denoting the
/// encoded one.
fn dec_profile(s: &str, pos: usize) -> (r: Option<(Profile, usize)>)
    requires
        pos <= s@.len(),
    ensures
        match r {
            Some(v) => pos < v.1 <= s@.len() && v.0.wf(),
            None => true,
        },
        forall|xp: Profile|
            text::spec_match_at(s@, pos as int, #[trigger] spec_enc_profile(xp)) ==> match r {
                Some(v) => v.0@ == xp@ && v.1 == pos + spec_enc_profile(xp).len(),
                None => false,
            },
{
    let p1 = match expect_lit(s, pos, "{\n      \"compile_times\": ") {
        Some(p) => p,
        None => {
            proof {
                assert forall|xp: Profile|
                    text::spec_match_at(s@, pos as int, #[trigger] spec_enc_profile(xp)) implies false by {
                    lemma_profile_pinned(s@, pos as int, xp);
                }
            }
            return None;
        },
    };
    let (ct, p2) = match dec_ct_map(s, p1) {
        Some(v) => v,
        None => {
            proof {
                assert forall|xp: Profile|
                    text::spec_match_at(s@, pos as int, #[trigger] spec_enc_profile(xp)) implies false by {
                    lemma_profile_pinned(s@, pos as int, xp);
                }
            }
            return None;
        },
    };
    let p3 = match expect_lit(s, p2, ",\n      \"output_sizes\": ") {
        Some(p) => p,
        None => {
            proof {
                assert forall|xp: Profile|
                    text::spec_match_at(s@, pos as int, #[trigger] spec_enc_profile(xp)) implies false by {
                    lemma_profile_pinned(s@, pos as int, xp);
                }
            }
            return None;
        },
    };
    let (sz, p4) = match dec_sz_map(s, p3) {
        Some(v) => v,
        None => {
            proof {
                assert forall|xp: Profile|
                    text::spec_match_at(s@, pos as int, #[trigger] spec_enc_profile(xp)) implies false by {
                    lemma_profile_pinned(s@, pos as int, xp);
                }
            }
            return None;
        },
    };
    let p5 = match expect_lit(s, p4, "\n    }") {
        Some(p) => p,
        None => {
            proof {
                assert forall|xp: Profile|
                    text::spec_match_at(s@, pos as int, #[trigger] spec_enc_profile(xp)) implies false by {
                    lemma_profile_pinned(s@, pos as int, xp);
                }
            }
            return None;
        },
    };
    let p = crate::profile::profile_from_entries(ct, sz);
    let out = Some((p, p5));
    proof {
        assert forall|xp: Profile|
            text::spec_match_at(s@, pos as int, #[trigger] spec_enc_profile(xp)) implies match out {
            Some(v) => v.0@ == xp@ && v.1 == pos + spec_enc_profile(xp).len(),
            None => false,
        } by {
            lemma_profile_pinned(s@, pos as int, xp);
            crate::profile::lemma_profile_view(xp);
            assert(crate::profile::ct_pairs_view(ct@) == xp.ct_entries());
            assert(sz@ == xp.sz_entries());
            assert(p@.compile_times == xp@.compile_times);
            assert(p@.output_sizes == xp@.output_sizes);
            assert(p@ =~~= xp@);
        }
    }
    out
}

/// On encoder output, a quoted field's next stop is either its closing
/// quote or an escape pair: the clean run before it is literal text.
proof fn lemma_escaped_field_pinned(s: Seq<char>, pos: int, name: Seq<char>)
    requires
        text::spec_match_at(s, pos, spec_escape(name).push('"')),
    ensures
        ({
            let k = text::spec_scan(name, 0, escaped_p());
            let en = spec_escape(name);
            &&& 0 <= pos
            &&& pos + en.len() < s.len()
            &&& s[pos + en.len()] == '"'
            &&& (if k == name.len() {
                &&& text::spec_scan(s, pos, escaped_p()) == pos + name.len()
                &&& s.subrange(pos, pos + name.len() as int) == name
                &&& en.len() == name.len()
            } else {
                &&& text::spec_scan(s, pos, escaped_p()) == pos + k
                &&& s.subrange(pos, pos + k) == name.take(k)
                &&& pos + k + 1 < s.len()
                &&& s[pos + k] == '\\'
                &&& s[pos + k + 1] == name[k]
                &&& text::spec_match_at(s, pos + k + 2, spec_escape(name.skip(k + 1)).push('"'))
                &&& en.len() == k + 2 + spec_escape(name.skip(k + 1)).len() as int
            })
        }),
{
    let k = text::spec_scan(name, 0, escaped_p());
    let en = spec_escape(name);
    text::lemma_spec_scan(name, 0, escaped_p());
    lemma_escape_first(name);
    assert(en.push('"') =~= en + seq!['"']);
    text::lemma_match_at_split(s, pos, en, seq!['"']);
    text::lemma_match_char(s, pos + en.len(), seq!['"']);
    if k == name.len() {
        assert(en == name);
        assert(s.subrange(pos, pos + name.len() as int) == name);
        assert forall|t: int| pos <= t < pos + name.len() implies !is_escaped_char(
            #[trigger] s[t],
        ) by {
            assert(s.subrange(pos, pos + name.len() as int)[t - pos] == s[t]);
            assert(name[t - pos] == s[t]);
        }
        assert(is_escaped_char(s[pos + name.len()]));
        text::lemma_spec_scan_is(s, pos, escaped_p(), pos + name.len());
    } else {
        let tailq = spec_escape(name.skip(k + 1)) + seq!['"'];
        assert(en + seq!['"'] =~= name.take(k) + (seq!['\\', name[k]] + tailq));
        text::lemma_match_at_split(s, pos, name.take(k), seq!['\\', name[k]] + tailq);
        text::lemma_match_at_split(s, pos + k, seq!['\\', name[k]], tailq);
        assert(s.subrange(pos, pos + k) == name.take(k));
        assert(s.subrange(pos + k, pos + k + 2)[0] == s[pos + k]);
        assert(s.subrange(pos + k, pos + k + 2)[1] == s[pos + k + 1]);
        assert(s[pos + k] == '\\');
        assert(s[pos + k + 1] == name[k]);
        assert(spec_escape(name.skip(k + 1)).push('"') =~= tailq);
        assert(text::spec_match_at(s, pos + k + 2, spec_escape(name.skip(k + 1)).push('"')));
        assert forall|t: int| pos <= t < pos + k implies !is_escaped_char(#[trigger] s[t]) by {
            assert(s.subrange(pos, pos + k)[t - pos] == s[t]);
            assert(name.take(k)[t - pos] == name[t - pos]);
        }
        assert(is_escaped_char(s[pos + k]));
        text::lemma_spec_scan_is(s, pos, escaped_p(), pos + k);
    }
}

/// Reads a quoted field back to its text, undoing the escapes and consuming
/// the closing quote. On encoder output it returns exactly the encoded text
/// appended to `acc`.
fn dec_escaped_name(s: &str, pos: usize, acc: String) -> (r: Option<(String, usize)>)
    requires
        pos <= s@.len(),
    ensures
        match r {
            Some(v) => pos < v.1 <= s@.len(),
            None => true,
        },
        forall|name: Seq<char>|
            text::spec_match_at(s@, pos as int, (#[trigger] spec_escape(name)).push('"'))
                ==> match r {
                Some(v) => v.0@ == acc@ + name && v.1 == pos + spec_escape(name).len() + 1,
                None => false,
            },
    decreases s@.len() - pos,
{
    let n = s.unicode_len();
    let j = scan_escaped(s, pos);
    if j == n {
        proof {
            assert forall|name: Seq<char>|
                text::spec_match_at(
                    s@,
                    pos as int,
                    (#[trigger] spec_escape(name)).push('"'),
                ) implies false by {
                lemma_escaped_field_pinned(s@, pos as int, name);
            }
        }
        return None;
    }
    let mut acc2 = acc;
    acc2.append(s.substring_char(pos, j));
    let ghost run_done = acc2@;
    let c = s.get_char(j);
    if c == '"' {
        let out = Some((acc2, j + 1));
        proof {
            assert forall|name: Seq<char>|
                text::spec_match_at(
                    s@,
                    pos as int,
                    (#[trigger] spec_escape(name)).push('"'),
                ) implies match out {
                Some(v) => v.0@ == acc@ + name && v.1 == pos + spec_escape(name).len() + 1,
                None => false,
            } by {
                lemma_escaped_field_pinned(s@, pos as int, name);
                let k = text::spec_scan(name, 0, escaped_p());
                if k == name.len() {
                    assert(j == pos + name.len());
                    assert(run_done =~= acc@ + name);
                } else {
                    assert(s@[j as int] == '\\');
                    assert(false);
                }
            }
        }
        out
    } else {
        if j + 1 == n {
            proof {
                assert forall|name: Seq<char>|
                    text::spec_match_at(
                        s@,
                        pos as int,
                        (#[trigger] spec_escape(name)).push('"'),
                    ) implies false by {
                    lemma_escaped_field_pinned(s@, pos as int, name);
                    let k = text::spec_scan(name, 0, escaped_p());
                    if k == name.len() {
                        assert(s@[j as int] == '"');
                    }
                }
            }
            return None;
        }
        acc2.append(s.substring_char(j + 1, j + 2));
        let ghost acc2v = acc2@;
        let rec = dec_escaped_name(s, j + 2, acc2);
        proof {
            assert forall|name: Seq<char>|
                text::spec_match_at(
                    s@,
                    pos as int,
                    (#[trigger] spec_escape(name)).push('"'),
                ) implies match rec {
                Some(v) => v.0@ == acc@ + name && v.1 == pos + spec_escape(name).len() + 1,
                None => false,
            } by {
                lemma_escaped_field_pinned(s@, pos as int, name);
                let k = text::spec_scan(name, 0, escaped_p());
                text::lemma_spec_scan(name, 0, escaped_p());
                if k == name.len() {
                    assert(s@[j as int] == '"');
                    assert(false);
                } else {
                    assert(0 <= k < name.len());
                    assert(j == pos + k);
                    assert(text::spec_match_at(
                        s@,
                        j + 2,
                        spec_escape(name.skip(k + 1)).push('"'),
                    ));
                    assert(s@.subrange(j + 1, j + 2)[0] == s@[j + 1]);
                    assert(s@.subrange(pos as int, j as int) == name.take(k));
                    assert(run_done == acc@ + name.take(k));
                    assert(s@.subrange(j + 1, j + 2) =~= seq![name[k]]);
                    assert(acc2v == run_done + s@.subrange(j + 1, j + 2));
                    assert(acc2v =~= acc@ + name.take(k) + seq![name[k]]);
                    assert(name =~= name.take(k) + seq![name[k]] + name.skip(k + 1));
                    assert(acc2v + name.skip(k + 1) =~= acc@ + name);
                    assert(spec_escape(name).len() == k + 2 + spec_escape(
                        name.skip(k + 1),
                    ).len() as int);
                }
            }
        }
        rec
    }
}

/// The entries of a record set, records as views.
pub open spec fn profile_pairs_view(es: Seq<(Seq<char>, Profile)>) -> Seq<(Seq<char>, ProfileView)> {
    es.map_values(|e: (Seq<char>, Profile)| (e.0, e.1@))
}

/// On encoder output, the first repo line of a non-empty record set sits at
/// the read position: indent and quote, its escaped name, quote-colon, its
/// record, and a separator or the closing text.
#[verifier::rlimit(100)]
proof fn lemma_first_profile_entry_pinned(
    s: Seq<char>,
    pos: int,
    es: Seq<(Seq<char>, Profile)>,
    close: Seq<char>,
)
    requires
        es.len() > 0,
        close.len() >= 1,
        close[0] == '\n',
        text::spec_match_at(s, pos, spec_enc_profile_entries(es) + close),
    ensures
        ({
            let en = spec_escape(es[0].0);
            let prof = spec_enc_profile(es[0].1);
            let e0 = spec_enc_profile_entry(es[0]);
            &&& 0 <= pos
            &&& e0.len() == 8 + en.len() + prof.len()
            &&& text::spec_match_at(s, pos, "    \""@)
            &&& text::spec_match_at(s, pos + 5, en.push('"'))
            &&& text::spec_match_at(s, pos + 6 + en.len(), ": "@)
            &&& text::spec_match_at(s, pos + 8 + en.len(), prof)
            &&& pos + e0.len() < s.len()
            &&& s[pos + e0.len()] == (if es.len() == 1 {
                '\n'
            } else {
                ','
            })
            &&& (es.len() > 1 ==> text::spec_match_at(s, pos + e0.len(), ",\n"@)
                && text::spec_match_at(
                s,
                pos + e0.len() + 2,
                spec_enc_profile_entries(es.skip(1)) + close,
            ))
            &&& (es.len() == 1 ==> text::spec_match_at(s, pos + e0.len(), close))
            &&& spec_enc_profile_entries(es).len() == (if es.len() == 1 {
                e0.len() as int
            } else {
                e0.len() + 2 + spec_enc_profile_entries(es.skip(1)).len() as int
            })
        }),
{
    reveal_strlit("    \"");
    reveal_strlit("\": ");
    reveal_strlit(": ");
    reveal_strlit(",\n");
    let en = spec_escape(es[0].0);
    let prof = spec_enc_profile(es[0].1);
    let e0 = spec_enc_profile_entry(es[0]);
    assert(profile_entry_f()(es[0]) == e0);
    let rest: Seq<char> = if es.len() == 1 {
        close
    } else {
        ",\n"@ + (spec_enc_profile_entries(es.skip(1)) + close)
    };
    assert(text::spec_match_at(s, pos, e0 + rest)) by {
        if es.len() == 1 {
            assert(spec_enc_profile_entries(es) + close =~= e0 + rest);
        } else {
            assert(spec_enc_profile_entries(es) + close =~= e0 + rest);
        }
    }
    text::lemma_match_at_split(s, pos, e0, rest);
    assert(e0 =~= ("    \""@ + en + "\": "@) + prof);
    text::lemma_match_at_split(s, pos, "    \""@ + en + "\": "@, prof);
    assert("    \""@ + en + "\": "@ =~= ("    \""@ + en) + "\": "@);
    text::lemma_match_at_split(s, pos, "    \""@ + en, "\": "@);
    text::lemma_match_at_split(s, pos, "    \""@, en);
    assert("\": "@ =~= "\""@ + ": "@) by {
        reveal_strlit("\"");
        assert("\": "@[0] == '"');
    }
    text::lemma_match_at_split(s, pos + 5 + en.len(), "\""@, ": "@);
    assert(text::spec_match_at(s, pos + 5, en.push('"'))) by {
        reveal_strlit("\"");
        assert(en.push('"') =~= en + "\""@);
        text::lemma_match_at_split(s, pos + 5, en, "\""@);
    }
    if es.len() == 1 {
        text::lemma_match_char(s, pos + e0.len(), close);
    } else {
        text::lemma_match_at_split(
            s,
            pos + e0.len(),
            ",\n"@,
            spec_enc_profile_entries(es.skip(1)) + close,
        );
        text::lemma_match_char(s, pos + e0.len(), ",\n"@);
    }
}

/// Reads the repo lines of a non-empty record set and the closing text after
/// them. On encoder output it returns exactly the encoded entries appended
/// to `acc`.
fn dec_profile_entries(s: &str, pos: usize, acc: Vec<(String, Profile)>) -> (r: Option<
    (Vec<(String, Profile)>, usize),
>)
    requires
        pos <= s@.len(),
        forall|i: int| 0 <= i < acc@.len() ==> (#[trigger] acc@[i]).1.wf(),
    ensures
        match r {
            Some(v) => pos < v.1 <= s@.len() && (forall|i: int|
                0 <= i < v.0@.len() ==> (#[trigger] v.0@[i]).1.wf()),
            None => true,
        },
        forall|es: Seq<(Seq<char>, Profile)>|
            es.len() > 0 && text::spec_match_at(
                s@,
                pos as int,
                #[trigger] spec_enc_profile_entries(es) + "\n  }"@,
            ) ==> match r {
                Some(v) => crate::store::set_pairs_view(v.0@) == crate::store::set_pairs_view(
                    acc@,
                ) + profile_pairs_view(es) && v.1 == pos + spec_enc_profile_entries(es).len() + 4,
                None => false,
            },
    decreases s@.len() - pos,
{
    let ghost close = "\n  }"@;
    proof {
        reveal_strlit("\n  }");
        reveal_strlit("    \"");
        reveal_strlit(": ");
        reveal_strlit(",\n");
    }
    let p1 = match expect_lit(s, pos, "    \"") {
        Some(p) => p,
        None => {
            proof {
                assert forall|es: Seq<(Seq<char>, Profile)>|
                    es.len() > 0 && text::spec_match_at(
                        s@,
                        pos as int,
                        #[trigger] spec_enc_profile_entries(es) + "\n  }"@,
                    ) implies false by {
                    lemma_first_profile_entry_pinned(s@, pos as int, es, close);
                }
            }
            return None;
        },
    };
    let (name, p2) = match dec_escaped_name(s, p1, String::new()) {
        Some(v) => v,
        None => {
            proof {
                assert forall|es: Seq<(Seq<char>, Profile)>|
                    es.len() > 0 && text::spec_match_at(
                        s@,
                        pos as int,
                        #[trigger] spec_enc_profile_entries(es) + "\n  }"@,
                    ) implies false by {
                    lemma_first_profile_entry_pinned(s@, pos as int, es, close);
                    assert(p1 == pos + 5);
                }
            }
            return None;
        },
    };
    let p3 = match expect_lit(s, p2, ": ") {
        Some(p) => p,
        None => {
            proof {
                assert forall|es: Seq<(Seq<char>, Profile)>|
                    es.len() > 0 && text::spec_match_at(
                        s@,
                        pos as int,
                        #[trigger] spec_enc_profile_entries(es) + "\n  }"@,
                    ) implies false by {
                    lemma_first_profile_entry_pinned(s@, pos as int, es, close);
                    assert(p1 == pos + 5);
                    assert(p2 == pos + 6 + spec_escape(es[0].0).len());
                }
            }
            return None;
        },
    };
    let (prof, p4) = match dec_profile(s, p3) {
        Some(v) => v,
        None => {
            proof {
                assert forall|es: Seq<(Seq<char>, Profile)>|
                    es.len() > 0 && text::spec_match_at(
                        s@,
                        pos as int,
                        #[trigger] spec_enc_profile_entries(es) + "\n  }"@,
                    ) implies false by {
                    lemma_first_profile_entry_pinned(s@, pos as int, es, close);
                    assert(p1 == pos + 5);
                    assert(p2 == pos + 6 + spec_escape(es[0].0).len());
                    assert(p3 == pos + 8 + spec_escape(es[0].0).len());
                    assert(text::spec_match_at(s@, p3 as int, spec_enc_profile(es[0].1)));
                }
            }
            return None;
        },
    };
    let mut acc2 = acc;
    acc2.push((name, prof));
    let ghost acc2v = acc2@;
    match expect_lit(s, p4, ",\n") {
        Some(p5) => {
            let rec = dec_profile_entries(s, p5, acc2);
            proof {
                assert forall|es: Seq<(Seq<char>, Profile)>|
                    es.len() > 0 && text::spec_match_at(
                        s@,
                        pos as int,
                        #[trigger] spec_enc_profile_entries(es) + "\n  }"@,
                    ) implies match rec {
                    Some(v) => crate::store::set_pairs_view(v.0@) == crate::store::set_pairs_view(
                        acc@,
                    ) + profile_pairs_view(es) && v.1 == pos + spec_enc_profile_entries(es).len()
                        + 4,
                    None => false,
                } by {
                    lemma_first_profile_entry_pinned(s@, pos as int, es, close);
                    let en = spec_escape(es[0].0);
                    let e0 = spec_enc_profile_entry(es[0]);
                    assert(p1 == pos + 5);
                    assert(name@ == es[0].0);
                    assert(p2 == pos + 6 + en.len());
                    assert(p3 == pos + 8 + en.len());
                    assert(text::spec_match_at(s@, p3 as int, spec_enc_profile(es[0].1)));
                    assert(prof@ == es[0].1@);
                    assert(p4 == pos + e0.len());
                    text::lemma_match_char(s@, p4 as int, ",\n"@);
                    if es.len() == 1 {
                        assert(s@[p4 as int] == '\n');
                        assert(false);
                    } else {
                        assert(es.skip(1).len() > 0);
                        assert(p5 == pos + e0.len() + 2);
                        assert(crate::store::set_pairs_view(acc2v)
                            =~= crate::store::set_pairs_view(acc@).push((name@, prof@)));
                        assert((name@, prof@) == profile_pairs_view(es)[0]);
                        assert(profile_pairs_view(es.skip(1)) =~= profile_pairs_view(es).skip(1));
                        assert(crate::store::set_pairs_view(acc@).push(profile_pairs_view(es)[0])
                            + profile_pairs_view(es).skip(1) =~= crate::store::set_pairs_view(acc@)
                            + profile_pairs_view(es));
                    }
                }
            }
            rec
        },
        None => {
            match expect_lit(s, p4, "\n  }") {
                Some(p5) => {
                    let out = Some((acc2, p5));
                    proof {
                        assert forall|es: Seq<(Seq<char>, Profile)>|
                            es.len() > 0 && text::spec_match_at(
                                s@,
                                pos as int,
                                #[trigger] spec_enc_profile_entries(es) + "\n  }"@,
                            ) implies match out {
                            Some(v) => crate::store::set_pairs_view(v.0@)
                                == crate::store::set_pairs_view(acc@) + profile_pairs_view(es)
                                && v.1 == pos + spec_enc_profile_entries(es).len() + 4,
                            None => false,
                        } by {
                            lemma_first_profile_entry_pinned(s@, pos as int, es, close);
                            let en = spec_escape(es[0].0);
                            let e0 = spec_enc_profile_entry(es[0]);
                            assert(p1 == pos + 5);
                            assert(name@ == es[0].0);
                            assert(p2 == pos + 6 + en.len());
                            assert(p3 == pos + 8 + en.len());
                            assert(text::spec_match_at(s@, p3 as int, spec_enc_profile(es[0].1)));
                            assert(prof@ == es[0].1@);
                            assert(p4 == pos + e0.len());
                            if es.len() == 1 {
                                assert((name@, prof@) == profile_pairs_view(es)[0]);
                                assert(crate::store::set_pairs_view(acc2v)
                                    =~= crate::store::set_pairs_view(acc@) + profile_pairs_view(
                                    es,
                                ));
                            } else {
                                text::lemma_match_char(s@, p4 as int, ",\n"@);
                                text::lemma_match_char(s@, p4 as int, "\n  }"@);
                                assert(false);
                            }
                        }
                    }
                    out
                },
                None => {
                    proof {
                        assert forall|es: Seq<(Seq<char>, Profile)>|
                            es.len() > 0 && text::spec_match_at(
                                s@,
                                pos as int,
                                #[trigger] spec_enc_profile_entries(es) + "\n  }"@,
                            ) implies false by {
                            lemma_first_profile_entry_pinned(s@, pos as int, es, close);
                            let en = spec_escape(es[0].0);
                            let e0 = spec_enc_profile_entry(es[0]);
                            assert(p1 == pos + 5);
                            assert(name@ == es[0].0);
                            assert(p2 == pos + 6 + en.len());
                            assert(p3 == pos + 8 + en.len());
                            assert(text::spec_match_at(s@, p3 as int, spec_enc_profile(es[0].1)));
                            assert(p4 == pos + e0.len());
                            if es.len() == 1 {
                                assert(text::spec_match_at(s@, p4 as int, close));
                            } else {
                                assert(text::spec_match_at(s@, p4 as int, ",\n"@));
                            }
                        }
                    }
                    None
                },
            }
        },
    }
}

/// How the record-set object opens on encoder output.
proof fn lemma_profiles_head(s: Seq<char>, pos: int, es: Seq<(Seq<char>, Profile)>)
    requires
        text::spec_match_at(s, pos, spec_enc_profiles(es)),
    ensures
        text::spec_match_at(s, pos, "{"@),
        pos + 1 < s.len(),
        s[pos + 1] == (if es.len() == 0 {
            '}'
        } else {
            '\n'
        }),
        es.len() > 0 ==> text::spec_match_at(s, pos + 2, spec_enc_profile_entries(es) + "\n  }"@),
        spec_enc_profiles(es).len() == (if es.len() == 0 {
            2int
        } else {
            2 + spec_enc_profile_entries(es).len() + 4int
        }),
{
    reveal_strlit("{");
    reveal_strlit("{}");
    reveal_strlit("{\n");
    reveal_strlit("\n  }");
    if es.len() == 0 {
        assert(spec_enc_profiles(es) =~= "{"@ + "}"@) by {
            reveal_strlit("}");
        }
        text::lemma_match_at_split(s, pos, "{"@, "}"@);
        text::lemma_match_char(s, pos + 1, "}"@);
        reveal_strlit("}");
    } else {
        assert(spec_enc_profiles(es) =~= "{"@ + ("\n"@ + (spec_enc_profile_entries(es)
            + "\n  }"@))) by {
            reveal_strlit("\n");
        }
        text::lemma_match_at_split(
            s,
            pos,
            "{"@,
            "\n"@ + (spec_enc_profile_entries(es) + "\n  }"@),
        );
        text::lemma_match_at_split(s, pos + 1, "\n"@, spec_enc_profile_entries(es) + "\n  }"@);
        text::lemma_match_char(s, pos + 1, "\n"@);
        reveal_strlit("\n");
    }
}

/// Reads the record-set object.
fn dec_profiles(s: &str, pos: usize) -> (r: Option<(Vec<(String, Profile)>, usize)>)
    requires
        pos <= s@.len(),
    ensures
        match r {
            Some(v) => pos < v.1 <= s@.len() && (forall|i: int|
                0 <= i < v.0@.len() ==> (#[trigger] v.0@[i]).1.wf()),
            None => true,
        },
        forall|es: Seq<(Seq<char>, Profile)>|
            text::spec_match_at(s@, pos as int, #[trigger] spec_enc_profiles(es)) ==> match r {
                Some(v) => crate::store::set_pairs_view(v.0@) == profile_pairs_view(es) && v.1
                    == pos + spec_enc_profiles(es).len(),
                None => false,
            },
{
    let n = s.unicode_len();
    proof {
        reveal_strlit("{");
        reveal_strlit("{}");
        reveal_strlit("{\n");
        reveal_strlit("\n  }");
    }
    let p1 = match expect_lit(s, pos, "{") {
        Some(p) => p,
        None => {
            proof {
                assert forall|es: Seq<(Seq<char>, Profile)>|
                    text::spec_match_at(
                        s@,
                        pos as int,
                        #[trigger] spec_enc_profiles(es),
                    ) implies false by {
                    lemma_profiles_head(s@, pos as int, es);
                }
            }
            return None;
        },
    };
    if p1 < n && s.get_char(p1) == '}' {
        let out = Some((Vec::<(String, Profile)>::new(), p1 + 1));
        proof {
            assert forall|es: Seq<(Seq<char>, Profile)>|
                text::spec_match_at(
                    s@,
                    pos as int,
                    #[trigger] spec_enc_profiles(es),
                ) implies match out {
                Some(v) => crate::store::set_pairs_view(v.0@) == profile_pairs_view(es) && v.1
                    == pos + spec_enc_profiles(es).len(),
                None => false,
            } by {
                lemma_profiles_head(s@, pos as int, es);
                if es.len() > 0 {
                    assert(s@[p1 as int] == '\n');
                    assert(false);
                } else {
                    assert(crate::store::set_pairs_view(Seq::<(String, Profile)>::empty())
                        =~= profile_pairs_view(es));
                }
            }
        }
        return out;
    }
    if p1 < n && s.get_char(p1) == '\n' {
        let rec = dec_profile_entries(s, p1 + 1, Vec::new());
        proof {
            assert forall|es: Seq<(Seq<char>, Profile)>|
                text::spec_match_at(
                    s@,
                    pos as int,
                    #[trigger] spec_enc_profiles(es),
                ) implies match rec {
                Some(v) => crate::store::set_pairs_view(v.0@) == profile_pairs_view(es) && v.1
                    == pos + spec_enc_profiles(es).len(),
                None => false,
            } by {
                lemma_profiles_head(s@, pos as int, es);
                if es.len() == 0 {
                    assert(s@[p1 as int] == '}');
                    assert(false);
                } else {
                    assert(text::spec_match_at(
                        s@,
                        p1 + 1,
                        spec_enc_profile_entries(es) + "\n  }"@,
                    ));
                    assert(crate::store::set_pairs_view(Seq::<(String, Profile)>::empty())
                        + profile_pairs_view(es) =~= profile_pairs_view(es));
                }
            }
        }
        return rec;
    }
    proof {
        assert forall|es: Seq<(Seq<char>, Profile)>|
            text::spec_match_at(s@, pos as int, #[trigger] spec_enc_profiles(es)) implies false by {
            lemma_profiles_head(s@, pos as int, es);
        }
    }
    None
}

/// How a whole result file is laid out on encoder output.
#[verifier::rlimit(100)]
proof fn lemma_file_pinned(s: Seq<char>, si: SystemInfo, set: ProfileSet)
    requires
        s == spec_enc_result_file(si, set),
    ensures
        ({
            let la = "{\n  \"system_info\": {\n    \"num_cores\": "@;
            let lb = ",\n    \"num_physical_cores\": "@;
            let lc = ",\n    \"cpu_model\": \""@;
            let ld2 = "\n  },\n  \"profiles\": "@;
            let le = "\n}"@;
            let d1 = text::spec_dec(si.num_cores as int);
            let d2 = text::spec_dec(si.num_physical_cores as int);
            let model = si.cpu_model@;
            let profs = spec_enc_profiles(set.raw_entries());
            let q1 = la.len() as int;
            let q2 = q1 + d1.len();
            let q3 = q2 + lb.len();
            let q4 = q3 + d2.len();
            let q5 = q4 + lc.len();
            let q6 = q5 + spec_escape(model).len();
            let q7 = q6 + 1 + ld2.len();
            let q8 = q7 + profs.len();
            &&& d1.len() >= 1
            &&& d2.len() >= 1
            &&& s.len() == q8 + le.len()
            &&& text::spec_match_at(s, 0, la)
            &&& text::spec_scan(s, q1, nondigit_cp()) == q2
            &&& text::spec_digits_val(s.subrange(q1, q2)) == si.num_cores as int
            &&& text::spec_match_at(s, q2, lb)
            &&& text::spec_scan(s, q3, nondigit_cp()) == q4
            &&& text::spec_digits_val(s.subrange(q3, q4)) == si.num_physical_cores as int
            &&& text::spec_match_at(s, q4, lc)
            &&& text::spec_match_at(s, q5, spec_escape(model).push('"'))
            &&& text::spec_match_at(s, q6 + 1, ld2)
            &&& text::spec_match_at(s, q7, profs)
            &&& text::spec_match_at(s, q8, le)
        }),
{
    let la = "{\n  \"system_info\": {\n    \"num_cores\": "@;
    let lb = ",\n    \"num_physical_cores\": "@;
    let lc = ",\n    \"cpu_model\": \""@;
    let ld = "\"\n  },\n  \"profiles\": "@;
    let ld2 = "\n  },\n  \"profiles\": "@;
    let le = "\n}"@;
    let d1 = text::spec_dec(si.num_cores as int);
    let d2 = text::spec_dec(si.num_physical_cores as int);
    let model = si.cpu_model@;
    let profs = spec_enc_profiles(set.raw_entries());
    reveal_strlit("\"");
    reveal_strlit("\"\n  },\n  \"profiles\": ");
    reveal_strlit("\n  },\n  \"profiles\": ");
    reveal_strlit(",\n    \"num_physical_cores\": ");
    reveal_strlit(",\n    \"cpu_model\": \"");
    text::lemma_dec_digits(si.num_cores as int);
    text::lemma_dec_digits(si.num_physical_cores as int);
    assert(text::spec_match_at(s, 0, s)) by {
        assert(s.subrange(0, s.len() as int) =~= s);
    }
    let em = spec_escape(model);
    assert(s =~= ((((((((la + d1) + lb) + d2) + lc) + em) + ld) + profs) + le));
    text::lemma_match_at_split(s, 0, (((((((la + d1) + lb) + d2) + lc) + em) + ld) + profs), le);
    text::lemma_match_at_split(s, 0, ((((((la + d1) + lb) + d2) + lc) + em) + ld), profs);
    text::lemma_match_at_split(s, 0, (((((la + d1) + lb) + d2) + lc) + em), ld);
    text::lemma_match_at_split(s, 0, ((((la + d1) + lb) + d2) + lc), em);
    text::lemma_match_at_split(s, 0, (((la + d1) + lb) + d2), lc);
    text::lemma_match_at_split(s, 0, ((la + d1) + lb), d2);
    text::lemma_match_at_split(s, 0, (la + d1), lb);
    text::lemma_match_at_split(s, 0, la, d1);
    let q1 = la.len() as int;
    let q2 = q1 + d1.len();
    let q3 = q2 + lb.len();
    let q4 = q3 + d2.len();
    let q5 = q4 + lc.len();
    let q6 = q5 + em.len();
    assert(ld =~= "\""@ + ld2) by {
        reveal_strlit("\"");
        reveal_strlit("\"\n  },\n  \"profiles\": ");
        reveal_strlit("\n  },\n  \"profiles\": ");
    }
    text::lemma_match_at_split(s, q6, "\""@, ld2);
    assert(s.subrange(q1, q2) == d1);
    assert forall|t: int| q1 <= t < q2 implies text::is_digit(#[trigger] s[t]) by {
        assert(s.subrange(q1, q2)[t - q1] == s[t]);
    }
    assert(s[q2] == ',') by {
        reveal_strlit(",\n    \"num_physical_cores\": ");
        text::lemma_match_char(s, q2, lb);
    }
    text::lemma_spec_scan_is(s, q1, nondigit_cp(), q2);
    assert(s.subrange(q3, q4) == d2);
    assert forall|t: int| q3 <= t < q4 implies text::is_digit(#[trigger] s[t]) by {
        assert(s.subrange(q3, q4)[t - q3] == s[t]);
    }
    assert(s[q4] == ',') by {
        reveal_strlit(",\n    \"cpu_model\": \"");
        text::lemma_match_char(s, q4, lc);
    }
    text::lemma_spec_scan_is(s, q3, nondigit_cp(), q4);
    assert(text::spec_match_at(s, q5, em.push('"'))) by {
        reveal_strlit("\"");
        assert(em.push('"') =~= em + "\""@);
        text::lemma_match_at_split(s, q5, em, "\""@);
    }
}

/// Reads a stored result file. On any text `encode_result_file` produced
/// from a well-formed record set, it returns the host identity and a record
/// set observationally equal to the encoded one, whatever the names and the
/// model string hold; on other texts the caller treats `None` as no prior
/// data.
#[verifier::rlimit(100)]
pub fn decode_result_file(s: &str) -> (r: Option<(SystemInfo, ProfileSet)>)
    ensures
        match r {
            Some(v) => v.1.wf(),
            None => true,
        },
        forall|si: SystemInfo, set: ProfileSet|
            s@ == #[trigger] spec_enc_result_file(si, set) && set.wf() ==> match r {
                Some(v) => {
                    &&& v.0.num_cores == si.num_cores
                    &&& v.0.num_physical_cores == si.num_physical_cores
                    &&& v.0.cpu_model@ == si.cpu_model@
                    &&& v.1@ == set@
                },
                None => false,
            },
{
    let n = s.unicode_len();
    let p1 = match expect_lit(s, 0, "{\n  \"system_info\": {\n    \"num_cores\": ") {
        Some(p) => p,
        None => {
            proof {
                assert forall|xsi: SystemInfo, xset: ProfileSet|
                    s@ == #[trigger] spec_enc_result_file(xsi, xset) && xset.wf() implies false by {
                    lemma_file_pinned(s@, xsi, xset);
                }
            }
            return None;
        },
    };
    let (nc, p2) = match dec_u64(s, p1) {
        Some(v) => v,
        None => {
            proof {
                assert forall|xsi: SystemInfo, xset: ProfileSet|
                    s@ == #[trigger] spec_enc_result_file(xsi, xset) && xset.wf() implies false by {
                    lemma_file_pinned(s@, xsi, xset);
                }
            }
            return None;
        },
    };
    let p3 = match expect_lit(s, p2, ",\n    \"num_physical_cores\": ") {
        Some(p) => p,
        None => {
            proof {
                assert forall|xsi: SystemInfo, xset: ProfileSet|
                    s@ == #[trigger] spec_enc_result_file(xsi, xset) && xset.wf() implies false by {
                    lemma_file_pinned(s@, xsi, xset);
                }
            }
            return None;
        },
    };
    let (np, p4) = match dec_u64(s, p3) {
        Some(v) => v,
        None => {
            proof {
                assert forall|xsi: SystemInfo, xset: ProfileSet|
                    s@ == #[trigger] spec_enc_result_file(xsi, xset) && xset.wf() implies false by {
                    lemma_file_pinned(s@, xsi, xset);
                }
            }
            return None;
        },
    };
    let p5 = match expect_lit(s, p4, ",\n    \"cpu_model\": \"") {
        Some(p) => p,
        None => {
            proof {
                assert forall|xsi: SystemInfo, xset: ProfileSet|
                    s@ == #[trigger] spec_enc_result_file(xsi, xset) && xset.wf() implies false by {
                    lemma_file_pinned(s@, xsi, xset);
                }
            }
            return None;
        },
    };
    let (model, p6) = match dec_escaped_name(s, p5, String::new()) {
        Some(v) => v,
        None => {
            proof {
                assert forall|xsi: SystemInfo, xset: ProfileSet|
                    s@ == #[trigger] spec_enc_result_file(xsi, xset) && xset.wf() implies false by {
                    lemma_file_pinned(s@, xsi, xset);
                }
            }
            return None;
        },
    };
    let p7 = match expect_lit(s, p6, "\n  },\n  \"profiles\": ") {
        Some(p) => p,
        None => {
            proof {
                assert forall|xsi: SystemInfo, xset: ProfileSet|
                    s@ == #[trigger] spec_enc_result_file(xsi, xset) && xset.wf() implies false by {
                    lemma_file_pinned(s@, xsi, xset);
                }
            }
            return None;
        },
    };
    let (entries, p8) = match dec_profiles(s, p7) {
        Some(v) => v,
        None => {
            proof {
                assert forall|xsi: SystemInfo, xset: ProfileSet|
                    s@ == #[trigger] spec_enc_result_file(xsi, xset) && xset.wf() implies false by {
                    lemma_file_pinned(s@, xsi, xset);
                    crate::store::lemma_set_entry_views(xset);
                    assert(text::spec_match_at(
                        s@,
                        p7 as int,
                        spec_enc_profiles(xset.raw_entries()),
                    ));
                }
            }
            return None;
        },
    };
    let p9 = match expect_lit(s, p8, "\n}") {
        Some(p) => p,
        None => {
            proof {
                assert forall|xsi: SystemInfo, xset: ProfileSet|
                    s@ == #[trigger] spec_enc_result_file(xsi, xset) && xset.wf() implies false by {
                    lemma_file_pinned(s@, xsi, xset);
                    crate::store::lemma_set_entry_views(xset);
                    assert(text::spec_match_at(
                        s@,
                        p7 as int,
                        spec_enc_profiles(xset.raw_entries()),
                    ));
                }
            }
            return None;
        },
    };
    if p9 != n {
        proof {
            assert forall|xsi: SystemInfo, xset: ProfileSet|
                s@ == #[trigger] spec_enc_result_file(xsi, xset) && xset.wf() implies false by {
                lemma_file_pinned(s@, xsi, xset);
                crate::store::lemma_set_entry_views(xset);
                assert(text::spec_match_at(s@, p7 as int, spec_enc_profiles(xset.raw_entries())));
            }
        }
        return None;
    }
    let ghost entries_v = entries@;
    let set = crate::store::set_from_entries(entries);
    let si = SystemInfo {
        num_cores: nc as usize,
        num_physical_cores: np as usize,
        cpu_model: model,
    };
    let out = Some((si, set));
    proof {
        assert forall|xsi: SystemInfo, xset: ProfileSet|
            s@ == #[trigger] spec_enc_result_file(xsi, xset) && xset.wf() implies match out {
            Some(v) => {
                &&& v.0.num_cores == xsi.num_cores
                &&& v.0.num_physical_cores == xsi.num_physical_cores
                &&& v.0.cpu_model@ == xsi.cpu_model@
                &&& v.1@ == xset@
            },
            None => false,
        } by {
            lemma_file_pinned(s@, xsi, xset);
            let la = "{\n  \"system_info\": {\n    \"num_cores\": "@;
            let lb = ",\n    \"num_physical_cores\": "@;
            let lc = ",\n    \"cpu_model\": \""@;
            let ld2 = "\n  },\n  \"profiles\": "@;
            let d1 = text::spec_dec(xsi.num_cores as int);
            let d2 = text::spec_dec(xsi.num_physical_cores as int);
            let q1 = la.len() as int;
            let q2 = q1 + d1.len();
            let q3 = q2 + lb.len();
            let q4 = q3 + d2.len();
            let q5 = q4 + lc.len();
            let q6 = q5 + spec_escape(xsi.cpu_model@).len();
            assert(p1 == q1);
            assert(p2 == q2);
            assert(p3 == q3);
            assert(p4 == q4);
            assert(p5 == q5);
            assert(p6 == q6 + 1);
            assert(p7 == q6 + 1 + ld2.len());
            assert(nc as int == xsi.num_cores as int);
            assert(np as int == xsi.num_physical_cores as int);
            assert(model@ == xsi.cpu_model@);
            crate::store::lemma_set_entry_views(xset);
            assert(text::spec_match_at(s@, p7 as int, spec_enc_profiles(xset.raw_entries())));
            assert(crate::store::set_pairs_view(entries_v) == profile_pairs_view(
                xset.raw_entries(),
            ));
            assert(profile_pairs_view(xset.raw_entries()) =~= xset.entries());
            assert(set@ == crate::assoc::assoc_map(xset.entries()));
            crate::store::lemma_set_view(xset);
            assert(set@ == xset@);
        }
    }
    out
}

} // verus!
