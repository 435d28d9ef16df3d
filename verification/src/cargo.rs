//! The build tool's side of the benchmark: compiler modes, measurement
//! newtypes, the argument lists handed to the build tool, and the parser that
//! extracts a duration from its diagnostic stream.

use vstd::prelude::*;

use crate::duration;
use crate::text;

verus! {

/// How the build tool is invoked: type-check only, debug build, or release
/// build.
#[derive(Debug, Clone, Copy, PartialEq, Eq, Structural)]
pub enum CompilerMode {
    Check,
    Debug,
    Release,
}

/// Which state the working copy is prepared into before a timed build.
#[derive(Debug, Clone, Copy, PartialEq, Eq, Structural)]
pub enum ProfileMode {
    Clean,
    Incremental,
    PatchIncremental,
}

/// A duration in whole milliseconds.
#[derive(Debug, Clone, Copy, PartialEq, Eq, PartialOrd, Ord, Structural)]
pub struct Milliseconds(pub u64);

/// A size in bytes.
#[derive(Debug, Clone, Copy, PartialEq, Eq, PartialOrd, Ord, Structural)]
pub struct Bytes(pub u64);

/// The compiler modes in the order the protocol runs them.
pub open spec fn spec_compiler_modes() -> Seq<CompilerMode> {
    seq![CompilerMode::Check, CompilerMode::Debug, CompilerMode::Release]
}

pub fn compiler_modes() -> (v: Vec<CompilerMode>)
    ensures
        v@ == spec_compiler_modes(),
{
    let mut v: Vec<CompilerMode> = Vec::new();
    v.push(CompilerMode::Check);
    v.push(CompilerMode::Debug);
    v.push(CompilerMode::Release);
    proof {
        assert(v@ =~= spec_compiler_modes());
    }
    v
}

/// The profile modes in the order the stage sequence prepares them.
pub open spec fn spec_profile_modes() -> Seq<ProfileMode> {
    seq![ProfileMode::Clean, ProfileMode::Incremental, ProfileMode::PatchIncremental]
}

pub fn profile_modes() -> (v: Vec<ProfileMode>)
    ensures
        v@ == spec_profile_modes(),
{
    let mut v: Vec<ProfileMode> = Vec::new();
    v.push(ProfileMode::Clean);
    v.push(ProfileMode::Incremental);
    v.push(ProfileMode::PatchIncremental);
    proof {
        assert(v@ =~= spec_profile_modes());
    }
    v
}

impl CompilerMode {
    /// The mode's name, as written in stored result files.
    pub open spec fn spec_name(self) -> Seq<char> {
        match self {
            CompilerMode::Check => "Check"@,
            CompilerMode::Debug => "Debug"@,
            CompilerMode::Release => "Release"@,
        }
    }

    pub fn name(self) -> (s: &'static str)
        ensures
            s@ == self.spec_name(),
    {
        match self {
            CompilerMode::Check => "Check",
            CompilerMode::Debug => "Debug",
            CompilerMode::Release => "Release",
        }
    }

    /// Reads a mode name back; inverse of `name` on its image.
    pub open spec fn spec_from_str(s: Seq<char>) -> Option<CompilerMode> {
        if s == "Check"@ {
            Some(CompilerMode::Check)
        } else if s == "Debug"@ {
            Some(CompilerMode::Debug)
        } else if s == "Release"@ {
            Some(CompilerMode::Release)
        } else {
            None
        }
    }

    pub fn from_str(s: &str) -> (r: Option<CompilerMode>)
        ensures
            r == CompilerMode::spec_from_str(s@),
    {
        if text::str_eq(s, "Check") {
            Some(CompilerMode::Check)
        } else if text::str_eq(s, "Debug") {
            Some(CompilerMode::Debug)
        } else if text::str_eq(s, "Release") {
            Some(CompilerMode::Release)
        } else {
            None
        }
    }
}

impl ProfileMode {
    /// The mode's name, as written in stored result files.
    pub open spec fn spec_name(self) -> Seq<char> {
        match self {
            ProfileMode::Clean => "Clean"@,
            ProfileMode::Incremental => "Incremental"@,
            ProfileMode::PatchIncremental => "PatchIncremental"@,
        }
    }

    pub fn name(self) -> (s: &'static str)
        ensures
            s@ == self.spec_name(),
    {
        match self {
            ProfileMode::Clean => "Clean",
            ProfileMode::Incremental => "Incremental",
            ProfileMode::PatchIncremental => "PatchIncremental",
        }
    }

    /// Reads a profile-mode name back; inverse of `name` on its image.
    pub open spec fn spec_from_str(s: Seq<char>) -> Option<ProfileMode> {
        if s == "Clean"@ {
            Some(ProfileMode::Clean)
        } else if s == "Incremental"@ {
            Some(ProfileMode::Incremental)
        } else if s == "PatchIncremental"@ {
            Some(ProfileMode::PatchIncremental)
        } else {
            None
        }
    }

    pub fn from_str(s: &str) -> (r: Option<ProfileMode>)
        ensures
            r == ProfileMode::spec_from_str(s@),
    {
        if text::str_eq(s, "Clean") {
            Some(ProfileMode::Clean)
        } else if text::str_eq(s, "Incremental") {
            Some(ProfileMode::Incremental)
        } else if text::str_eq(s, "PatchIncremental") {
            Some(ProfileMode::PatchIncremental)
        } else {
            None
        }
    }
}

/// Mode names read back as the mode they were written for.
pub proof fn lemma_compiler_mode_name_round_trip(m: CompilerMode)
    ensures
        CompilerMode::spec_from_str(m.spec_name()) == Some(m),
{
    reveal_strlit("Check");
    reveal_strlit("Debug");
    reveal_strlit("Release");
    assert("Debug"@ != "Check"@) by {
        assert("Debug"@[0] != "Check"@[0]);
    }
    assert("Release"@ != "Check"@) by {
        assert("Release"@.len() != "Check"@.len());
    }
    assert("Release"@ != "Debug"@) by {
        assert("Release"@.len() != "Debug"@.len());
    }
}

/// Profile-mode names read back as the mode they were written for.
pub proof fn lemma_profile_mode_name_round_trip(m: ProfileMode)
    ensures
        ProfileMode::spec_from_str(m.spec_name()) == Some(m),
{
    reveal_strlit("Clean");
    reveal_strlit("Incremental");
    reveal_strlit("PatchIncremental");
    assert("Incremental"@ != "Clean"@) by {
        assert("Incremental"@.len() != "Clean"@.len());
    }
    assert("PatchIncremental"@ != "Clean"@) by {
        assert("PatchIncremental"@.len() != "Clean"@.len());
    }
    assert("PatchIncremental"@ != "Incremental"@) by {
        assert("PatchIncremental"@.len() != "Incremental"@.len());
    }
}

/// Compiler-mode names are plain words: no comma, no quote, no newline.
pub proof fn lemma_compiler_mode_name_shape(m: CompilerMode)
    ensures
        m.spec_name().len() >= 1,
        forall|t: int|
            0 <= t < m.spec_name().len() ==> #[trigger] m.spec_name()[t] != ','
                && m.spec_name()[t] != '"' && m.spec_name()[t] != '\n',
{
    reveal_strlit("Check");
    reveal_strlit("Debug");
    reveal_strlit("Release");
}

/// Profile-mode names are plain words: no comma, no quote, no newline.
pub proof fn lemma_profile_mode_name_shape(m: ProfileMode)
    ensures
        m.spec_name().len() >= 1,
        forall|t: int|
            0 <= t < m.spec_name().len() ==> #[trigger] m.spec_name()[t] != ','
                && m.spec_name()[t] != '"' && m.spec_name()[t] != '\n',
{
    reveal_strlit("Clean");
    reveal_strlit("Incremental");
    reveal_strlit("PatchIncremental");
}

/// The build tool's argument list for one compiler mode.
pub open spec fn spec_cargo_args(m: CompilerMode) -> Seq<Seq<char>> {
    match m {
        CompilerMode::Check => seq!["check"@],
        CompilerMode::Debug => seq!["build"@],
        CompilerMode::Release => seq!["build"@, "--release"@],
    }
}

/// Arguments for one invocation of the build tool: `check` for Check,
/// `build` for Debug, `build --release` for Release.
pub fn cargo_args(m: CompilerMode) -> (v: Vec<String>)
    ensures
        v.deep_view() == spec_cargo_args(m),
{
    let mut v: Vec<String> = Vec::new();
    match m {
        CompilerMode::Check => {
            v.push(String::from_str("check"));
        },
        CompilerMode::Debug => {
            v.push(String::from_str("build"));
        },
        CompilerMode::Release => {
            v.push(String::from_str("build"));
            v.push(String::from_str("--release"));
        },
    }
    proof {
        assert(v.deep_view() =~~= spec_cargo_args(m));
    }
    v
}

pub open spec fn newline_p() -> spec_fn(char) -> bool {
    |c: char| c == '\n'
}

pub open spec fn nonfragment_p() -> spec_fn(char) -> bool {
    |c: char| !duration::is_fragment_char(c)
}

/// The last position `j` in `[i + 9, hi]` where ` target(s) in ` occurs,
/// searching downward.
pub open spec fn spec_last_token(s: Seq<char>, i: int, j: int) -> Option<int>
    decreases j - i,
{
    if j < i + 9 {
        None
    } else if text::spec_match_at(s, j, " target(s) in "@) {
        Some(j)
    } else {
        spec_last_token(s, i, j - 1)
    }
}

/// Position `i` starts a summary match: `Finished ` occurs at `i` and the
/// rest of that line holds ` target(s) in `.
pub open spec fn spec_summary_at(s: Seq<char>, i: int) -> bool {
    let nl = text::spec_scan(s, i + 9, newline_p());
    &&& text::spec_match_at(s, i, "Finished "@)
    &&& spec_last_token(s, i, nl - 14) is Some
}

/// The first summary-match position at or after `i`.
pub open spec fn spec_first_summary(s: Seq<char>, i: int) -> Option<int>
    decreases s.len() - i,
{
    if i < 0 || i + 9 > s.len() {
        None
    } else if spec_summary_at(s, i) {
        Some(i)
    } else {
        spec_first_summary(s, i + 1)
    }
}

/// What `parse_run_time` returns: the milliseconds encoded by the summary
/// line of the diagnostic stream, if one is present and well formed.
///
/// The stream matches at the first position starting the text `Finished `
/// whose line later holds ` target(s) in `. The duration fragment is the
/// maximal run of digits, `.`, `m`, `s` and spaces after the last such token
/// of that line, read by the duration grammar.
pub open spec fn spec_parse_run_time(s: Seq<char>) -> Option<u64> {
    match spec_first_summary(s, 0) {
        None => None,
        Some(i) => {
            let nl = text::spec_scan(s, i + 9, newline_p());
            match spec_last_token(s, i, nl - 14) {
                None => None,
                Some(j) => {
                    let c = j + 14;
                    let e = text::spec_scan(s, c, nonfragment_p());
                    duration::spec_parse_fragment(s.subrange(c, e))
                },
            }
        },
    }
}

/// Scans the build tool's diagnostic stream for the summary line and reads
/// the duration it reports.
pub fn parse_run_time(stderr: &str) -> (r: Option<Milliseconds>)
    ensures
        match spec_parse_run_time(stderr@) {
            Some(v) => r == Some(Milliseconds(v)),
            None => r is None,
        },
{
    let s = stderr;
    let n = s.unicode_len();
    if n < 9 {
        proof {
            assert(spec_first_summary(s@, 0) is None);
        }
        return None;
    }
    let mut i: usize = 0;
    while i <= n - 9
        invariant
            0 <= i,
            9 <= n,
            i <= n - 9 + 1,
            n == s@.len(),
            s == stderr,
            spec_first_summary(s@, 0) == spec_first_summary(s@, i as int),
        decreases n - i,
    {
        if text::match_at(s, i, "Finished ") {
            let nl = find_newline(s, i + 9);
            let tok = find_last_token(s, i, nl);
            match tok {
                Some(j) => {
                    // This is the first summary position; extract the fragment.
                    let c = j + 14;
                    let e = find_fragment_end(s, c);
                    let frag = s.substring_char(c, e);
                    proof {
                        assert(spec_summary_at(s@, i as int));
                        assert(spec_first_summary(s@, i as int) == Some(i as int));
                        assert(spec_first_summary(s@, 0) == Some(i as int));
                        assert(frag@ =~= s@.subrange(c as int, e as int));
                        assert(spec_parse_run_time(s@) == duration::spec_parse_fragment(
                            s@.subrange(c as int, e as int),
                        ));
                    }
                    let out = duration::parse_fragment(frag);
                    return match out {
                        Some(v) => Some(Milliseconds(v)),
                        None => None,
                    };
                },
                None => {
                    proof {
                        assert(!spec_summary_at(s@, i as int));
                    }
                },
            }
        } else {
            proof {
                assert(!spec_summary_at(s@, i as int));
            }
        }
        proof {
            assert(spec_first_summary(s@, i as int) == spec_first_summary(s@, i + 1));
        }
        i += 1;
    }
    proof {
        assert(i + 9 > n);
        assert(spec_first_summary(s@, i as int) is None);
    }
    None
}

/// First newline at or after `from`, else the length.
fn find_newline(s: &str, from: usize) -> (j: usize)
    requires
        from <= s@.len(),
    ensures
        j as int == text::spec_scan(s@, from as int, newline_p()),
        from <= j <= s@.len(),
{
    let n = s.unicode_len();
    let mut j = from;
    while j < n && s.get_char(j) != '\n'
        invariant
            from <= j <= n,
            n == s@.len(),
            forall|t: int| from <= t < j ==> s@[t] != '\n',
        decreases n - j,
    {
        j += 1;
    }
    proof {
        text::lemma_spec_scan_is(s@, from as int, newline_p(), j as int);
    }
    j
}

/// First position at or after `from` outside the fragment alphabet, else the
/// length.
fn find_fragment_end(s: &str, from: usize) -> (j: usize)
    requires
        from <= s@.len(),
    ensures
        j as int == text::spec_scan(s@, from as int, nonfragment_p()),
        from <= j <= s@.len(),
{
    let n = s.unicode_len();
    let mut j = from;
    while j < n && is_fragment_char_exec(s.get_char(j))
        invariant
            from <= j <= n,
            n == s@.len(),
            forall|t: int| from <= t < j ==> duration::is_fragment_char(#[trigger] s@[t]),
        decreases n - j,
    {
        j += 1;
    }
    proof {
        text::lemma_spec_scan_is(s@, from as int, nonfragment_p(), j as int);
    }
    j
}

fn is_fragment_char_exec(c: char) -> (b: bool)
    ensures
        b == duration::is_fragment_char(c),
{
    ('0' <= c && c <= '9') || c == ' ' || c == '.' || c == 'm' || c == 's'
}

/// The last ` target(s) in ` occurrence at a position in `[i + 9, nl - 14]`,
/// searching downward from the line end.
fn find_last_token(s: &str, i: usize, nl: usize) -> (r: Option<usize>)
    requires
        i + 9 <= s@.len(),
        i <= nl <= s@.len(),
    ensures
        match r {
            Some(j) => {
                &&& spec_last_token(s@, i as int, nl - 14) == Some(j as int)
                &&& i + 9 <= j
                &&& j + 14 <= s@.len()
            },
            None => spec_last_token(s@, i as int, nl - 14) is None,
        },
{
    let n = s.unicode_len();
    if nl < 14 || nl - 14 < i + 9 {
        proof {
            lemma_last_token_below(s@, i as int, nl - 14);
        }
        return None;
    }
    let hi: usize = nl - 14;
    let mut j: usize = hi + 1;
    while j > i + 9
        invariant
            i + 9 <= j <= hi + 1,
            hi + 14 <= s@.len(),
            nl >= 14,
            hi == nl - 14,
            spec_last_token(s@, i as int, hi as int) == spec_last_token(s@, i as int, j - 1),
        decreases j,
    {
        j -= 1;
        if text::match_at(s, j, " target(s) in ") {
            proof {
                reveal_strlit(" target(s) in ");
                assert(spec_last_token(s@, i as int, j as int) == Some(j as int));
            }
            return Some(j);
        }
        proof {
            assert(spec_last_token(s@, i as int, j as int) == spec_last_token(
                s@,
                i as int,
                j - 1,
            ));
        }
    }
    proof {
        lemma_last_token_below(s@, i as int, j - 1);
    }
    None
}

/// A search window below the line head holds no token.
proof fn lemma_last_token_below(s: Seq<char>, i: int, hi: int)
    requires
        hi < i + 9,
    ensures
        spec_last_token(s, i, hi) is None,
{
}

} // verus!
