//! The identity of the machine measurements are taken on: logical and
//! physical core counts, and the CPU model read out of the kernel's processor
//! listing. Results are only comparable within one host, so this identity
//! scopes the stored result files.

use vstd::prelude::*;

use crate::text;

verus! {

/// What scopes a result file: timings are not portable across hardware.
#[derive(Debug)]
pub struct SystemInfo {
    pub num_cores: usize,
    pub num_physical_cores: usize,
    pub cpu_model: String,
}

/// Relies on `num_cpus::get`: reports the number of logical CPUs, always at
/// least one.
#[verifier::external_body]
fn logical_core_count() -> (n: usize)
    ensures
        n >= 1,
{
    num_cpus::get()
}

/// Relies on `num_cpus::get_physical`: reports the number of physical CPUs,
/// always at least one.
#[verifier::external_body]
fn physical_core_count() -> (n: usize)
    ensures
        n >= 1,
{
    num_cpus::get_physical()
}

/// The start of a processor-model line: the text `model name` with a `: `
/// later on the same line.
pub open spec fn spec_model_start_at(s: Seq<char>, i: int) -> bool {
    let nl = text::spec_scan(s, i + 10, model_nl_p());
    &&& text::spec_match_at(s, i, "model name"@)
    &&& text::spec_last_occurrence(s, i + 10, nl - 2, ": "@) is Some
}

pub open spec fn model_nl_p() -> spec_fn(char) -> bool {
    |c: char| c == '\n'
}

/// The first processor-model line at or after `i`.
pub open spec fn spec_first_model_start(s: Seq<char>, i: int) -> Option<int>
    decreases s.len() - i,
{
    if i < 0 || i + 10 > s.len() {
        None
    } else if spec_model_start_at(s, i) {
        Some(i)
    } else {
        spec_first_model_start(s, i + 1)
    }
}

/// The CPU model a processor listing names: on the first `model name` line,
/// everything after the last `: ` up to the end of the line.
pub open spec fn spec_cpu_model(s: Seq<char>) -> Option<Seq<char>> {
    match spec_first_model_start(s, 0) {
        None => None,
        Some(i) => {
            let nl = text::spec_scan(s, i + 10, model_nl_p());
            match text::spec_last_occurrence(s, i + 10, nl - 2, ": "@) {
                None => None,
                Some(j) => Some(s.subrange(j + 2, nl)),
            }
        },
    }
}

/// Extracts the CPU model from a processor listing.
pub fn cpu_model_from(s: &str) -> (r: Option<String>)
    ensures
        match r {
            Some(m) => spec_cpu_model(s@) == Some(m@),
            None => spec_cpu_model(s@) is None,
        },
{
    let n = s.unicode_len();
    if n < 10 {
        proof {
            assert(spec_first_model_start(s@, 0) is None);
        }
        return None;
    }
    let mut i: usize = 0;
    while i <= n - 10
        invariant
            10 <= n,
            i <= n - 10 + 1,
            n == s@.len(),
            spec_first_model_start(s@, 0) == spec_first_model_start(s@, i as int),
        decreases n - i,
    {
        if text::match_at(s, i, "model name") {
            let nl = find_model_line_end(s, i + 10);
            let tok = text::find_last_occurrence(s, i + 10, nl - 2, ": ");
            match tok {
                Some(j) => {
                    proof {
                        assert(spec_model_start_at(s@, i as int));
                        assert(spec_first_model_start(s@, i as int) == Some(i as int));
                        reveal_strlit(": ");
                    }
                    let m = s.substring_char(j + 2, nl).to_owned();
                    proof {
                        assert(m@ =~= s@.subrange(j + 2, nl as int));
                    }
                    return Some(m);
                },
                None => {
                    proof {
                        assert(!spec_model_start_at(s@, i as int));
                    }
                },
            }
        } else {
            proof {
                assert(!spec_model_start_at(s@, i as int));
            }
        }
        proof {
            assert(spec_first_model_start(s@, i as int) == spec_first_model_start(s@, i + 1));
        }
        i += 1;
    }
    proof {
        assert(spec_first_model_start(s@, i as int) is None);
    }
    None
}

/// First newline at or after `from`, else the length.
fn find_model_line_end(s: &str, from: usize) -> (j: usize)
    requires
        from <= s@.len(),
    ensures
        j as int == text::spec_scan(s@, from as int, model_nl_p()),
        from <= j <= s@.len(),
{
    let n = s.unicode_len();
    let mut j = from;
    while j < n && s.get_char(j) != '\n'
        invariant
            from <= j <= n,
            n == s@.len(),
            forall|t: int| from <= t < j ==> s@[t] != '\n',
        decreases n - j,
    {
        j += 1;
    }
    proof {
        text::lemma_spec_scan_is(s@, from as int, model_nl_p(), j as int);
    }
    j
}

impl SystemInfo {
    /// Builds the host identity from the machine's core counts and its
    /// processor listing; `None` when the listing names no model.
    pub fn new(cpuinfo: &str) -> (r: Option<SystemInfo>)
        ensures
            match r {
                Some(si) => {
                    &&& spec_cpu_model(cpuinfo@) == Some(si.cpu_model@)
                    &&& si.num_cores >= 1
                    &&& si.num_physical_cores >= 1
                },
                None => spec_cpu_model(cpuinfo@) is None,
            },
    {
        match cpu_model_from(cpuinfo) {
            Some(model) => Some(
                SystemInfo {
                    num_cores: logical_core_count(),
                    num_physical_cores: physical_core_count(),
                    cpu_model: model,
                },
            ),
            None => None,
        }
    }
}

} // verus!
