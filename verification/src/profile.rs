//! The per-repo profile record: timing buckets keyed by version, compiler
//! mode and profile mode, plus artifact sizes keyed by version and compiler
//! mode; and the resumability logic that computes which versions still need
//! measuring.

use vstd::prelude::*;

use crate::assoc;
use crate::cargo::{Bytes, CompilerMode, Milliseconds, ProfileMode};
use crate::rustup;
use crate::rustup::Version;

verus! {

/// The key of one timing bucket.
#[derive(Debug, Clone, Copy, PartialEq, Eq, Structural)]
pub struct CompileTimeKey {
    pub version: Version,
    pub compiler_mode: CompilerMode,
    pub profile_mode: ProfileMode,
}

/// The key of one artifact-size entry.
#[derive(Debug, Clone, Copy, PartialEq, Eq, Structural)]
pub struct SizeKey {
    pub version: Version,
    pub compiler_mode: CompilerMode,
}

/// The key of a bucket within one version's grid, before the version is
/// attached.
#[derive(Debug, Clone, Copy, PartialEq, Eq, Structural)]
pub struct ModeKey {
    pub compiler_mode: CompilerMode,
    pub profile_mode: ProfileMode,
}

/// What a `Profile` denotes: two maps.
#[verifier::ext_equal]
pub struct ProfileView {
    pub compile_times: Map<CompileTimeKey, Seq<Milliseconds>>,
    pub output_sizes: Map<SizeKey, Bytes>,
}

/// The accumulated measurements of one sample project. Entries are only ever
/// added or overwritten, never removed.
#[derive(Debug)]
pub struct Profile {
    compile_times: Vec<(CompileTimeKey, Vec<Milliseconds>)>,
    output_sizes: Vec<(SizeKey, Bytes)>,
}

impl Profile {
    pub closed spec fn ct_entries(self) -> Seq<(CompileTimeKey, Seq<Milliseconds>)> {
        self.compile_times@.map_values(
            |p: (CompileTimeKey, Vec<Milliseconds>)| (p.0, p.1@),
        )
    }

    pub closed spec fn sz_entries(self) -> Seq<(SizeKey, Bytes)> {
        self.output_sizes@
    }

    /// Each key appears at most once in its list.
    pub closed spec fn wf(self) -> bool {
        assoc::unique_keys(self.ct_entries()) && assoc::unique_keys(self.sz_entries())
    }
}

impl View for Profile {
    type V = ProfileView;

    closed spec fn view(&self) -> ProfileView {
        ProfileView {
            compile_times: assoc::assoc_map(self.ct_entries()),
            output_sizes: assoc::assoc_map(self.sz_entries()),
        }
    }
}

/// A version is fully profiled when all nine timing buckets and both size
/// entries exist for it.
pub open spec fn spec_version_profiled(pv: ProfileView, version: Version) -> bool {
    &&& forall|cm: CompilerMode, pm: ProfileMode|
        pv.compile_times.contains_key(
            (CompileTimeKey { version: version, compiler_mode: cm, profile_mode: pm }),
        )
    &&& pv.output_sizes.contains_key(
        (SizeKey { version: version, compiler_mode: CompilerMode::Debug }),
    )
    &&& pv.output_sizes.contains_key(
        (SizeKey { version: version, compiler_mode: CompilerMode::Release }),
    )
}

/// The versions a sweep still owes work for: at or past the repo's minimum,
/// and not yet fully profiled.
pub open spec fn resume_pred(pv: ProfileView, min: Version) -> spec_fn(Version) -> bool {
    |v: Version| v.spec_ordinal() >= min.spec_ordinal() && !spec_version_profiled(pv, v)
}

impl Profile {
    /// An empty record: nothing measured yet.
    pub fn new() -> (p: Profile)
        ensures
            p.wf(),
            p@.compile_times == Map::<CompileTimeKey, Seq<Milliseconds>>::empty(),
            p@.output_sizes == Map::<SizeKey, Bytes>::empty(),
    {
        let p = Profile { compile_times: Vec::new(), output_sizes: Vec::new() };
        proof {
            assert(p.ct_entries() =~= Seq::<(CompileTimeKey, Seq<Milliseconds>)>::empty());
        }
        p
    }

    /// The index of a timing key's entry, if present.
    fn find_ct(&self, k: CompileTimeKey) -> (r: Option<usize>)
        ensures
            match r {
                Some(i) => i < self.compile_times@.len() && self.ct_entries()[i as int].0 == k,
                None => forall|t: int|
                    0 <= t < self.ct_entries().len() ==> (#[trigger] self.ct_entries()[t]).0 != k,
            },
    {
        let mut i: usize = 0;
        let n = self.compile_times.len();
        while i < n
            invariant
                i <= n,
                n == self.compile_times@.len(),
                forall|t: int| 0 <= t < i ==> (#[trigger] self.ct_entries()[t]).0 != k,
            decreases n - i,
        {
            if self.compile_times[i].0 == k {
                return Some(i);
            }
            i += 1;
        }
        None
    }

    /// The index of a size key's entry, if present.
    fn find_sz(&self, k: SizeKey) -> (r: Option<usize>)
        ensures
            match r {
                Some(i) => i < self.output_sizes@.len() && self.sz_entries()[i as int].0 == k,
                None => forall|t: int|
                    0 <= t < self.sz_entries().len() ==> (#[trigger] self.sz_entries()[t]).0 != k,
            },
    {
        let mut i: usize = 0;
        let n = self.output_sizes.len();
        while i < n
            invariant
                i <= n,
                n == self.output_sizes@.len(),
                forall|t: int| 0 <= t < i ==> (#[trigger] self.sz_entries()[t]).0 != k,
            decreases n - i,
        {
            if self.output_sizes[i].0 == k {
                return Some(i);
            }
            i += 1;
        }
        None
    }

    /// Whether a timing bucket exists for this key.
    pub fn contains_compile_times(&self, k: CompileTimeKey) -> (b: bool)
        ensures
            b == self@.compile_times.contains_key(k),
    {
        let r = self.find_ct(k);
        proof {
            assoc::lemma_assoc_map_domain(self.ct_entries(), k);
        }
        r.is_some()
    }

    /// Whether a size entry exists for this key.
    pub fn contains_output_size(&self, k: SizeKey) -> (b: bool)
        ensures
            b == self@.output_sizes.contains_key(k),
    {
        let r = self.find_sz(k);
        proof {
            assoc::lemma_assoc_map_domain(self.sz_entries(), k);
        }
        r.is_some()
    }

    /// The samples recorded for one timing bucket, if any.
    pub fn get_compile_times(&self, k: CompileTimeKey) -> (r: Option<&Vec<Milliseconds>>)
        requires
            self.wf(),
        ensures
            match r {
                Some(v) => self@.compile_times.contains_key(k) && self@.compile_times[k] == v@,
                None => !self@.compile_times.contains_key(k),
            },
    {
        proof {
            assoc::lemma_assoc_map_domain(self.ct_entries(), k);
        }
        match self.find_ct(k) {
            Some(i) => {
                proof {
                    assoc::lemma_assoc_map_index(self.ct_entries(), i as int, k);
                }
                Some(&self.compile_times[i].1)
            },
            None => None,
        }
    }

    /// The size recorded for one artifact, if any.
    pub fn get_output_size(&self, k: SizeKey) -> (r: Option<Bytes>)
        requires
            self.wf(),
        ensures
            match r {
                Some(v) => self@.output_sizes.contains_key(k) && self@.output_sizes[k] == v,
                None => !self@.output_sizes.contains_key(k),
            },
    {
        proof {
            assoc::lemma_assoc_map_domain(self.sz_entries(), k);
        }
        match self.find_sz(k) {
            Some(i) => {
                proof {
                    assoc::lemma_assoc_map_index(self.sz_entries(), i as int, k);
                }
                Some(self.output_sizes[i].1)
            },
            None => None,
        }
    }

    /// Adds or overwrites one timing bucket.
    fn insert_ct(&mut self, k: CompileTimeKey, v: Vec<Milliseconds>)
        requires
            old(self).wf(),
        ensures
            final(self).wf(),
            final(self)@.compile_times == old(self)@.compile_times.insert(k, v@),
            final(self)@.output_sizes == old(self)@.output_sizes,
    {
        let ghost entries0 = self.ct_entries();
        match self.find_ct(k) {
            Some(i) => {
                self.compile_times.set(i, (k, v));
                proof {
                    assert(self.ct_entries() =~= entries0.update(i as int, (k, v@)));
                    assoc::lemma_assoc_map_update(entries0, i as int, k, v@);
                    assoc::lemma_unique_keys_update(entries0, i as int, k, v@);
                }
            },
            None => {
                self.compile_times.push((k, v));
                proof {
                    assert(self.ct_entries() =~= entries0.push((k, v@)));
                    assoc::lemma_assoc_map_push(entries0, k, v@);
                    assoc::lemma_unique_keys_push(entries0, k, v@);
                }
            },
        }
    }

    /// Adds or overwrites one size entry.
    fn insert_sz(&mut self, k: SizeKey, v: Bytes)
        requires
            old(self).wf(),
        ensures
            final(self).wf(),
            final(self)@.output_sizes == old(self)@.output_sizes.insert(k, v),
            final(self)@.compile_times == old(self)@.compile_times,
    {
        let ghost entries0 = self.sz_entries();
        match self.find_sz(k) {
            Some(i) => {
                self.output_sizes.set(i, (k, v));
                proof {
                    assert(self.sz_entries() =~= entries0.update(i as int, (k, v)));
                    assoc::lemma_assoc_map_update(entries0, i as int, k, v);
                    assoc::lemma_unique_keys_update(entries0, i as int, k, v);
                    assert(self.ct_entries() =~= old(self).ct_entries());
                }
            },
            None => {
                self.output_sizes.push((k, v));
                proof {
                    assert(self.sz_entries() =~= entries0.push((k, v)));
                    assoc::lemma_assoc_map_push(entries0, k, v);
                    assoc::lemma_unique_keys_push(entries0, k, v);
                    assert(self.ct_entries() =~= old(self).ct_entries());
                }
            },
        }
    }

    /// Adds or overwrites one timing bucket under its full key.
    pub fn insert_compile_times(&mut self, k: CompileTimeKey, v: Vec<Milliseconds>)
        requires
            old(self).wf(),
        ensures
            final(self).wf(),
            final(self)@.compile_times == old(self)@.compile_times.insert(k, v@),
            final(self)@.output_sizes == old(self)@.output_sizes,
    {
        self.insert_ct(k, v);
    }

    /// Adds or overwrites one size entry under its full key.
    pub fn insert_output_size(&mut self, k: SizeKey, b: Bytes)
        requires
            old(self).wf(),
        ensures
            final(self).wf(),
            final(self)@.output_sizes == old(self)@.output_sizes.insert(k, b),
            final(self)@.compile_times == old(self)@.compile_times,
    {
        self.insert_sz(k, b);
    }

    /// How many timing buckets the record holds.
    pub fn compile_times_len(&self) -> (n: usize)
        ensures
            n == self.ct_entries().len(),
    {
        self.compile_times.len()
    }

    /// The timing bucket at one position of the record.
    pub fn compile_times_at(&self, i: usize) -> (r: (CompileTimeKey, &Vec<Milliseconds>))
        requires
            i < self.ct_entries().len(),
        ensures
            (r.0, r.1@) == self.ct_entries()[i as int],
    {
        let e = &self.compile_times[i];
        (e.0, &e.1)
    }

    /// How many size entries the record holds.
    pub fn output_sizes_len(&self) -> (n: usize)
        ensures
            n == self.sz_entries().len(),
    {
        self.output_sizes.len()
    }

    /// The size entry at one position of the record.
    pub fn output_sizes_at(&self, i: usize) -> (r: (SizeKey, Bytes))
        requires
            i < self.sz_entries().len(),
        ensures
            r == self.sz_entries()[i as int],
    {
        let e = &self.output_sizes[i];
        (e.0, e.1)
    }

    /// Records one version's grid of timing buckets, one bucket per mode
    /// pair, overwriting any bucket already present for the same key.
    pub fn add_compile_times(&mut self, version: Version, compile_times: Vec<(ModeKey, Vec<Milliseconds>)>)
        requires
            old(self).wf(),
        ensures
            final(self).wf(),
            final(self)@.compile_times == spec_add_grid(
                old(self)@.compile_times,
                version,
                grid_entries(compile_times),
            ),
            final(self)@.output_sizes == old(self)@.output_sizes,
    {
        let ghost g0 = grid_entries(compile_times);
        let mut grid = compile_times;
        while grid.len() > 0
            invariant
                self.wf(),
                spec_add_grid(self@.compile_times, version, grid_entries(grid)) == spec_add_grid(
                    old(self)@.compile_times,
                    version,
                    g0,
                ),
                self@.output_sizes == old(self)@.output_sizes,
            decreases grid.len(),
        {
            let ghost before = grid_entries(grid);
            let (k, v) = grid.pop().unwrap();
            proof {
                assert(grid_entries(grid) =~= before.drop_last());
                assert(before.last() == (k, v@));
            }
            self.insert_ct(
                CompileTimeKey {
                    version: version,
                    compiler_mode: k.compiler_mode,
                    profile_mode: k.profile_mode,
                },
                v,
            );
        }
        proof {
            assert(grid_entries(grid) =~= Seq::<(ModeKey, Seq<Milliseconds>)>::empty());
        }
    }

    /// Records both artifact sizes for one version.
    pub fn add_output_sizes(&mut self, version: Version, debug_size: Bytes, release_size: Bytes)
        requires
            old(self).wf(),
        ensures
            final(self).wf(),
            final(self)@.output_sizes == old(self)@.output_sizes.insert(
                (SizeKey { version: version, compiler_mode: CompilerMode::Debug }),
                debug_size,
            ).insert(
                (SizeKey { version: version, compiler_mode: CompilerMode::Release }),
                release_size,
            ),
            final(self)@.compile_times == old(self)@.compile_times,
    {
        self.insert_sz(
            SizeKey { version: version, compiler_mode: CompilerMode::Debug },
            debug_size,
        );
        self.insert_sz(
            SizeKey { version: version, compiler_mode: CompilerMode::Release },
            release_size,
        );
    }

    /// Whether every timing bucket and both size entries exist for a version.
    pub fn version_profiled(&self, version: &Version) -> (b: bool)
        ensures
            b == spec_version_profiled(self@, *version),
    {
        let v = *version;
        let c1 = self.contains_compile_times(
            CompileTimeKey {
                version: v,
                compiler_mode: CompilerMode::Check,
                profile_mode: ProfileMode::Clean,
            },
        );
        let c2 = self.contains_compile_times(
            CompileTimeKey {
                version: v,
                compiler_mode: CompilerMode::Check,
                profile_mode: ProfileMode::Incremental,
            },
        );
        let c3 = self.contains_compile_times(
            CompileTimeKey {
                version: v,
                compiler_mode: CompilerMode::Check,
                profile_mode: ProfileMode::PatchIncremental,
            },
        );
        let c4 = self.contains_compile_times(
            CompileTimeKey {
                version: v,
                compiler_mode: CompilerMode::Debug,
                profile_mode: ProfileMode::Clean,
            },
        );
        let c5 = self.contains_compile_times(
            CompileTimeKey {
                version: v,
                compiler_mode: CompilerMode::Debug,
                profile_mode: ProfileMode::Incremental,
            },
        );
        let c6 = self.contains_compile_times(
            CompileTimeKey {
                version: v,
                compiler_mode: CompilerMode::Debug,
                profile_mode: ProfileMode::PatchIncremental,
            },
        );
        let c7 = self.contains_compile_times(
            CompileTimeKey {
                version: v,
                compiler_mode: CompilerMode::Release,
                profile_mode: ProfileMode::Clean,
            },
        );
        let c8 = self.contains_compile_times(
            CompileTimeKey {
                version: v,
                compiler_mode: CompilerMode::Release,
                profile_mode: ProfileMode::Incremental,
            },
        );
        let c9 = self.contains_compile_times(
            CompileTimeKey {
                version: v,
                compiler_mode: CompilerMode::Release,
                profile_mode: ProfileMode::PatchIncremental,
            },
        );
        let s1 = self.contains_output_size(
            SizeKey { version: v, compiler_mode: CompilerMode::Debug },
        );
        let s2 = self.contains_output_size(
            SizeKey { version: v, compiler_mode: CompilerMode::Release },
        );
        let b = c1 && c2 && c3 && c4 && c5 && c6 && c7 && c8 && c9 && s1 && s2;
        proof {
            if b {
                assert forall|cm: CompilerMode, pm: ProfileMode|
                    self@.compile_times.contains_key(
                        (CompileTimeKey { version: v, compiler_mode: cm, profile_mode: pm }),
                    ) by {
                    match cm {
                        CompilerMode::Check => {
                            match pm {
                                ProfileMode::Clean => {},
                                ProfileMode::Incremental => {},
                                ProfileMode::PatchIncremental => {},
                            }
                        },
                        CompilerMode::Debug => {
                            match pm {
                                ProfileMode::Clean => {},
                                ProfileMode::Incremental => {},
                                ProfileMode::PatchIncremental => {},
                            }
                        },
                        CompilerMode::Release => {
                            match pm {
                                ProfileMode::Clean => {},
                                ProfileMode::Incremental => {},
                                ProfileMode::PatchIncremental => {},
                            }
                        },
                    }
                }
            }
        }
        b
    }

    /// The ordered versions still to be profiled: the catalog entries at or
    /// past the repo's minimum whose record is not yet complete.
    pub fn versions_to_profile(&self, min_version: Version) -> (r: Vec<Version>)
        ensures
            r@ == rustup::spec_catalog().filter(resume_pred(self@, min_version)),
    {
        let cat = rustup::catalog();
        let mut out: Vec<Version> = Vec::new();
        let n = cat.len();
        let mut i: usize = 0;
        while i < n
            invariant
                i <= n,
                n == cat@.len(),
                cat@ == rustup::spec_catalog(),
                out@ == rustup::spec_catalog().take(i as int).filter(
                    resume_pred(self@, min_version),
                ),
            decreases n - i,
        {
            let v = cat[i];
            let ghost p = resume_pred(self@, min_version);
            let ghost pre = rustup::spec_catalog().take(i as int);
            let ghost post = rustup::spec_catalog().take(i + 1);
            proof {
                assert(post.drop_last() =~= pre);
                assert(post.last() == v);
            }
            if v.ordinal() >= min_version.ordinal() && !self.version_profiled(&v) {
                out.push(v);
                proof {
                    reveal(Seq::filter);
                    assert(p(v));
                    assert(post.filter(p) == pre.filter(p).push(v));
                    assert(out@ == post.filter(p));
                }
            } else {
                proof {
                    reveal(Seq::filter);
                    assert(!p(v));
                    assert(post.filter(p) == pre.filter(p));
                    assert(out@ == post.filter(p));
                }
            }
            i += 1;
            proof {
                assert(rustup::spec_catalog().take(i as int) == post);
            }
        }
        proof {
            assert(rustup::spec_catalog().take(n as int) =~= rustup::spec_catalog());
        }
        out
    }
}

/// A record's view is the map its entry lists denote.
pub proof fn lemma_profile_view(p: Profile)
    ensures
        p@.compile_times == assoc::assoc_map(p.ct_entries()),
        p@.output_sizes == assoc::assoc_map(p.sz_entries()),
{
}

/// The pairs of an entry list, bucket contents as sequences.
pub open spec fn ct_pairs_view(v: Seq<(CompileTimeKey, Vec<Milliseconds>)>) -> Seq<
    (CompileTimeKey, Seq<Milliseconds>),
> {
    v.map_values(|p: (CompileTimeKey, Vec<Milliseconds>)| (p.0, p.1@))
}

/// Builds a record from plain entry lists; a repeated key keeps its later
/// entry, as inserting in order would.
pub fn profile_from_entries(
    ct: Vec<(CompileTimeKey, Vec<Milliseconds>)>,
    sz: Vec<(SizeKey, Bytes)>,
) -> (p: Profile)
    ensures
        p.wf(),
        p@.compile_times == assoc::assoc_map(ct_pairs_view(ct@)),
        p@.output_sizes == assoc::assoc_map(sz@),
{
    let mut p = Profile::new();
    let ghost cts = ct_pairs_view(ct@);
    let n = ct.len();
    let mut i: usize = 0;
    while i < n
        invariant
            i <= n,
            n == ct@.len(),
            cts == ct_pairs_view(ct@),
            p.wf(),
            p@.compile_times == assoc::assoc_map(cts.take(i as int)),
            p@.output_sizes == Map::<SizeKey, Bytes>::empty(),
        decreases n - i,
    {
        let ghost pre = cts.take(i as int);
        let (k, v) = ct_entry_clone(&ct[i]);
        proof {
            assert(cts.take(i + 1).drop_last() =~= pre);
            assert(cts.take(i + 1).last() == (k, v@));
            assoc::lemma_assoc_map_push(pre, k, v@);
            assert(pre.push((k, v@)) =~= cts.take(i + 1));
        }
        p.insert_ct(k, v);
        i += 1;
    }
    proof {
        assert(cts.take(n as int) =~= cts);
    }
    let m = sz.len();
    let mut j: usize = 0;
    while j < m
        invariant
            j <= m,
            m == sz@.len(),
            p.wf(),
            p@.compile_times == assoc::assoc_map(ct_pairs_view(ct@)),
            cts == ct_pairs_view(ct@),
            p@.compile_times == assoc::assoc_map(cts),
            p@.output_sizes == assoc::assoc_map(sz@.take(j as int)),
        decreases m - j,
    {
        let ghost pre = sz@.take(j as int);
        let (k, b) = sz[j];
        proof {
            assert(sz@.take(j + 1).drop_last() =~= pre);
            assert(sz@.take(j + 1).last() == (k, b));
            assoc::lemma_assoc_map_push(pre, k, b);
            assert(pre.push((k, b)) =~= sz@.take(j + 1));
        }
        p.insert_sz(k, b);
        j += 1;
    }
    proof {
        assert(sz@.take(m as int) =~= sz@);
    }
    p
}

/// Copies one bucket entry out of a borrowed list.
fn ct_entry_clone(e: &(CompileTimeKey, Vec<Milliseconds>)) -> (r: (
    CompileTimeKey,
    Vec<Milliseconds>,
))
    ensures
        r.0 == e.0,
        r.1@ == e.1@,
{
    let mut v: Vec<Milliseconds> = Vec::new();
    let n = e.1.len();
    let mut i: usize = 0;
    while i < n
        invariant
            i <= n,
            n == e.1@.len(),
            v@ == e.1@.take(i as int),
        decreases n - i,
    {
        v.push(e.1[i]);
        proof {
            assert(e.1@.take(i + 1) =~= e.1@.take(i as int).push(e.1@[i as int]));
        }
        i += 1;
    }
    proof {
        assert(e.1@.take(n as int) =~= e.1@);
    }
    (e.0, v)
}

/// The view of a version's grid of buckets.
pub open spec fn grid_entries(g: Vec<(ModeKey, Vec<Milliseconds>)>) -> Seq<
    (ModeKey, Seq<Milliseconds>),
> {
    g@.map_values(|p: (ModeKey, Vec<Milliseconds>)| (p.0, p.1@))
}

/// The timing map after one version's grid is folded in, later-to-earlier,
/// so earlier grid entries win when a mode pair repeats (it never does in a
/// well-formed grid).
pub open spec fn spec_add_grid(
    m: Map<CompileTimeKey, Seq<Milliseconds>>,
    version: Version,
    g: Seq<(ModeKey, Seq<Milliseconds>)>,
) -> Map<CompileTimeKey, Seq<Milliseconds>>
    decreases g.len(),
{
    if g.len() == 0 {
        m
    } else {
        spec_add_grid(
            m.insert(
                (CompileTimeKey {
                    version: version,
                    compiler_mode: g.last().0.compiler_mode,
                    profile_mode: g.last().0.profile_mode,
                }),
                g.last().1,
            ),
            version,
            g.drop_last(),
        )
    }
}

/// A version never fully profiled stays owed exactly when it is at or past
/// the minimum: membership in the resume plan, characterized.
pub proof fn lemma_versions_to_profile_membership(pv: ProfileView, min: Version, v: Version)
    ensures
        rustup::spec_catalog().filter(resume_pred(pv, min)).contains(v) <==> (v.spec_ordinal()
            >= min.spec_ordinal() && !spec_version_profiled(pv, v)),
{
    let cat = rustup::spec_catalog();
    let p = resume_pred(pv, min);
    rustup::lemma_catalog_ordinals();
    if p(v) {
        let i = v.spec_ordinal() - 34;
        assert(cat[i] == v) by {
            lemma_catalog_at_ordinal(v);
        }
        cat.lemma_filter_contains(p, i);
        assert(cat.filter(p).contains(cat[i]));
    }
    if cat.filter(p).contains(v) {
        let j = choose|j: int| 0 <= j < cat.filter(p).len() && cat.filter(p)[j] == v;
        cat.lemma_filter_pred(p, j);
    }
}

/// Each version sits in the catalog at its ordinal's offset.
proof fn lemma_catalog_at_ordinal(v: Version)
    ensures
        0 <= v.spec_ordinal() - 34 < rustup::spec_catalog().len(),
        rustup::spec_catalog()[v.spec_ordinal() - 34] == v,
{
    match v {
        Version::V1_34 => {},
        Version::V1_35 => {},
        Version::V1_36 => {},
        Version::V1_37 => {},
        Version::V1_38 => {},
        Version::V1_39 => {},
        Version::V1_40 => {},
        Version::V1_41 => {},
        Version::V1_42 => {},
        Version::V1_43 => {},
        Version::V1_44 => {},
        Version::V1_45 => {},
        Version::V1_46 => {},
        Version::V1_47 => {},
        Version::V1_48 => {},
        Version::V1_49 => {},
        Version::V1_50 => {},
        Version::V1_51 => {},
        Version::V1_52 => {},
        Version::V1_53 => {},
    }
}

/// Filtering an upward-closed predicate out of a sequence keeps exactly a
/// suffix.
proof fn lemma_filter_is_suffix(s: Seq<Version>, p: spec_fn(Version) -> bool, k: int)
    requires
        0 <= k <= s.len(),
        forall|i: int| 0 <= i < s.len() ==> (p(#[trigger] s[i]) <==> i >= k),
    ensures
        s.filter(p) == s.skip(k),
    decreases s.len(),
{
    reveal(Seq::filter);
    if s.len() == 0 {
        assert(s.filter(p) =~= s.skip(k));
    } else {
        let s0 = s.drop_last();
        assert(s.last() == s[s.len() - 1]);
        if k <= s.len() - 1 {
            assert forall|i: int| 0 <= i < s0.len() implies (p(#[trigger] s0[i]) <==> i >= k) by {
                assert(s0[i] == s[i]);
            }
            lemma_filter_is_suffix(s0, p, k);
            assert(p(s[s.len() - 1]));
            assert(s.filter(p) == s0.skip(k).push(s.last()));
            assert(s0.skip(k).push(s.last()) =~= s.skip(k));
        } else {
            assert forall|i: int|
                0 <= i < s0.len() implies (p(#[trigger] s0[i]) <==> i >= s0.len() as int) by {
                assert(s0[i] == s[i]);
            }
            lemma_filter_is_suffix(s0, p, s0.len() as int);
            assert(!p(s[s.len() - 1]));
            assert(s0.skip(s0.len() as int) =~= Seq::<Version>::empty());
            assert(s.filter(p) == s0.filter(p));
            assert(s0.filter(p) =~= s.skip(k));
        }
    }
}

/// On an empty record the resume plan is the whole catalog suffix that
/// starts at the minimum version.
pub proof fn lemma_versions_to_profile_empty(pv: ProfileView, min: Version)
    requires
        pv.compile_times == Map::<CompileTimeKey, Seq<Milliseconds>>::empty(),
        pv.output_sizes == Map::<SizeKey, Bytes>::empty(),
    ensures
        rustup::spec_catalog().filter(resume_pred(pv, min)) == rustup::spec_catalog().skip(
            min.spec_ordinal() - 34,
        ),
{
    let cat = rustup::spec_catalog();
    let p = resume_pred(pv, min);
    let k = min.spec_ordinal() - 34;
    rustup::lemma_catalog_ordinals();
    lemma_catalog_at_ordinal(min);
    assert forall|v: Version| !spec_version_profiled(pv, v) by {
        assert(!pv.output_sizes.contains_key(
            (SizeKey { version: v, compiler_mode: CompilerMode::Debug }),
        ));
    }
    assert forall|i: int| 0 <= i < cat.len() implies (p(#[trigger] cat[i]) <==> i >= k) by {
        assert(cat[i].spec_ordinal() == 34 + i);
        assert(!spec_version_profiled(pv, cat[i]));
    }
    lemma_filter_is_suffix(cat, p, k);
}

} // verus!
