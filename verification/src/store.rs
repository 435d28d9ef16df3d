//! The host-scoped record store: the set of per-repo profile records, the
//! merge with the current repo catalog, and the result-file name derived
//! from the host identity.

use vstd::prelude::*;

use crate::assoc;
use crate::profile::Profile;
use crate::profile::ProfileView;
use crate::repo::Repo;
use crate::repo::spec_path_join;
use crate::repo::path_join;
use crate::system::SystemInfo;
use crate::text;

verus! {

/// The in-memory record set: one profile per repo name.
#[derive(Debug)]
pub struct ProfileSet {
    entries: Vec<(String, Profile)>,
}

/// The record of a repo nothing has been measured for.
pub open spec fn spec_empty_profile() -> ProfileView {
    ProfileView { compile_times: Map::empty(), output_sizes: Map::empty() }
}

impl ProfileSet {
    /// The held entries themselves, names as character sequences.
    pub closed spec fn raw_entries(self) -> Seq<(Seq<char>, Profile)> {
        self.entries@.map_values(|p: (String, Profile)| (p.0@, p.1))
    }

    pub closed spec fn entries(self) -> Seq<(Seq<char>, ProfileView)> {
        self.entries@.map_values(|p: (String, Profile)| (p.0@, p.1@))
    }

    /// Unique repo names, and every held record well formed.
    pub closed spec fn wf(self) -> bool {
        &&& assoc::unique_keys(self.entries())
        &&& forall|i: int| 0 <= i < self.entries@.len() ==> (#[trigger] self.entries@[i]).1.wf()
    }
}

impl View for ProfileSet {
    type V = Map<Seq<char>, ProfileView>;

    closed spec fn view(&self) -> Map<Seq<char>, ProfileView> {
        assoc::assoc_map(self.entries())
    }
}

impl ProfileSet {
    /// An empty record set.
    pub fn new() -> (s: ProfileSet)
        ensures
            s.wf(),
            s@ == Map::<Seq<char>, ProfileView>::empty(),
            s.entries().len() == 0,
    {
        let s = ProfileSet { entries: Vec::new() };
        proof {
            assert(s.entries() =~= Seq::<(Seq<char>, ProfileView)>::empty());
        }
        s
    }

    /// How many repos the set holds records for.
    pub fn len(&self) -> (n: usize)
        ensures
            n == self.entries().len(),
    {
        self.entries.len()
    }

    /// The repo name at one position of the set.
    pub fn name_at(&self, i: usize) -> (r: &String)
        requires
            i < self.entries().len(),
        ensures
            r@ == self.entries()[i as int].0,
    {
        &self.entries[i].0
    }

    /// The record at one position of the set.
    pub fn profile_at(&self, i: usize) -> (r: &Profile)
        requires
            i < self.entries().len(),
        ensures
            *r == self.raw_entries()[i as int].1,
            r@ == self.entries()[i as int].1,
            self.wf() ==> r.wf(),
    {
        &self.entries[i].1
    }

    /// The index of a repo's entry, if present.
    fn find(&self, name: &str) -> (r: Option<usize>)
        ensures
            match r {
                Some(i) => i < self.entries().len() && self.entries()[i as int].0 == name@,
                None => forall|t: int|
                    0 <= t < self.entries().len() ==> (#[trigger] self.entries()[t]).0 != name@,
            },
    {
        let mut i: usize = 0;
        let n = self.entries.len();
        while i < n
            invariant
                i <= n,
                n == self.entries@.len(),
                forall|t: int| 0 <= t < i ==> (#[trigger] self.entries()[t]).0 != name@,
            decreases n - i,
        {
            if text::str_eq(self.entries[i].0.as_str(), name) {
                return Some(i);
            }
            i += 1;
        }
        None
    }

    /// Whether a repo has a record.
    pub fn contains(&self, name: &str) -> (b: bool)
        ensures
            b == self@.contains_key(name@),
    {
        let r = self.find(name);
        proof {
            assoc::lemma_assoc_map_domain(self.entries(), name@);
        }
        r.is_some()
    }

    /// A shared look at a repo's record.
    pub fn get(&self, name: &str) -> (r: Option<&Profile>)
        requires
            self.wf(),
        ensures
            match r {
                Some(p) => self@.contains_key(name@) && self@[name@] == p@ && p.wf(),
                None => !self@.contains_key(name@),
            },
    {
        proof {
            assoc::lemma_assoc_map_domain(self.entries(), name@);
        }
        match self.find(name) {
            Some(i) => {
                proof {
                    assoc::lemma_assoc_map_index(self.entries(), i as int, name@);
                }
                Some(&self.entries[i].1)
            },
            None => None,
        }
    }

    /// Adds or replaces a repo's record.
    pub fn insert(&mut self, name: String, p: Profile)
        requires
            old(self).wf(),
            p.wf(),
        ensures
            final(self).wf(),
            final(self)@ == old(self)@.insert(name@, p@),
    {
        let ghost entries0 = self.entries();
        let ghost pv = p@;
        match self.find(name.as_str()) {
            Some(i) => {
                self.entries.set(i, (name, p));
                proof {
                    assert(self.entries() =~= entries0.update(i as int, (name@, pv)));
                    assoc::lemma_assoc_map_update(entries0, i as int, name@, pv);
                    assoc::lemma_unique_keys_update(entries0, i as int, name@, pv);
                }
            },
            None => {
                self.entries.push((name, p));
                proof {
                    assert(self.entries() =~= entries0.push((name@, pv)));
                    assoc::lemma_assoc_map_push(entries0, name@, pv);
                    assoc::lemma_unique_keys_push(entries0, name@, pv);
                }
            },
        }
    }

    /// Removes and hands out a repo's record, to be mutated and put back.
    pub fn take(&mut self, name: &str) -> (r: Option<Profile>)
        requires
            old(self).wf(),
        ensures
            final(self).wf(),
            match r {
                Some(p) => {
                    &&& old(self)@.contains_key(name@)
                    &&& p@ == old(self)@[name@]
                    &&& p.wf()
                    &&& final(self)@ == old(self)@.remove(name@)
                },
                None => !old(self)@.contains_key(name@) && final(self)@ == old(self)@,
            },
    {
        let ghost entries0 = self.entries();
        proof {
            assoc::lemma_assoc_map_domain(self.entries(), name@);
        }
        match self.find(name) {
            Some(i) => {
                proof {
                    assoc::lemma_assoc_map_index(entries0, i as int, name@);
                    assoc::lemma_assoc_map_remove(entries0, i as int, name@);
                }
                let (_, p) = self.entries.remove(i);
                proof {
                    assert(self.entries() =~= entries0.remove(i as int));
                }
                Some(p)
            },
            None => None,
        }
    }
}

/// A record set's view is the map its entry list denotes.
pub proof fn lemma_set_view(s: ProfileSet)
    ensures
        s@ == assoc::assoc_map(s.entries()),
{
}

/// The two entry projections of a record set line up position by position.
pub proof fn lemma_set_entry_views(s: ProfileSet)
    ensures
        s.entries().len() == s.raw_entries().len(),
        forall|i: int|
            0 <= i < s.raw_entries().len() ==> (#[trigger] s.entries()[i]).0
                == s.raw_entries()[i].0 && s.entries()[i].1 == s.raw_entries()[i].1@,
{
}

/// The record set after a repo catalog is merged in, name by name: a name
/// without a record gets a fresh empty one; existing records are untouched.
pub open spec fn spec_merge(m: Map<Seq<char>, ProfileView>, names: Seq<Seq<char>>) -> Map<
    Seq<char>,
    ProfileView,
>
    decreases names.len(),
{
    if names.len() == 0 {
        m
    } else {
        let prev = spec_merge(m, names.drop_last());
        if prev.contains_key(names.last()) {
            prev
        } else {
            prev.insert(names.last(), spec_empty_profile())
        }
    }
}

/// The names of a repo catalog, in order.
pub open spec fn spec_repo_names(repos: Seq<Repo>) -> Seq<Seq<char>> {
    repos.map_values(|r: Repo| r.name@)
}

impl ProfileSet {
    /// Merges the current repo catalog into the record set: every repo in
    /// the catalog ends up with a record, new ones empty, existing ones
    /// untouched.
    pub fn merge_catalog(&mut self, repos: &Vec<Repo>)
        requires
            old(self).wf(),
        ensures
            final(self).wf(),
            final(self)@ == spec_merge(old(self)@, spec_repo_names(repos@)),
    {
        let n = repos.len();
        let mut i: usize = 0;
        while i < n
            invariant
                i <= n,
                n == repos@.len(),
                self.wf(),
                self@ == spec_merge(old(self)@, spec_repo_names(repos@).take(i as int)),
            decreases n - i,
        {
            let ghost pre = spec_repo_names(repos@).take(i as int);
            let ghost post = spec_repo_names(repos@).take(i + 1);
            proof {
                assert(post.drop_last() =~= pre);
                assert(post.last() == repos@[i as int].name@);
            }
            let name = &repos[i].name;
            if !self.contains(name.as_str()) {
                let p = Profile::new();
                proof {
                    assert(p@ =~~= spec_empty_profile());
                }
                self.insert(name.clone(), p);
            }
            i += 1;
        }
        proof {
            assert(spec_repo_names(repos@).take(n as int) =~= spec_repo_names(repos@));
        }
    }
}

/// The pairs of a name-keyed entry list, records as views.
pub open spec fn set_pairs_view(v: Seq<(String, Profile)>) -> Seq<(Seq<char>, ProfileView)> {
    v.map_values(|p: (String, Profile)| (p.0@, p.1@))
}

/// Builds a record set from plain entries; a repeated name keeps its later
/// entry, as inserting in order would.
pub fn set_from_entries(entries: Vec<(String, Profile)>) -> (s: ProfileSet)
    requires
        forall|i: int| 0 <= i < entries@.len() ==> (#[trigger] entries@[i]).1.wf(),
    ensures
        s.wf(),
        s@ == assoc::assoc_map(set_pairs_view(entries@)),
{
    let ghost orig = entries@;
    let mut entries = entries;
    let mut s = ProfileSet::new();
    let mut k: usize = 0;
    let n = entries.len();
    while k < n
        invariant
            k <= n,
            n == orig.len(),
            entries@ == orig.skip(k as int),
            forall|i: int| 0 <= i < orig.len() ==> (#[trigger] orig[i]).1.wf(),
            s.wf(),
            s@ == assoc::assoc_map(set_pairs_view(orig.take(k as int))),
        decreases n - k,
    {
        let ghost pre = set_pairs_view(orig.take(k as int));
        let (name, p) = entries.remove(0);
        proof {
            assert(orig.skip(k as int)[0] == orig[k as int]);
            assert(entries@ =~= orig.skip(k + 1));
            assert(orig[k as int].1.wf());
            assert(set_pairs_view(orig.take(k + 1)).drop_last() =~= pre);
            assert(set_pairs_view(orig.take(k + 1)).last() == (name@, p@));
            assoc::lemma_assoc_map_push(pre, name@, p@);
            assert(pre.push((name@, p@)) =~= set_pairs_view(orig.take(k + 1)));
        }
        s.insert(name, p);
        k += 1;
    }
    proof {
        assert(orig.take(n as int) =~= orig);
    }
    s
}

/// A stable digest of the host identity, used only to scope result-file
/// names. The same identity gives the same digest in every run.
pub uninterp spec fn host_digest(num_cores: int, num_physical_cores: int, cpu_model: Seq<char>) -> u64;

/// Relies on std's `DefaultHasher`: every instance made by `new` hashes
/// identically, so the digest depends on the hashed fields alone. The fields
/// are hashed in declaration order, the model string as a string.
#[verifier::external_body]
fn hash_system_info(num_cores: usize, num_physical_cores: usize, cpu_model: &str) -> (h: u64)
    ensures
        h == host_digest(num_cores as int, num_physical_cores as int, cpu_model@),
{
    let mut hasher = std::collections::hash_map::DefaultHasher::new();
    std::hash::Hash::hash(&num_cores, &mut hasher);
    std::hash::Hash::hash(&num_physical_cores, &mut hasher);
    std::hash::Hash::hash(cpu_model, &mut hasher);
    std::hash::Hasher::finish(&hasher)
}

/// The host-scoped result-file name: the logical core count and the host
/// digest, readably separated.
pub open spec fn spec_result_file_name(si: SystemInfo) -> Seq<char> {
    "results-"@ + text::spec_dec(si.num_cores as int) + "-"@ + text::spec_dec(
        host_digest(si.num_cores as int, si.num_physical_cores as int, si.cpu_model@) as int,
    ) + ".json"@
}

/// Where this host's results live below the results directory.
pub open spec fn spec_result_file_path(dir: Seq<char>, si: SystemInfo) -> Seq<char> {
    spec_path_join(dir, spec_result_file_name(si))
}

/// Builds the host-scoped result-file path below the results directory.
pub fn get_result_file_path(path: &str, system_info: &SystemInfo) -> (r: String)
    ensures
        r@ == spec_result_file_path(path@, *system_info),
{
    let digest = hash_system_info(
        system_info.num_cores,
        system_info.num_physical_cores,
        system_info.cpu_model.as_str(),
    );
    let mut name = String::from_str("results-");
    let cores = text::u64_to_string(system_info.num_cores as u64);
    name.append(cores.as_str());
    name.append("-");
    let d = text::u64_to_string(digest);
    name.append(d.as_str());
    name.append(".json");
    proof {
        reveal_strlit("-");
        assert(name@ =~= spec_result_file_name(*system_info));
    }
    path_join(path, name.as_str())
}

/// Identical host identities name the same result file, whatever run
/// computes it.
pub proof fn lemma_result_file_name_deterministic(a: SystemInfo, b: SystemInfo)
    requires
        a.num_cores == b.num_cores,
        a.num_physical_cores == b.num_physical_cores,
        a.cpu_model@ == b.cpu_model@,
    ensures
        spec_result_file_name(a) == spec_result_file_name(b),
{
}

/// Hosts with different logical core counts never share a result file.
pub proof fn lemma_result_file_name_partitions_cores(a: SystemInfo, b: SystemInfo)
    requires
        a.num_cores != b.num_cores,
    ensures
        spec_result_file_name(a) != spec_result_file_name(b),
{
    let pa = text::spec_dec(a.num_cores as int);
    let pb = text::spec_dec(b.num_cores as int);
    text::lemma_dec_digits(a.num_cores as int);
    text::lemma_dec_digits(b.num_cores as int);
    lemma_name_structure(a);
    lemma_name_structure(b);
    let na = spec_result_file_name(a);
    let nb = spec_result_file_name(b);
    if na == nb {
        if pa.len() < pb.len() {
            assert(na[8 + pa.len() as int] == '-');
            assert(nb[8 + pa.len() as int] == pb[pa.len() as int]);
            assert(text::is_digit('-') == false);
        } else if pb.len() < pa.len() {
            assert(nb[8 + pb.len() as int] == '-');
            assert(na[8 + pb.len() as int] == pa[pb.len() as int]);
            assert(text::is_digit('-') == false);
        } else {
            assert forall|t: int| 0 <= t < pa.len() implies pa[t] == pb[t] by {
                assert(na[8 + t] == pa[t]);
                assert(nb[8 + t] == pb[t]);
            }
            assert(pa =~= pb);
            text::lemma_dec_injective(a.num_cores as int, b.num_cores as int);
        }
    }
}

/// Where the core-count digits and their closing dash sit in a result-file
/// name.
proof fn lemma_name_structure(a: SystemInfo)
    ensures
        ({
            let pa = text::spec_dec(a.num_cores as int);
            let na = spec_result_file_name(a);
            &&& na.len() > 8 + pa.len()
            &&& forall|t: int| 0 <= t < pa.len() ==> na[8 + t] == pa[t]
            &&& na[8 + pa.len() as int] == '-'
        }),
{
    reveal_strlit("results-");
    reveal_strlit("-");
    reveal_strlit(".json");
    let pa = text::spec_dec(a.num_cores as int);
    let pd = text::spec_dec(
        host_digest(a.num_cores as int, a.num_physical_cores as int, a.cpu_model@) as int,
    );
    let s1 = "results-"@ + pa;
    let s2 = s1 + "-"@;
    let s3 = s2 + pd;
    let na = spec_result_file_name(a);
    assert(na == s3 + ".json"@);
    assert(s1.len() == 8 + pa.len());
    assert forall|t: int| 0 <= t < pa.len() implies na[8 + t] == pa[t] by {
        assert(s1[8 + t] == pa[t]);
        assert(s2[8 + t] == s1[8 + t]);
        assert(s3[8 + t] == s2[8 + t]);
        assert(na[8 + t] == s3[8 + t]);
    }
    assert(s2[s1.len() as int] == "-"@[0]);
    assert(s3[s1.len() as int] == s2[s1.len() as int]);
    assert(na[s1.len() as int] == s3[s1.len() as int]);
    assert("-"@[0] == '-');
}

} // verus!
