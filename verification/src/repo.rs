//! The sample-project descriptor and its filesystem geometry: where a repo's
//! working copy, build-output directory, artifacts and touch file live under
//! the explicit working directory, which git invocations maintain the
//! checkout, and the textual mutation applied to the touch file for
//! patch-incremental builds.

use vstd::prelude::*;

use crate::rustup::Version;
use crate::text;

verus! {

/// The directory every repo's working copy lives under. Passed explicitly to
/// whoever needs paths.
pub struct Workspace {
    pub root: String,
}

/// Static identity of one sample project.
#[derive(Debug)]
pub struct Repo {
    pub name: String,
    pub sub_directory: String,
    pub url: String,
    pub touch_file: String,
    pub output: String,
    pub commit_hash: String,
    pub min_version: Version,
}

/// How one path component is joined below another: an absolute component
/// replaces the base; otherwise a separator is added unless the base already
/// ends with one.
pub open spec fn spec_path_join(a: Seq<char>, b: Seq<char>) -> Seq<char> {
    if b.len() > 0 && b[0] == '/' {
        b
    } else if a.len() > 0 && a[a.len() - 1] != '/' {
        a + seq!['/'] + b
    } else {
        a + b
    }
}

/// Joins a path component below a base path.
pub fn path_join(a: &str, b: &str) -> (r: String)
    ensures
        r@ == spec_path_join(a@, b@),
{
    let bn = b.unicode_len();
    if bn > 0 && b.get_char(0) == '/' {
        return b.to_owned();
    }
    let an = a.unicode_len();
    let mut r = a.to_owned();
    if an > 0 && a.get_char(an - 1) != '/' {
        r.append("/");
        proof {
            reveal_strlit("/");
            assert(r@ =~= a@ + seq!['/']);
        }
    }
    r.append(b);
    proof {
        assert(r@ =~= spec_path_join(a@, b@));
    }
    r
}

/// The git maintenance commands a working copy needs.
#[derive(Debug, Clone, Copy, PartialEq, Eq, Structural)]
pub enum GitCommand {
    Checkout,
    CloneRepo,
    Reset,
}

impl Repo {
    /// The directory the build tool runs in for this repo.
    pub open spec fn spec_base_directory(self, ws: Workspace) -> Seq<char> {
        spec_path_join(spec_path_join(ws.root@, self.name@), self.sub_directory@)
    }

    pub fn get_base_directory(&self, ws: &Workspace) -> (r: String)
        ensures
            r@ == self.spec_base_directory(*ws),
    {
        let first = path_join(ws.root.as_str(), self.name.as_str());
        path_join(first.as_str(), self.sub_directory.as_str())
    }

    /// The repo's build-output directory, removed before every clean build.
    pub open spec fn spec_target_directory(self, ws: Workspace) -> Seq<char> {
        spec_path_join(spec_path_join(ws.root@, self.name@), "target"@)
    }

    pub fn get_target_directory(&self, ws: &Workspace) -> (r: String)
        ensures
            r@ == self.spec_target_directory(*ws),
    {
        let first = path_join(ws.root.as_str(), self.name.as_str());
        path_join(first.as_str(), "target")
    }

    /// An artifact's path below the build-output directory.
    pub open spec fn spec_output_path(self, ws: Workspace, folder: Seq<char>) -> Seq<char> {
        spec_path_join(spec_path_join(self.spec_target_directory(ws), folder), self.output@)
    }

    fn get_output_path(&self, ws: &Workspace, folder: &str) -> (r: String)
        ensures
            r@ == self.spec_output_path(*ws, folder@),
    {
        let target = self.get_target_directory(ws);
        let with_folder = path_join(target.as_str(), folder);
        path_join(with_folder.as_str(), self.output.as_str())
    }

    pub fn get_debug_output_path(&self, ws: &Workspace) -> (r: String)
        ensures
            r@ == self.spec_output_path(*ws, "debug"@),
    {
        self.get_output_path(ws, "debug")
    }

    pub fn get_release_output_path(&self, ws: &Workspace) -> (r: String)
        ensures
            r@ == self.spec_output_path(*ws, "release"@),
    {
        self.get_output_path(ws, "release")
    }

    /// The file whose timestamp is bumped for incremental builds and whose
    /// content is patched for patch-incremental builds.
    pub open spec fn spec_touch_file(self, ws: Workspace) -> Seq<char> {
        spec_path_join(self.spec_base_directory(ws), self.touch_file@)
    }

    pub fn get_touch_file(&self, ws: &Workspace) -> (r: String)
        ensures
            r@ == self.spec_touch_file(*ws),
    {
        let base = self.get_base_directory(ws);
        path_join(base.as_str(), self.touch_file.as_str())
    }

    /// The directory and argument list of one git invocation: checkout and
    /// reset run in the repo's base directory, clone in the working
    /// directory's root.
    pub open spec fn spec_git_invocation(self, ws: Workspace, cmd: GitCommand) -> (
        Seq<char>,
        Seq<Seq<char>>,
    ) {
        match cmd {
            GitCommand::Checkout => (
                self.spec_base_directory(ws),
                seq!["checkout"@, self.commit_hash@],
            ),
            GitCommand::CloneRepo => (ws.root@, seq!["clone"@, self.url@]),
            GitCommand::Reset => (self.spec_base_directory(ws), seq!["reset"@, "--hard"@]),
        }
    }

    pub fn git_invocation(&self, ws: &Workspace, cmd: GitCommand) -> (r: (String, Vec<String>))
        ensures
            r.0@ == self.spec_git_invocation(*ws, cmd).0,
            r.1.deep_view() == self.spec_git_invocation(*ws, cmd).1,
    {
        let mut args: Vec<String> = Vec::new();
        let dir: String;
        match cmd {
            GitCommand::Checkout => {
                dir = self.get_base_directory(ws);
                args.push(String::from_str("checkout"));
                args.push(self.commit_hash.clone());
            },
            GitCommand::CloneRepo => {
                dir = ws.root.clone();
                args.push(String::from_str("clone"));
                args.push(self.url.clone());
            },
            GitCommand::Reset => {
                dir = self.get_base_directory(ws);
                args.push(String::from_str("reset"));
                args.push(String::from_str("--hard"));
            },
        }
        proof {
            assert(args.deep_view() =~~= self.spec_git_invocation(*ws, cmd).1);
        }
        (dir, args)
    }

    /// The git commands that bring the working copy to its pinned commit: a
    /// clone first if the repo's directory does not exist yet, then the
    /// checkout.
    pub fn clone_repo_plan(&self, base_directory_exists: bool) -> (r: Vec<GitCommand>)
        ensures
            r@ == if base_directory_exists {
                seq![GitCommand::Checkout]
            } else {
                seq![GitCommand::CloneRepo, GitCommand::Checkout]
            },
    {
        let mut r: Vec<GitCommand> = Vec::new();
        if !base_directory_exists {
            r.push(GitCommand::CloneRepo);
        }
        r.push(GitCommand::Checkout);
        proof {
            if base_directory_exists {
                assert(r@ =~= seq![GitCommand::Checkout]);
            } else {
                assert(r@ =~= seq![GitCommand::CloneRepo, GitCommand::Checkout]);
            }
        }
        r
    }
}

pub open spec fn patch_nl_p() -> spec_fn(char) -> bool {
    |c: char| c == '\n'
}

/// The first position where a function head starts: the text `fn main` or
/// `pub fn`.
pub open spec fn spec_first_patch_pos(s: Seq<char>, i: int) -> Option<int>
    decreases s.len() - i,
{
    if i < 0 || i + 6 > s.len() {
        None
    } else if text::spec_match_at(s, i, "fn main"@) || text::spec_match_at(s, i, "pub fn"@) {
        Some(i)
    } else {
        spec_first_patch_pos(s, i + 1)
    }
}

/// The logging call inserted at the end of the first function-head line.
pub open spec fn spec_patch_insert() -> Seq<char> {
    " log::info!(\"hello\");"@
}

/// A source text after the patch mutation: the logging call is inserted at
/// the end of the line holding the first function head; text without one is
/// unchanged.
pub open spec fn spec_patched(s: Seq<char>) -> Seq<char> {
    match spec_first_patch_pos(s, 0) {
        None => s,
        Some(i) => {
            let e = text::spec_scan(s, i, patch_nl_p());
            s.subrange(0, e) + spec_patch_insert() + s.subrange(e, s.len() as int)
        },
    }
}

/// Applies the patch mutation to the touch file's content.
pub fn patch_contents(s: &str) -> (r: String)
    ensures
        r@ == spec_patched(s@),
{
    let n = s.unicode_len();
    if n < 6 {
        proof {
            assert(spec_first_patch_pos(s@, 0) is None);
        }
        return s.to_owned();
    }
    let mut i: usize = 0;
    while i <= n - 6
        invariant
            6 <= n,
            i <= n - 6 + 1,
            n == s@.len(),
            spec_first_patch_pos(s@, 0) == spec_first_patch_pos(s@, i as int),
        decreases n - i,
    {
        if text::match_at(s, i, "fn main") || text::match_at(s, i, "pub fn") {
            let e = find_line_end(s, i);
            let mut r = s.substring_char(0, e).to_owned();
            r.append(" log::info!(\"hello\");");
            r.append(s.substring_char(e, n));
            proof {
                assert(spec_first_patch_pos(s@, i as int) == Some(i as int));
                assert(r@ =~= spec_patched(s@));
            }
            return r;
        }
        proof {
            assert(spec_first_patch_pos(s@, i as int) == spec_first_patch_pos(s@, i + 1));
        }
        i += 1;
    }
    proof {
        assert(spec_first_patch_pos(s@, i as int) is None);
    }
    s.to_owned()
}

/// First newline at or after `from`, else the length.
fn find_line_end(s: &str, from: usize) -> (j: usize)
    requires
        from <= s@.len(),
    ensures
        j as int == text::spec_scan(s@, from as int, patch_nl_p()),
        from <= j <= s@.len(),
{
    let n = s.unicode_len();
    let mut j = from;
    while j < n && s.get_char(j) != '\n'
        invariant
            from <= j <= n,
            n == s@.len(),
            forall|t: int| from <= t < j ==> s@[t] != '\n',
        decreases n - j,
    {
        j += 1;
    }
    proof {
        text::lemma_spec_scan_is(s@, from as int, patch_nl_p(), j as int);
    }
    j
}

/// The name of the directory kept below the chosen working directory.
pub open spec fn spec_workspace_dir_name() -> Seq<char> {
    "arewefastyet-dir"@
}

/// Whether a path already ends in the workspace directory name, as a whole
/// component.
pub open spec fn spec_ends_with_dir(s: Seq<char>) -> bool {
    let w = spec_workspace_dir_name();
    s == w || (s.len() > w.len() && s[s.len() - w.len() - 1] == '/' && s.subrange(
        s.len() - w.len(),
        s.len() as int,
    ) == w)
}

/// The working directory a chosen root denotes: the root itself when it
/// already names the workspace directory, else that directory below it.
pub open spec fn spec_normalized_root(s: Seq<char>) -> Seq<char> {
    if spec_ends_with_dir(s) {
        s
    } else {
        spec_path_join(s, spec_workspace_dir_name())
    }
}

/// Appends the workspace directory name to a chosen root unless it is
/// already there. The caller creates the directory on disk.
pub fn normalize_working_dir(s: &str) -> (r: String)
    ensures
        r@ == spec_normalized_root(s@),
{
    let n = s.unicode_len();
    let w = "arewefastyet-dir";
    let wn = w.unicode_len();
    let ends = if text::str_eq(s, w) {
        true
    } else if n > wn && s.get_char(n - wn - 1) == '/' && text::match_at(s, n - wn, w) {
        proof {
            assert(s@.subrange(n - wn, n as int) =~= s@.subrange(
                n - wn,
                (n - wn) + w@.len(),
            ));
        }
        true
    } else {
        proof {
            if spec_ends_with_dir(s@) {
                assert(s@.subrange(n - wn, (n - wn) + w@.len()) =~= s@.subrange(n - wn, n as int));
            }
        }
        false
    };
    if ends {
        s.to_owned()
    } else {
        path_join(s, w)
    }
}

} // verus!
