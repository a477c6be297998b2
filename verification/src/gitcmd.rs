//! The version-control adapter, split in two pure halves: each operation
//! is planned as the exact command invocation to run, and the tool's
//! outcome is interpreted exactly. Running the process is input/output
//! and stays with the caller; everything decided here is verified.

use crate::text::{has_substr, is_space, has_visible_char, str_contains};
use vstd::prelude::*;

verus! {

/// One command invocation: the working directory and the arguments that
/// follow the tool's name.
pub struct GitInvocation {
    pub dir: String,
    pub args: Vec<String>,
}

/// What came back from running an invocation.
pub struct GitOutcome {
    pub success: bool,
    pub stdout: String,
    pub stderr: String,
}

/// The version-control adapter, bound to a repository root.
pub struct Git {
    pub root: String,
}

fn one_arg(a: &str) -> (r: Vec<String>)
    ensures
        r.deep_view() =~= seq![a@],
{
    let mut v: Vec<String> = Vec::new();
    v.push(a.to_owned());
    proof {
        assert(v.deep_view() =~= seq![a@]);
    }
    v
}

fn two_args(a: &str, b: &str) -> (r: Vec<String>)
    ensures
        r.deep_view() =~= seq![a@, b@],
{
    let mut v: Vec<String> = Vec::new();
    v.push(a.to_owned());
    v.push(b.to_owned());
    proof {
        assert(v.deep_view() =~= seq![a@, b@]);
    }
    v
}

impl Git {
    /// Binds the adapter to a repository root.
    pub fn new(root: &str) -> (r: Git)
        ensures
            r.root@ == root@,
    {
        Git { root: root.to_owned() }
    }

    /// Plans repository initialization.
    pub fn init(&self) -> (r: GitInvocation)
        ensures
            r.dir@ == self.root@,
            r.args.deep_view() == seq!["init"@],
    {
        GitInvocation { dir: self.root.clone(), args: one_arg("init") }
    }

    /// Plans staging one path.
    pub fn add(&self, path: &str) -> (r: GitInvocation)
        ensures
            r.dir@ == self.root@,
            r.args.deep_view() == seq!["add"@, path@],
    {
        GitInvocation { dir: self.root.clone(), args: two_args("add", path) }
    }

    /// Plans a commit with the given message.
    pub fn commit(&self, message: &str) -> (r: GitInvocation)
        ensures
            r.dir@ == self.root@,
            r.args.deep_view() == seq!["commit"@, "-m"@, message@],
    {
        let mut v = two_args("commit", "-m");
        let ghost pre = v.deep_view();
        v.push(message.to_owned());
        proof {
            assert(v.deep_view() =~= pre.push(message@));
            assert(pre.push(message@) =~= seq!["commit"@, "-m"@, message@]);
        }
        GitInvocation { dir: self.root.clone(), args: v }
    }

    /// Plans integrating upstream history by rebasing onto it.
    pub fn pull_rebase(&self) -> (r: GitInvocation)
        ensures
            r.dir@ == self.root@,
            r.args.deep_view() == seq!["pull"@, "--rebase"@],
    {
        GitInvocation { dir: self.root.clone(), args: two_args("pull", "--rebase") }
    }

    /// Plans publishing local history.
    pub fn push(&self) -> (r: GitInvocation)
        ensures
            r.dir@ == self.root@,
            r.args.deep_view() == seq!["push"@],
    {
        GitInvocation { dir: self.root.clone(), args: one_arg("push") }
    }

    /// Plans the machine-readable working-tree status.
    pub fn status(&self) -> (r: GitInvocation)
        ensures
            r.dir@ == self.root@,
            r.args.deep_view() == seq!["status"@, "--porcelain"@],
    {
        GitInvocation { dir: self.root.clone(), args: two_args("status", "--porcelain") }
    }

    /// Plans retrieving one blob by revision specifier; conflict-stage
    /// selectors retrieve the ancestor, ours and theirs versions.
    pub fn show(&self, revision: &str) -> (r: GitInvocation)
        ensures
            r.dir@ == self.root@,
            r.args.deep_view() == seq!["show"@, revision@],
    {
        GitInvocation { dir: self.root.clone(), args: two_args("show", revision) }
    }

    /// Plans continuing an interrupted integration, never interactively.
    pub fn rebase_continue(&self) -> (r: GitInvocation)
        ensures
            r.dir@ == self.root@,
            r.args.deep_view() == seq!["rebase"@, "--continue"@],
    {
        GitInvocation { dir: self.root.clone(), args: two_args("rebase", "--continue") }
    }

    /// Plans listing the configured remotes.
    pub fn has_remote(&self) -> (r: GitInvocation)
        ensures
            r.dir@ == self.root@,
            r.args.deep_view() == seq!["remote"@],
    {
        GitInvocation { dir: self.root.clone(), args: one_arg("remote") }
    }
}

/// A commit outcome counts as success when the tool succeeded or reported
/// that there was nothing to commit: an idempotent no-op, not a failure.
pub open spec fn commit_accepted(out_success: bool, out_stdout: Seq<char>) -> bool {
    out_success || has_substr(out_stdout, "nothing to commit"@) || has_substr(
        out_stdout,
        "working tree clean"@,
    )
}

/// Decides whether a commit outcome counts as success.
pub fn interpret_commit(out: &GitOutcome) -> (r: bool)
    ensures
        r == commit_accepted(out.success, out.stdout@),
{
    out.success || str_contains(out.stdout.as_str(), "nothing to commit") || str_contains(
        out.stdout.as_str(),
        "working tree clean",
    )
}

/// A remote is configured exactly when listing remotes succeeded and
/// printed anything visible.
pub open spec fn remote_present(out_success: bool, out_stdout: Seq<char>) -> bool {
    out_success && exists|i: int| 0 <= i < out_stdout.len() && !is_space(out_stdout[i])
}

/// Decides whether a remote is configured.
pub fn interpret_has_remote(out: &GitOutcome) -> (r: bool)
    ensures
        r == remote_present(out.success, out.stdout@),
{
    out.success && has_visible_char(out.stdout.as_str())
}

/// The machine-readable status reports a both-modified conflict on the
/// canonical log path.
pub open spec fn conflict_on_log(status_stdout: Seq<char>, rel_path: Seq<char>) -> bool {
    has_substr(status_stdout, "UU"@) && has_substr(status_stdout, rel_path)
}

/// Decides whether the conflict is confined to the canonical log path.
pub fn interpret_conflict(status_stdout: &str, rel_path: &str) -> (r: bool)
    ensures
        r == conflict_on_log(status_stdout@, rel_path@),
{
    str_contains(status_stdout, "UU") && str_contains(status_stdout, rel_path)
}


/// Model of an invocation.
#[verifier::ext_equal]
pub struct GitInvocationModel {
    pub dir: Seq<char>,
    pub args: Seq<Seq<char>>,
}

impl View for GitInvocation {
    type V = GitInvocationModel;

    open spec fn view(&self) -> GitInvocationModel {
        GitInvocationModel { dir: self.dir@, args: self.args.deep_view() }
    }
}

/// Model of an outcome.
#[verifier::ext_equal]
pub struct GitOutcomeModel {
    pub success: bool,
    pub stdout: Seq<char>,
    pub stderr: Seq<char>,
}

impl View for GitOutcome {
    type V = GitOutcomeModel;

    open spec fn view(&self) -> GitOutcomeModel {
        GitOutcomeModel { success: self.success, stdout: self.stdout@, stderr: self.stderr@ }
    }
}

} // verus!
