//! The git commands that worktrees are made and removed with, and the decisions
//! between them.
//!
//! A plan is a list of steps to be carried out in order. The first step that
//! fails ends it, unless the step says that its failure is only worth a mention.

use vstd::prelude::*;

use crate::error::AppError;
use crate::text;

verus! {

/// What the failure of a git command means.
#[derive(Debug)]
pub enum Failure {
    /// The plan is over; the error starts with these words.
    Abort { what: String },
    /// The plan is over; the error starts with these words and ends with what
    /// the command had to say.
    Report { what: String },
    /// The plan is over; the error is these words and what the command had to
    /// say.
    Quote { what: String },
    /// The log gets a line that starts with `what` and ends with `after`, or
    /// one that starts with `unspawned` where git could not even be started.
    Mention { what: String, after: String, unspawned: String },
    Ignore,
}

/// One thing to do.
#[derive(Debug)]
pub enum Step {
    /// Tell the log.
    Status { message: String },
    /// Remove a directory and all that is in it.
    RemoveDir { path: String },
    /// Make sure that the directory a path stands in is there.
    MakeParent { path: String },
    /// Make sure that a directory is there.
    MakeDir { path: String },
    /// Remove a directory if there is nothing in it.
    RemoveEmptyDir { path: String },
    /// Run `git` with these arguments.
    Git { args: Vec<String>, failure: Failure },
}

#[verifier::ext_equal]
pub enum FailureView {
    Abort { what: Seq<char> },
    Report { what: Seq<char> },
    Quote { what: Seq<char> },
    Mention { what: Seq<char>, after: Seq<char>, unspawned: Seq<char> },
    Ignore,
}

#[verifier::ext_equal]
pub enum StepView {
    Status { message: Seq<char> },
    RemoveDir { path: Seq<char> },
    MakeParent { path: Seq<char> },
    MakeDir { path: Seq<char> },
    RemoveEmptyDir { path: Seq<char> },
    Git { args: Seq<Seq<char>>, failure: FailureView },
}

impl View for Failure {
    type V = FailureView;

    open spec fn view(&self) -> FailureView {
        match *self {
            Failure::Abort { what } => FailureView::Abort { what: what@ },
            Failure::Report { what } => FailureView::Report { what: what@ },
            Failure::Quote { what } => FailureView::Quote { what: what@ },
            Failure::Ignore => FailureView::Ignore,
            Failure::Mention { what, after, unspawned } => FailureView::Mention {
                what: what@,
                after: after@,
                unspawned: unspawned@,
            },
        }
    }
}

impl View for Step {
    type V = StepView;

    open spec fn view(&self) -> StepView {
        match *self {
            Step::Status { message } => StepView::Status { message: message@ },
            Step::RemoveDir { path } => StepView::RemoveDir { path: path@ },
            Step::MakeParent { path } => StepView::MakeParent { path: path@ },
            Step::MakeDir { path } => StepView::MakeDir { path: path@ },
            Step::RemoveEmptyDir { path } => StepView::RemoveEmptyDir { path: path@ },
            Step::Git { args, failure } => StepView::Git {
                args: text::views(args@),
                failure: failure@,
            },
        }
    }
}

/// What a list of steps says.
pub open spec fn plan(steps: Seq<Step>) -> Seq<StepView> {
    steps.map_values(|s: Step| s@)
}

/// A git command whose failure ends the plan.
pub open spec fn must(args: Seq<Seq<char>>, what: Seq<char>) -> StepView {
    StepView::Git { args, failure: FailureView::Abort { what } }
}

/// A git command whose failure is mentioned and passed over.
pub open spec fn may(
    args: Seq<Seq<char>>,
    what: Seq<char>,
    after: Seq<char>,
    unspawned: Seq<char>,
) -> StepView {
    StepView::Git { args, failure: FailureView::Mention { what, after, unspawned } }
}

pub open spec fn say(message: Seq<char>) -> StepView {
    StepView::Status { message }
}

pub(crate) fn status(message: String) -> (r: Step)
    ensures
        r@ == say(message@),
{
    Step::Status { message }
}

/// The exit code of a process, which a signal leaves it without.
pub open spec fn code_words(code: Option<i32>) -> Seq<char> {
    match code {
        Some(c) => "Some("@ + text::dec_int(c as int) + ")"@,
        None => "None"@,
    }
}

fn code_text(code: Option<i32>) -> (r: String)
    ensures
        r@ == code_words(code),
{
    match code {
        Some(c) => {
            let digits = if c < 0 {
                let n: u64 = (-(c as i64)) as u64;
                let d = text::decimal(n);
                let r = text::cat("-", &d);
                proof {
                    reveal_strlit("-");
                    assert("-"@ =~= seq!['-']);
                }
                r
            } else {
                text::decimal(c as u64)
            };
            text::cat3("Some(", &digits, ")")
        },
        None => "None".to_owned(),
    }
}

/// The error that ends a plan whose command went away with `code`.
pub fn aborted(what: &str, code: Option<i32>) -> (r: AppError)
    ensures
        r.says(what@ + " exited with "@ + code_words(code)),
{
    AppError::Other(text::cat3(what, " exited with ", &code_text(code)))
}

/// The line for the log where a command that may fail went away with `code`.
pub fn mentioned(what: &str, after: &str, code: Option<i32>) -> (r: String)
    ensures
        r@ == what@ + " exited with "@ + code_words(code) + after@,
{
    let mut r = text::cat3(what, " exited with ", &code_text(code));
    r.append(after);
    r
}

/// Make sure that a clone is there: one that is complete is kept, one that a
/// previous run left half-finished is removed and cloned again.
pub fn ensure_clone(clone_path: &str, remote_url: &str, exists: bool, valid: bool) -> (r: Vec<Step>)
    ensures
        plan(r@) == (if exists && valid {
            seq![say("clone already present at "@ + clone_path@)]
        } else {
            (if exists {
                seq![
                    say("clone at "@ + clone_path@ + " is incomplete; removing and retrying"@),
                    StepView::RemoveDir { path: clone_path@ },
                ]
            } else {
                seq![]
            }) + seq![
                say("cloning "@ + remote_url@),
                StepView::MakeParent { path: clone_path@ },
                must(
                    seq!["clone"@, "--progress"@, remote_url@, clone_path@],
                    "git clone "@ + remote_url@,
                ),
            ]
        }),
{
    let mut r: Vec<Step> = Vec::new();
    if exists {
        if valid {
            r.push(status(text::cat("clone already present at ", clone_path)));
            return r;
        }
        r.push(
            status(text::cat3("clone at ", clone_path, " is incomplete; removing and retrying")),
        );
        r.push(Step::RemoveDir { path: clone_path.to_owned() });
    }
    r.push(status(text::cat("cloning ", remote_url)));
    r.push(Step::MakeParent { path: clone_path.to_owned() });
    let args = text::list(["clone", "--progress", remote_url, clone_path].as_slice());
    assert(text::views(args@) =~= seq!["clone"@, "--progress"@, remote_url@, clone_path@]);
    let what = text::cat("git clone ", remote_url);
    r.push(Step::Git { args, failure: Failure::Abort { what } });
    r
}

/// The error that ends a plan whose command went away with `code`, and what it
/// had to say.
pub fn reported(what: &str, code: Option<i32>, stderr: &str) -> (r: AppError)
    ensures
        r.says(what@ + " exited with "@ + code_words(code) + ": "@ + text::trim(stderr@)),
{
    let mut m = text::cat3(what, " exited with ", &code_text(code));
    m.append(": ");
    m.append(&text::trimmed(stderr));
    AppError::Other(m)
}

/// The error that ends a plan with what its command had to say.
pub fn quoted(what: &str, stderr: &str) -> (r: AppError)
    ensures
        r.says(what@ + ": "@ + text::trim(stderr@)),
{
    AppError::Other(text::cat3(what, ": ", &text::trimmed(stderr)))
}

/// The error where a broken clone could not be removed.
pub fn removal_failed(path: &str, reason: &str) -> (r: AppError)
    ensures
        r.says("failed to remove broken clone at "@ + path@ + ": "@ + reason@),
{
    let mut m = text::cat3("failed to remove broken clone at ", path, ": ");
    m.append(reason);
    AppError::Other(m)
}

/// Fast-forward the clone. It is never modified, so a failure means that
/// branching off it would use stale code.
pub fn pull_clone(clone_path: &str) -> (r: Vec<Step>)
    ensures
        plan(r@) == seq![
            say("updating clone from origin"@),
            must(
                seq!["-C"@, clone_path@, "pull"@, "--ff-only"@],
                "git pull --ff-only in "@ + clone_path@,
            ),
        ],
{
    let mut r: Vec<Step> = Vec::new();
    r.push(status("updating clone from origin".to_owned()));
    let args = text::list(["-C", clone_path, "pull", "--ff-only"].as_slice());
    assert(text::views(args@) =~= seq!["-C"@, clone_path@, "pull"@, "--ff-only"@]);
    let what = text::cat("git pull --ff-only in ", clone_path);
    r.push(Step::Git { args, failure: Failure::Abort { what } });
    r
}

/// How a worktree gets its branch.
#[derive(Debug)]
pub enum WorktreeBranch {
    /// A fresh branch off the clone's current commit.
    NewFromHead,
    /// A fresh branch that tracks the given start point.
    TrackRemote(String),
    /// A branch that is there already. Git refuses one that another worktree has
    /// checked out.
    ExistingLocal,
}

/// What is to be done about the branch of a worktree.
#[derive(Debug)]
pub struct BranchPlan {
    pub source: WorktreeBranch,
    /// Whether the branch comes to be here and may be deleted again.
    pub created_branch: bool,
}

/// Where a worktree's branch comes from. A branch that was there before is
/// checked out and never owned.
pub fn plan_branch(branch: &str, preexisted: bool, on_remote: bool) -> (r: BranchPlan)
    ensures
        r.created_branch == !preexisted,
        match r.source {
            WorktreeBranch::ExistingLocal => preexisted,
            WorktreeBranch::TrackRemote(start) => !preexisted && on_remote && start@ == "origin/"@
                + branch@,
            WorktreeBranch::NewFromHead => !preexisted && !on_remote,
        },
{
    if preexisted {
        BranchPlan { source: WorktreeBranch::ExistingLocal, created_branch: false }
    } else if on_remote {
        let start = text::cat("origin/", branch);
        BranchPlan { source: WorktreeBranch::TrackRemote(start), created_branch: true }
    } else {
        BranchPlan { source: WorktreeBranch::NewFromHead, created_branch: true }
    }
}

/// What `git worktree add` is told of the branch.
pub open spec fn branch_args(source: WorktreeBranch, branch: Seq<char>, path: Seq<char>) -> Seq<
    Seq<char>,
> {
    match source {
        WorktreeBranch::NewFromHead => seq!["-b"@, branch, path],
        WorktreeBranch::TrackRemote(start) => seq!["--track"@, "-b"@, branch, path, start@],
        WorktreeBranch::ExistingLocal => seq![path, branch],
    }
}

/// Check a branch out into a new worktree.
pub fn worktree_add(
    clone_path: &str,
    worktree_path: &str,
    branch: &str,
    source: &WorktreeBranch,
) -> (r: Vec<Step>)
    ensures
        plan(r@) == seq![
            say("creating worktree at "@ + worktree_path@),
            StepView::MakeParent { path: worktree_path@ },
            must(
                seq!["-C"@, clone_path@, "worktree"@, "add"@] + branch_args(
                    *source,
                    branch@,
                    worktree_path@,
                ),
                "git worktree add "@ + worktree_path@,
            ),
        ],
{
    let mut r: Vec<Step> = Vec::new();
    r.push(status(text::cat("creating worktree at ", worktree_path)));
    r.push(Step::MakeParent { path: worktree_path.to_owned() });
    let mut args = text::list(["-C", clone_path, "worktree", "add"].as_slice());
    let mut more = match source {
        WorktreeBranch::NewFromHead => text::list(["-b", branch, worktree_path].as_slice()),
        WorktreeBranch::TrackRemote(start) => text::list(
            ["--track", "-b", branch, worktree_path, start.as_str()].as_slice(),
        ),
        WorktreeBranch::ExistingLocal => text::list([worktree_path, branch].as_slice()),
    };
    assert(text::views(more@) =~= branch_args(*source, branch@, worktree_path@));
    let ghost tail = more@;
    args.append(&mut more);
    assert(text::views(args@) =~= seq!["-C"@, clone_path@, "worktree"@, "add"@] + text::views(tail));
    let what = text::cat("git worktree add ", worktree_path);
    r.push(Step::Git { args, failure: Failure::Abort { what } });
    r
}

/// The branch that a clone is to sit on: the pinned one, or else origin's.
pub open spec fn wanted_branch(pinned: Option<Seq<char>>, detected: Option<Seq<char>>) -> Option<
    Seq<char>,
> {
    match pinned {
        Some(b) => Some(b),
        None => detected,
    }
}

/// Put the clone back on its default branch, since pulling and branching start
/// from whatever is checked out. Where the branch to be on cannot be told, the
/// clone is left alone.
pub fn ensure_clone_on_default_branch(
    clone_path: &str,
    override_branch: Option<&str>,
    detected: Option<&str>,
    current: Option<&str>,
) -> (r: Vec<Step>)
    ensures
        plan(r@) == (match wanted_branch(text::given(override_branch), text::given(detected)) {
            None => seq![],
            Some(b) => if text::given(current) == Some(b) {
                seq![]
            } else {
                seq![
                    say("clone is not on '"@ + b + "'; switching back before branching"@),
                    must(
                        seq!["-C"@, clone_path@, "checkout"@, b],
                        "git checkout "@ + b + " in "@ + clone_path@,
                    ),
                ]
            },
        }),
{
    let mut r: Vec<Step> = Vec::new();
    let wanted: Option<&str> = match override_branch {
        Some(b) => Some(b),
        None => detected,
    };
    if let Some(b) = wanted {
        let there = match current {
            Some(c) => text::same(c, b),
            None => false,
        };
        if !there {
            r.push(
                status(text::cat3("clone is not on '", b, "'; switching back before branching")),
            );
            let args = text::list(["-C", clone_path, "checkout", b].as_slice());
            assert(text::views(args@) =~= seq!["-C"@, clone_path@, "checkout"@, b@]);
            let mut what = text::cat3("git checkout ", b, " in ");
            what.append(clone_path);
            r.push(Step::Git { args, failure: Failure::Abort { what } });
        }
    }
    r
}

/// Origin's default branch, out of what `git symbolic-ref --short
/// refs/remotes/origin/HEAD` printed.
pub fn origin_default_branch(succeeded: bool, stdout: &str) -> (r: Option<String>)
    ensures
        match r {
            Some(b) => succeeded && text::strip_prefix(text::trim(stdout@), "origin/"@) == Some(b@),
            None => !succeeded || text::strip_prefix(text::trim(stdout@), "origin/"@) is None,
        },
{
    if !succeeded {
        return None;
    }
    text::without_prefix(&text::trimmed(stdout), "origin/")
}

/// The branch that is checked out, out of what `git symbolic-ref --short HEAD`
/// printed.
pub fn current_branch(succeeded: bool, stdout: &str) -> (r: Option<String>)
    ensures
        match r {
            Some(b) => succeeded && b@ == text::trim(stdout@),
            None => !succeeded,
        },
{
    if succeeded {
        Some(text::trimmed(stdout))
    } else {
        None
    }
}

/// The ref of a local branch, which `git show-ref` finds where it exists.
pub fn branch_exists(clone_path: &str, branch: &str) -> (r: Vec<String>)
    ensures
        text::views(r@) == seq![
            "-C"@,
            clone_path@,
            "show-ref"@,
            "--verify"@,
            "--quiet"@,
            "refs/heads/"@ + branch@,
        ],
{
    let name = text::cat("refs/heads/", branch);
    let r = text::list(
        ["-C", clone_path, "show-ref", "--verify", "--quiet", name.as_str()].as_slice(),
    );
    assert(text::views(r@) =~= seq![
        "-C"@,
        clone_path@,
        "show-ref"@,
        "--verify"@,
        "--quiet"@,
        "refs/heads/"@ + branch@,
    ]);
    r
}

/// The ref of a remote branch, which `git show-ref` finds where it exists.
pub fn remote_branch_exists(clone_path: &str, remote: &str, branch: &str) -> (r: Vec<String>)
    ensures
        text::views(r@) == seq![
            "-C"@,
            clone_path@,
            "show-ref"@,
            "--verify"@,
            "--quiet"@,
            "refs/remotes/"@ + remote@ + "/"@ + branch@,
        ],
{
    let mut name = text::cat3("refs/remotes/", remote, "/");
    name.append(branch);
    let r = text::list(
        ["-C", clone_path, "show-ref", "--verify", "--quiet", name.as_str()].as_slice(),
    );
    assert(text::views(r@) =~= seq![
        "-C"@,
        clone_path@,
        "show-ref"@,
        "--verify"@,
        "--quiet"@,
        "refs/remotes/"@ + remote@ + "/"@ + branch@,
    ]);
    r
}

/// The arguments that remove a worktree.
pub open spec fn remove_args(clone_path: Seq<char>, worktree_path: Seq<char>, force: bool) -> Seq<
    Seq<char>,
> {
    seq!["-C"@, clone_path, "worktree"@, "remove"@] + (if force {
        seq!["--force"@]
    } else {
        seq![]
    }) + seq![worktree_path]
}

pub(crate) fn worktree_remove_args(clone_path: &str, worktree_path: &str, force: bool) -> (r: Vec<String>)
    ensures
        text::views(r@) == remove_args(clone_path@, worktree_path@, force),
{
    let mut r = text::list(["-C", clone_path, "worktree", "remove"].as_slice());
    if force {
        r.push("--force".to_owned());
    }
    r.push(worktree_path.to_owned());
    assert(text::views(r@) =~= remove_args(clone_path@, worktree_path@, force));
    r
}

/// Remove a worktree. Without `force`, git refuses one with changes in it.
pub fn worktree_remove(clone_path: &str, worktree_path: &str, force: bool) -> (r: Vec<Step>)
    ensures
        plan(r@) == seq![
            say("removing worktree "@ + worktree_path@),
            must(
                remove_args(clone_path@, worktree_path@, force),
                "git worktree remove "@ + worktree_path@,
            ),
        ],
{
    let mut r: Vec<Step> = Vec::new();
    r.push(status(text::cat("removing worktree ", worktree_path)));
    let args = worktree_remove_args(clone_path, worktree_path, force);
    let what = text::cat("git worktree remove ", worktree_path);
    r.push(Step::Git { args, failure: Failure::Abort { what } });
    r
}

/// Remove a worktree where no log is there to tell: the error says what git
/// said.
pub fn worktree_remove_silent(clone_path: &str, worktree_path: &str, force: bool) -> (r: Step)
    ensures
        r@ == (StepView::Git {
            args: remove_args(clone_path@, worktree_path@, force),
            failure: FailureView::Report { what: "git worktree remove "@ + worktree_path@ },
        }),
{
    let args = worktree_remove_args(clone_path, worktree_path, force);
    let what = text::cat("git worktree remove ", worktree_path);
    Step::Git { args, failure: Failure::Report { what } }
}

fn prune_args(clone_path: &str) -> (r: Vec<String>)
    ensures
        text::views(r@) == seq!["-C"@, clone_path@, "worktree"@, "prune"@],
{
    let r = text::list(["-C", clone_path, "worktree", "prune"].as_slice());
    assert(text::views(r@) =~= seq!["-C"@, clone_path@, "worktree"@, "prune"@]);
    r
}

fn delete_args(clone_path: &str, branch: &str) -> (r: Vec<String>)
    ensures
        text::views(r@) == seq!["-C"@, clone_path@, "branch"@, "-D"@, branch@],
{
    let r = text::list(["-C", clone_path, "branch", "-D", branch].as_slice());
    assert(text::views(r@) =~= seq!["-C"@, clone_path@, "branch"@, "-D"@, branch@]);
    r
}

/// Clear the registrations of worktrees that are gone.
pub fn worktree_prune_best_effort(clone_path: &str) -> (r: Step)
    ensures
        r@ == may(
            seq!["-C"@, clone_path@, "worktree"@, "prune"@],
            "worktree prune"@,
            ""@,
            "worktree prune failed: "@,
        ),
{
    let failure = Failure::Mention {
        what: "worktree prune".to_owned(),
        after: "".to_owned(),
        unspawned: "worktree prune failed: ".to_owned(),
    };
    Step::Git { args: prune_args(clone_path), failure }
}

/// Clear the registrations of worktrees that are gone, and say nothing.
pub fn worktree_prune_best_effort_silent(clone_path: &str) -> (r: Step)
    ensures
        r@ == (StepView::Git {
            args: seq!["-C"@, clone_path@, "worktree"@, "prune"@],
            failure: FailureView::Ignore,
        }),
{
    Step::Git { args: prune_args(clone_path), failure: Failure::Ignore }
}

/// Delete a branch, so that its name can be used again.
pub fn branch_delete_best_effort(clone_path: &str, branch: &str) -> (r: Vec<Step>)
    ensures
        plan(r@) == seq![
            say("deleting branch "@ + branch@),
            may(
                seq!["-C"@, clone_path@, "branch"@, "-D"@, branch@],
                "branch -D "@ + branch@,
                " (already gone?)"@,
                "branch -D "@ + branch@ + " failed: "@,
            ),
        ],
{
    let mut r: Vec<Step> = Vec::new();
    r.push(status(text::cat("deleting branch ", branch)));
    let what = text::cat("branch -D ", branch);
    let unspawned = text::cat3("branch -D ", branch, " failed: ");
    let failure = Failure::Mention { what, after: " (already gone?)".to_owned(), unspawned };
    r.push(Step::Git { args: delete_args(clone_path, branch), failure });
    r
}

/// Delete a branch, and say nothing.
pub fn branch_delete_best_effort_silent(clone_path: &str, branch: &str) -> (r: Step)
    ensures
        r@ == (StepView::Git {
            args: seq!["-C"@, clone_path@, "branch"@, "-D"@, branch@],
            failure: FailureView::Ignore,
        }),
{
    Step::Git { args: delete_args(clone_path, branch), failure: Failure::Ignore }
}

pub open spec fn is_break(b: u8) -> bool {
    b == 0x0a || b == 0x0d
}

/// Output cut at line feeds and carriage returns: the lines that hold something,
/// and what has not been ended yet.
pub open spec fn drained(s: Seq<u8>) -> (Seq<Seq<u8>>, Seq<u8>)
    decreases s.len(),
{
    if s.len() == 0 {
        (seq![], seq![])
    } else {
        let (lines, line) = drained(s.drop_last());
        if !is_break(s.last()) {
            (lines, line.push(s.last()))
        } else if line.len() > 0 {
            (lines.push(line), seq![])
        } else {
            (lines, seq![])
        }
    }
}

pub open spec fn bytes(v: Seq<Vec<u8>>) -> Seq<Seq<u8>> {
    v.map_values(|l: Vec<u8>| l@)
}

/// The output of a process, cut into lines as it arrives. Progress overwrites
/// its line with a carriage return alone, so that ends a line too.
pub struct LineBuffer {
    pub line: Vec<u8>,
}

impl LineBuffer {
    /// What is held back has not been ended.
    pub open spec fn wf(self) -> bool {
        forall|i: int| 0 <= i < self.line@.len() ==> !is_break(#[trigger] self.line@[i])
    }

    pub fn new() -> (r: LineBuffer)
        ensures
            r.wf(),
            r.line@.len() == 0,
    {
        LineBuffer { line: Vec::new() }
    }

    /// Take in some output and give out the lines that it ends.
    pub fn feed(&mut self, chunk: &[u8]) -> (r: Vec<Vec<u8>>)
        requires
            old(self).wf(),
        ensures
            final(self).wf(),
            (bytes(r@), final(self).line@) == drained(old(self).line@ + chunk@),
    {
        let mut r: Vec<Vec<u8>> = Vec::new();
        let ghost before = self.line@;
        proof {
            lemma_unbroken(before);
            assert(before + chunk@.take(0) =~= before);
            assert(bytes(r@) =~= seq![]);
        }
        let mut i: usize = 0;
        while i < chunk.len()
            invariant
                i <= chunk.len(),
                self.wf(),
                (bytes(r@), self.line@) == drained(before + chunk@.take(i as int)),
            decreases chunk.len() - i,
        {
            let b: u8 = chunk[i];
            proof {
                let next = before + chunk@.take(i + 1);
                assert(next.drop_last() =~= before + chunk@.take(i as int));
                assert(next.last() == b);
            }
            if b == 0x0a || b == 0x0d {
                if self.line.len() > 0 {
                    let mut line: Vec<u8> = Vec::new();
                    std::mem::swap(&mut line, &mut self.line);
                    let ghost done = r@;
                    r.push(line);
                    assert(bytes(r@) =~= bytes(done).push(line@));
                }
                assert(self.line@ =~= seq![]);
            } else {
                self.line.push(b);
            }
            i = i + 1;
        }
        assert(chunk@.take(i as int) =~= chunk@);
        r
    }

    /// What is left at the end of the output.
    pub fn finish(self) -> (r: Option<Vec<u8>>)
        ensures
            match r {
                Some(l) => l@ == self.line@ && l@.len() > 0,
                None => self.line@.len() == 0,
            },
    {
        if self.line.len() > 0 {
            Some(self.line)
        } else {
            None
        }
    }
}

proof fn lemma_unbroken(s: Seq<u8>)
    requires
        forall|i: int| 0 <= i < s.len() ==> !is_break(#[trigger] s[i]),
    ensures
        drained(s) == (Seq::<Seq<u8>>::empty(), s),
    decreases s.len(),
{
    if s.len() > 0 {
        lemma_unbroken(s.drop_last());
        assert(s.drop_last().push(s.last()) =~= s);
    }
}

/// Output that arrives in pieces is cut as it would be in one: what the first
/// piece leaves open is held in front of the second.
pub proof fn draining_in_pieces(a: Seq<u8>, b: Seq<u8>)
    ensures
        drained(a + b) == (drained(a).0 + drained(drained(a).1 + b).0, drained(
            drained(a).1 + b,
        ).1),
        forall|i: int| 0 <= i < drained(a).1.len() ==> !is_break(#[trigger] drained(a).1[i]),
    decreases b.len(), a.len(),
{
    if b.len() == 0 {
        assert(a + b =~= a);
        assert(drained(a).1 + b =~= drained(a).1);
        if a.len() > 0 {
            draining_in_pieces(a.drop_last(), b);
        }
        lemma_unbroken(drained(a).1);
        assert(drained(a).0 + Seq::<Seq<u8>>::empty() =~= drained(a).0);
    } else {
        draining_in_pieces(a, b.drop_last());
        let c = drained(a).1;
        assert((a + b).drop_last() =~= a + b.drop_last());
        assert((c + b).drop_last() =~= c + b.drop_last());
        let (ls, l) = drained(c + b.drop_last());
        assert(drained(a).0 + ls.push(l) =~= (drained(a).0 + ls).push(l));
    }
}

/// A worktree is added with the path that it goes to and the branch that it is on. The
/// branch is made, under that name, unless the clone has it; one that follows another
/// starts there and tracks it.
pub proof fn a_worktree_gets_its_branch(
    source: WorktreeBranch,
    branch: Seq<char>,
    path: Seq<char>,
    i: int,
)
    requires
        branch != "-b"@ && path != "-b"@,
        branch != "--track"@ && path != "--track"@,
        source matches WorktreeBranch::TrackRemote(start) ==> start@ != "-b"@ && start@
            != "--track"@,
    ensures
        branch_args(source, branch, path).contains(branch),
        branch_args(source, branch, path).contains(path),
        branch_args(source, branch, path).contains("-b"@) <==> !(source is ExistingLocal),
        branch_args(source, branch, path).contains("--track"@) <==> source is TrackRemote,
        0 <= i < branch_args(source, branch, path).len() && branch_args(source, branch, path)[i]
            == "-b"@ ==> i + 2 < branch_args(source, branch, path).len() && branch_args(
            source,
            branch,
            path,
        )[i + 1] == branch && branch_args(source, branch, path)[i + 2] == path,
        source is ExistingLocal ==> branch_args(source, branch, path)[0] == path && branch_args(
            source,
            branch,
            path,
        ).last() == branch,
        source matches WorktreeBranch::TrackRemote(start) ==> branch_args(
            source,
            branch,
            path,
        ).last() == start@,
        source is NewFromHead ==> branch_args(source, branch, path).last() == path,
{
    reveal_strlit("-b");
    reveal_strlit("--track");
    let args = branch_args(source, branch, path);
    assert("-b"@.len() != "--track"@.len());
    match source {
        WorktreeBranch::NewFromHead => {
            assert(args[0] == "-b"@ && args[1] == branch && args[2] == path);
        },
        WorktreeBranch::TrackRemote(start) => {
            assert(args[0] == "--track"@ && args[1] == "-b"@ && args[2] == branch && args[3]
                == path && args[4] == start@);
        },
        WorktreeBranch::ExistingLocal => {
            assert(args[0] == path && args[1] == branch);
        },
    }
}

/// The branch that is pinned is the one to be on, and what was found out counts only
/// where none is.
pub proof fn a_pinned_branch_is_wanted(pinned: Option<Seq<char>>, detected: Option<Seq<char>>)
    ensures
        pinned is Some ==> wanted_branch(pinned, detected) == pinned,
        pinned is None ==> wanted_branch(pinned, detected) == detected,
{
}

/// A worktree is taken away from its clone by its path, and by force exactly where that
/// was asked for.
pub proof fn a_worktree_is_removed_by_its_path(clone: Seq<char>, path: Seq<char>, force: bool)
    requires
        clone != "--force"@ && path != "--force"@,
    ensures
        remove_args(clone, path, force).last() == path,
        remove_args(clone, path, force)[0] == "-C"@ && remove_args(clone, path, force)[1] == clone,
        remove_args(clone, path, force)[2] == "worktree"@ && remove_args(clone, path, force)[3]
            == "remove"@,
        remove_args(clone, path, force).contains("--force"@) <==> force,
{
    reveal_strlit("-C");
    reveal_strlit("worktree");
    reveal_strlit("remove");
    reveal_strlit("--force");
    let args = remove_args(clone, path, force);
    assert("--force"@.len() == 7 && "-C"@.len() == 2 && "worktree"@.len() == 8 && "remove"@.len()
        == 6);
    if force {
        assert(args[4] == "--force"@);
    }
    if args.contains("--force"@) {
        let i = choose|i: int| 0 <= i < args.len() && args[i] == "--force"@;
        assert(i == 4);
    }
}

/// What a command prints is cut where a line breaks, by a line feed or a carriage
/// return: a line that holds something comes out when it is ended, and empty ones do
/// not come out.
pub proof fn lines_are_cut_at_breaks(line: Seq<u8>, rest: Seq<u8>)
    requires
        forall|i: int| 0 <= i < line.len() ==> #[trigger] line[i] != 0x0a && line[i] != 0x0d,
    ensures
        drained(line) == (Seq::<Seq<u8>>::empty(), line),
        line.len() > 0 ==> drained(line + seq![0x0au8] + rest) == (
            seq![line] + drained(rest).0,
            drained(rest).1,
        ),
        line.len() > 0 ==> drained(line + seq![0x0du8] + rest) == (
            seq![line] + drained(rest).0,
            drained(rest).1,
        ),
        drained(seq![0x0au8] + rest) == drained(rest),
        drained(seq![0x0du8] + rest) == drained(rest),
{
    assert forall|i: int| 0 <= i < line.len() implies !is_break(#[trigger] line[i]) by {}
    lemma_unbroken(line);
    let e: Seq<u8> = seq![];
    lemma_ended(line, 0x0a, rest);
    lemma_ended(line, 0x0d, rest);
    lemma_ended(e, 0x0a, rest);
    lemma_ended(e, 0x0d, rest);
    assert(e + seq![0x0au8] + rest =~= seq![0x0au8] + rest);
    assert(e + seq![0x0du8] + rest =~= seq![0x0du8] + rest);
}

proof fn lemma_ended(line: Seq<u8>, b: u8, rest: Seq<u8>)
    requires
        b == 0x0a || b == 0x0d,
        forall|i: int| 0 <= i < line.len() ==> !is_break(#[trigger] line[i]),
    ensures
        drained(line + seq![b] + rest) == ((if line.len() > 0 {
            seq![line]
        } else {
            seq![]
        }) + drained(rest).0, drained(rest).1),
{
    let a = line + seq![b];
    lemma_unbroken(line);
    assert(a.drop_last() =~= line);
    draining_in_pieces(a, rest);
    let none: Seq<u8> = seq![];
    assert(none + rest =~= rest);
    let first: Seq<Seq<u8>> = if line.len() > 0 {
        seq![line]
    } else {
        seq![]
    };
    assert(drained(a).0 =~= first);
    assert(drained(a).1 =~= none);
}

} // verus!
