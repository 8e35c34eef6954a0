//! Provisioning and teardown of the worktrees of a workspace.
//!
//! Each run is a machine: it names the next thing to do, and is told how that
//! went. It decides what is undone where something fails, and above all whether
//! a branch may be deleted: only one that the run itself made.

use vstd::prelude::*;

use crate::agent::AgentName;
use crate::error::AppError;
use crate::git;
use crate::git::{Failure, Step, WorktreeBranch};
use crate::job;
use crate::job::JobEvent;
use crate::paths;
use crate::registry::{Repo, RepoRegistry};
use crate::state::{RepoLink, Workspace, WorkspaceStatus};
use crate::text;

verus! {

/// How far the provisioning of one repo has come.
#[derive(Debug, Clone, Copy, PartialEq, Eq, Structural)]
pub enum RepoPhase {
    Cloning,
    Switching,
    Pulling,
    LookingHere,
    LookingThere,
    Adding,
    Linking,
    Copying,
    SettingUp,
    TearingDown,
    Over,
}

/// How the last thing went.
#[derive(Debug)]
pub enum RepoEvent {
    Done,
    Failed(AppError),
    /// Whether the branch that was looked for is there.
    Found(bool),
}

/// What is to be done next.
#[derive(Debug)]
pub enum RepoAction {
    /// Make sure that the clone is there.
    Clone,
    /// Put the clone on its default branch.
    Switch,
    /// Bring the clone up to date.
    Pull,
    /// See whether the clone has the branch.
    FindLocal,
    /// See whether origin has the branch.
    FindRemote,
    AddWorktree(WorktreeBranch),
    /// Link the repo's shared settings into the worktree.
    LinkSettings,
    /// Copy the configured files into the worktree.
    CopyFiles,
    RunSetup(String),
    /// Remove the worktree, and the branch where it may be.
    TearDown { delete_branch: bool },
    Finish(Result<RepoLink, AppError>),
}

/// The provisioning of one repo's worktree.
#[derive(Debug)]
pub struct RepoProvision {
    pub repo_key: String,
    pub branch: String,
    pub worktree_path: String,
    pub setup_script: Option<String>,
    pub phase: RepoPhase,
    /// Whether this run makes the branch. Settled once both places where it
    /// could be have been looked at.
    pub created_branch: bool,
    /// Why the worktree is being torn down.
    pub error: Option<AppError>,
}

/// Whether a script has anything in it.
pub open spec fn has_work(script: Option<String>) -> bool {
    script matches Some(s) && text::trim(s@).len() > 0
}

/// Whether what a phase waits for can go as the event says.
pub open spec fn fits(phase: RepoPhase, event: RepoEvent) -> bool {
    match phase {
        RepoPhase::LookingHere => !(event is Done),
        RepoPhase::LookingThere => !(event is Done),
        RepoPhase::TearingDown => event is Done,
        RepoPhase::Over => false,
        _ => !(event is Found),
    }
}

impl RepoProvision {
    /// What the run is about never changes.
    pub open spec fn same_run(self, other: Self) -> bool {
        &&& self.repo_key == other.repo_key
        &&& self.branch == other.branch
        &&& self.worktree_path == other.worktree_path
        &&& self.setup_script == other.setup_script
    }

    pub open spec fn wf(self) -> bool {
        (self.phase is TearingDown) == (self.error is Some)
    }

    /// The link that a run which went well ends with.
    pub open spec fn is_link(self, link: RepoLink, setup_ran_at: Option<i64>) -> bool {
        &&& link.repo_key == self.repo_key
        &&& link.worktree_path == self.worktree_path
        &&& link.created_branch == self.created_branch
        &&& link.setup_script_ran_at == setup_ran_at
        &&& link.prs@.len() == 0
        &&& link.dismissed@.len() == 0
        &&& link.attached_prs@.len() == 0
        &&& link.github is None
        &&& link.docs is None
    }
}

/// One step of the provisioning of a repo: how the run goes on after `event`.
///
/// Nothing is on disk before the worktree is added, so a failure until then is
/// simply the end. From there on a failure tears the worktree down first.
pub open spec fn repo_step(
    before: RepoProvision,
    event: RepoEvent,
    now: i64,
    after: RepoProvision,
    action: RepoAction,
) -> bool {
    &&& after.same_run(before)
    &&& !(before.phase is LookingHere || before.phase is LookingThere) ==> after.created_branch
        == before.created_branch
    &&& match (before.phase, event) {
        (RepoPhase::Cloning, RepoEvent::Done) => after.phase is Switching && action is Switch,
        (RepoPhase::Switching, RepoEvent::Done) => after.phase is Pulling && action is Pull,
        (RepoPhase::Pulling, RepoEvent::Done) => after.phase is LookingHere && action is FindLocal,
        (RepoPhase::LookingHere, RepoEvent::Found(true)) => after.phase is Adding
            && !after.created_branch && action == RepoAction::AddWorktree(
            WorktreeBranch::ExistingLocal,
        ),
        (RepoPhase::LookingHere, RepoEvent::Found(false)) => after.phase is LookingThere
            && action is FindRemote,
        (RepoPhase::LookingThere, RepoEvent::Found(there)) => after.phase is Adding
            && after.created_branch && match action {
            RepoAction::AddWorktree(WorktreeBranch::TrackRemote(start)) => there && start@
                == "origin/"@ + before.branch@,
            RepoAction::AddWorktree(WorktreeBranch::NewFromHead) => !there,
            _ => false,
        },
        (RepoPhase::Adding, RepoEvent::Done) => after.phase is Linking && action is LinkSettings,
        (RepoPhase::Linking, RepoEvent::Done) => after.phase is Copying && action is CopyFiles,
        (RepoPhase::Copying, RepoEvent::Done) => if has_work(before.setup_script) {
            after.phase is SettingUp && action == RepoAction::RunSetup(before.setup_script->0)
        } else {
            after.phase is Over && (action matches RepoAction::Finish(Ok(link)) && after.is_link(
                link,
                None,
            ))
        },
        (RepoPhase::SettingUp, RepoEvent::Done) => after.phase is Over
            && (action matches RepoAction::Finish(Ok(link)) && after.is_link(link, Some(now))),
        (RepoPhase::TearingDown, _) => after.phase is Over && action == RepoAction::Finish(
            Err(before.error->0),
        ),
        (_, RepoEvent::Failed(e)) => if owns_worktree(before.phase) {
            after.phase is TearingDown && after.error == Some(e) && action
                == (RepoAction::TearDown { delete_branch: before.created_branch })
        } else {
            after.phase is Over && action == RepoAction::Finish(Err(e))
        },
        _ => false,
    }
}

/// Whether the run may have left a worktree on disk.
pub open spec fn owns_worktree(phase: RepoPhase) -> bool {
    phase is Adding || phase is Linking || phase is Copying || phase is SettingUp
}

fn has_text(s: &str) -> (r: bool)
    ensures
        r == (text::trim(s@).len() > 0),
{
    !text::trimmed(s).as_str().is_empty()
}

impl RepoProvision {
    /// Start a run.
    pub fn start(repo: &Repo, worktree_path: String, branch: String) -> (r: (
        RepoProvision,
        RepoAction,
    ))
        ensures
            r.0.wf(),
            r.0.repo_key == repo.key,
            r.0.branch == branch,
            r.0.worktree_path == worktree_path,
            r.0.setup_script == repo.default_setup_script,
            r.0.phase is Cloning,
            !r.0.created_branch,
            r.1 is Clone,
    {
        let run = RepoProvision {
            repo_key: repo.key.clone(),
            branch,
            worktree_path,
            setup_script: text::copied(&repo.default_setup_script),
            phase: RepoPhase::Cloning,
            created_branch: false,
            error: None,
        };
        (run, RepoAction::Clone)
    }

    fn link(&self, setup_script_ran_at: Option<i64>) -> (r: RepoLink)
        ensures
            self.is_link(r, setup_script_ran_at),
    {
        RepoLink {
            repo_key: self.repo_key.clone(),
            worktree_path: self.worktree_path.clone(),
            setup_script_ran_at,
            prs: Vec::new(),
            dismissed: Vec::new(),
            github: None,
            attached_prs: Vec::new(),
            created_branch: self.created_branch,
            docs: None,
        }
    }
}

/// Carry the provisioning of one repo a step on: clone, default branch, pull,
/// branch, worktree, settings, files, setup script. A failure past the worktree
/// undoes it before it is reported.
pub fn provision_repo_worktree(run: &mut RepoProvision, event: RepoEvent, now: i64) -> (r:
    RepoAction)
    requires
        old(run).wf(),
        fits(old(run).phase, event),
    ensures
        final(run).wf(),
        repo_step(*old(run), event, now, *final(run), r),
{
    let phase = run.phase;
    match event {
        RepoEvent::Failed(e) => {
            match phase {
                RepoPhase::Adding | RepoPhase::Linking | RepoPhase::Copying
                | RepoPhase::SettingUp => {
                    run.phase = RepoPhase::TearingDown;
                    run.error = Some(e);
                    RepoAction::TearDown { delete_branch: run.created_branch }
                },
                _ => {
                    run.phase = RepoPhase::Over;
                    RepoAction::Finish(Err(e))
                },
            }
        },
        RepoEvent::Found(there) => {
            if let RepoPhase::LookingHere = phase {
                if !there {
                    run.phase = RepoPhase::LookingThere;
                    return RepoAction::FindRemote;
                }
            }
            let here = match phase {
                RepoPhase::LookingHere => true,
                _ => false,
            };
            let plan = git::plan_branch(&run.branch, here, there);
            run.created_branch = plan.created_branch;
            run.phase = RepoPhase::Adding;
            RepoAction::AddWorktree(plan.source)
        },
        RepoEvent::Done => {
            match phase {
                RepoPhase::Cloning => {
                    run.phase = RepoPhase::Switching;
                    RepoAction::Switch
                },
                RepoPhase::Switching => {
                    run.phase = RepoPhase::Pulling;
                    RepoAction::Pull
                },
                RepoPhase::Pulling => {
                    run.phase = RepoPhase::LookingHere;
                    RepoAction::FindLocal
                },
                RepoPhase::Adding => {
                    run.phase = RepoPhase::Linking;
                    RepoAction::LinkSettings
                },
                RepoPhase::Linking => {
                    run.phase = RepoPhase::Copying;
                    RepoAction::CopyFiles
                },
                RepoPhase::Copying => {
                    if let Some(script) = &run.setup_script {
                        if has_text(script) {
                            let script = script.clone();
                            run.phase = RepoPhase::SettingUp;
                            return RepoAction::RunSetup(script);
                        }
                    }
                    run.phase = RepoPhase::Over;
                    RepoAction::Finish(Ok(run.link(None)))
                },
                RepoPhase::SettingUp => {
                    run.phase = RepoPhase::Over;
                    RepoAction::Finish(Ok(run.link(Some(now))))
                },
                _ => {
                    run.phase = RepoPhase::Over;
                    let mut none: Option<AppError> = None;
                    std::mem::swap(&mut none, &mut run.error);
                    match none {
                        Some(e) => RepoAction::Finish(Err(e)),
                        None => RepoAction::Finish(Err(AppError::Other(String::new()))),
                    }
                },
            }
        },
    }
}

/// The steps that add the worktree of a run.
pub fn add_steps(run: &RepoProvision, clone_path: &str, source: &WorktreeBranch) -> (r: Vec<Step>)
    ensures
        git::plan(r@) == (if source is ExistingLocal {
            seq![git::say("checking out existing branch "@ + run.branch@)]
        } else {
            seq![]
        }) + seq![
            git::say("creating worktree at "@ + run.worktree_path@),
            git::StepView::MakeParent { path: run.worktree_path@ },
            git::must(
                seq!["-C"@, clone_path@, "worktree"@, "add"@] + git::branch_args(
                    *source,
                    run.branch@,
                    run.worktree_path@,
                ),
                "git worktree add "@ + run.worktree_path@,
            ),
        ],
{
    let mut r: Vec<Step> = Vec::new();
    if let WorktreeBranch::ExistingLocal = source {
        r.push(git::status(text::cat("checking out existing branch ", &run.branch)));
    }
    let mut more = git::worktree_add(clone_path, &run.worktree_path, &run.branch, source);
    let ghost head = r@;
    let ghost tail = more@;
    r.append(&mut more);
    assert(git::plan(r@) =~= git::plan(head) + git::plan(tail));
    r
}

/// A run from its start: each state with what happened in it and what came of
/// it.
pub open spec fn repo_run(
    states: Seq<RepoProvision>,
    events: Seq<RepoEvent>,
    nows: Seq<i64>,
    actions: Seq<RepoAction>,
) -> bool {
    &&& states.len() == events.len() + 1
    &&& nows.len() == events.len()
    &&& actions.len() == events.len()
    &&& states[0].phase is Cloning
    &&& forall|i: int|
        0 <= i < events.len() ==> #[trigger] fits(states[i].phase, events[i]) && repo_step(
            states[i],
            events[i],
            nows[i],
            states[i + 1],
            actions[i],
        )
}

proof fn lemma_kept(
    states: Seq<RepoProvision>,
    events: Seq<RepoEvent>,
    nows: Seq<i64>,
    actions: Seq<RepoAction>,
    j: int,
    i: int,
)
    requires
        repo_run(states, events, nows, actions),
        0 <= j < i <= events.len(),
        states[j].phase is LookingHere,
        events[j] == RepoEvent::Found(true),
    ensures
        !states[i].created_branch,
        owns_worktree(states[i].phase) || states[i].phase is TearingDown || states[i].phase is Over,
    decreases i,
{
    assert(fits(states[i - 1].phase, events[i - 1]));
    if j < i - 1 {
        lemma_kept(states, events, nows, actions, j, i - 1);
    }
}

/// A branch that was in the clone before a run is never deleted by it, whatever
/// fails.
pub proof fn a_branch_that_was_there_is_kept(
    states: Seq<RepoProvision>,
    events: Seq<RepoEvent>,
    nows: Seq<i64>,
    actions: Seq<RepoAction>,
    j: int,
    i: int,
)
    requires
        repo_run(states, events, nows, actions),
        0 <= j <= i < events.len(),
        states[j].phase is LookingHere,
        events[j] == RepoEvent::Found(true),
    ensures
        actions[i] matches RepoAction::TearDown { delete_branch } ==> !delete_branch,
{
    assert(fits(states[i].phase, events[i]));
    if j < i {
        lemma_kept(states, events, nows, actions, j, i);
    }
}

/// A run that fails once a worktree may be on disk tears it down before it
/// reports the failure, and then reports that failure.
pub proof fn a_failure_is_undone_before_it_is_reported(
    before: RepoProvision,
    e: AppError,
    now: i64,
    between: RepoProvision,
    first: RepoAction,
    then_now: i64,
    after: RepoProvision,
    second: RepoAction,
)
    requires
        before.wf(),
        owns_worktree(before.phase),
        repo_step(before, RepoEvent::Failed(e), now, between, first),
        repo_step(between, RepoEvent::Done, then_now, after, second),
    ensures
        first == (RepoAction::TearDown { delete_branch: before.created_branch }),
        second == RepoAction::Finish(Err(e)),
        after.phase is Over,
{
}

/// A run first brings its clone up to date and then looks for the branch, in the clone
/// and only then at origin. The worktree is added on the branch of the clone where that
/// has it; where only origin has it, on a new branch that starts at origin's and tracks
/// it; and on a new branch off the clone's own commit only where neither has it.
pub proof fn a_worktree_starts_where_its_branch_is(
    states: Seq<RepoProvision>,
    events: Seq<RepoEvent>,
    nows: Seq<i64>,
    actions: Seq<RepoAction>,
)
    requires
        repo_run(states, events, nows, actions),
        events.len() >= 4,
        events[0] is Done && events[1] is Done && events[2] is Done,
    ensures
        actions[0] is Switch && actions[1] is Pull && actions[2] is FindLocal,
        events[3] == RepoEvent::Found(true) ==> actions[3] == RepoAction::AddWorktree(
            WorktreeBranch::ExistingLocal,
        ),
        events[3] == RepoEvent::Found(false) ==> actions[3] is FindRemote,
        events.len() > 4 && events[3] == RepoEvent::Found(false) && events[4] == RepoEvent::Found(
            true,
        ) ==> (actions[4] matches RepoAction::AddWorktree(WorktreeBranch::TrackRemote(start))
            && start@ == "origin/"@ + states[0].branch@),
        events.len() > 4 && events[3] == RepoEvent::Found(false) && events[4] == RepoEvent::Found(
            false,
        ) ==> actions[4] == RepoAction::AddWorktree(WorktreeBranch::NewFromHead),
{
    assert(fits(states[0].phase, events[0]));
    assert(fits(states[1].phase, events[1]));
    assert(fits(states[2].phase, events[2]));
    assert(fits(states[3].phase, events[3]));
    if events.len() > 4 {
        assert(fits(states[4].phase, events[4]));
    }
}

/// How far a run is that has added its worktree and has not failed.
proof fn lemma_added(
    states: Seq<RepoProvision>,
    events: Seq<RepoEvent>,
    nows: Seq<i64>,
    actions: Seq<RepoAction>,
    k: int,
    i: int,
)
    requires
        repo_run(states, events, nows, actions),
        0 <= k < i <= events.len(),
        actions[k] is AddWorktree,
        forall|j: int| k < j < i ==> !(#[trigger] events[j] is Failed),
    ensures
        states[i].created_branch == !(actions[k]->AddWorktree_0 is ExistingLocal),
        owns_worktree(states[i].phase) || states[i].phase is Over,
        i == k + 1 ==> states[i].phase is Adding,
    decreases i,
{
    assert(fits(states[i - 1].phase, events[i - 1]));
    if k < i - 1 {
        lemma_added(states, events, nows, actions, k, i - 1);
        assert(!(events[i - 1] is Failed));
    }
}

/// How far a run is that has not added its worktree and has not failed.
proof fn lemma_not_added(
    states: Seq<RepoProvision>,
    events: Seq<RepoEvent>,
    nows: Seq<i64>,
    actions: Seq<RepoAction>,
    i: int,
)
    requires
        repo_run(states, events, nows, actions),
        0 <= i <= events.len(),
        forall|j: int| 0 <= j < i ==> !(#[trigger] actions[j] is AddWorktree),
        forall|j: int| 0 <= j < i ==> !(#[trigger] events[j] is Failed),
    ensures
        states[i].phase is Cloning || states[i].phase is Switching || states[i].phase is Pulling
            || states[i].phase is LookingHere || states[i].phase is LookingThere,
    decreases i,
{
    if i > 0 {
        lemma_not_added(states, events, nows, actions, i - 1);
        assert(fits(states[i - 1].phase, events[i - 1]));
        assert(!(actions[i - 1] is AddWorktree));
        assert(!(events[i - 1] is Failed));
    }
}

proof fn lemma_one_run(
    states: Seq<RepoProvision>,
    events: Seq<RepoEvent>,
    nows: Seq<i64>,
    actions: Seq<RepoAction>,
    i: int,
)
    requires
        repo_run(states, events, nows, actions),
        0 <= i <= events.len(),
    ensures
        states[i].same_run(states[0]),
    decreases i,
{
    if i > 0 {
        lemma_one_run(states, events, nows, actions, i - 1);
        assert(fits(states[i - 1].phase, events[i - 1]));
    }
}

/// A run that fails before it has asked for its worktree reports that and nothing else.
/// One that has asked for it has it torn down first, with the branch unless the clone had
/// that before, and then reports the failure.
pub proof fn a_failed_run_leaves_nothing_behind(
    states: Seq<RepoProvision>,
    events: Seq<RepoEvent>,
    nows: Seq<i64>,
    actions: Seq<RepoAction>,
    e: AppError,
    i: int,
)
    requires
        repo_run(states, events, nows, actions),
        0 <= i < events.len(),
        events[i] == RepoEvent::Failed(e),
        forall|j: int| 0 <= j < i ==> !(#[trigger] events[j] is Failed),
    ensures
        (forall|j: int| 0 <= j < i ==> !(#[trigger] actions[j] is AddWorktree)) ==> actions[i]
            == RepoAction::Finish(Err(e)),
        forall|k: int|
            0 <= k < i && #[trigger] actions[k] is AddWorktree ==> actions[i]
                == (RepoAction::TearDown {
                delete_branch: actions[k] != RepoAction::AddWorktree(WorktreeBranch::ExistingLocal),
            }) && (i + 1 < events.len() ==> actions[i + 1] == RepoAction::Finish(Err(e))),
{
    assert(fits(states[i].phase, events[i]));
    if forall|j: int| 0 <= j < i ==> !(#[trigger] actions[j] is AddWorktree) {
        lemma_not_added(states, events, nows, actions, i);
    }
    assert forall|k: int| 0 <= k < i && #[trigger] actions[k] is AddWorktree implies actions[i]
        == (RepoAction::TearDown {
        delete_branch: actions[k] != RepoAction::AddWorktree(WorktreeBranch::ExistingLocal),
    }) && (i + 1 < events.len() ==> actions[i + 1] == RepoAction::Finish(Err(e))) by {
        lemma_added(states, events, nows, actions, k, i);
        if i + 1 < events.len() {
            assert(fits(states[i + 1].phase, events[i + 1]));
        }
    }
}

/// A worktree that was added gets the repo's settings and then its files; then its setup
/// script is run, where it has one that says anything. The link that comes of it names
/// the repo and the place that the run was started for, says whether the branch was new,
/// and when the script ran.
pub proof fn a_run_that_goes_well_ends_in_a_link(
    states: Seq<RepoProvision>,
    events: Seq<RepoEvent>,
    nows: Seq<i64>,
    actions: Seq<RepoAction>,
    k: int,
)
    requires
        repo_run(states, events, nows, actions),
        0 <= k,
        k + 3 < events.len(),
        actions[k] is AddWorktree,
        events[k + 1] is Done && events[k + 2] is Done && events[k + 3] is Done,
    ensures
        actions[k + 1] is LinkSettings,
        actions[k + 2] is CopyFiles,
        ({
            let blank = states[0].setup_script matches Some(s) ==> text::trim(s@).len() == 0;
            let last: int = if blank {
                k + 3
            } else {
                k + 4
            };
            &&& !blank ==> actions[k + 3] == RepoAction::RunSetup(states[0].setup_script->0)
            &&& last < events.len() && events[last] is Done ==> (actions[last]
                matches RepoAction::Finish(Ok(link)) && link.repo_key == states[0].repo_key
                && link.worktree_path == states[0].worktree_path && link.created_branch == !(
            actions[k]->AddWorktree_0 is ExistingLocal) && link.setup_script_ran_at == (if blank {
                None
            } else {
                Some(nows[last])
            }) && link.prs@.len() == 0 && link.dismissed@.len() == 0)
        }),
{
    lemma_one_run(states, events, nows, actions, k + 1);
    lemma_added(states, events, nows, actions, k, k + 1);
    assert(fits(states[k + 1].phase, events[k + 1]));
    assert(fits(states[k + 2].phase, events[k + 2]));
    assert(fits(states[k + 3].phase, events[k + 3]));
    if k + 4 < events.len() {
        assert(fits(states[k + 4].phase, events[k + 4]));
    }
}

/// What is to be undone of one repo.
#[derive(Debug)]
pub struct RepoTeardown {
    pub repo_key: String,
    pub clone_path: String,
    pub worktree_path: String,
    pub branch: String,
    /// Whether the branch was made for this workspace. One that was there before
    /// is left alone; only the worktree goes.
    pub created_branch: bool,
}

/// Undo the provisioning of one repo as far as that goes: what fails is
/// mentioned, and the rest is done all the same.
pub fn teardown_repo_worktree(t: &RepoTeardown, worktree_exists: bool) -> (r: Vec<Step>)
    ensures
        git::plan(r@) == (if !worktree_exists {
            seq![]
        } else {
            let gone = "cleanup failed for "@ + t.repo_key@ + ": "@;
            seq![
                git::say("removing worktree "@ + t.worktree_path@),
                git::may(
                    git::remove_args(t.clone_path@, t.worktree_path@, true),
                    gone + ("git worktree remove "@ + t.worktree_path@),
                    ""@,
                    gone,
                ),
                git::may(
                    seq!["-C"@, t.clone_path@, "worktree"@, "prune"@],
                    "worktree prune"@,
                    ""@,
                    "worktree prune failed: "@,
                ),
            ] + (if t.created_branch {
                seq![
                    git::say("deleting branch "@ + t.branch@),
                    git::may(
                        seq!["-C"@, t.clone_path@, "branch"@, "-D"@, t.branch@],
                        "branch -D "@ + t.branch@,
                        " (already gone?)"@,
                        "branch -D "@ + t.branch@ + " failed: "@,
                    ),
                ]
            } else {
                seq![]
            })
        }),
{
    let mut r: Vec<Step> = Vec::new();
    if !worktree_exists {
        return r;
    }
    r.push(git::status(text::cat("removing worktree ", &t.worktree_path)));
    let args = git::worktree_remove_args(&t.clone_path, &t.worktree_path, true);
    let gone = text::cat3("cleanup failed for ", &t.repo_key, ": ");
    let removing = text::cat("git worktree remove ", &t.worktree_path);
    let what = text::cat(&gone, &removing);
    r.push(
        Step::Git { args, failure: Failure::Mention { what, after: "".to_owned(), unspawned: gone } },
    );
    r.push(git::worktree_prune_best_effort(&t.clone_path));
    if t.created_branch {
        let mut more = git::branch_delete_best_effort(&t.clone_path, &t.branch);
        let ghost head = r@;
        let ghost tail = more@;
        r.append(&mut more);
        assert(git::plan(r@) =~= git::plan(head) + git::plan(tail));
    }
    r
}

/// Whether a file may be copied from the clone into the worktree without leaving
/// either.
pub open spec fn stays_inside(rel: Seq<char>) -> bool {
    !paths::is_absolute(rel) && !text::split(rel, '/').contains(".."@)
}

/// A file that may be copied goes below the directory that it is copied to.
pub proof fn copies_stay_inside(dir: Seq<char>, rel: Seq<char>)
    requires
        stays_inside(rel),
        dir.len() > 0,
    ensures
        dir.is_prefix_of(paths::join(dir, rel)),
        rel.is_suffix_of(paths::join(dir, rel)),
        paths::join(dir, rel).len() <= dir.len() + 1 + rel.len(),
{
    reveal_strlit("/");
    let p = paths::join(dir, rel);
    assert(p.take(dir.len() as int) =~= dir);
    assert(p.skip(p.len() - rel.len()) =~= rel);
}

/// One file to be copied: where it is, and where it goes.
#[derive(Debug)]
pub struct Copy {
    pub rel: String,
    pub src: String,
    pub dst: String,
}

/// The files to be copied from the clone into a new worktree.
pub struct CopyPlan {
    /// What is copied, one after the other.
    pub copies: Vec<Copy>,
    /// The error that ends it, where a path is refused.
    pub refused: Option<AppError>,
}

/// Where the first path stands that would lead out of the clone or the worktree; the
/// end where none does.
pub open spec fn good_prefix(copy_files: Seq<String>) -> int
    decreases copy_files.len(),
{
    if copy_files.len() > 0 && stays_inside(copy_files[0]@) {
        1 + good_prefix(copy_files.drop_first())
    } else {
        0
    }
}

proof fn lemma_good_prefix(copy_files: Seq<String>, i: int)
    requires
        0 <= i <= copy_files.len(),
        forall|k: int| 0 <= k < i ==> stays_inside((#[trigger] copy_files[k])@),
        i < copy_files.len() ==> !stays_inside(copy_files[i]@),
    ensures
        good_prefix(copy_files) == i,
    decreases i,
{
    if i > 0 {
        let rest = copy_files.drop_first();
        assert(stays_inside(copy_files[0]@));
        assert forall|k: int| 0 <= k < i - 1 implies stays_inside((#[trigger] rest[k])@) by {
            assert(rest[k] == copy_files[k + 1]);
        }
        lemma_good_prefix(rest, i - 1);
    }
}

/// What is to be copied from the clone into a new worktree. A path that would lead out
/// of either is refused, and what is configured before it is copied all the same.
pub fn copy_configured_files(clone_path: &str, worktree_path: &str, copy_files: &[String]) -> (r:
    CopyPlan)
    ensures
        r.copies@.len() == good_prefix(copy_files@) <= copy_files@.len(),
        forall|i: int|
            0 <= i < r.copies@.len() ==> {
                &&& (#[trigger] r.copies@[i]).rel == copy_files@[i]
                &&& stays_inside(r.copies@[i].rel@)
                &&& r.copies@[i].src@ == paths::join(clone_path@, copy_files@[i]@)
                &&& r.copies@[i].dst@ == paths::join(worktree_path@, copy_files@[i]@)
            },
        match r.refused {
            None => good_prefix(copy_files@) == copy_files@.len(),
            Some(e) => good_prefix(copy_files@) < copy_files@.len() && e.says(
                "copy_files entry '"@ + copy_files@[good_prefix(copy_files@)]@
                    + "' must be a relative path without '..' segments"@,
            ),
        },
{
    let mut copies: Vec<Copy> = Vec::new();
    let mut i: usize = 0;
    while i < copy_files.len()
        invariant
            i <= copy_files@.len(),
            copies@.len() == i,
            forall|k: int| 0 <= k < i ==> stays_inside((#[trigger] copy_files@[k])@),
            forall|k: int|
                0 <= k < i ==> {
                    &&& (#[trigger] copies@[k]).rel == copy_files@[k]
                    &&& stays_inside(copies@[k].rel@)
                    &&& copies@[k].src@ == paths::join(clone_path@, copy_files@[k]@)
                    &&& copies@[k].dst@ == paths::join(worktree_path@, copy_files@[k]@)
                },
        decreases copy_files@.len() - i,
    {
        let rel = copy_files[i].as_str();
        if paths::absolute(rel) || text::among(&text::split_on(rel, '/'), "..") {
            proof {
                lemma_good_prefix(copy_files@, i as int);
            }
            let why = text::cat3(
                "copy_files entry '",
                rel,
                "' must be a relative path without '..' segments",
            );
            return CopyPlan { copies, refused: Some(AppError::Other(why)) };
        }
        copies.push(
            Copy {
                rel: copy_files[i].clone(),
                src: paths::joined(clone_path, rel),
                dst: paths::joined(worktree_path, rel),
            },
        );
        i = i + 1;
    }
    proof {
        lemma_good_prefix(copy_files@, i as int);
    }
    CopyPlan { copies, refused: None }
}

/// Whether a file is copied: one that is not there, or is no file, is passed
/// over, and one that is there already is left alone.
pub fn is_copied(src_is_file: bool, dst_exists: bool) -> (r: bool)
    ensures
        r == (src_is_file && !dst_exists),
{
    src_is_file && !dst_exists
}

/// How far the provisioning of a workspace has come.
#[derive(Debug, Clone, Copy, PartialEq, Eq, Structural)]
pub enum WorkspacePhase {
    Acquiring,
    Waiting,
    Checking,
    Resuming,
    Provisioning,
    Readying,
    RollingBack,
    Removing,
    Failing,
    Over,
}

/// How the last thing went.
#[derive(Debug)]
pub enum WorkspaceEvent {
    /// Whether the slot was free.
    Slot(bool),
    /// Whether the workspace is still wanted.
    Live(bool),
    Provisioned(RepoLink),
    Done,
    Failed(AppError),
}

/// What is to be done next.
#[derive(Debug)]
pub enum WorkspaceAction {
    /// Say that the job has to wait, show its row as queued, and wait.
    Wait,
    /// See whether the workspace has been deleted meanwhile.
    CheckLive,
    /// Show the row as being created.
    MarkCreating,
    /// Provision the repo at this place in the request.
    Provision(usize),
    /// Store the links of the run, show the row as ready and seed the workspace root.
    MarkReady,
    TearDown(RepoLink),
    /// Remove the directory of the workspace, where it is to be.
    RemoveRoot,
    /// Show the row as failed, for this reason.
    MarkFailed(String),
    /// The job is over: how it came out, and its last event.
    Finish(Result<(), AppError>, JobEvent),
}

/// The provisioning of every repo of a workspace, once its row is there.
#[derive(Debug)]
pub struct WorkspaceProvision {
    /// How many repos were asked for.
    pub repos: usize,
    /// The worktrees that are there, which a failure takes away again.
    pub created: Vec<RepoLink>,
    pub waited: bool,
    pub phase: WorkspacePhase,
    pub error: Option<AppError>,
}

/// Whether what a phase waits for can go as the event says.
pub open spec fn workspace_fits(phase: WorkspacePhase, event: WorkspaceEvent) -> bool {
    match phase {
        WorkspacePhase::Acquiring => event is Slot,
        WorkspacePhase::Checking => event is Live,
        WorkspacePhase::Provisioning => event is Provisioned || event is Failed,
        WorkspacePhase::Readying => event is Done || event is Failed,
        WorkspacePhase::Over => false,
        _ => event is Done,
    }
}

impl WorkspaceProvision {
    /// Whether the run is taking back what it made.
    pub open spec fn undoing(self) -> bool {
        self.phase is RollingBack || self.phase is Removing || self.phase is Failing
    }

    pub open spec fn wf(self) -> bool {
        &&& self.created@.len() <= self.repos
        &&& self.phase is Provisioning ==> self.created@.len() < self.repos
        &&& self.undoing() == (self.error is Some)
        &&& !(self.phase is Provisioning || self.phase is Readying || self.phase is RollingBack
            || self.phase is Over) ==> self.created@.len() == 0
    }
}

/// The next repo, or the end where all are there.
pub open spec fn goes_on(
    links: Seq<RepoLink>,
    after: WorkspaceProvision,
    action: WorkspaceAction,
) -> bool {
    if links.len() < after.repos {
        after.phase is Provisioning && after.created@ == links && action
            == WorkspaceAction::Provision(links.len() as usize)
    } else {
        after.phase is Readying && after.created@ == links && action is MarkReady
    }
}

/// The worktree that is torn down next, which is the newest, or the directory
/// where none is left.
pub open spec fn goes_back(
    links: Seq<RepoLink>,
    after: WorkspaceProvision,
    action: WorkspaceAction,
) -> bool {
    if links.len() > 0 {
        after.phase is RollingBack && after.created@ == links.drop_last() && action
            == WorkspaceAction::TearDown(links.last())
    } else {
        after.phase is Removing && after.created@.len() == 0 && action is RemoveRoot
    }
}

/// The end of a run that came out this way, with the last event of its job.
pub open spec fn finishes(outcome: Result<(), AppError>, action: WorkspaceAction) -> bool {
    action matches WorkspaceAction::Finish(result, event) && result == outcome && job::ends_with(
        outcome,
        event,
    )
}

/// One step of the provisioning of a workspace: how the run goes on after
/// `event`.
pub open spec fn workspace_step(
    before: WorkspaceProvision,
    event: WorkspaceEvent,
    after: WorkspaceProvision,
    action: WorkspaceAction,
) -> bool {
    &&& after.repos == before.repos
    &&& after.waited == (before.waited || event == WorkspaceEvent::Slot(false))
    &&& before.undoing() && after.undoing() ==> after.error == before.error
    &&& match (before.phase, event) {
        (WorkspacePhase::Acquiring, WorkspaceEvent::Slot(free)) => if free {
            after.phase is Checking && action is CheckLive
        } else {
            after.phase is Waiting && action is Wait
        },
        (WorkspacePhase::Waiting, WorkspaceEvent::Done) => after.phase is Checking
            && action is CheckLive,
        (WorkspacePhase::Checking, WorkspaceEvent::Live(live)) => if !live {
            after.phase is Over && (action matches WorkspaceAction::Finish(Err(e), _) && e.says(
                "workspace was deleted while it waited in the setup queue"@,
            ) && finishes(Err(e), action))
        } else if before.waited {
            after.phase is Resuming && action is MarkCreating
        } else {
            goes_on(before.created@, after, action)
        },
        (WorkspacePhase::Resuming, WorkspaceEvent::Done) => goes_on(before.created@, after, action),
        (WorkspacePhase::Provisioning, WorkspaceEvent::Provisioned(link)) => goes_on(
            before.created@.push(link),
            after,
            action,
        ),
        (
            WorkspacePhase::Provisioning | WorkspacePhase::Readying,
            WorkspaceEvent::Failed(e),
        ) => after.error == Some(e) && goes_back(before.created@, after, action),
        (WorkspacePhase::RollingBack, WorkspaceEvent::Done) => goes_back(
            before.created@,
            after,
            action,
        ),
        (WorkspacePhase::Removing, WorkspaceEvent::Done) => after.phase is Failing && (
        action matches WorkspaceAction::MarkFailed(m) && m@ == before.error->0.text()),
        (WorkspacePhase::Failing, WorkspaceEvent::Done) => after.phase is Over && finishes(
            Err(before.error->0),
            action,
        ),
        (WorkspacePhase::Readying, WorkspaceEvent::Done) => after.phase is Over && finishes(
            Ok(()),
            action,
        ),
        _ => false,
    }
}

impl WorkspaceProvision {
    /// Start a run over so many repos.
    pub fn start(repos: usize) -> (r: WorkspaceProvision)
        ensures
            r.wf(),
            r.repos == repos,
            r.phase is Acquiring,
            !r.waited,
    {
        WorkspaceProvision {
            repos,
            created: Vec::new(),
            waited: false,
            phase: WorkspacePhase::Acquiring,
            error: None,
        }
    }

    fn go_on(&mut self) -> (r: WorkspaceAction)
        requires
            old(self).created@.len() <= old(self).repos,
        ensures
            goes_on(old(self).created@, *final(self), r),
            final(self).repos == old(self).repos,
            final(self).waited == old(self).waited,
            final(self).error == old(self).error,
    {
        if self.created.len() < self.repos {
            self.phase = WorkspacePhase::Provisioning;
            WorkspaceAction::Provision(self.created.len())
        } else {
            self.phase = WorkspacePhase::Readying;
            WorkspaceAction::MarkReady
        }
    }

    fn go_back(&mut self) -> (r: WorkspaceAction)
        ensures
            goes_back(old(self).created@, *final(self), r),
            final(self).repos == old(self).repos,
            final(self).waited == old(self).waited,
            final(self).error == old(self).error,
    {
        match self.created.pop() {
            Some(link) => {
                self.phase = WorkspacePhase::RollingBack;
                WorkspaceAction::TearDown(link)
            },
            None => {
                self.phase = WorkspacePhase::Removing;
                WorkspaceAction::RemoveRoot
            },
        }
    }
}

fn finish(outcome: Result<(), AppError>) -> (r: WorkspaceAction)
    ensures
        finishes(outcome, r),
{
    let event = job::last_event(&outcome);
    WorkspaceAction::Finish(outcome, event)
}

/// Carry the provisioning of a workspace a step on. It waits its turn, makes
/// sure that the workspace is still wanted, provisions the repos one after the
/// other, and on a failure takes back every worktree that did land. Whatever it
/// comes to, its job ends with an event that says so.
pub fn provision_workspace(run: &mut WorkspaceProvision, event: WorkspaceEvent) -> (r:
    WorkspaceAction)
    requires
        old(run).wf(),
        workspace_fits(old(run).phase, event),
    ensures
        final(run).wf(),
        workspace_step(*old(run), event, *final(run), r),
{
    let phase = run.phase;
    match event {
        WorkspaceEvent::Slot(free) => {
            if free {
                run.phase = WorkspacePhase::Checking;
                WorkspaceAction::CheckLive
            } else {
                run.waited = true;
                run.phase = WorkspacePhase::Waiting;
                WorkspaceAction::Wait
            }
        },
        WorkspaceEvent::Live(live) => {
            if !live {
                run.phase = WorkspacePhase::Over;
                finish(
                    Err(
                        AppError::Other(
                            "workspace was deleted while it waited in the setup queue".to_owned(),
                        ),
                    ),
                )
            } else if run.waited {
                run.phase = WorkspacePhase::Resuming;
                WorkspaceAction::MarkCreating
            } else {
                run.go_on()
            }
        },
        WorkspaceEvent::Provisioned(link) => {
            run.created.push(link);
            run.go_on()
        },
        WorkspaceEvent::Failed(e) => {
            run.error = Some(e);
            run.go_back()
        },
        WorkspaceEvent::Done => {
            match phase {
                WorkspacePhase::Waiting => {
                    run.phase = WorkspacePhase::Checking;
                    WorkspaceAction::CheckLive
                },
                WorkspacePhase::Resuming => run.go_on(),
                WorkspacePhase::RollingBack => run.go_back(),
                WorkspacePhase::Removing => {
                    run.phase = WorkspacePhase::Failing;
                    let reason = match &run.error {
                        Some(e) => e.message(),
                        None => String::new(),
                    };
                    WorkspaceAction::MarkFailed(reason)
                },
                WorkspacePhase::Failing => {
                    run.phase = WorkspacePhase::Over;
                    let mut error: Option<AppError> = None;
                    std::mem::swap(&mut error, &mut run.error);
                    match error {
                        Some(e) => finish(Err(e)),
                        None => finish(Ok(())),
                    }
                },
                _ => {
                    run.phase = WorkspacePhase::Over;
                    finish(Ok(()))
                },
            }
        },
    }
}

/// What a run does once provisioning failed, as long as every step of it is
/// carried out.
pub open spec fn rollback(
    states: Seq<WorkspaceProvision>,
    actions: Seq<WorkspaceAction>,
    e: AppError,
) -> bool {
    &&& actions.len() > 0
    &&& states.len() == actions.len() + 1
    &&& states[0].wf()
    &&& states[0].phase is Provisioning || states[0].phase is Readying
    &&& workspace_step(states[0], WorkspaceEvent::Failed(e), states[1], actions[0])
    &&& forall|i: int|
        1 <= i < actions.len() ==> workspace_step(
            #[trigger] states[i],
            WorkspaceEvent::Done,
            states[i + 1],
            actions[i],
        )
}

proof fn lemma_rollback(
    states: Seq<WorkspaceProvision>,
    actions: Seq<WorkspaceAction>,
    e: AppError,
    i: int,
)
    requires
        rollback(states, actions, e),
        0 <= i < actions.len(),
        i <= states[0].created@.len(),
    ensures
        goes_back(states[0].created@.take(states[0].created@.len() - i), states[i + 1], actions[i]),
        states[i + 1].error == Some(e),
    decreases i,
{
    let all = states[0].created@;
    if i == 0 {
        assert(all.take(all.len() as int) =~= all);
    } else {
        lemma_rollback(states, actions, e, i - 1);
        assert(all.take(all.len() - (i - 1)).drop_last() =~= all.take(all.len() - i));
        assert(workspace_step(states[i], WorkspaceEvent::Done, states[i + 1], actions[i]));
    }
}

/// A failed run takes back exactly the worktrees that had landed, newest first,
/// then removes the directory, shows the row as failed with the reason, and ends
/// with that very failure, of which the last event of its job tells in the same words.
pub proof fn a_failed_run_takes_everything_back(
    states: Seq<WorkspaceProvision>,
    actions: Seq<WorkspaceAction>,
    e: AppError,
)
    requires
        rollback(states, actions, e),
        actions.len() == states[0].created@.len() + 3,
    ensures
        ({
            let all = states[0].created@;
            let n = all.len() as int;
            &&& forall|i: int|
                0 <= i < n ==> #[trigger] actions[i] == WorkspaceAction::TearDown(all[n - 1 - i])
            &&& actions[n] is RemoveRoot
            &&& actions[n + 1] matches WorkspaceAction::MarkFailed(m) && m@ == e.text()
            &&& finishes(Err(e), actions[n + 2])
        }),
{
    let all = states[0].created@;
    let n = all.len() as int;
    assert forall|i: int| 0 <= i < n implies #[trigger] actions[i] == WorkspaceAction::TearDown(
        all[n - 1 - i],
    ) by {
        lemma_rollback(states, actions, e, i);
    }
    lemma_rollback(states, actions, e, n);
    assert(workspace_step(states[n + 1], WorkspaceEvent::Done, states[n + 2], actions[n + 1]));
    assert(workspace_step(states[n + 2], WorkspaceEvent::Done, states[n + 3], actions[n + 2]));
}

/// Repos that are provisioned one after the other, each with its link.
pub open spec fn all_land(
    states: Seq<WorkspaceProvision>,
    actions: Seq<WorkspaceAction>,
    links: Seq<RepoLink>,
) -> bool {
    &&& states.len() == links.len() + 1
    &&& actions.len() == links.len()
    &&& states[0].phase is Provisioning
    &&& states[0].created@.len() == 0
    &&& states[0].repos == links.len()
    &&& forall|i: int|
        0 <= i < links.len() ==> workspace_step(
            #[trigger] states[i],
            WorkspaceEvent::Provisioned(links[i]),
            states[i + 1],
            actions[i],
        )
}

proof fn lemma_all_land(
    states: Seq<WorkspaceProvision>,
    actions: Seq<WorkspaceAction>,
    links: Seq<RepoLink>,
    i: int,
)
    requires
        all_land(states, actions, links),
        0 <= i <= links.len(),
    ensures
        states[i].repos == links.len(),
        states[i].created@ == links.take(i),
        i < links.len() ==> states[i].phase is Provisioning,
        0 < i == links.len() ==> states[i].phase is Readying && actions[i - 1] is MarkReady,
    decreases i,
{
    if i == 0 {
        assert(states[0].created@ =~= links.take(0));
    } else {
        lemma_all_land(states, actions, links, i - 1);
        assert(workspace_step(
            states[i - 1],
            WorkspaceEvent::Provisioned(links[i - 1]),
            states[i],
            actions[i - 1],
        ));
        assert(links.take(i - 1).push(links[i - 1]) =~= links.take(i));
    }
}

/// A run in which every repo is provisioned has one link for each, in their order, to
/// be stored, and once they are the job ends with success.
pub proof fn a_run_that_goes_well_links_every_repo(
    states: Seq<WorkspaceProvision>,
    actions: Seq<WorkspaceAction>,
    links: Seq<RepoLink>,
    stored: WorkspaceProvision,
    after: WorkspaceProvision,
    action: WorkspaceAction,
)
    requires
        all_land(states, actions, links),
        links.len() > 0,
        stored.phase == states.last().phase,
        workspace_step(stored, WorkspaceEvent::Done, after, action),
    ensures
        actions.last() is MarkReady,
        states.last().created@ == links,
        after.phase is Over,
        finishes(Ok(()), action),
{
    lemma_all_land(states, actions, links, links.len() as int);
    assert(links.take(links.len() as int) =~= links);
}

/// A workspace that was deleted while it waited is never built: nothing is
/// provisioned and nothing is torn down, and the job ends as failed, in the words of
/// its error.
pub proof fn a_workspace_deleted_while_queued_is_never_built(
    before: WorkspaceProvision,
    after: WorkspaceProvision,
    action: WorkspaceAction,
)
    requires
        before.phase is Checking,
        workspace_step(before, WorkspaceEvent::Live(false), after, action),
    ensures
        after.phase is Over,
        action matches WorkspaceAction::Finish(Err(e), event) && job::ends_with(Err(e), event),
{
}

/// Store what a run made: its workspace gets the links, in the order of its repos, and
/// is ready.
pub fn store_links(run: &mut WorkspaceProvision, ws: &mut Workspace)
    requires
        old(run).wf(),
        old(run).phase is Readying,
    ensures
        final(run).wf(),
        *final(run) == (WorkspaceProvision { created: final(run).created, ..*old(run) }),
        final(run).created@.len() == 0,
        *final(ws) == (Workspace {
            repo_links: final(ws).repo_links,
            status: WorkspaceStatus::Ready,
            ..*old(ws)
        }),
        final(ws).repo_links@ == old(run).created@,
{
    let mut links: Vec<RepoLink> = Vec::new();
    std::mem::swap(&mut links, &mut run.created);
    ws.repo_links = links;
    ws.status = WorkspaceStatus::Ready;
}

/// The directory of a workspace that failed, where it is to be removed: it must be
/// there, and in the place where worktrees are made.
pub fn partial_root(
    reg: &RepoRegistry,
    workspace_dir: &str,
    present: bool,
    under_worktree_root: bool,
) -> (r: Option<String>)
    ensures
        text::maybe(r) == if present && under_worktree_root {
            Some(paths::join(reg.worktree_root@, workspace_dir@))
        } else {
            None
        },
{
    if present && under_worktree_root {
        Some(paths::joined(&reg.worktree_root, workspace_dir))
    } else {
        None
    }
}

/// What is said of a file that was copied from the clone.
pub fn copied_notice(rel: &str) -> (r: String)
    ensures
        r@ == "copied "@ + rel@ + " from clone"@,
{
    text::cat3("copied ", rel, " from clone")
}

/// What is said before a repository that failed is undone.
pub fn rollback_notice(message: &str) -> (r: String)
    ensures
        r@ == "rolling back: "@ + message@,
{
    text::cat("rolling back: ", message)
}

/// What is said before a workspace that failed is undone.
pub fn teardown_notice(message: &str) -> (r: String)
    ensures
        r@ == "tearing down partial workspace: "@ + message@,
{
    text::cat("tearing down partial workspace: ", message)
}

/// What became of the notes for agents at the root of a workspace.
pub enum RootDoc {
    Written(String),
    Unchanged,
    Failed(String),
}

/// What is said of the files at the root of a workspace: the settings, which may
/// have failed, and the notes. A workspace can be used without either.
pub fn seed_workspace_root(
    settings_failure: Option<&str>,
    doc: &RootDoc,
    name: &AgentName,
) -> (r: Vec<String>)
    ensures
        text::views(r@) == (match settings_failure {
            Some(e) => seq!["workspace-root settings seed failed: "@ + e@],
            None => seq![],
        }) + (match *doc {
            RootDoc::Written(path) => seq!["wrote "@ + path@],
            RootDoc::Unchanged => seq![],
            RootDoc::Failed(e) => seq!["workspace "@ + name.notes() + " write failed: "@ + e@],
        }),
{
    let mut out: Vec<String> = Vec::new();
    if let Some(e) = settings_failure {
        out.push(text::cat("workspace-root settings seed failed: ", e));
    }
    let ghost first: Seq<Seq<char>> = match settings_failure {
        Some(e) => seq!["workspace-root settings seed failed: "@ + e@],
        None => seq![],
    };
    assert(text::views(out@) =~= first);
    match doc {
        RootDoc::Written(path) => {
            let s = text::cat("wrote ", path);
            out.push(s);
            assert(text::views(out@) =~= first + seq![s@]);
        },
        RootDoc::Unchanged => {
            assert(text::views(out@) =~= first + seq![]);
        },
        RootDoc::Failed(e) => {
            let mut s = text::cat3("workspace ", &name.notes_file(), " write failed: ");
            s.append(e);
            out.push(s);
            assert(text::views(out@) =~= first + seq![s@]);
        },
    }
    out
}

/// A run asks for its slot first, and looks whether its workspace is still there before
/// it builds anything; where it has to wait, it looks after that, and then shows the
/// workspace as being made again. Then it provisions the repos one after the other, from
/// the first.
pub proof fn a_run_waits_for_its_slot(
    s: Seq<WorkspaceProvision>,
    a: Seq<WorkspaceAction>,
)
    requires
        s.len() == 5 && a.len() == 4,
        s[0].phase is Acquiring && !s[0].waited && s[0].created@.len() == 0 && s[0].repos > 0,
        workspace_step(s[0], WorkspaceEvent::Slot(false), s[1], a[0]),
        s[1].created@.len() == 0,
        workspace_step(s[1], WorkspaceEvent::Done, s[2], a[1]),
        s[2].created@.len() == 0,
        workspace_step(s[2], WorkspaceEvent::Live(true), s[3], a[2]),
        s[3].created@.len() == 0,
        workspace_step(s[3], WorkspaceEvent::Done, s[4], a[3]),
    ensures
        a[0] is Wait,
        a[1] is CheckLive,
        a[2] is MarkCreating,
        a[3] == WorkspaceAction::Provision(0),
{
}

/// A run that finds its slot free goes on at once: it looks whether the workspace is
/// there, and provisions the first repo.
pub proof fn a_free_slot_is_taken_at_once(
    before: WorkspaceProvision,
    checking: WorkspaceProvision,
    after: WorkspaceProvision,
    first: WorkspaceAction,
    second: WorkspaceAction,
)
    requires
        before.phase is Acquiring && !before.waited && before.repos > 0,
        workspace_step(before, WorkspaceEvent::Slot(true), checking, first),
        checking.created@.len() == 0,
        workspace_step(checking, WorkspaceEvent::Live(true), after, second),
    ensures
        first is CheckLive,
        second == WorkspaceAction::Provision(0),
        after.phase is Provisioning,
{
}

/// Behind each repo that landed comes the next one, and behind the last one the
/// workspace is ready.
pub proof fn repos_are_provisioned_in_turn(
    states: Seq<WorkspaceProvision>,
    actions: Seq<WorkspaceAction>,
    links: Seq<RepoLink>,
    i: int,
)
    requires
        all_land(states, actions, links),
        0 <= i < links.len(),
    ensures
        i + 1 < links.len() ==> actions[i] == WorkspaceAction::Provision((i + 1) as usize),
        i + 1 == links.len() ==> actions[i] is MarkReady,
{
    lemma_all_land(states, actions, links, i);
    lemma_all_land(states, actions, links, i + 1);
    assert(workspace_step(
        states[i],
        WorkspaceEvent::Provisioned(links[i]),
        states[i + 1],
        actions[i],
    ));
    assert(links.take(i).push(links[i]) =~= links.take(i + 1));
}

/// A file is copied only from below the clone and to below the worktree: a path that
/// starts with a slash is refused, and so is one with a step up in it, wherever that
/// stands. A path of names is taken.
pub proof fn which_paths_stay_inside(a: Seq<char>, b: Seq<char>)
    ensures
        !stays_inside(seq!['/'] + b),
        !stays_inside(seq!['.', '.']),
        !stays_inside(seq!['.', '.', '/'] + b),
        !stays_inside(a + seq!['/', '.', '.']),
        !stays_inside(a + seq!['/', '.', '.', '/'] + b),
        !a.contains('/') && a != seq!['.', '.'] ==> stays_inside(a),
        stays_inside(a) && a.len() > 0 && !b.contains('/') && b != seq!['.', '.'] ==> stays_inside(
            a + seq!['/'] + b,
        ),
{
    reveal_strlit("..");
    let up = seq!['.', '.'];
    let slash = seq!['/'];
    assert(".."@ =~= up);
    assert((slash + b)[0] == '/');
    lemma_one_piece(up);
    lemma_pieces(up, b);
    assert(up + slash + b =~= seq!['.', '.', '/'] + b);
    lemma_pieces(a, up);
    assert(a + slash + up =~= a + seq!['/', '.', '.']);
    lemma_pieces(a + slash + up, b);
    assert(a + slash + up + slash + b =~= a + seq!['/', '.', '.', '/'] + b);
    if !a.contains('/') {
        lemma_one_piece(a);
        if a.len() > 0 {
            assert(a.contains(a[0]));
        }
    }
    if !b.contains('/') {
        lemma_one_piece(b);
        lemma_pieces(a, b);
        if a.len() > 0 {
            assert((a + slash + b)[0] == a[0]);
        }
    }
}

proof fn lemma_one_piece(p: Seq<char>)
    requires
        !p.contains('/'),
    ensures
        text::split(p, '/').contains(".."@) <==> p == ".."@,
{
    assert(text::join(seq![p], seq!['/']) == p);
    text::joined_parts_come_apart(seq![p], '/');
    assert(seq![p][0] == p);
}

proof fn lemma_pieces(a: Seq<char>, b: Seq<char>)
    ensures
        text::split(a + seq!['/'] + b, '/').contains(".."@) <==> text::split(a, '/').contains(".."@)
            || text::split(b, '/').contains(".."@),
{
    paths::lemma_split_behind(a, b);
    let x = text::split(a, '/');
    let y = text::split(b, '/');
    let up = ".."@;
    if x.contains(up) {
        let i = choose|i: int| 0 <= i < x.len() && x[i] == up;
        assert((x + y)[i] == up);
    }
    if y.contains(up) {
        let i = choose|i: int| 0 <= i < y.len() && y[i] == up;
        assert((x + y)[x.len() + i] == up);
    }
    if (x + y).contains(up) {
        let i = choose|i: int| 0 <= i < (x + y).len() && (x + y)[i] == up;
        if i < x.len() {
            assert(x[i] == up);
        } else {
            assert(y[i - x.len()] == up);
        }
    }
}

/// The files before the first that leads outside are copied, and none from it on.
pub proof fn files_are_copied_up_to_the_first_bad_one(copy_files: Seq<String>)
    ensures
        0 <= good_prefix(copy_files) <= copy_files.len(),
        forall|i: int|
            0 <= i < good_prefix(copy_files) ==> stays_inside((#[trigger] copy_files[i])@),
        good_prefix(copy_files) < copy_files.len() ==> !stays_inside(
            copy_files[good_prefix(copy_files)]@,
        ),
    decreases copy_files.len(),
{
    if copy_files.len() > 0 && stays_inside(copy_files[0]@) {
        let rest = copy_files.drop_first();
        files_are_copied_up_to_the_first_bad_one(rest);
        assert forall|i: int| 0 <= i < good_prefix(copy_files) implies stays_inside(
            (#[trigger] copy_files[i])@,
        ) by {
            if i > 0 {
                assert(rest[i - 1] == copy_files[i]);
            }
        }
    }
}

/// A link that a run ends in tracks nothing yet: no pull request, attached or its own,
/// none that was dismissed, and no docs.
pub proof fn a_new_link_tracks_nothing(run: RepoProvision, link: RepoLink, at: Option<i64>)
    requires
        run.is_link(link, at),
    ensures
        link.prs@.len() == 0 && link.dismissed@.len() == 0 && link.attached_prs@.len() == 0,
        link.github is None && link.docs is None,
        link.repo_key == run.repo_key && link.worktree_path == run.worktree_path,
        link.created_branch == run.created_branch && link.setup_script_ran_at == at,
{
}

/// A job that went well ends as done, and one that failed in the words of its error.
pub proof fn a_job_ends_as_it_came_out(action: WorkspaceAction, e: AppError)
    ensures
        finishes(Ok(()), action) ==> (action matches WorkspaceAction::Finish(r, event) && r is Ok
            && event is Success),
        finishes(Err(e), action) ==> (action matches WorkspaceAction::Finish(r, event) && r
            == Err::<(), AppError>(e) && (event matches job::JobEvent::Failed { error } && error@
            == e.text())),
{
}

} // verus!
