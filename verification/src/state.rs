//! What the application remembers: the workspaces, the worktrees and sessions in
//! them, and the errors nobody was there to see.
//!
//! Points in time are milliseconds since the epoch. Paths are text.

use vstd::prelude::*;

use crate::artifacts::Artifact;
use crate::github::status::GithubPrStatus;
use crate::list;
use crate::paths;
use crate::text;

verus! {

pub type WorkspaceId = String;

pub type SessionId = String;

pub type ScriptRunId = String;

/// Whose turn it is in a session.
#[derive(Debug, Clone, Copy, PartialEq, Eq, Structural)]
pub enum SessionRuntimeState {
    Working,
    WaitingInput,
    Idle,
    /// The process is gone.
    Dormant,
}

/// What a session runs.
#[derive(Debug, Clone, Copy, PartialEq, Eq, Structural)]
pub enum SessionKind {
    Claude,
    FrontendBuild,
    BackendBuild,
}

#[derive(Debug)]
pub enum WorkspaceStatus {
    /// Waiting for its turn to be provisioned.
    Queued,
    Creating,
    Ready,
    CreationFailed { error: String },
}

/// Who asked for a workspace.
#[derive(Debug)]
pub enum Origin {
    Ui,
    Handoff { from_workspace: WorkspaceId, from_session: Option<SessionId> },
}

/// A pull request that a worktree's row shows. The number is its identity.
#[derive(Debug)]
pub struct TrackedPr {
    pub number: u32,
    pub status: Option<GithubPrStatus>,
}

/// A pull request the user attached beside the branch's own.
#[derive(Debug)]
pub struct AttachedPr {
    pub number: u32,
    pub attached_at: i64,
    pub status: Option<GithubPrStatus>,
}

/// A workspace's own checkout of a repo's managed docs.
#[derive(Debug)]
pub struct DocsLink {
    pub branch: String,
    pub checkout_path: String,
    /// The managed paths that are symlinked into the worktree.
    pub linked_paths: Vec<String>,
}

/// One repo's worktree inside a workspace.
#[derive(Debug)]
pub struct RepoLink {
    pub repo_key: String,
    pub worktree_path: String,
    pub setup_script_ran_at: Option<i64>,
    pub prs: Vec<TrackedPr>,
    /// Numbers the user does not want to see again.
    pub dismissed: Vec<u32>,
    /// The pull request of the workspace's own branch, as last polled.
    pub github: Option<GithubPrStatus>,
    pub attached_prs: Vec<AttachedPr>,
    /// Whether the branch was made for this workspace. One that was there before
    /// is never deleted.
    pub created_branch: bool,
    pub docs: Option<DocsLink>,
}

/// What makes a session resumable across restarts.
#[derive(Debug)]
pub struct ClaudeSessionMeta {
    pub id: SessionId,
    pub kind: SessionKind,
    /// `None` for a session at the workspace root.
    pub repo_key: Option<String>,
    pub cwd: String,
    /// The agent's own id for the conversation. It changes under compaction.
    pub claude_session_id: Option<String>,
    pub transcript_path: Option<String>,
    pub claude_binary: Option<String>,
    pub hidden: bool,
    pub runtime_state: Option<SessionRuntimeState>,
    pub notification_type: Option<String>,
    pub turn_acknowledged: bool,
}

#[derive(Debug)]
pub struct ScriptRunMeta {
    pub id: ScriptRunId,
    pub repo_key: String,
    pub script_name: String,
    pub command: String,
    pub cwd: String,
    pub started_at: i64,
}

#[derive(Debug)]
pub struct DevServersMeta {
    pub fe_port: u16,
    pub be_port: Option<u16>,
    pub fe_session_id: Option<SessionId>,
    pub be_session_id: Option<SessionId>,
    pub fe_proxy_target: String,
    pub started_at: i64,
}

#[derive(Debug)]
pub struct SystemErrorEntry {
    pub id: String,
    pub at: i64,
    pub kind: String,
    pub message: String,
    pub workspace_id: Option<WorkspaceId>,
    pub workspace_branch: Option<String>,
}

#[derive(Debug)]
pub struct Workspace {
    pub id: WorkspaceId,
    pub branch: String,
    pub created_at: i64,
    pub repo_links: Vec<RepoLink>,
    pub sessions: Vec<ClaudeSessionMeta>,
    /// The binary its sessions run under, where it is not the usual one.
    pub claude_binary: Option<String>,
    pub deleted_at: Option<i64>,
    pub archived_at: Option<i64>,
    pub status: WorkspaceStatus,
    pub script_runs: Vec<ScriptRunMeta>,
    pub notes: String,
    pub origin: Origin,
    pub folder: Option<String>,
    /// The workspace that this one waits on.
    pub blocked_by: Option<WorkspaceId>,
    pub artifacts: Vec<Artifact>,
    pub dev_servers: Option<DevServersMeta>,
}

#[derive(Debug)]
pub struct AppState {
    pub workspaces: Vec<Workspace>,
    pub system_errors: Vec<SystemErrorEntry>,
}

/// The tracked pull requests once `number` has been seen with `status`.
pub open spec fn with_status(prs: Seq<TrackedPr>, number: u32, status: GithubPrStatus) -> Seq<
    TrackedPr,
> {
    let pr = TrackedPr { number, status: Some(status) };
    match list::first_where(prs, |p: TrackedPr| p.number == number) {
        Some(i) => prs.update(i, pr),
        None => prs.push(pr),
    }
}

/// Of two statuses that were seen in turn, the second one is kept.
pub(crate) proof fn lemma_with_status_twice(
    prs: Seq<TrackedPr>,
    number: u32,
    first: GithubPrStatus,
    second: GithubPrStatus,
)
    ensures
        with_status(with_status(prs, number, first), number, second) == with_status(
            prs,
            number,
            second,
        ),
        with_status(with_status(prs, number, first), number, second).len() == with_status(
            prs,
            number,
            first,
        ).len(),
{
    let is = |p: TrackedPr| p.number == number;
    let once = with_status(prs, number, first);
    list::lemma_first_where(prs, is);
    match list::first_where(prs, is) {
        Some(i) => {
            list::lemma_first_where_is(once, is, i);
        },
        None => {
            list::lemma_first_where_is(once, is, prs.len() as int);
        },
    }
    assert(with_status(once, number, second) =~= with_status(prs, number, second));
}

/// Whether no pull request is tracked twice.
pub open spec fn numbers_distinct(prs: Seq<TrackedPr>) -> bool {
    forall|i: int, j: int| 0 <= i < j < prs.len() ==> prs[i].number != prs[j].number
}

/// Recording a pull request never makes a second entry for it.
pub proof fn tracking_keeps_numbers_distinct(
    prs: Seq<TrackedPr>,
    number: u32,
    status: GithubPrStatus,
)
    requires
        numbers_distinct(prs),
    ensures
        numbers_distinct(with_status(prs, number, status)),
{
    list::lemma_first_where(prs, |p: TrackedPr| p.number == number);
}

impl RepoLink {
    /// Record what GitHub said of a pull request: a refresh where it is tracked
    /// already. Asking for it outranks having dismissed it.
    pub fn track(&mut self, number: u32, status: GithubPrStatus)
        ensures
            final(self).prs@ == with_status(old(self).prs@, number, status),
            final(self).dismissed@ == old(self).dismissed@.filter(|n: u32| n != number),
            *final(self) == (RepoLink {
                prs: final(self).prs,
                dismissed: final(self).dismissed,
                ..*old(self)
            }),
    {
        let is = |p: &TrackedPr| -> (b: bool)
            ensures
                b == (p.number == number),
            { p.number == number };
        let at = list::position(&self.prs, is, Ghost(|p: TrackedPr| p.number == number));
        let pr = TrackedPr { number, status: Some(status) };
        match at {
            Some(i) => {
                self.prs.set(i, pr);
            },
            None => {
                self.prs.push(pr);
            },
        }
        let other = |n: &u32| -> (b: bool)
            ensures
                b == (*n != number),
            { *n != number };
        list::keep(&mut self.dismissed, other, Ghost(|n: u32| n != number));
    }

    /// Take up a pull request that a look at the branch found. One that is tracked
    /// already, or that the user does not want to see again, is passed over. Says
    /// whether it was taken up.
    pub fn discover(&mut self, number: u32) -> (r: bool)
        ensures
            r == !(old(self).dismissed@.contains(number) || exists|i: int|
                0 <= i < old(self).prs@.len() && (#[trigger] old(self).prs@[i]).number == number),
            *final(self) == (RepoLink { prs: final(self).prs, ..*old(self) }),
            final(self).prs@ == (if r {
                old(self).prs@.push(TrackedPr { number, status: None })
            } else {
                old(self).prs@
            }),
    {
        let is = |p: &TrackedPr| -> (b: bool)
            ensures
                b == (p.number == number),
            { p.number == number };
        let same = |n: &u32| -> (b: bool)
            ensures
                b == (*n == number),
            { *n == number };
        if list::position(&self.prs, is, Ghost(|p: TrackedPr| p.number == number)).is_some() {
            return false;
        }
        if list::position(&self.dismissed, same, Ghost(|n: u32| n == number)).is_some() {
            return false;
        }
        self.prs.push(TrackedPr { number, status: None });
        true
    }

    /// Stop tracking a pull request, and remember not to pick it up again.
    pub fn untrack(&mut self, number: u32)
        ensures
            final(self).prs@ == old(self).prs@.filter(|p: TrackedPr| p.number != number),
            final(self).dismissed@ == (if old(self).dismissed@.contains(number) {
                old(self).dismissed@
            } else {
                old(self).dismissed@.push(number)
            }),
            *final(self) == (RepoLink {
                prs: final(self).prs,
                dismissed: final(self).dismissed,
                ..*old(self)
            }),
    {
        let other = |p: &TrackedPr| -> (b: bool)
            ensures
                b == (p.number != number),
            { p.number != number };
        list::keep(&mut self.prs, other, Ghost(|p: TrackedPr| p.number != number));
        let is = |n: &u32| -> (b: bool)
            ensures
                b == (*n == number),
            { *n == number };
        if list::position(&self.dismissed, is, Ghost(|n: u32| n == number)).is_none() {
            self.dismissed.push(number);
        }
    }
}

/// Where the worktree of a repo stands among some links.
pub open spec fn link_in(links: Seq<RepoLink>, repo_key: Seq<char>) -> Option<int> {
    list::first_where(links, |l: RepoLink| l.repo_key@ == repo_key)
}

/// Where a session stands among some sessions.
pub open spec fn session_in(sessions: Seq<ClaudeSessionMeta>, id: Seq<char>) -> Option<int> {
    list::first_where(sessions, |m: ClaudeSessionMeta| m.id@ == id)
}

/// Being the workspace with this id.
pub open spec fn of_id(id: Seq<char>) -> spec_fn(Workspace) -> bool {
    |w: Workspace| w.id@ == id
}

/// Where a workspace stands among some workspaces.
pub open spec fn workspace_in(workspaces: Seq<Workspace>, id: Seq<char>) -> Option<int> {
    list::first_where(workspaces, of_id(id))
}

pub(crate) proof fn lemma_workspace_in(workspaces: Seq<Workspace>, id: Seq<char>)
    ensures
        match workspace_in(workspaces, id) {
            Some(i) => 0 <= i < workspaces.len() && workspaces[i].id@ == id,
            None => forall|k: int| 0 <= k < workspaces.len() ==> (#[trigger] workspaces[k]).id@ != id,
        },
{
    list::lemma_first_where(workspaces, of_id(id));
}

impl Workspace {
    /// Where the worktree of a repo stands among the links.
    pub open spec fn link_at(self, repo_key: Seq<char>) -> Option<int> {
        link_in(self.repo_links@, repo_key)
    }

    /// Where a session stands among the sessions.
    pub open spec fn session_at(self, id: Seq<char>) -> Option<int> {
        session_in(self.sessions@, id)
    }

    /// The directory that holds every worktree of the workspace.
    pub open spec fn root_path(self) -> Option<Seq<char>> {
        if self.repo_links@.len() == 0 {
            None
        } else {
            paths::parent_of(self.repo_links@[0].worktree_path@)
        }
    }

    /// A workspace that has been asked for and holds nothing yet.
    pub fn draft(
        id: WorkspaceId,
        branch: String,
        claude_binary: Option<String>,
        origin: Origin,
        folder: Option<String>,
        now: i64,
    ) -> (r: Workspace)
        ensures
            r.id == id,
            r.branch == branch,
            r.claude_binary == claude_binary,
            r.origin == origin,
            r.folder == folder,
            r.created_at == now,
            r.status is Creating,
            r.repo_links@.len() == 0,
            r.sessions@.len() == 0,
            r.script_runs@.len() == 0,
            r.artifacts@.len() == 0,
            r.notes@.len() == 0,
            r.deleted_at is None,
            r.archived_at is None,
            r.blocked_by is None,
            r.dev_servers is None,
    {
        Workspace {
            id,
            branch,
            created_at: now,
            repo_links: Vec::new(),
            sessions: Vec::new(),
            claude_binary,
            deleted_at: None,
            archived_at: None,
            status: WorkspaceStatus::Creating,
            script_runs: Vec::new(),
            notes: String::new(),
            origin,
            folder,
            blocked_by: None,
            artifacts: Vec::new(),
            dev_servers: None,
        }
    }

    /// Where the worktree of a repo stands among the links.
    pub fn link_index(&self, repo_key: &str) -> (r: Option<usize>)
        ensures
            match r {
                Some(i) => i < self.repo_links@.len() && self.link_at(repo_key@) == Some(i as int)
                    && self.repo_links@[i as int].repo_key@ == repo_key@,
                None => self.link_at(repo_key@) is None,
            },
    {
        let is = |l: &RepoLink| -> (b: bool)
            ensures
                b == (l.repo_key@ == repo_key@),
            { text::same(&l.repo_key, repo_key) };
        list::position(&self.repo_links, is, Ghost(|l: RepoLink| l.repo_key@ == repo_key@))
    }

    /// The worktree of a repo.
    pub fn link(&self, repo_key: &str) -> (r: Option<&RepoLink>)
        ensures
            match r {
                Some(l) => self.link_at(repo_key@) is Some && *l
                    == self.repo_links@[self.link_at(repo_key@)->0],
                None => self.link_at(repo_key@) is None,
            },
    {
        match self.link_index(repo_key) {
            Some(i) => Some(&self.repo_links[i]),
            None => None,
        }
    }

    /// Whether the workspace has a worktree of the repo.
    pub fn has_link(&self, repo_key: &str) -> (r: bool)
        ensures
            r == (self.link_at(repo_key@) is Some),
    {
        self.link_index(repo_key).is_some()
    }

    /// Where a session stands among the sessions.
    pub fn session_index(&self, id: &str) -> (r: Option<usize>)
        ensures
            match r {
                Some(i) => i < self.sessions@.len() && self.session_at(id@) == Some(i as int)
                    && self.sessions@[i as int].id@ == id@,
                None => self.session_at(id@) is None,
            },
    {
        let is = |m: &ClaudeSessionMeta| -> (b: bool)
            ensures
                b == (m.id@ == id@),
            { text::same(&m.id, id) };
        list::position(&self.sessions, is, Ghost(|m: ClaudeSessionMeta| m.id@ == id@))
    }

    /// The directory that holds every worktree of the workspace; there is none
    /// until the first worktree is there.
    pub fn root_buf(&self) -> (r: Option<String>)
        ensures
            match r {
                Some(p) => self.root_path() == Some(p@),
                None => self.root_path() is None,
            },
    {
        if self.repo_links.len() == 0 {
            None
        } else {
            paths::parent(&self.repo_links[0].worktree_path)
        }
    }

    /// The keys of the repos that the workspace spans.
    pub fn repo_keys(&self) -> (r: Vec<String>)
        ensures
            r@ == self.repo_links@.map_values(|l: RepoLink| l.repo_key),
    {
        let mut r: Vec<String> = Vec::new();
        let mut i: usize = 0;
        while i < self.repo_links.len()
            invariant
                i <= self.repo_links@.len(),
                r@ == self.repo_links@.take(i as int).map_values(|l: RepoLink| l.repo_key),
            decreases self.repo_links@.len() - i,
        {
            r.push(self.repo_links[i].repo_key.clone());
            i = i + 1;
            assert(self.repo_links@.take(i as int).map_values(|l: RepoLink| l.repo_key)
                =~= self.repo_links@.take(i - 1).map_values(|l: RepoLink| l.repo_key).push(
                self.repo_links@[i - 1].repo_key,
            ));
        }
        assert(self.repo_links@.take(i as int) =~= self.repo_links@);
        r
    }
}

impl AppState {
    /// Where a workspace stands among the workspaces.
    pub open spec fn workspace_at(self, id: Seq<char>) -> Option<int> {
        workspace_in(self.workspaces@, id)
    }

    /// Where a workspace stands among the workspaces.
    pub fn workspace_index(&self, id: &str) -> (r: Option<usize>)
        ensures
            match r {
                Some(i) => i < self.workspaces@.len() && self.workspace_at(id@) == Some(i as int)
                    && self.workspaces@[i as int].id@ == id@,
                None => self.workspace_at(id@) is None,
            },
    {
        let is = |w: &Workspace| -> (b: bool)
            ensures
                b == (w.id@ == id@),
            { text::same(&w.id, id) };
        list::position(&self.workspaces, is, Ghost(of_id(id@)))
    }
}

/// A repo's link in a workspace is the first that has its key.
pub proof fn a_link_is_found_by_its_repo(links: Seq<RepoLink>, repo_key: Seq<char>, i: int)
    requires
        0 <= i <= links.len(),
        forall|k: int| 0 <= k < i ==> (#[trigger] links[k]).repo_key@ != repo_key,
        i < links.len() ==> links[i].repo_key@ == repo_key,
    ensures
        link_in(links, repo_key) == (if i < links.len() {
            Some(i)
        } else {
            None
        }),
    decreases links.len(),
{
    if links.len() > 0 && i > 0 {
        assert(links[0].repo_key@ != repo_key);
        let rest = links.drop_first();
        assert forall|k: int| 0 <= k < i - 1 implies (#[trigger] rest[k]).repo_key@ != repo_key by {
            assert(rest[k] == links[k + 1]);
        }
        a_link_is_found_by_its_repo(rest, repo_key, i - 1);
    }
}

/// A session of a workspace is the first that has its id.
pub proof fn a_session_is_found_by_its_id(sessions: Seq<ClaudeSessionMeta>, id: Seq<char>, i: int)
    requires
        0 <= i <= sessions.len(),
        forall|k: int| 0 <= k < i ==> (#[trigger] sessions[k]).id@ != id,
        i < sessions.len() ==> sessions[i].id@ == id,
    ensures
        session_in(sessions, id) == (if i < sessions.len() {
            Some(i)
        } else {
            None
        }),
    decreases sessions.len(),
{
    if sessions.len() > 0 && i > 0 {
        assert(sessions[0].id@ != id);
        let rest = sessions.drop_first();
        assert forall|k: int| 0 <= k < i - 1 implies (#[trigger] rest[k]).id@ != id by {
            assert(rest[k] == sessions[k + 1]);
        }
        a_session_is_found_by_its_id(rest, id, i - 1);
    }
}

/// A workspace is the first that has its id.
pub proof fn a_workspace_is_found_by_its_id(workspaces: Seq<Workspace>, id: Seq<char>, i: int)
    requires
        0 <= i <= workspaces.len(),
        forall|k: int| 0 <= k < i ==> (#[trigger] workspaces[k]).id@ != id,
        i < workspaces.len() ==> workspaces[i].id@ == id,
    ensures
        workspace_in(workspaces, id) == (if i < workspaces.len() {
            Some(i)
        } else {
            None
        }),
{
    if i < workspaces.len() {
        list::lemma_first_where_is(workspaces, of_id(id), i);
    } else {
        list::lemma_first_where_none(workspaces, of_id(id));
    }
}

/// What is learnt of a pull request is kept under its number, where it is tracked
/// already in its place and otherwise behind the others; what is known of the others
/// stays.
pub proof fn a_status_is_kept_under_its_number(
    prs: Seq<TrackedPr>,
    number: u32,
    status: GithubPrStatus,
    i: int,
)
    requires
        0 <= i <= prs.len(),
        forall|k: int| 0 <= k < i ==> (#[trigger] prs[k]).number != number,
        i < prs.len() ==> prs[i].number == number,
    ensures
        with_status(prs, number, status)[i].number == number,
        with_status(prs, number, status)[i].status == Some(status),
        with_status(prs, number, status).len() == (if i < prs.len() {
            prs.len()
        } else {
            prs.len() + 1
        }),
        forall|k: int|
            0 <= k < prs.len() && k != i ==> #[trigger] with_status(prs, number, status)[k] == prs[k],
{
    lemma_pr_at(prs, number, i);
}

proof fn lemma_pr_at(prs: Seq<TrackedPr>, number: u32, i: int)
    requires
        0 <= i <= prs.len(),
        forall|k: int| 0 <= k < i ==> (#[trigger] prs[k]).number != number,
        i < prs.len() ==> prs[i].number == number,
    ensures
        list::first_where(prs, |p: TrackedPr| p.number == number) == (if i < prs.len() {
            Some(i)
        } else {
            None
        }),
    decreases prs.len(),
{
    if prs.len() > 0 && i > 0 {
        assert(prs[0].number != number);
        let rest = prs.drop_first();
        assert forall|k: int| 0 <= k < i - 1 implies (#[trigger] rest[k]).number != number by {
            assert(rest[k] == prs[k + 1]);
        }
        lemma_pr_at(rest, number, i - 1);
    }
}

/// The root of a workspace is the directory that its first worktree lies in, and one
/// without repos has none.
pub proof fn the_root_holds_the_first_worktree(ws: Workspace, dir: Seq<char>, name: Seq<char>)
    requires
        dir.len() > 0,
        dir.last() != '/',
        !(dir.len() >= 2 && dir.last() == '.' && dir[dir.len() - 2] == '/'),
        name.len() > 0 && !name.contains('/') && name != seq!['.'] && name != seq!['.', '.'],
    ensures
        ws.repo_links@.len() == 0 ==> ws.root_path() is None,
        ws.repo_links@.len() > 0 && ws.repo_links@[0].worktree_path@ == paths::join(dir, name)
            ==> ws.root_path() == Some(dir),
{
    paths::a_joined_path_comes_apart(dir, name);
}

} // verus!
