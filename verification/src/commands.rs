//! What the user asks for: the checks of each request, and what it changes.

use vstd::prelude::*;

use crate::agent::AgentName;
use crate::error::AppError;
use crate::github::status::GithubPrStatus;
use crate::list;
use crate::paths;
use crate::registry;
use crate::registry::RepoRegistry;
use crate::state;
use crate::state::{
    AppState, AttachedPr, ClaudeSessionMeta, Origin, RepoLink, ScriptRunMeta, SystemErrorEntry,
    Workspace, WorkspaceId,
};
use crate::text;

verus! {

#[derive(Debug)]
pub struct AttachPrArgs {
    pub workspace_id: WorkspaceId,
    /// `None` where the reference, or the workspace's only repo on GitHub, says it.
    pub repo_key: Option<String>,
    pub reference: String,
}

#[derive(Debug)]
pub struct DetachPrArgs {
    pub workspace_id: WorkspaceId,
    pub repo_key: String,
    pub pr_number: u32,
}

#[derive(Debug)]
pub struct CreateWorkspaceArgs {
    /// The id that the workspace is to have.
    pub workspace_id: WorkspaceId,
    pub branch: String,
    pub repo_selections: Vec<String>,
    /// The binary that its sessions run under, where it is not the usual one.
    pub claude_binary: Option<String>,
}

#[derive(Debug)]
pub struct AddRepoArgs {
    pub workspace_id: WorkspaceId,
    pub repo_key: String,
}

#[derive(Debug)]
pub struct ApplyPendingArgs {
    pub id: String,
    pub target_repo_keys: Vec<String>,
}

#[derive(Debug)]
pub struct StartClaudeArgs {
    pub workspace_id: WorkspaceId,
    /// `None` for a session at the workspace root.
    pub repo_key: Option<String>,
}

#[derive(Debug)]
pub struct ResumeClaudeArgs {
    pub workspace_id: WorkspaceId,
    pub repo_key: Option<String>,
    /// The session to take up again.
    pub session_meta_id: String,
}

#[derive(Debug)]
pub struct SwitchClaudeBinaryArgs {
    pub workspace_id: WorkspaceId,
    pub session_meta_id: String,
    /// The binary to go on under.
    pub claude_binary: String,
}

#[derive(Debug)]
pub struct SetClaudeHiddenArgs {
    pub workspace_id: WorkspaceId,
    pub session_id: String,
    pub hidden: bool,
}

#[derive(Debug)]
pub struct SetWorkspaceNotesArgs {
    pub workspace_id: WorkspaceId,
    pub notes: String,
}

/// The binary that sessions usually run under.
#[derive(Debug)]
pub struct ClaudeBin(pub String);

#[derive(Debug)]
pub struct StartScriptArgs {
    pub workspace_id: WorkspaceId,
    pub repo_key: String,
    pub script_name: String,
}

#[derive(Debug)]
pub struct DismissScriptArgs {
    pub workspace_id: WorkspaceId,
    pub script_id: String,
}

/// What is said when a workspace lacks a repo.
pub open spec fn no_worktree(repo_key: Seq<char>) -> Seq<char> {
    "workspace has no worktree for "@ + repo_key
}

/// Why a pull request cannot be attached to a link.
pub open spec fn attach_fault(link: RepoLink, number: u32) -> Option<Seq<char>> {
    if link.github matches Some(g) && g.pr_number == number {
        Some(
            "PR #"@ + text::dec(number as nat)
                + " is already tracked as this workspace's branch PR"@,
        )
    } else if exists|i: int|
        0 <= i < link.attached_prs@.len() && (#[trigger] link.attached_prs@[i]).number == number {
        Some("PR #"@ + text::dec(number as nat) + " is already attached to "@ + link.repo_key@)
    } else {
        None
    }
}

/// Attach a pull request beside the one of the workspace's branch. One that the
/// link has already is refused.
pub fn attach_pr(
    ws: &mut Workspace,
    repo_key: &str,
    number: u32,
    status: GithubPrStatus,
    now: i64,
) -> (r: Result<(), AppError>)
    ensures
        *final(ws) == (Workspace { repo_links: final(ws).repo_links, ..*old(ws) }),
        match old(ws).link_at(repo_key@) {
            None => final(ws).repo_links@ == old(ws).repo_links@ && (r matches Err(e) && e.says(
                no_worktree(repo_key@),
            )),
            Some(i) => match attach_fault(old(ws).repo_links@[i], number) {
                Some(why) => final(ws).repo_links@ == old(ws).repo_links@ && (r matches Err(e)
                    && e.says(why)),
                None => {
                    let link = final(ws).repo_links@[i];
                    &&& r is Ok
                    &&& final(ws).repo_links@ == old(ws).repo_links@.update(i, link)
                    &&& link == (RepoLink {
                        attached_prs: link.attached_prs,
                        ..old(ws).repo_links@[i]
                    })
                    &&& link.attached_prs@ == old(ws).repo_links@[i].attached_prs@.push(
                        (AttachedPr { number, attached_at: now, status: Some(status) }),
                    )
                },
            },
        },
{
    let at: usize = match ws.link_index(repo_key) {
        Some(i) => i,
        None => {
            return Err(AppError::Other(text::cat("workspace has no worktree for ", repo_key)));
        },
    };
    let link = &ws.repo_links[at];
    let n = text::decimal(number as u64);
    if let Some(g) = &link.github {
        if g.pr_number == number {
            return Err(
                AppError::Other(
                    text::cat3("PR #", &n, " is already tracked as this workspace's branch PR"),
                ),
            );
        }
    }
    let is = |a: &AttachedPr| -> (b: bool)
        ensures
            b == (a.number == number),
        { a.number == number };
    let there: Option<usize> = list::position(
        &link.attached_prs,
        is,
        Ghost(|a: AttachedPr| a.number == number),
    );
    if there.is_some() {
        let mut m = text::cat3("PR #", &n, " is already attached to ");
        m.append(repo_key);
        return Err(AppError::Other(m));
    }
    assert(attach_fault(*link, number) is None);
    let link = &mut ws.repo_links[at];
    link.attached_prs.push(AttachedPr { number, attached_at: now, status: Some(status) });
    Ok(())
}

/// Stop showing a pull request that was attached.
pub fn detach_pr(ws: &mut Workspace, args: &DetachPrArgs) -> (r: Result<(), AppError>)
    ensures
        *final(ws) == (Workspace { repo_links: final(ws).repo_links, ..*old(ws) }),
        match old(ws).link_at(args.repo_key@) {
            None => final(ws).repo_links@ == old(ws).repo_links@ && (r matches Err(e) && e.says(
                no_worktree(args.repo_key@),
            )),
            Some(i) => {
                let link = final(ws).repo_links@[i];
                &&& r is Ok
                &&& final(ws).repo_links@ == old(ws).repo_links@.update(i, link)
                &&& link == (RepoLink {
                    attached_prs: link.attached_prs,
                    ..old(ws).repo_links@[i]
                })
                &&& link.attached_prs@ == old(ws).repo_links@[i].attached_prs@.filter(
                    |a: AttachedPr| a.number != args.pr_number,
                )
            },
        },
{
    match ws.link_index(&args.repo_key) {
        Some(i) => {
            let number: u32 = args.pr_number;
            let other = |a: &AttachedPr| -> (b: bool)
                ensures
                    b == (a.number != number),
                { a.number != number };
            let link = &mut ws.repo_links[i];
            list::keep(
                &mut link.attached_prs,
                other,
                Ghost(|a: AttachedPr| a.number != number),
            );
            Ok(())
        },
        None => Err(AppError::Other(text::cat("workspace has no worktree for ", &args.repo_key))),
    }
}

/// The editor that files and worktrees are opened in.
pub const EDITOR_APP: &'static str = "Visual Studio Code";

/// The editor's command line tool inside its application.
pub const VSCODE_CLI_BUNDLED: &'static str =
    "/Applications/Visual Studio Code.app/Contents/Resources/app/bin/code";

/// The editor's command line tool: the one inside the application where it is
/// there, since the search path may not have the other.
pub fn vscode_cli(bundled: bool) -> (r: &'static str)
    ensures
        r@ == (if bundled {
            VSCODE_CLI_BUNDLED@
        } else {
            "code"@
        }),
{
    if bundled {
        VSCODE_CLI_BUNDLED
    } else {
        "code"
    }
}

/// What is said when the editor could not be started.
pub fn editor_unspawned(path: &str, error: &str) -> (r: AppError)
    ensures
        r.says("failed to open "@ + path@ + " in "@ + EDITOR_APP@ + ": "@ + error@),
{
    let mut m = text::cat3("failed to open ", path, " in ");
    m.append(EDITOR_APP);
    m.append(": ");
    m.append(error);
    AppError::Other(m)
}

/// What is said when the editor did not open a directory.
pub fn editor_exited(path: &str, status: &str) -> (r: AppError)
    ensures
        r.says(EDITOR_APP@ + " exited "@ + status@ + " opening "@ + path@),
{
    let mut m = text::cat3(EDITOR_APP, " exited ", status);
    m.append(" opening ");
    m.append(path);
    AppError::Other(m)
}

/// The directory of a workspace that is to be opened. A workspace that has no
/// worktree yet is not the same as no workspace.
pub fn open_in_vscode(state: &AppState, id: &str) -> (r: Result<String, AppError>)
    ensures
        match state.workspace_at(id@) {
            None => r matches Err(e) && e.lacks_workspace(id@),
            Some(i) => match state.workspaces@[i].root_path() {
                Some(p) => r matches Ok(root) && root@ == p,
                None => r matches Err(e) && e.says("workspace has no repos yet — nothing to open"@),
            },
        },
{
    match state.workspace_index(id) {
        Some(i) => match state.workspaces[i].root_buf() {
            Some(p) => Ok(p),
            None => Err(
                AppError::Other("workspace has no repos yet — nothing to open".to_owned()),
            ),
        },
        None => Err(AppError::WorkspaceNotFound(id.to_owned())),
    }
}

/// A workspace that was asked for, without the white space around its texts.
#[derive(Debug)]
pub struct CreateRequest {
    pub id: WorkspaceId,
    pub branch: String,
    pub claude_binary: Option<String>,
}

/// Check what a workspace is asked for with.
pub fn check_create(args: &CreateWorkspaceArgs) -> (r: Result<CreateRequest, AppError>)
    ensures
        if text::trim(args.workspace_id@).len() == 0 {
            r matches Err(e) && e.says("workspace_id is required"@)
        } else if text::trim(args.branch@).len() == 0 {
            r matches Err(e) && e.says("branch is required"@)
        } else if args.repo_selections@.len() == 0 {
            r matches Err(e) && e.says("pick at least one repo to include in the workspace"@)
        } else {
            r matches Ok(c) && c.id@ == text::trim(args.workspace_id@) && c.branch@ == text::trim(
                args.branch@,
            ) && text::maybe(c.claude_binary) == (match args.claude_binary {
                Some(b) => if text::trim(b@).len() == 0 {
                    None
                } else {
                    Some(text::trim(b@))
                },
                None => None,
            })
        },
{
    let id = text::trimmed(&args.workspace_id);
    if id.as_str().is_empty() {
        return Err(AppError::Other("workspace_id is required".to_owned()));
    }
    let branch = text::trimmed(&args.branch);
    if branch.as_str().is_empty() {
        return Err(AppError::Other("branch is required".to_owned()));
    }
    if args.repo_selections.len() == 0 {
        return Err(
            AppError::Other("pick at least one repo to include in the workspace".to_owned()),
        );
    }
    let claude_binary = match &args.claude_binary {
        Some(b) => {
            let t = text::trimmed(b);
            if t.as_str().is_empty() {
                None
            } else {
                Some(t)
            }
        },
        None => None,
    };
    Ok(CreateRequest { id, branch, claude_binary })
}

/// What a workspace is built from.
#[derive(Debug)]
pub struct CreatePlan {
    pub workspace_dir: String,
    /// Where the repos stand in the registry.
    pub repos: Vec<usize>,
}

/// Why a workspace that was asked for cannot be had.
pub open spec fn create_fault(
    state: AppState,
    reg: RepoRegistry,
    req: CreateRequest,
    keys: Seq<String>,
    root_exists: bool,
) -> Option<Seq<char>> {
    match reg.first_unknown(keys) {
        Some(k) => Some("unknown repo key: "@ + k@),
        None => if root_exists {
            Some(
                "a worktree directory already exists at "@ + paths::join(
                    reg.worktree_root@,
                    registry::dir_of_branch(req.branch@),
                )
                    + ". Pick a different branch name, or remove the existing directory first."@,
            )
        } else if state.workspace_at(req.id@) is Some {
            Some("workspace_id collision: "@ + req.id@ + " is already in state"@)
        } else {
            None
        },
    }
}

/// The workspace that the user asked for.
pub open spec fn is_ui_draft(w: Workspace, req: CreateRequest, now: i64) -> bool {
    &&& w.id == req.id
    &&& w.branch == req.branch
    &&& w.claude_binary == req.claude_binary
    &&& w.origin is Ui
    &&& w.folder is None
    &&& w.created_at == now
    &&& w.status is Creating
    &&& w.repo_links@.len() == 0
    &&& w.sessions@.len() == 0
    &&& w.script_runs@.len() == 0
    &&& w.artifacts@.len() == 0
    &&& w.notes@.len() == 0
    &&& w.deleted_at is None
    &&& w.archived_at is None
    &&& w.blocked_by is None
    &&& w.dev_servers is None
}

/// Put a workspace that was asked for in front of the others, before anything of
/// it is built. One whose directory is taken is refused: deleting either of two
/// that share one would take the other's worktrees along.
pub fn create_workspace(
    state: &mut AppState,
    reg: &RepoRegistry,
    req: CreateRequest,
    repo_selections: &[String],
    root_exists: bool,
    now: i64,
) -> (r: Result<CreatePlan, AppError>)
    ensures
        final(state).system_errors == old(state).system_errors,
        match create_fault(*old(state), *reg, req, repo_selections@, root_exists) {
            Some(why) => final(state).workspaces@ == old(state).workspaces@ && (r matches Err(e)
                && e.says(why)),
            None => {
                &&& r matches Ok(plan) && plan.workspace_dir@ == registry::dir_of_branch(
                    req.branch@,
                ) && reg.are_places(plan.repos@, repo_selections@)
                &&& final(state).workspaces@.len() > 0
                &&& is_ui_draft(final(state).workspaces@[0], req, now)
                &&& final(state).workspaces@.drop_first() == old(state).workspaces@
            },
        },
{
    let repos = match reg.find_all(repo_selections) {
        Ok(p) => p,
        Err(k) => {
            return Err(AppError::Other(text::cat("unknown repo key: ", &k)));
        },
    };
    let workspace_dir = registry::sanitize_branch_for_dir(&req.branch);
    if root_exists {
        let root = paths::joined(&reg.worktree_root, &workspace_dir);
        return Err(
            AppError::Other(
                text::cat3(
                    "a worktree directory already exists at ",
                    &root,
                    ". Pick a different branch name, or remove the existing directory first.",
                ),
            ),
        );
    }
    if state.workspace_index(&req.id).is_some() {
        return Err(
            AppError::Other(
                text::cat3("workspace_id collision: ", &req.id, " is already in state"),
            ),
        );
    }
    let ghost before = state.workspaces@;
    let draft = Workspace::draft(req.id, req.branch, req.claude_binary, Origin::Ui, None, now);
    state.workspaces.insert(0, draft);
    assert(state.workspaces@.drop_first() =~= before);
    Ok(CreatePlan { workspace_dir, repos })
}

/// What a worktree that is added to a workspace is built from.
#[derive(Debug)]
pub struct AddRepoPlan {
    pub branch: String,
    pub worktree_path: String,
    /// Where the repo stands in the registry.
    pub repo: usize,
}

/// What is said when a repo is in the workspace.
pub open spec fn repo_present(key: Seq<char>) -> Seq<char> {
    "repo '"@ + key + "' is already in this workspace"@
}

fn present(key: &str) -> (r: AppError)
    ensures
        r.says(repo_present(key@)),
{
    AppError::Other(text::cat3("repo '", key, "' is already in this workspace"))
}

/// Where the worktree of a repo goes in a workspace.
pub open spec fn added_path(ws: Workspace, reg: RepoRegistry, key: Seq<char>) -> Seq<char> {
    paths::join(paths::join(reg.worktree_root@, registry::dir_of_branch(ws.branch@)), key)
}

/// Check whether a repo can be added to a workspace.
pub fn add_repo_to_workspace(state: &AppState, reg: &RepoRegistry, args: &AddRepoArgs) -> (r:
    Result<AddRepoPlan, AppError>)
    ensures
        match reg.repo_at(args.repo_key@) {
            None => r matches Err(e) && e.says("unknown repo key: "@ + args.repo_key@),
            Some(k) => match state.workspace_at(args.workspace_id@) {
                None => r matches Err(e) && e.lacks_workspace(args.workspace_id@),
                Some(i) => {
                    let ws = state.workspaces@[i];
                    if ws.deleted_at is Some {
                        r matches Err(e) && e.says(
                            "workspace is soft-deleted; cancel deletion before adding repos"@,
                        )
                    } else if ws.link_at(args.repo_key@) is Some {
                        r matches Err(e) && e.says(repo_present(args.repo_key@))
                    } else {
                        r matches Ok(p) && p.branch == ws.branch && p.worktree_path@ == added_path(
                            ws,
                            *reg,
                            args.repo_key@,
                        ) && p.repo == k
                    }
                },
            },
        },
{
    let repo: usize = match reg.repo_index(&args.repo_key) {
        Some(k) => k,
        None => {
            return Err(AppError::Other(text::cat("unknown repo key: ", &args.repo_key)));
        },
    };
    let ws = match state.workspace_index(&args.workspace_id) {
        Some(i) => &state.workspaces[i],
        None => {
            return Err(AppError::WorkspaceNotFound(args.workspace_id.clone()));
        },
    };
    if ws.deleted_at.is_some() {
        return Err(
            AppError::Other(
                "workspace is soft-deleted; cancel deletion before adding repos".to_owned(),
            ),
        );
    }
    if ws.has_link(&args.repo_key) {
        return Err(present(&args.repo_key));
    }
    let dir = registry::sanitize_branch_for_dir(&ws.branch);
    let worktree_path = reg.plan_worktree_path(&dir, &args.repo_key);
    Ok(AddRepoPlan { branch: ws.branch.clone(), worktree_path, repo })
}

/// What is said when the place of a worktree is taken.
pub fn worktree_taken(path: &str) -> (r: AppError)
    ensures
        r.says(
            "a worktree directory already exists at "@ + path@
                + ". Remove it first or pick a different repo."@,
        ),
{
    AppError::Other(
        text::cat3(
            "a worktree directory already exists at ",
            path,
            ". Remove it first or pick a different repo.",
        ),
    )
}

/// Put a worktree that was built into its workspace. That took minutes, so what
/// was checked before is checked again: a workspace that was deleted meanwhile
/// must not get a worktree that nobody will remove.
pub fn push_link(ws: &mut Workspace, link: RepoLink) -> (r: Result<(), AppError>)
    ensures
        *final(ws) == (Workspace { repo_links: final(ws).repo_links, ..*old(ws) }),
        if old(ws).deleted_at is Some {
            final(ws).repo_links@ == old(ws).repo_links@ && (r matches Err(e) && e.says(
                "workspace was deleted while the repo was being provisioned"@,
            ))
        } else if old(ws).link_at(link.repo_key@) is Some {
            final(ws).repo_links@ == old(ws).repo_links@ && (r matches Err(e) && e.says(
                repo_present(link.repo_key@),
            ))
        } else {
            r is Ok && final(ws).repo_links@ == old(ws).repo_links@.push(link)
        },
{
    if ws.deleted_at.is_some() {
        return Err(
            AppError::Other(
                "workspace was deleted while the repo was being provisioned".to_owned(),
            ),
        );
    }
    if ws.has_link(&link.repo_key) {
        return Err(present(&link.repo_key));
    }
    ws.repo_links.push(link);
    Ok(())
}

/// Whether a workspace has each repo once.
pub open spec fn repos_distinct(links: Seq<RepoLink>) -> bool {
    forall|i: int, j: int|
        0 <= i < j < links.len() ==> (#[trigger] links[i]).repo_key@ != (
        #[trigger] links[j]).repo_key@
}

/// A workspace never gets the same repo twice.
pub proof fn adding_keeps_repos_distinct(links: Seq<RepoLink>, link: RepoLink)
    requires
        repos_distinct(links),
        state::link_in(links, link.repo_key@) is None,
    ensures
        repos_distinct(links.push(link)),
{
    list::lemma_first_where(links, |l: RepoLink| l.repo_key@ == link.repo_key@);
    let all = links.push(link);
    assert forall|i: int, j: int| 0 <= i < j < all.len() implies (#[trigger] all[i]).repo_key@ != (
    #[trigger] all[j]).repo_key@ by {
        assert(all[i] == links[i]);
        if j < links.len() {
            assert(all[j] == links[j]);
        }
    }
}

/// The state with one workspace changed.
pub open spec fn with_workspace(before: AppState, after: AppState, i: int, ws: Workspace) -> bool {
    after.workspaces@ == before.workspaces@.update(i, ws) && after.system_errors
        == before.system_errors
}

/// The ids of a workspace's sessions.
pub open spec fn session_ids(ws: Workspace) -> Seq<String> {
    ws.sessions@.map_values(|m: ClaudeSessionMeta| m.id)
}

fn ids_of(ws: &Workspace) -> (r: Vec<String>)
    ensures
        r@ == session_ids(*ws),
{
    let ghost all = session_ids(*ws);
    let mut r: Vec<String> = Vec::new();
    let mut i: usize = 0;
    while i < ws.sessions.len()
        invariant
            i <= ws.sessions.len(),
            all == session_ids(*ws),
            r@ == all.take(i as int),
        decreases ws.sessions.len() - i,
    {
        r.push(ws.sessions[i].id.clone());
        i = i + 1;
        assert(r@ =~= all.take(i as int));
    }
    assert(all.take(i as int) =~= all);
    r
}

/// Mark a workspace as deleted. Its sessions, which are returned, are to be
/// stopped; everything else is done when the grace period is over. A workspace
/// that is deleted again gets a new grace period.
pub fn delete_workspace(state: &mut AppState, id: &str, now: i64) -> (r: Result<
    Vec<String>,
    AppError,
>)
    ensures
        match old(state).workspace_at(id@) {
            None => *final(state) == *old(state) && (r matches Err(e) && e.lacks_workspace(id@)),
            Some(i) => {
                let ws = old(state).workspaces@[i];
                &&& r matches Ok(ids) && ids@ == session_ids(ws)
                &&& with_workspace(
                    *old(state),
                    *final(state),
                    i,
                    Workspace { deleted_at: Some(now), archived_at: None, ..ws },
                )
            },
        },
{
    match state.workspace_index(id) {
        Some(i) => {
            let ids = ids_of(&state.workspaces[i]);
            let ws = &mut state.workspaces[i];
            ws.deleted_at = Some(now);
            ws.archived_at = None;
            Ok(ids)
        },
        None => Err(AppError::WorkspaceNotFound(id.to_owned())),
    }
}

/// Take a deletion back, where the workspace is still there.
pub fn cancel_delete_workspace(state: &mut AppState, id: &str) -> (r: Result<(), AppError>)
    ensures
        match old(state).workspace_at(id@) {
            None => *final(state) == *old(state) && (r matches Err(e) && e.lacks_workspace(id@)),
            Some(i) => r is Ok && with_workspace(
                *old(state),
                *final(state),
                i,
                Workspace { deleted_at: None, ..old(state).workspaces@[i] },
            ),
        },
{
    match state.workspace_index(id) {
        Some(i) => {
            let ws = &mut state.workspaces[i];
            ws.deleted_at = None;
            Ok(())
        },
        None => Err(AppError::WorkspaceNotFound(id.to_owned())),
    }
}

/// Move a workspace to the archive.
pub fn archive_workspace(state: &mut AppState, id: &str, now: i64) -> (r: Result<(), AppError>)
    ensures
        match old(state).workspace_at(id@) {
            None => *final(state) == *old(state) && (r matches Err(e) && e.lacks_workspace(id@)),
            Some(i) => r is Ok && with_workspace(
                *old(state),
                *final(state),
                i,
                Workspace { archived_at: Some(now), ..old(state).workspaces@[i] },
            ),
        },
{
    match state.workspace_index(id) {
        Some(i) => {
            let ws = &mut state.workspaces[i];
            ws.archived_at = Some(now);
            Ok(())
        },
        None => Err(AppError::WorkspaceNotFound(id.to_owned())),
    }
}

/// Move a workspace out of the archive.
pub fn unarchive_workspace(state: &mut AppState, id: &str) -> (r: Result<(), AppError>)
    ensures
        match old(state).workspace_at(id@) {
            None => *final(state) == *old(state) && (r matches Err(e) && e.lacks_workspace(id@)),
            Some(i) => r is Ok && with_workspace(
                *old(state),
                *final(state),
                i,
                Workspace { archived_at: None, ..old(state).workspaces@[i] },
            ),
        },
{
    match state.workspace_index(id) {
        Some(i) => {
            let ws = &mut state.workspaces[i];
            ws.archived_at = None;
            Ok(())
        },
        None => Err(AppError::WorkspaceNotFound(id.to_owned())),
    }
}

/// Taking a deletion back restores a workspace that was not archived, and loses
/// nothing else of any.
pub proof fn a_cancelled_deletion_leaves_no_trace(ws: Workspace, now: i64)
    requires
        ws.deleted_at is None,
        ws.archived_at is None,
    ensures
        (Workspace {
            deleted_at: None,
            ..(Workspace { deleted_at: Some(now), archived_at: None, ..ws })
        }) == ws,
{
}

/// The workspaces that are named, in the order in which they are named, and the
/// ones that are left.
pub open spec fn pulled(workspaces: Seq<Workspace>, ids: Seq<String>) -> (
    Seq<Workspace>,
    Seq<Workspace>,
)
    decreases ids.len(),
{
    if ids.len() == 0 {
        (seq![], workspaces)
    } else {
        let (moved, rest) = pulled(workspaces, ids.drop_last());
        match state::workspace_in(rest, ids.last()@) {
            Some(i) => (moved.push(rest[i]), rest.remove(i)),
            None => (moved, rest),
        }
    }
}

/// The first id that no workspace has.
pub open spec fn first_missing(workspaces: Seq<Workspace>, ids: Seq<String>) -> Option<String> {
    list::first_of(ids, |id: String| state::workspace_in(workspaces, id@) is None)
}

/// Put the named workspaces in front, in the order in which they are named. The
/// others follow in their own order. Where any is unknown nothing is moved.
pub fn reorder_workspaces(state: &mut AppState, ids: &[WorkspaceId]) -> (r: Result<(), AppError>)
    ensures
        final(state).system_errors == old(state).system_errors,
        match first_missing(old(state).workspaces@, ids@) {
            Some(id) => final(state).workspaces@ == old(state).workspaces@ && (r matches Err(e)
                && e.lacks_workspace(id@)),
            None => {
                let (moved, rest) = pulled(old(state).workspaces@, ids@);
                r is Ok && final(state).workspaces@ == moved + rest
            },
        },
{
    let ghost before = state.workspaces@;
    let ghost missing = |id: String| state::workspace_in(before, id@) is None;
    let mut i: usize = 0;
    while i < ids.len()
        invariant
            i <= ids.len(),
            *state == *old(state),
            before == state.workspaces@,
            missing == (|id: String| state::workspace_in(before, id@) is None),
            forall|k: int| 0 <= k < i ==> !missing(#[trigger] ids@[k]),
        decreases ids.len() - i,
    {
        if state.workspace_index(&ids[i]).is_none() {
            proof {
                list::lemma_first_where_is(ids@, missing, i as int);
            }
            return Err(AppError::WorkspaceNotFound(ids[i].clone()));
        }
        i = i + 1;
    }
    proof {
        list::lemma_first_where_none(ids@, missing);
    }
    let mut moved: Vec<Workspace> = Vec::new();
    i = 0;
    assert(ids@.take(0).len() == 0);
    while i < ids.len()
        invariant
            i <= ids.len(),
            state.system_errors == old(state).system_errors,
            (moved@, state.workspaces@) == pulled(before, ids@.take(i as int)),
        decreases ids.len() - i,
    {
        proof {
            assert(ids@.take(i + 1).drop_last() =~= ids@.take(i as int));
            assert(ids@.take(i + 1).last() == ids@[i as int]);
        }
        if let Some(k) = state.workspace_index(&ids[i]) {
            moved.push(state.workspaces.remove(k));
        }
        i = i + 1;
    }
    assert(ids@.take(i as int) =~= ids@);
    moved.append(&mut state.workspaces);
    state.workspaces = moved;
    Ok(())
}

/// A new order loses no workspace and makes none: it only moves them.
pub proof fn reordering_moves_workspaces_only(workspaces: Seq<Workspace>, ids: Seq<String>)
    ensures
        ({
            let (moved, rest) = pulled(workspaces, ids);
            (moved + rest).to_multiset() == workspaces.to_multiset()
        }),
    decreases ids.len(),
{
    broadcast use vstd::seq_lib::group_to_multiset_ensures;

    let (moved, rest) = pulled(workspaces, ids);
    if ids.len() == 0 {
        assert(moved + rest =~= workspaces);
    } else {
        reordering_moves_workspaces_only(workspaces, ids.drop_last());
        let (m, r) = pulled(workspaces, ids.drop_last());
        match state::workspace_in(r, ids.last()@) {
            Some(i) => {
                state::lemma_workspace_in(r, ids.last()@);
                vstd::seq_lib::lemma_multiset_commutative(m, r);
                vstd::seq_lib::lemma_multiset_commutative(moved, rest);
                assert(moved.to_multiset() =~= m.to_multiset().insert(r[i]));
                assert(rest.to_multiset() =~= r.to_multiset().remove(r[i]));
                assert(r.contains(r[i]));
                assert(r.to_multiset().count(r[i]) > 0);
                assert((moved + rest).to_multiset() =~= (m + r).to_multiset());
            },
            None => {},
        }
    }
}

/// The workspaces that were named stand in front, in the order in which they were
/// named, where each is named once and all ids are different.
pub proof fn the_named_ones_come_first(workspaces: Seq<Workspace>, ids: Seq<String>, k: int)
    requires
        first_missing(workspaces, ids) is None,
        forall|i: int, j: int|
            0 <= i < j < ids.len() ==> (#[trigger] ids[i])@ != (#[trigger] ids[j])@,
        0 <= k < ids.len(),
    ensures
        pulled(workspaces, ids).0.len() == ids.len(),
        pulled(workspaces, ids).0[k].id@ == ids[k]@,
{
    list::lemma_first_where(
        ids,
        |id: String| state::workspace_in(workspaces, id@) is None,
    );
    assert forall|i: int| 0 <= i < ids.len() implies state::workspace_in(
        workspaces,
        (#[trigger] ids[i])@,
    ) is Some by {}
    lemma_pulled(workspaces, ids, seq![]);
}

/// Having an id that is not among these.
pub open spec fn unnamed(ids: Seq<String>) -> spec_fn(Workspace) -> bool {
    |w: Workspace| !text::views(ids).contains(w.id@)
}

/// Whether no two workspaces have the same id.
pub open spec fn ids_distinct(workspaces: Seq<Workspace>) -> bool {
    forall|i: int, j: int|
        0 <= i < j < workspaces.len() ==> (#[trigger] workspaces[i]).id@ != (
        #[trigger] workspaces[j]).id@
}

/// Of workspaces with different ids, those that were not named follow the others in
/// the order that they had.
pub proof fn the_rest_keep_their_order(workspaces: Seq<Workspace>, ids: Seq<String>)
    requires
        ids_distinct(workspaces),
    ensures
        pulled(workspaces, ids).1 == workspaces.filter(unnamed(ids)),
    decreases ids.len(),
{
    let p = unnamed(ids);
    if ids.len() == 0 {
        list::lemma_filter_all(workspaces, p);
    } else {
        let before = ids.drop_last();
        let id = ids.last()@;
        let rest = pulled(workspaces, before).1;
        the_rest_keep_their_order(workspaces, before);
        assert(text::views(ids) =~= text::views(before).push(id));
        assert forall|w: Workspace| #[trigger] p(w) == (unnamed(before)(w) && w.id@ != id) by {
            let had = text::views(before);
            if had.contains(w.id@) {
                let i = choose|i: int| 0 <= i < had.len() && had[i] == w.id@;
                assert(text::views(ids)[i] == w.id@);
            }
            if w.id@ == id {
                assert(text::views(ids)[ids.len() - 1] == id);
            }
            if text::views(ids).contains(w.id@) {
                let i = choose|i: int|
                    0 <= i < text::views(ids).len() && text::views(ids)[i] == w.id@;
                assert(i < had.len() ==> had[i] == w.id@);
            }
        }
        lemma_filter_twice(workspaces, unnamed(before), p, id);
        list::lemma_filter_places(workspaces, unnamed(before));
        assert(ids_distinct(rest)) by {
            let q = unnamed(before);
            assert forall|i: int, j: int| 0 <= i < j < rest.len() implies (
            #[trigger] rest[i]).id@ != (#[trigger] rest[j]).id@ by {
                assert(list::place_of(workspaces, q, i) < list::place_of(workspaces, q, j));
            }
        }
        lemma_one_gone(rest, id);
    }
}

/// Filtering again takes out what the second filter takes out.
proof fn lemma_filter_twice(
    workspaces: Seq<Workspace>,
    q: spec_fn(Workspace) -> bool,
    p: spec_fn(Workspace) -> bool,
    id: Seq<char>,
)
    requires
        forall|w: Workspace| #[trigger] p(w) == (q(w) && w.id@ != id),
    ensures
        workspaces.filter(q).filter(|w: Workspace| w.id@ != id) == workspaces.filter(p),
    decreases workspaces.len(),
{
    reveal(Seq::filter);
    let d = |w: Workspace| w.id@ != id;
    if workspaces.len() > 0 {
        let t = workspaces.drop_last();
        let w = workspaces.last();
        lemma_filter_twice(t, q, p, id);
        if q(w) {
            assert(workspaces.filter(q).drop_last() =~= t.filter(q));
            assert(workspaces.filter(q).last() == w);
        }
        assert(p(w) == (q(w) && d(w)));
        assert(workspaces.filter(q).filter(d) =~= workspaces.filter(p));
    } else {
        assert(workspaces.filter(q) =~= seq![]);
        assert(workspaces.filter(q).filter(d) =~= workspaces.filter(p));
    }
}

/// Taking out the one with an id leaves all the others.
proof fn lemma_one_gone(rest: Seq<Workspace>, id: Seq<char>)
    requires
        ids_distinct(rest),
    ensures
        rest.filter(|w: Workspace| w.id@ != id) == (match state::workspace_in(rest, id) {
            Some(i) => rest.remove(i),
            None => rest,
        }),
    decreases rest.len(),
{
    reveal(Seq::filter);
    let d = |w: Workspace| w.id@ != id;
    state::lemma_workspace_in(rest, id);
    if rest.len() > 0 {
        let t = rest.drop_last();
        assert(ids_distinct(t)) by {
            assert forall|i: int, j: int| 0 <= i < j < t.len() implies (#[trigger] t[i]).id@ != (
            #[trigger] t[j]).id@ by {
                assert(rest[i].id@ != rest[j].id@);
            }
        }
        lemma_one_gone(t, id);
        state::lemma_workspace_in(t, id);
        match state::workspace_in(t, id) {
            Some(i) => {
                list::lemma_first_where_is(rest, state::of_id(id), i);
                assert(rest[i].id@ != rest[rest.len() - 1].id@);
                assert(rest.remove(i) =~= t.remove(i).push(rest.last()));
            },
            None => {
                assert forall|k: int| 0 <= k < t.len() implies (#[trigger] rest[k]).id@ != id by {
                    assert(rest[k] == t[k]);
                }
                if d(rest.last()) {
                    list::lemma_first_where_none(rest, state::of_id(id));
                    assert(t.push(rest.last()) =~= rest);
                } else {
                    list::lemma_first_where_is(rest, state::of_id(id), rest.len() - 1);
                    assert(rest.remove(rest.len() - 1) =~= t);
                }
            },
        }
    } else {
        assert(rest.filter(d) =~= rest);
        list::lemma_first_where_none(rest, state::of_id(id));
    }
}

/// What is left still has every workspace that was not named.
proof fn lemma_pulled(workspaces: Seq<Workspace>, ids: Seq<String>, other: Seq<char>)
    requires
        forall|i: int|
            0 <= i < ids.len() ==> state::workspace_in(workspaces, (#[trigger] ids[i])@) is Some,
        forall|i: int, j: int|
            0 <= i < j < ids.len() ==> (#[trigger] ids[i])@ != (#[trigger] ids[j])@,
    ensures
        pulled(workspaces, ids).0.len() == ids.len(),
        forall|k: int|
            0 <= k < ids.len() ==> (#[trigger] pulled(workspaces, ids).0[k]).id@ == ids[k]@,
        (state::workspace_in(workspaces, other) is Some && forall|i: int|
            0 <= i < ids.len() ==> (#[trigger] ids[i])@ != other) ==> state::workspace_in(
            pulled(workspaces, ids).1,
            other,
        ) is Some,
    decreases ids.len(),
{
    if ids.len() > 0 {
        let before = ids.drop_last();
        let id = ids.last()@;
        assert forall|i: int| 0 <= i < before.len() implies (#[trigger] before[i])@ != id by {
            assert(ids[i]@ != ids[ids.len() - 1]@);
        }
        assert forall|i: int| 0 <= i < before.len() implies state::workspace_in(
            workspaces,
            (#[trigger] before[i])@,
        ) is Some by {
            assert(before[i] == ids[i]);
        }
        assert forall|i: int, j: int| 0 <= i < j < before.len() implies (#[trigger] before[i])@ != (
        #[trigger] before[j])@ by {
            assert(ids[i]@ != ids[j]@);
        }
        assert(state::workspace_in(workspaces, ids[ids.len() - 1]@) is Some);
        lemma_pulled(workspaces, before, id);
        lemma_pulled(workspaces, before, other);
        let (m, r) = pulled(workspaces, before);
        state::lemma_workspace_in(r, id);
        let at = state::workspace_in(r, id)->0;
        let (moved, rest) = pulled(workspaces, ids);
        assert forall|k: int| 0 <= k < ids.len() implies (#[trigger] moved[k]).id@ == ids[k]@ by {
            if k < m.len() {
                assert(moved[k] == m[k]);
                assert(before[k] == ids[k]);
            }
        }
        if state::workspace_in(workspaces, other) is Some && (forall|i: int|
            0 <= i < ids.len() ==> (#[trigger] ids[i])@ != other) {
            assert forall|i: int| 0 <= i < before.len() implies (#[trigger] before[i])@
                != other by {
                assert(before[i] == ids[i]);
            }
            assert(ids[ids.len() - 1]@ != other);
            state::lemma_workspace_in(r, other);
            let o = state::workspace_in(r, other)->0;
            let p = if o < at {
                o
            } else {
                o - 1
            };
            assert(rest[p] == r[o]);
            state::lemma_workspace_in(rest, other);
        }
    }
}

/// Drop an error that the user has seen.
pub fn dismiss_system_error(state: &mut AppState, id: &str)
    ensures
        final(state).workspaces == old(state).workspaces,
        final(state).system_errors@ == old(state).system_errors@.filter(
            |e: SystemErrorEntry| e.id@ != id@,
        ),
{
    let other = |e: &SystemErrorEntry| -> (b: bool)
        ensures
            b == (e.id@ != id@),
        { !text::same(&e.id, id) };
    list::keep(
        &mut state.system_errors,
        other,
        Ghost(|e: SystemErrorEntry| e.id@ != id@),
    );
}

/// Check that a permission is given to some repo.
pub fn apply_pending_permission(args: &ApplyPendingArgs) -> (r: Result<(), AppError>)
    ensures
        if args.target_repo_keys@.len() == 0 {
            r matches Err(e) && e.says("apply_pending_permission: target_repo_keys is empty"@)
        } else {
            r is Ok
        },
{
    if args.target_repo_keys.len() == 0 {
        return Err(
            AppError::Other("apply_pending_permission: target_repo_keys is empty".to_owned()),
        );
    }
    Ok(())
}

/// Check that a directory that is to be removed is one of the worktrees'.
pub fn remove_orphan_dir(path: &str, under_root: bool) -> (r: Result<(), AppError>)
    ensures
        if under_root {
            r is Ok
        } else {
            r matches Err(e) && e.says(
                "refusing to remove "@ + path@ + ": not under worktree_root"@,
            )
        },
{
    if !under_root {
        return Err(
            AppError::Other(
                text::cat3("refusing to remove ", path, ": not under worktree_root"),
            ),
        );
    }
    Ok(())
}

/// Drop a workspace from the state without touching anything else. Its sessions,
/// which are returned, are to be stopped.
pub fn forget_workspace(state: &mut AppState, id: &str) -> (r: Result<Vec<String>, AppError>)
    ensures
        final(state).system_errors == old(state).system_errors,
        final(state).workspaces@ == old(state).workspaces@.filter(|w: Workspace| w.id@ != id@),
        match old(state).workspace_at(id@) {
            None => r matches Err(e) && e.lacks_workspace(id@),
            Some(i) => r matches Ok(ids) && ids@ == session_ids(old(state).workspaces@[i]),
        },
{
    let found = match state.workspace_index(id) {
        Some(i) => Some(ids_of(&state.workspaces[i])),
        None => None,
    };
    let other = |w: &Workspace| -> (b: bool)
        ensures
            b == (w.id@ != id@),
        { !text::same(&w.id, id) };
    list::keep(&mut state.workspaces, other, Ghost(|w: Workspace| w.id@ != id@));
    match found {
        Some(ids) => Ok(ids),
        None => Err(AppError::WorkspaceNotFound(id.to_owned())),
    }
}

/// The session with an id in a workspace.
pub open spec fn session_of(state: AppState, workspace_id: Seq<char>, id: Seq<char>) -> Option<
    ClaudeSessionMeta,
> {
    match state.workspace_at(workspace_id) {
        Some(i) => match state.workspaces@[i].session_at(id) {
            Some(k) => Some(state.workspaces@[i].sessions@[k]),
            None => None,
        },
        None => None,
    }
}

/// What is said when a workspace has no such session.
pub open spec fn no_session(id: Seq<char>, workspace_id: Seq<char>) -> Seq<char> {
    "no session "@ + id + " in workspace "@ + workspace_id
}

fn find_session<'a>(state: &'a AppState, workspace_id: &str, id: &str) -> (r: Result<
    &'a ClaudeSessionMeta,
    AppError,
>)
    ensures
        match session_of(*state, workspace_id@, id@) {
            Some(m) => r matches Ok(s) && *s == m,
            None => r matches Err(e) && e.says(no_session(id@, workspace_id@)),
        },
{
    if let Some(i) = state.workspace_index(workspace_id) {
        let ws = &state.workspaces[i];
        if let Some(k) = ws.session_index(id) {
            return Ok(&ws.sessions[k]);
        }
    }
    let mut m = text::cat3("no session ", id, " in workspace ");
    m.append(workspace_id);
    Err(AppError::Other(m))
}

/// How a session is taken up again.
#[derive(Debug)]
pub enum ResumePlan {
    /// Its process is still there.
    Reattach { cwd: String },
    /// Its conversation is taken up by a new process.
    Restart { claude_session_id: String, session_binary: Option<String> },
}

/// Decide how a session is taken up again. One that has not said under which id
/// it goes can only be attached to.
pub fn resume_claude_session(state: &AppState, args: &ResumeClaudeArgs, alive: bool) -> (r: Result<
    ResumePlan,
    AppError,
>)
    ensures
        match session_of(*state, args.workspace_id@, args.session_meta_id@) {
            None => r matches Err(e) && e.says(
                no_session(args.session_meta_id@, args.workspace_id@),
            ),
            Some(m) => if alive {
                r matches Ok(ResumePlan::Reattach { cwd }) && cwd == m.cwd
            } else {
                match m.claude_session_id {
                    Some(id) => r matches Ok(ResumePlan::Restart {
                        claude_session_id,
                        session_binary,
                    }) && claude_session_id == id && session_binary == m.claude_binary,
                    None => r matches Err(e) && e.says(
                        "session has no claude_session_id yet — resume not possible"@,
                    ),
                }
            },
        },
{
    let m = match find_session(state, &args.workspace_id, &args.session_meta_id) {
        Ok(m) => m,
        Err(e) => {
            return Err(e);
        },
    };
    if alive {
        return Ok(ResumePlan::Reattach { cwd: m.cwd.clone() });
    }
    match &m.claude_session_id {
        Some(id) => Ok(
            ResumePlan::Restart {
                claude_session_id: id.clone(),
                session_binary: text::copied(&m.claude_binary),
            },
        ),
        None => Err(
            AppError::Other(
                "session has no claude_session_id yet — resume not possible".to_owned(),
            ),
        ),
    }
}

/// Whether a conversation can be taken up again, by what is known of its
/// transcript: whether it is a file, and how long it is. An agent has an id before
/// there is anything to take up.
pub fn transcript_is_resumable(transcript: Option<(bool, u64)>) -> (r: bool)
    ensures
        r == (match transcript {
            Some((is_file, len)) => is_file && len > 0,
            None => false,
        }),
{
    match transcript {
        Some((is_file, len)) => is_file && len > 0,
        None => false,
    }
}

/// The binary that a session is to go on under.
pub fn binary_name(args: &SwitchClaudeBinaryArgs, name: &AgentName) -> (r: Result<
    String,
    AppError,
>)
    ensures
        if text::trim(args.claude_binary@).len() == 0 {
            r matches Err(e) && e.says("no "@ + name.called() + " binary name provided"@)
        } else {
            r matches Ok(b) && b@ == text::trim(args.claude_binary@)
        },
{
    let binary = text::trimmed(&args.claude_binary);
    if binary.as_str().is_empty() {
        return Err(AppError::Other(text::cat3("no ", &name.command(), " binary name provided")));
    }
    Ok(binary)
}

/// How a session goes on under another binary.
#[derive(Debug)]
pub struct SwitchPlan {
    pub repo_key: Option<String>,
    /// The conversation that is taken up again; none where there is none yet.
    pub resume: Option<String>,
}

/// Where the transcript of a session is.
pub fn transcript_of(state: &AppState, args: &SwitchClaudeBinaryArgs) -> (r: Result<
    Option<String>,
    AppError,
>)
    ensures
        match session_of(*state, args.workspace_id@, args.session_meta_id@) {
            None => r matches Err(e) && e.says(
                no_session(args.session_meta_id@, args.workspace_id@),
            ),
            Some(m) => r == Ok::<Option<String>, AppError>(m.transcript_path),
        },
{
    match find_session(state, &args.workspace_id, &args.session_meta_id) {
        Ok(m) => Ok(text::copied(&m.transcript_path)),
        Err(e) => Err(e),
    }
}

/// Decide how a session goes on under another binary: with its conversation where
/// that is on disk, and afresh where it is not.
pub fn switch_claude_binary(
    state: &AppState,
    args: &SwitchClaudeBinaryArgs,
    resumable: bool,
) -> (r: Result<SwitchPlan, AppError>)
    ensures
        match session_of(*state, args.workspace_id@, args.session_meta_id@) {
            None => r matches Err(e) && e.says(
                no_session(args.session_meta_id@, args.workspace_id@),
            ),
            Some(m) => r matches Ok(p) && p.repo_key == m.repo_key && p.resume == (if resumable {
                m.claude_session_id
            } else {
                None
            }),
        },
{
    match find_session(state, &args.workspace_id, &args.session_meta_id) {
        Ok(m) => Ok(
            SwitchPlan {
                repo_key: text::copied(&m.repo_key),
                resume: if resumable {
                    text::copied(&m.claude_session_id)
                } else {
                    None
                },
            },
        ),
        Err(e) => Err(e),
    }
}

/// Show or hide a session. It goes on all the same.
pub fn set_claude_session_hidden(state: &mut AppState, args: &SetClaudeHiddenArgs) -> (r: Result<
    (),
    AppError,
>)
    ensures
        match old(state).workspace_at(args.workspace_id@) {
            None => *final(state) == *old(state) && (r matches Err(e) && e.lacks_workspace(
                args.workspace_id@,
            )),
            Some(i) => {
                let ws = old(state).workspaces@[i];
                let now = final(state).workspaces@[i];
                match ws.session_at(args.session_id@) {
                    None => final(state).workspaces@ == old(state).workspaces@ && (r matches Err(e)
                        && e.says(
                        "session "@ + args.session_id@ + " not found in workspace "@
                            + args.workspace_id@,
                    )),
                    Some(k) => r is Ok && with_workspace(
                        *old(state),
                        *final(state),
                        i,
                        Workspace { sessions: now.sessions, ..ws },
                    ) && now.sessions@ == ws.sessions@.update(
                        k,
                        ClaudeSessionMeta { hidden: args.hidden, ..ws.sessions@[k] },
                    ),
                }
            },
        },
{
    match state.workspace_index(&args.workspace_id) {
        Some(i) => {
            let at = state.workspaces[i].session_index(&args.session_id);
            match at {
                Some(k) => {
                    let ws = &mut state.workspaces[i];
                    let m = &mut ws.sessions[k];
                    m.hidden = args.hidden;
                    Ok(())
                },
                None => {
                    let mut m = text::cat3(
                        "session ",
                        &args.session_id,
                        " not found in workspace ",
                    );
                    m.append(&args.workspace_id);
                    Err(AppError::Other(m))
                },
            }
        },
        None => Err(AppError::WorkspaceNotFound(args.workspace_id.clone())),
    }
}

/// Keep what the user noted about a workspace.
pub fn set_workspace_notes(state: &mut AppState, args: SetWorkspaceNotesArgs) -> (r: Result<
    (),
    AppError,
>)
    ensures
        match old(state).workspace_at(args.workspace_id@) {
            None => *final(state) == *old(state) && (r matches Err(e) && e.lacks_workspace(
                args.workspace_id@,
            )),
            Some(i) => r is Ok && with_workspace(
                *old(state),
                *final(state),
                i,
                Workspace { notes: args.notes, ..old(state).workspaces@[i] },
            ),
        },
{
    match state.workspace_index(&args.workspace_id) {
        Some(i) => {
            let ws = &mut state.workspaces[i];
            ws.notes = args.notes;
            Ok(())
        },
        None => Err(AppError::WorkspaceNotFound(args.workspace_id)),
    }
}

/// What a script runs, and where.
#[derive(Debug)]
pub struct ScriptPlan {
    pub command: String,
    pub cwd: String,
}

/// The command of a script.
pub open spec fn script_of(scripts: Seq<(String, String)>, name: Seq<char>) -> Option<
    (String, String),
> {
    list::first_of(scripts, |s: (String, String)| s.0@ == name)
}

/// The worktree of a repo in a workspace.
pub open spec fn worktree_of(state: AppState, workspace_id: Seq<char>, key: Seq<char>) -> Option<
    String,
> {
    match state.workspace_at(workspace_id) {
        Some(i) => match state.workspaces@[i].link_at(key) {
            Some(k) => Some(state.workspaces@[i].repo_links@[k].worktree_path),
            None => None,
        },
        None => None,
    }
}

/// Decide what a script runs, and where.
pub fn start_script(
    state: &AppState,
    reg: &RepoRegistry,
    tmux_bin: &str,
    args: &StartScriptArgs,
) -> (r: Result<ScriptPlan, AppError>)
    ensures
        if tmux_bin@.len() == 0 {
            r matches Err(e) && e.says(
                "tmux not found — install with `brew install tmux` and restart Tethys"@,
            )
        } else {
            match reg.repo_at(args.repo_key@) {
                None => r matches Err(e) && e.says("unknown repo key: "@ + args.repo_key@),
                Some(i) => match script_of(reg.repos@[i].scripts@, args.script_name@) {
                    None => r matches Err(e) && e.says(
                        "no script '"@ + args.script_name@ + "' configured for repo '"@
                            + args.repo_key@ + "'"@,
                    ),
                    Some((_, command)) => match worktree_of(
                        *state,
                        args.workspace_id@,
                        args.repo_key@,
                    ) {
                        None => r matches Err(e) && e.says(
                            "no worktree for "@ + args.workspace_id@ + "/"@ + args.repo_key@
                                + " in state"@,
                        ),
                        Some(cwd) => r == Ok::<ScriptPlan, AppError>((ScriptPlan { command, cwd })),
                    },
                },
            }
        },
{
    if tmux_bin.is_empty() {
        return Err(
            AppError::Other(
                "tmux not found — install with `brew install tmux` and restart Tethys".to_owned(),
            ),
        );
    }
    let repo = match reg.find_repo(&args.repo_key) {
        Some(r) => r,
        None => {
            return Err(AppError::Other(text::cat("unknown repo key: ", &args.repo_key)));
        },
    };
    let name = &args.script_name;
    let is = |s: &(String, String)| -> (b: bool)
        ensures
            b == (s.0@ == name@),
        { text::same(&s.0, name) };
    let at: Option<usize> = list::position(
        &repo.scripts,
        is,
        Ghost(|s: (String, String)| s.0@ == name@),
    );
    let command = match at {
        Some(i) => repo.scripts[i].1.clone(),
        None => {
            let mut m = text::cat3("no script '", name, "' configured for repo '");
            m.append(&args.repo_key);
            m.append("'");
            return Err(AppError::Other(m));
        },
    };
    if let Some(i) = state.workspace_index(&args.workspace_id) {
        if let Some(link) = state.workspaces[i].link(&args.repo_key) {
            return Ok(ScriptPlan { command, cwd: link.worktree_path.clone() });
        }
    }
    let mut m = text::cat3("no worktree for ", &args.workspace_id, "/");
    m.append(&args.repo_key);
    m.append(" in state");
    Err(AppError::Other(m))
}

/// Drop the runs of a script that is started again: there is one of each.
pub fn clear_script_runs(state: &mut AppState, args: &StartScriptArgs)
    ensures
        match old(state).workspace_at(args.workspace_id@) {
            None => *final(state) == *old(state),
            Some(i) => {
                let ws = old(state).workspaces@[i];
                let now = final(state).workspaces@[i];
                with_workspace(
                    *old(state),
                    *final(state),
                    i,
                    Workspace { script_runs: now.script_runs, ..ws },
                ) && now.script_runs@ == ws.script_runs@.filter(
                    |m: ScriptRunMeta|
                        !(m.repo_key@ == args.repo_key@ && m.script_name@ == args.script_name@),
                )
            },
        },
{
    if let Some(i) = state.workspace_index(&args.workspace_id) {
        let other = |m: &ScriptRunMeta| -> (b: bool)
            ensures
                b == !(m.repo_key@ == args.repo_key@ && m.script_name@ == args.script_name@),
            {
                !(text::same(&m.repo_key, &args.repo_key) && text::same(
                    &m.script_name,
                    &args.script_name,
                ))
            };
        let ws = &mut state.workspaces[i];
        list::keep(
            &mut ws.script_runs,
            other,
            Ghost(
                |m: ScriptRunMeta|
                    !(m.repo_key@ == args.repo_key@ && m.script_name@ == args.script_name@),
            ),
        );
    }
}

/// Keep what makes a script's run attachable after a restart.
pub fn record_script(state: &mut AppState, workspace_id: &str, meta: ScriptRunMeta) -> (r: Result<
    (),
    AppError,
>)
    ensures
        match old(state).workspace_at(workspace_id@) {
            None => *final(state) == *old(state) && (r matches Err(e) && e.lacks_workspace(
                workspace_id@,
            )),
            Some(i) => {
                let ws = old(state).workspaces@[i];
                let now = final(state).workspaces@[i];
                r is Ok && with_workspace(
                    *old(state),
                    *final(state),
                    i,
                    Workspace { script_runs: now.script_runs, ..ws },
                ) && now.script_runs@ == ws.script_runs@.push(meta)
            },
        },
{
    match state.workspace_index(workspace_id) {
        Some(i) => {
            let ws = &mut state.workspaces[i];
            ws.script_runs.push(meta);
            Ok(())
        },
        None => Err(AppError::WorkspaceNotFound(workspace_id.to_owned())),
    }
}

/// Drop the run of a script.
pub fn dismiss_script(state: &mut AppState, args: &DismissScriptArgs)
    ensures
        match old(state).workspace_at(args.workspace_id@) {
            None => *final(state) == *old(state),
            Some(i) => {
                let ws = old(state).workspaces@[i];
                let now = final(state).workspaces@[i];
                with_workspace(
                    *old(state),
                    *final(state),
                    i,
                    Workspace { script_runs: now.script_runs, ..ws },
                ) && now.script_runs@ == ws.script_runs@.filter(
                    |m: ScriptRunMeta| m.id@ != args.script_id@,
                )
            },
        },
{
    if let Some(i) = state.workspace_index(&args.workspace_id) {
        let other = |m: &ScriptRunMeta| -> (b: bool)
            ensures
                b == (m.id@ != args.script_id@),
            { !text::same(&m.id, &args.script_id) };
        let ws = &mut state.workspaces[i];
        list::keep(
            &mut ws.script_runs,
            other,
            Ghost(|m: ScriptRunMeta| m.id@ != args.script_id@),
        );
    }
}

/// The list of texts that `serde_json::from_str` reads, or its words on why there
/// is none.
pub uninterp spec fn json_texts(text: Seq<char>) -> Result<Seq<Seq<char>>, Seq<char>>;

/// `serde_json::from_str`, to a list of texts.
#[verifier::external_body]
fn texts_of_json(text: &str) -> (r: Result<Vec<String>, String>)
    ensures
        match r {
            Ok(v) => json_texts(text@) matches Ok(w) && w == text::views(v@),
            Err(e) => json_texts(text@) matches Err(w) && w == e@,
        },
{
    serde_json::from_str::<Vec<String>>(text).map_err(|e| e.to_string())
}

/// What the user is told of a clipboard that could not be read.
pub fn clipboard_error(words: String) -> (r: AppError)
    ensures
        r == AppError::Json(words),
{
    AppError::Json(words)
}

/// The paths of the files on the clipboard, by what the script that reads it
/// wrote.
pub fn read_clipboard_file_paths(
    success: bool,
    status: &str,
    stdout: &str,
    stderr: &str,
) -> (r: Result<Vec<String>, AppError>)
    ensures
        if !success {
            r matches Err(e) && e.says(
                "osascript exited "@ + status@ + ": "@ + text::trim(stderr@),
            )
        } else {
            match json_texts(text::trim(stdout@)) {
                Ok(w) => r matches Ok(v) && text::views(v@) == w,
                Err(w) => r matches Err(AppError::Json(m)) && m@ == w,
            }
        },
{
    if !success {
        let mut m = text::cat3("osascript exited ", status, ": ");
        m.append(&text::trimmed(stderr));
        return Err(AppError::Other(m));
    }
    match texts_of_json(&text::trimmed(stdout)) {
        Ok(v) => Ok(v),
        Err(e) => Err(clipboard_error(e)),
    }
}

/// A pull request is attached unless it is the branch's own already, or attached already.
pub proof fn when_a_pull_request_is_attached(link: RepoLink, number: u32)
    ensures
        attach_fault(link, number) is None <==> !(link.github is Some && link.github->0.pr_number
            == number) && forall|i: int|
            0 <= i < link.attached_prs@.len() ==> (#[trigger] link.attached_prs@[i]).number
                != number,
{
}

/// A workspace is made unless one of its repos is unknown, its directory is taken, or its
/// id is.
pub proof fn when_a_workspace_is_made(
    state: AppState,
    reg: RepoRegistry,
    req: CreateRequest,
    keys: Seq<String>,
    root_exists: bool,
)
    ensures
        create_fault(state, reg, req, keys, root_exists) is None <==> {
            &&& forall|i: int|
                0 <= i < keys.len() ==> exists|r: int|
                    0 <= r < reg.repos@.len() && (#[trigger] reg.repos@[r]).key@ == (
                    #[trigger] keys[i])@
            &&& !root_exists
            &&& forall|w: int|
                0 <= w < state.workspaces@.len() ==> (#[trigger] state.workspaces@[w]).id@
                    != req.id@
        },
{
    registry::the_first_unknown_key_is_found(reg, keys);
    assert forall|i: int| 0 <= i < keys.len() implies (reg.repo_at((#[trigger] keys[i])@) is Some
        <==> exists|r: int|
        0 <= r < reg.repos@.len() && (#[trigger] reg.repos@[r]).key@ == keys[i]@) by {
        registry::a_key_stands_for_its_first_repo(reg, keys[i]);
    }
    list::lemma_first_where(state.workspaces@, state::of_id(req.id@));
}

/// A session, and a worktree, is looked for in the first workspace of the id, and there
/// by its own id or its repo.
pub proof fn where_things_are_looked_for(
    state: AppState,
    workspace_id: Seq<char>,
    id: Seq<char>,
    w: int,
    s: int,
)
    requires
        0 <= w < state.workspaces@.len(),
        state.workspaces@[w].id@ == workspace_id,
        forall|k: int| 0 <= k < w ==> (#[trigger] state.workspaces@[k]).id@ != workspace_id,
        0 <= s,
    ensures
        s < state.workspaces@[w].sessions@.len() && state.workspaces@[w].sessions@[s].id@ == id && (
        forall|k: int| 0 <= k < s ==> (#[trigger] state.workspaces@[w].sessions@[k]).id@ != id)
            ==> session_of(state, workspace_id, id) == Some(state.workspaces@[w].sessions@[s]),
        s < state.workspaces@[w].repo_links@.len() && state.workspaces@[w].repo_links@[s].repo_key@
            == id && (forall|k: int|
            0 <= k < s ==> (#[trigger] state.workspaces@[w].repo_links@[k]).repo_key@ != id)
            ==> worktree_of(state, workspace_id, id) == Some(
            state.workspaces@[w].repo_links@[s].worktree_path,
        ),
        (forall|k: int|
            0 <= k < state.workspaces@[w].sessions@.len() ==> (
            #[trigger] state.workspaces@[w].sessions@[k]).id@ != id) ==> session_of(
            state,
            workspace_id,
            id,
        ) is None,
{
    state::a_workspace_is_found_by_its_id(state.workspaces@, workspace_id, w);
    let ws = state.workspaces@[w];
    if s < ws.sessions@.len() && ws.sessions@[s].id@ == id && (forall|k: int|
        0 <= k < s ==> (#[trigger] ws.sessions@[k]).id@ != id) {
        state::a_session_is_found_by_its_id(ws.sessions@, id, s);
    }
    if s < ws.repo_links@.len() && ws.repo_links@[s].repo_key@ == id && (forall|k: int|
        0 <= k < s ==> (#[trigger] ws.repo_links@[k]).repo_key@ != id) {
        state::a_link_is_found_by_its_repo(ws.repo_links@, id, s);
    }
    if forall|k: int| 0 <= k < ws.sessions@.len() ==> (#[trigger] ws.sessions@[k]).id@ != id {
        state::a_session_is_found_by_its_id(ws.sessions@, id, ws.sessions@.len() as int);
    }
}

/// A change to one workspace leaves every other as it was.
pub proof fn one_workspace_changes(
    before: AppState,
    after: AppState,
    i: int,
    ws: Workspace,
    k: int,
)
    requires
        with_workspace(before, after, i, ws),
        0 <= i < before.workspaces@.len(),
        0 <= k < before.workspaces@.len(),
    ensures
        after.workspaces@.len() == before.workspaces@.len(),
        after.workspaces@[i] == ws,
        k != i ==> after.workspaces@[k] == before.workspaces@[k],
{
}

/// A repo that is added goes into the workspace's own directory, under its key.
pub proof fn an_added_repo_goes_under_its_key(ws: Workspace, reg: RepoRegistry, key: Seq<char>)
    requires
        reg.worktree_root@.len() > 0 && reg.worktree_root@.last() != '/',
        !(reg.worktree_root@.len() >= 2 && reg.worktree_root@.last() == '.'
            && reg.worktree_root@[reg.worktree_root@.len() - 2] == '/'),
        registry::dir_of_branch(ws.branch@).len() > 0,
        registry::dir_of_branch(ws.branch@) != seq!['.'],
        registry::dir_of_branch(ws.branch@) != seq!['.', '.'],
        key.len() > 0 && !key.contains('/') && key != seq!['.'] && key != seq!['.', '.'],
    ensures
        paths::file_name_of(added_path(ws, reg, key)) == Some(key),
        paths::parent_of(added_path(ws, reg, key)) == Some(
            paths::join(reg.worktree_root@, registry::dir_of_branch(ws.branch@)),
        ),
        paths::parent_of(paths::join(reg.worktree_root@, registry::dir_of_branch(ws.branch@)))
            == Some(reg.worktree_root@),
{
    let name = registry::dir_of_branch(ws.branch@);
    registry::a_branch_has_one_directory(ws.branch@);
    paths::a_joined_path_comes_apart(reg.worktree_root@, name);
    let dir = paths::join(reg.worktree_root@, name);
    assert(dir.last() == name.last());
    assert(name.contains(name[name.len() - 1]));
    if name.len() >= 2 {
        assert(name.contains(name[name.len() - 2]));
        assert(dir[dir.len() - 2] == name[name.len() - 2]);
    } else {
        assert(name =~= seq![name[0]]);
    }
    paths::a_joined_path_comes_apart(dir, key);
}

/// The script of a name is the first of that name.
pub proof fn the_first_script_of_a_name(scripts: Seq<(String, String)>, name: String, i: int)
    requires
        0 <= i < scripts.len(),
        scripts[i].0@ == name@,
        forall|k: int| 0 <= k < i ==> (#[trigger] scripts[k]).0@ != name@,
    ensures
        script_of(scripts, name@) == Some(scripts[i]),
{
    list::lemma_first_where_is(scripts, |s: (String, String)| s.0@ == name@, i);
}

/// A workspace that is asked for by hand has the id, the branch and the program that
/// were asked for; it is being made, in no folder, and holds nothing yet.
pub proof fn a_new_workspace_holds_nothing(w: Workspace, req: CreateRequest, now: i64)
    requires
        is_ui_draft(w, req, now),
    ensures
        w.id == req.id && w.branch == req.branch && w.claude_binary == req.claude_binary,
        w.origin is Ui && w.folder is None && w.status is Creating && w.created_at == now,
        w.repo_links@.len() == 0 && w.sessions@.len() == 0 && w.script_runs@.len() == 0
            && w.artifacts@.len() == 0 && w.notes@.len() == 0,
        w.deleted_at is None && w.archived_at is None && w.blocked_by is None && w.dev_servers
            is None,
{
}

/// Who cannot attach a pull request is told why: that it is the branch's own, or which
/// repo it is attached to, each by its number.
pub proof fn why_a_pull_request_is_not_attached(link: RepoLink, number: u32)
    ensures
        link.github is Some && link.github->0.pr_number == number ==> attach_fault(link, number)
            == Some(
            "PR #"@ + text::dec(number as nat)
                + " is already tracked as this workspace's branch PR"@,
        ),
        (link.github is None || link.github->0.pr_number != number) && (exists|i: int|
            0 <= i < link.attached_prs@.len() && (#[trigger] link.attached_prs@[i]).number
                == number) ==> attach_fault(link, number) == Some(
            "PR #"@ + text::dec(number as nat) + " is already attached to "@ + link.repo_key@,
        ),
{
}

/// Who cannot make a workspace is told why: the repo that is unknown, by its key; else
/// the directory that is taken, by its path; else the id.
pub proof fn why_a_workspace_is_not_made(
    state: AppState,
    reg: RepoRegistry,
    req: CreateRequest,
    keys: Seq<String>,
)
    ensures
        reg.first_unknown(keys) matches Some(k) ==> create_fault(state, reg, req, keys, true)
            == Some("unknown repo key: "@ + k@) && create_fault(state, reg, req, keys, false)
            == Some("unknown repo key: "@ + k@),
        reg.first_unknown(keys) is None ==> (create_fault(state, reg, req, keys, true) matches Some(
            why,
        ) && "a worktree directory already exists at "@.is_prefix_of(why)),
        reg.first_unknown(keys) is None && state.workspace_at(req.id@) is Some ==> (create_fault(
            state,
            reg,
            req,
            keys,
            false,
        ) matches Some(why) && why == "workspace_id collision: "@ + req.id@
            + " is already in state"@),
{
    let p = "a worktree directory already exists at "@;
    let path = paths::join(reg.worktree_root@, registry::dir_of_branch(req.branch@));
    let end = ". Pick a different branch name, or remove the existing directory first."@;
    assert((p + path + end).take(p.len() as int) =~= p);
}

} // verus!
