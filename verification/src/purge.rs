//! Tearing down workspaces that were deleted.
//!
//! Deleting a workspace only marks it. An hour later it is torn down in the
//! background, so that a deletion can be taken back.

use vstd::prelude::*;

use crate::error::AppError;
use crate::ids;
use crate::list;
use crate::paths::Paths;
use crate::state::{AppState, RepoLink, SystemErrorEntry, Workspace};
use crate::text;

verus! {

/// How long a workspace stays after it was deleted, in milliseconds.
pub const PURGE_GRACE_MS: i64 = 3_600_000;

/// How many errors the log keeps.
pub const MAX_ENTRIES: usize = 200;

/// Whether a workspace was deleted long enough ago to be torn down.
pub open spec fn is_due(ws: Workspace, now: i64) -> bool {
    ws.deleted_at matches Some(t) && t <= now - PURGE_GRACE_MS
}

/// The ids of the workspaces that are to be torn down.
pub open spec fn due_ids(workspaces: Seq<Workspace>, now: i64) -> Seq<Seq<char>>
    decreases workspaces.len(),
{
    if workspaces.len() == 0 {
        seq![]
    } else {
        let before = due_ids(workspaces.drop_last(), now);
        if is_due(workspaces.last(), now) {
            before.push(workspaces.last().id@)
        } else {
            before
        }
    }
}

/// The workspaces that are to be torn down now, by their ids.
pub fn candidates(state: &AppState, now: i64) -> (r: Vec<String>)
    ensures
        text::views(r@) == due_ids(state.workspaces@, now),
{
    let ghost all = state.workspaces@;
    let mut ids: Vec<String> = Vec::new();
    let mut i: usize = 0;
    assert(text::views(ids@) =~= due_ids(all.take(0), now));
    while i < state.workspaces.len()
        invariant
            i <= state.workspaces.len(),
            all == state.workspaces@,
            text::views(ids@) == due_ids(all.take(i as int), now),
        decreases state.workspaces.len() - i,
    {
        let ghost had = text::views(ids@);
        proof {
            assert(all.take(i + 1).drop_last() =~= all.take(i as int));
            assert(all.take(i + 1).last() == all[i as int]);
        }
        let ws = &state.workspaces[i];
        if let Some(t) = ws.deleted_at {
            if (t as i128) <= (now as i128) - (PURGE_GRACE_MS as i128) {
                ids.push(ws.id.clone());
                assert(text::views(ids@) =~= had.push(ws.id@));
            }
        }
        i = i + 1;
    }
    assert(all.take(i as int) =~= all);
    ids
}

/// What is to be done about one repository of a workspace.
pub enum LinkPurge {
    /// There is nothing left of it, or it is to stay.
    Skip,
    /// The clone is gone, so git cannot be asked: remove the directory.
    RemoveDir(String),
    /// Have git remove the worktree, and then the branch, if there is one given.
    RemoveWorktree { clone: String, worktree: String, branch: Option<String> },
}

/// Decide what is to be done about one repository of a workspace. Only a branch
/// that was made for the workspace goes with it, and nothing of a workspace that was
/// not deleted.
pub fn purge_link(
    paths: &Paths,
    ws: &Workspace,
    link: &RepoLink,
    worktree_present: bool,
    clone_present: bool,
) -> (r: LinkPurge)
    ensures
        if ws.deleted_at is None || !worktree_present {
            r is Skip
        } else if !clone_present {
            r matches LinkPurge::RemoveDir(d) && d@ == link.worktree_path@
        } else {
            &&& r matches LinkPurge::RemoveWorktree { clone, worktree, branch }
            &&& clone@ == paths.clone_of(link.repo_key@)
            &&& worktree@ == link.worktree_path@
            &&& text::maybe(branch) == if link.created_branch {
                Some(ws.branch@)
            } else {
                None
            }
        },
{
    if ws.deleted_at.is_none() || !worktree_present {
        return LinkPurge::Skip;
    }
    if !clone_present {
        return LinkPurge::RemoveDir(link.worktree_path.clone());
    }
    LinkPurge::RemoveWorktree {
        clone: paths.repo_clone_path(&link.repo_key),
        worktree: link.worktree_path.clone(),
        branch: if link.created_branch {
            Some(ws.branch.clone())
        } else {
            None
        },
    }
}

/// A directory that could not be removed.
pub fn remove_failed(path: &str, cause: &str) -> (r: AppError)
    ensures
        r.says("failed to remove "@ + path@ + ": "@ + cause@),
{
    let mut m = text::cat3("failed to remove ", path, ": ");
    m.append(cause);
    AppError::Other(m)
}

/// The directory around the worktrees, where it is to be removed too: the workspace
/// must have been deleted, and the directory must be there, and in the place where
/// worktrees are made.
pub fn root_to_remove(
    ws: &Workspace,
    registry_loaded: bool,
    root_present: bool,
    under_worktree_root: bool,
) -> (r: Option<String>)
    ensures
        text::maybe(r) == if ws.deleted_at is Some && registry_loaded && root_present
            && under_worktree_root {
            ws.root_path()
        } else {
            None
        },
{
    if ws.deleted_at.is_some() && registry_loaded && root_present && under_worktree_root {
        ws.root_buf()
    } else {
        None
    }
}

/// Whether a workspace goes by this id that was not deleted.
pub open spec fn lives(workspaces: Seq<Workspace>, id: Seq<char>) -> bool {
    exists|i: int|
        0 <= i < workspaces.len() && (#[trigger] workspaces[i]).id@ == id
            && workspaces[i].deleted_at is None
}

/// Forget a workspace that was torn down. One that was not deleted stays.
pub fn purge_workspace(state: &mut AppState, id: &str)
    ensures
        final(state).system_errors == old(state).system_errors,
        final(state).workspaces@ == (if lives(old(state).workspaces@, id@) {
            old(state).workspaces@
        } else {
            old(state).workspaces@.filter(|w: Workspace| w.id@ != id@)
        }),
{
    let alive = |w: &Workspace| -> (b: bool)
        ensures
            b == (w.id@ == id@ && w.deleted_at is None),
        { text::same(&w.id, id) && w.deleted_at.is_none() };
    let found: Option<usize> = list::position(
        &state.workspaces,
        alive,
        Ghost(|w: Workspace| w.id@ == id@ && w.deleted_at is None),
    );
    if found.is_some() {
        return ;
    }
    let other = |w: &Workspace| -> (b: bool)
        ensures
            b == (w.id@ != id@),
        { !text::same(&w.id, id) };
    list::keep(&mut state.workspaces, other, Ghost(|w: Workspace| w.id@ != id@));
}

/// The entry in the log for a workspace that could not be torn down.
pub fn purge_error(ws: &Workspace, at: i64, e: &AppError) -> (r: SystemErrorEntry)
    ensures
        r.id@.len() == 36,
        r.at == at,
        r.kind@ == "purge"@,
        r.message@ == e.text(),
        text::maybe(r.workspace_id) == Some(ws.id@),
        text::maybe(r.workspace_branch) == Some(ws.branch@),
{
    SystemErrorEntry {
        id: ids::fresh_id(),
        at,
        kind: "purge".to_owned(),
        message: e.message(),
        workspace_id: Some(ws.id.clone()),
        workspace_branch: Some(ws.branch.clone()),
    }
}

/// The last of some entries, as many as the log keeps.
pub open spec fn latest(entries: Seq<SystemErrorEntry>) -> Seq<SystemErrorEntry> {
    if entries.len() > MAX_ENTRIES {
        entries.skip(entries.len() - MAX_ENTRIES)
    } else {
        entries
    }
}

/// Put an entry into the log, which keeps only the latest ones.
pub fn record_system_error(state: &mut AppState, entry: SystemErrorEntry)
    ensures
        final(state).workspaces == old(state).workspaces,
        final(state).system_errors@ == latest(old(state).system_errors@.push(entry)),
{
    let ghost all = state.system_errors@.push(entry);
    state.system_errors.push(entry);
    assert(all.skip(0) =~= all);
    let ghost mut dropped: int = 0;
    while state.system_errors.len() > MAX_ENTRIES
        invariant
            state.workspaces == old(state).workspaces,
            0 <= dropped <= all.len(),
            state.system_errors@ == all.skip(dropped),
            dropped > 0 ==> all.len() - dropped >= MAX_ENTRIES,
        decreases state.system_errors.len(),
    {
        state.system_errors.remove(0);
        proof {
            assert(all.skip(dropped).remove(0) =~= all.skip(dropped + 1));
            dropped = dropped + 1;
        }
    }
}

/// A workspace that was not deleted, or not long ago, is not torn down.
pub proof fn only_deleted_workspaces_are_purged(
    workspaces: Seq<Workspace>,
    now: i64,
    id: Seq<char>,
)
    requires
        forall|i: int|
            0 <= i < workspaces.len() && (#[trigger] workspaces[i]).id@ == id ==> !is_due(
                workspaces[i],
                now,
            ),
    ensures
        !due_ids(workspaces, now).contains(id),
    decreases workspaces.len(),
{
    if workspaces.len() > 0 {
        let rest = workspaces.drop_last();
        let last = workspaces[workspaces.len() - 1];
        assert forall|i: int| 0 <= i < rest.len() && (#[trigger] rest[i]).id@ == id implies !is_due(
            rest[i],
            now,
        ) by {
            assert(workspaces[i] == rest[i]);
        }
        only_deleted_workspaces_are_purged(rest, now, id);
        let before = due_ids(rest, now);
        if due_ids(workspaces, now).contains(id) {
            let k = choose|k: int|
                0 <= k < due_ids(workspaces, now).len() && due_ids(workspaces, now)[k] == id;
            if k < before.len() {
                assert(before[k] == id);
            }
        }
    }
}

/// The log never has more entries than it keeps, and the last one is the latest.
pub proof fn the_log_is_bounded(entries: Seq<SystemErrorEntry>, entry: SystemErrorEntry)
    ensures
        latest(entries.push(entry)).len() <= MAX_ENTRIES,
        latest(entries.push(entry)).last() == entry,
{
}

/// A workspace is purged an hour after it was deleted, and not before: one that was
/// deleted an hour ago or longer is due.
pub proof fn a_deleted_workspace_is_purged_after_an_hour(
    workspaces: Seq<Workspace>,
    now: i64,
    i: int,
)
    requires
        0 <= i < workspaces.len(),
        workspaces[i].deleted_at is Some,
        workspaces[i].deleted_at->0 + 3_600_000 <= now,
    ensures
        due_ids(workspaces, now).contains(workspaces[i].id@),
    decreases workspaces.len(),
{
    let rest = workspaces.drop_last();
    let before = due_ids(rest, now);
    let all = due_ids(workspaces, now);
    if i < rest.len() {
        a_deleted_workspace_is_purged_after_an_hour(rest, now, i);
        let k = choose|k: int| 0 <= k < before.len() && before[k] == rest[i].id@;
        assert(all[k] == workspaces[i].id@);
    } else {
        assert(all[before.len() as int] == workspaces[i].id@);
    }
}

/// Nothing else is purged: what is due is the id of a workspace that was deleted an hour
/// ago or longer.
pub proof fn nothing_is_purged_before_its_hour(
    workspaces: Seq<Workspace>,
    now: i64,
    k: int,
)
    requires
        0 <= k < due_ids(workspaces, now).len(),
    ensures
        due_ids(workspaces, now).len() <= workspaces.len(),
        exists|i: int|
            0 <= i < workspaces.len() && (#[trigger] workspaces[i]).id@ == due_ids(workspaces, now)[k]
                && workspaces[i].deleted_at is Some && workspaces[i].deleted_at->0 + 3_600_000
                <= now,
    decreases workspaces.len(),
{
    let rest = workspaces.drop_last();
    let before = due_ids(rest, now);
    if before.len() > 0 {
        nothing_is_purged_before_its_hour(
            rest,
            now,
            if k < before.len() {
                k
            } else {
                0
            },
        );
    }
    if k < before.len() {
        let i = choose|i: int|
            0 <= i < rest.len() && (#[trigger] rest[i]).id@ == before[k] && rest[i].deleted_at
                is Some && rest[i].deleted_at->0 + 3_600_000 <= now;
        assert(workspaces[i] == rest[i]);
    } else {
        assert(workspaces[workspaces.len() - 1] == workspaces.last());
    }
}

/// The log keeps its two hundred newest entries, in their order, and loses none while
/// there are fewer.
pub proof fn the_newest_entries_are_kept(entries: Seq<SystemErrorEntry>)
    ensures
        entries.len() <= 200 ==> latest(entries) == entries,
        entries.len() > 200 ==> latest(entries).len() == 200,
        forall|k: int|
            0 <= k < latest(entries).len() ==> #[trigger] latest(entries)[k] == entries[entries.len()
                - latest(entries).len() + k],
{
}

/// A workspace lives where it is there and was not deleted.
pub proof fn which_workspaces_live(workspaces: Seq<Workspace>, id: Seq<char>, i: int)
    requires
        0 <= i < workspaces.len(),
    ensures
        workspaces[i].id@ == id && workspaces[i].deleted_at is None ==> lives(workspaces, id),
        (forall|k: int|
            0 <= k < workspaces.len() ==> (#[trigger] workspaces[k]).id@ != id
                || workspaces[k].deleted_at is Some) ==> !lives(workspaces, id),
{
}

} // verus!
