//! What is shown of the memory: the machine's, and that of each workspace's dev
//! servers.

use vstd::prelude::*;

use crate::dev_orchestrator;
use crate::dev_orchestrator::config::OrchestratorConfig;
use crate::dev_orchestrator::pressure;
use crate::dev_orchestrator::pressure::SystemMemory;
use crate::dev_orchestrator::stats;
use crate::dev_orchestrator::stats::WorkspaceMemory;
use crate::hash;
use crate::state::{AppState, Workspace};
use crate::text;

verus! {

/// How often the memory is looked at, in milliseconds.
pub const POLL_INTERVAL_MS: u64 = 5_000;

pub struct MemorySnapshot {
    pub system: SystemMemory,
    pub per_workspace: Vec<WorkspaceMemory>,
}

/// What is asked about a workspace: its id, the suffix of its servers, and where its
/// frontend is. One that was deleted, or has no frontend, has no servers.
pub open spec fn asked_of(ws: Workspace, fe_key: Seq<char>) -> Option<
    (Seq<char>, Seq<char>, Seq<char>),
> {
    if ws.deleted_at is Some {
        None
    } else {
        match ws.link_at(fe_key) {
            Some(i) => Some(
                (
                    ws.id@,
                    dev_orchestrator::short_of(ws.branch@, hash::default_hash(ws.branch@)),
                    ws.repo_links@[i].worktree_path@,
                ),
            ),
            None => None,
        }
    }
}

/// What is asked about the workspaces.
pub open spec fn asked(workspaces: Seq<Workspace>, fe_key: Seq<char>) -> Seq<
    (Seq<char>, Seq<char>, Seq<char>),
>
    decreases workspaces.len(),
{
    if workspaces.len() == 0 {
        seq![]
    } else {
        let before = asked(workspaces.drop_last(), fe_key);
        match asked_of(workspaces.last(), fe_key) {
            Some(a) => before.push(a),
            None => before,
        }
    }
}

/// Triples by their texts.
pub open spec fn triples(v: Seq<(String, String, String)>) -> Seq<
    (Seq<char>, Seq<char>, Seq<char>),
> {
    v.map_values(|t: (String, String, String)| (t.0@, t.1@, t.2@))
}

/// The workspaces whose dev servers are looked at.
pub fn polled(state: &AppState, cfg: &OrchestratorConfig) -> (r: Vec<(String, String, String)>)
    ensures
        triples(r@) == asked(state.workspaces@, cfg.fe_repo_key@),
{
    let ghost all = state.workspaces@;
    let ghost key = cfg.fe_repo_key@;
    let mut out: Vec<(String, String, String)> = Vec::new();
    let mut i: usize = 0;
    assert(triples(out@) =~= asked(all.take(0), key));
    while i < state.workspaces.len()
        invariant
            i <= state.workspaces.len(),
            all == state.workspaces@,
            key == cfg.fe_repo_key@,
            triples(out@) == asked(all.take(i as int), key),
        decreases state.workspaces.len() - i,
    {
        let ghost had = triples(out@);
        proof {
            assert(all.take(i + 1).drop_last() =~= all.take(i as int));
            assert(all.take(i + 1).last() == all[i as int]);
        }
        let ws = &state.workspaces[i];
        if ws.deleted_at.is_none() {
            if let Some(l) = ws.link(&cfg.fe_repo_key) {
                let short = dev_orchestrator::short_from_branch(&ws.branch);
                let t = (ws.id.clone(), short, l.worktree_path.clone());
                out.push(t);
                assert(triples(out@) =~= had.push((t.0@, t.1@, t.2@)));
            }
        }
        i = i + 1;
    }
    assert(all.take(i as int) =~= all);
    out
}

/// What the commands printed by which the memory is read; `None` for one that did
/// not run.
pub struct Printed<'a> {
    pub level: Option<&'a str>,
    pub memsize: Option<&'a str>,
    pub vm_stat: Option<&'a str>,
    pub docker_stats: Option<&'a str>,
    pub ps: Option<&'a str>,
}

/// The memory of the machine, and of the dev servers of the workspaces.
pub fn snapshot_now(
    cfg: &OrchestratorConfig,
    workspaces: &[(String, String, String)],
    printed: &Printed,
) -> (r: MemorySnapshot)
    ensures
        r.system.level == pressure::level_of(text::given(printed.level)),
        r.system.total_mib == pressure::total_of(text::given(printed.memsize)),
        ({
            let used = match printed.vm_stat {
                Some(s) => pressure::used_of(pressure::pages_in(text::lines(s@))),
                None => 0,
            };
            &&& r.system.free_mib == if used > r.system.total_mib {
                0
            } else {
                r.system.total_mib - used
            }
            &&& r.system.free_pct == if r.system.total_mib == 0 {
                0
            } else {
                (r.system.free_mib * 100) / r.system.total_mib as int
            }
        }),
        r.per_workspace@.len() == workspaces@.len(),
        forall|i: int|
            0 <= i < workspaces@.len() ==> stats::is_memory_of(
                #[trigger] r.per_workspace@[i],
                *cfg,
                workspaces@[i],
                stats::lines_of(text::given(printed.docker_stats)),
                stats::lines_of(text::given(printed.ps)),
            ),
{
    MemorySnapshot {
        system: pressure::current(printed.level, printed.memsize, printed.vm_stat),
        per_workspace: stats::workspace_memory(
            cfg,
            workspaces,
            printed.docker_stats,
            printed.ps,
        ),
    }
}

/// Every workspace that was not deleted and has the frontend's repo is asked about, in
/// the worktree that it has it in; no other is.
pub proof fn live_workspaces_are_asked_about(
    workspaces: Seq<Workspace>,
    fe_key: Seq<char>,
    w: int,
    l: int,
)
    requires
        0 <= w < workspaces.len(),
        workspaces[w].deleted_at is None,
        0 <= l < workspaces[w].repo_links@.len(),
        workspaces[w].repo_links@[l].repo_key@ == fe_key,
        forall|k: int|
            0 <= k < l ==> (#[trigger] workspaces[w].repo_links@[k]).repo_key@ != fe_key,
    ensures
        exists|k: int|
            0 <= k < asked(workspaces, fe_key).len() && (#[trigger] asked(workspaces, fe_key)[k]).0
                == workspaces[w].id@ && asked(workspaces, fe_key)[k].2
                == workspaces[w].repo_links@[l].worktree_path@,
    decreases workspaces.len(),
{
    let rest = workspaces.drop_last();
    let before = asked(rest, fe_key);
    let all = asked(workspaces, fe_key);
    if w < rest.len() {
        live_workspaces_are_asked_about(rest, fe_key, w, l);
        let k = choose|k: int|
            0 <= k < before.len() && (#[trigger] before[k]).0 == workspaces[w].id@ && before[k].2
                == workspaces[w].repo_links@[l].worktree_path@;
        assert(all[k] == before[k]);
    } else {
        crate::state::a_link_is_found_by_its_repo(workspaces[w].repo_links@, fe_key, l);
        assert(all[before.len() as int].0 == workspaces[w].id@);
    }
}

/// A deleted workspace is not asked about, nor one that has not the frontend's repo.
pub proof fn other_workspaces_are_not_asked_about(
    workspaces: Seq<Workspace>,
    fe_key: Seq<char>,
    k: int,
)
    requires
        0 <= k < asked(workspaces, fe_key).len(),
    ensures
        exists|w: int|
            0 <= w < workspaces.len() && (#[trigger] workspaces[w]).id@ == asked(
                workspaces,
                fe_key,
            )[k].0 && workspaces[w].deleted_at is None && workspaces[w].link_at(fe_key) is Some,
    decreases workspaces.len(),
{
    let rest = workspaces.drop_last();
    let before = asked(rest, fe_key);
    if k < before.len() {
        other_workspaces_are_not_asked_about(rest, fe_key, k);
        let w = choose|w: int|
            0 <= w < rest.len() && (#[trigger] rest[w]).id@ == before[k].0 && rest[w].deleted_at
                is None && rest[w].link_at(fe_key) is Some;
        assert(workspaces[w] == rest[w]);
    } else {
        assert(workspaces[workspaces.len() - 1] == workspaces.last());
    }
}

} // verus!
