//! Starting and stopping the dev servers of a workspace, and what is kept of them.

use vstd::prelude::*;

use crate::dev_orchestrator::config::OrchestratorConfig;
use crate::dev_orchestrator::{PrepResult, ServicePrep};
use crate::error::AppError;
use crate::list;
use crate::sessions::{self, SessionInfo};
use crate::state::{AppState, ClaudeSessionMeta, DevServersMeta, SessionKind, Workspace};
use crate::text;

verus! {

/// How one of the servers is.
pub struct ServiceLiveState {
    pub session_id: Option<String>,
    pub running: bool,
    pub port: Option<u16>,
}

/// How the dev servers of a workspace are.
pub struct DevStateSnapshot {
    pub workspace_id: String,
    pub fe: Option<ServiceLiveState>,
    pub be: Option<ServiceLiveState>,
    /// Where the frontend sends its requests.
    pub fe_proxy_target: Option<String>,
}

/// Whether a session is no dev server.
pub open spec fn not_dev() -> spec_fn(ClaudeSessionMeta) -> bool {
    |m: ClaudeSessionMeta| m.kind is Claude
}

/// Find the workspace whose dev servers are to be started. They run in tmux.
pub fn check_start(state: &AppState, tmux_bin: &str, workspace_id: &str) -> (r: Result<
    usize,
    AppError,
>)
    ensures
        if tmux_bin@.len() == 0 {
            r matches Err(e) && e.says(
                "tmux not found — install with `brew install tmux` and restart Tethys"@,
            )
        } else {
            match state.workspace_at(workspace_id@) {
                Some(i) => r matches Ok(k) && k == i && k < state.workspaces@.len(),
                None => r matches Err(e) && e.lacks_workspace(workspace_id@),
            }
        },
{
    if tmux_bin.is_empty() {
        return Err(
            AppError::Other(
                "tmux not found — install with `brew install tmux` and restart Tethys".to_owned(),
            ),
        );
    }
    match state.workspace_index(workspace_id) {
        Some(i) => Ok(i),
        None => Err(AppError::WorkspaceNotFound(workspace_id.to_owned())),
    }
}

/// Whether this is what is kept of a server's session.
pub open spec fn is_session_of(
    m: ClaudeSessionMeta,
    kind: SessionKind,
    repo_key: Seq<char>,
    s: ServicePrep,
) -> bool {
    &&& m.id@ == s.session_id@
    &&& m.kind == kind
    &&& text::maybe(m.repo_key) == Some(repo_key)
    &&& m.cwd@ == s.cwd@
    &&& m.claude_session_id is None
    &&& m.transcript_path is None
    &&& m.claude_binary is None
    &&& !m.hidden
    &&& m.runtime_state is None
    &&& m.notification_type is None
    &&& !m.turn_acknowledged
}

fn session_of(kind: SessionKind, repo_key: &str, s: &ServicePrep) -> (r: ClaudeSessionMeta)
    ensures
        is_session_of(r, kind, repo_key@, *s),
{
    ClaudeSessionMeta {
        id: s.session_id.clone(),
        kind,
        repo_key: Some(repo_key.to_owned()),
        cwd: s.cwd.clone(),
        claude_session_id: None,
        transcript_path: None,
        claude_binary: None,
        hidden: false,
        runtime_state: None,
        notification_type: None,
        turn_acknowledged: false,
    }
}

/// Whether this is what is kept of the dev servers that were started.
pub open spec fn is_meta_of(d: DevServersMeta, p: PrepResult, started_at: i64) -> bool {
    &&& d.fe_port == p.fe.port
    &&& d.be_port == match p.be {
        Some(b) => Some(b.port),
        None => None,
    }
    &&& text::maybe(d.fe_session_id) == Some(p.fe.session_id@)
    &&& text::maybe(d.be_session_id) == match p.be {
        Some(b) => Some(b.session_id@),
        None => None,
    }
    &&& d.fe_proxy_target@ == p.fe_proxy_target@
    &&& d.started_at == started_at
}

/// What is kept of the dev servers that were started.
pub fn dev_servers_meta(p: &PrepResult, started_at: i64) -> (r: DevServersMeta)
    ensures
        is_meta_of(r, *p, started_at),
{
    let (be_port, be_session_id) = match &p.be {
        Some(b) => (Some(b.port), Some(b.session_id.clone())),
        None => (None, None),
    };
    DevServersMeta {
        fe_port: p.fe.port,
        be_port,
        fe_session_id: Some(p.fe.session_id.clone()),
        be_session_id,
        fe_proxy_target: p.fe_proxy_target.clone(),
        started_at,
    }
}

/// Whether one state is another but for the sessions and the dev servers of one
/// workspace.
pub open spec fn servers_changed(before: AppState, after: AppState, i: int) -> bool {
    let ws = before.workspaces@[i];
    let now = after.workspaces@[i];
    &&& now == (Workspace { sessions: now.sessions, dev_servers: now.dev_servers, ..ws })
    &&& after.workspaces@ == before.workspaces@.update(i, now)
    &&& after.system_errors == before.system_errors
}

/// The sessions once the dev servers were started: those of servers that ran before
/// make way for the new ones.
pub open spec fn sessions_started(
    before: Seq<ClaudeSessionMeta>,
    after: Seq<ClaudeSessionMeta>,
    cfg: OrchestratorConfig,
    p: PrepResult,
) -> bool {
    let kept = before.filter(not_dev());
    let n = kept.len() as int;
    &&& after.len() == n + if p.be is Some {
        2int
    } else {
        1
    }
    &&& after.take(n) == kept
    &&& is_session_of(after[n], SessionKind::FrontendBuild, cfg.fe_repo_key@, p.fe)
    &&& p.be matches Some(b) ==> is_session_of(
        after[n + 1],
        SessionKind::BackendBuild,
        cfg.be_repo_key@,
        b,
    )
}

fn drop_dev_sessions(sessions: &mut Vec<ClaudeSessionMeta>)
    ensures
        final(sessions)@ == old(sessions)@.filter(not_dev()),
{
    let other = |m: &ClaudeSessionMeta| -> (b: bool)
        ensures
            b == (m.kind is Claude),
        {
            match m.kind {
                SessionKind::Claude => true,
                _ => false,
            }
        };
    list::keep(sessions, other, Ghost(not_dev()));
}

/// Keep what there is to know of dev servers that were started.
pub fn start(
    state: &mut AppState,
    workspace_id: &str,
    cfg: &OrchestratorConfig,
    p: &PrepResult,
    started_at: i64,
) -> (r: Result<DevServersMeta, AppError>)
    ensures
        match old(state).workspace_at(workspace_id@) {
            None => *final(state) == *old(state) && (r matches Err(e) && e.lacks_workspace(
                workspace_id@,
            )),
            Some(i) => {
                &&& r matches Ok(d) && is_meta_of(d, *p, started_at)
                &&& servers_changed(*old(state), *final(state), i)
                &&& final(state).workspaces@[i].dev_servers matches Some(d) && is_meta_of(
                    d,
                    *p,
                    started_at,
                )
                &&& sessions_started(
                    old(state).workspaces@[i].sessions@,
                    final(state).workspaces@[i].sessions@,
                    *cfg,
                    *p,
                )
            },
        },
{
    let i: usize = match state.workspace_index(workspace_id) {
        Some(i) => i,
        None => {
            return Err(AppError::WorkspaceNotFound(workspace_id.to_owned()));
        },
    };
    let ghost before = state.workspaces@[i as int].sessions@;
    let fe = session_of(SessionKind::FrontendBuild, &cfg.fe_repo_key, &p.fe);
    let ws = &mut state.workspaces[i];
    drop_dev_sessions(&mut ws.sessions);
    let ghost kept = ws.sessions@;
    ws.sessions.push(fe);
    if let Some(b) = &p.be {
        ws.sessions.push(session_of(SessionKind::BackendBuild, &cfg.be_repo_key, b));
    }
    assert(ws.sessions@.take(kept.len() as int) =~= kept);
    ws.dev_servers = Some(dev_servers_meta(p, started_at));
    Ok(dev_servers_meta(p, started_at))
}

/// The workspace that a server's session belongs to, which its name tells.
pub open spec fn workspace_of_session(session_id: Seq<char>) -> Seq<char> {
    match text::strip_prefix(session_id, "tethys-fe-"@) {
        Some(rest) => rest,
        None => match text::strip_prefix(session_id, "tethys-be-"@) {
            Some(rest) => rest,
            None => session_id,
        },
    }
}

pub fn workspace_id_from_session(session_id: &str) -> (r: String)
    ensures
        r@ == workspace_of_session(session_id@),
{
    if let Some(rest) = text::without_prefix(session_id, "tethys-fe-") {
        return rest;
    }
    if let Some(rest) = text::without_prefix(session_id, "tethys-be-") {
        return rest;
    }
    session_id.to_owned()
}

/// The ids of the sessions that dev servers run in.
pub open spec fn dev_sessions(sessions: Seq<ClaudeSessionMeta>) -> Seq<Seq<char>>
    decreases sessions.len(),
{
    if sessions.len() == 0 {
        seq![]
    } else {
        let before = dev_sessions(sessions.drop_last());
        if sessions.last().kind is Claude {
            before
        } else {
            before.push(sessions.last().id@)
        }
    }
}

/// The sessions that are killed with a workspace's dev servers.
pub fn sessions_to_kill(ws: &Workspace) -> (r: Vec<String>)
    ensures
        text::views(r@) == dev_sessions(ws.sessions@),
{
    let ghost all = ws.sessions@;
    let mut ids: Vec<String> = Vec::new();
    let mut i: usize = 0;
    assert(text::views(ids@) =~= dev_sessions(all.take(0)));
    while i < ws.sessions.len()
        invariant
            i <= ws.sessions.len(),
            all == ws.sessions@,
            text::views(ids@) == dev_sessions(all.take(i as int)),
        decreases ws.sessions.len() - i,
    {
        let ghost had = text::views(ids@);
        proof {
            assert(all.take(i + 1).drop_last() =~= all.take(i as int));
            assert(all.take(i + 1).last() == all[i as int]);
        }
        let m = &ws.sessions[i];
        match m.kind {
            SessionKind::Claude => {},
            _ => {
                ids.push(m.id.clone());
                assert(text::views(ids@) =~= had.push(m.id@));
            },
        }
        i = i + 1;
    }
    assert(all.take(i as int) =~= all);
    ids
}

/// Forget the dev servers of a workspace that were stopped.
pub fn stop(state: &mut AppState, workspace_id: &str) -> (r: Result<(), AppError>)
    ensures
        match old(state).workspace_at(workspace_id@) {
            None => *final(state) == *old(state) && (r matches Err(e) && e.lacks_workspace(
                workspace_id@,
            )),
            Some(i) => r is Ok && servers_changed(*old(state), *final(state), i)
                && final(state).workspaces@[i].dev_servers is None
                && final(state).workspaces@[i].sessions@
                == old(state).workspaces@[i].sessions@.filter(not_dev()),
        },
{
    let i: usize = match state.workspace_index(workspace_id) {
        Some(i) => i,
        None => {
            return Err(AppError::WorkspaceNotFound(workspace_id.to_owned()));
        },
    };
    let ws = &mut state.workspaces[i];
    drop_dev_sessions(&mut ws.sessions);
    ws.dev_servers = None;
    Ok(())
}

fn is_running(live: &[SessionInfo], id: &str) -> (r: bool)
    ensures
        r == sessions::runs(live@, id@),
{
    let mut i: usize = 0;
    while i < live.len()
        invariant
            i <= live.len(),
            forall|k: int|
                0 <= k < i ==> !((#[trigger] live@[k]).id@ == id@ && live@[k].running),
        decreases live.len() - i,
    {
        if live[i].running && text::same(&live[i].id, id) {
            assert(live@[i as int].id@ == id@);
            return true;
        }
        i = i + 1;
    }
    false
}

/// Whether this is how a server is.
pub open spec fn is_state_of(
    s: Option<ServiceLiveState>,
    session_id: Option<String>,
    port: Option<u16>,
    live: Seq<SessionInfo>,
) -> bool {
    match session_id {
        None => s is None,
        Some(id) => s matches Some(l) && text::maybe(l.session_id) == Some(id@) && l.running
            == sessions::runs(live, id@) && l.port == port,
    }
}

fn service_state(session_id: &Option<String>, port: Option<u16>, live: &[SessionInfo]) -> (r:
    Option<ServiceLiveState>)
    ensures
        is_state_of(r, *session_id, port, live@),
{
    match session_id {
        None => None,
        Some(id) => Some(
            ServiceLiveState {
                session_id: Some(id.clone()),
                running: is_running(live, id),
                port,
            },
        ),
    }
}

/// How the dev servers of a workspace are: what is kept of them, and which of their
/// sessions still run.
pub fn snapshot(state: &AppState, live: &[SessionInfo], workspace_id: &str) -> (r: Result<
    DevStateSnapshot,
    AppError,
>)
    ensures
        match state.workspace_at(workspace_id@) {
            None => r matches Err(e) && e.lacks_workspace(workspace_id@),
            Some(i) => {
                &&& r matches Ok(s)
                &&& s.workspace_id@ == workspace_id@
                &&& match state.workspaces@[i].dev_servers {
                    None => s.fe is None && s.be is None && s.fe_proxy_target is None,
                    Some(d) => is_state_of(s.fe, d.fe_session_id, Some(d.fe_port), live@)
                        && is_state_of(s.be, d.be_session_id, d.be_port, live@) && text::maybe(
                        s.fe_proxy_target,
                    ) == Some(d.fe_proxy_target@),
                }
            },
        },
{
    let i: usize = match state.workspace_index(workspace_id) {
        Some(i) => i,
        None => {
            return Err(AppError::WorkspaceNotFound(workspace_id.to_owned()));
        },
    };
    let (fe, be, fe_proxy_target) = match &state.workspaces[i].dev_servers {
        None => (None, None, None),
        Some(d) => (
            service_state(&d.fe_session_id, Some(d.fe_port), live),
            service_state(&d.be_session_id, d.be_port, live),
            Some(d.fe_proxy_target.clone()),
        ),
    };
    Ok(DevStateSnapshot { workspace_id: workspace_id.to_owned(), fe, be, fe_proxy_target })
}

/// Where to look for changes to the backend of a workspace.
pub fn detect_be_changes(state: &AppState, workspace_id: &str, cfg: &OrchestratorConfig) -> (r:
    Result<String, AppError>)
    ensures
        match state.workspace_at(workspace_id@) {
            None => r matches Err(e) && e.lacks_workspace(workspace_id@),
            Some(i) => match state.workspaces@[i].link_at(cfg.be_repo_key@) {
                None => r matches Err(e) && e.says(
                    "workspace has no '"@ + cfg.be_repo_key@ + "' repo linked"@,
                ),
                Some(k) => r matches Ok(p) && p@
                    == state.workspaces@[i].repo_links@[k].worktree_path@,
            },
        },
{
    let i: usize = match state.workspace_index(workspace_id) {
        Some(i) => i,
        None => {
            return Err(AppError::WorkspaceNotFound(workspace_id.to_owned()));
        },
    };
    match state.workspaces[i].link(&cfg.be_repo_key) {
        Some(l) => Ok(l.worktree_path.clone()),
        None => Err(
            AppError::Other(
                text::cat3("workspace has no '", &cfg.be_repo_key, "' repo linked"),
            ),
        ),
    }
}

/// The session of a workspace's server names the workspace.
pub proof fn a_server_names_its_workspace(workspace_id: Seq<char>)
    ensures
        workspace_of_session("tethys-fe-"@ + workspace_id) == workspace_id,
        workspace_of_session("tethys-be-"@ + workspace_id) == workspace_id,
{
    reveal_strlit("tethys-fe-");
    reveal_strlit("tethys-be-");
    let fe = "tethys-fe-"@ + workspace_id;
    let be = "tethys-be-"@ + workspace_id;
    assert(fe.take("tethys-fe-"@.len() as int) =~= "tethys-fe-"@);
    assert(fe.skip("tethys-fe-"@.len() as int) =~= workspace_id);
    assert(be.take("tethys-be-"@.len() as int) =~= "tethys-be-"@);
    assert(be.skip("tethys-be-"@.len() as int) =~= workspace_id);
    assert(be[7] == 'b');
    assert("tethys-fe-"@[7] == 'f');
    assert(!"tethys-fe-"@.is_prefix_of(be)) by {
        if "tethys-fe-"@.is_prefix_of(be) {
            assert(be.subrange(0, "tethys-fe-"@.len() as int)[7] == be[7]);
        }
    }
}

/// Stopping the dev servers leaves the sessions that there were before they were
/// started, but for those of servers that ran even then.
pub proof fn stopping_undoes_starting(
    before: Seq<ClaudeSessionMeta>,
    after: Seq<ClaudeSessionMeta>,
    cfg: OrchestratorConfig,
    p: PrepResult,
)
    requires
        sessions_started(before, after, cfg, p),
    ensures
        after.filter(not_dev()) == before.filter(not_dev()),
{
    let q = not_dev();
    let kept = before.filter(q);
    let n = kept.len() as int;
    list::lemma_filter_places(before, q);
    assert forall|i: int| 0 <= i < kept.len() implies q(#[trigger] kept[i]) by {
        let a = list::place_of(before, q, i);
    }
    list::lemma_filter_all(kept, q);
    assert(after.take(n + 1) =~= kept.push(after[n]));
    kept.lemma_filter_push(after[n], q);
    if p.be is Some {
        assert(after =~= kept.push(after[n]).push(after[n + 1]));
        kept.push(after[n]).lemma_filter_push(after[n + 1], q);
    } else {
        assert(after =~= kept.push(after[n]));
    }
}

/// The sessions of the servers are all of a workspace's sessions but the agents' own.
pub proof fn servers_are_no_agents(sessions: Seq<ClaudeSessionMeta>, id: Seq<char>)
    ensures
        dev_sessions(sessions).contains(id) <==> exists|i: int|
            0 <= i < sessions.len() && (#[trigger] sessions[i]).id@ == id && (sessions[i].kind
                is FrontendBuild || sessions[i].kind is BackendBuild),
        dev_sessions(sessions).len() <= sessions.len(),
    decreases sessions.len(),
{
    if sessions.len() > 0 {
        let rest = sessions.drop_last();
        servers_are_no_agents(rest, id);
        let before = dev_sessions(rest);
        let all = dev_sessions(sessions);
        let s = sessions.last();
        if before.contains(id) {
            let k = choose|k: int| 0 <= k < before.len() && before[k] == id;
            assert(all[k] == id);
            let i = choose|i: int|
                0 <= i < rest.len() && (#[trigger] rest[i]).id@ == id && (rest[i].kind
                    is FrontendBuild || rest[i].kind is BackendBuild);
            assert(sessions[i] == rest[i]);
        }
        if !(s.kind is Claude) {
            assert(all[before.len() as int] == s.id@);
            assert(sessions[sessions.len() - 1] == s);
            if all.contains(id) && id != s.id@ {
                let k = choose|k: int| 0 <= k < all.len() && all[k] == id;
                assert(before[k] == id);
            }
        }
        if exists|i: int|
            0 <= i < sessions.len() && (#[trigger] sessions[i]).id@ == id && (sessions[i].kind
                is FrontendBuild || sessions[i].kind is BackendBuild) {
            let i = choose|i: int|
                0 <= i < sessions.len() && (#[trigger] sessions[i]).id@ == id && (sessions[i].kind
                    is FrontendBuild || sessions[i].kind is BackendBuild);
            if i < rest.len() {
                assert(rest[i] == sessions[i]);
            }
        }
    }
}

/// Starting the servers keeps every agent's session, in its order, and puts behind them
/// one for the frontend, in the frontend's repo, and one for the backend in its own,
/// where there is a backend; sessions of servers that ran before are gone.
pub proof fn starting_puts_servers_behind_the_agents(
    before: Seq<ClaudeSessionMeta>,
    after: Seq<ClaudeSessionMeta>,
    cfg: OrchestratorConfig,
    p: PrepResult,
    i: int,
)
    requires
        sessions_started(before, after, cfg, p),
        0 <= i < before.len(),
    ensures
        before[i].kind is Claude ==> after.contains(before[i]),
        forall|k: int|
            0 <= k < after.len() && !((#[trigger] after[k]).kind is Claude) ==> after[k].id@
                == p.fe.session_id@ && after[k].kind is FrontendBuild && after[k].cwd@ == p.fe.cwd@
                && after[k].repo_key is Some && after[k].repo_key->0@ == cfg.fe_repo_key@ || p.be
                is Some && after[k].id@ == p.be->0.session_id@ && after[k].kind is BackendBuild
                && after[k].cwd@ == p.be->0.cwd@ && after[k].repo_key is Some
                && after[k].repo_key->0@ == cfg.be_repo_key@,
        exists|k: int|
            0 <= k < after.len() && (#[trigger] after[k]).kind is FrontendBuild && after[k].id@
                == p.fe.session_id@,
        p.be is Some ==> exists|k: int|
            0 <= k < after.len() && (#[trigger] after[k]).kind is BackendBuild && after[k].id@
                == p.be->0.session_id@,
{
    let kept = before.filter(not_dev());
    let n = kept.len() as int;
    list::lemma_filter_places(before, not_dev());
    if before[i].kind is Claude {
        before.lemma_filter_contains(not_dev(), i);
        let k = choose|k: int| 0 <= k < kept.len() && kept[k] == before[i];
        assert(after.take(n)[k] == before[i]);
        assert(after[k] == before[i]);
    }
    assert forall|k: int| 0 <= k < after.len() && !((#[trigger] after[k]).kind is Claude) implies k
        >= n by {
        if k < n {
            assert(after.take(n)[k] == after[k]);
            let a = list::place_of(before, not_dev(), k);
            assert((not_dev())(kept[k]));
        }
    }
    assert(after[n].kind is FrontendBuild);
    if p.be is Some {
        assert(after[n + 1].kind is BackendBuild);
    }
}

/// What is shown of a server is whether its session is among those that run, and its
/// port; of one that was never started, nothing.
pub proof fn a_server_is_shown_as_it_runs(
    s: Option<ServiceLiveState>,
    session_id: Option<String>,
    port: Option<u16>,
    live: Seq<SessionInfo>,
)
    requires
        is_state_of(s, session_id, port, live),
    ensures
        s is Some <==> session_id is Some,
        s is Some ==> s->0.port == port && s->0.session_id is Some && s->0.session_id->0@
            == session_id->0@,
        s is Some ==> (s->0.running <==> exists|i: int|
            0 <= i < live.len() && (#[trigger] live[i]).id@ == session_id->0@ && live[i].running),
{
}

/// What is kept of the servers are their ports and their sessions, what the frontend
/// talks to, and since when they run.
pub proof fn what_is_kept_of_the_servers(d: DevServersMeta, p: PrepResult, started_at: i64)
    requires
        is_meta_of(d, p, started_at),
    ensures
        d.fe_port == p.fe.port && d.started_at == started_at && d.fe_proxy_target@
            == p.fe_proxy_target@,
        d.fe_session_id is Some && d.fe_session_id->0@ == p.fe.session_id@,
        p.be is Some ==> d.be_port == Some(p.be->0.port) && d.be_session_id is Some
            && d.be_session_id->0@ == p.be->0.session_id@,
        p.be is None ==> d.be_port is None && d.be_session_id is None,
{
}

/// Starting and stopping servers changes the sessions and the servers of the one
/// workspace, and nothing else.
pub proof fn servers_of_one_workspace_change(before: AppState, after: AppState, i: int, k: int)
    requires
        servers_changed(before, after, i),
        0 <= i < before.workspaces@.len(),
        0 <= k < before.workspaces@.len(),
    ensures
        after.workspaces@.len() == before.workspaces@.len(),
        k != i ==> after.workspaces@[k] == before.workspaces@[k],
        after.workspaces@[i].id == before.workspaces@[i].id && after.workspaces@[i].repo_links
            == before.workspaces@[i].repo_links && after.workspaces@[i].branch
            == before.workspaces@[i].branch,
        after.system_errors == before.system_errors,
{
}

} // verus!
