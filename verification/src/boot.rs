//! What is done when the program starts.

use vstd::prelude::*;

use crate::state::{AppState, ClaudeSessionMeta, SessionRuntimeState, Workspace};
use crate::text;

verus! {

/// The ids of the sessions of some workspaces.
pub open spec fn session_ids(workspaces: Seq<Workspace>) -> Seq<Seq<char>>
    decreases workspaces.len(),
{
    if workspaces.len() == 0 {
        seq![]
    } else {
        session_ids(workspaces.drop_last()) + workspaces.last().sessions@.map_values(
            |m: ClaudeSessionMeta| m.id@,
        )
    }
}

fn known_sessions(state: &AppState) -> (r: Vec<String>)
    ensures
        text::views(r@) == session_ids(state.workspaces@),
{
    let ghost all = state.workspaces@;
    let ghost f = |m: ClaudeSessionMeta| m.id@;
    let mut out: Vec<String> = Vec::new();
    let mut i: usize = 0;
    assert(text::views(out@) =~= session_ids(all.take(0)));
    while i < state.workspaces.len()
        invariant
            i <= state.workspaces.len(),
            all == state.workspaces@,
            f == (|m: ClaudeSessionMeta| m.id@),
            text::views(out@) == session_ids(all.take(i as int)),
        decreases state.workspaces.len() - i,
    {
        let ghost had = text::views(out@);
        let ws = &state.workspaces[i];
        proof {
            assert(all.take(i + 1).drop_last() =~= all.take(i as int));
            assert(all.take(i + 1).last() == *ws);
        }
        let mut k: usize = 0;
        assert(text::views(out@) =~= had + ws.sessions@.take(0).map_values(f));
        while k < ws.sessions.len()
            invariant
                k <= ws.sessions.len(),
                f == (|m: ClaudeSessionMeta| m.id@),
                text::views(out@) == had + ws.sessions@.take(k as int).map_values(f),
            decreases ws.sessions.len() - k,
        {
            let ghost so_far = text::views(out@);
            out.push(ws.sessions[k].id.clone());
            assert(text::views(out@) =~= so_far.push(ws.sessions@[k as int].id@));
            k = k + 1;
            assert(text::views(out@) =~= had + ws.sessions@.take(k as int).map_values(f));
        }
        assert(ws.sessions@.take(k as int) =~= ws.sessions@);
        i = i + 1;
    }
    assert(all.take(i as int) =~= all);
    out
}

/// The names that are not among those known.
pub open spec fn strangers(names: Seq<Seq<char>>, known: Seq<Seq<char>>) -> Seq<Seq<char>>
    decreases names.len(),
{
    if names.len() == 0 {
        seq![]
    } else {
        let before = strangers(names.drop_last(), known);
        if known.contains(names.last()) {
            before
        } else {
            before.push(names.last())
        }
    }
}

/// The tmux sessions that are killed: those that no workspace knows of.
pub fn reap_orphan_tmux_sessions(state: &AppState, names: &[String]) -> (r: Vec<String>)
    ensures
        text::views(r@) == strangers(text::views(names@), session_ids(state.workspaces@)),
{
    let known = known_sessions(state);
    let ghost ids = session_ids(state.workspaces@);
    let ghost all = text::views(names@);
    let mut out: Vec<String> = Vec::new();
    let mut i: usize = 0;
    assert(text::views(out@) =~= strangers(all.take(0), ids));
    while i < names.len()
        invariant
            i <= names.len(),
            all == text::views(names@),
            text::views(known@) == ids,
            text::views(out@) == strangers(all.take(i as int), ids),
        decreases names.len() - i,
    {
        let ghost had = text::views(out@);
        proof {
            assert(all.take(i + 1).drop_last() =~= all.take(i as int));
            assert(all.take(i + 1).last() == names@[i as int]@);
        }
        if !text::among(&known, &names[i]) {
            out.push(names[i].clone());
            assert(text::views(out@) =~= had.push(names@[i as int]@));
        }
        i = i + 1;
    }
    assert(all.take(i as int) =~= all);
    out
}

/// A session that is attached again right away, and how it was when it was last
/// seen.
pub struct PrewarmCandidate {
    pub session_id: String,
    pub workspace_id: String,
    pub cwd: String,
    pub runtime_state: Option<SessionRuntimeState>,
    pub notification_type: Option<String>,
    pub turn_acknowledged: bool,
}

/// Whether this is a session that is attached again.
pub open spec fn is_candidate(c: PrewarmCandidate, ws: Workspace, m: ClaudeSessionMeta) -> bool {
    &&& c.session_id@ == m.id@
    &&& c.workspace_id@ == ws.id@
    &&& c.cwd@ == m.cwd@
    &&& c.runtime_state == m.runtime_state
    &&& text::maybe(c.notification_type) == text::maybe(m.notification_type)
    &&& c.turn_acknowledged == m.turn_acknowledged
}

/// The sessions of a workspace that still run, by their places.
pub open spec fn alive_in(sessions: Seq<ClaudeSessionMeta>, alive: Seq<Seq<char>>) -> Seq<
    ClaudeSessionMeta,
>
    decreases sessions.len(),
{
    if sessions.len() == 0 {
        seq![]
    } else {
        let before = alive_in(sessions.drop_last(), alive);
        if alive.contains(sessions.last().id@) {
            before.push(sessions.last())
        } else {
            before
        }
    }
}

/// The sessions of a workspace that are attached again: those that still run.
pub fn prewarm_live_sessions(ws: &Workspace, alive: &[String]) -> (r: Vec<PrewarmCandidate>)
    ensures
        r@.len() == alive_in(ws.sessions@, text::views(alive@)).len(),
        forall|i: int|
            0 <= i < r@.len() ==> is_candidate(
                #[trigger] r@[i],
                *ws,
                alive_in(ws.sessions@, text::views(alive@))[i],
            ),
{
    let ghost all = ws.sessions@;
    let ghost names = text::views(alive@);
    let mut out: Vec<PrewarmCandidate> = Vec::new();
    let mut i: usize = 0;
    assert(alive_in(all.take(0), names) =~= seq![]);
    while i < ws.sessions.len()
        invariant
            i <= ws.sessions.len(),
            all == ws.sessions@,
            names == text::views(alive@),
            out@.len() == alive_in(all.take(i as int), names).len(),
            forall|k: int|
                0 <= k < out@.len() ==> is_candidate(
                    #[trigger] out@[k],
                    *ws,
                    alive_in(all.take(i as int), names)[k],
                ),
        decreases ws.sessions.len() - i,
    {
        proof {
            assert(all.take(i + 1).drop_last() =~= all.take(i as int));
            assert(all.take(i + 1).last() == all[i as int]);
        }
        let m = &ws.sessions[i];
        if text::among(alive, &m.id) {
            let c = PrewarmCandidate {
                session_id: m.id.clone(),
                workspace_id: ws.id.clone(),
                cwd: m.cwd.clone(),
                runtime_state: m.runtime_state,
                notification_type: text::copied(&m.notification_type),
                turn_acknowledged: m.turn_acknowledged,
            };
            assert(is_candidate(c, *ws, *m));
            out.push(c);
        }
        i = i + 1;
    }
    assert(all.take(i as int) =~= all);
    out
}

/// A session that a workspace knows of is never killed.
pub proof fn known_sessions_survive(names: Seq<Seq<char>>, known: Seq<Seq<char>>)
    ensures
        forall|i: int|
            0 <= i < strangers(names, known).len() ==> !known.contains(
                #[trigger] strangers(names, known)[i],
            ),
    decreases names.len(),
{
    if names.len() > 0 {
        let before = strangers(names.drop_last(), known);
        let now = strangers(names, known);
        known_sessions_survive(names.drop_last(), known);
        assert forall|i: int| 0 <= i < now.len() implies !known.contains(#[trigger] now[i]) by {
            if i < before.len() {
                assert(now[i] == before[i]);
            }
        }
    }
}

/// Whether the notes that agents read at a workspace's root are written again: they
/// are for every workspace that was not deleted.
pub fn refresh_workspace_docs(ws: &Workspace) -> (r: bool)
    ensures
        r == (ws.deleted_at is None),
{
    ws.deleted_at.is_none()
}

/// Of the names that run, exactly those go that no workspace knows: every one that is a
/// session of some workspace stays, and every other is named.
pub proof fn strangers_alone_are_named(
    names: Seq<Seq<char>>,
    workspaces: Seq<Workspace>,
    name: Seq<char>,
)
    ensures
        strangers(names, session_ids(workspaces)).contains(name) <==> names.contains(name)
            && forall|w: int, s: int|
            0 <= w < workspaces.len() && 0 <= s < workspaces[w].sessions@.len() ==> (
            #[trigger] workspaces[w].sessions@[s]).id@ != name,
{
    lemma_strangers(names, session_ids(workspaces), name);
    lemma_session_ids(workspaces, name);
}

proof fn lemma_strangers(names: Seq<Seq<char>>, known: Seq<Seq<char>>, name: Seq<char>)
    ensures
        strangers(names, known).contains(name) <==> names.contains(name) && !known.contains(name),
    decreases names.len(),
{
    if names.len() > 0 {
        let rest = names.drop_last();
        lemma_strangers(rest, known, name);
        let before = strangers(rest, known);
        let all = strangers(names, known);
        if rest.contains(name) {
            let i = choose|i: int| 0 <= i < rest.len() && rest[i] == name;
            assert(names[i] == name);
        }
        if names.contains(name) && names.last() != name {
            let i = choose|i: int| 0 <= i < names.len() && names[i] == name;
            assert(rest[i] == name);
        }
        if before.contains(name) {
            let i = choose|i: int| 0 <= i < before.len() && before[i] == name;
            assert(all[i] == name);
        }
        if !known.contains(names.last()) {
            assert(all[before.len() as int] == names.last());
            if all.contains(name) && name != names.last() {
                let i = choose|i: int| 0 <= i < all.len() && all[i] == name;
                assert(before[i] == name);
            }
        }
    }
}

proof fn lemma_session_ids(workspaces: Seq<Workspace>, id: Seq<char>)
    ensures
        session_ids(workspaces).contains(id) <==> exists|w: int, s: int|
            0 <= w < workspaces.len() && 0 <= s < workspaces[w].sessions@.len() && (
            #[trigger] workspaces[w].sessions@[s]).id@ == id,
    decreases workspaces.len(),
{
    if workspaces.len() > 0 {
        let rest = workspaces.drop_last();
        let ws = workspaces.last();
        lemma_session_ids(rest, id);
        let before = session_ids(rest);
        let own = ws.sessions@.map_values(|m: ClaudeSessionMeta| m.id@);
        let all = session_ids(workspaces);
        assert(all == before + own);
        if exists|w: int, s: int|
            0 <= w < workspaces.len() && 0 <= s < workspaces[w].sessions@.len() && (
            #[trigger] workspaces[w].sessions@[s]).id@ == id {
            let (w, s) = choose|w: int, s: int|
                0 <= w < workspaces.len() && 0 <= s < workspaces[w].sessions@.len() && (
                #[trigger] workspaces[w].sessions@[s]).id@ == id;
            if w == rest.len() {
                assert(own[s] == id);
                assert(all[before.len() + s] == id);
            } else {
                assert(rest[w].sessions@[s].id@ == id);
                let k = choose|k: int| 0 <= k < before.len() && before[k] == id;
                assert(all[k] == id);
            }
        }
        if all.contains(id) {
            let k = choose|k: int| 0 <= k < all.len() && all[k] == id;
            if k < before.len() {
                assert(before[k] == id);
                let (w, s) = choose|w: int, s: int|
                    0 <= w < rest.len() && 0 <= s < rest[w].sessions@.len() && (
                    #[trigger] rest[w].sessions@[s]).id@ == id;
                assert(workspaces[w].sessions@[s].id@ == id);
            } else {
                let s: int = k - before.len();
                assert(own[s] == id);
                assert(workspaces[workspaces.len() - 1].sessions@[s].id@ == id);
            }
        }
    }
}

proof fn lemma_alive_in(sessions: Seq<ClaudeSessionMeta>, alive: Seq<Seq<char>>, i: int)
    requires
        0 <= i < sessions.len(),
        alive.contains(sessions[i].id@),
    ensures
        alive_in(sessions, alive).contains(sessions[i]),
    decreases sessions.len(),
{
    let rest = sessions.drop_last();
    let before = alive_in(rest, alive);
    let all = alive_in(sessions, alive);
    if i < rest.len() {
        lemma_alive_in(rest, alive, i);
        let k = choose|k: int| 0 <= k < before.len() && before[k] == sessions[i];
        assert(all[k] == sessions[i]);
    } else {
        assert(all[before.len() as int] == sessions[i]);
    }
}

/// Every session of a workspace that still runs is attached again: where it was, and
/// with the turn that it was left at.
pub proof fn a_session_that_runs_is_attached_again(
    ws: Workspace,
    alive: Seq<Seq<char>>,
    attached: Seq<PrewarmCandidate>,
    i: int,
)
    requires
        attached.len() == alive_in(ws.sessions@, alive).len(),
        forall|k: int|
            0 <= k < attached.len() ==> is_candidate(
                #[trigger] attached[k],
                ws,
                alive_in(ws.sessions@, alive)[k],
            ),
        0 <= i < ws.sessions@.len(),
        alive.contains(ws.sessions@[i].id@),
    ensures
        exists|k: int|
            0 <= k < attached.len() && (#[trigger] attached[k]).session_id@ == ws.sessions@[i].id@
                && attached[k].workspace_id@ == ws.id@ && attached[k].cwd@ == ws.sessions@[i].cwd@
                && attached[k].runtime_state == ws.sessions@[i].runtime_state
                && attached[k].turn_acknowledged == ws.sessions@[i].turn_acknowledged
                && text::maybe(attached[k].notification_type) == text::maybe(
                ws.sessions@[i].notification_type,
            ),
{
    let kept = alive_in(ws.sessions@, alive);
    lemma_alive_in(ws.sessions@, alive, i);
    let k = choose|k: int| 0 <= k < kept.len() && kept[k] == ws.sessions@[i];
    assert(is_candidate(attached[k], ws, kept[k]));
}

/// A session that does not run is not attached.
pub proof fn a_session_that_ended_is_not_attached(
    sessions: Seq<ClaudeSessionMeta>,
    alive: Seq<Seq<char>>,
    k: int,
)
    requires
        0 <= k < alive_in(sessions, alive).len(),
    ensures
        alive.contains(alive_in(sessions, alive)[k].id@),
        sessions.contains(alive_in(sessions, alive)[k]),
    decreases sessions.len(),
{
    let rest = sessions.drop_last();
    let before = alive_in(rest, alive);
    if k < before.len() {
        a_session_that_ended_is_not_attached(rest, alive, k);
        let i = choose|i: int| 0 <= i < rest.len() && rest[i] == before[k];
        assert(sessions[i] == before[k]);
    } else {
        assert(sessions[sessions.len() - 1] == alive_in(sessions, alive)[k]);
    }
}

} // verus!
