//! Agent sessions: starting them, finding the one that a hook or a status file
//! speaks of, and keeping what makes them resumable.

use vstd::prelude::*;

use crate::agent::Agent;
use crate::agent_cmd;
use crate::agent_cmd::Spawn;
use crate::error::AppError;
use crate::hook::HookMessage;
use crate::ids;
use crate::list;
use crate::mcp::McpLaunch;
use crate::paths;
use crate::probe;
use crate::probe::Probe;
use crate::pty::Ring;
use crate::state::{
    AppState, ClaudeSessionMeta, SessionId, SessionKind, SessionRuntimeState, Workspace,
    WorkspaceId,
};
use crate::text;

verus! {

/// How much scrollback a session keeps.
pub const RING_CAPACITY: usize = 2097152;

/// How long a spawned session is waited for to report itself, in milliseconds.
pub const PENDING_TTL: i64 = 30000;

/// A session as the interface lists it.
#[derive(Debug)]
pub struct SessionInfo {
    pub id: SessionId,
    pub workspace_id: String,
    /// `None` for a session at the workspace root.
    pub repo_key: Option<String>,
    pub cwd: String,
    pub running: bool,
    pub runtime_state: SessionRuntimeState,
    /// What the last notification was about, while the session waits.
    pub notification_type: Option<String>,
    /// Whether the user has seen that it is their turn.
    pub turn_acknowledged: bool,
    /// Whether the session wants the user's attention.
    pub needs_turn: bool,
    /// Whether the agent is at work.
    pub working: bool,
}

/// The session that a subagent's transcript belongs to: subagents write to
/// `<parent>/subagents/agent-<anything>.jsonl`.
pub open spec fn parent_session(path: Seq<char>) -> Option<Seq<char>> {
    match (paths::file_name_of(path), paths::parent_of(path)) {
        (Some(file), Some(dir)) => if "agent-"@.is_prefix_of(file) && ".jsonl"@.is_suffix_of(file)
            && paths::file_name_of(dir) == Some("subagents"@) {
            match paths::parent_of(dir) {
                Some(up) => paths::file_name_of(up),
                None => None,
            }
        } else {
            None
        },
        _ => None,
    }
}

/// The session that a subagent's transcript belongs to.
pub fn parent_session_from_subagent_path(transcript_path: &str) -> (r: Option<String>)
    ensures
        text::maybe(r) == parent_session(transcript_path@),
{
    let file = match paths::file_name(transcript_path) {
        Some(f) => f,
        None => {
            return None;
        },
    };
    if !(text::has_prefix(&file, "agent-") && text::has_suffix(&file, ".jsonl")) {
        return None;
    }
    let dir = match paths::parent(transcript_path) {
        Some(d) => d,
        None => {
            return None;
        },
    };
    match paths::file_name(&dir) {
        Some(n) => if !text::same(&n, "subagents") {
            return None;
        },
        None => {
            return None;
        },
    }
    match paths::parent(&dir) {
        Some(up) => paths::file_name(&up),
        None => None,
    }
}

/// How the line starts that a terminal client leaves behind: `[detached `.
pub open spec fn detached() -> Seq<u8> {
    seq![91u8, 100u8, 101u8, 116u8, 97u8, 99u8, 104u8, 101u8, 100u8, 32u8]
}

/// Whether that line starts at `k`.
pub open spec fn detached_at(s: Seq<u8>, k: int) -> bool {
    0 <= k && k + 10 <= s.len() && s.subrange(k, k + 10) == detached()
}

/// The last place from `from` on and before `to` where that line starts.
pub open spec fn last_detached(s: Seq<u8>, from: int, to: int) -> Option<int>
    decreases to - from,
{
    if to <= from {
        None
    } else if detached_at(s, to - 1) {
        Some(to - 1)
    } else {
        last_detached(s, from, to - 1)
    }
}

/// `end`, moved back over line breaks.
pub open spec fn before_breaks(s: Seq<u8>, end: int) -> int
    decreases end,
{
    if end > 0 && (s[end - 1] == 13 || s[end - 1] == 10) {
        before_breaks(s, end - 1)
    } else {
        end
    }
}

/// The scrollback without the line that a terminal client leaves behind, which is
/// looked for in the last 256 bytes.
pub open spec fn without_epilogue(s: Seq<u8>) -> Seq<u8> {
    let from = if s.len() > 256 {
        s.len() - 256
    } else {
        0
    };
    match last_detached(s, from, s.len() as int) {
        Some(p) => s.take(before_breaks(s, p)),
        None => s,
    }
}

fn starts_at(ring: &Ring, k: usize) -> (r: bool)
    requires
        k <= ring@.len(),
    ensures
        r == detached_at(ring@, k as int),
{
    let n: usize = ring.len();
    if n - k < 10 {
        return false;
    }
    let ghost here = ring@.subrange(k as int, k + 10);
    let needle: [u8; 10] = [91, 100, 101, 116, 97, 99, 104, 101, 100, 32];
    assert(needle@ =~= detached());
    let mut i: usize = 0;
    while i < 10
        invariant
            i <= 10,
            k + 10 <= n,
            n == ring@.len(),
            needle@ == detached(),
            here == ring@.subrange(k as int, k + 10),
            forall|j: int| 0 <= j < i ==> #[trigger] here[j] == detached()[j],
        decreases 10 - i,
    {
        if ring[k + i] != needle[i] {
            assert(here[i as int] != detached()[i as int]);
            return false;
        }
        i = i + 1;
    }
    assert(here =~= detached());
    true
}

/// Remove the line that a terminal client leaves behind, with the line breaks
/// before it and all that follows it.
pub fn trim_detach_epilogue(ring: &mut Ring)
    ensures
        final(ring)@ == without_epilogue(old(ring)@),
{
    let n: usize = ring.len();
    let from: usize = if n > 256 {
        n - 256
    } else {
        0
    };
    let mut i: usize = n;
    while i > from
        invariant
            n == ring@.len(),
            from <= i <= n,
            from == (if n > 256 {
                n - 256
            } else {
                0
            }),
            ring@ == old(ring)@,
            last_detached(ring@, from as int, n as int) == last_detached(
                ring@,
                from as int,
                i as int,
            ),
        decreases i,
    {
        if starts_at(ring, i - 1) {
            let mut cut: usize = i - 1;
            while cut > 0 && (ring[cut - 1] == 13 || ring[cut - 1] == 10)
                invariant
                    ring@ == old(ring)@,
                    cut < i <= n,
                    n == ring@.len(),
                    last_detached(ring@, from as int, n as int) == Some(i - 1),
                    before_breaks(ring@, i - 1) == before_breaks(ring@, cut as int),
                decreases cut,
            {
                cut = cut - 1;
            }
            ring.truncate(cut);
            assert(ring@ =~= without_epilogue(old(ring)@));
            return ;
        }
        i = i - 1;
    }
}

/// A status file, down to what a session is found by.
#[derive(Debug, Clone, Copy)]
pub struct ProbeView<'a> {
    pub sid: &'a str,
    pub cwd: Option<&'a str>,
    pub state: SessionRuntimeState,
    pub status_updated_at: Option<i64>,
}

/// A session that a status file may speak of.
#[derive(Debug)]
pub struct TrackedSession<'a> {
    pub workspace_id: &'a str,
    pub session_id: &'a SessionId,
    pub cwd: Option<&'a str>,
    pub claude_session_id: Option<&'a str>,
    pub running: bool,
}

/// What to do about one status file: give the session this state, after writing
/// down its new id where it has one.
#[derive(Debug, PartialEq)]
pub struct ProbeAction {
    pub workspace_id: String,
    pub session_id: SessionId,
    pub state: SessionRuntimeState,
    pub heal_to: Option<String>,
}

/// A status file by the texts in it.
#[verifier::ext_equal]
pub struct ProbeSeen {
    pub sid: Seq<char>,
    pub cwd: Option<Seq<char>>,
    pub state: SessionRuntimeState,
    pub status_updated_at: Option<i64>,
}

impl<'a> View for ProbeView<'a> {
    type V = ProbeSeen;

    open spec fn view(&self) -> ProbeSeen {
        ProbeSeen {
            sid: self.sid@,
            cwd: text::given(self.cwd),
            state: self.state,
            status_updated_at: self.status_updated_at,
        }
    }
}

/// The texts of a list of status files.
pub open spec fn probes_seen(v: Seq<ProbeView>) -> Seq<ProbeSeen> {
    v.map_values(|p: ProbeView| p@)
}

/// A session by the texts in it.
#[verifier::ext_equal]
pub struct TrackedSeen {
    pub workspace_id: Seq<char>,
    pub session_id: Seq<char>,
    pub cwd: Option<Seq<char>>,
    pub claude_session_id: Option<Seq<char>>,
    pub running: bool,
}

impl<'a> View for TrackedSession<'a> {
    type V = TrackedSeen;

    open spec fn view(&self) -> TrackedSeen {
        TrackedSeen {
            workspace_id: self.workspace_id@,
            session_id: self.session_id@,
            cwd: text::given(self.cwd),
            claude_session_id: text::given(self.claude_session_id),
            running: self.running,
        }
    }
}

/// The texts of a list of sessions.
pub open spec fn sessions_seen(v: Seq<TrackedSession>) -> Seq<TrackedSeen> {
    v.map_values(|s: TrackedSession| s@)
}

/// An action by the texts in it.
#[verifier::ext_equal]
pub struct ProbeActionView {
    pub workspace_id: Seq<char>,
    pub session_id: Seq<char>,
    pub state: SessionRuntimeState,
    pub heal_to: Option<Seq<char>>,
}

impl View for ProbeAction {
    type V = ProbeActionView;

    open spec fn view(&self) -> ProbeActionView {
        ProbeActionView {
            workspace_id: self.workspace_id@,
            session_id: self.session_id@,
            state: self.state,
            heal_to: text::maybe(self.heal_to),
        }
    }
}

/// The texts of a list of actions.
pub open spec fn actions(v: Seq<ProbeAction>) -> Seq<ProbeActionView> {
    v.map_values(|a: ProbeAction| a@)
}

/// When a status was last changed; one that does not say is older than any that
/// does.
pub open spec fn stamp(p: ProbeSeen) -> int {
    match p.status_updated_at {
        Some(t) => t as int,
        None => i64::MIN - 1,
    }
}

/// Whether the `i`-th file is the newest for its directory, and of equally new
/// ones the first.
pub open spec fn is_freshest(probes: Seq<ProbeSeen>, i: int) -> bool {
    probes[i].cwd is Some && forall|j: int|
        0 <= j < probes.len() && (#[trigger] probes[j]).cwd == probes[i].cwd ==> stamp(probes[j])
            < stamp(probes[i]) || (stamp(probes[j]) == stamp(probes[i]) && i <= j)
}

/// The files from the `i`-th on that are the newest for their directory.
pub open spec fn freshest_from(probes: Seq<ProbeSeen>, i: int) -> Seq<ProbeSeen>
    decreases probes.len() - i,
{
    if i < 0 || i >= probes.len() {
        seq![]
    } else if is_freshest(probes, i) {
        seq![probes[i]] + freshest_from(probes, i + 1)
    } else {
        freshest_from(probes, i + 1)
    }
}

/// The files from the `i`-th on that name no directory.
pub open spec fn homeless_from(probes: Seq<ProbeSeen>, i: int) -> Seq<ProbeSeen>
    decreases probes.len() - i,
{
    if i < 0 || i >= probes.len() {
        seq![]
    } else if probes[i].cwd is None {
        seq![probes[i]] + homeless_from(probes, i + 1)
    } else {
        homeless_from(probes, i + 1)
    }
}

/// The files that count: those that name no directory, and for each directory the
/// newest.
pub open spec fn current_probes(probes: Seq<ProbeSeen>) -> Seq<ProbeSeen> {
    homeless_from(probes, 0) + freshest_from(probes, 0)
}

fn same_opt(a: Option<&str>, b: Option<&str>) -> (r: bool)
    ensures
        r == (text::given(a) == text::given(b)),
{
    match (a, b) {
        (Some(x), Some(y)) => text::same(x, y),
        (None, None) => true,
        _ => false,
    }
}

fn stamped(p: &ProbeView) -> (r: i128)
    ensures
        r == stamp(p@),
{
    match p.status_updated_at {
        Some(t) => t as i128,
        None => i64::MIN as i128 - 1,
    }
}

fn freshest(probes: &[ProbeView], i: usize) -> (r: bool)
    requires
        i < probes.len(),
    ensures
        r == is_freshest(probes_seen(probes@), i as int),
{
    let ghost all = probes_seen(probes@);
    if probes[i].cwd.is_none() {
        return false;
    }
    let at: i128 = stamped(&probes[i]);
    let mut j: usize = 0;
    while j < probes.len()
        invariant
            i < probes.len(),
            j <= probes.len(),
            all == probes_seen(probes@),
            at == stamp(all[i as int]),
            forall|k: int|
                0 <= k < j && (#[trigger] all[k]).cwd == all[i as int].cwd ==> stamp(all[k]) < at
                    || (stamp(all[k]) == at && i <= k),
        decreases probes.len() - j,
    {
        assert(all[j as int] == probes@[j as int]@);
        if same_opt(probes[j].cwd, probes[i].cwd) {
            let other: i128 = stamped(&probes[j]);
            if other > at || (other == at && j < i) {
                return false;
            }
        }
        j = j + 1;
    }
    true
}

/// Whether this is the newest file of its directory, and the `i`-th or a later one.
spec fn comes_after(probes: Seq<ProbeSeen>, i: int, p: ProbeSeen) -> bool {
    exists|k: int| i <= k < probes.len() && is_freshest(probes, k) && #[trigger] probes[k] == p
}

/// What is current from the `i`-th file on comes from there, and in that order.
proof fn lemma_freshest_from(probes: Seq<ProbeSeen>, i: int)
    requires
        0 <= i,
    ensures
        forall|a: int|
            0 <= a < freshest_from(probes, i).len() ==> comes_after(
                probes,
                i,
                #[trigger] freshest_from(probes, i)[a],
            ),
        forall|a: int, b: int|
            0 <= a < b < freshest_from(probes, i).len() ==> (#[trigger] freshest_from(
                probes,
                i,
            )[a]).cwd != (#[trigger] freshest_from(probes, i)[b]).cwd,
    decreases probes.len() - i,
{
    if i < probes.len() {
        lemma_freshest_from(probes, i + 1);
        let rest = freshest_from(probes, i + 1);
        let all = freshest_from(probes, i);
        assert forall|a: int| 0 <= a < rest.len() implies comes_after(
            probes,
            i,
            #[trigger] rest[a],
        ) by {
            assert(comes_after(probes, i + 1, rest[a]));
        }
        if is_freshest(probes, i) {
            assert(all =~= seq![probes[i]] + rest);
            assert forall|a: int| 0 <= a < all.len() implies comes_after(
                probes,
                i,
                #[trigger] all[a],
            ) by {
                if a > 0 {
                    assert(all[a] == rest[a - 1]);
                }
            }
            assert forall|a: int, b: int| 0 <= a < b < all.len() implies (#[trigger] all[a]).cwd
                != (#[trigger] all[b]).cwd by {
                assert(all[b] == rest[b - 1]);
                assert(comes_after(probes, i + 1, rest[b - 1]));
                if a == 0 {
                    let k = choose|k: int|
                        i + 1 <= k < probes.len() && is_freshest(probes, k) && #[trigger] probes[k]
                            == rest[b - 1];
                    assert(probes[k].cwd != probes[i].cwd);
                } else {
                    assert(all[a] == rest[a - 1]);
                }
            }
        } else {
            assert(all == rest);
        }
    }
}

/// No directory is spoken for twice, and the one that speaks for it is the newest:
/// a file with a time beats any without.
pub proof fn one_probe_speaks_for_a_directory(probes: Seq<ProbeSeen>, a: int, b: int)
    requires
        0 <= a < b < current_probes(probes).len(),
        current_probes(probes)[a].cwd is Some,
        current_probes(probes)[b].cwd is Some,
    ensures
        current_probes(probes)[a].cwd != current_probes(probes)[b].cwd,
        forall|k: int|
            0 <= k < probes.len() && (#[trigger] probes[k]).cwd == current_probes(probes)[a].cwd
                ==> stamp(probes[k]) <= stamp(current_probes(probes)[a]),
{
    let homeless = homeless_from(probes, 0);
    let n = homeless.len() as int;
    lemma_homeless_from(probes, 0);
    lemma_freshest_from(probes, 0);
    assert(a >= n) by {
        if a < n {
            assert(current_probes(probes)[a] == homeless[a]);
        }
    }
    let fresh = freshest_from(probes, 0);
    assert(current_probes(probes)[a] == fresh[a - n]);
    assert(current_probes(probes)[b] == fresh[b - n]);
    assert(comes_after(probes, 0, fresh[a - n]));
}

proof fn lemma_homeless_from(probes: Seq<ProbeSeen>, i: int)
    requires
        0 <= i,
    ensures
        forall|a: int|
            0 <= a < homeless_from(probes, i).len() ==> (#[trigger] homeless_from(
                probes,
                i,
            )[a]).cwd is None,
    decreases probes.len() - i,
{
    if i < probes.len() {
        lemma_homeless_from(probes, i + 1);
    }
}

/// Keep, for each directory, only the newest file.
///
/// An agent that changes its session id leaves the old file behind. Only one
/// agent runs in a directory, so the newest is the one that speaks for it.
pub fn freshest_probe_per_cwd<'a>(probes: &[ProbeView<'a>]) -> (r: Vec<ProbeView<'a>>)
    ensures
        probes_seen(r@) == current_probes(probes_seen(probes@)),
{
    let ghost all = probes_seen(probes@);
    let mut r: Vec<ProbeView<'a>> = Vec::new();
    let mut i: usize = 0;
    assert(probes_seen(r@) + homeless_from(all, 0) =~= homeless_from(all, 0));
    while i < probes.len()
        invariant
            i <= probes.len(),
            all == probes_seen(probes@),
            probes_seen(r@) + homeless_from(all, i as int) == homeless_from(all, 0),
        decreases probes.len() - i,
    {
        assert(all[i as int] == probes@[i as int]@);
        if probes[i].cwd.is_none() {
            let ghost before = r@;
            r.push(probes[i]);
            assert(probes_seen(r@) =~= probes_seen(before).push(all[i as int]));
            assert(probes_seen(r@) + homeless_from(all, i + 1) =~= probes_seen(before)
                + homeless_from(all, i as int));
        }
        i = i + 1;
    }
    assert(probes_seen(r@) =~= homeless_from(all, 0));
    i = 0;
    while i < probes.len()
        invariant
            i <= probes.len(),
            all == probes_seen(probes@),
            probes_seen(r@) + freshest_from(all, i as int) == current_probes(all),
        decreases probes.len() - i,
    {
        if freshest(probes, i) {
            let ghost before = r@;
            r.push(probes[i]);
            assert(probes_seen(r@) =~= probes_seen(before).push(all[i as int]));
            assert(probes_seen(r@) + freshest_from(all, i + 1) =~= probes_seen(before)
                + freshest_from(all, i as int));
        }
        i = i + 1;
    }
    assert(probes_seen(r@) =~= current_probes(all));
    r
}

/// Whether a current file reports this id.
pub open spec fn reported(current: Seq<ProbeSeen>, id: Seq<char>) -> bool {
    exists|k: int| 0 <= k < current.len() && (#[trigger] current[k]).sid == id
}

/// Whether a session runs in a directory under an id that no file reports.
pub open spec fn is_stale(s: TrackedSeen, cwd: Seq<char>, current: Seq<ProbeSeen>) -> bool {
    s.running && s.cwd == Some(cwd) && (match s.claude_session_id {
        Some(c) => !reported(current, c),
        None => true,
    })
}

/// The action on a session.
pub open spec fn act(s: TrackedSeen, p: ProbeSeen, heal: bool) -> ProbeActionView {
    ProbeActionView {
        workspace_id: s.workspace_id,
        session_id: s.session_id,
        state: p.state,
        heal_to: if heal {
            Some(p.sid)
        } else {
            None
        },
    }
}

/// What one current file leads to. The session with its id is the one it speaks
/// of. Where there is none, the id has changed, and the file speaks of the only
/// session that runs in its directory under an id that nobody reports.
pub open spec fn action_for(
    p: ProbeSeen,
    current: Seq<ProbeSeen>,
    sessions: Seq<TrackedSeen>,
) -> Option<ProbeActionView> {
    match list::first_where(sessions, |s: TrackedSeen| s.claude_session_id == Some(p.sid)) {
        Some(i) => if sessions[i].running {
            Some(act(sessions[i], p, false))
        } else {
            None
        },
        None => match p.cwd {
            None => None,
            Some(cwd) => match list::first_where(
                sessions,
                |s: TrackedSeen| is_stale(s, cwd, current),
            ) {
                Some(i) => if exists|j: int|
                    i < j < sessions.len() && is_stale(#[trigger] sessions[j], cwd, current) {
                    None
                } else {
                    Some(act(sessions[i], p, true))
                },
                None => None,
            },
        },
    }
}

/// What the first `n` current files lead to, in their order.
pub open spec fn actions_for(
    current: Seq<ProbeSeen>,
    n: int,
    sessions: Seq<TrackedSeen>,
) -> Seq<ProbeActionView>
    decreases n,
{
    if n <= 0 {
        seq![]
    } else {
        let before = actions_for(current, n - 1, sessions);
        match action_for(current[n - 1], current, sessions) {
            Some(a) => before.push(a),
            None => before,
        }
    }
}

/// What a set of status files leads to.
pub open spec fn planned(probes: Seq<ProbeSeen>, sessions: Seq<TrackedSeen>) -> Seq<
    ProbeActionView,
> {
    let current = current_probes(probes);
    actions_for(current, current.len() as int, sessions)
}

fn action(s: &TrackedSession, p: &ProbeView, heal: bool) -> (r: ProbeAction)
    ensures
        r@ == act(s@, p@, heal),
{
    ProbeAction {
        workspace_id: s.workspace_id.to_owned(),
        session_id: s.session_id.clone(),
        state: p.state,
        heal_to: if heal {
            Some(p.sid.to_owned())
        } else {
            None
        },
    }
}

fn is_reported(current: &[ProbeView], id: &str) -> (r: bool)
    ensures
        r == reported(probes_seen(current@), id@),
{
    let ghost all = probes_seen(current@);
    let mut i: usize = 0;
    while i < current.len()
        invariant
            i <= current.len(),
            all == probes_seen(current@),
            forall|k: int| 0 <= k < i ==> (#[trigger] all[k]).sid != id@,
        decreases current.len() - i,
    {
        assert(all[i as int] == current@[i as int]@);
        if text::same(current[i].sid, id) {
            return true;
        }
        i = i + 1;
    }
    false
}

fn stale(s: &TrackedSession, cwd: &str, current: &[ProbeView]) -> (r: bool)
    ensures
        r == is_stale(s@, cwd@, probes_seen(current@)),
{
    s.running && same_opt(s.cwd, Some(cwd)) && (match s.claude_session_id {
        Some(c) => !is_reported(current, c),
        None => true,
    })
}

fn plan_one(p: &ProbeView, current: &[ProbeView], sessions: &[TrackedSession]) -> (r: Option<
    ProbeAction,
>)
    ensures
        match r {
            Some(a) => action_for(p@, probes_seen(current@), sessions_seen(sessions@)) == Some(a@),
            None => action_for(p@, probes_seen(current@), sessions_seen(sessions@)) is None,
        },
{
    let ghost now = probes_seen(current@);
    let ghost all = sessions_seen(sessions@);
    let ghost sid = p@.sid;
    let mut i: usize = 0;
    let ghost by_id = |s: TrackedSeen| s.claude_session_id == Some(sid);
    while i < sessions.len()
        invariant
            i <= sessions.len(),
            now == probes_seen(current@),
            all == sessions_seen(sessions@),
            sid == p@.sid,
            by_id == (|s: TrackedSeen| s.claude_session_id == Some(sid)),
            forall|k: int| 0 <= k < i ==> !by_id(#[trigger] all[k]),
        decreases sessions.len() - i,
    {
        assert(all[i as int] == sessions@[i as int]@);
        if same_opt(sessions[i].claude_session_id, Some(p.sid)) {
            proof {
                list::lemma_first_where_is(all, by_id, i as int);
            }
            if sessions[i].running {
                return Some(action(&sessions[i], p, false));
            }
            return None;
        }
        i = i + 1;
    }
    proof {
        list::lemma_first_where_none(all, by_id);
    }
    let cwd = match p.cwd {
        Some(c) => c,
        None => {
            return None;
        },
    };
    let ghost dir = cwd@;
    let ghost by_cwd = |s: TrackedSeen| is_stale(s, dir, now);
    i = 0;
    while i < sessions.len()
        invariant
            i <= sessions.len(),
            now == probes_seen(current@),
            all == sessions_seen(sessions@),
            dir == cwd@,
            sid == p@.sid,
            by_cwd == (|s: TrackedSeen| is_stale(s, dir, now)),
            forall|k: int| 0 <= k < i ==> !by_cwd(#[trigger] all[k]),
            p.cwd == Some(cwd),
            list::first_where(all, |s: TrackedSeen| s.claude_session_id == Some(sid)) is None,
        decreases sessions.len() - i,
    {
        assert(all[i as int] == sessions@[i as int]@);
        if stale(&sessions[i], cwd, current) {
            proof {
                list::lemma_first_where_is(all, by_cwd, i as int);
            }
            let mut j: usize = i + 1;
            while j < sessions.len()
                invariant
                    i < j <= sessions.len(),
                    now == probes_seen(current@),
                    all == sessions_seen(sessions@),
                    dir == cwd@,
                    sid == p@.sid,
                    p.cwd == Some(cwd),
                    list::first_where(
                        all,
                        |s: TrackedSeen| s.claude_session_id == Some(sid),
                    ) is None,
                    list::first_where(all, |s: TrackedSeen| is_stale(s, dir, now)) == Some(
                        i as int,
                    ),
                    forall|k: int| i < k < j ==> !is_stale(#[trigger] all[k], dir, now),
                decreases sessions.len() - j,
            {
                assert(all[j as int] == sessions@[j as int]@);
                if stale(&sessions[j], cwd, current) {
                    return None;
                }
                j = j + 1;
            }
            assert(all[i as int] == sessions@[i as int]@);
            return Some(action(&sessions[i], p, true));
        }
        i = i + 1;
    }
    proof {
        list::lemma_first_where_none(all, by_cwd);
    }
    None
}

/// Decide what the status files change. Each is held against the running
/// sessions, by id first; where the agent changed its id, by the only session
/// that runs in the same directory under an id that has gone.
pub fn plan_probe_reconciliation(probes: &[ProbeView], sessions: &[TrackedSession]) -> (r: Vec<
    ProbeAction,
>)
    ensures
        actions(r@) == planned(probes_seen(probes@), sessions_seen(sessions@)),
{
    let current = freshest_probe_per_cwd(probes);
    let ghost now = probes_seen(current@);
    let mut r: Vec<ProbeAction> = Vec::new();
    let mut i: usize = 0;
    assert(actions(r@) =~= seq![]);
    while i < current.len()
        invariant
            i <= current.len(),
            now == probes_seen(current@),
            now == current_probes(probes_seen(probes@)),
            actions(r@) == actions_for(now, i as int, sessions_seen(sessions@)),
        decreases current.len() - i,
    {
        assert(now[i as int] == current@[i as int]@);
        if let Some(a) = plan_one(&current[i], &current, sessions) {
            let ghost before = r@;
            r.push(a);
            assert(actions(r@) =~= actions(before).push(a@));
        }
        i = i + 1;
    }
    r
}

/// A status file never brings a dead session back: whatever is done is done to a
/// session that runs.
pub proof fn a_probe_acts_on_running_sessions_only(
    probes: Seq<ProbeSeen>,
    sessions: Seq<TrackedSeen>,
    k: int,
)
    requires
        0 <= k < planned(probes, sessions).len(),
    ensures
        exists|i: int|
            0 <= i < sessions.len() && #[trigger] sessions[i].running && sessions[i].session_id
                == planned(probes, sessions)[k].session_id && sessions[i].workspace_id == planned(
                probes,
                sessions,
            )[k].workspace_id,
{
    let current = current_probes(probes);
    lemma_actions(current, current.len() as int, sessions, k);
}

proof fn lemma_actions(
    current: Seq<ProbeSeen>,
    n: int,
    sessions: Seq<TrackedSeen>,
    k: int,
)
    requires
        0 <= n <= current.len(),
        0 <= k < actions_for(current, n, sessions).len(),
    ensures
        exists|i: int|
            0 <= i < sessions.len() && #[trigger] sessions[i].running && sessions[i].session_id
                == actions_for(current, n, sessions)[k].session_id && sessions[i].workspace_id
                == actions_for(current, n, sessions)[k].workspace_id,
    decreases n,
{
    if n > 0 {
        let before = actions_for(current, n - 1, sessions);
        if k < before.len() {
            lemma_actions(current, n - 1, sessions, k);
        } else {
            let p = current[n - 1];
            let by_id = |s: TrackedSeen| s.claude_session_id == Some(p.sid);
            list::lemma_first_where(sessions, by_id);
            match list::first_where(sessions, by_id) {
                Some(i) => {
                    assert(sessions[i].running);
                },
                None => {
                    let cwd = p.cwd->0;
                    let by_cwd = |s: TrackedSeen| is_stale(s, cwd, current);
                    list::lemma_first_where(sessions, by_cwd);
                    let i = list::first_where(sessions, by_cwd)->0;
                    assert(sessions[i].running);
                },
            }
        }
    }
}

/// What a status file says, where it says enough.
pub open spec fn probe_seen(p: Probe) -> Option<ProbeSeen> {
    match (p.session_id, p.status) {
        (Some(sid), Some(status)) => match probe::status_state(status@) {
            Some(state) => Some(
                ProbeSeen {
                    sid: sid@,
                    cwd: text::maybe(p.cwd),
                    state,
                    status_updated_at: p.status_updated_at,
                },
            ),
            None => None,
        },
        _ => None,
    }
}

/// What the status files say that say enough.
pub open spec fn probes_read(probes: Seq<Probe>) -> Seq<ProbeSeen>
    decreases probes.len(),
{
    if probes.len() == 0 {
        seq![]
    } else {
        let before = probes_read(probes.drop_last());
        match probe_seen(probes.last()) {
            Some(p) => before.push(p),
            None => before,
        }
    }
}

/// The sessions of a workspace, and which of them run.
pub open spec fn tracked_in(ws: Workspace, running: Seq<String>) -> Seq<TrackedSeen> {
    ws.sessions@.map_values(
        |m: ClaudeSessionMeta|
            TrackedSeen {
                workspace_id: ws.id@,
                session_id: m.id@,
                cwd: Some(m.cwd@),
                claude_session_id: text::maybe(m.claude_session_id),
                running: text::views(running).contains(m.id@),
            },
    )
}

/// The sessions of all workspaces, and which of them run.
pub open spec fn all_tracked(workspaces: Seq<Workspace>, running: Seq<String>) -> Seq<TrackedSeen>
    decreases workspaces.len(),
{
    if workspaces.len() == 0 {
        seq![]
    } else {
        all_tracked(workspaces.drop_last(), running) + tracked_in(workspaces.last(), running)
    }
}

fn borrowed(o: &Option<String>) -> (r: Option<&str>)
    ensures
        text::given(r) == text::maybe(*o),
{
    match o {
        Some(s) => Some(s.as_str()),
        None => None,
    }
}

fn probe_views(probes: &[Probe]) -> (r: Vec<ProbeView<'_>>)
    ensures
        probes_seen(r@) == probes_read(probes@),
{
    let mut r: Vec<ProbeView<'_>> = Vec::new();
    let mut i: usize = 0;
    assert(probes@.take(0).len() == 0);
    assert(probes_seen(r@) =~= seq![]);
    while i < probes.len()
        invariant
            i <= probes.len(),
            probes_seen(r@) == probes_read(probes@.take(i as int)),
        decreases probes.len() - i,
    {
        let ghost before = r@;
        let p = &probes[i];
        proof {
            assert(probes@.take(i + 1).drop_last() =~= probes@.take(i as int));
            assert(probes@.take(i + 1).last() == *p);
        }
        if let (Some(sid), Some(status)) = (&p.session_id, &p.status) {
            if let Some(state) = probe::state_from_status(status) {
                let v = ProbeView {
                    sid: sid.as_str(),
                    cwd: borrowed(&p.cwd),
                    state,
                    status_updated_at: p.status_updated_at,
                };
                r.push(v);
                assert(probes_seen(r@) =~= probes_seen(before).push(v@));
            }
        }
        i = i + 1;
    }
    assert(probes@.take(i as int) =~= probes@);
    r
}

fn track_in<'a>(ws: &'a Workspace, running: &[SessionId], r: &mut Vec<TrackedSession<'a>>)
    ensures
        sessions_seen(final(r)@) == sessions_seen(old(r)@) + tracked_in(*ws, running@),
{
    let ghost before = sessions_seen(r@);
    let ghost all = tracked_in(*ws, running@);
    let mut i: usize = 0;
    assert(before + all.take(0) =~= before);
    while i < ws.sessions.len()
        invariant
            i <= ws.sessions.len(),
            all == tracked_in(*ws, running@),
            sessions_seen(r@) == before + all.take(i as int),
        decreases ws.sessions.len() - i,
    {
        let ghost had = r@;
        let m = &ws.sessions[i];
        let s = TrackedSession {
            workspace_id: ws.id.as_str(),
            session_id: &m.id,
            cwd: Some(m.cwd.as_str()),
            claude_session_id: borrowed(&m.claude_session_id),
            running: text::among(running, &m.id),
        };
        r.push(s);
        assert(s@ == all[i as int]);
        assert(sessions_seen(r@) =~= sessions_seen(had).push(s@));
        i = i + 1;
        assert(sessions_seen(r@) =~= before + all.take(i as int));
    }
    assert(all.take(i as int) =~= all);
}

fn tracked_sessions<'a>(state: &'a AppState, running: &[SessionId]) -> (r: Vec<TrackedSession<'a>>)
    ensures
        sessions_seen(r@) == all_tracked(state.workspaces@, running@),
{
    let mut r: Vec<TrackedSession<'a>> = Vec::new();
    let mut i: usize = 0;
    assert(state.workspaces@.take(0).len() == 0);
    assert(sessions_seen(r@) =~= seq![]);
    while i < state.workspaces.len()
        invariant
            i <= state.workspaces.len(),
            sessions_seen(r@) == all_tracked(state.workspaces@.take(i as int), running@),
        decreases state.workspaces.len() - i,
    {
        track_in(&state.workspaces[i], running, &mut r);
        assert(state.workspaces@.take(i + 1).drop_last() =~= state.workspaces@.take(i as int));
        assert(state.workspaces@.take(i + 1).last() == state.workspaces@[i as int]);
        i = i + 1;
    }
    assert(state.workspaces@.take(i as int) =~= state.workspaces@);
    r
}

/// Decide what the status files change in the application's state. A session that
/// does not run is never touched.
pub fn reconcile_probes(probes: &[Probe], state: &AppState, running: &[SessionId]) -> (r: Vec<
    ProbeAction,
>)
    ensures
        actions(r@) == planned(probes_read(probes@), all_tracked(state.workspaces@, running@)),
{
    plan_probe_reconciliation(&probe_views(probes), &tracked_sessions(state, running))
}

/// Write down the id that an agent has given a session now.
pub fn heal_session_id(ws: &mut Workspace, session_id: &str, claude_session_id: String)
    ensures
        *final(ws) == (Workspace { sessions: final(ws).sessions, ..*old(ws) }),
        match old(ws).session_at(session_id@) {
            Some(i) => final(ws).sessions@ == old(ws).sessions@.update(
                i,
                ClaudeSessionMeta {
                    claude_session_id: Some(claude_session_id),
                    ..old(ws).sessions@[i]
                },
            ),
            None => final(ws).sessions@ == old(ws).sessions@,
        },
{
    if let Some(i) = ws.session_index(session_id) {
        let m = &mut ws.sessions[i];
        m.claude_session_id = Some(claude_session_id);
    }
}

/// What a hook means for a session.
#[derive(Debug)]
pub enum HookReaction {
    /// The agent has started and says under which id.
    SessionStart,
    /// It is somebody else's turn now.
    Turn { state: SessionRuntimeState, notification_type: Option<String> },
    Ignore,
}

/// What an event means.
///
/// A tool that has finished also says that a prompt was answered, for which there
/// is no event of its own.
pub open spec fn hook_turn(event: Seq<char>, notification_type: Option<Seq<char>>) -> Option<
    (SessionRuntimeState, Option<Seq<char>>),
> {
    if event == "user-submit"@ || event == "pre-tool"@ || event == "post-tool"@ {
        Some((SessionRuntimeState::Working, None))
    } else if event == "stop"@ || event == "stop-failure"@ {
        Some((SessionRuntimeState::Idle, None))
    } else if event == "notify"@ {
        if notification_type == Some("permission_prompt"@) || notification_type == Some(
            "idle_prompt"@,
        ) {
            Some((SessionRuntimeState::WaitingInput, notification_type))
        } else {
            None
        }
    } else if event == "permission-request"@ {
        Some((SessionRuntimeState::WaitingInput, Some("permission_request"@)))
    } else if event == "elicitation"@ {
        Some((SessionRuntimeState::WaitingInput, Some("elicitation"@)))
    } else {
        None
    }
}

/// Whose turn it is after an event, for every name that an event can have. The agent
/// works on what the user has sent and on a tool, before and after it is used. It is
/// idle once it has stopped, whether that went well or not, and on no other event. It
/// waits for the user where it asks for a permission or for an answer, and on the two
/// notes that say that it waits; another note, and an event of any other name, says
/// nothing of the turn.
pub proof fn an_event_says_whose_turn_it_is(event: Seq<char>, note: Option<Seq<char>>)
    ensures
        hook_turn("user-submit"@, note) == Some((SessionRuntimeState::Working, None::<Seq<char>>)),
        hook_turn("pre-tool"@, note) == Some((SessionRuntimeState::Working, None::<Seq<char>>)),
        hook_turn("post-tool"@, note) == Some((SessionRuntimeState::Working, None::<Seq<char>>)),
        hook_turn("stop"@, note) == Some((SessionRuntimeState::Idle, None::<Seq<char>>)),
        hook_turn("stop-failure"@, note) == Some((SessionRuntimeState::Idle, None::<Seq<char>>)),
        hook_turn("permission-request"@, note) == Some(
            (SessionRuntimeState::WaitingInput, Some("permission_request"@)),
        ),
        hook_turn("elicitation"@, note) == Some(
            (SessionRuntimeState::WaitingInput, Some("elicitation"@)),
        ),
        hook_turn("notify"@, note) == (if note == Some("permission_prompt"@) || note == Some(
            "idle_prompt"@,
        ) {
            Some((SessionRuntimeState::WaitingInput, note))
        } else {
            None
        }),
        (hook_turn(event, note) matches Some((state, _)) && state is Idle) ==> event == "stop"@
            || event == "stop-failure"@,
        (hook_turn(event, note) matches Some((state, _)) && state is Working) ==> event
            == "user-submit"@ || event == "pre-tool"@ || event == "post-tool"@,
        (hook_turn(event, note) matches Some((state, _)) && state is WaitingInput) ==> event
            == "permission-request"@ || event == "elicitation"@ || event == "notify"@,
        hook_turn(event, note) is Some ==> event == "user-submit"@ || event == "pre-tool"@
            || event == "post-tool"@ || event == "stop"@ || event == "stop-failure"@ || event
            == "permission-request"@ || event == "elicitation"@ || event == "notify"@,
{
    reveal_strlit("user-submit");
    reveal_strlit("pre-tool");
    reveal_strlit("post-tool");
    reveal_strlit("stop");
    reveal_strlit("stop-failure");
    reveal_strlit("notify");
    reveal_strlit("permission-request");
    reveal_strlit("elicitation");
    assert("user-submit"@.len() == 11 && "elicitation"@.len() == 11 && "pre-tool"@.len() == 8);
    assert("post-tool"@.len() == 9 && "stop"@.len() == 4 && "stop-failure"@.len() == 12);
    assert("notify"@.len() == 6 && "permission-request"@.len() == 18);
    assert("elicitation"@[0] != "user-submit"@[0]);
}

/// What a hook means for the session that it comes from.
pub fn handle_hook_event(msg: &HookMessage) -> (r: HookReaction)
    ensures
        if msg.event@ == "session-start"@ {
            r is SessionStart
        } else {
            match hook_turn(msg.event@, text::maybe(msg.notification_type)) {
                Some((s, n)) => r matches HookReaction::Turn { state, notification_type } && state
                    == s && text::maybe(notification_type) == n,
                None => r is Ignore,
            }
        },
{
    let event = &msg.event;
    proof {
        reveal_strlit("session-start");
        reveal_strlit("user-submit");
        reveal_strlit("pre-tool");
        reveal_strlit("post-tool");
        reveal_strlit("stop");
        reveal_strlit("stop-failure");
        reveal_strlit("notify");
        reveal_strlit("permission-request");
        reveal_strlit("elicitation");
    }
    if text::same(event, "session-start") {
        HookReaction::SessionStart
    } else if text::same(event, "user-submit") || text::same(event, "pre-tool") || text::same(
        event,
        "post-tool",
    ) {
        HookReaction::Turn { state: SessionRuntimeState::Working, notification_type: None }
    } else if text::same(event, "stop") || text::same(event, "stop-failure") {
        HookReaction::Turn { state: SessionRuntimeState::Idle, notification_type: None }
    } else if text::same(event, "notify") {
        match &msg.notification_type {
            Some(n) => if text::same(n, "permission_prompt") || text::same(n, "idle_prompt") {
                HookReaction::Turn {
                    state: SessionRuntimeState::WaitingInput,
                    notification_type: Some(n.clone()),
                }
            } else {
                HookReaction::Ignore
            },
            None => HookReaction::Ignore,
        }
    } else if text::same(event, "permission-request") {
        HookReaction::Turn {
            state: SessionRuntimeState::WaitingInput,
            notification_type: Some("permission_request".to_owned()),
        }
    } else if text::same(event, "elicitation") {
        HookReaction::Turn {
            state: SessionRuntimeState::WaitingInput,
            notification_type: Some("elicitation".to_owned()),
        }
    } else {
        HookReaction::Ignore
    }
}

/// The sessions of all workspaces, each with its workspace's id.
pub open spec fn placed(workspaces: Seq<Workspace>) -> Seq<(WorkspaceId, ClaudeSessionMeta)>
    decreases workspaces.len(),
{
    if workspaces.len() == 0 {
        seq![]
    } else {
        let ws = workspaces.last();
        placed(workspaces.drop_last()) + ws.sessions@.map_values(
            |m: ClaudeSessionMeta| (ws.id, m),
        )
    }
}

proof fn lemma_placed(workspaces: Seq<Workspace>, i: int, j: int)
    requires
        0 <= i < workspaces.len(),
        0 <= j < workspaces[i].sessions@.len(),
    ensures
        placed(workspaces.take(i)).len() + j < placed(workspaces).len(),
        placed(workspaces)[placed(workspaces.take(i)).len() + j] == (
            workspaces[i].id,
            workspaces[i].sessions@[j],
        ),
    decreases workspaces.len(),
{
    let rest = workspaces.drop_last();
    if i == rest.len() {
        assert(workspaces.take(i) =~= rest);
    } else {
        lemma_placed(rest, i, j);
        assert(rest.take(i) =~= workspaces.take(i));
    }
}

proof fn lemma_placed_len(workspaces: Seq<Workspace>, i: int)
    requires
        0 <= i < workspaces.len(),
    ensures
        placed(workspaces.take(i + 1)).len() == placed(workspaces.take(i)).len()
            + workspaces[i].sessions@.len(),
{
    assert(workspaces.take(i + 1).drop_last() =~= workspaces.take(i));
    assert(workspaces.take(i + 1).last() == workspaces[i]);
}

/// What a hook can know a session by.
#[derive(Clone, Copy, Debug)]
pub enum Mark {
    /// The id that the agent gave it.
    Id,
    /// The directory that it runs in.
    Dir,
}

/// Whether this mark of a session is `wanted`.
pub open spec fn bears(m: ClaudeSessionMeta, mark: Mark, wanted: Seq<char>) -> bool {
    match mark {
        Mark::Id => text::maybe(m.claude_session_id) == Some(wanted),
        Mark::Dir => m.cwd@ == wanted,
    }
}

/// The first session whose mark is `wanted`, with its workspace.
pub open spec fn first_bearing(
    workspaces: Seq<Workspace>,
    mark: Mark,
    wanted: Option<Seq<char>>,
) -> Option<(WorkspaceId, ClaudeSessionMeta)> {
    match wanted {
        Some(w) => list::first_of(
            placed(workspaces),
            |p: (WorkspaceId, ClaudeSessionMeta)| bears(p.1, mark, w),
        ),
        None => None,
    }
}

/// The session that a hook speaks of: the first that goes by its id, else the
/// first that goes by the id of the session that a subagent belongs to, else the
/// first in its directory, which stays when the id changes.
pub open spec fn hook_session(
    workspaces: Seq<Workspace>,
    id: Seq<char>,
    parent: Option<Seq<char>>,
    cwd: Option<Seq<char>>,
) -> Option<(WorkspaceId, ClaudeSessionMeta)> {
    match first_bearing(workspaces, Mark::Id, Some(id)) {
        Some(p) => Some(p),
        None => match first_bearing(workspaces, Mark::Id, parent) {
            Some(p) => Some(p),
            None => first_bearing(workspaces, Mark::Dir, cwd),
        },
    }
}

/// Find the first session whose mark is `wanted`.
fn find_bearing(state: &AppState, mark: Mark, wanted: &str) -> (r: Option<
    (WorkspaceId, SessionId),
>)
    ensures
        match first_bearing(state.workspaces@, mark, Some(wanted@)) {
            Some((ws, m)) => r matches Some((w, s)) && w == ws && s == m.id,
            None => r is None,
        },
{
    let ghost all = placed(state.workspaces@);
    let ghost fits = |p: (WorkspaceId, ClaudeSessionMeta)| bears(p.1, mark, wanted@);
    let mut i: usize = 0;
    assert(state.workspaces@.take(0).len() == 0);
    while i < state.workspaces.len()
        invariant
            i <= state.workspaces.len(),
            all == placed(state.workspaces@),
            fits == (|p: (WorkspaceId, ClaudeSessionMeta)| bears(p.1, mark, wanted@)),
            placed(state.workspaces@.take(i as int)).len() <= all.len(),
            forall|k: int|
                0 <= k < placed(state.workspaces@.take(i as int)).len() ==> !fits(
                    #[trigger] all[k],
                ),
        decreases state.workspaces.len() - i,
    {
        let ws = &state.workspaces[i];
        let ghost base = placed(state.workspaces@.take(i as int)).len() as int;
        let mut j: usize = 0;
        while j < ws.sessions.len()
            invariant
                i < state.workspaces.len(),
                *ws == state.workspaces@[i as int],
                j <= ws.sessions.len(),
                all == placed(state.workspaces@),
                base == placed(state.workspaces@.take(i as int)).len(),
                base + j <= all.len(),
                fits == (|p: (WorkspaceId, ClaudeSessionMeta)| bears(p.1, mark, wanted@)),
                forall|k: int| 0 <= k < base + j ==> !fits(#[trigger] all[k]),
            decreases ws.sessions.len() - j,
        {
            let m = &ws.sessions[j];
            proof {
                lemma_placed(state.workspaces@, i as int, j as int);
                assert(all[base + j] == (ws.id, *m));
            }
            let known = match mark {
                Mark::Id => match &m.claude_session_id {
                    Some(c) => text::same(c, wanted),
                    None => false,
                },
                Mark::Dir => text::same(&m.cwd, wanted),
            };
            assert(known == fits(all[base + j]));
            if known {
                proof {
                    list::lemma_first_where_is(all, fits, base + j);
                }
                return Some((ws.id.clone(), m.id.clone()));
            }
            j = j + 1;
        }
        proof {
            lemma_placed_len(state.workspaces@, i as int);
        }
        i = i + 1;
    }
    proof {
        assert(state.workspaces@.take(i as int) =~= state.workspaces@);
        list::lemma_first_where_none(all, fits);
    }
    None
}

/// Find the session that a hook speaks of.
pub fn find_hook_session(state: &AppState, msg: &HookMessage) -> (r: Option<
    (WorkspaceId, SessionId),
>)
    ensures
        match msg.session_id {
            None => r is None,
            Some(id) => match hook_session(
                state.workspaces@,
                id@,
                match msg.transcript_path {
                    Some(t) => parent_session(t@),
                    None => None,
                },
                text::maybe(msg.cwd),
            ) {
                Some((ws, m)) => r matches Some((w, s)) && w == ws && s == m.id,
                None => r is None,
            },
        },
{
    let id = match &msg.session_id {
        Some(id) => id,
        None => {
            return None;
        },
    };
    let own = find_bearing(state, Mark::Id, id);
    if own.is_some() {
        return own;
    }
    let parent = match &msg.transcript_path {
        Some(t) => parent_session_from_subagent_path(t),
        None => None,
    };
    if let Some(p) = &parent {
        let above = find_bearing(state, Mark::Id, p);
        if above.is_some() {
            return above;
        }
    }
    match &msg.cwd {
        Some(c) => find_bearing(state, Mark::Dir, c),
        None => None,
    }
}

/// A change of turn, as it is written down and shown.
#[derive(Debug)]
pub struct TurnChanged {
    pub workspace_id: WorkspaceId,
    pub session_id: SessionId,
    pub runtime_state: SessionRuntimeState,
    pub notification_type: Option<String>,
    pub turn_acknowledged: bool,
}

/// Write a change of turn down with its session, so that it survives a restart.
pub fn persist_turn(ws: &mut Workspace, changed: TurnChanged)
    ensures
        *final(ws) == (Workspace { sessions: final(ws).sessions, ..*old(ws) }),
        match old(ws).session_at(changed.session_id@) {
            Some(i) => final(ws).sessions@ == old(ws).sessions@.update(
                i,
                ClaudeSessionMeta {
                    runtime_state: Some(changed.runtime_state),
                    notification_type: changed.notification_type,
                    turn_acknowledged: changed.turn_acknowledged,
                    ..old(ws).sessions@[i]
                },
            ),
            None => final(ws).sessions@ == old(ws).sessions@,
        },
{
    if let Some(i) = ws.session_index(&changed.session_id) {
        let m = &mut ws.sessions[i];
        m.runtime_state = Some(changed.runtime_state);
        m.notification_type = changed.notification_type;
        m.turn_acknowledged = changed.turn_acknowledged;
    }
}

/// A session that was spawned and has not reported itself yet.
#[derive(Debug)]
pub struct PendingSpawn {
    pub token: String,
    pub workspace_id: WorkspaceId,
    pub session_id: SessionId,
    pub expires_at: i64,
}

/// Being waited for under this token.
pub open spec fn under(token: Seq<char>) -> spec_fn(PendingSpawn) -> bool {
    |p: PendingSpawn| p.token@ == token
}

/// Where a token stands among the spawns.
pub open spec fn pending_at(pending: Seq<PendingSpawn>, token: Seq<char>) -> Option<int> {
    list::first_where(pending, under(token))
}

/// Whether no token is waited for twice.
pub open spec fn tokens_distinct(pending: Seq<PendingSpawn>) -> bool {
    forall|i: int, j: int|
        0 <= i < j < pending.len() ==> (#[trigger] pending[i]).token@ != (
        #[trigger] pending[j]).token@
}

/// What a session's own report leads to.
#[derive(Debug)]
pub enum SessionStart {
    /// The session was not spawned from here.
    NotOurs,
    /// The report does not say under which id the session goes.
    Nameless,
    /// Nobody waits for this session.
    Unexpected,
    Correlated {
        workspace_id: WorkspaceId,
        session_id: SessionId,
        claude_session_id: String,
        transcript_path: Option<String>,
    },
}

/// The sessions that were started, and those of them that have not reported
/// themselves yet.
#[derive(Debug)]
pub struct SessionSupervisor {
    pub sessions: Vec<SessionInfo>,
    pub pending: Vec<PendingSpawn>,
}

/// A session as it is when it was just started.
pub open spec fn started(
    info: SessionInfo,
    id: Seq<char>,
    workspace_id: Seq<char>,
    repo_key: Option<String>,
    cwd: Seq<char>,
    state: SessionRuntimeState,
) -> bool {
    &&& info.id@ == id
    &&& info.workspace_id@ == workspace_id
    &&& info.repo_key == repo_key
    &&& info.cwd@ == cwd
    &&& info.running
    &&& info.runtime_state == state
    &&& info.notification_type is None
    &&& !info.turn_acknowledged
    &&& !info.needs_turn
    &&& !info.working
}

/// Whose turn it is in a session, as it was last seen.
#[derive(Debug)]
pub struct TurnSeen {
    pub session_id: SessionId,
    pub runtime_state: SessionRuntimeState,
    pub notification_type: Option<String>,
    pub turn_acknowledged: bool,
    pub needs_turn: bool,
    pub working: bool,
}

/// Being a session of this workspace.
pub open spec fn in_workspace(workspace_id: Seq<char>) -> spec_fn(SessionInfo) -> bool {
    |s: SessionInfo| s.workspace_id@ == workspace_id
}

/// What was last seen of whose turn it is in a session.
pub open spec fn turn_of(turns: Seq<TurnSeen>, id: Seq<char>) -> Option<TurnSeen> {
    list::first_of(turns, |t: TurnSeen| t.session_id@ == id)
}

/// Whether `r` shows the session `s` as it is now: it runs unless it has ended, and
/// whose turn it is goes by what was seen of that, or where nothing was, by what is
/// kept.
pub open spec fn shows(
    s: SessionInfo,
    ended: Seq<Seq<char>>,
    turns: Seq<TurnSeen>,
    r: SessionInfo,
) -> bool {
    &&& r.id@ == s.id@
    &&& r.workspace_id@ == s.workspace_id@
    &&& text::maybe(r.repo_key) == text::maybe(s.repo_key)
    &&& r.cwd@ == s.cwd@
    &&& r.running == !ended.contains(s.id@)
    &&& match turn_of(turns, s.id@) {
        Some(t) => {
            &&& r.runtime_state == t.runtime_state
            &&& text::maybe(r.notification_type) == text::maybe(t.notification_type)
            &&& r.turn_acknowledged == t.turn_acknowledged
            &&& r.needs_turn == t.needs_turn
            &&& r.working == t.working
        },
        None => {
            &&& r.runtime_state == s.runtime_state
            &&& text::maybe(r.notification_type) == text::maybe(s.notification_type)
            &&& r.turn_acknowledged == s.turn_acknowledged
            &&& r.needs_turn == s.needs_turn
            &&& r.working == s.working
        },
    }
}

/// Whether `r` lists the sessions of a workspace as they are now, in their order.
pub open spec fn lists(
    sessions: Seq<SessionInfo>,
    workspace_id: Seq<char>,
    ended: Seq<Seq<char>>,
    turns: Seq<TurnSeen>,
    r: Seq<SessionInfo>,
) -> bool {
    &&& r.len() == sessions.filter(in_workspace(workspace_id)).len()
    &&& forall|i: int|
        0 <= i < r.len() ==> shows(
            sessions.filter(in_workspace(workspace_id))[i],
            ended,
            turns,
            #[trigger] r[i],
        )
}

/// Whether a session is among those that run.
pub open spec fn runs(live: Seq<SessionInfo>, id: Seq<char>) -> bool {
    exists|i: int| 0 <= i < live.len() && (#[trigger] live[i]).id@ == id && live[i].running
}

/// A session as it is now.
fn shown_now(s: &SessionInfo, ended: &[SessionId], turns: &[TurnSeen]) -> (r: SessionInfo)
    ensures
        shows(*s, text::views(ended@), turns@, r),
{
    let running = !text::among(ended, &s.id);
    let is = |t: &TurnSeen| -> (b: bool)
        ensures
            b == (t.session_id@ == s.id@),
        { text::same(&t.session_id, &s.id) };
    let at: Option<usize> = list::position(
        turns,
        is,
        Ghost(|t: TurnSeen| t.session_id@ == s.id@),
    );
    match at {
        Some(i) => SessionInfo {
            id: s.id.clone(),
            workspace_id: s.workspace_id.clone(),
            repo_key: s.repo_key.clone(),
            cwd: s.cwd.clone(),
            running,
            runtime_state: turns[i].runtime_state,
            notification_type: turns[i].notification_type.clone(),
            turn_acknowledged: turns[i].turn_acknowledged,
            needs_turn: turns[i].needs_turn,
            working: turns[i].working,
        },
        None => SessionInfo {
            id: s.id.clone(),
            workspace_id: s.workspace_id.clone(),
            repo_key: s.repo_key.clone(),
            cwd: s.cwd.clone(),
            running,
            runtime_state: s.runtime_state,
            notification_type: s.notification_type.clone(),
            turn_acknowledged: s.turn_acknowledged,
            needs_turn: s.needs_turn,
            working: s.working,
        },
    }
}

/// A session to be spawned.
#[derive(Debug)]
pub struct SpawnPlan {
    pub info: SessionInfo,
    /// Finds the session again when it reports itself.
    pub token: String,
    pub command: Vec<String>,
}

/// The session as it is when it was just started. One that waits for its first
/// prompt waits for input; one that is attached to again may be at work.
pub fn spawn_with_id(
    id: SessionId,
    workspace_id: String,
    repo_key: Option<String>,
    cwd: String,
    reattached: bool,
) -> (r: SessionInfo)
    ensures
        started(
            r,
            id@,
            workspace_id@,
            repo_key,
            cwd@,
            if reattached {
                SessionRuntimeState::Working
            } else {
                SessionRuntimeState::WaitingInput
            },
        ),
{
    SessionInfo {
        id,
        workspace_id,
        repo_key,
        cwd,
        running: true,
        runtime_state: if reattached {
            SessionRuntimeState::Working
        } else {
            SessionRuntimeState::WaitingInput
        },
        notification_type: None,
        turn_acknowledged: false,
        needs_turn: false,
        working: false,
    }
}

/// Plan a session: its id, the token that it is found again by, and its command
/// line, which has the id in it.
pub fn spawn_claude(
    workspace_id: &str,
    repo_key: Option<String>,
    cwd: &str,
    claude_bin: &str,
    resume_claude_session_id: Option<&str>,
    mcp: Option<&McpLaunch>,
    brief: Option<&str>,
) -> (r: SpawnPlan)
    ensures
        r.token@.len() == 36,
        r.info.id@.len() == 36,
        started(
            r.info,
            r.info.id@,
            workspace_id@,
            repo_key,
            cwd@,
            SessionRuntimeState::WaitingInput,
        ),
        text::views(r.command@) == agent_cmd::claude_command(
            claude_bin@,
            workspace_id@,
            r.info.id@,
            text::given(resume_claude_session_id),
            match mcp {
                Some(l) => Some(*l),
                None => None,
            },
            text::given(brief),
        ),
{
    let token = ids::fresh_id();
    let id = ids::fresh_id();
    let command = agent_cmd::claude(
        &Spawn {
            agent: Agent::Claude,
            agent_bin: claude_bin,
            workspace_id,
            session_id: id.as_str(),
            resume_session_id: resume_claude_session_id,
            mcp,
            brief,
        },
    );
    let info = spawn_with_id(id, workspace_id.to_owned(), repo_key, cwd.to_owned(), false);
    SpawnPlan { info, token, command }
}

/// The session that is attached to again, where the process behind it is still
/// there.
pub fn reattach_tmux(
    session_id: SessionId,
    workspace_id: String,
    repo_key: Option<String>,
    cwd: String,
    alive: bool,
) -> (r: Result<SessionInfo, AppError>)
    ensures
        if alive {
            r matches Ok(info) && started(
                info,
                session_id@,
                workspace_id@,
                repo_key,
                cwd@,
                SessionRuntimeState::Working,
            )
        } else {
            r matches Err(e) && e.says("tmux session "@ + session_id@ + " no longer exists"@)
        },
{
    if !alive {
        return Err(AppError::Other(text::cat3("tmux session ", &session_id, " no longer exists")));
    }
    Ok(spawn_with_id(session_id, workspace_id, repo_key, cwd, true))
}

impl SessionSupervisor {
    pub fn new() -> (r: Self)
        ensures
            r.sessions@.len() == 0,
            r.pending@.len() == 0,
    {
        SessionSupervisor { sessions: Vec::new(), pending: Vec::new() }
    }

    /// Where a session stands.
    pub open spec fn session_at(self, id: Seq<char>) -> Option<int> {
        list::first_where(self.sessions@, |s: SessionInfo| s.id@ == id)
    }

    /// Keep a session that was started. It takes the place of one with its id.
    pub fn insert(&mut self, info: SessionInfo)
        ensures
            final(self).pending == old(self).pending,
            final(self).sessions@ == old(self).sessions@.filter(
                |s: SessionInfo| s.id@ != info.id@,
            ).push(info),
    {
        let new = &info;
        let other = |s: &SessionInfo| -> (b: bool)
            ensures
                b == (s.id@ != new.id@),
            { !text::same(&s.id, &new.id) };
        list::keep(&mut self.sessions, other, Ghost(|s: SessionInfo| s.id@ != new.id@));
        self.sessions.push(info);
    }

    /// Wait for a session that was spawned to report itself. Those that were
    /// waited for in vain are forgotten.
    pub fn expect(&mut self, token: String, workspace_id: String, session_id: SessionId, now: i64)
        requires
            now <= i64::MAX - PENDING_TTL,
        ensures
            final(self).sessions == old(self).sessions,
            final(self).pending@ == old(self).pending@.filter(
                |p: PendingSpawn| p.expires_at > now && p.token@ != token@,
            ).push(
                (PendingSpawn {
                    token,
                    workspace_id,
                    session_id,
                    expires_at: (now + PENDING_TTL) as i64,
                }),
            ),
    {
        let t = &token;
        let keep = |p: &PendingSpawn| -> (b: bool)
            ensures
                b == (p.expires_at > now && p.token@ != t@),
            { p.expires_at > now && !text::same(&p.token, t) };
        list::keep(
            &mut self.pending,
            keep,
            Ghost(|p: PendingSpawn| p.expires_at > now && p.token@ != t@),
        );
        self.pending.push(
            PendingSpawn { token, workspace_id, session_id, expires_at: now + PENDING_TTL },
        );
    }

    /// Take the report of a session that has started.
    pub fn handle_session_start(&mut self, msg: HookMessage) -> (r: SessionStart)
        ensures
            final(self).sessions == old(self).sessions,
            match (msg.spawn_token, msg.session_id) {
                (None, _) => r is NotOurs && final(self).pending@ == old(self).pending@,
                (Some(_), None) => r is Nameless && final(self).pending@ == old(self).pending@,
                (Some(token), Some(id)) => match pending_at(old(self).pending@, token@) {
                    None => r is Unexpected && final(self).pending@ == old(self).pending@,
                    Some(i) => r == (SessionStart::Correlated {
                        workspace_id: old(self).pending@[i].workspace_id,
                        session_id: old(self).pending@[i].session_id,
                        claude_session_id: id,
                        transcript_path: msg.transcript_path,
                    }) && final(self).pending@ == old(self).pending@.remove(i),
                },
            },
    {
        let token = match msg.spawn_token {
            Some(t) => t,
            None => {
                return SessionStart::NotOurs;
            },
        };
        let claude_session_id = match msg.session_id {
            Some(id) => id,
            None => {
                return SessionStart::Nameless;
            },
        };
        let t = &token;
        let is = |p: &PendingSpawn| -> (b: bool)
            ensures
                b == (p.token@ == t@),
            { text::same(&p.token, t) };
        let at: Option<usize> = list::position(
            &self.pending,
            is,
            Ghost(under(t@)),
        );
        match at {
            Some(i) => {
                let p = self.pending.remove(i);
                SessionStart::Correlated {
                    workspace_id: p.workspace_id,
                    session_id: p.session_id,
                    claude_session_id,
                    transcript_path: msg.transcript_path,
                }
            },
            None => SessionStart::Unexpected,
        }
    }

    /// Find a session that somebody wants to see, write to or resize.
    pub fn find(&self, session_id: &str) -> (r: Result<usize, AppError>)
        ensures
            match self.session_at(session_id@) {
                Some(i) => r matches Ok(k) && k == i && k < self.sessions@.len(),
                None => r matches Err(e) && e.says("session not found: "@ + session_id@),
            },
    {
        let is = |s: &SessionInfo| -> (b: bool)
            ensures
                b == (s.id@ == session_id@),
            { text::same(&s.id, session_id) };
        let at: Option<usize> = list::position(
            &self.sessions,
            is,
            Ghost(|s: SessionInfo| s.id@ == session_id@),
        );
        match at {
            Some(i) => Ok(i),
            None => Err(AppError::Other(text::cat("session not found: ", session_id))),
        }
    }

    /// The sessions of a workspace as they are now: whether each still runs, and what
    /// is known of whose turn it is.
    pub fn list_for_workspace(
        &self,
        workspace_id: &str,
        ended: &[SessionId],
        turns: &[TurnSeen],
    ) -> (r: Vec<SessionInfo>)
        ensures
            lists(self.sessions@, workspace_id@, text::views(ended@), turns@, r@),
    {
        let ghost p = in_workspace(workspace_id@);
        let ghost all = self.sessions@;
        let ghost gone = text::views(ended@);
        let mut r: Vec<SessionInfo> = Vec::new();
        let mut i: usize = 0;
        proof {
            all.take(0).lemma_filter_len(p);
        }
        while i < self.sessions.len()
            invariant
                i <= self.sessions.len(),
                all == self.sessions@,
                p == in_workspace(workspace_id@),
                gone == text::views(ended@),
                lists(all.take(i as int), workspace_id@, gone, turns@, r@),
            decreases self.sessions.len() - i,
        {
            let s = &self.sessions[i];
            let ghost before = all.take(i as int);
            proof {
                assert(all.take(i + 1) =~= before.push(*s));
                before.lemma_filter_push(*s, p);
            }
            if text::same(&s.workspace_id, workspace_id) {
                let info = shown_now(s, ended, turns);
                let ghost had = r@;
                r.push(info);
                assert forall|k: int| 0 <= k < r@.len() implies shows(
                    before.push(*s).filter(p)[k],
                    gone,
                    turns@,
                    #[trigger] r@[k],
                ) by {
                    if k < had.len() {
                        assert(r@[k] == had[k]);
                        assert(before.push(*s).filter(p)[k] == before.filter(p)[k]);
                    }
                }
            }
            i = i + 1;
        }
        assert(all.take(i as int) =~= all);
        r
    }
}

/// A session that has ended is listed as one that does not run, and every other one of
/// the workspace as one that does.
pub proof fn the_list_tells_what_runs(
    sessions: Seq<SessionInfo>,
    workspace_id: Seq<char>,
    ended: Seq<Seq<char>>,
    turns: Seq<TurnSeen>,
    listed: Seq<SessionInfo>,
    id: Seq<char>,
)
    requires
        lists(sessions, workspace_id, ended, turns, listed),
    ensures
        runs(listed, id) <==> !ended.contains(id) && exists|i: int|
            0 <= i < sessions.len() && (#[trigger] sessions[i]).id@ == id
                && sessions[i].workspace_id@ == workspace_id,
{
    let p = in_workspace(workspace_id);
    let kept = sessions.filter(p);
    list::lemma_filter_places(sessions, p);
    if runs(listed, id) {
        let k = choose|k: int|
            0 <= k < listed.len() && (#[trigger] listed[k]).id@ == id && listed[k].running;
        assert(shows(kept[k], ended, turns, listed[k]));
        let i = list::place_of(sessions, p, k);
        assert(sessions[i].id@ == id && p(sessions[i]));
    }
    if !ended.contains(id) && exists|i: int|
        0 <= i < sessions.len() && (#[trigger] sessions[i]).id@ == id && sessions[i].workspace_id@
            == workspace_id {
        let i = choose|i: int|
            0 <= i < sessions.len() && (#[trigger] sessions[i]).id@ == id
                && sessions[i].workspace_id@ == workspace_id;
        assert(p(sessions[i]));
        sessions.lemma_filter_contains(p, i);
        let k = choose|k: int| 0 <= k < kept.len() && kept[k] == sessions[i];
        assert(kept[k].id@ == id);
        assert(shows(kept[k], ended, turns, listed[k]));
        assert(listed[k].running);
    }
}

/// A session is waited for under one token at a time, and once it has reported
/// itself it is no longer waited for.
pub proof fn a_token_is_good_once(
    pending: Seq<PendingSpawn>,
    new: PendingSpawn,
    now: i64,
    token: Seq<char>,
)
    requires
        tokens_distinct(pending),
    ensures
        tokens_distinct(
            pending.filter(
                |p: PendingSpawn| p.expires_at > now && p.token@ != new.token@,
            ).push(new),
        ),
        pending_at(pending, token) matches Some(i) ==> pending_at(pending.remove(i), token) is None
            && tokens_distinct(pending.remove(i)),
{
    let keep = |p: PendingSpawn| p.expires_at > now && p.token@ != new.token@;
    list::lemma_filter_places(pending, keep);
    let kept = pending.filter(keep);
    let after = kept.push(new);
    assert forall|i: int, j: int| 0 <= i < j < after.len() implies (#[trigger] after[i]).token@ != (
    #[trigger] after[j]).token@ by {
        if j == kept.len() {
            assert(keep(kept[i]));
        } else {
            let a = list::place_of(pending, keep, i);
            let b = list::place_of(pending, keep, j);
            assert(kept[i] == pending[a] && kept[j] == pending[b] && a < b);
        }
    }
    let named = under(token);
    list::lemma_first_where(pending, named);
    if let Some(i) = pending_at(pending, token) {
        let rest = pending.remove(i);
        assert forall|k: int| 0 <= k < rest.len() implies rest[k] == (if k < i {
            pending[k]
        } else {
            pending[k + 1]
        }) by {}
        assert forall|k: int| 0 <= k < rest.len() implies !named(rest[k]) by {
            if k >= i {
                assert(pending[i].token@ != pending[k + 1].token@);
            }
        }
        list::lemma_first_where_none(rest, named);
        assert forall|a: int, b: int| 0 <= a < b < rest.len() implies (#[trigger] rest[a]).token@
            != (#[trigger] rest[b]).token@ by {
            let x = if a < i {
                a
            } else {
                a + 1
            };
            let y = if b < i {
                b
            } else {
                b + 1
            };
            assert(pending[x].token@ != pending[y].token@);
        }
    }
}

/// Write down what a session reported of itself. Says whether there is such a
/// session.
pub fn correlate(
    ws: &mut Workspace,
    session_id: &str,
    claude_session_id: String,
    transcript_path: Option<String>,
) -> (r: bool)
    ensures
        *final(ws) == (Workspace { sessions: final(ws).sessions, ..*old(ws) }),
        r == (old(ws).session_at(session_id@) is Some),
        match old(ws).session_at(session_id@) {
            Some(i) => final(ws).sessions@ == old(ws).sessions@.update(
                i,
                ClaudeSessionMeta {
                    claude_session_id: Some(claude_session_id),
                    transcript_path,
                    ..old(ws).sessions@[i]
                },
            ),
            None => final(ws).sessions@ == old(ws).sessions@,
        },
{
    match ws.session_index(session_id) {
        Some(i) => {
            let m = &mut ws.sessions[i];
            m.claude_session_id = Some(claude_session_id);
            m.transcript_path = transcript_path;
            true
        },
        None => false,
    }
}

/// A session that is asked for, however it came to that.
#[derive(Debug)]
pub struct StartSession<'a> {
    pub workspace_id: &'a str,
    /// `None` for a session at the workspace root.
    pub repo_key: Option<String>,
    pub tmux_bin: &'a str,
    /// The binary of this one session, which goes before the workspace's.
    pub session_binary: Option<&'a str>,
}

/// Where a session of a workspace runs.
pub open spec fn session_dir(ws: Workspace, repo_key: Option<String>) -> Option<Seq<char>> {
    match repo_key {
        Some(key) => match ws.link_at(key@) {
            Some(i) => Some(ws.repo_links@[i].worktree_path@),
            None => None,
        },
        None => ws.root_path(),
    }
}

/// What is said when there is no place for a session.
pub open spec fn no_place(workspace_id: Seq<char>, repo_key: Option<String>) -> Seq<char> {
    match repo_key {
        Some(key) => "no worktree for "@ + workspace_id + "/"@ + key@ + " in state"@,
        None => "workspace "@ + workspace_id + " has no repos — can't resolve a root dir"@,
    }
}

/// Decide where a session runs and under which binary: the session's own, else
/// the workspace's, else the usual one, for which no name is given.
pub fn start_session(state: &AppState, req: &StartSession) -> (r: Result<
    (String, Option<String>),
    AppError,
>)
    ensures
        if req.tmux_bin@.len() == 0 {
            r matches Err(e) && e.says(
                "tmux not found — install with `brew install tmux` and restart Tethys"@,
            )
        } else {
            let dir = match state.workspace_at(req.workspace_id@) {
                Some(i) => session_dir(state.workspaces@[i], req.repo_key),
                None => None,
            };
            match dir {
                Some(d) => r matches Ok((cwd, bin)) && cwd@ == d && text::maybe(bin) == (
                match req.session_binary {
                    Some(b) => Some(b@),
                    None => text::maybe(
                        state.workspaces@[state.workspace_at(req.workspace_id@)->0].claude_binary,
                    ),
                }),
                None => r matches Err(e) && e.says(no_place(req.workspace_id@, req.repo_key)),
            }
        },
{
    if req.tmux_bin.is_empty() {
        return Err(
            AppError::Other(
                "tmux not found — install with `brew install tmux` and restart Tethys".to_owned(),
            ),
        );
    }
    let mut found: Option<(String, Option<String>)> = None;
    if let Some(i) = state.workspace_index(req.workspace_id) {
        let ws = &state.workspaces[i];
        let dir = match &req.repo_key {
            Some(key) => match ws.link(key) {
                Some(l) => Some(l.worktree_path.clone()),
                None => None,
            },
            None => ws.root_buf(),
        };
        if let Some(cwd) = dir {
            let bin = match req.session_binary {
                Some(b) => Some(b.to_owned()),
                None => text::copied(&ws.claude_binary),
            };
            found = Some((cwd, bin));
        }
    }
    match found {
        Some(f) => Ok(f),
        None => match &req.repo_key {
            Some(key) => {
                let mut m = text::cat3("no worktree for ", req.workspace_id, "/");
                m.append(key);
                m.append(" in state");
                Err(AppError::Other(m))
            },
            None => Err(
                AppError::Other(
                    text::cat3(
                        "workspace ",
                        req.workspace_id,
                        " has no repos — can't resolve a root dir",
                    ),
                ),
            ),
        },
    }
}

/// What is kept of a session that was started.
pub open spec fn meta_of(info: SessionInfo, binary: Option<String>) -> ClaudeSessionMeta {
    ClaudeSessionMeta {
        id: info.id,
        kind: SessionKind::Claude,
        repo_key: info.repo_key,
        cwd: info.cwd,
        claude_session_id: None,
        transcript_path: None,
        claude_binary: binary,
        hidden: false,
        runtime_state: None,
        notification_type: None,
        turn_acknowledged: false,
    }
}

/// The sessions of a workspace once one was started. One that takes a
/// conversation up again replaces those that had it before.
pub open spec fn recorded(
    sessions: Seq<ClaudeSessionMeta>,
    meta: ClaudeSessionMeta,
    resumed: Option<Seq<char>>,
) -> Seq<ClaudeSessionMeta> {
    (match resumed {
        Some(c) => sessions.filter(
            |m: ClaudeSessionMeta| text::maybe(m.claude_session_id) != Some(c),
        ),
        None => sessions,
    }).filter(|m: ClaudeSessionMeta| m.id@ != meta.id@).push(meta)
}

/// Keep what makes a session resumable.
pub fn record_session(
    ws: &mut Workspace,
    info: &SessionInfo,
    session_binary: Option<&str>,
    resume_claude_sid: Option<&str>,
)
    ensures
        *final(ws) == (Workspace { sessions: final(ws).sessions, ..*old(ws) }),
        exists|binary: Option<String>|
            text::maybe(binary) == text::given(session_binary) && final(ws).sessions@ == recorded(
                old(ws).sessions@,
                #[trigger] meta_of(*info, binary),
                text::given(resume_claude_sid),
            ),
{
    let binary = match session_binary {
        Some(b) => Some(b.to_owned()),
        None => None,
    };
    let ghost named = binary;
    if let Some(c) = resume_claude_sid {
        let other = |m: &ClaudeSessionMeta| -> (b: bool)
            ensures
                b == (text::maybe(m.claude_session_id) != Some(c@)),
            {
                match &m.claude_session_id {
                    Some(s) => !text::same(s, c),
                    None => true,
                }
            };
        list::keep(
            &mut ws.sessions,
            other,
            Ghost(|m: ClaudeSessionMeta| text::maybe(m.claude_session_id) != Some(c@)),
        );
    }
    let other = |m: &ClaudeSessionMeta| -> (b: bool)
        ensures
            b == (m.id@ != info.id@),
        { !text::same(&m.id, &info.id) };
    list::keep(
        &mut ws.sessions,
        other,
        Ghost(|m: ClaudeSessionMeta| m.id@ != info.id@),
    );
    ws.sessions.push(
        ClaudeSessionMeta {
            id: info.id.clone(),
            kind: SessionKind::Claude,
            repo_key: text::copied(&info.repo_key),
            cwd: info.cwd.clone(),
            claude_session_id: None,
            transcript_path: None,
            claude_binary: binary,
            hidden: false,
            runtime_state: None,
            notification_type: None,
            turn_acknowledged: false,
        },
    );
    assert(ws.sessions@ == recorded(
        old(ws).sessions@,
        meta_of(*info, named),
        text::given(resume_claude_sid),
    ));
}

/// A workspace never lists a session twice, and a conversation that was taken up
/// again is listed by its new session alone.
pub proof fn a_conversation_is_listed_once(
    sessions: Seq<ClaudeSessionMeta>,
    meta: ClaudeSessionMeta,
    resumed: Option<Seq<char>>,
    i: int,
)
    requires
        meta.claude_session_id is None,
        0 <= i < recorded(sessions, meta, resumed).len(),
    ensures
        recorded(sessions, meta, resumed).last() == meta,
        i < recorded(sessions, meta, resumed).len() - 1 ==> recorded(sessions, meta, resumed)[i].id@
            != meta.id@,
        resumed matches Some(c) ==> text::maybe(
            recorded(sessions, meta, resumed)[i].claude_session_id,
        ) != Some(c),
        resumed is None && i < recorded(sessions, meta, resumed).len() - 1 ==> sessions.contains(
            recorded(sessions, meta, resumed)[i],
        ),
{
    let other = |m: ClaudeSessionMeta| m.id@ != meta.id@;
    let first = match resumed {
        Some(c) => sessions.filter(
            |m: ClaudeSessionMeta| text::maybe(m.claude_session_id) != Some(c),
        ),
        None => sessions,
    };
    list::lemma_filter_places(first, other);
    let kept = first.filter(other);
    if i < kept.len() {
        let a = list::place_of(first, other, i);
        assert(kept[i] == first[a]);
        if resumed is Some {
            let c = resumed->0;
            let not = |m: ClaudeSessionMeta| text::maybe(m.claude_session_id) != Some(c);
            list::lemma_filter_places(sessions, not);
            assert(not(sessions.filter(not)[a]));
        }
    }
}

/// Whether a file's time is before another's: one without a time is before any with one.
pub open spec fn earlier(a: Option<i64>, b: Option<i64>) -> bool {
    match (a, b) {
        (Some(x), Some(y)) => x < y,
        (None, Some(_)) => true,
        _ => false,
    }
}

/// Whether the `i`-th file is the one to go by: it names no directory, or it is the
/// newest for its directory, and the first of those.
pub open spec fn speaks(probes: Seq<ProbeSeen>, i: int) -> bool {
    probes[i].cwd is None || forall|j: int|
        0 <= j < probes.len() && (#[trigger] probes[j]).cwd == probes[i].cwd ==> earlier(
            probes[j].status_updated_at,
            probes[i].status_updated_at,
        ) || (probes[j].status_updated_at == probes[i].status_updated_at && i <= j)
}

proof fn lemma_freshest_has(probes: Seq<ProbeSeen>, from: int, i: int)
    requires
        0 <= from <= i < probes.len(),
    ensures
        is_freshest(probes, i) ==> freshest_from(probes, from).contains(probes[i]),
        probes[i].cwd is None ==> homeless_from(probes, from).contains(probes[i]),
    decreases i - from,
{
    let f = freshest_from(probes, from);
    let h = homeless_from(probes, from);
    if from == i {
        if is_freshest(probes, i) {
            assert(f[0] == probes[i]);
        }
        if probes[i].cwd is None {
            assert(h[0] == probes[i]);
        }
    } else {
        lemma_freshest_has(probes, from + 1, i);
        let f1 = freshest_from(probes, from + 1);
        let h1 = homeless_from(probes, from + 1);
        if is_freshest(probes, i) {
            let k = choose|k: int| 0 <= k < f1.len() && f1[k] == probes[i];
            assert(f[k + (f.len() - f1.len())] == probes[i]);
        }
        if probes[i].cwd is None {
            let k = choose|k: int| 0 <= k < h1.len() && h1[k] == probes[i];
            assert(h[k + (h.len() - h1.len())] == probes[i]);
        }
    }
}

proof fn lemma_speaks(probes: Seq<ProbeSeen>, i: int) -> (n: int)
    requires
        0 <= i < probes.len(),
        speaks(probes, i),
    ensures
        0 <= n < current_probes(probes).len(),
        current_probes(probes)[n] == probes[i],
{
    let h = homeless_from(probes, 0);
    let f = freshest_from(probes, 0);
    lemma_freshest_has(probes, 0, i);
    if probes[i].cwd is None {
        let k = choose|k: int| 0 <= k < h.len() && h[k] == probes[i];
        assert((h + f)[k] == probes[i]);
        k
    } else {
        assert(is_freshest(probes, i));
        let k = choose|k: int| 0 <= k < f.len() && f[k] == probes[i];
        assert((h + f)[h.len() + k] == probes[i]);
        h.len() + k
    }
}

proof fn lemma_from_probes(probes: Seq<ProbeSeen>, from: int)
    requires
        0 <= from,
    ensures
        forall|k: int|
            0 <= k < homeless_from(probes, from).len() ==> probes.contains(
                #[trigger] homeless_from(probes, from)[k],
            ),
        forall|k: int|
            0 <= k < freshest_from(probes, from).len() ==> probes.contains(
                #[trigger] freshest_from(probes, from)[k],
            ),
    decreases probes.len() - from,
{
    if from < probes.len() {
        lemma_from_probes(probes, from + 1);
        assert(probes.contains(probes[from]));
        let h = homeless_from(probes, from);
        let f = freshest_from(probes, from);
        let h1 = homeless_from(probes, from + 1);
        let f1 = freshest_from(probes, from + 1);
        assert forall|k: int| 0 <= k < h.len() implies probes.contains(#[trigger] h[k]) by {
            let d = h.len() - h1.len();
            if k >= d {
                assert(h[k] == h1[k - d]);
            }
        }
        assert forall|k: int| 0 <= k < f.len() implies probes.contains(#[trigger] f[k]) by {
            let d = f.len() - f1.len();
            if k >= d {
                assert(f[k] == f1[k - d]);
            }
        }
    }
}

proof fn lemma_action_is_planned(
    current: Seq<ProbeSeen>,
    n: int,
    sessions: Seq<TrackedSeen>,
    i: int,
)
    requires
        0 <= i < n <= current.len(),
        action_for(current[i], current, sessions) is Some,
    ensures
        actions_for(current, n, sessions).contains(
            action_for(current[i], current, sessions)->0,
        ),
    decreases n,
{
    let a = action_for(current[i], current, sessions)->0;
    let before = actions_for(current, n - 1, sessions);
    let all = actions_for(current, n, sessions);
    if i == n - 1 {
        assert(all[before.len() as int] == a);
    } else {
        lemma_action_is_planned(current, n - 1, sessions, i);
        let k = choose|k: int| 0 <= k < before.len() && before[k] == a;
        assert(all[k] == a);
    }
}

/// The file to go by sets the state of the session whose conversation it names, where
/// that session runs: that session is told what the file says, and keeps its name.
pub proof fn a_probe_sets_the_state_of_its_session(
    probes: Seq<ProbeSeen>,
    sessions: Seq<TrackedSeen>,
    i: int,
    s: int,
)
    requires
        0 <= i < probes.len(),
        speaks(probes, i),
        0 <= s < sessions.len(),
        sessions[s].claude_session_id == Some(probes[i].sid),
        forall|k: int|
            0 <= k < s ==> (#[trigger] sessions[k]).claude_session_id != Some(probes[i].sid),
        sessions[s].running,
    ensures
        planned(probes, sessions).contains(
            ProbeActionView {
                workspace_id: sessions[s].workspace_id,
                session_id: sessions[s].session_id,
                state: probes[i].state,
                heal_to: None,
            },
        ),
{
    let current = current_probes(probes);
    let n: int = lemma_speaks(probes, i);
    let p = probes[i];
    list::lemma_first_where_is(
        sessions,
        |x: TrackedSeen| x.claude_session_id == Some(p.sid),
        s,
    );
    lemma_action_is_planned(current, current.len() as int, sessions, n);
}

/// A conversation that no session knows is the one that runs in its directory, where
/// just one session does and that has no conversation, or one that no file speaks of:
/// that session is given the conversation's name and its state.
pub proof fn a_lone_session_is_healed(
    probes: Seq<ProbeSeen>,
    sessions: Seq<TrackedSeen>,
    i: int,
    s: int,
)
    requires
        0 <= i < probes.len(),
        speaks(probes, i),
        probes[i].cwd is Some,
        forall|k: int|
            0 <= k < sessions.len() ==> (#[trigger] sessions[k]).claude_session_id != Some(
                probes[i].sid,
            ),
        0 <= s < sessions.len(),
        sessions[s].running && sessions[s].cwd == probes[i].cwd,
        sessions[s].claude_session_id matches Some(c) ==> forall|j: int|
            0 <= j < probes.len() ==> (#[trigger] probes[j]).sid != c,
        forall|k: int|
            0 <= k < sessions.len() && k != s ==> !((#[trigger] sessions[k]).running
                && sessions[k].cwd == probes[i].cwd),
    ensures
        planned(probes, sessions).contains(
            ProbeActionView {
                workspace_id: sessions[s].workspace_id,
                session_id: sessions[s].session_id,
                state: probes[i].state,
                heal_to: Some(probes[i].sid),
            },
        ),
{
    let current = current_probes(probes);
    let n: int = lemma_speaks(probes, i);
    let p = probes[i];
    let cwd = p.cwd->0;
    let by_id = |x: TrackedSeen| x.claude_session_id == Some(p.sid);
    list::lemma_first_where_none(sessions, by_id);
    let stale = |x: TrackedSeen| is_stale(x, cwd, current);
    lemma_current_from(probes);
    assert(is_stale(sessions[s], cwd, current)) by {
        if let Some(c) = sessions[s].claude_session_id {
            if reported(current, c) {
                let k = choose|k: int|
                    0 <= k < current.len() && (#[trigger] current[k]).sid == c;
                assert(probes.contains(current[k]));
                let j = choose|j: int| 0 <= j < probes.len() && probes[j] == current[k];
                assert(probes[j].sid == c);
            }
        }
    }
    assert forall|k: int| 0 <= k < s implies !stale(sessions[k]) by {
        assert(!(sessions[k].running && sessions[k].cwd == probes[i].cwd));
    }
    list::lemma_first_where_is(sessions, stale, s);
    assert forall|k: int| s < k < sessions.len() implies !is_stale(
        #[trigger] sessions[k],
        cwd,
        current,
    ) by {}
    lemma_action_is_planned(current, current.len() as int, sessions, n);
}

proof fn lemma_current_from(probes: Seq<ProbeSeen>)
    ensures
        forall|k: int|
            0 <= k < current_probes(probes).len() ==> probes.contains(
                #[trigger] current_probes(probes)[k],
            ),
{
    lemma_from_probes(probes, 0);
    let h = homeless_from(probes, 0);
    let f = freshest_from(probes, 0);
    assert forall|k: int| 0 <= k < current_probes(probes).len() implies probes.contains(
        #[trigger] current_probes(probes)[k],
    ) by {
        if k < h.len() {
            assert(current_probes(probes)[k] == h[k]);
        } else {
            assert(current_probes(probes)[k] == f[k - h.len()]);
        }
    }
}

/// Whether a file and a session are reason for an action: the session has the file's
/// conversation; or no session has, and it is the only one running in the file's
/// directory that is not spoken for.
pub open spec fn is_reason(
    a: ProbeActionView,
    probes: Seq<ProbeSeen>,
    sessions: Seq<TrackedSeen>,
    j: int,
    s: int,
) -> bool {
    &&& a.workspace_id == sessions[s].workspace_id
    &&& a.session_id == sessions[s].session_id
    &&& a.state == probes[j].state
    &&& sessions[s].running
    &&& match a.heal_to {
        None => sessions[s].claude_session_id == Some(probes[j].sid),
        Some(sid) => {
            &&& sid == probes[j].sid
            &&& probes[j].cwd is Some && sessions[s].cwd == probes[j].cwd
            &&& forall|k: int|
                0 <= k < sessions.len() ==> (#[trigger] sessions[k]).claude_session_id != Some(sid)
            &&& forall|k: int|
                0 <= k < sessions.len() && k != s && (#[trigger] sessions[k]).running
                    && sessions[k].cwd == probes[j].cwd ==> (sessions[k].claude_session_id
                    matches Some(c) && exists|m: int|
                    0 <= m < probes.len() && (#[trigger] probes[m]).sid == c)
        },
    }
}

/// Nothing is done without a reason: every action is for a session that has the
/// conversation of a file, or for the one session in that file's directory that can
/// have it.
pub proof fn every_action_has_its_reason(
    probes: Seq<ProbeSeen>,
    sessions: Seq<TrackedSeen>,
    k: int,
)
    requires
        0 <= k < planned(probes, sessions).len(),
    ensures
        exists|j: int, s: int|
            #![trigger probes[j], sessions[s]]
            0 <= j < probes.len() && 0 <= s < sessions.len() && is_reason(
                planned(probes, sessions)[k],
                probes,
                sessions,
                j,
                s,
            ),
{
    let current = current_probes(probes);
    let n: int = lemma_action_from(current, current.len() as int, sessions, k);
    let p = current[n];
    lemma_current_from(probes);
    assert(probes.contains(p));
    let j = choose|j: int| 0 <= j < probes.len() && probes[j] == p;
    let by_id = |x: TrackedSeen| x.claude_session_id == Some(p.sid);
    list::lemma_first_where(sessions, by_id);
    let a = planned(probes, sessions)[k];
    match list::first_where(sessions, by_id) {
        Some(s) => {
            assert(is_reason(a, probes, sessions, j, s));
            assert(probes[j] == p && sessions[s].running);
        },
        None => {
            let cwd = p.cwd->0;
            let stale = |x: TrackedSeen| is_stale(x, cwd, current);
            list::lemma_first_where(sessions, stale);
            let s = list::first_where(sessions, stale)->0;
            assert forall|t: int| 0 <= t < sessions.len() implies (
            #[trigger] sessions[t]).claude_session_id != Some(p.sid) by {
                assert(!by_id(sessions[t]));
            }
            assert forall|t: int|
                0 <= t < sessions.len() && t != s && (#[trigger] sessions[t]).running
                    && sessions[t].cwd == probes[j].cwd implies (
            sessions[t].claude_session_id matches Some(c) && exists|m: int|
                0 <= m < probes.len() && (#[trigger] probes[m]).sid == c) by {
                assert(!stale(sessions[t]));
                assert(!is_stale(sessions[t], cwd, current));
                let c = sessions[t].claude_session_id->0;
                let q = choose|q: int| 0 <= q < current.len() && (#[trigger] current[q]).sid == c;
                assert(probes.contains(current[q]));
                let m = choose|m: int| 0 <= m < probes.len() && probes[m] == current[q];
                assert(probes[m].sid == c);
            }
            assert(is_reason(a, probes, sessions, j, s));
            assert(probes[j] == p && sessions[s].running);
        },
    }
}

proof fn lemma_action_from(
    current: Seq<ProbeSeen>,
    n: int,
    sessions: Seq<TrackedSeen>,
    k: int,
) -> (i: int)
    requires
        0 <= n <= current.len(),
        0 <= k < actions_for(current, n, sessions).len(),
    ensures
        0 <= i < n,
        action_for(current[i], current, sessions) == Some(actions_for(current, n, sessions)[k]),
    decreases n,
{
    let before = actions_for(current, n - 1, sessions);
    if k < before.len() {
        lemma_action_from(current, n - 1, sessions, k)
    } else {
        n - 1
    }
}

/// A file says whether its session works, waits or is idle by one of three words, and
/// a file with another word, or without one, or without a session, says nothing.
pub proof fn a_status_is_one_of_three_words(p: Probe)
    ensures
        probe_seen(p) is Some <==> p.session_id is Some && p.status is Some && (p.status->0@
            == "busy"@ || p.status->0@ == "waiting"@ || p.status->0@ == "idle"@),
        probe_seen(p) matches Some(seen) ==> {
            &&& seen.sid == p.session_id->0@
            &&& seen.cwd == text::maybe(p.cwd)
            &&& seen.status_updated_at == p.status_updated_at
            &&& seen.state is Working <==> p.status->0@ == "busy"@
            &&& seen.state is WaitingInput <==> p.status->0@ == "waiting"@
            &&& seen.state is Idle <==> p.status->0@ == "idle"@
        },
{
    reveal_strlit("busy");
    reveal_strlit("waiting");
    reveal_strlit("idle");
    assert("busy"@[0] != "idle"@[0]);
    assert("waiting"@.len() == 7 && "busy"@.len() == 4 && "idle"@.len() == 4);
}

/// Every session of every workspace is tracked, and no other: with its own ids and
/// directory, and as running exactly where it is among those that run.
pub proof fn every_session_is_tracked(
    workspaces: Seq<Workspace>,
    running: Seq<String>,
    w: int,
    s: int,
)
    requires
        0 <= w < workspaces.len(),
        0 <= s < workspaces[w].sessions@.len(),
    ensures
        all_tracked(workspaces, running).contains(
            TrackedSeen {
                workspace_id: workspaces[w].id@,
                session_id: workspaces[w].sessions@[s].id@,
                cwd: Some(workspaces[w].sessions@[s].cwd@),
                claude_session_id: text::maybe(workspaces[w].sessions@[s].claude_session_id),
                running: exists|k: int|
                    0 <= k < running.len() && (#[trigger] running[k])@
                        == workspaces[w].sessions@[s].id@,
            },
        ),
    decreases workspaces.len(),
{
    let m = workspaces[w].sessions@[s];
    let it = TrackedSeen {
        workspace_id: workspaces[w].id@,
        session_id: m.id@,
        cwd: Some(m.cwd@),
        claude_session_id: text::maybe(m.claude_session_id),
        running: text::views(running).contains(m.id@),
    };
    assert(it.running == exists|k: int| 0 <= k < running.len() && (#[trigger] running[k])@ == m.id@)
        by {
        if it.running {
            let k = choose|k: int| 0 <= k < running.len() && text::views(running)[k] == m.id@;
            assert(running[k]@ == m.id@);
        }
        if exists|k: int| 0 <= k < running.len() && (#[trigger] running[k])@ == m.id@ {
            let k = choose|k: int| 0 <= k < running.len() && (#[trigger] running[k])@ == m.id@;
            assert(text::views(running)[k] == m.id@);
        }
    }
    let before = all_tracked(workspaces.drop_last(), running);
    let own = tracked_in(workspaces.last(), running);
    if w == workspaces.len() - 1 {
        assert(own[s] == it);
        assert((before + own)[before.len() + s] == it);
    } else {
        every_session_is_tracked(workspaces.drop_last(), running, w, s);
        assert(before.contains(it));
        let k = choose|k: int| 0 <= k < before.len() && before[k] == it;
        assert((before + own)[k] == it);
    }
}

proof fn lemma_placed_from(workspaces: Seq<Workspace>, k: int) -> (at: (int, int))
    requires
        0 <= k < placed(workspaces).len(),
    ensures
        0 <= at.0 < workspaces.len(),
        0 <= at.1 < workspaces[at.0].sessions@.len(),
        placed(workspaces)[k] == (workspaces[at.0].id, workspaces[at.0].sessions@[at.1]),
    decreases workspaces.len(),
{
    let before = placed(workspaces.drop_last());
    if k < before.len() {
        lemma_placed_from(workspaces.drop_last(), k)
    } else {
        (workspaces.len() - 1, k - before.len())
    }
}

/// Whether some session has a conversation.
pub open spec fn has_conversation(workspaces: Seq<Workspace>, id: Seq<char>) -> bool {
    exists|w: int, s: int|
        0 <= w < workspaces.len() && 0 <= s < workspaces[w].sessions@.len() && text::maybe(
            (#[trigger] workspaces[w].sessions@[s]).claude_session_id,
        ) == Some(id)
}

/// Whether some session has a directory.
pub open spec fn has_directory(workspaces: Seq<Workspace>, dir: Seq<char>) -> bool {
    exists|w: int, s: int|
        0 <= w < workspaces.len() && 0 <= s < workspaces[w].sessions@.len() && (
        #[trigger] workspaces[w].sessions@[s]).cwd@ == dir
}

proof fn lemma_first_bearing(workspaces: Seq<Workspace>, mark: Mark, wanted: Seq<char>)
    ensures
        first_bearing(workspaces, mark, Some(wanted)) is Some <==> (match mark {
            Mark::Id => has_conversation(workspaces, wanted),
            Mark::Dir => has_directory(workspaces, wanted),
        }),
        first_bearing(workspaces, mark, Some(wanted)) matches Some(p) ==> bears(p.1, mark, wanted)
            && exists|w: int, s: int|
            0 <= w < workspaces.len() && 0 <= s < workspaces[w].sessions@.len() && workspaces[w].id
                == p.0 && #[trigger] workspaces[w].sessions@[s] == p.1,
{
    let all = placed(workspaces);
    let fits = |p: (WorkspaceId, ClaudeSessionMeta)| bears(p.1, mark, wanted);
    list::lemma_first_where(all, fits);
    match list::first_where(all, fits) {
        Some(k) => {
            let (w, s) = lemma_placed_from(workspaces, k);
            assert(fits(all[k]));
            assert(bears(workspaces[w].sessions@[s], mark, wanted));
        },
        None => {
            if has_conversation(workspaces, wanted) && mark is Id {
                let (w, s) = choose|w: int, s: int|
                    0 <= w < workspaces.len() && 0 <= s < workspaces[w].sessions@.len()
                        && text::maybe(
                        (#[trigger] workspaces[w].sessions@[s]).claude_session_id,
                    ) == Some(wanted);
                lemma_placed(workspaces, w, s);
                assert(!fits(all[placed(workspaces.take(w)).len() + s]));
            }
            if has_directory(workspaces, wanted) && mark is Dir {
                let (w, s) = choose|w: int, s: int|
                    0 <= w < workspaces.len() && 0 <= s < workspaces[w].sessions@.len() && (
                    #[trigger] workspaces[w].sessions@[s]).cwd@ == wanted;
                lemma_placed(workspaces, w, s);
                assert(!fits(all[placed(workspaces.take(w)).len() + s]));
            }
        },
    }
}

/// A hook is of the session whose conversation it names, where there is one; else of the
/// one whose conversation is its parent's; else of one that runs in its directory; and
/// of none where no session has any of these. What is found is a session of the
/// workspace that it is found in.
pub proof fn a_hook_is_of_the_session_that_it_names(
    workspaces: Seq<Workspace>,
    id: Seq<char>,
    parent: Option<Seq<char>>,
    cwd: Option<Seq<char>>,
)
    ensures
        match hook_session(workspaces, id, parent, cwd) {
            Some((ws, m)) => {
                &&& exists|w: int, s: int|
                    0 <= w < workspaces.len() && 0 <= s < workspaces[w].sessions@.len()
                        && workspaces[w].id == ws && #[trigger] workspaces[w].sessions@[s] == m
                &&& if has_conversation(workspaces, id) {
                    text::maybe(m.claude_session_id) == Some(id)
                } else if parent is Some && has_conversation(workspaces, parent->0) {
                    text::maybe(m.claude_session_id) == parent
                } else {
                    cwd is Some && m.cwd@ == cwd->0
                }
            },
            None => {
                &&& !has_conversation(workspaces, id)
                &&& parent is Some ==> !has_conversation(workspaces, parent->0)
                &&& cwd is Some ==> !has_directory(workspaces, cwd->0)
            },
        },
{
    lemma_first_bearing(workspaces, Mark::Id, id);
    if parent is Some {
        lemma_first_bearing(workspaces, Mark::Id, parent->0);
    }
    if cwd is Some {
        lemma_first_bearing(workspaces, Mark::Dir, cwd->0);
    }
}

/// Recording a session keeps every other: those with another id that have not the
/// conversation that was taken up again.
pub proof fn other_sessions_are_kept(
    sessions: Seq<ClaudeSessionMeta>,
    meta: ClaudeSessionMeta,
    resumed: Option<Seq<char>>,
    i: int,
)
    requires
        0 <= i < sessions.len(),
        sessions[i].id@ != meta.id@,
        resumed is None || text::maybe(sessions[i].claude_session_id) != resumed,
    ensures
        recorded(sessions, meta, resumed).contains(sessions[i]),
{
    let other = |m: ClaudeSessionMeta| m.id@ != meta.id@;
    let first = match resumed {
        Some(c) => sessions.filter(
            |m: ClaudeSessionMeta| text::maybe(m.claude_session_id) != Some(c),
        ),
        None => sessions,
    };
    let m = sessions[i];
    assert(first.contains(m)) by {
        if let Some(c) = resumed {
            let not = |x: ClaudeSessionMeta| text::maybe(x.claude_session_id) != Some(c);
            sessions.lemma_filter_contains(not, i);
        }
    }
    let a = choose|a: int| 0 <= a < first.len() && first[a] == m;
    first.lemma_filter_contains(other, a);
    let kept = first.filter(other);
    let b = choose|b: int| 0 <= b < kept.len() && kept[b] == m;
    assert(kept.push(meta)[b] == m);
}

/// The conversation that a side conversation belongs to is the one whose directory
/// holds the `subagents` that its file is among.
pub proof fn a_side_conversation_has_its_parent(dir: Seq<char>, id: Seq<char>, what: Seq<char>)
    requires
        dir.len() > 0,
        dir.last() != '/',
        !(dir.len() >= 2 && dir.last() == '.' && dir[dir.len() - 2] == '/'),
        id.len() > 0 && !id.contains('/') && id != seq!['.'] && id != seq!['.', '.'],
        !what.contains('/'),
    ensures
        parent_session(
            paths::join(
                paths::join(paths::join(dir, id), "subagents"@),
                "agent-"@ + what + ".jsonl"@,
            ),
        ) == Some(id),
        parent_session(paths::join(paths::join(dir, id), "agent-"@ + what + ".jsonl"@)) == (if id
            == "subagents"@ {
            paths::file_name_of(dir)
        } else {
            None
        }),
        what.len() > 0 && what != seq!['.'] && what != seq!['.', '.'] && !("agent-"@.is_prefix_of(
            what,
        ) && ".jsonl"@.is_suffix_of(what)) ==> parent_session(
            paths::join(paths::join(dir, "subagents"@), what),
        ) is None,
{
    reveal_strlit("subagents");
    reveal_strlit("agent-");
    reveal_strlit(".jsonl");
    let name = "agent-"@ + what + ".jsonl"@;
    let sub = "subagents"@;
    assert forall|k: int| 0 <= k < name.len() implies name[k] != '/' by {
        if 6 <= k < 6 + what.len() {
            assert(what.contains(what[k - 6]));
        }
    }
    assert(!name.contains('/'));
    assert(name.take(6) =~= "agent-"@);
    assert(name.skip(name.len() - 6) =~= ".jsonl"@);
    assert(name.len() >= 12);
    assert(!sub.contains('/'));
    assert(sub.len() == 9);
    paths::a_joined_path_comes_apart(dir, id);
    let up = paths::join(dir, id);
    assert(up.last() == id.last());
    assert(id.contains(id[id.len() - 1]));
    if id.len() >= 2 {
        assert(id.contains(id[id.len() - 2]));
        assert(up[up.len() - 2] == id[id.len() - 2]);
    } else {
        assert(id =~= seq![id[0]]);
    }
    paths::a_joined_path_comes_apart(up, sub);
    let subs = paths::join(up, sub);
    assert(subs.last() == sub.last());
    paths::a_joined_path_comes_apart(subs, name);
    paths::a_joined_path_comes_apart(up, name);
    paths::a_joined_path_comes_apart(dir, sub);
    let here = paths::join(dir, sub);
    assert(here.last() == sub.last());
    if what.len() > 0 && what != seq!['.'] && what != seq!['.', '.'] {
        paths::a_joined_path_comes_apart(here, what);
    }
}

proof fn lemma_last_detached(s: Seq<u8>, from: int, to: int)
    ensures
        match last_detached(s, from, to) {
            Some(p) => from <= p < to && detached_at(s, p) && forall|k: int|
                p < k < to ==> !detached_at(s, k),
            None => forall|k: int| from <= k < to ==> !detached_at(s, k),
        },
    decreases to - from,
{
    if to > from && !detached_at(s, to - 1) {
        lemma_last_detached(s, from, to - 1);
    }
}

proof fn lemma_before_breaks(s: Seq<u8>, end: int, to: int)
    requires
        0 <= to <= end <= s.len(),
        forall|k: int| to <= k < end ==> #[trigger] s[k] == 13 || s[k] == 10,
        to > 0 ==> s[to - 1] != 13 && s[to - 1] != 10,
    ensures
        before_breaks(s, end) == to,
    decreases end - to,
{
    if to < end {
        assert(s[end - 1] == 13 || s[end - 1] == 10);
        lemma_before_breaks(s, end - 1, to);
    }
}

/// Whether some bytes stand among others at a place.
pub open spec fn stands_at(s: Seq<u8>, bytes: Seq<u8>, k: int) -> bool {
    0 <= k && k + bytes.len() <= s.len() && s.subrange(k, k + bytes.len()) == bytes
}

/// The note that a terminal was detached goes, with the line breaks before it and all
/// that follows, where it starts in the last 256 bytes; the output before it stays.
pub proof fn the_note_at_the_end_goes(
    body: Seq<u8>,
    breaks: Seq<u8>,
    note: Seq<u8>,
    tail: Seq<u8>,
)
    requires
        note == seq![91u8, 100u8, 101u8, 116u8, 97u8, 99u8, 104u8, 101u8, 100u8, 32u8],
        body.len() > 0 ==> body.last() != 13 && body.last() != 10,
        forall|k: int| 0 <= k < breaks.len() ==> #[trigger] breaks[k] == 13 || breaks[k] == 10,
        tail.len() <= 246,
        forall|k: int| k > 0 ==> !#[trigger] stands_at(note + tail, note, k),
    ensures
        without_epilogue(body + breaks + note + tail) == body,
{
    let t = body + breaks + note + tail;
    let p: int = (body.len() + breaks.len()) as int;
    assert(note.len() == 10);
    lemma_note_at(body + breaks, note, tail);
    lemma_cut_at(t, p);
    assert forall|k: int| body.len() <= k < p implies #[trigger] t[k] == 13 || t[k] == 10 by {
        assert(t[k] == breaks[k - body.len()]);
    }
    if body.len() > 0 {
        assert(t[body.len() - 1] == body.last());
    }
    lemma_before_breaks(t, p, body.len() as int);
    assert(t.take(body.len() as int) =~= body);
}

proof fn lemma_note_at(before: Seq<u8>, note: Seq<u8>, tail: Seq<u8>)
    requires
        note == detached(),
        forall|k: int| k > 0 ==> !#[trigger] stands_at(note + tail, note, k),
    ensures
        detached_at(before + note + tail, before.len() as int),
        forall|k: int| k > before.len() ==> !#[trigger] detached_at(before + note + tail, k),
{
    let t = before + note + tail;
    let p = before.len() as int;
    assert(note.len() == 10);
    assert(t.subrange(p, p + 10) =~= note);
    assert forall|k: int| k > p implies !#[trigger] detached_at(t, k) by {
        if k + 10 <= t.len() {
            let d: int = k - p;
            assert(t.subrange(k, k + 10) =~= (note + tail).subrange(d, d + 10));
            assert(!stands_at(note + tail, note, d));
        }
    }
}

proof fn lemma_cut_at(t: Seq<u8>, p: int)
    requires
        detached_at(t, p),
        p >= t.len() - 256,
        forall|k: int| k > p ==> !#[trigger] detached_at(t, k),
    ensures
        without_epilogue(t) == t.take(before_breaks(t, p)),
{
    let from: int = if t.len() > 256 {
        t.len() - 256
    } else {
        0
    };
    lemma_last_detached(t, from, t.len() as int);
    match last_detached(t, from, t.len() as int) {
        Some(q) => {
            if q < p {
                assert(!detached_at(t, p));
            }
        },
        None => {
            assert(!detached_at(t, p));
        },
    }
}

/// Output whose last 256 bytes hold no such note is left alone.
pub proof fn other_output_is_left_alone(s: Seq<u8>, note: Seq<u8>)
    requires
        note == seq![91u8, 100u8, 101u8, 116u8, 97u8, 99u8, 104u8, 101u8, 100u8, 32u8],
        forall|k: int| k >= s.len() - 256 ==> !#[trigger] stands_at(s, note, k),
    ensures
        without_epilogue(s) == s,
{
    let low: int = if s.len() > 256 {
        s.len() - 256
    } else {
        0
    };
    assert(note.len() == 10);
    lemma_last_detached(s, low, s.len() as int);
    if let Some(k) = last_detached(s, low, s.len() as int) {
        assert(!stands_at(s, note, k));
    }
}

/// A session runs in the worktree of its repo, where it has one, and else at the root of
/// its workspace.
pub proof fn where_a_session_runs(ws: Workspace, key: String, i: int)
    requires
        0 <= i <= ws.repo_links@.len(),
        forall|k: int| 0 <= k < i ==> (#[trigger] ws.repo_links@[k]).repo_key@ != key@,
        i < ws.repo_links@.len() ==> ws.repo_links@[i].repo_key@ == key@,
    ensures
        session_dir(ws, Some(key)) == (if i < ws.repo_links@.len() {
            Some(ws.repo_links@[i].worktree_path@)
        } else {
            None
        }),
        session_dir(ws, None) == ws.root_path(),
{
    crate::state::a_link_is_found_by_its_repo(ws.repo_links@, key@, i);
}

/// Each listed session is one of the workspace, in their order, and shows the turn that
/// was last seen of it, or the one that it had where none was seen.
pub proof fn the_list_shows_each_turn(
    sessions: Seq<SessionInfo>,
    workspace_id: Seq<char>,
    ended: Seq<Seq<char>>,
    turns: Seq<TurnSeen>,
    listed: Seq<SessionInfo>,
    i: int,
    t: int,
)
    requires
        lists(sessions, workspace_id, ended, turns, listed),
        0 <= i < listed.len(),
        0 <= t <= turns.len(),
        forall|k: int| 0 <= k < t ==> (#[trigger] turns[k]).session_id@ != listed[i].id@,
        t < turns.len() ==> turns[t].session_id@ == listed[i].id@,
    ensures
        listed[i].workspace_id@ == workspace_id,
        t < turns.len() ==> listed[i].runtime_state == turns[t].runtime_state
            && listed[i].turn_acknowledged == turns[t].turn_acknowledged && listed[i].needs_turn
            == turns[t].needs_turn && listed[i].working == turns[t].working,
        t == turns.len() ==> exists|s: int|
            0 <= s < sessions.len() && (#[trigger] sessions[s]).id@ == listed[i].id@
                && listed[i].runtime_state == sessions[s].runtime_state && listed[i].working
                == sessions[s].working && listed[i].needs_turn == sessions[s].needs_turn,
{
    let mine = in_workspace(workspace_id);
    let own = sessions.filter(mine);
    list::lemma_filter_places(sessions, mine);
    assert(shows(own[i], ended, turns, listed[i]));
    let s = list::place_of(sessions, mine, i);
    assert(sessions[s] == own[i]);
    assert(mine(own[i]));
    lemma_turn_at(turns, own[i].id, t);
}

proof fn lemma_turn_at(turns: Seq<TurnSeen>, id: String, t: int)
    requires
        0 <= t <= turns.len(),
        forall|k: int| 0 <= k < t ==> (#[trigger] turns[k]).session_id@ != id@,
        t < turns.len() ==> turns[t].session_id@ == id@,
    ensures
        turn_of(turns, id@) == (if t < turns.len() {
            Some(turns[t])
        } else {
            None
        }),
{
    let same = |x: TurnSeen| x.session_id@ == id@;
    if t < turns.len() {
        list::lemma_first_where_is(turns, same, t);
    } else {
        list::lemma_first_where_none(turns, same);
    }
}

/// What a status file says is read where it says enough, one after the other, and no
/// other file counts.
pub proof fn which_files_are_read(probes: Seq<Probe>, i: int)
    requires
        0 <= i < probes.len(),
    ensures
        probe_seen(probes[i]) is Some ==> probes_read(probes).contains(probe_seen(probes[i])->0),
        probes_read(probes).len() <= probes.len(),
        forall|k: int|
            0 <= k < probes_read(probes).len() ==> exists|j: int|
                0 <= j < probes.len() && probe_seen(#[trigger] probes[j]) == Some(
                    #[trigger] probes_read(probes)[k],
                ),
    decreases probes.len(),
{
    let rest = probes.drop_last();
    let before = probes_read(rest);
    let all = probes_read(probes);
    if rest.len() > 0 {
        which_files_are_read(
            rest,
            if i < rest.len() {
                i
            } else {
                0
            },
        );
    }
    if probe_seen(probes[i]) is Some {
        let it = probe_seen(probes[i])->0;
        if i < rest.len() {
            assert(rest[i] == probes[i]);
            let k = choose|k: int| 0 <= k < before.len() && before[k] == it;
            assert(all[k] == it);
        } else {
            assert(all[before.len() as int] == it);
        }
    }
    assert forall|k: int| 0 <= k < all.len() implies exists|j: int|
        0 <= j < probes.len() && probe_seen(#[trigger] probes[j]) == Some(#[trigger] all[k]) by {
        if k < before.len() {
            assert(all[k] == before[k]);
            let j = choose|j: int|
                0 <= j < rest.len() && probe_seen(#[trigger] rest[j]) == Some(before[k]);
            assert(probes[j] == rest[j]);
        } else {
            assert(probe_seen(probes[probes.len() - 1]) == Some(all[k]));
        }
    }
}

/// A session that was recorded is the one that was started, as an agent's, and has no
/// conversation, no turn and nothing hidden yet; it keeps the program that it runs.
pub proof fn what_is_recorded_of_a_session(info: SessionInfo, binary: Option<String>)
    ensures
        meta_of(info, binary).id == info.id,
        meta_of(info, binary).kind is Claude,
        meta_of(info, binary).cwd == info.cwd && meta_of(info, binary).repo_key == info.repo_key,
        meta_of(info, binary).claude_binary == binary,
        meta_of(info, binary).claude_session_id is None && meta_of(info, binary).runtime_state
            is None && !meta_of(info, binary).hidden && !meta_of(info, binary).turn_acknowledged,
{
}

/// A session that was started runs where it was asked to, for the repo that it was asked
/// for, and nobody is waited for yet.
pub proof fn a_started_session_runs(
    info: SessionInfo,
    id: Seq<char>,
    workspace_id: Seq<char>,
    repo_key: Option<String>,
    cwd: Seq<char>,
    state: SessionRuntimeState,
)
    requires
        started(info, id, workspace_id, repo_key, cwd, state),
    ensures
        info.id@ == id && info.workspace_id@ == workspace_id && info.cwd@ == cwd && info.repo_key
            == repo_key,
        info.running && info.runtime_state == state,
        !info.needs_turn && !info.working && !info.turn_acknowledged && info.notification_type
            is None,
{
}

} // verus!
