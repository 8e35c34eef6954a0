//! The scripts of a workspace: dev servers and the like, each in a tmux session of
//! its own, so that they outlive the program.

use vstd::prelude::*;

use crate::error::AppError;
use crate::ids;
use crate::list;
use crate::state::{AppState, ScriptRunId, ScriptRunMeta, Workspace};
use crate::text;

verus! {

/// How much of a script's output is kept.
pub const RING_CAPACITY: usize = 1024 * 1024;

/// A script that runs.
pub struct ScriptInfo {
    pub id: ScriptRunId,
    pub workspace_id: String,
    pub repo_key: String,
    pub script_name: String,
    pub command: String,
    pub cwd: String,
    pub running: bool,
    pub started_at: i64,
}

/// What a script is, before it runs.
pub struct SpawnRequest {
    pub workspace_id: String,
    pub repo_key: String,
    pub script_name: String,
    pub command: String,
    pub cwd: String,
}

/// A script that is about to run, and what tmux is told.
pub struct ScriptLaunch {
    pub info: ScriptInfo,
    pub tmux_args: Vec<String>,
}

/// Whether this is a script that was started under an id.
pub open spec fn is_run(info: ScriptInfo, id: Seq<char>, req: SpawnRequest, started_at: i64) -> bool {
    &&& info.id@ == id
    &&& info.workspace_id@ == req.workspace_id@
    &&& info.repo_key@ == req.repo_key@
    &&& info.script_name@ == req.script_name@
    &&& info.command@ == req.command@
    &&& info.cwd@ == req.cwd@
    &&& info.running
    &&& info.started_at == started_at
}

/// What tmux is told first: which server, and how it is set up.
pub open spec fn server_args(socket: Seq<char>, init: Seq<Seq<char>>) -> Seq<Seq<char>> {
    seq!["-L"@, socket] + init
}

/// What tmux is told to start a script. A login shell runs it, which has the user's
/// path.
pub open spec fn start_args(socket: Seq<char>, init: Seq<Seq<char>>, id: Seq<char>, command: Seq<
    char,
>) -> Seq<Seq<char>> {
    server_args(socket, init) + seq![
        "new-session"@,
        "-A"@,
        "-D"@,
        "-s"@,
        id,
        "-x"@,
        "200"@,
        "-y"@,
        "50"@,
        "--"@,
        "/bin/zsh"@,
        "-lc"@,
        command,
    ]
}

/// What tmux is told to show a script that runs already.
pub open spec fn attach_args(socket: Seq<char>, init: Seq<Seq<char>>, id: Seq<char>) -> Seq<
    Seq<char>,
> {
    server_args(socket, init) + seq!["attach-session"@, "-d"@, "-t"@, id]
}

fn tmux_args(socket: &str, init: &[String], rest: &[&str]) -> (r: Vec<String>)
    ensures
        text::views(r@) == server_args(socket@, text::views(init@)) + rest@.map_values(
            |s: &str| s@,
        ),
{
    let mut args = text::list(&["-L", socket]);
    let mut tail = text::copies(init);
    let mut end = text::list(rest);
    proof {
        assert(text::views(args@) =~= seq!["-L"@, socket@]);
        assert(text::views(args@ + tail@) =~= text::views(args@) + text::views(tail@));
        assert(text::views(args@ + tail@ + end@) =~= text::views(args@ + tail@) + text::views(
            end@,
        ));
    }
    args.append(&mut tail);
    args.append(&mut end);
    args
}

fn run_info(id: String, req: SpawnRequest, started_at: i64) -> (r: ScriptInfo)
    ensures
        is_run(r, id@, req, started_at),
{
    ScriptInfo {
        id,
        workspace_id: req.workspace_id,
        repo_key: req.repo_key,
        script_name: req.script_name,
        command: req.command,
        cwd: req.cwd,
        running: true,
        started_at,
    }
}

/// The scripts that run, or ran and were not dismissed.
pub struct ScriptSupervisor {
    pub scripts: Vec<ScriptInfo>,
}

/// Whether a script is the one with an id.
pub open spec fn run_of(id: Seq<char>) -> spec_fn(ScriptInfo) -> bool {
    |s: ScriptInfo| s.id@ == id
}

/// Whether a script is another one than that with an id.
pub open spec fn not_run_of(id: Seq<char>) -> spec_fn(ScriptInfo) -> bool {
    |s: ScriptInfo| s.id@ != id
}

/// The scripts of a workspace.
pub open spec fn runs_of(scripts: Seq<ScriptInfo>, workspace_id: Seq<char>) -> Seq<ScriptInfo>
    decreases scripts.len(),
{
    if scripts.len() == 0 {
        seq![]
    } else {
        let before = runs_of(scripts.drop_last(), workspace_id);
        if scripts.last().workspace_id@ == workspace_id {
            before.push(scripts.last())
        } else {
            before
        }
    }
}

/// The ids of the runs of one script in a workspace.
pub open spec fn prior_of(
    scripts: Seq<ScriptInfo>,
    workspace_id: Seq<char>,
    repo_key: Seq<char>,
    script_name: Seq<char>,
) -> Seq<Seq<char>>
    decreases scripts.len(),
{
    if scripts.len() == 0 {
        seq![]
    } else {
        let before = prior_of(scripts.drop_last(), workspace_id, repo_key, script_name);
        let s = scripts.last();
        if s.workspace_id@ == workspace_id && s.repo_key@ == repo_key && s.script_name@
            == script_name {
            before.push(s.id@)
        } else {
            before
        }
    }
}

impl ScriptSupervisor {
    /// Whether no two scripts have the same id.
    pub open spec fn wf(self) -> bool {
        forall|i: int, k: int|
            0 <= i < k < self.scripts@.len() ==> (#[trigger] self.scripts@[i]).id@ != (
            #[trigger] self.scripts@[k]).id@
    }

    pub fn new() -> (r: Self)
        ensures
            r.scripts@.len() == 0,
            r.wf(),
    {
        ScriptSupervisor { scripts: Vec::new() }
    }

    /// Decide what tmux is told to start a script, under an id of its own.
    pub fn start(socket: &str, init: &[String], req: SpawnRequest, started_at: i64) -> (r:
        ScriptLaunch)
        ensures
            r.info.id@.len() == 36,
            is_run(r.info, r.info.id@, req, started_at),
            text::views(r.tmux_args@) == start_args(
                socket@,
                text::views(init@),
                r.info.id@,
                req.command@,
            ),
    {
        let id = ids::fresh_id();
        let rest = [
            "new-session",
            "-A",
            "-D",
            "-s",
            id.as_str(),
            "-x",
            "200",
            "-y",
            "50",
            "--",
            "/bin/zsh",
            "-lc",
            req.command.as_str(),
        ];
        let tmux_args = tmux_args(socket, init, &rest);
        assert(rest@.map_values(|s: &str| s@) =~= seq![
            "new-session"@,
            "-A"@,
            "-D"@,
            "-s"@,
            id@,
            "-x"@,
            "200"@,
            "-y"@,
            "50"@,
            "--"@,
            "/bin/zsh"@,
            "-lc"@,
            req.command@,
        ]);
        ScriptLaunch { info: run_info(id, req, started_at), tmux_args }
    }

    /// Decide what tmux is told to show a script that ran when the program was last
    /// there, if it still does.
    pub fn reattach_tmux(
        socket: &str,
        init: &[String],
        id: ScriptRunId,
        req: SpawnRequest,
        started_at: i64,
        alive: bool,
    ) -> (r: Result<ScriptLaunch, AppError>)
        ensures
            if alive {
                r matches Ok(l) && is_run(l.info, id@, req, started_at) && text::views(l.tmux_args@)
                    == attach_args(socket@, text::views(init@), id@)
            } else {
                r matches Err(e) && e.says("tmux session "@ + id@ + " no longer exists"@)
            },
    {
        if !alive {
            return Err(AppError::Other(text::cat3("tmux session ", &id, " no longer exists")));
        }
        let rest = ["attach-session", "-d", "-t", id.as_str()];
        let tmux_args = tmux_args(socket, init, &rest);
        assert(rest@.map_values(|s: &str| s@) =~= seq!["attach-session"@, "-d"@, "-t"@, id@]);
        Ok(ScriptLaunch { info: run_info(id, req, started_at), tmux_args })
    }

    /// Keep a script that was started. It takes the place of one with its id.
    pub fn insert(&mut self, info: ScriptInfo)
        ensures
            final(self).scripts@ == old(self).scripts@.filter(not_run_of(info.id@)).push(info),
            old(self).wf() ==> final(self).wf(),
    {
        self.remove(&info.id);
        let ghost kept = self.scripts@;
        self.scripts.push(info);
        proof {
            assert(self.scripts@.drop_last() =~= kept);
            if old(self).wf() {
                runs_stay_distinct(*old(self), info.id@, *self);
            }
        }
    }

    fn remove(&mut self, id: &str)
        ensures
            final(self).scripts@ == old(self).scripts@.filter(not_run_of(id@)),
    {
        let other = |s: &ScriptInfo| -> (b: bool)
            ensures
                b == (s.id@ != id@),
            { !text::same(&s.id, id) };
        list::keep(&mut self.scripts, other, Ghost(not_run_of(id@)));
    }

    /// Find a script that somebody wants to see, write to or resize.
    pub fn find(&self, script_id: &str) -> (r: Result<usize, AppError>)
        ensures
            match list::first_where(self.scripts@, run_of(script_id@)) {
                Some(i) => r matches Ok(k) && k == i && k < self.scripts@.len(),
                None => r matches Err(e) && e.says("script not found: "@ + script_id@),
            },
    {
        let is = |s: &ScriptInfo| -> (b: bool)
            ensures
                b == (s.id@ == script_id@),
            { text::same(&s.id, script_id) };
        let at: Option<usize> = list::position(&self.scripts, is, Ghost(run_of(script_id@)));
        match at {
            Some(i) => Ok(i),
            None => Err(AppError::Other(text::cat("script not found: ", script_id))),
        }
    }

    /// The scripts of a workspace, with whether each still runs.
    pub fn list_for_workspace(&self, workspace_id: &str, ended: &[String]) -> (r: Vec<ScriptInfo>)
        ensures
            r@.len() == runs_of(self.scripts@, workspace_id@).len(),
            forall|i: int|
                0 <= i < r@.len() ==> shown_as(
                    runs_of(self.scripts@, workspace_id@)[i],
                    text::views(ended@),
                    #[trigger] r@[i],
                ),
    {
        let ghost all = self.scripts@;
        let ghost gone = text::views(ended@);
        let mut out: Vec<ScriptInfo> = Vec::new();
        let mut i: usize = 0;
        assert(all.take(0).len() == 0);
        while i < self.scripts.len()
            invariant
                i <= self.scripts.len(),
                all == self.scripts@,
                gone == text::views(ended@),
                out@.len() == runs_of(all.take(i as int), workspace_id@).len(),
                forall|k: int|
                    0 <= k < out@.len() ==> shown_as(
                        runs_of(all.take(i as int), workspace_id@)[k],
                        gone,
                        #[trigger] out@[k],
                    ),
            decreases self.scripts.len() - i,
        {
            proof {
                assert(all.take(i + 1).drop_last() =~= all.take(i as int));
                assert(all.take(i + 1).last() == all[i as int]);
            }
            let s = &self.scripts[i];
            if text::same(&s.workspace_id, workspace_id) {
                let info = ScriptInfo {
                    id: s.id.clone(),
                    workspace_id: s.workspace_id.clone(),
                    repo_key: s.repo_key.clone(),
                    script_name: s.script_name.clone(),
                    command: s.command.clone(),
                    cwd: s.cwd.clone(),
                    running: !text::among(ended, &s.id),
                    started_at: s.started_at,
                };
                assert(shown_as(*s, gone, info));
                out.push(info);
            }
            i = i + 1;
        }
        assert(all.take(i as int) =~= all);
        out
    }

    /// Forget a script that was killed.
    pub fn dismiss(&mut self, script_id: &str)
        ensures
            final(self).scripts@ == old(self).scripts@.filter(not_run_of(script_id@)),
            old(self).wf() ==> final(self).wf(),
    {
        self.remove(script_id);
        proof {
            if old(self).wf() {
                runs_stay_distinct(*old(self), script_id@, *self);
            }
        }
    }

    /// The scripts that are killed with a workspace.
    pub fn kill_for_workspace(&self, workspace_id: &str) -> (r: Vec<String>)
        ensures
            text::views(r@) == runs_of(self.scripts@, workspace_id@).map_values(
                |s: ScriptInfo| s.id@,
            ),
    {
        let ghost all = self.scripts@;
        let ghost f = |s: ScriptInfo| s.id@;
        let mut ids: Vec<String> = Vec::new();
        let mut i: usize = 0;
        assert(all.take(0).len() == 0);
        assert(text::views(ids@) =~= runs_of(all.take(0), workspace_id@).map_values(f));
        while i < self.scripts.len()
            invariant
                i <= self.scripts.len(),
                all == self.scripts@,
                f == (|s: ScriptInfo| s.id@),
                text::views(ids@) == runs_of(all.take(i as int), workspace_id@).map_values(f),
            decreases self.scripts.len() - i,
        {
            let ghost had = text::views(ids@);
            proof {
                assert(all.take(i + 1).drop_last() =~= all.take(i as int));
                assert(all.take(i + 1).last() == all[i as int]);
            }
            let s = &self.scripts[i];
            if text::same(&s.workspace_id, workspace_id) {
                ids.push(s.id.clone());
                assert(text::views(ids@) =~= had.push(s.id@));
            }
            i = i + 1;
            assert(text::views(ids@) =~= runs_of(all.take(i as int), workspace_id@).map_values(f));
        }
        assert(all.take(i as int) =~= all);
        ids
    }

    /// The runs that a script's next one takes the place of: there is one of each.
    pub fn prior_runs(&self, workspace_id: &str, repo_key: &str, script_name: &str) -> (r: Vec<
        String,
    >)
        ensures
            text::views(r@) == prior_of(self.scripts@, workspace_id@, repo_key@, script_name@),
    {
        let ghost all = self.scripts@;
        let mut ids: Vec<String> = Vec::new();
        let mut i: usize = 0;
        assert(all.take(0).len() == 0);
        assert(text::views(ids@) =~= seq![]);
        while i < self.scripts.len()
            invariant
                i <= self.scripts.len(),
                all == self.scripts@,
                text::views(ids@) == prior_of(
                    all.take(i as int),
                    workspace_id@,
                    repo_key@,
                    script_name@,
                ),
            decreases self.scripts.len() - i,
        {
            let ghost had = text::views(ids@);
            proof {
                assert(all.take(i + 1).drop_last() =~= all.take(i as int));
                assert(all.take(i + 1).last() == all[i as int]);
            }
            let s = &self.scripts[i];
            if text::same(&s.workspace_id, workspace_id) && text::same(&s.repo_key, repo_key)
                && text::same(&s.script_name, script_name) {
                ids.push(s.id.clone());
                assert(text::views(ids@) =~= had.push(s.id@));
            }
            i = i + 1;
        }
        assert(all.take(i as int) =~= all);
        ids
    }
}

/// A script as it is shown: with whether it still runs.
pub open spec fn shown_as(s: ScriptInfo, ended: Seq<Seq<char>>, r: ScriptInfo) -> bool {
    r == ScriptInfo { running: !ended.contains(s.id@), ..s }
}

/// Forget the run of a script that came to its end.
pub fn script_exit_hook(state: &mut AppState, workspace_id: &str, script_id: &str)
    ensures
        final(state).system_errors == old(state).system_errors,
        match old(state).workspace_at(workspace_id@) {
            None => *final(state) == *old(state),
            Some(i) => {
                let ws = old(state).workspaces@[i];
                let now = final(state).workspaces@[i];
                &&& now == (Workspace { script_runs: now.script_runs, ..ws })
                &&& now.script_runs@ == ws.script_runs@.filter(
                    |m: ScriptRunMeta| m.id@ != script_id@,
                )
                &&& final(state).workspaces@ == old(state).workspaces@.update(i, now)
            },
        },
{
    if let Some(i) = state.workspace_index(workspace_id) {
        let other = |m: &ScriptRunMeta| -> (b: bool)
            ensures
                b == (m.id@ != script_id@),
            { !text::same(&m.id, script_id) };
        let ws = &mut state.workspaces[i];
        list::keep(
            &mut ws.script_runs,
            other,
            Ghost(|m: ScriptRunMeta| m.id@ != script_id@),
        );
    }
}

/// Keeping and forgetting scripts leaves no two of them with the same id.
pub proof fn runs_stay_distinct(before: ScriptSupervisor, id: Seq<char>, after: ScriptSupervisor)
    requires
        before.wf(),
        after.scripts@ == before.scripts@.filter(not_run_of(id)) || (after.scripts@.len() > 0
            && after.scripts@.last().id@ == id && after.scripts@.drop_last()
            == before.scripts@.filter(not_run_of(id))),
    ensures
        after.wf(),
{
    let p = not_run_of(id);
    let s = before.scripts@;
    let kept = s.filter(p);
    list::lemma_filter_places(s, p);
    assert forall|i: int, k: int| 0 <= i < k < kept.len() implies (#[trigger] kept[i]).id@ != (
    #[trigger] kept[k]).id@ by {
        let a = list::place_of(s, p, i);
        let b = list::place_of(s, p, k);
        assert(s[a].id@ != s[b].id@);
    }
    assert forall|i: int| 0 <= i < kept.len() implies (#[trigger] kept[i]).id@ != id by {
        let a = list::place_of(s, p, i);
        assert(p(kept[i]));
    }
    assert forall|i: int, k: int| 0 <= i < k < after.scripts@.len() implies (
    #[trigger] after.scripts@[i]).id@ != (#[trigger] after.scripts@[k]).id@ by {
        assert(after.scripts@[i] == kept[i]);
        if k < kept.len() {
            assert(after.scripts@[k] == kept[k]);
        }
    }
}

/// The runs of a workspace are all of its own, in their order, and no other's.
pub proof fn a_workspace_has_its_own_runs(
    scripts: Seq<ScriptInfo>,
    workspace_id: Seq<char>,
    s: ScriptInfo,
)
    ensures
        runs_of(scripts, workspace_id).contains(s) <==> scripts.contains(s) && s.workspace_id@
            == workspace_id,
        runs_of(scripts, workspace_id).len() <= scripts.len(),
    decreases scripts.len(),
{
    if scripts.len() > 0 {
        let rest = scripts.drop_last();
        a_workspace_has_its_own_runs(rest, workspace_id, s);
        let before = runs_of(rest, workspace_id);
        let all = runs_of(scripts, workspace_id);
        if rest.contains(s) {
            let i = choose|i: int| 0 <= i < rest.len() && rest[i] == s;
            assert(scripts[i] == s);
        }
        if scripts.contains(s) && scripts.last() != s {
            let i = choose|i: int| 0 <= i < scripts.len() && scripts[i] == s;
            assert(rest[i] == s);
        }
        if before.contains(s) {
            let i = choose|i: int| 0 <= i < before.len() && before[i] == s;
            assert(all[i] == s);
        }
        if scripts.last().workspace_id@ == workspace_id {
            assert(all[before.len() as int] == scripts.last());
            if all.contains(s) && s != scripts.last() {
                let i = choose|i: int| 0 <= i < all.len() && all[i] == s;
                assert(before[i] == s);
            }
        }
    }
}

/// The earlier runs of a script are those of the same name in the same repo of the same
/// workspace: each of them, and no run that differs in any of the three.
pub proof fn earlier_runs_are_of_the_same_script(
    scripts: Seq<ScriptInfo>,
    workspace_id: Seq<char>,
    repo_key: Seq<char>,
    script_name: Seq<char>,
    id: Seq<char>,
)
    ensures
        prior_of(scripts, workspace_id, repo_key, script_name).contains(id) <==> exists|i: int|
            0 <= i < scripts.len() && (#[trigger] scripts[i]).id@ == id && scripts[i].workspace_id@
                == workspace_id && scripts[i].repo_key@ == repo_key && scripts[i].script_name@
                == script_name,
    decreases scripts.len(),
{
    if scripts.len() > 0 {
        let rest = scripts.drop_last();
        earlier_runs_are_of_the_same_script(rest, workspace_id, repo_key, script_name, id);
        let before = prior_of(rest, workspace_id, repo_key, script_name);
        let all = prior_of(scripts, workspace_id, repo_key, script_name);
        let s = scripts.last();
        if before.contains(id) {
            let k = choose|k: int| 0 <= k < before.len() && before[k] == id;
            assert(all[k] == id);
            let i = choose|i: int|
                0 <= i < rest.len() && (#[trigger] rest[i]).id@ == id && rest[i].workspace_id@
                    == workspace_id && rest[i].repo_key@ == repo_key && rest[i].script_name@
                    == script_name;
            assert(scripts[i] == rest[i]);
        }
        let mine = s.workspace_id@ == workspace_id && s.repo_key@ == repo_key && s.script_name@
            == script_name;
        if mine {
            assert(all[before.len() as int] == s.id@);
            assert(scripts[scripts.len() - 1] == s);
            if all.contains(id) && id != s.id@ {
                let k = choose|k: int| 0 <= k < all.len() && all[k] == id;
                assert(before[k] == id);
            }
        }
        if exists|i: int|
            0 <= i < scripts.len() && (#[trigger] scripts[i]).id@ == id && scripts[i].workspace_id@
                == workspace_id && scripts[i].repo_key@ == repo_key && scripts[i].script_name@
                == script_name {
            let i = choose|i: int|
                0 <= i < scripts.len() && (#[trigger] scripts[i]).id@ == id
                    && scripts[i].workspace_id@ == workspace_id && scripts[i].repo_key@ == repo_key
                    && scripts[i].script_name@ == script_name;
            if i < rest.len() {
                assert(rest[i] == scripts[i]);
            } else {
                assert(all[before.len() as int] == id);
            }
        }
    }
}

/// A run is started under its own name, with its command as the last word for the login
/// shell, and on the server that was asked for; it is attached to under the same name on
/// the same server.
pub proof fn a_run_is_found_by_its_name(
    socket: Seq<char>,
    init: Seq<Seq<char>>,
    id: Seq<char>,
    command: Seq<char>,
)
    ensures
        start_args(socket, init, id, command)[0] == "-L"@,
        start_args(socket, init, id, command)[1] == socket,
        start_args(socket, init, id, command).last() == command,
        exists|k: int|
            #![trigger start_args(socket, init, id, command)[k]]
            0 <= k < start_args(socket, init, id, command).len() - 1 && start_args(
                socket,
                init,
                id,
                command,
            )[k] == "-s"@ && start_args(socket, init, id, command)[k + 1] == id,
        attach_args(socket, init, id)[0] == "-L"@,
        attach_args(socket, init, id)[1] == socket,
        attach_args(socket, init, id).last() == id,
{
    let n: int = 2int + init.len();
    assert(start_args(socket, init, id, command)[n + 3] == "-s"@);
    assert(start_args(socket, init, id, command)[n + 4] == id);
}

/// A run is what was asked for, under its id and since its start, and runs; it is shown
/// as running until it has ended, and is otherwise shown as it is.
pub proof fn a_run_is_what_was_asked_for(
    info: ScriptInfo,
    id: Seq<char>,
    req: SpawnRequest,
    started_at: i64,
    ended: Seq<Seq<char>>,
    shown: ScriptInfo,
)
    requires
        is_run(info, id, req, started_at),
        shown_as(info, ended, shown),
    ensures
        shown.id@ == id && shown.workspace_id@ == req.workspace_id@ && shown.repo_key@
            == req.repo_key@ && shown.script_name@ == req.script_name@,
        shown.command@ == req.command@ && shown.cwd@ == req.cwd@ && shown.started_at == started_at,
        shown.running <==> !ended.contains(id),
{
}

/// A run is attached to by name, which takes it from whoever is attached; starting one
/// takes up a run of the same name, where there is one.
pub proof fn how_a_run_is_attached_to(
    socket: Seq<char>,
    init: Seq<Seq<char>>,
    id: Seq<char>,
    command: Seq<char>,
)
    ensures
        ({
            let args = attach_args(socket, init, id);
            let n = args.len() as int;
            n == 6 + init.len() && args[n - 4] == "attach-session"@ && args[n - 3] == "-d"@
                && args[n - 2] == "-t"@ && args[n - 1] == id
        }),
        ({
            let args = start_args(socket, init, id, command);
            let n = 2int + init.len();
            args.len() == n + 13 && args[n] == "new-session"@ && args[n + 1] == "-A"@ && args[n + 2]
                == "-D"@ && args[n + 9] == "--"@ && args[n + 10] == "/bin/zsh"@ && args[n + 11]
                == "-lc"@
        }),
        server_args(socket, init).skip(2) == init,
{
    assert(server_args(socket, init).skip(2) =~= init);
}

} // verus!
