//! The dev servers of a worktree: a frontend, and a backend where the branch has
//! changes to it.

use vstd::prelude::*;

use crate::dev_orchestrator::config::OrchestratorConfig;
use crate::dev_orchestrator::down::TeardownReport;
use crate::dev_orchestrator::main_stack::MainStackStatus;
use crate::hash;
use crate::state::Workspace;
use crate::text;

pub mod config;
pub mod down;
pub mod env_files;
pub mod main_stack;
pub mod ports;
pub mod pressure;
pub mod scrub;
pub mod stats;

verus! {

/// A service that is about to run in a tmux session.
pub struct ServicePrep {
    /// The name of the session.
    pub session_id: String,
    pub cwd: String,
    pub port: u16,
    /// What a login shell runs.
    pub shell_command: String,
    /// Variables that it runs with.
    pub env: Vec<(String, String)>,
}

/// What was decided about the dev servers of a workspace.
pub struct PrepResult {
    pub short: String,
    pub label: String,
    pub fe: ServicePrep,
    /// `None` where the worktree needs no backend of its own.
    pub be: Option<ServicePrep>,
    /// Where the frontend sends its requests.
    pub fe_proxy_target: String,
    pub be_changes_present: bool,
    /// Whether the main stack was started just now. Backends that ran before have
    /// lost their database.
    pub main_stack_was_started: bool,
    pub warnings: Vec<String>,
}

/// Whether a worktree gets a backend of its own.
#[derive(Debug, Clone, Copy, PartialEq, Eq, Structural)]
pub enum BeMode {
    /// It does where the branch has changes to it.
    Auto,
    ForceInclude,
    ForceExclude,
}

impl Default for BeMode {
    fn default() -> (r: Self)
        ensures
            r == BeMode::Auto,
    {
        BeMode::Auto
    }
}

/// What stopping the dev servers of a workspace came to.
pub struct StopReport {
    pub teardown: TeardownReport,
    pub short: String,
}

/// How many digits a text starts with.
pub open spec fn digit_run(s: Seq<char>) -> nat
    decreases s.len(),
{
    if s.len() > 0 && text::is_digit(s[0]) {
        1 + digit_run(s.drop_first())
    } else {
        0
    }
}

/// The number of the ticket that a name holds: the digits behind the first `nl-`
/// that is followed by any.
pub open spec fn ticket_in(name: Seq<char>) -> Option<Seq<char>>
    decreases name.len(),
{
    if name.len() < 3 {
        None
    } else if name.take(3) == "nl-"@ && digit_run(name.skip(3)) > 0 {
        Some(name.skip(3).take(digit_run(name.skip(3)) as int))
    } else {
        ticket_in(name.drop_first())
    }
}

/// The suffix by which the servers of a branch are told apart: the number of its
/// ticket, else the first six of the sixteen hexadecimal digits of its hash.
pub open spec fn short_of(branch: Seq<char>, hash: u64) -> Seq<char> {
    match ticket_in(text::ascii_lower(branch)) {
        Some(t) => t,
        None => hash::hex(hash as nat, 16).take(6),
    }
}

/// The number of the ticket that a branch names, however it is capitalized.
fn ticket_of(branch: &str) -> (r: Option<String>)
    ensures
        text::maybe(r) == ticket_in(text::ascii_lower(branch@)),
{
    let lower = text::ascii_lowered(branch);
    let v = text::chars_of(&lower);
    let ghost name = text::ascii_lower(branch@);
    let mut i: usize = 0;
    assert(name.skip(0) =~= name);
    proof {
        reveal_strlit("nl-");
    }
    while i < v.len() && v.len() - i >= 3
        invariant
            i <= v.len(),
            v@ == name,
            name == text::ascii_lower(branch@),
            ticket_in(name) == ticket_in(name.skip(i as int)),
            "nl-"@.len() == 3,
            "nl-"@[0] == 'n',
            "nl-"@[1] == 'l',
            "nl-"@[2] == '-',
        decreases v.len() - i,
    {
        let ghost here = name.skip(i as int);
        assert(here.drop_first() =~= name.skip(i + 1));
        assert(here.take(3)[0] == v@[i as int]);
        assert(here.take(3)[1] == v@[i + 1]);
        assert(here.take(3)[2] == v@[i + 2]);
        if v[i] == 'n' && v[i + 1] == 'l' && v[i + 2] == '-' {
            assert(here.take(3) =~= "nl-"@);
            let from: usize = i + 3;
            let mut j: usize = from;
            let ghost tail = here.skip(3);
            assert(tail =~= v@.skip(from as int));
            while j < v.len() && '0' <= v[j] && v[j] <= '9'
                invariant
                    from <= j <= v.len(),
                    tail == v@.skip(from as int),
                    digit_run(tail) == (j - from) + digit_run(v@.skip(j as int)),
                decreases v.len() - j,
            {
                assert(v@.skip(j as int)[0] == v@[j as int]);
                assert(v@.skip(j as int).drop_first() =~= v@.skip(j + 1));
                j = j + 1;
            }
            if j < v.len() {
                assert(v@.skip(j as int)[0] == v@[j as int]);
            }
            if j > from {
                let t = text::piece(&v, from, j);
                assert(t@ =~= tail.take(j - from));
                return Some(t);
            }
        }
        i = i + 1;
    }
    assert(ticket_in(name.skip(i as int)) is None);
    None
}

/// The suffix of a branch, by the hash of its name.
pub fn short_with(branch: &str, hash: u64) -> (r: String)
    ensures
        r@ == short_of(branch@, hash),
{
    match ticket_of(branch) {
        Some(t) => t,
        None => {
            let v = text::chars_of(&hash::hex_of(hash, 16));
            proof {
                hash::lemma_hex_len(hash as nat, 16);
            }
            let r = text::piece(&v, 0, 6);
            assert(r@ =~= v@.take(6));
            r
        },
    }
}

/// The suffix by which the servers of a branch are told apart: the number of its
/// ticket (`6457` of `nathan/nl-6457-foo`), else the first six digits of a hash.
pub fn short_from_branch(branch: &str) -> (r: String)
    ensures
        r@ == short_of(branch@, hash::default_hash(branch@)),
{
    short_with(branch, hash::hash_of(branch))
}

/// What a branch is called in titles: by its ticket where it has one, else by the
/// beginning of its name.
pub open spec fn label_of(branch: Seq<char>) -> Seq<char> {
    match ticket_in(text::ascii_lower(branch)) {
        Some(t) => "NL-"@ + t,
        None => if branch.len() <= LABEL_CHARS {
            branch
        } else {
            branch.take(LABEL_CHARS as int)
        },
    }
}

/// How much of its name a branch without a ticket is called by.
pub const LABEL_CHARS: usize = 24;

/// What a branch is called in titles: `NL-6457` where it has a ticket, else the
/// beginning of its name.
pub fn label_from_branch(branch: &str) -> (r: String)
    ensures
        r@ == label_of(branch@),
{
    if let Some(t) = ticket_of(branch) {
        return text::cat("NL-", &t);
    }
    let v = text::chars_of(branch);
    let to: usize = if v.len() <= LABEL_CHARS {
        v.len()
    } else {
        LABEL_CHARS
    };
    let r = text::piece(&v, 0, to);
    assert(r@ =~= label_of(branch@));
    r
}

/// Where the worktree of a repository is.
pub fn worktree_path(ws: &Workspace, repo_key: &str) -> (r: Result<String, String>)
    ensures
        match ws.link_at(repo_key@) {
            Some(i) => r matches Ok(p) && p@ == ws.repo_links@[i].worktree_path@,
            None => r matches Err(e) && e@ == "workspace has no '"@ + repo_key@ + "' repo linked"@,
        },
{
    match ws.link(repo_key) {
        Some(l) => Ok(l.worktree_path.clone()),
        None => Err(text::cat3("workspace has no '", repo_key, "' repo linked")),
    }
}

/// Whether a worktree gets a backend of its own.
pub open spec fn wants(mode: BeMode, be_changes: bool) -> bool {
    match mode {
        BeMode::Auto => be_changes,
        BeMode::ForceInclude => true,
        BeMode::ForceExclude => false,
    }
}

/// What was found before the dev servers are prepared.
pub struct PrepFacts {
    /// What became of the main stack.
    pub main_stack: Result<MainStackStatus, String>,
    /// Whether the branch has changes to the backend.
    pub be_changes: bool,
    /// The free ports, if there are any.
    pub fe_port: Option<u16>,
    pub be_port: Option<u16>,
}

/// Whether this is the frontend of a workspace.
pub open spec fn is_frontend(
    s: ServicePrep,
    cfg: OrchestratorConfig,
    ws: Workspace,
    dir: Seq<char>,
    port: u16,
    target: Seq<char>,
) -> bool {
    &&& s.session_id@ == "tethys-fe-"@ + ws.id@
    &&& s.cwd@ == dir
    &&& s.port == port
    &&& s.shell_command@ == cfg.fe_command_of(port)
    &&& s.env@.len() == 1
    &&& s.env@[0].0@ == cfg.fe_proxy_env_var@
    &&& s.env@[0].1@ == target
}

/// Whether this is the backend of a workspace.
pub open spec fn is_backend(
    s: ServicePrep,
    cfg: OrchestratorConfig,
    ws: Workspace,
    dir: Seq<char>,
    port: u16,
) -> bool {
    &&& s.session_id@ == "tethys-be-"@ + ws.id@
    &&& s.cwd@ == dir
    &&& s.port == port
    &&& s.shell_command@ == cfg.be_command_template@
    &&& s.env@.len() == 0
}

/// Whether this is what is decided about the dev servers of a workspace.
pub open spec fn is_prep(
    p: PrepResult,
    cfg: OrchestratorConfig,
    ws: Workspace,
    mode: BeMode,
    facts: PrepFacts,
    dirs: (Seq<char>, Seq<char>),
    ports: (u16, u16),
) -> bool {
    let short = short_of(ws.branch@, hash::default_hash(ws.branch@));
    let target = if wants(mode, facts.be_changes) {
        "http://localhost:"@ + text::dec(ports.1 as nat)
    } else {
        cfg.master_be_url@
    };
    &&& p.short@ == short
    &&& p.label@ == label_of(ws.branch@)
    &&& is_frontend(p.fe, cfg, ws, dirs.0, ports.0, target)
    &&& match p.be {
        Some(be) => wants(mode, facts.be_changes) && is_backend(be, cfg, ws, dirs.1, ports.1),
        None => !wants(mode, facts.be_changes),
    }
    &&& p.fe_proxy_target@ == target
    &&& p.be_changes_present == facts.be_changes
    &&& p.main_stack_was_started == (facts.main_stack matches Ok(s) && s.was_started)
    &&& text::views(p.warnings@) == match facts.main_stack {
        Ok(_) => seq![],
        Err(e) => seq!["main stack: "@ + e@],
    }
}

/// What says that there is no port left.
pub open spec fn no_port(which: Seq<char>, start: u16) -> Seq<char> {
    "no free "@ + which + " port in ["@ + text::dec(start as nat) + ", +200)"@
}

fn no_free_port(which: &str, start: u16) -> (r: String)
    ensures
        r@ == no_port(which@, start),
{
    let mut m = text::cat3("no free ", which, " port in [");
    m.append(&text::decimal(start as u64));
    m.append(", +200)");
    m
}

/// Decide on the dev servers of a workspace. Its backend is started only where it is
/// wanted; the frontend talks to it, else to the main stack's.
pub fn prep(cfg: &OrchestratorConfig, ws: &Workspace, mode: BeMode, facts: PrepFacts) -> (r: Result<
    PrepResult,
    String,
>)
    ensures
        match (ws.link_at(cfg.fe_repo_key@), ws.link_at(cfg.be_repo_key@)) {
            (None, _) => r matches Err(e) && e@ == "workspace has no '"@ + cfg.fe_repo_key@
                + "' repo linked"@,
            (_, None) => r matches Err(e) && e@ == "workspace has no '"@ + cfg.be_repo_key@
                + "' repo linked"@,
            (Some(f), Some(b)) => match (facts.fe_port, facts.be_port) {
                (None, _) => r matches Err(e) && e@ == no_port("FE"@, cfg.fe_port_start),
                (_, None) => r matches Err(e) && e@ == no_port("BE"@, cfg.be_port_start),
                (Some(fp), Some(bp)) => r matches Ok(p) && is_prep(
                    p,
                    *cfg,
                    *ws,
                    mode,
                    facts,
                    (ws.repo_links@[f].worktree_path@, ws.repo_links@[b].worktree_path@),
                    (fp, bp),
                ),
            },
        },
{
    let fe_dir = match worktree_path(ws, &cfg.fe_repo_key) {
        Ok(d) => d,
        Err(e) => {
            return Err(e);
        },
    };
    let be_dir = match worktree_path(ws, &cfg.be_repo_key) {
        Ok(d) => d,
        Err(e) => {
            return Err(e);
        },
    };
    let short = short_from_branch(&ws.branch);
    let label = label_from_branch(&ws.branch);
    let mut warnings: Vec<String> = Vec::new();
    let main_stack_was_started: bool = match &facts.main_stack {
        Ok(s) => s.was_started,
        Err(e) => {
            warnings.push(text::cat("main stack: ", e));
            false
        },
    };
    proof {
        match facts.main_stack {
            Ok(_) => {
                assert(text::views(warnings@) =~= seq![]);
            },
            Err(e) => {
                assert(text::views(warnings@) =~= seq!["main stack: "@ + e@]);
            },
        }
    }
    let want_be: bool = match mode {
        BeMode::Auto => facts.be_changes,
        BeMode::ForceInclude => true,
        BeMode::ForceExclude => false,
    };
    let fe_port: u16 = match facts.fe_port {
        Some(p) => p,
        None => {
            return Err(no_free_port("FE", cfg.fe_port_start));
        },
    };
    let be_port: u16 = match facts.be_port {
        Some(p) => p,
        None => {
            return Err(no_free_port("BE", cfg.be_port_start));
        },
    };
    let (be, fe_proxy_target) = if want_be {
        (
            Some(
                ServicePrep {
                    session_id: text::cat("tethys-be-", &ws.id),
                    cwd: be_dir,
                    port: be_port,
                    shell_command: cfg.be_command_template.clone(),
                    env: Vec::new(),
                },
            ),
            text::cat("http://localhost:", &text::decimal(be_port as u64)),
        )
    } else {
        (None, cfg.master_be_url.clone())
    };
    let fe = ServicePrep {
        session_id: text::cat("tethys-fe-", &ws.id),
        cwd: fe_dir,
        port: fe_port,
        shell_command: cfg.fe_command(fe_port),
        env: vec![(cfg.fe_proxy_env_var.clone(), fe_proxy_target.clone())],
    };
    Ok(
        PrepResult {
            short,
            label,
            fe,
            be,
            fe_proxy_target,
            be_changes_present: facts.be_changes,
            main_stack_was_started,
            warnings,
        },
    )
}

/// What is decided once a backend's files were put in place: secrets that could not
/// be linked are only a warning, an override file that could not be written is not.
/// Where there is no backend, nothing was put in place.
pub fn prepared(
    p: PrepResult,
    link_failure: Option<String>,
    override_failure: Option<String>,
) -> (r: Result<PrepResult, String>)
    ensures
        match (p.be, override_failure) {
            (Some(_), Some(e)) => r matches Err(m) && m@ == "override file: "@ + e@,
            (Some(_), None) => r matches Ok(q) && q == (PrepResult { warnings: q.warnings, ..p })
                && text::views(q.warnings@) == match link_failure {
                Some(e) => text::views(p.warnings@).push("env file link: "@ + e@),
                None => text::views(p.warnings@),
            },
            (None, _) => r == Ok::<PrepResult, String>(p),
        },
{
    if p.be.is_none() {
        return Ok(p);
    }
    if let Some(e) = override_failure {
        return Err(text::cat("override file: ", &e));
    }
    let ghost had = text::views(p.warnings@);
    let mut p = p;
    if let Some(e) = link_failure {
        let w = text::cat("env file link: ", &e);
        p.warnings.push(w);
        assert(text::views(p.warnings@) =~= had.push(w@));
    }
    Ok(p)
}

/// What is stopped of a workspace: the suffix of its servers, and the directories of
/// its frontend and its backend.
pub struct StopPlan {
    pub short: String,
    pub project: String,
    pub fe_dir: String,
    pub be_dir: String,
}

/// Decide what is stopped of a workspace.
pub fn stop(cfg: &OrchestratorConfig, ws: &Workspace) -> (r: Result<StopPlan, String>)
    ensures
        match (ws.link_at(cfg.fe_repo_key@), ws.link_at(cfg.be_repo_key@)) {
            (None, _) => r matches Err(e) && e@ == "workspace has no '"@ + cfg.fe_repo_key@
                + "' repo linked"@,
            (_, None) => r matches Err(e) && e@ == "workspace has no '"@ + cfg.be_repo_key@
                + "' repo linked"@,
            (Some(f), Some(b)) => {
                let short = short_of(ws.branch@, hash::default_hash(ws.branch@));
                r matches Ok(p) && p.short@ == short && p.project@ == cfg.project_of(short)
                    && p.fe_dir@ == ws.repo_links@[f].worktree_path@ && p.be_dir@
                    == ws.repo_links@[b].worktree_path@
            },
        },
{
    let fe_dir = match worktree_path(ws, &cfg.fe_repo_key) {
        Ok(d) => d,
        Err(e) => {
            return Err(e);
        },
    };
    let be_dir = match worktree_path(ws, &cfg.be_repo_key) {
        Ok(d) => d,
        Err(e) => {
            return Err(e);
        },
    };
    let short = short_from_branch(&ws.branch);
    let project = cfg.compose_project(&short);
    Ok(StopPlan { short, project, fe_dir, be_dir })
}

/// The container to restart where the main stack came up again: a backend that was
/// up has lost its database.
pub fn restart_worktree_django(cfg: &OrchestratorConfig, short: &str) -> (r: String)
    ensures
        r@ == cfg.container_of(short@),
{
    cfg.be_container(short)
}

proof fn lemma_ticket_is_number(name: Seq<char>)
    ensures
        ticket_in(name) matches Some(t) ==> t.len() > 0 && text::all_digits(t),
    decreases name.len(),
{
    if name.len() >= 3 {
        if name.take(3) == "nl-"@ && digit_run(name.skip(3)) > 0 {
            lemma_digit_run(name.skip(3));
        } else {
            lemma_ticket_is_number(name.drop_first());
        }
    }
}

proof fn lemma_digit_run(s: Seq<char>)
    ensures
        digit_run(s) <= s.len(),
        forall|i: int| 0 <= i < digit_run(s) ==> text::is_digit(#[trigger] s[i]),
    decreases s.len(),
{
    if s.len() > 0 && text::is_digit(s[0]) {
        let rest = s.drop_first();
        lemma_digit_run(rest);
        assert forall|i: int| 0 <= i < digit_run(s) implies text::is_digit(#[trigger] s[i]) by {
            if i > 0 {
                assert(rest[i - 1] == s[i]);
            }
        }
    }
}

/// A branch with a ticket is called by its number, whatever its hash is; it does not
/// matter how the branch is capitalized.
pub proof fn a_ticket_names_its_branch(branch: Seq<char>, hash: u64)
    requires
        ticket_in(text::ascii_lower(branch)) is Some,
    ensures
        short_of(branch, hash) == ticket_in(text::ascii_lower(branch))->Some_0,
        short_of(branch, hash).len() > 0 && text::all_digits(short_of(branch, hash)),
        label_of(branch) == "NL-"@ + short_of(branch, hash),
{
    lemma_ticket_is_number(text::ascii_lower(branch));
}

/// The ticket of a branch is the number behind the first `nl-` that has one, all of its
/// digits; what stands before that, and what stands behind, does not matter.
pub proof fn a_ticket_is_the_number_behind_its_prefix(
    c: char,
    digits: Seq<char>,
    rest: Seq<char>,
)
    requires
        digits.len() > 0,
        forall|i: int| 0 <= i < digits.len() ==> '0' <= #[trigger] digits[i] <= '9',
        rest.len() > 0 ==> !('0' <= rest[0] <= '9'),
    ensures
        ticket_in("nl-"@ + digits + rest) == Some(digits),
        rest.len() < 3 ==> ticket_in(rest) is None,
        !("nl-"@.is_prefix_of(seq![c] + rest) && rest.len() > 2 && '0' <= rest[2] <= '9')
            ==> ticket_in(seq![c] + rest) == ticket_in(rest),
{
    reveal_strlit("nl-");
    let s = "nl-"@ + digits + rest;
    assert(s.take(3) =~= "nl-"@);
    let d = digits + rest;
    assert(s.skip(3) =~= d);
    lemma_digit_run_is(d, digits.len() as int);
    assert(d.take(digits.len() as int) =~= digits);
    let t = seq![c] + rest;
    assert(t.drop_first() =~= rest);
    if t.len() >= 3 {
        if t.take(3) == "nl-"@ {
            assert("nl-"@.is_prefix_of(t));
            if t.len() > 3 {
                assert(t.skip(3)[0] == rest[2]);
            }
        }
    }
}

proof fn lemma_digit_run_is(s: Seq<char>, n: int)
    requires
        0 <= n <= s.len(),
        forall|i: int| 0 <= i < n ==> '0' <= #[trigger] s[i] <= '9',
        n < s.len() ==> !('0' <= s[n] <= '9'),
    ensures
        digit_run(s) == n,
    decreases n,
{
    if n > 0 {
        assert('0' <= s[0] <= '9');
        lemma_digit_run_is(s.drop_first(), n - 1);
    }
}

/// A branch without a ticket is called by its name, cut off behind twenty-four
/// characters, and its parts by the first six digits of its hash.
pub proof fn a_branch_without_a_ticket(branch: Seq<char>, hash: u64)
    requires
        ticket_in(text::ascii_lower(branch)) is None,
    ensures
        branch.len() <= 24 ==> label_of(branch) == branch,
        branch.len() > 24 ==> label_of(branch) == branch.take(24),
        short_of(branch, hash).len() == 6,
        short_of(branch, hash).is_prefix_of(hash::hex(hash as nat, 16)),
{
    hash::digits_tell_the_number(hash as nat, 16);
    assert(short_of(branch, hash) =~= hash::hex(hash as nat, 16).take(6));
}

/// A backend of its own is run where that was asked for, and not where it was ruled out;
/// else exactly where the workspace changes the backend.
pub proof fn when_a_backend_is_run(be_changes: bool)
    ensures
        wants(BeMode::ForceInclude, be_changes),
        !wants(BeMode::ForceExclude, be_changes),
        wants(BeMode::Auto, be_changes) == be_changes,
{
}

/// The frontend talks to the workspace's own backend, on that backend's port, where one
/// is run, and to the shared one where none is; each runs in its own worktree, on its
/// own port, under a name that ends in the workspace's id.
pub proof fn the_frontend_talks_to_its_backend(
    p: PrepResult,
    cfg: OrchestratorConfig,
    ws: Workspace,
    mode: BeMode,
    facts: PrepFacts,
    dirs: (Seq<char>, Seq<char>),
    ports: (u16, u16),
)
    requires
        is_prep(p, cfg, ws, mode, facts, dirs, ports),
    ensures
        p.be is Some <==> (mode is ForceInclude || (mode is Auto && facts.be_changes)),
        p.be is Some ==> p.fe_proxy_target@ == "http://localhost:"@ + text::dec(
            p.be->0.port as nat,
        ),
        p.be is None ==> p.fe_proxy_target@ == cfg.master_be_url@,
        p.fe.env@.len() == 1 && p.fe.env@[0].0@ == cfg.fe_proxy_env_var@ && p.fe.env@[0].1@
            == p.fe_proxy_target@,
        p.fe.port == ports.0 && p.fe.cwd@ == dirs.0,
        p.fe.session_id@ == "tethys-fe-"@ + ws.id@,
        p.be is Some ==> p.be->0.port == ports.1 && p.be->0.cwd@ == dirs.1
            && p.be->0.session_id@ == "tethys-be-"@ + ws.id@,
        facts.main_stack is Err ==> p.warnings@.len() == 1 && !p.main_stack_was_started,
        facts.main_stack is Ok ==> p.warnings@.len() == 0 && p.main_stack_was_started
            == facts.main_stack->Ok_0.was_started,
{
    assert(text::views(p.warnings@).len() == p.warnings@.len());
}

} // verus!
