//! Making a workspace on an agent's behalf.
//!
//! It is the workspace that the user would have made, asked for from inside a
//! session. The agent is told that the request was accepted long before anything
//! is built, so whatever can be refused is refused before that.

use vstd::prelude::*;

use crate::error::AppError;
use crate::ids;
use crate::list;
use crate::mcp;
use crate::mcp_wire::CreateWorkspace;
use crate::registry;
use crate::registry::RepoRegistry;
use crate::sessions::StartSession;
use crate::state;
use crate::state::{AppState, Origin, SessionId, Workspace, WorkspaceId};
use crate::text;

verus! {

/// How many names are tried before a branch is given up.
pub const MAX_BRANCH_SUFFIX: u32 = 50;

/// What the calling agent is told.
#[derive(Debug)]
pub struct Accepted {
    pub workspace_id: WorkspaceId,
    pub branch: String,
}

/// A control character.
pub open spec fn is_control(c: char) -> bool {
    c as u32 <= 31 || (127 <= c as u32 && c as u32 <= 159)
}

/// A character that git, a shell or a path would trip over.
pub open spec fn is_special(c: char) -> bool {
    c == '~' || c == '^' || c == ':' || c == '?' || c == '*' || c == '[' || c == '\\' || c == '"'
        || c == '\'' || c == '$' || c == '`'
}

/// A character that no branch may have.
pub open spec fn is_refused(c: char) -> bool {
    text::is_white(c) || is_control(c) || is_special(c)
}

/// How a character is displayed between quotes: `{:?}` of a `char`.
pub uninterp spec fn quoted_char(c: char) -> Seq<char>;

/// The `Debug` form of a `char`: the character between single quotes, escaped.
#[verifier::external_body]
fn shown_char(c: char) -> (r: String)
    ensures
        r@ == quoted_char(c),
{
    format!("{:?}", c)
}

fn refused(c: char) -> (r: bool)
    ensures
        r == is_refused(c),
{
    text::white(c) || c as u32 <= 31 || (127 <= c as u32 && c as u32 <= 159) || c == '~' || c == '^'
        || c == ':' || c == '?' || c == '*' || c == '[' || c == '\\' || c == '"' || c == '\'' || c
        == '$' || c == '`'
}

/// Why a branch is refused, in the order in which the reasons are looked for.
pub open spec fn branch_fault(b: Seq<char>) -> Option<Seq<char>> {
    if b.len() == 0 {
        Some("a branch name is required"@)
    } else if b[0] == '-' {
        Some("branch name may not start with '-'"@)
    } else if b[0] == '/' || b.last() == '/' || text::contains(b, "//"@) {
        Some("branch name may not start, end, or double up on '/'"@)
    } else if text::contains(b, ".."@) {
        Some("branch name may not contain '..'"@)
    } else {
        match list::first_of(b, |c: char| is_refused(c)) {
            Some(c) => Some("branch name may not contain "@ + quoted_char(c)),
            None => None,
        }
    }
}

/// What is said of a character that no branch may have, once it was put between
/// quotes.
pub fn refused_char(shown: &str) -> (r: AppError)
    ensures
        r.says("branch name may not contain "@ + shown@),
{
    AppError::Other(text::cat("branch name may not contain ", shown))
}

/// Check the name of a branch before it reaches a command line. White space
/// around it is no reason to refuse it.
pub fn validate_branch(branch: &str) -> (r: Result<String, AppError>)
    ensures
        match branch_fault(text::trim(branch@)) {
            Some(why) => r matches Err(e) && e.says(why),
            None => r matches Ok(b) && b@ == text::trim(branch@),
        },
{
    let b = text::trimmed(branch);
    let v = text::chars_of(&b);
    if v.len() == 0 {
        return Err(AppError::Other("a branch name is required".to_owned()));
    }
    if v[0] == '-' {
        return Err(AppError::Other("branch name may not start with '-'".to_owned()));
    }
    if v[0] == '/' || v[v.len() - 1] == '/' || text::holds(&b, "//") {
        return Err(
            AppError::Other("branch name may not start, end, or double up on '/'".to_owned()),
        );
    }
    if text::holds(&b, "..") {
        return Err(AppError::Other("branch name may not contain '..'".to_owned()));
    }
    let is = |c: &char| -> (bad: bool)
        ensures
            bad == is_refused(*c),
        { refused(*c) };
    let at: Option<usize> = list::position(&v, is, Ghost(|c: char| is_refused(c)));
    match at {
        Some(i) => Err(refused_char(&shown_char(v[i]))),
        None => Ok(b),
    }
}

/// The name that a branch is tried under: its own, then with `-2`, `-3` and so on.
pub open spec fn branch_name(requested: Seq<char>, attempt: nat) -> Seq<char> {
    if attempt <= 1 {
        requested
    } else {
        requested + "-"@ + text::dec(attempt)
    }
}

/// The search for a branch whose directory is free.
#[derive(Debug)]
pub struct BranchSearch {
    pub requested: String,
    /// How many names were tried, with the one that is being tried.
    pub attempt: u32,
}

/// Where the search stands.
#[derive(Debug)]
pub enum Reservation {
    /// See whether this directory is there.
    Check { dir: String },
    Reserved { branch: String, dir: String },
    Refused(AppError),
}

fn tried(requested: &str, attempt: u32) -> (r: String)
    ensures
        r@ == branch_name(requested@, attempt as nat),
{
    if attempt <= 1 {
        requested.to_owned()
    } else {
        let n = text::decimal(attempt as u64);
        text::cat3(requested, "-", &n)
    }
}

impl BranchSearch {
    /// Start with the name that was asked for.
    pub fn start(requested: String) -> (r: (Self, Reservation))
        ensures
            r.0.requested == requested,
            r.0.attempt == 1,
            r.1 matches Reservation::Check { dir } && dir@ == registry::dir_of_branch(requested@),
    {
        let dir = registry::sanitize_branch_for_dir(&requested);
        (BranchSearch { requested, attempt: 1 }, Reservation::Check { dir })
    }

    /// Go on, once it is known whether the directory is there. A name is taken
    /// only if its directory is neither there nor about to be made, and after the
    /// last attempt the request is refused.
    pub fn reserve_branch(&mut self, provisioning: &[String], on_disk: bool) -> (r: Reservation)
        requires
            1 <= old(self).attempt <= MAX_BRANCH_SUFFIX,
        ensures
            1 <= final(self).attempt <= MAX_BRANCH_SUFFIX,
            final(self).requested == old(self).requested,
            ({
                let branch = branch_name(old(self).requested@, old(self).attempt as nat);
                let dir = registry::dir_of_branch(branch);
                if !on_disk && !text::views(provisioning@).contains(dir) {
                    final(self).attempt == old(self).attempt && (r matches Reservation::Reserved {
                        branch: b,
                        dir: d,
                    } && b@ == branch && d@ == dir)
                } else if old(self).attempt < MAX_BRANCH_SUFFIX {
                    final(self).attempt == old(self).attempt + 1 && (r matches Reservation::Check {
                        dir: d,
                    } && d@ == registry::dir_of_branch(
                        branch_name(old(self).requested@, old(self).attempt as nat + 1),
                    ))
                } else {
                    final(self).attempt == old(self).attempt && (r matches Reservation::Refused(e)
                        && e.says(
                        "no free workspace directory for `"@ + old(self).requested@
                            + "` after 50 attempts"@,
                    ))
                }
            }),
    {
        let branch = tried(&self.requested, self.attempt);
        let dir = registry::sanitize_branch_for_dir(&branch);
        if !on_disk && !text::among(provisioning, &dir) {
            return Reservation::Reserved { branch, dir };
        }
        if self.attempt < MAX_BRANCH_SUFFIX {
            self.attempt = self.attempt + 1;
            let next = tried(&self.requested, self.attempt);
            return Reservation::Check { dir: registry::sanitize_branch_for_dir(&next) };
        }
        Reservation::Refused(
            AppError::Other(
                text::cat3(
                    "no free workspace directory for `",
                    &self.requested,
                    "` after 50 attempts",
                ),
            ),
        )
    }
}

/// Each attempt has a directory of its own, so that two handoffs that reserve
/// different attempts never share one.
pub proof fn each_attempt_has_its_own_directory(requested: Seq<char>, a: nat, b: nat)
    requires
        1 <= a < b,
    ensures
        registry::dir_of_branch(branch_name(requested, a)) != registry::dir_of_branch(
            branch_name(requested, b),
        ),
{
    reveal_strlit("-");
    let nb = branch_name(requested, b);
    let na = branch_name(requested, a);
    let head = requested + "-"@;
    assert(nb =~= head + text::dec(b));
    let db = registry::dir_of_branch(nb);
    let da = registry::dir_of_branch(na);
    if da == db {
        assert(da.len() == na.len());
        if a > 1 {
            assert(na =~= head + text::dec(a));
            assert forall|k: int| 0 <= k < text::dec(a).len() implies text::dec(a)[k] == text::dec(
                b,
            )[k] by {
                text::lemma_dec_digits(a);
                text::lemma_dec_digits(b);
                assert(na[head.len() + k] == text::dec(a)[k]);
                assert(nb[head.len() + k] == text::dec(b)[k]);
                assert(da[head.len() + k] == db[head.len() + k]);
            }
            assert(text::dec(a) =~= text::dec(b));
            text::lemma_number_of_dec(a);
            text::lemma_number_of_dec(b);
        }
    }
}

/// A handoff that nothing speaks against.
#[derive(Debug)]
pub struct CheckedHandoff {
    pub brief: String,
    /// The branch that was asked for.
    pub requested: String,
    /// Where the repos stand in the registry.
    pub repos: Vec<usize>,
    pub caller_id: WorkspaceId,
    pub from_session: Option<SessionId>,
    /// The new workspace runs under the caller's binary and lies in its folder:
    /// an agent has no say in either.
    pub claude_binary: Option<String>,
    pub folder: Option<String>,
    pub blocks_caller: bool,
}

/// What speaks against a handoff, in the order in which it is looked for.
pub open spec fn handoff_fault(
    state: AppState,
    reg: RepoRegistry,
    req: CreateWorkspace,
) -> Option<Seq<char>> {
    if text::trim(req.brief@).len() == 0 {
        Some("a brief is required — it's the only thing the new session gets"@)
    } else if req.repos@.len() == 0 {
        Some("name at least one repo for the new workspace"@)
    } else {
        match reg.first_unknown(req.repos@) {
            Some(k) => Some(
                "unknown repo key: "@ + k@ + ". Known repos: "@ + text::join(
                    mcp::keys_of(reg.repos@),
                    ", "@,
                ),
            ),
            None => match branch_fault(text::trim(req.branch@)) {
                Some(why) => Some(why),
                None => if state.workspace_at(req.from_workspace@) is None {
                    Some(
                        "the calling workspace ("@ + req.from_workspace@
                            + ") is no longer in Tethys"@,
                    )
                } else {
                    None
                },
            },
        }
    }
}

/// Check a handoff. Everything that can be refused is refused here.
pub fn check_handoff(state: &AppState, reg: &RepoRegistry, req: CreateWorkspace) -> (r: Result<
    CheckedHandoff,
    AppError,
>)
    ensures
        match handoff_fault(*state, *reg, req) {
            Some(why) => r matches Err(e) && e.says(why),
            None => {
                let caller = state.workspaces@[state.workspace_at(req.from_workspace@)->0];
                &&& r is Ok
                &&& r->Ok_0.brief@ == text::trim(req.brief@)
                &&& r->Ok_0.requested@ == text::trim(req.branch@)
                &&& reg.are_places(r->Ok_0.repos@, req.repos@)
                &&& r->Ok_0.caller_id == caller.id
                &&& r->Ok_0.from_session == req.from_session
                &&& r->Ok_0.claude_binary == caller.claude_binary
                &&& r->Ok_0.folder == caller.folder
                &&& r->Ok_0.blocks_caller == req.blocks_caller
            },
        },
{
    let brief = text::trimmed(&req.brief);
    if brief.as_str().is_empty() {
        return Err(
            AppError::Other(
                "a brief is required — it's the only thing the new session gets".to_owned(),
            ),
        );
    }
    if req.repos.len() == 0 {
        return Err(AppError::Other("name at least one repo for the new workspace".to_owned()));
    }
    let repos = match reg.find_all(&req.repos) {
        Ok(p) => p,
        Err(k) => {
            let known = mcp::repo_keys_of(reg);
            let mut m = text::cat3("unknown repo key: ", &k, ". Known repos: ");
            m.append(&text::joined(&known, ", "));
            return Err(AppError::Other(m));
        },
    };
    let requested = match validate_branch(&req.branch) {
        Ok(b) => b,
        Err(e) => {
            return Err(e);
        },
    };
    match state.workspace_index(&req.from_workspace) {
        Some(i) => {
            let caller = &state.workspaces[i];
            Ok(
                CheckedHandoff {
                    brief,
                    requested,
                    repos,
                    caller_id: caller.id.clone(),
                    from_session: req.from_session,
                    claude_binary: text::copied(&caller.claude_binary),
                    folder: text::copied(&caller.folder),
                    blocks_caller: req.blocks_caller,
                },
            )
        },
        None => Err(
            AppError::Other(
                text::cat3(
                    "the calling workspace (",
                    &req.from_workspace,
                    ") is no longer in Tethys",
                ),
            ),
        ),
    }
}

/// The workspaces once a handoff was accepted: the new one in front, and the
/// caller waiting for it where it asked for that.
pub open spec fn with_draft(
    workspaces: Seq<Workspace>,
    draft: Workspace,
    waiting: Option<Seq<char>>,
) -> Seq<Workspace> {
    let all = seq![draft] + workspaces;
    match waiting {
        Some(id) => match state::workspace_in(all, id) {
            Some(i) => all.update(i, Workspace { blocked_by: Some(draft.id), ..all[i] }),
            None => all,
        },
        None => all,
    }
}

/// The workspace that a handoff makes.
pub open spec fn is_draft(w: Workspace, h: CheckedHandoff, branch: Seq<char>, now: i64) -> bool {
    &&& w.id@.len() == 36
    &&& w.branch@ == branch
    &&& w.claude_binary == h.claude_binary
    &&& w.folder == h.folder
    &&& w.created_at == now
    &&& w.status is Creating
    &&& w.origin == (Origin::Handoff { from_workspace: h.caller_id, from_session: h.from_session })
    &&& w.repo_links@.len() == 0
    &&& w.sessions@.len() == 0
    &&& w.script_runs@.len() == 0
    &&& w.artifacts@.len() == 0
    &&& w.notes@.len() == 0
    &&& w.deleted_at is None
    &&& w.archived_at is None
    &&& w.blocked_by is None
    &&& w.dev_servers is None
}

/// Accept a handoff under the branch that was reserved for it.
pub fn accept(state: &mut AppState, handoff: &CheckedHandoff, branch: String, now: i64) -> (r:
    Accepted)
    ensures
        r.branch == branch,
        final(state).system_errors == old(state).system_errors,
        exists|draft: Workspace|
            #[trigger] is_draft(draft, *handoff, branch@, now) && draft.id@ == r.workspace_id@
                && final(state).workspaces@ == with_draft(
                old(state).workspaces@,
                draft,
                if handoff.blocks_caller {
                    Some(handoff.caller_id@)
                } else {
                    None
                },
            ),
{
    let id = ids::fresh_id();
    let draft = Workspace::draft(
        id.clone(),
        branch.clone(),
        text::copied(&handoff.claude_binary),
        Origin::Handoff {
            from_workspace: handoff.caller_id.clone(),
            from_session: text::copied(&handoff.from_session),
        },
        text::copied(&handoff.folder),
        now,
    );
    let ghost new = draft;
    let ghost before = state.workspaces@;
    state.workspaces.insert(0, draft);
    assert(state.workspaces@ =~= seq![new] + before);
    if handoff.blocks_caller {
        if let Some(i) = state.workspace_index(&handoff.caller_id) {
            let w = &mut state.workspaces[i];
            w.blocked_by = Some(id.clone());
        }
    }
    assert(is_draft(new, *handoff, branch@, now));
    Accepted { workspace_id: id, branch }
}

/// The session that picks the work up, and its first message. It is started only once
/// the workspace is there, and only where sessions can be had at all. It is the one
/// session at the workspace root, under the workspace's own binary.
pub fn provision_and_start<'a>(
    provisioned: bool,
    workspace_id: &'a str,
    tmux_bin: &'a str,
    brief: &'a str,
) -> (r: Option<(StartSession<'a>, &'a str)>)
    ensures
        match r {
            Some((session, first)) => {
                &&& provisioned && tmux_bin@.len() > 0
                &&& session.workspace_id@ == workspace_id@
                &&& session.repo_key is None
                &&& session.tmux_bin@ == tmux_bin@
                &&& session.session_binary is None
                &&& first@ == brief@
            },
            None => !provisioned || tmux_bin@.len() == 0,
        },
{
    if !provisioned || tmux_bin.is_empty() {
        return None;
    }
    Some((StartSession { workspace_id, repo_key: None, tmux_bin, session_binary: None }, brief))
}

/// A branch name is taken exactly where it holds something, does not start with a dash,
/// has no slash at its ends and no two of them together, no two dots together, and none
/// of the characters that a branch cannot have: white space, control characters and
/// those that git or a shell reads as something else.
pub proof fn which_branch_names_are_taken(b: Seq<char>)
    ensures
        branch_fault(b) is None <==> {
            &&& b.len() > 0
            &&& b[0] != '-'
            &&& b[0] != '/' && b.last() != '/'
            &&& forall|i: int| 0 <= i < b.len() - 1 ==> !(#[trigger] b[i] == '/' && b[i + 1] == '/')
            &&& forall|i: int| 0 <= i < b.len() - 1 ==> !(#[trigger] b[i] == '.' && b[i + 1] == '.')
            &&& forall|i: int|
                0 <= i < b.len() ==> !text::is_white(#[trigger] b[i]) && b[i] as u32 > 31 && !(127
                    <= b[i] as u32 <= 159) && b[i] != '~' && b[i] != '^' && b[i] != ':' && b[i]
                    != '?' && b[i] != '*' && b[i] != '[' && b[i] != '\\' && b[i] != '"' && b[i]
                    != '\'' && b[i] != '$' && b[i] != '`'
        },
{
    reveal_strlit("//");
    reveal_strlit("..");
    assert("//"@ =~= seq!['/', '/']);
    assert(".."@ =~= seq!['.', '.']);
    lemma_pair(b, '/', "//"@);
    lemma_pair(b, '.', ".."@);
    let bad = |c: char| is_refused(c);
    list::lemma_first_where(b, bad);
    if list::first_of(b, bad) is None {
        assert forall|i: int| 0 <= i < b.len() implies !is_refused(#[trigger] b[i]) by {
            assert(!bad(b[i]));
        }
    } else {
        let i = list::first_where(b, bad)->0;
        assert(bad(b[i]));
        assert(is_refused(b[i]));
    }
}

proof fn lemma_pair(b: Seq<char>, c: char, two: Seq<char>)
    requires
        two == seq![c, c],
    ensures
        text::contains(b, two) <==> exists|i: int|
            0 <= i < b.len() - 1 && #[trigger] b[i] == c && b[i + 1] == c,
{
    if text::contains(b, two) {
        let i = choose|i: int| text::occurs_at(b, two, i);
        assert(b.subrange(i, i + 2)[0] == two[0]);
        assert(b.subrange(i, i + 2)[1] == two[1]);
        assert(b[i] == c && b[i + 1] == c);
    }
    if exists|i: int| 0 <= i < b.len() - 1 && #[trigger] b[i] == c && b[i + 1] == c {
        let i = choose|i: int| 0 <= i < b.len() - 1 && #[trigger] b[i] == c && b[i + 1] == c;
        assert(b.subrange(i, i + 2) =~= two);
        assert(text::occurs_at(b, two, i));
    }
}

/// The first attempt has the name that was asked for; each further one has it with its
/// number behind a dash, and no two have the same.
pub proof fn each_attempt_has_its_own_name(requested: Seq<char>, a: nat, b: nat)
    requires
        1 <= a < b,
    ensures
        branch_name(requested, 1) == requested,
        branch_name(requested, b) == requested + seq!['-'] + text::dec(b),
        branch_name(requested, a) != branch_name(requested, b),
{
    reveal_strlit("-");
    assert("-"@ =~= seq!['-']);
    let p = requested + seq!['-'];
    text::lemma_number_of_dec(a);
    text::lemma_number_of_dec(b);
    text::lemma_dec_digits(b);
    let x = branch_name(requested, a);
    let y = branch_name(requested, b);
    assert(y =~= p + text::dec(b));
    if x == y {
        if a == 1 {
            assert(x.len() == y.len());
        } else {
            assert(x =~= p + text::dec(a));
            assert(x.skip(p.len() as int) =~= text::dec(a));
            assert(y.skip(p.len() as int) =~= text::dec(b));
        }
    }
}

/// A request is refused for the first thing that is wrong with it: no brief, then no
/// repo, then a repo that nobody knows, then the name of its branch, then a caller that
/// is gone. A request with none of these is taken.
pub proof fn what_a_handoff_is_refused_for(state: AppState, reg: RepoRegistry, req: CreateWorkspace)
    ensures
        handoff_fault(state, reg, req) is None <==> {
            &&& text::trim(req.brief@).len() > 0
            &&& req.repos@.len() > 0
            &&& forall|i: int|
                0 <= i < req.repos@.len() ==> exists|r: int|
                    0 <= r < reg.repos@.len() && (#[trigger] reg.repos@[r]).key@ == (
                    #[trigger] req.repos@[i])@
            &&& branch_fault(text::trim(req.branch@)) is None
            &&& exists|w: int|
                0 <= w < state.workspaces@.len() && (#[trigger] state.workspaces@[w]).id@
                    == req.from_workspace@
        },
        text::trim(req.brief@).len() == 0 ==> handoff_fault(state, reg, req) == Some(
            "a brief is required — it's the only thing the new session gets"@,
        ),
        text::trim(req.brief@).len() > 0 && req.repos@.len() == 0 ==> handoff_fault(state, reg, req)
            == Some("name at least one repo for the new workspace"@),
{
    assert forall|i: int| 0 <= i < req.repos@.len() implies (reg.repo_at(
        (#[trigger] req.repos@[i])@,
    ) is Some <==> exists|r: int|
        0 <= r < reg.repos@.len() && (#[trigger] reg.repos@[r]).key@ == req.repos@[i]@) by {
        registry::a_key_stands_for_its_first_repo(reg, req.repos@[i]);
    }
    registry::the_first_unknown_key_is_found(reg, req.repos@);
    list::lemma_first_where(state.workspaces@, state::of_id(req.from_workspace@));
}

/// A new workspace goes before all others, which stay as they are, but that the one
/// that waits for it is blocked by it.
pub proof fn a_draft_goes_first(
    workspaces: Seq<Workspace>,
    draft: Workspace,
    waiting: Option<Seq<char>>,
    i: int,
)
    requires
        0 <= i < workspaces.len(),
        waiting is None || draft.id@ != waiting->0,
    ensures
        with_draft(workspaces, draft, waiting).len() == workspaces.len() + 1,
        with_draft(workspaces, draft, waiting)[0] == draft,
        waiting is None || workspaces[i].id@ != waiting->0 ==> with_draft(
            workspaces,
            draft,
            waiting,
        )[i + 1] == workspaces[i],
        waiting is Some && workspaces[i].id@ == waiting->0 && (forall|k: int|
            0 <= k < i ==> (#[trigger] workspaces[k]).id@ != waiting->0) ==> with_draft(
            workspaces,
            draft,
            waiting,
        )[i + 1] == (Workspace { blocked_by: Some(draft.id), ..workspaces[i] }),
{
    let all = seq![draft] + workspaces;
    if let Some(id) = waiting {
        list::lemma_first_where(all, state::of_id(id));
        if workspaces[i].id@ == id && (forall|k: int|
            0 <= k < i ==> (#[trigger] workspaces[k]).id@ != id) {
            assert forall|k: int| 0 <= k < i + 1 implies !(state::of_id(id))(all[k]) by {
                if k > 0 {
                    assert(all[k] == workspaces[k - 1]);
                }
            }
            list::lemma_first_where_is(all, state::of_id(id), i + 1);
        }
    }
}

/// A workspace that is handed on has the branch that it got and the caller's program and
/// folder; it says who handed it on, is being made, and holds nothing yet.
pub proof fn a_handed_on_workspace_names_its_caller(
    w: Workspace,
    h: CheckedHandoff,
    branch: Seq<char>,
    now: i64,
)
    requires
        is_draft(w, h, branch, now),
    ensures
        w.branch@ == branch && w.claude_binary == h.claude_binary && w.folder == h.folder,
        w.origin == (Origin::Handoff {
            from_workspace: h.caller_id,
            from_session: h.from_session,
        }),
        w.status is Creating && w.created_at == now,
        w.repo_links@.len() == 0 && w.sessions@.len() == 0 && w.script_runs@.len() == 0
            && w.artifacts@.len() == 0 && w.notes@.len() == 0,
        w.deleted_at is None && w.archived_at is None && w.blocked_by is None && w.dev_servers
            is None,
{
}

/// A branch name is refused for the first thing that is wrong with it, in words that say
/// what that is.
pub proof fn why_a_branch_name_is_refused(b: Seq<char>)
    ensures
        b.len() == 0 ==> branch_fault(b) == Some("a branch name is required"@),
        b.len() > 0 && b[0] == '-' ==> branch_fault(b) == Some(
            "branch name may not start with '-'"@,
        ),
        b.len() > 0 && b[0] != '-' && (b[0] == '/' || b.last() == '/' || text::contains(b, "//"@))
            ==> branch_fault(b) == Some(
            "branch name may not start, end, or double up on '/'"@,
        ),
        b.len() > 0 && b[0] != '-' && b[0] != '/' && b.last() != '/' && !text::contains(b, "//"@)
            && text::contains(b, ".."@) ==> branch_fault(b) == Some(
            "branch name may not contain '..'"@,
        ),
{
}

} // verus!
