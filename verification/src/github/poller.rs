//! When GitHub is polled, and for what.

use vstd::prelude::*;

use crate::github::client::GhError;
use crate::github::status::GithubSlug;
use crate::list;
use crate::registry::{Repo, RepoRegistry};
use crate::state::{AppState, RepoLink, TrackedPr, Workspace};
use crate::text;

verus! {

/// The usual time between two polls, in seconds.
pub const BASE_INTERVAL: u64 = 45;

/// The longest time between two polls after failures, in seconds.
pub const MAX_BACKOFF: u64 = 600;

/// The time between two polls while nobody is logged in, in seconds.
pub const AUTH_RETRY_INTERVAL: u64 = 600;

/// The shortest time between two polls that were asked for, in milliseconds.
pub const FORCE_TICK_MIN_SPACING: i64 = 10000;

/// A poll may be late by anything below this, in milliseconds.
pub const JITTER: u64 = 5000;

/// Whether GitHub can be asked.
#[derive(Debug, Clone, Copy, PartialEq, Eq, Structural)]
pub enum AuthState {
    Unknown,
    Authenticated,
    /// Nobody is logged in. It is tried again, but not often.
    NotAuthenticated,
    /// The command line tool is missing.
    Disabled,
}

impl Default for AuthState {
    fn default() -> (r: Self)
        ensures
            r == AuthState::Unknown,
    {
        AuthState::Unknown
    }
}

/// Whether GitHub can be asked, and as whom.
#[derive(Debug)]
pub struct AuthSnapshot {
    pub state: AuthState,
    pub login: Option<String>,
}

/// What the poller remembers from one poll to the next.
#[derive(Debug)]
pub struct GithubPoller {
    pub consecutive_failures: u32,
    pub auth: AuthState,
    pub login: Option<String>,
    /// When a poll was last asked for, in milliseconds.
    pub last_forced_tick: Option<i64>,
}

impl Default for GithubPoller {
    fn default() -> (r: Self)
        ensures
            r == (GithubPoller {
                consecutive_failures: 0,
                auth: AuthState::Unknown,
                login: None,
                last_forced_tick: None,
            }),
    {
        GithubPoller::new()
    }
}

/// The usual interval, doubled `failures` times.
pub open spec fn doubled(failures: nat) -> nat
    decreases failures,
{
    if failures == 0 {
        BASE_INTERVAL as nat
    } else {
        2 * doubled((failures - 1) as nat)
    }
}

proof fn lemma_doubled(n: nat)
    requires
        n >= 4,
    ensures
        doubled(n) >= 720,
    decreases n,
{
    if n == 4 {
        reveal_with_fuel(doubled, 5);
    } else {
        lemma_doubled((n - 1) as nat);
    }
}

/// How long to wait after failures, in seconds: the usual interval doubled for
/// each of them, up to a limit.
pub fn backoff_for(failures: u32) -> (r: u64)
    ensures
        r == (if doubled(failures as nat) < MAX_BACKOFF {
            doubled(failures as nat)
        } else {
            MAX_BACKOFF as nat
        }),
{
    proof {
        reveal_with_fuel(doubled, 5);
        if failures >= 4 {
            lemma_doubled(failures as nat);
        }
    }
    if failures == 0 {
        BASE_INTERVAL
    } else if failures == 1 {
        2 * BASE_INTERVAL
    } else if failures == 2 {
        4 * BASE_INTERVAL
    } else if failures == 3 {
        8 * BASE_INTERVAL
    } else {
        MAX_BACKOFF
    }
}

/// `fastrand::u64` on a range from zero: a random number below `n`. Which one is
/// a matter of chance.
#[verifier::external_body]
fn random_below(n: u64) -> (r: u64)
    requires
        n > 0,
    ensures
        r < n,
{
    fastrand::u64(0..n)
}

impl GithubPoller {
    pub fn new() -> (r: Self)
        ensures
            r == (GithubPoller {
                consecutive_failures: 0,
                auth: AuthState::Unknown,
                login: None,
                last_forced_tick: None,
            }),
    {
        GithubPoller {
            consecutive_failures: 0,
            auth: AuthState::Unknown,
            login: None,
            last_forced_tick: None,
        }
    }

    /// The time until the next poll, in milliseconds, when it is late by `jitter`.
    pub open spec fn delay(self, jitter: nat) -> nat {
        match self.auth {
            AuthState::Disabled => u64::MAX as nat * 1000,
            AuthState::NotAuthenticated => AUTH_RETRY_INTERVAL as nat * 1000,
            _ => (if doubled(self.consecutive_failures as nat) < MAX_BACKOFF {
                doubled(self.consecutive_failures as nat)
            } else {
                MAX_BACKOFF as nat
            }) * 1000 + jitter,
        }
    }

    /// The time until the next poll, in milliseconds, when it is late by `jitter`.
    /// Without the tool there is none in any foreseeable time.
    pub fn delay_with(&self, jitter: u64) -> (r: u128)
        ensures
            r == self.delay(jitter as nat),
    {
        match self.auth {
            AuthState::Disabled => u64::MAX as u128 * 1000,
            AuthState::NotAuthenticated => AUTH_RETRY_INTERVAL as u128 * 1000,
            _ => {
                let b: u64 = backoff_for(self.consecutive_failures);
                b as u128 * 1000 + jitter as u128
            },
        }
    }

    /// The time until the next poll, in milliseconds.
    pub fn next_delay(&self) -> (r: u128)
        ensures
            exists|jitter: nat| jitter < JITTER && r == #[trigger] self.delay(jitter),
    {
        let jitter: u64 = random_below(JITTER);
        let r: u128 = self.delay_with(jitter);
        assert(r == self.delay(jitter as nat));
        r
    }

    /// Whether the poller polls when its time has come. Without the tool it parks
    /// and goes on once the tool is there.
    pub fn is_parked(&self) -> (r: bool)
        ensures
            r == (self.auth is Disabled),
    {
        matches!(self.auth, AuthState::Disabled)
    }

    /// Ask for a poll at once. Says whether there is one: a second request that
    /// comes too soon is dropped.
    pub fn request_tick(&mut self, now: i64) -> (r: bool)
        ensures
            r == (match old(self).last_forced_tick {
                Some(t) => now - t >= FORCE_TICK_MIN_SPACING,
                None => true,
            }),
            *final(self) == (if r {
                GithubPoller { last_forced_tick: Some(now), ..*old(self) }
            } else {
                *old(self)
            }),
    {
        if let Some(t) = self.last_forced_tick {
            if (now as i128) - (t as i128) < FORCE_TICK_MIN_SPACING as i128 {
                return false;
            }
        }
        self.last_forced_tick = Some(now);
        true
    }

    /// Note that a poll went well. Says whether that is news.
    pub fn tick_ok(&mut self) -> (r: bool)
        ensures
            r == !(old(self).auth is Authenticated),
            *final(self) == (GithubPoller {
                consecutive_failures: 0,
                auth: AuthState::Authenticated,
                ..*old(self)
            }),
    {
        let news = !matches!(self.auth, AuthState::Authenticated);
        self.consecutive_failures = 0;
        self.auth = AuthState::Authenticated;
        news
    }

    /// Note that a poll failed. Says whether anything changed about who is logged
    /// in. Anything that will pass makes the next poll come later.
    pub fn handle_error(&mut self, err: &GhError) -> (r: bool)
        ensures
            match *err {
                GhError::NotInstalled => r == !(old(self).auth is Disabled) && *final(self) == (
                GithubPoller { auth: AuthState::Disabled, login: None, ..*old(self) }),
                GhError::NotAuthenticated => r == !(old(self).auth is NotAuthenticated)
                    && *final(self) == (GithubPoller {
                    auth: AuthState::NotAuthenticated,
                    login: None,
                    ..*old(self)
                }),
                _ => !r && *final(self) == (GithubPoller {
                    consecutive_failures: if old(self).consecutive_failures < u32::MAX {
                        (old(self).consecutive_failures + 1) as u32
                    } else {
                        u32::MAX
                    },
                    ..*old(self)
                }),
            },
    {
        match err {
            GhError::NotInstalled => {
                let news = !matches!(self.auth, AuthState::Disabled);
                self.auth = AuthState::Disabled;
                self.login = None;
                news
            },
            GhError::NotAuthenticated => {
                let news = !matches!(self.auth, AuthState::NotAuthenticated);
                self.auth = AuthState::NotAuthenticated;
                self.login = None;
                news
            },
            _ => {
                if self.consecutive_failures < 4294967295 {
                    self.consecutive_failures = self.consecutive_failures + 1;
                }
                false
            },
        }
    }

    /// Whether GitHub can be asked, and as whom.
    pub fn auth_snapshot(&self) -> (r: AuthSnapshot)
        ensures
            r == (AuthSnapshot { state: self.auth, login: self.login }),
    {
        AuthSnapshot { state: self.auth, login: text::copied(&self.login) }
    }

    /// Note what a look at who is logged in found. Says whether that is news, and
    /// whether the loop is to be woken: it may be parked, and would never poll
    /// again on its own.
    pub fn probe_login(&mut self, result: Result<String, GhError>) -> (r: (bool, bool))
        ensures
            *final(self) == (GithubPoller {
                auth: final(self).auth,
                login: final(self).login,
                ..*old(self)
            }),
            final(self).auth == (match result {
                Ok(_) => AuthState::Authenticated,
                Err(GhError::NotInstalled) => AuthState::Disabled,
                Err(_) => AuthState::NotAuthenticated,
            }),
            final(self).login == (match result {
                Ok(login) => Some(login),
                Err(_) => None,
            }),
            r.0 == (final(self).auth != old(self).auth || text::maybe(final(self).login)
                != text::maybe(old(self).login)),
            r.1 == (r.0 && !(final(self).auth is Disabled)),
    {
        let before = self.auth;
        let (auth, login) = match result {
            Ok(login) => (AuthState::Authenticated, Some(login)),
            Err(GhError::NotInstalled) => (AuthState::Disabled, None),
            Err(_) => (AuthState::NotAuthenticated, None),
        };
        let same_login = match (&self.login, &login) {
            (Some(a), Some(b)) => text::same(a, b),
            (None, None) => true,
            _ => false,
        };
        self.auth = auth;
        self.login = login;
        let news = before != auth || !same_login;
        (news, news && !matches!(auth, AuthState::Disabled))
    }
}

/// Installing the tool after the start is enough: the look that finds it wakes the
/// parked loop, and the next poll comes in its usual time.
pub proof fn a_recovered_poller_polls_again(parked: GithubPoller, found: GithubPoller, jitter: nat)
    requires
        parked.auth is Disabled,
        found.auth is Authenticated,
        found == (GithubPoller { auth: found.auth, login: found.login, ..parked }),
        jitter < JITTER,
    ensures
        found.auth != parked.auth && !(found.auth is Disabled),
        found.delay(jitter) < (MAX_BACKOFF + 5) * 1000,
        parked.consecutive_failures == 0 ==> found.delay(jitter) < (BASE_INTERVAL + 5) * 1000,
{
}

/// What a poll asks about.
#[derive(Debug)]
pub struct Target {
    pub workspace_id: String,
    pub repo_key: String,
    pub slug: GithubSlug,
    pub kind: TargetKind,
}

/// What a poll asks.
#[derive(Debug)]
pub enum TargetKind {
    /// Whether this branch has a pull request.
    Branch(String),
    /// How this pull request stands.
    Pr(u32),
}

/// The questions about the pull requests of a link.
pub open spec fn pr_targets(
    workspace_id: String,
    repo_key: String,
    slug: GithubSlug,
    prs: Seq<TrackedPr>,
) -> Seq<Target> {
    prs.map_values(
        |p: TrackedPr| Target { workspace_id, repo_key, slug, kind: TargetKind::Pr(p.number) },
    )
}

/// The questions about a link: one about the workspace's branch, and one about
/// each pull request that is tracked. A repo that is not on GitHub has none.
pub open spec fn link_targets(ws: Workspace, link: RepoLink, reg: RepoRegistry) -> Seq<Target> {
    match reg.repo_at(link.repo_key@) {
        Some(i) => match reg.repos@[i].github_slug {
            Some(slug) => seq![
                Target {
                    workspace_id: ws.id,
                    repo_key: link.repo_key,
                    slug,
                    kind: TargetKind::Branch(ws.branch),
                },
            ] + pr_targets(ws.id, link.repo_key, slug, link.prs@),
            None => seq![],
        },
        None => seq![],
    }
}

/// The questions about some links of a workspace.
pub open spec fn links_targets(ws: Workspace, links: Seq<RepoLink>, reg: RepoRegistry) -> Seq<
    Target,
>
    decreases links.len(),
{
    if links.len() == 0 {
        seq![]
    } else {
        links_targets(ws, links.drop_last(), reg) + link_targets(ws, links.last(), reg)
    }
}

/// The questions about some workspaces.
pub open spec fn all_targets(workspaces: Seq<Workspace>, reg: RepoRegistry) -> Seq<Target>
    decreases workspaces.len(),
{
    if workspaces.len() == 0 {
        seq![]
    } else {
        all_targets(workspaces.drop_last(), reg) + links_targets(
            workspaces.last(),
            workspaces.last().repo_links@,
            reg,
        )
    }
}

fn push_link(out: &mut Vec<Target>, ws: &Workspace, link: &RepoLink, reg: &RepoRegistry)
    ensures
        final(out)@ == old(out)@ + link_targets(*ws, *link, *reg),
{
    let ghost before = out@;
    let repo = match reg.find_repo(&link.repo_key) {
        Some(r) => r,
        None => {
            assert(out@ =~= before + link_targets(*ws, *link, *reg));
            return ;
        },
    };
    let slug = match &repo.github_slug {
        Some(s) => s,
        None => {
            assert(out@ =~= before + link_targets(*ws, *link, *reg));
            return ;
        },
    };
    out.push(
        Target {
            workspace_id: ws.id.clone(),
            repo_key: link.repo_key.clone(),
            slug: slug.clone(),
            kind: TargetKind::Branch(ws.branch.clone()),
        },
    );
    let ghost first = out@;
    let ghost all = pr_targets(ws.id, link.repo_key, *slug, link.prs@);
    let mut i: usize = 0;
    assert(out@ =~= first + all.take(0));
    while i < link.prs.len()
        invariant
            i <= link.prs.len(),
            all == pr_targets(ws.id, link.repo_key, *slug, link.prs@),
            out@ == first + all.take(i as int),
        decreases link.prs.len() - i,
    {
        out.push(
            Target {
                workspace_id: ws.id.clone(),
                repo_key: link.repo_key.clone(),
                slug: slug.clone(),
                kind: TargetKind::Pr(link.prs[i].number),
            },
        );
        i = i + 1;
        assert(out@ =~= first + all.take(i as int));
    }
    assert(all.take(i as int) =~= all);
    assert(out@ =~= before + link_targets(*ws, *link, *reg));
}

fn push_workspace(out: &mut Vec<Target>, ws: &Workspace, reg: &RepoRegistry)
    ensures
        final(out)@ == old(out)@ + links_targets(*ws, ws.repo_links@, *reg),
{
    let ghost before = out@;
    let ghost links = ws.repo_links@;
    let mut i: usize = 0;
    assert(links.take(0).len() == 0);
    assert(out@ =~= before + links_targets(*ws, links.take(0), *reg));
    while i < ws.repo_links.len()
        invariant
            i <= ws.repo_links.len(),
            links == ws.repo_links@,
            out@ == before + links_targets(*ws, links.take(i as int), *reg),
        decreases ws.repo_links.len() - i,
    {
        push_link(out, ws, &ws.repo_links[i], reg);
        assert(links.take(i + 1).drop_last() =~= links.take(i as int));
        assert(links.take(i + 1).last() == links[i as int]);
        i = i + 1;
        assert(out@ =~= before + links_targets(*ws, links.take(i as int), *reg));
    }
    assert(links.take(i as int) =~= links);
}

/// What a poll asks about. Without a registry there is nothing to ask.
pub fn collect_targets(state: &AppState, registry: Option<&RepoRegistry>) -> (r: Vec<Target>)
    ensures
        r@ == (match registry {
            Some(reg) => all_targets(state.workspaces@, *reg),
            None => seq![],
        }),
{
    let mut out: Vec<Target> = Vec::new();
    let reg = match registry {
        Some(r) => r,
        None => {
            return out;
        },
    };
    let ghost all = state.workspaces@;
    let mut i: usize = 0;
    assert(all.take(0).len() == 0);
    while i < state.workspaces.len()
        invariant
            i <= state.workspaces.len(),
            all == state.workspaces@,
            out@ == all_targets(all.take(i as int), *reg),
        decreases state.workspaces.len() - i,
    {
        push_workspace(&mut out, &state.workspaces[i], reg);
        assert(all.take(i + 1).drop_last() =~= all.take(i as int));
        assert(all.take(i + 1).last() == all[i as int]);
        i = i + 1;
    }
    assert(all.take(i as int) =~= all);
    out
}

proof fn lemma_links_targets(ws: Workspace, links: Seq<RepoLink>, reg: RepoRegistry, l: int)
    requires
        0 <= l < links.len(),
    ensures
        forall|t: Target| link_targets(ws, links[l], reg).contains(t) ==> #[trigger] links_targets(
            ws,
            links,
            reg,
        ).contains(t),
    decreases links.len(),
{
    let before = links_targets(ws, links.drop_last(), reg);
    let own = link_targets(ws, links.last(), reg);
    assert forall|t: Target| link_targets(ws, links[l], reg).contains(
        t,
    ) implies #[trigger] links_targets(ws, links, reg).contains(t) by {
        if l == links.len() - 1 {
            let k = choose|k: int| 0 <= k < own.len() && own[k] == t;
            assert((before + own)[before.len() + k] == t);
        } else {
            lemma_links_targets(ws, links.drop_last(), reg, l);
            assert(before.contains(t));
            let k = choose|k: int| 0 <= k < before.len() && before[k] == t;
            assert((before + own)[k] == t);
        }
    }
}

proof fn lemma_all_targets(workspaces: Seq<Workspace>, reg: RepoRegistry, w: int)
    requires
        0 <= w < workspaces.len(),
    ensures
        forall|t: Target|
            links_targets(workspaces[w], workspaces[w].repo_links@, reg).contains(t)
                ==> #[trigger] all_targets(workspaces, reg).contains(t),
    decreases workspaces.len(),
{
    let ws = workspaces.last();
    let before = all_targets(workspaces.drop_last(), reg);
    let own = links_targets(ws, ws.repo_links@, reg);
    assert forall|t: Target|
        links_targets(workspaces[w], workspaces[w].repo_links@, reg).contains(
            t,
        ) implies #[trigger] all_targets(workspaces, reg).contains(t) by {
        if w == workspaces.len() - 1 {
            let k = choose|k: int| 0 <= k < own.len() && own[k] == t;
            assert((before + own)[before.len() + k] == t);
        } else {
            lemma_all_targets(workspaces.drop_last(), reg, w);
            assert(before.contains(t));
            let k = choose|k: int| 0 <= k < before.len() && before[k] == t;
            assert((before + own)[k] == t);
        }
    }
}

/// A poll leaves nothing out: for every link of every workspace whose repo is on
/// GitHub, it asks about the workspace's branch and about every single pull request
/// that the link tracks.
pub proof fn everything_tracked_is_asked_about(
    workspaces: Seq<Workspace>,
    reg: RepoRegistry,
    w: int,
    l: int,
    r: int,
    slug: GithubSlug,
)
    requires
        0 <= w < workspaces.len(),
        0 <= l < workspaces[w].repo_links@.len(),
        0 <= r < reg.repos@.len(),
        reg.repos@[r].key@ == workspaces[w].repo_links@[l].repo_key@,
        forall|k: int|
            0 <= k < r ==> (#[trigger] reg.repos@[k]).key@
                != workspaces[w].repo_links@[l].repo_key@,
        reg.repos@[r].github_slug == Some(slug),
    ensures
        all_targets(workspaces, reg).contains(
            Target {
                workspace_id: workspaces[w].id,
                repo_key: workspaces[w].repo_links@[l].repo_key,
                slug,
                kind: TargetKind::Branch(workspaces[w].branch),
            },
        ),
        forall|p: int|
            0 <= p < workspaces[w].repo_links@[l].prs@.len() ==> all_targets(
                workspaces,
                reg,
            ).contains(
                Target {
                    workspace_id: workspaces[w].id,
                    repo_key: workspaces[w].repo_links@[l].repo_key,
                    slug,
                    kind: TargetKind::Pr((#[trigger] workspaces[w].repo_links@[l].prs@[p]).number),
                },
            ),
{
    let ws = workspaces[w];
    let link = ws.repo_links@[l];
    let own = link_targets(ws, link, reg);
    list::lemma_first_where_is(reg.repos@, |x: Repo| x.key@ == link.repo_key@, r);
    lemma_links_targets(ws, ws.repo_links@, reg, l);
    lemma_all_targets(workspaces, reg, w);
    assert(own[0] == (Target {
        workspace_id: ws.id,
        repo_key: link.repo_key,
        slug,
        kind: TargetKind::Branch(ws.branch),
    }));
    assert(own.contains(own[0]));
    assert forall|p: int| 0 <= p < link.prs@.len() implies all_targets(workspaces, reg).contains(
        Target {
            workspace_id: ws.id,
            repo_key: link.repo_key,
            slug,
            kind: TargetKind::Pr((#[trigger] link.prs@[p]).number),
        },
    ) by {
        assert(own[p + 1].kind == TargetKind::Pr(link.prs@[p].number));
        assert(own.contains(own[p + 1]));
    }
}

/// Whether a question is about something that the workspace has and that GitHub knows
/// of: its branch, or a pull request that the link tracks.
pub open spec fn asks_about(
    t: Target,
    ws: Workspace,
    link: RepoLink,
    repos: Seq<Repo>,
) -> bool {
    &&& t.workspace_id == ws.id
    &&& t.repo_key == link.repo_key
    &&& exists|r: int|
        0 <= r < repos.len() && (#[trigger] repos[r]).key@ == link.repo_key@ && repos[r].github_slug
            == Some(t.slug)
    &&& match t.kind {
        TargetKind::Branch(b) => b == ws.branch,
        TargetKind::Pr(n) => exists|p: int|
            0 <= p < link.prs@.len() && (#[trigger] link.prs@[p]).number == n,
    }
}

proof fn lemma_links_targets_from(
    ws: Workspace,
    links: Seq<RepoLink>,
    reg: RepoRegistry,
    k: int,
) -> (l: int)
    requires
        0 <= k < links_targets(ws, links, reg).len(),
    ensures
        0 <= l < links.len(),
        asks_about(links_targets(ws, links, reg)[k], ws, links[l], reg.repos@),
    decreases links.len(),
{
    let before = links_targets(ws, links.drop_last(), reg);
    if k < before.len() {
        lemma_links_targets_from(ws, links.drop_last(), reg, k)
    } else {
        let link = links.last();
        let is = |x: Repo| x.key@ == link.repo_key@;
        list::lemma_first_where(reg.repos@, is);
        let j: int = k - before.len();
        let own = link_targets(ws, link, reg);
        let t = links_targets(ws, links, reg)[k];
        assert(t == own[j]);
        if let Some(i) = reg.repo_at(link.repo_key@) {
            assert(is(reg.repos@[i]));
        }
        if j > 0 {
            assert(t.kind == TargetKind::Pr(link.prs@[j - 1].number));
        }
        links.len() - 1
    }
}

/// A poll asks about nothing else: each of its questions is about a workspace's own
/// branch, or about a pull request that one of its links tracks, in the repository
/// that the registry has for that link.
pub proof fn nothing_else_is_asked_about(workspaces: Seq<Workspace>, reg: RepoRegistry, k: int)
    requires
        0 <= k < all_targets(workspaces, reg).len(),
    ensures
        exists|w: int, l: int|
            0 <= w < workspaces.len() && 0 <= l < workspaces[w].repo_links@.len() && asks_about(
                all_targets(workspaces, reg)[k],
                workspaces[w],
                #[trigger] workspaces[w].repo_links@[l],
                reg.repos@,
            ),
    decreases workspaces.len(),
{
    let before = all_targets(workspaces.drop_last(), reg);
    if k < before.len() {
        nothing_else_is_asked_about(workspaces.drop_last(), reg, k);
        let (w, l) = choose|w: int, l: int|
            0 <= w < workspaces.len() - 1 && 0 <= l < workspaces.drop_last()[w].repo_links@.len()
                && asks_about(
                before[k],
                workspaces.drop_last()[w],
                #[trigger] workspaces.drop_last()[w].repo_links@[l],
                reg.repos@,
            );
        assert(workspaces.drop_last()[w] == workspaces[w]);
        assert(asks_about(
            all_targets(workspaces, reg)[k],
            workspaces[w],
            workspaces[w].repo_links@[l],
            reg.repos@,
        ));
    } else {
        let ws = workspaces.last();
        let l: int = lemma_links_targets_from(ws, ws.repo_links@, reg, k - before.len());
        assert(asks_about(
            all_targets(workspaces, reg)[k],
            workspaces[workspaces.len() - 1],
            workspaces[workspaces.len() - 1].repo_links@[l],
            reg.repos@,
        ));
    }
}

/// Each further failure doubles the time until the next poll, which starts at three
/// quarters of a minute and never passes ten minutes. While nobody is logged in it is
/// ten minutes, however many polls failed, and without the tool there is none.
pub proof fn failures_make_polls_rarer(p: GithubPoller, worse: GithubPoller, jitter: nat)
    requires
        worse == (GithubPoller { consecutive_failures: worse.consecutive_failures, ..p }),
        worse.consecutive_failures == p.consecutive_failures + 1,
    ensures
        p.auth is Unknown || p.auth is Authenticated ==> {
            &&& p.consecutive_failures == 0 ==> p.delay(jitter) == 45_000 + jitter
            &&& worse.delay(jitter) - jitter == (if 2 * (p.delay(jitter) - jitter) < 600_000 {
                2 * (p.delay(jitter) - jitter)
            } else {
                600_000
            })
            &&& p.delay(jitter) - jitter <= worse.delay(jitter) - jitter <= 600_000
        },
        p.auth is NotAuthenticated ==> p.delay(jitter) == 600_000,
        p.auth is Disabled ==> p.delay(jitter) == u64::MAX as nat * 1000,
{
}

/// The question about one pull request that nobody tracks yet.
pub fn status_target(slug: &GithubSlug, number: u32) -> (r: Target)
    ensures
        r.workspace_id@.len() == 0,
        r.repo_key@.len() == 0,
        r.slug == *slug,
        r.kind == TargetKind::Pr(number),
{
    Target {
        workspace_id: String::new(),
        repo_key: String::new(),
        slug: slug.clone(),
        kind: TargetKind::Pr(number),
    }
}

/// A pull request that a poll found on a workspace's branch.
#[derive(Debug)]
pub struct Discovery {
    pub workspace_id: String,
    pub repo_key: String,
    pub number: u32,
}

/// The question that a discovery leads to, to the repository that the branch was
/// looked for in.
pub open spec fn follow_up_target(d: Discovery, targets: Seq<Target>) -> Option<Target> {
    match list::first_where(
        targets,
        |t: Target| t.workspace_id@ == d.workspace_id@ && t.repo_key@ == d.repo_key@,
    ) {
        Some(i) => Some(
            Target {
                workspace_id: d.workspace_id,
                repo_key: d.repo_key,
                slug: targets[i].slug,
                kind: TargetKind::Pr(d.number),
            },
        ),
        None => None,
    }
}

/// The questions that some discoveries lead to.
pub open spec fn follow_up_targets(found: Seq<Discovery>, targets: Seq<Target>) -> Seq<Target>
    decreases found.len(),
{
    if found.len() == 0 {
        seq![]
    } else {
        let before = follow_up_targets(found.drop_last(), targets);
        match follow_up_target(found.last(), targets) {
            Some(t) => before.push(t),
            None => before,
        }
    }
}

/// What is asked in the same poll about the pull requests that it found, so that
/// they show with their status at once.
pub fn follow_ups(discovered: &[Discovery], targets: &[Target]) -> (r: Vec<Target>)
    ensures
        r@ == follow_up_targets(discovered@, targets@),
{
    let mut r: Vec<Target> = Vec::new();
    let mut i: usize = 0;
    assert(discovered@.take(0).len() == 0);
    while i < discovered.len()
        invariant
            i <= discovered.len(),
            r@ == follow_up_targets(discovered@.take(i as int), targets@),
        decreases discovered.len() - i,
    {
        let d = &discovered[i];
        proof {
            assert(discovered@.take(i + 1).drop_last() =~= discovered@.take(i as int));
            assert(discovered@.take(i + 1).last() == *d);
        }
        let is = |t: &Target| -> (b: bool)
            ensures
                b == (t.workspace_id@ == d.workspace_id@ && t.repo_key@ == d.repo_key@),
            {
                text::same(&t.workspace_id, &d.workspace_id) && text::same(
                    &t.repo_key,
                    &d.repo_key,
                )
            };
        let at: Option<usize> = list::position(
            targets,
            is,
            Ghost(
                |t: Target| t.workspace_id@ == d.workspace_id@ && t.repo_key@ == d.repo_key@,
            ),
        );
        if let Some(k) = at {
            r.push(
                Target {
                    workspace_id: d.workspace_id.clone(),
                    repo_key: d.repo_key.clone(),
                    slug: targets[k].slug.clone(),
                    kind: TargetKind::Pr(d.number),
                },
            );
        }
        i = i + 1;
    }
    assert(discovered@.take(i as int) =~= discovered@);
    r
}

/// A second round of questions is the last one: it asks about pull requests only,
/// and no answer about one is a discovery.
pub proof fn follow_ups_do_not_cascade(found: Seq<Discovery>, targets: Seq<Target>, k: int)
    requires
        0 <= k < follow_up_targets(found, targets).len(),
    ensures
        follow_up_targets(found, targets)[k].kind is Pr,
    decreases found.len(),
{
    if found.len() > 0 && k < follow_up_targets(found.drop_last(), targets).len() {
        follow_ups_do_not_cascade(found.drop_last(), targets, k);
    }
}

/// A pull request that was found on a branch is asked about in the same poll, under
/// its own number and in the repository that its branch was looked for in.
pub proof fn a_discovery_is_followed_up(
    found: Seq<Discovery>,
    targets: Seq<Target>,
    d: int,
    t: int,
)
    requires
        0 <= d < found.len(),
        0 <= t < targets.len(),
        targets[t].workspace_id@ == found[d].workspace_id@,
        targets[t].repo_key@ == found[d].repo_key@,
        forall|k: int|
            0 <= k < t ==> (#[trigger] targets[k]).workspace_id@ != found[d].workspace_id@
                || targets[k].repo_key@ != found[d].repo_key@,
    ensures
        follow_up_targets(found, targets).contains(
            Target {
                workspace_id: found[d].workspace_id,
                repo_key: found[d].repo_key,
                slug: targets[t].slug,
                kind: TargetKind::Pr(found[d].number),
            },
        ),
    decreases found.len(),
{
    let all = follow_up_targets(found, targets);
    let before = follow_up_targets(found.drop_last(), targets);
    let it = Target {
        workspace_id: found[d].workspace_id,
        repo_key: found[d].repo_key,
        slug: targets[t].slug,
        kind: TargetKind::Pr(found[d].number),
    };
    if d == found.len() - 1 {
        list::lemma_first_where_is(
            targets,
            |x: Target|
                x.workspace_id@ == found[d].workspace_id@ && x.repo_key@ == found[d].repo_key@,
            t,
        );
        assert(all == before.push(it));
        assert(all[before.len() as int] == it);
    } else {
        a_discovery_is_followed_up(found.drop_last(), targets, d, t);
        let k = choose|k: int| 0 <= k < before.len() && before[k] == it;
        assert(all[k] == it);
    }
}

/// Only what was found is followed up: no more questions than discoveries, and each of
/// them is about one of the discoveries, in a repository that was asked.
pub proof fn only_discoveries_are_followed_up(found: Seq<Discovery>, targets: Seq<Target>, k: int)
    requires
        0 <= k < follow_up_targets(found, targets).len(),
    ensures
        follow_up_targets(found, targets).len() <= found.len(),
        exists|d: int, t: int|
            0 <= d < found.len() && 0 <= t < targets.len() && follow_up_targets(found, targets)[k]
                == (Target {
                workspace_id: (#[trigger] found[d]).workspace_id,
                repo_key: found[d].repo_key,
                slug: (#[trigger] targets[t]).slug,
                kind: TargetKind::Pr(found[d].number),
            }),
    decreases found.len(),
{
    if found.len() > 0 {
        let before = follow_up_targets(found.drop_last(), targets);
        if before.len() > 0 {
            only_discoveries_are_followed_up(
                found.drop_last(),
                targets,
                if k < before.len() {
                    k
                } else {
                    0
                },
            );
        }
        if k < before.len() {
            let (d, t) = choose|d: int, t: int|
                0 <= d < found.drop_last().len() && 0 <= t < targets.len() && before[k] == (Target {
                    workspace_id: (#[trigger] found.drop_last()[d]).workspace_id,
                    repo_key: found.drop_last()[d].repo_key,
                    slug: (#[trigger] targets[t]).slug,
                    kind: TargetKind::Pr(found.drop_last()[d].number),
                });
            assert(found[d] == found.drop_last()[d]);
        } else {
            let last = found.last();
            list::lemma_first_where(
                targets,
                |x: Target| x.workspace_id@ == last.workspace_id@ && x.repo_key@ == last.repo_key@,
            );
            assert(found[found.len() - 1] == last);
        }
    }
}

/// The texts without those that came before, in their order.
pub open spec fn without_repeats(items: Seq<Seq<char>>) -> Seq<Seq<char>>
    decreases items.len(),
{
    if items.len() == 0 {
        seq![]
    } else {
        let before = without_repeats(items.drop_last());
        if before.contains(items.last()) {
            before
        } else {
            before.push(items.last())
        }
    }
}

/// The workspaces of some discoveries.
pub open spec fn workspaces_of(found: Seq<Discovery>) -> Seq<Seq<char>> {
    found.map_values(|d: Discovery| d.workspace_id@)
}

/// Every workspace of a discovery is named, none of them twice, and no other.
pub proof fn each_workspace_is_named_once(found: Seq<Discovery>)
    ensures
        without_repeats(workspaces_of(found)).no_duplicates(),
        forall|d: int|
            0 <= d < found.len() ==> without_repeats(workspaces_of(found)).contains(
                (#[trigger] found[d]).workspace_id@,
            ),
        forall|k: int|
            0 <= k < without_repeats(workspaces_of(found)).len() ==> exists|d: int|
                0 <= d < found.len() && (#[trigger] found[d]).workspace_id@
                    == #[trigger] without_repeats(workspaces_of(found))[k],
{
    lemma_without_repeats(workspaces_of(found));
    assert forall|d: int| 0 <= d < found.len() implies without_repeats(
        workspaces_of(found),
    ).contains((#[trigger] found[d]).workspace_id@) by {
        assert(workspaces_of(found)[d] == found[d].workspace_id@);
    }
    assert forall|k: int| 0 <= k < without_repeats(workspaces_of(found)).len() implies exists|
        d: int,
    |
        0 <= d < found.len() && (#[trigger] found[d]).workspace_id@ == #[trigger] without_repeats(
            workspaces_of(found),
        )[k] by {
        let all = workspaces_of(found);
        let d = choose|d: int| 0 <= d < all.len() && all[d] == without_repeats(all)[k];
        assert(all[d] == found[d].workspace_id@);
    }
}

proof fn lemma_without_repeats(items: Seq<Seq<char>>)
    ensures
        without_repeats(items).no_duplicates(),
        forall|i: int| 0 <= i < items.len() ==> without_repeats(items).contains(#[trigger] items[i]),
        forall|k: int|
            0 <= k < without_repeats(items).len() ==> items.contains(
                #[trigger] without_repeats(items)[k],
            ),
    decreases items.len(),
{
    if items.len() > 0 {
        let t = items.drop_last();
        lemma_without_repeats(t);
        let before = without_repeats(t);
        let all = without_repeats(items);
        assert forall|i: int| 0 <= i < items.len() implies all.contains(#[trigger] items[i]) by {
            if i < t.len() {
                assert(before.contains(t[i]));
                let k = choose|k: int| 0 <= k < before.len() && before[k] == t[i];
                assert(all[k] == items[i]);
            } else if !before.contains(items.last()) {
                assert(all[before.len() as int] == items.last());
            }
        }
        assert forall|k: int| 0 <= k < all.len() implies items.contains(#[trigger] all[k]) by {
            if k < before.len() {
                assert(t.contains(before[k]));
                let i = choose|i: int| 0 <= i < t.len() && t[i] == before[k];
                assert(items[i] == all[k]);
            } else {
                assert(items[items.len() - 1] == all[k]);
            }
        }
    }
}

/// The workspaces whose list of pull requests grew, each once.
pub fn dedup(discovered: &[Discovery]) -> (r: Vec<String>)
    ensures
        text::views(r@) == without_repeats(workspaces_of(discovered@)),
{
    let ghost all = workspaces_of(discovered@);
    let mut r: Vec<String> = Vec::new();
    let mut i: usize = 0;
    assert(all.take(0).len() == 0);
    assert(text::views(r@) =~= seq![]);
    while i < discovered.len()
        invariant
            i <= discovered.len(),
            all == workspaces_of(discovered@),
            text::views(r@) == without_repeats(all.take(i as int)),
        decreases discovered.len() - i,
    {
        let id = &discovered[i].workspace_id;
        proof {
            assert(all.take(i + 1).drop_last() =~= all.take(i as int));
            assert(all.take(i + 1).last() == id@);
        }
        if !text::among(&r, id) {
            let ghost before = r@;
            r.push(id.clone());
            assert(text::views(r@) =~= text::views(before).push(id@));
        }
        i = i + 1;
    }
    assert(all.take(i as int) =~= all);
    r
}

} // verus!
