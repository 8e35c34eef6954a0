//! Pointing a workspace at a pull request, for the user and for an agent alike.

use vstd::prelude::*;

use crate::error::AppError;
use crate::github::client::GhError;
use crate::github::pr_ref;
use crate::github::pr_ref::PrRef;
use crate::github::status::{GithubPrStatus, GithubSlug};
use crate::registry::RepoRegistry;
use crate::state;
use crate::state::{AppState, RepoLink, Workspace};
use crate::text;

verus! {

/// Where a reference ended up, and what GitHub says of it.
#[derive(Debug)]
pub struct Attached {
    pub repo_key: String,
    /// Whether it is the pull request of the workspace's own branch.
    pub is_branch_pr: bool,
    pub status: GithubPrStatus,
}

/// A pull request that is to be fetched.
#[derive(Debug)]
pub struct AttachTarget {
    pub repo_key: String,
    pub slug: GithubSlug,
    pub number: u32,
}

/// The repos of a workspace that are on GitHub. The others have nothing to ask.
pub open spec fn on_github(links: Seq<RepoLink>, reg: RepoRegistry) -> Seq<(String, GithubSlug)>
    decreases links.len(),
{
    if links.len() == 0 {
        seq![]
    } else {
        let before = on_github(links.drop_last(), reg);
        let key = links.last().repo_key;
        match reg.repo_at(key@) {
            Some(i) => match reg.repos@[i].github_slug {
                Some(slug) => before.push((key, slug)),
                None => before,
            },
            None => before,
        }
    }
}

fn github_repos(ws: &Workspace, reg: &RepoRegistry) -> (r: Vec<(String, GithubSlug)>)
    ensures
        r@ == on_github(ws.repo_links@, *reg),
{
    let mut r: Vec<(String, GithubSlug)> = Vec::new();
    let mut i: usize = 0;
    assert(ws.repo_links@.take(0).len() == 0);
    while i < ws.repo_links.len()
        invariant
            i <= ws.repo_links.len(),
            r@ == on_github(ws.repo_links@.take(i as int), *reg),
        decreases ws.repo_links.len() - i,
    {
        let key = &ws.repo_links[i].repo_key;
        proof {
            assert(ws.repo_links@.take(i + 1).drop_last() =~= ws.repo_links@.take(i as int));
            assert(ws.repo_links@.take(i + 1).last() == ws.repo_links@[i as int]);
        }
        if let Some(repo) = reg.find_repo(key) {
            if let Some(slug) = &repo.github_slug {
                r.push((key.clone(), slug.clone()));
            }
        }
        i = i + 1;
    }
    assert(ws.repo_links@.take(i as int) =~= ws.repo_links@);
    r
}

/// What is said of a reference that cannot be read.
pub open spec fn unreadable(reference: Seq<char>) -> Seq<char> {
    "couldn't read a PR number from \""@ + text::trim(reference)
        + "\" — paste a PR URL or a number"@
}

/// Whether this is the outcome of looking a reference up.
pub open spec fn is_attach_target(
    r: Result<AttachTarget, AppError>,
    state: AppState,
    reg: RepoRegistry,
    workspace_id: Seq<char>,
    repo_key: Option<Seq<char>>,
    reference: Seq<char>,
) -> bool {
    match pr_ref::reference(reference) {
        None => r matches Err(e) && e.says(unreadable(reference)),
        Some((slug, n)) => match state.workspace_at(workspace_id) {
            None => r matches Err(e) && e.lacks_workspace(workspace_id),
            Some(i) => exists|pr: PrRef, found: Result<(String, GithubSlug), pr_ref::AttachError>|
                {
                    &&& pr_ref::slug_view(pr.slug) == slug
                    &&& pr.number == n
                    &&& #[trigger] pr_ref::is_target(
                        found,
                        on_github(state.workspaces@[i].repo_links@, reg),
                        repo_key,
                        pr,
                    )
                    &&& match found {
                        Ok((k, s)) => r matches Ok(t) && t.repo_key == k && t.slug == s && t.number
                            == n,
                        Err(why) => r matches Err(e) && e.says(why.text()),
                    }
                },
        },
    }
}

/// Find the repo that a reference belongs to.
pub fn attach_target(
    state: &AppState,
    reg: &RepoRegistry,
    workspace_id: &str,
    repo_key: Option<&str>,
    reference: &str,
) -> (r: Result<AttachTarget, AppError>)
    ensures
        is_attach_target(
            r,
            *state,
            *reg,
            workspace_id@,
            match repo_key {
                Some(k) => Some(k@),
                None => None,
            },
            reference@,
        ),
{
    let pr = match pr_ref::parse_pr_reference(reference) {
        Some(p) => p,
        None => {
            return Err(
                AppError::Other(
                    text::cat3(
                        "couldn't read a PR number from \"",
                        &text::trimmed(reference),
                        "\" — paste a PR URL or a number",
                    ),
                ),
            );
        },
    };
    let at: usize = match state.workspace_index(workspace_id) {
        Some(i) => i,
        None => {
            return Err(AppError::WorkspaceNotFound(workspace_id.to_owned()));
        },
    };
    let candidates = github_repos(&state.workspaces[at], reg);
    let found = pr_ref::resolve_attach_target(&candidates, repo_key, &pr);
    let ghost outcome = found;
    assert(pr_ref::is_target(
        outcome,
        on_github(state.workspaces@[at as int].repo_links@, *reg),
        match repo_key {
            Some(k) => Some(k@),
            None => None,
        },
        pr,
    ));
    match found {
        Ok((repo_key, slug)) => Ok(AttachTarget { repo_key, slug, number: pr.number }),
        Err(e) => Err(AppError::Other(e.message())),
    }
}

/// The status of the pull request, once it was asked for. A number that GitHub
/// does not know fails here.
pub fn fetched_status(
    target: &AttachTarget,
    fetched: Result<Option<GithubPrStatus>, GhError>,
) -> (r: Result<GithubPrStatus, AppError>)
    ensures
        match fetched {
            Ok(Some(s)) => r == Ok::<GithubPrStatus, AppError>(s),
            Ok(None) => r matches Err(e) && e.says(
                target.slug.owner@ + "/"@ + target.slug.name@ + " has no PR #"@ + text::dec(
                    target.number as nat,
                ),
            ),
            Err(why) => r matches Err(e) && e.says(
                "couldn't fetch PR #"@ + text::dec(target.number as nat) + " from "@
                    + target.slug.owner@ + "/"@ + target.slug.name@ + ": "@ + why.text(),
            ),
        },
{
    match fetched {
        Ok(Some(s)) => Ok(s),
        Ok(None) => {
            let mut m = text::cat3(&target.slug.owner, "/", &target.slug.name);
            m.append(" has no PR #");
            m.append(&text::decimal(target.number as u64));
            Err(AppError::Other(m))
        },
        Err(why) => {
            let mut m = text::cat3(
                "couldn't fetch PR #",
                &text::decimal(target.number as u64),
                " from ",
            );
            m.append(&target.slug.owner);
            m.append("/");
            m.append(&target.slug.name);
            m.append(": ");
            m.append(&why.message());
            Err(AppError::Other(m))
        },
    }
}

/// Whether a pull request is the one of a branch.
pub open spec fn is_of_branch(status: GithubPrStatus, branch: Seq<char>) -> bool {
    text::maybe(status.head_branch) == Some(branch)
}

/// A link on which the pull request was recorded: it is tracked with this status,
/// and no longer dismissed.
pub open spec fn tracks(before: RepoLink, after: RepoLink, status: GithubPrStatus) -> bool {
    &&& after.prs@ == state::with_status(before.prs@, status.pr_number, status)
    &&& after.dismissed@ == before.dismissed@.filter(|n: u32| n != status.pr_number)
    &&& after == (RepoLink { prs: after.prs, dismissed: after.dismissed, ..before })
}

/// Record what GitHub says of a pull request on a repo of the workspace. One that
/// is tracked already is refreshed. Says whether it is the pull request of the
/// workspace's own branch.
pub fn record(ws: &mut Workspace, repo_key: &str, status: GithubPrStatus) -> (r: Result<
    bool,
    AppError,
>)
    ensures
        *final(ws) == (Workspace { repo_links: final(ws).repo_links, ..*old(ws) }),
        match old(ws).link_at(repo_key@) {
            Some(i) => r == Ok::<bool, AppError>(is_of_branch(status, old(ws).branch@))
                && final(ws).repo_links@ == old(ws).repo_links@.update(i, final(ws).repo_links@[i])
                && tracks(old(ws).repo_links@[i], final(ws).repo_links@[i], status),
            None => final(ws).repo_links@ == old(ws).repo_links@ && (r matches Err(e) && e.says(
                "workspace has no worktree for "@ + repo_key@,
            )),
        },
{
    let own = match &status.head_branch {
        Some(b) => text::same(b, &ws.branch),
        None => false,
    };
    match ws.link_index(repo_key) {
        Some(i) => {
            let number: u32 = status.pr_number;
            let link = &mut ws.repo_links[i];
            link.track(number, status);
            Ok(own)
        },
        None => Err(AppError::Other(text::cat("workspace has no worktree for ", repo_key))),
    }
}

/// Recording a pull request twice leaves one entry, with the newer status, and a
/// pull request that was dismissed is no longer dismissed once it is recorded.
pub proof fn recording_again_is_a_refresh(
    before: RepoLink,
    once: RepoLink,
    twice: RepoLink,
    first: GithubPrStatus,
    second: GithubPrStatus,
)
    requires
        first.pr_number == second.pr_number,
        tracks(before, once, first),
        tracks(once, twice, second),
    ensures
        twice.prs@ == state::with_status(before.prs@, second.pr_number, second),
        twice.prs@.len() == once.prs@.len(),
        twice.dismissed@ == once.dismissed@,
        !once.dismissed@.contains(first.pr_number),
{
    let n = first.pr_number;
    state::lemma_with_status_twice(before.prs@, n, first, second);
    let keep = |m: u32| m != n;
    crate::list::lemma_filter_places(before.dismissed@, keep);
    let d = before.dismissed@.filter(keep);
    assert(!d.contains(n)) by {
        if d.contains(n) {
            let k = choose|k: int| 0 <= k < d.len() && d[k] == n;
            assert(crate::list::place_of(before.dismissed@, keep, k) >= 0);
            assert(keep(d[k]));
        }
    }
    crate::list::lemma_filter_all(d, keep);
}

/// The repos of a workspace that are on GitHub are those of its links whose repo has a
/// slug, each with that slug, in the order of the links.
pub proof fn links_on_github_have_their_slug(
    links: Seq<RepoLink>,
    reg: RepoRegistry,
    key: String,
    slug: GithubSlug,
)
    ensures
        on_github(links, reg).contains((key, slug)) <==> exists|l: int|
            0 <= l < links.len() && (#[trigger] links[l]).repo_key == key && reg.repo_at(key@)
                is Some && reg.repos@[reg.repo_at(key@)->0].github_slug == Some(slug),
        on_github(links, reg).len() <= links.len(),
    decreases links.len(),
{
    if links.len() > 0 {
        let rest = links.drop_last();
        links_on_github_have_their_slug(rest, reg, key, slug);
        let before = on_github(rest, reg);
        let all = on_github(links, reg);
        let last = links.last().repo_key;
        let it = (key, slug);
        if before.contains(it) {
            let k = choose|k: int| 0 <= k < before.len() && before[k] == it;
            assert(all[k] == it);
            let l = choose|l: int|
                0 <= l < rest.len() && (#[trigger] rest[l]).repo_key == key && reg.repo_at(key@)
                    is Some && reg.repos@[reg.repo_at(key@)->0].github_slug == Some(slug);
            assert(links[l] == rest[l]);
        }
        if all.len() > before.len() {
            assert(all == before.push(all.last()));
            assert(all[before.len() as int] == all.last());
            assert(links[links.len() - 1].repo_key == last);
            if all.contains(it) && it != all.last() {
                let k = choose|k: int| 0 <= k < all.len() && all[k] == it;
                assert(before[k] == it);
            }
        }
        if exists|l: int|
            0 <= l < links.len() && (#[trigger] links[l]).repo_key == key && reg.repo_at(key@)
                is Some && reg.repos@[reg.repo_at(key@)->0].github_slug == Some(slug) {
            let l = choose|l: int|
                0 <= l < links.len() && (#[trigger] links[l]).repo_key == key && reg.repo_at(key@)
                    is Some && reg.repos@[reg.repo_at(key@)->0].github_slug == Some(slug);
            if l < rest.len() {
                assert(rest[l] == links[l]);
            }
        }
    }
}

/// A pull request is the branch's own exactly where its head is that branch.
pub proof fn a_branch_has_its_own_pull_request(status: GithubPrStatus, branch: Seq<char>)
    ensures
        is_of_branch(status, branch) <==> status.head_branch is Some && status.head_branch->0@
            == branch,
{
}

/// Tracking a pull request records it under its number, and takes back that it was
/// dismissed; nothing else of the link changes, and no other dismissal is taken back.
pub proof fn tracking_takes_back_a_dismissal(
    before: RepoLink,
    after: RepoLink,
    status: GithubPrStatus,
    n: u32,
)
    requires
        tracks(before, after, status),
    ensures
        exists|i: int|
            0 <= i < after.prs@.len() && (#[trigger] after.prs@[i]).number == status.pr_number
                && after.prs@[i].status == Some(status),
        after.dismissed@.contains(n) <==> before.dismissed@.contains(n) && n != status.pr_number,
        after.repo_key == before.repo_key && after.worktree_path == before.worktree_path,
        after.github == before.github && after.attached_prs == before.attached_prs,
{
    let num = status.pr_number;
    let same = |p: crate::state::TrackedPr| p.number == num;
    crate::list::lemma_first_where(before.prs@, same);
    assert(exists|i: int|
        0 <= i < after.prs@.len() && (#[trigger] after.prs@[i]).number == num
            && after.prs@[i].status == Some(status)) by {
        if exists|i: int| 0 <= i < before.prs@.len() && (#[trigger] before.prs@[i]).number == num {
            let i = lemma_first_pr(before.prs@, num);
            crate::state::a_status_is_kept_under_its_number(before.prs@, num, status, i);
            assert(after.prs@[i].number == num);
        } else {
            let i = before.prs@.len() as int;
            crate::state::a_status_is_kept_under_its_number(before.prs@, num, status, i);
            assert(after.prs@[i].number == num);
        }
    }
    let keep = |x: u32| x != num;
    crate::list::lemma_filter_places(before.dismissed@, keep);
    let kept = before.dismissed@.filter(keep);
    assert(after.dismissed@ == kept) by {
        assert(keep =~= |x: u32| x != status.pr_number);
    }
    if before.dismissed@.contains(n) && n != num {
        let i = choose|i: int| 0 <= i < before.dismissed@.len() && before.dismissed@[i] == n;
        before.dismissed@.lemma_filter_contains(keep, i);
    }
    if kept.contains(n) {
        let i = choose|i: int| 0 <= i < kept.len() && kept[i] == n;
        let a = crate::list::place_of(before.dismissed@, keep, i);
        assert(before.dismissed@[a] == n && keep(kept[i]));
    }
}

proof fn lemma_first_pr(prs: Seq<crate::state::TrackedPr>, number: u32) -> (i: int)
    requires
        exists|i: int| 0 <= i < prs.len() && (#[trigger] prs[i]).number == number,
    ensures
        0 <= i < prs.len(),
        prs[i].number == number,
        forall|k: int| 0 <= k < i ==> (#[trigger] prs[k]).number != number,
    decreases prs.len(),
{
    if prs[0].number == number {
        0
    } else {
        let rest = prs.drop_first();
        let j = choose|j: int| 0 <= j < prs.len() && (#[trigger] prs[j]).number == number;
        assert(rest[j - 1].number == number);
        let k: int = lemma_first_pr(rest, number);
        assert forall|m: int| 0 <= m < k + 1 implies (#[trigger] prs[m]).number != number by {
            if m > 0 {
                assert(rest[m - 1] == prs[m]);
            }
        }
        k + 1
    }
}

/// A pull request that is attached has the number that was given, in a repo of the
/// workspace that is on GitHub; a reference that cannot be read, and a workspace that is
/// not there, attach nothing.
pub proof fn what_is_attached(
    r: Result<AttachTarget, AppError>,
    state: AppState,
    reg: RepoRegistry,
    workspace_id: Seq<char>,
    repo_key: Option<Seq<char>>,
    reference: Seq<char>,
)
    requires
        is_attach_target(r, state, reg, workspace_id, repo_key, reference),
    ensures
        pr_ref::reference(reference) is None ==> r is Err,
        pr_ref::reference(reference) is Some && state.workspace_at(workspace_id) is None ==> r is Err
            && r->Err_0 is WorkspaceNotFound,
        r is Ok ==> pr_ref::reference(reference) is Some && r->Ok_0.number
            == (pr_ref::reference(reference)->0).1,
        r is Ok ==> state.workspace_at(workspace_id) is Some,
        r is Ok && repo_key is Some ==> r->Ok_0.repo_key@ == repo_key->0,
        r is Ok && (pr_ref::reference(reference)->0).0 is Some ==> r->Ok_0.slug@ == (
        pr_ref::reference(reference)->0).0->0,
{
    if r is Ok {
        let (slug, n) = pr_ref::reference(reference)->0;
        let i = state.workspace_at(workspace_id)->0;
        let all = on_github(state.workspaces@[i].repo_links@, reg);
        let (pr, found) = choose|
            pr: PrRef,
            found: Result<(String, GithubSlug), pr_ref::AttachError>,
        |
            {
                &&& pr_ref::slug_view(pr.slug) == slug
                &&& pr.number == n
                &&& #[trigger] pr_ref::is_target(found, all, repo_key, pr)
                &&& match found {
                    Ok((k, s)) => r matches Ok(t) && t.repo_key == k && t.slug == s && t.number
                        == n,
                    Err(why) => r matches Err(e) && e.says(why.text()),
                }
            };
        if pr.slug is Some {
            pr_ref::a_pasted_url_keeps_its_repository(found, all, repo_key, pr);
        }
        if repo_key is Some {
            pr_ref::the_named_repo_is_taken(found, all, repo_key, pr);
        }
    }
}

} // verus!
