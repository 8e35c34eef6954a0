//! Managed docs: a repo's `CONTEXT.md` and `docs/adr`, kept for a team that has
//! not adopted them.
//!
//! They live in a docs repo of their own. Each workspace has a branch and a
//! checkout of it, whose files are symlinked into the worktree. When the
//! workspace goes, what changed is parked as a merge that the user approves or
//! declines.

use vstd::prelude::*;

use crate::error::AppError;
use crate::git;
use crate::ids;
use crate::list;
use crate::paths;
use crate::paths::Paths;
use crate::registry;
use crate::registry::{Repo, RepoRegistry};
use crate::state::DocsLink;
use crate::text;

verus! {

/// The managed paths, relative to the root of the repo and of the docs repo.
pub open spec fn managed() -> Seq<Seq<char>> {
    seq!["CONTEXT.md"@, "docs/adr"@]
}

/// The managed paths.
pub fn managed_paths() -> (r: Vec<String>)
    ensures
        text::views(r@) == managed(),
{
    let r = text::list(["CONTEXT.md", "docs/adr"].as_slice());
    assert(text::views(r@) =~= managed());
    r
}

/// The first eight characters, or all where there are fewer.
pub open spec fn short(id: Seq<char>) -> Seq<char> {
    if id.len() <= 8 {
        id
    } else {
        id.take(8)
    }
}

/// The docs branch of a workspace.
pub open spec fn docs_branch_of(branch: Seq<char>, workspace_id: Seq<char>) -> Seq<char> {
    "ws/"@ + registry::dir_of_branch(branch) + "-"@ + short(workspace_id)
}

/// The docs branch of a workspace.
pub fn docs_branch(branch: &str, workspace_id: &str) -> (r: String)
    ensures
        r@ == docs_branch_of(branch@, workspace_id@),
{
    let v = text::chars_of(workspace_id);
    let n: usize = if v.len() <= 8 {
        v.len()
    } else {
        8
    };
    let id = text::piece(&v, 0, n);
    assert(id@ =~= short(workspace_id@));
    let mut r = text::cat3("ws/", &registry::sanitize_branch_for_dir(branch), "-");
    r.append(&id);
    r
}

/// A managed path that the worktree may get a symlink for.
#[derive(Debug)]
pub struct DocsCandidate {
    pub path: String,
    /// The path in the checkout.
    pub src: String,
    /// The path in the worktree.
    pub dst: String,
}

/// What is to be done about the docs of one worktree.
#[derive(Debug)]
pub enum DocsProvision {
    /// Nothing, and what to say about it.
    Skip { status: Option<String> },
    Provision {
        /// What to say about the paths that are left to the repo.
        statuses: Vec<String>,
        branch: String,
        docs_repo: String,
        checkout_path: String,
        candidates: Vec<DocsCandidate>,
        /// The lines that hide the managed paths from the repo's own status.
        exclude_lines: Vec<String>,
    },
}

/// The managed paths whose place in `adopted` holds `which`.
pub open spec fn paths_where(adopted: Seq<bool>, which: bool) -> Seq<Seq<char>>
    recommends
        adopted.len() == 2,
{
    (if adopted[0] == which {
        seq!["CONTEXT.md"@]
    } else {
        seq![]
    }) + (if adopted[1] == which {
        seq!["docs/adr"@]
    } else {
        seq![]
    })
}

pub open spec fn excluded(p: Seq<char>) -> Seq<char> {
    "/"@ + p
}

pub open spec fn left_alone(p: Seq<char>) -> Seq<char> {
    "managed docs: "@ + p + " is team-adopted; leaving it to the repo"@
}

/// Decide what the docs of a worktree need. A path that the repo's own history
/// tracks belongs to the team: it is never linked and never hidden, and where
/// both paths are the team's nothing is done at all.
pub fn provision(
    repo: &Repo,
    adopted: [bool; 2],
    workspace_id: &str,
    branch: &str,
    worktree_path: &str,
    paths: &Paths,
) -> (r: DocsProvision)
    ensures
        if !repo.managed_docs {
            r matches DocsProvision::Skip { status } && status is None
        } else if adopted@[0] && adopted@[1] {
            r matches DocsProvision::Skip { status: Some(m) } && m@
                == "managed docs disabled: repo tracks CONTEXT.md and docs/adr"@
        } else {
            let mine = paths_where(adopted@, false);
            let checkout = paths::join(
                paths::join(paths.entry("docs-worktrees"@), registry::dir_of_branch(branch@)),
                repo.key@,
            );
            r matches DocsProvision::Provision {
                statuses,
                branch: b,
                docs_repo,
                checkout_path,
                candidates,
                exclude_lines,
            } && {
                &&& text::views(statuses@) == paths_where(adopted@, true).map_values(
                    |p: Seq<char>| left_alone(p),
                )
                &&& b@ == docs_branch_of(branch@, workspace_id@)
                &&& docs_repo@ == paths::join(paths.entry("docs"@), repo.key@)
                &&& checkout_path@ == checkout
                &&& text::views(exclude_lines@) == mine.map_values(|p: Seq<char>| excluded(p))
                &&& candidates@.len() == mine.len()
                &&& forall|i: int|
                    0 <= i < mine.len() ==> {
                        &&& (#[trigger] candidates@[i]).path@ == mine[i]
                        &&& candidates@[i].src@ == paths::join(checkout, mine[i])
                        &&& candidates@[i].dst@ == paths::join(worktree_path@, mine[i])
                    }
            }
        },
{
    if !repo.managed_docs {
        return DocsProvision::Skip { status: None };
    }
    if adopted[0] && adopted[1] {
        return DocsProvision::Skip {
            status: Some("managed docs disabled: repo tracks CONTEXT.md and docs/adr".to_owned()),
        };
    }
    let checkout_path = paths.docs_checkout_path(
        &registry::sanitize_branch_for_dir(branch),
        &repo.key,
    );
    let all = managed_paths();
    assert(all@.len() == text::views(all@).len());
    assert(forall|i: int| 0 <= i < 2 ==> (#[trigger] all@[i])@ == managed()[i]) by {
        assert(text::views(all@) == managed());
        assert forall|i: int| 0 <= i < 2 implies (#[trigger] all@[i])@ == managed()[i] by {
            assert(text::views(all@)[i] == all@[i]@);
        }
    }
    let mut statuses: Vec<String> = Vec::new();
    let mut candidates: Vec<DocsCandidate> = Vec::new();
    let mut exclude_lines: Vec<String> = Vec::new();
    let ghost upto = |n: int, which: bool|
        (if n > 0 && adopted@[0] == which {
            seq!["CONTEXT.md"@]
        } else {
            seq![]
        }) + (if n > 1 && adopted@[1] == which {
            seq!["docs/adr"@]
        } else {
            seq![]
        });
    let mut i: usize = 0;
    while i < 2
        invariant
            i <= 2,
            all@.len() == 2,
            forall|k: int| 0 <= k < 2 ==> (#[trigger] all@[k])@ == managed()[k],
            upto == (|n: int, which: bool|
                (if n > 0 && adopted@[0] == which {
                    seq!["CONTEXT.md"@]
                } else {
                    seq![]
                }) + (if n > 1 && adopted@[1] == which {
                    seq!["docs/adr"@]
                } else {
                    seq![]
                })),
            text::views(statuses@) == upto(i as int, true).map_values(
                |p: Seq<char>| left_alone(p),
            ),
            text::views(exclude_lines@) == upto(i as int, false).map_values(
                |p: Seq<char>| excluded(p),
            ),
            candidates@.len() == upto(i as int, false).len(),
            forall|k: int|
                0 <= k < candidates@.len() ==> {
                    &&& (#[trigger] candidates@[k]).path@ == upto(i as int, false)[k]
                    &&& candidates@[k].src@ == paths::join(
                        checkout_path@,
                        upto(i as int, false)[k],
                    )
                    &&& candidates@[k].dst@ == paths::join(
                        worktree_path@,
                        upto(i as int, false)[k],
                    )
                },
        decreases 2 - i,
    {
        let path = all[i].as_str();
        if adopted[i] {
            let m = text::cat3(
                "managed docs: ",
                path,
                " is team-adopted; leaving it to the repo",
            );
            let ghost before = statuses@;
            statuses.push(m);
            proof {
                assert(text::views(statuses@) =~= text::views(before).push(m@));
                assert(upto(i + 1, true) =~= upto(i as int, true).push(path@));
                assert(upto(i + 1, false) =~= upto(i as int, false));
                assert(text::views(statuses@) =~= upto(i + 1, true).map_values(
                    |p: Seq<char>| left_alone(p),
                ));
            }
        } else {
            let ghost before = exclude_lines@;
            let l = text::cat("/", path);
            exclude_lines.push(l);
            candidates.push(
                DocsCandidate {
                    path: path.to_owned(),
                    src: paths::joined(&checkout_path, path),
                    dst: paths::joined(worktree_path, path),
                },
            );
            proof {
                assert(text::views(exclude_lines@) =~= text::views(before).push(l@));
                assert(upto(i + 1, false) =~= upto(i as int, false).push(path@));
                assert(upto(i + 1, true) =~= upto(i as int, true));
                assert(text::views(exclude_lines@) =~= upto(i + 1, false).map_values(
                    |p: Seq<char>| excluded(p),
                ));
            }
        }
        i = i + 1;
    }
    proof {
        assert(upto(2, true) =~= paths_where(adopted@, true));
        assert(upto(2, false) =~= paths_where(adopted@, false));
    }
    DocsProvision::Provision {
        statuses,
        branch: docs_branch(branch, workspace_id),
        docs_repo: paths.docs_repo_path(&repo.key),
        checkout_path,
        candidates,
        exclude_lines,
    }
}

/// Whether a managed path is symlinked into the worktree.
#[derive(Debug)]
pub enum LinkDecision {
    /// The docs repo does not have it.
    Absent,
    /// Something is there already; it is adopted when the workspace goes.
    Present { status: String },
    Link { status: String },
}

/// Decide on one managed path: it is linked only where the checkout has it and
/// the worktree has nothing in its place.
pub fn link_decision(path: &str, in_checkout: bool, in_worktree: bool) -> (r: LinkDecision)
    ensures
        match r {
            LinkDecision::Absent => !in_checkout,
            LinkDecision::Present { status } => in_checkout && in_worktree && status@
                == "managed docs: "@ + path@
                + " already present in worktree; leaving it (adoption at purge)"@,
            LinkDecision::Link { status } => in_checkout && !in_worktree && status@
                == "managed docs: linked "@ + path@ + " -> docs checkout"@,
        },
{
    if !in_checkout {
        LinkDecision::Absent
    } else if in_worktree {
        LinkDecision::Present {
            status: text::cat3(
                "managed docs: ",
                path,
                " already present in worktree; leaving it (adoption at purge)",
            ),
        }
    } else {
        LinkDecision::Link {
            status: text::cat3("managed docs: linked ", path, " -> docs checkout"),
        }
    }
}

/// What is stored of the docs of a worktree.
pub fn docs_link(branch: String, checkout_path: String, linked_paths: Vec<String>) -> (r: DocsLink)
    ensures
        r == (DocsLink { branch, checkout_path, linked_paths }),
{
    DocsLink { branch, checkout_path, linked_paths }
}

/// The lines that are not in the file yet.
pub open spec fn missing(existing: Seq<char>, lines: Seq<Seq<char>>) -> Seq<Seq<char>> {
    lines.filter(|l: Seq<char>| !text::trimmed_lines(existing).contains(l))
}

/// The lines, each ended.
pub open spec fn block(lines: Seq<Seq<char>>) -> Seq<char>
    decreases lines.len(),
{
    if lines.len() == 0 {
        seq![]
    } else {
        block(lines.drop_last()) + lines.last() + seq!['\n']
    }
}

/// The file with its last line ended.
pub open spec fn ended(existing: Seq<char>) -> Seq<char> {
    if existing.len() > 0 && existing.last() != '\n' {
        existing.push('\n')
    } else {
        existing
    }
}

/// The ignore file with the lines that it lacks behind it, or `None` where it
/// has them all.
pub fn append_exclude_lines(existing: &str, lines: &[String]) -> (r: Option<String>)
    ensures
        match r {
            Some(content) => missing(existing@, text::views(lines@)).len() > 0 && content@ == ended(
                existing@,
            ) + block(missing(existing@, text::views(lines@))),
            None => missing(existing@, text::views(lines@)).len() == 0,
        },
{
    let raw = text::split_lines(existing);
    let mut present: Vec<String> = Vec::new();
    let mut i: usize = 0;
    while i < raw.len()
        invariant
            i <= raw.len(),
            text::views(present@) == text::views(raw@).take(i as int).map_values(
                |l: Seq<char>| text::trim(l),
            ),
        decreases raw.len() - i,
    {
        let t = text::trimmed(&raw[i]);
        let ghost before = present@;
        present.push(t);
        i = i + 1;
        proof {
            assert(text::views(present@) =~= text::views(before).push(t@));
            assert(text::views(present@) =~= text::views(raw@).take(i as int).map_values(
                |l: Seq<char>| text::trim(l),
            ));
        }
    }
    proof {
        assert(text::views(raw@).take(i as int) =~= text::views(raw@));
        assert(text::views(present@) == text::trimmed_lines(existing@));
    }
    let mut to_add = String::new();
    let mut k: usize = 0;
    let ghost all = text::views(lines@);
    let ghost p = |l: Seq<char>| !text::trimmed_lines(existing@).contains(l);
    proof {
        let none = all.take(0);
        none.lemma_filter_len(p);
        assert(none.filter(p) =~= seq![]);
        assert(to_add@ =~= block(none.filter(p)));
    }
    let mut any: bool = false;
    while k < lines.len()
        invariant
            k <= lines.len(),
            all == text::views(lines@),
            p == (|l: Seq<char>| !text::trimmed_lines(existing@).contains(l)),
            text::views(present@) == text::trimmed_lines(existing@),
            to_add@ == block(all.take(k as int).filter(p)),
            any == (all.take(k as int).filter(p).len() > 0),
        decreases lines.len() - k,
    {
        let line = lines[k].as_str();
        proof {
            assert(all.take(k + 1) =~= all.take(k as int).push(line@));
            all.take(k as int).lemma_filter_push(line@, p);
        }
        if !text::among(&present, line) {
            let ghost before = all.take(k as int).filter(p);
            to_add.append(line);
            to_add.push('\n');
            any = true;
            proof {
                assert(before.push(line@).drop_last() =~= before);
                assert(to_add@ =~= block(before.push(line@)));
            }
        }
        k = k + 1;
    }
    assert(all.take(k as int) =~= all);
    if !any {
        return None;
    }
    let v = text::chars_of(existing);
    let mut content = existing.to_owned();
    if v.len() > 0 && v[v.len() - 1] != '\n' {
        content.push('\n');
    }
    content.append(&to_add);
    Some(content)
}

/// A line that stands in a file as it is: it has no break in it and no white
/// space around it.
pub open spec fn is_plain(l: Seq<char>) -> bool {
    !l.contains('\n') && text::trim(l) == l
}

pub(crate) proof fn lemma_plain_line(l: Seq<char>)
    requires
        is_plain(l),
    ensures
        text::strip_cr(l) == l,
{
    if l.len() > 0 && l.last() == '\r' {
        text::lemma_trim_push(l.drop_last(), '\r');
        assert(l.drop_last().push('\r') =~= l);
        lemma_trim_shrinks(l.drop_last());
    }
}

proof fn lemma_trim_shrinks(s: Seq<char>)
    ensures
        text::trim(s).len() <= s.len(),
{
    lemma_trim_start_shrinks(s);
    lemma_trim_end_shrinks(text::trim_start(s));
}

proof fn lemma_trim_start_shrinks(s: Seq<char>)
    ensures
        text::trim_start(s).len() <= s.len(),
    decreases s.len(),
{
    if s.len() > 0 && text::is_white(s[0]) {
        lemma_trim_start_shrinks(s.drop_first());
    }
}

proof fn lemma_trim_end_shrinks(s: Seq<char>)
    ensures
        text::trim_end(s).len() <= s.len(),
    decreases s.len(),
{
    if s.len() > 0 && text::is_white(s.last()) {
        lemma_trim_end_shrinks(s.drop_last());
    }
}

pub(crate) proof fn lemma_block_lines(ls: Seq<Seq<char>>)
    requires
        forall|i: int| 0 <= i < ls.len() ==> is_plain(#[trigger] ls[i]),
    ensures
        text::lines(block(ls)) == ls,
        ls.len() > 0 ==> block(ls).len() > 0 && block(ls).last() == '\n',
    decreases ls.len(),
{
    if ls.len() == 0 {
        assert(text::lines(block(ls)) =~= ls);
    } else {
        let head = ls.drop_last();
        let l = ls.last();
        assert forall|i: int| 0 <= i < head.len() implies is_plain(#[trigger] head[i]) by {
            assert(head[i] == ls[i]);
        }
        lemma_block_lines(head);
        assert(is_plain(ls[ls.len() - 1]));
        lemma_plain_line(l);
        text::lemma_one_line(l);
        assert(block(ls) =~= block(head) + l.push('\n'));
        text::lemma_lines_concat(block(head), l.push('\n'));
        assert(head + seq![l] =~= ls);
    }
}

/// Hiding the same paths again changes nothing: a file that has been extended
/// lacks none of the lines.
pub proof fn exclude_lines_are_added_once(existing: Seq<char>, lines: Seq<Seq<char>>)
    requires
        forall|i: int| 0 <= i < lines.len() ==> is_plain(#[trigger] lines[i]),
    ensures
        missing(ended(existing) + block(missing(existing, lines)), lines).len() == 0,
{
    let add = missing(existing, lines);
    let p = |l: Seq<char>| !text::trimmed_lines(existing).contains(l);
    assert forall|i: int| 0 <= i < add.len() implies is_plain(#[trigger] add[i]) by {
        lines.lemma_filter_contains_rev(p, add[i]);
        let k = choose|k: int| 0 <= k < lines.len() && lines[k] == add[i];
        assert(is_plain(lines[k]));
    }
    lemma_block_lines(add);
    let new = ended(existing) + block(add);
    text::lemma_lines_concat(ended(existing), block(add));
    if existing.len() > 0 && existing.last() != '\n' {
        text::lemma_end_line(existing);
    }
    let t = |l: Seq<char>| text::trim(l);
    assert(text::trimmed_lines(new) =~= text::trimmed_lines(existing) + add.map_values(t));
    let q = |l: Seq<char>| !text::trimmed_lines(new).contains(l);
    assert forall|i: int| 0 <= i < lines.len() implies !q(#[trigger] lines[i]) by {
        assert(is_plain(lines[i]));
        if p(lines[i]) {
            lines.lemma_filter_contains(p, i);
            let k = choose|k: int| 0 <= k < add.len() && add[k] == lines[i];
            assert(add.map_values(t)[k] == lines[i]);
            let n = text::trimmed_lines(existing).len();
            assert(text::trimmed_lines(new)[n + k] == lines[i]);
        } else {
            let k = choose|k: int|
                0 <= k < text::trimmed_lines(existing).len() && text::trimmed_lines(existing)[k]
                    == lines[i];
            assert(text::trimmed_lines(new)[k] == lines[i]);
        }
    }
    lines.lemma_all_neg_filter_empty(q);
}

/// A git command in a directory whose failure is reported with what git said.
pub open spec fn checked(dir: Seq<char>, args: Seq<Seq<char>>) -> git::StepView {
    git::StepView::Git {
        args: seq!["-C"@, dir] + args,
        failure: git::FailureView::Report {
            what: "git "@ + text::join(args, " "@) + " in "@ + dir,
        },
    }
}

fn checked_step(dir: &str, args: &[String]) -> (r: git::Step)
    ensures
        r@ == checked(dir@, text::views(args@)),
{
    let mut what = text::cat3("git ", &text::joined(args, " "), " in ");
    what.append(dir);
    let mut all = text::list(["-C", dir].as_slice());
    let mut rest = text::copies(args);
    let ghost head = all@;
    all.append(&mut rest);
    assert(text::views(all@) =~= seq!["-C"@, dir@] + text::views(args@));
    git::Step::Git { args: all, failure: git::Failure::Report { what } }
}

/// Make sure that the docs repo of a repo is there: a `main` branch with an
/// identity to commit under and one empty commit. No content is ever put there.
pub fn ensure_docs_repo(docs_repo: &str, valid: bool) -> (r: Vec<git::Step>)
    ensures
        git::plan(r@) == (if valid {
            seq![]
        } else {
            seq![
                git::StepView::MakeDir { path: docs_repo@ },
                git::StepView::Git {
                    args: seq!["init"@, "-b"@, "main"@, docs_repo@],
                    failure: git::FailureView::Quote {
                        what: "git init -b main in "@ + docs_repo@ + " failed"@,
                    },
                },
                checked(docs_repo@, seq!["config"@, "user.name"@, "Tethys"@]),
                checked(docs_repo@, seq!["config"@, "user.email"@, "tethys@localhost"@]),
                checked(docs_repo@, seq!["commit"@, "--allow-empty"@, "-m"@, "init"@]),
            ]
        }),
{
    let mut r: Vec<git::Step> = Vec::new();
    if valid {
        return r;
    }
    r.push(git::Step::MakeDir { path: docs_repo.to_owned() });
    let args = text::list(["init", "-b", "main", docs_repo].as_slice());
    assert(text::views(args@) =~= seq!["init"@, "-b"@, "main"@, docs_repo@]);
    let what = text::cat3("git init -b main in ", docs_repo, " failed");
    r.push(git::Step::Git { args, failure: git::Failure::Quote { what } });
    let name = text::list(["config", "user.name", "Tethys"].as_slice());
    assert(text::views(name@) =~= seq!["config"@, "user.name"@, "Tethys"@]);
    r.push(checked_step(docs_repo, &name));
    let mail = text::list(["config", "user.email", "tethys@localhost"].as_slice());
    assert(text::views(mail@) =~= seq!["config"@, "user.email"@, "tethys@localhost"@]);
    r.push(checked_step(docs_repo, &mail));
    let first = text::list(["commit", "--allow-empty", "-m", "init"].as_slice());
    assert(text::views(first@) =~= seq!["commit"@, "--allow-empty"@, "-m"@, "init"@]);
    r.push(checked_step(docs_repo, &first));
    r
}

/// Make a workspace's branch and checkout of the docs repo.
pub fn add_checkout(docs_repo: &str, docs_branch: &str, checkout_path: &str) -> (r: Vec<git::Step>)
    ensures
        git::plan(r@) == seq![
            git::StepView::MakeParent { path: checkout_path@ },
            checked(
                docs_repo@,
                seq!["worktree"@, "add"@, "-b"@, docs_branch@, checkout_path@, "main"@],
            ),
        ],
{
    let mut r: Vec<git::Step> = Vec::new();
    r.push(git::Step::MakeParent { path: checkout_path.to_owned() });
    let args = text::list(
        ["worktree", "add", "-b", docs_branch, checkout_path, "main"].as_slice(),
    );
    assert(text::views(args@) =~= seq![
        "worktree"@,
        "add"@,
        "-b"@,
        docs_branch@,
        checkout_path@,
        "main"@,
    ]);
    r.push(checked_step(docs_repo, &args));
    r
}

/// What removing a checkout comes down to: its worktree, the registrations that
/// are stale, and the directory where it was the last one in it.
pub open spec fn without_checkout(docs_repo: Seq<char>, checkout: Seq<char>) -> Seq<git::StepView> {
    seq![
        git::StepView::Git {
            args: git::remove_args(docs_repo, checkout, true),
            failure: git::FailureView::Ignore,
        },
        git::StepView::Git {
            args: seq!["-C"@, docs_repo, "worktree"@, "prune"@],
            failure: git::FailureView::Ignore,
        },
    ] + match paths::parent_of(checkout) {
        Some(d) => seq![git::StepView::RemoveEmptyDir { path: d }],
        None => seq![],
    }
}

/// Remove a workspace's checkout. The branch survives, and whatever fails is
/// passed over.
pub fn remove_checkout(docs_repo: &str, checkout_path: &str) -> (r: Vec<git::Step>)
    ensures
        git::plan(r@) == without_checkout(docs_repo@, checkout_path@),
{
    let mut r: Vec<git::Step> = Vec::new();
    let args = git::worktree_remove_args(docs_repo, checkout_path, true);
    r.push(git::Step::Git { args, failure: git::Failure::Ignore });
    r.push(git::worktree_prune_best_effort_silent(docs_repo));
    if let Some(d) = paths::parent(checkout_path) {
        r.push(git::Step::RemoveEmptyDir { path: d });
    }
    assert(git::plan(r@) =~= without_checkout(docs_repo@, checkout_path@));
    r
}

/// Undo the docs of a worktree whose provisioning is taken back: the checkout
/// and the branch.
pub fn remove_checkout_and_branch(docs_repo: &str, docs: &DocsLink) -> (r: Vec<git::Step>)
    ensures
        git::plan(r@) == without_checkout(docs_repo@, docs.checkout_path@).push(
            git::StepView::Git {
                args: seq!["-C"@, docs_repo@, "branch"@, "-D"@, docs.branch@],
                failure: git::FailureView::Ignore,
            },
        ),
{
    let mut r = remove_checkout(docs_repo, &docs.checkout_path);
    let ghost before = r@;
    r.push(git::branch_delete_best_effort_silent(docs_repo, &docs.branch));
    assert(git::plan(r@) =~= git::plan(before).push(r@.last()@));
    r
}

/// Whether a managed path in the worktree is to be taken over: it is there, is
/// no symlink, and is not the team's.
pub fn is_adoptable(there: bool, is_symlink: bool, team_adopted: bool) -> (r: bool)
    ensures
        r == (there && !is_symlink && !team_adopted),
{
    there && !is_symlink && !team_adopted
}

/// Whether a worktree that has no docs checkout is looked at for docs when its
/// workspace goes: its repo is known and opted in, it is still there, and it has
/// something to take over.
pub fn retro_applies(
    registry: Option<&RepoRegistry>,
    repo_key: &str,
    worktree_exists: bool,
    adoptable: [bool; 2],
) -> (r: bool)
    ensures
        r == (match registry {
            Some(reg) => match reg.repo_at(repo_key@) {
                Some(i) => reg.repos@[i].managed_docs && worktree_exists && (adoptable@[0]
                    || adoptable@[1]),
                None => false,
            },
            None => false,
        }),
{
    match registry {
        Some(reg) => match reg.find_repo(repo_key) {
            Some(repo) => repo.managed_docs && worktree_exists && (adoptable[0] || adoptable[1]),
            None => false,
        },
        None => false,
    }
}

/// How far the snapshot of one worktree's docs has come.
#[derive(Debug, Clone, Copy, PartialEq, Eq, Structural)]
pub enum SnapshotPhase {
    FindingBranch,
    AddingCheckout,
    FindingCheckout,
    Adopting,
    Staging,
    FindingChanges,
    Committing,
    RemovingCheckout,
    FindingBase,
    Comparing,
    Reading,
    DeletingBranch,
    Over,
}

/// How the last thing went.
#[derive(Debug)]
pub enum SnapshotEvent {
    Done,
    Found(bool),
    Said(String),
    Failed(AppError),
}

/// What is to be done next.
#[derive(Debug)]
pub enum SnapshotAction {
    FindBranch,
    AddCheckout,
    FindCheckout,
    /// Replace what the checkout has by what the worktree has.
    Adopt,
    /// `git add -A` in the checkout.
    Stage,
    /// See whether anything is staged.
    FindChanges,
    Commit { message: String },
    RemoveCheckout,
    /// Ask for the merge base of the branch and `main`.
    FindBase,
    /// See whether the branch differs from the base.
    Compare { base: String },
    /// Read how the branch differs from the base.
    ReadDiff { base: String },
    DeleteBranch,
    /// The end: the diff to be parked, where there is one.
    Finish(Result<Option<String>, AppError>),
}

/// The snapshot of one worktree's docs, before the worktree goes. The branch is
/// the record that a snapshot is still owed.
#[derive(Debug)]
pub struct Snapshot {
    /// Whether the worktree had no checkout to begin with.
    pub retro: bool,
    pub workspace_branch: String,
    pub phase: SnapshotPhase,
    pub base: String,
}

/// Whether what a phase waits for can go as the event says.
pub open spec fn snapshot_fits(phase: SnapshotPhase, event: SnapshotEvent) -> bool {
    match phase {
        SnapshotPhase::FindingBranch | SnapshotPhase::FindingCheckout
        | SnapshotPhase::FindingChanges | SnapshotPhase::Comparing => event is Found
            || event is Failed,
        SnapshotPhase::FindingBase | SnapshotPhase::Reading => event is Said || event is Failed,
        SnapshotPhase::Over => false,
        _ => event is Done || event is Failed,
    }
}

/// One step of a snapshot: how it goes on after `event`. An unchanged branch is
/// deleted without a word; a failure ends the snapshot, so that the worktree is
/// not removed with the edits in it.
pub open spec fn snapshot_step(
    before: Snapshot,
    event: SnapshotEvent,
    after: Snapshot,
    action: SnapshotAction,
) -> bool {
    &&& after.retro == before.retro
    &&& after.workspace_branch == before.workspace_branch
    &&& !(before.phase is FindingBase) ==> after.base == before.base
    &&& match (before.phase, event) {
        (_, SnapshotEvent::Failed(e)) => after.phase is Over && action == SnapshotAction::Finish(
            Err(e),
        ),
        (SnapshotPhase::FindingBranch, SnapshotEvent::Found(there)) => if there {
            after.phase is FindingCheckout && action is FindCheckout
        } else if before.retro {
            after.phase is AddingCheckout && action is AddCheckout
        } else {
            after.phase is Over && action == SnapshotAction::Finish(Ok(None))
        },
        (SnapshotPhase::AddingCheckout, SnapshotEvent::Done) => after.phase is FindingCheckout
            && action is FindCheckout,
        (SnapshotPhase::FindingCheckout, SnapshotEvent::Found(there)) => if there {
            after.phase is Adopting && action is Adopt
        } else {
            after.phase is FindingBase && action is FindBase
        },
        (SnapshotPhase::Adopting, SnapshotEvent::Done) => after.phase is Staging && action is Stage,
        (SnapshotPhase::Staging, SnapshotEvent::Done) => after.phase is FindingChanges
            && action is FindChanges,
        (SnapshotPhase::FindingChanges, SnapshotEvent::Found(staged)) => if staged {
            after.phase is Committing && (action matches SnapshotAction::Commit { message }
                && message@ == "snapshot from workspace "@ + before.workspace_branch@)
        } else {
            after.phase is RemovingCheckout && action is RemoveCheckout
        },
        (SnapshotPhase::Committing, SnapshotEvent::Done) => after.phase is RemovingCheckout
            && action is RemoveCheckout,
        (SnapshotPhase::RemovingCheckout, SnapshotEvent::Done) => after.phase is FindingBase
            && action is FindBase,
        (SnapshotPhase::FindingBase, SnapshotEvent::Said(out)) => after.phase is Comparing
            && after.base@ == text::trim(out@) && action == (SnapshotAction::Compare {
            base: after.base,
        }),
        (SnapshotPhase::Comparing, SnapshotEvent::Found(differs)) => if differs {
            after.phase is Reading && action == (SnapshotAction::ReadDiff { base: before.base })
        } else {
            after.phase is DeletingBranch && action is DeleteBranch
        },
        (SnapshotPhase::Reading, SnapshotEvent::Said(diff)) => after.phase is Over && action
            == SnapshotAction::Finish(Ok(Some(diff))),
        (SnapshotPhase::DeletingBranch, SnapshotEvent::Done) => after.phase is Over && action
            == SnapshotAction::Finish(Ok(None)),
        _ => false,
    }
}

impl Snapshot {
    /// Start the snapshot of a worktree that has a docs checkout, or in
    /// retrospect of one that has none.
    pub fn start(workspace_branch: String, retro: bool) -> (r: (Snapshot, SnapshotAction))
        ensures
            r.0.retro == retro,
            r.0.workspace_branch == workspace_branch,
            r.0.phase is FindingBranch,
            r.1 is FindBranch,
    {
        let run = Snapshot {
            retro,
            workspace_branch,
            phase: SnapshotPhase::FindingBranch,
            base: String::new(),
        };
        (run, SnapshotAction::FindBranch)
    }
}

fn go(run: &mut Snapshot, phase: SnapshotPhase, action: SnapshotAction) -> (r: SnapshotAction)
    ensures
        r == action,
        *final(run) == (Snapshot { phase, ..*old(run) }),
{
    run.phase = phase;
    action
}

/// Carry the snapshot of one worktree's docs a step on.
pub fn snapshot_link(run: &mut Snapshot, event: SnapshotEvent) -> (r: SnapshotAction)
    requires
        snapshot_fits(old(run).phase, event),
    ensures
        snapshot_step(*old(run), event, *final(run), r),
{
    let phase = run.phase;
    match event {
        SnapshotEvent::Failed(e) => go(run, SnapshotPhase::Over, SnapshotAction::Finish(Err(e))),
        SnapshotEvent::Found(yes) => match phase {
            SnapshotPhase::FindingBranch => if yes {
                go(run, SnapshotPhase::FindingCheckout, SnapshotAction::FindCheckout)
            } else if run.retro {
                go(run, SnapshotPhase::AddingCheckout, SnapshotAction::AddCheckout)
            } else {
                go(run, SnapshotPhase::Over, SnapshotAction::Finish(Ok(None)))
            },
            SnapshotPhase::FindingCheckout => if yes {
                go(run, SnapshotPhase::Adopting, SnapshotAction::Adopt)
            } else {
                go(run, SnapshotPhase::FindingBase, SnapshotAction::FindBase)
            },
            SnapshotPhase::FindingChanges => if yes {
                let message = text::cat("snapshot from workspace ", &run.workspace_branch);
                go(run, SnapshotPhase::Committing, SnapshotAction::Commit { message })
            } else {
                go(run, SnapshotPhase::RemovingCheckout, SnapshotAction::RemoveCheckout)
            },
            _ => if yes {
                let base = run.base.clone();
                go(run, SnapshotPhase::Reading, SnapshotAction::ReadDiff { base })
            } else {
                go(run, SnapshotPhase::DeletingBranch, SnapshotAction::DeleteBranch)
            },
        },
        SnapshotEvent::Said(out) => match phase {
            SnapshotPhase::FindingBase => {
                run.base = text::trimmed(&out);
                let base = run.base.clone();
                go(run, SnapshotPhase::Comparing, SnapshotAction::Compare { base })
            },
            _ => go(run, SnapshotPhase::Over, SnapshotAction::Finish(Ok(Some(out)))),
        },
        SnapshotEvent::Done => match phase {
            SnapshotPhase::AddingCheckout => go(
                run,
                SnapshotPhase::FindingCheckout,
                SnapshotAction::FindCheckout,
            ),
            SnapshotPhase::Adopting => go(run, SnapshotPhase::Staging, SnapshotAction::Stage),
            SnapshotPhase::Staging => go(
                run,
                SnapshotPhase::FindingChanges,
                SnapshotAction::FindChanges,
            ),
            SnapshotPhase::Committing => go(
                run,
                SnapshotPhase::RemovingCheckout,
                SnapshotAction::RemoveCheckout,
            ),
            SnapshotPhase::RemovingCheckout => go(
                run,
                SnapshotPhase::FindingBase,
                SnapshotAction::FindBase,
            ),
            _ => go(run, SnapshotPhase::Over, SnapshotAction::Finish(Ok(None))),
        },
    }
}

/// No edit is lost on the way: the checkout goes only once everything in it is
/// committed, the branch only where it holds nothing new, and a step that fails
/// is the last one.
pub proof fn a_snapshot_loses_no_edit(
    before: Snapshot,
    event: SnapshotEvent,
    after: Snapshot,
    action: SnapshotAction,
)
    requires
        snapshot_fits(before.phase, event),
        snapshot_step(before, event, after, action),
    ensures
        action is RemoveCheckout ==> (before.phase is FindingChanges && event
            == SnapshotEvent::Found(false)) || (before.phase is Committing && event is Done),
        action is DeleteBranch ==> before.phase is Comparing && event == SnapshotEvent::Found(false),
        event matches SnapshotEvent::Failed(e) ==> action == SnapshotAction::Finish(Err(e)),
        action matches SnapshotAction::Finish(Err(e)) ==> event == SnapshotEvent::Failed(e),
{
}

/// A git command in a directory whose exit code is the answer.
pub open spec fn asked(dir: Seq<char>, args: Seq<Seq<char>>) -> git::StepView {
    git::StepView::Git { args: seq!["-C"@, dir] + args, failure: git::FailureView::Ignore }
}

fn asked_step(dir: &str, args: &[String]) -> (r: git::Step)
    ensures
        r@ == asked(dir@, text::views(args@)),
{
    let mut all = text::list(["-C", dir].as_slice());
    let mut rest = text::copies(args);
    all.append(&mut rest);
    assert(text::views(all@) =~= seq!["-C"@, dir@] + text::views(args@));
    git::Step::Git { args: all, failure: git::Failure::Ignore }
}

/// What git is told, in the docs repo or in the checkout, for an action of a
/// snapshot. Files are looked for and taken over without it.
pub open spec fn snapshot_plan(
    action: SnapshotAction,
    docs_repo: Seq<char>,
    branch: Seq<char>,
    checkout: Seq<char>,
) -> Seq<git::StepView> {
    match action {
        SnapshotAction::FindBranch => seq![
            asked(
                docs_repo,
                seq!["show-ref"@, "--verify"@, "--quiet"@, "refs/heads/"@ + branch],
            ),
        ],
        SnapshotAction::AddCheckout => seq![
            git::StepView::MakeParent { path: checkout },
            checked(docs_repo, seq!["worktree"@, "add"@, "-b"@, branch, checkout, "main"@]),
        ],
        SnapshotAction::Stage => seq![checked(checkout, seq!["add"@, "-A"@])],
        SnapshotAction::FindChanges => seq![
            asked(checkout, seq!["diff"@, "--cached"@, "--quiet"@]),
        ],
        SnapshotAction::Commit { message } => seq![
            checked(checkout, seq!["commit"@, "-m"@, message@]),
        ],
        SnapshotAction::RemoveCheckout => without_checkout(docs_repo, checkout),
        SnapshotAction::FindBase => seq![checked(docs_repo, seq!["merge-base"@, "main"@, branch])],
        SnapshotAction::Compare { base } => seq![
            asked(docs_repo, seq!["diff"@, "--quiet"@, base@, branch]),
        ],
        SnapshotAction::ReadDiff { base } => seq![
            checked(docs_repo, seq!["diff"@, base@, branch]),
        ],
        SnapshotAction::DeleteBranch => seq![asked(docs_repo, seq!["branch"@, "-D"@, branch])],
        SnapshotAction::FindCheckout | SnapshotAction::Adopt | SnapshotAction::Finish(_) => seq![],
    }
}

/// What git is told for an action of a snapshot.
pub fn snapshot_steps(action: &SnapshotAction, docs_repo: &str, branch: &str, checkout: &str) -> (r:
    Vec<git::Step>)
    ensures
        git::plan(r@) == snapshot_plan(*action, docs_repo@, branch@, checkout@),
{
    let mut r: Vec<git::Step> = Vec::new();
    match action {
        SnapshotAction::FindBranch => {
            let name = text::cat("refs/heads/", branch);
            let args = text::list(["show-ref", "--verify", "--quiet", name.as_str()].as_slice());
            assert(text::views(args@) =~= seq![
                "show-ref"@,
                "--verify"@,
                "--quiet"@,
                "refs/heads/"@ + branch@,
            ]);
            r.push(asked_step(docs_repo, &args));
        },
        SnapshotAction::AddCheckout => {
            return add_checkout(docs_repo, branch, checkout);
        },
        SnapshotAction::Stage => {
            let args = text::list(["add", "-A"].as_slice());
            assert(text::views(args@) =~= seq!["add"@, "-A"@]);
            r.push(checked_step(checkout, &args));
        },
        SnapshotAction::FindChanges => {
            let args = text::list(["diff", "--cached", "--quiet"].as_slice());
            assert(text::views(args@) =~= seq!["diff"@, "--cached"@, "--quiet"@]);
            r.push(asked_step(checkout, &args));
        },
        SnapshotAction::Commit { message } => {
            let args = text::list(["commit", "-m", message.as_str()].as_slice());
            assert(text::views(args@) =~= seq!["commit"@, "-m"@, message@]);
            r.push(checked_step(checkout, &args));
        },
        SnapshotAction::RemoveCheckout => {
            return remove_checkout(docs_repo, checkout);
        },
        SnapshotAction::FindBase => {
            let args = text::list(["merge-base", "main", branch].as_slice());
            assert(text::views(args@) =~= seq!["merge-base"@, "main"@, branch@]);
            r.push(checked_step(docs_repo, &args));
        },
        SnapshotAction::Compare { base } => {
            let args = text::list(["diff", "--quiet", base.as_str(), branch].as_slice());
            assert(text::views(args@) =~= seq!["diff"@, "--quiet"@, base@, branch@]);
            r.push(asked_step(docs_repo, &args));
        },
        SnapshotAction::ReadDiff { base } => {
            let args = text::list(["diff", base.as_str(), branch].as_slice());
            assert(text::views(args@) =~= seq!["diff"@, base@, branch@]);
            r.push(checked_step(docs_repo, &args));
        },
        SnapshotAction::DeleteBranch => {
            let args = text::list(["branch", "-D", branch].as_slice());
            assert(text::views(args@) =~= seq!["branch"@, "-D"@, branch@]);
            r.push(asked_step(docs_repo, &args));
        },
        SnapshotAction::FindCheckout | SnapshotAction::Adopt | SnapshotAction::Finish(_) => {},
    }
    assert(git::plan(r@) =~= snapshot_plan(*action, docs_repo@, branch@, checkout@));
    r
}

/// A diff that waits for the user to approve or decline it.
#[derive(Debug)]
pub struct PendingDocsMerge {
    pub id: String,
    pub repo_key: String,
    pub workspace_id: String,
    pub workspace_branch: String,
    pub docs_branch: String,
    pub captured_at: i64,
    /// What the branch adds to the point where it left `main`.
    pub diff: String,
    pub conflicted: bool,
    pub conflict_files: Vec<String>,
}

#[derive(Debug)]
pub struct PendingDocsMergesFile {
    pub entries: Vec<PendingDocsMerge>,
}

impl Default for PendingDocsMergesFile {
    fn default() -> (r: Self)
        ensures
            r.entries@ == Seq::<PendingDocsMerge>::empty(),
    {
        PendingDocsMergesFile { entries: Vec::new() }
    }
}

/// The entry for a snapshot that found a diff.
pub fn pending_merge(
    workspace_id: &str,
    workspace_branch: &str,
    repo_key: &str,
    docs_branch: &str,
    diff: String,
    now: i64,
) -> (r: PendingDocsMerge)
    ensures
        r.id@.len() == 36,
        r.repo_key@ == repo_key@,
        r.workspace_id@ == workspace_id@,
        r.workspace_branch@ == workspace_branch@,
        r.docs_branch@ == docs_branch@,
        r.captured_at == now,
        r.diff == diff,
        !r.conflicted,
        r.conflict_files@ == Seq::<String>::empty(),
{
    PendingDocsMerge {
        id: ids::fresh_id(),
        repo_key: repo_key.to_owned(),
        workspace_id: workspace_id.to_owned(),
        workspace_branch: workspace_branch.to_owned(),
        docs_branch: docs_branch.to_owned(),
        captured_at: now,
        diff,
        conflicted: false,
        conflict_files: Vec::new(),
    }
}

/// Whether two entries are for the same branch of the same docs repo.
pub open spec fn same_branch(a: PendingDocsMerge, b: PendingDocsMerge) -> bool {
    a.repo_key@ == b.repo_key@ && a.docs_branch@ == b.docs_branch@
}

/// Whether a branch already waits.
pub open spec fn waits(entries: Seq<PendingDocsMerge>, e: PendingDocsMerge) -> bool {
    exists|i: int| 0 <= i < entries.len() && same_branch(#[trigger] entries[i], e)
}

/// The entries once the new ones were added in turn, each unless its branch
/// already waits.
pub open spec fn parked(entries: Seq<PendingDocsMerge>, new: Seq<PendingDocsMerge>) -> Seq<
    PendingDocsMerge,
>
    decreases new.len(),
{
    if new.len() == 0 {
        entries
    } else {
        let before = parked(entries, new.drop_last());
        if waits(before, new.last()) {
            before
        } else {
            before.push(new.last())
        }
    }
}

/// Whether no branch waits twice.
pub open spec fn merges_distinct(entries: Seq<PendingDocsMerge>) -> bool {
    forall|i: int, j: int|
        0 <= i < j < entries.len() ==> !same_branch(#[trigger] entries[i], #[trigger] entries[j])
}

/// Taking the snapshot of a workspace again, as after a purge that failed
/// halfway, never parks a branch twice, loses nothing that waited before, and
/// leaves none of the new branches out.
pub proof fn a_branch_waits_once(entries: Seq<PendingDocsMerge>, new: Seq<PendingDocsMerge>)
    requires
        merges_distinct(entries),
    ensures
        merges_distinct(parked(entries, new)),
        entries.is_prefix_of(parked(entries, new)),
        forall|k: int| 0 <= k < new.len() ==> waits(parked(entries, new), #[trigger] new[k]),
        parked(parked(entries, new), new) == parked(entries, new),
    decreases new.len(),
{
    lemma_parked(entries, new);
    lemma_nothing_new(parked(entries, new), new);
}

proof fn lemma_parked(entries: Seq<PendingDocsMerge>, new: Seq<PendingDocsMerge>)
    ensures
        merges_distinct(entries) ==> merges_distinct(parked(entries, new)),
        entries.is_prefix_of(parked(entries, new)),
        forall|k: int| 0 <= k < new.len() ==> waits(parked(entries, new), #[trigger] new[k]),
    decreases new.len(),
{
    if new.len() > 0 {
        let rest = new.drop_last();
        lemma_parked(entries, rest);
        let before = parked(entries, rest);
        let after = parked(entries, new);
        assert forall|k: int| 0 <= k < new.len() implies waits(after, #[trigger] new[k]) by {
            if k < rest.len() {
                assert(rest[k] == new[k]);
                let i = choose|i: int|
                    0 <= i < before.len() && same_branch(#[trigger] before[i], rest[k]);
                assert(same_branch(after[i], new[k]));
            } else if !waits(before, new.last()) {
                assert(same_branch(after[before.len() as int], new[k]));
            }
        }
        if merges_distinct(entries) && !waits(before, new.last()) {
            assert forall|i: int, j: int| 0 <= i < j < after.len() implies !same_branch(
                #[trigger] after[i],
                #[trigger] after[j],
            ) by {
                assert(after[i] == before[i]);
                if j < before.len() {
                    assert(after[j] == before[j]);
                }
            }
        }
        assert(entries.is_prefix_of(after));
    }
}

proof fn lemma_nothing_new(entries: Seq<PendingDocsMerge>, new: Seq<PendingDocsMerge>)
    requires
        forall|k: int| 0 <= k < new.len() ==> waits(entries, #[trigger] new[k]),
    ensures
        parked(entries, new) == entries,
    decreases new.len(),
{
    if new.len() > 0 {
        let rest = new.drop_last();
        assert forall|k: int| 0 <= k < rest.len() implies waits(entries, #[trigger] rest[k]) by {
            assert(rest[k] == new[k]);
        }
        lemma_nothing_new(entries, rest);
        assert(waits(entries, new[new.len() - 1]));
    }
}

/// Park what the snapshots of a workspace found. Says whether the file changed.
pub fn snapshot_for_purge(file: &mut PendingDocsMergesFile, found: Vec<PendingDocsMerge>) -> (r:
    bool)
    ensures
        final(file).entries@ == parked(old(file).entries@, found@),
        r == (final(file).entries@ != old(file).entries@),
{
    let ghost before = file.entries@;
    let ghost all = found@;
    let mut found = found;
    let mut changed: bool = false;
    let ghost mut k: int = 0;
    assert(all.take(0).len() == 0);
    assert(all.skip(0) =~= all);
    while found.len() > 0
        invariant
            0 <= k <= all.len(),
            found@ == all.skip(k),
            file.entries@ == parked(before, all.take(k)),
            changed == (file.entries@.len() > before.len()),
            file.entries@.len() >= before.len(),
            !changed ==> file.entries@ == before,
        decreases found.len(),
    {
        let e = found.remove(0);
        let this = &e;
        let is = |x: &PendingDocsMerge| -> (b: bool)
            ensures
                b == same_branch(*x, *this),
            {
                text::same(&x.repo_key, &this.repo_key) && text::same(
                    &x.docs_branch,
                    &this.docs_branch,
                )
            };
        let at: Option<usize> = list::position(
            &file.entries,
            is,
            Ghost(|x: PendingDocsMerge| same_branch(x, *this)),
        );
        proof {
            assert(all.take(k + 1).drop_last() =~= all.take(k));
            assert(all.take(k + 1).last() == e);
            assert(found@ =~= all.skip(k + 1));
            k = k + 1;
        }
        match at {
            Some(i) => {
                assert(same_branch(file.entries@[i as int], e));
            },
            None => {
                assert(!waits(file.entries@, e));
                file.entries.push(e);
                changed = true;
            },
        }
    }
    assert(all.take(k) =~= all);
    changed
}

/// Where the entry with an id stands.
pub open spec fn entry_at(entries: Seq<PendingDocsMerge>, id: Seq<char>) -> Option<int> {
    list::first_where(entries, |e: PendingDocsMerge| e.id@ == id)
}

/// What is said when no entry has the id.
pub open spec fn unknown_merge(id: Seq<char>) -> Seq<char> {
    "pending docs merge '"@ + id + "' not found"@
}

/// Find the entry with an id.
pub fn find_merge(file: &PendingDocsMergesFile, id: &str) -> (r: Result<usize, AppError>)
    ensures
        match entry_at(file.entries@, id@) {
            Some(i) => r matches Ok(k) && k == i && k < file.entries.len(),
            None => r matches Err(e) && e.says(unknown_merge(id@)),
        },
{
    let is = |x: &PendingDocsMerge| -> (b: bool)
        ensures
            b == (x.id@ == id@),
        { text::same(&x.id, id) };
    let at: Option<usize> = list::position(
        &file.entries,
        is,
        Ghost(|e: PendingDocsMerge| e.id@ == id@),
    );
    match at {
        Some(i) => Ok(i),
        None => {
            Err(AppError::Other(text::cat3("pending docs merge '", id, "' not found")))
        },
    }
}

/// How merging a docs branch into `main` went.
#[derive(Debug)]
pub enum MergeOutcome {
    Merged,
    /// It conflicted; the names of the unmerged files, one a line.
    Conflicted { unmerged: String },
}

/// The files of a conflict as the user is told of them.
pub open spec fn named_files(files: Seq<Seq<char>>) -> Seq<char> {
    if files.len() == 0 {
        "(unknown files)"@
    } else {
        text::join(files, ", "@)
    }
}

/// What git is told before a docs branch is merged: to be on `main`, where it is not.
pub fn before_merge(docs_repo: &str, current: Option<&str>) -> (r: Vec<git::Step>)
    ensures
        git::plan(r@) == (if text::given(current) == Some("main"@) {
            seq![]
        } else {
            seq![checked(docs_repo@, seq!["checkout"@, "main"@])]
        }),
{
    let mut r: Vec<git::Step> = Vec::new();
    let there = match current {
        Some(b) => text::same(b, "main"),
        None => false,
    };
    if !there {
        let args = text::list(["checkout", "main"].as_slice());
        assert(text::views(args@) =~= seq!["checkout"@, "main"@]);
        r.push(checked_step(docs_repo, &args));
    }
    assert(git::plan(r@) =~= if there {
        seq![]
    } else {
        seq![checked(docs_repo@, seq!["checkout"@, "main"@])]
    });
    r
}

/// What git is told to merge a docs branch.
pub fn merge_step(docs_repo: &str, docs_branch: &str) -> (r: git::Step)
    ensures
        r@ == asked(
            docs_repo@,
            seq!["merge"@, docs_branch@, "-m"@, "merge "@ + docs_branch@],
        ),
{
    let message = text::cat("merge ", docs_branch);
    let args = text::list(["merge", docs_branch, "-m", message.as_str()].as_slice());
    assert(text::views(args@) =~= seq!["merge"@, docs_branch@, "-m"@, "merge "@ + docs_branch@]);
    asked_step(docs_repo, &args)
}

/// What git is told after a conflict: to name the files, and then to give up.
pub fn after_conflict(docs_repo: &str) -> (r: (git::Step, git::Step))
    ensures
        r.0@ == asked(docs_repo@, seq!["diff"@, "--name-only"@, "--diff-filter=U"@]),
        r.1@ == asked(docs_repo@, seq!["merge"@, "--abort"@]),
{
    let files = text::list(["diff", "--name-only", "--diff-filter=U"].as_slice());
    assert(text::views(files@) =~= seq!["diff"@, "--name-only"@, "--diff-filter=U"@]);
    let abort = text::list(["merge", "--abort"].as_slice());
    assert(text::views(abort@) =~= seq!["merge"@, "--abort"@]);
    (asked_step(docs_repo, &files), asked_step(docs_repo, &abort))
}

/// What git is told to put a declined branch aside.
pub fn archive_step(docs_repo: &str, docs_branch: &str, target: &str) -> (r: git::Step)
    ensures
        r@ == checked(docs_repo@, seq!["branch"@, "-m"@, docs_branch@, target@]),
{
    let args = text::list(["branch", "-m", docs_branch, target].as_slice());
    assert(text::views(args@) =~= seq!["branch"@, "-m"@, docs_branch@, target@]);
    checked_step(docs_repo, &args)
}

/// Settle a merge that the user approved. A clean one is gone from the list; one
/// that conflicted stays, marked with its files, and the user is told where to
/// resolve it.
pub fn approve(
    file: &mut PendingDocsMergesFile,
    id: &str,
    paths: &Paths,
    outcome: MergeOutcome,
) -> (r: Result<(), AppError>)
    ensures
        match entry_at(old(file).entries@, id@) {
            None => final(file).entries@ == old(file).entries@ && (r matches Err(e) && e.says(
                unknown_merge(id@),
            )),
            Some(i) => match outcome {
                MergeOutcome::Merged => r is Ok && final(file).entries@
                    == old(file).entries@.remove(i),
                MergeOutcome::Conflicted { unmerged } => {
                    let was = old(file).entries@[i];
                    let is = final(file).entries@[i];
                    let files = text::lines(unmerged@);
                    &&& final(file).entries@ == old(file).entries@.update(i, is)
                    &&& is == (PendingDocsMerge {
                        conflicted: true,
                        conflict_files: is.conflict_files,
                        ..was
                    })
                    &&& text::views(is.conflict_files@) == files
                    &&& r matches Err(e) && e.says(
                        "docs merge of "@ + was.docs_branch@ + " conflicted in: "@ + named_files(
                            files,
                        ) + ". Resolve manually in "@ + paths::join(
                            paths.entry("docs"@),
                            was.repo_key@,
                        ),
                    )
                },
            },
        },
{
    let i = match find_merge(file, id) {
        Ok(i) => i,
        Err(e) => {
            return Err(e);
        },
    };
    proof {
        list::lemma_first_where(file.entries@, |e: PendingDocsMerge| e.id@ == id@);
    }
    match outcome {
        MergeOutcome::Merged => {
            file.entries.remove(i);
            Ok(())
        },
        MergeOutcome::Conflicted { unmerged } => {
            let files = text::split_lines(&unmerged);
            let named = if files.len() == 0 {
                "(unknown files)".to_owned()
            } else {
                text::joined(&files, ", ")
            };
            assert(files@.len() == text::lines(unmerged@).len());
            let mut m = text::cat3(
                "docs merge of ",
                &file.entries[i].docs_branch,
                " conflicted in: ",
            );
            m.append(&named);
            m.append(". Resolve manually in ");
            m.append(&paths.docs_repo_path(&file.entries[i].repo_key));
            let e = &mut file.entries[i];
            e.conflicted = true;
            e.conflict_files = files;
            Err(AppError::Other(m))
        },
    }
}

/// The name that a declined branch is tried under: `archive/` and its own name,
/// then the same with `-2`, `-3` and so on.
pub open spec fn archive_name(docs_branch: Seq<char>, attempt: nat) -> Seq<char> {
    let stem = match text::strip_prefix(docs_branch, "ws/"@) {
        Some(s) => s,
        None => docs_branch,
    };
    if attempt <= 1 {
        "archive/"@ + stem
    } else {
        "archive/"@ + stem + "-"@ + text::dec(attempt)
    }
}

/// The search for a free name to archive a declined branch under.
#[derive(Debug)]
pub struct Archiving {
    pub docs_branch: String,
    /// How many names were tried, with the one that is being tried.
    pub attempt: u32,
}

impl Archiving {
    /// Start with the branch's own name.
    pub fn start(docs_branch: String) -> (r: (Archiving, String))
        ensures
            r.0.docs_branch == docs_branch,
            r.0.attempt == 1,
            r.1@ == archive_name(docs_branch@, 1),
    {
        let name = archived(&docs_branch, 1);
        (Archiving { docs_branch, attempt: 1 }, name)
    }

    /// The next name, once the one before was found taken. There is none after
    /// the last number that a suffix can have.
    pub fn next(&mut self) -> (r: Option<String>)
        requires
            old(self).attempt >= 1,
        ensures
            final(self).docs_branch == old(self).docs_branch,
            match r {
                Some(name) => final(self).attempt == old(self).attempt + 1 && name@
                    == archive_name(old(self).docs_branch@, final(self).attempt as nat),
                None => old(self).attempt >= i32::MAX && final(self).attempt == old(self).attempt,
            },
            old(self).attempt < i32::MAX ==> r is Some,
    {
        if self.attempt >= 2147483647 {
            return None;
        }
        self.attempt = self.attempt + 1;
        Some(archived(&self.docs_branch, self.attempt))
    }
}

fn archived(docs_branch: &str, attempt: u32) -> (r: String)
    ensures
        r@ == archive_name(docs_branch@, attempt as nat),
{
    let stem = match text::without_prefix(docs_branch, "ws/") {
        Some(s) => s,
        None => docs_branch.to_owned(),
    };
    let mut r = text::cat("archive/", &stem);
    if attempt > 1 {
        r.append("-");
        r.append(&text::decimal(attempt as u64));
    }
    r
}

/// Each attempt to archive a branch tries another name, so that among as many
/// names as there are branches, and one more, one is free.
pub proof fn archive_names_differ(docs_branch: Seq<char>, a: nat, b: nat)
    requires
        1 <= a < b,
    ensures
        archive_name(docs_branch, a) != archive_name(docs_branch, b),
{
    reveal_strlit("-");
    let first = archive_name(docs_branch, 1);
    let head = first + "-"@;
    let nb = archive_name(docs_branch, b);
    assert(nb =~= head + text::dec(b));
    if a > 1 {
        let na = archive_name(docs_branch, a);
        assert(na =~= head + text::dec(a));
        if na == nb {
            assert(text::dec(a) =~= na.skip(head.len() as int));
            assert(text::dec(b) =~= nb.skip(head.len() as int));
            text::lemma_number_of_dec(a);
            text::lemma_number_of_dec(b);
        }
    } else {
        assert(nb.len() > first.len());
    }
}

/// Take a declined merge from the list, once its branch was archived.
pub fn decline(file: &mut PendingDocsMergesFile, id: &str) -> (r: Result<(), AppError>)
    ensures
        match entry_at(old(file).entries@, id@) {
            None => final(file).entries@ == old(file).entries@ && (r matches Err(e) && e.says(
                unknown_merge(id@),
            )),
            Some(i) => r is Ok && final(file).entries@ == old(file).entries@.remove(i),
        },
{
    match find_merge(file, id) {
        Ok(i) => {
            file.entries.remove(i);
            Ok(())
        },
        Err(e) => Err(e),
    }
}

/// A snapshot from its start on: what was done, what came of it, and what is next.
pub open spec fn snapshot_run(
    states: Seq<Snapshot>,
    events: Seq<SnapshotEvent>,
    actions: Seq<SnapshotAction>,
) -> bool {
    &&& states.len() == events.len() + 1
    &&& actions.len() == events.len()
    &&& states[0].phase is FindingBranch
    &&& forall|i: int|
        0 <= i < events.len() ==> #[trigger] snapshot_fits(states[i].phase, events[i])
            && snapshot_step(states[i], events[i], states[i + 1], actions[i])
}

/// A workspace whose docs were changed has them committed, under its branch's name,
/// before its checkout goes; then what was committed is compared with where it started,
/// and what differs is what the snapshot is.
pub proof fn changed_docs_are_committed_and_read(
    states: Seq<Snapshot>,
    events: Seq<SnapshotEvent>,
    actions: Seq<SnapshotAction>,
    base: String,
    diff: String,
)
    requires
        snapshot_run(states, events, actions),
        events.len() == 10,
        events[0] == SnapshotEvent::Found(true) && events[1] == SnapshotEvent::Found(true),
        events[2] is Done && events[3] is Done,
        events[4] == SnapshotEvent::Found(true),
        events[5] is Done && events[6] is Done,
        events[7] == SnapshotEvent::Said(base),
        events[8] == SnapshotEvent::Found(true),
        events[9] == SnapshotEvent::Said(diff),
    ensures
        actions[0] is FindCheckout && actions[1] is Adopt && actions[2] is Stage,
        actions[3] is FindChanges,
        actions[4] matches SnapshotAction::Commit { message } && message@
            == "snapshot from workspace "@ + states[0].workspace_branch@,
        actions[5] is RemoveCheckout && actions[6] is FindBase,
        actions[7] matches SnapshotAction::Compare { base: b } && b@ == text::trim(base@),
        actions[8] matches SnapshotAction::ReadDiff { base: b } && b@ == text::trim(base@),
        actions[9] == SnapshotAction::Finish(Ok(Some(diff))),
{
    assert(snapshot_fits(states[0].phase, events[0]));
    assert(snapshot_fits(states[1].phase, events[1]));
    assert(snapshot_fits(states[2].phase, events[2]));
    assert(snapshot_fits(states[3].phase, events[3]));
    assert(snapshot_fits(states[4].phase, events[4]));
    assert(snapshot_fits(states[5].phase, events[5]));
    assert(snapshot_fits(states[6].phase, events[6]));
    assert(snapshot_fits(states[7].phase, events[7]));
    assert(snapshot_fits(states[8].phase, events[8]));
    assert(snapshot_fits(states[9].phase, events[9]));
}

/// A workspace that has no branch for its docs has nothing to snapshot, unless they are
/// taken in after the fact, for which a checkout is made first.
pub proof fn a_snapshot_without_a_branch(
    states: Seq<Snapshot>,
    events: Seq<SnapshotEvent>,
    actions: Seq<SnapshotAction>,
)
    requires
        snapshot_run(states, events, actions),
        events.len() >= 1,
        events[0] == SnapshotEvent::Found(false),
    ensures
        !states[0].retro ==> actions[0] == SnapshotAction::Finish(Ok(None)),
        states[0].retro ==> actions[0] is AddCheckout,
        states[0].retro && events.len() > 1 && events[1] is Done ==> actions[1] is FindCheckout,
{
    assert(snapshot_fits(states[0].phase, events[0]));
    if events.len() > 1 {
        assert(snapshot_fits(states[1].phase, events[1]));
    }
}

/// Where a checkout holds no change nothing is committed, and where there is no checkout
/// there is none to take away; a branch that does not differ from where it started goes,
/// and the snapshot is empty.
pub proof fn unchanged_docs_leave_no_branch(
    before: Snapshot,
    after: Snapshot,
    action: SnapshotAction,
)
    ensures
        before.phase is FindingChanges && snapshot_step(
            before,
            SnapshotEvent::Found(false),
            after,
            action,
        ) ==> action is RemoveCheckout && after.phase is RemovingCheckout,
        before.phase is FindingCheckout && snapshot_step(
            before,
            SnapshotEvent::Found(false),
            after,
            action,
        ) ==> action is FindBase && after.phase is FindingBase,
        before.phase is Comparing && snapshot_step(
            before,
            SnapshotEvent::Found(false),
            after,
            action,
        ) ==> action is DeleteBranch && after.phase is DeletingBranch,
        before.phase is DeletingBranch && snapshot_step(before, SnapshotEvent::Done, after, action)
            ==> action == SnapshotAction::Finish(Ok(None)),
{
}

/// The paths that the team looks after, and those that it does not, are told apart one
/// by one, and each managed path is among one of the two.
pub proof fn each_managed_path_is_told_apart(adopted: Seq<bool>, which: bool)
    requires
        adopted.len() == 2,
    ensures
        paths_where(adopted, which).contains("CONTEXT.md"@) <==> adopted[0] == which,
        paths_where(adopted, which).contains("docs/adr"@) <==> adopted[1] == which,
        paths_where(adopted, which).len() + paths_where(adopted, !which).len() == 2,
        managed().contains("CONTEXT.md"@) && managed().contains("docs/adr"@) && managed().len()
            == 2,
{
    reveal_strlit("CONTEXT.md");
    reveal_strlit("docs/adr");
    let p = paths_where(adopted, which);
    assert("CONTEXT.md"@.len() == 10 && "docs/adr"@.len() == 8);
    if adopted[0] == which {
        assert(p[0] == "CONTEXT.md"@);
    }
    if adopted[1] == which {
        assert(p[p.len() - 1] == "docs/adr"@);
    }
    if p.contains("CONTEXT.md"@) && adopted[0] != which {
        let i = choose|i: int| 0 <= i < p.len() && p[i] == "CONTEXT.md"@;
        assert(p[i] == "docs/adr"@);
    }
    if p.contains("docs/adr"@) && adopted[1] != which {
        let i = choose|i: int| 0 <= i < p.len() && p[i] == "docs/adr"@;
        assert(p[i] == "CONTEXT.md"@);
    }
    assert(managed()[0] == "CONTEXT.md"@ && managed()[1] == "docs/adr"@);
}

/// A line is added exactly where no line of the file says the same already, and the
/// added lines are read back as lines of their own.
pub proof fn missing_lines_are_added(existing: Seq<char>, lines: Seq<Seq<char>>, l: Seq<char>)
    ensures
        missing(existing, lines).contains(l) <==> lines.contains(l) && forall|i: int|
            0 <= i < text::lines(existing).len() ==> text::trim(
                #[trigger] text::lines(existing)[i],
            ) != l,
{
    let there = text::trimmed_lines(existing);
    let lacks = |x: Seq<char>| !there.contains(x);
    let kept = missing(existing, lines);
    assert(lines.filter(lacks) == kept) by {
        assert(lacks =~= |x: Seq<char>| !text::trimmed_lines(existing).contains(x));
    }
    list::lemma_filter_places(lines, lacks);
    if there.contains(l) {
        let i = choose|i: int| 0 <= i < there.len() && there[i] == l;
        assert(text::trim(text::lines(existing)[i]) == l);
    }
    if exists|i: int|
        0 <= i < text::lines(existing).len() && text::trim(#[trigger] text::lines(existing)[i])
            == l {
        let i = choose|i: int|
            0 <= i < text::lines(existing).len() && text::trim(#[trigger] text::lines(existing)[i])
                == l;
        assert(there[i] == l);
    }
    if lines.contains(l) && lacks(l) {
        let i = choose|i: int| 0 <= i < lines.len() && lines[i] == l;
        lines.lemma_filter_contains(lacks, i);
    }
    if kept.contains(l) {
        let i = choose|i: int| 0 <= i < kept.len() && kept[i] == l;
        let a = list::place_of(lines, lacks, i);
        assert(lines[a] == l && lacks(kept[i]));
    }
}

/// The lines of a block are the lines that it was made of.
pub proof fn a_block_is_its_lines(lines: Seq<Seq<char>>)
    requires
        forall|i: int| 0 <= i < lines.len() ==> is_plain(#[trigger] lines[i]),
    ensures
        text::lines(block(lines)) == lines,
        block(lines).len() > 0 ==> block(lines).last() == '\n',
    decreases lines.len(),
{
    if lines.len() == 0 {
        assert(text::lines(block(lines)) =~= lines);
    } else {
        let rest = lines.drop_last();
        let l = lines.last();
        assert forall|i: int| 0 <= i < rest.len() implies is_plain(#[trigger] rest[i]) by {
            assert(rest[i] == lines[i]);
        }
        a_block_is_its_lines(rest);
        assert(is_plain(lines[lines.len() - 1]));
        text::lemma_one_line(l);
        assert(text::strip_cr(l) == l) by {
            if l.len() > 0 && l.last() == '\r' {
                text::lemma_trim_push(l.drop_last(), '\r');
                assert(l.drop_last().push('\r') =~= l);
                text::lemma_trim_shorter(l.drop_last());
            }
        }
        let a = block(rest);
        text::lemma_lines_concat(a, l.push('\n'));
        assert(block(lines) =~= a + l.push('\n'));
        assert(rest + seq![l] =~= lines);
    }
}

/// The docs of a workspace have a branch under `ws/` that ends in the start of the
/// workspace's id, so two workspaces never share one, whatever their branches.
pub proof fn each_workspace_has_its_docs_branch(
    branch: Seq<char>,
    other_branch: Seq<char>,
    id: Seq<char>,
    other: Seq<char>,
)
    requires
        id.len() >= 8 && other.len() >= 8,
        id.take(8) != other.take(8),
    ensures
        "ws/"@.is_prefix_of(docs_branch_of(branch, id)),
        id.take(8).is_suffix_of(docs_branch_of(branch, id)),
        docs_branch_of(branch, id) != docs_branch_of(other_branch, other),
{
    let a = docs_branch_of(branch, id);
    let b = docs_branch_of(other_branch, other);
    assert(a.take("ws/"@.len() as int) =~= "ws/"@);
    assert(a.skip(a.len() - 8) =~= id.take(8));
    assert(b.skip(b.len() - 8) =~= other.take(8));
}

/// Nothing but what waited and what is new waits afterwards.
pub proof fn only_what_is_new_is_parked(
    entries: Seq<PendingDocsMerge>,
    new: Seq<PendingDocsMerge>,
    k: int,
)
    requires
        0 <= k < parked(entries, new).len(),
    ensures
        entries.contains(parked(entries, new)[k]) || new.contains(parked(entries, new)[k]),
        parked(entries, new).len() <= entries.len() + new.len(),
    decreases new.len(),
{
    if new.len() == 0 {
        assert(entries[k] == parked(entries, new)[k]);
    } else {
        let rest = new.drop_last();
        let before = parked(entries, rest);
        if before.len() > 0 {
            only_what_is_new_is_parked(
                entries,
                rest,
                if k < before.len() {
                    k
                } else {
                    0
                },
            );
        }
        if k < before.len() {
            if rest.contains(before[k]) {
                let i = choose|i: int| 0 <= i < rest.len() && rest[i] == before[k];
                assert(new[i] == before[k]);
            }
        } else {
            assert(new[new.len() - 1] == parked(entries, new)[k]);
        }
    }
}

/// A branch that is declined is kept under `archive/`, by the name that it had under
/// `ws/`, with a number behind it where that name is taken.
pub proof fn a_declined_branch_is_archived(stem: Seq<char>, attempt: nat)
    requires
        attempt >= 2,
    ensures
        archive_name("ws/"@ + stem, 1) == "archive/"@ + stem,
        archive_name("ws/"@ + stem, attempt) == "archive/"@ + stem + "-"@ + text::dec(attempt),
        !"ws/"@.is_prefix_of(stem) ==> archive_name(stem, 1) == "archive/"@ + stem,
{
    let b = "ws/"@ + stem;
    assert(b.take("ws/"@.len() as int) =~= "ws/"@);
    assert(b.skip("ws/"@.len() as int) =~= stem);
}

/// Git is asked about the branch of the docs in their repo, and about changes in the
/// checkout; a checkout is added on that branch off the main one, and what a checkout
/// holds is committed with its message. A branch is deleted in the docs' repo alone.
pub proof fn what_git_is_asked_for_a_snapshot(
    docs_repo: Seq<char>,
    branch: Seq<char>,
    checkout: Seq<char>,
    message: String,
    base: String,
)
    ensures
        ({
            let add = snapshot_plan(SnapshotAction::AddCheckout, docs_repo, branch, checkout);
            let args = add.last()->args;
            &&& add.last() is Git
            &&& args[1] == docs_repo
            &&& args.contains(branch) && args.contains(checkout) && args.last() == "main"@
        }),
        ({
            let plan = snapshot_plan(
                SnapshotAction::Commit { message },
                docs_repo,
                branch,
                checkout,
            );
            plan.len() == 1 && plan[0] is Git && plan[0]->args == seq![
                "-C"@,
                checkout,
                "commit"@,
                "-m"@,
                message@,
            ]
        }),
        ({
            let plan = snapshot_plan(SnapshotAction::DeleteBranch, docs_repo, branch, checkout);
            plan.len() == 1 && plan[0] is Git && plan[0]->args == seq![
                "-C"@,
                docs_repo,
                "branch"@,
                "-D"@,
                branch,
            ]
        }),
        ({
            let plan = snapshot_plan(
                SnapshotAction::ReadDiff { base },
                docs_repo,
                branch,
                checkout,
            );
            plan.len() == 1 && plan[0] is Git && plan[0]->args == seq![
                "-C"@,
                docs_repo,
                "diff"@,
                base@,
                branch,
            ]
        }),
        ({
            let plan = snapshot_plan(SnapshotAction::Stage, docs_repo, branch, checkout);
            plan.len() == 1 && plan[0] is Git && plan[0]->args == seq![
                "-C"@,
                checkout,
                "add"@,
                "-A"@,
            ]
        }),
        ({
            let plan = snapshot_plan(SnapshotAction::FindBase, docs_repo, branch, checkout);
            plan.len() == 1 && plan[0] is Git && plan[0]->args == seq![
                "-C"@,
                docs_repo,
                "merge-base"@,
                "main"@,
                branch,
            ]
        }),
{
    let add = snapshot_plan(SnapshotAction::AddCheckout, docs_repo, branch, checkout);
    let args = add.last()->args;
    assert(args[5] == branch && args[6] == checkout && args[7] == "main"@);
    assert(seq!["-C"@, checkout] + seq!["commit"@, "-m"@, message@] =~= seq![
        "-C"@,
        checkout,
        "commit"@,
        "-m"@,
        message@,
    ]);
    assert(seq!["-C"@, docs_repo] + seq!["branch"@, "-D"@, branch] =~= seq![
        "-C"@,
        docs_repo,
        "branch"@,
        "-D"@,
        branch,
    ]);
    assert(seq!["-C"@, docs_repo] + seq!["diff"@, base@, branch] =~= seq![
        "-C"@,
        docs_repo,
        "diff"@,
        base@,
        branch,
    ]);
    assert(seq!["-C"@, checkout] + seq!["add"@, "-A"@] =~= seq!["-C"@, checkout, "add"@, "-A"@]);
    assert(seq!["-C"@, docs_repo] + seq!["merge-base"@, "main"@, branch] =~= seq![
        "-C"@,
        docs_repo,
        "merge-base"@,
        "main"@,
        branch,
    ]);
}

/// A checkout is taken away by force, and what git still knows of it with it; of what
/// may be left, only a directory that is empty goes.
pub proof fn how_a_checkout_goes(docs_repo: Seq<char>, checkout: Seq<char>, i: int)
    requires
        0 <= i < without_checkout(docs_repo, checkout).len(),
    ensures
        without_checkout(docs_repo, checkout)[0] is Git,
        without_checkout(docs_repo, checkout)[0]->args.last() == checkout,
        without_checkout(docs_repo, checkout)[0]->args.contains("--force"@),
        !(without_checkout(docs_repo, checkout)[i] is RemoveDir),
        i >= 2 ==> without_checkout(docs_repo, checkout)[i] == (git::StepView::RemoveEmptyDir {
            path: paths::parent_of(checkout)->0,
        }),
{
    let args = git::remove_args(docs_repo, checkout, true);
    assert(args[4] == "--force"@);
    assert(args[5] == checkout);
}

/// What is told of the files that were left to the repo names each of them.
pub proof fn files_are_named(a: Seq<char>, b: Seq<char>)
    ensures
        named_files(seq![a]) == a,
        named_files(seq![a, b]) == a + seq![',', ' '] + b,
        named_files(seq![]) == "(unknown files)"@,
{
    reveal_strlit(", ");
    assert(", "@ =~= seq![',', ' ']);
    assert(seq![a, b].drop_last() =~= seq![a]);
    assert(text::join(seq![a], ", "@) == a);
}

} // verus!
