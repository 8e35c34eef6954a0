//! Files with secrets, which a worktree shares with the main stack.
//!
//! They are linked, not copied, so that a change reaches every worktree. Git is told
//! to ignore them.

use vstd::prelude::*;

use crate::dev_orchestrator::config::OrchestratorConfig;
use crate::managed_docs;
use crate::paths;
use crate::text;

verus! {

/// The file by which a worktree's stack differs from the main one.
pub const OVERRIDE_FILE: &'static str = "docker-compose.override.yml";

/// The link to be made for a file, where the main stack has it and the worktree has
/// not: what it points at, and where it is.
pub fn link_into_worktree(
    cfg: &OrchestratorConfig,
    be_dir: &str,
    name: &str,
    in_main_stack: bool,
    in_worktree: bool,
) -> (r: Option<(String, String)>)
    ensures
        if in_main_stack && !in_worktree {
            r matches Some((src, dst)) && src@ == paths::join(cfg.main_stack_dir@, name@) && dst@
                == paths::join(be_dir@, name@)
        } else {
            r is None
        },
{
    if in_main_stack && !in_worktree {
        Some((paths::joined(&cfg.main_stack_dir, name), paths::joined(be_dir, name)))
    } else {
        None
    }
}

/// What is at the place of a repository's git directory.
pub enum DotGit {
    /// A file, which in a worktree says where the directory is.
    File(String),
    Dir,
    Missing,
}

/// The directory that a `.git` file points at: what the first line with the mark
/// says.
pub open spec fn gitdir_in(lines: Seq<Seq<char>>) -> Option<Seq<char>>
    decreases lines.len(),
{
    if lines.len() == 0 {
        None
    } else {
        match text::strip_prefix(lines[0], "gitdir: "@) {
            Some(rest) => Some(text::trim(rest)),
            None => gitdir_in(lines.drop_first()),
        }
    }
}

/// The file in a git directory that says what is ignored locally.
pub open spec fn exclude_in(gitdir: Seq<char>) -> Seq<char> {
    paths::join(paths::join(gitdir, "info"@), "exclude"@)
}

/// The file that says what is ignored in a worktree, if it has one.
pub fn worktree_exclude_path(be_dir: &str, dot_git: &DotGit) -> (r: Option<String>)
    ensures
        text::maybe(r) == match *dot_git {
            DotGit::File(contents) => match gitdir_in(text::lines(contents@)) {
                Some(d) => Some(exclude_in(d)),
                None => None,
            },
            DotGit::Dir => Some(exclude_in(paths::join(be_dir@, ".git"@))),
            DotGit::Missing => None,
        },
{
    let gitdir = match dot_git {
        DotGit::Dir => paths::joined(be_dir, ".git"),
        DotGit::Missing => {
            return None;
        },
        DotGit::File(contents) => {
            let lines = text::split_lines(contents);
            let ghost all = text::lines(contents@);
            let mut i: usize = 0;
            assert(all.skip(0) =~= all);
            while i < lines.len()
                invariant
                    i <= lines.len(),
                    text::views(lines@) == all,
                    *dot_git == (DotGit::File(*contents)),
                    all == text::lines(contents@),
                    gitdir_in(all) == gitdir_in(all.skip(i as int)),
                decreases lines.len() - i,
            {
                assert(all.skip(i as int)[0] == lines@[i as int]@);
                assert(all.skip(i as int).drop_first() =~= all.skip(i + 1));
                if let Some(rest) = text::without_prefix(&lines[i], "gitdir: ") {
                    let d = text::trimmed(&rest);
                    return Some(paths::joined(&paths::joined(&d, "info"), "exclude"));
                }
                i = i + 1;
            }
            return None;
        },
    };
    Some(paths::joined(&paths::joined(&gitdir, "info"), "exclude"))
}

/// The lines that are not there yet, each once.
pub open spec fn lacking(present: Seq<Seq<char>>, want: Seq<Seq<char>>) -> Seq<Seq<char>>
    decreases want.len(),
{
    if want.len() == 0 {
        seq![]
    } else {
        let before = lacking(present, want.drop_last());
        if present.contains(want.last()) || before.contains(want.last()) {
            before
        } else {
            before.push(want.last())
        }
    }
}

/// What is to be ignored: the override file, and the linked ones.
pub open spec fn ignored(cfg: OrchestratorConfig) -> Seq<Seq<char>> {
    seq![OVERRIDE_FILE@] + text::views(cfg.env_symlinks@)
}

/// What the list of ignored files reads with those of a worktree; `None` where it
/// has them all.
pub fn register_gitignore(existing: &str, cfg: &OrchestratorConfig) -> (r: Option<String>)
    ensures
        ({
            let add = lacking(text::lines(existing@), ignored(*cfg));
            text::maybe(r) == if add.len() == 0 {
                None
            } else {
                Some(managed_docs::ended(existing@) + managed_docs::block(add))
            }
        }),
{
    let present = text::split_lines(existing);
    let mut want = text::list(&[OVERRIDE_FILE]);
    let mut rest = text::copies(&cfg.env_symlinks);
    proof {
        assert(text::views(want@ + rest@) =~= text::views(want@) + text::views(rest@));
        assert(text::views(want@) =~= seq![OVERRIDE_FILE@]);
    }
    want.append(&mut rest);
    let ghost lines = text::lines(existing@);
    let ghost all = ignored(*cfg);
    let mut added: Vec<String> = Vec::new();
    let mut to_add = String::new();
    let mut i: usize = 0;
    assert(text::views(added@) =~= lacking(lines, all.take(0)));
    assert(to_add@ =~= managed_docs::block(lacking(lines, all.take(0))));
    while i < want.len()
        invariant
            i <= want.len(),
            text::views(want@) == all,
            text::views(present@) == lines,
            text::views(added@) == lacking(lines, all.take(i as int)),
            to_add@ == managed_docs::block(lacking(lines, all.take(i as int))),
        decreases want.len() - i,
    {
        proof {
            assert(all.take(i + 1).drop_last() =~= all.take(i as int));
            assert(all.take(i + 1).last() == want@[i as int]@);
        }
        let w = &want[i];
        if !text::among(&present, w) && !text::among(&added, w) {
            let ghost before = text::views(added@);
            added.push(w.clone());
            to_add.append(w);
            to_add.push('\n');
            proof {
                assert(text::views(added@) =~= before.push(w@));
                assert(before.push(w@).drop_last() =~= before);
                assert(to_add@ =~= managed_docs::block(before.push(w@)));
            }
        }
        i = i + 1;
    }
    assert(all.take(i as int) =~= all);
    if added.len() == 0 {
        assert(text::views(added@).len() == 0);
        return None;
    }
    let v = text::chars_of(existing);
    let mut content = existing.to_owned();
    if v.len() > 0 && v[v.len() - 1] != '\n' {
        content.push('\n');
    }
    content.append(&to_add);
    assert(text::views(added@).len() > 0);
    Some(content)
}

proof fn lemma_end_keeps(s: Seq<char>, l: Seq<char>)
    requires
        s.len() > 0,
        s.last() != '\n',
        text::strip_cr(l) == l,
        text::lines(s).contains(l),
    ensures
        text::lines(s.push('\n')).contains(l),
    decreases s.len(),
{
    let t = s.push('\n');
    text::lemma_find_char_bounds(s, '\n');
    let i = text::find_char(s, '\n');
    let k = choose|k: int| 0 <= k < text::lines(s).len() && text::lines(s)[k] == l;
    if i == s.len() {
        assert(!s.contains('\n')) by {
            assert forall|j: int| 0 <= j < s.len() implies s[j] != '\n' by {}
        }
        text::lemma_one_line(s);
        assert(text::lines(t)[0] == l);
    } else {
        text::lemma_find_char(t, '\n', i);
        assert(t.take(i) =~= s.take(i));
        assert(t.skip(i + 1) =~= s.skip(i + 1).push('\n'));
        assert(i + 1 < s.len()) by {
            if i + 1 == s.len() {
                assert(s[i] == s.last());
            }
        }
        let rest = text::lines(t.skip(i + 1));
        if k == 0 {
            assert(text::lines(t)[0] == l);
        } else {
            assert(text::lines(s.skip(i + 1))[k - 1] == l);
            lemma_end_keeps(s.skip(i + 1), l);
            let j = choose|j: int| 0 <= j < rest.len() && rest[j] == l;
            assert(text::lines(t)[j + 1] == l);
        }
    }
}

proof fn lemma_lacking(present: Seq<Seq<char>>, want: Seq<Seq<char>>)
    ensures
        forall|i: int|
            0 <= i < want.len() ==> present.contains(#[trigger] want[i]) || lacking(
                present,
                want,
            ).contains(want[i]),
        forall|l: Seq<char>| #[trigger] lacking(present, want).contains(l) ==> want.contains(l),
    decreases want.len(),
{
    if want.len() > 0 {
        let head = want.drop_last();
        let before = lacking(present, head);
        let now = lacking(present, want);
        lemma_lacking(present, head);
        assert forall|l: Seq<char>| before.contains(l) implies #[trigger] now.contains(l) by {
            let k = choose|k: int| 0 <= k < before.len() && before[k] == l;
            assert(now[k] == l);
        }
        assert forall|i: int| 0 <= i < want.len() implies present.contains(#[trigger] want[i])
            || now.contains(want[i]) by {
            if i < head.len() {
                assert(head[i] == want[i]);
            } else if !present.contains(want[i]) && !before.contains(want[i]) {
                assert(now[before.len() as int] == want[i]);
            }
        }
        assert forall|l: Seq<char>| #[trigger] now.contains(l) implies want.contains(l) by {
            let k = choose|k: int| 0 <= k < now.len() && now[k] == l;
            if k < before.len() {
                assert(before[k] == l);
                assert(before.contains(l));
                let j = choose|j: int| 0 <= j < head.len() && head[j] == l;
                assert(want[j] == l);
            } else {
                assert(want[want.len() - 1] == l);
            }
        }
    }
}

proof fn lemma_none_lacking(present: Seq<Seq<char>>, want: Seq<Seq<char>>)
    requires
        forall|i: int| 0 <= i < want.len() ==> present.contains(#[trigger] want[i]),
    ensures
        lacking(present, want).len() == 0,
    decreases want.len(),
{
    if want.len() > 0 {
        let head = want.drop_last();
        assert forall|i: int| 0 <= i < head.len() implies present.contains(#[trigger] head[i]) by {
            assert(head[i] == want[i]);
        }
        lemma_none_lacking(present, head);
        assert(present.contains(want[want.len() - 1]));
    }
}

/// A list of ignored files that was completed lacks nothing, so that it does not
/// grow with every start.
pub proof fn ignoring_again_adds_nothing(existing: Seq<char>, want: Seq<Seq<char>>)
    requires
        forall|i: int| 0 <= i < want.len() ==> managed_docs::is_plain(#[trigger] want[i]),
    ensures
        lacking(
            text::lines(
                managed_docs::ended(existing) + managed_docs::block(
                    lacking(text::lines(existing), want),
                ),
            ),
            want,
        ).len() == 0,
{
    let add = lacking(text::lines(existing), want);
    let old_part = managed_docs::ended(existing);
    let new = old_part + managed_docs::block(add);
    lemma_lacking(text::lines(existing), want);
    assert forall|i: int| 0 <= i < add.len() implies managed_docs::is_plain(#[trigger] add[i]) by {
        assert(add.contains(add[i]));
        let k = choose|k: int| 0 <= k < want.len() && want[k] == add[i];
        assert(managed_docs::is_plain(want[k]));
    }
    managed_docs::lemma_block_lines(add);
    text::lemma_lines_concat(old_part, managed_docs::block(add));
    let lines = text::lines(new);
    let n = text::lines(old_part).len();
    assert forall|i: int| 0 <= i < want.len() implies lines.contains(#[trigger] want[i]) by {
        let l = want[i];
        assert(managed_docs::is_plain(l));
        if add.contains(l) {
            let k = choose|k: int| 0 <= k < add.len() && add[k] == l;
            assert(lines[n + k] == l);
        } else {
            managed_docs::lemma_plain_line(l);
            if existing.len() > 0 && existing.last() != '\n' {
                lemma_end_keeps(existing, l);
            }
            let k = choose|k: int|
                0 <= k < text::lines(old_part).len() && text::lines(old_part)[k] == l;
            assert(lines[k] == l);
        }
    }
    lemma_none_lacking(lines, want);
}

/// The first line that names a git directory names it, without white space around it;
/// a file without such a line names none.
pub proof fn the_first_git_directory_counts(lines: Seq<Seq<char>>, i: int, dir: Seq<char>)
    requires
        0 <= i <= lines.len(),
        forall|k: int| 0 <= k < i ==> !"gitdir: "@.is_prefix_of(#[trigger] lines[k]),
        i < lines.len() ==> lines[i] == "gitdir: "@ + dir,
    ensures
        gitdir_in(lines) == (if i < lines.len() {
            Some(text::trim(dir))
        } else {
            None
        }),
    decreases i,
{
    if i < lines.len() {
        let l = "gitdir: "@ + dir;
        assert(l.take("gitdir: "@.len() as int) =~= "gitdir: "@);
        assert(l.skip("gitdir: "@.len() as int) =~= dir);
    }
    if i > 0 {
        assert(!"gitdir: "@.is_prefix_of(lines[0]));
        let rest = lines.drop_first();
        assert forall|k: int| 0 <= k < i - 1 implies !"gitdir: "@.is_prefix_of(
            #[trigger] rest[k],
        ) by {
            assert(rest[k] == lines[k + 1]);
        }
        the_first_git_directory_counts(rest, i - 1, dir);
    }
}

/// What is lacking is what is wanted and not there: each of it once, and nothing else.
pub proof fn what_is_lacking(present: Seq<Seq<char>>, want: Seq<Seq<char>>, l: Seq<char>)
    ensures
        lacking(present, want).contains(l) <==> want.contains(l) && !present.contains(l),
        lacking(present, want).no_duplicates(),
    decreases want.len(),
{
    if want.len() > 0 {
        let rest = want.drop_last();
        what_is_lacking(present, rest, l);
        what_is_lacking(present, rest, want.last());
        let before = lacking(present, rest);
        let all = lacking(present, want);
        if rest.contains(l) {
            let i = choose|i: int| 0 <= i < rest.len() && rest[i] == l;
            assert(want[i] == l);
        }
        if want.contains(l) && l != want.last() {
            let i = choose|i: int| 0 <= i < want.len() && want[i] == l;
            assert(rest[i] == l);
        }
        if before.contains(l) {
            let i = choose|i: int| 0 <= i < before.len() && before[i] == l;
            assert(all[i] == l);
        }
        assert(want[want.len() - 1] == want.last());
        if !(present.contains(want.last()) || before.contains(want.last())) {
            assert(all[before.len() as int] == want.last());
            if all.contains(l) && l != want.last() {
                let i = choose|i: int| 0 <= i < all.len() && all[i] == l;
                assert(before[i] == l);
            }
        }
    }
}

/// The file with the compose overrides is ignored, and so is each file that is linked in.
pub proof fn which_files_are_ignored(cfg: OrchestratorConfig, i: int)
    requires
        0 <= i < cfg.env_symlinks@.len(),
    ensures
        ignored(cfg).contains("docker-compose.override.yml"@),
        ignored(cfg).contains(cfg.env_symlinks@[i]@),
        ignored(cfg).len() == 1 + cfg.env_symlinks@.len(),
{
    assert(ignored(cfg)[0] == "docker-compose.override.yml"@);
    assert(ignored(cfg)[i + 1] == cfg.env_symlinks@[i]@);
}

/// The file with what git ignores lies in the git directory's `info`.
pub proof fn where_git_keeps_what_it_ignores(gitdir: Seq<char>)
    requires
        gitdir.len() > 0,
        gitdir.last() != '/',
        !(gitdir.len() >= 2 && gitdir.last() == '.' && gitdir[gitdir.len() - 2] == '/'),
    ensures
        paths::file_name_of(exclude_in(gitdir)) == Some("exclude"@),
        paths::parent_of(exclude_in(gitdir)) == Some(paths::join(gitdir, "info"@)),
        paths::parent_of(paths::join(gitdir, "info"@)) == Some(gitdir),
{
    reveal_strlit("info");
    reveal_strlit("exclude");
    let info = "info"@;
    assert(!info.contains('/') && info.len() == 4);
    assert(!"exclude"@.contains('/') && "exclude"@.len() == 7);
    paths::a_joined_path_comes_apart(gitdir, info);
    let dir = paths::join(gitdir, info);
    assert(dir.last() == 'o');
    paths::a_joined_path_comes_apart(dir, "exclude"@);
}

} // verus!
