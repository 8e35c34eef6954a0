//! Where the application keeps its files.

use vstd::prelude::*;

use crate::agent::AgentName;
use crate::text;

verus! {

pub open spec fn is_absolute(p: Seq<char>) -> bool {
    p.len() > 0 && p[0] == '/'
}

/// `b` read from the directory `a`: an absolute path stands for itself.
pub open spec fn join(a: Seq<char>, b: Seq<char>) -> Seq<char> {
    if is_absolute(b) || a.len() == 0 {
        b
    } else if a.last() == '/' {
        a + b
    } else {
        a + "/"@ + b
    }
}

/// Whether `p` is an absolute path.
pub(crate) fn absolute(p: &str) -> (r: bool)
    ensures
        r == is_absolute(p@),
{
    let v = text::chars_of(p);
    v.len() > 0 && v[0] == '/'
}

/// `b` read from the directory `a`.
pub(crate) fn joined(a: &str, b: &str) -> (r: String)
    ensures
        r@ == join(a@, b@),
{
    let v = text::chars_of(a);
    if absolute(b) || v.len() == 0 {
        b.to_owned()
    } else if v[v.len() - 1] == '/' {
        text::cat(a, b)
    } else {
        text::cat3(a, "/", b)
    }
}

/// A part of a path that leads somewhere.
pub open spec fn leads(part: Seq<char>) -> bool {
    part.len() > 0 && part != "."@
}

/// The parts of a path, one after the other. How many separators stand between them does
/// not matter, nor does a `.` that is not the first of them.
pub open spec fn steps(p: Seq<char>) -> Seq<Seq<char>> {
    let parts = text::split(p, '/');
    (if parts[0].len() == 0 {
        seq![]
    } else {
        seq![parts[0]]
    }) + parts.skip(1).filter(|part: Seq<char>| leads(part))
}

/// Whether two paths are the same: they start alike and have the same parts.
pub open spec fn same_path(a: Seq<char>, b: Seq<char>) -> bool {
    is_absolute(a) == is_absolute(b) && steps(a) == steps(b)
}

fn steps_of(p: &str) -> (r: Vec<String>)
    ensures
        text::views(r@) == steps(p@),
{
    let parts = text::split_on(p, '/');
    let ghost all = text::views(parts@);
    let ghost go = |part: Seq<char>| leads(part);
    let ghost more = all.skip(1);
    let mut r: Vec<String> = Vec::new();
    assert(all.len() > 0);
    if !parts[0].as_str().is_empty() {
        r.push(parts[0].clone());
    }
    let ghost first = text::views(r@);
    proof {
        assert(all[0] == parts@[0]@);
        assert(first =~= (if all[0].len() == 0 {
            seq![]
        } else {
            seq![all[0]]
        }));
        more.take(0).lemma_filter_len(go);
        assert(more.take(0).filter(go) =~= seq![]);
        assert(first + seq![] =~= first);
    }
    let mut i: usize = 1;
    while i < parts.len()
        invariant
            1 <= i <= parts.len(),
            all == text::views(parts@),
            more == all.skip(1),
            go == (|part: Seq<char>| leads(part)),
            text::views(r@) == first + more.take(i - 1).filter(go),
        decreases parts.len() - i,
    {
        let part = &parts[i];
        let ghost had = text::views(r@);
        proof {
            assert(more[i - 1] == part@);
            assert(more.take(i as int) =~= more.take(i - 1).push(part@));
            more.take(i - 1).lemma_filter_push(part@, go);
        }
        if !part.as_str().is_empty() && !text::same(part, ".") {
            r.push(part.clone());
            assert(text::views(r@) =~= had.push(part@));
            assert(had.push(part@) =~= first + more.take(i - 1).filter(go).push(part@));
        }
        i = i + 1;
    }
    assert(more.take(i - 1) =~= more);
    r
}

/// Whether two paths are the same.
pub(crate) fn same(a: &str, b: &str) -> (r: bool)
    ensures
        r == same_path(a@, b@),
{
    let x = steps_of(a);
    let y = steps_of(b);
    if absolute(a) != absolute(b) || x.len() != y.len() {
        assert(x@.len() == steps(a@).len() && y@.len() == steps(b@).len());
        return false;
    }
    let mut i: usize = 0;
    while i < x.len()
        invariant
            i <= x.len(),
            x.len() == y.len(),
            text::views(x@) == steps(a@),
            text::views(y@) == steps(b@),
            forall|k: int| 0 <= k < i ==> steps(a@)[k] == steps(b@)[k],
        decreases x.len() - i,
    {
        assert(steps(a@)[i as int] == x@[i as int]@ && steps(b@)[i as int] == y@[i as int]@);
        if !text::same(&x[i], &y[i]) {
            return false;
        }
        i = i + 1;
    }
    assert(x@.len() == steps(a@).len() && y@.len() == steps(b@).len());
    assert(steps(a@) =~= steps(b@));
    true
}

/// `p` without the separators and the `.` segments at its end.
pub open spec fn trim_tail(p: Seq<char>) -> Seq<char>
    decreases p.len(),
{
    if p.len() > 1 && p.last() == '/' {
        trim_tail(p.drop_last())
    } else if p.len() > 1 && p.last() == '.' && p[p.len() - 2] == '/' {
        trim_tail(p.drop_last())
    } else {
        p
    }
}

/// The last segment of a path.
pub open spec fn last_segment(p: Seq<char>) -> Seq<char> {
    let t = trim_tail(p);
    match text::rfind_char(t, '/') {
        Some(i) => t.skip(i + 1),
        None => t,
    }
}

/// The name of the file or directory that a path leads to.
pub open spec fn file_name_of(p: Seq<char>) -> Option<Seq<char>> {
    let n = last_segment(p);
    if n.len() == 0 || n == seq!['.'] || n == seq!['.', '.'] {
        None
    } else {
        Some(n)
    }
}

/// The directory that holds what a path leads to.
pub open spec fn parent_of(p: Seq<char>) -> Option<Seq<char>> {
    let t = trim_tail(p);
    if t.len() == 0 || t == seq!['/'] {
        None
    } else {
        match text::rfind_char(t, '/') {
            Some(i) => Some(trim_tail(t.take(i + 1))),
            None => Some(seq![]),
        }
    }
}

/// What follows the last dot of the file name, where the name does not begin
/// with it.
pub open spec fn extension_of(p: Seq<char>) -> Option<Seq<char>> {
    match file_name_of(p) {
        Some(n) => match text::rfind_char(n, '.') {
            Some(i) => if i > 0 {
                Some(n.skip(i + 1))
            } else {
                None
            },
            None => None,
        },
        None => None,
    }
}

fn tail_end(v: &[char]) -> (n: usize)
    ensures
        n <= v.len(),
        v@.take(n as int) == trim_tail(v@),
{
    let mut n: usize = v.len();
    assert(v@.take(n as int) =~= v@);
    while n > 1 && (v[n - 1] == '/' || (v[n - 1] == '.' && v[n - 2] == '/'))
        invariant
            n <= v.len(),
            trim_tail(v@.take(n as int)) == trim_tail(v@),
        decreases n,
    {
        proof {
            assert(v@.take(n as int).drop_last() =~= v@.take(n - 1));
        }
        n = n - 1;
    }
    n
}

/// The name of the file or directory that a path leads to.
pub(crate) fn file_name(p: &str) -> (r: Option<String>)
    ensures
        match r {
            Some(n) => file_name_of(p@) == Some(n@),
            None => file_name_of(p@) is None,
        },
{
    let v = text::chars_of(p);
    let n = tail_end(&v);
    let t = vstd::slice::slice_subrange(v.as_slice(), 0, n);
    assert(t@ =~= trim_tail(p@));
    let from: usize = match text::seek_back(t, '/') {
        Some(i) => i + 1,
        None => 0,
    };
    let name = text::piece(t, from, t.len());
    assert(name@ =~= last_segment(p@));
    proof {
        reveal_strlit(".");
        reveal_strlit("..");
        assert("."@ =~= seq!['.']);
        assert(".."@ =~= seq!['.', '.']);
    }
    if name.as_str().is_empty() || text::same(&name, ".") || text::same(&name, "..") {
        None
    } else {
        Some(name)
    }
}

/// The directory that holds what a path leads to.
pub(crate) fn parent(p: &str) -> (r: Option<String>)
    ensures
        match r {
            Some(d) => parent_of(p@) == Some(d@),
            None => parent_of(p@) is None,
        },
{
    let v = text::chars_of(p);
    let n = tail_end(&v);
    let t = vstd::slice::slice_subrange(v.as_slice(), 0, n);
    assert(t@ =~= trim_tail(p@));
    if n == 0 || (n == 1 && v[0] == '/') {
        assert(n == 1 ==> t@ =~= seq!['/']);
        return None;
    }
    assert(t@ != seq!['/']) by {
        if t@ == seq!['/'] {
            assert(t@.len() == 1);
            assert(t@[0] == '/');
        }
    }
    match text::seek_back(t, '/') {
        Some(i) => {
            let d = vstd::slice::slice_subrange(t, 0, i + 1);
            let m = tail_end(d);
            assert(d@ =~= t@.take(i + 1));
            let r = text::piece(d, 0, m);
            assert(r@ =~= trim_tail(d@));
            Some(r)
        },
        None => {
            let r = String::new();
            assert(r@ =~= seq![]);
            Some(r)
        },
    }
}

/// What follows the last dot of the file name.
pub(crate) fn extension(p: &str) -> (r: Option<String>)
    ensures
        match r {
            Some(e) => extension_of(p@) == Some(e@),
            None => extension_of(p@) is None,
        },
{
    match file_name(p) {
        Some(n) => {
            let v = text::chars_of(&n);
            match text::seek_back(&v, '.') {
                Some(i) => {
                    if i == 0 {
                        return None;
                    }
                    let e = text::piece(&v, i + 1, v.len());
                    assert(e@ =~= n@.skip(i + 1));
                    Some(e)
                },
                None => None,
            }
        },
        None => None,
    }
}

/// The application's data directory, and every path inside it that something
/// depends on.
pub struct Paths {
    pub data_dir: String,
}

impl Paths {
    /// A file or directory directly in the data directory.
    pub open spec fn entry(self, name: Seq<char>) -> Seq<char> {
        join(self.data_dir@, name)
    }

    /// The clone that every worktree of a repo branches off.
    pub open spec fn clone_of(self, repo_key: Seq<char>) -> Seq<char> {
        join(self.entry("repos"@), repo_key)
    }

    pub fn state_file(&self) -> (r: String)
        ensures
            r@ == self.entry("state.json"@),
    {
        joined(&self.data_dir, "state.json")
    }

    pub fn state_tmp_file(&self) -> (r: String)
        ensures
            r@ == self.entry("state.json.tmp"@),
    {
        joined(&self.data_dir, "state.json.tmp")
    }

    pub fn logs_dir(&self) -> (r: String)
        ensures
            r@ == self.entry("logs"@),
    {
        joined(&self.data_dir, "logs")
    }

    pub fn repos_config_file(&self) -> (r: String)
        ensures
            r@ == self.entry("repos.toml"@),
    {
        joined(&self.data_dir, "repos.toml")
    }

    pub fn repos_schema_file(&self) -> (r: String)
        ensures
            r@ == self.entry("repos.schema.json"@),
    {
        joined(&self.data_dir, "repos.schema.json")
    }

    pub fn repos_clone_dir(&self) -> (r: String)
        ensures
            r@ == self.entry("repos"@),
    {
        joined(&self.data_dir, "repos")
    }

    pub fn repo_clone_path(&self, repo_key: &str) -> (r: String)
        ensures
            r@ == self.clone_of(repo_key@),
    {
        joined(&self.repos_clone_dir(), repo_key)
    }

    /// The clone's git directory. Every worktree keeps its git metadata here, so
    /// this is the path a sandbox must let git write; the clone's source tree
    /// beside it stays read-only.
    pub fn repo_git_dir(&self, repo_key: &str) -> (r: String)
        ensures
            r@ == join(self.clone_of(repo_key@), ".git"@),
    {
        joined(&self.repo_clone_path(repo_key), ".git")
    }

    pub fn symlinks_dir(&self) -> (r: String)
        ensures
            r@ == self.entry("symlinks"@),
    {
        joined(&self.data_dir, "symlinks")
    }

    /// The settings that every worktree of a repo shares.
    pub fn repo_shared_claude_local(&self, repo_key: &str) -> (r: String)
        ensures
            r@ == join(join(self.entry("symlinks"@), repo_key@), "settings.local.json"@),
    {
        joined(&joined(&self.symlinks_dir(), repo_key), "settings.local.json")
    }

    pub fn hook_socket(&self) -> (r: String)
        ensures
            r@ == self.entry("hook.sock"@),
    {
        joined(&self.data_dir, "hook.sock")
    }

    pub fn mcp_socket(&self) -> (r: String)
        ensures
            r@ == self.entry("mcp.sock"@),
    {
        joined(&self.data_dir, "mcp.sock")
    }

    pub fn claude_settings_lock(&self, name: &AgentName) -> (r: String)
        ensures
            r@ == self.entry(name.called() + "-settings.lock"@),
    {
        joined(&self.data_dir, &crate::text::cat(&name.command(), "-settings.lock"))
    }

    pub fn theme_file(&self) -> (r: String)
        ensures
            r@ == self.entry("theme.json"@),
    {
        joined(&self.data_dir, "theme.json")
    }

    /// Permission entries captured when a workspace was purged, waiting for the
    /// user to fold them into a repo's shared settings or discard them.
    pub fn pending_permissions_file(&self) -> (r: String)
        ensures
            r@ == self.entry("pending_permissions.json"@),
    {
        joined(&self.data_dir, "pending_permissions.json")
    }

    /// Docs branches waiting for the user to approve or decline their merge.
    pub fn pending_docs_merges_file(&self) -> (r: String)
        ensures
            r@ == self.entry("pending_docs_merges.json"@),
    {
        joined(&self.data_dir, "pending_docs_merges.json")
    }

    /// The repository that holds the docs managed for a repo.
    pub fn docs_repo_path(&self, repo_key: &str) -> (r: String)
        ensures
            r@ == join(self.entry("docs"@), repo_key@),
    {
        joined(&joined(&self.data_dir, "docs"), repo_key)
    }

    /// Where a workspace has its own checkout of a repo's managed docs.
    pub fn docs_checkout_path(&self, workspace_dir: &str, repo_key: &str) -> (r: String)
        ensures
            r@ == join(join(self.entry("docs-worktrees"@), workspace_dir@), repo_key@),
    {
        joined(&joined(&joined(&self.data_dir, "docs-worktrees"), workspace_dir), repo_key)
    }
}

/// Where the user's own settings of the agent are, under the home directory.
pub fn claude_settings_path(home: Option<&str>, name: &AgentName) -> (r: Option<String>)
    ensures
        text::maybe(r) == (match home {
            Some(h) => Some(join(join(h@, name.dir()), "settings.json"@)),
            None => None,
        }),
{
    match home {
        Some(h) => Some(joined(&joined(h, &name.settings_dir()), "settings.json")),
        None => None,
    }
}

/// Where the program is that the agent calls on every event: beside this one.
pub fn tethys_hook_bin(exe: &str) -> (r: Option<String>)
    ensures
        text::maybe(r) == (match parent_of(exe@) {
            Some(dir) => Some(join(dir, "tethys-hook"@)),
            None => None,
        }),
{
    match parent(exe) {
        Some(dir) => Some(joined(&dir, "tethys-hook")),
        None => None,
    }
}

proof fn lemma_name_stays(a: Seq<char>, name: Seq<char>)
    requires
        name.len() > 0,
        !name.contains('/'),
        name != seq!['.'],
    ensures
        trim_tail(a + seq!['/'] + name) == a + seq!['/'] + name,
        trim_tail(name) == name,
        text::rfind_char(a + seq!['/'] + name, '/') == Some(a.len() as int),
        text::rfind_char(name, '/') is None,
{
    let p = a + seq!['/'] + name;
    assert(name.contains(name[name.len() - 1]));
    assert(p.last() == name.last());
    if name.len() == 1 {
        assert(name =~= seq![name[0]]);
    } else {
        assert(name.contains(name[name.len() - 2]));
        assert(p[p.len() - 2] == name[name.len() - 2]);
    }
    text::the_last_place_is_found(a, '/', name);
}

/// What is joined comes apart again: a name put behind a directory is its file name, and
/// the directory its parent. Slashes behind the name change neither.
pub proof fn a_joined_path_comes_apart(dir: Seq<char>, name: Seq<char>)
    requires
        dir.len() > 0,
        dir.last() != '/',
        !(dir.len() >= 2 && dir.last() == '.' && dir[dir.len() - 2] == '/'),
        name.len() > 0,
        !name.contains('/'),
        name != seq!['.'],
        name != seq!['.', '.'],
    ensures
        join(dir, name) == dir + seq!['/'] + name,
        file_name_of(join(dir, name)) == Some(name),
        parent_of(join(dir, name)) == Some(dir),
        file_name_of(join(dir, name).push('/')) == Some(name),
        parent_of(join(dir, name).push('/')) == Some(dir),
        file_name_of(name) == Some(name),
        parent_of(name) == Some(Seq::<char>::empty()),
        file_name_of(seq!['/'] + name) == Some(name),
        parent_of(seq!['/'] + name) == Some(seq!['/']),
{
    reveal_strlit("/");
    assert(name.contains(name[0]));
    let p = join(dir, name);
    assert("/"@ =~= seq!['/']);
    assert(p =~= dir + seq!['/'] + name);
    lemma_name_stays(dir, name);
    assert(p.skip(dir.len() as int + 1) =~= name);
    let up = p.take(dir.len() as int + 1);
    assert(up =~= dir.push('/'));
    assert(up.drop_last() =~= dir);
    assert(trim_tail(dir) == dir);
    assert(trim_tail(up) == dir);
    assert(p.len() > 1);
    let q = p.push('/');
    assert(q.drop_last() =~= p);
    assert(trim_tail(q) == trim_tail(p));
    let e: Seq<char> = seq![];
    lemma_name_stays(e, name);
    let r = seq!['/'] + name;
    assert(e + seq!['/'] + name =~= r);
    assert(r.skip(1) =~= name);
    assert(r.take(1) =~= seq!['/']);
    assert(trim_tail(seq!['/']) == seq!['/']);
}

/// A path that starts with a slash stands for itself, wherever it is looked for, and an
/// empty directory adds nothing.
pub proof fn an_absolute_path_is_taken_as_it_is(dir: Seq<char>, path: Seq<char>)
    ensures
        path.len() > 0 && path[0] == '/' ==> join(dir, path) == path,
        join(seq![], path) == path,
{
}

/// The extension of a file is what stands behind the last dot of its name, where
/// something stands before that dot.
pub proof fn an_extension_follows_the_last_dot(dir: Seq<char>, stem: Seq<char>, ext: Seq<char>)
    requires
        !stem.contains('/'),
        !ext.contains('/'),
        !ext.contains('.'),
        stem.len() > 0 || ext.len() > 0,
        !(stem == seq!['.'] && ext.len() == 0),
    ensures
        extension_of(dir + seq!['/'] + stem + seq!['.'] + ext) == (if stem.len() > 0 {
            Some(ext)
        } else {
            None
        }),
        ext.len() > 0 ==> extension_of(dir + seq!['/'] + ext) is None,
{
    let name = stem + seq!['.'] + ext;
    let p = dir + seq!['/'] + stem + seq!['.'] + ext;
    assert forall|i: int| 0 <= i < name.len() implies name[i] != '/' by {
        if i < stem.len() {
            assert(stem.contains(stem[i]));
        } else if i > stem.len() {
            assert(ext.contains(ext[i - stem.len() - 1]));
        }
    }
    assert(!name.contains('/'));
    assert(name[stem.len() as int] == '.');
    assert(name.len() >= 2);
    assert(name != seq!['.', '.']) by {
        if name == seq!['.', '.'] {
            assert(name[0] == '.' && name[1] == '.');
            if stem.len() == 1 {
                assert(stem =~= seq!['.']);
            } else {
                assert(ext.contains(ext[0]));
                assert(ext[0] == name[1]);
            }
        }
    }
    lemma_name_stays(dir, name);
    assert(p =~= dir + seq!['/'] + name);
    assert(p.skip(dir.len() as int + 1) =~= name);
    text::the_last_place_is_found(stem, '.', ext);
    assert(name.skip(stem.len() as int + 1) =~= ext);
    if ext.len() > 0 {
        assert(ext.contains(ext[0]));
        lemma_name_stays(dir, ext);
        let q = dir + seq!['/'] + ext;
        assert(q.skip(dir.len() as int + 1) =~= ext);
        text::the_last_place_is_found(ext, '.', ext);
    }
}

pub(crate) proof fn lemma_split_behind(a: Seq<char>, b: Seq<char>)
    ensures
        text::split(a + seq!['/'] + b, '/') == text::split(a, '/') + text::split(b, '/'),
{
    text::pieces_join_to_the_text(a, '/');
    text::pieces_join_to_the_text(b, '/');
    let x = text::split(a, '/');
    let y = text::split(b, '/');
    assert forall|i: int| 0 <= i < (x + y).len() implies !(#[trigger] (x + y)[i]).contains('/') by {
        if i < x.len() {
            assert((x + y)[i] == x[i]);
        } else {
            assert((x + y)[i] == y[i - x.len()]);
        }
    }
    text::joined_parts_come_apart(x + y, '/');
    lemma_join_both(x, y);
}

proof fn lemma_join_both(x: Seq<Seq<char>>, y: Seq<Seq<char>>)
    requires
        x.len() > 0,
        y.len() > 0,
    ensures
        text::join(x + y, seq!['/']) == text::join(x, seq!['/']) + seq!['/'] + text::join(
            y,
            seq!['/'],
        ),
    decreases y.len(),
{
    let sep = seq!['/'];
    let all = x + y;
    if y.len() == 1 {
        assert(all.drop_last() =~= x);
    } else {
        lemma_join_both(x, y.drop_last());
        assert(all.drop_last() =~= x + y.drop_last());
        assert(text::join(all, sep) =~= text::join(x, sep) + sep + text::join(y, sep));
    }
}

/// The steps of a path are those of its beginning and then those of what follows.
proof fn lemma_steps_behind(a: Seq<char>, b: Seq<char>)
    ensures
        steps(a + seq!['/'] + b) == steps(a) + text::split(b, '/').filter(
            |part: Seq<char>| leads(part),
        ),
{
    lemma_split_behind(a, b);
    text::pieces_join_to_the_text(a, '/');
    let x = text::split(a, '/');
    let y = text::split(b, '/');
    let p = |part: Seq<char>| leads(part);
    let all = text::split(a + seq!['/'] + b, '/');
    assert(all[0] == x[0]);
    assert(all.skip(1) =~= x.skip(1) + y);
    Seq::filter_distributes_over_add(x.skip(1), y, p);
    assert(steps(a + seq!['/'] + b) =~= steps(a) + y.filter(p));
}

proof fn lemma_led(name: Seq<char>)
    requires
        !name.contains('/'),
    ensures
        text::split(name, '/').filter(|part: Seq<char>| leads(part)) == (if name.len() > 0 && name
            != "."@ {
            seq![name]
        } else {
            seq![]
        }),
{
    let p = |part: Seq<char>| leads(part);
    let one = seq![name];
    assert(text::join(one, seq!['/']) == name);
    text::joined_parts_come_apart(one, '/');
    reveal(Seq::filter);
    assert(one.drop_last() =~= seq![]);
    assert(one.drop_last().filter(p) =~= seq![]);
    assert(one.filter(p) =~= (if leads(name) {
        seq![name]
    } else {
        seq![]
    }));
}

/// Two spellings of a path are the same path where they differ by doubled slashes, by
/// steps that stay where they are, or by a slash at the end; but not where they differ
/// by a name.
pub proof fn spellings_of_a_path(a: Seq<char>, b: Seq<char>, name: Seq<char>, other: Seq<char>)
    requires
        a.len() > 0,
        name.len() > 0 && !name.contains('/') && name != seq!['.'],
        other.len() > 0 && !other.contains('/') && other != seq!['.'],
    ensures
        same_path(a, a),
        same_path(a + seq!['/', '/'] + b, a + seq!['/'] + b),
        same_path(a + seq!['/', '.', '/'] + b, a + seq!['/'] + b),
        same_path(a + seq!['/'], a),
        same_path(a + seq!['/', '.'], a),
        !same_path(a + seq!['/'] + name, a),
        same_path(a + seq!['/'] + name, a + seq!['/'] + other) <==> name == other,
        a[0] != '/' ==> !same_path(seq!['/'] + a, a),
{
    reveal_strlit(".");
    assert("."@ =~= seq!['.']);
    let p = |part: Seq<char>| leads(part);
    let slash = seq!['/'];
    let e: Seq<char> = seq![];
    let dot = seq!['.'];
    lemma_led(e);
    lemma_led(dot);
    lemma_led(name);
    lemma_led(other);
    lemma_steps_behind(a, b);
    lemma_steps_behind(a, e);
    lemma_steps_behind(a, dot);
    lemma_steps_behind(a + slash, b);
    lemma_steps_behind(a + slash + dot, b);
    lemma_steps_behind(a, name);
    lemma_steps_behind(a, other);
    assert(a + slash + e =~= a + slash);
    assert(a + slash + slash + b =~= a + seq!['/', '/'] + b);
    assert(a + slash + dot =~= a + seq!['/', '.']);
    assert(a + slash + dot + slash + b =~= a + seq!['/', '.', '/'] + b);
    assert(steps(a) + Seq::<Seq<char>>::empty() =~= steps(a));
    assert(steps(a + slash + name).len() == steps(a).len() + 1);
    assert(steps(a + slash + name).last() == name);
    assert(steps(a + slash + other).last() == other);
    assert((a + slash + name)[0] == a[0]);
    assert((a + slash + other)[0] == a[0]);
    assert((a + seq!['/', '/'] + b)[0] == a[0]);
    assert((a + seq!['/', '.', '/'] + b)[0] == a[0]);
    assert((a + slash + b)[0] == a[0]);
    assert((a + slash)[0] == a[0]);
    assert((a + seq!['/', '.'])[0] == a[0]);
    assert((slash + a)[0] == '/');
}

} // verus!
