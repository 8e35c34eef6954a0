//! The settings files that a workspace's sessions read: one shared by all
//! worktrees of a repo, and one at the workspace root that is seeded from those.

use vstd::prelude::*;

use crate::agent::AgentName;
use crate::claude_settings;
use crate::claude_settings::{PermissionCategory, SettingsDoc};
use crate::json;
use crate::json::{Json, JsonView};
use crate::paths;
use crate::paths::Paths;
use crate::text;

verus! {

/// Marks a workspace's own settings file as seeded.
pub const SEEDED_MARKER: &'static str = "tethys (seeded on workspace create; safe to edit)";

/// Bring a repo's shared settings up to date: sessions may write to the git
/// directory of its clone, where all its worktrees keep their metadata, and no
/// longer to all clones.
pub fn seed_shared(shared: &mut SettingsDoc, repo_key: &str, paths: &Paths)
    requires
        old(shared).wf(),
    ensures
        final(shared).wf(),
        final(shared)@ == claude_settings::with_write(
            claude_settings::without_write(old(shared)@, paths.entry("repos"@)),
            paths::join(paths.clone_of(repo_key@), ".git"@),
        ),
{
    shared.revoke_write(&paths.repos_clone_dir());
    shared.allow_write(&paths.repo_git_dir(repo_key));
}

/// How a worktree comes by its settings.
#[derive(Debug)]
pub enum SymlinkStep {
    /// There is a file already; it is left alone.
    Leave { status: String },
    Link { target: String, link: String, status: String },
}

/// Decide whether a worktree's settings become a link to the shared ones. A file
/// that is there stays: replacing it would discard what the repo tracks.
pub fn install_symlink(
    worktree_path: &str,
    paths: &Paths,
    repo_key: &str,
    name: &AgentName,
    occupied: bool,
) -> (r: SymlinkStep)
    ensures
        if occupied {
            r matches SymlinkStep::Leave { status } && status@
                == "settings.local.json already present; leaving as-is"@
        } else {
            r matches SymlinkStep::Link { target, link, status } && target@ == paths::join(
                paths::join(paths.entry("symlinks"@), repo_key@),
                "settings.local.json"@,
            ) && link@ == settings_in(worktree_path@, *name) && status@ == "linked "@ + name.dir()
                + "/settings.local.json -> "@ + target@
        },
{
    if occupied {
        return SymlinkStep::Leave {
            status: "settings.local.json already present; leaving as-is".to_owned(),
        };
    }
    let target = paths.repo_shared_claude_local(repo_key);
    let link = local_settings(worktree_path, name);
    let mut status = text::cat3("linked ", &name.settings_dir(), "/settings.local.json -> ");
    status.append(&target);
    SymlinkStep::Link { target, link, status }
}

/// Where a directory has its settings.
pub open spec fn settings_in(dir: Seq<char>, name: AgentName) -> Seq<char> {
    paths::join(paths::join(dir, name.dir()), "settings.local.json"@)
}

/// Where a directory has its settings.
pub fn local_settings(dir: &str, name: &AgentName) -> (r: String)
    ensures
        r@ == settings_in(dir@, *name),
{
    paths::joined(&paths::joined(dir, &name.settings_dir()), "settings.local.json")
}

/// How a repo's permission reads from the workspace root.
pub open spec fn from_root(t: Seq<char>, key: Seq<char>) -> Seq<char> {
    claude_settings::entry_text(claude_settings::scoped(claude_settings::entry_of(t), key))
}

/// The document with these permissions of a repo added to one list, in turn.
pub open spec fn merged_list(
    doc: Seq<(Seq<char>, JsonView)>,
    field: Seq<char>,
    granted: Seq<Seq<char>>,
    key: Seq<char>,
) -> Seq<(Seq<char>, JsonView)>
    decreases granted.len(),
{
    if granted.len() == 0 {
        doc
    } else {
        claude_settings::with_permission(
            merged_list(doc, field, granted.drop_last(), key),
            field,
            from_root(granted.last(), key),
        )
    }
}

/// The document with a repo's permissions added, list by list.
pub open spec fn merged_repo(
    doc: Seq<(Seq<char>, JsonView)>,
    key: Seq<char>,
    repo: Seq<(Seq<char>, JsonView)>,
) -> Seq<(Seq<char>, JsonView)> {
    let a = merged_list(doc, "allow"@, claude_settings::granted(repo, "allow"@), key);
    let d = merged_list(a, "deny"@, claude_settings::granted(repo, "deny"@), key);
    merged_list(d, "ask"@, claude_settings::granted(repo, "ask"@), key)
}

/// The document with the permissions of the first `n` repos added.
pub open spec fn merged_repos(
    doc: Seq<(Seq<char>, JsonView)>,
    keys: Seq<Seq<char>>,
    repos: Seq<Seq<(Seq<char>, JsonView)>>,
    n: int,
) -> Seq<(Seq<char>, JsonView)>
    decreases n,
{
    if n <= 0 {
        doc
    } else {
        merged_repo(merged_repos(doc, keys, repos, n - 1), keys[n - 1], repos[n - 1])
    }
}

/// The document in which sessions may write to the git directories of the first
/// `n` repos.
pub open spec fn writable(
    doc: Seq<(Seq<char>, JsonView)>,
    keys: Seq<Seq<char>>,
    paths: Paths,
    n: int,
) -> Seq<(Seq<char>, JsonView)>
    decreases n,
{
    if n <= 0 {
        doc
    } else {
        claude_settings::with_write(
            writable(doc, keys, paths, n - 1),
            paths::join(paths.clone_of(keys[n - 1]), ".git"@),
        )
    }
}

/// What the documents hold.
pub open spec fn documents(v: Seq<SettingsDoc>) -> Seq<Seq<(Seq<char>, JsonView)>> {
    v.map_values(|d: SettingsDoc| d@)
}

/// The marker as a value.
pub open spec fn marker() -> JsonView {
    JsonView::Str(SEEDED_MARKER@)
}

fn merge_list(root: &mut SettingsDoc, category: PermissionCategory, key: &str, repo: &SettingsDoc)
    requires
        old(root).wf(),
    ensures
        final(root).wf(),
        final(root)@ == merged_list(
            old(root)@,
            category.field(),
            claude_settings::granted(repo@, category.field()),
            key@,
        ),
{
    let ghost before = root@;
    let ghost all = claude_settings::granted(repo@, category.field());
    let entries = repo.permissions(category);
    let mut i: usize = 0;
    assert(all.take(0).len() == 0);
    assert(entries@.len() == all.len()) by {
        assert(claude_settings::entries(entries@).len() == entries@.len());
    }
    while i < entries.len()
        invariant
            i <= entries.len(),
            entries@.len() == all.len(),
            root.wf(),
            claude_settings::entries(entries@) == all.map_values(
                |t: Seq<char>| claude_settings::entry_of(t),
            ),
            root@ == merged_list(before, category.field(), all.take(i as int), key@),
        decreases entries.len() - i,
    {
        assert(claude_settings::entries(entries@)[i as int] == entries@[i as int]@);
        assert(entries@[i as int]@ == claude_settings::entry_of(all[i as int]));
        root.add_permission(category, &entries[i].scoped_to_repo(key));
        assert(all.take(i + 1).drop_last() =~= all.take(i as int));
        assert(all.take(i + 1).last() == all[i as int]);
        i = i + 1;
    }
    assert(all.take(i as int) =~= all);
}

fn merge_repo(root: &mut SettingsDoc, key: &str, repo: &SettingsDoc)
    requires
        old(root).wf(),
    ensures
        final(root).wf(),
        final(root)@ == merged_repo(old(root)@, key@, repo@),
{
    merge_list(root, PermissionCategory::Allow, key, repo);
    merge_list(root, PermissionCategory::Deny, key, repo);
    merge_list(root, PermissionCategory::Ask, key, repo);
}

/// The settings that a new workspace is seeded with at its root: the permissions
/// of all its repos, and leave to write to their git directories. The repos come
/// in their order and their permissions in the order of their files.
pub fn write_workspace_root_settings(
    repo_keys: &[String],
    repo_docs: &[SettingsDoc],
    paths: &Paths,
) -> (r: SettingsDoc)
    requires
        repo_keys.len() == repo_docs.len(),
    ensures
        r.wf(),
        ({
            let keys = text::views(repo_keys@);
            let n = keys.len() as int;
            r@ == writable(
                merged_repos(seq![("_seededBy"@, marker())], keys, documents(repo_docs@), n),
                keys,
                *paths,
                n,
            )
        }),
{
    let ghost keys = text::views(repo_keys@);
    let ghost docs = documents(repo_docs@);
    let mut root = SettingsDoc::new();
    root.set("_seededBy", Json::Str(SEEDED_MARKER.to_owned()));
    assert(json::key_at(seq![], "_seededBy"@) is None);
    let ghost start = root@;
    assert(start =~= seq![("_seededBy"@, marker())]);
    let mut i: usize = 0;
    while i < repo_keys.len()
        invariant
            i <= repo_keys.len(),
            repo_keys.len() == repo_docs.len(),
            keys == text::views(repo_keys@),
            docs == documents(repo_docs@),
            root.wf(),
            root@ == merged_repos(start, keys, docs, i as int),
        decreases repo_keys.len() - i,
    {
        assert(keys[i as int] == repo_keys@[i as int]@);
        assert(docs[i as int] == repo_docs@[i as int]@);
        merge_repo(&mut root, &repo_keys[i], &repo_docs[i]);
        i = i + 1;
    }
    let ghost merged = root@;
    i = 0;
    while i < repo_keys.len()
        invariant
            i <= repo_keys.len(),
            keys == text::views(repo_keys@),
            root.wf(),
            root@ == writable(merged, keys, *paths, i as int),
        decreases repo_keys.len() - i,
    {
        assert(keys[i as int] == repo_keys@[i as int]@);
        root.allow_write(&paths.repo_git_dir(&repo_keys[i]));
        i = i + 1;
    }
    root
}

/// Extend a workspace's settings by a repo that was added to it. Nothing that is
/// there goes, but for a marker of old.
pub fn append_repo_to_workspace_root_settings(
    root: &mut SettingsDoc,
    repo_key: &str,
    repo: &SettingsDoc,
)
    requires
        old(root).wf(),
    ensures
        final(root).wf(),
        final(root)@ == json::without(
            json::with(merged_repo(old(root)@, repo_key@, repo@), "_seededBy"@, marker()),
            "_generatedBy"@,
        ),
{
    merge_repo(root, repo_key, repo);
    root.set("_seededBy", Json::Str(SEEDED_MARKER.to_owned()));
    root.remove("_generatedBy");
}

/// Merging a repo's permissions keeps every permission that was there, and every
/// field of the document that is not about permissions.
pub proof fn merging_keeps_what_is_there(
    doc: Seq<(Seq<char>, JsonView)>,
    key: Seq<char>,
    repo: Seq<(Seq<char>, JsonView)>,
    category: PermissionCategory,
    t: Seq<char>,
    field: Seq<char>,
)
    requires
        field != "permissions"@,
    ensures
        claude_settings::granted(doc, category.field()).contains(t) ==> claude_settings::granted(
            merged_repo(doc, key, repo),
            category.field(),
        ).contains(t),
        json::get(merged_repo(doc, key, repo), field) == json::get(doc, field),
{
    let allow = PermissionCategory::Allow;
    let deny = PermissionCategory::Deny;
    let ask = PermissionCategory::Ask;
    let a = merged_list(doc, allow.field(), claude_settings::granted(repo, allow.field()), key);
    let d = merged_list(a, deny.field(), claude_settings::granted(repo, deny.field()), key);
    lemma_merged_list(
        doc,
        allow,
        claude_settings::granted(repo, allow.field()),
        key,
        category,
        t,
        field,
    );
    lemma_merged_list(
        a,
        deny,
        claude_settings::granted(repo, deny.field()),
        key,
        category,
        t,
        field,
    );
    lemma_merged_list(
        d,
        ask,
        claude_settings::granted(repo, ask.field()),
        key,
        category,
        t,
        field,
    );
}

proof fn lemma_merged_list(
    doc: Seq<(Seq<char>, JsonView)>,
    into: PermissionCategory,
    granted: Seq<Seq<char>>,
    key: Seq<char>,
    category: PermissionCategory,
    t: Seq<char>,
    field: Seq<char>,
)
    requires
        field != "permissions"@,
    ensures
        claude_settings::granted(doc, category.field()).contains(t) ==> claude_settings::granted(
            merged_list(doc, into.field(), granted, key),
            category.field(),
        ).contains(t),
        json::get(merged_list(doc, into.field(), granted, key), field) == json::get(doc, field),
    decreases granted.len(),
{
    if granted.len() > 0 {
        let rest = granted.drop_last();
        lemma_merged_list(doc, into, rest, key, category, t, field);
        let before = merged_list(doc, into.field(), rest, key);
        let new = from_root(granted.last(), key);
        let other = if category != into {
            category
        } else if into == PermissionCategory::Allow {
            PermissionCategory::Deny
        } else {
            PermissionCategory::Allow
        };
        claude_settings::adding_a_permission(before, into, other, new, field);
        let had = claude_settings::granted(before, category.field());
        if had.contains(t) && category == into && !had.contains(new) {
            let i = choose|i: int| 0 <= i < had.len() && had[i] == t;
            assert(had.push(new)[i] == t);
        }
    }
}

/// What a repo grants below its own directory is granted below that directory seen from
/// the workspace; what it grants otherwise is granted as it is.
pub proof fn a_grant_is_seen_from_the_root(
    tool: Seq<char>,
    rest: Seq<char>,
    suffix: Seq<char>,
    key: Seq<char>,
    arg: Seq<char>,
)
    requires
        !tool.contains('('),
        !suffix.contains(')'),
        arg.len() > 0,
        !"./"@.is_prefix_of(arg),
    ensures
        from_root(tool + seq!['('] + ("./"@ + rest) + seq![')'] + suffix, key) == tool + seq!['(']
            + ("./"@ + key + "/"@ + rest) + seq![')'] + suffix,
        from_root(tool + seq!['('] + arg + seq![')'] + suffix, key) == tool + seq!['('] + arg
            + seq![')'] + suffix,
        from_root(tool, key) == tool,
{
    reveal_strlit("./");
    claude_settings::an_entry_has_its_parts(tool, "./"@ + rest, suffix);
    claude_settings::an_entry_has_its_parts(tool, arg, suffix);
    claude_settings::an_entry_moves_with_its_directory(
        claude_settings::entry_of(tool + seq!['('] + ("./"@ + rest) + seq![')'] + suffix),
        key,
        rest,
    );
    claude_settings::an_entry_moves_with_its_directory(
        claude_settings::entry_of(tool + seq!['('] + arg + seq![')'] + suffix),
        key,
        rest,
    );
    claude_settings::an_entry_moves_with_its_directory(claude_settings::entry_of(tool), key, rest);
}

proof fn lemma_list_grants(
    doc: Seq<(Seq<char>, JsonView)>,
    into: PermissionCategory,
    granted: Seq<Seq<char>>,
    key: Seq<char>,
    category: PermissionCategory,
    t: Seq<char>,
)
    ensures
        claude_settings::granted(
            merged_list(doc, into.field(), granted, key),
            category.field(),
        ).contains(t) <==> claude_settings::granted(doc, category.field()).contains(t) || (category
            == into && exists|k: int|
            0 <= k < granted.len() && from_root(#[trigger] granted[k], key) == t),
    decreases granted.len(),
{
    if granted.len() > 0 {
        let rest = granted.drop_last();
        lemma_list_grants(doc, into, rest, key, category, t);
        let before = merged_list(doc, into.field(), rest, key);
        let new = from_root(granted.last(), key);
        let other = if category != into {
            category
        } else if into == PermissionCategory::Allow {
            PermissionCategory::Deny
        } else {
            PermissionCategory::Allow
        };
        reveal_strlit("permissions");
        reveal_strlit("allow");
        assert("allow"@.len() != "permissions"@.len());
        claude_settings::adding_a_permission(before, into, other, new, "allow"@);
        let had = claude_settings::granted(before, category.field());
        if exists|k: int| 0 <= k < rest.len() && from_root(#[trigger] rest[k], key) == t {
            let k = choose|k: int| 0 <= k < rest.len() && from_root(#[trigger] rest[k], key) == t;
            assert(from_root(granted[k], key) == t);
        }
        if exists|k: int| 0 <= k < granted.len() && from_root(#[trigger] granted[k], key) == t {
            let k = choose|k: int|
                0 <= k < granted.len() && from_root(#[trigger] granted[k], key) == t;
            if k < rest.len() {
                assert(from_root(rest[k], key) == t);
            }
        }
        assert(from_root(granted[granted.len() - 1], key) == new);
        if category == into && !had.contains(new) {
            let now = had.push(new);
            assert(now[had.len() as int] == new);
            if had.contains(t) {
                let i = choose|i: int| 0 <= i < had.len() && had[i] == t;
                assert(now[i] == t);
            }
            if now.contains(t) && t != new {
                let i = choose|i: int| 0 <= i < now.len() && now[i] == t;
                assert(had[i] == t);
            }
        }
    }
}

/// Merging a repo grants in each list what was granted before and what the repo grants
/// in that list, seen from the root, and nothing else.
pub proof fn merging_adds_what_the_repo_grants(
    doc: Seq<(Seq<char>, JsonView)>,
    key: Seq<char>,
    repo: Seq<(Seq<char>, JsonView)>,
    category: PermissionCategory,
    t: Seq<char>,
)
    ensures
        claude_settings::granted(merged_repo(doc, key, repo), category.field()).contains(t)
            <==> claude_settings::granted(doc, category.field()).contains(t) || exists|k: int|
            0 <= k < claude_settings::granted(repo, category.field()).len() && from_root(
                #[trigger] claude_settings::granted(repo, category.field())[k],
                key,
            ) == t,
{
    let allow = PermissionCategory::Allow;
    let deny = PermissionCategory::Deny;
    let ask = PermissionCategory::Ask;
    let a = merged_list(doc, allow.field(), claude_settings::granted(repo, allow.field()), key);
    let d = merged_list(a, deny.field(), claude_settings::granted(repo, deny.field()), key);
    lemma_list_grants(
        doc,
        allow,
        claude_settings::granted(repo, allow.field()),
        key,
        category,
        t,
    );
    lemma_list_grants(a, deny, claude_settings::granted(repo, deny.field()), key, category, t);
    lemma_list_grants(d, ask, claude_settings::granted(repo, ask.field()), key, category, t);
}

/// The settings of a workspace grant what each of its repos grants, seen from the root,
/// what was granted before, and nothing else.
pub proof fn the_root_grants_what_its_repos_grant(
    doc: Seq<(Seq<char>, JsonView)>,
    keys: Seq<Seq<char>>,
    repos: Seq<Seq<(Seq<char>, JsonView)>>,
    n: int,
    category: PermissionCategory,
    t: Seq<char>,
)
    requires
        0 <= n <= keys.len(),
        keys.len() == repos.len(),
    ensures
        claude_settings::granted(merged_repos(doc, keys, repos, n), category.field()).contains(t)
            <==> claude_settings::granted(doc, category.field()).contains(t) || exists|
            i: int,
            k: int,
        |
            0 <= i < n && 0 <= k < claude_settings::granted(repos[i], category.field()).len()
                && from_root(
                #[trigger] claude_settings::granted(repos[i], category.field())[k],
                keys[i],
            ) == t,
    decreases n,
{
    if n > 0 {
        the_root_grants_what_its_repos_grant(doc, keys, repos, n - 1, category, t);
        merging_adds_what_the_repo_grants(
            merged_repos(doc, keys, repos, n - 1),
            keys[n - 1],
            repos[n - 1],
            category,
            t,
        );
    }
}

/// The git directory of every repo's clone may be written to from the workspace, and
/// nothing loses that.
pub proof fn clones_may_be_written_to(
    doc: Seq<(Seq<char>, JsonView)>,
    keys: Seq<Seq<char>>,
    paths: Paths,
    n: int,
    x: Seq<char>,
)
    requires
        0 <= n <= keys.len(),
    ensures
        claude_settings::writes_in(writable(doc, keys, paths, n)).contains(JsonView::Str(x))
            <==> claude_settings::writes_in(doc).contains(JsonView::Str(x)) || exists|i: int|
            0 <= i < n && paths::join(paths.clone_of(#[trigger] keys[i]), ".git"@) == x,
    decreases n,
{
    if n > 0 {
        clones_may_be_written_to(doc, keys, paths, n - 1, x);
        let mine = paths::join(paths.clone_of(keys[n - 1]), ".git"@);
        let before = writable(doc, keys, paths, n - 1);
        if mine == x {
            claude_settings::one_directory_is_let_in(before, x, x.push('x'));
        } else {
            claude_settings::one_directory_is_let_in(before, mine, x);
        }
    }
}

/// The settings of an agent lie in its own directory.
pub proof fn where_settings_lie(dir: Seq<char>, name: AgentName)
    requires
        name.dir() != seq!['.'],
        paths::join(dir, name.dir()).len() > 0,
        paths::join(dir, name.dir()).last() != '/',
        !(paths::join(dir, name.dir()).len() >= 2 && paths::join(dir, name.dir()).last() == '.'
            && paths::join(dir, name.dir())[paths::join(dir, name.dir()).len() - 2] == '/'),
    ensures
        paths::file_name_of(settings_in(dir, name)) == Some("settings.local.json"@),
        paths::parent_of(settings_in(dir, name)) == Some(paths::join(dir, name.dir())),
{
    reveal_strlit("settings.local.json");
    assert(!"settings.local.json"@.contains('/') && "settings.local.json"@.len() == 19);
    paths::a_joined_path_comes_apart(paths::join(dir, name.dir()), "settings.local.json"@);
}

} // verus!
