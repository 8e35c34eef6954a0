//! Permissions that were granted at a workspace's root and belong to none of its
//! repos. They would be lost when the workspace goes, so they are captured for
//! the user to give to a repo or to dismiss.

use vstd::prelude::*;

use crate::claude_local;
use crate::claude_settings;
use crate::claude_settings::{EntryView, PermissionCategory, PermissionEntry, SettingsDoc};
use crate::error::AppError;
use crate::ids;
use crate::json::JsonView;
use crate::list;
use crate::text;

verus! {

/// A permission that waits for the user.
#[derive(Debug)]
pub struct PendingPermission {
    pub id: String,
    pub workspace_id: String,
    pub workspace_branch: String,
    /// The repos that the workspace had.
    pub workspace_repo_keys: Vec<String>,
    pub captured_at: i64,
    pub category: PermissionCategory,
    /// The permission as it stood at the workspace root.
    pub raw_entry: String,
    /// The repo whose directory its path is below.
    pub suggested_repo_key: Option<String>,
    /// The permission as it reads from that repo.
    pub stripped_entry: Option<String>,
}

#[derive(Debug)]
pub struct PendingPermissionsFile {
    pub entries: Vec<PendingPermission>,
}

impl Default for PendingPermissionsFile {
    fn default() -> (r: Self)
        ensures
            r.entries@ == Seq::<PendingPermission>::empty(),
    {
        PendingPermissionsFile { entries: Vec::new() }
    }
}

/// Whether a repo's own settings account for a permission at the root.
pub open spec fn is_expected(
    keys: Seq<Seq<char>>,
    repos: Seq<Seq<(Seq<char>, JsonView)>>,
    field: Seq<char>,
    raw: Seq<char>,
) -> bool {
    exists|i: int, k: int|
        0 <= i < keys.len() && 0 <= k < claude_settings::granted(repos[i], field).len()
            && claude_local::from_root(
            #[trigger] claude_settings::granted(repos[i], field)[k],
            keys[i],
        ) == raw
}

/// The permissions of one list that no repo accounts for, in their order.
pub open spec fn extra(
    keys: Seq<Seq<char>>,
    repos: Seq<Seq<(Seq<char>, JsonView)>>,
    field: Seq<char>,
    at_root: Seq<Seq<char>>,
) -> Seq<Seq<char>>
    decreases at_root.len(),
{
    if at_root.len() == 0 {
        seq![]
    } else {
        let before = extra(keys, repos, field, at_root.drop_last());
        if is_expected(keys, repos, field, at_root.last()) {
            before
        } else {
            before.push(at_root.last())
        }
    }
}

/// A permission of a list.
pub open spec fn in_category(category: PermissionCategory, all: Seq<Seq<char>>) -> Seq<
    (PermissionCategory, Seq<char>),
> {
    all.map_values(|t: Seq<char>| (category, t))
}

/// Every permission at the root that no repo accounts for.
pub open spec fn captured(
    keys: Seq<Seq<char>>,
    repos: Seq<Seq<(Seq<char>, JsonView)>>,
    root: Seq<(Seq<char>, JsonView)>,
) -> Seq<(PermissionCategory, Seq<char>)> {
    in_category(
        PermissionCategory::Allow,
        extra(keys, repos, "allow"@, claude_settings::granted(root, "allow"@)),
    ) + in_category(
        PermissionCategory::Deny,
        extra(keys, repos, "deny"@, claude_settings::granted(root, "deny"@)),
    ) + in_category(
        PermissionCategory::Ask,
        extra(keys, repos, "ask"@, claude_settings::granted(root, "ask"@)),
    )
}

/// The repo that a permission is suggested for, and how it reads from there.
pub open spec fn suggestion(t: Seq<char>, keys: Seq<Seq<char>>) -> Option<(Seq<char>, Seq<char>)> {
    let e = claude_settings::entry_of(t);
    match claude_settings::scope_of(e, keys) {
        Some(i) => Some(
            (keys[i], claude_settings::entry_text(claude_settings::unscoped(e, keys[i]))),
        ),
        None => None,
    }
}

/// Whether an entry was captured for this permission.
pub open spec fn captures(
    p: PendingPermission,
    of: (PermissionCategory, Seq<char>),
    keys: Seq<Seq<char>>,
    workspace_id: Seq<char>,
    workspace_branch: Seq<char>,
    now: i64,
) -> bool {
    &&& p.id@.len() == 36
    &&& p.workspace_id@ == workspace_id
    &&& p.workspace_branch@ == workspace_branch
    &&& text::views(p.workspace_repo_keys@) == keys
    &&& p.captured_at == now
    &&& p.category == of.0
    &&& p.raw_entry@ == of.1
    &&& match suggestion(of.1, keys) {
        Some((key, stripped)) => text::maybe(p.suggested_repo_key) == Some(key) && text::maybe(
            p.stripped_entry,
        ) == Some(stripped),
        None => p.suggested_repo_key is None && p.stripped_entry is None,
    }
}

fn expects_in(repo: &SettingsDoc, key: &str, category: PermissionCategory, raw: &str) -> (r: bool)
    ensures
        r == exists|k: int|
            0 <= k < claude_settings::granted(repo@, category.field()).len()
                && claude_local::from_root(
                #[trigger] claude_settings::granted(repo@, category.field())[k],
                key@,
            ) == raw@,
{
    let ghost all = claude_settings::granted(repo@, category.field());
    let entries = repo.permissions(category);
    assert(claude_settings::entries(entries@).len() == entries@.len());
    let mut i: usize = 0;
    while i < entries.len()
        invariant
            i <= entries.len(),
            entries@.len() == all.len(),
            all == claude_settings::granted(repo@, category.field()),
            claude_settings::entries(entries@) == all.map_values(
                |t: Seq<char>| claude_settings::entry_of(t),
            ),
            forall|k: int|
                0 <= k < i ==> claude_local::from_root(#[trigger] all[k], key@) != raw@,
        decreases entries.len() - i,
    {
        assert(claude_settings::entries(entries@)[i as int] == entries@[i as int]@);
        assert(entries@[i as int]@ == claude_settings::entry_of(all[i as int]));
        if text::same(&entries[i].scoped_to_repo(key).to_text(), raw) {
            assert(claude_local::from_root(all[i as int], key@) == raw@);
            return true;
        }
        i = i + 1;
    }
    false
}

fn expects(
    repo_keys: &[String],
    repo_docs: &[SettingsDoc],
    category: PermissionCategory,
    raw: &str,
) -> (r: bool)
    requires
        repo_keys.len() == repo_docs.len(),
    ensures
        r == is_expected(
            text::views(repo_keys@),
            claude_local::documents(repo_docs@),
            category.field(),
            raw@,
        ),
{
    let ghost keys = text::views(repo_keys@);
    let ghost docs = claude_local::documents(repo_docs@);
    let mut i: usize = 0;
    while i < repo_keys.len()
        invariant
            i <= repo_keys.len(),
            repo_keys.len() == repo_docs.len(),
            keys == text::views(repo_keys@),
            docs == claude_local::documents(repo_docs@),
            forall|j: int, k: int|
                0 <= j < i && 0 <= k < claude_settings::granted(docs[j], category.field()).len()
                    ==> claude_local::from_root(
                    #[trigger] claude_settings::granted(docs[j], category.field())[k],
                    keys[j],
                ) != raw@,
        decreases repo_keys.len() - i,
    {
        assert(keys[i as int] == repo_keys@[i as int]@);
        assert(docs[i as int] == repo_docs@[i as int]@);
        if expects_in(&repo_docs[i], &repo_keys[i], category, raw) {
            return true;
        }
        i = i + 1;
    }
    false
}

/// Whether the entries were captured for these permissions.
pub open spec fn all_capture(
    v: Seq<PendingPermission>,
    of: Seq<(PermissionCategory, Seq<char>)>,
    keys: Seq<Seq<char>>,
    workspace_id: Seq<char>,
    workspace_branch: Seq<char>,
    now: i64,
) -> bool {
    v.len() == of.len() && forall|k: int|
        0 <= k < v.len() ==> captures(
            #[trigger] v[k],
            of[k],
            keys,
            workspace_id,
            workspace_branch,
            now,
        )
}

fn capture_list(
    r: &mut Vec<PendingPermission>,
    category: PermissionCategory,
    workspace_id: &str,
    workspace_branch: &str,
    repo_keys: &[String],
    repo_docs: &[SettingsDoc],
    combined: &SettingsDoc,
    now: i64,
    Ghost(done): Ghost<Seq<(PermissionCategory, Seq<char>)>>,
)
    requires
        repo_keys.len() == repo_docs.len(),
        all_capture(
            old(r)@,
            done,
            text::views(repo_keys@),
            workspace_id@,
            workspace_branch@,
            now,
        ),
    ensures
        all_capture(
            final(r)@,
            done + in_category(
                category,
                extra(
                    text::views(repo_keys@),
                    claude_local::documents(repo_docs@),
                    category.field(),
                    claude_settings::granted(combined@, category.field()),
                ),
            ),
            text::views(repo_keys@),
            workspace_id@,
            workspace_branch@,
            now,
        ),
{
    let ghost keys = text::views(repo_keys@);
    let ghost docs = claude_local::documents(repo_docs@);
    let ghost all = claude_settings::granted(combined@, category.field());
    let entries = combined.permissions(category);
    assert(claude_settings::entries(entries@).len() == entries@.len());
    let mut i: usize = 0;
    assert(all.take(0).len() == 0);
    assert(done + in_category(category, extra(keys, docs, category.field(), all.take(0)))
        =~= done);
    while i < entries.len()
        invariant
            i <= entries.len(),
            entries@.len() == all.len(),
            repo_keys.len() == repo_docs.len(),
            keys == text::views(repo_keys@),
            docs == claude_local::documents(repo_docs@),
            claude_settings::entries(entries@) == all.map_values(
                |t: Seq<char>| claude_settings::entry_of(t),
            ),
            all_capture(
                r@,
                done + in_category(
                    category,
                    extra(keys, docs, category.field(), all.take(i as int)),
                ),
                keys,
                workspace_id@,
                workspace_branch@,
                now,
            ),
        decreases entries.len() - i,
    {
        let ghost t = all[i as int];
        let ghost had = extra(keys, docs, category.field(), all.take(i as int));
        proof {
            assert(claude_settings::entries(entries@)[i as int] == entries@[i as int]@);
            assert(entries@[i as int]@ == claude_settings::entry_of(t));
            claude_settings::parsing_round_trips(t);
            assert(all.take(i + 1).drop_last() =~= all.take(i as int));
            assert(all.take(i + 1).last() == t);
        }
        let entry = &entries[i];
        let raw = entry.to_text();
        if !expects(repo_keys, repo_docs, category, &raw) {
            let (suggested_repo_key, stripped_entry) = match entry.unscope(repo_keys) {
                Some((key, stripped)) => (Some(key), Some(stripped.to_text())),
                None => (None, None),
            };
            let p = PendingPermission {
                id: ids::fresh_id(),
                workspace_id: workspace_id.to_owned(),
                workspace_branch: workspace_branch.to_owned(),
                workspace_repo_keys: text::copies(repo_keys),
                captured_at: now,
                category,
                raw_entry: raw,
                suggested_repo_key,
                stripped_entry,
            };
            proof {
                list::lemma_first_where(
                    keys,
                    |k: Seq<char>| claude_settings::below(claude_settings::entry_of(t), k) is Some,
                );
                assert(captures(p, (category, t), keys, workspace_id@, workspace_branch@, now));
                assert(in_category(category, had.push(t)) =~= in_category(category, had).push(
                    (category, t),
                ));
                assert(done + in_category(category, had.push(t)) =~= (done + in_category(
                    category,
                    had,
                )).push((category, t)));
            }
            r.push(p);
        }
        i = i + 1;
    }
    assert(all.take(i as int) =~= all);
}

/// Capture the permissions of a workspace that is about to go which none of its
/// repos' settings account for.
pub fn capture_for_purge(
    workspace_id: &str,
    workspace_branch: &str,
    repo_keys: &[String],
    repo_docs: &[SettingsDoc],
    combined: &SettingsDoc,
    now: i64,
) -> (r: Vec<PendingPermission>)
    requires
        repo_keys.len() == repo_docs.len(),
    ensures
        all_capture(
            r@,
            captured(text::views(repo_keys@), claude_local::documents(repo_docs@), combined@),
            text::views(repo_keys@),
            workspace_id@,
            workspace_branch@,
            now,
        ),
{
    let ghost keys = text::views(repo_keys@);
    let ghost docs = claude_local::documents(repo_docs@);
    let ghost none: Seq<(PermissionCategory, Seq<char>)> = seq![];
    let mut r: Vec<PendingPermission> = Vec::new();
    let ghost a = in_category(
        PermissionCategory::Allow,
        extra(keys, docs, "allow"@, claude_settings::granted(combined@, "allow"@)),
    );
    let ghost d = in_category(
        PermissionCategory::Deny,
        extra(keys, docs, "deny"@, claude_settings::granted(combined@, "deny"@)),
    );
    capture_list(
        &mut r,
        PermissionCategory::Allow,
        workspace_id,
        workspace_branch,
        repo_keys,
        repo_docs,
        combined,
        now,
        Ghost(none),
    );
    assert(none + a =~= a);
    capture_list(
        &mut r,
        PermissionCategory::Deny,
        workspace_id,
        workspace_branch,
        repo_keys,
        repo_docs,
        combined,
        now,
        Ghost(a),
    );
    capture_list(
        &mut r,
        PermissionCategory::Ask,
        workspace_id,
        workspace_branch,
        repo_keys,
        repo_docs,
        combined,
        now,
        Ghost(a + d),
    );
    r
}

/// Put what was captured behind what waits already. Says whether the file
/// changed.
pub fn park(file: &mut PendingPermissionsFile, new: Vec<PendingPermission>) -> (r: bool)
    ensures
        final(file).entries@ == old(file).entries@ + new@,
        r == (new@.len() > 0),
{
    let mut new = new;
    let any = new.len() > 0;
    file.entries.append(&mut new);
    any
}

/// Where the entry with an id stands.
pub open spec fn entry_at(entries: Seq<PendingPermission>, id: Seq<char>) -> Option<int> {
    list::first_where(entries, |e: PendingPermission| e.id@ == id)
}

/// What is said when no entry has the id.
pub open spec fn unknown_permission(id: Seq<char>) -> Seq<char> {
    "pending permission '"@ + id + "' not found"@
}

fn unknown(id: &str) -> (r: AppError)
    ensures
        r.says(unknown_permission(id@)),
{
    AppError::Other(text::cat3("pending permission '", id, "' not found"))
}

/// Find the entry with an id.
pub fn find_pending(file: &PendingPermissionsFile, id: &str) -> (r: Result<usize, AppError>)
    ensures
        match entry_at(file.entries@, id@) {
            Some(i) => r matches Ok(k) && k == i && k < file.entries.len(),
            None => r matches Err(e) && e.says(unknown_permission(id@)),
        },
{
    let is = |x: &PendingPermission| -> (b: bool)
        ensures
            b == (x.id@ == id@),
        { text::same(&x.id, id) };
    let at: Option<usize> = list::position(
        &file.entries,
        is,
        Ghost(|e: PendingPermission| e.id@ == id@),
    );
    match at {
        Some(i) => Ok(i),
        None => Err(unknown(id)),
    }
}

/// The permission as a repo's settings get it: without the repo's own key where
/// the repo is the suggested one, and as it stood at the root for any other.
pub open spec fn applied_text(p: PendingPermission, target: Seq<char>) -> Seq<char> {
    if text::maybe(p.suggested_repo_key) == Some(target) && p.stripped_entry is Some {
        p.stripped_entry->0@
    } else {
        p.raw_entry@
    }
}

/// Give a permission to a repo. Says whether the repo's settings changed.
pub fn write_into_per_repo_file(doc: &mut SettingsDoc, entry: &PendingPermission, target: &str) -> (r:
    bool)
    requires
        old(doc).wf(),
    ensures
        final(doc).wf(),
        final(doc)@ == claude_settings::with_permission(
            old(doc)@,
            entry.category.field(),
            applied_text(*entry, target@),
        ),
        r == (final(doc)@ != old(doc)@),
{
    let suggested = match &entry.suggested_repo_key {
        Some(k) => text::same(k, target),
        None => false,
    };
    let to_write = match &entry.stripped_entry {
        Some(s) => if suggested {
            s
        } else {
            &entry.raw_entry
        },
        None => &entry.raw_entry,
    };
    proof {
        claude_settings::parsing_round_trips(to_write@);
    }
    doc.add_permission(entry.category, &PermissionEntry::parse(to_write))
}

/// Take a permission from the list, once it was given to the repos.
pub fn apply_pending(file: &mut PendingPermissionsFile, pending_id: &str) -> (r: Result<
    (),
    AppError,
>)
    ensures
        match entry_at(old(file).entries@, pending_id@) {
            Some(i) => r is Ok && final(file).entries@ == old(file).entries@.remove(i),
            None => final(file).entries@ == old(file).entries@ && (r matches Err(e) && e.says(
                unknown_permission(pending_id@),
            )),
        },
{
    match find_pending(file, pending_id) {
        Ok(i) => {
            file.entries.remove(i);
            Ok(())
        },
        Err(e) => Err(e),
    }
}

/// Drop a permission that the user does not want.
pub fn dismiss_pending(file: &mut PendingPermissionsFile, pending_id: &str) -> (r: Result<
    (),
    AppError,
>)
    ensures
        final(file).entries@ == old(file).entries@.filter(
            |e: PendingPermission| e.id@ != pending_id@,
        ),
        match entry_at(old(file).entries@, pending_id@) {
            Some(_) => r is Ok,
            None => r matches Err(e) && e.says(unknown_permission(pending_id@)),
        },
{
    let found = find_pending(file, pending_id);
    let other = |x: &PendingPermission| -> (b: bool)
        ensures
            b == (x.id@ != pending_id@),
        { !text::same(&x.id, pending_id) };
    list::keep(
        &mut file.entries,
        other,
        Ghost(|e: PendingPermission| e.id@ != pending_id@),
    );
    match found {
        Ok(_) => Ok(()),
        Err(e) => Err(e),
    }
}

/// A permission that was given to the repo it was suggested for is accounted for
/// from then on: from the root that repo's entry reads as it was captured, so it
/// is not captured again.
pub proof fn what_was_applied_is_expected(
    t: Seq<char>,
    keys: Seq<Seq<char>>,
    repos: Seq<Seq<(Seq<char>, JsonView)>>,
    category: PermissionCategory,
    i: int,
)
    requires
        keys.len() == repos.len(),
        claude_settings::scope_of(claude_settings::entry_of(t), keys) == Some(i),
    ensures
        suggestion(t, keys) matches Some((key, stripped)) && key == keys[i]
            && claude_local::from_root(stripped, key) == t && is_expected(
            keys,
            repos.update(
                i,
                claude_settings::with_permission(repos[i], category.field(), stripped),
            ),
            category.field(),
            t,
        ),
{
    let e = claude_settings::entry_of(t);
    list::lemma_first_where(keys, |k: Seq<char>| claude_settings::below(e, k) is Some);
    let key = keys[i];
    let u = claude_settings::unscoped(e, key);
    let stripped = claude_settings::entry_text(u);
    reveal_strlit("./");
    lemma_reads_back(t, u);
    let rest = claude_settings::below(e, key)->0;
    let a = e.arg->0;
    let ua = u.arg->0;
    assert("./"@.is_prefix_of(ua));
    assert(ua.skip("./"@.len() as int) =~= rest);
    assert("./"@ + key + "/"@ + rest =~= a) by {
        let s = a.skip("./"@.len() as int);
        assert(a =~= "./"@ + s);
        assert(s =~= (key + "/"@) + rest);
    }
    assert(claude_settings::scoped(u, key) =~= e);
    claude_settings::parsing_round_trips(t);
    let doc = claude_settings::with_permission(repos[i], category.field(), stripped);
    let other = if category == PermissionCategory::Allow {
        PermissionCategory::Deny
    } else {
        PermissionCategory::Allow
    };
    reveal_strlit("permissions");
    reveal_strlit("sandbox");
    assert("sandbox"@.len() != "permissions"@.len());
    claude_settings::adding_a_permission(repos[i], category, other, stripped, "sandbox"@);
    let had = claude_settings::granted(repos[i], category.field());
    let has = claude_settings::granted(doc, category.field());
    assert(has.contains(stripped)) by {
        if !had.contains(stripped) {
            assert(has[had.len() as int] == stripped);
        }
    }
    let k = choose|k: int| 0 <= k < has.len() && has[k] == stripped;
    let now = repos.update(i, doc);
    assert(now[i] == doc);
    assert(claude_local::from_root(
        claude_settings::granted(now[i], category.field())[k],
        keys[i],
    ) == t);
}

/// What was read from a text and had its path shortened reads back as it is.
proof fn lemma_reads_back(t: Seq<char>, u: EntryView)
    requires
        ({
            let e = claude_settings::entry_of(t);
            e.arg is Some && u.tool == e.tool && u.suffix == e.suffix && u.arg is Some
                && u.arg->0.len() > 0
        }),
    ensures
        claude_settings::entry_of(claude_settings::entry_text(u)) == u,
{
    text::lemma_find_char_bounds(t, '(');
    text::lemma_rfind_char(t, ')');
    let s = claude_settings::entry_text(u);
    let open = u.tool.len() as int;
    let close = open + 1 + u.arg->0.len();
    assert(s[open] == '(');
    assert(s[close] == ')');
    let open0 = text::find_char(t, '(');
    assert forall|k: int| 0 <= k < open implies s[k] != '(' by {
        assert(s[k] == u.tool[k]);
        assert(u.tool[k] == t[k]);
    }
    text::lemma_find_char(s, '(', open);
    text::lemma_rfind_char(s, ')');
    let last = text::rfind_char(s, ')')->0;
    if last > close {
        assert(s[last] == u.suffix[last - close - 1]);
        let close0 = text::rfind_char(t, ')')->0;
        assert(u.suffix[last - close - 1] == t[close0 + 1 + (last - close - 1)]);
    }
    assert(claude_settings::entry_of(s) =~= u);
}

proof fn lemma_extra(
    keys: Seq<Seq<char>>,
    repos: Seq<Seq<(Seq<char>, JsonView)>>,
    field: Seq<char>,
    at_root: Seq<Seq<char>>,
    t: Seq<char>,
)
    ensures
        extra(keys, repos, field, at_root).contains(t) <==> at_root.contains(t) && !is_expected(
            keys,
            repos,
            field,
            t,
        ),
    decreases at_root.len(),
{
    if at_root.len() > 0 {
        let rest = at_root.drop_last();
        lemma_extra(keys, repos, field, rest, t);
        let before = extra(keys, repos, field, rest);
        let all = extra(keys, repos, field, at_root);
        if rest.contains(t) {
            let i = choose|i: int| 0 <= i < rest.len() && rest[i] == t;
            assert(at_root[i] == t);
        }
        if at_root.contains(t) && at_root.last() != t {
            let i = choose|i: int| 0 <= i < at_root.len() && at_root[i] == t;
            assert(rest[i] == t);
        }
        if before.contains(t) {
            let i = choose|i: int| 0 <= i < before.len() && before[i] == t;
            assert(all[i] == t);
        }
        if !is_expected(keys, repos, field, at_root.last()) {
            assert(all[before.len() as int] == at_root.last());
            if all.contains(t) && t != at_root.last() {
                let i = choose|i: int| 0 <= i < all.len() && all[i] == t;
                assert(before[i] == t);
            }
        }
    }
}

/// What is captured is what the workspace's settings grant and none of its repos does:
/// every such grant, in the list that it stands in, and nothing else.
pub proof fn what_no_repo_grants_is_captured(
    keys: Seq<Seq<char>>,
    repos: Seq<Seq<(Seq<char>, JsonView)>>,
    root: Seq<(Seq<char>, JsonView)>,
    category: PermissionCategory,
    t: Seq<char>,
)
    ensures
        captured(keys, repos, root).contains((category, t)) <==> claude_settings::granted(
            root,
            category.field(),
        ).contains(t) && forall|i: int, k: int|
            0 <= i < keys.len() && 0 <= k < claude_settings::granted(
                repos[i],
                category.field(),
            ).len() ==> claude_local::from_root(
                #[trigger] claude_settings::granted(repos[i], category.field())[k],
                keys[i],
            ) != t,
{
    let field = category.field();
    let a = extra(keys, repos, "allow"@, claude_settings::granted(root, "allow"@));
    let d = extra(keys, repos, "deny"@, claude_settings::granted(root, "deny"@));
    let q = extra(keys, repos, "ask"@, claude_settings::granted(root, "ask"@));
    let all = captured(keys, repos, root);
    let own = extra(keys, repos, field, claude_settings::granted(root, field));
    lemma_extra(keys, repos, field, claude_settings::granted(root, field), t);
    let from: int = match category {
        PermissionCategory::Allow => 0,
        PermissionCategory::Deny => a.len() as int,
        PermissionCategory::Ask => (a.len() + d.len()) as int,
    };
    if own.contains(t) {
        let i = choose|i: int| 0 <= i < own.len() && own[i] == t;
        assert(all[from + i] == (category, t));
    }
    if all.contains((category, t)) {
        let i = choose|i: int| 0 <= i < all.len() && all[i] == (category, t);
        if i < a.len() {
            assert(all[i] == (PermissionCategory::Allow, a[i]));
        } else if i < a.len() + d.len() {
            assert(all[i] == (PermissionCategory::Deny, d[i - a.len()]));
        } else {
            assert(all[i] == (PermissionCategory::Ask, q[i - a.len() - d.len()]));
        }
        assert(own[i - from] == t);
    }
}

/// A grant below the directory of one of the workspace's repos is suggested for that
/// repo, as the repo itself would grant it; one that is below none of them is suggested
/// for none.
pub proof fn a_grant_is_suggested_for_its_repo(
    tool: Seq<char>,
    key: Seq<char>,
    rest: Seq<char>,
    suffix: Seq<char>,
    keys: Seq<Seq<char>>,
)
    requires
        !tool.contains('('),
        !suffix.contains(')'),
        !key.contains('/'),
        forall|k: int| 0 <= k < keys.len() ==> !(#[trigger] keys[k]).contains('/'),
    ensures
        suggestion(
            tool + seq!['('] + ("./"@ + key + "/"@ + rest) + seq![')'] + suffix,
            keys,
        ) == (if keys.contains(key) {
            Some((key, tool + seq!['('] + ("./"@ + rest) + seq![')'] + suffix))
        } else {
            None
        }),
        suggestion(tool, keys) is None,
{
    reveal_strlit("./");
    reveal_strlit("/");
    let arg = "./"@ + key + "/"@ + rest;
    let t = tool + seq!['('] + arg + seq![')'] + suffix;
    claude_settings::an_entry_has_its_parts(tool, arg, suffix);
    let e = claude_settings::entry_of(t);
    claude_settings::the_first_directory_is_the_scope(e, keys);
    claude_settings::the_first_directory_is_the_scope(claude_settings::entry_of(tool), keys);
    claude_settings::an_entry_moves_with_its_directory(e, key, rest);
    let n = ("./"@ + key + "/"@).len() as int;
    assert(arg.take(n) =~= "./"@ + key + "/"@);
    assert forall|k: int| 0 <= k < keys.len() && ("./"@ + #[trigger] keys[k] + "/"@).is_prefix_of(
        arg,
    ) implies keys[k] == key by {
        let p = "./"@ + keys[k] + "/"@;
        let m = keys[k].len() as int;
        assert forall|i: int| 0 <= i < p.len() implies p[i] == arg[i] by {
            assert(p[i] == arg.take(p.len() as int)[i]);
        }
        assert(p[2 + m] == '/');
        assert(arg[2 + key.len() as int] == '/');
        if m < key.len() {
            assert(arg[2 + m] == key[m]);
            assert(key.contains(key[m]));
        } else if m > key.len() {
            assert(p[2 + key.len() as int] == keys[k][key.len() as int]);
            assert(keys[k].contains(keys[k][key.len() as int]));
        }
        assert(keys[k] =~= key) by {
            assert forall|i: int| 0 <= i < m implies keys[k][i] == key[i] by {
                assert(p[2 + i] == keys[k][i]);
                assert(arg[2 + i] == key[i]);
            }
        }
    }
    if keys.contains(key) {
        let k = choose|k: int| 0 <= k < keys.len() && keys[k] == key;
        assert(("./"@ + keys[k] + "/"@).is_prefix_of(arg));
    } else if let Some(i) = claude_settings::scope_of(e, keys) {
        assert(("./"@ + keys[i] + "/"@).is_prefix_of(arg));
        assert(keys.contains(keys[i]));
    }
    assert(claude_settings::scope_of(claude_settings::entry_of(tool), keys) is None);
}

/// A permission that is given to the repo it was suggested for is written as that repo
/// would, and to any other as it was captured.
pub proof fn a_grant_is_written_as_its_repo_would(p: PendingPermission, target: Seq<char>)
    ensures
        p.suggested_repo_key is Some && p.suggested_repo_key->0@ == target && p.stripped_entry
            is Some ==> applied_text(p, target) == p.stripped_entry->0@,
        p.suggested_repo_key is None || p.suggested_repo_key->0@ != target || p.stripped_entry
            is None ==> applied_text(p, target) == p.raw_entry@,
{
}

/// What is captured of a permission says which workspace it was of and where it stood
/// there, and is suggested for a repo of that workspace or for none.
pub proof fn a_capture_tells_where_it_is_from(
    v: Seq<PendingPermission>,
    of: Seq<(PermissionCategory, Seq<char>)>,
    keys: Seq<Seq<char>>,
    workspace_id: Seq<char>,
    workspace_branch: Seq<char>,
    now: i64,
    k: int,
)
    requires
        all_capture(v, of, keys, workspace_id, workspace_branch, now),
        0 <= k < v.len(),
    ensures
        v.len() == of.len(),
        v[k].workspace_id@ == workspace_id && v[k].workspace_branch@ == workspace_branch,
        v[k].category == of[k].0 && v[k].raw_entry@ == of[k].1 && v[k].captured_at == now,
        v[k].suggested_repo_key is Some <==> v[k].stripped_entry is Some,
        v[k].suggested_repo_key is Some ==> keys.contains(v[k].suggested_repo_key->0@)
            && claude_local::from_root(v[k].stripped_entry->0@, v[k].suggested_repo_key->0@)
            == v[k].raw_entry@,
{
    assert(captures(v[k], of[k], keys, workspace_id, workspace_branch, now));
    let e = claude_settings::entry_of(of[k].1);
    if let Some(i) = claude_settings::scope_of(e, keys) {
        claude_settings::the_first_directory_is_the_scope(e, keys);
        assert(keys.contains(keys[i]));
        let repos = Seq::new(keys.len(), |j: int| Seq::<(Seq<char>, JsonView)>::empty());
        what_was_applied_is_expected(of[k].1, keys, repos, of[k].0, i);
    }
}

} // verus!
