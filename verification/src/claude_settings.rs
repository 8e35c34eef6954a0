//! The settings file that an agent reads its permissions from.
//!
//! Only single fields of it are ever edited: whatever else the user or the agent
//! keeps in the file stays as it is.

use vstd::prelude::*;

use crate::error::AppError;
use crate::json;
use crate::json::{Json, JsonView};
use crate::list;
use crate::text;

verus! {

/// The list that a permission belongs to.
#[derive(Debug, Clone, Copy, PartialEq, Eq, Structural)]
pub enum PermissionCategory {
    Allow,
    Deny,
    Ask,
}

impl PermissionCategory {
    /// Every category, in the order in which they are merged.
    pub const ALL: [PermissionCategory; 3] = [
        PermissionCategory::Allow,
        PermissionCategory::Deny,
        PermissionCategory::Ask,
    ];

    /// The name of the list in the file.
    pub open spec fn field(self) -> Seq<char> {
        match self {
            PermissionCategory::Allow => "allow"@,
            PermissionCategory::Deny => "deny"@,
            PermissionCategory::Ask => "ask"@,
        }
    }

    /// The name of the list in the file.
    pub fn as_field(&self) -> (r: &'static str)
        ensures
            r@ == self.field(),
    {
        match self {
            PermissionCategory::Allow => "allow",
            PermissionCategory::Deny => "deny",
            PermissionCategory::Ask => "ask",
        }
    }
}

/// One permission, such as `Read(./src/**)` or `mcp__server__tool`.
#[derive(Debug, PartialEq, Eq)]
pub struct PermissionEntry {
    /// What stands before the bracket, or all of it where there is no argument.
    pub tool: String,
    /// What stands between the brackets.
    pub arg: Option<String>,
    /// What follows the closing bracket.
    pub suffix: String,
}

/// A permission by the texts in it.
#[verifier::ext_equal]
pub struct EntryView {
    pub tool: Seq<char>,
    pub arg: Option<Seq<char>>,
    pub suffix: Seq<char>,
}

impl View for PermissionEntry {
    type V = EntryView;

    open spec fn view(&self) -> EntryView {
        EntryView { tool: self.tool@, arg: text::maybe(self.arg), suffix: self.suffix@ }
    }
}

/// The permission that a text stands for. One without brackets, or with nothing
/// between them, is a permission without an argument.
pub open spec fn entry_of(t: Seq<char>) -> EntryView {
    let open = text::find_char(t, '(');
    match text::rfind_char(t, ')') {
        Some(close) if open < t.len() && close > open + 1 => EntryView {
            tool: t.take(open),
            arg: Some(t.subrange(open + 1, close)),
            suffix: t.skip(close + 1),
        },
        _ => EntryView { tool: t, arg: None, suffix: seq![] },
    }
}

/// A permission as text.
pub open spec fn entry_text(e: EntryView) -> Seq<char> {
    match e.arg {
        Some(a) => e.tool + seq!['('] + a + seq![')'] + e.suffix,
        None => e.tool,
    }
}

/// The permission as it reads from one directory further up: a path that starts
/// with `./` gets the repo's key in front. Every other argument stays.
pub open spec fn scoped(e: EntryView, key: Seq<char>) -> EntryView {
    match e.arg {
        Some(a) => match text::strip_prefix(a, "./"@) {
            Some(rest) => EntryView { arg: Some("./"@ + key + "/"@ + rest), ..e },
            None => e,
        },
        None => e,
    }
}

/// What follows `./<key>/` in a permission's argument.
pub open spec fn below(e: EntryView, key: Seq<char>) -> Option<Seq<char>> {
    match e.arg {
        Some(a) => match text::strip_prefix(a, "./"@) {
            Some(rest) => text::strip_prefix(rest, key + "/"@),
            None => None,
        },
        None => None,
    }
}

/// The first of the keys that a permission's path is below.
pub open spec fn scope_of(e: EntryView, keys: Seq<Seq<char>>) -> Option<int> {
    list::first_where(keys, |k: Seq<char>| below(e, k) is Some)
}

/// The permission without the key in front of its path.
pub open spec fn unscoped(e: EntryView, key: Seq<char>) -> EntryView {
    match below(e, key) {
        Some(rest) => EntryView { arg: Some("./"@ + rest), ..e },
        None => e,
    }
}

impl PermissionEntry {
    /// Read a permission. A text that is not understood is a permission without
    /// an argument.
    pub fn parse(entry: &str) -> (r: Self)
        ensures
            r@ == entry_of(entry@),
    {
        let v = text::chars_of(entry);
        assert(v@.skip(0) =~= v@);
        let open: usize = text::seek(&v, 0, '(');
        if open < v.len() {
            if let Some(close) = text::seek_back(&v, ')') {
                if close > open + 1 {
                    let tool = text::piece(&v, 0, open);
                    let arg = text::piece(&v, open + 1, close);
                    let suffix = text::piece(&v, close + 1, v.len());
                    assert(tool@ =~= entry@.take(open as int));
                    assert(suffix@ =~= entry@.skip(close + 1));
                    return PermissionEntry { tool, arg: Some(arg), suffix };
                }
            }
        }
        let suffix = String::new();
        assert(suffix@ =~= seq![]);
        PermissionEntry { tool: entry.to_owned(), arg: None, suffix }
    }

    /// The permission as text.
    pub fn to_text(&self) -> (r: String)
        ensures
            r@ == entry_text(self@),
    {
        match &self.arg {
            Some(a) => {
                let mut r = self.tool.clone();
                r.push('(');
                r.append(a);
                r.push(')');
                r.append(&self.suffix);
                assert(r@ =~= entry_text(self@));
                r
            },
            None => self.tool.clone(),
        }
    }

    fn with_arg(&self, arg: String) -> (r: Self)
        ensures
            r@ == (EntryView { arg: Some(arg@), ..self@ }),
    {
        PermissionEntry { tool: self.tool.clone(), arg: Some(arg), suffix: self.suffix.clone() }
    }

    fn copy(&self) -> (r: Self)
        ensures
            r@ == self@,
    {
        PermissionEntry {
            tool: self.tool.clone(),
            arg: text::copied(&self.arg),
            suffix: self.suffix.clone(),
        }
    }

    /// Make a path relative to the workspace root that was relative to a repo's
    /// worktree: `Read(./src/**)` becomes `Read(./api/src/**)`.
    pub fn scoped_to_repo(&self, repo_key: &str) -> (r: Self)
        ensures
            r@ == scoped(self@, repo_key@),
    {
        if let Some(a) = &self.arg {
            if let Some(rest) = text::without_prefix(a, "./") {
                let mut arg = text::cat3("./", repo_key, "/");
                arg.append(&rest);
                return self.with_arg(arg);
            }
        }
        self.copy()
    }

    /// The inverse of [`PermissionEntry::scoped_to_repo`]: the first key that the
    /// path is below, and the permission without it.
    pub fn unscope(&self, repo_keys: &[String]) -> (r: Option<(String, Self)>)
        ensures
            match scope_of(self@, text::views(repo_keys@)) {
                Some(i) => r matches Some((key, e)) && key@ == repo_keys@[i]@ && e@ == unscoped(
                    self@,
                    key@,
                ),
                None => r is None,
            },
    {
        let ghost keys = text::views(repo_keys@);
        let ghost fits = |k: Seq<char>| below(self@, k) is Some;
        let arg = match &self.arg {
            Some(a) => a,
            None => {
                proof {
                    list::lemma_first_where_none(keys, fits);
                }
                return None;
            },
        };
        let rest = match text::without_prefix(arg, "./") {
            Some(s) => s,
            None => {
                proof {
                    list::lemma_first_where_none(keys, fits);
                }
                return None;
            },
        };
        let mut i: usize = 0;
        while i < repo_keys.len()
            invariant
                i <= repo_keys.len(),
                keys == text::views(repo_keys@),
                fits == (|k: Seq<char>| below(self@, k) is Some),
                self.arg == Some(*arg),
                text::strip_prefix(arg@, "./"@) == Some(rest@),
                forall|k: int| 0 <= k < i ==> !fits(#[trigger] keys[k]),
            decreases repo_keys.len() - i,
        {
            assert(keys[i as int] == repo_keys@[i as int]@);
            if let Some(remainder) = text::without_prefix(&rest, &text::cat(&repo_keys[i], "/")) {
                proof {
                    list::lemma_first_where_is(keys, fits, i as int);
                }
                let e = self.with_arg(text::cat("./", &remainder));
                return Some((repo_keys[i].clone(), e));
            }
            i = i + 1;
        }
        proof {
            list::lemma_first_where_none(keys, fits);
        }
        None
    }
}

/// Reading a permission loses nothing: written out again it is the same text.
pub proof fn parsing_round_trips(t: Seq<char>)
    ensures
        entry_text(entry_of(t)) == t,
{
    text::lemma_find_char_bounds(t, '(');
    text::lemma_rfind_char(t, ')');
    assert(entry_text(entry_of(t)) =~= t);
}

/// Scoping a permission to a repo and taking the scope away again is the
/// identity, where no key earlier in the list leads to the same path. A
/// permission that has no path below `./` is left alone by the first.
pub proof fn scoping_and_unscoping(e: EntryView, keys: Seq<Seq<char>>, i: int)
    requires
        0 <= i < keys.len(),
        e.arg matches Some(a) && "./"@.is_prefix_of(a),
        forall|k: int| 0 <= k < i ==> below(scoped(e, keys[i]), #[trigger] keys[k]) is None,
    ensures
        scope_of(scoped(e, keys[i]), keys) == Some(i),
        unscoped(scoped(e, keys[i]), keys[i]) == e,
{
    let s = scoped(e, keys[i]);
    let a = e.arg->0;
    let rest = a.skip("./"@.len() as int);
    let sa = s.arg->0;
    assert("./"@.is_prefix_of(sa));
    assert(sa.skip("./"@.len() as int) =~= keys[i] + "/"@ + rest);
    assert((keys[i] + "/"@).is_prefix_of(keys[i] + "/"@ + rest));
    assert((keys[i] + "/"@ + rest).skip((keys[i] + "/"@).len() as int) =~= rest);
    assert(below(s, keys[i]) == Some(rest));
    assert("./"@ + rest =~= a);
    list::lemma_first_where_is(keys, |k: Seq<char>| below(s, k) is Some, i);
    assert(unscoped(s, keys[i]) =~= e);
}

/// With keys that hold no slash, which one a path is below is never in doubt: a
/// permission that was scoped to a repo is traced back to that repo.
pub proof fn a_plain_key_is_found_again(e: EntryView, keys: Seq<Seq<char>>, key: Seq<char>)
    requires
        keys.contains(key),
        e.arg matches Some(a) && "./"@.is_prefix_of(a),
        forall|k: int| 0 <= k < keys.len() ==> !(#[trigger] keys[k]).contains('/'),
    ensures
        scope_of(scoped(e, key), keys) matches Some(i) && keys[i] == key,
        unscoped(scoped(e, key), key) == e,
{
    reveal_strlit("/");
    let p = |k: Seq<char>| k == key;
    list::lemma_first_where(keys, p);
    let i = list::first_where(keys, p)->0;
    let at = choose|k: int| 0 <= k < keys.len() && keys[k] == key;
    assert(p(keys[at]));
    let s = scoped(e, key);
    assert forall|k: int| 0 <= k < i implies below(s, #[trigger] keys[k]) is None by {
        let a = e.arg->0;
        let rest = a.skip("./"@.len() as int);
        let sa = s.arg->0;
        assert(sa.skip("./"@.len() as int) =~= key + "/"@ + rest);
        let other = keys[k];
        let whole = key + "/"@ + rest;
        if (other + "/"@).is_prefix_of(whole) {
            let n = other.len() as int;
            assert((other + "/"@)[n] == '/');
            assert(whole[n] == '/');
            assert(whole[key.len() as int] == '/');
            if n < key.len() {
                assert(key[n] == '/');
                assert(keys[i].contains('/'));
            } else if n > key.len() {
                assert((other + "/"@)[key.len() as int] == '/');
                assert(other[key.len() as int] == '/');
                assert(keys[k].contains('/'));
            } else {
                assert forall|m: int| 0 <= m < n implies other[m] == key[m] by {
                    assert((other + "/"@)[m] == whole[m]);
                }
                assert(other =~= key);
            }
        }
    }
    scoping_and_unscoping(e, keys, i);
}

/// The texts in an array.
pub open spec fn texts(a: Seq<JsonView>) -> Seq<Seq<char>>
    decreases a.len(),
{
    if a.len() == 0 {
        seq![]
    } else {
        match a.last() {
            JsonView::Str(s) => texts(a.drop_last()).push(s),
            _ => texts(a.drop_last()),
        }
    }
}

/// The array with this text in it.
pub open spec fn with_text(a: Seq<JsonView>, t: Seq<char>) -> Seq<JsonView> {
    if a.contains(JsonView::Str(t)) {
        a
    } else {
        a.push(JsonView::Str(t))
    }
}

/// The permissions of a document in one list, in the order of the file.
pub open spec fn granted(doc: Seq<(Seq<char>, JsonView)>, field: Seq<char>) -> Seq<Seq<char>> {
    texts(json::array_in(json::object_in(doc, "permissions"@), field))
}

/// The document with one permission more, unless it is there.
pub open spec fn with_permission(
    doc: Seq<(Seq<char>, JsonView)>,
    field: Seq<char>,
    t: Seq<char>,
) -> Seq<(Seq<char>, JsonView)> {
    let perms = json::object_in(doc, "permissions"@);
    let list = with_text(json::array_in(perms, field), t);
    json::with(doc, "permissions"@, JsonView::Object(json::with(perms, field, JsonView::Array(list))))
}

/// The document with a directory that may be written to, unless it is there.
pub open spec fn with_write(doc: Seq<(Seq<char>, JsonView)>, path: Seq<char>) -> Seq<
    (Seq<char>, JsonView),
> {
    let sandbox = json::object_in(doc, "sandbox"@);
    let fs = json::object_in(sandbox, "filesystem"@);
    let list = with_text(json::array_in(fs, "allowWrite"@), path);
    json::with(
        doc,
        "sandbox"@,
        JsonView::Object(
            json::with(
                sandbox,
                "filesystem"@,
                JsonView::Object(json::with(fs, "allowWrite"@, JsonView::Array(list))),
            ),
        ),
    )
}

/// The document without a directory that may be written to. Nothing is made that
/// is not there.
pub open spec fn without_write(doc: Seq<(Seq<char>, JsonView)>, path: Seq<char>) -> Seq<
    (Seq<char>, JsonView),
> {
    match json::get(doc, "sandbox"@) {
        Some(JsonView::Object(sandbox)) => match json::get(sandbox, "filesystem"@) {
            Some(JsonView::Object(fs)) => match json::get(fs, "allowWrite"@) {
                Some(JsonView::Array(list)) => json::with(
                    doc,
                    "sandbox"@,
                    JsonView::Object(
                        json::with(
                            sandbox,
                            "filesystem"@,
                            JsonView::Object(
                                json::with(
                                    fs,
                                    "allowWrite"@,
                                    JsonView::Array(
                                        list.filter(|j: JsonView| j != JsonView::Str(path)),
                                    ),
                                ),
                            ),
                        ),
                    ),
                ),
                _ => doc,
            },
            _ => doc,
        },
        _ => doc,
    }
}

/// A settings document.
pub struct SettingsDoc {
    pub fields: Vec<(String, Json)>,
}

impl View for SettingsDoc {
    type V = Seq<(Seq<char>, JsonView)>;

    open spec fn view(&self) -> Seq<(Seq<char>, JsonView)> {
        json::members(self.fields@)
    }
}

impl Default for SettingsDoc {
    fn default() -> (r: Self)
        ensures
            r.wf(),
            r@ == Seq::<(Seq<char>, JsonView)>::empty(),
    {
        SettingsDoc::new()
    }
}

/// The permissions of a list by the texts in them.
pub open spec fn entries(v: Seq<PermissionEntry>) -> Seq<EntryView> {
    v.map_values(|e: PermissionEntry| e@)
}

/// What is read of a settings file: the object in it, and an empty document where
/// it holds anything else.
pub open spec fn document(read: Result<JsonView, Seq<char>>) -> Seq<(Seq<char>, JsonView)> {
    match read {
        Ok(JsonView::Object(o)) => o,
        _ => seq![],
    }
}

impl SettingsDoc {
    /// No object in the document has a key twice.
    pub open spec fn wf(self) -> bool {
        json::keys_distinct(JsonView::Object(self@))
    }

    pub fn new() -> (r: Self)
        ensures
            r.wf(),
            r@ == Seq::<(Seq<char>, JsonView)>::empty(),
    {
        let fields: Vec<(String, Json)> = Vec::new();
        assert(json::members(fields@) =~= seq![]);
        SettingsDoc { fields }
    }

    /// The document in what was read of a file.
    pub fn of_json(read: Result<Json, String>) -> (r: Self)
        requires
            read matches Ok(j) ==> json::keys_distinct(j@),
        ensures
            r.wf(),
            r@ == document(match read {
                Ok(j) => Ok(j@),
                Err(e) => Err(e@),
            }),
    {
        match read {
            Ok(j) => {
                proof {
                    json::lemma_shown(j);
                }
                match j {
                    Json::Object(fields) => SettingsDoc { fields },
                    _ => SettingsDoc::new(),
                }
            },
            Err(_) => SettingsDoc::new(),
        }
    }

    /// The document in a settings file. A file that is missing, that is no JSON or
    /// that holds no object has an empty one.
    pub fn read(contents: Option<&str>) -> (r: Self)
        ensures
            r.wf(),
            r@ == (match contents {
                Some(raw) => document(json::json_of(raw@)),
                None => seq![],
            }),
    {
        match contents {
            Some(raw) => SettingsDoc::of_json(json::parse(raw)),
            None => SettingsDoc::new(),
        }
    }

    /// The permissions in one list, in the order of the file.
    pub fn permissions(&self, category: PermissionCategory) -> (r: Vec<PermissionEntry>)
        ensures
            entries(r@) == granted(self@, category.field()).map_values(|t: Seq<char>| entry_of(t)),
    {
        let ghost list = json::array_in(json::object_in(self@, "permissions"@), category.field());
        let mut r: Vec<PermissionEntry> = Vec::new();
        assert(entries(r@) =~= texts(seq![]).map_values(|t: Seq<char>| entry_of(t)));
        let i = match json::find(&self.fields, "permissions") {
            Some(i) => i,
            None => {
                return r;
            },
        };
        proof {
            json::lemma_shown(self.fields@[i as int].1);
        }
        let perms = match &self.fields[i].1 {
            Json::Object(m) => m,
            _ => {
                return r;
            },
        };
        let k = match json::find(perms, category.as_field()) {
            Some(k) => k,
            None => {
                return r;
            },
        };
        proof {
            json::lemma_shown(perms@[k as int].1);
        }
        let found = match &perms[k].1 {
            Json::Array(a) => a,
            _ => {
                return r;
            },
        };
        assert(json::elements(found@) == list);
        let mut n: usize = 0;
        assert(list.take(0) =~= seq![]);
        while n < found.len()
            invariant
                n <= found.len(),
                json::elements(found@) == list,
                entries(r@) == texts(list.take(n as int)).map_values(|t: Seq<char>| entry_of(t)),
            decreases found.len() - n,
        {
            let ghost before = r@;
            assert(list.take(n + 1).drop_last() =~= list.take(n as int));
            assert(list.take(n + 1).last() == found@[n as int]@);
            if let Json::Str(s) = &found[n] {
                r.push(PermissionEntry::parse(s));
                assert(entries(r@) =~= entries(before).push(entry_of(s@)));
                assert(texts(list.take(n + 1)).map_values(|t: Seq<char>| entry_of(t)) =~= texts(
                    list.take(n as int),
                ).map_values(|t: Seq<char>| entry_of(t)).push(entry_of(s@)));
            }
            n = n + 1;
        }
        assert(list.take(n as int) =~= list);
        r
    }

    /// Add a permission to a list, unless it is there. Says whether the document
    /// changed.
    pub fn add_permission(&mut self, category: PermissionCategory, entry: &PermissionEntry) -> (r:
        bool)
        requires
            old(self).wf(),
        ensures
            final(self).wf(),
            final(self)@ == with_permission(old(self)@, category.field(), entry_text(entry@)),
            r == (final(self)@ != old(self)@),
            r == !granted(old(self)@, category.field()).contains(entry_text(entry@)),
    {
        let ghost doc = self@;
        let ghost field = category.field();
        let ghost perms0 = json::object_in(doc, "permissions"@);
        let ghost list0 = json::array_in(perms0, field);
        proof {
            json::lemma_nested_distinct(doc, "permissions"@);
            json::lemma_nested_distinct(perms0, field);
            lemma_texts(list0, entry_text(entry@));
        }
        let t = entry.to_text();
        let mut perms = json::take_object(&mut self.fields, "permissions");
        let mut found = json::take_array(&mut perms, category.as_field());
        let there = json::has_text(&found, &t);
        if !there {
            let ghost before = found@;
            let j = Json::Str(t);
            found.push(j);
            assert(json::elements(found@) =~= json::elements(before).push(JsonView::Str(t@)));
        }
        let ghost list = json::elements(found@);
        assert(list == with_text(list0, entry_text(entry@)));
        json::put_array(&mut perms, category.as_field(), found);
        let ghost perms1 = json::members(perms@);
        json::put_object(&mut self.fields, "permissions", perms);
        proof {
            json::lemma_array_distinct(list0);
            json::lemma_array_distinct(list);
            json::lemma_with(perms0, field, JsonView::Array(list), field);
            json::lemma_with(doc, "permissions"@, JsonView::Object(perms1), "permissions"@);
            if there {
                lemma_nothing_to_add(doc, field, entry_text(entry@));
            } else {
                lemma_added(doc, field, entry_text(entry@));
            }
        }
        !there
    }

    /// Set a field of the document.
    pub fn set(&mut self, key: &str, value: Json)
        requires
            old(self).wf(),
            json::keys_distinct(value@),
        ensures
            final(self).wf(),
            final(self)@ == json::with(old(self)@, key@, value@),
    {
        proof {
            json::lemma_with(self@, key@, value@, key@);
        }
        json::put(&mut self.fields, key, value);
    }

    /// Remove a field of the document.
    pub fn remove(&mut self, key: &str)
        requires
            old(self).wf(),
        ensures
            final(self).wf(),
            final(self)@ == json::without(old(self)@, key@),
    {
        proof {
            json::lemma_without(self@, key@, key@);
        }
        json::drop_key(&mut self.fields, key);
    }

    pub fn is_empty(&self) -> (r: bool)
        ensures
            r == (self@.len() == 0),
    {
        self.fields.len() == 0
    }

    /// Let a directory be written to. Whatever else is said of the sandbox stays.
    pub fn allow_write(&mut self, path: &str)
        requires
            old(self).wf(),
        ensures
            final(self).wf(),
            final(self)@ == with_write(old(self)@, path@),
    {
        let ghost doc = self@;
        let ghost sandbox0 = json::object_in(doc, "sandbox"@);
        let ghost fs0 = json::object_in(sandbox0, "filesystem"@);
        let ghost list0 = json::array_in(fs0, "allowWrite"@);
        proof {
            json::lemma_nested_distinct(doc, "sandbox"@);
            json::lemma_nested_distinct(sandbox0, "filesystem"@);
            json::lemma_nested_distinct(fs0, "allowWrite"@);
        }
        let mut sandbox = json::take_object(&mut self.fields, "sandbox");
        let mut fs = json::take_object(&mut sandbox, "filesystem");
        let mut found = json::take_array(&mut fs, "allowWrite");
        if !json::has_text(&found, path) {
            let ghost before = found@;
            let t = path.to_owned();
            found.push(Json::Str(t));
            assert(json::elements(found@) =~= json::elements(before).push(JsonView::Str(path@)));
        }
        let ghost list = json::elements(found@);
        assert(list == with_text(list0, path@));
        json::put_array(&mut fs, "allowWrite", found);
        let ghost fs1 = json::members(fs@);
        json::put_object(&mut sandbox, "filesystem", fs);
        let ghost sandbox1 = json::members(sandbox@);
        json::put_object(&mut self.fields, "sandbox", sandbox);
        proof {
            json::lemma_array_distinct(list0);
            json::lemma_array_distinct(list);
            json::lemma_with(fs0, "allowWrite"@, JsonView::Array(list), "allowWrite"@);
            json::lemma_with(sandbox0, "filesystem"@, JsonView::Object(fs1), "filesystem"@);
            json::lemma_with(doc, "sandbox"@, JsonView::Object(sandbox1), "sandbox"@);
        }
    }

    /// No longer let a directory be written to. What is around it stays.
    pub fn revoke_write(&mut self, path: &str)
        requires
            old(self).wf(),
        ensures
            final(self).wf(),
            final(self)@ == without_write(old(self)@, path@),
    {
        let ghost doc = self@;
        proof {
            json::lemma_nested_distinct(doc, "sandbox"@);
        }
        let i = match json::find(&self.fields, "sandbox") {
            Some(i) => i,
            None => {
                return ;
            },
        };
        proof {
            json::lemma_shown(self.fields@[i as int].1);
        }
        let sandbox = match &self.fields[i].1 {
            Json::Object(m) => m,
            _ => {
                return ;
            },
        };
        let ghost sandbox0 = json::members(sandbox@);
        let k = match json::find(sandbox, "filesystem") {
            Some(k) => k,
            None => {
                return ;
            },
        };
        proof {
            json::lemma_nested_distinct(sandbox0, "filesystem"@);
            json::lemma_shown(sandbox@[k as int].1);
        }
        let fs = match &sandbox[k].1 {
            Json::Object(m) => m,
            _ => {
                return ;
            },
        };
        let ghost fs0 = json::members(fs@);
        let n = match json::find(fs, "allowWrite") {
            Some(n) => n,
            None => {
                return ;
            },
        };
        proof {
            json::lemma_nested_distinct(fs0, "allowWrite"@);
            json::lemma_shown(fs@[n as int].1);
        }
        match &fs[n].1 {
            Json::Array(_) => {},
            _ => {
                return ;
            },
        }
        let ghost list0 = json::array_in(fs0, "allowWrite"@);
        let mut sandbox = json::take_object(&mut self.fields, "sandbox");
        let mut fs = json::take_object(&mut sandbox, "filesystem");
        let mut found = json::take_array(&mut fs, "allowWrite");
        json::drop_text(&mut found, path);
        let ghost list = json::elements(found@);
        json::put_array(&mut fs, "allowWrite", found);
        let ghost fs1 = json::members(fs@);
        json::put_object(&mut sandbox, "filesystem", fs);
        let ghost sandbox1 = json::members(sandbox@);
        json::put_object(&mut self.fields, "sandbox", sandbox);
        proof {
            lemma_filter_distinct(list0, |j: JsonView| j != JsonView::Str(path@));
            json::lemma_with(fs0, "allowWrite"@, JsonView::Array(list), "allowWrite"@);
            json::lemma_with(sandbox0, "filesystem"@, JsonView::Object(fs1), "filesystem"@);
            json::lemma_with(doc, "sandbox"@, JsonView::Object(sandbox1), "sandbox"@);
        }
    }

    /// The text that the file gets, once the document was written out.
    pub fn file_text(written: Result<String, String>) -> (r: Result<String, AppError>)
        ensures
            match written {
                Ok(t) => r matches Ok(s) && s@ == t@ + seq!['\n'],
                Err(w) => r matches Err(e) && e.says("serializing settings.local.json: "@ + w@),
            },
    {
        match written {
            Ok(t) => {
                let mut s = t;
                s.push('\n');
                assert(s@ =~= t@ + seq!['\n']);
                Ok(s)
            },
            Err(w) => Err(AppError::Other(text::cat("serializing settings.local.json: ", &w))),
        }
    }

    /// The document as the file holds it. Reading the file gives the document back;
    /// that is claimed as far as it is of the JSON text.
    pub fn render(self) -> (r: Result<String, AppError>)
        requires
            self.wf(),
        ensures
            json::plain(JsonView::Object(self@), 127) && r is Ok ==> document(
                json::json_of(r->Ok_0@),
            ) == self@,
            match json::pretty_text(JsonView::Object(self@)) {
                Ok(t) => r matches Ok(s) && s@ == t + seq!['\n'],
                Err(w) => r matches Err(e) && e.says("serializing settings.local.json: "@ + w),
            },
    {
        let j = Json::Object(self.fields);
        proof {
            json::lemma_shown(j);
        }
        SettingsDoc::file_text(json::pretty(j))
    }
}

/// The texts in an array hold a text just where the array has it.
proof fn lemma_texts(a: Seq<JsonView>, t: Seq<char>)
    ensures
        texts(a).contains(t) == a.contains(JsonView::Str(t)),
    decreases a.len(),
{
    if a.len() > 0 {
        let rest = a.drop_last();
        lemma_texts(rest, t);
        if rest.contains(JsonView::Str(t)) {
            let i = choose|i: int| 0 <= i < rest.len() && rest[i] == JsonView::Str(t);
            assert(a[i] == JsonView::Str(t));
        }
        if a.contains(JsonView::Str(t)) && a.last() != JsonView::Str(t) {
            let i = choose|i: int| 0 <= i < a.len() && a[i] == JsonView::Str(t);
            assert(rest[i] == JsonView::Str(t));
        }
        match a.last() {
            JsonView::Str(s) => {
                let all = texts(a);
                let before = texts(rest);
                if before.contains(t) {
                    let i = choose|i: int| 0 <= i < before.len() && before[i] == t;
                    assert(all[i] == t);
                }
                if s == t {
                    assert(all[before.len() as int] == t);
                    assert(a[a.len() - 1] == JsonView::Str(t));
                }
                if all.contains(t) && s != t {
                    let i = choose|i: int| 0 <= i < all.len() && all[i] == t;
                    assert(before[i] == t);
                }
            },
            _ => {},
        }
    }
}

proof fn lemma_filter_distinct(a: Seq<JsonView>, p: spec_fn(JsonView) -> bool)
    requires
        json::keys_distinct(JsonView::Array(a)),
    ensures
        json::keys_distinct(JsonView::Array(a.filter(p))),
    decreases a.len(),
{
    let f = a.filter(p);
    json::lemma_array_distinct(a);
    json::lemma_array_distinct(f);
    assert forall|i: int| 0 <= i < f.len() implies json::keys_distinct(#[trigger] f[i]) by {
        a.lemma_filter_contains_rev(p, f[i]);
        let k = choose|k: int| 0 <= k < a.len() && a[k] == f[i];
        assert(json::keys_distinct(a[k]));
    }
}

/// Adding what is there changes nothing.
proof fn lemma_nothing_to_add(doc: Seq<(Seq<char>, JsonView)>, field: Seq<char>, t: Seq<char>)
    requires
        json::array_in(json::object_in(doc, "permissions"@), field).contains(JsonView::Str(t)),
    ensures
        with_permission(doc, field, t) == doc,
{
    let perms = json::object_in(doc, "permissions"@);
    json::lemma_with_same(perms, field);
    json::lemma_with_same(doc, "permissions"@);
}

/// Adding what is not there puts it at the end of its list.
proof fn lemma_added(doc: Seq<(Seq<char>, JsonView)>, field: Seq<char>, t: Seq<char>)
    ensures
        granted(with_permission(doc, field, t), field) == (if granted(doc, field).contains(t) {
            granted(doc, field)
        } else {
            granted(doc, field).push(t)
        }),
        !granted(doc, field).contains(t) ==> with_permission(doc, field, t) != doc,
{
    let perms = json::object_in(doc, "permissions"@);
    let list = json::array_in(perms, field);
    let new = with_text(list, t);
    let perms1 = json::with(perms, field, JsonView::Array(new));
    json::lemma_with(perms, field, JsonView::Array(new), field);
    json::lemma_with(doc, "permissions"@, JsonView::Object(perms1), "permissions"@);
    lemma_texts(list, t);
    if !list.contains(JsonView::Str(t)) {
        assert(new.drop_last() =~= list);
        assert(texts(new) == texts(list).push(t));
        assert(texts(new).len() != texts(list).len());
    }
}

/// A permission that is added is there, once: at the end of its list where it was
/// not there before. The other lists, and every other field of the document, stay
/// as they were, and adding it again changes nothing.
pub proof fn adding_a_permission(
    doc: Seq<(Seq<char>, JsonView)>,
    category: PermissionCategory,
    other: PermissionCategory,
    t: Seq<char>,
    key: Seq<char>,
)
    requires
        other != category,
        key != "permissions"@,
    ensures
        granted(with_permission(doc, category.field(), t), category.field()) == (if granted(
            doc,
            category.field(),
        ).contains(t) {
            granted(doc, category.field())
        } else {
            granted(doc, category.field()).push(t)
        }),
        granted(with_permission(doc, category.field(), t), other.field()) == granted(
            doc,
            other.field(),
        ),
        json::get(with_permission(doc, category.field(), t), key) == json::get(doc, key),
        with_permission(with_permission(doc, category.field(), t), category.field(), t)
            == with_permission(doc, category.field(), t),
{
    reveal_strlit("allow");
    reveal_strlit("deny");
    reveal_strlit("ask");
    let field = category.field();
    let perms = json::object_in(doc, "permissions"@);
    let list = json::array_in(perms, field);
    let new = with_text(list, t);
    let perms1 = json::with(perms, field, JsonView::Array(new));
    let doc1 = with_permission(doc, field, t);
    assert(field != other.field()) by {
        assert("allow"@.len() == 5);
        assert("deny"@.len() == 4);
        assert("ask"@.len() == 3);
    }
    lemma_added(doc, field, t);
    json::lemma_with(perms, field, JsonView::Array(new), other.field());
    json::lemma_with(doc, "permissions"@, JsonView::Object(perms1), "permissions"@);
    json::lemma_with(doc, "permissions"@, JsonView::Object(perms1), key);
    assert(new.contains(JsonView::Str(t))) by {
        if !list.contains(JsonView::Str(t)) {
            assert(new[list.len() as int] == JsonView::Str(t));
        }
    }
    lemma_nothing_to_add(doc1, field, t);
}

/// Letting a directory be written to, and no longer, leaves every field of the
/// document but the sandbox as it was.
pub proof fn the_sandbox_alone_changes(
    doc: Seq<(Seq<char>, JsonView)>,
    path: Seq<char>,
    key: Seq<char>,
)
    requires
        key != "sandbox"@,
    ensures
        json::get(with_write(doc, path), key) == json::get(doc, key),
        json::get(without_write(doc, path), key) == json::get(doc, key),
{
    let s1 = json::get(with_write(doc, path), "sandbox"@);
    let sandbox = json::object_in(doc, "sandbox"@);
    let fs = json::object_in(sandbox, "filesystem"@);
    let list = with_text(json::array_in(fs, "allowWrite"@), path);
    json::lemma_with(
        doc,
        "sandbox"@,
        JsonView::Object(
            json::with(
                sandbox,
                "filesystem"@,
                JsonView::Object(json::with(fs, "allowWrite"@, JsonView::Array(list))),
            ),
        ),
        key,
    );
    let kept = json::array_in(fs, "allowWrite"@).filter(|j: JsonView| j != JsonView::Str(path));
    json::lemma_with(
        doc,
        "sandbox"@,
        JsonView::Object(
            json::with(
                sandbox,
                "filesystem"@,
                JsonView::Object(json::with(fs, "allowWrite"@, JsonView::Array(kept))),
            ),
        ),
        key,
    );
}

/// An entry is a tool, and what it may be used on in brackets behind it: the brackets
/// are the first that opens and the last that closes, and hold something. An entry
/// without them is a tool alone.
pub proof fn an_entry_has_its_parts(tool: Seq<char>, arg: Seq<char>, suffix: Seq<char>)
    requires
        !tool.contains('('),
        !suffix.contains(')'),
    ensures
        arg.len() > 0 ==> entry_of(tool + seq!['('] + arg + seq![')'] + suffix) == (EntryView {
            tool,
            arg: Some(arg),
            suffix,
        }),
        entry_of(tool) == (EntryView { tool, arg: None, suffix: seq![] }),
        entry_of(tool + seq!['(', ')'] + suffix) == (EntryView {
            tool: tool + seq!['(', ')'] + suffix,
            arg: None,
            suffix: seq![],
        }),
{
    let n = tool.len() as int;
    assert forall|k: int| 0 <= k < n implies tool[k] != '(' by {
        assert(tool.contains(tool[k]));
    }
    let t = tool + seq!['('] + arg + seq![')'] + suffix;
    text::lemma_find_char(t, '(', n);
    text::the_last_place_is_found(tool + seq!['('] + arg, ')', suffix);
    if arg.len() > 0 {
        assert(t.take(n) =~= tool);
        assert(t.subrange(n + 1, n + 1 + arg.len()) =~= arg);
        assert(t.skip(n + 2 + arg.len()) =~= suffix);
    }
    text::lemma_find_char(tool, '(', n);
    let u = tool + seq!['(', ')'] + suffix;
    text::lemma_find_char(u, '(', n);
    text::the_last_place_is_found(tool + seq!['('], ')', suffix);
    assert(tool + seq!['('] + seq![')'] + suffix =~= u);
}

/// An entry that a repo grants in its own directory is, seen from the workspace, one in
/// the repo's directory, and the other way round; one that is not below the directory it
/// is read in stays as it is.
pub proof fn an_entry_moves_with_its_directory(e: EntryView, key: Seq<char>, rest: Seq<char>)
    ensures
        e.arg == Some("./"@ + rest) ==> scoped(e, key) == (EntryView {
            arg: Some("./"@ + key + "/"@ + rest),
            ..e
        }),
        (e.arg is None || !"./"@.is_prefix_of(e.arg->0)) ==> scoped(e, key) == e,
        e.arg == Some("./"@ + key + "/"@ + rest) ==> unscoped(e, key) == (EntryView {
            arg: Some("./"@ + rest),
            ..e
        }),
        (e.arg is None || !("./"@ + key + "/"@).is_prefix_of(e.arg->0)) ==> unscoped(e, key) == e,
{
    reveal_strlit("./");
    reveal_strlit("/");
    let dot = "./"@;
    let a = dot + rest;
    assert(a.take(2) =~= dot);
    assert(a.skip(2) =~= rest);
    let b = dot + key + "/"@ + rest;
    let inner = key + "/"@ + rest;
    assert(b.take(2) =~= dot);
    assert(b.skip(2) =~= inner);
    assert(inner.take((key + "/"@).len() as int) =~= key + "/"@);
    assert(inner.skip((key + "/"@).len() as int) =~= rest);
    if e.arg is Some && dot.is_prefix_of(e.arg->0) {
        let x = e.arg->0;
        let y = x.skip(2);
        if (key + "/"@).is_prefix_of(y) {
            let p = dot + key + "/"@;
            assert(p =~= x.take(p.len() as int)) by {
                assert forall|i: int| 0 <= i < p.len() implies p[i] == x[i] by {
                    if i >= 2 {
                        assert((key + "/"@)[i - 2] == y.take((key + "/"@).len() as int)[i - 2]);
                    } else {
                        assert(dot[i] == x.take(2)[i]);
                    }
                }
            }
        }
    }
}

/// The scope of an entry is the first of the keys whose directory it lies in.
pub proof fn the_first_directory_is_the_scope(e: EntryView, keys: Seq<Seq<char>>)
    ensures
        match scope_of(e, keys) {
            Some(i) => 0 <= i < keys.len() && e.arg is Some && ("./"@ + keys[i]
                + "/"@).is_prefix_of(e.arg->0) && forall|k: int|
                0 <= k < i ==> !("./"@ + #[trigger] keys[k] + "/"@).is_prefix_of(e.arg->0),
            None => e.arg is Some ==> forall|k: int|
                0 <= k < keys.len() ==> !("./"@ + #[trigger] keys[k] + "/"@).is_prefix_of(e.arg->0),
        },
{
    let lies = |k: Seq<char>| below(e, k) is Some;
    list::lemma_first_where(keys, lies);
    if e.arg is Some {
        assert forall|k: int| 0 <= k < keys.len() implies lies(#[trigger] keys[k]) == ("./"@
            + keys[k] + "/"@).is_prefix_of(e.arg->0) by {
            lemma_below(e, keys[k]);
        }
    }
}

proof fn lemma_below(e: EntryView, key: Seq<char>)
    requires
        e.arg is Some,
    ensures
        below(e, key) is Some <==> ("./"@ + key + "/"@).is_prefix_of(e.arg->0),
{
    reveal_strlit("./");
    reveal_strlit("/");
    let dot = "./"@;
    let x = e.arg->0;
    let p = dot + key + "/"@;
    let q = key + "/"@;
    if p.is_prefix_of(x) {
        assert(dot =~= x.take(2)) by {
            assert forall|i: int| 0 <= i < 2 implies dot[i] == x[i] by {
                assert(p[i] == x.take(p.len() as int)[i]);
            }
        }
        let y = x.skip(2);
        assert(q =~= y.take(q.len() as int)) by {
            assert forall|i: int| 0 <= i < q.len() implies q[i] == y[i] by {
                assert(p[i + 2] == x.take(p.len() as int)[i + 2]);
            }
        }
    }
    if below(e, key) is Some {
        let y = x.skip(2);
        assert(p =~= x.take(p.len() as int)) by {
            assert forall|i: int| 0 <= i < p.len() implies p[i] == x[i] by {
                if i >= 2 {
                    assert(q[i - 2] == y.take(q.len() as int)[i - 2]);
                } else {
                    assert(dot[i] == x.take(2)[i]);
                }
            }
        }
    }
}

/// What is granted are the texts in a list of the document's permissions, in their
/// order, and nothing else that stands there.
pub proof fn what_is_granted_is_listed(
    doc: Seq<(Seq<char>, JsonView)>,
    perms: Seq<(Seq<char>, JsonView)>,
    category: PermissionCategory,
    list: Seq<JsonView>,
    t: Seq<char>,
)
    requires
        json::get(doc, "permissions"@) == Some(JsonView::Object(perms)),
        json::get(
            perms,
            match category {
                PermissionCategory::Allow => "allow"@,
                PermissionCategory::Deny => "deny"@,
                PermissionCategory::Ask => "ask"@,
            },
        ) == Some(JsonView::Array(list)),
    ensures
        granted(doc, category.field()).contains(t) <==> list.contains(JsonView::Str(t)),
        granted(doc, category.field()).len() <= list.len(),
        (forall|i: int| 0 <= i < list.len() ==> (#[trigger] list[i]) is Str) ==> granted(
            doc,
            category.field(),
        ).len() == list.len() && forall|i: int|
            0 <= i < list.len() ==> JsonView::Str(#[trigger] granted(doc, category.field())[i])
                == list[i],
{
    lemma_texts(list, t);
    lemma_texts_in_order(list);
}

proof fn lemma_texts_in_order(a: Seq<JsonView>)
    ensures
        texts(a).len() <= a.len(),
        (forall|i: int| 0 <= i < a.len() ==> (#[trigger] a[i]) is Str) ==> texts(a).len() == a.len()
            && forall|i: int| 0 <= i < a.len() ==> JsonView::Str(#[trigger] texts(a)[i]) == a[i],
    decreases a.len(),
{
    if a.len() > 0 {
        let rest = a.drop_last();
        lemma_texts_in_order(rest);
        if forall|i: int| 0 <= i < a.len() ==> (#[trigger] a[i]) is Str {
            assert forall|i: int| 0 <= i < rest.len() implies (#[trigger] rest[i]) is Str by {
                assert(a[i] is Str);
            }
            assert(a[a.len() - 1] is Str);
            assert(texts(a) == texts(rest).push(a.last()->Str_0));
            assert forall|i: int| 0 <= i < a.len() implies JsonView::Str(#[trigger] texts(a)[i])
                == a[i] by {
                if i < rest.len() {
                    assert(texts(a)[i] == texts(rest)[i]);
                }
            }
        }
    }
}

/// The directories that a document lets a session write to.
pub open spec fn writes_in(doc: Seq<(Seq<char>, JsonView)>) -> Seq<JsonView> {
    json::array_in(
        json::object_in(json::object_in(doc, "sandbox"@), "filesystem"@),
        "allowWrite"@,
    )
}

/// A directory that may be written to is in the list, once, and the others stay; one
/// that may not any longer is not, and the others stay too.
pub proof fn one_directory_is_let_in(
    doc: Seq<(Seq<char>, JsonView)>,
    path: Seq<char>,
    other: Seq<char>,
)
    requires
        other != path,
    ensures
        writes_in(with_write(doc, path)).contains(JsonView::Str(path)),
        writes_in(with_write(doc, path)).contains(JsonView::Str(other)) <==> writes_in(
            doc,
        ).contains(JsonView::Str(other)),
        writes_in(doc).contains(JsonView::Str(path)) ==> writes_in(with_write(doc, path))
            == writes_in(doc),
        !writes_in(doc).contains(JsonView::Str(path)) ==> writes_in(with_write(doc, path))
            == writes_in(doc).push(JsonView::Str(path)),
        !writes_in(without_write(doc, path)).contains(JsonView::Str(path)),
        writes_in(without_write(doc, path)).contains(JsonView::Str(other)) <==> writes_in(
            doc,
        ).contains(JsonView::Str(other)),
        !writes_in(doc).contains(JsonView::Str(path)) ==> writes_in(
            without_write(with_write(doc, path), path),
        ) == writes_in(doc),
{
    lemma_written(doc, path, other);
    lemma_unwritten(doc, path, other);
    if !writes_in(doc).contains(JsonView::Str(path)) {
        let list = writes_in(doc);
        let not = |j: JsonView| j != JsonView::Str(path);
        lemma_unwritten(with_write(doc, path), path, other);
        lemma_unwritten_list(with_write(doc, path), path);
        list.lemma_filter_push(JsonView::Str(path), not);
        assert forall|i: int| 0 <= i < list.len() implies not(#[trigger] list[i]) by {
            if list[i] == JsonView::Str(path) {
                assert(list.contains(list[i]));
            }
        }
        list::lemma_filter_all(list, not);
    }
}

proof fn lemma_written(doc: Seq<(Seq<char>, JsonView)>, path: Seq<char>, other: Seq<char>)
    requires
        other != path,
    ensures
        writes_in(with_write(doc, path)) == with_text(writes_in(doc), path),
        with_text(writes_in(doc), path).contains(JsonView::Str(path)),
        with_text(writes_in(doc), path).contains(JsonView::Str(other)) <==> writes_in(
            doc,
        ).contains(JsonView::Str(other)),
{
    let sandbox = json::object_in(doc, "sandbox"@);
    let fs = json::object_in(sandbox, "filesystem"@);
    let old_list = json::array_in(fs, "allowWrite"@);
    let new = with_text(old_list, path);
    let fs1 = json::with(fs, "allowWrite"@, JsonView::Array(new));
    let sandbox1 = json::with(sandbox, "filesystem"@, JsonView::Object(fs1));
    json::lemma_with(fs, "allowWrite"@, JsonView::Array(new), path);
    json::lemma_with(sandbox, "filesystem"@, JsonView::Object(fs1), path);
    json::lemma_with(doc, "sandbox"@, JsonView::Object(sandbox1), path);
    if !old_list.contains(JsonView::Str(path)) {
        assert(new[old_list.len() as int] == JsonView::Str(path));
        if old_list.contains(JsonView::Str(other)) {
            let i = choose|i: int| 0 <= i < old_list.len() && old_list[i] == JsonView::Str(other);
            assert(new[i] == JsonView::Str(other));
        }
        if new.contains(JsonView::Str(other)) {
            let i = choose|i: int| 0 <= i < new.len() && new[i] == JsonView::Str(other);
            assert(old_list[i] == JsonView::Str(other));
        }
    }
}

proof fn lemma_unwritten_list(doc: Seq<(Seq<char>, JsonView)>, path: Seq<char>)
    ensures
        writes_in(without_write(doc, path)) == writes_in(doc).filter(
            |j: JsonView| j != JsonView::Str(path),
        ),
{
    let not = |j: JsonView| j != JsonView::Str(path);
    let sandbox = json::object_in(doc, "sandbox"@);
    let fs = json::object_in(sandbox, "filesystem"@);
    let old_list = json::array_in(fs, "allowWrite"@);
    let new = old_list.filter(not);
    let fs1 = json::with(fs, "allowWrite"@, JsonView::Array(new));
    let sandbox1 = json::with(sandbox, "filesystem"@, JsonView::Object(fs1));
    json::lemma_with(fs, "allowWrite"@, JsonView::Array(new), path);
    json::lemma_with(sandbox, "filesystem"@, JsonView::Object(fs1), path);
    json::lemma_with(doc, "sandbox"@, JsonView::Object(sandbox1), path);
    assert(json::get(Seq::<(Seq<char>, JsonView)>::empty(), "filesystem"@) is None);
    assert(json::get(Seq::<(Seq<char>, JsonView)>::empty(), "allowWrite"@) is None);
    let none: Seq<JsonView> = seq![];
    list::lemma_filter_all(none, not);
}

proof fn lemma_unwritten(doc: Seq<(Seq<char>, JsonView)>, path: Seq<char>, other: Seq<char>)
    requires
        other != path,
    ensures
        !writes_in(without_write(doc, path)).contains(JsonView::Str(path)),
        writes_in(without_write(doc, path)).contains(JsonView::Str(other)) <==> writes_in(
            doc,
        ).contains(JsonView::Str(other)),
{
    let not = |j: JsonView| j != JsonView::Str(path);
    lemma_unwritten_list(doc, path);
    let list = writes_in(doc);
    list::lemma_filter_places(list, not);
    let kept = list.filter(not);
    if kept.contains(JsonView::Str(path)) {
        let i = choose|i: int| 0 <= i < kept.len() && kept[i] == JsonView::Str(path);
        assert(not(kept[i])) by {
            let a = list::place_of(list, not, i);
            assert(kept[i] == list[a]);
        }
    }
    if kept.contains(JsonView::Str(other)) {
        let i = choose|i: int| 0 <= i < kept.len() && kept[i] == JsonView::Str(other);
        let a = list::place_of(list, not, i);
        assert(list[a] == JsonView::Str(other));
    }
    if list.contains(JsonView::Str(other)) {
        let i = choose|i: int| 0 <= i < list.len() && list[i] == JsonView::Str(other);
        list.lemma_filter_contains(not, i);
    }
}

/// What is read as an object is the document; anything else, and what cannot be read, is
/// as good as an empty one.
pub proof fn what_a_document_is(read: Result<JsonView, Seq<char>>, o: Seq<(Seq<char>, JsonView)>)
    ensures
        read == Ok::<JsonView, Seq<char>>(JsonView::Object(o)) ==> document(read) == o,
        read is Err ==> document(read).len() == 0,
        read is Ok && !(read->Ok_0 is Object) ==> document(read).len() == 0,
{
}

} // verus!
