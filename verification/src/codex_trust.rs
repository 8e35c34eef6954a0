//! Marking a workspace's directory as trusted in codex's own configuration.
//!
//! Everything else about a codex session goes on its command line. Trust cannot:
//! codex asks before it works in a directory that its configuration does not list,
//! and every workspace is a new directory. The file is the user's, so only the
//! entry of the workspace is touched, and it is taken out again with the workspace.

use vstd::prelude::*;

use crate::error::{AppError, AppResult};
use crate::paths;
use crate::text;

verus! {

#[verifier::external_type_specification]
#[verifier::external_body]
pub struct ExTomlDocument(toml_edit::DocumentMut);

/// One item of a TOML document, by what it holds.
pub enum TomlItem {
    /// A key that is there without a value.
    Empty,
    Text(Seq<char>),
    Table(Map<Seq<char>, TomlItem>),
    InlineTable(Map<Seq<char>, TomlItem>),
    /// Anything else, as it is written.
    Other(Seq<char>),
}

/// What a document holds, by the keys of its root table. The order of the keys, the
/// comments and the white space are not part of it.
pub uninterp spec fn toml_holds(doc: toml_edit::DocumentMut) -> Map<Seq<char>, TomlItem>;

/// How a document is laid out: the items in the order in which its tables have them,
/// each with the keys that lead to it, and with the comments and the white space around
/// its key and its value. What follows the last item comes last, under no key.
pub uninterp spec fn toml_layout(doc: toml_edit::DocumentMut) -> Seq<(Seq<Seq<char>>, Seq<char>)>;

/// What a text holds as a TOML document and how it is laid out, or why it is none.
pub uninterp spec fn toml_of(text: Seq<char>) -> Result<
    (Map<Seq<char>, TomlItem>, Seq<(Seq<Seq<char>>, Seq<char>)>),
    Seq<char>,
>;

/// A document as it is written.
pub uninterp spec fn toml_text(doc: toml_edit::DocumentMut) -> Seq<char>;

/// Not being below these keys.
pub open spec fn outside(at: Seq<Seq<char>>) -> spec_fn((Seq<Seq<char>>, Seq<char>)) -> bool {
    |item: (Seq<Seq<char>>, Seq<char>)| !at.is_prefix_of(item.0)
}

/// The layout of a document but for what is below some keys.
pub open spec fn elsewhere(
    layout: Seq<(Seq<Seq<char>>, Seq<char>)>,
    at: Seq<Seq<char>>,
) -> Seq<(Seq<Seq<char>>, Seq<char>)> {
    layout.filter(outside(at))
}

/// The table under a key, where there is one.
pub open spec fn table_at(holds: Map<Seq<char>, TomlItem>, key: Seq<char>) -> Option<
    Map<Seq<char>, TomlItem>,
> {
    if holds.contains_key(key) {
        match holds[key] {
            TomlItem::Table(t) => Some(t),
            _ => None,
        }
    } else {
        None
    }
}

/// The members of a table in either notation.
pub open spec fn members(item: TomlItem) -> Option<Map<Seq<char>, TomlItem>> {
    match item {
        TomlItem::Table(t) => Some(t),
        TomlItem::InlineTable(t) => Some(t),
        _ => None,
    }
}

/// The text in a field of an item.
pub open spec fn field_text(item: TomlItem, field: Seq<char>) -> Option<Seq<char>> {
    match members(item) {
        Some(t) => if t.contains_key(field) {
            match t[field] {
                TomlItem::Text(s) => Some(s),
                _ => None,
            }
        } else {
            None
        },
        None => None,
    }
}

/// An item with a text in a field.
pub open spec fn with_field(item: TomlItem, field: Seq<char>, s: Seq<char>) -> TomlItem {
    match item {
        TomlItem::Table(t) => TomlItem::Table(t.insert(field, TomlItem::Text(s))),
        TomlItem::InlineTable(t) => TomlItem::InlineTable(t.insert(field, TomlItem::Text(s))),
        other => other,
    }
}

/// What is under a key of a table; an empty table where there is nothing.
pub open spec fn item_or_table(t: Map<Seq<char>, TomlItem>, key: Seq<char>) -> TomlItem {
    if t.contains_key(key) {
        t[key]
    } else {
        TomlItem::Table(Map::empty())
    }
}

/// Reads a text as a document, with `toml_edit`'s `DocumentMut::from_str`. What the
/// document holds, how it is laid out, and the message where the text is not TOML,
/// depend on the text alone.
#[verifier::external_body]
fn document_of(s: &str) -> (r: Result<toml_edit::DocumentMut, String>)
    ensures
        match r {
            Ok(d) => toml_of(s@) matches Ok((holds, layout)) && holds == toml_holds(d) && layout
                == toml_layout(d),
            Err(e) => toml_of(s@) matches Err(m) && m == e@,
        },
{
    s.parse().map_err(|e: toml_edit::TomlError| e.to_string())
}

/// Makes sure that there is something under a key of the root table, with
/// `toml_edit`'s `Table::entry` and `Entry::or_insert_with`: where there is nothing,
/// an empty table is put there. Says whether it is a table (`Item::as_table_mut`),
/// and if so leaves out its header where it has no values of its own
/// (`Table::set_implicit`), which changes neither what the document holds nor the layout
/// of its items. A new item comes last, and the layout of the others stays as it is.
#[verifier::external_body]
fn open_table(doc: &mut toml_edit::DocumentMut, key: &str) -> (r: bool)
    ensures
        r == (table_at(toml_holds(*final(doc)), key@) is Some),
        toml_holds(*final(doc)) == toml_holds(*old(doc)).insert(
            key@,
            item_or_table(toml_holds(*old(doc)), key@),
        ),
        elsewhere(toml_layout(*final(doc)), seq![key@]) == elsewhere(
            toml_layout(*old(doc)),
            seq![key@],
        ),
        toml_holds(*old(doc)).contains_key(key@) ==> toml_layout(*final(doc)) == toml_layout(
            *old(doc),
        ),
{
    let empty = || toml_edit::Item::Table(toml_edit::Table::new());
    match doc.entry(key).or_insert_with(empty).as_table_mut() {
        Some(table) => {
            table.set_implicit(true);
            true
        },
        None => false,
    }
}

/// The text in a field of an entry of a table, read with `toml_edit`'s `Table::get`,
/// `Item::as_table_like`, `TableLike::get` and `Item::as_str`.
#[verifier::external_body]
fn text_at(doc: &toml_edit::DocumentMut, table: &str, key: &str, field: &str) -> (r: Option<String>)
    ensures
        text::maybe(r) == match table_at(toml_holds(*doc), table@) {
            Some(t) => if t.contains_key(key@) {
                field_text(t[key@], field@)
            } else {
                None
            },
            None => None,
        },
{
    let entry = doc.get(table)?.as_table()?.get(key)?;
    Some(entry.as_table_like()?.get(field)?.as_str()?.to_owned())
}

/// Puts a text into a field of an entry of a table, with `toml_edit`'s `Table::entry`,
/// `Entry::or_insert_with` and `TableLike::insert`: where there is no entry, an empty
/// table is put there first. Says whether the entry is a table, in either notation;
/// where it is not, nothing is changed. The layout of everything but the entry stays as
/// it is.
#[verifier::external_body]
fn put_text(doc: &mut toml_edit::DocumentMut, table: &str, key: &str, field: &str, s: &str) -> (r:
    bool)
    requires
        table_at(toml_holds(*old(doc)), table@) is Some,
    ensures
        match table_at(toml_holds(*old(doc)), table@) {
            Some(t) => {
                let item = item_or_table(t, key@);
                &&& r == (members(item) is Some)
                &&& toml_holds(*final(doc)) == if r {
                    toml_holds(*old(doc)).insert(
                        table@,
                        TomlItem::Table(t.insert(key@, with_field(item, field@, s@))),
                    )
                } else {
                    toml_holds(*old(doc))
                }
                &&& elsewhere(toml_layout(*final(doc)), seq![table@, key@]) == elsewhere(
                    toml_layout(*old(doc)),
                    seq![table@, key@],
                )
            },
            None => !r,
        },
{
    let empty = || toml_edit::Item::Table(toml_edit::Table::new());
    let Some(all) = doc.get_mut(table).and_then(|t| t.as_table_mut()) else { return false };
    match all.entry(key).or_insert_with(empty).as_table_like_mut() {
        Some(entry) => {
            entry.insert(field, toml_edit::value(s));
            true
        },
        None => false,
    }
}

/// Takes an entry out of a table, with `toml_edit`'s `Table::remove`, and says whether
/// there was one. The others keep their order and their layout.
#[verifier::external_body]
fn take_entry(doc: &mut toml_edit::DocumentMut, table: &str, key: &str) -> (r: bool)
    requires
        table_at(toml_holds(*old(doc)), table@) is Some,
    ensures
        match table_at(toml_holds(*old(doc)), table@) {
            Some(t) => {
                &&& r == t.contains_key(key@)
                &&& toml_holds(*final(doc)) == toml_holds(*old(doc)).insert(
                    table@,
                    TomlItem::Table(t.remove(key@)),
                )
                &&& elsewhere(toml_layout(*final(doc)), seq![table@, key@]) == elsewhere(
                    toml_layout(*old(doc)),
                    seq![table@, key@],
                )
            },
            None => !r,
        },
{
    let all = doc.get_mut(table).and_then(|t| t.as_table_mut());
    all.and_then(|t| t.remove(key)).is_some()
}

/// Whether a table has no entries that count, with `toml_edit`'s `Table::is_empty`,
/// which passes over keys without a value.
#[verifier::external_body]
fn is_bare(doc: &toml_edit::DocumentMut, table: &str) -> (r: bool)
    ensures
        r == match table_at(toml_holds(*doc), table@) {
            Some(t) => bare(t),
            None => false,
        },
{
    doc.get(table).and_then(|t| t.as_table()).is_some_and(|t| t.is_empty())
}

/// Whether a table has no entry with a value.
pub open spec fn bare(t: Map<Seq<char>, TomlItem>) -> bool {
    forall|k: Seq<char>| #[trigger] t.contains_key(k) ==> t[k] is Empty
}

/// Takes a key out of the root table, with `toml_edit`'s `Table::remove`. The others keep
/// their order and their layout.
#[verifier::external_body]
fn take_table(doc: &mut toml_edit::DocumentMut, key: &str)
    ensures
        toml_holds(*final(doc)) == toml_holds(*old(doc)).remove(key@),
        elsewhere(toml_layout(*final(doc)), seq![key@]) == elsewhere(
            toml_layout(*old(doc)),
            seq![key@],
        ),
{
    doc.remove(key);
}

/// A document as it is written, by the `Display` of `toml_edit`'s `DocumentMut`. What the
/// text reads back as is left open: carriage returns are not written, nor is a table that
/// is empty and has no header, nor do all documents have a form in which they can be read.
#[verifier::external_body]
fn written(doc: &toml_edit::DocumentMut) -> (r: String)
    ensures
        r@ == toml_text(*doc),
{
    doc.to_string()
}

/// The table in which codex keeps what it knows of directories.
pub const PROJECTS: &'static str = "projects";

/// Whether a directory is listed as trusted.
pub open spec fn is_trusted(projects: Map<Seq<char>, TomlItem>, key: Seq<char>) -> bool {
    projects.contains_key(key) && field_text(projects[key], "trust_level"@) == Some("trusted"@)
}

/// The directories that a document lists; `None` where the place for them holds
/// something else.
pub open spec fn projects_in(holds: Map<Seq<char>, TomlItem>) -> Option<Map<Seq<char>, TomlItem>> {
    if holds.contains_key(PROJECTS@) {
        table_at(holds, PROJECTS@)
    } else {
        Some(Map::empty())
    }
}

/// What becomes of a document when a directory is trusted or not any more: the
/// message where that cannot be, `None` where there is nothing to write, else what
/// it holds afterwards.
pub open spec fn edited(holds: Map<Seq<char>, TomlItem>, key: Seq<char>, trusted: bool) -> Result<
    Option<Map<Seq<char>, TomlItem>>,
    Seq<char>,
> {
    match projects_in(holds) {
        None => Err("codex config `projects` is not a table"@),
        Some(p) => if trusted {
            let item = item_or_table(p, key);
            if is_trusted(p, key) {
                Ok(None)
            } else if members(item) is None {
                Err("codex config `projects."@ + key + "` is not a table"@)
            } else {
                Ok(
                    Some(
                        holds.insert(
                            PROJECTS@,
                            TomlItem::Table(
                                p.insert(key, with_field(item, "trust_level"@, "trusted"@)),
                            ),
                        ),
                    ),
                )
            }
        } else if !p.contains_key(key) {
            Ok(None)
        } else if bare(p.remove(key)) {
            Ok(Some(holds.remove(PROJECTS@)))
        } else {
            Ok(Some(holds.insert(PROJECTS@, TomlItem::Table(p.remove(key)))))
        },
    }
}

/// What an edit may lay out anew: the entry of the directory, or the whole table where
/// that comes or goes with it.
pub open spec fn touched(
    holds: Map<Seq<char>, TomlItem>,
    after: Map<Seq<char>, TomlItem>,
    key: Seq<char>,
) -> Seq<Seq<char>> {
    if holds.contains_key(PROJECTS@) && after.contains_key(PROJECTS@) {
        seq![PROJECTS@, key]
    } else {
        seq![PROJECTS@]
    }
}

/// Whether a text is that of a document which holds something given, and is laid out as
/// given but for what is below some keys.
pub open spec fn writes(
    s: Seq<char>,
    holds: Map<Seq<char>, TomlItem>,
    layout: Seq<(Seq<Seq<char>>, Seq<char>)>,
    at: Seq<Seq<char>>,
) -> bool {
    exists|d: toml_edit::DocumentMut|
        s == #[trigger] toml_text(d) && toml_holds(d) == holds && elsewhere(toml_layout(d), at)
            == elsewhere(layout, at)
}

/// What is laid out alike outside a table's entry is laid out alike outside the table.
proof fn lemma_elsewhere(
    a: Seq<(Seq<Seq<char>>, Seq<char>)>,
    b: Seq<(Seq<Seq<char>>, Seq<char>)>,
    table: Seq<char>,
    key: Seq<char>,
)
    requires
        elsewhere(a, seq![table, key]) == elsewhere(b, seq![table, key]),
    ensures
        elsewhere(a, seq![table]) == elsewhere(b, seq![table]),
{
    lemma_elsewhere_again(a, table, key);
    lemma_elsewhere_again(b, table, key);
}

proof fn lemma_elsewhere_again(
    a: Seq<(Seq<Seq<char>>, Seq<char>)>,
    table: Seq<char>,
    key: Seq<char>,
)
    ensures
        elsewhere(elsewhere(a, seq![table, key]), seq![table]) == elsewhere(a, seq![table]),
    decreases a.len(),
{
    reveal(Seq::filter);
    let p = outside(seq![table]);
    let q = outside(seq![table, key]);
    if a.len() > 0 {
        lemma_elsewhere_again(a.drop_last(), table, key);
        let x = a.last();
        if seq![table, key].is_prefix_of(x.0) {
            assert(x.0.take(1) =~= x.0.take(2).take(1));
            assert(seq![table, key].take(1) =~= seq![table]);
            assert(seq![table].is_prefix_of(x.0));
        }
        let rest = a.drop_last().filter(q);
        if q(x) {
            assert(rest.push(x).drop_last() =~= rest);
        }
    }
}

/// Trusts a directory in a document, or stops to, and says whether that changed it.
fn edit_document(doc: &mut toml_edit::DocumentMut, key: &str, trusted: bool) -> (r: AppResult<bool>)
    ensures
        match r {
            Ok(true) => edited(toml_holds(*old(doc)), key@, trusted) matches Ok(Some(after))
                && after == toml_holds(*final(doc)) && elsewhere(
                toml_layout(*final(doc)),
                touched(toml_holds(*old(doc)), after, key@),
            ) == elsewhere(
                toml_layout(*old(doc)),
                touched(toml_holds(*old(doc)), after, key@),
            ),
            Ok(false) => edited(toml_holds(*old(doc)), key@, trusted) matches Ok(None),
            Err(AppError::Other(e)) => edited(toml_holds(*old(doc)), key@, trusted) matches Err(m)
                && m == e@,
            Err(_) => false,
        },
{
    let ghost before = toml_holds(*doc);
    if !open_table(doc, PROJECTS) {
        return Err(AppError::Other("codex config `projects` is not a table".to_owned()));
    }
    let ghost p = projects_in(before)->Some_0;
    assert(table_at(toml_holds(*doc), PROJECTS@) == Some(p));
    let ghost opened = toml_layout(*doc);
    if trusted {
        if let Some(level) = text_at(doc, PROJECTS, key, "trust_level") {
            if text::same(&level, "trusted") {
                return Ok(false);
            }
        }
        if !put_text(doc, PROJECTS, key, "trust_level", "trusted") {
            return Err(
                AppError::Other(text::cat3("codex config `projects.", key, "` is not a table")),
            );
        }
        assert(toml_holds(*doc) =~= edited(before, key@, trusted)->Ok_0->Some_0);
        proof {
            lemma_elsewhere(toml_layout(*doc), opened, PROJECTS@, key@);
        }
        return Ok(true);
    }
    if !take_entry(doc, PROJECTS, key) {
        return Ok(false);
    }
    proof {
        lemma_elsewhere(toml_layout(*doc), opened, PROJECTS@, key@);
    }
    if is_bare(doc, PROJECTS) {
        take_table(doc, PROJECTS);
    }
    assert(toml_holds(*doc) =~= edited(before, key@, trusted)->Ok_0->Some_0);
    Ok(true)
}

/// What a configuration reads once a directory is trusted in it, or is not any more;
/// `None` where it is left as it is.
fn edit(config_path: &str, existing: &str, key: &str, trusted: bool) -> (r: AppResult<
    Option<String>,
>)
    ensures
        match toml_of(existing@) {
            Err(e) => r matches Err(AppError::Other(m)) && m@ == config_path@
                + " is not valid TOML: "@ + e,
            Ok((holds, layout)) => match edited(holds, key@, trusted) {
                Err(e) => r matches Err(AppError::Other(m)) && m@ == e,
                Ok(None) => r matches Ok(None),
                Ok(Some(after)) => r matches Ok(Some(s)) && writes(
                    s@,
                    after,
                    layout,
                    touched(holds, after, key@),
                ),
            },
        },
{
    let mut doc = match document_of(existing) {
        Ok(d) => d,
        Err(e) => {
            return Err(AppError::Other(text::cat3(config_path, " is not valid TOML: ", &e)));
        },
    };
    match edit_document(&mut doc, key, trusted) {
        Ok(true) => Ok(Some(written(&doc))),
        Ok(false) => Ok(None),
        Err(e) => Err(e),
    }
}

/// What the configuration reads once a directory is trusted; `None` where it is
/// already.
pub fn trust(config_path: &str, existing: &str, key: &str) -> (r: AppResult<Option<String>>)
    ensures
        match toml_of(existing@) {
            Err(e) => r matches Err(AppError::Other(m)) && m@ == config_path@
                + " is not valid TOML: "@ + e,
            Ok((holds, layout)) => match edited(holds, key@, true) {
                Err(e) => r matches Err(AppError::Other(m)) && m@ == e,
                Ok(None) => r matches Ok(None),
                Ok(Some(after)) => r matches Ok(Some(s)) && writes(
                    s@,
                    after,
                    layout,
                    touched(holds, after, key@),
                ),
            },
        },
{
    edit(config_path, existing, key, true)
}

/// What the configuration reads without a directory's entry; `None` where it has
/// none.
pub fn untrust(config_path: &str, existing: &str, key: &str) -> (r: AppResult<Option<String>>)
    ensures
        match toml_of(existing@) {
            Err(e) => r matches Err(AppError::Other(m)) && m@ == config_path@
                + " is not valid TOML: "@ + e,
            Ok((holds, layout)) => match edited(holds, key@, false) {
                Err(e) => r matches Err(AppError::Other(m)) && m@ == e,
                Ok(None) => r matches Ok(None),
                Ok(Some(after)) => r matches Ok(Some(s)) && writes(
                    s@,
                    after,
                    layout,
                    touched(holds, after, key@),
                ),
            },
        },
{
    edit(config_path, existing, key, false)
}

/// What is to be done about codex's configuration.
pub enum TrustAction {
    Nothing,
    /// Replace the file at a path by a text.
    Write { path: String, contents: String },
    /// The session starts all the same: say why codex will ask.
    Warn(String),
}

/// What trusting a directory comes to. `config` is where the configuration is, and
/// what it holds; `None` without a home directory.
pub fn trust_or_warn(config: Option<(&str, &str)>, key: &str) -> (r: TrustAction)
    ensures
        match config {
            None => r matches TrustAction::Warn(w) && w@
                == "no HOME — cannot mark codex project trusted"@,
            Some((path, existing)) => match toml_of(existing@) {
                Err(e) => r matches TrustAction::Warn(w) && w@
                    == "could not mark codex project trusted: "@ + (path@
                    + " is not valid TOML: "@ + e),
                Ok((holds, layout)) => match edited(holds, key@, true) {
                    Err(e) => r matches TrustAction::Warn(w) && w@
                        == "could not mark codex project trusted: "@ + e,
                    Ok(None) => r matches TrustAction::Nothing,
                    Ok(Some(after)) => r matches TrustAction::Write { path: p, contents } && p@
                        == path@ && writes(contents@, after, layout, touched(holds, after, key@)),
                },
            },
        },
{
    let (path, existing) = match config {
        Some(c) => c,
        None => {
            return TrustAction::Warn("no HOME — cannot mark codex project trusted".to_owned());
        },
    };
    match trust(path, existing, key) {
        Ok(Some(contents)) => TrustAction::Write { path: path.to_owned(), contents },
        Ok(None) => TrustAction::Nothing,
        Err(e) => TrustAction::Warn(
            text::cat("could not mark codex project trusted: ", &e.message()),
        ),
    }
}

/// What dropping a directory's entry comes to.
pub fn untrust_or_warn(config: Option<(&str, &str)>, key: &str) -> (r: TrustAction)
    ensures
        match config {
            None => r matches TrustAction::Nothing,
            Some((path, existing)) => match toml_of(existing@) {
                Err(e) => r matches TrustAction::Warn(w) && w@
                    == "could not drop codex project trust: "@ + (path@ + " is not valid TOML: "@
                    + e),
                Ok((holds, layout)) => match edited(holds, key@, false) {
                    Err(e) => r matches TrustAction::Warn(w) && w@
                        == "could not drop codex project trust: "@ + e,
                    Ok(None) => r matches TrustAction::Nothing,
                    Ok(Some(after)) => r matches TrustAction::Write { path: p, contents } && p@
                        == path@ && writes(contents@, after, layout, touched(holds, after, key@)),
                },
            },
        },
{
    let (path, existing) = match config {
        Some(c) => c,
        None => {
            return TrustAction::Nothing;
        },
    };
    match untrust(path, existing, key) {
        Ok(Some(contents)) => TrustAction::Write { path: path.to_owned(), contents },
        Ok(None) => TrustAction::Nothing,
        Err(e) => TrustAction::Warn(
            text::cat("could not drop codex project trust: ", &e.message()),
        ),
    }
}

/// Trusting a directory that is trusted changes nothing.
pub proof fn trusting_twice_is_trusting_once(
    holds: Map<Seq<char>, TomlItem>,
    key: Seq<char>,
    after: Map<Seq<char>, TomlItem>,
)
    requires
        edited(holds, key, true) matches Ok(Some(a)) && a == after,
    ensures
        edited(after, key, true) matches Ok(None),
{
    assert(projects_in(after)->Some_0.contains_key(key));
}

/// Whatever is done about one directory, the rest of the document stays as it is:
/// the other directories, and everything outside their table.
pub proof fn the_rest_of_the_file_survives(
    holds: Map<Seq<char>, TomlItem>,
    key: Seq<char>,
    trusted: bool,
    after: Map<Seq<char>, TomlItem>,
)
    requires
        edited(holds, key, trusted) matches Ok(Some(a)) && a == after,
    ensures
        holds.remove(PROJECTS@) == after.remove(PROJECTS@),
        after.contains_key(PROJECTS@) ==> projects_in(holds)->Some_0.remove(key) == projects_in(
            after,
        )->Some_0.remove(key),
        !after.contains_key(PROJECTS@) ==> bare(projects_in(holds)->Some_0.remove(key)),
{
    assert(holds.remove(PROJECTS@) =~= after.remove(PROJECTS@));
    if after.contains_key(PROJECTS@) {
        assert(projects_in(holds)->Some_0.remove(key) =~= projects_in(after)->Some_0.remove(key));
    }
}

/// A document that did not know a directory is what it was once the directory was
/// trusted and is not any more, but for an empty table that it may have had.
pub proof fn untrusting_undoes_trusting(
    holds: Map<Seq<char>, TomlItem>,
    key: Seq<char>,
    after: Map<Seq<char>, TomlItem>,
)
    requires
        projects_in(holds) matches Some(p) && !p.contains_key(key) && !(holds.contains_key(
            PROJECTS@,
        ) && bare(p)),
        edited(holds, key, true) matches Ok(Some(a)) && a == after,
    ensures
        edited(after, key, false) matches Ok(Some(back)) && back == holds,
{
    let p = projects_in(holds)->Some_0;
    let q = projects_in(after)->Some_0;
    assert(q.remove(key) =~= p);
    if holds.contains_key(PROJECTS@) {
        assert(after.insert(PROJECTS@, TomlItem::Table(p)) =~= holds);
    } else {
        assert(bare(p));
        assert(after.remove(PROJECTS@) =~= holds);
    }
}

/// The search for the name under which codex keeps a directory: its resolved path.
/// The directory may be gone already, so the deepest part of the path that is there
/// is resolved, and the rest is put behind it.
pub struct KeySearch {
    pub dir: String,
    /// The path to be resolved next.
    pub cursor: String,
    /// What was taken off the path, the last part first.
    pub suffix: Vec<String>,
}

/// How the search goes on.
pub enum KeyStep {
    /// Resolve the path of this search.
    Resolve(KeySearch),
    Key(String),
}

/// A path with parts behind it, the last one of the list first.
pub open spec fn with_parts(path: Seq<char>, parts: Seq<Seq<char>>) -> Seq<char>
    decreases parts.len(),
{
    if parts.len() == 0 {
        path
    } else {
        with_parts(paths::join(path, parts.last()), parts.drop_last())
    }
}

impl KeySearch {
    /// The search for a directory's key starts with the directory itself.
    pub fn start(dir: &str) -> (r: KeySearch)
        ensures
            r.dir@ == dir@,
            r.cursor@ == dir@,
            r.suffix@.len() == 0,
    {
        KeySearch { dir: dir.to_owned(), cursor: dir.to_owned(), suffix: Vec::new() }
    }

    /// What follows once the path was resolved, or could not be.
    pub open spec fn follows(self, resolved: Option<Seq<char>>, step: KeyStep) -> bool {
        match resolved {
            Some(p) => step matches KeyStep::Key(k) && k@ == with_parts(
                p,
                text::views(self.suffix@),
            ),
            None => match (paths::file_name_of(self.cursor@), paths::parent_of(self.cursor@)) {
                (Some(name), Some(parent)) => step matches KeyStep::Resolve(next) && next.dir@
                    == self.dir@ && next.cursor@ == parent && text::views(next.suffix@)
                    == text::views(self.suffix@).push(name),
                _ => step matches KeyStep::Key(k) && k@ == self.dir@,
            },
        }
    }

    pub fn project_key(self, resolved: Option<&str>) -> (r: KeyStep)
        ensures
            self.follows(text::given(resolved), r),
    {
        if let Some(p) = resolved {
            let mut out = p.to_owned();
            let ghost all = text::views(self.suffix@);
            let mut n: usize = self.suffix.len();
            assert(all.take(n as int) =~= all);
            while n > 0
                invariant
                    n <= self.suffix.len(),
                    all == text::views(self.suffix@),
                    with_parts(p@, all) == with_parts(out@, all.take(n as int)),
                decreases n,
            {
                n = n - 1;
                assert(all.take(n + 1).last() == self.suffix@[n as int]@);
                assert(all.take(n + 1).drop_last() =~= all.take(n as int));
                out = paths::joined(&out, &self.suffix[n]);
            }
            return KeyStep::Key(out);
        }
        match (paths::file_name(&self.cursor), paths::parent(&self.cursor)) {
            (Some(name), Some(parent)) => {
                let ghost had = text::views(self.suffix@);
                let mut suffix = self.suffix;
                suffix.push(name);
                assert(text::views(suffix@) =~= had.push(name@));
                KeyStep::Resolve(KeySearch { dir: self.dir, cursor: parent, suffix })
            },
            _ => KeyStep::Key(self.dir),
        }
    }
}

/// A directory that is gone has the key that it had: what its parent resolves to,
/// with its name.
pub proof fn the_key_outlives_the_directory(
    search: KeySearch,
    parent: Seq<char>,
    there: KeyStep,
    gone: KeyStep,
    found: KeyStep,
)
    requires
        search.cursor@ == search.dir@,
        search.suffix@.len() == 0,
        paths::file_name_of(search.dir@) is Some,
        paths::parent_of(search.dir@) is Some,
        search.follows(
            Some(paths::join(parent, paths::file_name_of(search.dir@)->Some_0)),
            there,
        ),
        search.follows(None, gone),
        gone is Resolve,
        gone->Resolve_0.follows(Some(parent), found),
    ensures
        there is Key,
        found is Key,
        there->Key_0@ == found->Key_0@,
{
    let name = paths::file_name_of(search.dir@)->Some_0;
    let parts = text::views(gone->Resolve_0.suffix@);
    assert(text::views(search.suffix@) =~= seq![]);
    assert(parts =~= seq![name]);
    assert(parts.drop_last() =~= seq![]);
    assert(with_parts(paths::join(parent, name), seq![]) == paths::join(parent, name));
    assert(with_parts(parent, parts) == with_parts(paths::join(parent, name), parts.drop_last()));
}

/// A directory that was trusted reads as trusted: the file has a table of projects, in
/// it a table for the directory, and in that the level as a text.
pub proof fn trusting_is_written_down(
    holds: Map<Seq<char>, TomlItem>,
    key: Seq<char>,
    after: Map<Seq<char>, TomlItem>,
)
    requires
        edited(holds, key, true) == Ok::<_, Seq<char>>(Some(after)),
    ensures
        after.contains_key("projects"@),
        after["projects"@] is Table,
        after["projects"@]->Table_0.contains_key(key),
        ({
            let item = after["projects"@]->Table_0[key];
            let fields = if item is Table {
                item->Table_0
            } else {
                item->InlineTable_0
            };
            (item is Table || item is InlineTable) && fields.contains_key("trust_level"@)
                && fields["trust_level"@] == TomlItem::Text("trusted"@)
        }),
{
}

/// A directory that is no longer trusted is not among the projects.
pub proof fn untrusting_takes_it_out(
    holds: Map<Seq<char>, TomlItem>,
    key: Seq<char>,
    after: Map<Seq<char>, TomlItem>,
)
    requires
        edited(holds, key, false) == Ok::<_, Seq<char>>(Some(after)),
    ensures
        after.contains_key("projects"@) ==> after["projects"@] is Table
            && !after["projects"@]->Table_0.contains_key(key),
{
}

/// Nothing is written where nothing is to be done: the directory is trusted already, or
/// is not among the projects and shall not be. A file whose projects are no table, or
/// whose entry for the directory is none where it is to be trusted, is refused.
pub proof fn when_nothing_is_written(holds: Map<Seq<char>, TomlItem>, key: Seq<char>)
    ensures
        !holds.contains_key("projects"@) ==> edited(holds, key, false) == Ok::<
            Option<Map<Seq<char>, TomlItem>>,
            Seq<char>,
        >(None),
        !holds.contains_key("projects"@) ==> edited(holds, key, true) matches Ok(Some(_)),
        holds.contains_key("projects"@) && !(holds["projects"@] is Table) ==> edited(
            holds,
            key,
            true,
        ) is Err && edited(holds, key, false) is Err,
        holds.contains_key("projects"@) && holds["projects"@] is Table ==> {
            let p = holds["projects"@]->Table_0;
            let off = edited(holds, key, false);
            let on = edited(holds, key, true);
            &&& off is Ok
            &&& off->Ok_0 is None <==> !p.contains_key(key)
            &&& !p.contains_key(key) ==> on is Ok && on->Ok_0 is Some
            &&& p.contains_key(key) && !(p[key] is Table || p[key] is InlineTable) ==> on is Err
            &&& p.contains_key(key) && p[key] is Table ==> on is Ok && (on->Ok_0 is None
                <==> p[key]->Table_0.contains_key("trust_level"@)
                && p[key]->Table_0["trust_level"@] == TomlItem::Text("trusted"@))
        },
{
}

/// The steps that were taken off a path are put back in the order that they had: the one
/// that was taken off last comes first.
pub proof fn steps_are_put_back(path: Seq<char>, parts: Seq<Seq<char>>, last: Seq<char>)
    ensures
        with_parts(path, seq![]) == path,
        with_parts(path, parts.push(last)) == with_parts(paths::join(path, last), parts),
        with_parts(path, seq![last]) == paths::join(path, last),
{
    assert(parts.push(last).drop_last() =~= parts);
    assert(seq![last].drop_last() =~= seq![]);
    let none: Seq<Seq<char>> = seq![];
    assert(with_parts(paths::join(path, last), none) == paths::join(path, last));
}

/// Where the file has projects before and after, only the entry of the one project is
/// written anew; else the projects are.
pub proof fn what_is_written_anew(
    holds: Map<Seq<char>, TomlItem>,
    after: Map<Seq<char>, TomlItem>,
    key: Seq<char>,
)
    ensures
        holds.contains_key("projects"@) && after.contains_key("projects"@) ==> touched(
            holds,
            after,
            key,
        ) == seq!["projects"@, key],
        !holds.contains_key("projects"@) || !after.contains_key("projects"@) ==> touched(
            holds,
            after,
            key,
        ) == seq!["projects"@],
{
}

/// What lies elsewhere in a file is all that does not lie below the place that is
/// written.
pub proof fn what_lies_elsewhere(
    layout: Seq<(Seq<Seq<char>>, Seq<char>)>,
    at: Seq<Seq<char>>,
    item: (Seq<Seq<char>>, Seq<char>),
)
    ensures
        elsewhere(layout, at).contains(item) <==> layout.contains(item) && !at.is_prefix_of(item.0),
{
    let p = outside(at);
    let kept = layout.filter(p);
    if layout.contains(item) && p(item) {
        let i = choose|i: int| 0 <= i < layout.len() && layout[i] == item;
        layout.lemma_filter_contains(p, i);
    }
    if kept.contains(item) {
        let i = choose|i: int| 0 <= i < kept.len() && kept[i] == item;
        layout.lemma_filter_pred(p, i);
        crate::list::lemma_filter_places(layout, p);
        let a = crate::list::place_of(layout, p, i);
        assert(layout[a] == item);
    }
}

} // verus!
