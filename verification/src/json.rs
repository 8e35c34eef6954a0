//! JSON documents: what they hold, and reading and writing them as text.

use vstd::prelude::*;

use crate::list;
use crate::text;

verus! {

#[verifier::external_type_specification]
#[verifier::external_body]
pub struct ExJsonValue(serde_json::Value);

#[verifier::external_type_specification]
#[verifier::external_body]
pub struct ExJsonNumber(serde_json::Number);

/// A JSON document. Numbers are carried through as they were read.
pub enum Json {
    Null,
    Bool(bool),
    Number(serde_json::Number),
    Str(String),
    Array(Vec<Json>),
    Object(Vec<(String, Json)>),
}

/// A JSON document by what it holds.
#[verifier::ext_equal]
pub enum JsonView {
    Null,
    Bool(bool),
    Number(serde_json::Number),
    Str(Seq<char>),
    Array(Seq<JsonView>),
    Object(Seq<(Seq<char>, JsonView)>),
}

/// What a document holds.
pub open spec fn shown(j: Json) -> JsonView
    decreases j,
{
    match j {
        Json::Null => JsonView::Null,
        Json::Bool(b) => JsonView::Bool(b),
        Json::Number(n) => JsonView::Number(n),
        Json::Str(s) => JsonView::Str(s@),
        Json::Array(a) => JsonView::Array(
            Seq::new(
                a@.len(),
                |i: int|
                    if 0 <= i < a@.len() {
                        shown(a@[i])
                    } else {
                        JsonView::Null
                    },
            ),
        ),
        Json::Object(o) => JsonView::Object(
            Seq::new(
                o@.len(),
                |i: int|
                    if 0 <= i < o@.len() {
                        (o@[i].0@, shown(o@[i].1))
                    } else {
                        (seq![], JsonView::Null)
                    },
            ),
        ),
    }
}

impl View for Json {
    type V = JsonView;

    open spec fn view(&self) -> JsonView {
        shown(*self)
    }
}

/// What a list of documents holds.
pub open spec fn elements(a: Seq<Json>) -> Seq<JsonView> {
    a.map_values(|j: Json| j@)
}

/// What the members of an object hold.
pub open spec fn members(o: Seq<(String, Json)>) -> Seq<(Seq<char>, JsonView)> {
    o.map_values(|m: (String, Json)| (m.0@, m.1@))
}

pub(crate) proof fn lemma_shown(j: Json)
    ensures
        j matches Json::Array(a) ==> j@ == JsonView::Array(elements(a@)),
        j matches Json::Object(o) ==> j@ == JsonView::Object(members(o@)),
{
    match j {
        Json::Array(a) => {
            assert(j@->Array_0 =~= elements(a@));
        },
        Json::Object(o) => {
            assert(j@->Object_0 =~= members(o@));
        },
        _ => {},
    }
}

/// Whether an object has no key twice.
pub open spec fn names_distinct(o: Seq<(Seq<char>, JsonView)>) -> bool {
    forall|i: int, k: int| 0 <= i < k < o.len() ==> (#[trigger] o[i]).0 != (#[trigger] o[k]).0
}

/// Whether no object in a document has a key twice.
pub open spec fn keys_distinct(j: JsonView) -> bool
    decreases j,
{
    match j {
        JsonView::Array(a) => forall|i: int| 0 <= i < a.len() ==> keys_distinct(#[trigger] a[i]),
        JsonView::Object(o) => names_distinct(o) && forall|i: int|
            0 <= i < o.len() ==> keys_distinct((#[trigger] o[i]).1),
        _ => true,
    }
}

pub(crate) proof fn lemma_array_distinct(a: Seq<JsonView>)
    ensures
        keys_distinct(JsonView::Array(a)) == forall|i: int|
            0 <= i < a.len() ==> keys_distinct(#[trigger] a[i]),
{
    let j = JsonView::Array(a);
    assert(j->Array_0 == a);
    if keys_distinct(j) {
        assert forall|i: int| 0 <= i < a.len() implies keys_distinct(#[trigger] a[i]) by {
            assert(j->Array_0[i] == a[i]);
        }
    }
}

pub(crate) proof fn lemma_object_distinct(o: Seq<(Seq<char>, JsonView)>)
    ensures
        keys_distinct(JsonView::Object(o)) == (names_distinct(o) && forall|i: int|
            0 <= i < o.len() ==> keys_distinct((#[trigger] o[i]).1)),
{
    let j = JsonView::Object(o);
    assert(j->Object_0 == o);
    if keys_distinct(j) {
        assert forall|i: int| 0 <= i < o.len() implies keys_distinct((#[trigger] o[i]).1) by {
            assert(j->Object_0[i] == o[i]);
        }
    }
}

/// Whether a document has no numbers and nests at most `n` deep.
pub open spec fn plain(j: JsonView, n: nat) -> bool
    decreases n,
{
    match j {
        JsonView::Number(_) => false,
        JsonView::Array(a) => n > 0 && forall|i: int|
            0 <= i < a.len() ==> plain(#[trigger] a[i], (n - 1) as nat),
        JsonView::Object(o) => n > 0 && forall|i: int|
            0 <= i < o.len() ==> plain((#[trigger] o[i]).1, (n - 1) as nat),
        _ => true,
    }
}

pub(crate) proof fn lemma_plain_object(o: Seq<(Seq<char>, JsonView)>, n: nat)
    requires
        n > 0,
        forall|i: int| 0 <= i < o.len() ==> plain((#[trigger] o[i]).1, (n - 1) as nat),
    ensures
        plain(JsonView::Object(o), n),
{
    let j = JsonView::Object(o);
    assert(j->Object_0 == o);
}

/// What a `serde_json::Value` holds.
pub uninterp spec fn value_holds(v: serde_json::Value) -> JsonView;

/// What `serde_json::from_str` makes of a text: a document, or its words on why
/// the text is none.
pub uninterp spec fn json_of(text: Seq<char>) -> Result<JsonView, Seq<char>>;

/// How `serde_json::to_string_pretty` writes a document.
pub uninterp spec fn pretty_text(j: JsonView) -> Result<Seq<char>, Seq<char>>;

/// How a `serde_json::Value` is displayed: its text without white space.
pub uninterp spec fn compact_text(j: JsonView) -> Seq<char>;

/// Whether a text is read as this document.
pub open spec fn reads_as(text: Seq<char>, j: JsonView) -> bool {
    json_of(text) matches Ok(h) && h == j
}

/// `serde_json::from_str`: reads a document.
#[verifier::external_body]
fn value_of_text(text: &str) -> (r: Result<serde_json::Value, String>)
    ensures
        match r {
            Ok(v) => reads_as(text@, value_holds(v)),
            Err(e) => json_of(text@) matches Err(w) && w == e@,
        },
{
    serde_json::from_str(text).map_err(|e: serde_json::Error| e.to_string())
}

/// Takes a `serde_json::Value` apart, variant by variant. Its objects never hold
/// a key twice.
#[verifier::external_body]
fn json_of_value(v: serde_json::Value) -> (r: Json)
    ensures
        r@ == value_holds(v),
        keys_distinct(r@),
{
    match v {
        serde_json::Value::Null => Json::Null,
        serde_json::Value::Bool(b) => Json::Bool(b),
        serde_json::Value::Number(n) => Json::Number(n),
        serde_json::Value::String(s) => Json::Str(s),
        serde_json::Value::Array(a) => Json::Array(a.into_iter().map(json_of_value).collect()),
        serde_json::Value::Object(o) => Json::Object(
            o.into_iter().map(|(k, w)| (k, json_of_value(w))).collect(),
        ),
    }
}

/// Puts a `serde_json::Value` together, variant by variant. Its objects keep the
/// order of their keys; of a key that occurs twice they would keep the last
/// value only.
#[verifier::external_body]
fn value_of_json(j: Json) -> (r: serde_json::Value)
    ensures
        keys_distinct(j@) ==> value_holds(r) == j@,
{
    match j {
        Json::Null => serde_json::Value::Null,
        Json::Bool(b) => serde_json::Value::Bool(b),
        Json::Number(n) => serde_json::Value::Number(n),
        Json::Str(s) => serde_json::Value::String(s),
        Json::Array(a) => serde_json::Value::Array(a.into_iter().map(value_of_json).collect()),
        Json::Object(o) => serde_json::Value::Object(
            o.into_iter().map(|(k, w)| (k, value_of_json(w))).collect(),
        ),
    }
}

/// `serde_json::to_string_pretty`. What it writes reads back as the same
/// document, with or without a line end behind it, which the reader passes over.
/// That is claimed without numbers, since reading a fraction may round it, and up to
/// a depth of 127, since the reader refuses deeper ones.
#[verifier::external_body]
fn pretty_of_value(v: &serde_json::Value) -> (r: Result<String, String>)
    ensures
        match r {
            Ok(t) => (pretty_text(value_holds(*v)) matches Ok(w) && w == t@) && (plain(
                value_holds(*v),
                127,
            ) ==> reads_as(t@, value_holds(*v)) && reads_as(
                t@ + seq!['\n'],
                value_holds(*v),
            )),
            Err(e) => pretty_text(value_holds(*v)) matches Err(w) && w == e@,
        },
{
    serde_json::to_string_pretty(v).map_err(|e| e.to_string())
}

/// How a `serde_json::Value` is displayed. It reads back as the same document, as
/// far as that is claimed of the text with white space.
#[verifier::external_body]
fn compact_of_value(v: &serde_json::Value) -> (r: String)
    ensures
        r@ == compact_text(value_holds(*v)),
        plain(value_holds(*v), 127) ==> reads_as(r@, value_holds(*v)),
{
    v.to_string()
}

/// Read a document.
pub fn parse(text: &str) -> (r: Result<Json, String>)
    ensures
        match r {
            Ok(j) => reads_as(text@, j@) && keys_distinct(j@),
            Err(e) => json_of(text@) matches Err(w) && w == e@,
        },
{
    match value_of_text(text) {
        Ok(v) => Ok(json_of_value(v)),
        Err(e) => Err(e),
    }
}

/// Write a document over several lines.
pub fn pretty(j: Json) -> (r: Result<String, String>)
    requires
        keys_distinct(j@),
    ensures
        match r {
            Ok(t) => (pretty_text(j@) matches Ok(w) && w == t@) && (plain(j@, 127)
                ==> reads_as(t@, j@) && reads_as(t@ + seq!['\n'], j@)),
            Err(e) => pretty_text(j@) matches Err(w) && w == e@,
        },
{
    pretty_of_value(&value_of_json(j))
}

/// Write a document without white space.
pub fn compact(j: Json) -> (r: String)
    requires
        keys_distinct(j@),
    ensures
        r@ == compact_text(j@),
        plain(j@, 127) ==> reads_as(r@, j@),
{
    compact_of_value(&value_of_json(j))
}

/// Having this key.
pub open spec fn keyed(key: Seq<char>) -> spec_fn((Seq<char>, JsonView)) -> bool {
    |m: (Seq<char>, JsonView)| m.0 == key
}

/// Where a key stands in an object.
pub open spec fn key_at(o: Seq<(Seq<char>, JsonView)>, key: Seq<char>) -> Option<int> {
    list::first_where(o, keyed(key))
}

/// What an object has under a key.
pub open spec fn get(o: Seq<(Seq<char>, JsonView)>, key: Seq<char>) -> Option<JsonView> {
    match key_at(o, key) {
        Some(i) => Some(o[i].1),
        None => None,
    }
}

/// The object with this under the key.
pub open spec fn with(o: Seq<(Seq<char>, JsonView)>, key: Seq<char>, v: JsonView) -> Seq<
    (Seq<char>, JsonView),
> {
    match key_at(o, key) {
        Some(i) => o.update(i, (key, v)),
        None => o.push((key, v)),
    }
}

/// The object without the key.
pub open spec fn without(o: Seq<(Seq<char>, JsonView)>, key: Seq<char>) -> Seq<
    (Seq<char>, JsonView),
> {
    match key_at(o, key) {
        Some(i) => o.remove(i),
        None => o,
    }
}

/// The object under a key; an empty one where there is none.
pub open spec fn object_in(o: Seq<(Seq<char>, JsonView)>, key: Seq<char>) -> Seq<
    (Seq<char>, JsonView),
> {
    match get(o, key) {
        Some(JsonView::Object(m)) => m,
        _ => seq![],
    }
}

/// The array under a key; an empty one where there is none.
pub open spec fn array_in(o: Seq<(Seq<char>, JsonView)>, key: Seq<char>) -> Seq<JsonView> {
    match get(o, key) {
        Some(JsonView::Array(a)) => a,
        _ => seq![],
    }
}

pub(crate) proof fn lemma_get(o: Seq<(Seq<char>, JsonView)>, key: Seq<char>, i: int)
    requires
        keys_distinct(JsonView::Object(o)),
        0 <= i < o.len(),
        o[i].0 == key,
    ensures
        key_at(o, key) == Some(i),
{
    list::lemma_first_where(o, keyed(key));
    let k = key_at(o, key);
    if k is None {
        assert(o[i].0 == key);
    } else if k->0 < i {
        assert(o[k->0].0 != o[i].0);
    }
}

/// Putting something under one key leaves every other key as it was.
pub(crate) proof fn lemma_with(
    o: Seq<(Seq<char>, JsonView)>,
    key: Seq<char>,
    v: JsonView,
    other: Seq<char>,
)
    ensures
        get(with(o, key, v), key) == Some(v),
        other != key ==> get(with(o, key, v), other) == get(o, other),
        keys_distinct(JsonView::Object(o)) && keys_distinct(v) ==> keys_distinct(
            JsonView::Object(with(o, key, v)),
        ),
{
    let is = keyed(key);
    let is_other = keyed(other);
    let w = with(o, key, v);
    list::lemma_first_where(o, is);
    list::lemma_first_where(o, is_other);
    match key_at(o, key) {
        Some(i) => {
            list::lemma_first_where_is(w, is, i);
        },
        None => {
            list::lemma_first_where_is(w, is, o.len() as int);
        },
    }
    if other != key {
        match key_at(o, other) {
            Some(i) => {
                list::lemma_first_where_is(w, is_other, i);
            },
            None => {
                list::lemma_first_where_none(w, is_other);
            },
        }
    }
    if keys_distinct(JsonView::Object(o)) && keys_distinct(v) {
        assert forall|i: int| 0 <= i < w.len() implies keys_distinct((#[trigger] w[i]).1) by {
            if i < o.len() {
                assert(keys_distinct(o[i].1));
            }
        }
        assert forall|i: int, k: int| 0 <= i < k < w.len() implies (#[trigger] w[i]).0 != (
        #[trigger] w[k]).0 by {
            if k < o.len() {
                assert(o[i].0 != o[k].0);
            }
        }
    }
}

pub(crate) proof fn lemma_without(
    o: Seq<(Seq<char>, JsonView)>,
    key: Seq<char>,
    other: Seq<char>,
)
    requires
        keys_distinct(JsonView::Object(o)),
    ensures
        get(without(o, key), key) is None,
        other != key ==> get(without(o, key), other) == get(o, other),
        keys_distinct(JsonView::Object(without(o, key))),
{
    let is = keyed(key);
    let is_other = keyed(other);
    let w = without(o, key);
    list::lemma_first_where(o, is);
    list::lemma_first_where(o, is_other);
    if let Some(at) = key_at(o, key) {
        assert forall|i: int| 0 <= i < w.len() implies w[i] == (if i < at {
            o[i]
        } else {
            o[i + 1]
        }) by {}
        assert forall|i: int| 0 <= i < w.len() implies (#[trigger] w[i]).0 != key by {
            if i >= at {
                assert(o[at].0 != o[i + 1].0);
            }
        }
        assert forall|i: int, k: int| 0 <= i < k < w.len() implies (#[trigger] w[i]).0 != (
        #[trigger] w[k]).0 by {
            let a = if i < at {
                i
            } else {
                i + 1
            };
            let b = if k < at {
                k
            } else {
                k + 1
            };
            assert(o[a].0 != o[b].0);
        }
        assert forall|i: int| 0 <= i < w.len() implies keys_distinct((#[trigger] w[i]).1) by {
            let a = if i < at {
                i
            } else {
                i + 1
            };
            assert(keys_distinct(o[a].1));
        }
        list::lemma_first_where_none(w, is);
        if other != key {
            match key_at(o, other) {
                Some(i) => {
                    let a = if i < at {
                        i
                    } else {
                        i - 1
                    };
                    lemma_get(w, other, a);
                },
                None => {
                    list::lemma_first_where_none(w, is_other);
                },
            }
        }
    }
}

/// Where a key stands in an object.
pub(crate) fn find(o: &[(String, Json)], key: &str) -> (r: Option<usize>)
    ensures
        match r {
            Some(i) => i < o.len() && key_at(members(o@), key@) == Some(i as int) && o@[i as int].0@
                == key@,
            None => key_at(members(o@), key@) is None,
        },
{
    let ghost named = keyed(key@);
    let ghost all = members(o@);
    let mut i: usize = 0;
    while i < o.len()
        invariant
            i <= o.len(),
            all == members(o@),
            named == keyed(key@),
            forall|k: int| 0 <= k < i ==> !named(#[trigger] all[k]),
        decreases o.len() - i,
    {
        assert(all[i as int] == (o@[i as int].0@, o@[i as int].1@));
        if text::same(&o[i].0, key) {
            proof {
                list::lemma_first_where_is(all, named, i as int);
            }
            return Some(i);
        }
        i = i + 1;
    }
    proof {
        list::lemma_first_where_none(all, named);
    }
    None
}

/// Put something under a key.
pub(crate) fn put(o: &mut Vec<(String, Json)>, key: &str, v: Json)
    ensures
        members(final(o)@) == with(members(old(o)@), key@, v@),
{
    match find(o, key) {
        Some(i) => {
            o.set(i, (key.to_owned(), v));
        },
        None => {
            o.push((key.to_owned(), v));
        },
    }
    assert(members(o@) =~= with(members(old(o)@), key@, v@));
}

/// Take what an object has under a key out of it. The key keeps its place.
pub(crate) fn take(o: &mut Vec<(String, Json)>, key: &str) -> (r: Option<Json>)
    ensures
        match r {
            Some(v) => get(members(old(o)@), key@) == Some(v@) && members(final(o)@) == with(
                members(old(o)@),
                key@,
                JsonView::Null,
            ),
            None => get(members(old(o)@), key@) is None && final(o)@ == old(o)@,
        },
{
    match find(o, key) {
        Some(i) => {
            let (k, v) = o.remove(i);
            o.insert(i, (k, Json::Null));
            assert(members(o@) =~= with(members(old(o)@), key@, JsonView::Null));
            Some(v)
        },
        None => None,
    }
}

/// Remove a key.
pub(crate) fn drop_key(o: &mut Vec<(String, Json)>, key: &str)
    ensures
        members(final(o)@) == without(members(old(o)@), key@),
{
    if let Some(i) = find(o, key) {
        o.remove(i);
    }
    assert(members(o@) =~= without(members(old(o)@), key@));
}

/// Whether an array has this text among its elements.
pub(crate) fn has_text(a: &[Json], t: &str) -> (r: bool)
    ensures
        r == elements(a@).contains(JsonView::Str(t@)),
{
    let ghost all = elements(a@);
    let mut i: usize = 0;
    while i < a.len()
        invariant
            i <= a.len(),
            all == elements(a@),
            forall|k: int| 0 <= k < i ==> #[trigger] all[k] != JsonView::Str(t@),
        decreases a.len() - i,
    {
        assert(all[i as int] == a@[i as int]@);
        if let Json::Str(s) = &a[i] {
            if text::same(s, t) {
                return true;
            }
        }
        i = i + 1;
    }
    false
}

/// Putting something under a key twice is putting the second one there.
pub(crate) proof fn lemma_with_twice(
    o: Seq<(Seq<char>, JsonView)>,
    key: Seq<char>,
    a: JsonView,
    b: JsonView,
)
    ensures
        with(with(o, key, a), key, b) == with(o, key, b),
{
    let w = with(o, key, a);
    list::lemma_first_where(o, keyed(key));
    match key_at(o, key) {
        Some(i) => {
            list::lemma_first_where_is(w, keyed(key), i);
        },
        None => {
            list::lemma_first_where_is(w, keyed(key), o.len() as int);
        },
    }
    assert(with(w, key, b) =~= with(o, key, b));
}

/// Putting back what is there changes nothing.
pub(crate) proof fn lemma_with_same(o: Seq<(Seq<char>, JsonView)>, key: Seq<char>)
    requires
        get(o, key) is Some,
    ensures
        with(o, key, get(o, key)->0) == o,
{
    list::lemma_first_where(o, keyed(key));
    assert(with(o, key, get(o, key)->0) =~= o);
}

pub(crate) proof fn lemma_nested_distinct(o: Seq<(Seq<char>, JsonView)>, key: Seq<char>)
    requires
        keys_distinct(JsonView::Object(o)),
    ensures
        get(o, key) matches Some(v) ==> keys_distinct(v),
        keys_distinct(JsonView::Object(object_in(o, key))),
        keys_distinct(JsonView::Array(array_in(o, key))),
{
    list::lemma_first_where(o, keyed(key));
}

/// Take the object under a key out, to be put back there. Where there is none, an
/// empty one is had.
pub(crate) fn take_object(o: &mut Vec<(String, Json)>, key: &str) -> (r: Vec<(String, Json)>)
    ensures
        members(r@) == object_in(members(old(o)@), key@),
        forall|v: JsonView|
            #[trigger] with(members(final(o)@), key@, v) == with(members(old(o)@), key@, v),
{
    let ghost before = members(o@);
    let taken = take(o, key);
    proof {
        assert forall|v: JsonView| #[trigger] with(members(o@), key@, v) == with(
            before,
            key@,
            v,
        ) by {
            lemma_with_twice(before, key@, JsonView::Null, v);
        }
    }
    match taken {
        Some(v) => {
            proof {
                lemma_shown(v);
            }
            match v {
                Json::Object(m) => m,
                _ => {
                    let none: Vec<(String, Json)> = Vec::new();
                    assert(members(none@) =~= seq![]);
                    none
                },
            }
        },
        None => {
            let none: Vec<(String, Json)> = Vec::new();
            assert(members(none@) =~= seq![]);
            none
        },
    }
}

/// Take the array under a key out, to be put back there. Where there is none, an
/// empty one is had.
pub(crate) fn take_array(o: &mut Vec<(String, Json)>, key: &str) -> (r: Vec<Json>)
    ensures
        elements(r@) == array_in(members(old(o)@), key@),
        forall|v: JsonView|
            #[trigger] with(members(final(o)@), key@, v) == with(members(old(o)@), key@, v),
{
    let ghost before = members(o@);
    let taken = take(o, key);
    proof {
        assert forall|v: JsonView| #[trigger] with(members(o@), key@, v) == with(
            before,
            key@,
            v,
        ) by {
            lemma_with_twice(before, key@, JsonView::Null, v);
        }
    }
    match taken {
        Some(v) => {
            proof {
                lemma_shown(v);
            }
            match v {
                Json::Array(a) => a,
                _ => {
                    let none: Vec<Json> = Vec::new();
                    assert(elements(none@) =~= seq![]);
                    none
                },
            }
        },
        None => {
            let none: Vec<Json> = Vec::new();
            assert(elements(none@) =~= seq![]);
            none
        },
    }
}

/// Put an object under a key.
pub(crate) fn put_object(o: &mut Vec<(String, Json)>, key: &str, m: Vec<(String, Json)>)
    ensures
        members(final(o)@) == with(members(old(o)@), key@, JsonView::Object(members(m@))),
{
    let j = Json::Object(m);
    proof {
        lemma_shown(j);
    }
    put(o, key, j);
}

/// Put an array under a key.
pub(crate) fn put_array(o: &mut Vec<(String, Json)>, key: &str, a: Vec<Json>)
    ensures
        members(final(o)@) == with(members(old(o)@), key@, JsonView::Array(elements(a@))),
{
    let j = Json::Array(a);
    proof {
        lemma_shown(j);
    }
    put(o, key, j);
}

/// Remove a text from an array, however often it is there.
pub(crate) fn drop_text(a: &mut Vec<Json>, t: &str)
    ensures
        elements(final(a)@) == elements(old(a)@).filter(|j: JsonView| j != JsonView::Str(t@)),
{
    let ghost all = elements(a@);
    let ghost p = |j: JsonView| j != JsonView::Str(t@);
    let ghost mut k: int = 0;
    let mut i: usize = 0;
    proof {
        assert(all.take(0).filter(p) =~= seq![]) by {
            all.take(0).lemma_filter_len(p);
        }
        assert(elements(a@) =~= all.take(0).filter(p) + all.skip(0));
    }
    while i < a.len()
        invariant
            0 <= k <= all.len(),
            p == (|j: JsonView| j != JsonView::Str(t@)),
            elements(a@) == all.take(k).filter(p) + all.skip(k),
            i == all.take(k).filter(p).len(),
        decreases a.len() - i,
    {
        proof {
            assert(elements(a@)[i as int] == a@[i as int]@);
            assert(all.take(k + 1) =~= all.take(k).push(all[k]));
            all.take(k).lemma_filter_push(all[k], p);
            assert(a@[i as int]@ == all[k]);
            assert(all.skip(k) =~= seq![all[k]] + all.skip(k + 1));
        }
        let gone = match &a[i] {
            Json::Str(s) => text::same(s, t),
            _ => false,
        };
        let ghost before = elements(a@);
        if gone {
            a.remove(i);
            assert(elements(a@) =~= before.remove(i as int));
            assert(elements(a@) =~= all.take(k + 1).filter(p) + all.skip(k + 1));
        } else {
            i = i + 1;
            assert(elements(a@) =~= all.take(k + 1).filter(p) + all.skip(k + 1));
        }
        proof {
            k = k + 1;
        }
    }
    proof {
        assert(all.skip(k).len() == 0);
        assert(all.take(k) =~= all);
        assert(elements(a@) =~= all.filter(p));
    }
}

/// The number that `serde_json::Number::from` makes of an unsigned integer.
pub uninterp spec fn number_of(n: u64) -> serde_json::Number;

/// `serde_json::Number::from`, on an unsigned integer.
#[verifier::external_body]
fn whole(n: u64) -> (r: serde_json::Number)
    ensures
        r == number_of(n),
{
    serde_json::Number::from(n)
}

/// A whole number as a value.
pub(crate) fn whole_number(n: u64) -> (r: Json)
    ensures
        r@ == JsonView::Number(number_of(n)),
{
    Json::Number(whole(n))
}

/// A text as a value.
pub(crate) fn string(s: &str) -> (r: Json)
    ensures
        r@ == JsonView::Str(s@),
{
    Json::Str(s.to_owned())
}

/// An object as a value.
pub(crate) fn object(o: Vec<(String, Json)>) -> (r: Json)
    ensures
        r@ == JsonView::Object(members(o@)),
{
    let j = Json::Object(o);
    proof {
        lemma_shown(j);
    }
    j
}

/// A member of an object.
pub(crate) fn field(key: &str, value: Json) -> (r: (String, Json))
    ensures
        r.0@ == key@,
        r.1@ == value@,
{
    (key.to_owned(), value)
}

/// Texts as an array.
pub open spec fn text_array(v: Seq<Seq<char>>) -> JsonView {
    JsonView::Array(v.map_values(|s: Seq<char>| JsonView::Str(s)))
}

/// Texts as an array.
pub(crate) fn strings(v: &[String]) -> (r: Json)
    ensures
        r@ == text_array(text::views(v@)),
        keys_distinct(r@),
{
    let ghost all = text::views(v@);
    let mut a: Vec<Json> = Vec::new();
    let mut i: usize = 0;
    while i < v.len()
        invariant
            i <= v.len(),
            all == text::views(v@),
            elements(a@) == all.take(i as int).map_values(|s: Seq<char>| JsonView::Str(s)),
        decreases v.len() - i,
    {
        let ghost before = a@;
        a.push(string(&v[i]));
        assert(elements(a@) =~= elements(before).push(JsonView::Str(all[i as int])));
        i = i + 1;
        assert(elements(a@) =~= all.take(i as int).map_values(|s: Seq<char>| JsonView::Str(s)));
    }
    assert(all.take(i as int) =~= all);
    let j = Json::Array(a);
    proof {
        lemma_shown(j);
        lemma_array_distinct(all.map_values(|s: Seq<char>| JsonView::Str(s)));
    }
    j
}

/// What a document has under a key is what its first member of that name holds; under a
/// key that no member has, it has nothing. A list or an object is read where there is
/// one, and is empty otherwise.
pub proof fn the_first_member_counts(o: Seq<(Seq<char>, JsonView)>, key: Seq<char>, i: int)
    requires
        0 <= i <= o.len(),
        forall|k: int| 0 <= k < i ==> (#[trigger] o[k]).0 != key,
        i < o.len() ==> o[i].0 == key,
    ensures
        get(o, key) == (if i < o.len() {
            Some(o[i].1)
        } else {
            None
        }),
        i < o.len() && o[i].1 is Object ==> object_in(o, key) == o[i].1->Object_0,
        i < o.len() && o[i].1 is Array ==> array_in(o, key) == o[i].1->Array_0,
        i == o.len() || !(o[i].1 is Object) ==> object_in(o, key).len() == 0,
        i == o.len() || !(o[i].1 is Array) ==> array_in(o, key).len() == 0,
{
    if i < o.len() {
        list::lemma_first_where_is(o, keyed(key), i);
    } else {
        list::lemma_first_where_none(o, keyed(key));
    }
}

/// Writing a member makes it read as written and leaves every other one alone, and so
/// does taking one away, where no name is there twice. A member that is there keeps its
/// place, and a new one goes last.
pub proof fn one_member_is_written(
    o: Seq<(Seq<char>, JsonView)>,
    key: Seq<char>,
    v: JsonView,
    other: Seq<char>,
)
    requires
        other != key,
    ensures
        get(with(o, key, v), key) == Some(v),
        get(with(o, key, v), other) == get(o, other),
        get(o, key) is Some ==> with(o, key, v).len() == o.len(),
        get(o, key) is None ==> with(o, key, v) == o.push((key, v)),
        names_distinct(o) ==> get(without(o, key), key) is None,
        names_distinct(o) ==> get(without(o, key), other) == get(o, other),
        get(o, key) is None ==> without(o, key) == o,
        get(o, key) is Some ==> without(o, key).len() == o.len() - 1,
{
    lemma_with(o, key, v, other);
    let mine = keyed(key);
    let theirs = keyed(other);
    let w = without(o, key);
    list::lemma_first_where(o, mine);
    list::lemma_first_where(o, theirs);
    if names_distinct(o) {
        if let Some(at) = key_at(o, key) {
            assert forall|i: int| 0 <= i < w.len() implies !mine(#[trigger] w[i]) by {
                if i >= at {
                    assert(o[at].0 != o[i + 1].0);
                }
            }
            list::lemma_first_where_none(w, mine);
            match key_at(o, other) {
                Some(b) => {
                    let c: int = if b < at {
                        b
                    } else {
                        b - 1
                    };
                    assert(o[b].0 == other && o[at].0 == key);
                    list::lemma_first_where_is(w, theirs, c);
                },
                None => {
                    list::lemma_first_where_none(w, theirs);
                },
            }
        }
    }
}

} // verus!
