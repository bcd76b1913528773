//! JSON documents as the library sees them.
//!
//! A document is held as a tree of plain values, with the entries of an object
//! in document order. Numbers stay in `serde_json`'s own representation and are
//! only carried through. Reading and writing JSON text is `serde_json`'s work.

use crate::error::SingerIcebergError;
use crate::text::{key_position, str_eq};
use vstd::prelude::*;

verus! {

/// `serde_json`'s number, of which nothing is seen from here.
#[verifier::external_type_specification]
#[verifier::external_body]
pub struct ExNumber(serde_json::Number);

/// `serde_json`'s document, of which nothing is seen from here.
#[verifier::external_type_specification]
#[verifier::external_body]
pub struct ExValue(serde_json::Value);

/// A clone of a `serde_json::Number` is the same number.
pub assume_specification[ <serde_json::Number as Clone>::clone ](n: &serde_json::Number) -> (r:
    serde_json::Number)
    ensures
        r == *n,
;

/// A JSON document.
///
/// What `serde_json` reads has no two entries of one key in an object. Where
/// a document built by hand has, the library goes by the first of them, and
/// `serde_json`, which writes and validates documents, by the last.
#[derive(Debug, PartialEq, Eq)]
pub enum Json {
    Null,
    Bool(bool),
    Number(serde_json::Number),
    Str(String),
    Array(Vec<Json>),
    /// The entries in document order. Of two entries with one key the first counts.
    Object(Vec<(String, Json)>),
}

/// The mathematical value of a [`Json`] document.
pub enum JsonModel {
    Null,
    Bool(bool),
    Number(serde_json::Number),
    Str(Seq<char>),
    Array(Seq<JsonModel>),
    Object(Seq<(Seq<char>, JsonModel)>),
}

/// The value of each of `items`.
pub open spec fn items_model(items: Seq<Json>) -> Seq<JsonModel>
    decreases items,
{
    Seq::new(
        items.len(),
        |i: int|
            if 0 <= i < items.len() {
                items[i]@
            } else {
                JsonModel::Null
            },
    )
}

/// The key and the value of each of `entries`.
pub open spec fn entries_model(entries: Seq<(String, Json)>) -> Seq<(Seq<char>, JsonModel)>
    decreases entries,
{
    Seq::new(
        entries.len(),
        |i: int|
            if 0 <= i < entries.len() {
                (entries[i].0@, entries[i].1@)
            } else {
                (Seq::empty(), JsonModel::Null)
            },
    )
}

impl View for Json {
    type V = JsonModel;

    open spec fn view(&self) -> JsonModel
        decreases self,
    {
        match self {
            Json::Null => JsonModel::Null,
            Json::Bool(b) => JsonModel::Bool(*b),
            Json::Number(n) => JsonModel::Number(*n),
            Json::Str(s) => JsonModel::Str(s@),
            Json::Array(items) => JsonModel::Array(items_model(items@)),
            Json::Object(entries) => JsonModel::Object(entries_model(entries@)),
        }
    }
}

/// The keys of `entries`.
pub open spec fn entry_keys(entries: Seq<(Seq<char>, JsonModel)>) -> Seq<Seq<char>> {
    entries.map_values(|e: (Seq<char>, JsonModel)| e.0)
}

/// The position of the first of `entries` whose key is `key`, or the number
/// of entries where none has it.
pub open spec fn entry_position(entries: Seq<(Seq<char>, JsonModel)>, key: Seq<char>) -> int {
    key_position(entry_keys(entries), key)
}

impl JsonModel {
    /// The entries of an object; none for any other document.
    pub open spec fn entries(self) -> Seq<(Seq<char>, JsonModel)> {
        match self {
            JsonModel::Object(entries) => entries,
            _ => Seq::empty(),
        }
    }

    /// Whether the document is an object with an entry under `key`.
    pub open spec fn has(self, key: Seq<char>) -> bool {
        entry_position(self.entries(), key) < self.entries().len()
    }

    /// The value under `key` in an object.
    pub open spec fn member(self, key: Seq<char>) -> JsonModel
        recommends
            self.has(key),
    {
        self.entries()[entry_position(self.entries(), key)].1
    }
}

/// Whether some object of the document, at any depth, has an entry under `key`.
pub open spec fn mentions(doc: JsonModel, key: Seq<char>) -> bool
    decreases doc,
{
    match doc {
        JsonModel::Array(items) => exists|i: int|
            0 <= i < items.len() && mentions(#[trigger] items[i], key),
        JsonModel::Object(entries) => exists|i: int|
            0 <= i < entries.len() && ((#[trigger] entries[i]).0 == key || mentions(
                entries[i].1,
                key,
            )),
        _ => false,
    }
}

/// `doc` with every object that has an entry under `key`, at any depth, made
/// the empty object.
pub open spec fn without(doc: JsonModel, key: Seq<char>) -> JsonModel
    decreases doc,
{
    match doc {
        JsonModel::Array(items) => JsonModel::Array(
            Seq::new(
                items.len(),
                |i: int|
                    if 0 <= i < items.len() {
                        without(items[i], key)
                    } else {
                        JsonModel::Null
                    },
            ),
        ),
        JsonModel::Object(entries) => if entry_position(entries, key) < entries.len() {
            JsonModel::Object(Seq::empty())
        } else {
            JsonModel::Object(
                Seq::new(
                    entries.len(),
                    |i: int|
                        if 0 <= i < entries.len() {
                            (entries[i].0, without(entries[i].1, key))
                        } else {
                            (Seq::empty(), JsonModel::Null)
                        },
                ),
            )
        },
        other => other,
    }
}

/// What is left once the objects with an entry under `key` are emptied
/// has no entry under `key` anywhere.
pub proof fn lemma_without(doc: JsonModel, key: Seq<char>)
    ensures
        !mentions(without(doc, key), key),
    decreases doc,
{
    let left = without(doc, key);
    match doc {
        JsonModel::Array(items) => {
            if mentions(left, key) {
                let i = choose|i: int|
                    0 <= i < left->Array_0.len() && mentions(#[trigger] left->Array_0[i], key);
                lemma_without(items[i], key);
            }
        },
        JsonModel::Object(entries) => {
            if entry_position(entries, key) < entries.len() {
            } else if mentions(left, key) {
                let after = left->Object_0;
                let i = choose|i: int|
                    0 <= i < after.len() && ((#[trigger] after[i]).0 == key || mentions(
                        after[i].1,
                        key,
                    ));
                crate::text::lemma_key_position(entry_keys(entries), key);
                assert(entry_keys(entries)[i] == entries[i].0);
                lemma_without(entries[i].1, key);
            }
        },
        _ => {},
    }
}

/// The text under `key`, where `doc` is an object that holds a string there.
pub open spec fn text_member(doc: JsonModel, key: Seq<char>) -> Option<Seq<char>> {
    if doc.has(key) && doc.member(key) is Str {
        Some(doc.member(key)->Str_0)
    } else {
        None
    }
}

/// The text of each of `names`.
pub open spec fn names_model(names: Seq<String>) -> Seq<Seq<char>> {
    names.map_values(|name: String| name@)
}

/// The texts of an array of strings; `None` for any other document.
pub open spec fn strings_of(doc: JsonModel) -> Option<Seq<Seq<char>>> {
    match doc {
        JsonModel::Array(items) => if forall|i: int| 0 <= i < items.len() ==> items[i] is Str {
            Some(Seq::new(items.len(), |i: int| items[i]->Str_0))
        } else {
            None
        },
        _ => None,
    }
}

/// Copies of the texts of an array of strings.
pub fn strings_in(doc: &Json) -> (r: Option<Vec<String>>)
    ensures
        match r {
            Some(names) => strings_of(doc@) == Some(names_model(names@)),
            None => strings_of(doc@) is None,
        },
{
    match doc {
        Json::Array(items) => {
            let mut names: Vec<String> = Vec::new();
            let mut i: usize = 0;
            while i < items.len()
                invariant
                    i <= items@.len(),
                    names@.len() == i,
                    doc@ == JsonModel::Array(items_model(items@)),
                    forall|k: int| 0 <= k < i ==> items@[k]@ == JsonModel::Str(names@[k]@),
                decreases items@.len() - i,
            {
                match &items[i] {
                    Json::Str(text) => {
                        names.push(text.clone());
                    },
                    _ => {
                        proof {
                            assert(!(items_model(items@)[i as int] is Str));
                        }
                        return None;
                    },
                }
                i += 1;
            }
            proof {
                let model = items_model(items@);
                assert forall|k: int| 0 <= k < model.len() implies model[k] is Str by {
                    assert(model[k] == items@[k]@);
                }
                assert(names_model(names@) == Seq::new(model.len(), |k: int| model[k]->Str_0));
            }
            Some(names)
        },
        _ => None,
    }
}

/// What `doc` holds under a key that may be left out: nothing (`Some(None)`)
/// where the key is absent or holds null, the text where it holds a string,
/// and no reading (`None`) for anything else.
pub open spec fn optional_text(doc: JsonModel, key: Seq<char>) -> Option<Option<Seq<char>>> {
    if !doc.has(key) || doc.member(key) is Null {
        Some(None)
    } else {
        match doc.member(key) {
            JsonModel::Str(text) => Some(Some(text)),
            _ => None,
        }
    }
}

/// The position of the first of `entries` whose key is `key`, if any.
pub fn find_entry(entries: &Vec<(String, Json)>, key: &str) -> (r: Option<usize>)
    ensures
        match r {
            Some(i) => i < entries@.len() && i == entry_position(entries_model(entries@), key@),
            None => entry_position(entries_model(entries@), key@) == entries@.len(),
        },
{
    let ghost keys = entry_keys(entries_model(entries@));
    let mut i: usize = 0;
    assert(keys.skip(0) == keys);
    while i < entries.len()
        invariant
            i <= entries@.len(),
            keys == entry_keys(entries_model(entries@)),
            key_position(keys, key@) == i + key_position(keys.skip(i as int), key@),
        decreases entries@.len() - i,
    {
        proof {
            assert(keys.skip(i as int).drop_first() == keys.skip(i + 1));
            assert(keys.skip(i as int)[0] == keys[i as int]);
        }
        if str_eq(entries[i].0.as_str(), key) {
            return Some(i);
        }
        i += 1;
    }
    None
}

/// `entries` with `value` under `key`: in the place of the first entry of
/// that key, or at the end where there is none.
pub open spec fn with_entry(
    entries: Seq<(Seq<char>, JsonModel)>,
    key: Seq<char>,
    value: JsonModel,
) -> Seq<(Seq<char>, JsonModel)> {
    let at = entry_position(entries, key);
    if at < entries.len() {
        entries.update(at, (key, value))
    } else {
        entries.push((key, value))
    }
}

/// Puts `value` under `key`: in the place of the first entry of that key,
/// or at the end where there is none.
pub fn insert_entry(entries: &mut Vec<(String, Json)>, key: &str, value: Json)
    ensures
        entries_model(final(entries)@) == with_entry(entries_model(old(entries)@), key@, value@),
{
    let ghost before = entries_model(entries@);
    match find_entry(entries, key) {
        Some(at) => {
            entries.set(at, (String::from_str(key), value));
            assert(entries_model(entries@) == before.update(at as int, (key@, value@)));
        },
        None => {
            entries.push((String::from_str(key), value));
            assert(entries_model(entries@) == before.push((key@, value@)));
        },
    }
}

impl Json {
    /// The value under `key`, where the document is an object that has one.
    pub fn get(&self, key: &str) -> (r: Option<&Json>)
        ensures
            r is Some == self@.has(key@),
            r is Some ==> r.unwrap()@ == self@.member(key@),
    {
        match self {
            Json::Object(entries) => {
                match find_entry(entries, key) {
                    Some(i) => Some(&entries[i].1),
                    None => None,
                }
            },
            _ => None,
        }
    }

    /// The text under `key`, where the document is an object that holds a
    /// string there.
    pub fn text(&self, key: &str) -> (r: Option<&str>)
        ensures
            match r {
                Some(text) => text_member(self@, key@) == Some(text@),
                None => text_member(self@, key@) is None,
            },
    {
        match self.get(key) {
            Some(Json::Str(text)) => Some(text.as_str()),
            _ => None,
        }
    }

    /// A copy of the text under a key that may be left out.
    pub fn optional_text(&self, key: &str) -> (r: Result<Option<String>, ()>)
        ensures
            match r {
                Ok(Some(text)) => optional_text(self@, key@) == Some(Some(text@)),
                Ok(None) => optional_text(self@, key@) == Some(None::<Seq<char>>),
                Err(_) => optional_text(self@, key@) is None,
            },
    {
        match self.get(key) {
            None => Ok(None),
            Some(Json::Null) => Ok(None),
            Some(Json::Str(text)) => Ok(Some(text.clone())),
            Some(_) => Err(()),
        }
    }

    /// The text of a string; `None` for any other document.
    pub fn as_str(&self) -> (r: Option<&str>)
        ensures
            match r {
                Some(text) => self@ == JsonModel::Str(text@),
                None => !(self@ is Str),
            },
    {
        match self {
            Json::Str(text) => Some(text.as_str()),
            _ => None,
        }
    }

    /// Whether some object of the document, at any depth, has an entry under `key`.
    pub fn mentions(&self, key: &str) -> (r: bool)
        ensures
            r == mentions(self@, key@),
        decreases self,
    {
        match self {
            Json::Array(items) => {
                let ghost model = items_model(items@);
                let mut i: usize = 0;
                while i < items.len()
                    invariant
                        i <= items@.len(),
                        model == items_model(items@),
                        self@ == JsonModel::Array(model),
                        forall|k: int| 0 <= k < i ==> !mentions(#[trigger] model[k], key@),
                        decreases_to!(self => items@),
                    decreases items@.len() - i,
                {
                    assert(decreases_to!(items@ => items@[i as int]));
                    assert(model[i as int] == items@[i as int]@);
                    if items[i].mentions(key) {
                        assert(0 <= i < model.len() && mentions(model[i as int], key@));
                        assert(decreases_to!(self@ => self@->Array_0[i as int]));
                        assert(mentions(self@, key@));
                        return true;
                    }
                    i += 1;
                }
                false
            },
            Json::Object(entries) => {
                let ghost model = entries_model(entries@);
                let mut i: usize = 0;
                while i < entries.len()
                    invariant
                        i <= entries@.len(),
                        model == entries_model(entries@),
                        self@ == JsonModel::Object(model),
                        forall|k: int|
                            0 <= k < i ==> (#[trigger] model[k]).0 != key@ && !mentions(
                                model[k].1,
                                key@,
                            ),
                        decreases_to!(self => entries@),
                    decreases entries@.len() - i,
                {
                    assert(decreases_to!(entries@ => entries@[i as int]));
                    assert(model[i as int] == (entries@[i as int].0@, entries@[i as int].1@));
                    if str_eq(entries[i].0.as_str(), key) || entries[i].1.mentions(key) {
                        assert(0 <= i < model.len() && (model[i as int].0 == key@ || mentions(
                            model[i as int].1,
                            key@,
                        )));
                        assert(decreases_to!(self@ => self@->Object_0[i as int].1));
                        assert(mentions(self@, key@));
                        return true;
                    }
                    i += 1;
                }
                false
            },
            _ => false,
        }
    }

    /// A copy of the document in which every object that has an entry under
    /// `key`, at any depth, is the empty object.
    pub fn without(&self, key: &str) -> (r: Json)
        ensures
            r@ == without(self@, key@),
            !mentions(r@, key@),
        decreases self,
    {
        proof {
            lemma_without(self@, key@);
        }
        match self {
            Json::Null => Json::Null,
            Json::Bool(b) => Json::Bool(*b),
            Json::Number(n) => Json::Number(n.clone()),
            Json::Str(s) => Json::Str(s.clone()),
            Json::Array(items) => {
                let ghost model = items_model(items@);
                let mut out: Vec<Json> = Vec::new();
                let mut i: usize = 0;
                while i < items.len()
                    invariant
                        i <= items@.len(),
                        out@.len() == i,
                        model == items_model(items@),
                        forall|k: int| 0 <= k < i ==> out@[k]@ == without(model[k], key@),
                        decreases_to!(self => items@),
                    decreases items@.len() - i,
                {
                    assert(decreases_to!(items@ => items@[i as int]));
                    assert(model[i as int] == items@[i as int]@);
                    let item = items[i].without(key);
                    out.push(item);
                    i += 1;
                }
                proof {
                    let wanted = without(self@, key@)->Array_0;
                    assert forall|k: int| 0 <= k < model.len() implies wanted[k] == without(
                        model[k],
                        key@,
                    ) by {
                        assert(decreases_to!(self@ => self@->Array_0[k]));
                    }
                    assert(items_model(out@) == wanted);
                }
                Json::Array(out)
            },
            Json::Object(entries) => {
                let ghost model = entries_model(entries@);
                let mut out: Vec<(String, Json)> = Vec::new();
                if find_entry(entries, key).is_some() {
                    assert(entries_model(out@) == Seq::<(Seq<char>, JsonModel)>::empty());
                    return Json::Object(out);
                }
                let mut i: usize = 0;
                while i < entries.len()
                    invariant
                        i <= entries@.len(),
                        out@.len() == i,
                        model == entries_model(entries@),
                        forall|k: int|
                            0 <= k < i ==> out@[k].0@ == model[k].0 && out@[k].1@ == without(
                                model[k].1,
                                key@,
                            ),
                        decreases_to!(self => entries@),
                    decreases entries@.len() - i,
                {
                    assert(decreases_to!(entries@ => entries@[i as int]));
                    assert(model[i as int] == (entries@[i as int].0@, entries@[i as int].1@));
                    let value = entries[i].1.without(key);
                    out.push((entries[i].0.clone(), value));
                    i += 1;
                }
                proof {
                    let wanted = without(self@, key@)->Object_0;
                    assert forall|k: int| 0 <= k < model.len() implies wanted[k] == (
                        model[k].0,
                        without(model[k].1, key@),
                    ) by {
                        assert(decreases_to!(self@ => self@->Object_0[k].1));
                    }
                    assert(entries_model(out@) == wanted);
                }
                Json::Object(out)
            },
        }
    }

    /// A copy of the document.
    pub fn duplicate(&self) -> (r: Json)
        ensures
            r@ == self@,
        decreases self,
    {
        match self {
            Json::Null => Json::Null,
            Json::Bool(b) => Json::Bool(*b),
            Json::Number(n) => Json::Number(n.clone()),
            Json::Str(s) => Json::Str(s.clone()),
            Json::Array(items) => {
                let mut out: Vec<Json> = Vec::new();
                let mut i: usize = 0;
                while i < items.len()
                    invariant
                        i <= items@.len(),
                        out@.len() == i,
                        forall|k: int| 0 <= k < i ==> out@[k]@ == items@[k]@,
                        decreases_to!(self => items@),
                    decreases items@.len() - i,
                {
                    assert(decreases_to!(items@ => items@[i as int]));
                    let item = items[i].duplicate();
                    out.push(item);
                    i += 1;
                }
                assert(items_model(out@) == items_model(items@));
                Json::Array(out)
            },
            Json::Object(entries) => {
                let mut out: Vec<(String, Json)> = Vec::new();
                let mut i: usize = 0;
                while i < entries.len()
                    invariant
                        i <= entries@.len(),
                        out@.len() == i,
                        forall|k: int|
                            0 <= k < i ==> out@[k].0@ == entries@[k].0@ && out@[k].1@
                                == entries@[k].1@,
                        decreases_to!(self => entries@),
                    decreases entries@.len() - i,
                {
                    assert(decreases_to!(entries@ => entries@[i as int]));
                    let value = entries[i].1.duplicate();
                    out.push((entries[i].0.clone(), value));
                    i += 1;
                }
                assert(entries_model(out@) == entries_model(entries@));
                Json::Object(out)
            },
        }
    }

    /// Reads a JSON text.
    pub fn parse(text: &str) -> (r: Result<Json, SingerIcebergError>)
        ensures
            match r {
                Ok(json) => parsed_json(text@) == Some(json@),
                Err(e) => parsed_json(text@) is None && e is Serde,
            },
    {
        match read_text(text) {
            Ok(json) => Ok(json),
            Err(e) => Err(SingerIcebergError::Serde(e)),
        }
    }

    /// Writes the document as JSON text.
    pub fn to_text(&self) -> (r: Option<String>)
        ensures
            match r {
                Some(text) => json_text(self@) == Some(text@),
                None => json_text(self@) is None,
            },
    {
        write_text(self)
    }

    /// The integer `v` as a document.
    pub fn integer(v: i64) -> (r: Json)
        ensures
            r@ == JsonModel::Number(number_of(v)),
            number_i64(number_of(v)) == Some(v),
    {
        Json::Number(number_from_i64(v))
    }

    /// The integer that the document holds, where it is a number that is one
    /// and fits in 64 bits with a sign.
    pub fn as_i64(&self) -> (r: Option<i64>)
        ensures
            r == (match self@ {
                JsonModel::Number(n) => number_i64(n),
                _ => None,
            }),
    {
        match self {
            Json::Number(n) => number_as_i64(n),
            _ => None,
        }
    }
}

/// The document that `serde_json` reads from a text, or `None` where it
/// reads none.
pub uninterp spec fn parsed_json(text: Seq<char>) -> Option<JsonModel>;

/// The text that `serde_json` writes for a document, or `None` where it
/// writes none.
pub uninterp spec fn json_text(value: JsonModel) -> Option<Seq<char>>;

/// The integer that a `serde_json::Number` holds, where it is one and fits in
/// 64 bits with a sign.
pub uninterp spec fn number_i64(n: serde_json::Number) -> Option<i64>;

/// The `serde_json::Number` that holds the integer `v`.
pub uninterp spec fn number_of(v: i64) -> serde_json::Number;

/// Copies a `serde_json::Value` into a [`Json`], variant by variant; the
/// entries of an object come in the order in which its map holds them.
#[verifier::external_body]
fn from_value(value: &serde_json::Value) -> Json {
    match value {
        serde_json::Value::Null => Json::Null,
        serde_json::Value::Bool(b) => Json::Bool(*b),
        serde_json::Value::Number(n) => Json::Number(n.clone()),
        serde_json::Value::String(s) => Json::Str(s.clone()),
        serde_json::Value::Array(a) => Json::Array(a.iter().map(from_value).collect()),
        serde_json::Value::Object(o) => Json::Object(
            o.iter().map(|(k, v)| (k.clone(), from_value(v))).collect(),
        ),
    }
}

/// Copies a [`Json`] into a `serde_json::Value`, variant by variant.
#[verifier::external_body]
pub(crate) fn to_value(json: &Json) -> serde_json::Value {
    match json {
        Json::Null => serde_json::Value::Null,
        Json::Bool(b) => serde_json::Value::Bool(*b),
        Json::Number(n) => serde_json::Value::Number(n.clone()),
        Json::Str(s) => serde_json::Value::String(s.clone()),
        Json::Array(a) => serde_json::Value::Array(a.iter().map(to_value).collect()),
        Json::Object(o) => serde_json::Value::Object(
            o.iter().map(|(k, v)| (k.clone(), to_value(v))).collect(),
        ),
    }
}

/// `serde_json::from_str`, on a `serde_json::Value`. The contract names what
/// it reads and says nothing more of it.
#[verifier::external_body]
fn read_text(text: &str) -> (r: Result<Json, serde_json::Error>)
    ensures
        match r {
            Ok(json) => parsed_json(text@) == Some(json@),
            Err(_) => parsed_json(text@) is None,
        },
{
    Ok(from_value(&serde_json::from_str::<serde_json::Value>(text)?))
}

/// `serde_json::to_string`, on a `serde_json::Value`. The contract names what
/// it writes and says nothing more of it.
#[verifier::external_body]
fn write_text(json: &Json) -> (r: Option<String>)
    ensures
        match r {
            Some(text) => json_text(json@) == Some(text@),
            None => json_text(json@) is None,
        },
{
    serde_json::to_string(&to_value(json)).ok()
}

/// `serde_json::Number::from`, on an `i64`: the number of that integer, from
/// which `as_i64` gives the integer back.
#[verifier::external_body]
fn number_from_i64(v: i64) -> (r: serde_json::Number)
    ensures
        r == number_of(v),
        number_i64(r) == Some(v),
{
    serde_json::Number::from(v)
}

/// `serde_json::Number::as_i64`.
#[verifier::external_body]
fn number_as_i64(n: &serde_json::Number) -> (r: Option<i64>)
    ensures
        r == number_i64(*n),
{
    n.as_i64()
}

} // verus!
