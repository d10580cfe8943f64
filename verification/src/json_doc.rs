//! JSON documents, read by `serde_json` and walked by verified code.
//!
//! The parser's work stays the parser's: a document comes back as a plain
//! tree, and what this project looks for in it is found here.

use vstd::prelude::*;

use crate::text::same_text;
use serde_json::Value as JsonValue;

verus! {

/// One JSON value, as far as this project reads values.
#[derive(Debug)]
pub enum Json {
    /// `null`.
    Null,
    /// A boolean.
    Boolean(bool),
    /// A number, which nothing here reads.
    Number,
    /// A string.
    Text(String),
    /// An array.
    Array(Vec<Json>),
    /// An object, its entries in the order the parser's map keeps them.
    Object(Vec<(String, Json)>),
}

/// The mathematical value a `Json` stands for.
pub enum JsonModel {
    /// `null`.
    Null,
    /// A boolean.
    Boolean(bool),
    /// A number.
    Number,
    /// A string.
    Text(Seq<char>),
    /// An array.
    Array(Seq<JsonModel>),
    /// An object, as its entries.
    Object(Seq<(Seq<char>, JsonModel)>),
}

/// The model of one value.
pub open spec fn json_model(j: Json) -> JsonModel
    decreases j,
{
    match j {
        Json::Null => JsonModel::Null,
        Json::Boolean(b) => JsonModel::Boolean(b),
        Json::Number => JsonModel::Number,
        Json::Text(s) => JsonModel::Text(s@),
        Json::Array(items) => JsonModel::Array(json_models(items@)),
        Json::Object(entries) => JsonModel::Object(json_entries(entries@)),
    }
}

/// The models of a sequence of values.
pub open spec fn json_models(s: Seq<Json>) -> Seq<JsonModel>
    decreases s,
{
    if s.len() == 0 {
        Seq::empty()
    } else {
        seq![json_model(s[0])] + json_models(s.subrange(1, s.len() as int))
    }
}

/// The models of an object's entries.
pub open spec fn json_entries(s: Seq<(String, Json)>) -> Seq<(Seq<char>, JsonModel)>
    decreases s,
{
    if s.len() == 0 {
        Seq::empty()
    } else {
        seq![(s[0].0@, json_model(s[0].1))] + json_entries(s.subrange(1, s.len() as int))
    }
}

impl View for Json {
    type V = JsonModel;

    open spec fn view(&self) -> JsonModel {
        json_model(*self)
    }
}

pub proof fn lemma_json_entries(s: Seq<(String, Json)>)
    ensures
        json_entries(s).len() == s.len(),
        forall|i: int| 0 <= i < s.len() ==> #[trigger] json_entries(s)[i] == (s[i].0@, s[i].1@),
    decreases s.len(),
{
    if s.len() > 0 {
        let rest = s.subrange(1, s.len() as int);
        lemma_json_entries(rest);
        assert forall|i: int| 0 <= i < s.len() implies #[trigger] json_entries(s)[i] == (
            s[i].0@,
            s[i].1@,
        ) by {
            if i > 0 {
                assert(rest[i - 1] == s[i]);
            }
        }
    }
}

pub proof fn lemma_json_models(s: Seq<Json>)
    ensures
        json_models(s).len() == s.len(),
        forall|i: int| 0 <= i < s.len() ==> #[trigger] json_models(s)[i] == s[i]@,
    decreases s.len(),
{
    if s.len() > 0 {
        let rest = s.subrange(1, s.len() as int);
        lemma_json_models(rest);
        assert forall|i: int| 0 <= i < s.len() implies #[trigger] json_models(s)[i] == s[i]@ by {
            if i > 0 {
                assert(rest[i - 1] == s[i]);
            }
        }
    }
}

/// What `serde_json::from_str` reads from a document as a value: its
/// tree, or the text of its error.
pub uninterp spec fn json_read(text: Seq<char>) -> Result<JsonModel, Seq<char>>;

/// A value as the `serde_json` crate holds it.
#[verifier::external_type_specification]
#[verifier::external_body]
pub struct JsonCrateValue(JsonValue);

/// A value of the `serde_json` crate, moved into this project's tree: one
/// arm per variant, each moving its contents over.
#[verifier::external_body]
fn from_value(value: JsonValue) -> Json {
    match value {
        JsonValue::Null => Json::Null,
        JsonValue::Bool(b) => Json::Boolean(b),
        JsonValue::Number(_) => Json::Number,
        JsonValue::String(s) => Json::Text(s),
        JsonValue::Array(items) => Json::Array(items.into_iter().map(from_value).collect()),
        JsonValue::Object(m) => Json::Object(m.into_iter().map(|(k, v)| (k, from_value(v))).collect()),
    }
}

/// Read a document with `serde_json::from_str` as a value.
///
/// Trusted: what comes back is named by `json_read`, a function of the
/// text alone.
#[verifier::external_body]
pub(crate) fn read_json(text: &str) -> (r: Result<Json, String>)
    ensures
        match r {
            Ok(j) => json_read(text@) == Ok::<JsonModel, Seq<char>>(j@),
            Err(m) => json_read(text@) == Err::<JsonModel, Seq<char>>(m@),
        },
{
    match serde_json::from_str::<JsonValue>(text) {
        Ok(value) => Ok(from_value(value)),
        Err(error) => Err(error.to_string()),
    }
}

/// Where a key first stands among an object's entries.
pub open spec fn entry_index(e: Seq<(Seq<char>, JsonModel)>, key: Seq<char>, from: int) -> Option<int>
    decreases e.len() - from,
{
    if from < 0 || from >= e.len() {
        None
    } else if e[from].0 == key {
        Some(from)
    } else {
        entry_index(e, key, from + 1)
    }
}

/// The value under a key of an object, as `Value::get` finds it; nothing
/// for a value that is not an object.
pub open spec fn member(v: JsonModel, key: Seq<char>) -> Option<JsonModel> {
    match v {
        JsonModel::Object(e) => match entry_index(e, key, 0) {
            Some(i) => Some(e[i].1),
            None => None,
        },
        _ => None,
    }
}

/// The value under a key of an object, where there is one.
pub fn get<'a>(v: &'a Json, key: &str) -> (r: Option<&'a Json>)
    ensures
        match r {
            Some(t) => member(v@, key@) == Some(t@),
            None => member(v@, key@) is None,
        },
{
    let entries = match v {
        Json::Object(entries) => entries,
        _ => {
            return None;
        },
    };
    proof {
        lemma_json_entries(entries@);
    }
    let ghost e = json_entries(entries@);
    let mut i: usize = 0;
    while i < entries.len()
        invariant
            i <= entries.len(),
            e == json_entries(entries@),
            v@ == JsonModel::Object(e),
            e.len() == entries@.len(),
            forall|j: int| 0 <= j < entries@.len() ==> #[trigger] e[j] == (entries@[j].0@, entries@[j].1@),
            entry_index(e, key@, 0) == entry_index(e, key@, i as int),
        decreases entries.len() - i,
    {
        assert(e[i as int] == (entries@[i as int].0@, entries@[i as int].1@));
        if same_text(entries[i].0.as_str(), key) {
            return Some(&entries[i].1);
        }
        i += 1;
    }
    None
}

} // verus!
