//! TOML documents, read by the `toml` crate and walked by verified code.
//!
//! The parser's work stays the parser's: what a document means comes back
//! as a plain tree of the values a declaration in this project can hold,
//! and every rule about which keys a declaration takes is checked here.

use vstd::prelude::*;

use crate::text::{append, owned, same_text};
use crate::version::CanonVersion;
use toml::Value as TomlValue;

verus! {

/// One TOML value, as far as this project reads values.
#[derive(Debug)]
pub enum Toml {
    /// A string.
    Text(String),
    /// An integer.
    Integer(i64),
    /// A boolean.
    Boolean(bool),
    /// An array.
    Array(Vec<Toml>),
    /// A table, its keys in order, each once.
    Table(Vec<(String, Toml)>),
    /// A float or a date-time, which no declaration here takes.
    Other,
}

/// The mathematical value a `Toml` stands for.
pub enum TomlModel {
    /// A string.
    Text(Seq<char>),
    /// An integer.
    Integer(int),
    /// A boolean.
    Boolean(bool),
    /// An array.
    Array(Seq<TomlModel>),
    /// A table, as its entries.
    Table(Seq<(Seq<char>, TomlModel)>),
    /// Anything else.
    Other,
}

/// The model of one value.
pub open spec fn toml_model(t: Toml) -> TomlModel
    decreases t,
{
    match t {
        Toml::Text(s) => TomlModel::Text(s@),
        Toml::Integer(n) => TomlModel::Integer(n as int),
        Toml::Boolean(b) => TomlModel::Boolean(b),
        Toml::Array(items) => TomlModel::Array(toml_models(items@)),
        Toml::Table(entries) => TomlModel::Table(toml_entries(entries@)),
        Toml::Other => TomlModel::Other,
    }
}

/// The models of a sequence of values.
pub open spec fn toml_models(s: Seq<Toml>) -> Seq<TomlModel>
    decreases s,
{
    if s.len() == 0 {
        Seq::empty()
    } else {
        seq![toml_model(s[0])] + toml_models(s.subrange(1, s.len() as int))
    }
}

/// The models of a table's entries.
pub open spec fn toml_entries(s: Seq<(String, Toml)>) -> Seq<(Seq<char>, TomlModel)>
    decreases s,
{
    if s.len() == 0 {
        Seq::empty()
    } else {
        seq![(s[0].0@, toml_model(s[0].1))] + toml_entries(s.subrange(1, s.len() as int))
    }
}

impl View for Toml {
    type V = TomlModel;

    open spec fn view(&self) -> TomlModel {
        toml_model(*self)
    }
}

pub proof fn lemma_toml_models(s: Seq<Toml>)
    ensures
        toml_models(s).len() == s.len(),
        forall|i: int| 0 <= i < s.len() ==> #[trigger] toml_models(s)[i] == s[i]@,
    decreases s.len(),
{
    if s.len() > 0 {
        let rest = s.subrange(1, s.len() as int);
        lemma_toml_models(rest);
        assert forall|i: int| 0 <= i < s.len() implies #[trigger] toml_models(s)[i] == s[i]@ by {
            if i > 0 {
                assert(rest[i - 1] == s[i]);
            }
        }
    }
}

pub proof fn lemma_toml_entries(s: Seq<(String, Toml)>)
    ensures
        toml_entries(s).len() == s.len(),
        forall|i: int| 0 <= i < s.len() ==> #[trigger] toml_entries(s)[i] == (s[i].0@, s[i].1@),
    decreases s.len(),
{
    if s.len() > 0 {
        let rest = s.subrange(1, s.len() as int);
        lemma_toml_entries(rest);
        assert forall|i: int| 0 <= i < s.len() implies #[trigger] toml_entries(s)[i] == (
        s[i].0@, s[i].1@) by {
            if i > 0 {
                assert(rest[i - 1] == s[i]);
            }
        }
    }
}

/// What `toml::from_str` reads from a document as a table: its tree, or
/// the text of its error.
pub uninterp spec fn toml_read(text: Seq<char>) -> Result<TomlModel, Seq<char>>;

/// The text of the error `std::str::from_utf8` gives for bytes that are
/// not UTF-8.
pub uninterp spec fn utf8_refusal(bytes: Seq<u8>) -> Seq<char>;

/// A value as the `toml` crate holds it.
#[verifier::external_type_specification]
#[verifier::external_body]
pub struct TomlCrateValue(TomlValue);

/// A value of the `toml` crate, moved into this project's tree: one arm
/// per variant, each moving its contents over, a float or a date-time
/// becoming `Other`.
#[verifier::external_body]
fn from_value(value: TomlValue) -> Toml {
    match value {
        TomlValue::String(s) => Toml::Text(s),
        TomlValue::Integer(n) => Toml::Integer(n),
        TomlValue::Boolean(b) => Toml::Boolean(b),
        TomlValue::Array(items) => Toml::Array(items.into_iter().map(from_value).collect()),
        TomlValue::Table(t) => Toml::Table(t.into_iter().map(|(k, v)| (k, from_value(v))).collect()),
        _ => Toml::Other,
    }
}

/// Read a document with `toml::from_str` as a table.
///
/// Trusted: what comes back is named by `toml_read`, a function of the
/// text alone; a document that parses comes back as a table, whose keys
/// the crate keeps in order.
#[verifier::external_body]
pub(crate) fn read_toml(text: &str) -> (r: Result<Toml, String>)
    ensures
        match r {
            Ok(t) => toml_read(text@) == Ok::<TomlModel, Seq<char>>(t@) && t is Table,
            Err(m) => toml_read(text@) == Err::<TomlModel, Seq<char>>(m@),
        },
{
    match toml::from_str::<toml::Table>(text) {
        Ok(table) => Ok(from_value(TomlValue::Table(table))),
        Err(error) => Err(error.to_string()),
    }
}

/// Read bytes as UTF-8 text with `std::str::from_utf8`.
///
/// Trusted: the standard library documents that it succeeds exactly on
/// valid UTF-8 and then yields the characters the bytes encode; the text
/// of its error is named by `utf8_refusal`.
#[verifier::external_body]
pub(crate) fn read_utf8(bytes: &[u8]) -> (r: Result<String, String>)
    ensures
        r is Ok <==> vstd::utf8::valid_utf8(bytes@),
        r matches Ok(s) ==> s@ == vstd::utf8::decode_utf8(bytes@),
        r matches Err(m) ==> m@ == utf8_refusal(bytes@),
{
    match std::str::from_utf8(bytes) {
        Ok(text) => Ok(text.to_string()),
        Err(error) => Err(error.to_string()),
    }
}

/// Where a key first occurs among a table's entries.
pub open spec fn key_at(e: Seq<(Seq<char>, TomlModel)>, key: Seq<char>, from: int) -> Option<int>
    decreases e.len() - from,
{
    if from < 0 || from >= e.len() {
        None
    } else if e[from].0 == key {
        Some(from)
    } else {
        key_at(e, key, from + 1)
    }
}

/// The value a table holds under a key.
pub open spec fn lookup(e: Seq<(Seq<char>, TomlModel)>, key: Seq<char>) -> Option<TomlModel> {
    match key_at(e, key, 0) {
        Some(i) => Some(e[i].1),
        None => None,
    }
}

/// The value under a key, where the table holds one.
pub fn field<'a>(entries: &'a Vec<(String, Toml)>, key: &str) -> (r: Option<&'a Toml>)
    ensures
        match r {
            Some(t) => lookup(toml_entries(entries@), key@) == Some(t@),
            None => lookup(toml_entries(entries@), key@) is None,
        },
{
    proof {
        lemma_toml_entries(entries@);
    }
    let ghost e = toml_entries(entries@);
    let mut i: usize = 0;
    while i < entries.len()
        invariant
            i <= entries.len(),
            e == toml_entries(entries@),
            e.len() == entries@.len(),
            forall|j: int| 0 <= j < entries@.len() ==> #[trigger] e[j] == (entries@[j].0@, entries@[j].1@),
            key_at(e, key@, 0) == key_at(e, key@, i as int),
        decreases entries.len() - i,
    {
        if same_text(entries[i].0.as_str(), key) {
            return Some(&entries[i].1);
        }
        i += 1;
    }
    None
}

/// The first key of a table that is not among the allowed ones.
pub open spec fn stray_key_from(e: Seq<(Seq<char>, TomlModel)>, allowed: Seq<Seq<char>>, from: int) -> Option<Seq<char>>
    decreases e.len() - from,
{
    if from < 0 || from >= e.len() {
        None
    } else if !allowed.contains(e[from].0) {
        Some(e[from].0)
    } else {
        stray_key_from(e, allowed, from + 1)
    }
}

/// The first key of a table that is not among the allowed ones.
pub open spec fn stray_key(e: Seq<(Seq<char>, TomlModel)>, allowed: Seq<Seq<char>>) -> Option<Seq<char>> {
    stray_key_from(e, allowed, 0)
}

/// The first key of a table that a declaration does not take.
pub fn stray<'a>(entries: &'a Vec<(String, Toml)>, allowed: &Vec<&str>) -> (r: Option<&'a str>)
    ensures
        match r {
            Some(k) => stray_key(toml_entries(entries@), allowed@.map_values(|a: &str| a@)) == Some(k@),
            None => stray_key(toml_entries(entries@), allowed@.map_values(|a: &str| a@)) is None,
        },
{
    proof {
        lemma_toml_entries(entries@);
    }
    let ghost e = toml_entries(entries@);
    let ghost names = allowed@.map_values(|a: &str| a@);
    let mut i: usize = 0;
    while i < entries.len()
        invariant
            i <= entries.len(),
            e == toml_entries(entries@),
            names == allowed@.map_values(|a: &str| a@),
            e.len() == entries@.len(),
            forall|j: int| 0 <= j < entries@.len() ==> #[trigger] e[j] == (entries@[j].0@, entries@[j].1@),
            stray_key(e, names) == stray_key_from(e, names, i as int),
        decreases entries.len() - i,
    {
        let key = entries[i].0.as_str();
        let mut j: usize = 0;
        let mut known = false;
        while j < allowed.len()
            invariant
                j <= allowed.len(),
                names == allowed@.map_values(|a: &str| a@),
                known ==> names.contains(key@),
                !known ==> forall|q: int| 0 <= q < j ==> names[q] != key@,
            decreases allowed.len() - j,
        {
            if same_text(allowed[j], key) {
                known = true;
                assert(names[j as int] == key@);
            }
            j += 1;
        }
        if !known {
            assert(!names.contains(key@));
            return Some(key);
        }
        i += 1;
    }
    None
}

/// Whether a text is the spelling of some version.
pub open spec fn is_version_text(s: Seq<char>) -> bool {
    exists|v: CanonVersion| v.text() == s
}

/// The refusal for a key a declaration needs and does not have.
pub open spec fn missing_message(key: Seq<char>) -> Seq<char> {
    "missing field `"@ + key + "`"@
}

/// The refusal for a key whose value has the wrong shape.
pub open spec fn shape_message(key: Seq<char>, shape: Seq<char>) -> Seq<char> {
    "field `"@ + key + "` is not "@ + shape
}

/// The refusal for a key a declaration does not take.
pub open spec fn stray_message(key: Seq<char>) -> Seq<char> {
    "unknown field `"@ + key + "`"@
}

/// A required string field.
pub open spec fn text_field_of(o: Option<TomlModel>, key: Seq<char>) -> Result<Seq<char>, Seq<char>> {
    match o {
        None => Err(missing_message(key)),
        Some(TomlModel::Text(s)) => Ok(s),
        Some(_) => Err(shape_message(key, "a string"@)),
    }
}

/// A required boolean field.
pub open spec fn bool_field_of(o: Option<TomlModel>, key: Seq<char>) -> Result<bool, Seq<char>> {
    match o {
        None => Err(missing_message(key)),
        Some(TomlModel::Boolean(b)) => Ok(b),
        Some(_) => Err(shape_message(key, "a boolean"@)),
    }
}

/// A required version field, as its spelling.
pub open spec fn version_field_of(o: Option<TomlModel>, key: Seq<char>) -> Result<Seq<char>, Seq<char>> {
    match text_field_of(o, key) {
        Ok(s) => if is_version_text(s) {
            Ok(s)
        } else {
            Err(shape_message(key, "a version"@))
        },
        Err(m) => Err(m),
    }
}

/// Whether every item is a string.
pub open spec fn all_text(items: Seq<TomlModel>) -> bool {
    forall|i: int| 0 <= i < items.len() ==> #[trigger] items[i] is Text
}

/// The strings of items that are all strings.
pub open spec fn texts_of(items: Seq<TomlModel>) -> Seq<Seq<char>> {
    items.map_values(|t: TomlModel| t->Text_0)
}

/// A required field holding a list of strings.
pub open spec fn text_list_field_of(o: Option<TomlModel>, key: Seq<char>) -> Result<Seq<Seq<char>>, Seq<char>> {
    match o {
        None => Err(missing_message(key)),
        Some(TomlModel::Array(items)) => if all_text(items) {
            Ok(texts_of(items))
        } else {
            Err(shape_message(key, "a list of strings"@))
        },
        Some(_) => Err(shape_message(key, "a list of strings"@)),
    }
}

/// A field holding a list of versions, empty where it is absent.
pub open spec fn version_list_field_of(o: Option<TomlModel>, key: Seq<char>) -> Result<Seq<Seq<char>>, Seq<char>> {
    match o {
        None => Ok(Seq::empty()),
        Some(TomlModel::Array(items)) => if all_text(items) && forall|i: int|
            0 <= i < items.len() ==> is_version_text(#[trigger] texts_of(items)[i]) {
            Ok(texts_of(items))
        } else {
            Err(shape_message(key, "a list of versions"@))
        },
        Some(_) => Err(shape_message(key, "a list of versions"@)),
    }
}

fn missing(key: &str) -> (m: String)
    ensures
        m@ == missing_message(key@),
{
    let mut m = owned("missing field `");
    append(&mut m, key);
    append(&mut m, "`");
    m
}

fn misshapen(key: &str, shape: &str) -> (m: String)
    ensures
        m@ == shape_message(key@, shape@),
{
    let mut m = owned("field `");
    append(&mut m, key);
    append(&mut m, "` is not ");
    append(&mut m, shape);
    m
}

/// The refusal for a key a declaration does not take.
pub fn stray_refusal(key: &str) -> (m: String)
    ensures
        m@ == stray_message(key@),
{
    let mut m = owned("unknown field `");
    append(&mut m, key);
    append(&mut m, "`");
    m
}

/// A required string field of a table.
pub fn text_field(entries: &Vec<(String, Toml)>, key: &str) -> (r: Result<String, String>)
    ensures
        match r {
            Ok(s) => text_field_of(lookup(toml_entries(entries@), key@), key@) == Ok::<Seq<char>, Seq<char>>(s@),
            Err(m) => text_field_of(lookup(toml_entries(entries@), key@), key@) == Err::<Seq<char>, Seq<char>>(m@),
        },
{
    match field(entries, key) {
        None => Err(missing(key)),
        Some(Toml::Text(s)) => Ok(owned(s.as_str())),
        Some(_) => Err(misshapen(key, "a string")),
    }
}

/// A required boolean field of a table.
pub fn bool_field(entries: &Vec<(String, Toml)>, key: &str) -> (r: Result<bool, String>)
    ensures
        match r {
            Ok(b) => bool_field_of(lookup(toml_entries(entries@), key@), key@) == Ok::<bool, Seq<char>>(b),
            Err(m) => bool_field_of(lookup(toml_entries(entries@), key@), key@) == Err::<bool, Seq<char>>(m@),
        },
{
    match field(entries, key) {
        None => Err(missing(key)),
        Some(Toml::Boolean(b)) => Ok(*b),
        Some(_) => Err(misshapen(key, "a boolean")),
    }
}

/// A required version field of a table.
pub fn version_field(entries: &Vec<(String, Toml)>, key: &str) -> (r: Result<CanonVersion, String>)
    ensures
        match r {
            Ok(v) => version_field_of(lookup(toml_entries(entries@), key@), key@) == Ok::<Seq<char>, Seq<char>>(v.text()),
            Err(m) => version_field_of(lookup(toml_entries(entries@), key@), key@) == Err::<Seq<char>, Seq<char>>(m@),
        },
{
    match text_field(entries, key) {
        Err(m) => Err(m),
        Ok(s) => match CanonVersion::parse(s.as_str()) {
            Some(v) => Ok(v),
            None => Err(misshapen(key, "a version")),
        },
    }
}

/// A required field of a table holding a list of strings.
pub fn text_list_field(entries: &Vec<(String, Toml)>, key: &str) -> (r: Result<Vec<String>, String>)
    ensures
        match r {
            Ok(v) => text_list_field_of(lookup(toml_entries(entries@), key@), key@) == Ok::<Seq<Seq<char>>, Seq<char>>(v@.map_values(|s: String| s@)),
            Err(m) => text_list_field_of(lookup(toml_entries(entries@), key@), key@) == Err::<Seq<Seq<char>>, Seq<char>>(m@),
        },
{
    match field(entries, key) {
        None => Err(missing(key)),
        Some(Toml::Array(items)) => {
            proof {
                lemma_toml_models(items@);
            }
            let ghost models = toml_models(items@);
            assert(lookup(toml_entries(entries@), key@) == Some(TomlModel::Array(models)));
            let mut out: Vec<String> = Vec::new();
            let mut i: usize = 0;
            while i < items.len()
                invariant
                    i <= items.len(),
                    models == toml_models(items@),
                    models.len() == items@.len(),
                    forall|j: int| 0 <= j < items@.len() ==> #[trigger] models[j] == items@[j]@,
                    out@.len() == i,
                    lookup(toml_entries(entries@), key@) == Some(TomlModel::Array(models)),
                    forall|j: int| 0 <= j < i ==> (#[trigger] models[j]) is Text,
                    forall|j: int| 0 <= j < i ==> #[trigger] out@[j]@ == models[j]->Text_0,
                decreases items.len() - i,
            {
                match &items[i] {
                    Toml::Text(s) => {
                        assert(models[i as int] == TomlModel::Text(s@));
                        out.push(owned(s.as_str()));
                    },
                    _ => {
                        assert(!(models[i as int] is Text));
                        return Err(misshapen(key, "a list of strings"));
                    },
                }
                i += 1;
            }
            assert(out@.map_values(|s: String| s@) =~= texts_of(models));
            Ok(out)
        },
        Some(_) => Err(misshapen(key, "a list of strings")),
    }
}

/// A field of a table holding a list of versions, empty where it is
/// absent.
pub fn version_list_field(entries: &Vec<(String, Toml)>, key: &str) -> (r: Result<Vec<CanonVersion>, String>)
    ensures
        match r {
            Ok(v) => version_list_field_of(lookup(toml_entries(entries@), key@), key@) == Ok::<Seq<Seq<char>>, Seq<char>>(v@.map_values(|x: CanonVersion| x.text())),
            Err(m) => version_list_field_of(lookup(toml_entries(entries@), key@), key@) == Err::<Seq<Seq<char>>, Seq<char>>(m@),
        },
{
    match field(entries, key) {
        None => {
            let out: Vec<CanonVersion> = Vec::new();
            assert(out@.map_values(|x: CanonVersion| x.text()) =~= Seq::<Seq<char>>::empty());
            Ok(out)
        },
        Some(Toml::Array(items)) => {
            proof {
                lemma_toml_models(items@);
            }
            let ghost models = toml_models(items@);
            assert(lookup(toml_entries(entries@), key@) == Some(TomlModel::Array(models)));
            let mut out: Vec<CanonVersion> = Vec::new();
            let mut i: usize = 0;
            while i < items.len()
                invariant
                    i <= items.len(),
                    models == toml_models(items@),
                    models.len() == items@.len(),
                    forall|j: int| 0 <= j < items@.len() ==> #[trigger] models[j] == items@[j]@,
                    out@.len() == i,
                    lookup(toml_entries(entries@), key@) == Some(TomlModel::Array(models)),
                    forall|j: int| 0 <= j < i ==> (#[trigger] models[j]) is Text,
                    forall|j: int| 0 <= j < i ==> #[trigger] out@[j].text() == models[j]->Text_0,
                decreases items.len() - i,
            {
                match &items[i] {
                    Toml::Text(s) => {
                        assert(models[i as int] == TomlModel::Text(s@));
                        match CanonVersion::parse(s.as_str()) {
                            Some(v) => out.push(v),
                            None => {
                                proof {
                                    assert(texts_of(models)[i as int] == s@);
                                    assert(!is_version_text(s@));
                                }
                                return Err(misshapen(key, "a list of versions"));
                            },
                        }
                    },
                    _ => {
                        assert(!(models[i as int] is Text));
                        return Err(misshapen(key, "a list of versions"));
                    },
                }
                i += 1;
            }
            proof {
                assert forall|j: int| 0 <= j < models.len() implies is_version_text(#[trigger] texts_of(models)[j]) by {
                    assert(out@[j].text() == texts_of(models)[j]);
                }
            }
            assert(out@.map_values(|x: CanonVersion| x.text()) =~= texts_of(models));
            Ok(out)
        },
        Some(_) => Err(misshapen(key, "a list of versions")),
    }
}

/// An optional string field: absent is none.
pub open spec fn optional_text_field_of(o: Option<TomlModel>, key: Seq<char>) -> Result<Option<Seq<char>>, Seq<char>> {
    match o {
        None => Ok(None),
        Some(TomlModel::Text(s)) => Ok(Some(s)),
        Some(_) => Err(shape_message(key, "a string"@)),
    }
}

/// A required field holding an unsigned 32-bit count.
pub open spec fn count_field_of(o: Option<TomlModel>, key: Seq<char>) -> Result<u32, Seq<char>> {
    match o {
        None => Err(missing_message(key)),
        Some(TomlModel::Integer(n)) => if 0 <= n <= u32::MAX {
            Ok(n as u32)
        } else {
            Err(shape_message(key, "an unsigned 32-bit integer"@))
        },
        Some(_) => Err(shape_message(key, "an unsigned 32-bit integer"@)),
    }
}

/// An optional string field of a table.
pub fn optional_text_field(entries: &Vec<(String, Toml)>, key: &str) -> (r: Result<Option<String>, String>)
    ensures
        match r {
            Ok(Some(s)) => optional_text_field_of(lookup(toml_entries(entries@), key@), key@) == Ok::<Option<Seq<char>>, Seq<char>>(Some(s@)),
            Ok(None) => optional_text_field_of(lookup(toml_entries(entries@), key@), key@) == Ok::<Option<Seq<char>>, Seq<char>>(None),
            Err(m) => optional_text_field_of(lookup(toml_entries(entries@), key@), key@) == Err::<Option<Seq<char>>, Seq<char>>(m@),
        },
{
    match field(entries, key) {
        None => Ok(None),
        Some(Toml::Text(s)) => Ok(Some(owned(s.as_str()))),
        Some(_) => Err(misshapen(key, "a string")),
    }
}

/// A required unsigned 32-bit count field of a table.
pub fn count_field(entries: &Vec<(String, Toml)>, key: &str) -> (r: Result<u32, String>)
    ensures
        match r {
            Ok(n) => count_field_of(lookup(toml_entries(entries@), key@), key@) == Ok::<u32, Seq<char>>(n),
            Err(m) => count_field_of(lookup(toml_entries(entries@), key@), key@) == Err::<u32, Seq<char>>(m@),
        },
{
    match field(entries, key) {
        None => Err(missing(key)),
        Some(Toml::Integer(n)) => {
            if 0 <= *n && *n <= 4294967295 {
                Ok(*n as u32)
            } else {
                Err(misshapen(key, "an unsigned 32-bit integer"))
            }
        },
        Some(_) => Err(misshapen(key, "an unsigned 32-bit integer")),
    }
}

} // verus!
