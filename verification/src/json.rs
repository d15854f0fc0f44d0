//! JSON documents as the planner reads and writes them.
//!
//! Reading and writing JSON text is the work of `serde_json`, and so is the
//! keeping of the entries of an object: an object is a `serde_json::Map`.
//! The library looks at a document one level at a time, through a type of
//! its own; numbers and the entries of objects pass through as `serde_json`
//! holds them.

use vstd::prelude::*;
use crate::decimal::decimal_text;

verus! {

/// Declares `serde_json::Number`, which a document carries as it is. Nothing
/// is said of what is inside.
#[verifier::external_type_specification]
#[verifier::external_body]
pub struct ExJsonNumber(serde_json::Number);

/// Declares `serde_json::Value`, which is what `serde_json` reads and writes.
/// Nothing is said of what is inside.
#[verifier::external_type_specification]
#[verifier::external_body]
pub struct ExJsonValue(serde_json::Value);

/// Declares `serde_json::Map`, which holds the entries of an object. What it
/// holds is named by `object_entries`.
#[verifier::external_type_specification]
#[verifier::external_body]
#[verifier::reject_recursive_types(K)]
#[verifier::reject_recursive_types(V)]
pub struct ExJsonMap<K, V>(serde_json::Map<K, V>);

/// A JSON document.
pub enum Json {
    Null,
    Bool(bool),
    Number(serde_json::Number),
    Text(String),
    Array(Vec<Json>),
    Object(serde_json::Map<String, serde_json::Value>),
}

/// The mathematical form of a JSON document. A number is held as the text
/// that stands for it in a document, and an object as the map from its keys
/// to its values.
pub enum JsonModel {
    Null,
    Bool(bool),
    Number(Seq<char>),
    Text(Seq<char>),
    Array(Seq<JsonModel>),
    Object(Map<Seq<char>, JsonModel>),
}

/// The text that stands for a number in a document.
pub uninterp spec fn number_text(number: serde_json::Number) -> Seq<char>;

/// What an object holds: the document under each of its keys.
pub uninterp spec fn object_entries(object: serde_json::Map<String, serde_json::Value>) -> Map<
    Seq<char>,
    JsonModel,
>;

/// The document that a text holds, if it is well-formed JSON.
pub uninterp spec fn parsed_json(text: Seq<char>) -> Option<JsonModel>;

/// The compact text of a document.
pub uninterp spec fn rendered_json(document: JsonModel) -> Seq<char>;

/// The entries of the empty object.
pub open spec fn no_entries() -> Map<Seq<char>, JsonModel> {
    Map::empty()
}

/// The mathematical form of a list of documents.
pub open spec fn items_model(items: Seq<Json>) -> Seq<JsonModel> {
    Seq::new(items.len(), |i: int| items[i].model())
}

/// The mathematical form of a document that may be missing.
pub open spec fn option_model(document: Option<Json>) -> Option<JsonModel> {
    match document {
        Some(json) => Some(json.model()),
        None => None,
    }
}

/// The value that a map of entries holds under `key`, if it holds one.
pub open spec fn entry_of(entries: Map<Seq<char>, JsonModel>, key: Seq<char>) -> Option<
    JsonModel,
> {
    if entries.dom().contains(key) {
        Some(entries[key])
    } else {
        None
    }
}

/// The value that an object holds under `key`; nothing for another document.
pub open spec fn field_of(document: JsonModel, key: Seq<char>) -> Option<JsonModel> {
    match document {
        JsonModel::Object(entries) => entry_of(entries, key),
        _ => None,
    }
}

/// The array of the texts in `texts`.
pub open spec fn text_array(texts: Seq<Seq<char>>) -> JsonModel {
    JsonModel::Array(Seq::new(texts.len(), |i: int| JsonModel::Text(texts[i])))
}

/// Calls `serde_json::Number::from` on a `u64`. Such a number is written as
/// the shortest decimal numeral of the integer.
#[verifier::external_body]
pub(crate) fn number_from(n: u64) -> (number: serde_json::Number)
    ensures
        number_text(number) == decimal_text(n as nat),
{
    serde_json::Number::from(n)
}

/// Turns a value of `serde_json` into a document, variant by variant. The
/// entries of an object stay in their `serde_json::Map`.
#[verifier::external_body]
fn json_from_value(value: serde_json::Value) -> Json {
    match value {
        serde_json::Value::Null => Json::Null,
        serde_json::Value::Bool(flag) => Json::Bool(flag),
        serde_json::Value::Number(number) => Json::Number(number),
        serde_json::Value::String(text) => Json::Text(text),
        serde_json::Value::Array(items) => Json::Array(
            items.into_iter().map(json_from_value).collect(),
        ),
        serde_json::Value::Object(object) => Json::Object(object),
    }
}

/// Turns a document into a value of `serde_json`, variant by variant.
#[verifier::external_body]
fn json_to_value(json: &Json) -> serde_json::Value {
    match json {
        Json::Null => serde_json::Value::Null,
        Json::Bool(flag) => serde_json::Value::Bool(*flag),
        Json::Number(number) => serde_json::Value::Number(number.clone()),
        Json::Text(text) => serde_json::Value::String(text.clone()),
        Json::Array(items) => serde_json::Value::Array(items.iter().map(json_to_value).collect()),
        Json::Object(object) => serde_json::Value::Object(object.clone()),
    }
}

/// Calls `serde_json::Map::new`: a map without entries.
#[verifier::external_body]
pub(crate) fn object_new() -> (object: serde_json::Map<String, serde_json::Value>)
    ensures
        object_entries(object) == no_entries(),
{
    serde_json::Map::new()
}

/// Calls `serde_json::Map::insert`: the map then holds the value under the
/// key, in the place of what it held there, and all its other entries.
#[verifier::external_body]
pub(crate) fn object_insert(
    object: &mut serde_json::Map<String, serde_json::Value>,
    key: &str,
    value: &Json,
)
    ensures
        object_entries(*final(object)) == object_entries(*old(object)).insert(key@, value.model()),
{
    object.insert(key.to_owned(), json_to_value(value));
}

/// Calls `serde_json::Map::get`: the value that the map holds under the key,
/// if it holds one.
#[verifier::external_body]
pub(crate) fn object_get(object: &serde_json::Map<String, serde_json::Value>, key: &str) -> (value:
    Option<Json>)
    ensures
        option_model(value) == entry_of(object_entries(*object), key@),
{
    object.get(key).map(|found| json_from_value(found.clone()))
}

/// Calls `serde_json::from_str` for a `serde_json::Value`. The contract only
/// gives the result its name: what a text holds depends on the text alone.
#[verifier::external_body]
pub(crate) fn parse_json(text: &str) -> (document: Option<Json>)
    ensures
        option_model(document) == parsed_json(text@),
{
    serde_json::from_str::<serde_json::Value>(text).ok().map(json_from_value)
}

/// Calls `to_string` on the `serde_json::Value` of the document. The contract
/// only gives the result its name: the text depends on the document alone.
#[verifier::external_body]
pub(crate) fn render_json(json: &Json) -> (text: String)
    ensures
        text@ == rendered_json(json.model()),
{
    json_to_value(json).to_string()
}

impl Json {
    /// The mathematical form of the document.
    pub open spec fn model(self) -> JsonModel
        decreases self,
    {
        match self {
            Json::Null => JsonModel::Null,
            Json::Bool(flag) => JsonModel::Bool(flag),
            Json::Number(number) => JsonModel::Number(number_text(number)),
            Json::Text(text) => JsonModel::Text(text@),
            Json::Array(items) => JsonModel::Array(
                Seq::new(
                    items@.len(),
                    |i: int|
                        if 0 <= i < items@.len() {
                            items@[i].model()
                        } else {
                            JsonModel::Null
                        },
                ),
            ),
            Json::Object(object) => JsonModel::Object(object_entries(object)),
        }
    }

    /// The form of an array is the list of the forms of its items.
    pub proof fn lemma_model(self)
        ensures
            self matches Json::Array(items) ==> self.model() == JsonModel::Array(
                items_model(items@),
            ),
    {
        match self {
            Json::Array(items) => {
                assert(self.model()->Array_0 =~= items_model(items@));
            },
            _ => {},
        }
    }

    /// The text of a string document; nothing for another document.
    pub fn as_text(&self) -> (text: Option<&String>)
        ensures
            match text {
                Some(t) => self.model() == JsonModel::Text(t@),
                None => !(self.model() is Text),
            },
    {
        match self {
            Json::Text(text) => Some(text),
            _ => None,
        }
    }

    /// The value that an object holds under `key`; nothing for another
    /// document.
    pub fn field(&self, key: &str) -> (value: Option<Json>)
        ensures
            option_model(value) == field_of(self.model(), key@),
    {
        match self {
            Json::Object(object) => object_get(object, key),
            _ => None,
        }
    }
}

} // verus!
