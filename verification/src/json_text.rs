//! JSON documents as text: reading them with serde_json into the library's
//! model, and writing the model back as pretty-printed text.
use vstd::prelude::*;
use crate::catalog::{json_view, Json, JsonView};

verus! {

/// serde_json's dynamically typed value, carried through unread.
#[verifier::external_type_specification]
#[verifier::external_body]
pub struct ExJsonValue(serde_json::Value);

/// The document that serde_json reads from `text`, or `None` where `text`
/// is not one JSON document.
pub uninterp spec fn json_text_value(text: Seq<char>) -> Option<JsonView>;

/// The text that serde_json's pretty printer writes for a document.
pub uninterp spec fn json_pretty_text(value: JsonView) -> Seq<char>;

/// `serde_json::from_str` into a `Value`, converted variant by variant into
/// the library's model: the model of the document the text holds, `None`
/// where serde_json refuses the text.
#[verifier::external_body]
pub(crate) fn parse_json_text(text: &str) -> (r: Option<Json>)
    ensures
        match json_text_value(text@) {
            Some(v) => r matches Some(j) && json_view(j) == v,
            None => r is None,
        },
{
    match serde_json::from_str::<serde_json::Value>(text) {
        Ok(v) => Some(json_of_value(&v)),
        Err(_) => None,
    }
}

/// `serde_json::to_string_pretty` of the document, converted variant by
/// variant into a `Value`: its pretty-printed text.
#[verifier::external_body]
pub(crate) fn pretty_json_text(j: &Json) -> (r: String)
    ensures
        r@ == json_pretty_text(json_view(*j)),
{
    serde_json::to_string_pretty(&value_of_json(j)).unwrap_or_default()
}

/// A serde_json `Value` in the library's model, one variant for one; part
/// of `parse_json_text`, which states what the two give together.
#[verifier::external_body]
fn json_of_value(v: &serde_json::Value) -> Json {
    match v {
        serde_json::Value::Null => Json::Null,
        serde_json::Value::Bool(b) => Json::Bool(*b),
        serde_json::Value::Number(n) => Json::Number(n.to_string()),
        serde_json::Value::String(s) => Json::Str(s.clone()),
        serde_json::Value::Array(a) => Json::Array(a.iter().map(json_of_value).collect()),
        serde_json::Value::Object(m) => Json::Object(m.iter().map(|(k, x)| (k.clone(), json_of_value(x))).collect()),
    }
}

/// The library's model as a serde_json `Value`, one variant for one; part
/// of `pretty_json_text`, which states what the two give together.
#[verifier::external_body]
fn value_of_json(j: &Json) -> serde_json::Value {
    match j {
        Json::Null => serde_json::Value::Null,
        Json::Bool(b) => serde_json::Value::Bool(*b),
        Json::Number(n) => serde_json::from_str(n).unwrap_or(serde_json::Value::Null),
        Json::Str(s) => serde_json::Value::String(s.clone()),
        Json::Array(a) => serde_json::Value::Array(a.iter().map(value_of_json).collect()),
        Json::Object(m) => serde_json::Value::Object(m.iter().map(|(k, x)| (k.clone(), value_of_json(x))).collect()),
    }
}

/// Reads a JSON document: its model, or `None` where the text is not one.
pub fn read_json_text(text: &str) -> (r: Option<Json>)
    ensures
        match json_text_value(text@) {
            Some(v) => r matches Some(j) && json_view(j) == v,
            None => r is None,
        },
{
    parse_json_text(text)
}

/// Writes a document as pretty-printed text.
pub fn write_json_text(j: &Json) -> (r: String)
    ensures
        r@ == json_pretty_text(json_view(*j)),
{
    pretty_json_text(j)
}

} // verus!
