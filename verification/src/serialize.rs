//! JSON text as `serde_json` reads and writes it: incoming bodies and
//! message parts, outgoing messages and bodies.
use vstd::prelude::*;
use crate::json::{Json, JsonV};

verus! {

/// `serde_json::Value`, carried through unread.
#[verifier::external_type_specification]
#[verifier::external_body]
pub struct ExJsonValue(serde_json::Value);

/// What `serde_json::to_string` writes for the `serde_json::Value` that a
/// JSON tree converts to (members in key order, as its maps keep them).
pub uninterp spec fn json_text_of(j: JsonV) -> Seq<u8>;

/// The `serde_json::Value` of a JSON tree: numbers read from their text,
/// strings and keys taken as UTF-8 (malformed bytes replaced).
#[verifier::external_body]
fn json_value(j: &Json) -> serde_json::Value {
    match j {
        Json::Null => serde_json::Value::Null,
        Json::Bool(b) => serde_json::Value::Bool(*b),
        Json::Number(t) => match String::from_utf8_lossy(t).parse::<serde_json::Number>() {
            Ok(n) => serde_json::Value::Number(n),
            Err(_) => serde_json::Value::Null,
        },
        Json::Str(s) => serde_json::Value::String(String::from_utf8_lossy(s).into_owned()),
        Json::Array(items) => serde_json::Value::Array(items.iter().map(json_value).collect()),
        Json::Object(members) => serde_json::Value::Object(
            members.iter().map(|(k, v)| (String::from_utf8_lossy(k).into_owned(), json_value(v))).collect(),
        ),
    }
}

/// `serde_json::to_string` of the tree's value (see [`json_value`]): its
/// text is named, not stated; it depends on the tree alone.
#[verifier::external_body]
pub(crate) fn json_text(j: &Json) -> (r: Vec<u8>)
    ensures
        r@ == json_text_of(j.view()),
{
    serde_json::to_string(&json_value(j)).unwrap_or_default().into_bytes()
}

/// What `serde_json::from_slice::<serde_json::Value>` reads from a text, as
/// a JSON tree (see [`json_tree`]); `None` where the text does not parse.
pub uninterp spec fn json_parse_of(text: Seq<u8>) -> Option<JsonV>;

/// The JSON tree of a `serde_json::Value`: numbers by the text that
/// `serde_json` writes for them, strings and keys as their UTF-8 bytes,
/// object members in the order the value's map keeps them.
#[verifier::external_body]
fn json_tree(v: &serde_json::Value) -> Json {
    match v {
        serde_json::Value::Null => Json::Null,
        serde_json::Value::Bool(b) => Json::Bool(*b),
        serde_json::Value::Number(n) => Json::Number(n.to_string().into_bytes()),
        serde_json::Value::String(s) => Json::Str(s.as_bytes().to_vec()),
        serde_json::Value::Array(items) => Json::Array(items.iter().map(json_tree).collect()),
        serde_json::Value::Object(map) => Json::Object(
            map.iter().map(|(k, v)| (k.as_bytes().to_vec(), json_tree(v))).collect(),
        ),
    }
}

/// `serde_json::from_slice::<serde_json::Value>` on the text, its value
/// taken as a tree: what it reads is named, not stated; it depends on the
/// text alone.
#[verifier::external_body]
pub(crate) fn parse_json(text: &[u8]) -> (r: Option<Json>)
    ensures
        match r {
            Some(j) => json_parse_of(text@) == Some(j.view()),
            None => json_parse_of(text@) is None,
        },
{
    match serde_json::from_slice::<serde_json::Value>(text) {
        Ok(v) => Some(json_tree(&v)),
        Err(_) => None,
    }
}

} // verus!
