//! JSON values as the library holds them: the parameters and results that
//! travel in RPC messages.

use vstd::prelude::*;

verus! {

/// A JSON value. A number is held as its JSON text, exactly as it was written
/// (for example `42`, `-7` or `2.5`); the members of an object keep their order.
#[derive(Debug)]
pub enum JsonValue {
    Null,
    Bool(bool),
    Number(String),
    String(String),
    Array(Vec<JsonValue>),
    Object(Vec<(String, JsonValue)>),
}

/// `serde_json::Value`, the JSON value that `serde_json` reads.
#[verifier::external_type_specification]
#[verifier::external_body]
pub struct ExSerdeJsonValue(serde_json::Value);

/// The JSON value that the text `text` holds as `serde_json` reads it (one
/// value, with white space around it allowed), or `None` when it holds none.
pub uninterp spec fn json_value_of(text: Seq<char>) -> Option<JsonValue>;

/// `serde_json::from_str::<serde_json::Value>`: reads `text` as a JSON value;
/// the result is `json_value_of(text)`. The grammar is `serde_json`'s and is
/// not spelled out here, but for the three literal names of JSON it is plain:
/// `true` and `false` read as those booleans and `null` as null, and an empty
/// text holds no value.
#[verifier::external_body]
pub(crate) fn parse_json(text: &str) -> (r: Option<JsonValue>)
    ensures
        r == json_value_of(text@),
        text@ == "true"@ ==> r == Some(JsonValue::Bool(true)),
        text@ == "false"@ ==> r == Some(JsonValue::Bool(false)),
        text@ == "null"@ ==> r == Some(JsonValue::Null),
        text@.len() == 0 ==> r is None,
{
    serde_json::from_str::<serde_json::Value>(text).ok().map(json_from_serde)
}

/// The conversion under `parse_json`: each `serde_json::Value` variant to the
/// `JsonValue` variant of the same name, members and items in order, a number
/// to `serde_json`'s text of it.
#[verifier::external_body]
fn json_from_serde(v: serde_json::Value) -> JsonValue {
    match v {
        serde_json::Value::Null => JsonValue::Null,
        serde_json::Value::Bool(b) => JsonValue::Bool(b),
        serde_json::Value::Number(n) => JsonValue::Number(n.to_string()),
        serde_json::Value::String(s) => JsonValue::String(s),
        serde_json::Value::Array(a) => JsonValue::Array(a.into_iter().map(json_from_serde).collect()),
        serde_json::Value::Object(m) => {
            JsonValue::Object(m.into_iter().map(|(k, v)| (k, json_from_serde(v))).collect())
        },
    }
}

impl JsonValue {
    /// Whether this is JSON `null`.
    pub fn is_null(&self) -> (b: bool)
        ensures
            b == (*self is Null),
    {
        match self {
            JsonValue::Null => true,
            _ => false,
        }
    }
}

} // verus!
