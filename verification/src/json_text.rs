//! JSON text and the library's JSON values: reading a document with `serde_json` and
//! printing a value the way `serde_json` prints it (compact, object keys in order).
use vstd::prelude::*;
use crate::json::{JsonNumber, JsonValue};
use serde_json::Value;

verus! {

#[verifier::external_type_specification]
#[verifier::external_body]
pub struct ExSerdeValue(serde_json::Value);

#[verifier::external_type_specification]
#[verifier::external_body]
pub struct ExSerdeNumber(serde_json::Number);

/// The value `serde_json::from_str` reads from `text`, `None` when the text is not one
/// JSON document.
pub uninterp spec fn json_text_value(text: Seq<char>) -> Option<JsonValue>;

/// The compact text `serde_json` prints for a value.
pub uninterp spec fn json_value_text(v: JsonValue) -> Seq<char>;

/// Part of reading a document: a `serde_json` number in the library's form, one for one
/// (an unsigned integer, a negative integer, or a float with its bits and printed text).
#[verifier::external_body]
fn number_from_serde(n: &serde_json::Number) -> JsonNumber {
    match (n.as_u64(), n.as_i64()) {
        (Some(u), _) => JsonNumber::PosInt(u),
        (None, Some(i)) => JsonNumber::NegInt(i),
        (None, None) => JsonNumber::Float { bits: n.as_f64().map(|f| f.to_bits()).unwrap_or(0), text: n.to_string() },
    }
}

/// Part of reading a document: a `serde_json` value in the library's form, one for one.
#[verifier::external_body]
fn value_from_serde(v: &Value) -> JsonValue {
    match v {
        Value::Null => JsonValue::Null,
        Value::Bool(b) => JsonValue::Bool(*b),
        Value::Number(n) => JsonValue::Number(number_from_serde(n)),
        Value::String(s) => JsonValue::String(s.clone()),
        Value::Array(a) => JsonValue::Array(a.iter().map(value_from_serde).collect()),
        Value::Object(m) => JsonValue::Object(m.iter().map(|(k, x)| (k.clone(), value_from_serde(x))).collect()),
    }
}

/// Part of printing a value: the library's value as a `serde_json` value, one for one (a
/// float is rebuilt from its printed text).
#[verifier::external_body]
fn value_to_serde(v: &JsonValue) -> Value {
    match v {
        JsonValue::Null => Value::Null,
        JsonValue::Bool(b) => Value::Bool(*b),
        JsonValue::Number(JsonNumber::PosInt(u)) => Value::from(*u),
        JsonValue::Number(JsonNumber::NegInt(i)) => Value::from(*i),
        JsonValue::Number(JsonNumber::Float { text, .. }) => text.parse::<serde_json::Number>().map(Value::Number).unwrap_or(Value::Null),
        JsonValue::String(s) => Value::String(s.clone()),
        JsonValue::Array(a) => Value::Array(a.iter().map(value_to_serde).collect()),
        JsonValue::Object(es) => Value::Object(es.iter().map(|(k, x)| (k.clone(), value_to_serde(x))).collect()),
    }
}

/// `serde_json::from_str`: the value `text` holds, `None` when it is not one JSON
/// document. What it reads is named, not written out: `json_text_value`.
#[verifier::external_body]
pub(crate) fn parse_json(text: &str) -> (r: Option<JsonValue>)
    ensures
        r == json_text_value(text@),
{
    match serde_json::from_str::<Value>(text) {
        Ok(v) => Some(value_from_serde(&v)),
        Err(_) => None,
    }
}

/// `Value::to_string`: the compact text of a value. What it prints is named,
/// not written out: `json_value_text`.
#[verifier::external_body]
pub(crate) fn to_json_text(v: &JsonValue) -> (r: String)
    ensures
        r@ == json_value_text(*v),
{
    value_to_serde(v).to_string()
}

} // verus!
