//! JSON text.
use prost::bytes::Buf;
use vstd::prelude::*;

use crate::dedup::detect::text_option;
use crate::json::{json_option, json_quoted, Json, JsonValue};

verus! {

/// The JSON value that a text denotes; `None` where `serde_json` finds that it
/// is not one JSON value.
pub uninterp spec fn json_of(text: Seq<char>) -> Option<Json>;

#[verifier::external_type_specification]
#[verifier::external_body]
pub struct ExSerdeValue(serde_json::Value);

#[verifier::external_type_specification]
#[verifier::external_body]
pub struct ExSerdeNumber(serde_json::Number);

/// Converts a `serde_json::Number`: `as_u64` and `as_i64` tell its kinds
/// apart, and the text of a float is the one that `serde_json` prints.
#[verifier::external_body]
fn number_from_serde(n: serde_json::Number) -> JsonValue {
    match (n.as_u64(), n.as_i64()) {
        (Some(u), _) => JsonValue::Unsigned(u),
        (None, Some(i)) => JsonValue::Negative(i),
        (None, None) => JsonValue::Float(n.to_string()),
    }
}

/// Converts a `serde_json::Value`, variant by variant.
#[verifier::external_body]
fn value_from_serde(v: serde_json::Value) -> JsonValue {
    match v {
        serde_json::Value::Null => JsonValue::Null,
        serde_json::Value::Bool(b) => JsonValue::Bool(b),
        serde_json::Value::Number(n) => number_from_serde(n),
        serde_json::Value::String(s) => JsonValue::Str(s),
        serde_json::Value::Array(a) => JsonValue::Array(
            a.into_iter().map(value_from_serde).collect(),
        ),
        serde_json::Value::Object(m) => JsonValue::Object(
            m.into_iter().map(|(k, v)| (k, value_from_serde(v))).collect(),
        ),
    }
}

/// `serde_json::from_str`. The claim is that success and the value depend on
/// the text alone.
#[verifier::external_body]
pub(crate) fn parse_json(text: &str) -> (r: Option<JsonValue>)
    ensures
        json_option(r) == json_of(text@),
{
    match serde_json::from_str::<serde_json::Value>(text) {
        Ok(v) => Some(value_from_serde(v)),
        Err(_) => None,
    }
}

/// `serde_json::to_string` on a string: quotation marks around the text, with
/// quotation marks, backslashes and control characters escaped.
#[verifier::external_body]
pub(crate) fn quote_json(s: &str) -> (r: String)
    ensures
        r@ == json_quoted(s@),
{
    serde_json::to_string(s).unwrap_or_default()
}

/// The JSON text of the double with these bits; `None` where it is not finite.
pub uninterp spec fn json_double(bits: u64) -> Option<Seq<char>>;

/// `serde_json::Number::from_f64` on the double with these bits, and the text
/// of the result. The claim is that the text depends on the bits alone.
#[verifier::external_body]
pub(crate) fn double_to_json(bits: u64) -> (r: Option<String>)
    ensures
        text_option(r) == json_double(bits),
{
    let value = Buf::get_f64_le(&mut &bits.to_le_bytes()[..]);
    serde_json::Number::from_f64(value).map(|n| n.to_string())
}

/// The decimal text of the double with these bits.
pub uninterp spec fn double_shown(bits: u64) -> Seq<char>;

/// `Display` for the double with these bits. The claim is that the text
/// depends on the bits alone.
#[verifier::external_body]
pub(crate) fn show_double(bits: u64) -> (r: String)
    ensures
        r@ == double_shown(bits),
{
    Buf::get_f64_le(&mut &bits.to_le_bytes()[..]).to_string()
}

} // verus!
