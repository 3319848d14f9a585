//! A JSON value as the decoder reads it, and the parse that produces it.
use vstd::prelude::*;

verus! {

/// A parsed JSON value. Numbers keep their decimal text; object members
/// keep the order in which the parser hands them out.
pub enum JsonValue {
    Null,
    Bool(bool),
    Number(Vec<char>),
    Text(String),
    Array(Vec<JsonValue>),
    Object(Vec<(String, JsonValue)>),
}

#[verifier::external_type_specification]
#[verifier::external_body]
pub struct ExJsonValue(serde_json::Value);

/// What serde_json makes of a text: `None` where it is not one JSON value.
pub uninterp spec fn json_of(text: Seq<char>) -> Option<JsonValue>;

/// What `str::to_lowercase` makes of a text.
pub uninterp spec fn lower_of(s: Seq<char>) -> Seq<char>;

/// Relies on `serde_json::from_str::<serde_json::Value>`: the parse depends
/// on the text alone, and fails on anything that is not one JSON value
/// (an empty or blank line included).
#[verifier::external_body]
pub(crate) fn parse_json(text: &str) -> (r: Option<JsonValue>)
    ensures
        r == json_of(text@),
{
    serde_json::from_str::<serde_json::Value>(text).ok().map(from_serde)
}

/// Relies on the variants of `serde_json::Value` and on `Number`'s
/// `Display`, which writes the number's decimal text; moves each part over.
#[verifier::external_body]
fn from_serde(v: serde_json::Value) -> JsonValue {
    match v {
        serde_json::Value::Null => JsonValue::Null,
        serde_json::Value::Bool(b) => JsonValue::Bool(b),
        serde_json::Value::Number(n) => JsonValue::Number(n.to_string().chars().collect()),
        serde_json::Value::String(s) => JsonValue::Text(s),
        serde_json::Value::Array(a) => JsonValue::Array(a.into_iter().map(from_serde).collect()),
        serde_json::Value::Object(m) => JsonValue::Object(m.into_iter().map(|(k, x)| (k, from_serde(x))).collect()),
    }
}

/// Relies on `str::to_lowercase`: the result depends on the characters alone.
#[verifier::external_body]
pub(crate) fn lowercase(s: &str) -> (r: String)
    ensures
        r@ == lower_of(s@),
{
    s.to_lowercase()
}

} // verus!
