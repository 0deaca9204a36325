//! Parsing a response body into the library's value tree. The parse itself is
//! the one outside call the step logic makes; everything around it — the
//! empty-body rule and the failure mapping — is verified in `step`.

use vstd::prelude::*;
use crate::json::JsonValue;

verus! {

#[verifier::external_type_specification]
#[verifier::external_body]
pub struct ExSerdeJsonValue(serde_json::Value);

/// What parsing a JSON text yields: `None` when the text is not valid JSON,
/// otherwise the tree it denotes. The result depends on the text alone.
pub uninterp spec fn parsed_json(s: Seq<char>) -> Option<JsonValue>;

/// Relies on serde_json::from_str: parses a JSON text, deterministically in
/// the text, into a value tree; an invalid text is an error.
#[verifier::external_body]
pub fn parse_json_text(text: &str) -> (r: Option<JsonValue>)
    ensures
        r == parsed_json(text@),
{
    match serde_json::from_str::<serde_json::Value>(text) {
        Ok(v) => Some(decode_json(v)),
        Err(_) => None,
    }
}

/// Relies on serde_json::Value: carries each variant over to the library's
/// tree, one arm per variant, keeping a number as the text serde_json renders
/// it to.
#[verifier::external_body]
fn decode_json(v: serde_json::Value) -> JsonValue {
    match v {
        serde_json::Value::Null => JsonValue::Null,
        serde_json::Value::Bool(b) => JsonValue::Bool(b),
        serde_json::Value::Number(n) => JsonValue::Num(n.to_string()),
        serde_json::Value::String(s) => JsonValue::Str(s),
        serde_json::Value::Array(a) => JsonValue::Arr(a.into_iter().map(decode_json).collect()),
        serde_json::Value::Object(m) => JsonValue::Obj(
            m.into_iter().map(|e| (e.0, decode_json(e.1))).collect(),
        ),
    }
}

} // verus!
