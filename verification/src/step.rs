//! One declared workflow step, the errors a step execution can fail with,
//! its terminal outcome, and the body-parsing rule that turns a transport
//! response into a value tree.

use vstd::prelude::*;
use crate::json::{JsonModel, JsonValue};
use crate::response;
use crate::text;

verus! {

/// One declared HTTP operation of a workflow: what to send, which status to
/// expect, and which response values to save.
///
/// `save_as` and `extract_path` belong together: a value is saved only when
/// both are declared. `save_multiple` pairs each variable name with its own
/// path and may stand beside `save_as`.
pub struct Step {
    pub name: String,
    pub method: String,
    pub endpoint: String,
    pub payload: Option<JsonValue>,
    pub auth: String,
    pub expected_status: u16,
    pub save_as: Option<String>,
    pub extract_path: Option<String>,
    pub save_multiple: Vec<(String, String)>,
}

/// Why one step failed. Failures are reported and never unwind past the
/// engine; the workflow itself continues.
#[derive(Debug, Clone, PartialEq, Eq)]
pub enum StepError {
    /// The declared method is none of GET, POST, PUT, DELETE, PATCH.
    UnsupportedMethod,
    /// The declared auth kind is none of the known ones.
    UnknownAuthKind,
    /// The response status was not the expected one; extraction is skipped.
    UnexpectedStatus { expected: u16, actual: u16, body: String },
    /// The status matched but the non-empty body is not valid JSON.
    MalformedResponse { body: String },
}

/// The terminal outcome of one step invocation.
#[derive(Debug, Clone, Copy, PartialEq, Eq)]
pub enum Outcome {
    /// The step ran and saved this many variables.
    Completed(usize),
    /// The user declined the confirmation prompt.
    Cancelled,
    /// The step failed, at transport level or with a `StepError`.
    Failed,
}

/// The tree a response body denotes: an empty (or all-whitespace) body is an
/// empty object, any other body must parse as JSON.
pub open spec fn response_tree(body: Seq<char>) -> Option<JsonModel> {
    if text::spec_trim(body).len() == 0 {
        Some(JsonModel::Obj(Seq::empty()))
    } else {
        match response::parsed_json(body) {
            Some(v) => Some(v@),
            None => None,
        }
    }
}

/// Parses a response body as `response_tree` says: empty means an empty
/// object, anything else must be valid JSON.
pub fn parse_body(body: &str) -> (r: Option<JsonValue>)
    ensures
        match r {
            Some(v) => response_tree(body@) == Some(v@),
            None => response_tree(body@) is None,
        },
{
    let trimmed = text::trim_str(body);
    if trimmed.unicode_len() == 0 {
        let empty_obj = JsonValue::Obj(Vec::new());
        proof {
            assert(empty_obj@ == JsonModel::Obj(Seq::empty()));
        }
        Some(empty_obj)
    } else {
        response::parse_json_text(body)
    }
}

} // verus!
