//! Reading fields of the JSON payload that a hook receives.
use vstd::prelude::*;
use crate::text::opt_view;

verus! {

/// The string at JSON pointer `pointer` (RFC 6901) of the document `doc`,
/// when `doc` parses as JSON and the value found there is a string.
pub uninterp spec fn json_pointer_str(doc: Seq<char>, pointer: Seq<char>) -> Option<Seq<char>>;

/// The string at JSON pointer `pointer` of the document `doc`: parses `doc`
/// with `serde_json::from_str` into a `serde_json::Value`, looks up
/// `pointer` with `Value::pointer` and reads the value with `Value::as_str`.
/// The result depends on the two strings alone.
#[verifier::external_body]
fn json_str_at(doc: &str, pointer: &str) -> (r: Option<String>)
    ensures
        opt_view(r) == json_pointer_str(doc@, pointer@),
{
    match serde_json::from_str::<serde_json::Value>(doc) {
        Ok(v) => v.pointer(pointer).and_then(serde_json::Value::as_str).map(String::from),
        Err(_) => None,
    }
}

/// A missing string field reads as empty.
pub open spec fn or_empty(v: Option<Seq<char>>) -> Seq<char> {
    match v {
        Some(s) => s,
        None => Seq::empty(),
    }
}

/// The proposed shell command of a tool-use payload: `tool_input.command`,
/// or empty when the payload is not JSON or holds no such string.
pub open spec fn payload_command(payload: Seq<char>) -> Seq<char> {
    or_empty(json_pointer_str(payload, "/tool_input/command"@))
}

/// What started a session: the payload's `source`, or empty.
pub open spec fn payload_source(payload: Seq<char>) -> Seq<char> {
    or_empty(json_pointer_str(payload, "/source"@))
}

/// The proposed shell command of a tool-use payload, or an empty string.
pub fn hook_command(payload: &str) -> (c: String)
    ensures
        c@ == payload_command(payload@),
{
    match json_str_at(payload, "/tool_input/command") {
        Some(c) => c,
        None => String::new(),
    }
}

/// What started the session (`startup`, `resume`, `clear`, `compact`), or
/// an empty string.
pub fn hook_source(payload: &str) -> (s: String)
    ensures
        s@ == payload_source(payload@),
{
    match json_str_at(payload, "/source") {
        Some(s) => s,
        None => String::new(),
    }
}

} // verus!
