//! Decisions of the hook that reformats a proposed shell command for review.
//! The hook fails safe: when the formatter is missing, fails, or makes no
//! change, the command runs untouched.
use vstd::prelude::*;
use crate::installer::{ask, path_exists};
use crate::payload::{hook_command, payload_command};
use crate::text::{char_vec, opt_view, same_text, string_of};

verus! {

/// `s` without its trailing newlines (`str::trim_end_matches('\n')`).
pub open spec fn trim_newlines(s: Seq<char>) -> Seq<char>
    decreases s.len(),
{
    if s.len() > 0 && s.last() == '\n' {
        trim_newlines(s.drop_last())
    } else {
        s
    }
}

/// The formatted command that replaces `command`, given the formatter's
/// output: none when the output, without trailing newlines, is empty or
/// the same as the command.
pub open spec fn replacement(command: Seq<char>, output: Seq<char>) -> Option<Seq<char>> {
    let f = trim_newlines(output);
    if f.len() == 0 || f == command {
        None
    } else {
        Some(f)
    }
}

/// The command of a payload that is worth formatting: a non-empty one.
pub open spec fn format_target(payload: Seq<char>) -> Option<Seq<char>> {
    let c = payload_command(payload);
    if c.len() > 0 {
        Some(c)
    } else {
        None
    }
}

/// The hook's reply: `payload`'s `tool_input` with `command` replaced, wrapped
/// in the PreToolUse `hookSpecificOutput` object (as `updatedInput`, beside
/// `"hookEventName": "PreToolUse"`) and serialized; none when `payload` is
/// not JSON or its `tool_input` is not a JSON object.
pub uninterp spec fn json_updated_reply(payload: Seq<char>, command: Seq<char>) -> Option<Seq<char>>;

/// The hook's reply for `payload` with the command replaced by `command`:
/// parses `payload` with `serde_json::from_str`, sets `command` in its
/// `tool_input` object, wraps that object as `updatedInput` of the
/// `hookSpecificOutput` object, and serializes it with `Value::to_string`.
/// The result depends on the two strings alone.
#[verifier::external_body]
fn updated_reply(payload: &str, command: &str) -> (r: Option<String>)
    ensures
        opt_view(r) == json_updated_reply(payload@, command@),
{
    let v: serde_json::Value = serde_json::from_str(payload).ok()?;
    let mut input = v.get("tool_input")?.as_object()?.clone();
    input.insert(String::from("command"), serde_json::Value::from(command));
    let mut inner = serde_json::Map::new();
    inner.insert(String::from("hookEventName"), serde_json::Value::from("PreToolUse"));
    inner.insert(String::from("updatedInput"), serde_json::Value::Object(input));
    let mut outer = serde_json::Map::new();
    outer.insert(String::from("hookSpecificOutput"), serde_json::Value::Object(inner));
    Some(serde_json::Value::Object(outer).to_string())
}

/// The reply of the format hook for the tool-use `payload`, given the
/// formatter's standard output `output` for the payload's command: the
/// payload's `tool_input` with the formatted command in place; `None` when
/// there is no command to format or no meaningful change, and the command
/// runs untouched.
pub fn format_reply(payload: &str, output: &str) -> (r: Option<String>)
    ensures
        opt_view(r) == match format_target(payload@) {
            Some(c) => match replacement(c, output@) {
                Some(f) => json_updated_reply(payload@, f),
                None => None,
            },
            None => None,
        },
{
    match format_candidate(payload) {
        Some(c) => match formatted_command(c.as_str(), output) {
            Some(f) => updated_reply(payload, f.as_str()),
            None => None,
        },
        None => None,
    }
}

/// `s` without its trailing newlines.
pub fn trim_trailing_newlines(s: &str) -> (r: String)
    ensures
        r@ == trim_newlines(s@),
{
    let v = char_vec(s);
    let mut k: usize = v.len();
    assert(v@.take(k as int) =~= v@);
    while k > 0 && v[k - 1] == '\n'
        invariant
            v@ == s@,
            k <= v@.len(),
            trim_newlines(v@.take(k as int)) == trim_newlines(s@),
        decreases k,
    {
        assert(v@.take(k as int).drop_last() =~= v@.take(k - 1));
        k = k - 1;
    }
    assert(trim_newlines(v@.take(k as int)) == v@.take(k as int));
    let mut out: Vec<char> = Vec::new();
    let mut i: usize = 0;
    while i < k
        invariant
            v@ == s@,
            i <= k <= v@.len(),
            out@ == v@.take(i as int),
        decreases k - i,
    {
        out.push(v[i]);
        assert(v@.take(i + 1) =~= v@.take(i as int).push(v@[i as int]));
        i = i + 1;
    }
    assert(v@.take(k as int) == out@);
    string_of(&out)
}

/// The formatted command to propose in place of `command`, given the
/// formatter's standard output `output`; `None` when there is no meaningful
/// change and the command is left untouched.
pub fn formatted_command(command: &str, output: &str) -> (r: Option<String>)
    ensures
        opt_view(r) == replacement(command@, output@),
{
    let f = trim_trailing_newlines(output);
    if f.as_str().is_empty() || same_text(f.as_str(), command) {
        None
    } else {
        Some(f)
    }
}

/// The command of the tool-use `payload` to be formatted; `None` when the
/// payload is not JSON, holds no `tool_input.command` string, or an empty one.
pub fn format_candidate(payload: &str) -> (r: Option<String>)
    ensures
        opt_view(r) == format_target(payload@),
{
    let c = hook_command(payload);
    if c.as_str().is_empty() {
        None
    } else {
        Some(c)
    }
}

/// The formatter that cargo installs for the user whose home is `home`.
pub open spec fn cargo_topiary(home: Seq<char>) -> Seq<char> {
    home + "/.cargo/bin/topiary"@
}

/// The formatter to run: the cargo-installed one when it was `found`,
/// otherwise `topiary`, looked up on the `PATH`.
pub open spec fn topiary_pick(home: Option<Seq<char>>, found: bool) -> Seq<char> {
    match home {
        Some(h) => if found {
            cargo_topiary(h)
        } else {
            "topiary"@
        },
        None => "topiary"@,
    }
}

/// The cargo-installed formatter of the user whose home is `home`.
pub fn topiary_candidate(home: &str) -> (r: String)
    ensures
        r@ == cargo_topiary(home@),
{
    let mut r = string_of(&char_vec(home));
    r.append("/.cargo/bin/topiary");
    r
}

/// The formatter to run, given the home directory (if known) and whether
/// the cargo-installed formatter exists.
pub fn topiary_choice(home: Option<&str>, found: bool) -> (r: String)
    ensures
        r@ == topiary_pick(
            match home {
                Some(h) => Some(h@),
                None => None,
            },
            found,
        ),
{
    match home {
        Some(h) => if found {
            topiary_candidate(h)
        } else {
            String::from_str("topiary")
        },
        None => String::from_str("topiary"),
    }
}

/// The probe for an existing file at `path` answered `found` (at some call).
pub closed spec fn exists_as(path: Seq<char>, found: bool) -> bool {
    exists|s: &str| s@ == path && call_ensures(path_exists, (s,), found)
}

/// Locate the topiary binary, preferring ~/.cargo/bin then falling back to
/// PATH: with a home directory, the cargo-installed formatter is chosen
/// when the probe found it and `topiary` when the probe did not; without
/// one, `topiary`.
pub fn topiary_bin(home: Option<&str>) -> (r: String)
    ensures
        r@ == "topiary"@ || (home matches Some(h) && r@ == cargo_topiary(h@)),
        home is None ==> r@ == "topiary"@,
        home matches Some(h) ==> (r@ == cargo_topiary(h@) && exists_as(cargo_topiary(h@), true)) || (
        r@ == "topiary"@ && exists_as(cargo_topiary(h@), false)),
{
    match home {
        Some(h) => {
            let cargo = topiary_candidate(h);
            let found = ask(&path_exists, cargo.as_str());
            assert(exists_as(cargo_topiary(h@), found));
            topiary_choice(home, found)
        },
        None => topiary_choice(None, false),
    }
}

/// Law: trimming leaves no trailing newline, only drops newlines, and
/// trimming again changes nothing.
pub proof fn law_trim_newlines(s: Seq<char>)
    ensures
        trim_newlines(s).len() <= s.len(),
        trim_newlines(s).len() > 0 ==> trim_newlines(s).last() != '\n',
        trim_newlines(s) == s.take(trim_newlines(s).len() as int),
        forall|k: int| trim_newlines(s).len() <= k < s.len() ==> #[trigger] s[k] == '\n',
        trim_newlines(trim_newlines(s)) == trim_newlines(s),
    decreases s.len(),
{
    if s.len() > 0 && s.last() == '\n' {
        law_trim_newlines(s.drop_last());
        let t = trim_newlines(s.drop_last());
        assert(s.drop_last().take(t.len() as int) =~= s.take(t.len() as int));
        assert forall|k: int| t.len() <= k < s.len() implies #[trigger] s[k] == '\n' by {
            if k < s.len() - 1 {
                assert(s.drop_last()[k] == s[k]);
            }
        }
    } else {
        assert(s.take(s.len() as int) =~= s);
    }
}

/// Law: a proposed replacement is settled: formatting it again, with the
/// formatter giving the same output, proposes nothing more.
pub proof fn law_replacement_settles(command: Seq<char>, output: Seq<char>)
    ensures
        replacement(command, output) matches Some(f) ==> f != command && f.len() > 0
            && replacement(f, output) is None,
{
}

} // verus!
