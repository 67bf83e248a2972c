//! Decisions of the session-start hook that begins a "grilling" session: it
//! fires only on a fresh start or a `/clear`, and picks the skill by whether
//! the session was launched inside a git work tree.
use vstd::prelude::*;
use crate::payload::{hook_source, payload_source};
use crate::text::same_text;

verus! {

/// A genuinely new interactive session: started fresh or after `/clear`,
/// not a `resume` or `compact` continuation.
pub open spec fn fresh_session(source: Seq<char>) -> bool {
    source == "startup"@ || source == "clear"@
}

/// The skill to invoke: the docs-aware one inside a git repository.
pub open spec fn skill_for(in_repo: bool) -> Seq<char> {
    if in_repo {
        "grill-with-docs"@
    } else {
        "grill-me"@
    }
}

/// The standing instruction injected into the model's context.
pub open spec fn instruction_for(skill: Seq<char>) -> Seq<char> {
    "Standing user instruction: immediately invoke the /"@ + skill
        + " skill now, before doing anything else, to begin a grilling session. Do this even if the user has not yet asked a question."@
}

/// Whether a session started by `source` gets a grilling session.
pub fn grill_wanted(source: &str) -> (b: bool)
    ensures
        b == fresh_session(source@),
{
    same_text(source, "startup") || same_text(source, "clear")
}

/// Whether the session-start `payload` asks for a grilling session; a payload
/// that is not JSON or holds no `source` string does not.
pub fn grill_wanted_payload(payload: &str) -> (b: bool)
    ensures
        b == fresh_session(payload_source(payload@)),
{
    let source = hook_source(payload);
    grill_wanted(source.as_str())
}

/// The skill to invoke, by whether the session runs inside a git repository.
pub fn grill_skill(in_repo: bool) -> (s: &'static str)
    ensures
        s@ == skill_for(in_repo),
{
    if in_repo {
        "grill-with-docs"
    } else {
        "grill-me"
    }
}

/// The instruction that tells the model to invoke `skill` immediately.
pub fn grill_instruction(skill: &str) -> (r: String)
    ensures
        r@ == instruction_for(skill@),
{
    let mut r = String::from_str("Standing user instruction: immediately invoke the /");
    r.append(skill);
    r.append(
        " skill now, before doing anything else, to begin a grilling session. Do this even if the user has not yet asked a question.",
    );
    r
}

/// Law: the instruction names the skill it is given, right after the `/`
/// that ends its fixed opening, and ends with the same fixed text whatever
/// the skill; so instructions for distinct skills differ.
pub proof fn law_instruction_names_skill(skill: Seq<char>, other: Seq<char>)
    ensures
        ({
            let opening = "Standing user instruction: immediately invoke the /"@;
            let i = instruction_for(skill);
            &&& i.take(opening.len() as int) == opening
            &&& i.subrange(opening.len() as int, (opening.len() + skill.len()) as int) == skill
            &&& i.len() == instruction_for(other).len() + skill.len() - other.len()
        }),
        skill != other ==> instruction_for(skill) != instruction_for(other),
{
    let opening = "Standing user instruction: immediately invoke the /"@;
    let closing = " skill now, before doing anything else, to begin a grilling session. Do this even if the user has not yet asked a question."@;
    let i = instruction_for(skill);
    let j = instruction_for(other);
    assert(i == opening + skill + closing);
    assert(i.take(opening.len() as int) =~= opening);
    assert(i.subrange(opening.len() as int, (opening.len() + skill.len()) as int) =~= skill);
    if skill != other && i == j {
        assert(skill.len() == other.len());
        assert(j.subrange(opening.len() as int, (opening.len() + other.len()) as int) =~= other);
    }
}

} // verus!
