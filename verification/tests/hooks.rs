use agent_config::format_hook::{
    format_candidate, format_reply, formatted_command, topiary_bin, topiary_candidate, topiary_choice,
    trim_trailing_newlines,
};
use agent_config::grill::{grill_instruction, grill_skill, grill_wanted, grill_wanted_payload};
use agent_config::pane::{display_name, label_from};
use agent_config::payload::{hook_command, hook_source};

#[test]
fn payload_fields() {
    assert_eq!(hook_command(r#"{"tool_input":{"command":"ls -l"}}"#), "ls -l");
    assert_eq!(hook_command(r#"{"tool_input":{"command":["ls"]}}"#), "");
    assert_eq!(hook_command("{"), "");
    assert_eq!(hook_source(r#"{"source":"startup","session_id":"1"}"#), "startup");
    assert_eq!(hook_source(r#"{"source":null}"#), "");
    assert_eq!(hook_source("[]"), "");
}

#[test]
fn trims_only_trailing_newlines() {
    assert_eq!(trim_trailing_newlines("ls -l\n\n"), "ls -l");
    assert_eq!(trim_trailing_newlines("a\nb\n"), "a\nb");
    assert_eq!(trim_trailing_newlines("a \n "), "a \n ");
    assert_eq!(trim_trailing_newlines("\n\n"), "");
    assert_eq!(trim_trailing_newlines(""), "");
}

#[test]
fn formatted_command_only_on_change() {
    assert_eq!(formatted_command("ls  -l", "ls -l\n"), Some("ls -l".to_string()));
    assert_eq!(formatted_command("ls -l", "ls -l\n"), None);
    assert_eq!(formatted_command("ls -l", "\n"), None);
    // A replacement is settled: the same formatter output proposes nothing more.
    let once = formatted_command("ls   -l", "ls -l\n\n").unwrap();
    assert_eq!(formatted_command(&once, "ls -l\n\n"), None);
    assert_eq!(formatted_command("ls -l", ""), None);
    assert_eq!(
        formatted_command("a&&b", "a \\\n  && b\n"),
        Some("a \\\n  && b".to_string())
    );
}

#[test]
fn format_candidates() {
    assert_eq!(format_candidate(r#"{"tool_input":{"command":"ls"}}"#), Some("ls".to_string()));
    assert_eq!(format_candidate(r#"{"tool_input":{"command":""}}"#), None);
    assert_eq!(format_candidate(r#"{"tool_input":{}}"#), None);
    assert_eq!(format_candidate(r#"{}"#), None);
    assert_eq!(format_candidate("garbage"), None);
}

#[test]
fn topiary_location() {
    assert_eq!(topiary_candidate("/home/me"), "/home/me/.cargo/bin/topiary");
    assert_eq!(topiary_choice(Some("/home/me"), true), "/home/me/.cargo/bin/topiary");
    assert_eq!(topiary_choice(Some("/home/me"), false), "topiary");
    assert_eq!(topiary_choice(None, true), "topiary");
    assert_eq!(topiary_bin(Some("/nonexistent-home-for-tests")), "topiary");
    assert_eq!(topiary_bin(None), "topiary");
}

#[test]
fn grill_fires_on_fresh_sessions_only() {
    assert!(grill_wanted("startup"));
    assert!(grill_wanted("clear"));
    assert!(!grill_wanted("resume"));
    assert!(!grill_wanted("compact"));
    assert!(!grill_wanted(""));
    assert!(grill_wanted_payload(r#"{"source":"startup"}"#));
    assert!(grill_wanted_payload(r#"{"source":"clear","cwd":"/x"}"#));
    assert!(!grill_wanted_payload(r#"{"source":"resume"}"#));
    assert!(!grill_wanted_payload("not json"));
}

#[test]
fn grill_skill_and_instruction() {
    assert_eq!(grill_skill(true), "grill-with-docs");
    assert_eq!(grill_skill(false), "grill-me");
    assert_eq!(
        grill_instruction("grill-me"),
        "Standing user instruction: immediately invoke the /grill-me skill now, before doing anything else, to begin a grilling session. Do this even if the user has not yet asked a question."
    );
}

#[test]
fn pane_labels() {
    assert_eq!(display_name("/home/me/src/x", Some("/home/me")), "~/src/x");
    assert_eq!(display_name("/home/me", Some("/home/me")), "~");
    assert_eq!(display_name("/home/me/", Some("/home/me")), "~");
    assert_eq!(display_name("/home/mex/src", Some("/home/me")), "/home/mex/src");
    assert_eq!(display_name("/srv/data", Some("/home/me")), "/srv/data");
    assert_eq!(display_name("/srv/data", None), "/srv/data");
    assert_eq!(label_from("/a", Some(String::new())), "~");
    assert_eq!(label_from("/a", Some("b/c".to_string())), "~/b/c");
    assert_eq!(label_from("/a", None), "/a");
}

#[test]
fn format_replies() {
    let payload = r#"{"tool_name":"Bash","tool_input":{"command":"ls   -l","description":"list"}}"#;
    assert_eq!(
        format_reply(payload, "ls -l\n").as_deref(),
        Some(r#"{"hookSpecificOutput":{"hookEventName":"PreToolUse","updatedInput":{"command":"ls -l","description":"list"}}}"#)
    );
    assert_eq!(format_reply(payload, "ls   -l\n"), None);
    assert_eq!(format_reply(payload, ""), None);
    assert_eq!(format_reply(r#"{"tool_input":{"command":""}}"#, "x\n"), None);
    assert_eq!(format_reply("not json", "x\n"), None);
    assert_eq!(format_reply(r#"{"tool_input":{}}"#, "x\n"), None);
}
