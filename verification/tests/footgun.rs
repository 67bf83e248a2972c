use agent_config::footgun::{
    command_has_footgun, is_footgun_flag, is_rg, refuse_command, refuse_payload, DENY_REASON,
};
use agent_config::shell::Token;

fn tok(text: &str, quoted: bool) -> Token {
    Token { text: text.to_string(), quoted }
}

#[test]
fn rg_names() {
    assert!(is_rg(&tok("rg", false)));
    assert!(is_rg(&tok("/usr/bin/rg", false)));
    assert!(is_rg(&tok("/rg", false)));
    assert!(!is_rg(&tok("rg", true)));
    assert!(!is_rg(&tok("xrg", false)));
    assert!(!is_rg(&tok("rgx", false)));
    assert!(!is_rg(&tok("grep", false)));
    assert!(!is_rg(&tok("", false)));
}

#[test]
fn footgun_flags() {
    assert!(is_footgun_flag(&tok("-rn", false)));
    assert!(is_footgun_flag(&tok("-nr", false)));
    assert!(is_footgun_flag(&tok("-inr", false)));
    assert!(is_footgun_flag(&tok("-r9", false)));
    assert!(!is_footgun_flag(&tok("-r", false)), "a bare -r is deliberate");
    assert!(!is_footgun_flag(&tok("-rn", true)), "quoted text is never a flag");
    assert!(!is_footgun_flag(&tok("--rn", false)));
    assert!(!is_footgun_flag(&tok("-n", false)));
    assert!(!is_footgun_flag(&tok("-in", false)));
    assert!(!is_footgun_flag(&tok("rn", false)));
    assert!(!is_footgun_flag(&tok("-r=n", false)));
    assert!(!is_footgun_flag(&tok("-ré", false)));
    assert!(!is_footgun_flag(&tok("-", false)));
    assert!(!is_footgun_flag(&tok("", false)));
}

#[test]
fn commands_with_the_footgun() {
    assert!(command_has_footgun("rg -rn foo"));
    assert!(command_has_footgun("rg foo -rn"));
    assert!(command_has_footgun("/usr/local/bin/rg -nr foo src"));
    assert!(command_has_footgun("cd x && rg -rn foo"));
    assert!(command_has_footgun("ls | rg -rl x"));
    assert!(command_has_footgun("rg -e '--' -rn x"));
}

#[test]
fn commands_without_the_footgun() {
    assert!(!command_has_footgun("rg -n foo"));
    assert!(!command_has_footgun("rg -r replacement foo"));
    assert!(!command_has_footgun("rg --replace n foo"));
    assert!(!command_has_footgun("rg -l 'rg -rn '"));
    assert!(!command_has_footgun("rg -l \"-rn\" x"));
    assert!(!command_has_footgun("rg -- -rn"));
    assert!(!command_has_footgun("grep -rn foo ."));
    assert!(!command_has_footgun("echo rg; ls -rn"));
    assert!(!command_has_footgun("-rn rg"));
    assert!(!command_has_footgun("'rg' -rn foo"));
    assert!(!command_has_footgun(""));
}

#[test]
fn refusal_of_commands() {
    assert!(refuse_command("rg -rn x"));
    assert!(!refuse_command(""));
    assert!(!refuse_command("rg -n x"));
}

#[test]
fn refusal_of_payloads() {
    assert!(refuse_payload(r#"{"tool_input":{"command":"rg -rn foo"}}"#));
    assert!(refuse_payload(r#"{"tool_name":"Bash","tool_input":{"command":"ls; rg -nr foo","description":"x"}}"#));
    assert!(!refuse_payload(r#"{"tool_input":{"command":"rg -n foo"}}"#));
    assert!(!refuse_payload(r#"{"tool_input":{"command":""}}"#));
    assert!(!refuse_payload(r#"{"tool_input":{"command":42}}"#));
    assert!(!refuse_payload(r#"{"tool_input":{}}"#));
    assert!(!refuse_payload(r#"{"command":"rg -rn foo"}"#));
    assert!(!refuse_payload("not json at all rg -rn"));
    assert!(!refuse_payload(""));
}

#[test]
fn deny_reason_teaches_the_fix() {
    assert!(DENY_REASON.contains("rg -n PATTERN"));
    assert!(DENY_REASON.starts_with("In ripgrep, -r is --replace"));
}
