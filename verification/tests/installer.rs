use agent_config::decimal::push_decimal;
use agent_config::installer::{
    advance_setup, backup_candidate, backup_step, BackupStep, backup_path, advance_skills, agent_layout, ascii_upper, clearing_for, start_skills, Skills,
    SkillsAction, path_join,
    start_setup, Clearing, Occupant, Setup, SetupAction,
};
use std::path::Path;

#[test]
fn decimal_numerals() {
    for n in [0u32, 7, 10, 99, 100, 12345, u32::MAX] {
        let mut s = String::from("n=");
        push_decimal(&mut s, n);
        assert_eq!(s, format!("n={n}"));
    }
}

#[test]
fn backup_names() {
    assert_eq!(backup_candidate("/home/me/.demo/hooks", 0), "/home/me/.demo/hooks.bak");
    assert_eq!(backup_candidate("/home/me/.demo/hooks", 1), "/home/me/.demo/hooks.bak.1");
    assert_eq!(backup_candidate("f", 10), "f.bak.10");
    assert_eq!(backup_candidate("f", 2147483647), "f.bak.2147483647");
    let names: Vec<String> = (0..200).map(|n| backup_candidate("f", n)).collect();
    for (i, a) in names.iter().enumerate() {
        assert_ne!(a, "f");
        for b in &names[i + 1..] {
            assert_ne!(a, b);
        }
    }
}

#[test]
fn backup_steps() {
    assert!(matches!(backup_step(0, false), BackupStep::Use));
    assert!(matches!(backup_step(5, false), BackupStep::Use));
    assert!(matches!(backup_step(0, true), BackupStep::Try(1)));
    assert!(matches!(backup_step(41, true), BackupStep::Try(42)));
    assert!(matches!(backup_step(2147483646, true), BackupStep::Try(2147483647)));
    assert!(matches!(backup_step(2147483647, true), BackupStep::GiveUp));
}

#[test]
fn backup_path_picks_a_free_name() {
    assert_eq!(
        backup_path("/nonexistent-dir-for-tests/settings.json"),
        Some("/nonexistent-dir-for-tests/settings.json.bak".to_string())
    );
}

#[test]
fn joins_like_std() {
    let cases = [
        ("/home/me", ".demo"),
        ("/home/me/", ".demo"),
        ("", "agents/demo"),
        ("/repo", "/abs/path"),
        ("/repo", ""),
        ("repo", "shared/AGENTS.md"),
        ("/", "x"),
    ];
    for (base, rel) in cases {
        let want = Path::new(base).join(rel);
        assert_eq!(path_join(base, rel), want.to_str().unwrap(), "{base:?} + {rel:?}");
    }
}

#[test]
fn ascii_capitals() {
    assert_eq!(ascii_upper("demo-agent2"), "DEMO-AGENT2");
    assert_eq!(ascii_upper("Émile"), "ÉMILE");
    assert_eq!(ascii_upper(""), "");
}

#[test]
fn agent_layout_links() {
    let l = agent_layout("/src/agent-config", "/home/me", "demo");
    assert_eq!(l.agent_dir, "/home/me/.demo");
    assert_eq!(l.skills_src, "/home/me/src/mattpocock-skills");
    let links: Vec<(String, String)> =
        l.config_links.into_iter().map(|k| (k.target, k.at)).collect();
    assert_eq!(
        links,
        vec![
            (
                "/src/agent-config/agents/demo/settings.json".to_string(),
                "/home/me/.demo/settings.json".to_string()
            ),
            (
                "/src/agent-config/agents/demo/hooks".to_string(),
                "/home/me/.demo/hooks".to_string()
            ),
            (
                "/src/agent-config/shared/AGENTS.md".to_string(),
                "/home/me/.demo/DEMO.md".to_string()
            ),
        ]
    );
    let skills: Vec<(String, String)> =
        l.skill_links.into_iter().map(|k| (k.target, k.at)).collect();
    assert_eq!(
        skills,
        vec![
            (
                "/home/me/src/mattpocock-skills/skills/productivity/grill-me".to_string(),
                "/home/me/.demo/skills/grill-me".to_string()
            ),
            (
                "/home/me/src/mattpocock-skills/skills/engineering/grill-with-docs".to_string(),
                "/home/me/.demo/skills/grill-with-docs".to_string()
            ),
        ]
    );
}

#[test]
fn clearing_decisions() {
    assert!(matches!(clearing_for(Occupant::Vacant), Clearing::Nothing));
    assert!(matches!(clearing_for(Occupant::Symlink), Clearing::RemoveLink));
    assert!(matches!(clearing_for(Occupant::Entry), Clearing::BackUp));
}

fn run(outcomes: &[bool]) -> Vec<&'static str> {
    let (mut state, mut action) = start_setup();
    let mut seen = Vec::new();
    let mut i = 0;
    loop {
        let name = match action {
            SetupAction::ProbeTool => "probe-tool",
            SetupAction::ProbeCargo => "probe-cargo",
            SetupAction::Install => "install",
            SetupAction::ReportPresent => "present",
            SetupAction::FollowUp => "follow-up",
            SetupAction::WarnInstallFailed => "install-failed",
            SetupAction::WarnNoCargo => "no-cargo",
            SetupAction::Stop => "stop",
        };
        seen.push(name);
        if matches!(state, Setup::Done) {
            break;
        }
        let (s, a) = advance_setup(state, outcomes[i]);
        state = s;
        action = a;
        i += 1;
    }
    seen
}

#[test]
fn tool_setup_paths() {
    assert_eq!(run(&[true, true]), vec!["probe-tool", "present", "follow-up"]);
    assert_eq!(run(&[false, false]), vec!["probe-tool", "probe-cargo", "no-cargo"]);
    assert_eq!(
        run(&[false, true, true]),
        vec!["probe-tool", "probe-cargo", "install", "follow-up"]
    );
    assert_eq!(
        run(&[false, true, false]),
        vec!["probe-tool", "probe-cargo", "install", "install-failed"]
    );
    let (s, a) = advance_setup(Setup::Done, true);
    assert!(matches!(s, Setup::Done) && matches!(a, SetupAction::Stop));
}

fn run_skills(outcomes: &[bool]) -> Vec<&'static str> {
    let (mut state, mut action) = start_skills();
    let mut seen = Vec::new();
    let mut i = 0;
    loop {
        seen.push(match action {
            SkillsAction::ProbeCheckout => "probe",
            SkillsAction::Pull => "pull",
            SkillsAction::Clone => "clone",
            SkillsAction::WarnCloneFailed => "clone-failed",
            SkillsAction::LinkSkills => "link",
            SkillsAction::Stop => "stop",
        });
        if matches!(state, Skills::Finished) {
            break;
        }
        let (s, a) = advance_skills(state, outcomes[i]);
        state = s;
        action = a;
        i += 1;
    }
    seen
}

#[test]
fn skills_paths() {
    assert_eq!(run_skills(&[true, true, true]), vec!["probe", "pull", "probe", "link"]);
    assert_eq!(run_skills(&[true, false, true]), vec!["probe", "pull", "probe", "link"]);
    assert_eq!(run_skills(&[false, true, true]), vec!["probe", "clone", "probe", "link"]);
    assert_eq!(run_skills(&[false, true, false]), vec!["probe", "clone", "probe", "stop"]);
    assert_eq!(
        run_skills(&[false, false, true, false]),
        vec!["probe", "clone", "clone-failed", "probe", "stop"]
    );
}
