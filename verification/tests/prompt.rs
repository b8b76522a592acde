use mycode::config::PermissionMode;
use mycode::prompt::{PromptSections, PLAN_MODE_REMINDER};

#[test]
fn prompt_sections_compose_in_a_stable_order() {
    let prompt = PromptSections {
        base: "base".into(),
        instructions: "instructions".into(),
        auto_memory: "memory".into(),
        available_skills: vec!["- commit: create commits".into()],
        active_skill: Some("active skill".into()),
        permission_mode: PermissionMode::Plan,
    }
    .compose();

    let mut expected: Vec<String> = [
        "base",
        "## Project instructions\n\ninstructions",
        "## Memory\n\nmemory",
        "## Available skills\n\n- commit: create commits",
        "## Active skill\n\nactive skill",
    ]
    .into_iter()
    .map(str::to_string)
    .collect();
    expected.push(format!("## Mode reminder\n\n{PLAN_MODE_REMINDER}"));
    let expected = expected.join("\n\n");
    assert_eq!(prompt, expected);
}

#[test]
fn plan_reminder_is_mode_specific() {
    let sections = PromptSections {
        base: "base".into(),
        permission_mode: PermissionMode::AcceptEdits,
        ..PromptSections::default()
    };
    assert_eq!(sections.compose(), "base");
}

#[test]
fn blank_sections_are_left_out_and_others_are_trimmed() {
    let sections = PromptSections {
        base: "  \n".into(),
        instructions: " rules \n".into(),
        auto_memory: "\t".into(),
        available_skills: vec!["- a".into(), "- b".into()],
        active_skill: Some("   ".into()),
        permission_mode: PermissionMode::BypassPermissions,
    };
    assert_eq!(
        sections.compose(),
        "## Project instructions\n\nrules\n\n## Available skills\n\n- a\n- b"
    );
    assert_eq!(PromptSections::default().compose(), "");
}
