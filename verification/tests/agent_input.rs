use crab_code::agent_input::{compose_system_prompt, skill_prompt, slash_command_to_resolve};

/// The input a turn sends, with `skills` standing for the skill registry:
/// a slash command whose skill is found becomes the skill's prompt.
fn resolve(input: &str, skills: &[(&str, &str)]) -> String {
    match slash_command_to_resolve(input) {
        Some(command) => match skills.iter().find(|(name, _)| *name == command) {
            Some((_, content)) => skill_prompt(input, &command, content),
            None => input.to_string(),
        },
        None => input.to_string(),
    }
}

#[test]
fn resolve_slash_command_passthrough_non_slash() {
    assert_eq!(resolve("hello world", &[]), "hello world");
    assert_eq!(slash_command_to_resolve("hello world"), None);
}

#[test]
fn resolve_slash_command_builtin_passthrough() {
    assert_eq!(resolve("/exit", &[]), "/exit");
    assert_eq!(resolve("/quit", &[]), "/quit");
    assert_eq!(resolve("/help", &[]), "/help");
    assert_eq!(slash_command_to_resolve("/help"), None);
}

#[test]
fn resolve_slash_command_no_match_passthrough() {
    assert_eq!(resolve("/unknown-skill", &[]), "/unknown-skill");
    assert_eq!(slash_command_to_resolve("/unknown-skill").as_deref(), Some("unknown-skill"));
}

#[test]
fn resolve_slash_command_matches_skill() {
    let result = resolve("/commit", &[("commit", "You are a commit helper.")]);
    assert_eq!(result, "You are a commit helper.");
}

#[test]
fn resolve_slash_command_with_args() {
    let result = resolve("/review src/main.rs", &[("review", "Review the code.")]);
    assert!(result.contains("Review the code."));
    assert!(result.contains("src/main.rs"));
    assert_eq!(result, "Review the code.\n\nUser arguments: src/main.rs");
}

#[test]
fn slash_command_name_is_first_word_after_slashes() {
    assert_eq!(slash_command_to_resolve("  //deploy  prod now ").as_deref(), Some("deploy"));
    assert_eq!(slash_command_to_resolve("/").as_deref(), Some(""));
    assert_eq!(skill_prompt("  //deploy  prod now ", "deploy", "Go."), "Go.\n\nUser arguments: prod now");
}

#[test]
fn resolve_system_prompt_default() {
    let result = compose_system_prompt(None, "You are Crab Code.", None);
    assert!(result.contains("Crab Code"));
}

#[test]
fn resolve_system_prompt_override() {
    let result = compose_system_prompt(Some("Custom prompt only."), "You are Crab Code.", None);
    assert_eq!(result, "Custom prompt only.");
}

#[test]
fn resolve_system_prompt_append() {
    let result = compose_system_prompt(None, "You are Crab Code.", Some("EXTRA INSTRUCTIONS"));
    assert!(result.contains("Crab Code"));
    assert!(result.ends_with("EXTRA INSTRUCTIONS"));
    assert_eq!(result, "You are Crab Code.\n\nEXTRA INSTRUCTIONS");
}

#[test]
fn resolve_system_prompt_override_plus_append() {
    let result = compose_system_prompt(Some("Base."), "You are Crab Code.", Some("Extra."));
    assert!(result.starts_with("Base."));
    assert!(result.contains("Extra."));
    assert!(!result.contains("Crab Code"));
}
