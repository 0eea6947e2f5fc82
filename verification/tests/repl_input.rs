use crab_code::repl_input::{classify_line, is_exit_command, split_command, unmatched_command, ReplLine, SlashOutcome};

#[test]
fn blank_lines_are_skipped() {
    assert_eq!(classify_line("   \n"), ReplLine::Blank);
    assert_eq!(classify_line(""), ReplLine::Blank);
}

#[test]
fn slash_letter_is_a_command_but_paths_are_prompts() {
    assert_eq!(classify_line("  /help me \n"), ReplLine::Slash("help me".into()));
    assert_eq!(classify_line("/tmp/foo is broken"), ReplLine::Prompt("/tmp/foo is broken".into()));
    assert_eq!(classify_line("/"), ReplLine::Prompt("/".into()));
    assert_eq!(classify_line("/1x"), ReplLine::Prompt("/1x".into()));
    assert_eq!(classify_line("fix the bug\n"), ReplLine::Prompt("fix the bug".into()));
}

#[test]
fn command_name_and_args() {
    assert_eq!(split_command("model  sonnet  "), ("model".to_string(), "sonnet".to_string()));
    assert_eq!(split_command("help"), ("help".to_string(), String::new()));
    assert_eq!(split_command("feedback\tMy bug"), ("feedback".to_string(), "My bug".to_string()));
}

#[test]
fn exit_and_quit_end_the_loop() {
    assert!(is_exit_command("exit"));
    assert!(is_exit_command("quit"));
    assert!(!is_exit_command("exit!"));
}

#[test]
fn unknown_commands_continue_and_expansions_fall_through() {
    assert_eq!(unmatched_command("nope x", "/nope x".into()), SlashOutcome::Continue);
    assert_eq!(
        unmatched_command("review", "Review the code".into()),
        SlashOutcome::FallThrough("Review the code".into())
    );
}
