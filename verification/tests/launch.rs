use crab_code::launch::{coordinator_mode_from, coordinator_value_enabled, effective_provider, launch_mode, LaunchMode};

#[test]
fn coordinator_gate_off_when_env_unset() {
    assert!(!coordinator_mode_from(|_| None));
}

#[test]
fn coordinator_gate_on_with_1() {
    assert!(coordinator_mode_from(
        |k| (k == "CRAB_COORDINATOR_MODE").then(|| "1".into())
    ));
}

#[test]
fn coordinator_gate_accepts_true_word_variants() {
    for v in ["true", "TRUE"] {
        assert!(coordinator_mode_from(
            |k| (k == "CRAB_COORDINATOR_MODE").then(|| v.into())
        ));
    }
}

#[test]
fn coordinator_gate_rejects_unknown_values() {
    for v in ["yes", "0", "on", "false", ""] {
        assert!(
            !coordinator_mode_from(|k| (k == "CRAB_COORDINATOR_MODE").then(|| v.into())),
            "value {v:?} should not enable coordinator"
        );
    }
}

#[test]
fn coordinator_gate_reads_only_its_variable() {
    assert!(!coordinator_mode_from(|k| (k == "OTHER").then(|| "1".into())));
    assert!(!coordinator_value_enabled(Some("True")));
    assert!(coordinator_value_enabled(Some("1")));
}

#[test]
fn launch_mode_interactive_only_when_both_tty() {
    assert_eq!(launch_mode(true, true), LaunchMode::Interactive);
}

#[test]
fn launch_mode_piped_stdout_has_no_prompt_source() {
    // `crab | cat`: stdout captured, keyboard still attached to stdin.
    assert_eq!(launch_mode(false, true), LaunchMode::NoPromptSource);
}

#[test]
fn launch_mode_piped_stdin_reads_stdin() {
    // `echo hi | crab`: stdin is the prompt source.
    assert_eq!(launch_mode(true, false), LaunchMode::HeadlessFromStdin);
    // Both piped (e.g. in a script) also reads stdin.
    assert_eq!(launch_mode(false, false), LaunchMode::HeadlessFromStdin);
}

#[test]
fn effective_provider_prefers_settings_over_default() {
    assert_eq!(effective_provider("anthropic", Some("deepseek")), "deepseek");
    assert_eq!(effective_provider("anthropic", None), "anthropic");
    assert_eq!(effective_provider("openai", Some("deepseek")), "openai");
}
