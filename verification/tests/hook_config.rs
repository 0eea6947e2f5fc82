use crab_code::hook::HookTrigger;
use crab_code::hook_config::{default_hook_type, hooks_from_groups, HookEntry, MatcherGroup, DEFAULT_HOOK_TIMEOUT_SECS};

fn entry(hook_type: &str, command: &str, timeout: Option<u64>) -> HookEntry {
    HookEntry { hook_type: hook_type.into(), command: command.into(), timeout }
}

fn group(matcher: Option<&str>, hooks: Vec<HookEntry>) -> MatcherGroup {
    MatcherGroup { matcher: matcher.map(String::from), hooks }
}

#[test]
fn parse_cc_shaped_hooks() {
    let groups = vec![
        (
            HookTrigger::PreToolUse,
            vec![group(Some("Edit|Write"), vec![entry("command", "guard.sh", Some(30))])],
        ),
        (
            HookTrigger::PostToolUse,
            vec![group(Some("Bash"), vec![entry("command", "log.sh", None)])],
        ),
    ];
    let mut hooks = hooks_from_groups(&groups);
    hooks.sort_by_key(|h| h.command.clone());
    assert_eq!(hooks.len(), 2);

    assert_eq!(hooks[0].trigger, HookTrigger::PreToolUse);
    assert_eq!(hooks[0].matcher.as_deref(), Some("Edit|Write"));
    assert_eq!(hooks[0].command, "guard.sh");
    assert_eq!(hooks[0].timeout_secs, 30);

    assert_eq!(hooks[1].trigger, HookTrigger::PostToolUse);
    assert_eq!(hooks[1].timeout_secs, DEFAULT_HOOK_TIMEOUT_SECS);
}

#[test]
fn parse_hooks_without_matcher() {
    let groups = vec![(HookTrigger::SessionStart, vec![group(None, vec![entry("command", "init.sh", None)])])];
    let hooks = hooks_from_groups(&groups);
    assert_eq!(hooks.len(), 1);
    assert_eq!(hooks[0].trigger, HookTrigger::SessionStart);
    assert!(hooks[0].matcher.is_none());
}

#[test]
fn parse_hooks_multiple_hooks_per_group() {
    let groups = vec![(
        HookTrigger::Stop,
        vec![group(None, vec![entry("command", "a.sh", None), entry("command", "b.sh", None)])],
    )];
    let hooks = hooks_from_groups(&groups);
    assert_eq!(hooks.len(), 2);
}

#[test]
fn parse_hooks_skips_unsupported_type() {
    let groups = vec![(
        HookTrigger::PreToolUse,
        vec![group(None, vec![entry("prompt", "ignored", None), entry("command", "kept.sh", None)])],
    )];
    let hooks = hooks_from_groups(&groups);
    assert_eq!(hooks.len(), 1);
    assert_eq!(hooks[0].command, "kept.sh");
}

#[test]
fn parse_empty_hooks() {
    let hooks = hooks_from_groups(&[]);
    assert!(hooks.is_empty());
}

#[test]
fn empty_commands_are_skipped_and_order_is_kept() {
    let groups = vec![
        (
            HookTrigger::PreToolUse,
            vec![
                group(Some("A"), vec![entry("command", "", Some(5)), entry("command", "one", Some(5))]),
                group(Some("B"), vec![entry("command", "two", None)]),
            ],
        ),
        (HookTrigger::Stop, vec![group(None, vec![entry("command", "three", Some(1))])]),
    ];
    let hooks = hooks_from_groups(&groups);
    let commands: Vec<&str> = hooks.iter().map(|h| h.command.as_str()).collect();
    assert_eq!(commands, vec!["one", "two", "three"]);
    assert_eq!(hooks[1].matcher.as_deref(), Some("B"));
    assert_eq!(hooks[1].timeout_secs, 600);
    assert_eq!(hooks[2].trigger, HookTrigger::Stop);
}

#[test]
fn parse_hooks_default_type_is_command_entry() {
    // an entry that names no type gets the default, and is then used
    let entry = HookEntry { hook_type: default_hook_type(), command: "echo hi".into(), timeout: None };
    assert_eq!(entry.hook_type, "command");
    let hooks = hooks_from_groups(&[(HookTrigger::PreToolUse, vec![MatcherGroup { matcher: None, hooks: vec![entry] }])]);
    assert_eq!(hooks.len(), 1);
    assert_eq!(hooks[0].timeout_secs, DEFAULT_HOOK_TIMEOUT_SECS);
}
