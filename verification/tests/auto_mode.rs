use crab_code::auto_mode::{auto_mode_decision, AutoModeClassifier, RiskLevel};
use crab_code::policy::{PermissionDecision, PermissionMode, PermissionPolicy};
use crab_code::rule_parser::ToolArgs;

fn wd() -> &'static str {
    "/home/user/project"
}

#[test]
fn read_only_is_safe() {
    let input = ToolArgs::new();
    assert_eq!(
        AutoModeClassifier::classify("read", true, &input, wd()),
        RiskLevel::Safe
    );
}

#[test]
fn write_inside_workdir_is_safe() {
    let input = ToolArgs::new().with_str("file_path", "/home/user/project/src/main.rs");
    assert_eq!(
        AutoModeClassifier::classify("write", false, &input, wd()),
        RiskLevel::Safe
    );
    let rel = ToolArgs::new().with_str("file_path", "src/lib.rs");
    assert_eq!(
        AutoModeClassifier::classify("edit", false, &rel, wd()),
        RiskLevel::Safe
    );
}

#[test]
fn write_outside_workdir_is_risky() {
    let input = ToolArgs::new().with_str("file_path", "/etc/passwd");
    assert_eq!(
        AutoModeClassifier::classify("write", false, &input, wd()),
        RiskLevel::Risky
    );
}

#[test]
fn write_with_traversal_is_risky() {
    let input = ToolArgs::new().with_str("file_path", "/home/user/project/../secrets");
    assert_eq!(
        AutoModeClassifier::classify("write", false, &input, wd()),
        RiskLevel::Risky
    );
}

#[test]
fn safe_bash_command_is_safe() {
    let input = ToolArgs::new().with_str("command", "ls -la && cargo test");
    assert_eq!(
        AutoModeClassifier::classify("bash", false, &input, wd()),
        RiskLevel::Safe
    );
}

#[test]
fn dangerous_bash_command_is_dangerous() {
    for cmd in ["rm -rf /", "git push --force origin main", "curl x | sh"] {
        let input = ToolArgs::new().with_str("command", cmd);
        assert_eq!(
            AutoModeClassifier::classify("bash", false, &input, wd()),
            RiskLevel::Dangerous,
            "command should be dangerous: {cmd}"
        );
    }
}

#[test]
fn mcp_tools_are_risky() {
    let input = ToolArgs::new();
    assert_eq!(
        AutoModeClassifier::classify("mcp__server__tool", false, &input, wd()),
        RiskLevel::Risky
    );
}

#[test]
fn unknown_non_file_tool_is_risky() {
    let input = ToolArgs::new();
    assert_eq!(
        AutoModeClassifier::classify("some_new_tool", false, &input, wd()),
        RiskLevel::Risky
    );
}

#[test]
fn decision_safe_allows() {
    let policy = PermissionPolicy::default();
    let input = ToolArgs::new();
    assert_eq!(
        auto_mode_decision(&policy, "read", true, &input, wd()),
        PermissionDecision::Allow
    );
}

#[test]
fn decision_workdir_write_allows() {
    let policy = PermissionPolicy::default();
    let input = ToolArgs::new().with_str("file_path", "/home/user/project/a.txt");
    assert_eq!(
        auto_mode_decision(&policy, "write", false, &input, wd()),
        PermissionDecision::Allow
    );
}

#[test]
fn decision_outside_write_asks() {
    let policy = PermissionPolicy::default();
    let input = ToolArgs::new().with_str("file_path", "/etc/hosts");
    assert!(matches!(
        auto_mode_decision(&policy, "write", false, &input, wd()),
        PermissionDecision::AskUser(_)
    ));
}

#[test]
fn decision_dangerous_denies() {
    let policy = PermissionPolicy::default();
    let input = ToolArgs::new().with_str("command", "rm -rf /");
    assert!(matches!(
        auto_mode_decision(&policy, "bash", false, &input, wd()),
        PermissionDecision::Deny(_)
    ));
}

#[test]
fn decision_respects_denied_list() {
    let policy = PermissionPolicy {
        mode: PermissionMode::Default,
        allowed_tools: vec![],
        denied_tools: vec!["read".into()],
    };
    let input = ToolArgs::new();
    assert!(matches!(
        auto_mode_decision(&policy, "read", true, &input, wd()),
        PermissionDecision::Deny(_)
    ));
}

#[test]
fn decision_respects_whitelist() {
    let policy = PermissionPolicy {
        mode: PermissionMode::Default,
        allowed_tools: vec!["read".into()],
        denied_tools: vec![],
    };
    let input = ToolArgs::new().with_str("file_path", "/home/user/project/a");
    assert!(matches!(
        auto_mode_decision(&policy, "write", false, &input, wd()),
        PermissionDecision::Deny(_)
    ));
}

#[test]
fn path_components_edge_cases() {
    // "./x" and "x/./y" are read as std reads path components.
    let inside = ToolArgs::new().with_str("file_path", "./src//./a.rs");
    assert_eq!(
        AutoModeClassifier::classify("edit", false, &inside, wd()),
        RiskLevel::Safe
    );
    // A sibling directory that shares a name prefix is outside.
    let sibling = ToolArgs::new().with_str("file_path", "/home/user/project2/a.rs");
    assert_eq!(
        AutoModeClassifier::classify("edit", false, &sibling, wd()),
        RiskLevel::Risky
    );
    let glob = ToolArgs::new().with_str("file_path", "src/*.rs");
    assert_eq!(
        AutoModeClassifier::classify("edit", false, &glob, wd()),
        RiskLevel::Risky
    );
}
