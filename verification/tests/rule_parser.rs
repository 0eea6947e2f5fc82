use crab_code::rule_parser::{matches_rule, parse_bash_pattern, parse_rule, url_host, RuleContent, ToolArgs};


#[test]
fn parse_wildcard_rule() {
    let rule = parse_rule("*").unwrap();
    assert_eq!(rule.tool_name, "*");
    assert!(rule.content.is_none());
}

#[test]
fn parse_plain_tool_name() {
    let rule = parse_rule("Bash").unwrap();
    assert_eq!(rule.tool_name, "Bash");
    assert!(rule.content.is_none());
}

#[test]
fn parse_cc_bash_exact() {
    let rule = parse_rule("Bash(git status)").unwrap();
    assert_eq!(
        rule.content,
        Some(RuleContent::Exact {
            key: "command".into(),
            value: "git status".into(),
        })
    );
    assert!(matches_rule(
        &rule,
        "Bash",
        &ToolArgs::new().with_str("command", "git status")
    ));
    assert!(!matches_rule(
        &rule,
        "Bash",
        &ToolArgs::new().with_str("command", "git push")
    ));
}

#[test]
fn parse_cc_bash_space_glob() {
    let rule = parse_rule("Bash(git *)").unwrap();
    assert!(matches_rule(
        &rule,
        "Bash",
        &ToolArgs::new().with_str("command", "git status")
    ));
    assert!(!matches_rule(
        &rule,
        "Bash",
        &ToolArgs::new().with_str("command", "npm install")
    ));
}

#[test]
fn parse_cc_bash_colon_star_prefix() {
    // CC prefix form: `npm run test:*` matches commands starting with
    // "npm run test".
    let rule = parse_rule("Bash(npm run test:*)").unwrap();
    assert!(matches_rule(
        &rule,
        "Bash",
        &ToolArgs::new().with_str("command", "npm run test:unit")
    ));
    assert!(matches_rule(
        &rule,
        "Bash",
        &ToolArgs::new().with_str("command", "npm run test")
    ));
    assert!(!matches_rule(
        &rule,
        "Bash",
        &ToolArgs::new().with_str("command", "npm run build")
    ));
}

#[test]
fn parse_cc_bash_bare_prefix_colon_star() {
    let rule = parse_rule("Bash(git:*)").unwrap();
    assert!(matches_rule(
        &rule,
        "Bash",
        &ToolArgs::new().with_str("command", "git push origin")
    ));
}

#[test]
fn parse_cc_file_path_glob() {
    let rule = parse_rule("Read(src/**)").unwrap();
    assert_eq!(
        rule.content,
        Some(RuleContent::Path {
            pattern: "src/**".into()
        })
    );
    assert!(matches_rule(
        &rule,
        "Read",
        &ToolArgs::new().with_str("file_path", "src/main.rs")
    ));
    assert!(!matches_rule(
        &rule,
        "Read",
        &ToolArgs::new().with_str("file_path", "docs/readme.md")
    ));
}

#[test]
fn parse_cc_file_windows_path_not_keyed() {
    // A drive letter must not be mistaken for an explicit key.
    let rule = parse_rule("Read(C:/Users/**)").unwrap();
    assert!(matches!(rule.content, Some(RuleContent::Path { .. })));
}

#[test]
fn parse_cc_webfetch_domain() {
    let rule = parse_rule("WebFetch(domain:example.com)").unwrap();
    assert_eq!(
        rule.content,
        Some(RuleContent::Domain {
            domain: "example.com".into()
        })
    );
    assert!(matches_rule(
        &rule,
        "WebFetch",
        &ToolArgs::new().with_str("url", "https://example.com/page")
    ));
    assert!(matches_rule(
        &rule,
        "WebFetch",
        &ToolArgs::new().with_str("url", "https://api.example.com/v1")
    ));
    assert!(!matches_rule(
        &rule,
        "WebFetch",
        &ToolArgs::new().with_str("url", "https://evil.com/example.com")
    ));
}

#[test]
fn parse_cc_skill_name_with_colon() {
    let rule = parse_rule("Skill(commit-commands:commit)").unwrap();
    assert_eq!(
        rule.content,
        Some(RuleContent::Exact {
            key: "skill".into(),
            value: "commit-commands:commit".into(),
        })
    );
}

#[test]
fn url_host_extraction() {
    assert_eq!(
        url_host("https://example.com/x"),
        Some("example.com".into())
    );
    assert_eq!(
        url_host("https://Example.COM:8443/x?q=1"),
        Some("example.com".into())
    );
    assert_eq!(url_host("example.com/path"), Some("example.com".into()));
    assert_eq!(url_host(""), None);
}

#[test]
fn parse_glob_content() {
    let rule = parse_rule("Bash(git*)").unwrap();
    assert_eq!(rule.tool_name, "Bash");
    assert_eq!(
        rule.content,
        Some(RuleContent::Glob {
            key: "command".to_string(),
            pattern: "git*".to_string(),
        })
    );
}

#[test]
fn parse_exact_path_content() {
    let rule = parse_rule("Edit(/src/main.rs)").unwrap();
    assert_eq!(rule.tool_name, "Edit");
    assert_eq!(
        rule.content,
        Some(RuleContent::Path {
            pattern: "/src/main.rs".to_string(),
        })
    );
}

#[test]
fn parse_any_content() {
    let rule = parse_rule("Bash(*)").unwrap();
    assert_eq!(rule.tool_name, "Bash");
    assert_eq!(rule.content, Some(RuleContent::Any));
}

#[test]
fn parse_empty_fails() {
    assert!(parse_rule("").is_err());
    assert!(parse_rule("  ").is_err());
}

#[test]
fn parse_mismatched_parens() {
    assert!(parse_rule("Bash(git *").is_err());
}

#[test]
fn parse_bash_pattern_with_args() {
    let p = parse_bash_pattern("git *").unwrap();
    assert_eq!(p.command, "git");
    assert_eq!(p.args_glob, Some("*".to_string()));
}

#[test]
fn parse_bash_pattern_no_args() {
    let p = parse_bash_pattern("ls").unwrap();
    assert_eq!(p.command, "ls");
    assert!(p.args_glob.is_none());
}

#[test]
fn parse_bash_pattern_empty_fails() {
    assert!(parse_bash_pattern("").is_err());
}
