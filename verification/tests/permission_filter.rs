use crab_code::permission_filter::{glob_match, tool_name_matches_pattern};
use crab_code::rule_parser::{matches_tool_filter, ToolArgs};


#[test]
fn glob_match_wildcard_patterns() {
    assert!(glob_match("*", "anything"));
    assert!(glob_match("*", ""));
    assert!(glob_match("foo*", "foobar"));
    assert!(glob_match("*bar", "foobar"));
    assert!(glob_match("f*r", "foobar"));
    assert!(!glob_match("foo*", "barfoo"));
}

#[test]
fn glob_match_exact() {
    assert!(glob_match("bash", "bash"));
    assert!(!glob_match("bash", "Bash"));
    assert!(!glob_match("bash", "bash_exec"));
}

#[test]
fn glob_match_empty_pattern() {
    assert!(glob_match("", ""));
    assert!(!glob_match("", "nonempty"));
}

#[test]
fn glob_match_multiple_stars() {
    assert!(glob_match("*foo*bar*", "xxxfooYYYbarZZZ"));
    assert!(!glob_match("*foo*bar*", "xxxbarYYYfooZZZ"));
}

#[test]
fn glob_match_char_class_range() {
    assert!(glob_match("[a-z]_tool", "m_tool"));
    assert!(!glob_match("[a-z]_tool", "M_tool"));
    assert!(!glob_match("[a-z]_tool", "1_tool"));
}

#[test]
fn glob_match_malformed_char_class() {
    assert!(!glob_match("[abc", "a"));
}

#[test]
fn glob_match_star_at_start_and_end() {
    assert!(glob_match("*bash*", "bash"));
    assert!(glob_match("*bash*", "my_bash_tool"));
    assert!(!glob_match("*bash*", "ba_sh"));
}

#[test]
fn glob_match_question_mark_only() {
    assert!(glob_match("?", "a"));
    assert!(!glob_match("?", "ab"));
    assert!(!glob_match("?", ""));
}

#[test]
fn glob_match_complex_pattern() {
    assert!(glob_match("mcp__*__[a-z]*", "mcp__server__tool_name"));
    assert!(!glob_match("mcp__*__[a-z]*", "mcp__server__9tool"));
}

#[test]
fn glob_match_consecutive_stars() {
    assert!(glob_match("**", "anything"));
    assert!(glob_match("a**b", "aXXXb"));
}

#[test]
fn glob_match_char_class_single_char() {
    assert!(glob_match("[x]", "x"));
    assert!(!glob_match("[x]", "y"));
}

#[test]
fn tool_filter_wildcard_matches_any() {
    let input = ToolArgs::new().with_str("command", "echo hello");
    assert!(matches_tool_filter("*", "bash", &input));
    assert!(matches_tool_filter("*", "read", &input));
}

#[test]
fn tool_filter_exact_name() {
    let input = ToolArgs::new();
    assert!(matches_tool_filter("bash", "bash", &input));
    assert!(!matches_tool_filter("bash", "read", &input));
    assert!(matches_tool_filter("Edit", "Edit", &input));
}

#[test]
fn tool_filter_name_glob() {
    let input = ToolArgs::new();
    assert!(matches_tool_filter("mcp__*", "mcp__playwright", &input));
    assert!(!matches_tool_filter("mcp__*", "bash", &input));
}

#[test]
fn tool_filter_name_with_param_pattern() {
    let input = ToolArgs::new().with_str("command", "git status");
    assert!(matches_tool_filter("Bash(git*)", "Bash", &input));
    assert!(matches_tool_filter("Bash(git *)", "Bash", &input));
    assert!(matches_tool_filter("Bash(git:*)", "Bash", &input));

    let other = ToolArgs::new().with_str("command", "rm -rf /");
    assert!(!matches_tool_filter("Bash(git*)", "Bash", &other));
}

#[test]
fn tool_filter_param_wrong_tool_name() {
    let input = ToolArgs::new().with_str("command", "git log");
    assert!(!matches_tool_filter("Bash(git*)", "read", &input));
}

#[test]
fn tool_filter_param_missing_key() {
    let input = ToolArgs::new().with_str("file_path", "/tmp/foo");
    assert!(!matches_tool_filter("Bash(git*)", "Bash", &input));
}

#[test]
fn tool_filter_param_non_string_value() {
    let input = ToolArgs::new().with_non_string("command");
    assert!(!matches_tool_filter("Bash(git*)", "Bash", &input));
}

#[test]
fn tool_filter_case_sensitive() {
    let input = ToolArgs::new();
    assert!(!matches_tool_filter("bash", "Bash", &input));
    assert!(matches_tool_filter("Bash", "Bash", &input));
}

#[test]
fn star_matches_literal_star_in_input() {
    assert!(glob_match("rm *", "rm *.txt"));
    assert!(glob_match("*", "*x"));
    assert!(glob_match("a*b", "a*b"));
    assert!(!glob_match("foo*", "barfoo"));
    assert!(tool_name_matches_pattern("mcp__*", "mcp__*"));
}

#[test]
fn filter_language_star_and_question_mark() {
    assert!(glob_match("mcp__*__?ead", "mcp__fs__read"));
    assert!(glob_match("mcp__*__?ead", "mcp____lead"));
    assert!(!glob_match("mcp__*__?ead", "mcp__fs__ead"));
    assert!(glob_match("a**b", "ab"));
    assert!(glob_match("a**b", "a*x*b"));
}
