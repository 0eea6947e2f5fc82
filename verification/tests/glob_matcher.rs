use crab_code::glob::{expand_braces, GlobMatcher, GlobSet};


// ── Basic patterns ─────────────────────────────────────

#[test]
fn exact_match() {
    let m = GlobMatcher::new("bash");
    assert!(m.is_match("bash"));
    assert!(!m.is_match("read"));
}

#[test]
fn star_match() {
    let m = GlobMatcher::new("mcp__*");
    assert!(m.is_match("mcp__playwright"));
    assert!(m.is_match("mcp__"));
    assert!(!m.is_match("bash"));
}

#[test]
fn star_middle() {
    let m = GlobMatcher::new("pre*suf");
    assert!(m.is_match("pre_mid_suf"));
    assert!(m.is_match("presuf"));
    assert!(!m.is_match("prefix"));
}

#[test]
fn question_mark() {
    let m = GlobMatcher::new("tool_?");
    assert!(m.is_match("tool_a"));
    assert!(!m.is_match("tool_ab"));
    assert!(!m.is_match("tool_"));
}

#[test]
fn double_star() {
    let m = GlobMatcher::new("src/**/*.rs");
    assert!(m.is_match("src/main.rs"));
    assert!(m.is_match("src/lib/mod.rs"));
    assert!(!m.is_match("tests/test.rs"));
}

// ── Character classes ──────────────────────────────────

#[test]
fn char_class_list() {
    let m = GlobMatcher::new("[abc]_tool");
    assert!(m.is_match("a_tool"));
    assert!(m.is_match("b_tool"));
    assert!(!m.is_match("d_tool"));
}

#[test]
fn char_class_range() {
    let m = GlobMatcher::new("[a-z]_tool");
    assert!(m.is_match("m_tool"));
    assert!(!m.is_match("A_tool"));
}

#[test]
fn char_class_negated() {
    let m = GlobMatcher::new("[!0-9]x");
    assert!(m.is_match("ax"));
    assert!(!m.is_match("1x"));
}

#[test]
fn char_class_caret_negation() {
    let m = GlobMatcher::new("[^abc]");
    assert!(m.is_match("d"));
    assert!(!m.is_match("a"));
}

// ── Brace expansion ────────────────────────────────────

#[test]
fn brace_expansion() {
    let m = GlobMatcher::new("{read,write}_file");
    assert!(m.is_match("read_file"));
    assert!(m.is_match("write_file"));
    assert!(!m.is_match("edit_file"));
}

#[test]
fn brace_with_star() {
    let m = GlobMatcher::new("mcp__{a,b}*");
    assert!(m.is_match("mcp__alpha"));
    assert!(m.is_match("mcp__beta"));
    assert!(!m.is_match("mcp__click"));
}

#[test]
fn no_braces() {
    let expanded = expand_braces("simple");
    assert_eq!(expanded, vec!["simple"]);
}

#[test]
fn unmatched_brace() {
    let expanded = expand_braces("{unclosed");
    assert_eq!(expanded, vec!["{unclosed"]);
}

#[test]
fn three_alternatives() {
    let expanded = expand_braces("x{a,b,c}y");
    assert_eq!(expanded, vec!["xay", "xby", "xcy"]);
}

// ── GlobSet ────────────────────────────────────────────

#[test]
fn globset_empty() {
    let gs = GlobSet::new();
    assert!(gs.is_empty());
    assert!(!gs.is_match("anything"));
}

#[test]
fn globset_add_and_match() {
    let mut gs = GlobSet::new();
    gs.add("bash");
    gs.add("mcp__*");
    assert!(gs.is_match("bash"));
    assert!(gs.is_match("mcp__tool"));
    assert!(!gs.is_match("read"));
}

#[test]
fn globset_from_patterns() {
    let gs = GlobSet::from_patterns(&["*.rs", "*.toml"]);
    assert_eq!(gs.len(), 2);
    assert!(gs.is_match("main.rs"));
    assert!(gs.is_match("Cargo.toml"));
    assert!(!gs.is_match("readme.md"));
}

#[test]
fn globset_matching_patterns() {
    let gs = GlobSet::from_patterns(&["bash", "mcp__*", "*_tool"]);
    let matches = gs.matching_patterns("mcp__tool");
    assert!(matches.contains(&"mcp__*"));
    assert!(!matches.contains(&"bash"));
}

// ── GlobMatcher serde ──────────────────────────────────



// ── Edge cases ─────────────────────────────────────────

#[test]
fn empty_pattern() {
    let m = GlobMatcher::new("");
    assert!(m.is_match(""));
    assert!(!m.is_match("a"));
}

#[test]
fn star_only() {
    let m = GlobMatcher::new("*");
    assert!(m.is_match("anything"));
    assert!(m.is_match(""));
}

#[test]
fn double_star_only() {
    let m = GlobMatcher::new("**");
    assert!(m.is_match("any/path/here"));
    assert!(m.is_match(""));
}

#[test]
fn pattern_accessor() {
    let m = GlobMatcher::new("test_*");
    assert_eq!(m.pattern(), "test_*");
}

// ── The language of a plain pattern ────────────────────

#[test]
fn star_runs_cross_separators() {
    let m = GlobMatcher::new("src/**.rs");
    assert!(m.is_match("src/a/b.rs"));
    assert!(m.is_match("src/.rs"));
    assert!(!m.is_match("src/a/b.rsx"));
    let single = GlobMatcher::new("a*b?");
    assert!(single.is_match("a/x/bz"));
    assert!(single.is_match("abz"));
    assert!(!single.is_match("ab"));
}

#[test]
fn question_mark_is_exactly_one_character() {
    let m = GlobMatcher::new("f??.txt");
    assert!(m.is_match("foo.txt"));
    assert!(m.is_match("f/o.txt"));
    assert!(!m.is_match("fo.txt"));
    assert!(!m.is_match("fooo.txt"));
}
