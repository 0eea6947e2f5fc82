use crab_code::permission_rules::{evaluate_rules, evaluate_rules_detailed, EnhancedPermissionRule, PermRuleScope, RuleAction, RuleSet};


fn make_rule(
    pattern: &str,
    action: RuleAction,
    scope: PermRuleScope,
) -> EnhancedPermissionRule {
    EnhancedPermissionRule {
        pattern: pattern.to_owned(),
        action,
        scope,
        expires_at: None,
        path_pattern: None,
        description: None,
    }
}

fn make_rule_with_expiry(
    pattern: &str,
    action: RuleAction,
    expires_at: u64,
) -> EnhancedPermissionRule {
    EnhancedPermissionRule {
        pattern: pattern.to_owned(),
        action,
        scope: PermRuleScope::Session,
        expires_at: Some(expires_at),
        path_pattern: None,
        description: None,
    }
}

fn make_rule_with_path(
    pattern: &str,
    action: RuleAction,
    path_pattern: &str,
) -> EnhancedPermissionRule {
    EnhancedPermissionRule {
        pattern: pattern.to_owned(),
        action,
        scope: PermRuleScope::Project,
        expires_at: None,
        path_pattern: Some(path_pattern.to_owned()),
        description: None,
    }
}

// ── RuleAction ─────────────────────────────────────────

#[test]
fn action_display() {
    assert_eq!(RuleAction::Allow.to_string(), "allow");
    assert_eq!(RuleAction::Deny.to_string(), "deny");
    assert_eq!(RuleAction::Ask.to_string(), "ask");
}


// ── PermRuleScope ──────────────────────────────────────

#[test]
fn scope_display() {
    assert_eq!(PermRuleScope::Session.to_string(), "session");
    assert_eq!(PermRuleScope::Project.to_string(), "project");
    assert_eq!(PermRuleScope::Global.to_string(), "global");
}


#[test]
fn scope_ordering() {
    assert!(PermRuleScope::Session < PermRuleScope::Project);
    assert!(PermRuleScope::Project < PermRuleScope::Global);
}

// ── EnhancedPermissionRule ──────────────────────────────

#[test]
fn rule_not_expired() {
    let rule = make_rule("bash", RuleAction::Allow, PermRuleScope::Session);
    assert!(!rule.is_expired(1000));
}

#[test]
fn rule_expired() {
    let rule = make_rule_with_expiry("bash", RuleAction::Allow, 500);
    assert!(rule.is_expired(500));
    assert!(rule.is_expired(1000));
    assert!(!rule.is_expired(499));
}

#[test]
fn rule_matches_exact() {
    let rule = make_rule("bash", RuleAction::Allow, PermRuleScope::Session);
    assert!(rule.matches_tool("bash"));
    assert!(!rule.matches_tool("read"));
}

#[test]
fn rule_matches_glob() {
    let rule = make_rule("mcp__*", RuleAction::Deny, PermRuleScope::Global);
    assert!(rule.matches_tool("mcp__playwright"));
    assert!(!rule.matches_tool("bash"));
}

#[test]
fn rule_matches_path_none() {
    let rule = make_rule("bash", RuleAction::Allow, PermRuleScope::Session);
    assert!(rule.matches_path("/any/path"));
}

#[test]
fn rule_matches_path_pattern() {
    let rule = make_rule_with_path("bash", RuleAction::Allow, "/tmp/*");
    assert!(rule.matches_path("/tmp/test"));
    assert!(!rule.matches_path("/etc/config"));
}



// ── RuleSet ────────────────────────────────────────────

#[test]
fn ruleset_default_is_ask() {
    let rs = RuleSet::default();
    assert!(rs.is_empty());
    assert_eq!(rs.default_action(), RuleAction::Ask);
}

#[test]
fn ruleset_push_and_len() {
    let mut rs = RuleSet::new(RuleAction::Deny);
    rs.push(make_rule("bash", RuleAction::Allow, PermRuleScope::Session));
    rs.push(make_rule("read", RuleAction::Allow, PermRuleScope::Global));
    assert_eq!(rs.len(), 2);
    assert!(!rs.is_empty());
}

#[test]
fn ruleset_insert_at_front() {
    let mut rs = RuleSet::new(RuleAction::Ask);
    rs.push(make_rule("bash", RuleAction::Allow, PermRuleScope::Session));
    rs.insert(
        0,
        make_rule("read", RuleAction::Deny, PermRuleScope::Global),
    );
    assert_eq!(rs.rules()[0].pattern, "read");
    assert_eq!(rs.rules()[1].pattern, "bash");
}

#[test]
fn ruleset_insert_beyond_end() {
    let mut rs = RuleSet::new(RuleAction::Ask);
    rs.push(make_rule("bash", RuleAction::Allow, PermRuleScope::Session));
    rs.insert(
        100,
        make_rule("read", RuleAction::Deny, PermRuleScope::Global),
    );
    assert_eq!(rs.len(), 2);
    assert_eq!(rs.rules()[1].pattern, "read");
}

#[test]
fn ruleset_remove() {
    let mut rs = RuleSet::new(RuleAction::Ask);
    rs.push(make_rule("bash", RuleAction::Allow, PermRuleScope::Session));
    rs.push(make_rule("read", RuleAction::Deny, PermRuleScope::Global));
    let removed = rs.remove(0);
    assert!(removed.is_some());
    assert_eq!(removed.unwrap().pattern, "bash");
    assert_eq!(rs.len(), 1);
}

#[test]
fn ruleset_remove_invalid_index() {
    let mut rs = RuleSet::new(RuleAction::Ask);
    assert!(rs.remove(0).is_none());
}

#[test]
fn ruleset_remove_expired() {
    let mut rs = RuleSet::new(RuleAction::Ask);
    rs.push(make_rule_with_expiry("a", RuleAction::Allow, 100));
    rs.push(make_rule("b", RuleAction::Deny, PermRuleScope::Global));
    rs.push(make_rule_with_expiry("c", RuleAction::Allow, 200));

    let removed = rs.remove_expired(150);
    assert_eq!(removed, 1);
    assert_eq!(rs.len(), 2);
    assert_eq!(rs.rules()[0].pattern, "b");
}

#[test]
fn ruleset_set_default_action() {
    let mut rs = RuleSet::default();
    rs.set_default_action(RuleAction::Deny);
    assert_eq!(rs.default_action(), RuleAction::Deny);
}


// ── evaluate_rules ─────────────────────────────────────

#[test]
fn eval_first_match_wins() {
    let mut rs = RuleSet::new(RuleAction::Ask);
    rs.push(make_rule("bash", RuleAction::Deny, PermRuleScope::Session));
    rs.push(make_rule("bash", RuleAction::Allow, PermRuleScope::Global));

    let action = evaluate_rules(&rs, "bash", None, 0);
    assert_eq!(action, RuleAction::Deny);
}

#[test]
fn eval_skips_expired() {
    let mut rs = RuleSet::new(RuleAction::Ask);
    rs.push(make_rule_with_expiry("bash", RuleAction::Deny, 100));
    rs.push(make_rule("bash", RuleAction::Allow, PermRuleScope::Global));

    let action = evaluate_rules(&rs, "bash", None, 200);
    assert_eq!(action, RuleAction::Allow);
}

#[test]
fn eval_uses_default_when_no_match() {
    let rs = RuleSet::new(RuleAction::Deny);
    let action = evaluate_rules(&rs, "bash", None, 0);
    assert_eq!(action, RuleAction::Deny);
}

#[test]
fn eval_with_path() {
    let mut rs = RuleSet::new(RuleAction::Ask);
    rs.push(make_rule_with_path("bash", RuleAction::Deny, "/etc/*"));
    rs.push(make_rule("bash", RuleAction::Allow, PermRuleScope::Global));

    // Path matches restrictive rule
    assert_eq!(
        evaluate_rules(&rs, "bash", Some("/etc/passwd"), 0),
        RuleAction::Deny
    );
    // Path doesn't match restrictive rule, falls through
    assert_eq!(
        evaluate_rules(&rs, "bash", Some("/tmp/test"), 0),
        RuleAction::Allow
    );
}

#[test]
fn eval_no_path_skips_path_check() {
    let mut rs = RuleSet::new(RuleAction::Ask);
    rs.push(make_rule_with_path("bash", RuleAction::Deny, "/etc/*"));

    // No path provided — path_pattern rule still matches (matches_path returns true for None path)
    // Actually path is None so the path check is skipped entirely
    let action = evaluate_rules(&rs, "bash", None, 0);
    assert_eq!(action, RuleAction::Deny);
}

// ── evaluate_rules_detailed ────────────────────────────

#[test]
fn eval_detailed_match() {
    let mut rs = RuleSet::new(RuleAction::Ask);
    rs.push(make_rule("read", RuleAction::Allow, PermRuleScope::Session));
    rs.push(make_rule("bash", RuleAction::Deny, PermRuleScope::Global));

    let result = evaluate_rules_detailed(&rs, "bash", None, 0);
    assert_eq!(result.action, RuleAction::Deny);
    assert_eq!(result.matched_rule_index, Some(1));
    assert!(!result.is_default);
}

#[test]
fn eval_detailed_default() {
    let rs = RuleSet::new(RuleAction::Ask);
    let result = evaluate_rules_detailed(&rs, "bash", None, 0);
    assert_eq!(result.action, RuleAction::Ask);
    assert!(result.matched_rule_index.is_none());
    assert!(result.is_default);
}

