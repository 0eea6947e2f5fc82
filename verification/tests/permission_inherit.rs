use crab_code::permission_inherit::PermissionInheritance;
use crab_code::permission_rules::{EnhancedPermissionRule, PermRuleScope, RuleAction, RuleSet};


fn make_rule(
    pattern: &str,
    action: RuleAction,
    scope: PermRuleScope,
) -> EnhancedPermissionRule {
    EnhancedPermissionRule {
        pattern: pattern.to_owned(),
        action,
        scope,
        expires_at: None,
        path_pattern: None,
        description: None,
    }
}

// ── Basic merge ────────────────────────────────────────

#[test]
fn merge_empty() {
    let global = RuleSet::new(RuleAction::Ask);
    let project = RuleSet::new(RuleAction::Ask);
    let session = RuleSet::new(RuleAction::Ask);

    let effective = PermissionInheritance::merge(&global, &project, &session);
    assert_eq!(effective.total_rules(), 0);
    assert_eq!(effective.session_rule_count(), 0);
    assert_eq!(effective.project_rule_count(), 0);
    assert_eq!(effective.global_rule_count(), 0);
}

#[test]
fn merge_counts() {
    let mut global = RuleSet::new(RuleAction::Ask);
    global.push(make_rule("g1", RuleAction::Allow, PermRuleScope::Global));
    global.push(make_rule("g2", RuleAction::Deny, PermRuleScope::Global));

    let mut project = RuleSet::new(RuleAction::Ask);
    project.push(make_rule("p1", RuleAction::Allow, PermRuleScope::Project));

    let mut session = RuleSet::new(RuleAction::Ask);
    session.push(make_rule("s1", RuleAction::Deny, PermRuleScope::Session));
    session.push(make_rule("s2", RuleAction::Allow, PermRuleScope::Session));
    session.push(make_rule("s3", RuleAction::Ask, PermRuleScope::Session));

    let effective = PermissionInheritance::merge(&global, &project, &session);
    assert_eq!(effective.total_rules(), 6);
    assert_eq!(effective.session_rule_count(), 3);
    assert_eq!(effective.project_rule_count(), 1);
    assert_eq!(effective.global_rule_count(), 2);
}

// ── Priority / override ────────────────────────────────

#[test]
fn session_overrides_project() {
    let global = RuleSet::new(RuleAction::Ask);

    let mut project = RuleSet::new(RuleAction::Ask);
    project.push(make_rule("bash", RuleAction::Allow, PermRuleScope::Project));

    let mut session = RuleSet::new(RuleAction::Ask);
    session.push(make_rule("bash", RuleAction::Deny, PermRuleScope::Session));

    let effective = PermissionInheritance::merge(&global, &project, &session);
    let action = effective.evaluate("bash", None, 0);
    assert_eq!(action, RuleAction::Deny);
}

#[test]
fn project_overrides_global() {
    let mut global = RuleSet::new(RuleAction::Ask);
    global.push(make_rule("bash", RuleAction::Allow, PermRuleScope::Global));

    let mut project = RuleSet::new(RuleAction::Ask);
    project.push(make_rule("bash", RuleAction::Deny, PermRuleScope::Project));

    let session = RuleSet::new(RuleAction::Ask);

    let effective = PermissionInheritance::merge(&global, &project, &session);
    let action = effective.evaluate("bash", None, 0);
    assert_eq!(action, RuleAction::Deny);
}

#[test]
fn session_overrides_global() {
    let mut global = RuleSet::new(RuleAction::Ask);
    global.push(make_rule("bash", RuleAction::Deny, PermRuleScope::Global));

    let project = RuleSet::new(RuleAction::Ask);

    let mut session = RuleSet::new(RuleAction::Ask);
    session.push(make_rule("bash", RuleAction::Allow, PermRuleScope::Session));

    let effective = PermissionInheritance::merge(&global, &project, &session);
    let action = effective.evaluate("bash", None, 0);
    assert_eq!(action, RuleAction::Allow);
}

#[test]
fn global_applies_when_no_override() {
    let mut global = RuleSet::new(RuleAction::Ask);
    global.push(make_rule("bash", RuleAction::Allow, PermRuleScope::Global));

    let project = RuleSet::new(RuleAction::Ask);
    let session = RuleSet::new(RuleAction::Ask);

    let effective = PermissionInheritance::merge(&global, &project, &session);
    let action = effective.evaluate("bash", None, 0);
    assert_eq!(action, RuleAction::Allow);
}

// ── Default action inheritance ─────────────────────────

#[test]
fn default_action_from_session() {
    let global = RuleSet::new(RuleAction::Allow);
    let project = RuleSet::new(RuleAction::Deny);
    let mut session = RuleSet::new(RuleAction::Ask);
    session.push(make_rule("x", RuleAction::Allow, PermRuleScope::Session));

    let effective = PermissionInheritance::merge(&global, &project, &session);
    // Default from session since it has rules
    assert_eq!(effective.rules().default_action(), RuleAction::Ask);
}

#[test]
fn default_action_from_project_when_no_session() {
    let global = RuleSet::new(RuleAction::Allow);
    let mut project = RuleSet::new(RuleAction::Deny);
    project.push(make_rule("x", RuleAction::Allow, PermRuleScope::Project));
    let session = RuleSet::new(RuleAction::Ask);

    let effective = PermissionInheritance::merge(&global, &project, &session);
    assert_eq!(effective.rules().default_action(), RuleAction::Deny);
}

#[test]
fn default_action_from_global_when_nothing_else() {
    let mut global = RuleSet::new(RuleAction::Allow);
    global.push(make_rule("x", RuleAction::Allow, PermRuleScope::Global));
    let project = RuleSet::new(RuleAction::Deny);
    let session = RuleSet::new(RuleAction::Ask);

    let effective = PermissionInheritance::merge(&global, &project, &session);
    assert_eq!(effective.rules().default_action(), RuleAction::Allow);
}

// ── scope_of_rule ──────────────────────────────────────

#[test]
fn scope_of_rule_identifies_correctly() {
    let mut global = RuleSet::new(RuleAction::Ask);
    global.push(make_rule("g", RuleAction::Allow, PermRuleScope::Global));

    let mut project = RuleSet::new(RuleAction::Ask);
    project.push(make_rule("p", RuleAction::Allow, PermRuleScope::Project));

    let mut session = RuleSet::new(RuleAction::Ask);
    session.push(make_rule("s", RuleAction::Allow, PermRuleScope::Session));

    let effective = PermissionInheritance::merge(&global, &project, &session);

    assert_eq!(
        PermissionInheritance::scope_of_rule(&effective, 0),
        Some(PermRuleScope::Session)
    );
    assert_eq!(
        PermissionInheritance::scope_of_rule(&effective, 1),
        Some(PermRuleScope::Project)
    );
    assert_eq!(
        PermissionInheritance::scope_of_rule(&effective, 2),
        Some(PermRuleScope::Global)
    );
    assert_eq!(PermissionInheritance::scope_of_rule(&effective, 3), None);
}

// ── merge_without_session ──────────────────────────────

#[test]
fn merge_without_session_works() {
    let mut global = RuleSet::new(RuleAction::Ask);
    global.push(make_rule("bash", RuleAction::Allow, PermRuleScope::Global));

    let mut project = RuleSet::new(RuleAction::Ask);
    project.push(make_rule("bash", RuleAction::Deny, PermRuleScope::Project));

    let effective = PermissionInheritance::merge_without_session(&global, &project);
    assert_eq!(effective.session_rule_count(), 0);
    assert_eq!(effective.evaluate("bash", None, 0), RuleAction::Deny);
}

// ── evaluate_detailed through effective ─────────────────

#[test]
fn evaluate_detailed_through_effective() {
    let mut global = RuleSet::new(RuleAction::Ask);
    global.push(make_rule("bash", RuleAction::Allow, PermRuleScope::Global));

    let mut session = RuleSet::new(RuleAction::Ask);
    session.push(make_rule("read", RuleAction::Deny, PermRuleScope::Session));

    let project = RuleSet::new(RuleAction::Ask);

    let effective = PermissionInheritance::merge(&global, &project, &session);
    let result = effective.evaluate_detailed("bash", None, 0);
    assert_eq!(result.action, RuleAction::Allow);
    assert_eq!(result.matched_rule_index, Some(1)); // index 1 = first global rule
    assert!(!result.is_default);
}

#[test]
fn evaluate_detailed_default() {
    let global = RuleSet::new(RuleAction::Deny);
    let project = RuleSet::new(RuleAction::Ask);
    let session = RuleSet::new(RuleAction::Ask);

    let effective = PermissionInheritance::merge(&global, &project, &session);
    let result = effective.evaluate_detailed("unknown_tool", None, 0);
    assert!(result.is_default);
}

// ── Serde ──────────────────────────────────────────────


