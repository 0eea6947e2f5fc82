//! Permission inheritance: global, project and session rule sets merged
//! into one, more specific scopes first.
//!
//! The merged list is session rules, then project rules, then global
//! rules, each in its own order, so first-match evaluation lets the most
//! specific scope decide. The default action is that of the most specific
//! scope that has rules.
use vstd::prelude::*;

use crate::permission_rules::{
    decision, lemma_decision_concat, lemma_evaluate_is_decision,
    evaluate_rules, evaluate_rules_detailed, evaluate_spec, first_applicable, opt_str_view,
    EnhancedPermissionRule, EvaluationResult, PermRuleScope, RuleAction, RuleSet,
};

verus! {

/// The merged permission set.
#[derive(Debug)]
pub struct EffectivePermissions {
    merged: RuleSet,
    session_rule_count: usize,
    project_rule_count: usize,
    global_rule_count: usize,
}

impl EffectivePermissions {
    /// The three counts add up to the merged length.
    #[verifier::type_invariant]
    spec fn counts_add_up(&self) -> bool {
        self.session_rule_count + self.project_rule_count + self.global_rule_count
            == self.merged.rule_seq().len()
    }

    /// The merged rules, in evaluation order.
    pub closed spec fn merged_rules(&self) -> Seq<EnhancedPermissionRule> {
        self.merged.rule_seq()
    }

    /// The merged default action.
    pub closed spec fn merged_default(&self) -> RuleAction {
        self.merged.default_spec()
    }

    /// How many merged rules came from the session scope.
    pub closed spec fn session_count_spec(&self) -> nat {
        self.session_rule_count as nat
    }

    /// How many merged rules came from the project scope.
    pub closed spec fn project_count_spec(&self) -> nat {
        self.project_rule_count as nat
    }

    /// How many merged rules came from the global scope.
    pub closed spec fn global_count_spec(&self) -> nat {
        self.global_rule_count as nat
    }

    /// Evaluates an invocation against the merged rules.
    pub fn evaluate(&self, tool_name: &str, path: Option<&str>, now_secs: u64) -> (r: RuleAction)
        ensures
            r == evaluate_spec(self.merged_rules(), self.merged_default(), tool_name@, opt_str_view(path), now_secs),
    {
        evaluate_rules(&self.merged, tool_name, path, now_secs)
    }

    /// Evaluates with the deciding rule's index in the merged list.
    pub fn evaluate_detailed(&self, tool_name: &str, path: Option<&str>, now_secs: u64) -> (r: EvaluationResult)
        ensures
            r.action == evaluate_spec(self.merged_rules(), self.merged_default(), tool_name@, opt_str_view(path), now_secs),
            r.matched_rule_index matches Some(k) ==> first_applicable(self.merged_rules(), tool_name@, opt_str_view(path), now_secs, 0) == Some(k as int),
            r.matched_rule_index is None ==> first_applicable(self.merged_rules(), tool_name@, opt_str_view(path), now_secs, 0) is None,
            r.is_default == r.matched_rule_index is None,
    {
        evaluate_rules_detailed(&self.merged, tool_name, path, now_secs)
    }

    /// The merged rule set.
    pub fn rules(&self) -> (r: &RuleSet)
        ensures
            r.rule_seq() == self.merged_rules(),
            r.default_spec() == self.merged_default(),
    {
        &self.merged
    }

    /// Number of merged rules.
    pub fn total_rules(&self) -> (r: usize)
        ensures
            r == self.merged_rules().len(),
    {
        self.merged.len()
    }

    /// Number of session rules.
    pub fn session_rule_count(&self) -> (r: usize)
        ensures
            r == self.session_count_spec(),
    {
        self.session_rule_count
    }

    /// Number of project rules.
    pub fn project_rule_count(&self) -> (r: usize)
        ensures
            r == self.project_count_spec(),
    {
        self.project_rule_count
    }

    /// Number of global rules.
    pub fn global_rule_count(&self) -> (r: usize)
        ensures
            r == self.global_count_spec(),
    {
        self.global_rule_count
    }
}

/// The default action of a merge: that of the most specific scope with rules.
pub open spec fn merged_default_spec(global: &RuleSet, project: &RuleSet, session: &RuleSet) -> RuleAction {
    if session.rule_seq().len() > 0 {
        session.default_spec()
    } else if project.rule_seq().len() > 0 {
        project.default_spec()
    } else {
        global.default_spec()
    }
}

/// The scope a merged index belongs to, given the per-scope counts.
pub open spec fn scope_at(index: int, session: nat, project: nat, total: nat) -> Option<PermRuleScope> {
    if index < session {
        Some(PermRuleScope::Session)
    } else if index < session + project {
        Some(PermRuleScope::Project)
    } else if index < total {
        Some(PermRuleScope::Global)
    } else {
        None
    }
}

/// Builds [`EffectivePermissions`] from rule sets of the three scopes.
pub struct PermissionInheritance;

/// Appends copies of all rules of `src` to `dst`.
fn push_all(dst: &mut RuleSet, src: &RuleSet)
    ensures
        final(dst).rule_seq() == old(dst).rule_seq() + src.rule_seq(),
        final(dst).default_spec() == old(dst).default_spec(),
{
    let rules = src.rules();
    let ghost start = dst.rule_seq();
    let mut i: usize = 0;
    while i < rules.len()
        invariant
            i <= rules.len(),
            rules@ == src.rule_seq(),
            dst.rule_seq() == start + rules@.subrange(0, i as int),
            dst.default_spec() == old(dst).default_spec(),
        decreases rules.len() - i,
    {
        dst.push(rules[i].duplicate());
        proof {
            assert(rules@.subrange(0, i + 1) =~= rules@.subrange(0, i as int).push(rules@[i as int]));
        }
        i += 1;
    }
    proof {
        assert(rules@.subrange(0, i as int) =~= rules@);
    }
}

impl PermissionInheritance {
    /// Merges the three scopes: session rules first, then project rules,
    /// then global rules; the default action comes from the most specific
    /// scope that has rules.
    pub fn merge(global: &RuleSet, project: &RuleSet, session: &RuleSet) -> (e: EffectivePermissions)
        requires
            session.rule_seq().len() + project.rule_seq().len() + global.rule_seq().len() <= usize::MAX,
        ensures
            e.merged_rules() == session.rule_seq() + project.rule_seq() + global.rule_seq(),
            e.merged_default() == merged_default_spec(global, project, session),
            e.session_count_spec() == session.rule_seq().len(),
            e.project_count_spec() == project.rule_seq().len(),
            e.global_count_spec() == global.rule_seq().len(),
    {
        let session_count = session.len();
        let project_count = project.len();
        let global_count = global.len();
        let default_action = if !session.is_empty() {
            session.default_action()
        } else if !project.is_empty() {
            project.default_action()
        } else {
            global.default_action()
        };
        let mut merged = RuleSet::new(default_action);
        push_all(&mut merged, session);
        push_all(&mut merged, project);
        push_all(&mut merged, global);
        EffectivePermissions {
            merged,
            session_rule_count: session_count,
            project_rule_count: project_count,
            global_rule_count: global_count,
        }
    }

    /// Merges only the global and project scopes (an empty session scope).
    pub fn merge_without_session(global: &RuleSet, project: &RuleSet) -> (e: EffectivePermissions)
        requires
            project.rule_seq().len() + global.rule_seq().len() <= usize::MAX,
        ensures
            e.merged_rules() == project.rule_seq() + global.rule_seq(),
            e.merged_default() == (if project.rule_seq().len() > 0 {
                project.default_spec()
            } else {
                global.default_spec()
            }),
            e.session_count_spec() == 0,
            e.project_count_spec() == project.rule_seq().len(),
            e.global_count_spec() == global.rule_seq().len(),
    {
        let empty = RuleSet::new(RuleAction::Ask);
        let e = Self::merge(global, project, &empty);
        proof {
            assert(Seq::<EnhancedPermissionRule>::empty() + project.rule_seq() + global.rule_seq()
                =~= project.rule_seq() + global.rule_seq());
        }
        e
    }

    /// The scope the merged rule at `index` came from, or `None` past the end.
    pub fn scope_of_rule(effective: &EffectivePermissions, index: usize) -> (r: Option<PermRuleScope>)
        ensures
            r == scope_at(
                index as int,
                effective.session_count_spec(),
                effective.project_count_spec(),
                effective.merged_rules().len(),
            ),
    {
        proof {
            use_type_invariant(effective);
        }
        let total = effective.total_rules();
        if index < effective.session_rule_count {
            Some(PermRuleScope::Session)
        } else if index < effective.session_rule_count + effective.project_rule_count {
            Some(PermRuleScope::Project)
        } else if index < total {
            Some(PermRuleScope::Global)
        } else {
            None
        }
    }
}

/// Law (inheritance): evaluating merged permissions gives the action of
/// the first applicable session rule; failing that, of the first
/// applicable project rule; failing that, of the first applicable global
/// rule; and the merged default only when no rule of any scope applies.
pub proof fn law_more_specific_scope_decides(
    global: Seq<EnhancedPermissionRule>,
    project: Seq<EnhancedPermissionRule>,
    session: Seq<EnhancedPermissionRule>,
    default_action: RuleAction,
    tool: Seq<char>,
    path: Option<Seq<char>>,
    now: u64,
)
    ensures
        evaluate_spec(session + project + global, default_action, tool, path, now) == match decision(session, tool, path, now) {
            Some(a) => a,
            None => match decision(project, tool, path, now) {
                Some(a) => a,
                None => match decision(global, tool, path, now) {
                    Some(a) => a,
                    None => default_action,
                },
            },
        },
{
    lemma_decision_concat(session, project, tool, path, now);
    lemma_decision_concat(session + project, global, tool, path, now);
    lemma_evaluate_is_decision(session + project + global, default_action, tool, path, now);
}

} // verus!
