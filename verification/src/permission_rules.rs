//! Permission rules with expiry, optional path patterns, and ordered
//! first-match evaluation.
//!
//! Rules are tried in order; the first rule that has not expired, whose
//! tool pattern matches the tool name, and (when a path is given) whose
//! path pattern matches the path decides the action. When no rule
//! applies, the rule set's default action is returned.
use vstd::prelude::*;

use crate::glob::{pattern_matches, GlobMatcher};

verus! {

// ── Rule action and scope ─────────────────────────────────────────

/// What should happen when a permission rule matches.
#[derive(Debug, Clone, Copy, PartialEq, Eq, Hash, Structural)]
pub enum RuleAction {
    /// Allow the operation without prompting.
    Allow,
    /// Deny the operation without prompting.
    Deny,
    /// Ask the user interactively.
    Ask,
}

/// The lowercase name of an action.
pub open spec fn action_name(a: RuleAction) -> Seq<char> {
    match a {
        RuleAction::Allow => "allow"@,
        RuleAction::Deny => "deny"@,
        RuleAction::Ask => "ask"@,
    }
}

impl RuleAction {
    /// The lowercase name (`allow`, `deny`, `ask`).
    pub fn to_string(&self) -> (r: String)
        ensures
            r@ == action_name(*self),
    {
        match self {
            RuleAction::Allow => "allow".to_owned(),
            RuleAction::Deny => "deny".to_owned(),
            RuleAction::Ask => "ask".to_owned(),
        }
    }
}

/// The scope at which a permission rule applies, most specific first.
#[derive(Debug, Clone, Copy, PartialEq, Eq, Hash, PartialOrd, Ord, Structural)]
pub enum PermRuleScope {
    /// The current session only (most specific).
    Session,
    /// The current project.
    Project,
    /// Every project (least specific).
    Global,
}

/// The lowercase name of a scope.
pub open spec fn scope_name(s: PermRuleScope) -> Seq<char> {
    match s {
        PermRuleScope::Session => "session"@,
        PermRuleScope::Project => "project"@,
        PermRuleScope::Global => "global"@,
    }
}

impl PermRuleScope {
    /// The lowercase name (`session`, `project`, `global`).
    pub fn to_string(&self) -> (r: String)
        ensures
            r@ == scope_name(*self),
    {
        match self {
            PermRuleScope::Session => "session".to_owned(),
            PermRuleScope::Project => "project".to_owned(),
            PermRuleScope::Global => "global".to_owned(),
        }
    }
}

// ── Rules ─────────────────────────────────────────────────────────

/// A single permission rule.
#[derive(Debug, PartialEq, Eq)]
pub struct EnhancedPermissionRule {
    /// Glob pattern for tool names (e.g. `"bash"`, `"mcp__*"`).
    pub pattern: String,
    /// What to do when this rule matches.
    pub action: RuleAction,
    /// Scope of the rule.
    pub scope: PermRuleScope,
    /// Unix time (seconds) from which on the rule is expired, if any.
    pub expires_at: Option<u64>,
    /// When set, the rule only applies to paths matching this glob.
    pub path_pattern: Option<String>,
    /// Optional human-readable description.
    pub description: Option<String>,
}

/// Whether the rule has expired at time `now`.
pub open spec fn rule_expired(r: EnhancedPermissionRule, now: u64) -> bool {
    match r.expires_at {
        Some(exp) => now >= exp,
        None => false,
    }
}

/// Whether the rule's tool pattern matches the tool name.
pub open spec fn rule_matches_tool(r: EnhancedPermissionRule, tool: Seq<char>) -> bool {
    pattern_matches(r.pattern@, tool)
}

/// Whether the rule's path pattern (if any) matches the path.
pub open spec fn rule_matches_path(r: EnhancedPermissionRule, path: Seq<char>) -> bool {
    match r.path_pattern {
        Some(p) => pattern_matches(p@, path),
        None => true,
    }
}

/// Whether the rule decides an invocation of `tool` (on `path`, when given) at `now`.
pub open spec fn rule_applies(r: EnhancedPermissionRule, tool: Seq<char>, path: Option<Seq<char>>, now: u64) -> bool {
    &&& !rule_expired(r, now)
    &&& rule_matches_tool(r, tool)
    &&& match path {
        Some(p) => rule_matches_path(r, p),
        None => true,
    }
}

/// The view of an optional string slice.
pub open spec fn opt_str_view(o: Option<&str>) -> Option<Seq<char>> {
    match o {
        Some(s) => Some(s@),
        None => None,
    }
}

/// Copies an optional string.
pub fn clone_opt_string(o: &Option<String>) -> (r: Option<String>)
    ensures
        r == *o,
{
    match o {
        Some(s) => Some(s.clone()),
        None => None,
    }
}

impl EnhancedPermissionRule {
    /// Whether the rule has expired at Unix time `now_secs`.
    pub fn is_expired(&self, now_secs: u64) -> (r: bool)
        ensures
            r == rule_expired(*self, now_secs),
    {
        match self.expires_at {
            Some(exp) => now_secs >= exp,
            None => false,
        }
    }

    /// Whether the tool pattern matches `tool_name`.
    pub fn matches_tool(&self, tool_name: &str) -> (r: bool)
        ensures
            r == rule_matches_tool(*self, tool_name@),
    {
        GlobMatcher::new(self.pattern.as_str()).is_match(tool_name)
    }

    /// Whether the path pattern matches `path`; true when there is none.
    pub fn matches_path(&self, path: &str) -> (r: bool)
        ensures
            r == rule_matches_path(*self, path@),
    {
        match &self.path_pattern {
            Some(pat) => GlobMatcher::new(pat.as_str()).is_match(path),
            None => true,
        }
    }

    /// A field-by-field copy.
    pub fn duplicate(&self) -> (r: Self)
        ensures
            r == *self,
    {
        EnhancedPermissionRule {
            pattern: self.pattern.clone(),
            action: self.action,
            scope: self.scope,
            expires_at: self.expires_at,
            path_pattern: clone_opt_string(&self.path_pattern),
            description: clone_opt_string(&self.description),
        }
    }
}

impl Clone for EnhancedPermissionRule {
    fn clone(&self) -> (r: Self)
        ensures
            r == *self,
    {
        self.duplicate()
    }
}

// ── Evaluation (specification) ────────────────────────────────────

/// Index of the first rule at or after `i` that decides the invocation.
pub open spec fn first_applicable(
    rules: Seq<EnhancedPermissionRule>,
    tool: Seq<char>,
    path: Option<Seq<char>>,
    now: u64,
    i: int,
) -> Option<int>
    decreases rules.len() - i,
{
    if i < 0 || i >= rules.len() {
        None
    } else if rule_applies(rules[i], tool, path, now) {
        Some(i)
    } else {
        first_applicable(rules, tool, path, now, i + 1)
    }
}

/// The decided action: that of the first applicable rule, else the default.
pub open spec fn evaluate_spec(
    rules: Seq<EnhancedPermissionRule>,
    default_action: RuleAction,
    tool: Seq<char>,
    path: Option<Seq<char>>,
    now: u64,
) -> RuleAction {
    match first_applicable(rules, tool, path, now, 0) {
        Some(k) => rules[k].action,
        None => default_action,
    }
}

/// The rules among the first `n` that have not expired at `now`, in order.
pub open spec fn unexpired_prefix(rules: Seq<EnhancedPermissionRule>, now: u64, n: int) -> Seq<EnhancedPermissionRule>
    decreases n,
{
    if n <= 0 {
        Seq::empty()
    } else if rule_expired(rules[n - 1], now) {
        unexpired_prefix(rules, now, n - 1)
    } else {
        unexpired_prefix(rules, now, n - 1).push(rules[n - 1])
    }
}

/// The rules that have not expired at `now`, in order.
pub open spec fn unexpired(rules: Seq<EnhancedPermissionRule>, now: u64) -> Seq<EnhancedPermissionRule> {
    unexpired_prefix(rules, now, rules.len() as int)
}

/// Lemma: the first applicable rule at or after `i` lies in range, applies,
/// and is preceded (from `i` on) only by rules that do not apply.
pub proof fn lemma_first_applicable_bounds(
    rules: Seq<EnhancedPermissionRule>,
    tool: Seq<char>,
    path: Option<Seq<char>>,
    now: u64,
    i: int,
)
    requires
        0 <= i,
    ensures
        first_applicable(rules, tool, path, now, i) matches Some(k) ==> {
            &&& i <= k < rules.len()
            &&& rule_applies(rules[k], tool, path, now)
            &&& forall|j: int| i <= j < k ==> !rule_applies(#[trigger] rules[j], tool, path, now)
        },
        first_applicable(rules, tool, path, now, i) is None ==> forall|j: int|
            i <= j < rules.len() ==> !rule_applies(#[trigger] rules[j], tool, path, now),
    decreases rules.len() - i,
{
    if 0 <= i < rules.len() && !rule_applies(rules[i], tool, path, now) {
        lemma_first_applicable_bounds(rules, tool, path, now, i + 1);
    }
}

// ── Rule set ──────────────────────────────────────────────────────

/// An ordered list of rules with a default action for when none applies.
#[derive(Debug)]
pub struct RuleSet {
    rules: Vec<EnhancedPermissionRule>,
    default_action: RuleAction,
}

/// The default action of a new rule set.
pub fn default_action() -> (r: RuleAction)
    ensures
        r == RuleAction::Ask,
{
    RuleAction::Ask
}

impl RuleSet {
    /// The rules, in evaluation order.
    pub closed spec fn rule_seq(&self) -> Seq<EnhancedPermissionRule> {
        self.rules@
    }

    /// The action used when no rule applies.
    pub closed spec fn default_spec(&self) -> RuleAction {
        self.default_action
    }

    /// An empty rule set with the given default action.
    pub fn new(default_action: RuleAction) -> (r: Self)
        ensures
            r.rule_seq() == Seq::<EnhancedPermissionRule>::empty(),
            r.default_spec() == default_action,
    {
        RuleSet { rules: Vec::new(), default_action }
    }

    /// Adds a rule at the end (lowest priority).
    pub fn push(&mut self, rule: EnhancedPermissionRule)
        ensures
            final(self).rule_seq() == old(self).rule_seq().push(rule),
            final(self).default_spec() == old(self).default_spec(),
    {
        self.rules.push(rule);
    }

    /// Inserts a rule at `index` (0 = highest priority), clamped to the end.
    pub fn insert(&mut self, index: usize, rule: EnhancedPermissionRule)
        ensures
            final(self).rule_seq() == old(self).rule_seq().insert(
                if index <= old(self).rule_seq().len() { index as int } else { old(self).rule_seq().len() as int },
                rule,
            ),
            final(self).default_spec() == old(self).default_spec(),
    {
        let index = if index <= self.rules.len() {
            index
        } else {
            self.rules.len()
        };
        self.rules.insert(index, rule);
    }

    /// Removes the rule at `index`, if there is one.
    pub fn remove(&mut self, index: usize) -> (r: Option<EnhancedPermissionRule>)
        ensures
            index < old(self).rule_seq().len() ==> r == Some(old(self).rule_seq()[index as int])
                && final(self).rule_seq() == old(self).rule_seq().remove(index as int),
            index >= old(self).rule_seq().len() ==> r is None && final(self).rule_seq() == old(self).rule_seq(),
            final(self).default_spec() == old(self).default_spec(),
    {
        if index < self.rules.len() {
            Some(self.rules.remove(index))
        } else {
            None
        }
    }

    /// Removes every rule expired at `now_secs`, keeping the rest in order.
    /// Returns how many were removed.
    pub fn remove_expired(&mut self, now_secs: u64) -> (n: usize)
        ensures
            final(self).rule_seq() == unexpired(old(self).rule_seq(), now_secs),
            n == old(self).rule_seq().len() - final(self).rule_seq().len(),
            final(self).default_spec() == old(self).default_spec(),
    {
        broadcast use vstd::std_specs::vec::group_vec_axioms;
        let before = self.rules.len();
        let mut old_rules: Vec<EnhancedPermissionRule> = Vec::new();
        std::mem::swap(&mut old_rules, &mut self.rules);
        let ghost all = old_rules@;
        let mut kept: Vec<EnhancedPermissionRule> = Vec::new();
        for r in it: old_rules
            invariant
                it.seq() == all,
                kept@ == unexpired_prefix(all, now_secs, it.index() as int),
                kept@.len() <= it.index(),
        {
            proof {
                lemma_unexpired_prefix_len(all, now_secs, it.index() + 1);
            }
            if !r.is_expired(now_secs) {
                kept.push(r);
            }
        }
        proof {
            lemma_unexpired_prefix_len(all, now_secs, all.len() as int);
        }
        self.rules = kept;
        before - self.rules.len()
    }

    /// All rules, in evaluation order.
    pub fn rules(&self) -> (r: &[EnhancedPermissionRule])
        ensures
            r@ == self.rule_seq(),
    {
        self.rules.as_slice()
    }

    /// Number of rules.
    pub fn len(&self) -> (r: usize)
        ensures
            r == self.rule_seq().len(),
    {
        self.rules.len()
    }

    /// Whether there are no rules.
    pub fn is_empty(&self) -> (r: bool)
        ensures
            r == (self.rule_seq().len() == 0),
    {
        self.rules.len() == 0
    }

    /// The action used when no rule applies.
    pub fn default_action(&self) -> (r: RuleAction)
        ensures
            r == self.default_spec(),
    {
        self.default_action
    }

    /// Sets the action used when no rule applies.
    pub fn set_default_action(&mut self, action: RuleAction)
        ensures
            final(self).default_spec() == action,
            final(self).rule_seq() == old(self).rule_seq(),
    {
        self.default_action = action;
    }
}

impl Default for RuleSet {
    fn default() -> (r: Self)
        ensures
            r.rule_seq() == Seq::<EnhancedPermissionRule>::empty(),
            r.default_spec() == RuleAction::Ask,
    {
        RuleSet::new(RuleAction::Ask)
    }
}

/// Lemma: filtering a prefix keeps at most as many rules as it has.
pub proof fn lemma_unexpired_prefix_len(rules: Seq<EnhancedPermissionRule>, now: u64, n: int)
    ensures
        unexpired_prefix(rules, now, n).len() <= if n < 0 { 0 } else { n },
    decreases n,
{
    if n > 0 {
        lemma_unexpired_prefix_len(rules, now, n - 1);
    }
}

// ── Evaluation ────────────────────────────────────────────────────

/// Whether the rule decides the invocation (exec form of [`rule_applies`]).
fn applies(rule: &EnhancedPermissionRule, tool_name: &str, path: Option<&str>, now_secs: u64) -> (r: bool)
    ensures
        r == rule_applies(*rule, tool_name@, opt_str_view(path), now_secs),
{
    if rule.is_expired(now_secs) {
        return false;
    }
    if !rule.matches_tool(tool_name) {
        return false;
    }
    if let Some(p) = path {
        if !rule.matches_path(p) {
            return false;
        }
    }
    true
}

/// Index of the first rule that decides the invocation.
fn find_first(rules: &RuleSet, tool_name: &str, path: Option<&str>, now_secs: u64) -> (r: Option<usize>)
    ensures
        r matches Some(k) ==> k < rules.rule_seq().len() && first_applicable(rules.rule_seq(), tool_name@, opt_str_view(path), now_secs, 0) == Some(k as int),
        r is None ==> first_applicable(rules.rule_seq(), tool_name@, opt_str_view(path), now_secs, 0) is None,
{
    proof {
        lemma_first_applicable_bounds(rules.rule_seq(), tool_name@, opt_str_view(path), now_secs, 0);
    }
    let mut i: usize = 0;
    while i < rules.rules.len()
        invariant
            i <= rules.rules.len(),
            first_applicable(rules.rule_seq(), tool_name@, opt_str_view(path), now_secs, 0)
                == first_applicable(rules.rule_seq(), tool_name@, opt_str_view(path), now_secs, i as int),
        decreases rules.rules.len() - i,
    {
        if applies(&rules.rules[i], tool_name, path, now_secs) {
            return Some(i);
        }
        i += 1;
    }
    None
}

/// Evaluates an invocation: the action of the first non-expired rule whose
/// tool pattern (and, when a path is given, path pattern) matches; the
/// rule set's default action when none does.
pub fn evaluate_rules(rules: &RuleSet, tool_name: &str, path: Option<&str>, now_secs: u64) -> (r: RuleAction)
    ensures
        r == evaluate_spec(rules.rule_seq(), rules.default_spec(), tool_name@, opt_str_view(path), now_secs),
{
    match find_first(rules, tool_name, path, now_secs) {
        Some(k) => rules.rules[k].action,
        None => rules.default_action,
    }
}

/// The outcome of an evaluation with the rule that decided it.
#[derive(Debug, Clone, Copy)]
pub struct EvaluationResult {
    /// The decided action.
    pub action: RuleAction,
    /// Index of the deciding rule, or `None` when the default was used.
    pub matched_rule_index: Option<usize>,
    /// Whether the default action was used.
    pub is_default: bool,
}

/// Like [`evaluate_rules`], but also reports which rule decided.
pub fn evaluate_rules_detailed(rules: &RuleSet, tool_name: &str, path: Option<&str>, now_secs: u64) -> (r: EvaluationResult)
    ensures
        r.action == evaluate_spec(rules.rule_seq(), rules.default_spec(), tool_name@, opt_str_view(path), now_secs),
        r.matched_rule_index matches Some(k) ==> first_applicable(rules.rule_seq(), tool_name@, opt_str_view(path), now_secs, 0) == Some(k as int),
        r.matched_rule_index is None ==> first_applicable(rules.rule_seq(), tool_name@, opt_str_view(path), now_secs, 0) is None,
        r.is_default == r.matched_rule_index is None,
{
    match find_first(rules, tool_name, path, now_secs) {
        Some(k) => EvaluationResult { action: rules.rules[k].action, matched_rule_index: Some(k), is_default: false },
        None => EvaluationResult { action: rules.default_action, matched_rule_index: None, is_default: true },
    }
}

// ── Laws ──────────────────────────────────────────────────────────

/// The action decided by some rule of the list, or `None` when no rule applies.
pub open spec fn decision(rules: Seq<EnhancedPermissionRule>, tool: Seq<char>, path: Option<Seq<char>>, now: u64) -> Option<RuleAction> {
    match first_applicable(rules, tool, path, now, 0) {
        Some(k) => Some(rules[k].action),
        None => None,
    }
}

/// Lemma: scanning the tail of `a + b` is scanning `b`, shifted by `a.len()`.
proof fn lemma_first_applicable_shift(
    a: Seq<EnhancedPermissionRule>,
    b: Seq<EnhancedPermissionRule>,
    tool: Seq<char>,
    path: Option<Seq<char>>,
    now: u64,
    j: int,
)
    requires
        0 <= j <= b.len(),
    ensures
        first_applicable(a + b, tool, path, now, a.len() + j) == match first_applicable(b, tool, path, now, j) {
            Some(k) => Some(k + a.len()),
            None => None,
        },
    decreases b.len() - j,
{
    if j < b.len() {
        assert((a + b)[a.len() + j] == b[j]);
        lemma_first_applicable_shift(a, b, tool, path, now, j + 1);
    }
}

/// Lemma: the first applicable rule of `a + b` is the first of `a`, or
/// else the first of `b` shifted past `a`.
pub proof fn lemma_first_applicable_concat(
    a: Seq<EnhancedPermissionRule>,
    b: Seq<EnhancedPermissionRule>,
    tool: Seq<char>,
    path: Option<Seq<char>>,
    now: u64,
    i: int,
)
    requires
        0 <= i <= a.len(),
    ensures
        first_applicable(a + b, tool, path, now, i) == match first_applicable(a, tool, path, now, i) {
            Some(k) => Some(k),
            None => match first_applicable(b, tool, path, now, 0) {
                Some(k) => Some(k + a.len()),
                None => None,
            },
        },
    decreases a.len() - i,
{
    if i < a.len() {
        assert((a + b)[i] == a[i]);
        lemma_first_applicable_concat(a, b, tool, path, now, i + 1);
    } else {
        lemma_first_applicable_shift(a, b, tool, path, now, 0);
    }
}

/// Lemma: the decision of `a + b` is that of `a`, or else that of `b`.
pub proof fn lemma_decision_concat(
    a: Seq<EnhancedPermissionRule>,
    b: Seq<EnhancedPermissionRule>,
    tool: Seq<char>,
    path: Option<Seq<char>>,
    now: u64,
)
    ensures
        decision(a + b, tool, path, now) == match decision(a, tool, path, now) {
            Some(x) => Some(x),
            None => decision(b, tool, path, now),
        },
{
    lemma_first_applicable_concat(a, b, tool, path, now, 0);
    lemma_first_applicable_bounds(a, tool, path, now, 0);
    lemma_first_applicable_bounds(b, tool, path, now, 0);
    if let Some(k) = first_applicable(a, tool, path, now, 0) {
        assert((a + b)[k] == a[k]);
    } else if let Some(k) = first_applicable(b, tool, path, now, 0) {
        assert((a + b)[k + a.len()] == b[k]);
    }
}

/// Lemma: the decision of a single rule.
proof fn lemma_decision_single(x: EnhancedPermissionRule, tool: Seq<char>, path: Option<Seq<char>>, now: u64)
    ensures
        decision(seq![x], tool, path, now) == if rule_applies(x, tool, path, now) {
            Some(x.action)
        } else {
            None
        },
{
    let s = seq![x];
    assert(s[0] == x);
    assert(first_applicable(s, tool, path, now, 1) is None);
    assert(first_applicable(s, tool, path, now, 0) == if rule_applies(x, tool, path, now) {
        Some(0int)
    } else {
        first_applicable(s, tool, path, now, 1)
    });
}

/// Law (first match): when the evaluation is decided by a rule, that rule
/// applies to the invocation and no earlier rule does; when the default is
/// used, no rule applies.
pub proof fn law_first_match_decides(
    rules: Seq<EnhancedPermissionRule>,
    default_action: RuleAction,
    tool: Seq<char>,
    path: Option<Seq<char>>,
    now: u64,
)
    ensures
        first_applicable(rules, tool, path, now, 0) matches Some(k) ==> {
            &&& 0 <= k < rules.len()
            &&& rule_applies(rules[k], tool, path, now)
            &&& evaluate_spec(rules, default_action, tool, path, now) == rules[k].action
            &&& forall|j: int| 0 <= j < k ==> !rule_applies(#[trigger] rules[j], tool, path, now)
        },
        first_applicable(rules, tool, path, now, 0) is None ==> {
            &&& evaluate_spec(rules, default_action, tool, path, now) == default_action
            &&& forall|j: int| 0 <= j < rules.len() ==> !rule_applies(#[trigger] rules[j], tool, path, now)
        },
{
    lemma_first_applicable_bounds(rules, tool, path, now, 0);
}

/// Law: an expired rule never decides an evaluation.
pub proof fn law_expired_rule_never_decides(
    rules: Seq<EnhancedPermissionRule>,
    tool: Seq<char>,
    path: Option<Seq<char>>,
    now: u64,
    k: int,
)
    requires
        0 <= k < rules.len(),
        rule_expired(rules[k], now),
    ensures
        first_applicable(rules, tool, path, now, 0) != Some(k),
{
    lemma_first_applicable_bounds(rules, tool, path, now, 0);
}

/// Lemma: dropping the expired rules of a prefix keeps its decision.
proof fn lemma_unexpired_prefix_decision(
    rules: Seq<EnhancedPermissionRule>,
    tool: Seq<char>,
    path: Option<Seq<char>>,
    now: u64,
    n: int,
)
    requires
        0 <= n <= rules.len(),
    ensures
        decision(unexpired_prefix(rules, now, n), tool, path, now) == decision(rules.take(n), tool, path, now),
    decreases n,
{
    if n == 0 {
        assert(rules.take(0) =~= Seq::<EnhancedPermissionRule>::empty());
    } else {
        lemma_unexpired_prefix_decision(rules, tool, path, now, n - 1);
        let x = rules[n - 1];
        let prev = unexpired_prefix(rules, now, n - 1);
        assert(rules.take(n) =~= rules.take(n - 1) + seq![x]);
        lemma_decision_concat(rules.take(n - 1), seq![x], tool, path, now);
        lemma_decision_single(x, tool, path, now);
        if !rule_expired(x, now) {
            assert(prev.push(x) =~= prev + seq![x]);
            lemma_decision_concat(prev, seq![x], tool, path, now);
        }
    }
}

/// Law: removing the rules expired at `now` does not change any
/// evaluation made at `now`.
pub proof fn law_remove_expired_keeps_evaluation(
    rules: Seq<EnhancedPermissionRule>,
    default_action: RuleAction,
    tool: Seq<char>,
    path: Option<Seq<char>>,
    now: u64,
)
    ensures
        evaluate_spec(unexpired(rules, now), default_action, tool, path, now)
            == evaluate_spec(rules, default_action, tool, path, now),
{
    lemma_unexpired_prefix_decision(rules, tool, path, now, rules.len() as int);
    assert(rules.take(rules.len() as int) =~= rules);
}

/// Lemma: the evaluation is the decision, or else the default.
pub proof fn lemma_evaluate_is_decision(
    rules: Seq<EnhancedPermissionRule>,
    default_action: RuleAction,
    tool: Seq<char>,
    path: Option<Seq<char>>,
    now: u64,
)
    ensures
        evaluate_spec(rules, default_action, tool, path, now) == match decision(rules, tool, path, now) {
            Some(a) => a,
            None => default_action,
        },
{
}

} // verus!
