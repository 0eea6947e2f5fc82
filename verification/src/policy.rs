//! The user-configured whitelist / blacklist of tools, the outcome of a
//! permission check, and resolution of the tool-filter command-line options.
use vstd::prelude::*;

use crate::permission_filter::{filter_glob_matches, glob_match, tool_name_matches_pattern};
use crate::rule_parser::{matches_tool_filter, tool_filter_matches, ToolArgs};
use crate::text::{chars_eq, chars_of, is_ws, string_of, sub_chars, trim, trim_chars};

verus! {

/// How tool executions are gated.
#[derive(Debug, Clone, Copy, PartialEq, Eq, Hash, Structural)]
pub enum PermissionMode {
    /// Ask for anything not explicitly allowed.
    Default,
    /// Accept file edits without asking.
    AcceptEdits,
    /// Trust the current project.
    TrustProject,
    /// Let a classifier decide.
    Auto,
    /// Planning only; no execution.
    Plan,
    /// Skip permission checks.
    Dangerously,
}

/// Result of a permission check for a tool invocation.
#[derive(Debug, Clone, PartialEq, Eq)]
pub enum PermissionDecision {
    /// Allowed without user interaction.
    Allow,
    /// Denied, with the reason.
    Deny(String),
    /// Needs user confirmation, with the prompt message.
    AskUser(String),
}

/// The whitelist and blacklist of tools, with the permission mode.
#[derive(Debug, Clone)]
pub struct PermissionPolicy {
    /// The permission mode.
    pub mode: PermissionMode,
    /// When non-empty, only tools matching one of these are permitted.
    pub allowed_tools: Vec<String>,
    /// Tools matching any of these globs are denied.
    pub denied_tools: Vec<String>,
}

/// Whether some pattern of the list matches the tool name.
pub open spec fn any_glob_matches(patterns: Seq<String>, tool: Seq<char>) -> bool {
    exists|k: int| 0 <= k < patterns.len() && filter_glob_matches(#[trigger] patterns[k]@, tool)
}

/// Whether some filter of the list matches the invocation.
pub open spec fn any_filter_matches(filters: Seq<String>, tool: Seq<char>, args: ToolArgs) -> bool {
    exists|k: int| 0 <= k < filters.len() && tool_filter_matches(#[trigger] filters[k]@, tool, args)
}

impl Default for PermissionPolicy {
    fn default() -> (r: Self)
        ensures
            r.mode == PermissionMode::Default,
            r.allowed_tools@ == Seq::<String>::empty(),
            r.denied_tools@ == Seq::<String>::empty(),
    {
        PermissionPolicy { mode: PermissionMode::Default, allowed_tools: Vec::new(), denied_tools: Vec::new() }
    }
}

impl PermissionPolicy {
    /// Whether the tool name matches any denied glob.
    pub fn is_denied(&self, tool_name: &str) -> (r: bool)
        ensures
            r == any_glob_matches(self.denied_tools@, tool_name@),
    {
        let mut k: usize = 0;
        while k < self.denied_tools.len()
            invariant
                k <= self.denied_tools.len(),
                forall|j: int| 0 <= j < k ==> !filter_glob_matches(#[trigger] self.denied_tools@[j]@, tool_name@),
            decreases self.denied_tools.len() - k,
        {
            if glob_match(self.denied_tools[k].as_str(), tool_name) {
                return true;
            }
            k += 1;
        }
        false
    }

    /// Whether the tool name matches any allowed glob.
    pub fn is_explicitly_allowed(&self, tool_name: &str) -> (r: bool)
        ensures
            r == any_glob_matches(self.allowed_tools@, tool_name@),
    {
        let mut k: usize = 0;
        while k < self.allowed_tools.len()
            invariant
                k <= self.allowed_tools.len(),
                forall|j: int| 0 <= j < k ==> !filter_glob_matches(#[trigger] self.allowed_tools@[j]@, tool_name@),
            decreases self.allowed_tools.len() - k,
        {
            if tool_name_matches_pattern(self.allowed_tools[k].as_str(), tool_name) {
                return true;
            }
            k += 1;
        }
        false
    }

    /// Whether the invocation passes the whitelist: always when the
    /// whitelist is empty, else when some allowed filter matches it.
    pub fn is_allowed_by_whitelist(&self, tool_name: &str, tool_input: &ToolArgs) -> (r: bool)
        ensures
            r == (self.allowed_tools@.len() == 0 || any_filter_matches(self.allowed_tools@, tool_name@, *tool_input)),
    {
        if self.allowed_tools.len() == 0 {
            return true;
        }
        any_filter(&self.allowed_tools, tool_name, tool_input)
    }

    /// Whether some denied filter matches the invocation.
    pub fn is_denied_by_filter(&self, tool_name: &str, tool_input: &ToolArgs) -> (r: bool)
        ensures
            r == any_filter_matches(self.denied_tools@, tool_name@, *tool_input),
    {
        any_filter(&self.denied_tools, tool_name, tool_input)
    }
}

/// Whether some filter of the list matches the invocation.
fn any_filter(filters: &Vec<String>, tool_name: &str, tool_input: &ToolArgs) -> (r: bool)
    ensures
        r == any_filter_matches(filters@, tool_name@, *tool_input),
{
    let mut k: usize = 0;
    while k < filters.len()
        invariant
            k <= filters.len(),
            forall|j: int| 0 <= j < k ==> !tool_filter_matches(#[trigger] filters@[j]@, tool_name@, *tool_input),
        decreases filters.len() - k,
    {
        if matches_tool_filter(filters[k].as_str(), tool_name, tool_input) {
            return true;
        }
        k += 1;
    }
    false
}

/// Law: with an empty blacklist no tool is denied, and with an empty
/// whitelist every invocation passes it.
pub proof fn law_empty_lists_restrict_nothing(tool: Seq<char>, args: ToolArgs)
    ensures
        !any_glob_matches(Seq::<String>::empty(), tool),
        !any_filter_matches(Seq::<String>::empty(), tool, args),
{
}

// ── Tool-filter options ───────────────────────────────────────────

/// The pieces of `s` between commas, scanning from `i`; `cur` is the piece
/// being built and `acc` the finished ones.
pub open spec fn split_commas(s: Seq<char>, i: int, cur: Seq<char>, acc: Seq<Seq<char>>) -> Seq<Seq<char>>
    decreases s.len() - i,
{
    if i < 0 || i >= s.len() {
        acc.push(cur)
    } else if s[i] == ',' {
        split_commas(s, i + 1, Seq::empty(), acc.push(cur))
    } else {
        split_commas(s, i + 1, cur.push(s[i]), acc)
    }
}

/// The trimmed pieces of the list that are non-empty, in order.
pub open spec fn nonempty_trimmed(pieces: Seq<Seq<char>>) -> Seq<Seq<char>>
    decreases pieces.len(),
{
    if pieces.len() == 0 {
        Seq::empty()
    } else {
        let rest = nonempty_trimmed(pieces.drop_last());
        let t = trim(pieces.last());
        if t.len() == 0 {
            rest
        } else {
            rest.push(t)
        }
    }
}

/// The tool names a comma-separated `--tools` list names.
pub open spec fn tool_list(s: Seq<char>) -> Seq<Seq<char>> {
    nonempty_trimmed(split_commas(s, 0, Seq::empty(), Seq::empty()))
}

/// The views of a list of strings.
pub open spec fn views(v: Seq<String>) -> Seq<Seq<char>> {
    v.map_values(|s: String| s@)
}

/// Copies of the strings of a slice.
fn copy_strings(v: &[String]) -> (r: Vec<String>)
    ensures
        r@ == v@,
{
    let mut r: Vec<String> = Vec::new();
    let mut i: usize = 0;
    while i < v.len()
        invariant
            i <= v.len(),
            r@ == v@.subrange(0, i as int),
        decreases v.len() - i,
    {
        r.push(v[i].clone());
        proof {
            assert(v@.subrange(0, i + 1) =~= v@.subrange(0, i as int).push(v@[i as int]));
        }
        i += 1;
    }
    proof {
        assert(v@.subrange(0, i as int) =~= v@);
    }
    r
}

/// Splits a trimmed `--tools` argument into its non-empty trimmed names.
fn split_tool_list(s: &[char]) -> (r: Vec<String>)
    ensures
        views(r@) == tool_list(s@),
{
    let mut pieces: Vec<Vec<char>> = Vec::new();
    let mut cur: Vec<char> = Vec::new();
    let mut i: usize = 0;
    proof {
        assert(pieces@.map_values(|v: Vec<char>| v@) =~= Seq::<Seq<char>>::empty());
        assert(cur@ =~= Seq::<char>::empty());
    }
    while i < s.len()
        invariant
            i <= s.len(),
            split_commas(s@, 0, Seq::empty(), Seq::empty())
                == split_commas(s@, i as int, cur@, pieces@.map_values(|v: Vec<char>| v@)),
        decreases s.len() - i,
    {
        if s[i] == ',' {
            let ghost before = pieces@.map_values(|v: Vec<char>| v@);
            let done = cur;
            pieces.push(done);
            cur = Vec::new();
            proof {
                assert(pieces@.map_values(|v: Vec<char>| v@) =~= before.push(done@));
                assert(cur@ =~= Seq::<char>::empty());
            }
        } else {
            cur.push(s[i]);
        }
        i += 1;
    }
    let ghost before = pieces@.map_values(|v: Vec<char>| v@);
    pieces.push(cur);
    proof {
        assert(pieces@.map_values(|v: Vec<char>| v@) =~= before.push(cur@));
    }
    let ghost all = pieces@.map_values(|v: Vec<char>| v@);
    let mut names: Vec<String> = Vec::new();
    let mut k: usize = 0;
    while k < pieces.len()
        invariant
            k <= pieces.len(),
            all == pieces@.map_values(|v: Vec<char>| v@),
            views(names@) == nonempty_trimmed(all.take(k as int)),
        decreases pieces.len() - k,
    {
        let t = trim_chars(pieces[k].as_slice());
        proof {
            assert(all.take(k + 1).drop_last() =~= all.take(k as int));
            assert(all.take(k + 1).last() == pieces@[k as int]@);
        }
        if t.len() != 0 {
            let ghost before = views(names@);
            names.push(string_of(t.as_slice()));
            proof {
                assert(views(names@) =~= before.push(t@));
            }
        }
        k += 1;
    }
    proof {
        assert(all.take(k as int) =~= all);
    }
    names
}

/// The effective (allowed, denied) lists for a `--tools` argument.
pub open spec fn resolved_filters(
    allowed: Seq<Seq<char>>,
    disallowed: Seq<Seq<char>>,
    tools: Option<Seq<char>>,
) -> (Seq<Seq<char>>, Seq<Seq<char>>) {
    match tools {
        None => (allowed, disallowed),
        Some(t) => {
            let tr = trim(t);
            if tr.len() == 0 {
                (allowed, seq!["*"@])
            } else if tr == "default"@ {
                (allowed, disallowed)
            } else {
                (tool_list(tr), disallowed)
            }
        },
    }
}

/// Resolves `--allowed-tools`, `--disallowed-tools` and `--tools` into the
/// effective allowed and denied lists: `--tools ""` denies everything
/// (`["*"]`), `--tools default` changes nothing, and a comma-separated
/// list replaces the allowed list by its non-empty trimmed names.
pub fn resolve_tool_filters(allowed: &[String], disallowed: &[String], tools: Option<&str>) -> (r: (
    Vec<String>,
    Vec<String>,
))
    ensures
        (views(r.0@), views(r.1@)) == resolved_filters(
            views(allowed@),
            views(disallowed@),
            match tools {
                Some(t) => Some(t@),
                None => None,
            },
        ),
{
    let mut effective_allowed = copy_strings(allowed);
    let mut effective_denied = copy_strings(disallowed);
    if let Some(tools_arg) = tools {
        let all = chars_of(tools_arg);
        let trimmed = trim_chars(all.as_slice());
        let word = chars_of("default");
        if trimmed.len() == 0 {
            let mut d: Vec<String> = Vec::new();
            d.push("*".to_owned());
            effective_denied = d;
            proof {
                assert(views(effective_denied@) =~= seq!["*"@]);
            }
        } else if chars_eq(trimmed.as_slice(), word.as_slice()) {
        } else {
            effective_allowed = split_tool_list(trimmed.as_slice());
        }
    }
    (effective_allowed, effective_denied)
}

} // verus!
