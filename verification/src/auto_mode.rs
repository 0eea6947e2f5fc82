//! Heuristic risk classification for auto-mode: [`RiskLevel`],
//! [`AutoModeClassifier`], and [`auto_mode_decision`], which turns a
//! classification plus a policy into a [`PermissionDecision`].
//!
//! Paths are read with Unix conventions (`/` separates components).
use vstd::prelude::*;
use crate::policy::{any_filter_matches, PermissionDecision, PermissionPolicy};
use crate::rule_parser::{arg_str, find_sub, find_sub_exec, ToolArgs};
use crate::text::{chars_contain, chars_eq, chars_of, chars_start_with, concat_str, join_chars, joined_path, pieces_from, split_char, starts_with};

verus! {

/// Risk level for a tool invocation, used by auto-mode.
#[derive(Debug, Clone, Copy, PartialEq, Eq, Structural)]
pub enum RiskLevel {
    /// Read-only, no side effects (auto-approve).
    Safe,
    /// Side effects but recoverable (prompt the user).
    Risky,
    /// Destructive or irreversible (deny).
    Dangerous,
}

/// Heuristic risk classifier for auto-mode permission decisions.
pub struct AutoModeClassifier;

/// Command fragments that make a shell command dangerous.
pub open spec fn dangerous_patterns() -> Seq<Seq<char>> {
    seq!["rm -rf"@, "rm -fr"@, "sudo "@, "| sh"@, "|sh"@, "| bash"@, "|bash"@, "chmod "@, "chown "@, "eval "@, "mkfs"@, "> /dev/"@, "dd if="@, ":(){ :|:& };:"@, "git push --force"@, "git push -f"@, "git reset --hard"@, "git clean -f"@, "DROP TABLE"@, "DROP DATABASE"@, "TRUNCATE "@, "kill -9"@, "pkill "@]
}

/// Whether `p` occurs in `s`.
pub open spec fn has_sub(s: Seq<char>, p: Seq<char>) -> bool {
    find_sub(s, p, 0) is Some
}

/// Whether a shell command holds a dangerous fragment.
pub open spec fn dangerous_command(cmd: Seq<char>) -> bool {
    exists|k: int| 0 <= k < dangerous_patterns().len() && has_sub(cmd, #[trigger] dangerous_patterns()[k])
}

/// The components of a path, as `std::path::Path::components` gives them
/// on Unix: `/` for the root, `.` for a leading current-directory
/// component, then the names between separators, empty names and other
/// `.` components dropped.
pub open spec fn path_components(s: Seq<char>) -> Seq<Seq<char>> {
    let ps = pieces_from(s, '/', 0);
    let head = if s.len() > 0 && s[0] == '/' {
        seq!["/"@]
    } else if ps.len() > 0 && ps[0] == "."@ {
        seq!["."@]
    } else {
        Seq::empty()
    };
    head + ps.filter(|p: Seq<char>| p.len() > 0 && p != "."@)
}

/// Whether `path` lies inside `base`: no parent traversal or shell
/// metacharacters, and the components of the joined path start with those
/// of `base`.
pub open spec fn path_within(path: Seq<char>, base: Seq<char>) -> bool {
    &&& !has_sub(path, ".."@)
    &&& !path.contains('*') && !path.contains('$') && !path.contains('~') && !path.contains('`')
    &&& path_components(base).is_prefix_of(path_components(joined_path(base, path)))
}

/// The first of the `file_path`, `path` and `notebook_path` arguments that
/// holds a string.
pub open spec fn file_target(args: ToolArgs) -> Option<Seq<char>> {
    if arg_str(args, "file_path"@) is Some {
        arg_str(args, "file_path"@)
    } else if arg_str(args, "path"@) is Some {
        arg_str(args, "path"@)
    } else {
        arg_str(args, "notebook_path"@)
    }
}

/// The command argument, empty when it is missing or not a string.
pub open spec fn command_text(args: ToolArgs) -> Seq<char> {
    match arg_str(args, "command"@) {
        Some(c) => c,
        None => Seq::empty(),
    }
}

/// The risk of an invocation: read-only tools are safe; a shell command is
/// dangerous when it holds a dangerous fragment and safe otherwise; MCP
/// tools are risky; a file tool is safe inside the working directory and
/// risky outside it; anything else is risky.
pub open spec fn risk_of(tool: Seq<char>, read_only: bool, args: ToolArgs, wd: Seq<char>) -> RiskLevel {
    if read_only {
        RiskLevel::Safe
    } else if command_text(args).len() > 0 {
        if dangerous_command(command_text(args)) {
            RiskLevel::Dangerous
        } else {
            RiskLevel::Safe
        }
    } else if starts_with(tool, "mcp__"@) {
        RiskLevel::Risky
    } else {
        match file_target(args) {
            Some(p) => if path_within(p, wd) {
                RiskLevel::Safe
            } else {
                RiskLevel::Risky
            },
            None => RiskLevel::Risky,
        }
    }
}

/// The dangerous fragments.
fn patterns() -> (r: Vec<&'static str>)
    ensures
        r@.map_values(|p: &'static str| p@) == dangerous_patterns(),
{
    let mut r: Vec<&'static str> = Vec::new();
    r.push("rm -rf");
    r.push("rm -fr");
    r.push("sudo ");
    r.push("| sh");
    r.push("|sh");
    r.push("| bash");
    r.push("|bash");
    r.push("chmod ");
    r.push("chown ");
    r.push("eval ");
    r.push("mkfs");
    r.push("> /dev/");
    r.push("dd if=");
    r.push(":(){ :|:& };:");
    r.push("git push --force");
    r.push("git push -f");
    r.push("git reset --hard");
    r.push("git clean -f");
    r.push("DROP TABLE");
    r.push("DROP DATABASE");
    r.push("TRUNCATE ");
    r.push("kill -9");
    r.push("pkill ");
    proof {
        assert(r@.map_values(|p: &'static str| p@) =~= dangerous_patterns());
    }
    r
}

/// Whether `p` occurs in `s`.
pub(crate) fn contains_str(s: &[char], p: &str) -> (r: bool)
    ensures
        r == has_sub(s@, p@),
{
    let pc = chars_of(p);
    find_sub_exec(s, pc.as_slice()).is_some()
}

/// Whether a shell command holds a dangerous fragment.
fn is_dangerous_command(cmd: &[char]) -> (r: bool)
    ensures
        r == dangerous_command(cmd@),
{
    let ps = patterns();
    let ghost pv = ps@.map_values(|p: &'static str| p@);
    let mut k: usize = 0;
    while k < ps.len()
        invariant
            k <= ps.len(),
            pv == ps@.map_values(|p: &'static str| p@),
            pv == dangerous_patterns(),
            forall|j: int| 0 <= j < k ==> !has_sub(cmd@, #[trigger] pv[j]),
        decreases ps.len() - k,
    {
        assert(pv[k as int] == ps@[k as int]@);
        if contains_str(cmd, ps[k]) {
            return true;
        }
        k += 1;
    }
    false
}

/// The components of a path (see [`path_components`]).
pub(crate) fn components_of(s: &[char]) -> (r: Vec<Vec<char>>)
    ensures
        r@.map_values(|p: Vec<char>| p@) == path_components(s@),
{
    let ps = split_char(s, '/');
    let ghost pv = ps@.map_values(|p: Vec<char>| p@);
    let dot = chars_of(".");
    proof {
        reveal_strlit(".");
        reveal_strlit("/");
    }
    let mut out: Vec<Vec<char>> = Vec::new();
    if s.len() > 0 && s[0] == '/' {
        out.push(chars_of("/"));
    } else if ps.len() > 0 && chars_eq(ps[0].as_slice(), dot.as_slice()) {
        out.push(chars_of("."));
    }
    let ghost head = out@.map_values(|p: Vec<char>| p@);
    proof {
        if ps.len() > 0 {
            assert(pv[0] == ps@[0]@);
        }
        if s.len() > 0 && s[0] == '/' {
            assert(head =~= seq!["/"@]);
        } else if ps.len() > 0 && ps@[0]@ == "."@ {
            assert(head =~= seq!["."@]);
        } else {
            assert(head =~= Seq::<Seq<char>>::empty());
        }
    }
    let ghost keep = |p: Seq<char>| p.len() > 0 && p != "."@;
    let mut i: usize = 0;
    while i < ps.len()
        invariant
            i <= ps.len(),
            pv == ps@.map_values(|p: Vec<char>| p@),
            dot@ == "."@,
            keep == (|p: Seq<char>| p.len() > 0 && p != "."@),
            out@.map_values(|p: Vec<char>| p@) == head + pv.take(i as int).filter(keep),
        decreases ps.len() - i,
    {
        proof {
            assert(pv.take(i + 1) =~= pv.take(i as int).push(pv[i as int]));
            pv.take(i as int).lemma_filter_push(pv[i as int], keep);
            assert(pv[i as int] == ps@[i as int]@);
        }
        if ps[i].len() > 0 && !chars_eq(ps[i].as_slice(), dot.as_slice()) {
            let piece = ps[i].clone();
            let ghost before = out@;
            out.push(piece);
            proof {
                assert(out@.map_values(|p: Vec<char>| p@) =~= before.map_values(|p: Vec<char>| p@).push(pv[i as int]));
            }
        }
        i += 1;
    }
    proof {
        assert(pv.take(i as int) =~= pv);
    }
    out
}

/// Whether `path` lies inside `base` (see [`path_within`]).
fn is_within(path: &[char], base: &[char]) -> (r: bool)
    ensures
        r == path_within(path@, base@),
{
    if contains_str(path, "..") || chars_contain(path, '*') || chars_contain(path, '$') || chars_contain(path, '~')
        || chars_contain(path, '`') {
        return false;
    }
    let joined = join_chars(base, path);
    let bc = components_of(base);
    let rc = components_of(joined.as_slice());
    is_prefix_seq(&bc, &rc)
}

/// Whether the component list `a` starts the component list `b`.
fn is_prefix_seq(a: &Vec<Vec<char>>, b: &Vec<Vec<char>>) -> (r: bool)
    ensures
        r == a@.map_values(|p: Vec<char>| p@).is_prefix_of(b@.map_values(|p: Vec<char>| p@)),
{
    let ghost av = a@.map_values(|p: Vec<char>| p@);
    let ghost bv = b@.map_values(|p: Vec<char>| p@);
    if a.len() > b.len() {
        return false;
    }
    let mut k: usize = 0;
    while k < a.len()
        invariant
            k <= a.len() <= b.len(),
            av == a@.map_values(|p: Vec<char>| p@),
            bv == b@.map_values(|p: Vec<char>| p@),
            forall|j: int| 0 <= j < k ==> av[j] == bv[j],
        decreases a.len() - k,
    {
        assert(av[k as int] == a@[k as int]@ && bv[k as int] == b@[k as int]@);
        if !chars_eq(a[k].as_slice(), b[k].as_slice()) {
            proof {
                if av.is_prefix_of(bv) {
                    assert(bv.subrange(0, av.len() as int)[k as int] == bv[k as int]);
                }
            }
            return false;
        }
        k += 1;
    }
    proof {
        assert(av =~= bv.subrange(0, av.len() as int));
    }
    true
}

/// The first file-path argument that holds a string.
fn file_target_path(args: &ToolArgs) -> (r: Option<&String>)
    ensures
        match file_target(*args) {
            Some(p) => r matches Some(s) && s@ == p,
            None => r is None,
        },
{
    if let Some(p) = args.get_str("file_path") {
        return Some(p);
    }
    if let Some(p) = args.get_str("path") {
        return Some(p);
    }
    args.get_str("notebook_path")
}

impl AutoModeClassifier {
    /// Classify the risk of a tool invocation (see [`risk_of`]).
    ///
    /// `working_dir` scopes the safe-write heuristic: file tools writing
    /// inside it are safe, outside it risky.
    pub fn classify(tool_name: &str, is_read_only: bool, input: &ToolArgs, working_dir: &str) -> (r: RiskLevel)
        ensures
            r == risk_of(tool_name@, is_read_only, *input, working_dir@),
    {
        if is_read_only {
            return RiskLevel::Safe;
        }
        let command: Vec<char> = match input.get_str("command") {
            Some(c) => chars_of(c.as_str()),
            None => Vec::new(),
        };
        proof {
            if arg_str(*input, "command"@) is None {
                assert(command@ =~= Seq::<char>::empty());
            }
        }
        if command.len() > 0 {
            if is_dangerous_command(command.as_slice()) {
                return RiskLevel::Dangerous;
            }
            return RiskLevel::Safe;
        }
        let name = chars_of(tool_name);
        let mcp = chars_of("mcp__");
        if chars_start_with(name.as_slice(), mcp.as_slice()) {
            return RiskLevel::Risky;
        }
        match file_target_path(input) {
            Some(p) => {
                let pc = chars_of(p.as_str());
                let wd = chars_of(working_dir);
                if is_within(pc.as_slice(), wd.as_slice()) {
                    RiskLevel::Safe
                } else {
                    RiskLevel::Risky
                }
            },
            None => RiskLevel::Risky,
        }
    }
}

/// The decision of auto-mode: the deny list first, then the allow list,
/// then the risk: safe invocations are allowed, risky ones asked about,
/// dangerous ones denied.
pub open spec fn auto_decision_is(
    d: PermissionDecision,
    policy: PermissionPolicy,
    tool: Seq<char>,
    read_only: bool,
    args: ToolArgs,
    wd: Seq<char>,
) -> bool {
    if any_filter_matches(policy.denied_tools@, tool, args) {
        d matches PermissionDecision::Deny(m) && m@ == "tool '"@ + tool + "' is denied by policy"@
    } else if policy.allowed_tools@.len() > 0 && !any_filter_matches(policy.allowed_tools@, tool, args) {
        d matches PermissionDecision::Deny(m) && m@ == "tool '"@ + tool + "' is not in the allowed tools list"@
    } else {
        match risk_of(tool, read_only, args, wd) {
            RiskLevel::Safe => d is Allow,
            RiskLevel::Risky => d matches PermissionDecision::AskUser(m) && m@ == "Auto-mode: '"@ + tool
                + "' classified as risky"@,
            RiskLevel::Dangerous => d matches PermissionDecision::Deny(m) && m@ == "Auto-mode: '"@ + tool
                + "' classified as dangerous and blocked"@,
        }
    }
}

/// Make a permission decision in auto-mode. The deny list is checked
/// first and wins over every classification; the allow list still applies.
pub fn auto_mode_decision(
    policy: &PermissionPolicy,
    tool_name: &str,
    is_read_only: bool,
    input: &ToolArgs,
    working_dir: &str,
) -> (r: PermissionDecision)
    ensures
        auto_decision_is(r, *policy, tool_name@, is_read_only, *input, working_dir@),
{
    if policy.is_denied_by_filter(tool_name, input) {
        let a = concat_str("tool '", tool_name);
        return PermissionDecision::Deny(concat_str(a.as_str(), "' is denied by policy"));
    }
    if policy.allowed_tools.len() > 0 && !policy.is_allowed_by_whitelist(tool_name, input) {
        let a = concat_str("tool '", tool_name);
        return PermissionDecision::Deny(concat_str(a.as_str(), "' is not in the allowed tools list"));
    }
    let risk = AutoModeClassifier::classify(tool_name, is_read_only, input, working_dir);
    match risk {
        RiskLevel::Safe => PermissionDecision::Allow,
        RiskLevel::Risky => {
            let a = concat_str("Auto-mode: '", tool_name);
            PermissionDecision::AskUser(concat_str(a.as_str(), "' classified as risky"))
        },
        RiskLevel::Dangerous => {
            let a = concat_str("Auto-mode: '", tool_name);
            PermissionDecision::Deny(concat_str(a.as_str(), "' classified as dangerous and blocked"))
        },
    }
}

/// Law: the deny list wins. Whatever the classification, an invocation
/// that a deny filter matches is denied.
pub proof fn law_deny_list_wins(d: PermissionDecision, policy: PermissionPolicy, tool: Seq<char>, read_only: bool, args: ToolArgs, wd: Seq<char>)
    requires
        auto_decision_is(d, policy, tool, read_only, args, wd),
        any_filter_matches(policy.denied_tools@, tool, args),
    ensures
        d is Deny,
{
}

/// Law: auto-mode never allows what it classifies as dangerous, and never
/// allows an invocation outside a non-empty allow list.
pub proof fn law_auto_mode_never_allows_dangerous(d: PermissionDecision, policy: PermissionPolicy, tool: Seq<char>, read_only: bool, args: ToolArgs, wd: Seq<char>)
    requires
        auto_decision_is(d, policy, tool, read_only, args, wd),
    ensures
        risk_of(tool, read_only, args, wd) == RiskLevel::Dangerous ==> !(d is Allow),
        policy.allowed_tools@.len() > 0 && !any_filter_matches(policy.allowed_tools@, tool, args) ==> !(d is Allow),
{
}

/// Law: the classification in outline. Read-only tools are safe; a
/// non-empty shell command is dangerous exactly when it holds a dangerous
/// fragment, and safe otherwise; without a command, MCP tools are risky, a
/// file target holding `..` or one of `*`, `$`, `~`, `` ` `` is risky, and an
/// invocation with no file target is risky.
pub proof fn law_classify_outline(tool: Seq<char>, read_only: bool, args: ToolArgs, wd: Seq<char>)
    ensures
        read_only ==> risk_of(tool, read_only, args, wd) == RiskLevel::Safe,
        !read_only && command_text(args).len() > 0 ==> (risk_of(tool, read_only, args, wd) == if dangerous_command(
            command_text(args),
        ) {
            RiskLevel::Dangerous
        } else {
            RiskLevel::Safe
        }),
        !read_only && command_text(args).len() == 0 && starts_with(tool, "mcp__"@) ==> risk_of(
            tool,
            read_only,
            args,
            wd,
        ) == RiskLevel::Risky,
        !read_only && command_text(args).len() == 0 && (file_target(args) matches Some(p) && (has_sub(p, ".."@)
            || p.contains('*') || p.contains('$') || p.contains('~') || p.contains('`'))) ==> risk_of(
            tool,
            read_only,
            args,
            wd,
        ) == RiskLevel::Risky,
        !read_only && command_text(args).len() == 0 && file_target(args) is None ==> risk_of(
            tool,
            read_only,
            args,
            wd,
        ) == RiskLevel::Risky,
{
}

} // verus!
