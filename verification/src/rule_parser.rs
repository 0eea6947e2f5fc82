//! Permission rule grammar: `Tool`, `Tool(*)`, `Bash(git *)`,
//! `Bash(npm run test:*)`, `Read(src/**)`, `WebFetch(domain:x)`,
//! `Skill(name)`; matching rules against tool invocations; and bash
//! command patterns.
use vstd::prelude::*;

use crate::glob::find_char;
use crate::permission_filter::{filter_glob_matches, glob_match};
use crate::text::{
    chars_contain, chars_end_with, chars_eq, chars_of, chars_start_with, ends_with, extend_chars,
    is_whitespace, is_ws, starts_with, string_of, sub_chars, trim, trim_chars, trim_end, trim_end_chars,
};

verus! {

// ── Types ─────────────────────────────────────────────────────────

/// A rule string that could not be parsed.
#[derive(Debug, Clone, PartialEq, Eq)]
pub struct ParseError {
    /// The (trimmed) input that failed to parse.
    pub input: String,
    /// What is wrong with it.
    pub reason: String,
}

impl ParseError {
    /// `failed to parse rule '<input>': <reason>`.
    pub fn to_string(&self) -> (r: String)
        ensures
            r@ == "failed to parse rule '"@ + self.input@ + "': "@ + self.reason@,
    {
        let mut v = chars_of("failed to parse rule '");
        let a = chars_of(self.input.as_str());
        extend_chars(&mut v, a.as_slice());
        let b = chars_of("': ");
        extend_chars(&mut v, b.as_slice());
        let c = chars_of(self.reason.as_str());
        extend_chars(&mut v, c.as_slice());
        string_of(v.as_slice())
    }
}

/// A parsed rule: a tool-name glob and an optional argument matcher.
#[derive(Debug, Clone, PartialEq, Eq)]
pub struct PermissionRule {
    /// Tool name or glob (e.g. `"Bash"`, `"mcp__*"`, `"*"`).
    pub tool_name: String,
    /// The argument matcher, when the rule has parentheses.
    pub content: Option<RuleContent>,
}

/// The argument matcher of a rule.
#[derive(Debug, Clone, PartialEq, Eq)]
pub enum RuleContent {
    /// A named string argument matched by a glob.
    Glob { key: String, pattern: String },
    /// A named string argument matched exactly.
    Exact { key: String, value: String },
    /// One of the path-carrying arguments matched by a glob.
    Path { pattern: String },
    /// The host of the `url` argument matched against a domain.
    Domain { domain: String },
    /// Any arguments.
    Any,
}

/// A bash command pattern: the command and an optional argument glob.
#[derive(Debug, Clone, PartialEq, Eq)]
pub struct BashPattern {
    /// The base command (e.g. `"git"`).
    pub command: String,
    /// The rest of the pattern, when non-empty.
    pub args_glob: Option<String>,
}

/// One argument of a tool invocation: a key and its value when the value
/// is a string (`None` for any other kind of value).
#[derive(Debug, Clone, PartialEq, Eq)]
pub struct ToolArg {
    /// The argument name.
    pub key: String,
    /// The value, when it is a string.
    pub value: Option<String>,
}

/// The arguments of a tool invocation, as an object of named values.
#[derive(Debug, Clone, PartialEq, Eq)]
pub struct ToolArgs {
    /// The arguments, in order; the first entry with a key is its value.
    pub entries: Vec<ToolArg>,
}

/// The string value of the first argument named `key`, if it is a string.
pub open spec fn arg_str_from(entries: Seq<ToolArg>, key: Seq<char>, i: int) -> Option<Seq<char>>
    decreases entries.len() - i,
{
    if i < 0 || i >= entries.len() {
        None
    } else if entries[i].key@ == key {
        match entries[i].value {
            Some(v) => Some(v@),
            None => None,
        }
    } else {
        arg_str_from(entries, key, i + 1)
    }
}

/// The string value of the argument named `key`, if any.
pub open spec fn arg_str(args: ToolArgs, key: Seq<char>) -> Option<Seq<char>> {
    arg_str_from(args.entries@, key, 0)
}

impl ToolArgs {
    /// No arguments.
    pub fn new() -> (r: Self)
        ensures
            r.entries@ == Seq::<ToolArg>::empty(),
    {
        ToolArgs { entries: Vec::new() }
    }

    /// Adds a string argument.
    pub fn with_str(self, key: &str, value: &str) -> (r: Self)
        ensures
            r.entries@.len() == self.entries@.len() + 1,
            r.entries@.subrange(0, self.entries@.len() as int) == self.entries@,
            r.entries@.last().key@ == key@,
            r.entries@.last().value matches Some(v) && v@ == value@,
    {
        let mut entries = self.entries;
        entries.push(ToolArg { key: key.to_owned(), value: Some(value.to_owned()) });
        let r = ToolArgs { entries };
        proof {
            assert(r.entries@.subrange(0, self.entries@.len() as int) =~= self.entries@);
        }
        r
    }

    /// Adds an argument whose value is not a string.
    pub fn with_non_string(self, key: &str) -> (r: Self)
        ensures
            r.entries@.len() == self.entries@.len() + 1,
            r.entries@.subrange(0, self.entries@.len() as int) == self.entries@,
            r.entries@.last().key@ == key@,
            r.entries@.last().value is None,
    {
        let mut entries = self.entries;
        entries.push(ToolArg { key: key.to_owned(), value: None });
        let r = ToolArgs { entries };
        proof {
            assert(r.entries@.subrange(0, self.entries@.len() as int) =~= self.entries@);
        }
        r
    }

    /// The string value of the argument named `key`, if any.
    pub fn get_str(&self, key: &str) -> (r: Option<&String>)
        ensures
            match arg_str(*self, key@) {
                Some(v) => r matches Some(s) && s@ == v,
                None => r is None,
            },
    {
        let mut i: usize = 0;
        while i < self.entries.len()
            invariant
                i <= self.entries.len(),
                arg_str(*self, key@) == arg_str_from(self.entries@, key@, i as int),
            decreases self.entries.len() - i,
        {
            let e = &self.entries[i];
            if crate::text::str_eq(e.key.as_str(), key) {
                return match &e.value {
                    Some(v) => Some(v),
                    None => None,
                };
            }
            i += 1;
        }
        None
    }
}

// ── Parsing (specification) ───────────────────────────────────────

/// Tools whose specifier is a command pattern.
pub open spec fn is_command_tool(tool: Seq<char>) -> bool {
    tool == "Bash"@ || tool == "PowerShell"@
}

/// Tools whose specifier is a file-path glob.
pub open spec fn is_path_tool(tool: Seq<char>) -> bool {
    ||| tool == "Read"@
    ||| tool == "Write"@
    ||| tool == "Edit"@
    ||| tool == "MultiEdit"@
    ||| tool == "NotebookEdit"@
    ||| tool == "Glob"@
    ||| tool == "Grep"@
}

/// Tools whose specifier may be a `domain:` pattern.
pub open spec fn is_web_tool(tool: Seq<char>) -> bool {
    tool == "WebFetch"@ || tool == "WebSearch"@
}

/// The `:*` suffix of a command prefix pattern.
pub open spec fn colon_star() -> Seq<char> {
    seq![':', '*']
}

/// The content a command specifier `c` (already trimmed) parses to; an
/// explicit `command:` key in front of it is dropped first.
pub open spec fn command_content_is(rc: RuleContent, c: Seq<char>) -> bool {
    if starts_with(c, "command:"@) {
        bare_command_content_is(rc, c.skip(8))
    } else {
        bare_command_content_is(rc, c)
    }
}

/// The content a command specifier without its `command:` key parses to:
/// a `:*` suffix makes a prefix glob, wildcards a glob, anything else an
/// exact command.
pub open spec fn bare_command_content_is(rc: RuleContent, c: Seq<char>) -> bool {
    if ends_with(c, colon_star()) {
        rc matches RuleContent::Glob { key, pattern } && key@ == "command"@
            && pattern@ == trim_end(c.subrange(0, c.len() - 2)).push('*')
    } else if c.contains('*') || c.contains('?') {
        rc matches RuleContent::Glob { key, pattern } && key@ == "command"@ && pattern@ == c
    } else {
        rc matches RuleContent::Exact { key, value } && key@ == "command"@ && value@ == c
    }
}

/// Whether the specifier `raw` of `tool` parses.
pub open spec fn content_parses(tool: Seq<char>, raw: Seq<char>) -> bool {
    let c = trim(raw);
    ||| c == "*"@
    ||| is_command_tool(tool)
    ||| is_path_tool(tool)
    ||| (is_web_tool(tool) && starts_with(c, "domain:"@))
    ||| tool == "Skill"@
}

/// The content the specifier `raw` of `tool` parses to.
pub open spec fn content_is(rc: RuleContent, tool: Seq<char>, raw: Seq<char>) -> bool {
    let c = trim(raw);
    if c == "*"@ {
        rc is Any
    } else if is_command_tool(tool) {
        command_content_is(rc, c)
    } else if is_path_tool(tool) {
        rc matches RuleContent::Path { pattern } && pattern@ == c
    } else if is_web_tool(tool) && starts_with(c, "domain:"@) {
        rc matches RuleContent::Domain { domain } && domain@ == trim(c.skip("domain:"@.len() as int))
    } else if tool == "Skill"@ {
        rc matches RuleContent::Exact { key, value } && key@ == "skill"@ && value@ == c
    } else {
        false
    }
}

/// The reason given for a tool that takes no specifier.
pub open spec fn no_specifier_reason(tool: Seq<char>) -> Seq<char> {
    "tool '"@ + tool + "' does not take a rule specifier"@
}

/// What parsing `input` yields: the exact rule, or the exact error.
pub open spec fn parse_rule_result_is(input: Seq<char>, r: Result<PermissionRule, ParseError>) -> bool {
    let t = trim(input);
    if t.len() == 0 {
        r matches Err(e) && e.input@ == t && e.reason@ == "empty rule string"@
    } else {
        match find_char(t, '(', 0) {
            Some(p) => if !ends_with(t, seq![')']) {
                r matches Err(e) && e.input@ == t && e.reason@ == "opening '(' without closing ')'"@
            } else if p == 0 {
                r matches Err(e) && e.input@ == t && e.reason@ == "empty tool name before '('"@
            } else {
                let tool = t.subrange(0, p);
                let raw = t.subrange(p + 1, t.len() - 1);
                if content_parses(tool, raw) {
                    r matches Ok(rule) && rule.tool_name@ == tool && (rule.content matches Some(rc)
                        && content_is(rc, tool, raw))
                } else {
                    r matches Err(e) && e.input@ == trim(raw) && e.reason@ == no_specifier_reason(tool)
                }
            },
            None => r matches Ok(rule) && rule.tool_name@ == t && rule.content is None,
        }
    }
}

// ── Parsing ───────────────────────────────────────────────────────

/// A `ParseError` with the given input and reason.
fn parse_error(input: &[char], reason: &str) -> (e: ParseError)
    ensures
        e.input@ == input@,
        e.reason@ == reason@,
{
    ParseError { input: string_of(input), reason: reason.to_owned() }
}

/// Whether `v` spells `word`.
fn is_word(v: &[char], word: &str) -> (r: bool)
    ensures
        r == (v@ == word@),
{
    let w = chars_of(word);
    chars_eq(v, w.as_slice())
}

/// Parses a command specifier (already trimmed).
fn parse_command_specifier(c: &[char]) -> (rc: RuleContent)
    ensures
        command_content_is(rc, c@),
{
    let key = chars_of("command:");
    proof {
        reveal_strlit("command:");
    }
    if chars_start_with(c, key.as_slice()) {
        let rest = sub_chars(c, 8, c.len());
        proof {
            assert(rest@ =~= c@.skip(8));
        }
        return parse_bare_command(rest.as_slice());
    }
    parse_bare_command(c)
}

/// Parses a command specifier without its `command:` key.
fn parse_bare_command(c: &[char]) -> (rc: RuleContent)
    ensures
        bare_command_content_is(rc, c@),
{
    let suffix = vec![':', '*'];
    proof {
        assert(suffix@ =~= colon_star());
    }
    if chars_end_with(c, suffix.as_slice()) {
        let head = sub_chars(c, 0, c.len() - 2);
        let mut pat = trim_end_chars(head.as_slice());
        pat.push('*');
        return RuleContent::Glob { key: "command".to_owned(), pattern: string_of(pat.as_slice()) };
    }
    if chars_contain(c, '*') || chars_contain(c, '?') {
        return RuleContent::Glob { key: "command".to_owned(), pattern: string_of(c) };
    }
    RuleContent::Exact { key: "command".to_owned(), value: string_of(c) }
}

/// Parses the specifier inside the parentheses of a rule for `tool`.
fn parse_rule_content(tool: &[char], raw: &[char]) -> (r: Result<RuleContent, ParseError>)
    ensures
        content_parses(tool@, raw@) ==> (r matches Ok(rc) && content_is(rc, tool@, raw@)),
        !content_parses(tool@, raw@) ==> (r matches Err(e) && e.input@ == trim(raw@) && e.reason@ == no_specifier_reason(tool@)),
{
    let c = trim_chars(raw);
    if is_word(c.as_slice(), "*") {
        return Ok(RuleContent::Any);
    }
    if is_word(tool, "Bash") || is_word(tool, "PowerShell") {
        return Ok(parse_command_specifier(c.as_slice()));
    }
    if is_word(tool, "Read") || is_word(tool, "Write") || is_word(tool, "Edit") || is_word(tool, "MultiEdit")
        || is_word(tool, "NotebookEdit") || is_word(tool, "Glob") || is_word(tool, "Grep") {
        return Ok(RuleContent::Path { pattern: string_of(c.as_slice()) });
    }
    if is_word(tool, "WebFetch") || is_word(tool, "WebSearch") {
        let prefix = chars_of("domain:");
        if chars_start_with(c.as_slice(), prefix.as_slice()) {
            let rest = sub_chars(c.as_slice(), prefix.len(), c.len());
            let domain = trim_chars(rest.as_slice());
            proof {
                assert(rest@ =~= c@.skip("domain:"@.len() as int));
            }
            return Ok(RuleContent::Domain { domain: string_of(domain.as_slice()) });
        }
    }
    if is_word(tool, "Skill") {
        return Ok(RuleContent::Exact { key: "skill".to_owned(), value: string_of(c.as_slice()) });
    }
    let mut reason = chars_of("tool '");
    extend_chars(&mut reason, tool);
    let tail = chars_of("' does not take a rule specifier");
    extend_chars(&mut reason, tail.as_slice());
    Err(ParseError { input: string_of(c.as_slice()), reason: string_of(reason.as_slice()) })
}

/// Index of the first `(` (see [`find_char`]).
fn find_paren(t: &[char]) -> (r: Option<usize>)
    ensures
        match find_char(t@, '(', 0) {
            Some(i) => r == Some(i as usize),
            None => r is None,
        },
{
    let mut i: usize = 0;
    while i < t.len()
        invariant
            i <= t.len(),
            find_char(t@, '(', 0) == find_char(t@, '(', i as int),
        decreases t.len() - i,
    {
        if t[i] == '(' {
            return Some(i);
        }
        i += 1;
    }
    None
}

/// Parses a permission rule string (see [`parse_rule_result_is`]).
///
/// Fails on an empty rule, on `(` without a final `)`, on an empty tool
/// name before `(`, and on a specifier for a tool that takes none.
pub fn parse_rule(input: &str) -> (r: Result<PermissionRule, ParseError>)
    ensures
        parse_rule_result_is(input@, r),
{
    let all = chars_of(input);
    let t = trim_chars(all.as_slice());
    if t.len() == 0 {
        return Err(parse_error(t.as_slice(), "empty rule string"));
    }
    proof {
        crate::glob::lemma_find_char_bounds(t@, '(', 0);
    }
    match find_paren(t.as_slice()) {
        Some(p) => {
            let close = vec![')'];
            if !chars_end_with(t.as_slice(), close.as_slice()) {
                proof {
                    assert(close@ =~= seq![')']);
                }
                return Err(parse_error(t.as_slice(), "opening '(' without closing ')'"));
            }
            proof {
                assert(close@ =~= seq![')']);
                assert(t@[t@.len() - 1] == ')');
            }
            if p == 0 {
                return Err(parse_error(t.as_slice(), "empty tool name before '('"));
            }
            let tool = sub_chars(t.as_slice(), 0, p);
            let raw = sub_chars(t.as_slice(), p + 1, t.len() - 1);
            match parse_rule_content(tool.as_slice(), raw.as_slice()) {
                Ok(rc) => Ok(PermissionRule { tool_name: string_of(tool.as_slice()), content: Some(rc) }),
                Err(e) => Err(e),
            }
        },
        None => Ok(PermissionRule { tool_name: string_of(t.as_slice()), content: None }),
    }
}

// ── URL hosts ─────────────────────────────────────────────────────

/// First index `k >= i` at which `pat` occurs in `s`.
pub open spec fn find_sub(s: Seq<char>, pat: Seq<char>, i: int) -> Option<int>
    decreases s.len() + 1 - i,
{
    if i < 0 || i + pat.len() > s.len() {
        None
    } else if s.subrange(i, i + pat.len()) == pat {
        Some(i)
    } else {
        find_sub(s, pat, i + 1)
    }
}

/// The URL with its `scheme://` part (up to the first `://`) removed.
pub open spec fn after_scheme(u: Seq<char>) -> Seq<char> {
    match find_sub(u, "://"@, 0) {
        Some(i) => u.skip(i + "://"@.len()),
        None => u,
    }
}

/// Characters that end the host-and-port part of a URL.
pub open spec fn is_host_end(c: char) -> bool {
    c == '/' || c == '?' || c == '#'
}

/// Index of the first host-ending character at or after `i` (or the length).
pub open spec fn first_host_end(s: Seq<char>, i: int) -> int
    decreases s.len() - i,
{
    if i < 0 || i >= s.len() {
        s.len() as int
    } else if is_host_end(s[i]) {
        i
    } else {
        first_host_end(s, i + 1)
    }
}

/// Index of the last `:` before `j`.
pub open spec fn last_colon(s: Seq<char>, j: int) -> Option<int>
    decreases j,
{
    if j <= 0 || j > s.len() {
        None
    } else if s[j - 1] == ':' {
        Some(j - 1)
    } else {
        last_colon(s, j - 1)
    }
}

/// Whether every character is an ASCII digit.
pub open spec fn all_ascii_digits(s: Seq<char>) -> bool {
    forall|k: int| 0 <= k < s.len() ==> '0' <= #[trigger] s[k] && s[k] <= '9'
}

/// The host part of a `host[:port]` string: a trailing all-digit port
/// (possibly empty) after the last `:` is dropped.
pub open spec fn host_of(hp: Seq<char>) -> Seq<char> {
    match last_colon(hp, hp.len() as int) {
        Some(j) => if all_ascii_digits(hp.skip(j + 1)) {
            hp.take(j)
        } else {
            hp
        },
        None => hp,
    }
}

/// ASCII lowercase of one character.
pub open spec fn ascii_lower(c: char) -> char {
    if 'A' <= c && c <= 'Z' {
        ((c as int) + 32) as char
    } else {
        c
    }
}

/// The lowercased host of a URL, or `None` when it is empty.
pub open spec fn url_host_spec(u: Seq<char>) -> Option<Seq<char>> {
    let a = after_scheme(u);
    let h = host_of(a.take(first_host_end(a, 0)));
    if h.len() == 0 {
        None
    } else {
        Some(h.map_values(|c: char| ascii_lower(c)))
    }
}

/// ASCII lowercase of one character (exec form of [`ascii_lower`]).
fn lower_char(c: char) -> (r: char)
    ensures
        r == ascii_lower(c),
{
    if 'A' <= c && c <= 'Z' {
        let b = c as u8;
        let l = (b + 32) as char;
        proof {
            assert(l == ((c as int) + 32) as char);
        }
        l
    } else {
        c
    }
}

/// First occurrence of `pat` in `s` (exec form of [`find_sub`]).
pub(crate) fn find_sub_exec(s: &[char], pat: &[char]) -> (r: Option<usize>)
    ensures
        r matches Some(k) ==> find_sub(s@, pat@, 0) == Some(k as int),
        r is None ==> find_sub(s@, pat@, 0) is None,
{
    find_sub_from(s, pat, 0)
}

/// First occurrence of `pat` in `s` at or after `start` (exec form of
/// [`find_sub`]).
pub(crate) fn find_sub_from(s: &[char], pat: &[char], start: usize) -> (r: Option<usize>)
    ensures
        r matches Some(k) ==> find_sub(s@, pat@, start as int) == Some(k as int),
        r is None ==> find_sub(s@, pat@, start as int) is None,
{
    let mut i: usize = start;
    while i <= s.len() && pat.len() <= s.len() - i
        invariant
            start <= i,
            find_sub(s@, pat@, start as int) == find_sub(s@, pat@, i as int),
        decreases s.len() + 1 - i,
    {
        let piece = sub_chars(s, i, i + pat.len());
        if chars_eq(piece.as_slice(), pat) {
            return Some(i);
        }
        if i == s.len() {
            proof {
                assert(find_sub(s@, pat@, i as int + 1) is None);
            }
            return None;
        }
        i += 1;
    }
    None
}

/// Lemma: an occurrence found at or after `i` lies in range.
pub proof fn lemma_find_sub_bounds(s: Seq<char>, pat: Seq<char>, i: int)
    ensures
        find_sub(s, pat, i) matches Some(k) ==> i <= k && k + pat.len() <= s.len() && k >= 0,
    decreases s.len() + 1 - i,
{
    if i < 0 || i + pat.len() > s.len() {
    } else if s.subrange(i, i + pat.len()) == pat {
    } else {
        lemma_find_sub_bounds(s, pat, i + 1);
    }
}

/// Extracts the lowercased host from a URL (`scheme://host[:port]/...`);
/// `None` when the host is empty.
pub fn url_host(url: &str) -> (r: Option<String>)
    ensures
        match url_host_spec(url@) {
            Some(h) => r matches Some(s) && s@ == h,
            None => r is None,
        },
{
    let u = chars_of(url);
    let sep = chars_of("://");
    let found = find_sub_exec(u.as_slice(), sep.as_slice());
    proof {
        lemma_find_sub_bounds(u@, sep@, 0);
    }
    let ulen = u.len();
    let a = match found {
        Some(k) => {
            proof {
                assert(find_sub(u@, sep@, 0) == Some(k as int));
                lemma_find_sub_bounds(u@, sep@, 0);
                assert(k + sep@.len() <= u@.len());
            }
            sub_chars(u.as_slice(), k + sep.len(), ulen)
        },
        None => u,
    };
    proof {
        assert(a@ =~= after_scheme(url@));
    }
    let mut e: usize = 0;
    while e < a.len() && !(a[e] == '/' || a[e] == '?' || a[e] == '#')
        invariant
            e <= a.len(),
            first_host_end(a@, 0) == first_host_end(a@, e as int),
        decreases a.len() - e,
    {
        e += 1;
    }
    let hp = sub_chars(a.as_slice(), 0, e);
    let mut j: usize = hp.len();
    while j > 0 && hp[j - 1] != ':'
        invariant
            j <= hp.len(),
            last_colon(hp@, hp@.len() as int) == last_colon(hp@, j as int),
        decreases j,
    {
        j -= 1;
    }
    let host = if j > 0 {
        let port = sub_chars(hp.as_slice(), j, hp.len());
        let mut all = true;
        let mut k: usize = 0;
        while k < port.len()
            invariant
                k <= port.len(),
                all == (forall|m: int| 0 <= m < k ==> '0' <= #[trigger] port@[m] && port@[m] <= '9'),
            decreases port.len() - k,
        {
            if !('0' <= port[k] && port[k] <= '9') {
                all = false;
            }
            k += 1;
        }
        proof {
            assert(port@ =~= hp@.skip(j as int));
        }
        if all {
            sub_chars(hp.as_slice(), 0, j - 1)
        } else {
            hp
        }
    } else {
        hp
    };
    proof {
        if j > 0 {
            assert(hp@.take(j - 1) =~= hp@.subrange(0, j - 1));
        }
        assert(host@ =~= host_of(a@.take(first_host_end(a@, 0))));
    }
    if host.len() == 0 {
        return None;
    }
    let mut out: Vec<char> = Vec::new();
    let mut k: usize = 0;
    while k < host.len()
        invariant
            k <= host.len(),
            out@ =~= host@.take(k as int).map_values(|c: char| ascii_lower(c)),
        decreases host.len() - k,
    {
        out.push(lower_char(host[k]));
        proof {
            assert(host@.take(k + 1) =~= host@.take(k as int).push(host@[k as int]));
        }
        k += 1;
    }
    proof {
        assert(host@.take(k as int) =~= host@);
    }
    Some(string_of(out.as_slice()))
}

// ── Matching ──────────────────────────────────────────────────────

/// The argument keys that may carry the path a `Path` rule is about.
pub open spec fn path_arg_matches(pattern: Seq<char>, args: ToolArgs) -> bool {
    ||| (arg_str(args, "file_path"@) matches Some(v) && filter_glob_matches(pattern, v))
    ||| (arg_str(args, "path"@) matches Some(v) && filter_glob_matches(pattern, v))
    ||| (arg_str(args, "notebook_path"@) matches Some(v) && filter_glob_matches(pattern, v))
    ||| (arg_str(args, "pattern"@) matches Some(v) && filter_glob_matches(pattern, v))
}

/// Whether `host` is covered by `domain`: the domain glob matches it, or
/// it is the domain itself or a subdomain of it.
pub open spec fn host_in_domain(domain: Seq<char>, host: Seq<char>) -> bool {
    ||| filter_glob_matches(domain, host)
    ||| (ends_with(host, domain) && {
        let rest = host.subrange(0, host.len() - domain.len());
        rest.len() == 0 || rest.last() == '.'
    })
}

/// Whether the rule matches an invocation of `tool` with `args`.
pub open spec fn rule_matches_spec(rule: PermissionRule, tool: Seq<char>, args: ToolArgs) -> bool {
    &&& filter_glob_matches(rule.tool_name@, tool)
    &&& match rule.content {
        None => true,
        Some(RuleContent::Any) => true,
        Some(RuleContent::Glob { key, pattern }) => arg_str(args, key@) matches Some(v) && filter_glob_matches(pattern@, v),
        Some(RuleContent::Exact { key, value }) => arg_str(args, key@) == Some(value@),
        Some(RuleContent::Path { pattern }) => path_arg_matches(pattern@, args),
        Some(RuleContent::Domain { domain }) => arg_str(args, "url"@) matches Some(u)
            && (url_host_spec(u) matches Some(h) && host_in_domain(domain@, h)),
    }
}

/// Whether the path argument `key` holds a string matching `pattern`.
fn path_key_matches(pattern: &String, args: &ToolArgs, key: &str) -> (r: bool)
    ensures
        r == (arg_str(*args, key@) matches Some(v) && filter_glob_matches(pattern@, v)),
{
    match args.get_str(key) {
        Some(v) => glob_match(pattern.as_str(), v.as_str()),
        None => false,
    }
}

/// Whether `host` is covered by `domain` (exec form of [`host_in_domain`]).
fn host_matches_domain(domain: &String, host: &String) -> (r: bool)
    ensures
        r == host_in_domain(domain@, host@),
{
    if glob_match(domain.as_str(), host.as_str()) {
        return true;
    }
    let h = chars_of(host.as_str());
    let d = chars_of(domain.as_str());
    if !chars_end_with(h.as_slice(), d.as_slice()) {
        return false;
    }
    let rest_len = h.len() - d.len();
    rest_len == 0 || h[rest_len - 1] == '.'
}

/// Matches a tool invocation against a parsed rule: the tool-name glob
/// must match, then the argument matcher (if any) must accept `args`.
pub fn matches_rule(rule: &PermissionRule, tool_name: &str, args: &ToolArgs) -> (r: bool)
    ensures
        r == rule_matches_spec(*rule, tool_name@, *args),
{
    if !glob_match(rule.tool_name.as_str(), tool_name) {
        return false;
    }
    match &rule.content {
        None => true,
        Some(RuleContent::Any) => true,
        Some(RuleContent::Glob { key, pattern }) => match args.get_str(key.as_str()) {
            Some(v) => glob_match(pattern.as_str(), v.as_str()),
            None => false,
        },
        Some(RuleContent::Exact { key, value }) => match args.get_str(key.as_str()) {
            Some(v) => crate::text::str_eq(v.as_str(), value.as_str()),
            None => false,
        },
        Some(RuleContent::Path { pattern }) => {
            path_key_matches(pattern, args, "file_path") || path_key_matches(pattern, args, "path")
                || path_key_matches(pattern, args, "notebook_path") || path_key_matches(pattern, args, "pattern")
        },
        Some(RuleContent::Domain { domain }) => match args.get_str("url") {
            Some(u) => match url_host(u.as_str()) {
                Some(h) => host_matches_domain(domain, &h),
                None => false,
            },
            None => false,
        },
    }
}

// ── Bash patterns ─────────────────────────────────────────────────

/// Index of the first white-space character at or after `i`.
pub open spec fn first_ws(s: Seq<char>, i: int) -> Option<int>
    decreases s.len() - i,
{
    if i < 0 || i >= s.len() {
        None
    } else if is_ws(s[i]) {
        Some(i)
    } else {
        first_ws(s, i + 1)
    }
}

/// What parsing a bash pattern yields: the exact pattern or error.
pub open spec fn bash_pattern_result_is(pattern: Seq<char>, r: Result<BashPattern, ParseError>) -> bool {
    let t = trim(pattern);
    if t.len() == 0 {
        r matches Err(e) && e.input@ == t && e.reason@ == "empty bash pattern"@
    } else {
        match first_ws(t, 0) {
            Some(sp) => r matches Ok(b) && b.command@ == t.take(sp) && {
                let rest = trim(t.skip(sp));
                if rest.len() == 0 {
                    b.args_glob is None
                } else {
                    b.args_glob matches Some(g) && g@ == rest
                }
            },
            None => r matches Ok(b) && b.command@ == t && b.args_glob is None,
        }
    }
}

/// Lemma: a white-space character found at or after `i` lies in range.
pub proof fn lemma_first_ws_bounds(s: Seq<char>, i: int)
    ensures
        first_ws(s, i) matches Some(k) ==> i <= k < s.len(),
    decreases s.len() - i,
{
    if 0 <= i < s.len() && !is_ws(s[i]) {
        lemma_first_ws_bounds(s, i + 1);
    }
}

/// Splits a bash pattern like `"git *"` into the command and an optional
/// argument glob (the trimmed rest after the first white space).
pub fn parse_bash_pattern(pattern: &str) -> (r: Result<BashPattern, ParseError>)
    ensures
        bash_pattern_result_is(pattern@, r),
{
    let all = chars_of(pattern);
    let t = trim_chars(all.as_slice());
    if t.len() == 0 {
        return Err(parse_error(t.as_slice(), "empty bash pattern"));
    }
    let mut i: usize = 0;
    while i < t.len() && !is_whitespace(t[i])
        invariant
            i <= t.len(),
            first_ws(t@, 0) == first_ws(t@, i as int),
        decreases t.len() - i,
    {
        i += 1;
    }
    if i < t.len() {
        let command = sub_chars(t.as_slice(), 0, i);
        let rest = sub_chars(t.as_slice(), i, t.len());
        let args = trim_chars(rest.as_slice());
        proof {
            assert(command@ =~= t@.take(i as int));
            assert(rest@ =~= t@.skip(i as int));
        }
        let args_glob = if args.len() == 0 {
            None
        } else {
            Some(string_of(args.as_slice()))
        };
        Ok(BashPattern { command: string_of(command.as_slice()), args_glob })
    } else {
        Ok(BashPattern { command: string_of(t.as_slice()), args_glob: None })
    }
}

// ── Tool filters ──────────────────────────────────────────────────

/// Whether a rule string parses (see [`parse_rule_result_is`]).
pub open spec fn rule_parses(input: Seq<char>) -> bool {
    let t = trim(input);
    t.len() > 0 && match find_char(t, '(', 0) {
        Some(p) => ends_with(t, seq![')']) && p != 0 && content_parses(t.subrange(0, p), t.subrange(p + 1, t.len() - 1)),
        None => true,
    }
}

/// The tool name an unparseable filter falls back to: the trimmed text
/// before its first `(`.
pub open spec fn fallback_name(f: Seq<char>) -> Seq<char> {
    trim(
        match find_char(f, '(', 0) {
            Some(p) => f.take(p),
            None => f,
        },
    )
}

/// Whether a filter string matches an invocation: a parseable filter by
/// its rule; an unparseable one by its (non-empty) tool-name part alone.
pub open spec fn tool_filter_matches(f: Seq<char>, tool: Seq<char>, args: ToolArgs) -> bool {
    if rule_parses(f) {
        exists|rule: PermissionRule| parse_rule_result_is(f, Ok(rule)) && rule_matches_spec(rule, tool, args)
    } else {
        fallback_name(f).len() > 0 && filter_glob_matches(fallback_name(f), tool)
    }
}

/// Lemma: a parse succeeds exactly when the rule string parses, and every
/// two successful parses of one string match the same invocations.
pub proof fn lemma_parse_outcome(input: Seq<char>, r: Result<PermissionRule, ParseError>)
    requires
        parse_rule_result_is(input, r),
    ensures
        r is Ok <==> rule_parses(input),
{
}

/// Whether a tool filter matches a tool invocation. A filter that parses
/// as a permission rule is matched as that rule; one that does not is
/// matched by its tool-name part, so a malformed deny rule still blocks
/// its tool.
pub fn matches_tool_filter(filter: &str, tool_name: &str, tool_input: &ToolArgs) -> (r: bool)
    ensures
        r == tool_filter_matches(filter@, tool_name@, *tool_input),
{
    let parsed = parse_rule(filter);
    proof {
        lemma_parse_outcome(filter@, parsed);
    }
    match parsed {
        Ok(rule) => {
            let m = matches_rule(&rule, tool_name, tool_input);
            proof {
                if !m {
                    assert forall|other: PermissionRule|
                        parse_rule_result_is(filter@, Ok(other)) implies !rule_matches_spec(other, tool_name@, *tool_input) by {
                        lemma_parse_unique_match(filter@, rule, other, tool_name@, *tool_input);
                    }
                }
            }
            m
        },
        Err(_) => {
            let f = chars_of(filter);
            let head = match find_paren(f.as_slice()) {
                Some(p) => {
                    proof {
                        crate::glob::lemma_find_char_bounds(f@, '(', 0);
                    }
                    sub_chars(f.as_slice(), 0, p)
                },
                None => f,
            };
            let name = trim_chars(head.as_slice());
            proof {
                crate::glob::lemma_find_char_bounds(filter@, '(', 0);
                if let Some(p) = find_char(filter@, '(', 0) {
                    assert(head@ =~= filter@.take(p));
                }
            }
            if name.len() == 0 {
                return false;
            }
            let n = string_of(name.as_slice());
            glob_match(n.as_str(), tool_name)
        },
    }
}

/// Lemma: two rules parsed from the same string match the same invocations.
pub proof fn lemma_parse_unique_match(input: Seq<char>, a: PermissionRule, b: PermissionRule, tool: Seq<char>, args: ToolArgs)
    requires
        parse_rule_result_is(input, Ok(a)),
        parse_rule_result_is(input, Ok(b)),
    ensures
        rule_matches_spec(a, tool, args) == rule_matches_spec(b, tool, args),
{
}


/// Law: a tool filter that parses as a rule matches an invocation exactly
/// when that rule does; one that does not parse matches exactly when its
/// tool-name part is not empty and globs the tool name, whatever the input.
pub proof fn law_tool_filter_parse_or_fallback(
    f: Seq<char>,
    r: Result<PermissionRule, ParseError>,
    tool: Seq<char>,
    args: ToolArgs,
)
    requires
        parse_rule_result_is(f, r),
    ensures
        r matches Ok(rule) ==> tool_filter_matches(f, tool, args) == rule_matches_spec(rule, tool, args),
        r is Err ==> tool_filter_matches(f, tool, args) == (fallback_name(f).len() > 0 && filter_glob_matches(
            fallback_name(f),
            tool,
        )),
{
    lemma_parse_outcome(f, r);
    if let Ok(rule) = r {
        if tool_filter_matches(f, tool, args) {
            let other = choose|other: PermissionRule|
                parse_rule_result_is(f, Ok(other)) && rule_matches_spec(other, tool, args);
            lemma_parse_unique_match(f, rule, other, tool, args);
        }
    }
}

/// The argument keys under which a tool carries the path a `Path` rule is
/// about.
pub open spec fn is_path_key(k: Seq<char>) -> bool {
    k == "file_path"@ || k == "path"@ || k == "notebook_path"@ || k == "pattern"@
}

/// Whether the string under the key `k` is globbed by `pattern`.
pub open spec fn key_globbed(args: ToolArgs, k: Seq<char>, pattern: Seq<char>) -> bool {
    arg_str(args, k) matches Some(v) && filter_glob_matches(pattern, v)
}

/// Law: a `Path` rule matches an invocation exactly when its tool glob
/// matches the tool name and its pattern globs the string under at least
/// one of the keys `file_path`, `path`, `notebook_path` and `pattern`;
/// other arguments play no part.
pub proof fn law_path_rule_checks_every_path_key(rule: PermissionRule, pattern: String, tool: Seq<char>, args: ToolArgs)
    requires
        rule.content == Some(RuleContent::Path { pattern }),
    ensures
        rule_matches_spec(rule, tool, args) <==> (filter_glob_matches(rule.tool_name@, tool) && exists|k: Seq<char>|
            is_path_key(k) && #[trigger] key_globbed(args, k, pattern@)),
        forall|k: Seq<char>, v: Seq<char>|
            #![trigger arg_str(args, k), filter_glob_matches(pattern@, v)]
            is_path_key(k) && arg_str(args, k) == Some(v) && filter_glob_matches(pattern@, v)
                && filter_glob_matches(rule.tool_name@, tool) ==> rule_matches_spec(rule, tool, args),
{
    let p = pattern@;
    if rule_matches_spec(rule, tool, args) {
        if key_globbed(args, "file_path"@, p) {
            assert(is_path_key("file_path"@));
        } else if key_globbed(args, "path"@, p) {
            assert(is_path_key("path"@));
        } else if key_globbed(args, "notebook_path"@, p) {
            assert(is_path_key("notebook_path"@));
        } else {
            assert(key_globbed(args, "pattern"@, p));
            assert(is_path_key("pattern"@));
        }
    }
    assert forall|k: Seq<char>, v: Seq<char>|
        #![trigger arg_str(args, k), filter_glob_matches(p, v)]
        is_path_key(k) && arg_str(args, k) == Some(v) && filter_glob_matches(p, v)
            && filter_glob_matches(rule.tool_name@, tool) implies rule_matches_spec(rule, tool, args) by {
        assert(key_globbed(args, k, p));
    }
}

/// Law: a rule never matches a tool its tool glob does not match; and when
/// the tool glob matches, a rule without content or with `*` matches any
/// arguments, a keyed glob rule matches when its pattern globs the string
/// under its key, an exact rule when the string under its key is its value,
/// and a domain rule when the `url` argument has a host that its domain
/// globs, that is the domain itself, or that ends with `.` and the domain.
pub proof fn law_rule_matching_by_content(rule: PermissionRule, tool: Seq<char>, args: ToolArgs)
    ensures
        !filter_glob_matches(rule.tool_name@, tool) ==> !rule_matches_spec(rule, tool, args),
        filter_glob_matches(rule.tool_name@, tool) ==> (rule_matches_spec(rule, tool, args) <==> match rule.content {
            None => true,
            Some(RuleContent::Any) => true,
            Some(RuleContent::Glob { key, pattern }) => key_globbed(args, key@, pattern@),
            Some(RuleContent::Exact { key, value }) => arg_str(args, key@) == Some(value@),
            Some(RuleContent::Path { pattern }) => exists|k: Seq<char>| is_path_key(k) && #[trigger] key_globbed(args, k, pattern@),
            Some(RuleContent::Domain { domain }) => exists|h: Seq<char>|
                #[trigger] url_host_spec_is(args, h) && (filter_glob_matches(domain@, h) || h == domain@ || ends_with(h, seq!['.'] + domain@)),
        }),
{
    match rule.content {
        Some(RuleContent::Path { pattern }) => {
            law_path_rule_checks_every_path_key(rule, pattern, tool, args);
        },
        Some(RuleContent::Domain { domain }) => {
            let d = domain@;
            if arg_str(args, "url"@) is Some && url_host_spec(arg_str(args, "url"@)->0) is Some {
                let h = url_host_spec(arg_str(args, "url"@)->0)->0;
                assert(url_host_spec_is(args, h));
                if ends_with(h, d) {
                    let rest = h.subrange(0, h.len() - d.len());
                    assert(h =~= rest + d);
                    if rest.len() > 0 && rest.last() == '.' {
                        assert(h.subrange(h.len() - (d.len() + 1), h.len() as int) =~= seq!['.'] + d);
                    }
                    if rest.len() == 0 {
                        assert(h =~= d);
                    }
                }
                if ends_with(h, seq!['.'] + d) {
                    let e = seq!['.'] + d;
                    let tail = h.subrange(h.len() - e.len(), h.len() as int);
                    assert(tail == e);
                    assert(h.subrange(h.len() - d.len(), h.len() as int) =~= tail.subrange(1, e.len() as int));
                    assert(tail.subrange(1, e.len() as int) =~= d);
                    assert(h[h.len() - d.len() - 1] == tail[0]);
                    assert(e[0] == '.');
                    let rest = h.subrange(0, h.len() - d.len());
                    assert(rest.last() == h[h.len() - d.len() - 1]);
                }
            }
            if exists|h: Seq<char>| #[trigger] url_host_spec_is(args, h) && (filter_glob_matches(d, h) || h == d
                || ends_with(h, seq!['.'] + d)) {
                let h = choose|h: Seq<char>| #[trigger] url_host_spec_is(args, h) && (filter_glob_matches(d, h) || h == d
                    || ends_with(h, seq!['.'] + d));
                if h == d {
                    assert(h.subrange(h.len() - d.len(), h.len() as int) =~= d);
                    assert(h.subrange(0, h.len() - d.len()) =~= Seq::<char>::empty());
                }
                if ends_with(h, seq!['.'] + d) {
                    assert(h.subrange(h.len() - d.len(), h.len() as int) =~= (seq!['.'] + d).subrange(1, d.len() + 1int));
                    assert((seq!['.'] + d).subrange(1, d.len() + 1int) =~= d);
                    assert(h[h.len() - d.len() - 1] == (seq!['.'] + d)[0]);
                    let rest = h.subrange(0, h.len() - d.len());
                    assert(rest.last() == h[h.len() - d.len() - 1]);
                }
            }
        },
        _ => {},
    }
}

/// Whether the `url` argument is a string whose host is `h`.
pub open spec fn url_host_spec_is(args: ToolArgs, h: Seq<char>) -> bool {
    arg_str(args, "url"@) matches Some(u) && url_host_spec(u) == Some(h)
}

// ── Laws of rule parsing ───────────────────────────────────────────────

/// `find_char` gives the first position of `c` from `i` on, and none
/// exactly when `c` does not occur there.
proof fn lemma_find_char_first(s: Seq<char>, c: char, i: int)
    requires
        0 <= i,
    ensures
        find_char(s, c, i) is None <==> forall|k: int| i <= k < s.len() ==> s[k] != c,
        find_char(s, c, i) matches Some(p) ==> i <= p < s.len() && s[p] == c && forall|k: int|
            i <= k < p ==> s[k] != c,
    decreases s.len() - i,
{
    if i < s.len() && s[i] != c {
        lemma_find_char_first(s, c, i + 1);
    }
}

/// What any rule string parses to, in outline: a blank one is refused; one
/// without `(` names a tool and nothing more (so `*`, `Bash` and `mcp__*`
/// are plain names); one with `(` that does not end with `)`, or with
/// nothing before its first `(`, is refused; a rule with content names the
/// tool written before the first `(`, which is not empty.
pub proof fn law_parse_rule_outline(input: Seq<char>, r: Result<PermissionRule, ParseError>)
    requires
        parse_rule_result_is(input, r),
    ensures
        trim(input).len() == 0 ==> r is Err,
        trim(input).len() > 0 && !trim(input).contains('(') ==> (r matches Ok(rule)
            && rule.tool_name@ == trim(input) && rule.content is None),
        trim(input).contains('(') && !ends_with(trim(input), seq![')']) ==> r is Err,
        trim(input).len() > 0 && trim(input)[0] == '(' ==> r is Err,
        (r matches Ok(rule) && rule.content is Some) ==> exists|p: int|
            0 < p < trim(input).len() && trim(input)[p] == '(' && (forall|k: int| 0 <= k < p ==> trim(input)[k] != '(')
                && r->Ok_0.tool_name@ == trim(input).subrange(0, p),
{
    let t = trim(input);
    lemma_find_char_first(t, '(', 0);
    if t.contains('(') {
        let w = choose|w: int| 0 <= w < t.len() && t[w] == '(';
        assert(find_char(t, '(', 0) is Some);
    }
    if !t.contains('(') && t.len() > 0 {
        assert forall|k: int| 0 <= k < t.len() implies t[k] != '(' by {
            if t[k] == '(' {
                assert(t.contains('('));
            }
        }
    }
    if t.len() > 0 && t[0] == '(' {
        assert(find_char(t, '(', 0) == Some(0int));
    }
    if r matches Ok(rule) && rule.content is Some {
        let p = find_char(t, '(', 0)->0;
        assert(0 < p < t.len() && t[p] == '(');
    }
}


/// A specifier `*` allows every use of any tool; the specifier of a file
/// tool is taken as a path pattern exactly as written (trimmed), never split
/// at a `:`, so `C:/Users/**` stays a path.
pub proof fn law_specifier_kinds(rc: RuleContent, tool: Seq<char>, raw: Seq<char>)
    ensures
        trim(raw) == "*"@ ==> content_parses(tool, raw) && (content_is(rc, tool, raw) <==> rc is Any),
        is_path_tool(tool) && trim(raw) != "*"@ ==> content_parses(tool, raw) && (content_is(rc, tool, raw)
            <==> (rc matches RuleContent::Path { pattern } && pattern@ == trim(raw))),
        is_path_tool(tool) <==> (tool == "Read"@ || tool == "Write"@ || tool == "Edit"@ || tool == "MultiEdit"@
            || tool == "NotebookEdit"@ || tool == "Glob"@ || tool == "Grep"@),
        is_command_tool(tool) <==> (tool == "Bash"@ || tool == "PowerShell"@),
        is_web_tool(tool) <==> (tool == "WebFetch"@ || tool == "WebSearch"@),
{
    reveal_strlit("Read");
    reveal_strlit("Write");
    reveal_strlit("Edit");
    reveal_strlit("MultiEdit");
    reveal_strlit("NotebookEdit");
    reveal_strlit("Glob");
    reveal_strlit("Grep");
    reveal_strlit("Bash");
    reveal_strlit("PowerShell");
    if is_path_tool(tool) {
        assert(tool.len() > 0 && tool[0] != 'B' && tool[0] != 'P');
        assert("Bash"@[0] == 'B' && "PowerShell"@[0] == 'P');
        assert(!is_command_tool(tool));
    }
}

} // verus!
