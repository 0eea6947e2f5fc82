//! What the agent sends as its system prompt and as a turn's prompt: the
//! system prompt from an override, the default and an appendix; a slash
//! command expanded into the content of the skill it names.
//!
//! Reading prompt files and looking skills up are left to the caller.
use vstd::prelude::*;
use crate::text::{
    chars_of, chars_start_with, concat_str, split_words, starts_with, str_eq, string_of, sub_chars,
    trim, trim_chars, words,
};

verus! {

// ── System prompt ──────────────────────────────────────────────────────

/// The system prompt: the override when there is one (it replaces the
/// default entirely), else the default; then, when an appendix is given, a
/// blank line and the appendix.
pub open spec fn system_prompt_of(
    override_text: Option<Seq<char>>,
    default_text: Seq<char>,
    append_text: Option<Seq<char>>,
) -> Seq<char> {
    let base = match override_text {
        Some(o) => o,
        None => default_text,
    };
    match append_text {
        Some(a) => base + "\n\n"@ + a,
        None => base,
    }
}

/// The view of an optional string slice.
pub open spec fn opt_text(v: Option<&str>) -> Option<Seq<char>> {
    match v {
        Some(s) => Some(s@),
        None => None,
    }
}

/// Composes the system prompt from `--system-prompt` (or its file's
/// text), the default prompt and `--append-system-prompt` (or its file's
/// text). The default is only read when there is no override.
pub fn compose_system_prompt(
    override_text: Option<&str>,
    default_text: &str,
    append_text: Option<&str>,
) -> (r: String)
    ensures
        r@ == system_prompt_of(opt_text(override_text), default_text@, opt_text(append_text)),
{
    let base = match override_text {
        Some(o) => o.to_string(),
        None => default_text.to_string(),
    };
    match append_text {
        Some(a) => {
            let with_gap = concat_str(base.as_str(), "\n\n");
            concat_str(with_gap.as_str(), a)
        },
        None => base,
    }
}

// ── Slash commands ─────────────────────────────────────────────────────

/// `s` without its leading characters `c`.
pub open spec fn strip_leading(s: Seq<char>, c: char) -> Seq<char>
    decreases s.len(),
{
    if s.len() > 0 && s[0] == c {
        strip_leading(s.drop_first(), c)
    } else {
        s
    }
}

/// `s` without its leading repetitions of `p` (unchanged for an empty `p`).
pub open spec fn strip_repeated(s: Seq<char>, p: Seq<char>) -> Seq<char>
    decreases s.len(),
{
    if p.len() > 0 && starts_with(s, p) {
        strip_repeated(s.skip(p.len() as int), p)
    } else {
        s
    }
}

/// The command a slash input names: the first word after the leading `/`s
/// of the trimmed input (empty when there is none).
pub open spec fn slash_command(input: Seq<char>) -> Seq<char> {
    let w = words(strip_leading(trim(input), '/'));
    if w.len() > 0 {
        w[0]
    } else {
        Seq::empty()
    }
}

/// Whether a command is handled by the loop itself.
pub open spec fn builtin_command(c: Seq<char>) -> bool {
    c == "exit"@ || c == "quit"@ || c == "help"@
}

/// The skill command to look up for an input: none when the trimmed input
/// does not start with `/` or names a built-in command.
pub open spec fn command_to_resolve(input: Seq<char>) -> Option<Seq<char>> {
    let t = trim(input);
    if t.len() > 0 && t[0] == '/' && !builtin_command(slash_command(input)) {
        Some(slash_command(input))
    } else {
        None
    }
}

/// The arguments of a slash input naming `command`: what follows the
/// leading `/`s and the command, trimmed.
pub open spec fn skill_args(input: Seq<char>, command: Seq<char>) -> Seq<char> {
    trim(strip_repeated(strip_leading(trim(input), '/'), command))
}

/// The prompt a skill makes of a slash input: its content, then, when the
/// input has arguments, a blank line, `User arguments: ` and them.
pub open spec fn skill_prompt_of(input: Seq<char>, command: Seq<char>, content: Seq<char>) -> Seq<char> {
    let args = skill_args(input, command);
    if args.len() > 0 {
        content + "\n\nUser arguments: "@ + args
    } else {
        content
    }
}

/// `v` without its leading characters `c`.
fn strip_leading_chars(v: &[char], c: char) -> (r: Vec<char>)
    ensures
        r@ == strip_leading(v@, c),
{
    let mut i: usize = 0;
    assert(v@.skip(0) =~= v@);
    while i < v.len() && v[i] == c
        invariant
            i <= v.len(),
            strip_leading(v@, c) == strip_leading(v@.skip(i as int), c),
        decreases v.len() - i,
    {
        assert(v@.skip(i as int).drop_first() =~= v@.skip(i + 1));
        i += 1;
    }
    let r = sub_chars(v, i, v.len());
    assert(r@ =~= v@.skip(i as int));
    r
}

/// `v` without its leading repetitions of `p`.
fn strip_repeated_chars(v: &[char], p: &[char]) -> (r: Vec<char>)
    ensures
        r@ == strip_repeated(v@, p@),
{
    let mut cur: Vec<char> = sub_chars(v, 0, v.len());
    assert(cur@ =~= v@);
    if p.len() == 0 {
        return cur;
    }
    while chars_start_with(cur.as_slice(), p)
        invariant
            p@.len() > 0,
            strip_repeated(v@, p@) == strip_repeated(cur@, p@),
        decreases cur@.len(),
    {
        let next = sub_chars(cur.as_slice(), p.len(), cur.len());
        assert(next@ =~= cur@.skip(p@.len() as int));
        cur = next;
    }
    cur
}

/// The leading-`/`-stripped, trimmed input as characters.
fn command_text(input: &str) -> (r: Vec<char>)
    ensures
        r@ == strip_leading(trim(input@), '/'),
{
    let t = trim_chars(chars_of(input).as_slice());
    strip_leading_chars(t.as_slice(), '/')
}

/// The skill command to look up for a turn's input: `None` when the input
/// is not a slash command or names one of the loop's own commands (`exit`,
/// `quit`, `help`); the input then goes to the model as it is.
pub fn slash_command_to_resolve(input: &str) -> (r: Option<String>)
    ensures
        match r {
            Some(c) => command_to_resolve(input@) == Some(c@),
            None => command_to_resolve(input@) is None,
        },
{
    let t = trim_chars(chars_of(input).as_slice());
    if t.len() == 0 || t[0] != '/' {
        return None;
    }
    let rest = command_text(input);
    let w = split_words(rest.as_slice());
    let command = if w.len() > 0 {
        string_of(w[0].as_slice())
    } else {
        String::new()
    };
    proof {
        if w@.len() > 0 {
            assert(w@[0]@ == words(rest@)[0]);
        } else {
            assert(command@ =~= Seq::<char>::empty());
        }
    }
    if str_eq(command.as_str(), "exit") || str_eq(command.as_str(), "quit") || str_eq(
        command.as_str(),
        "help",
    ) {
        return None;
    }
    Some(command)
}

/// The prompt that the skill with `content`, found for `command`, makes of
/// the slash input `input`.
pub fn skill_prompt(input: &str, command: &str, content: &str) -> (r: String)
    ensures
        r@ == skill_prompt_of(input@, command@, content@),
{
    let rest = command_text(input);
    let c = chars_of(command);
    let after = strip_repeated_chars(rest.as_slice(), c.as_slice());
    let args = trim_chars(after.as_slice());
    if args.len() > 0 {
        let head = concat_str(content, "\n\nUser arguments: ");
        let a = string_of(args.as_slice());
        concat_str(head.as_str(), a.as_str())
    } else {
        content.to_string()
    }
}

} // verus!
