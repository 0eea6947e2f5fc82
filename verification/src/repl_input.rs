//! How the interactive loop reads a line: blank lines are skipped, a line
//! starting with `/` and a letter is a slash command, anything else is a
//! prompt for the model. Real paths such as `/tmp/foo` are prompts.
use vstd::prelude::*;
use crate::text::{
    chars_of, concat_str, first_ws, is_whitespace, lemma_first_ws, str_eq, string_of, sub_chars,
    trim, trim_chars,
};

verus! {

/// Outcome of a slash-command dispatch that controls the loop.
#[derive(Debug, Clone, PartialEq, Eq)]
pub enum SlashOutcome {
    /// Stay in the loop (message was printed, action handled).
    Continue,
    /// Exit the loop.
    Exit,
    /// Expand the input (e.g. a user-defined skill) and feed it back as a
    /// turn.
    FallThrough(String),
}

/// What the loop does with a line it read.
#[derive(Debug, Clone, PartialEq, Eq)]
pub enum ReplLine {
    /// Nothing but white space: read the next line.
    Blank,
    /// A slash command: the trimmed line without its leading `/`.
    Slash(String),
    /// A prompt for the model: the trimmed line.
    Prompt(String),
}

/// Whether `c` is an ASCII letter.
pub open spec fn ascii_letter(c: char) -> bool {
    ('a' <= c && c <= 'z') || ('A' <= c && c <= 'Z')
}

/// Whether the trimmed line `t` is a slash command.
pub open spec fn is_slash(t: Seq<char>) -> bool {
    t.len() > 1 && t[0] == '/' && ascii_letter(t[1])
}

/// Classifies a line read from the terminal: blank when it trims to
/// nothing, a slash command when the trimmed line is `/` followed by an
/// ASCII letter, else a prompt.
pub fn classify_line(line: &str) -> (r: ReplLine)
    ensures
        trim(line@).len() == 0 ==> r == ReplLine::Blank,
        trim(line@).len() > 0 && is_slash(trim(line@)) ==> (r matches ReplLine::Slash(rest) && rest@
            == trim(line@).drop_first()),
        trim(line@).len() > 0 && !is_slash(trim(line@)) ==> (r matches ReplLine::Prompt(p) && p@ == trim(
            line@,
        )),
{
    let chars = chars_of(line);
    let t = trim_chars(chars.as_slice());
    if t.len() == 0 {
        return ReplLine::Blank;
    }
    if t.len() > 1 && t[0] == '/' && (('a' <= t[1] && t[1] <= 'z') || ('A' <= t[1] && t[1] <= 'Z')) {
        let rest = sub_chars(t.as_slice(), 1, t.len());
        proof {
            assert(rest@ =~= t@.drop_first());
        }
        return ReplLine::Slash(string_of(rest.as_slice()));
    }
    ReplLine::Prompt(string_of(t.as_slice()))
}

/// The name of a slash command: `rest` up to its first white space.
pub open spec fn command_name(rest: Seq<char>) -> Seq<char> {
    rest.subrange(0, first_ws(rest, 0))
}

/// The arguments of a slash command: what follows the first white space,
/// trimmed (empty when there is none).
pub open spec fn command_args(rest: Seq<char>) -> Seq<char> {
    let k = first_ws(rest, 0);
    if k < rest.len() {
        trim(rest.subrange(k + 1, rest.len() as int))
    } else {
        Seq::empty()
    }
}

/// Splits a slash command (without its `/`) into name and arguments.
pub fn split_command(cmd_rest: &str) -> (r: (String, String))
    ensures
        r.0@ == command_name(cmd_rest@),
        r.1@ == command_args(cmd_rest@),
{
    let s = chars_of(cmd_rest);
    let mut k: usize = 0;
    while k < s.len() && !is_whitespace(s[k])
        invariant
            k <= s@.len(),
            s@ == cmd_rest@,
            first_ws(s@, 0) == first_ws(s@, k as int),
        decreases s@.len() - k,
    {
        k += 1;
    }
    proof {
        lemma_first_ws(s@, k as int);
        assert(first_ws(s@, 0) == k);
    }
    let name = string_of(sub_chars(s.as_slice(), 0, k).as_slice());
    if k < s.len() {
        let after = sub_chars(s.as_slice(), k + 1, s.len());
        let args = trim_chars(after.as_slice());
        (name, string_of(args.as_slice()))
    } else {
        (name, String::new())
    }
}

/// Whether a slash command ends the loop: `exit` or `quit`.
pub fn is_exit_command(name: &str) -> (r: bool)
    ensures
        r == (name@ == "exit"@ || name@ == "quit"@),
{
    str_eq(name, "exit") || str_eq(name, "quit")
}

/// The outcome for a slash command that no built-in command handled,
/// given `expanded`, the input `/cmd_rest` after skill expansion: when
/// expansion left it unchanged the command is unknown and the loop goes
/// on, else the expansion is fed back as a turn.
pub fn unmatched_command(cmd_rest: &str, expanded: String) -> (r: SlashOutcome)
    ensures
        expanded@ == seq!['/'] + cmd_rest@ ==> r == SlashOutcome::Continue,
        expanded@ != seq!['/'] + cmd_rest@ ==> r == SlashOutcome::FallThrough(expanded),
{
    let original = concat_str("/", cmd_rest);
    proof {
        reveal_strlit("/");
        assert("/"@ =~= seq!['/']);
        assert(original@ =~= seq!['/'] + cmd_rest@);
    }
    if str_eq(expanded.as_str(), original.as_str()) {
        SlashOutcome::Continue
    } else {
        SlashOutcome::FallThrough(expanded)
    }
}

} // verus!
