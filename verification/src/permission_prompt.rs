//! The line the command-line permission prompt shows for a tool call,
//! picking the most telling representation for well-known tools so that
//! the user sees the actual command or path rather than a summary.
use vstd::prelude::*;
use crate::rule_parser::{arg_str, ToolArgs};
use crate::text::{chars_of, concat_str, lowercase, str_eq, to_lowercase};

verus! {

/// The argument `key` of `input` when it holds a string, else `fallback`.
pub open spec fn arg_or(input: ToolArgs, key: Seq<char>, fallback: Seq<char>) -> Seq<char> {
    match arg_str(input, key) {
        Some(v) => v,
        None => fallback,
    }
}

/// The prompt line for a call of tool `tool_name` with arguments `input`,
/// given the tool's own summary `prompt`:
/// - `bash` (any case): `[permission] Bash: ` and the `command` argument
///   (or the summary), then a new line and `  (description)` when a
///   non-empty `description` argument is given;
/// - `edit` / `write`: `[permission] Edit: ` / `[permission] Write: ` and
///   the `file_path` argument (or the summary);
/// - any other tool: `[permission] `, the summary and ` (tool_name)`.
pub open spec fn permission_line(tool_name: Seq<char>, prompt: Seq<char>, input: ToolArgs) -> Seq<char> {
    let lower = lowercase(tool_name);
    if lower == "bash"@ {
        let head = "[permission] Bash: "@ + arg_or(input, "command"@, prompt);
        match arg_str(input, "description"@) {
            Some(d) if d.len() > 0 => head + "\n  ("@ + d + ")"@,
            _ => head,
        }
    } else if lower == "edit"@ {
        "[permission] Edit: "@ + arg_or(input, "file_path"@, prompt)
    } else if lower == "write"@ {
        "[permission] Write: "@ + arg_or(input, "file_path"@, prompt)
    } else {
        "[permission] "@ + prompt + " ("@ + tool_name + ")"@
    }
}

/// The argument `key` of `input` when it holds a string, else `fallback`.
fn arg_or_else<'a>(input: &'a ToolArgs, key: &str, fallback: &'a str) -> (r: &'a str)
    ensures
        r@ == arg_or(*input, key@, fallback@),
{
    match input.get_str(key) {
        Some(v) => v.as_str(),
        None => fallback,
    }
}

/// Format the permission prompt line for a tool call (see
/// [`permission_line`]).
pub fn format_cli_permission(tool_name: &str, prompt: &str, tool_input: &ToolArgs) -> (r: String)
    ensures
        r@ == permission_line(tool_name@, prompt@, *tool_input),
{
    let lower = to_lowercase(tool_name);
    if str_eq(lower.as_str(), "bash") {
        let command = arg_or_else(tool_input, "command", prompt);
        let head = concat_str("[permission] Bash: ", command);
        match tool_input.get_str("description") {
            Some(d) => {
                if d.as_str().is_empty() {
                    head
                } else {
                    let a = concat_str(head.as_str(), "\n  (");
                    let b = concat_str(a.as_str(), d.as_str());
                    concat_str(b.as_str(), ")")
                }
            },
            None => head,
        }
    } else if str_eq(lower.as_str(), "edit") {
        concat_str("[permission] Edit: ", arg_or_else(tool_input, "file_path", prompt))
    } else if str_eq(lower.as_str(), "write") {
        concat_str("[permission] Write: ", arg_or_else(tool_input, "file_path", prompt))
    } else {
        let a = concat_str("[permission] ", prompt);
        let b = concat_str(a.as_str(), " (");
        let c = concat_str(b.as_str(), tool_name);
        concat_str(c.as_str(), ")")
    }
}

} // verus!
