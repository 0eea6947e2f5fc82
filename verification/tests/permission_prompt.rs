use crab_code::permission_prompt::format_cli_permission;
use crab_code::rule_parser::ToolArgs;

#[test]
fn bash_shows_command_and_description() {
    let input = ToolArgs::new()
        .with_str("command", "git push")
        .with_str("description", "Push the branch");
    assert_eq!(
        format_cli_permission("Bash", "run a command", &input),
        "[permission] Bash: git push\n  (Push the branch)"
    );
}

#[test]
fn bash_without_description_or_command() {
    let input = ToolArgs::new().with_str("description", "");
    assert_eq!(
        format_cli_permission("bash", "run a command", &input),
        "[permission] Bash: run a command"
    );
    let non_string = ToolArgs::new().with_non_string("command");
    assert_eq!(
        format_cli_permission("BASH", "summary", &non_string),
        "[permission] Bash: summary"
    );
}

#[test]
fn edit_and_write_show_the_path() {
    let input = ToolArgs::new().with_str("file_path", "/src/main.rs");
    assert_eq!(format_cli_permission("Edit", "p", &input), "[permission] Edit: /src/main.rs");
    assert_eq!(format_cli_permission("Write", "p", &input), "[permission] Write: /src/main.rs");
    assert_eq!(format_cli_permission("Write", "p", &ToolArgs::new()), "[permission] Write: p");
}

#[test]
fn other_tools_show_summary_and_name() {
    assert_eq!(
        format_cli_permission("WebFetch", "fetch a page", &ToolArgs::new()),
        "[permission] fetch a page (WebFetch)"
    );
}
