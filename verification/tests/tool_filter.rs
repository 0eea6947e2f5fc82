use crab_code::policy::resolve_tool_filters;


#[test]
fn resolve_tool_filters_empty_inputs() {
    let (allowed, denied) = resolve_tool_filters(&[], &[], None);
    assert!(allowed.is_empty());
    assert!(denied.is_empty());
}

#[test]
fn resolve_tool_filters_passthrough_lists() {
    let (allowed, denied) =
        resolve_tool_filters(&["Read".into(), "Write".into()], &["Bash".into()], None);
    assert_eq!(allowed, vec!["Read", "Write"]);
    assert_eq!(denied, vec!["Bash"]);
}

#[test]
fn resolve_tool_filters_tools_empty_disables_all() {
    let (allowed, denied) = resolve_tool_filters(&[], &[], Some(""));
    assert!(allowed.is_empty());
    assert_eq!(denied, vec!["*"]);
}

#[test]
fn resolve_tool_filters_tools_default_no_change() {
    let (allowed, denied) = resolve_tool_filters(&[], &[], Some("default"));
    assert!(allowed.is_empty());
    assert!(denied.is_empty());
}

#[test]
fn resolve_tool_filters_tools_explicit_list() {
    let (allowed, denied) = resolve_tool_filters(&[], &[], Some("Read,Write,Edit"));
    assert_eq!(allowed, vec!["Read", "Write", "Edit"]);
    assert!(denied.is_empty());
}
