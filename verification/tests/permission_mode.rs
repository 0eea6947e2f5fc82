use crab_code::permission_mode::{parse_permission_mode, resolve_permission_mode};
use crab_code::policy::PermissionMode;

#[test]
fn explicit_cli_mode_takes_priority() {
    assert_eq!(
        resolve_permission_mode(Some("plan"), false, false, false, None).unwrap(),
        PermissionMode::Plan
    );
}

#[test]
fn dangerously_flag() {
    assert_eq!(
        resolve_permission_mode(None, true, false, false, None).unwrap(),
        PermissionMode::Dangerously
    );
}

#[test]
fn auto_flag() {
    assert_eq!(
        resolve_permission_mode(None, false, true, false, None).unwrap(),
        PermissionMode::Auto
    );
}

#[test]
fn trust_project_flag() {
    assert_eq!(
        resolve_permission_mode(None, false, false, true, None).unwrap(),
        PermissionMode::TrustProject
    );
}

#[test]
fn settings_fallback() {
    assert_eq!(
        resolve_permission_mode(None, false, false, false, Some("acceptEdits")).unwrap(),
        PermissionMode::AcceptEdits
    );
}

#[test]
fn default_when_nothing_set() {
    assert_eq!(
        resolve_permission_mode(None, false, false, false, None).unwrap(),
        PermissionMode::Default
    );
}

#[test]
fn cli_mode_overrides_flags() {
    // Even if dangerously is set, explicit cli_mode wins.
    assert_eq!(
        resolve_permission_mode(Some("plan"), true, false, false, None).unwrap(),
        PermissionMode::Plan
    );
}

#[test]
fn invalid_cli_mode_errors() {
    assert!(resolve_permission_mode(Some("bogus"), false, false, false, None).is_err());
}

#[test]
fn invalid_settings_ignored() {
    // Invalid settings mode falls back to Default.
    assert_eq!(
        resolve_permission_mode(None, false, false, false, Some("bogus")).unwrap(),
        PermissionMode::Default
    );
}

#[test]
fn flag_priority_order() {
    assert_eq!(
        resolve_permission_mode(None, true, true, true, Some("plan")).unwrap(),
        PermissionMode::Dangerously
    );
    assert_eq!(
        resolve_permission_mode(None, false, true, true, Some("plan")).unwrap(),
        PermissionMode::Auto
    );
    assert_eq!(
        resolve_permission_mode(None, false, false, false, Some("trustProject")).unwrap(),
        PermissionMode::TrustProject
    );
}

#[test]
fn mode_names() {
    assert_eq!(parse_permission_mode("default").unwrap(), PermissionMode::Default);
    assert_eq!(parse_permission_mode("dangerously").unwrap(), PermissionMode::Dangerously);
    assert_eq!(parse_permission_mode("auto").unwrap(), PermissionMode::Auto);
    assert_eq!(parse_permission_mode("Plan").unwrap_err(), "unknown permission mode: Plan");
}
