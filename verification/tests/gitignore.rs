use crab_code::gitignore::{
    expand_user, gitignore_to_update, gitignore_with_local_entry, global_gitignore_covers, global_gitignore_path,
    matches_local_config_entry,
};


#[test]
fn matches_local_config_entry_accepts_plain_entry() {
    assert!(matches_local_config_entry("config.local.toml"));
    assert!(matches_local_config_entry("/.crab/config.local.toml"));
    assert!(matches_local_config_entry("**/config.local.toml"));
    assert!(matches_local_config_entry("  config.local.toml  "));
}

#[test]
fn matches_local_config_entry_rejects_comments_and_negations() {
    assert!(!matches_local_config_entry(""));
    assert!(!matches_local_config_entry("# config.local.toml"));
    assert!(!matches_local_config_entry("!config.local.toml"));
}

#[test]
fn matches_local_config_entry_rejects_unrelated_files() {
    assert!(!matches_local_config_entry("config.toml"));
    assert!(!matches_local_config_entry("settings.local.json"));
}







const ENTRY: &str = "/.crab/config.local.toml";

#[test]
fn with_local_entry_on_empty_text() {
    let content = gitignore_with_local_entry("").unwrap();
    assert_eq!(content, format!("{ENTRY}\n"));
}

#[test]
fn with_local_entry_is_idempotent() {
    let first = gitignore_with_local_entry("").unwrap();
    assert!(gitignore_with_local_entry(&first).is_none());
}

#[test]
fn with_local_entry_adds_missing_newline() {
    let content = gitignore_with_local_entry("target/").unwrap();
    assert!(content.starts_with("target/"));
    assert!(content.contains(ENTRY));
    assert!(content.ends_with('\n'));
    assert_eq!(content, format!("target/\n{ENTRY}\n"));
}

#[test]
fn with_local_entry_none_when_present() {
    let original = format!("target/\n{ENTRY}\nnode_modules/\n");
    assert!(gitignore_with_local_entry(&original).is_none());
    assert!(gitignore_with_local_entry(&format!("  {ENTRY}  ")).is_none());
}

#[test]
fn global_gitignore_covers_any_matching_line() {
    assert!(global_gitignore_covers("*.log\n**/config.local.toml\n"));
    assert!(!global_gitignore_covers("# config.local.toml\n!config.local.toml\n"));
    assert!(!global_gitignore_covers(""));
}

#[test]
fn expand_user_replaces_leading_tilde_only() {
    assert_eq!(expand_user("~/.gitignore_global", "/home/u"), "/home/u/.gitignore_global");
    assert_eq!(expand_user("/etc/gitignore", "/home/u"), "/etc/gitignore");
    assert_eq!(expand_user("~user/x", "/home/u"), "~user/x");
    assert_eq!(expand_user("~/", "/home/u"), "/home/u/");
}

#[test]
fn global_gitignore_path_prefers_git_config() {
    assert_eq!(global_gitignore_path(Some("  ~/.config/ignores\n"), "/home/u"), "/home/u/.config/ignores");
    assert_eq!(global_gitignore_path(Some("/opt/ignore"), "/home/u"), "/opt/ignore");
}

#[test]
fn global_gitignore_path_defaults_under_home() {
    assert_eq!(global_gitignore_path(None, "/home/u"), "/home/u/.config/git/ignore");
    assert_eq!(global_gitignore_path(Some("   \n"), "/home/u/"), "/home/u/.config/git/ignore");
}

#[test]
fn gitignore_to_update_only_inside_unignored_repo() {
    assert_eq!(gitignore_to_update(false, false, Some("/repo")), Some("/repo/.gitignore".to_string()));
    assert_eq!(gitignore_to_update(true, false, Some("/repo")), None);
    assert_eq!(gitignore_to_update(false, true, Some("/repo")), None);
    assert_eq!(gitignore_to_update(false, false, None), None);
}
