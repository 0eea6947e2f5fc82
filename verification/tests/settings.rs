use crab_code::settings::{global_config_dir, project_config_dir, settings_file_in, Settings};

fn json(text: &str) -> serde_json::Value {
    serde_json::from_str(text).unwrap()
}

#[test]
fn default_settings_all_none() {
    let s = Settings::default();
    assert!(s.api_provider.is_none());
    assert!(s.api_key.is_none());
    assert!(s.model.is_none());
    assert!(s.max_tokens.is_none());
}

#[test]
fn merge_other_overrides_self() {
    let base = Settings {
        api_provider: Some("anthropic".into()),
        model: Some("old-model".into()),
        max_tokens: Some(1024),
        ..Default::default()
    };
    let overlay = Settings {
        model: Some("new-model".into()),
        theme: Some("dark".into()),
        ..Default::default()
    };
    let merged = base.merge(&overlay);
    assert_eq!(merged.api_provider.as_deref(), Some("anthropic")); // kept
    assert_eq!(merged.model.as_deref(), Some("new-model")); // overridden
    assert_eq!(merged.max_tokens, Some(1024)); // kept
    assert_eq!(merged.theme.as_deref(), Some("dark")); // added
}

#[test]
fn merge_none_does_not_clear() {
    let base = Settings {
        api_key: Some("sk-123".into()),
        ..Default::default()
    };
    let empty = Settings::default();
    let merged = base.merge(&empty);
    assert_eq!(merged.api_key.as_deref(), Some("sk-123"));
}

#[test]
fn global_config_dir_under_home() {
    let dir = global_config_dir("/home/user");
    assert!(dir.ends_with(".crab"));
}

#[test]
fn project_config_dir_under_project() {
    let dir = project_config_dir("/my/project");
    assert!(dir.ends_with(".crab"));
    assert!(dir.starts_with("/my/project"));
}

#[test]
fn merge_all_fields_override() {
    let base = Settings {
        api_provider: Some("anthropic".into()),
        api_base_url: Some("http://old".into()),
        api_key: Some("sk-old".into()),
        model: Some("old-model".into()),
        small_model: Some("old-small".into()),
        max_tokens: Some(1024),
        permission_mode: Some("default".into()),
        system_prompt: Some("old prompt".into()),
        mcp_servers: Some(json(r#"{"old": true}"#)),
        hooks: Some(json("[]")),
        theme: Some("light".into()),
    };
    let overlay = Settings {
        api_provider: Some("openai".into()),
        api_base_url: Some("http://new".into()),
        api_key: Some("sk-new".into()),
        model: Some("new-model".into()),
        small_model: Some("new-small".into()),
        max_tokens: Some(4096),
        permission_mode: Some("dangerously".into()),
        system_prompt: Some("new prompt".into()),
        mcp_servers: Some(json(r#"{"new": true}"#)),
        hooks: Some(json(r#"[{"trigger": "pre_tool_use"}]"#)),
        theme: Some("dark".into()),
    };
    let merged = base.merge(&overlay);
    assert_eq!(merged.api_provider.as_deref(), Some("openai"));
    assert_eq!(merged.api_base_url.as_deref(), Some("http://new"));
    assert_eq!(merged.api_key.as_deref(), Some("sk-new"));
    assert_eq!(merged.model.as_deref(), Some("new-model"));
    assert_eq!(merged.small_model.as_deref(), Some("new-small"));
    assert_eq!(merged.max_tokens, Some(4096));
    assert_eq!(merged.permission_mode.as_deref(), Some("dangerously"));
    assert_eq!(merged.system_prompt.as_deref(), Some("new prompt"));
    assert_eq!(merged.theme.as_deref(), Some("dark"));
}

#[test]
fn merge_is_not_commutative() {
    let a = Settings {
        model: Some("model-a".into()),
        ..Default::default()
    };
    let b = Settings {
        model: Some("model-b".into()),
        ..Default::default()
    };
    // a.merge(&b) should give model-b, b.clone().merge(&a) should give model-a
    assert_eq!(a.clone().merge(&b).model.as_deref(), Some("model-b"));
    assert_eq!(b.merge(&a).model.as_deref(), Some("model-a"));
}

// ── Further cases ──────────────────────────────────────────────────

#[test]
fn merge_keeps_json_values_when_unset_above() {
    let base = Settings {
        mcp_servers: Some(json(r#"{"s": {"command": "x"}}"#)),
        ..Default::default()
    };
    let merged = base.clone().merge(&Settings::default());
    assert_eq!(merged.mcp_servers, base.mcp_servers);
    let over = Settings {
        hooks: Some(json("[1]")),
        ..Default::default()
    };
    assert_eq!(Settings::default().merge(&over).hooks, Some(json("[1]")));
}

#[test]
fn three_levels_take_the_last_set_value() {
    let global = Settings { model: Some("g".into()), theme: Some("light".into()), ..Default::default() };
    let project = Settings { model: Some("p".into()), ..Default::default() };
    let cli = Settings { max_tokens: Some(7), ..Default::default() };
    let left = global.clone().merge(&project).merge(&cli);
    let right = global.merge(&project.merge(&cli));
    assert_eq!(left, right);
    assert_eq!(left.model.as_deref(), Some("p"));
    assert_eq!(left.theme.as_deref(), Some("light"));
    assert_eq!(left.max_tokens, Some(7));
}

#[test]
fn config_paths_join_like_pathbuf() {
    assert_eq!(global_config_dir("/home/u"), "/home/u/.crab");
    assert_eq!(global_config_dir("/home/u/"), "/home/u/.crab");
    assert_eq!(project_config_dir(""), ".crab");
    assert_eq!(settings_file_in("/p/.crab"), "/p/.crab/settings.json");
}
