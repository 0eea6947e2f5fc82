use crab_code::completion::{field_schema, schema_property_names, CompletionItem, PropertyHint, SettingsCompleter};

#[test]
fn completion_item_equality() {
    let a = CompletionItem {
        label: "test".into(),
        detail: "d".into(),
        insert_text: "test".into(),
    };
    let b = a.clone();
    assert_eq!(a, b);
}

#[test]
fn schema_property_names_count() {
    let names = schema_property_names();
    assert_eq!(names.len(), 12);
}

fn hint(key: &str, ty: Option<&str>, desc: Option<&str>, enums: &[&str], default: Option<&str>, examples: &[&str]) -> PropertyHint {
    PropertyHint {
        key: key.into(),
        description: desc.map(String::from),
        json_type: ty.map(String::from),
        enum_values: enums.iter().map(|s| s.to_string()).collect(),
        default: default.map(String::from),
        examples: examples.iter().map(|s| s.to_string()).collect(),
    }
}

fn completer() -> SettingsCompleter {
    SettingsCompleter::new(vec![
        hint("apiBaseUrl", Some("string"), Some("Base URL"), &[], None, &["https://a", "http://b"]),
        hint("apiKey", Some("string"), None, &[], None, &[]),
        hint("apiProvider", Some("string"), Some("LLM provider to use"), &["anthropic", "openai", "deepseek"], Some("anthropic"), &[]),
        hint("maxTokens", Some("integer"), Some("Maximum tokens per response"), &[], Some("4096"), &[]),
        hint("model", None, None, &[], None, &["gpt-4o", "deepseek-chat"]),
        hint("theme", Some("string"), Some("UI color theme"), &["auto", "dark", "light"], Some("auto"), &[]),
    ])
}

#[test]
fn key_completion_by_prefix_ignoring_case() {
    let items = completer().complete_key("API");
    let labels: Vec<&str> = items.iter().map(|i| i.label.as_str()).collect();
    assert_eq!(labels, vec!["apiBaseUrl", "apiKey", "apiProvider"]);
    assert_eq!(items[2].detail, "(string) LLM provider to use");
    assert_eq!(items[1].detail, "(string) ");
    let model = completer().complete_key("mod");
    assert_eq!(model[0].detail, "(any) ");
    assert!(completer().complete_key("zzz").is_empty());
    assert_eq!(completer().complete_key("").len(), 6);
}

#[test]
fn value_completion_orders_enum_default_examples() {
    let items = completer().complete_value("apiProvider", "deep");
    assert_eq!(items.len(), 1);
    assert_eq!(items[0].label, "deepseek");
    assert_eq!(items[0].detail, "enum value");

    let theme = completer().complete_value("theme", "");
    let auto_count = theme.iter().filter(|i| i.label == "auto").count();
    assert_eq!(auto_count, 1);

    let tokens = completer().complete_value("maxTokens", "");
    assert_eq!(tokens.len(), 1);
    assert_eq!(tokens[0].label, "4096");
    assert_eq!(tokens[0].detail, "default value");

    let url = completer().complete_value("apiBaseUrl", "HTTPS");
    assert_eq!(url.len(), 1);
    assert_eq!(url[0].detail, "example");

    assert!(completer().complete_value("nonexistent", "").is_empty());
}

fn builtin() -> SettingsCompleter {
    SettingsCompleter::default()
}

#[test]
fn complete_key_empty_returns_all() {
    let items = builtin().complete_key("");
    assert!(items.len() >= 10); // at least all known fields
}

#[test]
fn complete_key_api_prefix() {
    let items = builtin().complete_key("api");
    let labels: Vec<&str> = items.iter().map(|i| i.label.as_str()).collect();
    assert!(labels.contains(&"apiProvider"));
    assert!(labels.contains(&"apiBaseUrl"));
    assert!(labels.contains(&"apiKey"));
    assert!(!labels.contains(&"model"));
}

#[test]
fn complete_key_case_insensitive() {
    let items = builtin().complete_key("API");
    let labels: Vec<&str> = items.iter().map(|i| i.label.as_str()).collect();
    assert!(labels.contains(&"apiProvider"));
}

#[test]
fn complete_key_exact_match() {
    let items = builtin().complete_key("model");
    assert!(items.iter().any(|i| i.label == "model"));
}

#[test]
fn complete_key_no_match() {
    let items = builtin().complete_key("zzzzz");
    assert!(items.is_empty());
}

#[test]
fn complete_key_has_detail() {
    let items = builtin().complete_key("maxTokens");
    assert!(!items.is_empty());
    assert!(!items[0].detail.is_empty());
}

#[test]
fn complete_value_enum_field() {
    let items = builtin().complete_value("apiProvider", "");
    let labels: Vec<&str> = items.iter().map(|i| i.label.as_str()).collect();
    assert!(labels.contains(&"anthropic"));
    assert!(labels.contains(&"openai"));
}

#[test]
fn complete_value_enum_filtered() {
    let items = builtin().complete_value("apiProvider", "deep");
    assert_eq!(items.len(), 1);
    assert_eq!(items[0].label, "deepseek");
}

#[test]
fn complete_value_permission_mode() {
    let items = builtin().complete_value("permissionMode", "");
    let labels: Vec<&str> = items.iter().map(|i| i.label.as_str()).collect();
    assert!(labels.contains(&"default"));
    assert!(labels.contains(&"trustProject"));
    assert!(labels.contains(&"dangerously"));
}

#[test]
fn complete_value_with_default() {
    let items = builtin().complete_value("maxTokens", "");
    // Should include the default "4096"
    assert!(items.iter().any(|i| i.label == "4096"));
}

#[test]
fn complete_value_unknown_key() {
    let items = builtin().complete_value("nonexistent", "");
    assert!(items.is_empty());
}

#[test]
fn complete_value_case_insensitive() {
    let items = builtin().complete_value("apiProvider", "ANTH");
    assert!(items.iter().any(|i| i.label == "anthropic"));
}

#[test]
fn complete_value_no_duplicates() {
    // theme has both enum and default "auto" — should not duplicate
    let items = builtin().complete_value("theme", "");
    let auto_count = items.iter().filter(|i| i.label == "auto").count();
    assert_eq!(auto_count, 1);
}

#[test]
fn default_completer() {
    let c = SettingsCompleter::default();
    assert!(!c.complete_key("").is_empty());
}

#[test]
fn builtin_keys_come_in_key_order_with_type_details() {
    let items = builtin().complete_key("");
    let labels: Vec<&str> = items.iter().map(|i| i.label.as_str()).collect();
    let mut sorted = labels.clone();
    sorted.sort();
    assert_eq!(labels, sorted);
    assert_eq!(labels.len(), schema_property_names().len());
    let max = builtin().complete_key("maxTokens");
    assert_eq!(max[0].detail, "(integer) Maximum tokens per response");
}

#[test]
fn builtin_model_examples_are_offered() {
    let items = builtin().complete_value("model", "gpt");
    let labels: Vec<&str> = items.iter().map(|i| i.label.as_str()).collect();
    assert_eq!(labels, vec!["gpt-4o"]);
    assert_eq!(items[0].detail, "example");
}

#[test]
fn schema_has_all_known_properties() {
    for name in schema_property_names() {
        assert!(field_schema(name).is_some(), "missing property: {name}");
    }
}

#[test]
fn schema_api_provider_enum() {
    let providers = field_schema("apiProvider").unwrap().enum_values;
    assert!(providers.contains(&"anthropic".to_string()));
    assert!(providers.contains(&"openai".to_string()));
    assert!(providers.contains(&"deepseek".to_string()));
}

#[test]
fn schema_permission_mode_enum() {
    let modes = field_schema("permissionMode").unwrap().enum_values;
    assert!(modes.contains(&"default".to_string()));
    assert!(modes.contains(&"trustProject".to_string()));
    assert!(modes.contains(&"dangerously".to_string()));
}

#[test]
fn schema_theme_enum() {
    let themes = field_schema("theme").unwrap().enum_values;
    assert!(themes.contains(&"auto".to_string()));
    assert!(themes.contains(&"dark".to_string()));
    assert!(themes.contains(&"light".to_string()));
}

#[test]
fn field_schema_known_field() {
    let fs = field_schema("apiProvider").unwrap();
    assert_eq!(fs.json_type.as_deref(), Some("string"));
    assert!(!fs.enum_values.is_empty());
}

#[test]
fn field_schema_unknown_field() {
    assert!(field_schema("nonexistent").is_none());
}

#[test]
fn field_schema_max_tokens() {
    let mt = field_schema("maxTokens").unwrap();
    assert_eq!(mt.json_type.as_deref(), Some("integer"));
    assert_eq!(mt.default.as_deref(), Some("4096"));
}
