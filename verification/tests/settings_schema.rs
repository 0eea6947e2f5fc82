use crab_code::completion::{field_schema, schema_property_names};
use crab_code::settings_schema::{field_constraints, generate_settings_schema, SCHEMA_DIALECT};

#[test]
fn schema_is_valid_json_object() {
    let schema = generate_settings_schema();
    assert_eq!(schema.json_type, "object");
    assert!(schema.additional_properties);
    assert_eq!(schema.dialect, SCHEMA_DIALECT);
}

#[test]
fn schema_has_title() {
    let schema = generate_settings_schema();
    assert_eq!(schema.title, "Crab Code Settings");
}

#[test]
fn schema_lists_every_known_property() {
    let schema = generate_settings_schema();
    for name in schema_property_names() {
        assert!(schema.properties.iter().any(|p| p.key == name), "missing property: {name}");
    }
    assert_eq!(schema.properties.len(), schema_property_names().len());
}

#[test]
fn schema_max_tokens_constraints() {
    let mt = field_schema("maxTokens").unwrap();
    assert_eq!(mt.json_type.as_deref(), Some("integer"));
    let c = field_constraints("maxTokens").unwrap();
    assert_eq!(c.minimum, Some(1));
    assert_eq!(c.maximum, Some(1_000_000));
}

#[test]
fn schema_config_version_and_base_url() {
    assert_eq!(field_constraints("configVersion").unwrap().minimum, Some(0));
    assert_eq!(field_constraints("apiBaseUrl").unwrap().format.as_deref(), Some("uri"));
    assert!(field_constraints("theme").is_none());
}

#[test]
fn schema_has_defs() {
    let schema = generate_settings_schema();
    let names: Vec<&str> = schema.defs.iter().map(|d| d.name.as_str()).collect();
    assert!(names.contains(&"McpServerConfig"));
    assert!(names.contains(&"HookDefinition"));
}

#[test]
fn schema_mcp_servers_ref() {
    let c = field_constraints("mcpServers").unwrap();
    assert_eq!(c.values_ref.as_deref(), Some("#/$defs/McpServerConfig"));
    assert_eq!(field_constraints("hooks").unwrap().values_ref.as_deref(), Some("#/$defs/HookDefinition"));
}

#[test]
fn schema_hook_definition_required_command() {
    let schema = generate_settings_schema();
    let hook_def = schema.defs.iter().find(|d| d.name == "HookDefinition").unwrap();
    assert!(hook_def.required.contains(&"command".to_string()));
    let timeout = hook_def.fields.iter().find(|f| f.name == "timeout").unwrap();
    assert_eq!(timeout.minimum, Some(0));
    assert_eq!(timeout.default, Some(10000));
}

#[test]
fn schema_mcp_server_fields() {
    let schema = generate_settings_schema();
    let mcp = schema.defs.iter().find(|d| d.name == "McpServerConfig").unwrap();
    assert!(mcp.open);
    assert!(mcp.required.is_empty());
    let args = mcp.fields.iter().find(|f| f.name == "args").unwrap();
    assert_eq!(args.json_type, "array");
    assert_eq!(args.items_type.as_deref(), Some("string"));
    let env = mcp.fields.iter().find(|f| f.name == "env").unwrap();
    assert_eq!(env.values_type.as_deref(), Some("string"));
}
