//! The JSON Schema (draft-07) of `settings.json`, as data: what editors
//! use to validate the file and to offer completions. The properties come
//! from the completer's table; this module adds the numeric bounds,
//! formats and references of the top-level fields and the shared
//! definitions they refer to. Writing it out as JSON is left to the caller.
use vstd::prelude::*;
use crate::completion::{builtin_hints, builtin_settings_properties, hints_view, HintModel, PropertyHint};
use crate::text::{opt_string_view, str_eq, strings_view};

verus! {

/// The JSON Schema dialect of the schema.
pub const SCHEMA_DIALECT: &'static str = "http://json-schema.org/draft-07/schema#";

/// The schema's title.
pub const SCHEMA_TITLE: &'static str = "Crab Code Settings";

/// The schema's description.
pub const SCHEMA_DESCRIPTION: &'static str = "Configuration file for Crab Code (~/.crab/settings.json)";

/// The constraints of a top-level field beyond its type, description,
/// allowed values, default and examples.
#[derive(Debug, Clone, PartialEq, Eq)]
pub struct FieldConstraints {
    /// The field's key.
    pub key: String,
    /// Its least value, for an integer.
    pub minimum: Option<u64>,
    /// Its greatest value, for an integer.
    pub maximum: Option<u64>,
    /// The format of its text, for a string (such as `uri`).
    pub format: Option<String>,
    /// For an object, the shared definition each of its values follows.
    pub values_ref: Option<String>,
}

/// A field of a shared definition.
#[derive(Debug, Clone, PartialEq, Eq)]
pub struct DefField {
    pub name: String,
    pub json_type: String,
    pub description: String,
    /// The format of its text, for a string.
    pub format: Option<String>,
    /// The type of its items, for an array.
    pub items_type: Option<String>,
    /// The type of its values, for an object.
    pub values_type: Option<String>,
    /// Its least value, for an integer.
    pub minimum: Option<u64>,
    /// Its default, for an integer.
    pub default: Option<u64>,
}

/// A shared definition (`$defs`) of the schema: an object type.
#[derive(Debug, Clone, PartialEq, Eq)]
pub struct SchemaDef {
    pub name: String,
    pub description: String,
    /// Its fields, in key order.
    pub fields: Vec<DefField>,
    /// The fields it must have.
    pub required: Vec<String>,
    /// Whether it admits fields beyond those listed.
    pub open: bool,
}

/// The settings schema: an object with the listed properties, admitting
/// others.
#[derive(Debug, Clone)]
pub struct SettingsSchema {
    pub dialect: String,
    pub title: String,
    pub description: String,
    /// The JSON type of the settings: `object`.
    pub json_type: String,
    /// The top-level properties, in key order.
    pub properties: Vec<PropertyHint>,
    /// The further constraints of the top-level properties that have any,
    /// in key order.
    pub constraints: Vec<FieldConstraints>,
    /// Whether properties beyond those listed are admitted.
    pub additional_properties: bool,
    /// The shared definitions, in name order.
    pub defs: Vec<SchemaDef>,
}

/// Field constraints as plain values.
pub type ConstraintModel = (Seq<char>, Option<u64>, Option<u64>, Option<Seq<char>>, Option<Seq<char>>);

/// A definition's field as plain values.
pub type DefFieldModel = (
    Seq<char>,
    Seq<char>,
    Seq<char>,
    Option<Seq<char>>,
    Option<Seq<char>>,
    Option<Seq<char>>,
    Option<u64>,
    Option<u64>,
);

/// A shared definition as plain values.
pub type DefModel = (Seq<char>, Seq<char>, Seq<DefFieldModel>, Seq<Seq<char>>, bool);

/// The view of field constraints.
pub open spec fn constraint_view(c: FieldConstraints) -> ConstraintModel {
    (c.key@, c.minimum, c.maximum, opt_string_view(c.format), opt_string_view(c.values_ref))
}

/// The views of a list of field constraints.
pub open spec fn constraints_view(v: Seq<FieldConstraints>) -> Seq<ConstraintModel> {
    v.map_values(|c: FieldConstraints| constraint_view(c))
}

/// The view of a definition's field.
pub open spec fn def_field_view(f: DefField) -> DefFieldModel {
    (
        f.name@,
        f.json_type@,
        f.description@,
        opt_string_view(f.format),
        opt_string_view(f.items_type),
        opt_string_view(f.values_type),
        f.minimum,
        f.default,
    )
}

/// The views of a definition's fields.
pub open spec fn def_fields_view(v: Seq<DefField>) -> Seq<DefFieldModel> {
    v.map_values(|f: DefField| def_field_view(f))
}

/// The view of a shared definition.
pub open spec fn def_view(d: SchemaDef) -> DefModel {
    (d.name@, d.description@, def_fields_view(d.fields@), strings_view(d.required@), d.open)
}

/// The views of the shared definitions.
pub open spec fn defs_view(v: Seq<SchemaDef>) -> Seq<DefModel> {
    v.map_values(|d: SchemaDef| def_view(d))
}

/// The further constraints of the top-level fields: `apiBaseUrl` is a URI,
/// `configVersion` at least 0, `maxTokens` from 1 to 1,000,000, and the
/// values of `hooks` and `mcpServers` follow their shared definitions.
pub open spec fn builtin_constraints() -> Seq<ConstraintModel> {
    seq![
        ("apiBaseUrl"@, None, None, Some("uri"@), None),
        ("configVersion"@, Some(0u64), None, None, None),
        ("hooks"@, None, None, None, Some("#/$defs/HookDefinition"@)),
        ("maxTokens"@, Some(1u64), Some(1000000u64), None, None),
        ("mcpServers"@, None, None, None, Some("#/$defs/McpServerConfig"@)),
    ]
}

/// The shared definitions: a hook (a command, required, and a timeout in
/// milliseconds, 10,000 by default) and an MCP server (a command with its
/// arguments and environment, or a URL; further fields admitted).
pub open spec fn builtin_defs() -> Seq<DefModel> {
    seq![
        ("HookDefinition"@, "A hook triggered by a lifecycle event"@, seq![("command"@, "string"@, "Shell command to execute"@, None, None, None, None, None), ("timeout"@, "integer"@, "Timeout in milliseconds"@, None, None, None, Some(0u64), Some(10000u64))], seq!["command"@], false),
        ("McpServerConfig"@, "Configuration for an MCP server"@, seq![("args"@, "array"@, "Arguments for the command"@, None, Some("string"@), None, None, None), ("command"@, "string"@, "Command to launch the MCP server"@, None, None, None, None, None), ("env"@, "object"@, "Environment variables"@, None, None, Some("string"@), None, None), ("url"@, "string"@, "URL for SSE/WebSocket transport (instead of command)"@, Some("uri"@), None, None, None, None)], Seq::<Seq<char>>::empty(), true),
    ]
}

/// Whether `s` is the settings schema.
pub open spec fn is_settings_schema(s: SettingsSchema) -> bool {
    &&& s.dialect@ == SCHEMA_DIALECT@
    &&& s.title@ == SCHEMA_TITLE@
    &&& s.description@ == SCHEMA_DESCRIPTION@
    &&& s.json_type@ == "object"@
    &&& hints_view(s.properties@) == builtin_hints()
    &&& constraints_view(s.constraints@) == builtin_constraints()
    &&& s.additional_properties
    &&& defs_view(s.defs@) == builtin_defs()
}

fn constraint(
    key: &str,
    minimum: Option<u64>,
    maximum: Option<u64>,
    format: Option<&str>,
    values_ref: Option<&str>,
) -> (r: FieldConstraints)
    ensures
        constraint_view(r) == (key@, minimum, maximum, match format {
            Some(f) => Some(f@),
            None => None,
        }, match values_ref {
            Some(v) => Some(v@),
            None => None,
        }),
{
    FieldConstraints {
        key: key.to_string(),
        minimum,
        maximum,
        format: match format {
            Some(f) => Some(f.to_string()),
            None => None,
        },
        values_ref: match values_ref {
            Some(v) => Some(v.to_string()),
            None => None,
        },
    }
}

/// An owned copy of an optional text.
fn owned(v: Option<&str>) -> (r: Option<String>)
    ensures
        opt_string_view(r) == match v {
            Some(s) => Some(s@),
            None => None,
        },
{
    match v {
        Some(s) => Some(s.to_string()),
        None => None,
    }
}

fn def_field(
    name: &str,
    json_type: &str,
    description: &str,
    format: Option<&str>,
    items_type: Option<&str>,
    values_type: Option<&str>,
    minimum: Option<u64>,
    default: Option<u64>,
) -> (r: DefField)
    ensures
        def_field_view(r) == (name@, json_type@, description@, match format {
            Some(s) => Some(s@),
            None => None,
        }, match items_type {
            Some(s) => Some(s@),
            None => None,
        }, match values_type {
            Some(s) => Some(s@),
            None => None,
        }, minimum, default),
{
    DefField {
        name: name.to_string(),
        json_type: json_type.to_string(),
        description: description.to_string(),
        format: owned(format),
        items_type: owned(items_type),
        values_type: owned(values_type),
        minimum,
        default,
    }
}

/// Owned copies of string slices.
fn owned_all(v: Vec<&str>) -> (r: Vec<String>)
    ensures
        strings_view(r@) == v@.map_values(|s: &str| s@),
{
    let mut r: Vec<String> = Vec::new();
    let mut i: usize = 0;
    while i < v.len()
        invariant
            i <= v.len(),
            strings_view(r@) == v@.take(i as int).map_values(|s: &str| s@),
        decreases v.len() - i,
    {
        let ghost before = r@;
        r.push(v[i].to_string());
        proof {
            assert(strings_view(r@) =~= strings_view(before).push(v@[i as int]@));
            assert(v@.take(i + 1).map_values(|s: &str| s@) =~= v@.take(i as int).map_values(|s: &str| s@).push(
                v@[i as int]@,
            ));
        }
        i += 1;
    }
    proof {
        assert(v@.take(i as int) =~= v@);
    }
    r
}

/// The further constraints of the top-level fields.
pub fn builtin_field_constraints() -> (r: Vec<FieldConstraints>)
    ensures
        constraints_view(r@) == builtin_constraints(),
{
    let r = vec![
        constraint("apiBaseUrl", None, None, Some("uri"), None),
        constraint("configVersion", Some(0), None, None, None),
        constraint("hooks", None, None, None, Some("#/$defs/HookDefinition")),
        constraint("maxTokens", Some(1), Some(1000000), None, None),
        constraint("mcpServers", None, None, None, Some("#/$defs/McpServerConfig")),
    ];
    proof {
        assert(constraints_view(r@)[0] == builtin_constraints()[0]);
        assert(constraints_view(r@)[1] == builtin_constraints()[1]);
        assert(constraints_view(r@)[2] == builtin_constraints()[2]);
        assert(constraints_view(r@)[3] == builtin_constraints()[3]);
        assert(constraints_view(r@)[4] == builtin_constraints()[4]);
        assert(constraints_view(r@) =~= builtin_constraints());
    }
    r
}

/// The shared definition `HookDefinition`.
fn def_hookdefinition() -> (r: SchemaDef)
    ensures
        def_view(r) == builtin_defs()[0],
{
    let fields = vec![def_field("command", "string", "Shell command to execute", None, None, None, None, None), def_field("timeout", "integer", "Timeout in milliseconds", None, None, None, Some(0), Some(10000))];
    let required = owned_all(vec!["command"]);
    proof {
        assert(def_fields_view(fields@)[0] == builtin_defs()[0].2[0]);
        assert(def_fields_view(fields@)[1] == builtin_defs()[0].2[1]);
        assert(def_fields_view(fields@) =~= builtin_defs()[0].2);
        assert(strings_view(required@) =~= builtin_defs()[0].3);
    }
    SchemaDef { name: "HookDefinition".to_string(), description: "A hook triggered by a lifecycle event".to_string(), fields, required, open: false }
}

/// The shared definition `McpServerConfig`.
fn def_mcpserverconfig() -> (r: SchemaDef)
    ensures
        def_view(r) == builtin_defs()[1],
{
    let fields = vec![def_field("args", "array", "Arguments for the command", None, Some("string"), None, None, None), def_field("command", "string", "Command to launch the MCP server", None, None, None, None, None), def_field("env", "object", "Environment variables", None, None, Some("string"), None, None), def_field("url", "string", "URL for SSE/WebSocket transport (instead of command)", Some("uri"), None, None, None, None)];
    let required = owned_all(Vec::new());
    proof {
        assert(def_fields_view(fields@)[0] == builtin_defs()[1].2[0]);
        assert(def_fields_view(fields@)[1] == builtin_defs()[1].2[1]);
        assert(def_fields_view(fields@)[2] == builtin_defs()[1].2[2]);
        assert(def_fields_view(fields@)[3] == builtin_defs()[1].2[3]);
        assert(def_fields_view(fields@) =~= builtin_defs()[1].2);
        assert(strings_view(required@) =~= builtin_defs()[1].3);
    }
    SchemaDef { name: "McpServerConfig".to_string(), description: "Configuration for an MCP server".to_string(), fields, required, open: true }
}

/// The shared definitions, in name order.
pub fn builtin_schema_defs() -> (r: Vec<SchemaDef>)
    ensures
        defs_view(r@) == builtin_defs(),
{
    let r = vec![def_hookdefinition(), def_mcpserverconfig()];
    proof {
        assert(defs_view(r@) =~= builtin_defs());
    }
    r
}

/// The JSON Schema of `settings.json`.
pub fn generate_settings_schema() -> (r: SettingsSchema)
    ensures
        is_settings_schema(r),
{
    SettingsSchema {
        dialect: SCHEMA_DIALECT.to_string(),
        title: SCHEMA_TITLE.to_string(),
        description: SCHEMA_DESCRIPTION.to_string(),
        json_type: "object".to_string(),
        properties: builtin_settings_properties(),
        constraints: builtin_field_constraints(),
        additional_properties: true,
        defs: builtin_schema_defs(),
    }
}

/// The position of the first constraints with key `key` from `i` on.
pub open spec fn constraint_index(cs: Seq<ConstraintModel>, key: Seq<char>, i: int) -> Option<int>
    decreases cs.len() - i,
{
    if i < 0 || i >= cs.len() {
        None
    } else if cs[i].0 == key {
        Some(i)
    } else {
        constraint_index(cs, key, i + 1)
    }
}

/// The further constraints of the top-level field `field`, if it has any.
pub fn field_constraints(field: &str) -> (r: Option<FieldConstraints>)
    ensures
        match constraint_index(builtin_constraints(), field@, 0) {
            Some(i) => r matches Some(c) && constraint_view(c) == builtin_constraints()[i],
            None => r is None,
        },
{
    let mut cs = builtin_field_constraints();
    let ghost v = constraints_view(cs@);
    let mut i: usize = 0;
    while i < cs.len()
        invariant
            i <= cs.len(),
            v == constraints_view(cs@),
            v == builtin_constraints(),
            constraint_index(v, field@, 0) == constraint_index(v, field@, i as int),
        decreases cs.len() - i,
    {
        assert(v[i as int] == constraint_view(cs@[i as int]));
        if str_eq(cs[i].key.as_str(), field) {
            return Some(cs.swap_remove(i));
        }
        i += 1;
    }
    None
}

} // verus!
