//! Completion hints for settings keys and values, for editors and command
//! line autocomplete.
//!
//! The completer reads, for each property of the settings schema, its key,
//! type, description, allowed values, default and examples (values other
//! than strings already shown as JSON text).
use vstd::prelude::*;
use crate::text::{
    chars_of, chars_start_with, concat_str, lowercase, opt_string_view, starts_with, str_eq,
    strings_view, to_lowercase,
};

verus! {

/// A single completion suggestion.
#[derive(Debug, Clone, PartialEq, Eq)]
pub struct CompletionItem {
    /// Display label (e.g. `apiProvider`).
    pub label: String,
    /// Short description of this item.
    pub detail: String,
    /// Text to insert.
    pub insert_text: String,
}

/// What the completer knows of one property of the settings schema.
#[derive(Debug, Clone)]
pub struct PropertyHint {
    /// The property's key.
    pub key: String,
    /// Its description, if the schema gives one.
    pub description: Option<String>,
    /// Its JSON type, if the schema gives one.
    pub json_type: Option<String>,
    /// Its allowed string values, in schema order.
    pub enum_values: Vec<String>,
    /// Its default value as text, if any.
    pub default: Option<String>,
    /// Its example values as text, in schema order.
    pub examples: Vec<String>,
}

/// Completer that suggests settings keys and values.
pub struct SettingsCompleter {
    properties: Vec<PropertyHint>,
}

/// An item as plain values: label, detail, insert text.
pub open spec fn item_view(i: CompletionItem) -> (Seq<char>, Seq<char>, Seq<char>) {
    (i.label@, i.detail@, i.insert_text@)
}

/// The views of a list of items.
pub open spec fn items_view(v: Seq<CompletionItem>) -> Seq<(Seq<char>, Seq<char>, Seq<char>)> {
    v.map_values(|i: CompletionItem| item_view(i))
}

/// Whether `s` starts with `lower` once lowercased.
pub open spec fn offered(s: Seq<char>, lower: Seq<char>) -> bool {
    starts_with(lowercase(s), lower)
}

/// The item suggesting property `p`'s key: detail `(type) description`,
/// with `any` for a missing type and nothing for a missing description.
pub open spec fn key_item(p: PropertyHint) -> (Seq<char>, Seq<char>, Seq<char>) {
    let t = match p.json_type {
        Some(t) => t@,
        None => "any"@,
    };
    let d = match p.description {
        Some(d) => d@,
        None => Seq::empty(),
    };
    (p.key@, "("@ + t + ") "@ + d, p.key@)
}

/// The key items of the first `n` properties whose key is offered for
/// `lower`, in property order.
pub open spec fn key_items(props: Seq<PropertyHint>, lower: Seq<char>, n: int) -> Seq<
    (Seq<char>, Seq<char>, Seq<char>),
>
    decreases n,
{
    if n <= 0 {
        Seq::empty()
    } else if offered(props[n - 1].key@, lower) {
        key_items(props, lower, n - 1).push(key_item(props[n - 1]))
    } else {
        key_items(props, lower, n - 1)
    }
}

/// A value item: the value as label and insert text, with a detail.
pub open spec fn value_item(v: Seq<char>, detail: Seq<char>) -> (Seq<char>, Seq<char>, Seq<char>) {
    (v, detail, v)
}

/// The labels of a list of items.
pub open spec fn labels(items: Seq<(Seq<char>, Seq<char>, Seq<char>)>) -> Seq<Seq<char>> {
    items.map_values(|i: (Seq<char>, Seq<char>, Seq<char>)| i.0)
}

/// `acc` followed, for each of the first `n` values offered for `lower`
/// and not yet a label, by an item with the given detail; with `dedup`
/// false, no value is left out for being a label already.
pub open spec fn add_values(
    acc: Seq<(Seq<char>, Seq<char>, Seq<char>)>,
    values: Seq<Seq<char>>,
    lower: Seq<char>,
    detail: Seq<char>,
    dedup: bool,
    n: int,
) -> Seq<(Seq<char>, Seq<char>, Seq<char>)>
    decreases n,
{
    if n <= 0 {
        acc
    } else {
        let a = add_values(acc, values, lower, detail, dedup, n - 1);
        let v = values[n - 1];
        if offered(v, lower) && !(dedup && labels(a).contains(v)) {
            a.push(value_item(v, detail))
        } else {
            a
        }
    }
}

/// The value items of property `p` for `lower`: its allowed values, then
/// its default and its examples, each offered value once.
pub open spec fn value_items(p: PropertyHint, lower: Seq<char>) -> Seq<(Seq<char>, Seq<char>, Seq<char>)> {
    let e = add_values(
        Seq::empty(),
        strings_view(p.enum_values@),
        lower,
        "enum value"@,
        false,
        p.enum_values@.len() as int,
    );
    let d = match p.default {
        Some(v) => add_values(e, seq![v@], lower, "default value"@, true, 1),
        None => e,
    };
    add_values(d, strings_view(p.examples@), lower, "example"@, true, p.examples@.len() as int)
}

/// The position of the first property with key `key`, if any.
pub open spec fn property_index(props: Seq<PropertyHint>, key: Seq<char>) -> Option<int> {
    if exists|i: int| 0 <= i < props.len() && (#[trigger] props[i]).key@ == key {
        Some(
            choose|i: int|
                0 <= i < props.len() && (#[trigger] props[i]).key@ == key && forall|j: int|
                    0 <= j < i ==> props[j].key@ != key,
        )
    } else {
        None
    }
}

/// Whether one of the items is labelled `v`.
fn has_label(items: &Vec<CompletionItem>, v: &str) -> (r: bool)
    ensures
        r == labels(items_view(items@)).contains(v@),
{
    let ghost ls = labels(items_view(items@));
    let mut i: usize = 0;
    while i < items.len()
        invariant
            i <= items@.len(),
            ls == labels(items_view(items@)),
            forall|k: int| 0 <= k < i ==> ls[k] != v@,
        decreases items@.len() - i,
    {
        if str_eq(items[i].label.as_str(), v) {
            proof {
                assert(ls[i as int] == v@);
            }
            return true;
        }
        i += 1;
    }
    false
}

/// Appends an item for each value offered for `lower` (and, with `dedup`,
/// not yet a label), with the given detail.
fn push_values(
    items: &mut Vec<CompletionItem>,
    values: &[String],
    lower: &[char],
    detail: &str,
    dedup: bool,
)
    ensures
        items_view(final(items)@) == add_values(
            items_view(old(items)@),
            strings_view(values@),
            lower@,
            detail@,
            dedup,
            values@.len() as int,
        ),
{
    let mut k: usize = 0;
    while k < values.len()
        invariant
            k <= values@.len(),
            items_view(items@) == add_values(
                items_view(old(items)@),
                strings_view(values@),
                lower@,
                detail@,
                dedup,
                k as int,
            ),
        decreases values@.len() - k,
    {
        let v = values[k].as_str();
        let lv = to_lowercase(v);
        let lc = chars_of(lv.as_str());
        if chars_start_with(lc.as_slice(), lower) && !(dedup && has_label(items, v)) {
            let ghost before = items@;
            items.push(CompletionItem { label: v.to_owned(), detail: detail.to_owned(), insert_text: v.to_owned() });
            proof {
                assert(items_view(items@) =~= items_view(before).push(value_item(v@, detail@)));
            }
        }
        k += 1;
    }
}

impl SettingsCompleter {
    /// The properties the completer knows, in schema order.
    pub closed spec fn properties(&self) -> Seq<PropertyHint> {
        self.properties@
    }

    /// A completer for the given properties of the settings schema.
    pub fn new(properties: Vec<PropertyHint>) -> (r: Self)
        ensures
            r.properties() == properties@,
    {
        SettingsCompleter { properties }
    }

    /// Suggests the keys that start with `partial`, ignoring case.
    pub fn complete_key(&self, partial: &str) -> (r: Vec<CompletionItem>)
        ensures
            items_view(r@) == key_items(
                self.properties(),
                lowercase(partial@),
                self.properties().len() as int,
            ),
    {
        let lp = to_lowercase(partial);
        let lower = chars_of(lp.as_str());
        let mut out: Vec<CompletionItem> = Vec::new();
        let mut i: usize = 0;
        while i < self.properties.len()
            invariant
                i <= self.properties@.len(),
                lower@ == lowercase(partial@),
                items_view(out@) == key_items(self.properties@, lower@, i as int),
            decreases self.properties@.len() - i,
        {
            let p = &self.properties[i];
            let lk = to_lowercase(p.key.as_str());
            let lkc = chars_of(lk.as_str());
            if chars_start_with(lkc.as_slice(), lower.as_slice()) {
                let t = match &p.json_type {
                    Some(t) => t.as_str(),
                    None => "any",
                };
                let d = match &p.description {
                    Some(d) => d.as_str(),
                    None => "",
                };
                let a = concat_str("(", t);
                let b = concat_str(a.as_str(), ") ");
                let detail = concat_str(b.as_str(), d);
                let item = CompletionItem { label: p.key.clone(), detail, insert_text: p.key.clone() };
                let ghost before = out@;
                out.push(item);
                proof {
                    reveal_strlit("");
                    assert(items_view(out@) =~= items_view(before).push(key_item(self.properties@[i as int])));
                }
            }
            i += 1;
        }
        out
    }

    /// Suggests values for the property `key`, filtered by the prefix
    /// `partial` (ignoring case): its allowed values, then its default
    /// and its examples, each value once. No suggestion for an unknown key.
    pub fn complete_value(&self, key: &str, partial: &str) -> (r: Vec<CompletionItem>)
        ensures
            match property_index(self.properties(), key@) {
                None => r@.len() == 0,
                Some(i) => items_view(r@) == value_items(self.properties()[i], lowercase(partial@)),
            },
    {
        let mut i: usize = 0;
        while i < self.properties.len()
            invariant
                i <= self.properties@.len(),
                forall|j: int| 0 <= j < i ==> self.properties@[j].key@ != key@,
            ensures
                i <= self.properties@.len(),
                forall|j: int| 0 <= j < i ==> self.properties@[j].key@ != key@,
                i < self.properties@.len() ==> self.properties@[i as int].key@ == key@,
            decreases self.properties@.len() - i,
        {
            if str_eq(self.properties[i].key.as_str(), key) {
                break;
            }
            i += 1;
        }
        if i == self.properties.len() {
            proof {
                assert(!exists|j: int| 0 <= j < self.properties@.len() && (#[trigger] self.properties@[j]).key@ == key@);
            }
            return Vec::new();
        }
        proof {
            let props = self.properties@;
            assert(props[i as int].key@ == key@);
            let j = choose|j: int|
                0 <= j < props.len() && (#[trigger] props[j]).key@ == key@ && forall|k: int|
                    0 <= k < j ==> props[k].key@ != key@;
            if j < i {
                assert(props[j].key@ != key@);
            } else if j > i {
                assert(props[i as int].key@ != key@);
            }
            assert(property_index(props, key@) == Some(i as int));
        }
        let p = &self.properties[i];
        let lp = to_lowercase(partial);
        let lower = chars_of(lp.as_str());
        let mut items: Vec<CompletionItem> = Vec::new();
        proof {
            assert(items_view(items@) =~= Seq::<(Seq<char>, Seq<char>, Seq<char>)>::empty());
        }
        push_values(&mut items, p.enum_values.as_slice(), lower.as_slice(), "enum value", false);
        match &p.default {
            Some(v) => {
                let one = vec![v.clone()];
                proof {
                    assert(strings_view(one@) =~= seq![v@]);
                }
                push_values(&mut items, one.as_slice(), lower.as_slice(), "default value", true);
            },
            None => {},
        }
        push_values(&mut items, p.examples.as_slice(), lower.as_slice(), "example", true);
        items
    }
}

/// The top-level property names of the settings schema.
pub open spec fn property_names() -> Seq<Seq<char>> {
    seq![
        "configVersion"@,
        "apiProvider"@,
        "apiBaseUrl"@,
        "apiKey"@,
        "model"@,
        "smallModel"@,
        "maxTokens"@,
        "permissionMode"@,
        "systemPrompt"@,
        "mcpServers"@,
        "hooks"@,
        "theme"@,
    ]
}

/// The names of all top-level properties of the settings schema.
pub fn schema_property_names() -> (r: Vec<&'static str>)
    ensures
        r@.map_values(|s: &'static str| s@) == property_names(),
{
    let r = vec![
        "configVersion",
        "apiProvider",
        "apiBaseUrl",
        "apiKey",
        "model",
        "smallModel",
        "maxTokens",
        "permissionMode",
        "systemPrompt",
        "mcpServers",
        "hooks",
        "theme",
    ];
    proof {
        assert(r@.map_values(|s: &'static str| s@) =~= property_names());
    }
    r
}

// ── The built-in settings schema ───────────────────────────────────────

/// A property hint as plain values: key, description, type, allowed
/// values, default, examples.
pub type HintModel = (
    Seq<char>,
    Option<Seq<char>>,
    Option<Seq<char>>,
    Seq<Seq<char>>,
    Option<Seq<char>>,
    Seq<Seq<char>>,
);

/// The view of a property hint.
pub open spec fn hint_view(p: PropertyHint) -> HintModel {
    (
        p.key@,
        opt_string_view(p.description),
        opt_string_view(p.json_type),
        strings_view(p.enum_values@),
        opt_string_view(p.default),
        strings_view(p.examples@),
    )
}

/// The views of a list of property hints.
pub open spec fn hints_view(v: Seq<PropertyHint>) -> Seq<HintModel> {
    v.map_values(|p: PropertyHint| hint_view(p))
}

/// The properties of the built-in settings schema, in key order (the order
/// in which its JSON object lists them), with the type, description,
/// allowed values, default and examples that the schema gives each.
pub open spec fn builtin_hints() -> Seq<HintModel> {
    seq![
        ("apiBaseUrl"@, Some("Base URL for the LLM API endpoint"@), Some("string"@), Seq::<Seq<char>>::empty(), None, seq!["https://api.anthropic.com"@, "http://localhost:11434/v1"@]),
        ("apiKey"@, Some("API key for the LLM provider (prefer env vars or keychain)"@), Some("string"@), Seq::<Seq<char>>::empty(), None, Seq::<Seq<char>>::empty()),
        ("apiProvider"@, Some("LLM provider to use"@), Some("string"@), seq!["anthropic"@, "openai"@, "deepseek"@, "ollama"@, "vllm"@, "bedrock"@, "vertex"@], Some("anthropic"@), Seq::<Seq<char>>::empty()),
        ("configVersion"@, Some("Schema version for config migration"@), Some("integer"@), Seq::<Seq<char>>::empty(), None, Seq::<Seq<char>>::empty()),
        ("hooks"@, Some("Hook definitions triggered by lifecycle events"@), Some("object"@), Seq::<Seq<char>>::empty(), None, Seq::<Seq<char>>::empty()),
        ("maxTokens"@, Some("Maximum tokens per response"@), Some("integer"@), Seq::<Seq<char>>::empty(), Some("4096"@), Seq::<Seq<char>>::empty()),
        ("mcpServers"@, Some("MCP server configurations"@), Some("object"@), Seq::<Seq<char>>::empty(), None, Seq::<Seq<char>>::empty()),
        ("model"@, Some("Primary model to use for generation"@), Some("string"@), Seq::<Seq<char>>::empty(), None, seq!["gpt-4o"@, "deepseek-chat"@]),
        ("permissionMode"@, Some("Permission enforcement level"@), Some("string"@), seq!["default"@, "trustProject"@, "dangerously"@], Some("default"@), Seq::<Seq<char>>::empty()),
        ("smallModel"@, Some("Smaller/faster model for auxiliary tasks"@), Some("string"@), Seq::<Seq<char>>::empty(), None, seq!["gpt-4o-mini"@]),
        ("systemPrompt"@, Some("Custom system prompt to prepend"@), Some("string"@), Seq::<Seq<char>>::empty(), None, Seq::<Seq<char>>::empty()),
        ("theme"@, Some("UI color theme"@), Some("string"@), seq!["auto"@, "dark"@, "light"@], Some("auto"@), Seq::<Seq<char>>::empty()),
    ]
}

/// The views of a list of string slices.
pub open spec fn strs_view(v: Seq<&str>) -> Seq<Seq<char>> {
    v.map_values(|s: &str| s@)
}

/// Owned copies of string slices.
fn owned_strings(v: Vec<&str>) -> (r: Vec<String>)
    ensures
        strings_view(r@) == strs_view(v@),
{
    let mut r: Vec<String> = Vec::new();
    let mut i: usize = 0;
    while i < v.len()
        invariant
            i <= v.len(),
            strings_view(r@) == strs_view(v@.take(i as int)),
        decreases v.len() - i,
    {
        let ghost before = r@;
        r.push(v[i].to_string());
        proof {
            assert(strings_view(r@) =~= strings_view(before).push(v@[i as int]@));
            assert(strs_view(v@.take(i + 1)) =~= strs_view(v@.take(i as int)).push(v@[i as int]@));
        }
        i += 1;
    }
    proof {
        assert(v@.take(i as int) =~= v@);
    }
    r
}

/// A property hint with the given texts.
fn hint(
    key: &str,
    description: &str,
    json_type: &str,
    enum_values: Vec<&str>,
    default: Option<&str>,
    examples: Vec<&str>,
) -> (r: PropertyHint)
    ensures
        hint_view(r) == (
            key@,
            Some(description@),
            Some(json_type@),
            strs_view(enum_values@),
            match default {
                Some(d) => Some(d@),
                None => None,
            },
            strs_view(examples@),
        ),
{
    PropertyHint {
        key: key.to_string(),
        description: Some(description.to_string()),
        json_type: Some(json_type.to_string()),
        enum_values: owned_strings(enum_values),
        default: match default {
            Some(d) => Some(d.to_string()),
            None => None,
        },
        examples: owned_strings(examples),
    }
}

/// The properties of the built-in settings schema.
#[verifier::rlimit(40)]
pub fn builtin_settings_properties() -> (r: Vec<PropertyHint>)
    ensures
        hints_view(r@) == builtin_hints(),
{
    let r = vec![
        hint("apiBaseUrl", "Base URL for the LLM API endpoint", "string", Vec::new(), None, vec!["https://api.anthropic.com", "http://localhost:11434/v1"]),
        hint("apiKey", "API key for the LLM provider (prefer env vars or keychain)", "string", Vec::new(), None, Vec::new()),
        hint("apiProvider", "LLM provider to use", "string", vec!["anthropic", "openai", "deepseek", "ollama", "vllm", "bedrock", "vertex"], Some("anthropic"), Vec::new()),
        hint("configVersion", "Schema version for config migration", "integer", Vec::new(), None, Vec::new()),
        hint("hooks", "Hook definitions triggered by lifecycle events", "object", Vec::new(), None, Vec::new()),
        hint("maxTokens", "Maximum tokens per response", "integer", Vec::new(), Some("4096"), Vec::new()),
        hint("mcpServers", "MCP server configurations", "object", Vec::new(), None, Vec::new()),
        hint("model", "Primary model to use for generation", "string", Vec::new(), None, vec!["gpt-4o", "deepseek-chat"]),
        hint("permissionMode", "Permission enforcement level", "string", vec!["default", "trustProject", "dangerously"], Some("default"), Vec::new()),
        hint("smallModel", "Smaller/faster model for auxiliary tasks", "string", Vec::new(), None, vec!["gpt-4o-mini"]),
        hint("systemPrompt", "Custom system prompt to prepend", "string", Vec::new(), None, Vec::new()),
        hint("theme", "UI color theme", "string", vec!["auto", "dark", "light"], Some("auto"), Vec::new()),
    ];
    proof {
        assert(hints_view(r@)[0] == builtin_hints()[0]);
        assert(hints_view(r@)[1] == builtin_hints()[1]);
        assert(hints_view(r@)[2] == builtin_hints()[2]);
        assert(hints_view(r@)[3] == builtin_hints()[3]);
        assert(hints_view(r@)[4] == builtin_hints()[4]);
        assert(hints_view(r@)[5] == builtin_hints()[5]);
        assert(hints_view(r@)[6] == builtin_hints()[6]);
        assert(hints_view(r@)[7] == builtin_hints()[7]);
        assert(hints_view(r@)[8] == builtin_hints()[8]);
        assert(hints_view(r@)[9] == builtin_hints()[9]);
        assert(hints_view(r@)[10] == builtin_hints()[10]);
        assert(hints_view(r@)[11] == builtin_hints()[11]);
        assert(hints_view(r@) =~= builtin_hints());
    }
    r
}

/// The position of the first hint with key `key` from `i` on, if any.
pub open spec fn hint_index(hs: Seq<HintModel>, key: Seq<char>, i: int) -> Option<int>
    decreases hs.len() - i,
{
    if i < 0 || i >= hs.len() {
        None
    } else if hs[i].0 == key {
        Some(i)
    } else {
        hint_index(hs, key, i + 1)
    }
}

/// The schema of one top-level settings field: its type, description,
/// allowed values, default and examples; `None` for a field the schema does
/// not know.
pub fn field_schema(field: &str) -> (r: Option<PropertyHint>)
    ensures
        match hint_index(builtin_hints(), field@, 0) {
            Some(i) => r matches Some(h) && hint_view(h) == builtin_hints()[i],
            None => r is None,
        },
{
    let mut props = builtin_settings_properties();
    let ghost hs = hints_view(props@);
    let mut i: usize = 0;
    while i < props.len()
        invariant
            i <= props.len(),
            hs == hints_view(props@),
            hs == builtin_hints(),
            hint_index(hs, field@, 0) == hint_index(hs, field@, i as int),
        decreases props.len() - i,
    {
        assert(hs[i as int] == hint_view(props@[i as int]));
        if str_eq(props[i].key.as_str(), field) {
            let h = props.swap_remove(i);
            return Some(h);
        }
        i += 1;
    }
    None
}

impl Default for SettingsCompleter {
    /// A completer for the built-in settings schema.
    fn default() -> (r: Self)
        ensures
            hints_view(r.properties()) == builtin_hints(),
    {
        SettingsCompleter::new(builtin_settings_properties())
    }
}

// ── Laws ───────────────────────────────────────────────────────────────

/// No value occurs twice in `s`.
pub open spec fn distinct(s: Seq<Seq<char>>) -> bool {
    forall|i: int, j: int| 0 <= i < j < s.len() ==> s[i] != s[j]
}

/// The built-in completer knows exactly the properties that
/// `schema_property_names` lists, each once.
pub proof fn law_builtin_properties_are_the_schema_properties()
    ensures
        builtin_hints().map_values(|h: HintModel| h.0).to_set() == property_names().to_set(),
        builtin_hints().len() == property_names().len(),
        distinct(builtin_hints().map_values(|h: HintModel| h.0)),
{
    let keys = builtin_hints().map_values(|h: HintModel| h.0);
        assert(property_names()[0] == keys[3]);
        assert(property_names()[1] == keys[2]);
        assert(property_names()[2] == keys[0]);
        assert(property_names()[3] == keys[1]);
        assert(property_names()[4] == keys[7]);
        assert(property_names()[5] == keys[9]);
        assert(property_names()[6] == keys[5]);
        assert(property_names()[7] == keys[8]);
        assert(property_names()[8] == keys[10]);
        assert(property_names()[9] == keys[6]);
        assert(property_names()[10] == keys[4]);
        assert(property_names()[11] == keys[11]);
    assert forall|x: Seq<char>| keys.contains(x) implies property_names().contains(x) by {
        let j = choose|j: int| 0 <= j < keys.len() && keys[j] == x;
        assert(0 <= j < 12);
    }
    assert forall|x: Seq<char>| property_names().contains(x) implies keys.contains(x) by {
        let i = choose|i: int| 0 <= i < property_names().len() && property_names()[i] == x;
        assert(0 <= i < 12);
    }
    assert(keys.to_set() =~= property_names().to_set());
    reveal_strlit("apiBaseUrl");
    reveal_strlit("apiKey");
    reveal_strlit("apiProvider");
    reveal_strlit("configVersion");
    reveal_strlit("hooks");
    reveal_strlit("maxTokens");
    reveal_strlit("mcpServers");
    reveal_strlit("model");
    reveal_strlit("permissionMode");
    reveal_strlit("smallModel");
    reveal_strlit("systemPrompt");
    reveal_strlit("theme");
    assert(keys[0].len() == 10 && keys[0][0] == 'a');
    assert(keys[1].len() == 6 && keys[1][0] == 'a');
    assert(keys[2].len() == 11 && keys[2][0] == 'a');
    assert(keys[3].len() == 13 && keys[3][0] == 'c');
    assert(keys[4].len() == 5 && keys[4][0] == 'h');
    assert(keys[5].len() == 9 && keys[5][0] == 'm');
    assert(keys[6].len() == 10 && keys[6][0] == 'm');
    assert(keys[7].len() == 5 && keys[7][0] == 'm');
    assert(keys[8].len() == 14 && keys[8][0] == 'p');
    assert(keys[9].len() == 10 && keys[9][0] == 's');
    assert(keys[10].len() == 12 && keys[10][0] == 's');
    assert(keys[11].len() == 5 && keys[11][0] == 't');
    assert forall|i: int, j: int| 0 <= i < j < keys.len() implies keys[i] != keys[j] by {
        if keys[i] == keys[j] {
            assert(keys[i].len() == keys[j].len() && keys[i][0] == keys[j][0]);
        }
    }
}

/// Adding values with `dedup` keeps the labels distinct.
proof fn lemma_dedup_keeps_distinct(
    acc: Seq<(Seq<char>, Seq<char>, Seq<char>)>,
    values: Seq<Seq<char>>,
    lower: Seq<char>,
    detail: Seq<char>,
    n: int,
)
    requires
        distinct(labels(acc)),
    ensures
        distinct(labels(add_values(acc, values, lower, detail, true, n))),
    decreases n,
{
    if n > 0 {
        lemma_dedup_keeps_distinct(acc, values, lower, detail, n - 1);
        let a = add_values(acc, values, lower, detail, true, n - 1);
        let v = values[n - 1];
        if offered(v, lower) && !labels(a).contains(v) {
            assert(labels(a.push(value_item(v, detail))) =~= labels(a).push(v));
        }
    }
}

/// Adding the first `n` of distinct values, without dedup, to nothing
/// gives distinct labels, each one of those values.
proof fn lemma_distinct_values_stay_distinct(
    values: Seq<Seq<char>>,
    lower: Seq<char>,
    detail: Seq<char>,
    n: int,
)
    requires
        distinct(values),
        n <= values.len(),
    ensures
        distinct(labels(add_values(Seq::empty(), values, lower, detail, false, n))),
        forall|x: Seq<char>|
            labels(add_values(Seq::empty(), values, lower, detail, false, n)).contains(x) ==> exists|k: int|
                0 <= k < n && values[k] == x,
    decreases n,
{
    if n > 0 {
        lemma_distinct_values_stay_distinct(values, lower, detail, n - 1);
        let a = add_values(Seq::empty(), values, lower, detail, false, n - 1);
        let v = values[n - 1];
        if offered(v, lower) {
            let b = a.push(value_item(v, detail));
            assert(labels(b) =~= labels(a).push(v));
            if labels(a).contains(v) {
                let k = choose|k: int| 0 <= k < n - 1 && values[k] == v;
                assert(values[k] != values[n - 1]);
            }
            assert forall|x: Seq<char>| labels(b).contains(x) implies exists|k: int|
                0 <= k < n && values[k] == x by {
                if x != v {
                    assert(labels(a).contains(x));
                } else {
                    assert(values[n - 1] == x);
                }
            }
        }
    }
}

/// Value suggestions never repeat a label, as long as the schema lists
/// each allowed value once: a default or example equal to an earlier
/// suggestion is left out.
pub proof fn law_value_suggestions_distinct(p: PropertyHint, lower: Seq<char>)
    requires
        distinct(strings_view(p.enum_values@)),
    ensures
        distinct(labels(value_items(p, lower))),
{
    let ev = strings_view(p.enum_values@);
    lemma_distinct_values_stay_distinct(ev, lower, "enum value"@, p.enum_values@.len() as int);
    let e = add_values(Seq::empty(), ev, lower, "enum value"@, false, p.enum_values@.len() as int);
    let d = match p.default {
        Some(v) => add_values(e, seq![v@], lower, "default value"@, true, 1),
        None => e,
    };
    if let Some(v) = p.default {
        lemma_dedup_keeps_distinct(e, seq![v@], lower, "default value"@, 1);
    }
    lemma_dedup_keeps_distinct(d, strings_view(p.examples@), lower, "example"@, p.examples@.len() as int);
}

} // verus!
