//! Settings validation: validators that check the fields of a settings
//! object and report findings with a path, a message and a severity.
//!
//! A settings object is held as its top-level fields with the kind of
//! value each holds ([`SettingsObject`]).
use vstd::prelude::*;
use crate::text::{chars_of, chars_start_with, concat_str, str_eq, strings_view};

verus! {

/// Severity of a validation finding.
#[derive(Debug, Clone, Copy, PartialEq, Eq, Structural)]
pub enum Severity {
    Error,
    Warning,
    Info,
}

/// The lowercase name of a severity.
pub open spec fn severity_name(s: Severity) -> Seq<char> {
    match s {
        Severity::Error => "error"@,
        Severity::Warning => "warning"@,
        Severity::Info => "info"@,
    }
}

impl Severity {
    /// The lowercase name (`error`, `warning`, `info`).
    pub fn to_string(&self) -> (r: String)
        ensures
            r@ == severity_name(*self),
    {
        match self {
            Severity::Error => "error".to_owned(),
            Severity::Warning => "warning".to_owned(),
            Severity::Info => "info".to_owned(),
        }
    }
}

/// A single validation finding.
#[derive(Debug)]
pub struct ValidationError {
    /// Path to the offending field (e.g. `"apiProvider"`).
    pub path: String,
    /// Human-readable description of the problem.
    pub message: String,
    /// How serious the finding is.
    pub severity: Severity,
}

impl ValidationError {
    /// `[severity] path: message`.
    pub fn to_string(&self) -> (r: String)
        ensures
            r@ == "["@ + severity_name(self.severity) + "] "@ + self.path@ + ": "@ + self.message@,
    {
        let a = concat_str("[", self.severity.to_string().as_str());
        let b = concat_str(a.as_str(), "] ");
        let c = concat_str(b.as_str(), self.path.as_str());
        let d = concat_str(c.as_str(), ": ");
        concat_str(d.as_str(), self.message.as_str())
    }
}

/// The number of findings of severity `sev` in `s`.
pub open spec fn count_severity(s: Seq<ValidationError>, sev: Severity) -> nat
    decreases s.len(),
{
    if s.len() == 0 {
        0
    } else {
        count_severity(s.drop_last(), sev) + if s.last().severity == sev {
            1nat
        } else {
            0nat
        }
    }
}

/// Aggregated validation result.
#[derive(Debug)]
pub struct ValidationResult {
    pub errors: Vec<ValidationError>,
}

impl Default for ValidationResult {
    fn default() -> (r: Self)
        ensures
            r.errors@.len() == 0,
    {
        ValidationResult { errors: Vec::new() }
    }
}

impl ValidationResult {
    /// Number of findings of one severity.
    fn count(&self, sev: Severity) -> (r: usize)
        ensures
            r == count_severity(self.errors@, sev),
    {
        let mut n: usize = 0;
        let mut i: usize = 0;
        while i < self.errors.len()
            invariant
                i <= self.errors.len(),
                n == count_severity(self.errors@.take(i as int), sev),
                n <= i,
            decreases self.errors.len() - i,
        {
            proof {
                assert(self.errors@.take(i + 1).drop_last() =~= self.errors@.take(i as int));
            }
            if self.errors[i].severity == sev {
                n += 1;
            }
            i += 1;
        }
        proof {
            assert(self.errors@.take(i as int) =~= self.errors@);
        }
        n
    }

    /// Valid when no finding is an error (warnings and infos allowed).
    pub fn is_valid(&self) -> (r: bool)
        ensures
            r == (count_severity(self.errors@, Severity::Error) == 0),
    {
        self.count(Severity::Error) == 0
    }

    /// Number of findings that are errors.
    pub fn error_count(&self) -> (r: usize)
        ensures
            r == count_severity(self.errors@, Severity::Error),
    {
        self.count(Severity::Error)
    }

    /// Number of findings that are warnings.
    pub fn warning_count(&self) -> (r: usize)
        ensures
            r == count_severity(self.errors@, Severity::Warning),
    {
        self.count(Severity::Warning)
    }
}

/// Expected JSON type for a field.
#[derive(Debug, Clone, Copy, PartialEq, Eq, Structural)]
pub enum ExpectedType {
    String,
    Number,
    Bool,
    Object,
    Array,
}

/// The name of an expected type.
pub open spec fn expected_name(t: ExpectedType) -> Seq<char> {
    match t {
        ExpectedType::String => "string"@,
        ExpectedType::Number => "number"@,
        ExpectedType::Bool => "boolean"@,
        ExpectedType::Object => "object"@,
        ExpectedType::Array => "array"@,
    }
}

impl ExpectedType {
    /// The name (`string`, `number`, `boolean`, `object`, `array`).
    pub fn to_string(&self) -> (r: String)
        ensures
            r@ == expected_name(*self),
    {
        match self {
            ExpectedType::String => "string".to_owned(),
            ExpectedType::Number => "number".to_owned(),
            ExpectedType::Bool => "boolean".to_owned(),
            ExpectedType::Object => "object".to_owned(),
            ExpectedType::Array => "array".to_owned(),
        }
    }
}

/// The value of a settings field, as far as validation reads it: its kind,
/// and the text of a string.
#[derive(Debug, Clone, PartialEq, Eq)]
pub enum FieldValue {
    Null,
    Bool,
    Number,
    Str(String),
    Object,
    Array,
}

/// A settings object: its fields, in order, with their values.
#[derive(Debug)]
pub struct SettingsObject {
    pub fields: Vec<(String, FieldValue)>,
}

/// The value of the first field named `key`, if any.
pub open spec fn field_of(fields: Seq<(String, FieldValue)>, key: Seq<char>) -> Option<FieldValue>
    decreases fields.len(),
{
    if fields.len() == 0 {
        None
    } else if fields[0].0@ == key {
        Some(fields[0].1)
    } else {
        field_of(fields.drop_first(), key)
    }
}

impl SettingsObject {
    /// The value of the field named `key`, if any.
    pub fn get(&self, key: &str) -> (r: Option<&FieldValue>)
        ensures
            match r {
                Some(v) => field_of(self.fields@, key@) == Some(*v),
                None => field_of(self.fields@, key@) is None,
            },
    {
        let mut i: usize = 0;
        proof {
            assert(self.fields@.skip(0) =~= self.fields@);
        }
        while i < self.fields.len()
            invariant
                i <= self.fields.len(),
                field_of(self.fields@, key@) == field_of(self.fields@.skip(i as int), key@),
            decreases self.fields.len() - i,
        {
            proof {
                assert(self.fields@.skip(i as int)[0] == self.fields@[i as int]);
                assert(self.fields@.skip(i as int).drop_first() =~= self.fields@.skip(i + 1));
            }
            if str_eq(self.fields[i].0.as_str(), key) {
                return Some(&self.fields[i].1);
            }
            i += 1;
        }
        None
    }
}

/// The findings as (path, message, severity) triples.
pub open spec fn findings(s: Seq<ValidationError>) -> Seq<(Seq<char>, Seq<char>, Severity)> {
    s.map_values(|e: ValidationError| (e.path@, e.message@, e.severity))
}

/// The finding for a required field that is missing or null.
pub open spec fn missing_finding(field: Seq<char>) -> (Seq<char>, Seq<char>, Severity) {
    (field, "required field is missing or null"@, Severity::Error)
}

/// The findings of the required-field check, in the order of the fields.
pub open spec fn required_findings(fields: Seq<Seq<char>>, s: Seq<(String, FieldValue)>) -> Seq<(Seq<char>, Seq<char>, Severity)>
    decreases fields.len(),
{
    if fields.len() == 0 {
        Seq::empty()
    } else {
        let prev = required_findings(fields.drop_last(), s);
        let f = fields.last();
        match field_of(s, f) {
            None => prev.push(missing_finding(f)),
            Some(FieldValue::Null) => prev.push(missing_finding(f)),
            _ => prev,
        }
    }
}

/// Checks that certain fields are present and not null.
pub struct RequiredFieldValidator {
    fields: Vec<&'static str>,
}

/// The views of a list of static strings.
pub open spec fn strs_view(s: Seq<&'static str>) -> Seq<Seq<char>> {
    s.map_values(|x: &'static str| x@)
}

impl RequiredFieldValidator {
    /// The fields checked.
    pub closed spec fn field_names(&self) -> Seq<Seq<char>> {
        strs_view(self.fields@)
    }

    pub fn new(fields: Vec<&'static str>) -> (r: Self)
        ensures
            r.field_names() == strs_view(fields@),
    {
        RequiredFieldValidator { fields }
    }

    /// One error per listed field that is missing or null, in order.
    pub fn validate(&self, settings: &SettingsObject) -> (r: Vec<ValidationError>)
        ensures
            findings(r@) == required_findings(self.field_names(), settings.fields@),
    {
        let ghost names = strs_view(self.fields@);
        let mut out: Vec<ValidationError> = Vec::new();
        let mut i: usize = 0;
        while i < self.fields.len()
            invariant
                i <= self.fields.len(),
                names == strs_view(self.fields@),
                findings(out@) == required_findings(names.take(i as int), settings.fields@),
            decreases self.fields.len() - i,
        {
            let f = self.fields[i];
            proof {
                assert(names.take(i + 1).drop_last() =~= names.take(i as int));
                assert(names.take(i + 1).last() == f@);
            }
            let missing = match settings.get(f) {
                None => true,
                Some(FieldValue::Null) => true,
                Some(_) => false,
            };
            if missing {
                let ghost before = out@;
                out.push(
                    ValidationError {
                        path: f.to_owned(),
                        message: "required field is missing or null".to_owned(),
                        severity: Severity::Error,
                    },
                );
                proof {
                    assert(findings(out@) =~= findings(before).push(missing_finding(f@)));
                }
            }
            i += 1;
        }
        proof {
            assert(names.take(i as int) =~= names);
        }
        out
    }
}

/// Whether a value has the expected type.
pub open spec fn has_expected_type(v: FieldValue, t: ExpectedType) -> bool {
    match t {
        ExpectedType::String => v is Str,
        ExpectedType::Number => v is Number,
        ExpectedType::Bool => v is Bool,
        ExpectedType::Object => v is Object,
        ExpectedType::Array => v is Array,
    }
}

/// The findings of the type check: one error per present, non-null field
/// whose value has another type than expected.
pub open spec fn type_findings(rules: Seq<(Seq<char>, ExpectedType)>, s: Seq<(String, FieldValue)>) -> Seq<(Seq<char>, Seq<char>, Severity)>
    decreases rules.len(),
{
    if rules.len() == 0 {
        Seq::empty()
    } else {
        let prev = type_findings(rules.drop_last(), s);
        let (f, t) = rules.last();
        match field_of(s, f) {
            Some(v) => if v is Null || has_expected_type(v, t) {
                prev
            } else {
                prev.push((f, "expected type "@ + expected_name(t), Severity::Error))
            },
            None => prev,
        }
    }
}

/// Checks that fields have the expected type.
pub struct TypeValidator {
    rules: Vec<(&'static str, ExpectedType)>,
}

impl TypeValidator {
    /// The rules checked: field and expected type.
    pub closed spec fn rule_seq(&self) -> Seq<(Seq<char>, ExpectedType)> {
        self.rules@.map_values(|r: (&'static str, ExpectedType)| (r.0@, r.1))
    }

    pub fn new(rules: Vec<(&'static str, ExpectedType)>) -> (r: Self)
        ensures
            r.rule_seq() == rules@.map_values(|r: (&'static str, ExpectedType)| (r.0@, r.1)),
    {
        TypeValidator { rules }
    }

    /// One error per present, non-null field of the wrong type, in order.
    /// Missing and null fields are left to the required-field check.
    pub fn validate(&self, settings: &SettingsObject) -> (r: Vec<ValidationError>)
        ensures
            findings(r@) == type_findings(self.rule_seq(), settings.fields@),
    {
        let ghost rs = self.rule_seq();
        let mut out: Vec<ValidationError> = Vec::new();
        let mut i: usize = 0;
        while i < self.rules.len()
            invariant
                i <= self.rules.len(),
                rs == self.rules@.map_values(|r: (&'static str, ExpectedType)| (r.0@, r.1)),
                findings(out@) == type_findings(rs.take(i as int), settings.fields@),
            decreases self.rules.len() - i,
        {
            let (f, t) = self.rules[i];
            proof {
                assert(rs.take(i + 1).drop_last() =~= rs.take(i as int));
                assert(rs.take(i + 1).last() == (f@, t));
            }
            match settings.get(f) {
                Some(v) => {
                    let ok = match v {
                        FieldValue::Null => true,
                        FieldValue::Str(_) => t == ExpectedType::String,
                        FieldValue::Number => t == ExpectedType::Number,
                        FieldValue::Bool => t == ExpectedType::Bool,
                        FieldValue::Object => t == ExpectedType::Object,
                        FieldValue::Array => t == ExpectedType::Array,
                    };
                    if !ok {
                        let ghost before = out@;
                        out.push(
                            ValidationError {
                                path: f.to_owned(),
                                message: concat_str("expected type ", t.to_string().as_str()),
                                severity: Severity::Error,
                            },
                        );
                        proof {
                            assert(findings(out@) =~= findings(before).push(
                                (f@, "expected type "@ + expected_name(t), Severity::Error),
                            ));
                        }
                    }
                },
                None => {},
            }
            i += 1;
        }
        proof {
            assert(rs.take(i as int) =~= rs);
        }
        out
    }
}

/// The names of `allowed` joined by `, `.
pub open spec fn joined(allowed: Seq<Seq<char>>) -> Seq<char>
    decreases allowed.len(),
{
    if allowed.len() == 0 {
        Seq::empty()
    } else if allowed.len() == 1 {
        allowed[0]
    } else {
        joined(allowed.drop_last()) + ", "@ + allowed.last()
    }
}

/// The findings of the allowed-values check of `field`: one error when it
/// holds a string that is not allowed.
pub open spec fn enum_findings(field: Seq<char>, allowed: Seq<Seq<char>>, s: Seq<(String, FieldValue)>) -> Seq<(Seq<char>, Seq<char>, Severity)> {
    match field_of(s, field) {
        Some(FieldValue::Str(v)) => if allowed.contains(v@) {
            Seq::empty()
        } else {
            seq![(field, "invalid value \""@ + v@ + "\", expected one of: "@ + joined(allowed), Severity::Error)]
        },
        _ => Seq::empty(),
    }
}

/// Checks that a string field holds one of the allowed values.
pub struct EnumValidator {
    field: &'static str,
    allowed: Vec<&'static str>,
}

impl EnumValidator {
    /// The field checked.
    pub closed spec fn field_name(&self) -> Seq<char> {
        self.field@
    }

    /// The values allowed.
    pub closed spec fn allowed_values(&self) -> Seq<Seq<char>> {
        strs_view(self.allowed@)
    }

    pub fn new(field: &'static str, allowed: Vec<&'static str>) -> (r: Self)
        ensures
            r.field_name() == field@,
            r.allowed_values() == strs_view(allowed@),
    {
        EnumValidator { field, allowed }
    }

    /// The allowed values joined by `, `.
    fn joined_allowed(&self) -> (r: String)
        ensures
            r@ == joined(strs_view(self.allowed@)),
    {
        let ghost av = strs_view(self.allowed@);
        let mut out = String::new();
        let mut i: usize = 0;
        while i < self.allowed.len()
            invariant
                i <= self.allowed.len(),
                av == strs_view(self.allowed@),
                out@ == joined(av.take(i as int)),
            decreases self.allowed.len() - i,
        {
            proof {
                assert(av.take(i + 1).drop_last() =~= av.take(i as int));
                assert(av.take(i + 1).last() == self.allowed@[i as int]@);
            }
            if i == 0 {
                out = self.allowed[i].to_owned();
                proof {
                    assert(av.take(1) =~= seq![av[0]]);
                }
            } else {
                let a = concat_str(out.as_str(), ", ");
                out = concat_str(a.as_str(), self.allowed[i]);
            }
            i += 1;
        }
        proof {
            assert(av.take(i as int) =~= av);
        }
        out
    }

    /// An error when the field holds a string that is not allowed; nothing
    /// when it is missing or not a string.
    pub fn validate(&self, settings: &SettingsObject) -> (r: Vec<ValidationError>)
        ensures
            findings(r@) == enum_findings(self.field_name(), self.allowed_values(), settings.fields@),
    {
        let mut out: Vec<ValidationError> = Vec::new();
        match settings.get(self.field) {
            Some(FieldValue::Str(v)) => {
                let mut found = false;
                let mut i: usize = 0;
                while i < self.allowed.len()
                    invariant
                        i <= self.allowed.len(),
                        found == exists|k: int| 0 <= k < i && (#[trigger] strs_view(self.allowed@)[k]) == v@,
                    decreases self.allowed.len() - i,
                {
                    if str_eq(self.allowed[i], v.as_str()) {
                        found = true;
                        proof {
                            assert(strs_view(self.allowed@)[i as int] == v@);
                        }
                    }
                    i += 1;
                }
                if !found {
                    let a = concat_str("invalid value \"", v.as_str());
                    let b = concat_str(a.as_str(), "\", expected one of: ");
                    let msg = concat_str(b.as_str(), self.joined_allowed().as_str());
                    out.push(ValidationError { path: self.field.to_owned(), message: msg, severity: Severity::Error });
                    proof {
                        assert(findings(out@) =~= seq![(self.field@, "invalid value \""@ + v@ + "\", expected one of: "@ + joined(strs_view(self.allowed@)), Severity::Error)]);
                    }
                }
            },
            _ => {},
        }
        proof {
            if out@.len() == 0 {
                assert(findings(out@) =~= Seq::<(Seq<char>, Seq<char>, Severity)>::empty());
            }
        }
        out
    }
}

/// The findings of the URL check of `field`: a warning when it holds a
/// string that does not start with `http://` or `https://`.
pub open spec fn url_findings(field: Seq<char>, s: Seq<(String, FieldValue)>) -> Seq<(Seq<char>, Seq<char>, Severity)> {
    match field_of(s, field) {
        Some(FieldValue::Str(v)) => if v@.len() >= 7 && v@.take(7) == "http://"@ || v@.len() >= 8
            && v@.take(8) == "https://"@ {
            Seq::empty()
        } else {
            seq![(field, "URL must start with http:// or https://"@, Severity::Warning)]
        },
        _ => Seq::empty(),
    }
}

/// Checks that a string field looks like a URL.
pub struct UrlValidator {
    field: &'static str,
}

impl UrlValidator {
    /// The field checked.
    pub closed spec fn field_name(&self) -> Seq<char> {
        self.field@
    }

    pub fn new(field: &'static str) -> (r: Self)
        ensures
            r.field_name() == field@,
    {
        UrlValidator { field }
    }

    /// A warning when the field holds a string without an `http://` or
    /// `https://` scheme; nothing when it is missing or not a string.
    pub fn validate(&self, settings: &SettingsObject) -> (r: Vec<ValidationError>)
        ensures
            findings(r@) == url_findings(self.field_name(), settings.fields@),
    {
        let mut out: Vec<ValidationError> = Vec::new();
        match settings.get(self.field) {
            Some(FieldValue::Str(v)) => {
                let c = chars_of(v.as_str());
                let http = chars_of("http://");
                let https = chars_of("https://");
                proof {
                    reveal_strlit("http://");
                    reveal_strlit("https://");
                }
                if !(chars_start_with(c.as_slice(), http.as_slice()) || chars_start_with(c.as_slice(), https.as_slice())) {
                    out.push(
                        ValidationError {
                            path: self.field.to_owned(),
                            message: "URL must start with http:// or https://".to_owned(),
                            severity: Severity::Warning,
                        },
                    );
                    proof {
                        assert(findings(out@) =~= seq![(self.field@, "URL must start with http:// or https://"@, Severity::Warning)]);
                    }
                }
                proof {
                    assert(c@.subrange(0, 7) =~= c@.take(7));
                    assert(c@.subrange(0, 8) =~= c@.take(8));
                }
            },
            _ => {},
        }
        proof {
            if out@.len() == 0 {
                assert(findings(out@) =~= Seq::<(Seq<char>, Seq<char>, Severity)>::empty());
            }
        }
        out
    }
}

} // verus!
