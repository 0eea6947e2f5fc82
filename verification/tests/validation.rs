use crab_code::validation::{
    EnumValidator, ExpectedType, FieldValue, RequiredFieldValidator, SettingsObject, Severity,
    TypeValidator, UrlValidator, ValidationError, ValidationResult,
};

fn obj(fields: Vec<(&str, FieldValue)>) -> SettingsObject {
    SettingsObject {
        fields: fields.into_iter().map(|(k, v)| (k.to_string(), v)).collect(),
    }
}

fn s(v: &str) -> FieldValue {
    FieldValue::Str(v.to_string())
}

#[test]
fn severity_display() {
    assert_eq!(Severity::Error.to_string(), "error");
    assert_eq!(Severity::Warning.to_string(), "warning");
    assert_eq!(Severity::Info.to_string(), "info");
}

#[test]
fn validation_error_display() {
    let e = ValidationError {
        path: "model".to_string(),
        message: "missing".to_string(),
        severity: Severity::Error,
    };
    assert_eq!(e.to_string(), "[error] model: missing");
}

#[test]
fn validation_result_empty_is_valid() {
    let r = ValidationResult::default();
    assert!(r.is_valid());
    assert_eq!(r.error_count(), 0);
    assert_eq!(r.warning_count(), 0);
}

#[test]
fn validation_result_with_warning_is_valid() {
    let r = ValidationResult {
        errors: vec![ValidationError {
            path: "x".into(),
            message: "warn".into(),
            severity: Severity::Warning,
        }],
    };
    assert!(r.is_valid());
    assert_eq!(r.warning_count(), 1);
}

#[test]
fn validation_result_with_error_is_invalid() {
    let r = ValidationResult {
        errors: vec![ValidationError {
            path: "x".into(),
            message: "bad".into(),
            severity: Severity::Error,
        }],
    };
    assert!(!r.is_valid());
    assert_eq!(r.error_count(), 1);
}

#[test]
fn expected_type_display() {
    assert_eq!(ExpectedType::String.to_string(), "string");
    assert_eq!(ExpectedType::Number.to_string(), "number");
    assert_eq!(ExpectedType::Bool.to_string(), "boolean");
    assert_eq!(ExpectedType::Object.to_string(), "object");
    assert_eq!(ExpectedType::Array.to_string(), "array");
}

#[test]
fn required_field_present() {
    let v = RequiredFieldValidator::new(vec!["model"]);
    let st = obj(vec![("model", s("gpt-4o"))]);
    assert!(v.validate(&st).is_empty());
}

#[test]
fn required_field_missing() {
    let v = RequiredFieldValidator::new(vec!["model", "apiKey"]);
    let st = obj(vec![("theme", s("dark"))]);
    let errs = v.validate(&st);
    assert_eq!(errs.len(), 2);
    assert!(errs.iter().all(|e| e.severity == Severity::Error));
}

#[test]
fn required_field_null_counts_as_missing() {
    let v = RequiredFieldValidator::new(vec!["model"]);
    let st = obj(vec![("model", FieldValue::Null)]);
    assert_eq!(v.validate(&st).len(), 1);
}

#[test]
fn type_validator_correct_types() {
    let v = TypeValidator::new(vec![
        ("name", ExpectedType::String),
        ("count", ExpectedType::Number),
        ("active", ExpectedType::Bool),
        ("meta", ExpectedType::Object),
        ("tags", ExpectedType::Array),
    ]);
    let st = obj(vec![
        ("name", s("test")),
        ("count", FieldValue::Number),
        ("active", FieldValue::Bool),
        ("meta", FieldValue::Object),
        ("tags", FieldValue::Array),
    ]);
    assert!(v.validate(&st).is_empty());
}

#[test]
fn type_validator_wrong_type() {
    let v = TypeValidator::new(vec![("maxTokens", ExpectedType::Number)]);
    let st = obj(vec![("maxTokens", s("not a number"))]);
    let errs = v.validate(&st);
    assert_eq!(errs.len(), 1);
    assert!(errs[0].message.contains("number"));
}

#[test]
fn type_validator_missing_field_ignored() {
    let v = TypeValidator::new(vec![("model", ExpectedType::String)]);
    let st = obj(vec![]);
    assert!(v.validate(&st).is_empty());
}

#[test]
fn type_validator_null_field_ignored() {
    let v = TypeValidator::new(vec![("model", ExpectedType::String)]);
    let st = obj(vec![("model", FieldValue::Null)]);
    assert!(v.validate(&st).is_empty());
}

#[test]
fn enum_valid_value() {
    let v = EnumValidator::new("permissionMode", vec!["default", "dangerously"]);
    let st = obj(vec![("permissionMode", s("default"))]);
    assert!(v.validate(&st).is_empty());
}

#[test]
fn enum_invalid_value() {
    let v = EnumValidator::new("permissionMode", vec!["default", "dangerously"]);
    let st = obj(vec![("permissionMode", s("yolo"))]);
    let errs = v.validate(&st);
    assert_eq!(errs.len(), 1);
    assert!(errs[0].message.contains("yolo"));
    assert!(errs[0].message.contains("default"));
    assert_eq!(
        errs[0].message,
        "invalid value \"yolo\", expected one of: default, dangerously"
    );
}

#[test]
fn enum_missing_field_ignored() {
    let v = EnumValidator::new("permissionMode", vec!["default"]);
    let st = obj(vec![]);
    assert!(v.validate(&st).is_empty());
}

#[test]
fn enum_non_string_ignored() {
    let v = EnumValidator::new("permissionMode", vec!["default"]);
    let st = obj(vec![("permissionMode", FieldValue::Number)]);
    assert!(v.validate(&st).is_empty());
}

#[test]
fn url_valid_http() {
    let v = UrlValidator::new("apiBaseUrl");
    let st = obj(vec![("apiBaseUrl", s("http://localhost:8080"))]);
    assert!(v.validate(&st).is_empty());
}

#[test]
fn url_valid_https() {
    let v = UrlValidator::new("apiBaseUrl");
    let st = obj(vec![("apiBaseUrl", s("https://api.example.com"))]);
    assert!(v.validate(&st).is_empty());
}

#[test]
fn url_invalid_scheme() {
    let v = UrlValidator::new("apiBaseUrl");
    let st = obj(vec![("apiBaseUrl", s("ftp://server"))]);
    let errs = v.validate(&st);
    assert_eq!(errs.len(), 1);
    assert_eq!(errs[0].severity, Severity::Warning);
}

#[test]
fn url_missing_ignored() {
    let v = UrlValidator::new("apiBaseUrl");
    let st = obj(vec![]);
    assert!(v.validate(&st).is_empty());
}
