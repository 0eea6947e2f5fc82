use crab_code::dependency_scan::{parse_cargo_deps, parse_package_json_deps, scan_dependencies_in};
use crab_code::error::Error;
use crab_code::project_detect::{Dependency, ProjectType};

fn deps_of(result: &[(ProjectType, Vec<Dependency>)], t: ProjectType) -> Option<&Vec<Dependency>> {
    result.iter().find(|(k, _)| *k == t).map(|(_, d)| d)
}

#[test]
fn scan_cargo_deps() {
    let cargo = r#"
[package]
name = "test"
version = "0.1.0"

[dependencies]
serde = "1.0"
tokio = { version = "1.0", features = ["full"] }
"#;
    let result = scan_dependencies_in(Some(cargo), None, None, None).unwrap();
    let deps = deps_of(&result, ProjectType::Rust).unwrap();
    assert_eq!(deps.len(), 2);
    assert_eq!(deps[0].name, "serde");
    assert_eq!(deps[0].version.as_deref(), Some("1.0"));
    assert_eq!(deps[1].name, "tokio");
    assert_eq!(deps[1].version.as_deref(), Some("1.0"));
}

#[test]
fn scan_package_json_deps() {
    let package = r#"{
  "dependencies": { "express": "^4.0" },
  "devDependencies": { "jest": "^29.0" }
}"#;
    let result = scan_dependencies_in(None, Some(package), None, None).unwrap();
    let deps = deps_of(&result, ProjectType::Node).unwrap();
    assert_eq!(deps.len(), 2);
    assert!(deps.iter().any(|d| d.name == "express"));
    assert!(deps.iter().any(|d| d.name == "jest"));
}

#[test]
fn scan_requirements_txt() {
    let req = "flask==2.0.1\nrequests>=2.28\n# comment\nnumpy\n";
    let result = scan_dependencies_in(None, None, Some(req), None).unwrap();
    let deps = deps_of(&result, ProjectType::Python).unwrap();
    assert_eq!(deps.len(), 3);
    assert_eq!(deps[0].name, "flask");
    assert_eq!(deps[0].version.as_deref(), Some("2.0.1"));
    assert_eq!(deps[1].name, "requests");
    assert!(deps[1].version.as_ref().unwrap().starts_with(">="));
    assert_eq!(deps[2].name, "numpy");
    assert!(deps[2].version.is_none());
}

#[test]
fn scan_go_mod() {
    let go = "module example.com/m\n\ngo 1.21\n\nrequire (\n\tgithub.com/gin-gonic/gin v1.9.1\n\tgolang.org/x/text v0.12.0\n)\n";
    let result = scan_dependencies_in(None, None, None, Some(go)).unwrap();
    let deps = deps_of(&result, ProjectType::Go).unwrap();
    assert_eq!(deps.len(), 2);
    assert_eq!(deps[0].name, "github.com/gin-gonic/gin");
    assert_eq!(deps[0].version.as_deref(), Some("v1.9.1"));
}

#[test]
fn scan_no_deps_empty() {
    let result = scan_dependencies_in(None, None, None, None).unwrap();
    assert!(result.is_empty());
}

#[test]
fn scan_requirements_skips_comments_and_flags() {
    let req = "# This is a comment\n-r other.txt\nflask==2.0\n";
    let result = scan_dependencies_in(None, None, Some(req), None).unwrap();
    let deps = deps_of(&result, ProjectType::Python).unwrap();
    assert_eq!(deps.len(), 1);
    assert_eq!(deps[0].name, "flask");
}

#[test]
fn scan_lists_types_in_order_and_skips_empty_manifests() {
    let cargo = "[dependencies]\nanyhow = \"1\"\n";
    let package = "{\"name\": \"x\"}";
    let req = "numpy\n";
    let go = "module m\n";
    let result = scan_dependencies_in(Some(cargo), Some(package), Some(req), Some(go)).unwrap();
    let types: Vec<ProjectType> = result.iter().map(|(t, _)| *t).collect();
    assert_eq!(types, vec![ProjectType::Rust, ProjectType::Python]);
}

#[test]
fn cargo_deps_sorted_by_name_with_table_versions() {
    let cargo = "[dependencies]\nzeta = \"0.3\"\nalpha = { path = \"../alpha\" }\nmid = { version = \"2\", optional = true }\n";
    let deps = parse_cargo_deps(cargo).unwrap();
    let names: Vec<&str> = deps.iter().map(|d| d.name.as_str()).collect();
    assert_eq!(names, vec!["alpha", "mid", "zeta"]);
    assert_eq!(deps[0].version, None);
    assert_eq!(deps[1].version.as_deref(), Some("2"));
    assert_eq!(deps[2].version.as_deref(), Some("0.3"));
}

#[test]
fn cargo_without_dependencies_table_is_empty() {
    let deps = parse_cargo_deps("[package]\nname = \"x\"\n").unwrap();
    assert!(deps.is_empty());
}

#[test]
fn cargo_parse_error_is_other_with_prefix() {
    match parse_cargo_deps("[dependencies\nserde = ") {
        Err(Error::Other(m)) => assert!(m.starts_with("parse Cargo.toml: ")),
        other => panic!("unexpected: {other:?}"),
    }
}

#[test]
fn package_json_keeps_first_of_duplicate_names() {
    let package = r#"{
  "dependencies": { "react": "^18.0", "axios": "^1.0" },
  "devDependencies": { "react": "^17.0", "jest": "^29.0" }
}"#;
    let deps = parse_package_json_deps(package).unwrap();
    let names: Vec<&str> = deps.iter().map(|d| d.name.as_str()).collect();
    assert_eq!(names, vec!["axios", "jest", "react"]);
    assert_eq!(deps[2].version.as_deref(), Some("^18.0"));
}

#[test]
fn package_json_non_string_version_is_none() {
    let deps = parse_package_json_deps(r#"{"dependencies": {"local": {"path": "x"}}}"#).unwrap();
    assert_eq!(deps.len(), 1);
    assert_eq!(deps[0].version, None);
}

#[test]
fn package_json_parse_error_is_other_with_prefix() {
    match scan_dependencies_in(None, Some("{not json"), None, None) {
        Err(Error::Other(m)) => assert!(m.starts_with("parse package.json: ")),
        other => panic!("unexpected: {other:?}"),
    }
}
