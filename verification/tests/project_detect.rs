use crab_code::project_detect::{
    detect_from_listing, generate_gitignore, generate_gitignore_multi, parse_go_mod,
    parse_requirements, ProjectType,
};


// ── ProjectType ──────────────────────────────────────────────────

#[test]
fn project_type_display() {
    assert_eq!(ProjectType::Rust.to_string(), "Rust");
    assert_eq!(ProjectType::Node.to_string(), "Node.js");
    assert_eq!(ProjectType::Python.to_string(), "Python");
    assert_eq!(ProjectType::Go.to_string(), "Go");
    assert_eq!(ProjectType::Java.to_string(), "Java");
    assert_eq!(ProjectType::Cpp.to_string(), "C/C++");
    assert_eq!(ProjectType::Ruby.to_string(), "Ruby");
    assert_eq!(ProjectType::Swift.to_string(), "Swift");
}


// ── ProjectDetector ──────────────────────────────────────────────












// ── GitignoreGenerator ───────────────────────────────────────────

#[test]
fn gitignore_rust_has_target() {
    let content = generate_gitignore(ProjectType::Rust);
    assert!(content.contains("/target/"));
}

#[test]
fn gitignore_node_has_node_modules() {
    let content = generate_gitignore(ProjectType::Node);
    assert!(content.contains("node_modules/"));
}

#[test]
fn gitignore_python_has_pycache() {
    let content = generate_gitignore(ProjectType::Python);
    assert!(content.contains("__pycache__/"));
}

#[test]
fn gitignore_go_has_vendor() {
    let content = generate_gitignore(ProjectType::Go);
    assert!(content.contains("/vendor/"));
}

#[test]
fn gitignore_java_has_class() {
    assert!(generate_gitignore(ProjectType::Java).contains("*.class"));
}

#[test]
fn gitignore_cpp_has_build() {
    assert!(generate_gitignore(ProjectType::Cpp).contains("build/"));
}

#[test]
fn gitignore_ruby_has_gem() {
    assert!(generate_gitignore(ProjectType::Ruby).contains("*.gem"));
}

#[test]
fn gitignore_swift_has_build() {
    assert!(generate_gitignore(ProjectType::Swift).contains(".build/"));
}

#[test]
fn gitignore_multi_combines() {
    let content = generate_gitignore_multi(&[ProjectType::Rust, ProjectType::Node]);
    assert!(content.contains("# === Rust ==="));
    assert!(content.contains("# === Node.js ==="));
    assert!(content.contains("/target/"));
    assert!(content.contains("node_modules/"));
}

#[test]
fn gitignore_multi_empty() {
    let content = generate_gitignore_multi(&[]);
    assert!(content.is_empty());
}

// ── DependencyScanner ────────────────────────────────────────────

fn names(v: &[&str]) -> Vec<String> {
    v.iter().map(|s| s.to_string()).collect()
}

#[test]
fn listing_detects_rust_project() {
    let info = detect_from_listing(&names(&["Cargo.toml", "src"]), &[]);
    assert_eq!(info.types, vec![ProjectType::Rust]);
    assert!(!info.is_monorepo);
}

#[test]
fn listing_detects_types_in_order() {
    let info = detect_from_listing(&names(&["package.json", "Cargo.toml", "Gemfile"]), &[]);
    assert_eq!(info.types, vec![ProjectType::Rust, ProjectType::Node, ProjectType::Ruby]);
}

#[test]
fn listing_detects_glob_marker() {
    let info = detect_from_listing(&names(&["App.xcodeproj"]), &[]);
    assert_eq!(info.types, vec![ProjectType::Swift]);
}

#[test]
fn listing_empty_directory() {
    let info = detect_from_listing(&[], &[]);
    assert!(info.types.is_empty());
    assert!(!info.is_monorepo);
    assert!(info.sub_projects.is_empty());
}

#[test]
fn listing_detects_monorepo_sorted() {
    let subdirs = vec![
        ("crate-b".to_string(), names(&["Cargo.toml"])),
        ("docs".to_string(), names(&["index.md"])),
        ("crate-a".to_string(), names(&["Cargo.toml"])),
    ];
    let info = detect_from_listing(&[], &subdirs);
    assert!(info.is_monorepo);
    assert_eq!(info.sub_projects, vec!["crate-a".to_string(), "crate-b".to_string()]);
}

#[test]
fn listing_skips_hidden_and_known_dirs() {
    let subdirs = vec![
        (".hidden".to_string(), names(&["Cargo.toml"])),
        ("node_modules".to_string(), names(&["package.json"])),
        ("target".to_string(), names(&["Cargo.toml"])),
    ];
    let info = detect_from_listing(&[], &subdirs);
    assert!(info.sub_projects.is_empty());
    assert!(!info.is_monorepo);
}

#[test]
fn requirements_parse_versions() {
    let deps = parse_requirements("flask==2.0.1\nrequests>=2.28\n# comment\nnumpy\n");
    assert_eq!(deps.len(), 3);
    assert_eq!(deps[0].name, "flask");
    assert_eq!(deps[0].version.as_deref(), Some("2.0.1"));
    assert_eq!(deps[1].name, "requests");
    assert_eq!(deps[1].version.as_deref(), Some(">=2.28"));
    assert_eq!(deps[2].name, "numpy");
    assert!(deps[2].version.is_none());
}

#[test]
fn requirements_skip_comments_and_flags() {
    let deps = parse_requirements("# This is a comment\n-r other.txt\nflask==2.0\n");
    assert_eq!(deps.len(), 1);
    assert_eq!(deps[0].name, "flask");
}

#[test]
fn requirements_compatible_release_and_crlf() {
    let deps = parse_requirements("django ~= 4.2\r\n\r\n");
    assert_eq!(deps.len(), 1);
    assert_eq!(deps[0].name, "django");
    assert_eq!(deps[0].version.as_deref(), Some("~= 4.2"));
}

#[test]
fn go_mod_require_block() {
    let deps = parse_go_mod(
        "module example.com/m\n\ngo 1.21\n\nrequire (\n\tgithub.com/gin-gonic/gin v1.9.1\n\tgolang.org/x/text v0.12.0\n)\n",
    );
    assert_eq!(deps.len(), 2);
    assert_eq!(deps[0].name, "github.com/gin-gonic/gin");
    assert_eq!(deps[0].version.as_deref(), Some("v1.9.1"));
    assert_eq!(deps[1].name, "golang.org/x/text");
}

#[test]
fn go_mod_ignores_comments_and_outside_lines() {
    let deps = parse_go_mod("require (\n\t// indirect stuff\n\tsolo\n\ta v1\n)\nb v2\n");
    assert_eq!(deps.len(), 1);
    assert_eq!(deps[0].name, "a");
    assert_eq!(deps[0].version.as_deref(), Some("v1"));
}

