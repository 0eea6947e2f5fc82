use crab_code::file_stats::{language_from_extension, line_counts, FileStats, Language, LanguageStats};


// ── Language ─────────────────────────────────────────────────────

#[test]
fn language_display() {
    assert_eq!(Language::Rust.to_string(), "Rust");
    assert_eq!(Language::TypeScript.to_string(), "TypeScript");
    assert_eq!(Language::Cpp.to_string(), "C++");
    assert_eq!(Language::Other.to_string(), "Other");
}

#[test]
fn language_from_ext() {
    assert_eq!(language_from_extension("rs"), Language::Rust);
    assert_eq!(language_from_extension("js"), Language::JavaScript);
    assert_eq!(language_from_extension("tsx"), Language::TypeScript);
    assert_eq!(language_from_extension("py"), Language::Python);
    assert_eq!(language_from_extension("go"), Language::Go);
    assert_eq!(language_from_extension("java"), Language::Java);
    assert_eq!(language_from_extension("cpp"), Language::Cpp);
    assert_eq!(language_from_extension("c"), Language::C);
    assert_eq!(language_from_extension("h"), Language::C);
    assert_eq!(language_from_extension("rb"), Language::Ruby);
    assert_eq!(language_from_extension("swift"), Language::Swift);
    assert_eq!(language_from_extension("sh"), Language::Shell);
    assert_eq!(language_from_extension("toml"), Language::Toml);
    assert_eq!(language_from_extension("yml"), Language::Yaml);
    assert_eq!(language_from_extension("json"), Language::Json);
    assert_eq!(language_from_extension("md"), Language::Markdown);
    assert_eq!(language_from_extension("html"), Language::Html);
    assert_eq!(language_from_extension("css"), Language::Css);
    assert_eq!(language_from_extension("sql"), Language::Sql);
    assert_eq!(language_from_extension("xyz"), Language::Other);
}

#[test]
fn language_from_ext_case_insensitive() {
    assert_eq!(language_from_extension("RS"), Language::Rust);
    assert_eq!(language_from_extension("Py"), Language::Python);
}

// ── FileStats ────────────────────────────────────────────────────









#[test]
fn language_stats_default() {
    let ls = LanguageStats::default();
    assert_eq!(ls.files, 0);
    assert_eq!(ls.lines, 0);
    assert_eq!(ls.blank_lines, 0);
}

// ── Statistics over file contents ──────────────────────────────────

fn files(v: &[(&str, &str)]) -> Vec<(String, String)> {
    v.iter().map(|(e, c)| (e.to_string(), c.to_string())).collect()
}

fn get(stats: &FileStats, lang: Language) -> Option<LanguageStats> {
    stats.by_language.iter().find(|(l, _)| *l == lang).map(|(_, s)| *s)
}

#[test]
fn stats_empty_dir() {
    let stats = FileStats::compute_files(&[]);
    assert_eq!(stats.total_files, 0);
    assert_eq!(stats.total_lines, 0);
    assert!(stats.by_language.is_empty());
}

#[test]
fn stats_single_rust_file() {
    let stats = FileStats::compute_files(&files(&[("rs", "fn main() {\n    println!(\"hi\");\n}\n")]));
    assert_eq!(stats.total_files, 1);
    assert_eq!(stats.total_lines, 3);
    let rust = get(&stats, Language::Rust).unwrap();
    assert_eq!(rust.files, 1);
    assert_eq!(rust.lines, 3);
}

#[test]
fn stats_counts_blanks() {
    let stats = FileStats::compute_files(&files(&[("rs", "use std;\n\nfn foo() {}\n\n")]));
    let rust = get(&stats, Language::Rust).unwrap();
    assert_eq!(rust.blank_lines, 2);
    assert_eq!(stats.total_blank_lines, 2);
}

#[test]
fn stats_multiple_languages() {
    let stats = FileStats::compute_files(&files(&[
        ("rs", "fn main() {}\n"),
        ("js", "console.log('hi');\n"),
        ("md", "# Title\n\nContent\n"),
    ]));
    assert_eq!(stats.total_files, 3);
    assert!(get(&stats, Language::Rust).is_some());
    assert!(get(&stats, Language::JavaScript).is_some());
    assert!(get(&stats, Language::Markdown).is_some());
}

#[test]
fn stats_skips_extensionless() {
    let stats = FileStats::compute_files(&files(&[("", "all:\n\techo hi\n"), ("rs", "fn main() {}\n")]));
    assert_eq!(stats.total_files, 1); // only main.rs
}

#[test]
fn stats_sorted_by_lines() {
    let stats = FileStats::compute_files(&files(&[
        ("rs", "fn a() {}\n"),
        ("py", "a = 1\nb = 2\nc = 3\nd = 4\ne = 5\n"),
    ]));
    let sorted = stats.sorted_by_lines();
    assert_eq!(sorted[0].0, Language::Python);
    assert_eq!(sorted[1].0, Language::Rust);
}

#[test]
fn stats_compute_files_explicit() {
    let stats = FileStats::compute_files(&files(&[("rs", "fn a() {}\nfn b() {}\n"), ("py", "x = 1\n")]));
    assert_eq!(stats.total_files, 2);
    assert_eq!(stats.total_lines, 3);
}

#[test]
fn stats_languages_in_order_and_ties_stable() {
    let stats = FileStats::compute_files(&files(&[
        ("py", "x\n"),
        ("RS", "y\n"),
        ("go", "z\n"),
        ("rs", "w\n"),
    ]));
    let langs: Vec<Language> = stats.by_language.iter().map(|(l, _)| *l).collect();
    assert_eq!(langs, vec![Language::Rust, Language::Python, Language::Go]);
    let sorted: Vec<Language> = stats.sorted_by_lines().iter().map(|(l, _)| *l).collect();
    assert_eq!(sorted, vec![Language::Rust, Language::Python, Language::Go]);
    assert_eq!(get(&stats, Language::Rust).unwrap().files, 2);
}

#[test]
fn line_counts_follow_str_lines() {
    assert_eq!(line_counts(""), (0, 0));
    assert_eq!(line_counts("a\r\n \r\n\t\n"), (3, 2));
    assert_eq!(line_counts("no newline"), (1, 0));
}
