use crab_code::crab_md::{collect_crab_md_from, crab_md_from, CrabMd, CrabMdSource};

fn project_mds(results: &[CrabMd]) -> Vec<&CrabMd> {
    results.iter().filter(|md| md.source == CrabMdSource::Project).collect()
}

#[test]
fn crab_md_source_equality() {
    assert_eq!(CrabMdSource::Global, CrabMdSource::Global);
    assert_ne!(CrabMdSource::Global, CrabMdSource::Project);
    assert_ne!(CrabMdSource::User, CrabMdSource::Project);
}

#[test]
fn crab_md_clone() {
    let md = CrabMd {
        content: "test".into(),
        source: CrabMdSource::Global,
    };
    let cloned = md.clone();
    assert_eq!(cloned.content, "test");
    assert_eq!(cloned.source, CrabMdSource::Global);
}

#[test]
fn collect_nothing_when_no_files() {
    assert!(collect_crab_md_from(None, None, None).is_empty());
}

#[test]
fn collect_project_crab_md() {
    let results = collect_crab_md_from(None, Some("# Project Rules\nBe helpful."), None);
    let p = project_mds(&results);
    assert_eq!(p.len(), 1);
    assert!(p[0].content.contains("Be helpful"));
}

#[test]
fn empty_file_is_skipped() {
    let results = collect_crab_md_from(None, Some("   "), Some("   \n  \t  "));
    assert!(project_mds(&results).is_empty());
}

#[test]
fn read_trims_whitespace() {
    let md = crab_md_from(Some("  \n  content here  \n  "), CrabMdSource::Project).unwrap();
    assert_eq!(md.content, "content here");
    assert!(crab_md_from(None, CrabMdSource::Global).is_none());
}

#[test]
fn collect_both_root_and_nested_crab_md() {
    let results = collect_crab_md_from(None, Some("Root instructions"), Some("Nested instructions"));
    let p = project_mds(&results);
    assert_eq!(p.len(), 2);
    assert!(p[0].content.contains("Root"));
    assert!(p[1].content.contains("Nested"));
}

#[test]
fn collect_deduplicates_identical_root_and_nested() {
    let same = "Identical instructions";
    let results = collect_crab_md_from(None, Some(same), Some(same));
    assert_eq!(project_mds(&results).len(), 1);
}

#[test]
fn global_comes_first() {
    let results = collect_crab_md_from(Some("global"), Some("root"), None);
    assert_eq!(results.len(), 2);
    assert_eq!(results[0].source, CrabMdSource::Global);
    assert_eq!(results[1].content, "root");
}

#[test]
fn nested_equal_to_global_is_kept_without_root_file() {
    let r = collect_crab_md_from(Some("Same rules."), None, Some("  Same rules.\n"));
    assert_eq!(r.len(), 2);
    assert_eq!(r[0].source, CrabMdSource::Global);
    assert_eq!(r[1].source, CrabMdSource::Project);
    assert_eq!(r[1].content, "Same rules.");
}

#[test]
fn nested_equal_to_root_file_is_dropped() {
    let r = collect_crab_md_from(Some("G"), Some("P"), Some("P"));
    let contents: Vec<&str> = r.iter().map(|m| m.content.as_str()).collect();
    assert_eq!(contents, vec!["G", "P"]);
}
