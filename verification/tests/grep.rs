use crab_code::error::Error;
use crab_code::grep::{
    lines_of_content, matches_in_lines, search, search_file, GrepOptions, SearchPattern, SearchRoot, SourceFile,
};

fn create_test_file(dir: &str, name: &str, content: &[u8]) -> SourceFile {
    SourceFile {
        path: format!("{dir}/{name}"),
        name: name.to_string(),
        content: content.to_vec(),
    }
}

fn options(pattern: &str, path: &str) -> GrepOptions {
    GrepOptions {
        pattern: pattern.into(),
        path: path.into(),
        case_insensitive: false,
        file_glob: None,
        max_results: 0,
        context_lines: 0,
        respect_gitignore: false,
    }
}

#[test]
fn simple_match() {
    let files = vec![create_test_file("/tmp/t", "test.txt", b"hello world\ngoodbye world\n")];
    let opts = options("hello", "/tmp/t");
    let results = search(&opts, SearchRoot::Directory, &files).unwrap();
    assert_eq!(results.len(), 1);
    assert_eq!(results[0].line_number, 1);
    assert_eq!(results[0].line_content, "hello world");
}

#[test]
fn regex_match() {
    let files = vec![create_test_file(
        "/tmp/t",
        "code.rs",
        b"fn main() {}\nfn helper() {}\nlet x = 5;\n",
    )];
    let opts = options(r"fn\s+\w+", "/tmp/t");
    let results = search(&opts, SearchRoot::Directory, &files).unwrap();
    assert_eq!(results.len(), 2);
}

#[test]
fn case_insensitive() {
    let files = vec![create_test_file("/tmp/t", "test.txt", b"Hello World\nhello world\n")];
    let mut opts = options("hello", "/tmp/t");
    opts.case_insensitive = true;
    let results = search(&opts, SearchRoot::Directory, &files).unwrap();
    assert_eq!(results.len(), 2);
}

#[test]
fn context_lines() {
    let files = vec![create_test_file(
        "/tmp/t",
        "ctx.txt",
        b"line1\nline2\nTARGET\nline4\nline5\n",
    )];
    let mut opts = options("TARGET", "/tmp/t");
    opts.context_lines = 1;
    let results = search(&opts, SearchRoot::Directory, &files).unwrap();
    assert_eq!(results.len(), 1);
    assert_eq!(results[0].context_before, vec!["line2"]);
    assert_eq!(results[0].context_after, vec!["line4"]);
}

#[test]
fn file_glob_filter() {
    let files = vec![
        create_test_file("/tmp/t", "code.rs", b"hello\n"),
        create_test_file("/tmp/t", "doc.md", b"hello\n"),
    ];
    let mut opts = options("hello", "/tmp/t");
    opts.file_glob = Some("*.rs".into());
    let results = search(&opts, SearchRoot::Directory, &files).unwrap();
    assert_eq!(results.len(), 1);
    assert!(results[0].path.contains("code.rs"));
}

#[test]
fn max_results() {
    let files = vec![create_test_file(
        "/tmp/t",
        "many.txt",
        b"match1\nmatch2\nmatch3\nmatch4\nmatch5\n",
    )];
    let mut opts = options("match", "/tmp/t");
    opts.max_results = 2;
    let results = search(&opts, SearchRoot::Directory, &files).unwrap();
    assert_eq!(results.len(), 2);
}

#[test]
fn binary_file_skipped() {
    let files = vec![create_test_file("/tmp/t", "binary.bin", b"hello\x00world")];
    let opts = options("hello", "/tmp/t");
    let results = search(&opts, SearchRoot::Directory, &files).unwrap();
    assert!(results.is_empty());
}

#[test]
fn single_file_path() {
    let file = create_test_file("/tmp/t", "single.txt", b"find me\nnot me\n");
    let opts = options("find", "/tmp/t/single.txt");
    let results = search(&opts, SearchRoot::File, &[file]).unwrap();
    assert_eq!(results.len(), 1);
    assert_eq!(results[0].line_content, "find me");
}

#[test]
fn invalid_regex() {
    let opts = options("[invalid", "/tmp/t");
    let result = search(&opts, SearchRoot::Directory, &[]);
    assert!(result.is_err());
}

// ── Further cases ──────────────────────────────────────────────────

#[test]
fn invalid_regex_message_and_glob_message() {
    let opts = options("[invalid", "/tmp/t");
    let err = search(&opts, SearchRoot::Directory, &[]).unwrap_err();
    assert!(err.to_string().starts_with("invalid regex: "));

    let mut opts = options("ok", "/tmp/t");
    opts.file_glob = Some("[".into());
    let err = search(&opts, SearchRoot::Directory, &[]).unwrap_err();
    assert!(err.to_string().starts_with("invalid file glob: "));
}

#[test]
fn glob_ignored_for_single_file_root() {
    let file = create_test_file("/tmp/t", "notes.md", b"alpha\n");
    let mut opts = options("alpha", "/tmp/t/notes.md");
    opts.file_glob = Some("*.rs".into());
    assert_eq!(search(&opts, SearchRoot::File, &[file]).unwrap().len(), 1);
}

#[test]
fn max_results_spans_files_in_order() {
    let files = vec![
        create_test_file("/d", "a.txt", b"x1\nx2\n"),
        create_test_file("/d", "b.txt", b"x3\nx4\n"),
    ];
    let mut opts = options("x", "/d");
    opts.max_results = 3;
    let results = search(&opts, SearchRoot::Directory, &files).unwrap();
    let lines: Vec<&str> = results.iter().map(|m| m.line_content.as_str()).collect();
    assert_eq!(lines, vec!["x1", "x2", "x3"]);
    assert_eq!(results[2].path, "/d/b.txt");
    assert_eq!(results[2].line_number, 1);
}

#[test]
fn crlf_lines_and_invalid_utf8() {
    assert_eq!(lines_of_content(b"a\r\nb\r\nc\r").unwrap(), vec!["a", "b", "c\r"]);
    assert_eq!(lines_of_content(b"").unwrap(), Vec::<String>::new());
    assert_eq!(lines_of_content(b"\n").unwrap(), vec![""]);
    assert!(lines_of_content(b"\xff\xfe").is_none());
    assert!(lines_of_content(b"a\x00").is_none());
}

#[test]
fn context_is_clipped_at_file_edges() {
    let lines: Vec<String> = vec!["a".into(), "b".into(), "c".into()];
    let m = matches_in_lines("f", &lines, &[true, false, true], 5);
    assert_eq!(m.len(), 2);
    assert!(m[0].context_before.is_empty());
    assert_eq!(m[0].context_after, vec!["b", "c"]);
    assert_eq!(m[1].line_number, 3);
    assert_eq!(m[1].context_before, vec!["a", "b"]);
    assert!(m[1].context_after.is_empty());
}

#[test]
fn search_file_reports_matching_lines() {
    let p = SearchPattern::new("^b", false).unwrap();
    let m = search_file("f.txt", b"abc\nbcd\nb\n", &p, 0);
    assert_eq!(m.len(), 2);
    assert_eq!(m[0].line_number, 2);
    assert_eq!(m[1].line_content, "b");
}

#[test]
fn missing_root_is_an_error() {
    let opts = options("x", "/no/such/dir");
    match search(&opts, SearchRoot::Missing, &[]) {
        Err(Error::Other(m)) => assert_eq!(m, "path not found: /no/such/dir"),
        other => panic!("unexpected: {other:?}"),
    }
    // an invalid pattern is reported first
    let bad = options("[x", "/no/such/dir");
    match search(&bad, SearchRoot::Missing, &[]) {
        Err(Error::Other(m)) => assert!(m.starts_with("invalid regex: ")),
        other => panic!("unexpected: {other:?}"),
    }
}
