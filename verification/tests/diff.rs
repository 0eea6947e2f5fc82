use crab_code::diff::{apply_edit, apply_edit_simple, unified_diff, EditOptions};


#[test]
fn simple_replacement() {
    let result = apply_edit_simple("hello world", "world", "rust").unwrap();
    assert_eq!(result.new_content, "hello rust");
    assert_eq!(result.replacements, 1);
    assert!(!result.unified_diff.is_empty());
}

#[test]
fn not_found() {
    let result = apply_edit_simple("hello world", "missing", "x");
    assert!(result.is_err());
    assert!(result.unwrap_err().to_string().contains("not found"));
}

#[test]
fn ambiguous_match() {
    let result = apply_edit_simple("aaa bbb aaa", "aaa", "ccc");
    assert!(result.is_err());
    assert!(result.unwrap_err().to_string().contains("2 times"));
}

#[test]
fn replace_all() {
    let opts = EditOptions {
        file_content: "aaa bbb aaa",
        old_string: "aaa",
        new_string: "ccc",
        replace_all: true,
        file_label: None,
    };
    let result = apply_edit(&opts).unwrap();
    assert_eq!(result.new_content, "ccc bbb ccc");
    assert_eq!(result.replacements, 2);
}

#[test]
fn unified_diff_format() {
    let diff = unified_diff("line1\nline2\n", "line1\nline3\n", "old.txt", "new.txt");
    assert!(diff.contains("--- old.txt"));
    assert!(diff.contains("+++ new.txt"));
    assert!(diff.contains("-line2"));
    assert!(diff.contains("+line3"));
}

#[test]
fn empty_replacement_deletion() {
    let result = apply_edit_simple("hello world", " world", "").unwrap();
    assert_eq!(result.new_content, "hello");
    assert_eq!(result.replacements, 1);
}

#[test]
fn multiline_edit() {
    let content = "line1\nline2\nline3\n";
    let result = apply_edit_simple(content, "line2\nline3", "replaced").unwrap();
    assert_eq!(result.new_content, "line1\nreplaced\n");
    assert_eq!(result.replacements, 1);
}

#[test]
fn file_label_in_diff() {
    let opts = EditOptions {
        file_content: "old\n",
        old_string: "old",
        new_string: "new",
        replace_all: false,
        file_label: Some("src/main.rs"),
    };
    let result = apply_edit(&opts).unwrap();
    assert!(result.unified_diff.contains("src/main.rs"));
}

#[test]
fn empty_old_string_matches_every_boundary() {
    let result = apply_edit_simple("ab", "", "x");
    assert!(result.unwrap_err().to_string().contains("3 times"));
    let opts = EditOptions {
        file_content: "ab",
        old_string: "",
        new_string: "x",
        replace_all: true,
        file_label: None,
    };
    let result = apply_edit(&opts).unwrap();
    assert_eq!(result.new_content, "xaxbx");
    assert_eq!(result.replacements, 3);
}

#[test]
fn non_overlapping_matches_are_counted() {
    let opts = EditOptions {
        file_content: "aaaa",
        old_string: "aa",
        new_string: "b",
        replace_all: true,
        file_label: None,
    };
    let result = apply_edit(&opts).unwrap();
    assert_eq!(result.new_content, "bb");
    assert_eq!(result.replacements, 2);
}

#[test]
fn diff_of_equal_texts_is_empty() {
    assert_eq!(unified_diff("same\n", "same\n", "a", "b"), "");
}
