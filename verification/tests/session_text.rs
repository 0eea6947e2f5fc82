use crab_code::session_text::{session_preview, transcript_excerpt};

#[test]
fn session_preview_truncation() {
    let long_text = "a".repeat(200);
    let truncated = session_preview(&long_text);
    assert_eq!(truncated.len(), 83); // 80 + "..."
}

#[test]
fn short_preview_is_whole_text() {
    assert_eq!(session_preview("How do I fix this?"), "How do I fix this?");
    let exactly = "b".repeat(80);
    assert_eq!(session_preview(&exactly), exactly);
}

#[test]
fn preview_cuts_at_a_multibyte_boundary() {
    // 40 two-byte characters are exactly 80 bytes; one more makes it longer.
    let text = "é".repeat(41);
    let p = session_preview(&text);
    assert_eq!(p, format!("{}...", "é".repeat(40)));
}

#[test]
fn transcript_excerpt_truncates_after_2000_bytes() {
    let long_text = "x".repeat(2500);
    let e = transcript_excerpt(&long_text);
    assert_eq!(e.len(), 2000 + "... [truncated]".len());
    assert!(e.ends_with("... [truncated]"));
    assert_eq!(transcript_excerpt("short"), "short");
}
