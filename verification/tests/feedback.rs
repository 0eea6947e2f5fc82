use crab_code::feedback::{FeedbackAction, FeedbackCommand, FEEDBACK_REPO};

fn ctx() -> (&'static str, &'static str, &'static str) {
    ("test-model", "test-session", "/tmp/crab-test")
}

#[test]
fn feedback_no_args_shows_usage() {
    let (model, session, dir) = ctx();
    if let FeedbackAction::Reply(text) = FeedbackCommand.plan("", model, session, dir) {
        assert!(text.contains("Usage:"));
        assert!(text.contains("/feedback"));
    } else {
        panic!("expected Message");
    }
}

#[test]
fn feedback_with_args_creates_issue() {
    let (model, session, dir) = ctx();
    match FeedbackCommand.plan("My bug report", model, session, dir) {
        FeedbackAction::CreateIssue { repo, title, body } => {
            assert_eq!(repo, FEEDBACK_REPO);
            assert_eq!(title, "My bug report");
            assert!(body.contains("Model: test-model"));
            // The issue-creating call answers with the issue's URL.
            let text = FeedbackCommand.issue_reply(Ok("https://github.com/test/repo/issues/1".into()));
            assert!(text.contains("Issue created:"));
            assert!(text.contains("https://"));
        }
        FeedbackAction::Reply(_) => panic!("expected an issue"),
    }
}

#[test]
fn feedback_blank_args_show_usage_and_title_is_trimmed() {
    let (model, session, dir) = ctx();
    assert!(matches!(FeedbackCommand.plan("   \t", model, session, dir), FeedbackAction::Reply(_)));
    match FeedbackCommand.plan("  spaced out  ", model, session, dir) {
        FeedbackAction::CreateIssue { title, body, .. } => {
            assert_eq!(title, "spaced out");
            assert_eq!(
                body,
                "**Submitted via /feedback**\n\nModel: test-model\nSession: test-session\nWorking dir: /tmp/crab-test"
            );
        }
        FeedbackAction::Reply(_) => panic!("expected an issue"),
    }
}

#[test]
fn feedback_failure_is_replied_verbatim() {
    assert_eq!(FeedbackCommand.issue_reply(Err("gh missing".into())), "gh missing");
    assert_eq!(FeedbackCommand.name(), "feedback");
    assert_eq!(FeedbackCommand.description(), "Submit feedback via GitHub Issue");
}
