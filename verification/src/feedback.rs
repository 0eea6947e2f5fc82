//! The `/feedback` command: submits feedback as a GitHub issue.
//!
//! The command decides what to do with its arguments: show its usage, or
//! create an issue with a title and a body describing the environment.
//! Creating the issue (running the GitHub CLI) happens at the edge of the
//! program, which hands the outcome back for the reply.
use vstd::prelude::*;
use crate::text::{chars_of, concat_str, string_of, trim, trim_chars};

verus! {

/// The repository that receives feedback issues.
pub const FEEDBACK_REPO: &'static str = "lingcoder/crab-code";

/// What `/feedback` does with its arguments.
#[derive(Debug, Clone, PartialEq, Eq)]
pub enum FeedbackAction {
    /// Reply with this text and do nothing else.
    Reply(String),
    /// Create an issue in `repo` with `title` and `body`.
    CreateIssue { repo: String, title: String, body: String },
}

/// The usage text of `/feedback`.
pub open spec fn usage_text() -> Seq<char> {
    "Usage: /feedback <title>\nCreates a GitHub issue with environment info."@
}

/// The body of a feedback issue: where it came from and the model,
/// session and working directory it was sent from.
pub open spec fn issue_body(model: Seq<char>, session_id: Seq<char>, working_dir: Seq<char>) -> Seq<char> {
    "**Submitted via /feedback**\n\nModel: "@ + model + "\nSession: "@ + session_id + "\nWorking dir: "@
        + working_dir
}

/// The `/feedback` slash command.
pub struct FeedbackCommand;

impl FeedbackCommand {
    /// The command's name.
    pub fn name(&self) -> (r: &'static str)
        ensures
            r@ == "feedback"@,
    {
        "feedback"
    }

    /// The command's one-line description.
    pub fn description(&self) -> (r: &'static str)
        ensures
            r@ == "Submit feedback via GitHub Issue"@,
    {
        "Submit feedback via GitHub Issue"
    }

    /// What to do with the arguments `args`, given the model, session and
    /// working directory of the session: with no title (the trimmed
    /// arguments are empty) reply with the usage, else create an issue in
    /// the feedback repository titled with the trimmed arguments.
    pub fn plan(&self, args: &str, model: &str, session_id: &str, working_dir: &str) -> (r: FeedbackAction)
        ensures
            trim(args@).len() == 0 ==> (r matches FeedbackAction::Reply(t) && t@ == usage_text()),
            trim(args@).len() > 0 ==> (r matches FeedbackAction::CreateIssue { repo, title, body } && repo@
                == FEEDBACK_REPO@ && title@ == trim(args@) && body@ == issue_body(
                model@,
                session_id@,
                working_dir@,
            )),
    {
        let a = chars_of(args);
        let t = trim_chars(a.as_slice());
        if t.len() == 0 {
            return FeedbackAction::Reply(
                "Usage: /feedback <title>\nCreates a GitHub issue with environment info.".to_owned(),
            );
        }
        let b1 = concat_str("**Submitted via /feedback**\n\nModel: ", model);
        let b2 = concat_str(b1.as_str(), "\nSession: ");
        let b3 = concat_str(b2.as_str(), session_id);
        let b4 = concat_str(b3.as_str(), "\nWorking dir: ");
        let body = concat_str(b4.as_str(), working_dir);
        FeedbackAction::CreateIssue { repo: FEEDBACK_REPO.to_owned(), title: string_of(t.as_slice()), body }
    }

    /// The reply once the issue was (or was not) created: `Issue created: `
    /// and the issue's URL, or the failure's message.
    pub fn issue_reply(&self, outcome: Result<String, String>) -> (r: String)
        ensures
            match outcome {
                Ok(url) => r@ == "Issue created: "@ + url@,
                Err(msg) => r@ == msg@,
            },
    {
        match outcome {
            Ok(url) => concat_str("Issue created: ", url.as_str()),
            Err(msg) => msg,
        }
    }
}

} // verus!
