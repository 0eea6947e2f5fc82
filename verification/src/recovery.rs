//! Recovery decisions of the agent loop: what to do when a response is cut
//! off at the output-token limit, or when a request fails because the
//! prompt is too long or the model is overloaded.
//!
//! The loop itself (streaming, compaction, sending events) runs elsewhere;
//! it hands each outcome to these functions and performs the action they
//! return.
use vstd::prelude::*;
use crate::text::{concat_str, decimal, str_eq, u64_to_string};

verus! {

/// Retries after a prompt-too-long failure before giving up.
pub const MAX_PTL_RETRIES: u32 = 3;

/// Recoveries after an output-token cut-off before accepting the response.
pub const MAX_OUTPUT_TOKEN_RETRIES: u32 = 3;

/// The output-token cap the first recovery raises the limit to.
pub const ESCALATED_MAX_TOKENS: u32 = 64000;

/// The message injected to make the model resume after a cut-off.
pub const MAX_OUTPUT_TOKENS_RECOVERY: &'static str = "Output token limit hit. Resume directly \u{2014} no apology, no recap. Pick up mid-thought if that is where the cut happened. Break remaining work into smaller pieces.";

/// Whether a stop reason reports the output-token limit, under the names
/// used by the different providers.
pub open spec fn max_tokens_reason(r: Option<Seq<char>>) -> bool {
    r matches Some(s) && (s == "max_tokens"@ || s == "length"@ || s == "max_output_tokens"@)
}

/// Whether a response stopped because it hit the output-token limit.
pub fn is_max_tokens_stop(stop_reason: Option<&str>) -> (r: bool)
    ensures
        r == max_tokens_reason(match stop_reason {
            Some(s) => Some(s@),
            None => None,
        }),
{
    match stop_reason {
        Some(s) => str_eq(s, "max_tokens") || str_eq(s, "length") || str_eq(s, "max_output_tokens"),
        None => false,
    }
}

/// The recovery counters of one run of the loop.
#[derive(Debug, Clone, Copy, PartialEq, Eq, Structural)]
pub struct RecoveryState {
    /// Prompt-too-long retries since the last successful request.
    pub ptl_retries: u32,
    /// Output-token recoveries since the last response that was not cut off.
    pub output_token_retries: u32,
    /// The output-token cap of the next request.
    pub effective_max_tokens: u32,
}

/// What to do with a response.
#[derive(Debug, Clone, Copy, PartialEq, Eq, Structural)]
pub enum StopAction {
    /// Retry the request with the raised token cap, the conversation unchanged.
    Escalate,
    /// Keep the cut-off message and ask the model to continue.
    InjectContinuation,
    /// Go on with the response as it is.
    Proceed,
}

/// What to do after a failed request.
#[derive(Debug, Clone, Copy, PartialEq, Eq, Structural)]
pub enum ErrorAction {
    /// Shrink the conversation (drop images, or compact it) and retry.
    ShrinkAndRetry,
    /// Retry once on the fallback model.
    FallBack,
    /// Give up with the error.
    Fail,
}

impl RecoveryState {
    /// The counters at the start of a run, with the configured token cap.
    pub fn new(max_tokens: u32) -> (r: Self)
        ensures
            r.ptl_retries == 0,
            r.output_token_retries == 0,
            r.effective_max_tokens == max_tokens,
    {
        RecoveryState { ptl_retries: 0, output_token_retries: 0, effective_max_tokens: max_tokens }
    }

    /// The decision after a request failed. A too-long prompt is retried
    /// (after shrinking) up to [`MAX_PTL_RETRIES`] times; an overloaded
    /// model falls back when a fallback model is configured; anything else
    /// fails.
    pub fn on_request_error(&mut self, prompt_too_long: bool, overloaded: bool, has_fallback: bool) -> (a: ErrorAction)
        requires
            old(self).ptl_retries <= MAX_PTL_RETRIES,
        ensures
            final(self).output_token_retries == old(self).output_token_retries,
            final(self).effective_max_tokens == old(self).effective_max_tokens,
            final(self).ptl_retries <= MAX_PTL_RETRIES,
            prompt_too_long && old(self).ptl_retries < MAX_PTL_RETRIES ==> a == ErrorAction::ShrinkAndRetry
                && final(self).ptl_retries == old(self).ptl_retries + 1,
            !(prompt_too_long && old(self).ptl_retries < MAX_PTL_RETRIES) ==> final(self).ptl_retries
                == old(self).ptl_retries && a == (if overloaded && has_fallback {
                ErrorAction::FallBack
            } else {
                ErrorAction::Fail
            }),
    {
        if prompt_too_long && self.ptl_retries < MAX_PTL_RETRIES {
            self.ptl_retries = self.ptl_retries + 1;
            ErrorAction::ShrinkAndRetry
        } else if overloaded && has_fallback {
            ErrorAction::FallBack
        } else {
            ErrorAction::Fail
        }
    }

    /// A request succeeded: the prompt-too-long count starts over.
    pub fn on_request_success(&mut self)
        ensures
            *final(self) == (RecoveryState { ptl_retries: 0, ..*old(self) }),
    {
        self.ptl_retries = 0;
    }

    /// The decision for a response with the given stop reason. A response
    /// cut off at the token limit is recovered up to
    /// [`MAX_OUTPUT_TOKEN_RETRIES`] times in a row: the first time by
    /// raising the cap to [`ESCALATED_MAX_TOKENS`] (unless it is already that
    /// high), later by asking the model to continue. Any other response
    /// resets the count.
    pub fn on_response(&mut self, max_tokens_stop: bool) -> (a: StopAction)
        requires
            old(self).output_token_retries <= MAX_OUTPUT_TOKEN_RETRIES,
        ensures
            final(self).ptl_retries == old(self).ptl_retries,
            final(self).output_token_retries <= MAX_OUTPUT_TOKEN_RETRIES,
            ({
                let o = *old(self);
                let f = *final(self);
                if max_tokens_stop && o.output_token_retries < MAX_OUTPUT_TOKEN_RETRIES {
                    &&& f.output_token_retries == o.output_token_retries + 1
                    &&& if f.output_token_retries == 1 && o.effective_max_tokens < ESCALATED_MAX_TOKENS {
                        a == StopAction::Escalate && f.effective_max_tokens == ESCALATED_MAX_TOKENS
                    } else {
                        a == StopAction::InjectContinuation && f.effective_max_tokens == o.effective_max_tokens
                    }
                } else {
                    a == StopAction::Proceed && f.output_token_retries == 0 && f.effective_max_tokens
                        == o.effective_max_tokens
                }
            }),
    {
        if max_tokens_stop && self.output_token_retries < MAX_OUTPUT_TOKEN_RETRIES {
            self.output_token_retries = self.output_token_retries + 1;
            if self.output_token_retries == 1 && self.effective_max_tokens < ESCALATED_MAX_TOKENS {
                self.effective_max_tokens = ESCALATED_MAX_TOKENS;
                StopAction::Escalate
            } else {
                StopAction::InjectContinuation
            }
        } else {
            self.output_token_retries = 0;
            StopAction::Proceed
        }
    }
}

/// The actions for a run of responses that are all cut off, starting from
/// the counters `s`, and the counters after them.
pub open spec fn cut_off_run(s: RecoveryState, n: nat) -> (Seq<StopAction>, RecoveryState)
    decreases n,
{
    if n == 0 {
        (Seq::empty(), s)
    } else {
        let (acts, t) = cut_off_run(s, (n - 1) as nat);
        if t.output_token_retries < MAX_OUTPUT_TOKEN_RETRIES {
            let k = (t.output_token_retries + 1) as u32;
            if k == 1 && t.effective_max_tokens < ESCALATED_MAX_TOKENS {
                (acts.push(StopAction::Escalate), RecoveryState {
                    output_token_retries: k,
                    effective_max_tokens: ESCALATED_MAX_TOKENS,
                    ..t
                })
            } else {
                (acts.push(StopAction::InjectContinuation), RecoveryState { output_token_retries: k, ..t })
            }
        } else {
            (acts.push(StopAction::Proceed), RecoveryState { output_token_retries: 0, ..t })
        }
    }
}

/// Law: the loop gives up on cut-off responses. From a fresh count, a run
/// of cut-off responses is recovered at most [`MAX_OUTPUT_TOKEN_RETRIES`]
/// times in a row, the token cap is raised at most once, and the next
/// cut-off response is accepted as it is.
pub proof fn law_cut_off_recovery_is_bounded(max_tokens: u32)
    ensures
        ({
            let s = RecoveryState { ptl_retries: 0, output_token_retries: 0, effective_max_tokens: max_tokens };
            let (acts, _) = cut_off_run(s, 4);
            &&& acts.len() == 4
            &&& acts[0] == (if max_tokens < ESCALATED_MAX_TOKENS {
                StopAction::Escalate
            } else {
                StopAction::InjectContinuation
            })
            &&& acts[1] == StopAction::InjectContinuation
            &&& acts[2] == StopAction::InjectContinuation
            &&& acts[3] == StopAction::Proceed
        }),
{
    let s = RecoveryState { ptl_retries: 0, output_token_retries: 0, effective_max_tokens: max_tokens };
    reveal_with_fuel(cut_off_run, 5);
    let (a1, t1) = cut_off_run(s, 1);
    let (a2, t2) = cut_off_run(s, 2);
    let (a3, t3) = cut_off_run(s, 3);
    let (a4, t4) = cut_off_run(s, 4);
    assert(t1.output_token_retries == 1);
    assert(t2.output_token_retries == 2);
    assert(t3.output_token_retries == 3);
    assert(a4 == a3.push(StopAction::Proceed));
}

/// The recovery count before the `i`-th response of a cut-off run from
/// `s`.
pub open spec fn count_before(s: RecoveryState, i: nat) -> u32 {
    cut_off_run(s, i).1.output_token_retries
}

/// In a cut-off run from a valid count, the actions build up one by one,
/// the count stays within the bound, the `i`-th response is accepted
/// exactly when the count before it is at the bound, and the count then
/// starts over (else it grows by one).
proof fn lemma_cut_off_run(s: RecoveryState, n: nat)
    requires
        s.output_token_retries <= MAX_OUTPUT_TOKEN_RETRIES,
    ensures
        cut_off_run(s, n).0.len() == n,
        count_before(s, n) <= MAX_OUTPUT_TOKEN_RETRIES,
        forall|i: nat| #![trigger cut_off_run(s, n).0[i as int]]
            i < n ==> cut_off_run(s, n).0[i as int] == cut_off_run(s, (i + 1) as nat).0[i as int],
        n > 0 ==> (cut_off_run(s, n).0[n - 1] == StopAction::Proceed <==> count_before(
            s,
            (n - 1) as nat,
        ) == MAX_OUTPUT_TOKEN_RETRIES),
        n > 0 ==> count_before(s, n) == if count_before(s, (n - 1) as nat) < MAX_OUTPUT_TOKEN_RETRIES {
            count_before(s, (n - 1) as nat) + 1
        } else {
            0
        },
    decreases n,
{
    if n > 0 {
        lemma_cut_off_run(s, (n - 1) as nat);
    }
}

/// The count before response `i + k` of a cut-off run, while it has not
/// reached the bound, is the count before response `i` plus `k`.
proof fn lemma_count_climbs(s: RecoveryState, i: nat, k: nat)
    requires
        s.output_token_retries <= MAX_OUTPUT_TOKEN_RETRIES,
        count_before(s, i) + k <= MAX_OUTPUT_TOKEN_RETRIES,
    ensures
        count_before(s, i + k) == count_before(s, i) + k,
    decreases k,
{
    if k > 0 {
        lemma_count_climbs(s, i, (k - 1) as nat);
        lemma_cut_off_run(s, i + k);
    }
}

/// Law: however long a run of cut-off responses, starting from any valid
/// count, no more than [`MAX_OUTPUT_TOKEN_RETRIES`] of them in a row are
/// recovered: among any `MAX_OUTPUT_TOKEN_RETRIES + 1` consecutive ones,
/// one is accepted as it is.
pub proof fn law_cut_off_recoveries_in_a_row_are_bounded(s: RecoveryState, n: nat, i: nat)
    requires
        s.output_token_retries <= MAX_OUTPUT_TOKEN_RETRIES,
        i + MAX_OUTPUT_TOKEN_RETRIES < n,
    ensures
        exists|j: int|
            i <= j <= i + MAX_OUTPUT_TOKEN_RETRIES && #[trigger] cut_off_run(s, n).0[j]
                == StopAction::Proceed,
{
    lemma_cut_off_run(s, i);
    let x = count_before(s, i);
    let k = (MAX_OUTPUT_TOKEN_RETRIES - x) as nat;
    lemma_count_climbs(s, i, k);
    let j = i + k;
    lemma_cut_off_run(s, j + 1);
    lemma_cut_off_run(s, n);
    assert(cut_off_run(s, n).0[j as int] == cut_off_run(s, (j + 1) as nat).0[j as int]);
    assert(cut_off_run(s, n).0[j as int] == StopAction::Proceed);
}


// ── Retrying a failed request ──────────────────────────────────────────

/// The delay before retrying a failed attempt, or `None` to give up: a
/// transient failure is retried while attempts remain, after the delay the
/// server asked for when it gave one, else after the policy's backoff for
/// this attempt.
pub fn retry_delay(
    transient: bool,
    attempt: u32,
    max_retries: u32,
    retry_after: Option<std::time::Duration>,
    backoff: std::time::Duration,
) -> (r: Option<std::time::Duration>)
    ensures
        r is Some <==> (transient && attempt < max_retries),
        r matches Some(d) ==> d == (match retry_after {
            Some(a) => a,
            None => backoff,
        }),
{
    if transient && attempt < max_retries {
        match retry_after {
            Some(a) => Some(a),
            None => Some(backoff),
        }
    } else {
        None
    }
}

/// The notice sent before a retry: `Retrying after error (attempt N/M): `
/// and the error's text, N counting from one.
pub open spec fn retry_notice_text(attempt: u32, max_retries: u32, error: Seq<char>) -> Seq<char> {
    "Retrying after error (attempt "@ + decimal((attempt + 1) as nat) + "/"@ + decimal(
        max_retries as nat,
    ) + "): "@ + error
}

/// The notice sent before retrying attempt `attempt` (counted from zero).
pub fn retry_notice(attempt: u32, max_retries: u32, error: &str) -> (r: String)
    requires
        attempt < u32::MAX,
    ensures
        r@ == retry_notice_text(attempt, max_retries, error@),
{
    let n = u64_to_string((attempt + 1) as u64);
    let m = u64_to_string(max_retries as u64);
    let a = concat_str("Retrying after error (attempt ", n.as_str());
    let b = concat_str(a.as_str(), "/");
    let c = concat_str(b.as_str(), m.as_str());
    let d = concat_str(c.as_str(), "): ");
    concat_str(d.as_str(), error)
}


// ── Context window upkeep ──────────────────────────────────────────────

/// What the context check says of the conversation's size.
#[derive(Debug, Clone, Copy, PartialEq, Eq, Structural)]
pub enum ContextCheck {
    /// Plenty of room.
    Roomy,
    /// Close to the limit: warn.
    Warning,
    /// Near the limit: move to a model variant with a larger window.
    NeedsUpgrade,
    /// Over the compaction threshold: compact.
    NeedsCompaction,
}

/// What the loop does about the context before the next request.
#[derive(Debug, Clone, Copy, PartialEq, Eq, Structural)]
pub enum ContextStep {
    /// Nothing.
    Nothing,
    /// Send a token warning.
    Warn,
    /// Switch to the larger-window variant.
    Upgrade,
    /// Compact the conversation with the strategy chosen for its usage.
    Compact,
}

/// The step for a context check: an upgrade only to a variant whose window
/// is larger than the current one (`upgrade_window` is the window of the
/// variant the backend offers, if any); a compaction only while the
/// circuit breaker holds and a strategy fits the usage; a warning
/// otherwise, and nothing when there is room.
pub open spec fn context_step_of(
    check: ContextCheck,
    upgrade_window: Option<u64>,
    current_window: u64,
    circuit_broken: bool,
    has_strategy: bool,
) -> ContextStep {
    match check {
        ContextCheck::Roomy => ContextStep::Nothing,
        ContextCheck::Warning => ContextStep::Warn,
        ContextCheck::NeedsUpgrade => match upgrade_window {
            Some(w) if w > current_window => ContextStep::Upgrade,
            _ => ContextStep::Warn,
        },
        ContextCheck::NeedsCompaction => if !circuit_broken && has_strategy {
            ContextStep::Compact
        } else {
            ContextStep::Warn
        },
    }
}

/// Decides what to do about the context before the next request.
pub fn context_step(
    check: ContextCheck,
    upgrade_window: Option<u64>,
    current_window: u64,
    circuit_broken: bool,
    has_strategy: bool,
) -> (r: ContextStep)
    ensures
        r == context_step_of(check, upgrade_window, current_window, circuit_broken, has_strategy),
{
    match check {
        ContextCheck::Roomy => ContextStep::Nothing,
        ContextCheck::Warning => ContextStep::Warn,
        ContextCheck::NeedsUpgrade => match upgrade_window {
            Some(w) => if w > current_window {
                ContextStep::Upgrade
            } else {
                ContextStep::Warn
            },
            None => ContextStep::Warn,
        },
        ContextCheck::NeedsCompaction => if !circuit_broken && has_strategy {
            ContextStep::Compact
        } else {
            ContextStep::Warn
        },
    }
}

/// The token budget a conversation is cut to when compaction fails: 60% of
/// the limit, rounded down.
pub fn truncation_budget(limit: u64) -> (r: u64)
    requires
        limit <= u64::MAX / 60,
    ensures
        r == limit * 60 / 100,
{
    limit * 60 / 100
}

/// Whether a summary made to recover from a too-long prompt is enough: it
/// succeeded and saved tokens. Otherwise the conversation is truncated.
pub fn summary_recovers(tokens_saved: Option<u64>) -> (r: bool)
    ensures
        r == (tokens_saved matches Some(n) && n > 0),
{
    match tokens_saved {
        Some(n) => n > 0,
        None => false,
    }
}

} // verus!
