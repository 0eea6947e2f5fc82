use std::time::Duration;
use crab_code::recovery::{
    context_step, is_max_tokens_stop, retry_delay, retry_notice, summary_recovers, truncation_budget, ContextCheck,
    ContextStep, ErrorAction, RecoveryState, StopAction, ESCALATED_MAX_TOKENS,
    MAX_OUTPUT_TOKENS_RECOVERY, MAX_OUTPUT_TOKEN_RETRIES, MAX_PTL_RETRIES,
};

#[test]
fn max_tokens_stop_anthropic() {
    assert!(is_max_tokens_stop(Some("max_tokens")));
}

#[test]
fn max_tokens_stop_openai() {
    assert!(is_max_tokens_stop(Some("length")));
}

#[test]
fn max_tokens_stop_max_output() {
    assert!(is_max_tokens_stop(Some("max_output_tokens")));
}

#[test]
fn max_tokens_stop_end_turn() {
    assert!(!is_max_tokens_stop(Some("end_turn")));
}

#[test]
fn max_tokens_stop_tool_use() {
    assert!(!is_max_tokens_stop(Some("tool_use")));
}

#[test]
fn max_tokens_stop_none() {
    assert!(!is_max_tokens_stop(None));
}

#[test]
#[allow(clippy::assertions_on_constants)]
fn recovery_constants_reasonable() {
    assert!(MAX_PTL_RETRIES >= 1);
    assert!(MAX_PTL_RETRIES <= 5);
    assert!(MAX_OUTPUT_TOKEN_RETRIES >= 1);
    assert!(MAX_OUTPUT_TOKEN_RETRIES <= 5);
    assert!(ESCALATED_MAX_TOKENS >= 16_000);
    assert!(!MAX_OUTPUT_TOKENS_RECOVERY.is_empty());
}

#[test]
fn cut_off_run_escalates_once_then_continues_then_gives_up() {
    let mut s = RecoveryState::new(4096);
    assert_eq!(s.on_response(true), StopAction::Escalate);
    assert_eq!(s.effective_max_tokens, ESCALATED_MAX_TOKENS);
    assert_eq!(s.on_response(true), StopAction::InjectContinuation);
    assert_eq!(s.on_response(true), StopAction::InjectContinuation);
    assert_eq!(s.on_response(true), StopAction::Proceed);
    assert_eq!(s.output_token_retries, 0);
}

#[test]
fn high_cap_is_not_escalated() {
    let mut s = RecoveryState::new(100_000);
    assert_eq!(s.on_response(true), StopAction::InjectContinuation);
    assert_eq!(s.effective_max_tokens, 100_000);
}

#[test]
fn complete_response_resets_count() {
    let mut s = RecoveryState::new(4096);
    s.on_response(true);
    assert_eq!(s.on_response(false), StopAction::Proceed);
    assert_eq!(s.output_token_retries, 0);
}

#[test]
fn prompt_too_long_retried_then_fails() {
    let mut s = RecoveryState::new(4096);
    for _ in 0..3 {
        assert_eq!(s.on_request_error(true, false, false), ErrorAction::ShrinkAndRetry);
    }
    assert_eq!(s.on_request_error(true, false, false), ErrorAction::Fail);
    s.on_request_success();
    assert_eq!(s.ptl_retries, 0);
}

#[test]
fn overloaded_falls_back_only_with_fallback() {
    let mut s = RecoveryState::new(4096);
    assert_eq!(s.on_request_error(false, true, true), ErrorAction::FallBack);
    assert_eq!(s.on_request_error(false, true, false), ErrorAction::Fail);
}

#[test]
fn retry_only_transient_failures_within_the_limit() {
    let backoff = Duration::from_millis(500);
    assert_eq!(retry_delay(true, 0, 3, None, backoff), Some(backoff));
    assert_eq!(retry_delay(true, 2, 3, Some(Duration::from_secs(7)), backoff), Some(Duration::from_secs(7)));
    assert_eq!(retry_delay(true, 3, 3, None, backoff), None);
    assert_eq!(retry_delay(false, 0, 3, None, backoff), None);
    assert_eq!(retry_delay(true, 0, 0, None, backoff), None);
}

#[test]
fn retry_notice_counts_attempts_from_one() {
    assert_eq!(retry_notice(0, 3, "API error: overloaded"), "Retrying after error (attempt 1/3): API error: overloaded");
    assert_eq!(retry_notice(2, 10, "timeout"), "Retrying after error (attempt 3/10): timeout");
}

#[test]
fn context_upgrade_only_to_a_larger_window() {
    assert_eq!(context_step(ContextCheck::NeedsUpgrade, Some(1_000_000), 200_000, false, true), ContextStep::Upgrade);
    assert_eq!(context_step(ContextCheck::NeedsUpgrade, Some(200_000), 200_000, false, true), ContextStep::Warn);
    assert_eq!(context_step(ContextCheck::NeedsUpgrade, None, 200_000, false, true), ContextStep::Warn);
}

#[test]
fn context_compaction_respects_the_circuit_breaker() {
    assert_eq!(context_step(ContextCheck::NeedsCompaction, None, 1, false, true), ContextStep::Compact);
    assert_eq!(context_step(ContextCheck::NeedsCompaction, None, 1, true, true), ContextStep::Warn);
    assert_eq!(context_step(ContextCheck::NeedsCompaction, None, 1, false, false), ContextStep::Warn);
    assert_eq!(context_step(ContextCheck::Warning, None, 1, false, true), ContextStep::Warn);
    assert_eq!(context_step(ContextCheck::Roomy, Some(9), 1, false, true), ContextStep::Nothing);
}

#[test]
fn truncation_budget_is_sixty_percent() {
    assert_eq!(truncation_budget(200_000), 120_000);
    assert_eq!(truncation_budget(7), 4);
    assert!(summary_recovers(Some(10)));
    assert!(!summary_recovers(Some(0)));
    assert!(!summary_recovers(None));
}
