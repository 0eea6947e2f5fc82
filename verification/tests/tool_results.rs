use crab_code::hook::HookTrigger;
use crab_code::error::Error;
use crab_code::tool_results::{
    aborts_siblings, apply_plan_mode_transitions, assemble_stream_message, apply_pre_hook, build_tool_result_message, interrupted_results,
    merge_tool_results, partition_tool_calls, plan_mode_block, post_tool_exit_code, post_tool_trigger,
    rewrite_assistant_text, strip_images, tool_results_message, worktree_trigger, ContentBlock, PlanTool,
    PreHookAction, PreHookVerdict, ToolOutput, ToolResultBlock, INTERRUPTED, PLAN_MODE_BLOCKED,
};

fn ids(v: &[&str]) -> Vec<String> {
    v.iter().map(|s| s.to_string()).collect()
}

fn result_for<'a>(blocks: &'a [ToolResultBlock], id: &str) -> &'a str {
    blocks
        .iter()
        .find(|b| b.tool_use_id == id)
        .map(|b| b.content.as_str())
        .unwrap_or("")
}

#[test]
fn enter_plan_mode_gates_writes_in_same_batch() {
    // EnterPlanMode followed by a write in the same assistant message: the
    // batch must be gated even though plan mode was off on entry.
    let calls = [PlanTool::Enter, PlanTool::Other];
    let mut plan_mode = false;
    let batch_gated = apply_plan_mode_transitions(&calls, &mut plan_mode);
    assert!(batch_gated, "EnterPlanMode must gate the same batch");
    assert!(plan_mode, "plan mode persists into the next turn");
}

#[test]
fn exit_plan_mode_opens_gate_for_next_turn() {
    let calls = [PlanTool::Exit];
    let mut plan_mode = true;
    let batch_gated = apply_plan_mode_transitions(&calls, &mut plan_mode);
    // Plan mode was on at the start, so the batch stays gated; writes are allowed again from
    // subsequent turns.
    assert!(batch_gated);
    assert!(!plan_mode, "ExitPlanMode clears plan mode for next turn");
}

#[test]
fn no_plan_tools_preserves_state() {
    let calls = [PlanTool::Other];
    let mut plan_mode = false;
    assert!(!apply_plan_mode_transitions(&calls, &mut plan_mode));
    assert!(!plan_mode);

    let mut plan_mode = true;
    assert!(apply_plan_mode_transitions(&calls, &mut plan_mode));
    assert!(plan_mode);
}

#[test]
fn build_tool_result_merges_inline_and_batch() {
    // tu_1 ran inline during streaming, tu_2 ran in the batch. Both results
    // must appear in the merged message, in assistant-message order.
    let calls = ids(&["tu_1", "tu_2"]);
    let inline = vec![("tu_1".to_string(), ToolOutput::success("inline output"))];
    let batch = vec![("tu_2".to_string(), Ok(ToolOutput::success("batch output")))];
    let out = build_tool_result_message(&calls, inline, batch, Vec::new());
    assert_eq!(out.len(), 2, "one result per tool_use");
    assert_eq!(result_for(&out, "tu_1"), "inline output");
    assert_eq!(result_for(&out, "tu_2"), "batch output");
}

#[test]
fn build_tool_result_reports_malformed_input_as_error() {
    let calls = ids(&["tu_1"]);
    let malformed = vec![("tu_1".to_string(), "bad json: trailing comma".to_string())];
    let out = build_tool_result_message(&calls, Vec::new(), Vec::new(), malformed);
    assert_eq!(out.len(), 1);
    assert_eq!(out[0].tool_use_id, "tu_1");
    assert!(out[0].is_error, "malformed input is an error result");
    assert!(out[0].content.contains("bad json"));
}

#[test]
fn build_tool_result_backfills_missing_in_release() {
    let calls = ids(&["tu_1", "tu_2"]);
    let inline = vec![("tu_1".to_string(), ToolOutput::success("ok"))];
    let out = build_tool_result_message(&calls, inline, Vec::new(), Vec::new());
    assert_eq!(out.len(), 2, "every tool_use gets exactly one result");
    match out.iter().find(|b| b.tool_use_id == "tu_2") {
        Some(b) => assert!(b.is_error, "backfilled result is an error"),
        None => panic!("tu_2 must have a backfilled result"),
    }
}

#[test]
fn build_tool_result_preserves_assistant_order() {
    let calls = ids(&["a", "b", "c"]);
    // Provide results out of order; output must follow the message order.
    let batch = vec![
        ("c".to_string(), Ok(ToolOutput::success("C"))),
        ("a".to_string(), Ok(ToolOutput::success("A"))),
        ("b".to_string(), Ok(ToolOutput::success("B"))),
    ];
    let out = build_tool_result_message(&calls, Vec::new(), batch, Vec::new());
    let order: Vec<&str> = out.iter().map(|b| b.tool_use_id.as_str()).collect();
    assert_eq!(order, vec!["a", "b", "c"]);
}

// ── Further cases ──────────────────────────────────────────────────

#[test]
fn later_sources_take_precedence_and_errors_become_error_results() {
    let calls = ids(&["x", "y"]);
    let inline = vec![("x".to_string(), ToolOutput::success("early"))];
    let batch = vec![
        ("x".to_string(), Ok(ToolOutput::error("late"))),
        ("y".to_string(), Err(Error::Tool("boom".into()))),
    ];
    let out = build_tool_result_message(&calls, inline, batch, Vec::new());
    assert_eq!(out[0].content, "late");
    assert!(out[0].is_error);
    assert_eq!(out[1].content, "tool error: boom");
    assert!(out[1].is_error);
}

#[test]
fn repeated_call_id_gets_a_backfill() {
    let calls = ids(&["d", "d"]);
    let entries = vec![ToolResultBlock { tool_use_id: "d".into(), content: "once".into(), is_error: false }];
    let out = merge_tool_results(&calls, &entries);
    assert_eq!(out[0].content, "once");
    assert_eq!(out[1].content, "tool produced no result (internal error)");
    assert!(out[1].is_error);
}

#[test]
fn last_plan_tool_decides_the_next_turn() {
    let mut plan_mode = false;
    assert!(apply_plan_mode_transitions(&[PlanTool::Enter, PlanTool::Exit, PlanTool::Other], &mut plan_mode));
    assert!(!plan_mode);
    let mut plan_mode = true;
    assert!(apply_plan_mode_transitions(&[PlanTool::Exit, PlanTool::Enter], &mut plan_mode));
    assert!(plan_mode);
}

#[test]
fn outcome_blocks_keep_text_and_error_flag() {
    let results = vec![
        ("id1".to_string(), Ok(ToolOutput::success("ok"))),
        ("id2".to_string(), Ok(ToolOutput::error("something went wrong"))),
        ("id3".to_string(), Err(Error::Other("lost".into()))),
    ];
    let blocks = tool_results_message(results);
    assert_eq!(blocks.len(), 3);
    assert!(!blocks[0].is_error);
    assert_eq!(blocks[0].content, "ok");
    assert!(blocks[1].is_error);
    assert_eq!(blocks[1].content, "something went wrong");
    assert_eq!(blocks[2].tool_use_id, "id3");
    assert_eq!(blocks[2].content, "lost");
    assert!(blocks[2].is_error);
    assert!(tool_results_message(Vec::new()).is_empty());
}

#[test]
fn partition_tool_calls_empty() {
    let blocks: Vec<ContentBlock> = vec![];
    let (reads, writes) = partition_tool_calls(&blocks, &[]);
    assert!(reads.is_empty());
    assert!(writes.is_empty());
}

#[test]
fn partition_tool_calls_unknown_tools_go_to_writes() {
    // an empty registry knows no tool, so none is concurrency-safe
    let blocks = vec![ContentBlock::ToolUse { id: "tu_1".into(), name: "unknown_tool".into() }];
    let (reads, writes) = partition_tool_calls(&blocks, &[false]);
    assert!(reads.is_empty());
    assert_eq!(writes.len(), 1);
    assert_eq!(writes[0].name, "unknown_tool");
}

#[test]
fn partition_tool_calls_skips_non_tool_blocks() {
    let blocks = vec![
        ContentBlock::Text("some text".into()),
        ContentBlock::ToolUse { id: "tu_1".into(), name: "bash".into() },
    ];
    let (reads, writes) = partition_tool_calls(&blocks, &[false, false]);
    assert!(reads.is_empty());
    assert_eq!(writes.len(), 1);
}

#[test]
fn partition_tool_calls_keeps_message_order_in_each_group() {
    let blocks = vec![
        ContentBlock::ToolUse { id: "a".into(), name: "read".into() },
        ContentBlock::ToolUse { id: "b".into(), name: "write".into() },
        ContentBlock::Other,
        ContentBlock::ToolUse { id: "c".into(), name: "grep".into() },
        ContentBlock::ToolUse { id: "d".into(), name: "edit".into() },
    ];
    let (reads, writes) = partition_tool_calls(&blocks, &[true, false, true, true, false]);
    let r: Vec<&str> = reads.iter().map(|c| c.id.as_str()).collect();
    let w: Vec<&str> = writes.iter().map(|c| c.id.as_str()).collect();
    assert_eq!(r, vec!["a", "c"]);
    assert_eq!(w, vec!["b", "d"]);
}

#[test]
fn plan_mode_blocks_only_mutating_tools() {
    let blocked = plan_mode_block(true, false, false).unwrap();
    assert!(blocked.is_error);
    assert_eq!(blocked.text, PLAN_MODE_BLOCKED);
    assert!(blocked.text.contains("ExitPlanMode"));
    assert!(plan_mode_block(true, true, false).is_none());
    assert!(plan_mode_block(true, false, true).is_none());
    assert!(plan_mode_block(false, false, false).is_none());
}

#[test]
fn pre_hook_deny_modify_allow() {
    match apply_pre_hook("ls", Some(PreHookAction::Deny), Some("no shell"), None) {
        PreHookVerdict::Blocked(o) => {
            assert!(o.is_error);
            assert_eq!(o.text, "<hook-blocked> no shell");
        }
        other => panic!("unexpected {other:?}"),
    }
    match apply_pre_hook("ls", Some(PreHookAction::Deny), None, None) {
        PreHookVerdict::Blocked(o) => assert_eq!(o.text, "<hook-blocked> blocked by pre-tool-use hook"),
        other => panic!("unexpected {other:?}"),
    }
    assert_eq!(apply_pre_hook("ls", Some(PreHookAction::Modify), None, Some("ls -a")), PreHookVerdict::Proceed("ls -a"));
    assert_eq!(apply_pre_hook("ls", Some(PreHookAction::Modify), None, None), PreHookVerdict::Proceed("ls"));
    assert_eq!(apply_pre_hook("ls", Some(PreHookAction::Allow), None, Some("x")), PreHookVerdict::Proceed("ls"));
    assert_eq!(apply_pre_hook("ls", None, None, None), PreHookVerdict::Proceed("ls"));
}

#[test]
fn failed_bash_aborts_siblings_and_reports_failure() {
    let failed: Result<ToolOutput, Error> = Ok(ToolOutput::error("exit 1"));
    let ok: Result<ToolOutput, Error> = Ok(ToolOutput::success("done"));
    let err: Result<ToolOutput, Error> = Err(Error::Tool("boom".into()));
    assert!(aborts_siblings(true, &failed));
    assert!(aborts_siblings(true, &err));
    assert!(!aborts_siblings(true, &ok));
    assert!(!aborts_siblings(false, &failed));
    assert_eq!(post_tool_exit_code(&ok), 0);
    assert_eq!(post_tool_exit_code(&failed), 1);
    assert_eq!(post_tool_exit_code(&err), 1);
    assert_eq!(post_tool_trigger(0), HookTrigger::PostToolUse);
    assert_eq!(post_tool_trigger(1), HookTrigger::PostToolUseFailure);
    assert_eq!(worktree_trigger(0, true, false), Some(HookTrigger::WorktreeCreate));
    assert_eq!(worktree_trigger(0, false, true), Some(HookTrigger::WorktreeRemove));
    assert_eq!(worktree_trigger(1, true, false), None);
    assert_eq!(worktree_trigger(0, false, false), None);
}

#[test]
fn cancelled_batch_interrupts_unanswered_calls_once() {
    let batch: Vec<String> = ["a", "b", "c", "b"].iter().map(|s| s.to_string()).collect();
    let answered = vec!["a".to_string()];
    let r = interrupted_results(&batch, &answered);
    let ids: Vec<&str> = r.iter().map(|(id, _)| id.as_str()).collect();
    assert_eq!(ids, vec!["b", "c"]);
    assert!(r.iter().all(|(_, o)| o.is_error && o.text == INTERRUPTED));
}

fn text(s: &str) -> ContentBlock {
    ContentBlock::Text(s.into())
}

fn tool(id: &str) -> ContentBlock {
    ContentBlock::ToolUse { id: id.into(), name: "bash".into() }
}

#[test]
fn rewrite_replaces_first_text_and_drops_later_text() {
    let mut blocks = vec![text("a"), tool("t1"), text("b"), ContentBlock::Image, text("c")];
    rewrite_assistant_text(&mut blocks, "new");
    assert_eq!(blocks, vec![text("new"), tool("t1"), ContentBlock::Image]);
}

#[test]
fn rewrite_keeps_position_of_first_text() {
    let mut blocks = vec![tool("t1"), text("a"), tool("t2")];
    rewrite_assistant_text(&mut blocks, "x");
    assert_eq!(blocks, vec![tool("t1"), text("x"), tool("t2")]);
}

#[test]
fn rewrite_prepends_text_when_there_is_none() {
    let mut blocks = vec![tool("t1")];
    rewrite_assistant_text(&mut blocks, "x");
    assert_eq!(blocks, vec![text("x"), tool("t1")]);
    let mut empty: Vec<ContentBlock> = vec![];
    rewrite_assistant_text(&mut empty, "only");
    assert_eq!(empty, vec![text("only")]);
}

#[test]
fn strip_images_counts_and_keeps_the_rest() {
    let mut messages = vec![
        vec![text("look"), ContentBlock::Image, ContentBlock::Image],
        vec![],
        vec![ContentBlock::Image, tool("t1"), ContentBlock::Other],
    ];
    let n = strip_images(&mut messages);
    assert_eq!(n, 3);
    assert_eq!(messages, vec![vec![text("look")], vec![], vec![tool("t1"), ContentBlock::Other]]);
    assert_eq!(strip_images(&mut messages), 0);
}

#[test]
fn stream_message_orders_reasoning_and_keeps_parsed_calls() {
    let thinking = vec![(3usize, "later".to_string()), (1usize, "first".to_string()), (2usize, String::new())];
    let finished = vec![
        ("t1".to_string(), "read".to_string(), None),
        ("t2".to_string(), "bash".to_string(), Some("EOF while parsing".to_string())),
    ];
    let unfinished = vec![("t3".to_string(), "grep".to_string(), true), ("t4".to_string(), "edit".to_string(), false)];
    let (blocks, malformed) = assemble_stream_message(&thinking, "hello", &finished, &unfinished);
    assert_eq!(
        blocks,
        vec![
            ContentBlock::Thinking("first".into()),
            ContentBlock::Thinking("later".into()),
            ContentBlock::Text("hello".into()),
            ContentBlock::ToolUse { id: "t1".into(), name: "read".into() },
            ContentBlock::ToolUse { id: "t2".into(), name: "bash".into() },
            ContentBlock::ToolUse { id: "t3".into(), name: "grep".into() },
        ]
    );
    assert_eq!(malformed, vec![("t2".to_string(), "EOF while parsing".to_string())]);
}

#[test]
fn stream_message_without_text_has_no_text_block() {
    let (blocks, malformed) = assemble_stream_message(&[], "", &[], &[]);
    assert!(blocks.is_empty());
    assert!(malformed.is_empty());
}
