//! Bookkeeping of one assistant turn's tool calls in the agent loop: how
//! plan-mode tools in the turn gate its batch, and how the results from
//! every source become exactly one result per tool call.
use vstd::prelude::*;
use crate::error::{Error, error_text};
use crate::hook::HookTrigger;
use crate::text::{concat_str, opt_string_view, str_eq, strings_contain, strings_view};

verus! {

// ── Plan mode ──────────────────────────────────────────────────────────

/// A tool call as far as plan mode is concerned.
#[derive(Debug, Clone, Copy, PartialEq, Eq, Structural)]
pub enum PlanTool {
    /// The tool that enters plan mode.
    Enter,
    /// The tool that leaves plan mode.
    Exit,
    /// Any other tool.
    Other,
}

/// Plan mode after the first `n` calls, from `entry`: the last enter or
/// exit among them decides, else the mode stays.
pub open spec fn mode_after(calls: Seq<PlanTool>, entry: bool, n: int) -> bool
    decreases n,
{
    if n <= 0 {
        entry
    } else {
        match calls[n - 1] {
            PlanTool::Enter => true,
            PlanTool::Exit => false,
            PlanTool::Other => mode_after(calls, entry, n - 1),
        }
    }
}

/// Applies the plan-mode tools of one assistant turn, in order, to
/// `plan_mode`, and returns whether the turn's batch of calls is gated:
/// when plan mode was on at the start of the turn or the turn enters it
/// anywhere, so a write in the same turn as an enter is gated. Plan mode
/// afterwards is set by the turn's last enter or exit, if any.
pub fn apply_plan_mode_transitions(calls: &[PlanTool], plan_mode: &mut bool) -> (gated: bool)
    ensures
        gated == (*old(plan_mode) || calls@.contains(PlanTool::Enter)),
        *final(plan_mode) == mode_after(calls@, *old(plan_mode), calls@.len() as int),
{
    let entry = *plan_mode;
    let mut running = entry;
    let mut gated = entry;
    let mut i: usize = 0;
    while i < calls.len()
        invariant
            i <= calls@.len(),
            running == mode_after(calls@, entry, i as int),
            gated == (entry || calls@.take(i as int).contains(PlanTool::Enter)),
        decreases calls@.len() - i,
    {
        proof {
            assert(calls@.take(i + 1) =~= calls@.take(i as int).push(calls@[i as int]));
        }
        match calls[i] {
            PlanTool::Enter => {
                running = true;
                gated = true;
            },
            PlanTool::Exit => {
                running = false;
            },
            PlanTool::Other => {},
        }
        proof {
            let t = calls@.take(i + 1);
            if calls@[i as int] == PlanTool::Enter {
                assert(t[i as int] == PlanTool::Enter);
            } else if t.contains(PlanTool::Enter) {
                let k = choose|k: int| 0 <= k < t.len() && t[k] == PlanTool::Enter;
                assert(calls@.take(i as int)[k] == PlanTool::Enter);
            }
            if calls@.take(i as int).contains(PlanTool::Enter) {
                let k = choose|k: int| 0 <= k < i && calls@.take(i as int)[k] == PlanTool::Enter;
                assert(t[k] == PlanTool::Enter);
            }
        }
        i += 1;
    }
    proof {
        assert(calls@.take(i as int) =~= calls@);
    }
    *plan_mode = running;
    gated
}

// ── Tool results ───────────────────────────────────────────────────────

/// The output of a tool: its text and whether it reports an error.
#[derive(Debug, Clone, PartialEq, Eq)]
pub struct ToolOutput {
    pub text: String,
    pub is_error: bool,
}

impl ToolOutput {
    /// A successful output.
    pub fn success(text: &str) -> (r: Self)
        ensures
            r.text@ == text@,
            !r.is_error,
    {
        ToolOutput { text: text.to_owned(), is_error: false }
    }

    /// An error output.
    pub fn error(text: &str) -> (r: Self)
        ensures
            r.text@ == text@,
            r.is_error,
    {
        ToolOutput { text: text.to_owned(), is_error: true }
    }
}

/// The result of one tool call, as sent back to the model.
#[derive(Debug, Clone, PartialEq, Eq)]
pub struct ToolResultBlock {
    pub tool_use_id: String,
    pub content: String,
    pub is_error: bool,
}

/// A result as plain values: call id, text, error flag.
pub open spec fn block_view(b: ToolResultBlock) -> (Seq<char>, Seq<char>, bool) {
    (b.tool_use_id@, b.content@, b.is_error)
}

/// The views of a list of results.
pub open spec fn blocks_view(v: Seq<ToolResultBlock>) -> Seq<(Seq<char>, Seq<char>, bool)> {
    v.map_values(|b: ToolResultBlock| block_view(b))
}

/// The text of the result made up for a call that no source answered.
pub open spec fn backfill_text() -> Seq<char> {
    "tool produced no result (internal error)"@
}

/// The position of the last entry for call `id` among the first `n`
/// entries, or -1.
pub open spec fn last_entry(entries: Seq<(Seq<char>, Seq<char>, bool)>, id: Seq<char>, n: int) -> int
    decreases n,
{
    if n <= 0 {
        -1
    } else if entries[n - 1].0 == id {
        n - 1
    } else {
        last_entry(entries, id, n - 1)
    }
}

/// The result for the `i`-th call `ids[i]`: the last entry for its id,
/// unless an earlier call had the same id (its entry is then taken), else
/// a made-up error.
pub open spec fn result_for(ids: Seq<Seq<char>>, entries: Seq<(Seq<char>, Seq<char>, bool)>, i: int) -> (
    Seq<char>,
    Seq<char>,
    bool,
) {
    let k = last_entry(entries, ids[i], entries.len() as int);
    if k >= 0 && !ids.take(i).contains(ids[i]) {
        entries[k]
    } else {
        (ids[i], backfill_text(), true)
    }
}

/// One result per call, in call order.
pub open spec fn merged_results(ids: Seq<Seq<char>>, entries: Seq<(Seq<char>, Seq<char>, bool)>) -> Seq<
    (Seq<char>, Seq<char>, bool),
> {
    Seq::new(ids.len(), |i: int| result_for(ids, entries, i))
}

/// The views of a list of ids.
pub open spec fn ids_view(v: Seq<String>) -> Seq<Seq<char>> {
    v.map_values(|s: String| s@)
}

/// Whether `ids[..i]` holds `ids[i]`.
fn seen_before(ids: &[String], i: usize) -> (r: bool)
    requires
        i < ids@.len(),
    ensures
        r == ids_view(ids@).take(i as int).contains(ids_view(ids@)[i as int]),
{
    let ghost v = ids_view(ids@);
    let mut j: usize = 0;
    while j < i
        invariant
            j <= i,
            i < ids@.len(),
            v == ids_view(ids@),
            forall|k: int| 0 <= k < j ==> v[k] != v[i as int],
        decreases i - j,
    {
        if str_eq(ids[j].as_str(), ids[i].as_str()) {
            proof {
                assert(v.take(i as int)[j as int] == v[i as int]);
            }
            return true;
        }
        j += 1;
    }
    proof {
        if v.take(i as int).contains(v[i as int]) {
            let k = choose|k: int| 0 <= k < i && v.take(i as int)[k] == v[i as int];
            assert(v[k] != v[i as int]);
        }
    }
    false
}

/// The position of the last entry for `id`, if any.
fn find_last(entries: &[ToolResultBlock], id: &str) -> (r: Option<usize>)
    ensures
        match r {
            Some(k) => k < entries@.len() && k == last_entry(
                blocks_view(entries@),
                id@,
                entries@.len() as int,
            ),
            None => last_entry(blocks_view(entries@), id@, entries@.len() as int) == -1,
        },
{
    let ghost ev = blocks_view(entries@);
    let mut n: usize = entries.len();
    while n > 0
        invariant
            n <= entries@.len(),
            ev == blocks_view(entries@),
            last_entry(ev, id@, entries@.len() as int) == last_entry(ev, id@, n as int),
        decreases n,
    {
        if str_eq(entries[n - 1].tool_use_id.as_str(), id) {
            return Some(n - 1);
        }
        n -= 1;
    }
    None
}

/// One result per call `tool_use_ids`, in call order, from `entries`
/// listed from lowest to highest precedence: the last entry for a call's
/// id is its result; a call no entry answers (or whose id an earlier call
/// already took) gets a made-up error, so no call is left without a result.
pub fn merge_tool_results(tool_use_ids: &[String], entries: &[ToolResultBlock]) -> (r: Vec<ToolResultBlock>)
    ensures
        blocks_view(r@) == merged_results(ids_view(tool_use_ids@), blocks_view(entries@)),
{
    let ghost ids = ids_view(tool_use_ids@);
    let ghost ev = blocks_view(entries@);
    let mut out: Vec<ToolResultBlock> = Vec::new();
    let mut i: usize = 0;
    while i < tool_use_ids.len()
        invariant
            i <= tool_use_ids@.len(),
            ids == ids_view(tool_use_ids@),
            ev == blocks_view(entries@),
            blocks_view(out@) == merged_results(ids, ev).take(i as int),
        decreases tool_use_ids@.len() - i,
    {
        let id = tool_use_ids[i].as_str();
        let block = if seen_before(tool_use_ids, i) {
            ToolResultBlock {
                tool_use_id: id.to_owned(),
                content: "tool produced no result (internal error)".to_owned(),
                is_error: true,
            }
        } else {
            match find_last(entries, id) {
                Some(k) => ToolResultBlock {
                    tool_use_id: entries[k].tool_use_id.clone(),
                    content: entries[k].content.clone(),
                    is_error: entries[k].is_error,
                },
                None => ToolResultBlock {
                    tool_use_id: id.to_owned(),
                    content: "tool produced no result (internal error)".to_owned(),
                    is_error: true,
                },
            }
        };
        proof {
            assert(block_view(block) == result_for(ids, ev, i as int));
        }
        let ghost before = out@;
        out.push(block);
        proof {
            assert(blocks_view(out@) =~= blocks_view(before).push(block_view(block)));
            assert(merged_results(ids, ev).take(i + 1) =~= merged_results(ids, ev).take(i as int).push(
                result_for(ids, ev, i as int),
            ));
        }
        i += 1;
    }
    proof {
        assert(merged_results(ids, ev).take(i as int) =~= merged_results(ids, ev));
    }
    out
}

/// What the text of a result for an error says: the error's text (for an
/// I/O error, whose own text is not known exactly, a text starting with
/// what is known of it).
pub open spec fn error_result_text(e: Error, t: Seq<char>) -> bool {
    if e is Io {
        error_text(e).is_prefix_of(t)
    } else {
        t == error_text(e)
    }
}

/// Whether `entries` are the results of the three sources, in this order:
/// outputs of tools run while the response streamed, outcomes of the tools
/// run after it (an error becoming an error result with its text), and
/// calls whose input could not be parsed (error results with the parse
/// message).
pub open spec fn entries_of(
    inline: Seq<(String, ToolOutput)>,
    batch: Seq<(String, Result<ToolOutput, Error>)>,
    malformed: Seq<(String, String)>,
    entries: Seq<(Seq<char>, Seq<char>, bool)>,
) -> bool {
    &&& entries.len() == inline.len() + batch.len() + malformed.len()
    &&& forall|i: int|
        0 <= i < inline.len() ==> #[trigger] entries[i] == (inline[i].0@, inline[i].1.text@, inline[i].1.is_error)
    &&& forall|i: int|
        0 <= i < batch.len() ==> {
            let e = #[trigger] entries[inline.len() + i];
            &&& e.0 == batch[i].0@
            &&& match batch[i].1 {
                Ok(o) => e.1 == o.text@ && e.2 == o.is_error,
                Err(err) => error_result_text(err, e.1) && e.2,
            }
        }
    &&& forall|i: int|
        0 <= i < malformed.len() ==> #[trigger] entries[inline.len() + batch.len() + i] == (
            malformed[i].0@,
            malformed[i].1@,
            true,
        )
}

/// The tool results of an assistant turn whose calls are `tool_use_ids`,
/// merged from every source: outputs of tools run while the response
/// streamed, then outcomes of tools run after it, then calls whose input
/// could not be parsed, a later source taking precedence. Every call gets
/// exactly one result, in call order; one that no source answered gets a
/// made-up error.
pub fn build_tool_result_message(
    tool_use_ids: &[String],
    inline_results: Vec<(String, ToolOutput)>,
    batch_results: Vec<(String, Result<ToolOutput, Error>)>,
    malformed_inputs: Vec<(String, String)>,
) -> (r: Vec<ToolResultBlock>)
    ensures
        exists|entries: Seq<(Seq<char>, Seq<char>, bool)>|
            entries_of(inline_results@, batch_results@, malformed_inputs@, entries) && #[trigger] blocks_view(r@)
                == merged_results(ids_view(tool_use_ids@), entries),
{
    let mut entries: Vec<ToolResultBlock> = Vec::new();
    let mut i: usize = 0;
    while i < inline_results.len()
        invariant
            i <= inline_results@.len(),
            entries@.len() == i,
            forall|k: int|
                0 <= k < i ==> #[trigger] block_view(entries@[k]) == (
                    inline_results@[k].0@,
                    inline_results@[k].1.text@,
                    inline_results@[k].1.is_error,
                ),
        decreases inline_results@.len() - i,
    {
        let (id, o) = (&inline_results[i].0, &inline_results[i].1);
        entries.push(ToolResultBlock { tool_use_id: id.clone(), content: o.text.clone(), is_error: o.is_error });
        i += 1;
    }
    let mut j: usize = 0;
    while j < batch_results.len()
        invariant
            j <= batch_results@.len(),
            i == inline_results@.len(),
            entries@.len() == i + j,
            forall|k: int|
                0 <= k < i ==> #[trigger] block_view(entries@[k]) == (
                    inline_results@[k].0@,
                    inline_results@[k].1.text@,
                    inline_results@[k].1.is_error,
                ),
            forall|k: int|
                0 <= k < j ==> {
                    let e = #[trigger] block_view(entries@[i + k]);
                    &&& e.0 == batch_results@[k].0@
                    &&& match batch_results@[k].1 {
                        Ok(o) => e.1 == o.text@ && e.2 == o.is_error,
                        Err(err) => error_result_text(err, e.1) && e.2,
                    }
                },
        decreases batch_results@.len() - j,
    {
        let id = &batch_results[j].0;
        let block = match &batch_results[j].1 {
            Ok(o) => ToolResultBlock { tool_use_id: id.clone(), content: o.text.clone(), is_error: o.is_error },
            Err(e) => ToolResultBlock { tool_use_id: id.clone(), content: e.to_string(), is_error: true },
        };
        let ghost before = entries@;
        entries.push(block);
        proof {
            assert(entries@[i + j] == block);
            assert forall|k: int| 0 <= k < i implies #[trigger] block_view(entries@[k]) == (
                inline_results@[k].0@,
                inline_results@[k].1.text@,
                inline_results@[k].1.is_error,
            ) by {
                assert(entries@[k] == before[k]);
            }
            assert forall|k: int| 0 <= k < j + 1 implies {
                let e = #[trigger] block_view(entries@[i + k]);
                &&& e.0 == batch_results@[k].0@
                &&& match batch_results@[k].1 {
                    Ok(o) => e.1 == o.text@ && e.2 == o.is_error,
                    Err(err) => error_result_text(err, e.1) && e.2,
                }
            } by {
                if k < j {
                    assert(entries@[i + k] == before[i + k]);
                }
            }
        }
        j += 1;
    }
    let mut m: usize = 0;
    while m < malformed_inputs.len()
        invariant
            m <= malformed_inputs@.len(),
            i == inline_results@.len(),
            j == batch_results@.len(),
            entries@.len() == i + j + m,
            forall|k: int|
                0 <= k < i ==> #[trigger] block_view(entries@[k]) == (
                    inline_results@[k].0@,
                    inline_results@[k].1.text@,
                    inline_results@[k].1.is_error,
                ),
            forall|k: int|
                0 <= k < j ==> {
                    let e = #[trigger] block_view(entries@[i + k]);
                    &&& e.0 == batch_results@[k].0@
                    &&& match batch_results@[k].1 {
                        Ok(o) => e.1 == o.text@ && e.2 == o.is_error,
                        Err(err) => error_result_text(err, e.1) && e.2,
                    }
                },
            forall|k: int|
                0 <= k < m ==> #[trigger] block_view(entries@[i + j + k]) == (
                    malformed_inputs@[k].0@,
                    malformed_inputs@[k].1@,
                    true,
                ),
        decreases malformed_inputs@.len() - m,
    {
        let ghost before = entries@;
        entries.push(
            ToolResultBlock {
                tool_use_id: malformed_inputs[m].0.clone(),
                content: malformed_inputs[m].1.clone(),
                is_error: true,
            },
        );
        proof {
            assert forall|k: int| 0 <= k < i implies #[trigger] block_view(entries@[k]) == (
                inline_results@[k].0@,
                inline_results@[k].1.text@,
                inline_results@[k].1.is_error,
            ) by {
                assert(entries@[k] == before[k]);
            }
            assert forall|k: int| 0 <= k < j implies {
                let e = #[trigger] block_view(entries@[i + k]);
                &&& e.0 == batch_results@[k].0@
                &&& match batch_results@[k].1 {
                    Ok(o) => e.1 == o.text@ && e.2 == o.is_error,
                    Err(err) => error_result_text(err, e.1) && e.2,
                }
            } by {
                assert(entries@[i + k] == before[i + k]);
            }
            assert forall|k: int| 0 <= k < m + 1 implies #[trigger] block_view(entries@[i + j + k]) == (
                malformed_inputs@[k].0@,
                malformed_inputs@[k].1@,
                true,
            ) by {
                if k < m {
                    assert(entries@[i + j + k] == before[i + j + k]);
                }
            }
        }
        m += 1;
    }
    let r = merge_tool_results(tool_use_ids, entries.as_slice());
    proof {
        let ev = blocks_view(entries@);
        assert forall|k: int| 0 <= k < inline_results@.len() implies #[trigger] ev[k] == (
            inline_results@[k].0@,
            inline_results@[k].1.text@,
            inline_results@[k].1.is_error,
        ) by {
            assert(ev[k] == block_view(entries@[k]));
        }
        assert forall|k: int| 0 <= k < batch_results@.len() implies {
            let e = #[trigger] ev[inline_results@.len() + k];
            &&& e.0 == batch_results@[k].0@
            &&& match batch_results@[k].1 {
                Ok(o) => e.1 == o.text@ && e.2 == o.is_error,
                Err(err) => error_result_text(err, e.1) && e.2,
            }
        } by {
            assert(ev[i + k] == block_view(entries@[i + k]));
        }
        assert forall|k: int| 0 <= k < malformed_inputs@.len() implies #[trigger] ev[inline_results@.len()
            + batch_results@.len() + k] == (malformed_inputs@[k].0@, malformed_inputs@[k].1@, true) by {
            assert(ev[i + j + k] == block_view(entries@[i + j + k]));
        }
        assert(entries_of(inline_results@, batch_results@, malformed_inputs@, ev));
    }
    r
}

/// Whether `b` is the result block for outcome `outcome` of call `id`: the
/// output's text and error flag, or an error result with the error's text.
pub open spec fn outcome_block(id: String, outcome: Result<ToolOutput, Error>, b: ToolResultBlock) -> bool {
    &&& b.tool_use_id@ == id@
    &&& match outcome {
        Ok(o) => b.content@ == o.text@ && b.is_error == o.is_error,
        Err(e) => error_result_text(e, b.content@) && b.is_error,
    }
}

/// The result blocks of a list of tool outcomes, one per outcome, in
/// order.
pub fn tool_results_message(results: Vec<(String, Result<ToolOutput, Error>)>) -> (r: Vec<ToolResultBlock>)
    ensures
        r@.len() == results@.len(),
        forall|i: int| 0 <= i < r@.len() ==> outcome_block(results@[i].0, results@[i].1, #[trigger] r@[i]),
{
    let mut out: Vec<ToolResultBlock> = Vec::new();
    let mut i: usize = 0;
    while i < results.len()
        invariant
            i <= results@.len(),
            out@.len() == i,
            forall|k: int| 0 <= k < i ==> outcome_block(results@[k].0, results@[k].1, #[trigger] out@[k]),
        decreases results@.len() - i,
    {
        let id = &results[i].0;
        let block = match &results[i].1 {
            Ok(o) => ToolResultBlock { tool_use_id: id.clone(), content: o.text.clone(), is_error: o.is_error },
            Err(e) => ToolResultBlock { tool_use_id: id.clone(), content: e.to_string(), is_error: true },
        };
        out.push(block);
        i += 1;
    }
    out
}

// ── Laws ───────────────────────────────────────────────────────────────

/// Every tool call of a turn gets exactly one result, in call order, for
/// its own id: no call is left without a result, and no result without a
/// call.
pub proof fn law_one_result_per_call(ids: Seq<Seq<char>>, entries: Seq<(Seq<char>, Seq<char>, bool)>)
    ensures
        merged_results(ids, entries).len() == ids.len(),
        forall|i: int| 0 <= i < ids.len() ==> (#[trigger] merged_results(ids, entries)[i]).0 == ids[i],
{
    assert forall|i: int| 0 <= i < ids.len() implies (#[trigger] merged_results(ids, entries)[i]).0 == ids[i] by {
        lemma_last_entry(entries, ids[i], entries.len() as int);
    }
}

/// `last_entry` finds an entry for the id, or none.
proof fn lemma_last_entry(entries: Seq<(Seq<char>, Seq<char>, bool)>, id: Seq<char>, n: int)
    requires
        0 <= n <= entries.len(),
    ensures
        -1 <= last_entry(entries, id, n) < n,
        last_entry(entries, id, n) >= 0 ==> entries[last_entry(entries, id, n)].0 == id,
    decreases n,
{
    if n > 0 {
        lemma_last_entry(entries, id, n - 1);
    }
}

/// A turn's batch is gated exactly when plan mode was on at its start or
/// the turn enters it, and a turn without plan-mode tools leaves plan mode
/// as it was.
pub proof fn law_plan_mode_without_plan_tools(calls: Seq<PlanTool>, entry: bool)
    requires
        !calls.contains(PlanTool::Enter),
        !calls.contains(PlanTool::Exit),
    ensures
        mode_after(calls, entry, calls.len() as int) == entry,
{
    lemma_mode_after_others(calls, entry, calls.len() as int);
}

proof fn lemma_mode_after_others(calls: Seq<PlanTool>, entry: bool, n: int)
    requires
        n <= calls.len(),
        !calls.contains(PlanTool::Enter),
        !calls.contains(PlanTool::Exit),
    ensures
        mode_after(calls, entry, n) == entry,
    decreases n,
{
    if n > 0 {
        assert(calls[n - 1] != PlanTool::Enter);
        assert(calls[n - 1] != PlanTool::Exit);
        lemma_mode_after_others(calls, entry, n - 1);
    }
}


// ── Scheduling ─────────────────────────────────────────────────────────

/// A block of an assistant message, as far as scheduling is concerned.
#[derive(Debug, Clone, PartialEq, Eq)]
pub enum ContentBlock {
    /// Text from the model.
    Text(String),
    /// A call of the tool `name`, identified by `id`.
    ToolUse { id: String, name: String },
    /// An image.
    Image,
    /// The model's visible reasoning.
    Thinking(String),
    /// Any other block (results).
    Other,
}

/// A tool call picked out of a message.
#[derive(Debug, Clone, PartialEq, Eq)]
pub struct ToolCallRef {
    pub id: String,
    pub name: String,
}

/// The tool calls among the first `n` blocks whose concurrency safety is
/// `concurrent`, in message order, as (id, name).
pub open spec fn scheduled(blocks: Seq<ContentBlock>, safe: Seq<bool>, concurrent: bool, n: int) -> Seq<
    (Seq<char>, Seq<char>),
>
    decreases n,
{
    if n <= 0 {
        Seq::empty()
    } else {
        let p = scheduled(blocks, safe, concurrent, n - 1);
        match blocks[n - 1] {
            ContentBlock::ToolUse { id, name } => if safe[n - 1] == concurrent {
                p.push((id@, name@))
            } else {
                p
            },
            _ => p,
        }
    }
}

/// The views of a list of tool calls.
pub open spec fn calls_view(v: Seq<ToolCallRef>) -> Seq<(Seq<char>, Seq<char>)> {
    v.map_values(|c: ToolCallRef| (c.id@, c.name@))
}

/// Splits the tool calls of a message by scheduling only: those whose tool
/// is concurrency-safe for its input run together, the rest one after
/// another. Every call of either group still meets the same checks.
///
/// `concurrency_safe[i]` is what the tool registry says of block `i`: false
/// for a tool it does not know. Other blocks are skipped.
pub fn partition_tool_calls(blocks: &[ContentBlock], concurrency_safe: &[bool]) -> (r: (
    Vec<ToolCallRef>,
    Vec<ToolCallRef>,
))
    requires
        concurrency_safe.len() == blocks.len(),
    ensures
        calls_view(r.0@) == scheduled(blocks@, concurrency_safe@, true, blocks@.len() as int),
        calls_view(r.1@) == scheduled(blocks@, concurrency_safe@, false, blocks@.len() as int),
{
    let mut concurrent: Vec<ToolCallRef> = Vec::new();
    let mut sequential: Vec<ToolCallRef> = Vec::new();
    let mut i: usize = 0;
    assert(calls_view(concurrent@) =~= Seq::<(Seq<char>, Seq<char>)>::empty());
    assert(calls_view(sequential@) =~= Seq::<(Seq<char>, Seq<char>)>::empty());
    while i < blocks.len()
        invariant
            i <= blocks.len(),
            concurrency_safe.len() == blocks.len(),
            calls_view(concurrent@) == scheduled(blocks@, concurrency_safe@, true, i as int),
            calls_view(sequential@) == scheduled(blocks@, concurrency_safe@, false, i as int),
        decreases blocks.len() - i,
    {
        match &blocks[i] {
            ContentBlock::ToolUse { id, name } => {
                let call = ToolCallRef { id: id.clone(), name: name.clone() };
                if concurrency_safe[i] {
                    let ghost before = concurrent@;
                    concurrent.push(call);
                    assert(calls_view(concurrent@) =~= calls_view(before).push((id@, name@)));
                } else {
                    let ghost before = sequential@;
                    sequential.push(call);
                    assert(calls_view(sequential@) =~= calls_view(before).push((id@, name@)));
                }
            },
            _ => {},
        }
        i += 1;
    }
    (concurrent, sequential)
}

/// The number of tool calls among the first `n` blocks.
pub open spec fn tool_use_count(blocks: Seq<ContentBlock>, n: int) -> nat
    decreases n,
{
    if n <= 0 {
        0
    } else {
        tool_use_count(blocks, n - 1) + if blocks[n - 1] is ToolUse {
            1nat
        } else {
            0nat
        }
    }
}

/// Partitioning schedules every tool call of a message exactly once: the
/// two groups together hold as many calls as the message.
pub proof fn law_partition_keeps_every_call(blocks: Seq<ContentBlock>, safe: Seq<bool>, n: int)
    requires
        0 <= n <= blocks.len(),
        safe.len() == blocks.len(),
    ensures
        scheduled(blocks, safe, true, n).len() + scheduled(blocks, safe, false, n).len()
            == tool_use_count(blocks, n),
    decreases n,
{
    if n > 0 {
        law_partition_keeps_every_call(blocks, safe, n - 1);
    }
}


// ── Plan mode, hooks and sibling calls ─────────────────────────────────────────────────────────────────────

/// The result of a mutating call in plan mode.
pub const PLAN_MODE_BLOCKED: &'static str = "Cannot execute write operations in plan mode. Use ExitPlanMode to get approval before making changes.";

/// The result of a sequential call left unrun after the batch was
/// cancelled.
pub const INTERRUPTED: &'static str = "[Request interrupted by user for tool use]";

/// The result a call gets from the plan-mode gate without running: in plan
/// mode, every tool that can mutate is blocked, except the one that leaves
/// plan mode. Read-only tools pass (they still meet hooks and permissions).
pub fn plan_mode_block(plan_mode: bool, is_read_only: bool, is_exit_plan_mode: bool) -> (r: Option<ToolOutput>)
    ensures
        r is Some <==> (plan_mode && !is_read_only && !is_exit_plan_mode),
        r matches Some(o) ==> o.is_error && o.text@ == PLAN_MODE_BLOCKED@,
{
    if plan_mode && !is_read_only && !is_exit_plan_mode {
        Some(ToolOutput::error(PLAN_MODE_BLOCKED))
    } else {
        None
    }
}

/// What a `PreToolUse` hook decided.
#[derive(Debug, Clone, Copy, PartialEq, Eq, Structural)]
pub enum PreHookAction {
    /// Let the call run as it is.
    Allow,
    /// Refuse the call.
    Deny,
    /// Let the call run, with the input the hook gives when it gives one.
    Modify,
}

/// A call after its `PreToolUse` hook.
#[derive(Debug, Clone, PartialEq, Eq)]
pub enum PreHookVerdict<I> {
    /// The call runs with this input.
    Proceed(I),
    /// The call is refused with this result.
    Blocked(ToolOutput),
}

/// The text of a call refused by a hook: `<hook-blocked> ` and the hook's
/// message, or a generic one.
pub open spec fn hook_blocked_text(message: Option<Seq<char>>) -> Seq<char> {
    "<hook-blocked> "@ + match message {
        Some(m) => m,
        None => "blocked by pre-tool-use hook"@,
    }
}

/// Applies a `PreToolUse` hook's decision to a call with `input`. `action`
/// is `None` when no hook ran or the hook failed: the call then proceeds
/// unchanged.
pub fn apply_pre_hook<I>(
    input: I,
    action: Option<PreHookAction>,
    message: Option<&str>,
    modified_input: Option<I>,
) -> (r: PreHookVerdict<I>)
    ensures
        action == Some(PreHookAction::Deny) ==> (r matches PreHookVerdict::Blocked(o) && o.is_error
            && o.text@ == hook_blocked_text(
            match message {
                Some(m) => Some(m@),
                None => None,
            },
        )),
        action == Some(PreHookAction::Modify) ==> r == PreHookVerdict::Proceed(
            match modified_input {
                Some(m) => m,
                None => input,
            },
        ),
        action != Some(PreHookAction::Deny) && action != Some(PreHookAction::Modify)
            ==> r == PreHookVerdict::Proceed(input),
{
    match action {
        Some(PreHookAction::Deny) => {
            let text = match message {
                Some(m) => concat_str("<hook-blocked> ", m),
                None => concat_str("<hook-blocked> ", "blocked by pre-tool-use hook"),
            };
            PreHookVerdict::Blocked(ToolOutput { text, is_error: true })
        },
        Some(PreHookAction::Modify) => match modified_input {
            Some(m) => PreHookVerdict::Proceed(m),
            None => PreHookVerdict::Proceed(input),
        },
        _ => PreHookVerdict::Proceed(input),
    }
}

/// Whether a call's result is a failure: an error, or an output that
/// reports one.
pub open spec fn failed(result: Result<ToolOutput, Error>) -> bool {
    match result {
        Ok(o) => o.is_error,
        Err(_) => true,
    }
}

/// Whether a finished call cancels the rest of its sequential batch: a
/// failed `Bash` call, which often invalidates what the model queued after
/// it.
pub fn aborts_siblings(is_bash: bool, result: &Result<ToolOutput, Error>) -> (r: bool)
    ensures
        r == (is_bash && failed(*result)),
{
    is_bash && match result {
        Ok(o) => o.is_error,
        Err(_) => true,
    }
}

/// The exit code reported to the post-tool hooks: 0 for a success, else 1.
pub fn post_tool_exit_code(result: &Result<ToolOutput, Error>) -> (r: i32)
    ensures
        r == (if failed(*result) { 1i32 } else { 0i32 }),
{
    match result {
        Ok(o) => if o.is_error { 1 } else { 0 },
        Err(_) => 1,
    }
}

/// The hook event that observes a finished call.
pub fn post_tool_trigger(exit_code: i32) -> (r: HookTrigger)
    ensures
        r == (if exit_code == 0 { HookTrigger::PostToolUse } else { HookTrigger::PostToolUseFailure }),
{
    if exit_code == 0 {
        HookTrigger::PostToolUse
    } else {
        HookTrigger::PostToolUseFailure
    }
}

/// The worktree event that a successful worktree tool call also fires.
pub fn worktree_trigger(exit_code: i32, is_enter_worktree: bool, is_exit_worktree: bool) -> (r: Option<HookTrigger>)
    ensures
        r == (if exit_code != 0 {
            None
        } else if is_enter_worktree {
            Some(HookTrigger::WorktreeCreate)
        } else if is_exit_worktree {
            Some(HookTrigger::WorktreeRemove)
        } else {
            None
        }),
{
    if exit_code != 0 {
        None
    } else if is_enter_worktree {
        Some(HookTrigger::WorktreeCreate)
    } else if is_exit_worktree {
        Some(HookTrigger::WorktreeRemove)
    } else {
        None
    }
}

/// The ids that get an interrupted result once a sequential batch is
/// cancelled: each call of the batch, in order, that has no result yet and
/// was not already given one by an earlier call with the same id.
pub open spec fn interrupted_ids(batch: Seq<Seq<char>>, answered: Seq<Seq<char>>, n: int) -> Seq<Seq<char>>
    decreases n,
{
    if n <= 0 {
        Seq::empty()
    } else {
        let p = interrupted_ids(batch, answered, n - 1);
        if answered.contains(batch[n - 1]) || p.contains(batch[n - 1]) {
            p
        } else {
            p.push(batch[n - 1])
        }
    }
}

/// The results for the calls of a cancelled sequential batch that have
/// none yet (`answered` holds the ids that have one): an interrupted error
/// for each, in batch order, one per id.
pub fn interrupted_results(batch: &[String], answered: &[String]) -> (r: Vec<(String, ToolOutput)>)
    ensures
        r@.map_values(|p: (String, ToolOutput)| p.0@) == interrupted_ids(
            strings_view(batch@),
            strings_view(answered@),
            batch@.len() as int,
        ),
        forall|i: int| 0 <= i < r.len() ==> (#[trigger] r[i]).1.is_error && r[i].1.text@ == INTERRUPTED@,
{
    let ghost b = strings_view(batch@);
    let ghost a = strings_view(answered@);
    let mut r: Vec<(String, ToolOutput)> = Vec::new();
    let mut pushed: Vec<String> = Vec::new();
    let mut i: usize = 0;
    while i < batch.len()
        invariant
            i <= batch.len(),
            b == strings_view(batch@),
            a == strings_view(answered@),
            strings_view(pushed@) == interrupted_ids(b, a, i as int),
            r@.map_values(|p: (String, ToolOutput)| p.0@) == interrupted_ids(b, a, i as int),
            forall|k: int| 0 <= k < r.len() ==> (#[trigger] r[k]).1.is_error && r[k].1.text@ == INTERRUPTED@,
        decreases batch.len() - i,
    {
        let id = batch[i].as_str();
        assert(b[i as int] == id@);
        if !strings_contain(answered, id) && !strings_contain(pushed.as_slice(), id) {
            let ghost before_r = r@;
            let ghost before_p = pushed@;
            r.push((id.to_string(), ToolOutput::error(INTERRUPTED)));
            pushed.push(id.to_string());
            proof {
                assert(r@.map_values(|p: (String, ToolOutput)| p.0@) =~= before_r.map_values(
                    |p: (String, ToolOutput)| p.0@,
                ).push(id@));
                assert(strings_view(pushed@) =~= strings_view(before_p).push(id@));
            }
        }
        i += 1;
    }
    r
}


// ── Editing message content ────────────────────────────────────────────

/// Whether one of the blocks is text.
pub open spec fn has_text(s: Seq<ContentBlock>) -> bool {
    exists|i: int| 0 <= i < s.len() && (#[trigger] s[i]) is Text
}

/// The shape of the first `n` blocks of a message after its text is
/// rewritten: each block that is not text is kept (`Some`), the first text
/// block becomes the new text (`None`) and later text blocks go.
pub open spec fn rewrite_shape(s: Seq<ContentBlock>, n: int) -> Seq<Option<ContentBlock>>
    decreases n,
{
    if n <= 0 {
        Seq::empty()
    } else {
        let p = rewrite_shape(s, n - 1);
        if s[n - 1] is Text {
            if has_text(s.take(n - 1)) {
                p
            } else {
                p.push(None)
            }
        } else {
            p.push(Some(s[n - 1]))
        }
    }
}

/// The shape of an assistant message whose text is replaced: as
/// [`rewrite_shape`] gives it, with the new text first when the message had
/// no text.
pub open spec fn rewritten_shape(s: Seq<ContentBlock>) -> Seq<Option<ContentBlock>> {
    if has_text(s) {
        rewrite_shape(s, s.len() as int)
    } else {
        seq![None::<ContentBlock>] + rewrite_shape(s, s.len() as int)
    }
}

/// Whether `r` has the shape `shape`, with `new_text` for the new text.
pub open spec fn fits_shape(r: Seq<ContentBlock>, shape: Seq<Option<ContentBlock>>, new_text: Seq<char>) -> bool {
    &&& r.len() == shape.len()
    &&& forall|i: int|
        0 <= i < r.len() ==> match #[trigger] shape[i] {
            Some(b) => r[i] == b,
            None => r[i] matches ContentBlock::Text(t) && t@ == new_text,
        }
}

/// A copy of a block.
fn copy_block(b: &ContentBlock) -> (r: ContentBlock)
    ensures
        r == *b,
{
    match b {
        ContentBlock::Text(t) => ContentBlock::Text(t.clone()),
        ContentBlock::ToolUse { id, name } => ContentBlock::ToolUse { id: id.clone(), name: name.clone() },
        ContentBlock::Image => ContentBlock::Image,
        ContentBlock::Thinking(t) => ContentBlock::Thinking(t.clone()),
        ContentBlock::Other => ContentBlock::Other,
    }
}

/// Replaces the text of an assistant message with `new_text`, as a
/// `PostSampling` hook asks: the first text block gets it and later text
/// blocks go, tool calls and images stay in their order; a message without
/// text gets the new text as its first block.
pub fn rewrite_assistant_text(blocks: &mut Vec<ContentBlock>, new_text: &str)
    ensures
        fits_shape(final(blocks)@, rewritten_shape(old(blocks)@), new_text@),
{
    let ghost s = blocks@;
    let mut out: Vec<ContentBlock> = Vec::new();
    let mut wrote = false;
    let mut i: usize = 0;
    assert(s.take(0) =~= Seq::<ContentBlock>::empty());
    while i < blocks.len()
        invariant
            i <= blocks.len(),
            blocks@ == s,
            wrote == has_text(s.take(i as int)),
            fits_shape(out@, rewrite_shape(s, i as int), new_text@),
        decreases blocks.len() - i,
    {
        let ghost before = out@;
        proof {
            assert(s.take(i + 1).drop_last() =~= s.take(i as int));
            if has_text(s.take(i as int)) {
                let k = choose|k: int| 0 <= k < s.take(i as int).len() && (#[trigger] s.take(i as int)[k]) is Text;
                assert(s.take(i + 1)[k] is Text);
            }
            if s[i as int] is Text {
                assert(s.take(i + 1)[i as int] is Text);
            }
            if has_text(s.take(i + 1)) && !(s[i as int] is Text) {
                let k = choose|k: int| 0 <= k < s.take(i + 1).len() && (#[trigger] s.take(i + 1)[k]) is Text;
                assert(k < i);
                assert(s.take(i as int)[k] is Text);
            }
        }
        match &blocks[i] {
            ContentBlock::Text(_) => {
                if !wrote {
                    out.push(ContentBlock::Text(new_text.to_string()));
                    wrote = true;
                    proof {
                        let sh = rewrite_shape(s, i + 1);
                        assert(sh =~= rewrite_shape(s, i as int).push(None));
                        assert forall|k: int| 0 <= k < out@.len() implies match #[trigger] sh[k] {
                            Some(b) => out@[k] == b,
                            None => out@[k] matches ContentBlock::Text(t) && t@ == new_text@,
                        } by {
                            if k < before.len() {
                                assert(sh[k] == rewrite_shape(s, i as int)[k]);
                            }
                        }
                    }
                } else {
                    proof {
                        assert(rewrite_shape(s, i + 1) == rewrite_shape(s, i as int));
                    }
                }
            },
            _ => {
                let b = copy_block(&blocks[i]);
                out.push(b);
                proof {
                    let sh = rewrite_shape(s, i + 1);
                    assert(sh =~= rewrite_shape(s, i as int).push(Some(s[i as int])));
                    assert forall|k: int| 0 <= k < out@.len() implies match #[trigger] sh[k] {
                        Some(b) => out@[k] == b,
                        None => out@[k] matches ContentBlock::Text(t) && t@ == new_text@,
                    } by {
                        if k < before.len() {
                            assert(sh[k] == rewrite_shape(s, i as int)[k]);
                        }
                    }
                }
            },
        }
        i += 1;
    }
    proof {
        assert(s.take(s.len() as int) =~= s);
    }
    if !wrote {
        let ghost before = out@;
        out.insert(0, ContentBlock::Text(new_text.to_string()));
        proof {
            let sh = rewritten_shape(s);
            assert(sh =~= seq![None::<ContentBlock>] + rewrite_shape(s, s.len() as int));
            assert forall|k: int| 0 <= k < out@.len() implies match #[trigger] sh[k] {
                Some(b) => out@[k] == b,
                None => out@[k] matches ContentBlock::Text(t) && t@ == new_text@,
            } by {
                if k > 0 {
                    assert(out@[k] == before[k - 1]);
                    assert(sh[k] == rewrite_shape(s, s.len() as int)[k - 1]);
                }
            }
        }
    }
    *blocks = out;
}

/// The number of images among the first `n` blocks.
pub open spec fn image_count(s: Seq<ContentBlock>, n: int) -> nat
    decreases n,
{
    if n <= 0 {
        0
    } else {
        image_count(s, n - 1) + if s[n - 1] is Image {
            1nat
        } else {
            0nat
        }
    }
}

/// The images of every message, counted.
pub open spec fn images_in(messages: Seq<Vec<ContentBlock>>, n: int) -> nat
    decreases n,
{
    if n <= 0 {
        0
    } else {
        images_in(messages, n - 1) + image_count(messages[n - 1]@, messages[n - 1]@.len() as int)
    }
}

/// The blocks of a message without its images, in order.
fn without_images(blocks: &Vec<ContentBlock>) -> (r: (Vec<ContentBlock>, usize))
    ensures
        r.0@ == blocks@.filter(|b: ContentBlock| !(b is Image)),
        r.1 == image_count(blocks@, blocks@.len() as int),
{
    let ghost s = blocks@;
    let mut out: Vec<ContentBlock> = Vec::new();
    let mut n: usize = 0;
    let mut i: usize = 0;
    while i < blocks.len()
        invariant
            i <= blocks.len(),
            blocks@ == s,
            out@ == s.take(i as int).filter(|b: ContentBlock| !(b is Image)),
            n == image_count(s, i as int),
            n <= i,
        decreases blocks.len() - i,
    {
        proof {
            assert(s.take(i + 1).drop_last() =~= s.take(i as int));
            s.take(i as int).lemma_filter_push(s[i as int], |b: ContentBlock| !(b is Image));
            assert(s.take(i + 1) =~= s.take(i as int).push(s[i as int]));
        }
        match &blocks[i] {
            ContentBlock::Image => {
                n += 1;
            },
            _ => {
                out.push(copy_block(&blocks[i]));
            },
        }
        i += 1;
    }
    proof {
        assert(s.take(s.len() as int) =~= s);
    }
    (out, n)
}

/// Removes every image from the messages of a conversation, to free token
/// budget, and returns how many were removed; all other blocks stay in
/// their order.
pub fn strip_images(messages: &mut Vec<Vec<ContentBlock>>) -> (stripped: usize)
    requires
        images_in(old(messages)@, old(messages)@.len() as int) <= usize::MAX,
    ensures
        final(messages)@.len() == old(messages)@.len(),
        forall|i: int|
            0 <= i < old(messages)@.len() ==> (#[trigger] final(messages)@[i])@ == old(messages)@[i]@.filter(
                |b: ContentBlock| !(b is Image),
            ),
        stripped == images_in(old(messages)@, old(messages)@.len() as int),
{
    let ghost s = messages@;
    let mut out: Vec<Vec<ContentBlock>> = Vec::new();
    let mut stripped: usize = 0;
    let mut i: usize = 0;
    while i < messages.len()
        invariant
            i <= messages.len(),
            messages@ == s,
            images_in(s, s.len() as int) <= usize::MAX,
            out@.len() == i,
            forall|k: int| 0 <= k < i ==> (#[trigger] out@[k])@ == s[k]@.filter(|b: ContentBlock| !(b is Image)),
            stripped == images_in(s, i as int),
        decreases messages.len() - i,
    {
        let (kept, n) = without_images(&messages[i]);
        proof {
            lemma_images_in_monotone(s, i + 1, s.len() as int);
        }
        stripped = stripped + n;
        out.push(kept);
        i += 1;
    }
    *messages = out;
    stripped
}

/// Counting the images of more messages counts no fewer.
proof fn lemma_images_in_monotone(messages: Seq<Vec<ContentBlock>>, m: int, n: int)
    requires
        0 <= m <= n,
    ensures
        images_in(messages, m) <= images_in(messages, n),
    decreases n - m,
{
    if m < n {
        lemma_images_in_monotone(messages, m, n - 1);
    }
}


// ── Assembling a streamed message ──────────────────────────────────────

/// A reasoning block as plain values: its position in the stream and text.
pub type ThinkingModel = (usize, Seq<char>);

/// `x` placed in `s` before the first block with a larger position.
pub open spec fn insert_thinking(s: Seq<ThinkingModel>, x: ThinkingModel) -> Seq<ThinkingModel>
    decreases s.len(),
{
    if s.len() == 0 {
        seq![x]
    } else if x.0 < s[0].0 {
        seq![x] + s
    } else {
        seq![s[0]] + insert_thinking(s.drop_first(), x)
    }
}

/// The reasoning blocks among the first `n` that have text, ordered by
/// their position in the stream.
pub open spec fn thinking_order(s: Seq<ThinkingModel>, n: int) -> Seq<ThinkingModel>
    decreases n,
{
    if n <= 0 {
        Seq::empty()
    } else if s[n - 1].1.len() == 0 {
        thinking_order(s, n - 1)
    } else {
        insert_thinking(thinking_order(s, n - 1), s[n - 1])
    }
}

/// The views of reasoning blocks given as (position, text).
pub open spec fn thinking_view(v: Seq<(usize, String)>) -> Seq<ThinkingModel> {
    v.map_values(|t: (usize, String)| (t.0, t.1@))
}

/// A streamed tool call as plain values: id, name, and the error its input
/// gave when parsed (none when it parsed).
pub type StreamedCall = (Seq<char>, Seq<char>, Option<Seq<char>>);

/// The blocks of a streamed assistant message: its reasoning blocks with
/// text, by position; its text, when there is any; each finished tool call;
/// then each unfinished call whose input parses.
pub open spec fn assembled_blocks(
    thinking: Seq<ThinkingModel>,
    text: Seq<char>,
    finished: Seq<StreamedCall>,
    unfinished: Seq<(Seq<char>, Seq<char>, bool)>,
) -> Seq<Option<(int, Seq<char>, Seq<char>)>> {
    thinking_order(thinking, thinking.len() as int).map_values(|t: ThinkingModel| Some((0int, t.1, Seq::<char>::empty())))
        + if text.len() > 0 { seq![Some((1int, text, Seq::<char>::empty()))] } else { Seq::empty() }
        + finished.map_values(|c: StreamedCall| Some((2int, c.0, c.1)))
        + unfinished.filter(keeps_call()).map_values(call_block())
}

/// A block as plain values: kind (0 reasoning, 1 text, 2 tool call) with
/// its texts; `None` for any other block.
pub open spec fn assembled_view(b: ContentBlock) -> Option<(int, Seq<char>, Seq<char>)> {
    match b {
        ContentBlock::Thinking(t) => Some((0int, t@, Seq::<char>::empty())),
        ContentBlock::Text(t) => Some((1int, t@, Seq::<char>::empty())),
        ContentBlock::ToolUse { id, name } => Some((2int, id@, name@)),
        _ => None,
    }
}

/// The views of a list of blocks.
pub open spec fn assembled_views(v: Seq<ContentBlock>) -> Seq<Option<(int, Seq<char>, Seq<char>)>> {
    v.map_values(|b: ContentBlock| assembled_view(b))
}

/// The test for an unfinished call whose input parses.
pub open spec fn keeps_call() -> spec_fn((Seq<char>, Seq<char>, bool)) -> bool {
    |c: (Seq<char>, Seq<char>, bool)| c.2
}

/// The view of a kept unfinished call.
pub open spec fn call_block() -> spec_fn((Seq<char>, Seq<char>, bool)) -> Option<(int, Seq<char>, Seq<char>)> {
    |c: (Seq<char>, Seq<char>, bool)| Some((2int, c.0, c.1))
}

/// The finished calls whose input did not parse, with the error.
pub open spec fn malformed_of(finished: Seq<StreamedCall>, n: int) -> Seq<(Seq<char>, Seq<char>)>
    decreases n,
{
    if n <= 0 {
        Seq::empty()
    } else {
        let p = malformed_of(finished, n - 1);
        match finished[n - 1].2 {
            Some(e) => p.push((finished[n - 1].0, e)),
            None => p,
        }
    }
}

/// Inserting at the first larger position.
proof fn lemma_insert_thinking_at(s: Seq<ThinkingModel>, x: ThinkingModel, p: int)
    requires
        0 <= p <= s.len(),
        forall|k: int| 0 <= k < p ==> !(x.0 < #[trigger] s[k].0),
        p == s.len() || x.0 < s[p].0,
    ensures
        insert_thinking(s, x) == s.take(p) + seq![x] + s.skip(p),
    decreases p,
{
    if p == 0 {
        assert(s.take(0) + seq![x] + s.skip(0) =~= seq![x] + s);
        if s.len() == 0 {
            assert(seq![x] + s =~= seq![x]);
        }
    } else {
        let t = s.drop_first();
        assert forall|k: int| 0 <= k < p - 1 implies !(x.0 < #[trigger] t[k].0) by {
            assert(t[k] == s[k + 1]);
        }
        if p < s.len() {
            assert(t[p - 1] == s[p]);
        }
        lemma_insert_thinking_at(t, x, p - 1);
        assert(seq![s[0]] + (t.take(p - 1) + seq![x] + t.skip(p - 1)) =~= s.take(p) + seq![x] + s.skip(p));
    }
}

/// Builds the blocks of a streamed assistant message from what the stream
/// gave: the reasoning blocks as (position, text), in any order with each
/// position once; the text; the finished tool calls as (id, name, error of
/// their input's parse); and the unfinished ones as (id, name, whether
/// their input parses). A finished call whose input did not parse still
/// appears (with an empty input) and is also returned with its error, so
/// that it gets an error result instead of running; an unfinished call is
/// kept only when its input parses.
pub fn assemble_stream_message(
    thinking: &[(usize, String)],
    text: &str,
    finished: &[(String, String, Option<String>)],
    unfinished: &[(String, String, bool)],
) -> (r: (Vec<ContentBlock>, Vec<(String, String)>))
    ensures
        assembled_views(r.0@) == assembled_blocks(
            thinking_view(thinking@),
            text@,
            finished@.map_values(|c: (String, String, Option<String>)| (c.0@, c.1@, opt_string_view(c.2))),
            unfinished@.map_values(|c: (String, String, bool)| (c.0@, c.1@, c.2)),
        ),
        r.1@.map_values(|m: (String, String)| (m.0@, m.1@)) == malformed_of(
            finished@.map_values(|c: (String, String, Option<String>)| (c.0@, c.1@, opt_string_view(c.2))),
            finished@.len() as int,
        ),
{
    let ghost tv = thinking_view(thinking@);
    // reasoning blocks, by position
    let mut sorted: Vec<(usize, String)> = Vec::new();
    let mut i: usize = 0;
    while i < thinking.len()
        invariant
            i <= thinking.len(),
            tv == thinking_view(thinking@),
            thinking_view(sorted@) == thinking_order(tv, i as int),
        decreases thinking.len() - i,
    {
        let pos = thinking[i].0;
        if thinking[i].1.as_str().is_empty() {
            assert(tv[i as int].1.len() == 0);
        } else {
            let ghost s = thinking_view(sorted@);
            let mut p: usize = 0;
            while p < sorted.len()
                invariant
                    p <= sorted.len(),
                    s == thinking_view(sorted@),
                    forall|k: int| 0 <= k < p ==> !(pos < #[trigger] s[k].0),
                ensures
                    p <= sorted.len(),
                    forall|k: int| 0 <= k < p ==> !(pos < #[trigger] s[k].0),
                    p == sorted.len() || pos < s[p as int].0,
                decreases sorted.len() - p,
            {
                if pos < sorted[p].0 {
                    break;
                }
                p += 1;
            }
            proof {
                lemma_insert_thinking_at(s, tv[i as int], p as int);
            }
            sorted.insert(p, (pos, thinking[i].1.clone()));
            proof {
                assert(thinking_view(sorted@) =~= s.take(p as int) + seq![tv[i as int]] + s.skip(p as int));
            }
        }
        i += 1;
    }
    proof {
        assert(thinking@.len() == tv.len());
    }
    let mut blocks: Vec<ContentBlock> = Vec::new();
    let mut k: usize = 0;
    let ghost ordered = thinking_order(tv, tv.len() as int);
    while k < sorted.len()
        invariant
            k <= sorted.len(),
            thinking_view(sorted@) == ordered,
            assembled_views(blocks@) == ordered.take(k as int).map_values(
                |t: ThinkingModel| Some((0int, t.1, Seq::<char>::empty())),
            ),
        decreases sorted.len() - k,
    {
        let ghost before = blocks@;
        blocks.push(ContentBlock::Thinking(sorted[k].1.clone()));
        proof {
            assert(ordered[k as int] == (sorted@[k as int].0, sorted@[k as int].1@));
            assert(assembled_views(blocks@) =~= assembled_views(before).push(Some((0int, sorted@[k as int].1@, Seq::<char>::empty()))));
            assert(ordered.take(k + 1).map_values(|t: ThinkingModel| Some((0int, t.1, Seq::<char>::empty())))
                =~= ordered.take(k as int).map_values(|t: ThinkingModel| Some((0int, t.1, Seq::<char>::empty()))).push(
                Some((0int, ordered[k as int].1, Seq::<char>::empty())),
            ));
        }
        k += 1;
    }
    proof {
        assert(ordered.take(k as int) =~= ordered);
    }
    let ghost head = assembled_views(blocks@);
    if !text.is_empty() {
        blocks.push(ContentBlock::Text(text.to_string()));
    }
    let ghost with_text = head + if text@.len() > 0 { seq![Some((1int, text@, Seq::<char>::empty()))] } else { Seq::empty() };
    proof {
        assert(assembled_views(blocks@) =~= with_text);
    }
    let ghost fv = finished@.map_values(|c: (String, String, Option<String>)| (c.0@, c.1@, opt_string_view(c.2)));
    let mut malformed: Vec<(String, String)> = Vec::new();
    let mut j: usize = 0;
    while j < finished.len()
        invariant
            j <= finished.len(),
            fv == finished@.map_values(|c: (String, String, Option<String>)| (c.0@, c.1@, opt_string_view(c.2))),
            assembled_views(blocks@) == with_text + fv.take(j as int).map_values(|c: StreamedCall| Some((2int, c.0, c.1))),
            malformed@.map_values(|m: (String, String)| (m.0@, m.1@)) == malformed_of(fv, j as int),
        decreases finished.len() - j,
    {
        let ghost before = blocks@;
        let ghost mbefore = malformed@;
        blocks.push(ContentBlock::ToolUse { id: finished[j].0.clone(), name: finished[j].1.clone() });
        match &finished[j].2 {
            Some(e) => {
                malformed.push((finished[j].0.clone(), e.clone()));
                proof {
                    assert(malformed@.map_values(|m: (String, String)| (m.0@, m.1@)) =~= mbefore.map_values(
                        |m: (String, String)| (m.0@, m.1@),
                    ).push((fv[j as int].0, e@)));
                }
            },
            None => {},
        }
        proof {
            assert(assembled_views(blocks@) =~= assembled_views(before).push(Some((2int, fv[j as int].0, fv[j as int].1))));
            assert(fv.take(j + 1).map_values(|c: StreamedCall| Some((2int, c.0, c.1))) =~= fv.take(j as int).map_values(
                |c: StreamedCall| Some((2int, c.0, c.1)),
            ).push(Some((2int, fv[j as int].0, fv[j as int].1))));
        }
        j += 1;
    }
    proof {
        assert(fv.take(j as int) =~= fv);
    }
    let ghost with_finished = assembled_views(blocks@);
    let ghost uv = unfinished@.map_values(|c: (String, String, bool)| (c.0@, c.1@, c.2));
    let mut u: usize = 0;
    while u < unfinished.len()
        invariant
            u <= unfinished.len(),
            uv == unfinished@.map_values(|c: (String, String, bool)| (c.0@, c.1@, c.2)),
            assembled_views(blocks@) == with_finished + uv.take(u as int).filter(keeps_call()).map_values(call_block()),
        decreases unfinished.len() - u,
    {
        proof {
            assert(uv.take(u + 1) =~= uv.take(u as int).push(uv[u as int]));
            uv.take(u as int).lemma_filter_push(uv[u as int], keeps_call());
        }
        if unfinished[u].2 {
            let ghost before = blocks@;
            blocks.push(ContentBlock::ToolUse { id: unfinished[u].0.clone(), name: unfinished[u].1.clone() });
            proof {
                assert(assembled_views(blocks@) =~= assembled_views(before).push(call_block()(uv[u as int])));
                assert(uv.take(u as int).filter(keeps_call()).push(uv[u as int]).map_values(call_block()) =~= uv.take(u as int).filter(
                    keeps_call(),
                ).map_values(call_block()).push(call_block()(uv[u as int])));
            }
        }
        u += 1;
    }
    proof {
        assert(uv.take(u as int) =~= uv);
    }
    (blocks, malformed)
}


/// Inserting by position keeps a list ordered by position, and brings in
/// only `x`.
proof fn lemma_insert_thinking_sorted(s: Seq<ThinkingModel>, x: ThinkingModel)
    requires
        forall|i: int, j: int| 0 <= i < j < s.len() ==> (#[trigger] s[i]).0 <= (#[trigger] s[j]).0,
    ensures
        forall|i: int, j: int|
            0 <= i < j < insert_thinking(s, x).len() ==> (#[trigger] insert_thinking(s, x)[i]).0
                <= (#[trigger] insert_thinking(s, x)[j]).0,
        forall|k: int|
            0 <= k < insert_thinking(s, x).len() ==> #[trigger] insert_thinking(s, x)[k] == x || s.contains(
                insert_thinking(s, x)[k],
            ),
        insert_thinking(s, x).len() == s.len() + 1,
    decreases s.len(),
{
    let r = insert_thinking(s, x);
    if s.len() == 0 {
    } else if x.0 < s[0].0 {
        assert forall|k: int| 0 <= k < r.len() implies #[trigger] r[k] == x || s.contains(r[k]) by {
            if k > 0 {
                assert(r[k] == s[k - 1]);
            }
        }
        assert forall|i: int, j: int| 0 <= i < j < r.len() implies (#[trigger] r[i]).0 <= (#[trigger] r[j]).0 by {
            if i > 0 {
                assert(r[i] == s[i - 1] && r[j] == s[j - 1]);
            } else {
                assert(r[j] == s[j - 1]);
                assert(s[0].0 <= s[j - 1].0 || j - 1 == 0);
            }
        }
    } else {
        let t = s.drop_first();
        lemma_insert_thinking_sorted(t, x);
        let rt = insert_thinking(t, x);
        assert forall|k: int| 0 <= k < r.len() implies #[trigger] r[k] == x || s.contains(r[k]) by {
            if k == 0 {
                assert(r[0] == s[0]);
            } else {
                assert(r[k] == rt[k - 1]);
                if rt[k - 1] != x {
                    let w = choose|w: int| 0 <= w < t.len() && t[w] == rt[k - 1];
                    assert(s[w + 1] == r[k]);
                }
            }
        }
        assert forall|i: int, j: int| 0 <= i < j < r.len() implies (#[trigger] r[i]).0 <= (#[trigger] r[j]).0 by {
            if i == 0 {
                assert(r[j] == rt[j - 1]);
                if rt[j - 1] != x {
                    let w = choose|w: int| 0 <= w < t.len() && t[w] == rt[j - 1];
                    assert(s[w + 1] == rt[j - 1]);
                }
            } else {
                assert(r[i] == rt[i - 1] && r[j] == rt[j - 1]);
            }
        }
    }
}

/// The reasoning blocks of a streamed message come in stream order: by
/// increasing position.
pub proof fn law_thinking_in_stream_order(s: Seq<ThinkingModel>, n: int)
    requires
        0 <= n <= s.len(),
    ensures
        forall|i: int, j: int|
            0 <= i < j < thinking_order(s, n).len() ==> (#[trigger] thinking_order(s, n)[i]).0
                <= (#[trigger] thinking_order(s, n)[j]).0,
    decreases n,
{
    if n > 0 {
        law_thinking_in_stream_order(s, n - 1);
        if s[n - 1].1.len() > 0 {
            lemma_insert_thinking_sorted(thinking_order(s, n - 1), s[n - 1]);
        }
    }
}

} // verus!
