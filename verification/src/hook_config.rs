//! Hook definitions from the `hooks` setting.
//!
//! The setting maps event names to matcher groups, each a matcher pattern
//! with the hooks that run when it matches:
//!
//! ```json
//! { "PreToolUse": [ { "matcher": "Edit|Write",
//!                     "hooks": [{ "type": "command", "command": "...", "timeout": 600 }] } ] }
//! ```
//!
//! Decoding the JSON into groups happens at the edge of the program; here
//! the groups are flattened into hooks.
use vstd::prelude::*;
use crate::hook::HookTrigger;
use crate::text::{copy_opt_string, opt_string_view, str_eq};

verus! {

/// Default per-hook timeout in seconds.
pub const DEFAULT_HOOK_TIMEOUT_SECS: u64 = 600;

/// A single hook definition, flattened from the configuration.
#[derive(Debug, Clone)]
pub struct Hook {
    /// When this hook fires.
    pub trigger: HookTrigger,
    /// Matcher pattern from the enclosing group. `None`, empty or `"*"`
    /// matches everything; otherwise exact name, `|`-separated names, or a
    /// regex. Only meaningful for tool events.
    pub matcher: Option<String>,
    /// Shell command to execute.
    pub command: String,
    /// Timeout in seconds.
    pub timeout_secs: u64,
}

/// The hook type that an entry which names none has.
pub fn default_hook_type() -> (r: String)
    ensures
        r@ == "command"@,
{
    "command".to_string()
}

/// One hook entry inside a matcher group.
#[derive(Debug, Clone)]
pub struct HookEntry {
    /// Hook execution type; only `command` is supported (`command` when the
    /// configuration leaves it out).
    pub hook_type: String,
    /// The command (empty when the configuration leaves it out).
    pub command: String,
    /// Timeout in seconds.
    pub timeout: Option<u64>,
}

/// One matcher group: a matcher pattern plus the hooks that run when it
/// matches.
#[derive(Debug, Clone)]
pub struct MatcherGroup {
    pub matcher: Option<String>,
    pub hooks: Vec<HookEntry>,
}

/// A hook as plain values: trigger, matcher, command, timeout.
pub open spec fn hook_view(h: Hook) -> (HookTrigger, Option<Seq<char>>, Seq<char>, u64) {
    (h.trigger, opt_string_view(h.matcher), h.command@, h.timeout_secs)
}

/// The views of a list of hooks.
pub open spec fn hooks_view(v: Seq<Hook>) -> Seq<(HookTrigger, Option<Seq<char>>, Seq<char>, u64)> {
    v.map_values(|h: Hook| hook_view(h))
}

/// Whether an entry becomes a hook: it is of type `command` and has a
/// command.
pub open spec fn usable(e: HookEntry) -> bool {
    e.hook_type@ == "command"@ && e.command@.len() > 0
}

/// The hook an entry gives in a group under a trigger.
pub open spec fn entry_hook(t: HookTrigger, matcher: Option<Seq<char>>, e: HookEntry) -> (
    HookTrigger,
    Option<Seq<char>>,
    Seq<char>,
    u64,
) {
    (
        t,
        matcher,
        e.command@,
        match e.timeout {
            Some(s) => s,
            None => DEFAULT_HOOK_TIMEOUT_SECS,
        },
    )
}

/// The hooks of the first `n` entries of a group.
pub open spec fn group_hooks(t: HookTrigger, g: MatcherGroup, n: int) -> Seq<
    (HookTrigger, Option<Seq<char>>, Seq<char>, u64),
>
    decreases n,
{
    if n <= 0 {
        Seq::empty()
    } else if usable(g.hooks@[n - 1]) {
        group_hooks(t, g, n - 1).push(entry_hook(t, opt_string_view(g.matcher), g.hooks@[n - 1]))
    } else {
        group_hooks(t, g, n - 1)
    }
}

/// The hooks of the first `n` groups of a trigger, group after group.
pub open spec fn trigger_hooks(t: HookTrigger, gs: Seq<MatcherGroup>, n: int) -> Seq<
    (HookTrigger, Option<Seq<char>>, Seq<char>, u64),
>
    decreases n,
{
    if n <= 0 {
        Seq::empty()
    } else {
        trigger_hooks(t, gs, n - 1) + group_hooks(t, gs[n - 1], gs[n - 1].hooks@.len() as int)
    }
}

/// The hooks of the first `n` triggers, trigger after trigger.
pub open spec fn all_hooks(groups: Seq<(HookTrigger, Vec<MatcherGroup>)>, n: int) -> Seq<
    (HookTrigger, Option<Seq<char>>, Seq<char>, u64),
>
    decreases n,
{
    if n <= 0 {
        Seq::empty()
    } else {
        all_hooks(groups, n - 1) + trigger_hooks(
            groups[n - 1].0,
            groups[n - 1].1@,
            groups[n - 1].1@.len() as int,
        )
    }
}

/// Appends the hooks of one group.
fn push_group_hooks(out: &mut Vec<Hook>, t: HookTrigger, g: &MatcherGroup)
    ensures
        hooks_view(final(out)@) == hooks_view(old(out)@) + group_hooks(t, *g, g.hooks@.len() as int),
{
    let mut k: usize = 0;
    while k < g.hooks.len()
        invariant
            k <= g.hooks@.len(),
            hooks_view(out@) == hooks_view(old(out)@) + group_hooks(t, *g, k as int),
        decreases g.hooks@.len() - k,
    {
        let e = &g.hooks[k];
        if str_eq(e.hook_type.as_str(), "command") && !e.command.as_str().is_empty() {
            let h = Hook {
                trigger: t,
                matcher: copy_opt_string(&g.matcher),
                command: e.command.clone(),
                timeout_secs: match e.timeout {
                    Some(s) => s,
                    None => DEFAULT_HOOK_TIMEOUT_SECS,
                },
            };
            let ghost before = out@;
            out.push(h);
            proof {
                assert(hooks_view(out@) =~= hooks_view(before).push(hook_view(h)));
                assert(hook_view(h) == entry_hook(t, opt_string_view(g.matcher), g.hooks@[k as int]));
            }
        }
        k += 1;
    }
}

/// The hooks of the configuration's groups, listed trigger by trigger,
/// group by group, entry by entry. Entries of another type than `command`,
/// and entries without a command, are skipped; a missing timeout is
/// `DEFAULT_HOOK_TIMEOUT_SECS`.
pub fn hooks_from_groups(groups: &[(HookTrigger, Vec<MatcherGroup>)]) -> (r: Vec<Hook>)
    ensures
        hooks_view(r@) == all_hooks(groups@, groups@.len() as int),
{
    let mut out: Vec<Hook> = Vec::new();
    let mut i: usize = 0;
    while i < groups.len()
        invariant
            i <= groups@.len(),
            hooks_view(out@) == all_hooks(groups@, i as int),
        decreases groups@.len() - i,
    {
        let t = groups[i].0;
        let gs = &groups[i].1;
        let ghost start = hooks_view(out@);
        let mut j: usize = 0;
        while j < gs.len()
            invariant
                j <= gs@.len(),
                start == all_hooks(groups@, i as int),
                *gs == groups@[i as int].1,
                t == groups@[i as int].0,
                hooks_view(out@) == start + trigger_hooks(t, gs@, j as int),
            decreases gs@.len() - j,
        {
            let ghost mid = hooks_view(out@);
            push_group_hooks(&mut out, t, &gs[j]);
            proof {
                assert(start + trigger_hooks(t, gs@, j + 1) =~= mid + group_hooks(
                    t,
                    gs@[j as int],
                    gs@[j as int].hooks@.len() as int,
                ));
            }
            j += 1;
        }
        i += 1;
    }
    out
}

} // verus!
