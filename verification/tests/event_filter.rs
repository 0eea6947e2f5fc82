use crab_code::event_bus::{EventBus, EventEnvelope, EventMetadata, EventPriority};
use crab_code::event_filter::{
    event_category, CompositeFilter, EventCategory, EventFilter, EventKind, FilterMode,
    HasEventKind, PriorityFilter, SourceFilter, TypeFilter,
};
use std::sync::{Arc, Mutex};

#[allow(dead_code)]
#[derive(Debug, Clone)]
enum Event {
    TurnStart { turn_index: usize },
    ToolUseStart { id: String, name: String },
    MemoryLoaded { count: usize },
    SessionSaved { session_id: String },
    AgentWorkerStarted { worker_id: String, task_prompt: String },
    Error { message: String },
}

impl HasEventKind for Event {
    fn kind(&self) -> EventKind {
        self.event_kind()
    }

    fn event_kind(&self) -> EventKind {
        match self {
            Event::TurnStart { .. } => EventKind::TurnStart,
            Event::ToolUseStart { .. } => EventKind::ToolUseStart,
            Event::MemoryLoaded { .. } => EventKind::MemoryLoaded,
            Event::SessionSaved { .. } => EventKind::SessionSaved,
            Event::AgentWorkerStarted { .. } => EventKind::AgentWorkerStarted,
            Event::Error { .. } => EventKind::Error,
        }
    }
}

fn make_envelope(event: Event, priority: EventPriority, source: &str) -> EventEnvelope<Event> {
    EventEnvelope {
        event,
        metadata: EventMetadata::from_source(source).with_priority(priority),
        sequence: 1,
    }
}

// ── EventCategory ──────────────────────────────────────────────────

#[test]
fn event_category_classification() {
    assert_eq!(
        event_category(&Event::TurnStart { turn_index: 0 }),
        EventCategory::Message,
    );
    assert_eq!(
        event_category(&Event::ToolUseStart {
            id: "t".into(),
            name: "bash".into()
        }),
        EventCategory::Tool,
    );
    assert_eq!(
        event_category(&Event::Error {
            message: "x".into()
        }),
        EventCategory::Error,
    );
    assert_eq!(
        event_category(&Event::MemoryLoaded { count: 1 }),
        EventCategory::Memory,
    );
    assert_eq!(
        event_category(&Event::SessionSaved {
            session_id: "s".into()
        }),
        EventCategory::Session,
    );
    assert_eq!(
        event_category(&Event::AgentWorkerStarted {
            worker_id: "w".into(),
            task_prompt: "p".into()
        }),
        EventCategory::Agent,
    );
}

#[test]
fn category_display() {
    assert_eq!(EventCategory::Message.to_string(), "message");
    assert_eq!(EventCategory::Tool.to_string(), "tool");
    assert_eq!(EventCategory::Error.to_string(), "error");
}

// ── TypeFilter ─────────────────────────────────────────────────────

#[test]
fn type_filter_matches() {
    let filter = TypeFilter::single(EventCategory::Error);
    let env = make_envelope(
        Event::Error {
            message: "x".into(),
        },
        EventPriority::Normal,
        "",
    );
    assert!(filter.matches(&env));
}

#[test]
fn type_filter_rejects() {
    let filter = TypeFilter::single(EventCategory::Tool);
    let env = make_envelope(
        Event::Error {
            message: "x".into(),
        },
        EventPriority::Normal,
        "",
    );
    assert!(!filter.matches(&env));
}

#[test]
fn type_filter_multiple_categories() {
    let filter = TypeFilter::new(vec![EventCategory::Error, EventCategory::Tool]);
    let err_env = make_envelope(
        Event::Error {
            message: "x".into(),
        },
        EventPriority::Normal,
        "",
    );
    let msg_env = make_envelope(
        Event::TurnStart { turn_index: 0 },
        EventPriority::Normal,
        "",
    );
    assert!(filter.matches(&err_env));
    assert!(!filter.matches(&msg_env));
}

// ── PriorityFilter ─────────────────────────────────────────────────

#[test]
fn priority_filter_matches_above() {
    let filter = PriorityFilter::new(EventPriority::High);
    let env = make_envelope(
        Event::TurnStart { turn_index: 0 },
        EventPriority::Critical,
        "",
    );
    assert!(filter.matches(&env));
}

#[test]
fn priority_filter_matches_equal() {
    let filter = PriorityFilter::new(EventPriority::High);
    let env = make_envelope(Event::TurnStart { turn_index: 0 }, EventPriority::High, "");
    assert!(filter.matches(&env));
}

#[test]
fn priority_filter_rejects_below() {
    let filter = PriorityFilter::new(EventPriority::High);
    let env = make_envelope(
        Event::TurnStart { turn_index: 0 },
        EventPriority::Normal,
        "",
    );
    assert!(!filter.matches(&env));
}

// ── SourceFilter ───────────────────────────────────────────────────

#[test]
fn source_filter_matches() {
    let filter = SourceFilter::new("agent");
    let env = make_envelope(
        Event::TurnStart { turn_index: 0 },
        EventPriority::Normal,
        "agent",
    );
    assert!(filter.matches(&env));
}

#[test]
fn source_filter_rejects() {
    let filter = SourceFilter::new("agent");
    let env = make_envelope(
        Event::TurnStart { turn_index: 0 },
        EventPriority::Normal,
        "tool",
    );
    assert!(!filter.matches(&env));
}

// ── CompositeFilter ────────────────────────────────────────────────

#[test]
fn composite_and_all_match() {
    let filter = CompositeFilter::new(FilterMode::And)
        .with(TypeFilter::single(EventCategory::Error))
        .with(PriorityFilter::new(EventPriority::High));
    let env = make_envelope(
        Event::Error {
            message: "x".into(),
        },
        EventPriority::Critical,
        "",
    );
    assert!(filter.matches(&env));
}

#[test]
fn composite_and_partial_match() {
    let filter = CompositeFilter::new(FilterMode::And)
        .with(TypeFilter::single(EventCategory::Error))
        .with(PriorityFilter::new(EventPriority::High));
    let env = make_envelope(
        Event::Error {
            message: "x".into(),
        },
        EventPriority::Low,
        "",
    );
    assert!(!filter.matches(&env));
}

#[test]
fn composite_or_one_matches() {
    let filter = CompositeFilter::new(FilterMode::Or)
        .with(TypeFilter::single(EventCategory::Error))
        .with(TypeFilter::single(EventCategory::Tool));
    let env = make_envelope(
        Event::Error {
            message: "x".into(),
        },
        EventPriority::Normal,
        "",
    );
    assert!(filter.matches(&env));
}

#[test]
fn composite_or_none_match() {
    let filter = CompositeFilter::new(FilterMode::Or)
        .with(TypeFilter::single(EventCategory::Tool))
        .with(TypeFilter::single(EventCategory::Session));
    let env = make_envelope(
        Event::Error {
            message: "x".into(),
        },
        EventPriority::Normal,
        "",
    );
    assert!(!filter.matches(&env));
}

#[test]
fn composite_empty_matches_all() {
    let filter = CompositeFilter::new(FilterMode::And);
    let env = make_envelope(
        Event::TurnStart { turn_index: 0 },
        EventPriority::Normal,
        "",
    );
    assert!(filter.matches(&env));
}

#[test]
fn composite_len() {
    let filter =
        CompositeFilter::new(FilterMode::And).with(TypeFilter::single(EventCategory::Error));
    assert_eq!(filter.len(), 1);
    assert!(!filter.is_empty());
}

#[test]
fn composite_debug() {
    let filter = CompositeFilter::new(FilterMode::Or);
    let dbg = filter.describe();
    assert!(dbg.contains("CompositeFilter"));
}

// ── FilteredSubscription ───────────────────────────────────────────

#[test]
fn filtered_subscription_only_fires_on_match() {
    let mut bus: EventBus<Event, _> = EventBus::new();
    let received = Arc::new(Mutex::new(Vec::new()));
    let recv = Arc::clone(&received);

    bus.subscribe_filtered(
        TypeFilter::single(EventCategory::Error),
        move |env: &EventEnvelope<Event>| {
            if let Event::Error { ref message } = env.event {
                recv.lock().unwrap().push(message.clone());
            }
        },
    );

    // Publish non-matching event
    bus.publish_default(Event::TurnStart { turn_index: 0 });
    assert!(received.lock().unwrap().is_empty());

    // Publish matching event
    bus.publish_default(Event::Error {
        message: "boom".into(),
    });
    assert_eq!(received.lock().unwrap().len(), 1);
}

#[test]
fn filtered_subscription_can_unsubscribe() {
    let mut bus: EventBus<Event, _> = EventBus::new();
    let count = Arc::new(Mutex::new(0u32));
    let c = Arc::clone(&count);

    let fs = bus.subscribe_filtered(
        PriorityFilter::new(EventPriority::Normal),
        move |_: &EventEnvelope<Event>| {
            *c.lock().unwrap() += 1;
        },
    );

    bus.publish_default(Event::TurnStart { turn_index: 0 });
    assert_eq!(*count.lock().unwrap(), 1);

    bus.unsubscribe(fs.id);
    bus.publish_default(Event::TurnStart { turn_index: 1 });
    assert_eq!(*count.lock().unwrap(), 1);
}

// ── Further cases ──────────────────────────────────────────────────

#[test]
fn every_kind_has_its_category() {
    assert_eq!(event_category(&EventKind::ContentDelta), EventCategory::Message);
    assert_eq!(event_category(&EventKind::ToolResult), EventCategory::Tool);
    assert_eq!(event_category(&EventKind::PermissionResponse), EventCategory::Permission);
    assert_eq!(event_category(&EventKind::CompactEnd), EventCategory::Compact);
    assert_eq!(event_category(&EventKind::TokenWarning), EventCategory::Token);
    assert_eq!(event_category(&EventKind::MemorySaved), EventCategory::Memory);
    assert_eq!(event_category(&EventKind::SessionResumed), EventCategory::Session);
    assert_eq!(event_category(&EventKind::AgentWorkerCompleted), EventCategory::Agent);
}

#[test]
fn nested_composite_filters() {
    // (Error AND source "agent") OR Critical
    let inner = CompositeFilter::new(FilterMode::And)
        .with(TypeFilter::single(EventCategory::Error))
        .with(SourceFilter::new("agent"));
    let filter = CompositeFilter::new(FilterMode::Or)
        .with(inner)
        .with(PriorityFilter::new(EventPriority::Critical));
    let err_agent = make_envelope(Event::Error { message: "x".into() }, EventPriority::Low, "agent");
    let err_tool = make_envelope(Event::Error { message: "x".into() }, EventPriority::Low, "tool");
    let critical = make_envelope(Event::TurnStart { turn_index: 0 }, EventPriority::Critical, "tool");
    assert!(filter.matches(&err_agent));
    assert!(!filter.matches(&err_tool));
    assert!(filter.matches(&critical));
}

#[test]
fn composite_describe_names_mode_and_count() {
    let filter = CompositeFilter::new(FilterMode::And)
        .with(TypeFilter::single(EventCategory::Error))
        .with(PriorityFilter::new(EventPriority::High));
    assert_eq!(filter.describe(), "CompositeFilter { mode: And, count: 2 }");
}

#[test]
fn empty_or_composite_matches_all() {
    let filter = CompositeFilter::new(FilterMode::Or);
    let env = make_envelope(Event::TurnStart { turn_index: 0 }, EventPriority::Low, "");
    assert!(filter.matches(&env));
}

/// A caller's own filter: accepts events whose source starts with "agent".
struct AgentSource;

impl EventFilter<Event> for AgentSource {
    fn accepts(&self, envelope: EventEnvelope<Event>) -> bool {
        envelope.metadata.source.starts_with("agent")
    }

    fn matches(&self, envelope: &EventEnvelope<Event>) -> bool {
        envelope.metadata.source.starts_with("agent")
    }
}

#[test]
fn composite_and_with_custom_filter() {
    let filter = CompositeFilter::new_custom(FilterMode::And)
        .with(TypeFilter::single(EventCategory::Error))
        .with_custom(AgentSource);
    assert_eq!(filter.len(), 2);
    let from_agent = make_envelope(Event::Error { message: "x".into() }, EventPriority::Normal, "agent-1");
    let from_cli = make_envelope(Event::Error { message: "x".into() }, EventPriority::Normal, "cli");
    assert!(filter.matches(&from_agent));
    assert!(!filter.matches(&from_cli));
}

#[test]
fn composite_or_with_custom_filter() {
    let mut filter = CompositeFilter::new_custom(FilterMode::Or);
    filter.add(TypeFilter::single(EventCategory::Tool));
    filter.add_custom(AgentSource);
    let turn_from_agent = make_envelope(Event::TurnStart { turn_index: 1 }, EventPriority::Normal, "agent");
    let turn_from_cli = make_envelope(Event::TurnStart { turn_index: 1 }, EventPriority::Normal, "cli");
    assert!(filter.matches(&turn_from_agent));
    assert!(!filter.matches(&turn_from_cli));
}

#[test]
fn composite_or_empty_matches_all() {
    let filter = CompositeFilter::new(FilterMode::Or);
    let env = make_envelope(Event::Error { message: "x".into() }, EventPriority::Low, "");
    assert!(filter.matches(&env));
}
