use crab_code::event_bus::{
    EventBus, EventEnvelope, EventMetadata, EventPriority, FnHandler, SubscriptionId,
};
use crab_code::event_filter::{EventKind, HasEventKind};
use std::sync::{Arc, Mutex};

#[allow(dead_code)]
#[derive(Debug, Clone)]
enum Event {
    TurnStart { turn_index: usize },
    Error { message: String },
}

impl HasEventKind for Event {
    fn kind(&self) -> EventKind {
        self.event_kind()
    }

    fn event_kind(&self) -> EventKind {
        match self {
            Event::TurnStart { .. } => EventKind::TurnStart,
            Event::Error { .. } => EventKind::Error,
        }
    }
}

type PlainBus = EventBus<Event, FnHandler<Event, fn(&EventEnvelope<Event>)>>;

fn now_ms() -> u64 {
    std::time::SystemTime::now()
        .duration_since(std::time::UNIX_EPOCH)
        .unwrap_or_default()
        .as_millis() as u64
}

// ── EventPriority ──────────────────────────────────────────────────

#[test]
fn priority_ordering() {
    assert!(EventPriority::Critical > EventPriority::High);
    assert!(EventPriority::High > EventPriority::Normal);
    assert!(EventPriority::Normal > EventPriority::Low);
}

#[test]
fn priority_default() {
    assert_eq!(EventPriority::default(), EventPriority::Normal);
}

#[test]
fn priority_display() {
    assert_eq!(EventPriority::Low.to_string(), "low");
    assert_eq!(EventPriority::Normal.to_string(), "normal");
    assert_eq!(EventPriority::High.to_string(), "high");
    assert_eq!(EventPriority::Critical.to_string(), "critical");
}

// ── EventMetadata ──────────────────────────────────────────────────

#[test]
fn metadata_default() {
    let meta = EventMetadata::default();
    assert_eq!(meta.priority, EventPriority::Normal);
    assert!(meta.source.is_empty());
    assert!(meta.correlation_id.is_none());
}

#[test]
fn metadata_from_source() {
    let meta = EventMetadata::from_source("agent");
    assert_eq!(meta.source, "agent");
}

#[test]
fn metadata_builder() {
    let meta = EventMetadata::from_source("tool")
        .with_priority(EventPriority::Critical)
        .with_correlation_id("corr-123");
    assert_eq!(meta.priority, EventPriority::Critical);
    assert_eq!(meta.correlation_id.as_deref(), Some("corr-123"));
}

#[test]
fn metadata_timestamp_is_recent() {
    let meta = EventMetadata::default();
    let now = now_ms();
    assert!(now - meta.timestamp_ms < 1000);
}

// ── SubscriptionId ─────────────────────────────────────────────────

#[test]
fn subscription_id_display() {
    let id = SubscriptionId(42);
    assert_eq!(id.to_string(), "sub_42");
}

// ── EventBus ───────────────────────────────────────────────────────

#[test]
fn new_bus_is_empty() {
    let bus: PlainBus = EventBus::new();
    assert_eq!(bus.subscription_count(), 0);
    assert_eq!(bus.queue_len(), 0);
}

#[test]
fn subscribe_and_publish() {
    let mut bus: EventBus<Event, _> = EventBus::new();
    let received = Arc::new(Mutex::new(Vec::new()));
    let recv_clone = Arc::clone(&received);

    bus.subscribe(move |env: &EventEnvelope<Event>| {
        if let Event::Error { ref message } = env.event {
            recv_clone.lock().unwrap().push(message.clone());
        }
    });

    bus.publish_default(Event::Error {
        message: "test".into(),
    });

    let msgs = received.lock().unwrap();
    assert_eq!(msgs.len(), 1);
    assert_eq!(msgs[0], "test");
}

#[test]
fn multiple_subscribers() {
    let mut bus: EventBus<Event, _> = EventBus::new();
    let count = Arc::new(Mutex::new(0u32));

    for _ in 0..3 {
        let c = Arc::clone(&count);
        bus.subscribe(move |_: &EventEnvelope<Event>| {
            *c.lock().unwrap() += 1;
        });
    }

    bus.publish_default(Event::TurnStart { turn_index: 0 });
    assert_eq!(*count.lock().unwrap(), 3);
}

#[test]
fn unsubscribe() {
    let mut bus: EventBus<Event, _> = EventBus::new();
    let count = Arc::new(Mutex::new(0u32));
    let c = Arc::clone(&count);

    let id = bus.subscribe(move |_: &EventEnvelope<Event>| {
        *c.lock().unwrap() += 1;
    });

    bus.publish_default(Event::TurnStart { turn_index: 0 });
    assert_eq!(*count.lock().unwrap(), 1);

    assert!(bus.unsubscribe(id));
    assert_eq!(bus.subscription_count(), 0);

    bus.publish_default(Event::TurnStart { turn_index: 1 });
    assert_eq!(*count.lock().unwrap(), 1); // unchanged
}

#[test]
fn unsubscribe_nonexistent() {
    let mut bus: PlainBus = EventBus::new();
    assert!(!bus.unsubscribe(SubscriptionId(999)));
}

// ── Priority queue ─────────────────────────────────────────────────

#[test]
fn enqueue_and_drain_ordered() {
    let mut bus: EventBus<Event, _> = EventBus::new();
    let order = Arc::new(Mutex::new(Vec::new()));
    let o = Arc::clone(&order);

    bus.subscribe(move |env: &EventEnvelope<Event>| {
        if let Event::Error { ref message } = env.event {
            o.lock().unwrap().push(message.clone());
        }
    });

    // Enqueue in mixed priority order
    bus.enqueue(
        Event::Error {
            message: "low".into(),
        },
        EventMetadata::default().with_priority(EventPriority::Low),
    );
    bus.enqueue(
        Event::Error {
            message: "critical".into(),
        },
        EventMetadata::default().with_priority(EventPriority::Critical),
    );
    bus.enqueue(
        Event::Error {
            message: "normal".into(),
        },
        EventMetadata::default().with_priority(EventPriority::Normal),
    );

    assert_eq!(bus.queue_len(), 3);

    let dispatched = bus.drain_ordered();
    assert_eq!(dispatched, 3);
    assert_eq!(bus.queue_len(), 0);

    let msgs = order.lock().unwrap();
    assert_eq!(msgs[0], "critical");
    assert_eq!(msgs[1], "normal");
    assert_eq!(msgs[2], "low");
}

#[test]
fn fifo_within_same_priority() {
    let mut bus: EventBus<Event, _> = EventBus::new();
    let order = Arc::new(Mutex::new(Vec::new()));
    let o = Arc::clone(&order);

    bus.subscribe(move |env: &EventEnvelope<Event>| {
        if let Event::Error { ref message } = env.event {
            o.lock().unwrap().push(message.clone());
        }
    });

    bus.enqueue(
        Event::Error {
            message: "first".into(),
        },
        EventMetadata::default().with_priority(EventPriority::Normal),
    );
    bus.enqueue(
        Event::Error {
            message: "second".into(),
        },
        EventMetadata::default().with_priority(EventPriority::Normal),
    );

    bus.drain_ordered();
    let msgs = order.lock().unwrap();
    assert_eq!(msgs[0], "first");
    assert_eq!(msgs[1], "second");
}

#[test]
fn clear_queue() {
    let mut bus: PlainBus = EventBus::new();
    bus.enqueue(Event::TurnStart { turn_index: 0 }, EventMetadata::default());
    bus.enqueue(Event::TurnStart { turn_index: 1 }, EventMetadata::default());
    assert_eq!(bus.queue_len(), 2);
    bus.clear_queue();
    assert_eq!(bus.queue_len(), 0);
}

#[test]
fn drain_empty_queue() {
    let mut bus: PlainBus = EventBus::new();
    assert_eq!(bus.drain_ordered(), 0);
}

#[test]
fn bus_debug() {
    let bus: PlainBus = EventBus::new();
    let dbg = bus.describe();
    assert!(dbg.contains("EventBus"));
}

// ── EventEnvelope ordering ─────────────────────────────────────────

#[test]
fn envelope_ordering() {
    let high = EventEnvelope::new(
        Event::TurnStart { turn_index: 0 },
        EventMetadata::default().with_priority(EventPriority::High),
        1,
    );
    let low = EventEnvelope::new(
        Event::TurnStart { turn_index: 1 },
        EventMetadata::default().with_priority(EventPriority::Low),
        2,
    );
    assert!(high > low);
}

// ── Further cases ──────────────────────────────────────────────────

#[test]
fn describe_counts_subscriptions_and_queue() {
    let mut bus: EventBus<Event, _> = EventBus::new();
    bus.subscribe(|_: &EventEnvelope<Event>| {});
    bus.enqueue(Event::TurnStart { turn_index: 0 }, EventMetadata::default());
    assert_eq!(bus.describe(), "EventBus { subscriptions: 1, queue_len: 1, .. }");
}

#[test]
fn subscription_ids_count_up_from_one() {
    let mut bus: EventBus<Event, _> = EventBus::new();
    let quiet = |_: &EventEnvelope<Event>| {};
    let a = bus.subscribe(quiet);
    let b = bus.subscribe(quiet);
    assert_eq!(a, SubscriptionId(1));
    assert_eq!(b, SubscriptionId(2));
    assert!(bus.unsubscribe(a));
    assert!(!bus.unsubscribe(a));
    assert_eq!(bus.subscription_count(), 1);
}

#[test]
fn drain_mixes_priority_and_arrival_order() {
    let mut bus: EventBus<Event, _> = EventBus::new();
    let order = Arc::new(Mutex::new(Vec::new()));
    let o = Arc::clone(&order);
    bus.subscribe(move |env: &EventEnvelope<Event>| {
        o.lock().unwrap().push(env.sequence);
    });
    // sequence numbers 1..=5 with priorities Low, High, Low, Critical, High
    bus.enqueue(Event::TurnStart { turn_index: 0 }, EventMetadata::default().with_priority(EventPriority::Low));
    bus.enqueue(Event::TurnStart { turn_index: 1 }, EventMetadata::default().with_priority(EventPriority::High));
    bus.enqueue(Event::TurnStart { turn_index: 2 }, EventMetadata::default().with_priority(EventPriority::Low));
    bus.enqueue(Event::TurnStart { turn_index: 3 }, EventMetadata::default().with_priority(EventPriority::Critical));
    bus.enqueue(Event::TurnStart { turn_index: 4 }, EventMetadata::default().with_priority(EventPriority::High));
    assert_eq!(bus.drain_ordered(), 5);
    assert_eq!(*order.lock().unwrap(), vec![4, 2, 5, 1, 3]);
}

#[test]
fn publish_consumes_a_sequence_number() {
    let mut bus: EventBus<Event, _> = EventBus::new();
    let seen = Arc::new(Mutex::new(Vec::new()));
    let s = Arc::clone(&seen);
    bus.subscribe(move |env: &EventEnvelope<Event>| {
        s.lock().unwrap().push(env.sequence);
    });
    bus.publish_default(Event::TurnStart { turn_index: 0 });
    bus.enqueue(Event::TurnStart { turn_index: 1 }, EventMetadata::default());
    bus.drain_ordered();
    assert_eq!(*seen.lock().unwrap(), vec![1, 2]);
}

#[test]
fn envelopes_of_equal_priority_order_by_sequence() {
    let first = EventEnvelope::new(Event::TurnStart { turn_index: 0 }, EventMetadata::default(), 1);
    let second = EventEnvelope::new(Event::TurnStart { turn_index: 1 }, EventMetadata::default(), 2);
    assert!(first > second);
    assert!(first == EventEnvelope::new(Event::TurnStart { turn_index: 9 }, EventMetadata::default(), 1));
}
