//! Publish/subscribe distribution of events, with a priority queue.
//!
//! Subscribers are called in the order they subscribed. Events may also be
//! queued and drained later: the queue hands out the highest priority first
//! and, within one priority, the event enqueued first.

use vstd::prelude::*;
use core::cmp::Ordering;
use crate::clock::now_unix_millis;
use crate::text::{concat_str, decimal, u64_to_string, opt_string_view};

verus! {

// ── Priority ───────────────────────────────────────────────────────────

/// Priority level for events, from `Low` to `Critical`.
#[derive(Debug, Clone, Copy, PartialEq, Eq, PartialOrd, Ord, Hash, Structural)]
pub enum EventPriority {
    Low,
    Normal,
    High,
    Critical,
}

/// The rank of a priority: `Low` 0, `Normal` 1, `High` 2, `Critical` 3.
pub open spec fn priority_rank(p: EventPriority) -> int {
    match p {
        EventPriority::Low => 0,
        EventPriority::Normal => 1,
        EventPriority::High => 2,
        EventPriority::Critical => 3,
    }
}

/// The lowercase name of a priority.
pub open spec fn priority_name(p: EventPriority) -> Seq<char> {
    match p {
        EventPriority::Low => "low"@,
        EventPriority::Normal => "normal"@,
        EventPriority::High => "high"@,
        EventPriority::Critical => "critical"@,
    }
}

impl EventPriority {
    /// The rank of the priority (`Low` 0 up to `Critical` 3).
    pub fn rank(&self) -> (r: u8)
        ensures
            r == priority_rank(*self),
    {
        match self {
            EventPriority::Low => 0,
            EventPriority::Normal => 1,
            EventPriority::High => 2,
            EventPriority::Critical => 3,
        }
    }

    /// The lowercase name: `low`, `normal`, `high` or `critical`.
    pub fn to_string(&self) -> (r: String)
        ensures
            r@ == priority_name(*self),
    {
        match self {
            EventPriority::Low => "low".to_owned(),
            EventPriority::Normal => "normal".to_owned(),
            EventPriority::High => "high".to_owned(),
            EventPriority::Critical => "critical".to_owned(),
        }
    }
}

impl Default for EventPriority {
    /// `Normal`.
    fn default() -> (r: Self)
        ensures
            r == EventPriority::Normal,
    {
        EventPriority::Normal
    }
}

// ── Metadata ───────────────────────────────────────────────────────────

/// Metadata attached to a published event.
#[derive(Debug, Clone)]
pub struct EventMetadata {
    /// Unix timestamp in milliseconds.
    pub timestamp_ms: u64,
    /// Source component that emitted the event.
    pub source: String,
    /// Priority level.
    pub priority: EventPriority,
    /// Optional correlation ID for tracing related events.
    pub correlation_id: Option<String>,
}

impl Default for EventMetadata {
    /// Metadata stamped with the current time, with an empty source,
    /// `Normal` priority and no correlation ID.
    fn default() -> (r: Self)
        ensures
            r.source@ == Seq::<char>::empty(),
            r.priority == EventPriority::Normal,
            r.correlation_id is None,
    {
        EventMetadata {
            timestamp_ms: now_unix_millis(),
            source: String::new(),
            priority: EventPriority::Normal,
            correlation_id: None,
        }
    }
}

impl EventMetadata {
    /// Metadata stamped with the current time, with the given source,
    /// `Normal` priority and no correlation ID.
    pub fn from_source(source: &str) -> (r: Self)
        ensures
            r.source@ == source@,
            r.priority == EventPriority::Normal,
            r.correlation_id is None,
    {
        EventMetadata {
            timestamp_ms: now_unix_millis(),
            source: source.to_owned(),
            priority: EventPriority::Normal,
            correlation_id: None,
        }
    }

    /// The same metadata with the given priority.
    pub fn with_priority(self, priority: EventPriority) -> (r: Self)
        ensures
            r == (EventMetadata { priority, ..self }),
    {
        EventMetadata { priority, ..self }
    }

    /// The same metadata with the given correlation ID.
    pub fn with_correlation_id(self, id: &str) -> (r: Self)
        ensures
            r.timestamp_ms == self.timestamp_ms,
            r.source == self.source,
            r.priority == self.priority,
            opt_string_view(r.correlation_id) == Some(id@),
    {
        EventMetadata { correlation_id: Some(id.to_owned()), ..self }
    }
}

// ── Envelope ───────────────────────────────────────────────────────────

/// An event paired with its metadata and the sequence number the bus gave
/// it.
pub struct EventEnvelope<E> {
    /// The event payload.
    pub event: E,
    /// Associated metadata.
    pub metadata: EventMetadata,
    /// Sequence number for stable ordering within the same priority.
    pub sequence: u64,
}

impl<E> EventEnvelope<E> {
    /// An envelope of the given parts.
    pub fn new(event: E, metadata: EventMetadata, sequence: u64) -> (r: Self)
        ensures
            r == (EventEnvelope { event, metadata, sequence }),
    {
        EventEnvelope { event, metadata, sequence }
    }
}

/// Whether the queue hands out `a` before `b`: `a` has the higher priority,
/// or the same priority and the lower sequence number.
pub open spec fn dispatched_before<E>(a: EventEnvelope<E>, b: EventEnvelope<E>) -> bool {
    ||| priority_rank(a.metadata.priority) > priority_rank(b.metadata.priority)
    ||| priority_rank(a.metadata.priority) == priority_rank(b.metadata.priority)
        && a.sequence < b.sequence
}

impl<E> PartialEq for EventEnvelope<E> {
    fn eq(&self, other: &Self) -> (r: bool) {
        self.sequence == other.sequence
    }
}

impl<E> vstd::std_specs::cmp::PartialEqSpecImpl for EventEnvelope<E> {
    /// Envelopes are equal when their sequence numbers are.
    open spec fn obeys_eq_spec() -> bool {
        true
    }

    open spec fn eq_spec(&self, other: &Self) -> bool {
        self.sequence == other.sequence
    }
}

impl<E> PartialOrd for EventEnvelope<E> {
    fn partial_cmp(&self, other: &Self) -> (r: Option<Ordering>) {
        let a = self.metadata.priority.rank();
        let b = other.metadata.priority.rank();
        if a > b {
            Some(Ordering::Greater)
        } else if a < b {
            Some(Ordering::Less)
        } else if self.sequence < other.sequence {
            Some(Ordering::Greater)
        } else if self.sequence > other.sequence {
            Some(Ordering::Less)
        } else {
            Some(Ordering::Equal)
        }
    }
}

impl<E> vstd::std_specs::cmp::PartialOrdSpecImpl for EventEnvelope<E> {
    /// An envelope is greater than another when the queue hands it out
    /// first.
    open spec fn obeys_partial_cmp_spec() -> bool {
        true
    }

    open spec fn partial_cmp_spec(&self, other: &Self) -> Option<Ordering> {
        if dispatched_before(*self, *other) {
            Some(Ordering::Greater)
        } else if dispatched_before(*other, *self) {
            Some(Ordering::Less)
        } else {
            Some(Ordering::Equal)
        }
    }
}

// ── Subscription ───────────────────────────────────────────────────────

/// Opaque handle to a subscription.
#[derive(Debug, Clone, Copy, PartialEq, Eq, Hash, Structural)]
pub struct SubscriptionId(pub u64);

impl SubscriptionId {
    /// `sub_` followed by the number in decimal.
    pub fn to_string(&self) -> (r: String)
        ensures
            r@ == "sub_"@ + decimal(self.0 as nat),
    {
        let n = u64_to_string(self.0);
        concat_str("sub_", n.as_str())
    }
}

/// What the bus calls with each envelope it hands to a subscription.
pub trait EventHandler<E> {
    /// Whether the handler passes `envelope` on to its callback.
    spec fn accepts(&self, envelope: EventEnvelope<E>) -> bool;

    /// Handles an envelope; returns whether it passed it on to its
    /// callback, which it does exactly for the envelopes it accepts.
    fn handle(&self, envelope: &EventEnvelope<E>) -> (passed: bool)
        ensures
            passed == self.accepts(*envelope),
    ;
}

/// A handler that calls a closure.
pub struct FnHandler<E, F: Fn(&EventEnvelope<E>)> {
    f: F,
    event: core::marker::PhantomData<E>,
}

impl<E, F: Fn(&EventEnvelope<E>)> FnHandler<E, F> {
    /// The closure accepts every envelope.
    #[verifier::type_invariant]
    spec fn total(self) -> bool {
        forall|env: &EventEnvelope<E>| call_requires(self.f, (env,))
    }

    /// The closure the handler calls.
    pub closed spec fn function(self) -> F {
        self.f
    }

    /// A handler calling `f`, which must accept every envelope.
    pub fn new(f: F) -> (r: Self)
        requires
            forall|env: &EventEnvelope<E>| call_requires(f, (env,)),
        ensures
            r.function() == f,
    {
        FnHandler { f, event: core::marker::PhantomData }
    }
}

impl<E, F: Fn(&EventEnvelope<E>)> EventHandler<E> for FnHandler<E, F> {
    /// A plain callback takes every envelope.
    open spec fn accepts(&self, envelope: EventEnvelope<E>) -> bool {
        true
    }

    fn handle(&self, envelope: &EventEnvelope<E>) -> (passed: bool) {
        proof {
            use_type_invariant(self);
        }
        (self.f)(envelope);
        true
    }
}

/// A subscription entry in the bus.
struct Subscription<H> {
    id: SubscriptionId,
    handler: H,
}

/// The deliveries of one envelope to each of the subscriptions `subs`, in
/// their order.
pub open spec fn deliveries_of<E>(env: EventEnvelope<E>, subs: Seq<SubscriptionId>) -> Seq<
    (SubscriptionId, EventEnvelope<E>),
> {
    subs.map_values(|s: SubscriptionId| (s, env))
}

/// The deliveries of the envelopes `envs`, one after the other, each to
/// the subscriptions `receivers` gives for it.
pub open spec fn fanout<E>(
    envs: Seq<EventEnvelope<E>>,
    receivers: spec_fn(EventEnvelope<E>) -> Seq<SubscriptionId>,
) -> Seq<(SubscriptionId, EventEnvelope<E>)>
    decreases envs.len(),
{
    if envs.len() == 0 {
        Seq::empty()
    } else {
        deliveries_of(envs[0], receivers(envs[0])) + fanout(envs.drop_first(), receivers)
    }
}

/// The subscriptions among the first `n` of `subs` whose handler accepts
/// `env`, in order.
spec fn accepting<E, H: EventHandler<E>>(subs: Seq<Subscription<H>>, env: EventEnvelope<E>, n: int) -> Seq<
    SubscriptionId,
>
    decreases n,
{
    if n <= 0 {
        Seq::empty()
    } else {
        let p = accepting(subs, env, n - 1);
        if subs[n - 1].handler.accepts(env) {
            p.push(subs[n - 1].id)
        } else {
            p
        }
    }
}

/// The position, among the first `n` envelopes of `q`, of the one the
/// queue hands out first; the earliest position wins a tie.
pub open spec fn best_index<E>(q: Seq<EventEnvelope<E>>, n: int) -> int
    decreases n,
{
    if n <= 1 {
        0
    } else {
        let b = best_index(q, n - 1);
        if dispatched_before(q[n - 1], q[b]) {
            n - 1
        } else {
            b
        }
    }
}

/// The order in which draining hands out the envelopes of `q`: the best one
/// first, then the order of the others.
pub open spec fn drain_order<E>(q: Seq<EventEnvelope<E>>) -> Seq<EventEnvelope<E>>
    decreases q.len(),
{
    if q.len() == 0 {
        Seq::empty()
    } else {
        let b = best_index(q, q.len() as int);
        if 0 <= b < q.len() {
            seq![q[b]] + drain_order(q.remove(b))
        } else {
            Seq::empty()
        }
    }
}

// ── EventBus ───────────────────────────────────────────────────────────

/// Synchronous publish/subscribe event bus with a priority queue, whose
/// subscriptions hold handlers of type `H`.
pub struct EventBus<E, H> {
    subscriptions: Vec<Subscription<H>>,
    next_sub_id: u64,
    next_seq: u64,
    queue: Vec<EventEnvelope<E>>,
    delivered: Ghost<Seq<(SubscriptionId, EventEnvelope<E>)>>,
}

impl<E, H> EventBus<E, H> {
    /// The subscriptions, in the order they were made.
    pub closed spec fn subscribers(&self) -> Seq<SubscriptionId> {
        self.subscriptions@.map_values(|s: Subscription<H>| s.id)
    }

    /// The handlers of the subscriptions, in the same order.
    pub closed spec fn handlers(&self) -> Seq<H> {
        self.subscriptions@.map_values(|s: Subscription<H>| s.handler)
    }

    /// The queued envelopes, in the order they were enqueued.
    pub closed spec fn pending(&self) -> Seq<EventEnvelope<E>> {
        self.queue@
    }

    /// The number the next subscription will get.
    pub closed spec fn next_subscription(&self) -> u64 {
        self.next_sub_id
    }

    /// The sequence number the next published or enqueued event will get.
    pub closed spec fn next_sequence(&self) -> u64 {
        self.next_seq
    }

    /// Every envelope the bus has handed to a subscription, with that
    /// subscription, in the order it did so.
    pub closed spec fn deliveries(&self) -> Seq<(SubscriptionId, EventEnvelope<E>)> {
        self.delivered@
    }

    /// Subscription numbers increase in subscription order and stay below
    /// the next one; sequence numbers increase in queue order and stay below
    /// the next one.
    pub closed spec fn wf(&self) -> bool {
        &&& 1 <= self.next_sub_id
        &&& 1 <= self.next_seq
        &&& forall|i: int|
            0 <= i < self.subscriptions@.len() ==> (#[trigger] self.subscriptions@[i]).id.0
                < self.next_sub_id
        &&& forall|i: int, j: int|
            0 <= i < j < self.subscriptions@.len() ==> (#[trigger] self.subscriptions@[i]).id.0
                < (#[trigger] self.subscriptions@[j]).id.0
        &&& forall|i: int|
            0 <= i < self.queue@.len() ==> (#[trigger] self.queue@[i]).sequence < self.next_seq
        &&& forall|i: int, j: int|
            0 <= i < j < self.queue@.len() ==> (#[trigger] self.queue@[i]).sequence
                < (#[trigger] self.queue@[j]).sequence
    }

    /// An empty bus: no subscriptions, nothing queued or delivered, and
    /// numbering starting at 1.
    pub fn new() -> (r: Self)
        ensures
            r.wf(),
            r.subscribers() == Seq::<SubscriptionId>::empty(),
            r.pending() == Seq::<EventEnvelope<E>>::empty(),
            r.deliveries() == Seq::<(SubscriptionId, EventEnvelope<E>)>::empty(),
            r.next_subscription() == 1,
            r.next_sequence() == 1,
    {
        let r = EventBus {
            subscriptions: Vec::new(),
            next_sub_id: 1,
            next_seq: 1,
            queue: Vec::new(),
            delivered: Ghost(Seq::empty()),
        };
        proof {
            assert(r.subscribers() =~= Seq::<SubscriptionId>::empty());
        }
        r
    }

    /// Number of active subscriptions.
    pub fn subscription_count(&self) -> (n: usize)
        ensures
            n == self.subscribers().len(),
    {
        self.subscriptions.len()
    }

    /// Number of events waiting in the queue.
    pub fn queue_len(&self) -> (n: usize)
        ensures
            n == self.pending().len(),
    {
        self.queue.len()
    }
}

/// Whether the queue hands out `a` before `b`.
fn dispatches_before<E>(a: &EventEnvelope<E>, b: &EventEnvelope<E>) -> (r: bool)
    ensures
        r == dispatched_before(*a, *b),
{
    let ra = a.metadata.priority.rank();
    let rb = b.metadata.priority.rank();
    ra > rb || (ra == rb && a.sequence < b.sequence)
}

impl<E, H: EventHandler<E>> EventBus<E, H> {
    /// The subscriptions an envelope reaches: those whose handler accepts
    /// it, in subscription order.
    pub closed spec fn receivers(&self, env: EventEnvelope<E>) -> Seq<SubscriptionId> {
        accepting(self.subscriptions@, env, self.subscriptions@.len() as int)
    }

    /// An envelope reaches exactly the subscriptions whose handler accepts
    /// it, in subscription order and each once; so nothing reaches a
    /// subscription that is no longer on the bus.
    pub proof fn lemma_receivers(&self, env: EventEnvelope<E>)
        requires
            self.wf(),
        ensures
            forall|k: int|
                0 <= k < self.subscribers().len() ==> (self.receivers(env).contains(
                    #[trigger] self.subscribers()[k],
                ) <==> self.handlers()[k].accepts(env)),
            forall|x: SubscriptionId| #[trigger]
                self.receivers(env).contains(x) ==> self.subscribers().contains(x),
            forall|i: int, j: int|
                0 <= i < j < self.receivers(env).len() ==> (#[trigger] self.receivers(env)[i]).0
                    < (#[trigger] self.receivers(env)[j]).0,
    {
        let subs = self.subscriptions@;
        lemma_accepting(subs, env, subs.len() as int);
        assert forall|x: SubscriptionId| #[trigger]
            self.receivers(env).contains(x) implies self.subscribers().contains(x) by {
            let m = choose|m: int| 0 <= m < subs.len() && subs[m].id == x;
            assert(self.subscribers()[m] == x);
        }
        assert forall|k: int| 0 <= k < self.subscribers().len() implies (self.receivers(env).contains(
            #[trigger] self.subscribers()[k],
        ) <==> self.handlers()[k].accepts(env)) by {
            assert(self.subscribers()[k] == subs[k].id);
            assert(self.handlers()[k] == subs[k].handler);
        }
    }

    /// Subscribes a handler, called with every envelope the bus hands out
    /// from now on; returns the handle for unsubscribing.
    pub fn subscribe_handler(&mut self, handler: H) -> (id: SubscriptionId)
        requires
            old(self).wf(),
            old(self).next_subscription() < u64::MAX,
        ensures
            final(self).wf(),
            id.0 == old(self).next_subscription(),
            !old(self).subscribers().contains(id),
            final(self).subscribers() == old(self).subscribers().push(id),
            final(self).handlers() == old(self).handlers().push(handler),
            forall|env: EventEnvelope<E>| #[trigger] final(self).receivers(env) == if handler.accepts(env) {
                old(self).receivers(env).push(id)
            } else {
                old(self).receivers(env)
            },
            final(self).next_subscription() == old(self).next_subscription() + 1,
            final(self).pending() == old(self).pending(),
            final(self).next_sequence() == old(self).next_sequence(),
            final(self).deliveries() == old(self).deliveries(),
    {
        let id = SubscriptionId(self.next_sub_id);
        proof {
            if self.subscribers().contains(id) {
                let k = choose|k: int| 0 <= k < self.subscribers().len() && self.subscribers()[k] == id;
                assert(self.subscriptions@[k].id.0 < self.next_sub_id);
            }
        }
        self.next_sub_id = self.next_sub_id + 1;
        let ghost h = handler;
        self.subscriptions.push(Subscription { id, handler });
        proof {
            assert(self.subscribers() =~= old(self).subscribers().push(id));
            assert(self.handlers() =~= old(self).handlers().push(h));
            let o = old(self).subscriptions@;
            let n = self.subscriptions@;
            assert forall|env: EventEnvelope<E>| #[trigger] self.receivers(env) == if h.accepts(env) {
                old(self).receivers(env).push(id)
            } else {
                old(self).receivers(env)
            } by {
                lemma_accepting_prefix(o, n, env, o.len() as int);
            }
        }
        id
    }

    /// The position of the subscription `id`, if there is one.
    fn find_subscription(&self, id: SubscriptionId) -> (r: Option<usize>)
        ensures
            match r {
                Some(k) => k < self.subscribers().len() && self.subscribers()[k as int] == id,
                None => !self.subscribers().contains(id),
            },
    {
        let mut i: usize = 0;
        while i < self.subscriptions.len()
            invariant
                i <= self.subscriptions@.len(),
                forall|k: int| 0 <= k < i ==> (#[trigger] self.subscriptions@[k]).id != id,
            decreases self.subscriptions@.len() - i,
        {
            if self.subscriptions[i].id == id {
                return Some(i);
            }
            i += 1;
        }
        proof {
            if self.subscribers().contains(id) {
                let k = choose|k: int| 0 <= k < self.subscribers().len() && self.subscribers()[k] == id;
                assert(self.subscriptions@[k].id == id);
            }
        }
        None
    }

    /// Removes the subscription `id`; returns whether there was one.
    pub fn unsubscribe(&mut self, id: SubscriptionId) -> (r: bool)
        requires
            old(self).wf(),
        ensures
            final(self).wf(),
            r == old(self).subscribers().contains(id),
            !final(self).subscribers().contains(id),
            r ==> exists|k: int|
                0 <= k < old(self).subscribers().len() && old(self).subscribers()[k] == id
                    && final(self).subscribers() == old(self).subscribers().remove(k),
            !r ==> final(self).subscribers() == old(self).subscribers(),
            r ==> exists|k: int|
                0 <= k < old(self).subscribers().len() && old(self).subscribers()[k] == id
                    && final(self).handlers() == old(self).handlers().remove(k),
            !r ==> final(self).handlers() == old(self).handlers(),
            final(self).next_subscription() == old(self).next_subscription(),
            final(self).pending() == old(self).pending(),
            final(self).next_sequence() == old(self).next_sequence(),
            final(self).deliveries() == old(self).deliveries(),
    {
        match self.find_subscription(id) {
            None => false,
            Some(k) => {
                let _gone = self.subscriptions.remove(k);
                proof {
                    let o = old(self).subscriptions@;
                    let n = self.subscriptions@;
                    assert(self.subscribers() =~= old(self).subscribers().remove(k as int));
                    assert(self.handlers() =~= old(self).handlers().remove(k as int));
                    assert forall|i: int, j: int| 0 <= i < j < n.len() implies
                        (#[trigger] n[i]).id.0 < (#[trigger] n[j]).id.0 by {
                        let oi = if i < k { i } else { i + 1 };
                        let oj = if j < k { j } else { j + 1 };
                        assert(n[i] == o[oi]);
                        assert(n[j] == o[oj]);
                        assert(o[oi].id.0 < o[oj].id.0);
                    }
                    assert forall|i: int| 0 <= i < n.len() implies (#[trigger] n[i]).id.0
                        < self.next_sub_id by {
                        let oi = if i < k { i } else { i + 1 };
                        assert(n[i] == o[oi]);
                    }
                    if self.subscribers().contains(id) {
                        let j = choose|j: int| 0 <= j < self.subscribers().len() && self.subscribers()[j] == id;
                        let oj = if j < k { j } else { j + 1 };
                        assert(n[j] == o[oj]);
                        assert(o[k as int].id == id);
                        if oj < k {
                            assert(o[oj].id.0 < o[k as int].id.0);
                        } else {
                            assert(o[k as int].id.0 < o[oj].id.0);
                        }
                    }
                }
                true
            }
        }
    }

    /// Hands `envelope` to every subscription, in subscription order; it
    /// reaches those whose handler accepts it.
    fn dispatch(&mut self, envelope: &EventEnvelope<E>)
        ensures
            final(self).subscriptions@ == old(self).subscriptions@,
            final(self).next_sub_id == old(self).next_sub_id,
            final(self).next_seq == old(self).next_seq,
            final(self).queue@ == old(self).queue@,
            final(self).delivered@ == old(self).delivered@ + deliveries_of(
                *envelope,
                old(self).receivers(*envelope),
            ),
    {
        let mut i: usize = 0;
        while i < self.subscriptions.len()
            invariant
                i <= self.subscriptions@.len(),
                self.subscriptions@ == old(self).subscriptions@,
                self.next_sub_id == old(self).next_sub_id,
                self.next_seq == old(self).next_seq,
                self.queue@ == old(self).queue@,
                self.delivered@ == old(self).delivered@ + deliveries_of(
                    *envelope,
                    accepting(old(self).subscriptions@, *envelope, i as int),
                ),
            decreases self.subscriptions@.len() - i,
        {
            let passed = self.subscriptions[i].handler.handle(envelope);
            proof {
                let subs = old(self).subscriptions@;
                let p = accepting(subs, *envelope, i as int);
                if passed {
                    assert(deliveries_of(*envelope, p.push(subs[i as int].id)) =~= deliveries_of(
                        *envelope,
                        p,
                    ).push((subs[i as int].id, *envelope)));
                    self.delivered@ = self.delivered@.push((self.subscriptions@[i as int].id, *envelope));
                }
            }
            i += 1;
        }
    }

    /// Publishes an event with metadata: hands it at once to every
    /// subscription, in subscription order, under the next sequence number.
    pub fn publish(&mut self, event: E, metadata: EventMetadata)
        requires
            old(self).wf(),
            old(self).next_sequence() < u64::MAX,
        ensures
            final(self).wf(),
            final(self).subscribers() == old(self).subscribers(),
            final(self).next_subscription() == old(self).next_subscription(),
            final(self).pending() == old(self).pending(),
            final(self).next_sequence() == old(self).next_sequence() + 1,
            final(self).deliveries() == old(self).deliveries() + deliveries_of(
                EventEnvelope { event, metadata, sequence: old(self).next_sequence() },
                old(self).receivers(EventEnvelope { event, metadata, sequence: old(self).next_sequence() }),
            ),
    {
        let seq = self.next_seq;
        self.next_seq = seq + 1;
        let envelope = EventEnvelope::new(event, metadata, seq);
        self.dispatch(&envelope);
    }

    /// Publishes an event with default metadata (`Normal` priority, empty
    /// source, no correlation ID, stamped with the current time).
    pub fn publish_default(&mut self, event: E)
        requires
            old(self).wf(),
            old(self).next_sequence() < u64::MAX,
        ensures
            final(self).wf(),
            final(self).subscribers() == old(self).subscribers(),
            final(self).next_subscription() == old(self).next_subscription(),
            final(self).pending() == old(self).pending(),
            final(self).next_sequence() == old(self).next_sequence() + 1,
            exists|m: EventMetadata|
                {
                    &&& m.source@ == Seq::<char>::empty()
                    &&& m.priority == EventPriority::Normal
                    &&& m.correlation_id is None
                    &&& #[trigger] final(self).deliveries() == old(self).deliveries() + deliveries_of(
                        EventEnvelope { event, metadata: m, sequence: old(self).next_sequence() },
                        old(self).receivers(EventEnvelope { event, metadata: m, sequence: old(self).next_sequence() }),
                    )
                },
    {
        let metadata = EventMetadata::default();
        let ghost m = metadata;
        self.publish(event, metadata);
        proof {
            assert(final(self).deliveries() == old(self).deliveries() + deliveries_of(
                EventEnvelope { event, metadata: m, sequence: old(self).next_sequence() },
                old(self).receivers(EventEnvelope { event, metadata: m, sequence: old(self).next_sequence() }),
            ));
        }
    }

    /// Queues an event under the next sequence number, to be handed out by
    /// `drain_ordered`.
    pub fn enqueue(&mut self, event: E, metadata: EventMetadata)
        requires
            old(self).wf(),
            old(self).next_sequence() < u64::MAX,
        ensures
            final(self).wf(),
            final(self).pending() == old(self).pending().push(
                EventEnvelope { event, metadata, sequence: old(self).next_sequence() },
            ),
            final(self).next_sequence() == old(self).next_sequence() + 1,
            final(self).subscribers() == old(self).subscribers(),
            final(self).next_subscription() == old(self).next_subscription(),
            final(self).deliveries() == old(self).deliveries(),
    {
        let seq = self.next_seq;
        self.next_seq = seq + 1;
        self.queue.push(EventEnvelope::new(event, metadata, seq));
    }

    /// Drops every queued event.
    pub fn clear_queue(&mut self)
        requires
            old(self).wf(),
        ensures
            final(self).wf(),
            final(self).pending() == Seq::<EventEnvelope<E>>::empty(),
            final(self).next_sequence() == old(self).next_sequence(),
            final(self).subscribers() == old(self).subscribers(),
            final(self).next_subscription() == old(self).next_subscription(),
            final(self).deliveries() == old(self).deliveries(),
    {
        self.queue.clear();
    }

    /// The position of the envelope the queue hands out next.
    fn best_position(&self) -> (b: usize)
        requires
            self.queue@.len() > 0,
        ensures
            b < self.queue@.len(),
            b == best_index(self.queue@, self.queue@.len() as int),
    {
        let mut b: usize = 0;
        let mut k: usize = 1;
        while k < self.queue.len()
            invariant
                1 <= k <= self.queue@.len(),
                b < k,
                b == best_index(self.queue@, k as int),
            decreases self.queue@.len() - k,
        {
            if dispatches_before(&self.queue[k], &self.queue[b]) {
                b = k;
            }
            k += 1;
        }
        b
    }

    /// Empties the queue, handing each event to every subscription: the
    /// highest priority first and, within one priority, in the order they
    /// were enqueued. Returns the number of events handed out.
    pub fn drain_ordered(&mut self) -> (count: usize)
        requires
            old(self).wf(),
        ensures
            final(self).wf(),
            count == old(self).pending().len(),
            final(self).pending() == Seq::<EventEnvelope<E>>::empty(),
            final(self).next_sequence() == old(self).next_sequence(),
            final(self).subscribers() == old(self).subscribers(),
            final(self).next_subscription() == old(self).next_subscription(),
            final(self).deliveries() == old(self).deliveries() + fanout(
                drain_order(old(self).pending()),
                |e: EventEnvelope<E>| old(self).receivers(e),
            ),
    {
        let total = self.queue.len();
        let mut count: usize = 0;
        while self.queue.len() > 0
            invariant
                self.wf(),
                self.subscriptions@ == old(self).subscriptions@,
                self.next_sub_id == old(self).next_sub_id,
                self.next_seq == old(self).next_seq,
                total == old(self).queue@.len(),
                count + self.queue@.len() == total,
                self.delivered@ + fanout(drain_order(self.queue@), |e: EventEnvelope<E>| old(self).receivers(e))
                    == old(self).delivered@ + fanout(
                    drain_order(old(self).queue@),
                    |e: EventEnvelope<E>| old(self).receivers(e),
                ),
            decreases self.queue@.len(),
        {
            let ghost q = self.queue@;
            let ghost before = self.delivered@;
            let b = self.best_position();
            let envelope = self.queue.remove(b);
            self.dispatch(&envelope);
            count += 1;
            proof {
                let subs = |e: EventEnvelope<E>| old(self).receivers(e);
                let rest = q.remove(b as int);
                assert(self.queue@ == rest);
                assert(drain_order(q) == seq![q[b as int]] + drain_order(rest));
                let d = seq![q[b as int]] + drain_order(rest);
                assert(d.drop_first() =~= drain_order(rest));
                assert(fanout(d, subs) == deliveries_of(q[b as int], subs(q[b as int])) + fanout(drain_order(rest), subs));
                assert(self.delivered@ == before + deliveries_of(envelope, subs(envelope)));
                assert(before + fanout(d, subs) =~= self.delivered@ + fanout(drain_order(rest), subs));
                assert forall|i: int, j: int| 0 <= i < j < rest.len() implies
                    (#[trigger] rest[i]).sequence < (#[trigger] rest[j]).sequence by {
                    let oi = if i < b { i } else { i + 1 };
                    let oj = if j < b { j } else { j + 1 };
                    assert(rest[i] == q[oi]);
                    assert(rest[j] == q[oj]);
                }
                assert forall|i: int| 0 <= i < rest.len() implies (#[trigger] rest[i]).sequence
                    < self.next_seq by {
                    let oi = if i < b { i } else { i + 1 };
                    assert(rest[i] == q[oi]);
                }
            }
        }
        proof {
            assert(drain_order(self.queue@) =~= Seq::<EventEnvelope<E>>::empty());
            assert(self.delivered@ + fanout(Seq::<EventEnvelope<E>>::empty(), |e: EventEnvelope<E>| old(self).receivers(e))
                =~= self.delivered@);
        }
        count
    }

    /// A short description: `EventBus { subscriptions: N, queue_len: M, .. }`.
    pub fn describe(&self) -> (r: String)
        ensures
            r@ == "EventBus { subscriptions: "@ + decimal(self.subscribers().len()) + ", queue_len: "@
                + decimal(self.pending().len()) + ", .. }"@,
    {
        let subs = u64_to_string(self.subscriptions.len() as u64);
        let queued = u64_to_string(self.queue.len() as u64);
        let a = concat_str("EventBus { subscriptions: ", subs.as_str());
        let b = concat_str(a.as_str(), ", queue_len: ");
        let c = concat_str(b.as_str(), queued.as_str());
        concat_str(c.as_str(), ", .. }")
    }
}

impl<E, F: Fn(&EventEnvelope<E>)> EventBus<E, FnHandler<E, F>> {
    /// Subscribes a callback, called with every envelope the bus hands out
    /// from now on; returns the handle for unsubscribing.
    pub fn subscribe(&mut self, handler: F) -> (id: SubscriptionId)
        requires
            old(self).wf(),
            old(self).next_subscription() < u64::MAX,
            forall|env: &EventEnvelope<E>| call_requires(handler, (env,)),
        ensures
            final(self).wf(),
            id.0 == old(self).next_subscription(),
            !old(self).subscribers().contains(id),
            final(self).subscribers() == old(self).subscribers().push(id),
            final(self).handlers().last().function() == handler,
            forall|env: EventEnvelope<E>| #[trigger] final(self).receivers(env) == old(self).receivers(env).push(id),
            final(self).next_subscription() == old(self).next_subscription() + 1,
            final(self).pending() == old(self).pending(),
            final(self).next_sequence() == old(self).next_sequence(),
            final(self).deliveries() == old(self).deliveries(),
    {
        self.subscribe_handler(FnHandler::new(handler))
    }
}

impl<E, H> Default for EventBus<E, H> {
    /// An empty bus, as `new`.
    fn default() -> (r: Self)
        ensures
            r.wf(),
            r.subscribers() == Seq::<SubscriptionId>::empty(),
            r.pending() == Seq::<EventEnvelope<E>>::empty(),
            r.deliveries() == Seq::<(SubscriptionId, EventEnvelope<E>)>::empty(),
            r.next_subscription() == 1,
            r.next_sequence() == 1,
    {
        Self::new()
    }
}

// ── Laws ───────────────────────────────────────────────────────────────

/// No two envelopes of `q` share a sequence number.
pub open spec fn distinct_sequences<E>(q: Seq<EventEnvelope<E>>) -> bool {
    forall|i: int, j: int|
        0 <= i < q.len() && 0 <= j < q.len() && i != j ==> (#[trigger] q[i]).sequence
            != (#[trigger] q[j]).sequence
}

/// `best_index(q, n)` lies among the first `n` envelopes, and none of those
/// is handed out before it.
proof fn lemma_best_index<E>(q: Seq<EventEnvelope<E>>, n: int)
    requires
        1 <= n <= q.len(),
    ensures
        0 <= best_index(q, n) < n,
        forall|j: int| 0 <= j < n ==> !dispatched_before(#[trigger] q[j], q[best_index(q, n)]),
    decreases n,
{
    if n > 1 {
        lemma_best_index(q, n - 1);
    }
}

/// Draining order holds each envelope of `q` once, and hands out every
/// envelope before each that follows it.
proof fn lemma_drain_order<E>(q: Seq<EventEnvelope<E>>)
    requires
        distinct_sequences(q),
    ensures
        drain_order(q).to_multiset() == q.to_multiset(),
        forall|i: int, j: int|
            0 <= i < j < drain_order(q).len() ==> dispatched_before(
                #[trigger] drain_order(q)[i],
                #[trigger] drain_order(q)[j],
            ),
    decreases q.len(),
{
    broadcast use vstd::seq_lib::group_to_multiset_ensures;
    broadcast use vstd::multiset::group_multiset_axioms;

    if q.len() == 0 {
        assert(drain_order(q).to_multiset() =~= q.to_multiset());
    } else {
        let b = best_index(q, q.len() as int);
        lemma_best_index(q, q.len() as int);
        let rest = q.remove(b);
        assert forall|i: int, j: int|
            0 <= i < rest.len() && 0 <= j < rest.len() && i != j implies (#[trigger] rest[i]).sequence
                != (#[trigger] rest[j]).sequence by {
            let oi = if i < b { i } else { i + 1 };
            let oj = if j < b { j } else { j + 1 };
            assert(rest[i] == q[oi]);
            assert(rest[j] == q[oj]);
        }
        lemma_drain_order(rest);
        let dr = drain_order(rest);
        let d = drain_order(q);
        assert(d == seq![q[b]] + dr);
        vstd::seq_lib::lemma_multiset_commutative(seq![q[b]], dr);
        assert(seq![q[b]].to_multiset() =~= vstd::multiset::Multiset::<EventEnvelope<E>>::empty().insert(q[b])) by {
            assert(seq![q[b]] =~= Seq::<EventEnvelope<E>>::empty().push(q[b]));
        }
        assert(rest.to_multiset() == q.to_multiset().remove(q[b]));
        assert(q.to_multiset().count(q[b]) > 0) by {
            assert(q.contains(q[b]));
        }
        assert(d.to_multiset() =~= q.to_multiset());
        assert forall|i: int, j: int| 0 <= i < j < d.len() implies dispatched_before(
            #[trigger] d[i],
            #[trigger] d[j],
        ) by {
            if i > 0 {
                assert(d[i] == dr[i - 1]);
                assert(d[j] == dr[j - 1]);
            } else {
                assert(d[j] == dr[j - 1]);
                assert(dr.contains(dr[j - 1]));
                assert(dr.to_multiset().count(dr[j - 1]) > 0);
                assert(rest.contains(dr[j - 1]));
                let k = choose|k: int| 0 <= k < rest.len() && rest[k] == dr[j - 1];
                let ok = if k < b { k } else { k + 1 };
                assert(rest[k] == q[ok]);
                assert(!dispatched_before(q[ok], q[b]));
                assert(q[ok].sequence != q[b].sequence);
            }
        }
    }
}

/// Draining hands out each queued event exactly once, the highest priority
/// first and, within one priority, in the order they were enqueued.
pub proof fn law_drain_in_priority_order<E, H>(bus: EventBus<E, H>)
    requires
        bus.wf(),
    ensures
        drain_order(bus.pending()).to_multiset() == bus.pending().to_multiset(),
        forall|i: int, j: int|
            0 <= i < j < drain_order(bus.pending()).len() ==> dispatched_before(
                #[trigger] drain_order(bus.pending())[i],
                #[trigger] drain_order(bus.pending())[j],
            ),
        forall|i: int, j: int|
            0 <= i < j < bus.pending().len() && bus.pending()[i].metadata.priority
                == bus.pending()[j].metadata.priority ==> dispatched_before(
                #[trigger] bus.pending()[i],
                #[trigger] bus.pending()[j],
            ),
{
    let q = bus.pending();
    assert forall|i: int, j: int|
        0 <= i < q.len() && 0 <= j < q.len() && i != j implies (#[trigger] q[i]).sequence
            != (#[trigger] q[j]).sequence by {
        if i < j {
            assert(bus.queue@[i].sequence < bus.queue@[j].sequence);
        } else {
            assert(bus.queue@[j].sequence < bus.queue@[i].sequence);
        }
    }
    lemma_drain_order(q);
}

/// A publish hands the event to each subscription it reaches, once each,
/// in subscription order.
pub proof fn law_publish_delivers_once_to_each_receiver<E>(
    env: EventEnvelope<E>,
    receivers: Seq<SubscriptionId>,
)
    ensures
        deliveries_of(env, receivers).len() == receivers.len(),
        forall|k: int| 0 <= k < receivers.len() ==> #[trigger] deliveries_of(env, receivers)[k] == (receivers[k], env),
{
}

/// The subscriptions among the first `n` whose handler accepts `env` are
/// those of the first `n` subscriptions, each at most once, in order; and
/// each of those subscriptions is among them exactly when its handler
/// accepts `env`.
proof fn lemma_accepting<E, H: EventHandler<E>>(subs: Seq<Subscription<H>>, env: EventEnvelope<E>, n: int)
    requires
        0 <= n <= subs.len(),
        forall|i: int, j: int| 0 <= i < j < subs.len() ==> (#[trigger] subs[i]).id.0 < (#[trigger] subs[j]).id.0,
    ensures
        forall|x: SubscriptionId| #[trigger] accepting(subs, env, n).contains(x) ==> exists|m: int|
            0 <= m < n && subs[m].id == x,
        forall|k: int| 0 <= k < n ==> (accepting(subs, env, n).contains(#[trigger] subs[k].id)
            <==> subs[k].handler.accepts(env)),
        forall|i: int, j: int|
            0 <= i < j < accepting(subs, env, n).len() ==> (#[trigger] accepting(subs, env, n)[i]).0
                < (#[trigger] accepting(subs, env, n)[j]).0,
    decreases n,
{
    if n > 0 {
        lemma_accepting(subs, env, n - 1);
        let p = accepting(subs, env, n - 1);
        let x = subs[n - 1].id;
        assert(!p.contains(x)) by {
            if p.contains(x) {
                let m = choose|m: int| 0 <= m < n - 1 && subs[m].id == x;
                assert(subs[m].id.0 < subs[n - 1].id.0);
            }
        }
        let a = accepting(subs, env, n);
        assert forall|y: SubscriptionId| #[trigger] a.contains(y) implies exists|m: int|
            0 <= m < n && subs[m].id == y by {
            if p.contains(y) {
                let m = choose|m: int| 0 <= m < n - 1 && subs[m].id == y;
                assert(0 <= m < n && subs[m].id == y);
            } else {
                let w = choose|w: int| 0 <= w < a.len() && a[w] == y;
                assert(a[w] == x);
            }
        }
        assert forall|k: int| 0 <= k < n implies (a.contains(#[trigger] subs[k].id)
            <==> subs[k].handler.accepts(env)) by {
            if k < n - 1 {
                assert(subs[k].id != x) by {
                    assert(subs[k].id.0 < subs[n - 1].id.0);
                }
                if subs[n - 1].handler.accepts(env) {
                    if a.contains(subs[k].id) {
                        let w = choose|w: int| 0 <= w < a.len() && a[w] == subs[k].id;
                        assert(w < p.len());
                        assert(p[w] == subs[k].id);
                    }
                    if p.contains(subs[k].id) {
                        let w = choose|w: int| 0 <= w < p.len() && p[w] == subs[k].id;
                        assert(a[w] == subs[k].id);
                    }
                }
            } else {
                if subs[n - 1].handler.accepts(env) {
                    assert(a[a.len() - 1] == x);
                }
            }
        }
        if subs[n - 1].handler.accepts(env) {
            assert forall|i: int, j: int| 0 <= i < j < a.len() implies (#[trigger] a[i]).0 < (#[trigger] a[j]).0 by {
                if j == a.len() - 1 {
                    assert(p.contains(p[i]));
                    let m = choose|m: int| 0 <= m < n - 1 && subs[m].id == p[i];
                    assert(subs[m].id.0 < subs[n - 1].id.0);
                } else {
                    assert(a[i] == p[i]);
                    assert(a[j] == p[j]);
                }
            }
        }
    }
}

/// Adding subscriptions at the end changes nothing before them.
proof fn lemma_accepting_prefix<E, H: EventHandler<E>>(
    o: Seq<Subscription<H>>,
    n: Seq<Subscription<H>>,
    env: EventEnvelope<E>,
    k: int,
)
    requires
        0 <= k <= o.len() <= n.len(),
        forall|i: int| 0 <= i < o.len() ==> #[trigger] n[i] == o[i],
    ensures
        accepting(n, env, k) == accepting(o, env, k),
    decreases k,
{
    if k > 0 {
        lemma_accepting_prefix(o, n, env, k - 1);
        assert(n[k - 1] == o[k - 1]);
    }
}

} // verus!
