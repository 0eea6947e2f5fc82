//! Event filters: composable predicates over event envelopes.

use vstd::prelude::*;
use crate::event_bus::{
    EventBus, EventEnvelope, EventHandler, EventPriority, SubscriptionId, priority_rank,
    priority_name,
};
use crate::text::{concat_str, decimal, str_eq, u64_to_string};

verus! {

// ── EventFilter trait ──────────────────────────────────────────────────

/// Predicate that tests whether an event envelope should be processed.
pub trait EventFilter<E> {
    /// Whether the filter accepts `envelope`.
    spec fn accepts(&self, envelope: EventEnvelope<E>) -> bool;

    /// Returns `true` if the envelope matches this filter.
    fn matches(&self, envelope: &EventEnvelope<E>) -> (r: bool)
        ensures
            r == self.accepts(*envelope),
    ;
}

// ── Categories ─────────────────────────────────────────────────────────

/// Categorization of events for filtering purposes.
#[derive(Debug, Clone, Copy, PartialEq, Eq, Hash, Structural)]
pub enum EventCategory {
    Message,
    Tool,
    Permission,
    Compact,
    Token,
    Memory,
    Session,
    Agent,
    Error,
}

/// The lowercase name of a category.
pub open spec fn category_name(c: EventCategory) -> Seq<char> {
    match c {
        EventCategory::Message => "message"@,
        EventCategory::Tool => "tool"@,
        EventCategory::Permission => "permission"@,
        EventCategory::Compact => "compact"@,
        EventCategory::Token => "token"@,
        EventCategory::Memory => "memory"@,
        EventCategory::Session => "session"@,
        EventCategory::Agent => "agent"@,
        EventCategory::Error => "error"@,
    }
}

impl EventCategory {
    /// The lowercase name: `message`, `tool`, `permission`, `compact`,
    /// `token`, `memory`, `session`, `agent` or `error`.
    pub fn to_string(&self) -> (r: String)
        ensures
            r@ == category_name(*self),
    {
        match self {
            EventCategory::Message => "message".to_owned(),
            EventCategory::Tool => "tool".to_owned(),
            EventCategory::Permission => "permission".to_owned(),
            EventCategory::Compact => "compact".to_owned(),
            EventCategory::Token => "token".to_owned(),
            EventCategory::Memory => "memory".to_owned(),
            EventCategory::Session => "session".to_owned(),
            EventCategory::Agent => "agent".to_owned(),
            EventCategory::Error => "error".to_owned(),
        }
    }
}

/// The kinds of event the engine emits, one per event variant.
#[derive(Debug, Clone, Copy, PartialEq, Eq, Hash, Structural)]
pub enum EventKind {
    TurnStart,
    MessageStart,
    ContentDelta,
    ContentBlockStop,
    MessageEnd,
    ToolUseStart,
    ToolUseInput,
    ToolResult,
    PermissionRequest,
    PermissionResponse,
    CompactStart,
    CompactEnd,
    TokenWarning,
    MemoryLoaded,
    MemorySaved,
    SessionSaved,
    SessionResumed,
    AgentWorkerStarted,
    AgentWorkerCompleted,
    Error,
}

/// The category of each kind of event.
pub open spec fn kind_category(k: EventKind) -> EventCategory {
    match k {
        EventKind::TurnStart | EventKind::MessageStart | EventKind::ContentDelta
        | EventKind::ContentBlockStop | EventKind::MessageEnd => EventCategory::Message,
        EventKind::ToolUseStart | EventKind::ToolUseInput | EventKind::ToolResult => EventCategory::Tool,
        EventKind::PermissionRequest | EventKind::PermissionResponse => EventCategory::Permission,
        EventKind::CompactStart | EventKind::CompactEnd => EventCategory::Compact,
        EventKind::TokenWarning => EventCategory::Token,
        EventKind::MemoryLoaded | EventKind::MemorySaved => EventCategory::Memory,
        EventKind::SessionSaved | EventKind::SessionResumed => EventCategory::Session,
        EventKind::AgentWorkerStarted | EventKind::AgentWorkerCompleted => EventCategory::Agent,
        EventKind::Error => EventCategory::Error,
    }
}

/// The category of a kind of event.
pub fn category_of_kind(k: EventKind) -> (c: EventCategory)
    ensures
        c == kind_category(k),
{
    match k {
        EventKind::TurnStart | EventKind::MessageStart | EventKind::ContentDelta
        | EventKind::ContentBlockStop | EventKind::MessageEnd => EventCategory::Message,
        EventKind::ToolUseStart | EventKind::ToolUseInput | EventKind::ToolResult => EventCategory::Tool,
        EventKind::PermissionRequest | EventKind::PermissionResponse => EventCategory::Permission,
        EventKind::CompactStart | EventKind::CompactEnd => EventCategory::Compact,
        EventKind::TokenWarning => EventCategory::Token,
        EventKind::MemoryLoaded | EventKind::MemorySaved => EventCategory::Memory,
        EventKind::SessionSaved | EventKind::SessionResumed => EventCategory::Session,
        EventKind::AgentWorkerStarted | EventKind::AgentWorkerCompleted => EventCategory::Agent,
        EventKind::Error => EventCategory::Error,
    }
}

/// An event type that tells the kind of each of its values.
pub trait HasEventKind {
    /// The kind of this event.
    spec fn kind(&self) -> EventKind;

    /// Returns the kind of this event.
    fn event_kind(&self) -> (k: EventKind)
        ensures
            k == self.kind(),
    ;
}

impl HasEventKind for EventKind {
    open spec fn kind(&self) -> EventKind {
        *self
    }

    fn event_kind(&self) -> (k: EventKind) {
        *self
    }
}

/// Classify an event into its category.
pub fn event_category<T: HasEventKind>(event: &T) -> (c: EventCategory)
    ensures
        c == kind_category(event.kind()),
{
    category_of_kind(event.event_kind())
}

/// Whether `c` is one of `cats`.
fn categories_contain(cats: &Vec<EventCategory>, c: EventCategory) -> (r: bool)
    ensures
        r == cats@.contains(c),
{
    let mut i: usize = 0;
    while i < cats.len()
        invariant
            i <= cats@.len(),
            forall|k: int| 0 <= k < i ==> cats@[k] != c,
        decreases cats@.len() - i,
    {
        if cats[i] == c {
            proof {
                assert(cats@[i as int] == c);
            }
            return true;
        }
        i += 1;
    }
    false
}

// ── TypeFilter ─────────────────────────────────────────────────────────

/// Filter events by their category.
#[derive(Debug, Clone)]
pub struct TypeFilter {
    categories: Vec<EventCategory>,
}

impl TypeFilter {
    /// The categories the filter accepts.
    pub closed spec fn categories(&self) -> Seq<EventCategory> {
        self.categories@
    }

    /// Accept events matching any of the given categories.
    pub fn new(categories: Vec<EventCategory>) -> (r: Self)
        ensures
            r.categories() == categories@,
    {
        TypeFilter { categories }
    }

    /// Accept events of one category.
    pub fn single(category: EventCategory) -> (r: Self)
        ensures
            r.categories() == seq![category],
    {
        let r = TypeFilter { categories: vec![category] };
        proof {
            assert(r.categories() =~= seq![category]);
        }
        r
    }

    /// Whether the filter accepts events of kind `k`.
    pub fn matches_kind(&self, k: EventKind) -> (r: bool)
        ensures
            r == self.categories().contains(kind_category(k)),
    {
        categories_contain(&self.categories, category_of_kind(k))
    }
}

impl<E: HasEventKind> EventFilter<E> for TypeFilter {
    open spec fn accepts(&self, envelope: EventEnvelope<E>) -> bool {
        self.categories().contains(kind_category(envelope.event.kind()))
    }

    fn matches(&self, envelope: &EventEnvelope<E>) -> (r: bool) {
        self.matches_kind(envelope.event.event_kind())
    }
}

// ── PriorityFilter ─────────────────────────────────────────────────────

/// Filter events by minimum priority level.
#[derive(Debug, Clone)]
pub struct PriorityFilter {
    min_priority: EventPriority,
}

impl PriorityFilter {
    /// The lowest priority the filter accepts.
    pub closed spec fn min_priority(&self) -> EventPriority {
        self.min_priority
    }

    /// Accept events of `min_priority` or higher.
    pub fn new(min_priority: EventPriority) -> (r: Self)
        ensures
            r.min_priority() == min_priority,
    {
        PriorityFilter { min_priority }
    }
}

impl<E> EventFilter<E> for PriorityFilter {
    open spec fn accepts(&self, envelope: EventEnvelope<E>) -> bool {
        priority_rank(envelope.metadata.priority) >= priority_rank(self.min_priority())
    }

    fn matches(&self, envelope: &EventEnvelope<E>) -> (r: bool) {
        envelope.metadata.priority.rank() >= self.min_priority.rank()
    }
}

// ── SourceFilter ───────────────────────────────────────────────────────

/// Filter events by source component name.
#[derive(Debug, Clone)]
pub struct SourceFilter {
    source: String,
}

impl SourceFilter {
    /// The source the filter accepts.
    pub closed spec fn source(&self) -> Seq<char> {
        self.source@
    }

    /// Accept events from `source` exactly.
    pub fn new(source: &str) -> (r: Self)
        ensures
            r.source() == source@,
    {
        SourceFilter { source: source.to_owned() }
    }
}

impl<E> EventFilter<E> for SourceFilter {
    open spec fn accepts(&self, envelope: EventEnvelope<E>) -> bool {
        envelope.metadata.source@ == self.source()
    }

    fn matches(&self, envelope: &EventEnvelope<E>) -> (r: bool) {
        str_eq(envelope.metadata.source.as_str(), self.source.as_str())
    }
}

// ── CompositeFilter ────────────────────────────────────────────────────

/// Combinator mode for composite filters.
#[derive(Debug, Clone, Copy, PartialEq, Eq, Structural)]
pub enum FilterMode {
    /// All child filters must match.
    And,
    /// At least one child filter must match.
    Or,
}

/// The custom-filter type of a composite that holds only the filters of
/// this module. It has no public constructor, so no composite holds one.
#[derive(Debug)]
pub struct NoCustomFilter {
    none: (),
}

impl<E> EventFilter<E> for NoCustomFilter {
    open spec fn accepts(&self, envelope: EventEnvelope<E>) -> bool {
        false
    }

    fn matches(&self, envelope: &EventEnvelope<E>) -> (r: bool) {
        false
    }
}

/// A child of a composite filter: one of the filters of this module, or a
/// filter of the caller's type `U`.
#[derive(Debug)]
#[verifier::reject_recursive_types(U)]
pub enum AnyFilter<U = NoCustomFilter> {
    Type(TypeFilter),
    Priority(PriorityFilter),
    Source(SourceFilter),
    Composite(CompositeFilter<U>),
    Custom(U),
}

/// Combines several filters with AND or OR logic; its children may include
/// filters of the caller's type `U`.
#[derive(Debug)]
#[verifier::reject_recursive_types(U)]
pub struct CompositeFilter<U = NoCustomFilter> {
    mode: FilterMode,
    filters: Vec<AnyFilter<U>>,
}

/// Whether the filter `f` accepts `env`. A composite filter with no
/// children accepts everything; otherwise an AND needs every child to
/// accept, an OR at least one.
pub open spec fn filter_accepts<E: HasEventKind, U: EventFilter<E>>(f: AnyFilter<U>, env: EventEnvelope<E>) -> bool
    decreases f,
{
    match f {
        AnyFilter::Type(t) => t.categories().contains(kind_category(env.event.kind())),
        AnyFilter::Priority(p) => priority_rank(env.metadata.priority) >= priority_rank(
            p.min_priority(),
        ),
        AnyFilter::Source(s) => env.metadata.source@ == s.source(),
        AnyFilter::Custom(u) => u.accepts(env),
        AnyFilter::Composite(c) => {
            let kids = c.children();
            ||| kids.len() == 0
            ||| c.mode() == FilterMode::And && forall|i: int|
                0 <= i < kids.len() ==> filter_accepts(#[trigger] kids[i], env)
            ||| c.mode() == FilterMode::Or && exists|i: int|
                0 <= i < kids.len() && filter_accepts(#[trigger] kids[i], env)
        },
    }
}

impl CompositeFilter<NoCustomFilter> {
    /// A composite of no filters yet.
    pub fn new(mode: FilterMode) -> (r: Self)
        ensures
            r.mode() == mode,
            r.children() == Seq::<AnyFilter<NoCustomFilter>>::empty(),
    {
        CompositeFilter { mode, filters: Vec::new() }
    }
}

impl<U> CompositeFilter<U> {
    /// How the children are combined.
    pub closed spec fn mode(&self) -> FilterMode {
        self.mode
    }

    /// The child filters, in the order they were added.
    pub closed spec fn children(&self) -> Seq<AnyFilter<U>> {
        self.filters@
    }

    /// A composite of no filters yet, which may also take filters of the
    /// caller's type `U`.
    pub fn new_custom(mode: FilterMode) -> (r: Self)
        ensures
            r.mode() == mode,
            r.children() == Seq::<AnyFilter<U>>::empty(),
    {
        CompositeFilter { mode, filters: Vec::new() }
    }

    /// The same composite with one more child filter of the caller's type
    /// (builder pattern).
    pub fn with_custom(self, filter: U) -> (r: Self)
        ensures
            r.mode() == self.mode(),
            r.children() == self.children().push(AnyFilter::Custom(filter)),
    {
        let mut r = self;
        r.add_custom(filter);
        r
    }

    /// Adds a child filter of the caller's type.
    pub fn add_custom(&mut self, filter: U)
        ensures
            final(self).mode() == old(self).mode(),
            final(self).children() == old(self).children().push(AnyFilter::Custom(filter)),
    {
        self.filters.push(AnyFilter::Custom(filter));
    }

    /// The same composite with one more child filter (builder pattern).
    pub fn with<G>(self, filter: G) -> (r: Self) where AnyFilter<U>: From<G>
        ensures
            r.mode() == self.mode(),
            r.children().len() == self.children().len() + 1,
            r.children().drop_last() == self.children(),
            <AnyFilter<U> as vstd::std_specs::convert::FromSpec<G>>::obeys_from_spec() ==> r.children().last()
                == <AnyFilter<U> as vstd::std_specs::convert::FromSpec<G>>::from_spec(filter),
    {
        let mut r = self;
        r.add(filter);
        r
    }

    /// Adds a child filter.
    pub fn add<G>(&mut self, filter: G) where AnyFilter<U>: From<G>
        ensures
            final(self).mode() == old(self).mode(),
            final(self).children().len() == old(self).children().len() + 1,
            final(self).children().drop_last() == old(self).children(),
            <AnyFilter<U> as vstd::std_specs::convert::FromSpec<G>>::obeys_from_spec()
                ==> final(self).children().last()
                == <AnyFilter<U> as vstd::std_specs::convert::FromSpec<G>>::from_spec(filter),
    {
        let child = AnyFilter::from(filter);
        self.filters.push(child);
        proof {
            assert(self.filters@.drop_last() =~= old(self).filters@);
        }
    }

    /// Number of child filters.
    pub fn len(&self) -> (n: usize)
        ensures
            n == self.children().len(),
    {
        self.filters.len()
    }

    /// Whether there are no child filters.
    pub fn is_empty(&self) -> (r: bool)
        ensures
            r == (self.children().len() == 0),
    {
        self.filters.len() == 0
    }

    /// A short description: `CompositeFilter { mode: And, count: N }` (or
    /// `Or`).
    pub fn describe(&self) -> (r: String)
        ensures
            r@ == "CompositeFilter { mode: "@ + (if self.mode() == FilterMode::And {
                "And"@
            } else {
                "Or"@
            }) + ", count: "@ + decimal(self.children().len()) + " }"@,
    {
        let mode = match self.mode {
            FilterMode::And => "And",
            FilterMode::Or => "Or",
        };
        let count = u64_to_string(self.filters.len() as u64);
        let a = concat_str("CompositeFilter { mode: ", mode);
        let b = concat_str(a.as_str(), ", count: ");
        let c = concat_str(b.as_str(), count.as_str());
        concat_str(c.as_str(), " }")
    }
}

/// Whether `f` accepts `envelope`.
fn any_filter_matches<E: HasEventKind, U: EventFilter<E>>(f: &AnyFilter<U>, envelope: &EventEnvelope<E>) -> (r: bool)
    ensures
        r == filter_accepts(*f, *envelope),
    decreases f,
{
    match f {
        AnyFilter::Type(t) => t.matches_kind(envelope.event.event_kind()),
        AnyFilter::Priority(p) => envelope.metadata.priority.rank() >= p.min_priority.rank(),
        AnyFilter::Source(s) => str_eq(envelope.metadata.source.as_str(), s.source.as_str()),
        AnyFilter::Composite(c) => composite_matches(c, envelope),
        AnyFilter::Custom(u) => u.matches(envelope),
    }
}

/// Whether the composite `c` accepts `envelope`; children are asked in
/// order until the answer is settled.
fn composite_matches<E: HasEventKind, U: EventFilter<E>>(c: &CompositeFilter<U>, envelope: &EventEnvelope<E>) -> (r: bool)
    ensures
        r == filter_accepts(AnyFilter::Composite(*c), *envelope),
    decreases c,
{
    let n = c.filters.len();
    if n == 0 {
        return true;
    }
    let and = match c.mode {
        FilterMode::And => true,
        FilterMode::Or => false,
    };
    let mut i: usize = 0;
    while i < n
        invariant
            n == c.filters@.len(),
            i <= n,
            and == (c.mode == FilterMode::And),
            forall|k: int| 0 <= k < i ==> filter_accepts(#[trigger] c.filters@[k], *envelope) == and,
        decreases n - i,
    {
        proof {
            assert(decreases_to!(c => c.filters));
            assert(decreases_to!(c.filters => c.filters@));
        }
        let m = any_filter_matches(&c.filters[i], envelope);
        if m != and {
            proof {
                assert(filter_accepts(c.filters@[i as int], *envelope) == m);
                assert(c.children()[i as int] == c.filters@[i as int]);
            }
            return m;
        }
        i += 1;
    }
    and
}

impl<E: HasEventKind, U: EventFilter<E>> EventFilter<E> for AnyFilter<U> {
    open spec fn accepts(&self, envelope: EventEnvelope<E>) -> bool {
        filter_accepts(*self, envelope)
    }

    fn matches(&self, envelope: &EventEnvelope<E>) -> (r: bool) {
        any_filter_matches(self, envelope)
    }
}

impl<E: HasEventKind, U: EventFilter<E>> EventFilter<E> for CompositeFilter<U> {
    open spec fn accepts(&self, envelope: EventEnvelope<E>) -> bool {
        filter_accepts(AnyFilter::Composite(*self), envelope)
    }

    fn matches(&self, envelope: &EventEnvelope<E>) -> (r: bool) {
        composite_matches(self, envelope)
    }
}

impl<U> From<TypeFilter> for AnyFilter<U> {
    fn from(f: TypeFilter) -> (r: Self) {
        AnyFilter::Type(f)
    }
}

impl<U> vstd::std_specs::convert::FromSpecImpl<TypeFilter> for AnyFilter<U> {
    open spec fn obeys_from_spec() -> bool {
        true
    }

    open spec fn from_spec(f: TypeFilter) -> Self {
        AnyFilter::Type(f)
    }
}

impl<U> From<PriorityFilter> for AnyFilter<U> {
    fn from(f: PriorityFilter) -> (r: Self) {
        AnyFilter::Priority(f)
    }
}

impl<U> vstd::std_specs::convert::FromSpecImpl<PriorityFilter> for AnyFilter<U> {
    open spec fn obeys_from_spec() -> bool {
        true
    }

    open spec fn from_spec(f: PriorityFilter) -> Self {
        AnyFilter::Priority(f)
    }
}

impl<U> From<SourceFilter> for AnyFilter<U> {
    fn from(f: SourceFilter) -> (r: Self) {
        AnyFilter::Source(f)
    }
}

impl<U> vstd::std_specs::convert::FromSpecImpl<SourceFilter> for AnyFilter<U> {
    open spec fn obeys_from_spec() -> bool {
        true
    }

    open spec fn from_spec(f: SourceFilter) -> Self {
        AnyFilter::Source(f)
    }
}

impl<U> From<CompositeFilter<U>> for AnyFilter<U> {
    fn from(f: CompositeFilter<U>) -> (r: Self) {
        AnyFilter::Composite(f)
    }
}

impl<U> vstd::std_specs::convert::FromSpecImpl<CompositeFilter<U>> for AnyFilter<U> {
    open spec fn obeys_from_spec() -> bool {
        true
    }

    open spec fn from_spec(f: CompositeFilter<U>) -> Self {
        AnyFilter::Composite(f)
    }
}

// ── FilteredSubscription ───────────────────────────────────────────────

/// A subscription that only fires when a filter matches.
pub struct FilteredSubscription {
    /// The subscription ID in the bus.
    pub id: SubscriptionId,
}

/// A handler that calls a closure with the envelopes a filter accepts.
pub struct FilteredHandler<E, Fl: EventFilter<E>, F: Fn(&EventEnvelope<E>)> {
    filter: Fl,
    f: F,
    event: core::marker::PhantomData<E>,
}

impl<E, Fl: EventFilter<E>, F: Fn(&EventEnvelope<E>)> FilteredHandler<E, Fl, F> {
    /// The closure accepts every envelope.
    #[verifier::type_invariant]
    spec fn total(self) -> bool {
        forall|env: &EventEnvelope<E>| call_requires(self.f, (env,))
    }

    /// The filter deciding which envelopes reach the closure.
    pub closed spec fn filter(&self) -> Fl {
        self.filter
    }

    /// A handler calling `f` with the envelopes `filter` accepts; `f` must
    /// accept every envelope.
    pub fn new(filter: Fl, f: F) -> (r: Self)
        requires
            forall|env: &EventEnvelope<E>| call_requires(f, (env,)),
        ensures
            r.filter() == filter,
    {
        FilteredHandler { filter, f, event: core::marker::PhantomData }
    }
}

impl<E, Fl: EventFilter<E>, F: Fn(&EventEnvelope<E>)> EventHandler<E> for FilteredHandler<E, Fl, F> {
    /// The envelopes the filter accepts reach the closure.
    open spec fn accepts(&self, envelope: EventEnvelope<E>) -> bool {
        self.filter().accepts(envelope)
    }

    fn handle(&self, envelope: &EventEnvelope<E>) -> (passed: bool) {
        proof {
            use_type_invariant(self);
        }
        if self.filter.matches(envelope) {
            (self.f)(envelope);
            true
        } else {
            false
        }
    }
}

impl<E, Fl: EventFilter<E>, F: Fn(&EventEnvelope<E>)> EventBus<E, FilteredHandler<E, Fl, F>> {
    /// Subscribe with a filter: the handler is only called for the events
    /// the filter accepts. From now on an envelope reaches the new
    /// subscription exactly when `filter` accepts it.
    pub fn subscribe_filtered(&mut self, filter: Fl, handler: F) -> (r: FilteredSubscription)
        requires
            old(self).wf(),
            old(self).next_subscription() < u64::MAX,
            forall|env: &EventEnvelope<E>| call_requires(handler, (env,)),
        ensures
            final(self).wf(),
            r.id.0 == old(self).next_subscription(),
            !old(self).subscribers().contains(r.id),
            final(self).subscribers() == old(self).subscribers().push(r.id),
            final(self).handlers().last().filter() == filter,
            forall|env: EventEnvelope<E>| #[trigger] final(self).receivers(env) == if filter.accepts(env) {
                old(self).receivers(env).push(r.id)
            } else {
                old(self).receivers(env)
            },
            final(self).next_subscription() == old(self).next_subscription() + 1,
            final(self).pending() == old(self).pending(),
            final(self).next_sequence() == old(self).next_sequence(),
            final(self).deliveries() == old(self).deliveries(),
    {
        let id = self.subscribe_handler(FilteredHandler::new(filter, handler));
        FilteredSubscription { id }
    }
}

} // verus!
