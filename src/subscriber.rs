//! The subscriber: the nesting depth, the stack of open spans and the active
//! filter, and the records of what passed the filter.
//!
//! A subscriber is an ordinary value that its owner passes to whatever emits
//! spans and events; it is not shared between threads by itself.
use vstd::prelude::*;

use crate::filter::{EnvFilter, EnvFilterView, event_allowed, span_allowed, span_view};
use crate::metadata::{EventMetadata, SpanMetadata};
use crate::render::{event_text, span_text};

verus! {

#[verifier::external_type_specification]
#[verifier::external_body]
pub struct ExUtcDateTime(time::UtcDateTime);

/// Relies on time's `UtcDateTime::now`: the current time, of which nothing
/// is promised.
pub assume_specification[ time::UtcDateTime::now ]() -> time::UtcDateTime;

/// Relies on time's `UtcDateTime::format` with the RFC 3339 description; an
/// error in formatting becomes `None`. Nothing is promised of the text.
#[verifier::external_body]
fn format_rfc3339(t: time::UtcDateTime) -> (r: Option<String>) {
    t.format(&time::format_description::well_known::Rfc3339).ok()
}

/// The current time as RFC 3339 text; empty if it cannot be formatted.
fn timestamp() -> (r: String) {
    match format_rfc3339(time::UtcDateTime::now()) {
        Some(t) => t,
        None => String::new(),
    }
}

/// The state of a subscriber as it is reasoned about: the nesting depth, the
/// open spans (the innermost last) and the filter.
pub struct SubscriberState {
    pub depth: nat,
    pub stack: Seq<SpanMetadata>,
    pub filter: Option<EnvFilterView>,
}

/// The depth is the number of open spans.
pub open spec fn state_wf(s: SubscriberState) -> bool {
    s.depth == s.stack.len()
}

/// The innermost open span, if any.
pub open spec fn innermost(s: SubscriberState) -> Option<SpanMetadata> {
    if s.stack.len() > 0 {
        Some(s.stack.last())
    } else {
        None
    }
}

/// The filter, if any, lets `span` through; without a filter everything
/// passes.
pub open spec fn span_passes(filter: Option<EnvFilterView>, span: SpanMetadata) -> bool {
    match filter {
        None => true,
        Some(f) => span_allowed(f, span.name@, span.fields@, span.level),
    }
}

/// The filter, if any, lets `event` through inside the innermost open span
/// of `s`.
pub open spec fn event_passes(s: SubscriberState, event: EventMetadata) -> bool {
    match s.filter {
        None => true,
        Some(f) => event_allowed(
            f,
            event.fields@,
            event.level,
            match innermost(s) {
                None => None,
                Some(p) => Some((p.name@, p.fields@)),
            },
        ),
    }
}

/// The state after entering `span`: if it passes the filter it is pushed and
/// the depth grows by one; else nothing changes.
pub open spec fn after_enter(s: SubscriberState, span: SpanMetadata) -> SubscriberState {
    if span_passes(s.filter, span) {
        SubscriberState { depth: s.depth + 1, stack: s.stack.push(span), filter: s.filter }
    } else {
        s
    }
}

/// The state after leaving the innermost span.
pub open spec fn after_exit(s: SubscriberState) -> SubscriberState {
    SubscriberState { depth: (s.depth - 1) as nat, stack: s.stack.drop_last(), filter: s.filter }
}

/// The text of each record.
pub open spec fn texts(v: Seq<String>) -> Seq<Seq<char>> {
    v.map_values(|s: String| s@)
}

/// The proof that a span was entered: it must be handed back, innermost
/// first, to leave the span.
pub struct SpanGuard {
    depth: usize,
}

impl SpanGuard {
    /// A guard is only made inside a span, so its depth is at least one.
    #[verifier::type_invariant]
    spec fn inside_a_span(self) -> bool {
        self.depth >= 1
    }

    /// The nesting depth inside the guarded span.
    pub closed spec fn spec_depth(&self) -> nat {
        self.depth as nat
    }

    /// The nesting depth inside the guarded span.
    pub fn depth(&self) -> (r: usize)
        ensures
            r == self.spec_depth(),
    {
        self.depth
    }
}

/// Tracks the open spans, decides with its filter which spans and events
/// pass, and keeps the records of those that do until they are taken.
pub struct Subscriber {
    depth: usize,
    filter: Option<EnvFilter>,
    current: Vec<SpanMetadata>,
    output: Vec<String>,
}

impl View for Subscriber {
    type V = SubscriberState;

    closed spec fn view(&self) -> SubscriberState {
        SubscriberState {
            depth: self.depth as nat,
            stack: self.current@,
            filter: match self.filter {
                None => None,
                Some(f) => Some(f@),
            },
        }
    }
}

impl Subscriber {
    /// The records not yet taken, oldest first.
    pub closed spec fn records(&self) -> Seq<Seq<char>> {
        texts(self.output@)
    }

    /// The depth is the number of open spans.
    pub open spec fn wf(&self) -> bool {
        state_wf(self@)
    }

    /// A subscriber with no open span, no filter and no records.
    pub fn new() -> (r: Subscriber)
        ensures
            r.wf(),
            r@.depth == 0,
            r@.stack.len() == 0,
            r@.filter is None,
            r.records().len() == 0,
    {
        Subscriber { depth: 0, filter: None, current: Vec::new(), output: Vec::new() }
    }

    /// Makes `filter` the active filter.
    pub fn set_filter(&mut self, filter: EnvFilter)
        ensures
            final(self)@ == (SubscriberState { filter: Some(filter@), ..old(self)@ }),
            final(self).records() == old(self).records(),
    {
        self.filter = Some(filter);
    }

    /// The nesting depth: the number of open spans.
    pub fn depth(&self) -> (r: usize)
        ensures
            r == self@.depth,
    {
        self.depth
    }

    /// The innermost open span, if any.
    pub fn current_span(&self) -> (r: Option<&SpanMetadata>)
        requires
            self.wf(),
        ensures
            r matches Some(s) ==> innermost(self@) == Some(*s),
            r is None ==> innermost(self@) is None,
    {
        if self.current.len() == 0 {
            None
        } else {
            Some(&self.current[self.current.len() - 1])
        }
    }

    /// Enters the span `metadata`. If the filter lets it through, its record
    /// is kept (at the depth outside it), it becomes the innermost open span,
    /// the depth grows by one, and a guard for it is returned; else nothing
    /// changes and there is no guard.
    pub fn enter_span(&mut self, metadata: SpanMetadata) -> (r: Option<SpanGuard>)
        requires
            old(self).wf(),
            span_passes(old(self)@.filter, metadata) ==> old(self)@.depth < usize::MAX,
        ensures
            final(self).wf(),
            final(self)@ == after_enter(old(self)@, metadata),
            r is Some <==> span_passes(old(self)@.filter, metadata),
            r matches Some(g) ==> g.spec_depth() == final(self)@.depth,
            span_passes(old(self)@.filter, metadata) ==> ({
                &&& final(self).records().len() == old(self).records().len() + 1
                &&& final(self).records().drop_last() == old(self).records()
                &&& exists|ts: Seq<char>| #[trigger]
                    span_text(&metadata, old(self)@.depth, ts) == final(self).records().last()
            }),
            !span_passes(old(self)@.filter, metadata) ==> final(self).records() == old(
                self,
            ).records(),
    {
        let passes = match &self.filter {
            None => true,
            Some(f) => f.span_enabled(&metadata),
        };
        if !passes {
            return None;
        }
        let ts = timestamp();
        let record = metadata.render(self.depth, ts.as_str());
        let ghost before = self.output@;
        self.output.push(record);
        assert(texts(self.output@).drop_last() =~= texts(before));
        assert(texts(self.output@).last() == span_text(&metadata, self.depth as nat, ts@));
        self.current.push(metadata);
        self.depth += 1;
        Some(SpanGuard { depth: self.depth })
    }

    /// Leaves the innermost open span, whose guard is `guard`.
    pub fn exit_span(&mut self, guard: SpanGuard)
        requires
            old(self).wf(),
            guard.spec_depth() == old(self)@.depth,
        ensures
            final(self).wf(),
            final(self)@ == after_exit(old(self)@),
            final(self).records() == old(self).records(),
    {
        proof {
            use_type_invariant(&guard);
        }
        self.current.pop();
        self.depth -= 1;
    }

    /// Emits `event` inside the innermost open span. If the filter lets it
    /// through, its record is kept at the current depth; the open spans and
    /// the depth do not change.
    pub fn event(&mut self, metadata: EventMetadata)
        requires
            old(self).wf(),
        ensures
            final(self).wf(),
            final(self)@ == old(self)@,
            event_passes(old(self)@, metadata) ==> ({
                &&& final(self).records().len() == old(self).records().len() + 1
                &&& final(self).records().drop_last() == old(self).records()
                &&& exists|ts: Seq<char>| #[trigger]
                    event_text(&metadata, old(self)@.depth, ts) == final(self).records().last()
            }),
            !event_passes(old(self)@, metadata) ==> final(self).records() == old(self).records(),
    {
        let current_span = self.current_span();
        let passes = match &self.filter {
            None => true,
            Some(f) => f.event_enabled(&metadata, current_span),
        };
        if !passes {
            return;
        }
        let ts = timestamp();
        let record = metadata.render(self.depth, ts.as_str());
        let ghost before = self.output@;
        self.output.push(record);
        assert(texts(self.output@).drop_last() =~= texts(before));
        assert(texts(self.output@).last() == event_text(&metadata, self.depth as nat, ts@));
    }

    /// Takes the records kept so far, oldest first, and keeps none.
    pub fn take_output(&mut self) -> (r: Vec<String>)
        ensures
            texts(r@) == old(self).records(),
            final(self).records().len() == 0,
            final(self)@ == old(self)@,
    {
        let mut r: Vec<String> = Vec::new();
        r.append(&mut self.output);
        assert(texts(self.output@) =~= Seq::<Seq<char>>::empty());
        assert(r@ =~= old(self).output@);
        r
    }
}

impl Default for Subscriber {
    fn default() -> (r: Subscriber)
        ensures
            r.wf(),
            r@.depth == 0,
            r@.stack.len() == 0,
            r@.filter is None,
            r.records().len() == 0,
    {
        Subscriber::new()
    }
}

/// The state after entering each span of `spans` in turn, each inside the
/// one before.
pub open spec fn after_entering(s: SubscriberState, spans: Seq<SpanMetadata>) -> SubscriberState
    decreases spans.len(),
{
    if spans.len() == 0 {
        s
    } else {
        after_enter(after_entering(s, spans.drop_last()), spans.last())
    }
}

/// The state after leaving the innermost span `n` times.
pub open spec fn after_exiting(s: SubscriberState, n: nat) -> SubscriberState
    decreases n,
{
    if n == 0 {
        s
    } else {
        after_exiting(after_exit(s), (n - 1) as nat)
    }
}

/// Entering a span that the filter leaves out changes nothing: the depth and
/// the open spans stay as they were, and an event emitted next is decided
/// inside the same innermost span as before.
pub proof fn lemma_disabled_span_changes_nothing(
    s: SubscriberState,
    span: SpanMetadata,
    event: EventMetadata,
)
    requires
        !span_passes(s.filter, span),
    ensures
        after_enter(s, span) == s,
        after_enter(s, span).depth == s.depth,
        after_enter(s, span).stack == s.stack,
        innermost(after_enter(s, span)) == innermost(s),
        event_passes(after_enter(s, span), event) == event_passes(s, event),
{
}

proof fn lemma_entering_pushes(s: SubscriberState, spans: Seq<SpanMetadata>)
    requires
        state_wf(s),
        forall|i: int| 0 <= i < spans.len() ==> span_passes(s.filter, #[trigger] spans[i]),
    ensures
        after_entering(s, spans) == (SubscriberState {
            depth: s.depth + spans.len(),
            stack: s.stack + spans,
            filter: s.filter,
        }),
    decreases spans.len(),
{
    if spans.len() > 0 {
        let rest = spans.drop_last();
        assert forall|i: int| 0 <= i < rest.len() implies span_passes(s.filter, #[trigger] rest[i]) by {
            assert(rest[i] == spans[i]);
        }
        lemma_entering_pushes(s, rest);
        assert(span_passes(s.filter, spans[spans.len() - 1]));
        assert((s.stack + rest).push(spans.last()) =~= s.stack + spans);
    }
}

proof fn lemma_exiting_pops(s: SubscriberState, n: nat)
    requires
        state_wf(s),
        n <= s.depth,
    ensures
        after_exiting(s, n) == (SubscriberState {
            depth: (s.depth - n) as nat,
            stack: s.stack.subrange(0, s.depth - n),
            filter: s.filter,
        }),
    decreases n,
{
    if n == 0 {
        assert(s.stack.subrange(0, s.depth as int) =~= s.stack);
    } else {
        let t = after_exit(s);
        lemma_exiting_pops(t, (n - 1) as nat);
        assert(t.stack.subrange(0, t.depth - (n - 1)) =~= s.stack.subrange(0, s.depth - n));
    }
}

/// Entering spans that all pass the filter, each inside the one before, and
/// then leaving as many spans, innermost first, gives back the depth, the
/// open spans and the filter that one started with; from an idle subscriber,
/// the depth is zero again and no span is open.
pub proof fn lemma_nested_spans_balance(s: SubscriberState, spans: Seq<SpanMetadata>)
    requires
        state_wf(s),
        forall|i: int| 0 <= i < spans.len() ==> span_passes(s.filter, #[trigger] spans[i]),
    ensures
        after_exiting(after_entering(s, spans), spans.len()) == s,
        s.depth == 0 ==> after_exiting(after_entering(s, spans), spans.len()).depth == 0
            && after_exiting(after_entering(s, spans), spans.len()).stack.len() == 0,
{
    lemma_entering_pushes(s, spans);
    let t = after_entering(s, spans);
    lemma_exiting_pops(t, spans.len());
    assert((s.stack + spans).subrange(0, s.depth as int) =~= s.stack);
}

} // verus!
