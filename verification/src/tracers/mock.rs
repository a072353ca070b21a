//! A tracer that keeps the spans it is given, for tests of instrumentation.
use crate::context::{MockSpanContextState, SpanContext, SpanContextState};
use crate::span::{FinishedSpan, Reference, Span, SpanOptions};
use crate::tracer::{CarrierMap, SpanBuilder, SpanContextCorrupted, Tracer};
use vstd::prelude::*;

verus! {

/// A context made by the mock tracer: no identity and no baggage.
pub open spec fn is_mock_context(c: SpanContext) -> bool {
    &&& c.state == SpanContextState::Mock(MockSpanContextState {})
    &&& c.baggage_items.entries().len() == 0
}

/// A tracer that stores the spans reported to it.
pub struct MockTracer {
    finished_spans: Vec<FinishedSpan>,
}

impl MockTracer {
    /// The spans reported so far, oldest first.
    pub closed spec fn reported(self) -> Seq<FinishedSpan> {
        self.finished_spans@
    }

    /// A tracer that has seen no spans.
    pub fn new() -> (t: MockTracer)
        ensures
            t.reported() == Seq::<FinishedSpan>::empty(),
    {
        MockTracer { finished_spans: Vec::new() }
    }

    /// Stores a finished span.
    pub fn report(&mut self, finished_span: FinishedSpan)
        ensures
            final(self).reported() == old(self).reported().push(finished_span),
    {
        self.finished_spans.push(finished_span);
    }

    /// The spans reported so far, oldest first.
    pub fn finished_spans(&self) -> (s: &Vec<FinishedSpan>)
        ensures
            s@ == self.reported(),
    {
        &self.finished_spans
    }
}

/// Spans reported to a mock tracer one after another are kept in the
/// order they were reported: starting from a tracer that has seen none,
/// after the reports of `spans` it holds exactly `spans`.
pub proof fn lemma_mock_keeps_reports_in_order(states: Seq<MockTracer>, spans: Seq<FinishedSpan>)
    requires
        states.len() == spans.len() + 1,
        states[0].reported() == Seq::<FinishedSpan>::empty(),
        forall|i: int|
            0 <= i < spans.len() ==> (#[trigger] states[i + 1]).reported() == states[i].reported().push(
                spans[i],
            ),
    ensures
        states[spans.len() as int].reported() == spans,
{
    assert forall|n: int| 0 <= n <= spans.len() implies #[trigger] states[n].reported() == spans.take(n) by {
        lemma_mock_prefix(states, spans, n as nat);
    }
    assert(spans.take(spans.len() as int) =~= spans);
}

proof fn lemma_mock_prefix(states: Seq<MockTracer>, spans: Seq<FinishedSpan>, n: nat)
    requires
        states.len() == spans.len() + 1,
        states[0].reported() == Seq::<FinishedSpan>::empty(),
        forall|i: int|
            0 <= i < spans.len() ==> (#[trigger] states[i + 1]).reported() == states[i].reported().push(
                spans[i],
            ),
        n <= spans.len(),
    ensures
        states[n as int].reported() == spans.take(n as int),
    decreases n,
{
    if n == 0 {
        assert(spans.take(0) =~= Seq::<FinishedSpan>::empty());
    } else {
        let k = (n - 1) as int;
        lemma_mock_prefix(states, spans, k as nat);
        assert(states[k + 1].reported() == states[k].reported().push(spans[k]));
        assert(spans.take(n as int) =~= spans.take(k).push(spans[k]));
    }
}

impl Tracer for MockTracer {
    open spec fn reads_state(&self, state: SpanContextState) -> bool {
        true
    }

    open spec fn accepts_references(&self, references: Seq<Reference>) -> bool {
        true
    }

    open spec fn starts_context(&self, references: Seq<Reference>, context: SpanContext) -> bool {
        is_mock_context(context)
    }

    open spec fn injects_text(
        &self,
        context: SpanContext,
        before: Map<Seq<char>, Seq<char>>,
        after: Map<Seq<char>, Seq<char>>,
    ) -> bool {
        after == before
    }

    open spec fn reads_text(&self, carrier: Map<Seq<char>, Seq<char>>) -> bool {
        true
    }

    open spec fn extracts_text(
        &self,
        carrier: Map<Seq<char>, Seq<char>>,
        key_order: Seq<Seq<char>>,
        result: Result<SpanContext, SpanContextCorrupted>,
    ) -> bool {
        result matches Ok(c) && is_mock_context(c)
    }

    open spec fn can_inject_binary(&self, context: SpanContext) -> bool {
        true
    }

    open spec fn reads_binary(&self, bytes: Seq<u8>) -> bool {
        true
    }

    open spec fn injects_binary(&self, context: SpanContext, bytes: Seq<u8>) -> bool {
        bytes.len() == 0
    }

    open spec fn extracts_binary(
        &self,
        bytes: Seq<u8>,
        result: Result<SpanContext, SpanContextCorrupted>,
    ) -> bool {
        result matches Ok(c) && is_mock_context(c)
    }

    fn span<'a>(&'a self, operation_name: &str) -> (b: SpanBuilder<'a, Self>) {
        SpanBuilder::new(self, operation_name)
    }

    fn span_with_options(&self, options: SpanOptions) -> (s: Span) {
        Span::new(SpanContext::new(SpanContextState::Mock(MockSpanContextState {})), options)
    }

    fn inject_into_text_map<C: CarrierMap>(&self, _span_context: &SpanContext, _carrier: &mut C) {
    }

    fn extract_from_text_map<C: CarrierMap>(&self, _carrier: &C) -> (r: Result<
        SpanContext,
        SpanContextCorrupted,
    >) {
        Ok(SpanContext::new(SpanContextState::Mock(MockSpanContextState {})))
    }

    fn inject_into_binary(&self, _span_context: &SpanContext) -> (b: Vec<u8>) {
        Vec::new()
    }

    fn extract_from_binary(&self, _carrier: &[u8]) -> (r: Result<SpanContext, SpanContextCorrupted>) {
        Ok(SpanContext::new(SpanContextState::Mock(MockSpanContextState {})))
    }
}

} // verus!
