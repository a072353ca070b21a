//! A tracer that does nothing at all.
use crate::context::{NoopSpanContextState, SpanContext, SpanContextState};
use crate::span::{FinishedSpan, Reference, Span, SpanOptions};
use crate::tracer::{CarrierMap, SpanBuilder, SpanContextCorrupted, Tracer};
use vstd::prelude::*;

verus! {

/// A context made by the no-op tracer: no identity and no baggage.
pub open spec fn is_noop_context(c: SpanContext) -> bool {
    &&& c.state == SpanContextState::Noop(NoopSpanContextState {})
    &&& c.baggage_items.entries().len() == 0
}

/// A tracer that does nothing at all.
#[derive(Clone, Copy, Debug)]
pub struct NoopTracer {}

impl NoopTracer {
    /// Creates the tracer.
    pub fn new() -> (t: NoopTracer)
        ensures
            t == (NoopTracer {}),
    {
        NoopTracer {}
    }

    /// Takes a finished span and drops it.
    pub fn report(&self, _finished_span: FinishedSpan) {
    }
}

impl Tracer for NoopTracer {
    open spec fn reads_state(&self, state: SpanContextState) -> bool {
        true
    }

    open spec fn accepts_references(&self, references: Seq<Reference>) -> bool {
        true
    }

    open spec fn starts_context(&self, references: Seq<Reference>, context: SpanContext) -> bool {
        is_noop_context(context)
    }

    open spec fn injects_text(
        &self,
        context: SpanContext,
        before: Map<Seq<char>, Seq<char>>,
        after: Map<Seq<char>, Seq<char>>,
    ) -> bool {
        after == before
    }

    open spec fn reads_text(&self, carrier: Map<Seq<char>, Seq<char>>) -> bool {
        true
    }

    open spec fn extracts_text(
        &self,
        carrier: Map<Seq<char>, Seq<char>>,
        key_order: Seq<Seq<char>>,
        result: Result<SpanContext, SpanContextCorrupted>,
    ) -> bool {
        result matches Ok(c) && is_noop_context(c)
    }

    open spec fn can_inject_binary(&self, context: SpanContext) -> bool {
        true
    }

    open spec fn reads_binary(&self, bytes: Seq<u8>) -> bool {
        true
    }

    open spec fn injects_binary(&self, context: SpanContext, bytes: Seq<u8>) -> bool {
        bytes.len() == 0
    }

    open spec fn extracts_binary(
        &self,
        bytes: Seq<u8>,
        result: Result<SpanContext, SpanContextCorrupted>,
    ) -> bool {
        result matches Ok(c) && is_noop_context(c)
    }

    fn span<'a>(&'a self, operation_name: &str) -> (b: SpanBuilder<'a, Self>) {
        SpanBuilder::new(self, operation_name)
    }

    fn span_with_options(&self, options: SpanOptions) -> (s: Span) {
        Span::new(SpanContext::new(SpanContextState::Noop(NoopSpanContextState {})), options)
    }

    fn inject_into_text_map<C: CarrierMap>(&self, _span_context: &SpanContext, _carrier: &mut C) {
    }

    fn extract_from_text_map<C: CarrierMap>(&self, _carrier: &C) -> (r: Result<
        SpanContext,
        SpanContextCorrupted,
    >) {
        Ok(SpanContext::new(SpanContextState::Noop(NoopSpanContextState {})))
    }

    fn inject_into_binary(&self, _span_context: &SpanContext) -> (b: Vec<u8>) {
        Vec::new()
    }

    fn extract_from_binary(&self, _carrier: &[u8]) -> (r: Result<SpanContext, SpanContextCorrupted>) {
        Ok(SpanContext::new(SpanContextState::Noop(NoopSpanContextState {})))
    }
}

} // verus!
