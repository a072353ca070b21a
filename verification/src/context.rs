//! Span contexts: what identifies a span, and the baggage it carries.
use crate::strmap::StrMap;
use vstd::prelude::*;

verus! {

/// The identity of a span as the LightStep tracer sees it.
#[derive(Clone, Copy, Debug, PartialEq, Eq, Structural)]
pub struct LightStepSpanContextState {
    pub trace_id: u64,
    pub span_id: u64,
}

/// The (empty) identity of a span made by the mock tracer.
#[derive(Clone, Copy, Debug, PartialEq, Eq, Structural)]
pub struct MockSpanContextState {}

/// The (empty) identity of a span made by the no-op tracer.
#[derive(Clone, Copy, Debug, PartialEq, Eq, Structural)]
pub struct NoopSpanContextState {}

/// The tracer-specific part of a span context; each tracer only reads its own.
#[derive(Clone, Copy, Debug, PartialEq, Eq, Structural)]
pub enum SpanContextState {
    Noop(NoopSpanContextState),
    Mock(MockSpanContextState),
    LightStep(LightStepSpanContextState),
}

/// The baggage of a span as a map from key to value.
pub open spec fn baggage_view(m: StrMap<String>) -> Map<Seq<char>, Seq<char>> {
    m.map().map_values(|s: String| s@)
}

/// Identifies a span.
pub struct SpanContext {
    pub state: SpanContextState,
    pub baggage_items: StrMap<String>,
}

impl SpanContext {
    /// The tracer-specific identity.
    pub open spec fn state_view(self) -> SpanContextState {
        self.state
    }

    /// The baggage, by key.
    pub open spec fn baggage(self) -> Map<Seq<char>, Seq<char>> {
        baggage_view(self.baggage_items)
    }

    /// A context with the given identity and no baggage.
    pub fn new(state: SpanContextState) -> (c: SpanContext)
        ensures
            c.state == state,
            c.baggage_items.entries() == Seq::<(Seq<char>, String)>::empty(),
            c.baggage() == Map::<Seq<char>, Seq<char>>::empty(),
    {
        let c = SpanContext { state, baggage_items: StrMap::new() };
        assert(c.baggage() =~= Map::<Seq<char>, Seq<char>>::empty());
        c
    }

    /// The tracer-specific identity.
    pub fn state(&self) -> (s: SpanContextState)
        ensures
            s == self.state,
    {
        self.state
    }
}

impl Clone for SpanContext {
    fn clone(&self) -> (r: SpanContext)
        ensures
            r.state == self.state,
            r.baggage_items.entries() == self.baggage_items.entries(),
    {
        SpanContext { state: self.state, baggage_items: self.baggage_items.clone() }
    }
}

impl LightStepSpanContextState {
    /// The LightStep identity inside a span context state.
    ///
    /// Only a context made by the LightStep tracer carries one.
    pub fn from_trait_object(state: &SpanContextState) -> (s: &LightStepSpanContextState)
        requires
            state is LightStep,
        ensures
            *s == state->LightStep_0,
    {
        match state {
            SpanContextState::LightStep(s) => s,
            _ => {
                proof {
                    assert(false);
                }
                unreached()
            },
        }
    }
}

} // verus!
