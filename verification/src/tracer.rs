//! The tracer interface, the text-map carrier interface, and span builders.
use crate::context::{SpanContext, SpanContextState};
use crate::span::{Reference, ReferenceType, Span, SpanOptions};
use crate::strmap::{StrMap, inserted, keys_distinct};
use crate::value::Value;
use vstd::prelude::*;

verus! {

/// A carrier could not be read as a span context.
pub struct SpanContextCorrupted {
    pub message: String,
}

impl SpanContextCorrupted {
    /// The message, as `Display` would show it.
    pub fn to_string(&self) -> (s: String)
        ensures
            s@ == self.message@,
    {
        self.message.clone()
    }
}

/// Trait for text map and http header carriers.
pub trait CarrierMap {
    /// The entries of the carrier.
    spec fn entries_map(&self) -> Map<Seq<char>, Seq<char>>;

    /// The order in which `keys` lists the keys.
    spec fn key_order(&self) -> Seq<Seq<char>>;

    /// All keys of the carrier, each once, in the carrier's own order.
    fn keys(&self) -> (r: Vec<String>)
        ensures
            r@.map_values(|k: String| k@) == self.key_order(),
            forall|i: int, j: int| 0 <= i < j < r@.len() ==> #[trigger] r@[i]@ != #[trigger] r@[j]@,
            forall|i: int| 0 <= i < r@.len() ==> self.entries_map().contains_key(#[trigger] r@[i]@),
            forall|k: Seq<char>|
                #[trigger] self.entries_map().contains_key(k) ==> exists|i: int|
                    0 <= i < r@.len() && #[trigger] r@[i]@ == k,
    ;

    /// The value stored under a key.
    fn get(&self, key: &str) -> (r: Option<&str>)
        ensures
            match r {
                Some(v) => self.entries_map().contains_key(key@) && self.entries_map()[key@] == v@,
                None => !self.entries_map().contains_key(key@),
            },
    ;

    /// Stores a value under a key, replacing any earlier one.
    fn set(&mut self, key: &str, value: &str)
        ensures
            final(self).entries_map() == old(self).entries_map().insert(key@, value@),
    ;
}

/// A text map carrier kept in memory.
pub struct TextMap {
    entries: StrMap<String>,
}

impl TextMap {
    /// An empty carrier.
    pub fn new() -> (t: TextMap)
        ensures
            t.entries_map() == Map::<Seq<char>, Seq<char>>::empty(),
    {
        let t = TextMap { entries: StrMap::new() };
        assert(t.entries_map() =~= Map::<Seq<char>, Seq<char>>::empty());
        t
    }

    /// The number of entries.
    pub fn len(&self) -> (n: usize)
        ensures
            n == self.entries_map().dom().len(),
    {
        proof {
            use_type_invariant(&self.entries);
            self.entries.lemma_distinct();
            crate::strmap::lemma_map_of_len(self.entries.entries());
            assert(self.entries_map().dom() =~= self.entries.map().dom());
        }
        self.entries.len()
    }
}

impl CarrierMap for TextMap {
    closed spec fn entries_map(&self) -> Map<Seq<char>, Seq<char>> {
        crate::context::baggage_view(self.entries)
    }

    closed spec fn key_order(&self) -> Seq<Seq<char>> {
        self.entries.entries().map_values(|e: (Seq<char>, String)| e.0)
    }

    fn keys(&self) -> (r: Vec<String>) {
        proof {
            use_type_invariant(&self.entries);
            self.entries.lemma_distinct();
        }
        let n = self.entries.len();
        let mut r: Vec<String> = Vec::new();
        let mut i: usize = 0;
        while i < n
            invariant
                n == self.entries.entries().len(),
                keys_distinct(self.entries.entries()),
                i <= n,
                r@.len() == i,
                forall|j: int| 0 <= j < i ==> #[trigger] r@[j]@ == self.entries.entries()[j].0,
            decreases n - i,
        {
            let (k, _) = self.entries.entry_at(i);
            r.push(k.clone());
            i = i + 1;
        }
        proof {
            assert forall|a: int, b: int| 0 <= a < b < r@.len() implies #[trigger] r@[a]@
                != #[trigger] r@[b]@ by {
                assert(self.entries.entries()[a].0 != self.entries.entries()[b].0);
            }
            assert forall|a: int| 0 <= a < r@.len() implies self.entries_map().contains_key(
                #[trigger] r@[a]@,
            ) by {
                crate::strmap::lemma_map_of_entry(self.entries.entries(), a);
            }
            assert forall|k: Seq<char>| #[trigger] self.entries_map().contains_key(k) implies exists|
                a: int,
            | 0 <= a < r@.len() && #[trigger] r@[a]@ == k by {
                crate::strmap::lemma_map_of_dom(self.entries.entries(), k);
                let a = choose|a: int|
                    0 <= a < self.entries.entries().len() && #[trigger] self.entries.entries()[a].0
                        == k;
                assert(r@[a]@ == k);
            }
            assert(r@.map_values(|k: String| k@) =~= self.key_order());
        }
        r
    }

    fn get(&self, key: &str) -> (r: Option<&str>) {
        let k = key.to_owned();
        match self.entries.get(&k) {
            Some(v) => Some(v.as_str()),
            None => None,
        }
    }

    fn set(&mut self, key: &str, value: &str) {
        self.entries.insert(key.to_owned(), value.to_owned());
        assert(self.entries_map() =~= old(self).entries_map().insert(key@, value@));
    }
}

/// The span context a span was given and what it started with.
pub open spec fn span_matches_options(s: Span, options: SpanOptions) -> bool {
    &&& s.data_view().operation_name == options.operation_name
    &&& s.data_view().references == options.references
    &&& s.data_view().tags == options.tags
    &&& s.data_view().log@.len() == 0
    &&& s.data_view().finish_timestamp is None
    &&& s.data_view().duration_micros is None
}

/// A tracer: starts spans and moves span contexts in and out of carriers.
pub trait Tracer: Sized {
    /// Whether the tracer can read the identity in a span context.
    spec fn reads_state(&self, state: SpanContextState) -> bool;

    /// Whether a span with these references can be started.
    spec fn accepts_references(&self, references: Seq<Reference>) -> bool;

    /// The contexts the tracer may give a span started with these references.
    spec fn starts_context(&self, references: Seq<Reference>, context: SpanContext) -> bool;

    /// What injecting a context into a text map does to the entries.
    spec fn injects_text(
        &self,
        context: SpanContext,
        before: Map<Seq<char>, Seq<char>>,
        after: Map<Seq<char>, Seq<char>>,
    ) -> bool;

    /// Whether the tracer can read a text map (it does not stop on it).
    spec fn reads_text(&self, carrier: Map<Seq<char>, Seq<char>>) -> bool;

    /// What extracting a context from a text map may give.
    spec fn extracts_text(
        &self,
        carrier: Map<Seq<char>, Seq<char>>,
        key_order: Seq<Seq<char>>,
        result: Result<SpanContext, SpanContextCorrupted>,
    ) -> bool;

    /// Whether a context can be injected as a binary carrier.
    spec fn can_inject_binary(&self, context: SpanContext) -> bool;

    /// Whether the tracer can read a binary carrier (it does not stop on it).
    spec fn reads_binary(&self, bytes: Seq<u8>) -> bool;

    /// The binary carriers a context is injected as.
    spec fn injects_binary(&self, context: SpanContext, bytes: Seq<u8>) -> bool;

    /// What extracting a context from a binary carrier gives.
    spec fn extracts_binary(
        &self,
        bytes: Seq<u8>,
        result: Result<SpanContext, SpanContextCorrupted>,
    ) -> bool;

    /// Starts building a span.
    fn span<'a>(&'a self, operation_name: &str) -> (b: SpanBuilder<'a, Self>)
        ensures
            b.tracer_view() == self,
            b.options_view().operation_name@ == operation_name@,
            b.options_view().references@.len() == 0,
            b.options_view().tags.entries().len() == 0,
    ;

    /// Starts a span with the given options.
    fn span_with_options(&self, options: SpanOptions) -> (s: Span)
        requires
            self.accepts_references(options.references@),
        ensures
            span_matches_options(s, options),
            self.starts_context(options.references@, s.data_view().span_context),
    ;

    /// Inject the given span context into the carrier in text map format.
    fn inject_into_text_map<C: CarrierMap>(&self, span_context: &SpanContext, carrier: &mut C)
        requires
            self.reads_state(span_context.state),
        ensures
            self.injects_text(*span_context, old(carrier).entries_map(), final(carrier).entries_map()),
    ;

    /// Extract a span context from the carrier in text map format.
    ///
    /// An error occurs if the carrier holds no span context, or one the
    /// tracer does not understand.
    fn extract_from_text_map<C: CarrierMap>(&self, carrier: &C) -> (r: Result<
        SpanContext,
        SpanContextCorrupted,
    >)
        requires
            self.reads_text(carrier.entries_map()),
        ensures
            self.extracts_text(carrier.entries_map(), carrier.key_order(), r),
    ;

    /// Inject the given span context into the carrier in HTTP header format.
    fn inject_into_http_headers<C: CarrierMap>(&self, span_context: &SpanContext, carrier: &mut C)
        requires
            self.reads_state(span_context.state),
        ensures
            self.injects_text(*span_context, old(carrier).entries_map(), final(carrier).entries_map()),
    {
        self.inject_into_text_map(span_context, carrier)
    }

    /// Extract a span context from the carrier in HTTP header format.
    fn extract_from_http_headers<C: CarrierMap>(&self, carrier: &C) -> (r: Result<
        SpanContext,
        SpanContextCorrupted,
    >)
        requires
            self.reads_text(carrier.entries_map()),
        ensures
            self.extracts_text(carrier.entries_map(), carrier.key_order(), r),
    {
        self.extract_from_text_map(carrier)
    }

    /// Serialize the span context into a binary format.
    fn inject_into_binary(&self, span_context: &SpanContext) -> (b: Vec<u8>)
        requires
            self.can_inject_binary(*span_context),
        ensures
            self.injects_binary(*span_context, b@),
    ;

    /// Extract a span context from a carrier in binary format.
    fn extract_from_binary(&self, carrier: &[u8]) -> (r: Result<SpanContext, SpanContextCorrupted>)
        requires
            self.reads_binary(carrier@),
        ensures
            self.extracts_binary(carrier@, r),
    ;

    /// Waits until finished spans are processed; tracers that do no I/O
    /// have nothing to wait for.
    fn flush(&self) {
    }
}

/// Builds the options of a span, then starts it.
pub struct SpanBuilder<'a, T> {
    tracer: &'a T,
    options: SpanOptions,
}

impl<'a, T> SpanBuilder<'a, T> {
    /// The tracer that will start the span.
    pub closed spec fn tracer_view(self) -> &'a T {
        self.tracer
    }

    /// The options gathered so far.
    pub closed spec fn options_view(self) -> SpanOptions {
        self.options
    }

    /// A builder for a span with the given name.
    pub fn new(tracer: &'a T, operation_name: &str) -> (b: Self)
        ensures
            b.tracer_view() == tracer,
            b.options_view().operation_name@ == operation_name@,
            b.options_view().references@.len() == 0,
            b.options_view().tags.entries().len() == 0,
    {
        SpanBuilder { tracer, options: SpanOptions::new(operation_name) }
    }

    /// Adds a reference of a kind to the span.
    fn add_reference(self, rtype: ReferenceType, span_context: &SpanContext) -> (b: Self)
        ensures
            b.tracer_view() == self.tracer_view(),
            b.options_view().operation_name == self.options_view().operation_name,
            b.options_view().tags == self.options_view().tags,
            b.options_view().references@.len() == self.options_view().references@.len() + 1,
            b.options_view().references@.drop_last() == self.options_view().references@,
            b.options_view().references@.last().rtype == rtype,
            b.options_view().references@.last().to.state == span_context.state,
            b.options_view().references@.last().to.baggage_items.entries()
                == span_context.baggage_items.entries(),
    {
        let mut b = self;
        b.options.references.push(Reference { rtype, to: span_context.clone() });
        assert(b.options.references@.drop_last() =~= self.options.references@);
        b
    }

    /// Add a "child of" reference to the span.
    pub fn child_of(self, span_context: &SpanContext) -> (b: Self)
        ensures
            b.tracer_view() == self.tracer_view(),
            b.options_view().operation_name == self.options_view().operation_name,
            b.options_view().tags == self.options_view().tags,
            b.options_view().references@.len() == self.options_view().references@.len() + 1,
            b.options_view().references@.drop_last() == self.options_view().references@,
            b.options_view().references@.last().rtype == ReferenceType::ChildOf,
            b.options_view().references@.last().to.state == span_context.state,
            b.options_view().references@.last().to.baggage_items.entries()
                == span_context.baggage_items.entries(),
    {
        self.add_reference(ReferenceType::ChildOf, span_context)
    }

    /// Add a "follows from" reference to the span.
    pub fn follows_from(self, span_context: &SpanContext) -> (b: Self)
        ensures
            b.tracer_view() == self.tracer_view(),
            b.options_view().operation_name == self.options_view().operation_name,
            b.options_view().tags == self.options_view().tags,
            b.options_view().references@.len() == self.options_view().references@.len() + 1,
            b.options_view().references@.drop_last() == self.options_view().references@,
            b.options_view().references@.last().rtype == ReferenceType::FollowsFrom,
            b.options_view().references@.last().to.state == span_context.state,
            b.options_view().references@.last().to.baggage_items.entries()
                == span_context.baggage_items.entries(),
    {
        self.add_reference(ReferenceType::FollowsFrom, span_context)
    }

    /// Add a tag.
    pub fn set_tag(self, key: &str, value: Value) -> (b: Self)
        ensures
            b.tracer_view() == self.tracer_view(),
            b.options_view().operation_name == self.options_view().operation_name,
            b.options_view().references == self.options_view().references,
            b.options_view().tags.map() == self.options_view().tags.map().insert(key@, value),
            b.options_view().tags.entries() == inserted(self.options_view().tags.entries(), key@, value),
    {
        let mut b = self;
        b.options.tags.insert(key.to_owned(), value);
        b
    }

}

impl<'a, T: Tracer> SpanBuilder<'a, T> {
    /// Create the span.
    pub fn start(self) -> (s: Span)
        requires
            self.tracer_view().accepts_references(self.options_view().references@),
        ensures
            span_matches_options(s, self.options_view()),
            self.tracer_view().starts_context(
                self.options_view().references@,
                s.data_view().span_context,
            ),
    {
        self.tracer.span_with_options(self.options)
    }
}

} // verus!
