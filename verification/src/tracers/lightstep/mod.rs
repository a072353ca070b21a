//! A tracer that sends finished spans to a [LightStep](https://lightstep.com/) collector.
pub mod carrier;
pub mod collector;
pub mod fields;
pub mod reporter;
pub mod response;

use crate::context::{LightStepSpanContextState, SpanContext, SpanContextState, baggage_view};
use crate::span::{Reference, Span, SpanOptions};
use crate::tracers::lightstep::carrier::{
    BasicCarrier, decode_binary_carrier, decode_carrier, encode_binary_carrier, encode_carrier,
    encode_binary_carrier_sampled, entry_views, insert_all, lemma_carrier_round_trip,
    lemma_carrier_round_trip_sampled, lemma_insert_all_map_of, lemma_insert_all_push,
};
use crate::strmap::{StrMap, inserted};
use crate::text::{
    decimal_digits, format_decimal, format_hex, has_prefix, hex_digits, parse_hex, parse_hex_u64,
    suffix_from,
};
use crate::tracer::{CarrierMap, SpanBuilder, SpanContextCorrupted, Tracer};
use crate::value::Value;
use std::time::Duration;
use vstd::prelude::*;
use vstd::string::StringExecFns;

verus! {

pub const TEXT_MAP_TRACE_ID_FIELD: &'static str = "ot-tracer-traceid";

pub const TEXT_MAP_SPAN_ID_FIELD: &'static str = "ot-tracer-spanid";

pub const TEXT_MAP_SAMPLED_FIELD: &'static str = "ot-tracer-sampled";

pub const TEXT_MAP_PREFIX_BAGGAGE: &'static str = "ot-baggage-";

/// A random `u64` (`rand::random`, which draws from the thread-local
/// generator). Nothing is promised of the value.
#[verifier::external_body]
pub(crate) fn random_u64() -> u64 {
    rand::random::<u64>()
}

/// The duration `std::time::Duration::from_millis` gives for a number of
/// milliseconds.
pub uninterp spec fn duration_of_millis(millis: u64) -> Duration;

/// The duration `std::time::Duration::from_secs` gives for a number of
/// seconds.
pub uninterp spec fn duration_of_secs(secs: u64) -> Duration;

/// A duration of whole milliseconds (`std::time::Duration::from_millis`).
#[verifier::external_body]
fn duration_from_millis(millis: u64) -> (d: Duration)
    ensures
        d == duration_of_millis(millis),
{
    Duration::from_millis(millis)
}

/// A duration of whole seconds (`std::time::Duration::from_secs`).
#[verifier::external_body]
fn duration_from_secs(secs: u64) -> (d: Duration)
    ensures
        d == duration_of_secs(secs),
{
    Duration::from_secs(secs)
}


/// A fresh LightStep identity: random trace and span ids.
fn new_lightstep_state() -> (s: LightStepSpanContextState) {
    LightStepSpanContextState { trace_id: random_u64(), span_id: random_u64() }
}

/// Whether a key carries a baggage item in the text-map format.
pub open spec fn is_baggage_key(k: Seq<char>) -> bool {
    &&& TEXT_MAP_PREFIX_BAGGAGE@.len() <= k.len()
    &&& k.subrange(0, TEXT_MAP_PREFIX_BAGGAGE@.len() as int) == TEXT_MAP_PREFIX_BAGGAGE@
}

/// The baggage key carried by a text-map key.
pub open spec fn baggage_key_of(k: Seq<char>) -> Seq<char> {
    k.subrange(TEXT_MAP_PREFIX_BAGGAGE@.len() as int, k.len() as int)
}

/// The baggage read from a text map: for each key `ot-baggage-<b>`, the
/// item `<b>` with the value the carrier holds under that key.
pub open spec fn text_map_baggage(carrier: Map<Seq<char>, Seq<char>>) -> Map<Seq<char>, Seq<char>> {
    Map::new(
        |b: Seq<char>| carrier.contains_key(TEXT_MAP_PREFIX_BAGGAGE@ + b),
        |b: Seq<char>| carrier[TEXT_MAP_PREFIX_BAGGAGE@ + b],
    )
}

/// Baggage entries under their text-map keys `ot-baggage-<k>`.
pub open spec fn prefixed_baggage(es: Seq<(Seq<char>, Seq<char>)>) -> Seq<(Seq<char>, Seq<char>)> {
    es.map_values(|e: (Seq<char>, Seq<char>)| (TEXT_MAP_PREFIX_BAGGAGE@ + e.0, e.1))
}

/// The field keys do not carry baggage.
proof fn lemma_fields_are_not_baggage_keys()
    ensures
        !is_baggage_key(TEXT_MAP_TRACE_ID_FIELD@),
        !is_baggage_key(TEXT_MAP_SPAN_ID_FIELD@),
        !is_baggage_key(TEXT_MAP_SAMPLED_FIELD@),
        TEXT_MAP_TRACE_ID_FIELD@ != TEXT_MAP_SPAN_ID_FIELD@,
        TEXT_MAP_TRACE_ID_FIELD@ != TEXT_MAP_SAMPLED_FIELD@,
        TEXT_MAP_SPAN_ID_FIELD@ != TEXT_MAP_SAMPLED_FIELD@,
        TEXT_MAP_PREFIX_BAGGAGE@.len() == 11,
{
    reveal_strlit("ot-tracer-traceid");
    reveal_strlit("ot-tracer-spanid");
    reveal_strlit("ot-tracer-sampled");
    reveal_strlit("ot-baggage-");
    assert(TEXT_MAP_TRACE_ID_FIELD@.subrange(0, 11)[3] != TEXT_MAP_PREFIX_BAGGAGE@[3]);
    assert(TEXT_MAP_SPAN_ID_FIELD@.subrange(0, 11)[3] != TEXT_MAP_PREFIX_BAGGAGE@[3]);
    assert(TEXT_MAP_SAMPLED_FIELD@.subrange(0, 11)[3] != TEXT_MAP_PREFIX_BAGGAGE@[3]);
    assert(TEXT_MAP_TRACE_ID_FIELD@[10] != TEXT_MAP_SPAN_ID_FIELD@[10]);
    assert(TEXT_MAP_TRACE_ID_FIELD@[10] != TEXT_MAP_SAMPLED_FIELD@[10]);
    assert(TEXT_MAP_SPAN_ID_FIELD@[11] != TEXT_MAP_SAMPLED_FIELD@[11]);
}

/// The text-map key of a baggage key.
proof fn lemma_baggage_key(k: Seq<char>)
    requires
        is_baggage_key(k),
    ensures
        TEXT_MAP_PREFIX_BAGGAGE@ + baggage_key_of(k) == k,
{
    assert(TEXT_MAP_PREFIX_BAGGAGE@ + baggage_key_of(k) =~= k);
}

/// The message of the error for a trace id that is not a hexadecimal u64.
pub open spec fn trace_id_not_hex_message() -> Seq<char> {
    "ot-tracer-traceid is not a hexadecimal u64"@
}

/// The message of the error for a span id that is not a hexadecimal u64.
pub open spec fn span_id_not_hex_message() -> Seq<char> {
    "ot-tracer-spanid is not a hexadecimal u64"@
}

/// The message of the error for a missing trace id.
pub open spec fn trace_id_missing_message() -> Seq<char> {
    "ot-tracer-traceid is missing"@
}

/// The message of the error for a missing span id.
pub open spec fn span_id_missing_message() -> Seq<char> {
    "ot-tracer-spanid is missing"@
}

/// Whether the carrier holds a field that is not a hexadecimal u64.
pub open spec fn field_malformed(carrier: Map<Seq<char>, Seq<char>>, field: Seq<char>) -> bool {
    carrier.contains_key(field) && parse_hex_u64(carrier[field]) is None
}

/// Whether `a` comes before `b` in a key order.
pub open spec fn comes_before(order: Seq<Seq<char>>, a: Seq<char>, b: Seq<char>) -> bool {
    exists|i: int, j: int| 0 <= i < j < order.len() && #[trigger] order[i] == a && #[trigger] order[j] == b
}

/// What extracting a LightStep span context from a text map gives, the
/// keys being visited in the carrier's order: when both id fields are
/// malformed, the error names the one that comes first.
pub open spec fn lightstep_text_extraction(
    carrier: Map<Seq<char>, Seq<char>>,
    order: Seq<Seq<char>>,
    result: Result<SpanContext, SpanContextCorrupted>,
) -> bool {
    let t = TEXT_MAP_TRACE_ID_FIELD@;
    let s = TEXT_MAP_SPAN_ID_FIELD@;
    if field_malformed(carrier, t) || field_malformed(carrier, s) {
        result matches Err(e) && e.message@ == (if field_malformed(carrier, t) && (!field_malformed(
            carrier,
            s,
        ) || comes_before(order, t, s)) {
            trace_id_not_hex_message()
        } else {
            span_id_not_hex_message()
        })
    } else if !carrier.contains_key(t) {
        result matches Err(e) && e.message@ == trace_id_missing_message()
    } else if !carrier.contains_key(s) {
        result matches Err(e) && e.message@ == span_id_missing_message()
    } else {
        result matches Ok(c) && c.state == SpanContextState::LightStep(
            LightStepSpanContextState {
                trace_id: parse_hex_u64(carrier[t])->0,
                span_id: parse_hex_u64(carrier[s])->0,
            },
        ) && c.baggage() == text_map_baggage(carrier)
    }
}

/// Extracting a span context from a text map is determined by the carrier
/// (its entries and its key order): two extractions from the same carrier,
/// such as `extract_from_text_map` and `extract_from_http_headers`, both
/// succeed with the same identity and baggage, or both fail with the same
/// message.
pub proof fn lemma_text_extraction_determined(
    carrier: Map<Seq<char>, Seq<char>>,
    order: Seq<Seq<char>>,
    r1: Result<SpanContext, SpanContextCorrupted>,
    r2: Result<SpanContext, SpanContextCorrupted>,
)
    requires
        lightstep_text_extraction(carrier, order, r1),
        lightstep_text_extraction(carrier, order, r2),
    ensures
        match (r1, r2) {
            (Ok(a), Ok(b)) => a.state == b.state && a.baggage() == b.baggage(),
            (Err(a), Err(b)) => a.message@ == b.message@,
            _ => false,
        },
{
}

/// What injecting a LightStep span context into a text map does: the trace
/// id and span id in hexadecimal, `sampled` as `false`, then one
/// `ot-baggage-<k>` key per baggage item, in order.
pub open spec fn lightstep_text_injection(
    context: SpanContext,
    before: Map<Seq<char>, Seq<char>>,
    after: Map<Seq<char>, Seq<char>>,
) -> bool {
    let state = context.state->LightStep_0;
    after == insert_all(
        before.insert(TEXT_MAP_TRACE_ID_FIELD@, hex_digits(state.trace_id as nat)).insert(
            TEXT_MAP_SPAN_ID_FIELD@,
            hex_digits(state.span_id as nat),
        ).insert(TEXT_MAP_SAMPLED_FIELD@, "false"@),
        prefixed_baggage(entry_views(context.baggage_items.entries())),
    )
}

/// Reads a text map carrier as a LightStep span context.
pub fn extract_text_map<C: CarrierMap>(carrier: &C) -> (r: Result<SpanContext, SpanContextCorrupted>)
    ensures
        lightstep_text_extraction(carrier.entries_map(), carrier.key_order(), r),
{
    let ghost m = carrier.entries_map();
    let ghost t = TEXT_MAP_TRACE_ID_FIELD@;
    let ghost s = TEXT_MAP_SPAN_ID_FIELD@;
    proof {
        lemma_fields_are_not_baggage_keys();
    }
    let keys = carrier.keys();
    let ghost order = carrier.key_order();
    proof {
        assert forall|a: int| 0 <= a < keys@.len() implies #[trigger] keys@[a]@ == order[a] by {
            assert(keys@.map_values(|k: String| k@)[a] == keys@[a]@);
        }
    }
    let trace_field = TEXT_MAP_TRACE_ID_FIELD.to_owned();
    let span_field = TEXT_MAP_SPAN_ID_FIELD.to_owned();
    let mut trace_id: Option<u64> = None;
    let mut span_id: Option<u64> = None;
    let mut baggage_items: StrMap<String> = StrMap::new();
    let n = keys.len();
    let mut i: usize = 0;
    while i < n
        invariant
            m == carrier.entries_map(),
            order == carrier.key_order(),
            order.len() == keys@.len(),
            forall|a: int| 0 <= a < keys@.len() ==> #[trigger] keys@[a]@ == order[a],
            t == TEXT_MAP_TRACE_ID_FIELD@,
            s == TEXT_MAP_SPAN_ID_FIELD@,
            trace_field@ == t,
            span_field@ == s,
            !is_baggage_key(t),
            !is_baggage_key(s),
            t != s,
            TEXT_MAP_PREFIX_BAGGAGE@.len() == 11,
            n == keys@.len(),
            i <= n,
            forall|a: int, b: int|
                0 <= a < b < keys@.len() ==> #[trigger] keys@[a]@ != #[trigger] keys@[b]@,
            forall|a: int| 0 <= a < keys@.len() ==> m.contains_key(#[trigger] keys@[a]@),
            forall|k: Seq<char>|
                #[trigger] m.contains_key(k) ==> exists|a: int|
                    0 <= a < keys@.len() && #[trigger] keys@[a]@ == k,
            trace_id == (if exists|a: int| 0 <= a < i && #[trigger] keys@[a]@ == t {
                parse_hex_u64(m[t])
            } else {
                None::<u64>
            }),
            span_id == (if exists|a: int| 0 <= a < i && #[trigger] keys@[a]@ == s {
                parse_hex_u64(m[s])
            } else {
                None::<u64>
            }),
            (exists|a: int| 0 <= a < i && #[trigger] keys@[a]@ == t) ==> !field_malformed(m, t),
            (exists|a: int| 0 <= a < i && #[trigger] keys@[a]@ == s) ==> !field_malformed(m, s),
            baggage_view(baggage_items) == Map::new(
                |b: Seq<char>|
                    exists|a: int|
                        0 <= a < i && #[trigger] keys@[a]@ == TEXT_MAP_PREFIX_BAGGAGE@ + b,
                |b: Seq<char>| m[TEXT_MAP_PREFIX_BAGGAGE@ + b],
            ),
        decreases n - i,
    {
        let key = &keys[i];
        let ghost kv = keys@[i as int]@;
        if *key == trace_field {
            match carrier.get(key.as_str()) {
                Some(v) => match parse_hex(v) {
                    Some(tid) => {
                        trace_id = Some(tid);
                    },
                    None => {
                        proof {
                            if field_malformed(m, s) {
                                let j = choose|j: int| 0 <= j < keys@.len() && #[trigger] keys@[j]@ == s;
                                if j < i {
                                    assert(keys@[j]@ == s);
                                }
                                assert(order[i as int] == t && order[j] == s);
                            }
                        }
                        return Err(
                            SpanContextCorrupted {
                                message: "ot-tracer-traceid is not a hexadecimal u64".to_owned(),
                            },
                        );
                    },
                },
                None => {
                    proof {
                        assert(false);
                    }
                },
            }
        } else if *key == span_field {
            match carrier.get(key.as_str()) {
                Some(v) => match parse_hex(v) {
                    Some(sid) => {
                        span_id = Some(sid);
                    },
                    None => {
                        proof {
                            if field_malformed(m, t) && comes_before(order, t, s) {
                                let (a, b) = choose|a: int, b: int|
                                    0 <= a < b < order.len() && #[trigger] order[a] == t
                                        && #[trigger] order[b] == s;
                                assert(keys@[b]@ == s && keys@[i as int]@ == s);
                                if b != i {
                                    if b < i {
                                        assert(keys@[b]@ != keys@[i as int]@);
                                    } else {
                                        assert(keys@[i as int]@ != keys@[b]@);
                                    }
                                }
                                assert(keys@[a]@ == t);
                            }
                        }
                        return Err(
                            SpanContextCorrupted {
                                message: "ot-tracer-spanid is not a hexadecimal u64".to_owned(),
                            },
                        );
                    },
                },
                None => {
                    proof {
                        assert(false);
                    }
                },
            }
        } else if has_prefix(key.as_str(), TEXT_MAP_PREFIX_BAGGAGE) {
            let baggage_key = suffix_from(key.as_str(), 11);
            proof {
                assert(baggage_key@ == baggage_key_of(kv));
                lemma_baggage_key(kv);
            }
            match carrier.get(key.as_str()) {
                Some(v) => {
                    let ghost before = baggage_view(baggage_items);
                    baggage_items.insert(baggage_key, v.to_owned());
                    proof {
                        assert(baggage_view(baggage_items) =~= before.insert(
                            baggage_key_of(kv),
                            m[kv],
                        ));
                    }
                },
                None => {
                    proof {
                        assert(false);
                    }
                },
            }
        }
        proof {
            // The baggage map after this key.
            let next = Map::new(
                |b: Seq<char>|
                    exists|a: int|
                        0 <= a < i + 1 && #[trigger] keys@[a]@ == TEXT_MAP_PREFIX_BAGGAGE@ + b,
                |b: Seq<char>| m[TEXT_MAP_PREFIX_BAGGAGE@ + b],
            );
            assert forall|b: Seq<char>| #[trigger] next.contains_key(b) <==> baggage_view(
                baggage_items,
            ).contains_key(b) by {
                if next.contains_key(b) {
                    let a = choose|a: int|
                        0 <= a < i + 1 && #[trigger] keys@[a]@ == TEXT_MAP_PREFIX_BAGGAGE@ + b;
                    if a == i {
                        assert((TEXT_MAP_PREFIX_BAGGAGE@ + b).subrange(0, 11) =~= TEXT_MAP_PREFIX_BAGGAGE@);
                        assert(baggage_key_of(kv) =~= b);
                    }
                }
            }
            assert(baggage_view(baggage_items) =~= next);
        }
        i = i + 1;
    }
    match (trace_id, span_id) {
        (None, _) => {
            proof {
                if m.contains_key(t) {
                    let a = choose|a: int| 0 <= a < keys@.len() && #[trigger] keys@[a]@ == t;
                }
            }
            Err(SpanContextCorrupted { message: "ot-tracer-traceid is missing".to_owned() })
        },
        (_, None) => {
            proof {
                if m.contains_key(s) {
                    let a = choose|a: int| 0 <= a < keys@.len() && #[trigger] keys@[a]@ == s;
                }
            }
            Err(SpanContextCorrupted { message: "ot-tracer-spanid is missing".to_owned() })
        },
        (Some(tid), Some(sid)) => {
            let c = SpanContext {
                state: SpanContextState::LightStep(
                    LightStepSpanContextState { trace_id: tid, span_id: sid },
                ),
                baggage_items,
            };
            proof {
                assert forall|b: Seq<char>| #[trigger] text_map_baggage(m).contains_key(b)
                    <==> c.baggage().contains_key(b) by {
                    if text_map_baggage(m).contains_key(b) {
                        let a = choose|a: int|
                            0 <= a < keys@.len() && #[trigger] keys@[a]@ == TEXT_MAP_PREFIX_BAGGAGE@ + b;
                    }
                }
                assert(c.baggage() =~= text_map_baggage(m));
            }
            Ok(c)
        },
    }
}

/// Writes a LightStep span context into a text map carrier: its identity
/// and its baggage.
pub fn inject_text_map<C: CarrierMap>(span_context: &SpanContext, carrier: &mut C)
    requires
        span_context.state is LightStep,
    ensures
        lightstep_text_injection(*span_context, old(carrier).entries_map(), final(carrier).entries_map()),
{
    let state = LightStepSpanContextState::from_trait_object(&span_context.state);
    let trace_id = format_hex(state.trace_id);
    let span_id = format_hex(state.span_id);
    carrier.set(TEXT_MAP_TRACE_ID_FIELD, trace_id.as_str());
    carrier.set(TEXT_MAP_SPAN_ID_FIELD, span_id.as_str());
    carrier.set(TEXT_MAP_SAMPLED_FIELD, "false");
    let ghost base = carrier.entries_map();
    let ghost es = prefixed_baggage(entry_views(span_context.baggage_items.entries()));
    let baggage = &span_context.baggage_items;
    let n = baggage.len();
    let mut i: usize = 0;
    assert(es.take(0) =~= Seq::<(Seq<char>, Seq<char>)>::empty());
    while i < n
        invariant
            n == baggage.entries().len(),
            es == prefixed_baggage(entry_views(baggage.entries())),
            i <= n,
            carrier.entries_map() == insert_all(base, es.take(i as int)),
        decreases n - i,
    {
        let (k, v) = baggage.entry_at(i);
        let mut key = String::from_str(TEXT_MAP_PREFIX_BAGGAGE);
        key.append(k.as_str());
        carrier.set(key.as_str(), v.as_str());
        proof {
            assert(es[i as int] == (key@, v@));
            assert(es.take(i + 1) =~= es.take(i as int).push(es[i as int]));
            lemma_insert_all_push(base, es.take(i as int), es[i as int]);
        }
        i = i + 1;
    }
    assert(es.take(n as int) =~= es);
}

/// Inserting a key that carries no baggage leaves the baggage read from a
/// text map as it was.
proof fn lemma_text_map_baggage_insert_field(m: Map<Seq<char>, Seq<char>>, k: Seq<char>, v: Seq<char>)
    requires
        !is_baggage_key(k),
    ensures
        text_map_baggage(m.insert(k, v)) == text_map_baggage(m),
{
    assert forall|b: Seq<char>| (TEXT_MAP_PREFIX_BAGGAGE@ + b) != k by {
        let kb = TEXT_MAP_PREFIX_BAGGAGE@ + b;
        assert(kb.subrange(0, TEXT_MAP_PREFIX_BAGGAGE@.len() as int) =~= TEXT_MAP_PREFIX_BAGGAGE@);
    }
    assert(text_map_baggage(m.insert(k, v)) =~= text_map_baggage(m));
}

/// Inserting `ot-baggage-<k>` inserts the item `k` into the baggage read
/// from a text map.
proof fn lemma_text_map_baggage_insert_item(m: Map<Seq<char>, Seq<char>>, k: Seq<char>, v: Seq<char>)
    ensures
        text_map_baggage(m.insert(TEXT_MAP_PREFIX_BAGGAGE@ + k, v)) == text_map_baggage(m).insert(k, v),
        is_baggage_key(TEXT_MAP_PREFIX_BAGGAGE@ + k),
{
    let p = TEXT_MAP_PREFIX_BAGGAGE@;
    assert((p + k).subrange(0, p.len() as int) =~= p);
    assert forall|b: Seq<char>| (p + b) == (p + k) implies b == k by {
        assert(b =~= (p + b).subrange(p.len() as int, (p + b).len() as int));
        assert(k =~= (p + k).subrange(p.len() as int, (p + k).len() as int));
    }
    assert(text_map_baggage(m.insert(p + k, v)) =~= text_map_baggage(m).insert(k, v));
}

/// Writing baggage items under their `ot-baggage-` keys: the keys that carry
/// no baggage keep their values, and the baggage read back gains the items.
proof fn lemma_insert_prefixed(m: Map<Seq<char>, Seq<char>>, es: Seq<(Seq<char>, Seq<char>)>)
    ensures
        text_map_baggage(insert_all(m, prefixed_baggage(es))) == insert_all(text_map_baggage(m), es),
        forall|k: Seq<char>|
            !is_baggage_key(k) ==> (#[trigger] insert_all(m, prefixed_baggage(es)).contains_key(k)
                == m.contains_key(k) && insert_all(m, prefixed_baggage(es))[k] == m[k]),
    decreases es.len(),
{
    if es.len() == 0 {
        assert(prefixed_baggage(es) =~= Seq::<(Seq<char>, Seq<char>)>::empty());
        reveal_with_fuel(insert_all, 1);
    } else {
        let init = es.drop_last();
        let e = es.last();
        lemma_insert_prefixed(m, init);
        assert(prefixed_baggage(es) =~= prefixed_baggage(init).push((TEXT_MAP_PREFIX_BAGGAGE@ + e.0, e.1)));
        assert(es =~= init.push(e));
        lemma_insert_all_push(m, prefixed_baggage(init), (TEXT_MAP_PREFIX_BAGGAGE@ + e.0, e.1));
        lemma_insert_all_push(text_map_baggage(m), init, e);
        lemma_text_map_baggage_insert_item(insert_all(m, prefixed_baggage(init)), e.0, e.1);
    }
}

/// Injecting a LightStep span context into a text map and extracting it
/// again gives back its identity; from a carrier without baggage keys (an
/// empty one, say), also exactly its baggage.
pub proof fn lemma_text_map_round_trip(
    context: SpanContext,
    before: Map<Seq<char>, Seq<char>>,
    after: Map<Seq<char>, Seq<char>>,
    order: Seq<Seq<char>>,
    result: Result<SpanContext, SpanContextCorrupted>,
)
    requires
        context.state is LightStep,
        lightstep_text_injection(context, before, after),
        lightstep_text_extraction(after, order, result),
    ensures
        result matches Ok(c) && c.state == context.state,
        (forall|k: Seq<char>| #[trigger] before.contains_key(k) ==> !is_baggage_key(k)) ==> (
        result matches Ok(c) && c.baggage() == context.baggage()),
{
    let state = context.state->LightStep_0;
    let t = TEXT_MAP_TRACE_ID_FIELD@;
    let s = TEXT_MAP_SPAN_ID_FIELD@;
    let f = TEXT_MAP_SAMPLED_FIELD@;
    let es = entry_views(context.baggage_items.entries());
    let m1 = before.insert(t, hex_digits(state.trace_id as nat));
    let m2 = m1.insert(s, hex_digits(state.span_id as nat));
    let m3 = m2.insert(f, "false"@);
    lemma_fields_are_not_baggage_keys();
    crate::text::lemma_parse_hex_round_trip(state.trace_id);
    crate::text::lemma_parse_hex_round_trip(state.span_id);
    lemma_insert_prefixed(m3, es);
    assert(after[t] == m3[t]);
    assert(after[s] == m3[s]);
    assert(after.contains_key(t) && after.contains_key(s));
    lemma_text_map_baggage_insert_field(before, t, hex_digits(state.trace_id as nat));
    lemma_text_map_baggage_insert_field(m1, s, hex_digits(state.span_id as nat));
    lemma_text_map_baggage_insert_field(m2, f, "false"@);
    if forall|k: Seq<char>| #[trigger] before.contains_key(k) ==> !is_baggage_key(k) {
        assert forall|b: Seq<char>| !#[trigger] text_map_baggage(before).contains_key(b) by {
            let k = TEXT_MAP_PREFIX_BAGGAGE@ + b;
            assert(k.subrange(0, 11) =~= TEXT_MAP_PREFIX_BAGGAGE@);
            if before.contains_key(k) {
                assert(is_baggage_key(k));
            }
        }
        assert(text_map_baggage(before) =~= Map::<Seq<char>, Seq<char>>::empty());
        lemma_insert_all_map_of(context.baggage_items.entries());
    }
}

/// The standard base64 encoding (with padding) of some bytes: the
/// characters of the string `base64::encode` returns, as bytes.
pub uninterp spec fn base64_encoding(data: Seq<u8>) -> Seq<u8>;

/// What `base64::decode` gives for some bytes: the decoded bytes, or
/// nothing when they are not valid base64 of the standard alphabet.
pub uninterp spec fn base64_decoding(data: Seq<u8>) -> Option<Seq<u8>>;

/// A byte of the standard base64 alphabet, or the padding `=`.
pub open spec fn is_base64_byte(b: u8) -> bool {
    (0x41 <= b <= 0x5a) || (0x61 <= b <= 0x7a) || (0x30 <= b <= 0x39) || b == 0x2b || b == 0x2f || b
        == 0x3d
}

#[verifier::external_type_specification]
#[verifier::external_body]
pub struct ExBase64DecodeError(base64::DecodeError);

/// `base64::encode` (standard alphabet, padded), as the bytes of the
/// returned string; the encoding decodes back to the data. The bound keeps
/// clear of the size computation that panics on overflow.
#[verifier::external_body]
fn base64_encode(data: &[u8]) -> (r: Vec<u8>)
    requires
        data@.len() <= usize::MAX / 2,
    ensures
        r@ == base64_encoding(data@),
        base64_decoding(r@) == Some(data@),
        r@.len() == 4 * ((data@.len() + 2) / 3),
        forall|i: int| 0 <= i < r@.len() ==> is_base64_byte(#[trigger] r@[i]),
{
    base64::encode(data).into_bytes()
}

/// `base64::decode`: fails exactly when `base64_decoding` gives nothing,
/// and otherwise gives those bytes. Inputs within 7 bytes of `usize::MAX`
/// make its size computation panic, so they are left out.
#[verifier::external_body]
fn base64_decode(data: &[u8]) -> (r: Result<Vec<u8>, base64::DecodeError>)
    requires
        data@.len() + 7 <= usize::MAX,
    ensures
        r is Ok <==> base64_decoding(data@) is Some,
        r matches Ok(v) ==> base64_decoding(data@) == Some(v@),
{
    base64::decode(data)
}

/// The text of a base64 decoding error (its `Display`); nothing is promised
/// of the text.
#[verifier::external_body]
fn base64_error_message(e: &base64::DecodeError) -> String {
    format!("{}", e)
}

/// The message of the error for a binary carrier that is not a
/// `BinaryCarrier` message.
pub open spec fn invalid_message_message() -> Seq<char> {
    "failed to decode Protobuf message"@
}

/// The message of the error for a binary carrier without `basic_ctx`.
pub open spec fn missing_basic_ctx_message() -> Seq<char> {
    "missing basic_ctx"@
}

/// The protobuf encoding of a LightStep span context.
pub open spec fn lightstep_binary_encoding(context: SpanContext) -> Seq<u8> {
    encode_binary_carrier(
        context.state->LightStep_0.trace_id,
        context.state->LightStep_0.span_id,
        entry_views(context.baggage_items.entries()),
    )
}

/// What injecting a LightStep span context as a binary carrier gives: the
/// base64 text of its protobuf encoding (which base64-decodes back to it).
pub open spec fn lightstep_binary_injection(context: SpanContext, bytes: Seq<u8>) -> bool {
    &&& bytes == base64_encoding(lightstep_binary_encoding(context))
    &&& base64_decoding(bytes) == Some(lightstep_binary_encoding(context))
    &&& bytes.len() == 4 * ((lightstep_binary_encoding(context).len() + 2) / 3)
    &&& bytes.len() >= 4
    &&& forall|i: int| 0 <= i < bytes.len() ==> is_base64_byte(#[trigger] bytes[i])
}

/// What extracting a LightStep span context from a binary carrier gives.
pub open spec fn lightstep_binary_extraction(
    bytes: Seq<u8>,
    result: Result<SpanContext, SpanContextCorrupted>,
) -> bool {
    match base64_decoding(bytes) {
        None => result is Err,
        Some(raw) => match decode_binary_carrier(raw) {
            None => result matches Err(e) && e.message@ == invalid_message_message(),
            Some(None) => result matches Err(e) && e.message@ == missing_basic_ctx_message(),
            Some(Some(c)) => result matches Ok(ctx) && ctx.state == SpanContextState::LightStep(
                LightStepSpanContextState { trace_id: c.trace_id, span_id: c.span_id },
            ) && ctx.baggage() == c.baggage,
        },
    }
}

/// Writes a LightStep span context as a binary carrier.
pub fn inject_binary(context: &SpanContext) -> (b: Vec<u8>)
    requires
        context.state is LightStep,
        lightstep_binary_encoding(*context).len() <= usize::MAX / 2,
    ensures
        lightstep_binary_injection(*context, b@),
{
    let state = LightStepSpanContextState::from_trait_object(&context.state);
    let encoded = encode_carrier(state, &context.baggage_items);
    proof {
        assert(crate::wire::field_key(2, 2) =~= seq![18u8]);
        assert(encoded@.len() >= 1);
    }
    base64_encode(encoded.as_slice())
}

/// Reads a binary carrier as a LightStep span context.
pub fn extract_binary(carrier: &[u8]) -> (r: Result<SpanContext, SpanContextCorrupted>)
    requires
        carrier@.len() + 7 <= usize::MAX,
    ensures
        lightstep_binary_extraction(carrier@, r),
{
    let raw = match base64_decode(carrier) {
        Ok(raw) => raw,
        Err(e) => {
            return Err(SpanContextCorrupted { message: base64_error_message(&e) });
        },
    };
    match decode_carrier(raw.as_slice()) {
        None => Err(SpanContextCorrupted { message: "failed to decode Protobuf message".to_owned() }),
        Some(None) => Err(SpanContextCorrupted { message: "missing basic_ctx".to_owned() }),
        Some(Some(c)) => Ok(
            SpanContext {
                state: SpanContextState::LightStep(
                    LightStepSpanContextState { trace_id: c.trace_id, span_id: c.span_id },
                ),
                baggage_items: c.baggage_items,
            },
        ),
    }
}

/// Injecting a LightStep span context as a binary carrier and extracting it
/// again gives back its identity and its baggage.
pub proof fn lemma_binary_round_trip(
    context: SpanContext,
    bytes: Seq<u8>,
    result: Result<SpanContext, SpanContextCorrupted>,
)
    requires
        context.state is LightStep,
        lightstep_binary_encoding(context).len() <= usize::MAX / 2,
        lightstep_binary_injection(context, bytes),
        lightstep_binary_extraction(bytes, result),
    ensures
        bytes.len() + 7 <= usize::MAX,
        result matches Ok(c) && c.state == context.state && c.baggage() == context.baggage(),
{
    let n = lightstep_binary_encoding(context).len();
    assert(4 * ((n + 2) / 3) + 7 <= usize::MAX) by (nonlinear_arith)
        requires
            n <= usize::MAX / 2,
            usize::MAX >= 0xffff_ffff,
    ;
    let s = context.state->LightStep_0;
    lemma_carrier_round_trip(s.trace_id, s.span_id, entry_views(context.baggage_items.entries()));
    lemma_insert_all_map_of(context.baggage_items.entries());
}

/// A binary carrier written by any LightStep tracer, whatever its `sampled`
/// flag, is read as the identity and the baggage it carries.
pub proof fn lemma_binary_extraction_accepts_sampled(
    trace_id: u64,
    span_id: u64,
    sampled: bool,
    es: Seq<(Seq<char>, Seq<char>)>,
    bytes: Seq<u8>,
    result: Result<SpanContext, SpanContextCorrupted>,
)
    requires
        encode_binary_carrier_sampled(trace_id, span_id, sampled, es).len() <= u64::MAX,
        base64_decoding(bytes) == Some(encode_binary_carrier_sampled(trace_id, span_id, sampled, es)),
        lightstep_binary_extraction(bytes, result),
    ensures
        result matches Ok(c) && c.state == SpanContextState::LightStep(
            LightStepSpanContextState { trace_id, span_id },
        ) && c.baggage() == insert_all(Map::empty(), es),
{
    lemma_carrier_round_trip_sampled(trace_id, span_id, sampled, es);
}

/// The configuration of a LightStep tracer, as values.
pub struct LightStepConfigView {
    pub access_token: Option<Seq<char>>,
    pub component_name: Option<Seq<char>>,
    pub tags: StrMap<Value>,
    pub collector_host: Seq<char>,
    pub collector_port: usize,
    pub buffer_size: usize,
    pub send_period: Duration,
    pub send_timeout: Duration,
}

/// The view of an optional string.
pub open spec fn optional_string_view(s: Option<String>) -> Option<Seq<char>> {
    match s {
        Some(x) => Some(x@),
        None => None,
    }
}

/// A copy of an optional string.
fn copy_optional_string(s: &Option<String>) -> (r: Option<String>)
    ensures
        optional_string_view(r) == optional_string_view(*s),
{
    match s {
        Some(x) => Some(x.clone()),
        None => None,
    }
}

/// The configuration of a LightStep tracer.
pub struct LightStepConfig {
    access_token: Option<String>,
    component_name: Option<String>,
    tags: StrMap<Value>,
    collector_host: String,
    collector_port: usize,
    buffer_size: usize,
    send_period: Duration,
    send_timeout: Duration,
}

impl View for LightStepConfig {
    type V = LightStepConfigView;

    closed spec fn view(&self) -> LightStepConfigView {
        LightStepConfigView {
            access_token: optional_string_view(self.access_token),
            component_name: optional_string_view(self.component_name),
            tags: self.tags,
            collector_host: self.collector_host@,
            collector_port: self.collector_port,
            buffer_size: self.buffer_size,
            send_period: self.send_period,
            send_timeout: self.send_timeout,
        }
    }
}

impl Clone for LightStepConfig {
    fn clone(&self) -> (r: LightStepConfig)
        ensures
            r@ == (LightStepConfigView { tags: r@.tags, ..self@ }),
            r@.tags.entries() == self@.tags.entries(),
    {
        LightStepConfig {
            access_token: copy_optional_string(&self.access_token),
            component_name: copy_optional_string(&self.component_name),
            tags: self.tags.clone(),
            collector_host: self.collector_host.clone(),
            collector_port: self.collector_port,
            buffer_size: self.buffer_size,
            send_period: self.send_period,
            send_timeout: self.send_timeout,
        }
    }
}

/// The URL of the collector's report endpoint.
pub open spec fn collector_url_spec(host: Seq<char>, port: usize) -> Seq<char> {
    "https://"@ + host + ":"@ + decimal_digits(port as nat) + "/api/v2/reports"@
}

impl LightStepConfig {
    /// The default configuration: no access token or component name, no
    /// tags, `collector.lightstep.com:443`, a buffer of 1000 spans, a send
    /// period of 2.5 s and a send timeout of 30 s.
    pub fn new() -> (c: LightStepConfig)
        ensures
            c@.access_token is None,
            c@.component_name is None,
            c@.tags.entries().len() == 0,
            c@.collector_host == "collector.lightstep.com"@,
            c@.collector_port == 443,
            c@.buffer_size == 1000,
            c@.send_period == duration_of_millis(2_500),
            c@.send_timeout == duration_of_secs(30),
    {
        LightStepConfig {
            access_token: None,
            component_name: None,
            tags: StrMap::new(),
            collector_host: "collector.lightstep.com".to_owned(),
            collector_port: 443,
            // Copied from LightStep's own tracer implementations
            buffer_size: 1000,
            send_period: duration_from_millis(2_500),
            send_timeout: duration_from_secs(30),
        }
    }

    /// Sets the LightStep access token for your collector.
    pub fn access_token(&mut self, access_token: &str) -> (r: &mut Self)
        ensures
            *final(self) == *final(r),
            r@ == (LightStepConfigView { access_token: Some(access_token@), ..old(self)@ }),
    {
        self.access_token = Some(access_token.to_owned());
        self
    }

    /// Sets the component name.
    pub fn component_name(&mut self, component_name: &str) -> (r: &mut Self)
        ensures
            *final(self) == *final(r),
            r@ == (LightStepConfigView { component_name: Some(component_name@), ..old(self)@ }),
    {
        self.component_name = Some(component_name.to_owned());
        self
    }

    /// Add a global tag that applies to all spans.
    pub fn tag(&mut self, key: &str, value: Value) -> (r: &mut Self)
        ensures
            *final(self) == *final(r),
            r@ == (LightStepConfigView { tags: r@.tags, ..old(self)@ }),
            r@.tags.map() == old(self)@.tags.map().insert(key@, value),
            r@.tags.entries() == inserted(old(self)@.tags.entries(), key@, value),
    {
        self.tags.insert(key.to_owned(), value);
        self
    }

    /// Specify the hostname of the collector you are using.
    pub fn collector_host(&mut self, collector_host: &str) -> (r: &mut Self)
        ensures
            *final(self) == *final(r),
            r@ == (LightStepConfigView { collector_host: collector_host@, ..old(self)@ }),
    {
        self.collector_host = collector_host.to_owned();
        self
    }

    /// Specify the port of the collector you are using.
    pub fn collector_port(&mut self, collector_port: usize) -> (r: &mut Self)
        ensures
            *final(self) == *final(r),
            r@ == (LightStepConfigView { collector_port, ..old(self)@ }),
    {
        self.collector_port = collector_port;
        self
    }

    /// The URL spans are sent to.
    pub fn collector_url(&self) -> (u: String)
        ensures
            u@ == collector_url_spec(self@.collector_host, self@.collector_port),
    {
        let mut u = String::from_str("https://");
        u.append(self.collector_host.as_str());
        u.append(":");
        let port = format_decimal(self.collector_port as u128);
        u.append(port.as_str());
        u.append("/api/v2/reports");
        u
    }

    /// Sets the size of the buffer of finished spans waiting to be sent.
    pub fn buffer_size(&mut self, buffer_size: usize) -> (r: &mut Self)
        ensures
            *final(self) == *final(r),
            r@ == (LightStepConfigView { buffer_size, ..old(self)@ }),
    {
        self.buffer_size = buffer_size;
        self
    }

    /// Sets how long the tracer sleeps between sending spans.
    pub fn send_period(&mut self, send_period: Duration) -> (r: &mut Self)
        ensures
            *final(self) == *final(r),
            r@ == (LightStepConfigView { send_period, ..old(self)@ }),
    {
        self.send_period = send_period;
        self
    }

    /// The access token, if one is set.
    pub fn get_access_token(&self) -> (t: Option<&String>)
        ensures
            match t {
                Some(x) => self@.access_token == Some(x@),
                None => self@.access_token is None,
            },
    {
        self.access_token.as_ref()
    }

    /// The component name, if one is set.
    pub fn get_component_name(&self) -> (t: Option<&String>)
        ensures
            match t {
                Some(x) => self@.component_name == Some(x@),
                None => self@.component_name is None,
            },
    {
        self.component_name.as_ref()
    }

    /// The global tags.
    pub fn get_tags(&self) -> (t: &StrMap<Value>)
        ensures
            *t == self@.tags,
    {
        &self.tags
    }

    /// The size of the span buffer.
    pub fn get_buffer_size(&self) -> (n: usize)
        ensures
            n == self@.buffer_size,
    {
        self.buffer_size
    }

    /// The send period.
    pub fn get_send_period(&self) -> (d: Duration)
        ensures
            d == self@.send_period,
    {
        self.send_period
    }

    /// The send timeout.
    pub fn get_send_timeout(&self) -> (d: Duration)
        ensures
            d == self@.send_timeout,
    {
        self.send_timeout
    }

    /// A tracer with this configuration.
    pub fn build(&mut self) -> (t: LightStepTracer)
        ensures
            *final(self) == *old(self),
            t.config@ == (LightStepConfigView { tags: t.config@.tags, ..old(self)@ }),
            t.config@.tags.entries() == old(self)@.tags.entries(),
    {
        LightStepTracer::new_with_config(self.clone())
    }
}

/// A tracer that sends finished spans to a [LightStep](https://lightstep.com/) collector.
///
/// Spans are started and propagated here; sending them (a reporter thread
/// and HTTP) is done by the application around the library.
pub struct LightStepTracer {
    pub config: LightStepConfig,
}

impl LightStepTracer {
    /// A tracer with the default configuration.
    pub fn new() -> (t: LightStepTracer)
        ensures
            t.config@.collector_host == "collector.lightstep.com"@,
            t.config@.collector_port == 443,
            t.config@.buffer_size == 1000,
            t.config@.access_token is None,
            t.config@.component_name is None,
            t.config@.tags.entries().len() == 0,
            t.config@.send_period == duration_of_millis(2_500),
            t.config@.send_timeout == duration_of_secs(30),
    {
        let mut config = Self::build();
        config.build()
    }

    /// The default configuration, to be changed and then built.
    pub fn build() -> (c: LightStepConfig)
        ensures
            c@.access_token is None,
            c@.component_name is None,
            c@.tags.entries().len() == 0,
            c@.collector_host == "collector.lightstep.com"@,
            c@.collector_port == 443,
            c@.buffer_size == 1000,
            c@.send_period == duration_of_millis(2_500),
            c@.send_timeout == duration_of_secs(30),
    {
        LightStepConfig::new()
    }

    fn new_with_config(config: LightStepConfig) -> (t: LightStepTracer)
        ensures
            t.config == config,
    {
        LightStepTracer { config }
    }
}

/// Whether the first reference, if any, points to a LightStep context.
pub open spec fn lightstep_accepts_references(references: Seq<Reference>) -> bool {
    references.len() > 0 ==> references[0].to.state is LightStep
}

/// The context of a span started by the LightStep tracer: a fresh random
/// span id (never the span id of the first reference, so a child is told
/// apart from its parent); the trace id and baggage of the first reference,
/// if there is one, else a fresh random trace id and no baggage.
pub open spec fn lightstep_starts_context(references: Seq<Reference>, context: SpanContext) -> bool {
    &&& context.state is LightStep
    &&& references.len() > 0 ==> {
        &&& context.state->LightStep_0.trace_id == references[0].to.state->LightStep_0.trace_id
        &&& context.state->LightStep_0.span_id != references[0].to.state->LightStep_0.span_id
        &&& context.baggage_items.entries() == references[0].to.baggage_items.entries()
    }
    &&& references.len() == 0 ==> context.baggage_items.entries().len() == 0
}

/// A span that the LightStep tracer starts with a first reference to a
/// LightStep context belongs to the same trace and carries the same baggage
/// as that context, under a span id of its own.
pub proof fn lemma_child_span_inherits(parent: SpanContext, references: Seq<Reference>, child: SpanContext)
    requires
        parent.state is LightStep,
        references.len() > 0,
        references[0].to.state == parent.state,
        references[0].to.baggage_items.entries() == parent.baggage_items.entries(),
        lightstep_starts_context(references, child),
    ensures
        child.state is LightStep,
        child.state->LightStep_0.trace_id == parent.state->LightStep_0.trace_id,
        child.state->LightStep_0.span_id != parent.state->LightStep_0.span_id,
        child.state != parent.state,
        child.baggage() == parent.baggage(),
{
}

impl Tracer for LightStepTracer {
    open spec fn reads_state(&self, state: SpanContextState) -> bool {
        state is LightStep
    }

    open spec fn accepts_references(&self, references: Seq<Reference>) -> bool {
        lightstep_accepts_references(references)
    }

    open spec fn starts_context(&self, references: Seq<Reference>, context: SpanContext) -> bool {
        lightstep_starts_context(references, context)
    }

    open spec fn injects_text(
        &self,
        context: SpanContext,
        before: Map<Seq<char>, Seq<char>>,
        after: Map<Seq<char>, Seq<char>>,
    ) -> bool {
        lightstep_text_injection(context, before, after)
    }

    open spec fn reads_text(&self, carrier: Map<Seq<char>, Seq<char>>) -> bool {
        true
    }

    open spec fn extracts_text(
        &self,
        carrier: Map<Seq<char>, Seq<char>>,
        key_order: Seq<Seq<char>>,
        result: Result<SpanContext, SpanContextCorrupted>,
    ) -> bool {
        lightstep_text_extraction(carrier, key_order, result)
    }

    open spec fn can_inject_binary(&self, context: SpanContext) -> bool {
        &&& context.state is LightStep
        &&& lightstep_binary_encoding(context).len() <= usize::MAX / 2
    }

    open spec fn reads_binary(&self, bytes: Seq<u8>) -> bool {
        bytes.len() + 7 <= usize::MAX
    }

    open spec fn injects_binary(&self, context: SpanContext, bytes: Seq<u8>) -> bool {
        lightstep_binary_injection(context, bytes)
    }

    open spec fn extracts_binary(
        &self,
        bytes: Seq<u8>,
        result: Result<SpanContext, SpanContextCorrupted>,
    ) -> bool {
        lightstep_binary_extraction(bytes, result)
    }

    fn span<'a>(&'a self, operation_name: &str) -> (b: SpanBuilder<'a, Self>) {
        SpanBuilder::new(self, operation_name)
    }

    fn span_with_options(&self, options: SpanOptions) -> (s: Span) {
        let mut state = new_lightstep_state();
        let span_context = if options.references.len() > 0 {
            let parent_span_context = &options.references[0].to;
            let parent_state = LightStepSpanContextState::from_trait_object(&parent_span_context.state);
            state.trace_id = parent_state.trace_id;
            if state.span_id == parent_state.span_id {
                // The draw hit the parent's id; take another.
                state.span_id = random_u64();
                if state.span_id == parent_state.span_id {
                    state.span_id = parent_state.span_id.wrapping_add(1);
                }
            }
            SpanContext {
                state: SpanContextState::LightStep(state),
                baggage_items: parent_span_context.baggage_items.clone(),
            }
        } else {
            SpanContext::new(SpanContextState::LightStep(state))
        };
        Span::new(span_context, options)
    }

    fn inject_into_text_map<C: CarrierMap>(&self, span_context: &SpanContext, carrier: &mut C) {
        inject_text_map(span_context, carrier);
    }

    fn extract_from_text_map<C: CarrierMap>(&self, carrier: &C) -> (r: Result<
        SpanContext,
        SpanContextCorrupted,
    >) {
        extract_text_map(carrier)
    }

    fn inject_into_binary(&self, span_context: &SpanContext) -> (b: Vec<u8>) {
        inject_binary(span_context)
    }

    fn extract_from_binary(&self, carrier: &[u8]) -> (r: Result<SpanContext, SpanContextCorrupted>) {
        extract_binary(carrier)
    }
}

} // verus!
