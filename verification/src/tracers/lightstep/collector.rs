//! The messages sent to a LightStep collector (`lightstep.collector`), and
//! the conversion of spans into them.
//!
//! Message layouts: `SpanContext { uint64 trace_id = 1; uint64 span_id = 2;
//! map<string, string> baggage = 3; }`, `KeyValue { string key = 1; oneof
//! value { string string_value = 2; int64 int_value = 3; double
//! double_value = 4; bool bool_value = 5; string json_value = 6; } }`,
//! `Log { Timestamp timestamp = 1; repeated KeyValue fields = 2; }`,
//! `Reference { Relationship relationship = 1; SpanContext span_context = 2; }`,
//! `Span { SpanContext span_context = 1; string operation_name = 2; repeated
//! Reference references = 3; Timestamp start_timestamp = 4; uint64
//! duration_micros = 5; repeated KeyValue tags = 6; repeated Log logs = 7; }`,
//! `Reporter { uint64 reporter_id = 1; repeated KeyValue tags = 4; }`,
//! `Auth { string access_token = 1; }`, `ReportRequest { Reporter reporter = 1;
//! Auth auth = 2; repeated Span spans = 3; int64 timestamp_offset_micros = 5;
//! InternalMetrics internal_metrics = 6; }` and the well-known `Timestamp
//! { int64 seconds = 1; int32 nanos = 2; }`.
use crate::context::SpanContext;
use crate::span::{FinishedSpan, Reference, ReferenceType, SpanData, Timestamp};
use crate::strmap::StrMap;
use crate::tracers::lightstep::carrier::{entry_views, encode_map_entries, optional_string, put_string_map};
use crate::text::{decimal_digits, format_decimal, format_signed_decimal, signed_decimal};
use crate::tracers::lightstep::fields::{
    lemma_reference_reads, lemma_span_context_reads, lemma_span_references_read, message_fields,
    payloads, reads_as_reference, reads_as_span_context,
};
use crate::value::{Event, Value};
use crate::wire::{
    field_key, field_len_delimited, field_string, le_bytes, put_fixed64, put_key, put_len_delimited,
    put_string, put_varint, varint,
};
use vstd::string::StringExecFns;
use vstd::prelude::*;

verus! {

/// The value of a `KeyValue`.
pub enum KeyValueValue {
    StringValue(String),
    IntValue(i64),
    /// A double, as its IEEE-754 bits.
    DoubleValue(u64),
    BoolValue(bool),
    JsonValue(String),
}

/// A tag or log field as the collector receives it.
pub struct KeyValue {
    pub key: String,
    pub value: Option<KeyValueValue>,
}

/// Whether a `KeyValueValue` is what an integer is sent as.
pub open spec fn is_numeric_value(v: KeyValueValue, n: int) -> bool {
    if i64::MIN <= n <= i64::MAX {
        v == KeyValueValue::IntValue(n as i64)
    } else {
        v matches KeyValueValue::StringValue(s) && s@ == signed_decimal(n)
    }
}

/// An integer as a `KeyValue` value: an `int_value` when it fits in an
/// `i64`, else a `string_value` with its decimal text.
pub fn serialize_numeric_to_value(n: i128) -> (v: KeyValueValue)
    ensures
        is_numeric_value(v, n as int),
{
    if i64::MIN as i128 <= n && n <= i64::MAX as i128 {
        KeyValueValue::IntValue(n as i64)
    } else {
        KeyValueValue::StringValue(format_signed_decimal(n))
    }
}

/// A `u128` as a `KeyValue` value (see `serialize_numeric_to_value`).
pub fn serialize_u128_to_value(n: u128) -> (v: KeyValueValue)
    ensures
        is_numeric_value(v, n as int),
{
    if n <= i64::MAX as u128 {
        KeyValueValue::IntValue(n as i64)
    } else {
        let s = format_decimal(n);
        assert(signed_decimal(n as int) == decimal_digits(n as nat));
        KeyValueValue::StringValue(s)
    }
}

/// The integer a numeric tag value holds.
pub open spec fn numeric_of(v: Value) -> int {
    match v {
        Value::U8(n) => n as int,
        Value::U16(n) => n as int,
        Value::U32(n) => n as int,
        Value::U64(n) => n as int,
        Value::U128(n) => n as int,
        Value::I8(n) => n as int,
        Value::I16(n) => n as int,
        Value::I32(n) => n as int,
        Value::I64(n) => n as int,
        Value::I128(n) => n as int,
        Value::USize(n) => n as int,
        Value::ISize(n) => n as int,
        _ => 0,
    }
}

/// Whether a `KeyValueValue` is what a tag value is sent as: strings and
/// booleans as themselves, floating-point values as doubles, integers as
/// `is_numeric_value` says.
pub open spec fn is_serialized_value(v: Value, w: KeyValueValue) -> bool {
    match v {
        Value::String(s) => w matches KeyValueValue::StringValue(t) && t@ == s@,
        Value::Bool(b) => w == KeyValueValue::BoolValue(b),
        Value::F32(bits) => w == KeyValueValue::DoubleValue(bits),
        Value::F64(bits) => w == KeyValueValue::DoubleValue(bits),
        _ => is_numeric_value(w, numeric_of(v)),
    }
}

/// A tag value as the collector receives it.
pub fn serialize_value(value: &Value) -> (w: KeyValueValue)
    ensures
        is_serialized_value(*value, w),
{
    match value {
        Value::String(s) => KeyValueValue::StringValue(s.clone()),
        Value::Bool(b) => KeyValueValue::BoolValue(*b),
        Value::F32(bits) => KeyValueValue::DoubleValue(*bits),
        Value::F64(bits) => KeyValueValue::DoubleValue(*bits),
        Value::U8(n) => serialize_numeric_to_value(*n as i128),
        Value::U16(n) => serialize_numeric_to_value(*n as i128),
        Value::U32(n) => serialize_numeric_to_value(*n as i128),
        Value::U64(n) => serialize_numeric_to_value(*n as i128),
        Value::U128(n) => serialize_u128_to_value(*n),
        Value::I8(n) => serialize_numeric_to_value(*n as i128),
        Value::I16(n) => serialize_numeric_to_value(*n as i128),
        Value::I32(n) => serialize_numeric_to_value(*n as i128),
        Value::I64(n) => serialize_numeric_to_value(*n as i128),
        Value::I128(n) => serialize_numeric_to_value(*n),
        Value::USize(n) => serialize_numeric_to_value(*n as i128),
        Value::ISize(n) => serialize_numeric_to_value(*n as i128),
    }
}

/// The `oneof value` part of a `KeyValue`.
pub open spec fn encode_value(w: KeyValueValue) -> Seq<u8> {
    match w {
        KeyValueValue::StringValue(s) => field_string(2, s@),
        KeyValueValue::IntValue(n) => field_key(3, 0) + varint((n as u64) as nat),
        KeyValueValue::DoubleValue(b) => field_key(4, 1) + le_bytes(b as nat, 8),
        KeyValueValue::BoolValue(b) => field_key(5, 0) + varint(
            if b {
                1
            } else {
                0
            },
        ),
        KeyValueValue::JsonValue(s) => field_string(6, s@),
    }
}

/// A `KeyValue` message body.
pub open spec fn encode_key_value(kv: KeyValue) -> Seq<u8> {
    optional_string(1, kv.key@) + match kv.value {
        Some(w) => encode_value(w),
        None => Seq::empty(),
    }
}

/// The `oneof value` part of the `KeyValue` a tag value is sent as.
pub open spec fn encode_tag_value(v: Value) -> Seq<u8> {
    match v {
        Value::String(s) => field_string(2, s@),
        Value::Bool(b) => field_key(5, 0) + varint(
            if b {
                1
            } else {
                0
            },
        ),
        Value::F32(bits) => field_key(4, 1) + le_bytes(bits as nat, 8),
        Value::F64(bits) => field_key(4, 1) + le_bytes(bits as nat, 8),
        _ => if i64::MIN <= numeric_of(v) <= i64::MAX {
            field_key(3, 0) + varint(((numeric_of(v) as i64) as u64) as nat)
        } else {
            field_string(2, signed_decimal(numeric_of(v)))
        },
    }
}

proof fn lemma_encode_serialized(v: Value, w: KeyValueValue)
    requires
        is_serialized_value(v, w),
    ensures
        encode_value(w) == encode_tag_value(v),
{
}

/// Repeated message fields with the given bodies, in order.
pub open spec fn repeated(tag: nat, bodies: Seq<Seq<u8>>) -> Seq<u8>
    decreases bodies.len(),
{
    if bodies.len() == 0 {
        Seq::empty()
    } else {
        field_len_delimited(tag, bodies[0]) + repeated(tag, bodies.drop_first())
    }
}

pub(crate) proof fn lemma_repeated_push(tag: nat, bodies: Seq<Seq<u8>>, body: Seq<u8>)
    ensures
        repeated(tag, bodies.push(body)) == repeated(tag, bodies) + field_len_delimited(tag, body),
    decreases bodies.len(),
{
    if bodies.len() == 0 {
        assert(bodies.push(body).drop_first() =~= bodies);
        assert(bodies.push(body)[0] == body);
        assert(repeated(tag, bodies) =~= Seq::<u8>::empty());
        assert(repeated(tag, bodies.push(body)) =~= field_len_delimited(tag, body));
    } else {
        assert(bodies.push(body).drop_first() =~= bodies.drop_first().push(body));
        lemma_repeated_push(tag, bodies.drop_first(), body);
        assert(repeated(tag, bodies.push(body)) =~= repeated(tag, bodies) + field_len_delimited(
            tag,
            body,
        ));
    }
}

/// An optional `uint64` field (left out when zero).
pub open spec fn optional_uint64(tag: nat, x: u64) -> Seq<u8> {
    if x != 0 {
        field_key(tag, 0) + varint(x as nat)
    } else {
        Seq::empty()
    }
}

/// A `SpanContext` message body for a LightStep span context.
pub open spec fn encode_span_context(c: SpanContext) -> Seq<u8> {
    optional_uint64(1, c.state->LightStep_0.trace_id) + optional_uint64(2, c.state->LightStep_0.span_id)
        + encode_map_entries(3, entry_views(c.baggage_items.entries()))
}

/// A `Reference` message body.
pub open spec fn encode_reference(r: Reference) -> Seq<u8> {
    (if r.rtype == ReferenceType::FollowsFrom {
        field_key(1, 0) + varint(1)
    } else {
        Seq::empty()
    }) + field_len_delimited(2, encode_span_context(r.to))
}

/// A `Timestamp` message body.
pub open spec fn encode_timestamp(t: Timestamp) -> Seq<u8> {
    (if t.seconds != 0 {
        field_key(1, 0) + varint((t.seconds as u64) as nat)
    } else {
        Seq::empty()
    }) + (if t.nanos != 0 {
        field_key(2, 0) + varint(((t.nanos as i64) as u64) as nat)
    } else {
        Seq::empty()
    })
}

/// The `KeyValue` body of a tag or logged event.
pub open spec fn encode_tag(key: Seq<char>, v: Value) -> Seq<u8> {
    optional_string(1, key) + encode_tag_value(v)
}

/// The `KeyValue` bodies of tags, in order.
pub open spec fn tag_bodies(tags: Seq<(Seq<char>, Value)>) -> Seq<Seq<u8>> {
    tags.map_values(|t: (Seq<char>, Value)| encode_tag(t.0, t.1))
}

/// The `KeyValue` bodies of logged events, in order.
pub open spec fn event_bodies(events: Seq<Event>) -> Seq<Seq<u8>> {
    events.map_values(|e: Event| encode_tag(e.key_view(), e.value_view()))
}

/// A `Log` message body.
pub open spec fn encode_log_entry(entry: (Timestamp, Vec<Event>)) -> Seq<u8> {
    field_len_delimited(1, encode_timestamp(entry.0)) + repeated(2, event_bodies(entry.1@))
}

/// A `Span` message body for what a finished LightStep span recorded.
pub open spec fn encode_span(d: SpanData) -> Seq<u8> {
    field_len_delimited(1, encode_span_context(d.span_context)) + optional_string(2, d.operation_name@)
        + repeated(3, d.references@.map_values(|r: Reference| encode_reference(r))) + field_len_delimited(
        4,
        encode_timestamp(d.start_timestamp),
    ) + optional_uint64(5, d.duration_micros->0 as u64) + repeated(6, tag_bodies(d.tags.entries()))
        + repeated(7, d.log@.map_values(|l: (Timestamp, Vec<Event>)| encode_log_entry(l)))
}

/// Whether a span context and all the contexts it refers to are LightStep's.
pub open spec fn is_lightstep_data(d: SpanData) -> bool {
    &&& d.span_context.state is LightStep
    &&& forall|i: int| 0 <= i < d.references@.len() ==> (#[trigger] d.references@[i]).to.state is LightStep
}

/// Appends an optional `uint64` field.
pub(crate) fn put_optional_uint64(buf: &mut Vec<u8>, tag: u32, x: u64)
    requires
        1 <= tag <= 15,
    ensures
        final(buf)@ == old(buf)@ + optional_uint64(tag as nat, x),
{
    if x != 0 {
        put_key(buf, tag, 0);
        put_varint(buf, x);
    } else {
        assert(buf@ =~= old(buf)@ + optional_uint64(tag as nat, x));
    }
}

/// Appends the `oneof value` part of a `KeyValue`.
pub(crate) fn put_value(buf: &mut Vec<u8>, w: &KeyValueValue)
    ensures
        final(buf)@ == old(buf)@ + encode_value(*w),
{
    match w {
        KeyValueValue::StringValue(s) => put_string(buf, 2, s.as_str()),
        KeyValueValue::IntValue(n) => {
            put_key(buf, 3, 0);
            put_varint(buf, *n as u64);
        },
        KeyValueValue::DoubleValue(b) => {
            put_key(buf, 4, 1);
            put_fixed64(buf, *b);
        },
        KeyValueValue::BoolValue(b) => {
            put_key(buf, 5, 0);
            put_varint(buf, if *b { 1 } else { 0 });
        },
        KeyValueValue::JsonValue(s) => put_string(buf, 6, s.as_str()),
    }
}

/// Appends a string field unless the string is empty.
pub(crate) fn put_optional_string(buf: &mut Vec<u8>, tag: u32, s: &str)
    requires
        1 <= tag <= 15,
    ensures
        final(buf)@ == old(buf)@ + optional_string(tag as nat, s@),
{
    if !s.is_empty() {
        put_string(buf, tag, s);
    } else {
        assert(buf@ =~= old(buf)@ + optional_string(tag as nat, s@));
    }
}

/// The `KeyValue` body of a key and a tag value.
fn serialize_tag(key: &String, value: &Value) -> (b: Vec<u8>)
    ensures
        b@ == encode_tag(key@, *value),
{
    let mut b: Vec<u8> = Vec::new();
    put_optional_string(&mut b, 1, key.as_str());
    let w = serialize_value(value);
    put_value(&mut b, &w);
    proof {
        lemma_encode_serialized(*value, w);
    }
    b
}

/// The `SpanContext` message body of a LightStep span context.
pub fn serialize_span_context(span_context: &SpanContext) -> (b: Vec<u8>)
    requires
        span_context.state is LightStep,
    ensures
        b@ == encode_span_context(*span_context),
        reads_as_span_context(b@, *span_context),
{
    let state = crate::context::LightStepSpanContextState::from_trait_object(&span_context.state);
    let mut b: Vec<u8> = Vec::new();
    put_optional_uint64(&mut b, 1, state.trace_id);
    put_optional_uint64(&mut b, 2, state.span_id);
    put_string_map(&mut b, 3, &span_context.baggage_items);
    let total = b.len();
    proof {
        assert(total as int <= u64::MAX);
        lemma_span_context_reads(*span_context);
    }
    b
}

/// The `Reference` message body of a reference to a LightStep span context.
pub fn serialize_reference(reference: &Reference) -> (b: Vec<u8>)
    requires
        reference.to.state is LightStep,
    ensures
        b@ == encode_reference(*reference),
        reads_as_reference(b@, *reference),
{
    let mut b: Vec<u8> = Vec::new();
    match reference.rtype {
        ReferenceType::ChildOf => {},
        ReferenceType::FollowsFrom => {
            put_key(&mut b, 1, 0);
            put_varint(&mut b, 1);
        },
    }
    let ctx = serialize_span_context(&reference.to);
    put_len_delimited(&mut b, 2, ctx.as_slice());
    assert(b@ =~= encode_reference(*reference));
    let total = b.len();
    proof {
        assert(total as int <= u64::MAX);
        lemma_reference_reads(*reference);
    }
    b
}

/// The `Timestamp` message body of a timestamp.
pub fn serialize_timestamp(t: &Timestamp) -> (b: Vec<u8>)
    ensures
        b@ == encode_timestamp(*t),
{
    let mut b: Vec<u8> = Vec::new();
    if t.seconds != 0 {
        put_key(&mut b, 1, 0);
        put_varint(&mut b, t.seconds as u64);
    }
    if t.nanos != 0 {
        put_key(&mut b, 2, 0);
        put_varint(&mut b, (t.nanos as i64) as u64);
    }
    assert(b@ =~= encode_timestamp(*t));
    b
}

/// Appends tags as repeated `KeyValue` fields.
pub(crate) fn serialize_tags(buf: &mut Vec<u8>, tag: u32, tags: &StrMap<Value>)
    requires
        1 <= tag <= 15,
    ensures
        final(buf)@ == old(buf)@ + repeated(tag as nat, tag_bodies(tags.entries())),
{
    let ghost head = buf@;
    let ghost bodies = tag_bodies(tags.entries());
    let n = tags.len();
    let mut i: usize = 0;
    assert(bodies.take(0) =~= Seq::<Seq<u8>>::empty());
    assert(buf@ =~= head + repeated(tag as nat, bodies.take(0)));
    while i < n
        invariant
            1 <= tag <= 15,
            n == tags.entries().len(),
            bodies == tag_bodies(tags.entries()),
            i <= n,
            buf@ == head + repeated(tag as nat, bodies.take(i as int)),
        decreases n - i,
    {
        let (k, v) = tags.entry_at(i);
        let body = serialize_tag(k, v);
        put_len_delimited(buf, tag, body.as_slice());
        proof {
            assert(bodies[i as int] == body@);
            lemma_repeated_push(tag as nat, bodies.take(i as int), body@);
            assert(bodies.take(i as int).push(body@) =~= bodies.take(i + 1));
        }
        i = i + 1;
        assert(buf@ =~= head + repeated(tag as nat, bodies.take(i as int)));
    }
    assert(bodies.take(n as int) =~= bodies);
}

/// The `Log` message body of a log entry.
pub fn serialize_log_entry(entry: &(Timestamp, Vec<Event>)) -> (b: Vec<u8>)
    ensures
        b@ == encode_log_entry(*entry),
{
    let mut b: Vec<u8> = Vec::new();
    let ts = serialize_timestamp(&entry.0);
    put_len_delimited(&mut b, 1, ts.as_slice());
    let ghost head = b@;
    let ghost bodies = event_bodies(entry.1@);
    let n = entry.1.len();
    let mut i: usize = 0;
    assert(bodies.take(0) =~= Seq::<Seq<u8>>::empty());
    assert(b@ =~= head + repeated(2, bodies.take(0)));
    while i < n
        invariant
            n == entry.1@.len(),
            bodies == event_bodies(entry.1@),
            i <= n,
            b@ == head + repeated(2, bodies.take(i as int)),
        decreases n - i,
    {
        let e = &entry.1[i];
        let body = serialize_tag(e.key(), e.value());
        put_len_delimited(&mut b, 2, body.as_slice());
        proof {
            assert(bodies[i as int] == body@);
            lemma_repeated_push(2, bodies.take(i as int), body@);
            assert(bodies.take(i as int).push(body@) =~= bodies.take(i + 1));
        }
        i = i + 1;
        assert(b@ =~= head + repeated(2, bodies.take(i as int)));
    }
    assert(bodies.take(n as int) =~= bodies);
    b
}

/// The `Span` message body of a finished LightStep span.
pub fn serialize_span(span: &FinishedSpan) -> (b: Vec<u8>)
    requires
        is_lightstep_data(span.data_view()),
    ensures
        b@ == encode_span(span.data_view()),
        message_fields(b@) matches Some(fs) && payloads(fs, 3).len() == span.data_view().references@.len()
            && (forall|i: int|
            0 <= i < span.data_view().references@.len() ==> reads_as_reference(
                #[trigger] payloads(fs, 3)[i],
                span.data_view().references@[i],
            )),
{
    proof {
        use_type_invariant(span);
        span.lemma_finished();
    }
    let d = span.data();
    let mut b: Vec<u8> = Vec::new();
    let ctx = serialize_span_context(&d.span_context);
    put_len_delimited(&mut b, 1, ctx.as_slice());
    put_optional_string(&mut b, 2, d.operation_name.as_str());
    // references
    let ghost head = b@;
    let ghost bodies = d.references@.map_values(|r: Reference| encode_reference(r));
    let n = d.references.len();
    let mut i: usize = 0;
    assert(bodies.take(0) =~= Seq::<Seq<u8>>::empty());
    assert(b@ =~= head + repeated(3, bodies.take(0)));
    while i < n
        invariant
            n == d.references@.len(),
            is_lightstep_data(*d),
            bodies == d.references@.map_values(|r: Reference| encode_reference(r)),
            i <= n,
            b@ == head + repeated(3, bodies.take(i as int)),
        decreases n - i,
    {
        let body = serialize_reference(&d.references[i]);
        put_len_delimited(&mut b, 3, body.as_slice());
        proof {
            assert(bodies[i as int] == body@);
            lemma_repeated_push(3, bodies.take(i as int), body@);
            assert(bodies.take(i as int).push(body@) =~= bodies.take(i + 1));
        }
        i = i + 1;
        assert(b@ =~= head + repeated(3, bodies.take(i as int)));
    }
    assert(bodies.take(n as int) =~= bodies);
    let ts = serialize_timestamp(&d.start_timestamp);
    put_len_delimited(&mut b, 4, ts.as_slice());
    let micros = match d.duration_micros {
        Some(m) => m,
        None => 0,
    };
    put_optional_uint64(&mut b, 5, micros as u64);
    serialize_tags(&mut b, 6, &d.tags);
    // logs
    let ghost head2 = b@;
    let ghost bodies2 = d.log@.map_values(|l: (Timestamp, Vec<Event>)| encode_log_entry(l));
    let m = d.log.len();
    let mut j: usize = 0;
    assert(bodies2.take(0) =~= Seq::<Seq<u8>>::empty());
    assert(b@ =~= head2 + repeated(7, bodies2.take(0)));
    while j < m
        invariant
            m == d.log@.len(),
            bodies2 == d.log@.map_values(|l: (Timestamp, Vec<Event>)| encode_log_entry(l)),
            j <= m,
            b@ == head2 + repeated(7, bodies2.take(j as int)),
        decreases m - j,
    {
        let body = serialize_log_entry(&d.log[j]);
        put_len_delimited(&mut b, 7, body.as_slice());
        proof {
            assert(bodies2[j as int] == body@);
            lemma_repeated_push(7, bodies2.take(j as int), body@);
            assert(bodies2.take(j as int).push(body@) =~= bodies2.take(j + 1));
        }
        j = j + 1;
        assert(b@ =~= head2 + repeated(7, bodies2.take(j as int)));
    }
    assert(bodies2.take(m as int) =~= bodies2);
    assert(b@ =~= encode_span(*d));
    let total = b.len();
    proof {
        assert(total as int <= u64::MAX);
        lemma_span_references_read(*d);
    }
    b
}

} // verus!
