//! Reporting finished spans to a LightStep collector: the identity a
//! reporting process announces, the body of a report request, and the
//! buffer of finished spans that the tracer fills and the sending loop
//! drains.
//!
//! The loop itself (a thread that sleeps for the send period, posts each
//! request over HTTP and logs the collector's answer) belongs to the
//! application around the library; here are the decisions it takes.
use crate::span::FinishedSpan;
use crate::strmap::{StrMap, inserted, keys_distinct};
use crate::text::{decimal_digits, format_signed_decimal, signed_decimal};
use crate::tracers::lightstep::carrier::optional_string;
use crate::tracers::lightstep::collector::{
    KeyValue, KeyValueValue, encode_key_value, encode_span, is_lightstep_data, is_numeric_value,
    is_serialized_value, numeric_of, optional_uint64, put_optional_string, put_optional_uint64,
    put_value, repeated, serialize_span, serialize_value,
};
use crate::tracers::lightstep::{LightStepConfig, LightStepConfigView, random_u64};
use crate::value::Value;
use crate::tracers::lightstep::fields::{
    FieldValue, bytes_fields, lemma_fields_len_delimited, lemma_fields_repeated,
    lemma_payloads_append, lemma_payloads_bytes_fields, lemma_single_field, message_fields, payloads,
};
use crate::wire::{field_len_delimited, put_len_delimited};
use vstd::prelude::*;

verus! {

/// `lightstep.collector.Reporter`: who sends a report.
pub struct ReporterMessage {
    pub reporter_id: u64,
    pub tags: Vec<KeyValue>,
}

/// `lightstep.collector.Auth`: the credentials of a report.
pub struct Auth {
    pub access_token: String,
}

/// What a reporter tag is sent as: a text, or a floating-point value (its
/// IEEE-754 bits) that the sender renders as text.
pub enum TagText {
    Text(Seq<char>),
    Double(u64),
}

/// The text a tag value is announced with.
pub open spec fn tag_text(v: Value) -> TagText {
    match v {
        Value::String(s) => TagText::Text(s@),
        Value::Bool(b) => TagText::Text(
            if b {
                "true"@
            } else {
                "false"@
            },
        ),
        Value::F32(bits) => TagText::Double(bits),
        Value::F64(bits) => TagText::Double(bits),
        _ => TagText::Text(signed_decimal(numeric_of(v))),
    }
}

/// Whether a `KeyValue` value carries a tag text.
pub open spec fn sends_text(w: Option<KeyValueValue>, t: TagText) -> bool {
    match t {
        TagText::Text(x) => w matches Some(KeyValueValue::StringValue(s)) && s@ == x,
        TagText::Double(bits) => w == Some(KeyValueValue::DoubleValue(bits)),
    }
}

/// Whether `KeyValue`s carry the given keys and tag texts, in order.
pub open spec fn sends_texts(kvs: Seq<KeyValue>, ts: Seq<(Seq<char>, TagText)>) -> bool {
    &&& kvs.len() == ts.len()
    &&& forall|i: int|
        0 <= i < kvs.len() ==> (#[trigger] kvs[i]).key@ == ts[i].0 && sends_text(kvs[i].value, ts[i].1)
}

/// Tag entries taken by their texts.
pub open spec fn texts_of(es: Seq<(Seq<char>, Value)>) -> Seq<(Seq<char>, TagText)> {
    es.map_values(|e: (Seq<char>, Value)| (e.0, tag_text(e.1)))
}

/// The tags a reporter announces: the configured tags, then (replacing a
/// configured tag of the same key in place) the tracer platform
/// `rust (distracing)`, the platform version, the tracer version, the
/// component name (`None` when none is configured) and the reporter id as
/// `lightstep.guid`.
pub open spec fn reporter_tag_texts(
    config: LightStepConfigView,
    reporter_id: u64,
    platform_version: Seq<char>,
    tracer_version: Seq<char>,
) -> Seq<(Seq<char>, TagText)> {
    let es = texts_of(config.tags.entries());
    let es = inserted(es, "lightstep.tracer_platform"@, TagText::Text("rust (distracing)"@));
    let es = inserted(es, "lightstep.tracer_platform_version"@, TagText::Text(platform_version));
    let es = inserted(es, "lightstep.tracer_version"@, TagText::Text(tracer_version));
    let es = inserted(
        es,
        "lightstep.component_name"@,
        TagText::Text(
            match config.component_name {
                Some(c) => c,
                None => "None"@,
            },
        ),
    );
    inserted(es, "lightstep.guid"@, TagText::Text(decimal_digits(reporter_id as nat)))
}

/// Taking texts commutes with an insertion into entries whose keys are
/// distinct.
proof fn lemma_texts_of_inserted(es: Seq<(Seq<char>, Value)>, k: Seq<char>, v: Value)
    requires
        keys_distinct(es),
    ensures
        texts_of(inserted(es, k, v)) == inserted(texts_of(es), k, tag_text(v)),
{
    let ts = texts_of(es);
    if exists|i: int| 0 <= i < es.len() && #[trigger] es[i].0 == k {
        let c = choose|i: int| 0 <= i < es.len() && #[trigger] es[i].0 == k;
        assert(ts[c].0 == k);
        let d = choose|i: int| 0 <= i < ts.len() && #[trigger] ts[i].0 == k;
        assert(es[d].0 == k);
        if c != d {
            if c < d {
                assert(es[c].0 != es[d].0);
            } else {
                assert(es[d].0 != es[c].0);
            }
        }
        assert(texts_of(inserted(es, k, v)) =~= inserted(ts, k, tag_text(v)));
    } else {
        assert forall|i: int| 0 <= i < ts.len() implies #[trigger] ts[i].0 != k by {
            assert(es[i].0 != k);
        }
        assert(texts_of(inserted(es, k, v)) =~= inserted(ts, k, tag_text(v)));
    }
}

/// A `KeyValue` value as a reporter tag carries it: booleans and integers
/// as their text, strings and JSON as text; a double stays a double, for
/// the sender to render.
fn reporter_value(w: KeyValueValue) -> (r: KeyValueValue)
    ensures
        match w {
            KeyValueValue::StringValue(s) => r matches KeyValueValue::StringValue(t) && t@ == s@,
            KeyValueValue::IntValue(n) => r matches KeyValueValue::StringValue(t) && t@
                == signed_decimal(n as int),
            KeyValueValue::DoubleValue(bits) => r == KeyValueValue::DoubleValue(bits),
            KeyValueValue::BoolValue(b) => r matches KeyValueValue::StringValue(t) && t@ == (if b {
                "true"@
            } else {
                "false"@
            }),
            KeyValueValue::JsonValue(s) => r matches KeyValueValue::StringValue(t) && t@ == s@,
        },
{
    match w {
        KeyValueValue::StringValue(s) => KeyValueValue::StringValue(s),
        KeyValueValue::IntValue(n) => KeyValueValue::StringValue(format_signed_decimal(n as i128)),
        KeyValueValue::DoubleValue(bits) => KeyValueValue::DoubleValue(bits),
        KeyValueValue::BoolValue(b) => {
            if b {
                KeyValueValue::StringValue("true".to_owned())
            } else {
                KeyValueValue::StringValue("false".to_owned())
            }
        },
        KeyValueValue::JsonValue(s) => KeyValueValue::StringValue(s),
    }
}

/// A tag as a reporter announces it.
fn reporter_key_value(key: &String, value: &Value) -> (kv: KeyValue)
    ensures
        kv.key@ == key@,
        sends_text(kv.value, tag_text(*value)),
{
    let w = serialize_value(value);
    let r = reporter_value(w);
    proof {
        assert(is_serialized_value(*value, w));
        match *value {
            Value::String(_) | Value::Bool(_) | Value::F32(_) | Value::F64(_) => {},
            _ => {
                assert(is_numeric_value(w, numeric_of(*value)));
            },
        }
    }
    KeyValue { key: key.clone(), value: Some(r) }
}

/// Inserts a tag into a map of tags, keeping track of the texts.
fn insert_tag(tags: &mut StrMap<Value>, key: &str, value: Value)
    ensures
        texts_of(final(tags).entries()) == inserted(texts_of(old(tags).entries()), key@, tag_text(value)),
{
    proof {
        use_type_invariant(&*tags);
        tags.lemma_distinct();
        lemma_texts_of_inserted(tags.entries(), key@, value);
    }
    tags.insert(key.to_owned(), value);
}

/// The reporter message of a process with the given id (see
/// `reporter_tag_texts` for its tags).
pub fn reporter_with_id(
    config: &LightStepConfig,
    reporter_id: u64,
    platform_version: &str,
    tracer_version: &str,
) -> (r: ReporterMessage)
    ensures
        r.reporter_id == reporter_id,
        sends_texts(r.tags@, reporter_tag_texts(config@, reporter_id, platform_version@, tracer_version@)),
{
    let mut tags = config.get_tags().clone();
    insert_tag(&mut tags, "lightstep.tracer_platform", Value::String("rust (distracing)".to_owned()));
    insert_tag(&mut tags, "lightstep.tracer_platform_version", Value::String(platform_version.to_owned()));
    insert_tag(&mut tags, "lightstep.tracer_version", Value::String(tracer_version.to_owned()));
    let component_name = match config.get_component_name() {
        Some(c) => c.clone(),
        None => "None".to_owned(),
    };
    insert_tag(&mut tags, "lightstep.component_name", Value::String(component_name));
    insert_tag(&mut tags, "lightstep.guid", Value::U64(reporter_id));
    proof {
        assert(signed_decimal(reporter_id as int) == decimal_digits(reporter_id as nat));
    }
    let ghost target = reporter_tag_texts(config@, reporter_id, platform_version@, tracer_version@);
    assert(texts_of(tags.entries()) == target);
    let n = tags.len();
    let mut kvs: Vec<KeyValue> = Vec::new();
    let mut i: usize = 0;
    while i < n
        invariant
            n == tags.entries().len(),
            texts_of(tags.entries()) == target,
            i <= n,
            kvs@.len() == i,
            forall|j: int|
                0 <= j < i ==> (#[trigger] kvs@[j]).key@ == target[j].0 && sends_text(
                    kvs@[j].value,
                    target[j].1,
                ),
        decreases n - i,
    {
        let (k, v) = tags.entry_at(i);
        let kv = reporter_key_value(k, v);
        assert(target[i as int] == (tags.entries()[i as int].0, tag_text(tags.entries()[i as int].1)));
        kvs.push(kv);
        i = i + 1;
    }
    ReporterMessage { reporter_id, tags: kvs }
}

/// The reporter message of this process, under a fresh random id (drawn
/// from `rand`); the tags are those of `reporter_with_id` for that id.
pub fn create_reporter(config: &LightStepConfig, platform_version: &str, tracer_version: &str) -> (r:
    ReporterMessage)
    ensures
        sends_texts(
            r.tags@,
            reporter_tag_texts(config@, r.reporter_id, platform_version@, tracer_version@),
        ),
{
    let reporter_id = random_u64();
    reporter_with_id(config, reporter_id, platform_version, tracer_version)
}

/// A `Reporter` message body.
pub open spec fn encode_reporter(r: ReporterMessage) -> Seq<u8> {
    optional_uint64(1, r.reporter_id) + repeated(4, r.tags@.map_values(|kv: KeyValue| encode_key_value(kv)))
}

/// An `Auth` message body.
pub open spec fn encode_auth(a: Auth) -> Seq<u8> {
    optional_string(1, a.access_token@)
}

/// A `ReportRequest` message: the reporter, the credentials when there are
/// any, and the spans in order (no timestamp offset, no internal metrics).
pub open spec fn encode_report_request(reporter: ReporterMessage, auth: Option<Auth>, spans: Seq<FinishedSpan>) -> Seq<
    u8,
> {
    field_len_delimited(1, encode_reporter(reporter)) + (match auth {
        Some(a) => field_len_delimited(2, encode_auth(a)),
        None => Seq::empty(),
    }) + repeated(3, spans.map_values(|s: FinishedSpan| encode_span(s.data_view())))
}

/// A report request message carries one span message per span of the
/// batch, in order: the bodies of its `spans` fields are the spans'
/// encodings.
pub proof fn lemma_request_spans_read(reporter: ReporterMessage, auth: Option<Auth>, spans: Seq<FinishedSpan>)
    requires
        encode_report_request(reporter, auth, spans).len() <= u64::MAX,
    ensures
        message_fields(encode_report_request(reporter, auth, spans)) matches Some(fs) && payloads(fs, 3)
            == spans.map_values(|s: FinishedSpan| encode_span(s.data_view())),
{
    let rep = encode_reporter(reporter);
    let bodies = spans.map_values(|s: FinishedSpan| encode_span(s.data_view()));
    let p1 = field_len_delimited(1, rep);
    let p2 = match auth {
        Some(a) => field_len_delimited(2, encode_auth(a)),
        None => Seq::<u8>::empty(),
    };
    let p3 = repeated(3, bodies);
    let e = Seq::<u8>::empty();
    assert(encode_report_request(reporter, auth, spans) =~= p1 + (p2 + (p3 + e)));
    assert(rep.len() <= p1.len());
    lemma_fields_repeated(3, bodies, e);
    let f1 = seq![(1nat, FieldValue::Bytes(rep))];
    let f3 = bytes_fields(3, bodies) + Seq::<(nat, FieldValue)>::empty();
    assert(bytes_fields(3, bodies) + Seq::<(nat, FieldValue)>::empty() =~= bytes_fields(3, bodies));
    lemma_payloads_bytes_fields(3, bodies, 3);
    lemma_single_field(1, FieldValue::Bytes(rep), 3);
    match auth {
        Some(a) => {
            let ab = encode_auth(a);
            assert(ab.len() <= p2.len());
            lemma_fields_len_delimited(2, ab, p3 + e);
            lemma_fields_len_delimited(1, rep, p2 + (p3 + e));
            let f2 = seq![(2nat, FieldValue::Bytes(ab))];
            lemma_single_field(2, FieldValue::Bytes(ab), 3);
            lemma_payloads_append(f2, f3, 3);
            lemma_payloads_append(f1, f2 + f3, 3);
        },
        None => {
            assert(p2 + (p3 + e) =~= p3 + e);
            lemma_fields_len_delimited(1, rep, p2 + (p3 + e));
            lemma_payloads_append(f1, f3, 3);
        },
    }
}

/// The `KeyValue` message body of a tag.
fn serialize_key_value(kv: &KeyValue) -> (b: Vec<u8>)
    ensures
        b@ == encode_key_value(*kv),
{
    let mut b: Vec<u8> = Vec::new();
    put_optional_string(&mut b, 1, kv.key.as_str());
    match &kv.value {
        Some(w) => put_value(&mut b, w),
        None => {},
    }
    assert(b@ =~= encode_key_value(*kv));
    b
}

/// The `Reporter` message body of a reporter.
fn serialize_reporter(reporter: &ReporterMessage) -> (b: Vec<u8>)
    ensures
        b@ == encode_reporter(*reporter),
{
    let mut b: Vec<u8> = Vec::new();
    put_optional_uint64(&mut b, 1, reporter.reporter_id);
    let ghost head = b@;
    let ghost bodies = reporter.tags@.map_values(|kv: KeyValue| encode_key_value(kv));
    let n = reporter.tags.len();
    let mut i: usize = 0;
    assert(bodies.take(0) =~= Seq::<Seq<u8>>::empty());
    assert(b@ =~= head + repeated(4, bodies.take(0)));
    while i < n
        invariant
            n == reporter.tags@.len(),
            bodies == reporter.tags@.map_values(|kv: KeyValue| encode_key_value(kv)),
            i <= n,
            b@ == head + repeated(4, bodies.take(i as int)),
        decreases n - i,
    {
        let body = serialize_key_value(&reporter.tags[i]);
        put_len_delimited(&mut b, 4, body.as_slice());
        proof {
            assert(bodies[i as int] == body@);
            crate::tracers::lightstep::collector::lemma_repeated_push(4, bodies.take(i as int), body@);
            assert(bodies.take(i as int).push(body@) =~= bodies.take(i + 1));
        }
        i = i + 1;
        assert(b@ =~= head + repeated(4, bodies.take(i as int)));
    }
    assert(bodies.take(n as int) =~= bodies);
    b
}

/// The body of a report request: the reporter, the credentials and the
/// spans, all of which were started by a LightStep tracer.
#[verifier::rlimit(40)]
pub fn create_report_request_body(reporter: &ReporterMessage, auth: &Option<Auth>, spans: Vec<FinishedSpan>) -> (b:
    Vec<u8>)
    requires
        forall|i: int| 0 <= i < spans@.len() ==> is_lightstep_data(#[trigger] spans@[i].data_view()),
    ensures
        b@ == encode_report_request(*reporter, *auth, spans@),
        message_fields(b@) matches Some(fs) && payloads(fs, 3) == spans@.map_values(
            |s: FinishedSpan| encode_span(s.data_view()),
        ) && payloads(fs, 3).len() == spans@.len(),
{
    let mut b: Vec<u8> = Vec::new();
    let r = serialize_reporter(reporter);
    put_len_delimited(&mut b, 1, r.as_slice());
    match auth {
        Some(a) => {
            let mut ab: Vec<u8> = Vec::new();
            put_optional_string(&mut ab, 1, a.access_token.as_str());
            put_len_delimited(&mut b, 2, ab.as_slice());
        },
        None => {},
    }
    let ghost head = b@;
    let ghost bodies = spans@.map_values(|s: FinishedSpan| encode_span(s.data_view()));
    let n = spans.len();
    let mut i: usize = 0;
    assert(bodies.take(0) =~= Seq::<Seq<u8>>::empty());
    assert(b@ =~= head + repeated(3, bodies.take(0)));
    while i < n
        invariant
            n == spans@.len(),
            forall|j: int| 0 <= j < spans@.len() ==> is_lightstep_data(#[trigger] spans@[j].data_view()),
            bodies == spans@.map_values(|s: FinishedSpan| encode_span(s.data_view())),
            i <= n,
            b@ == head + repeated(3, bodies.take(i as int)),
        decreases n - i,
    {
        let body = serialize_span(&spans[i]);
        put_len_delimited(&mut b, 3, body.as_slice());
        proof {
            assert(bodies[i as int] == body@);
            crate::tracers::lightstep::collector::lemma_repeated_push(3, bodies.take(i as int), body@);
            assert(bodies.take(i as int).push(body@) =~= bodies.take(i + 1));
        }
        i = i + 1;
        assert(b@ =~= head + repeated(3, bodies.take(i as int)));
    }
    assert(bodies.take(n as int) =~= bodies);
    assert(b@ =~= encode_report_request(*reporter, *auth, spans@));
    let total = b.len();
    proof {
        assert(total as int <= u64::MAX);
        lemma_request_spans_read(*reporter, *auth, spans@);
    }
    b
}

/// One call of `report`: the span is buffered when there is room, else
/// dropped and counted (the count wraps around as an atomic counter does);
/// the buffer stays within its size.
pub open spec fn reports(before: LightStepReporter, after: LightStepReporter, span: FinishedSpan) -> bool {
    &&& after.config_view() == before.config_view()
    &&& after.sending() == before.sending()
    &&& after.running() == before.running()
    &&& if before.pending().len() >= before.config_view().buffer_size {
        &&& after.pending() == before.pending()
        &&& after.dropped() == before.dropped().wrapping_add(1)
    } else {
        &&& after.pending() == before.pending().push(span)
        &&& after.dropped() == before.dropped()
    }
    &&& after.pending().len() <= after.config_view().buffer_size
}

/// One call of `take_pending`: the batch is the buffer, which is emptied;
/// a non-empty batch makes the reporter count as sending.
pub open spec fn takes(before: LightStepReporter, after: LightStepReporter, batch: Seq<FinishedSpan>) -> bool {
    &&& batch == before.pending()
    &&& after.pending() == Seq::<FinishedSpan>::empty()
    &&& after.sending() == (before.pending().len() > 0 || before.sending())
    &&& after.config_view() == before.config_view()
    &&& after.dropped() == before.dropped()
    &&& after.running() == before.running()
}

/// One call of `finish_sending`.
pub open spec fn finishes(before: LightStepReporter, after: LightStepReporter) -> bool {
    &&& !after.sending()
    &&& after.pending() == before.pending()
    &&& after.config_view() == before.config_view()
    &&& after.dropped() == before.dropped()
    &&& after.running() == before.running()
}

/// One call of `stop`.
pub open spec fn stops(before: LightStepReporter, after: LightStepReporter) -> bool {
    &&& !after.running()
    &&& after.pending() == before.pending()
    &&& after.sending() == before.sending()
    &&& after.config_view() == before.config_view()
    &&& after.dropped() == before.dropped()
}

/// A call that changes a reporter.
pub enum ReporterStep {
    Report(FinishedSpan),
    Take(Seq<FinishedSpan>),
    Finish,
    Stop,
}

/// Whether a step leads from one reporter state to the next.
pub open spec fn step(before: LightStepReporter, after: LightStepReporter, s: ReporterStep) -> bool {
    match s {
        ReporterStep::Report(span) => reports(before, after, span),
        ReporterStep::Take(batch) => takes(before, after, batch),
        ReporterStep::Finish => finishes(before, after),
        ReporterStep::Stop => stops(before, after),
    }
}

/// Whether the states follow one another by the steps.
pub open spec fn is_run(states: Seq<LightStepReporter>, steps: Seq<ReporterStep>) -> bool {
    &&& states.len() == steps.len() + 1
    &&& forall|i: int| 0 <= i < steps.len() ==> step(states[i], #[trigger] states[i + 1], steps[i])
}

/// The spans the first `n` steps buffered, in order.
pub open spec fn accepted(states: Seq<LightStepReporter>, steps: Seq<ReporterStep>, n: nat) -> Seq<
    FinishedSpan,
>
    decreases n,
{
    if n == 0 {
        Seq::empty()
    } else {
        let prev = accepted(states, steps, (n - 1) as nat);
        match steps[n - 1] {
            ReporterStep::Report(span) => if states[n - 1].pending().len()
                < states[n - 1].config_view().buffer_size {
                prev.push(span)
            } else {
                prev
            },
            _ => prev,
        }
    }
}

/// The batches the first `n` steps took, one after another.
pub open spec fn taken(steps: Seq<ReporterStep>, n: nat) -> Seq<FinishedSpan>
    decreases n,
{
    if n == 0 {
        Seq::empty()
    } else {
        match steps[n - 1] {
            ReporterStep::Take(batch) => taken(steps, (n - 1) as nat) + batch,
            _ => taken(steps, (n - 1) as nat),
        }
    }
}

/// How many of the first `n` steps report a span.
pub open spec fn report_count(steps: Seq<ReporterStep>, n: nat) -> nat
    decreases n,
{
    if n == 0 {
        0
    } else {
        report_count(steps, (n - 1) as nat) + if steps[n - 1] is Report {
            1nat
        } else {
            0nat
        }
    }
}

/// Over any run of a reporter: every span it buffered is taken in exactly
/// one batch or still buffered, in the order it was buffered; every report
/// is either buffered or counted as dropped (while the count does not wrap
/// around); the buffer stays within its size, and the configuration never
/// changes.
pub proof fn lemma_reporter_run(states: Seq<LightStepReporter>, steps: Seq<ReporterStep>, n: nat)
    requires
        is_run(states, steps),
        n <= steps.len(),
        states[0].pending().len() <= states[0].config_view().buffer_size,
        states[0].dropped() + steps.len() <= usize::MAX,
    ensures
        taken(steps, n) + states[n as int].pending() == states[0].pending() + accepted(states, steps, n),
        report_count(steps, n) == accepted(states, steps, n).len() + states[n as int].dropped()
            - states[0].dropped(),
        states[n as int].dropped() <= states[0].dropped() + report_count(steps, n),
        report_count(steps, n) <= n,
        states[n as int].pending().len() <= states[n as int].config_view().buffer_size,
        states[n as int].config_view() == states[0].config_view(),
    decreases n,
{
    if n > 0 {
        let k = (n - 1) as nat;
        lemma_reporter_run(states, steps, k);
        let a = states[k as int];
        let b = states[k as int + 1];
        assert(step(a, b, steps[k as int]));
        assert(b == states[n as int]);
        match steps[k as int] {
            ReporterStep::Report(span) => {
                if a.pending().len() >= a.config_view().buffer_size {
                    assert(a.dropped() < usize::MAX);
                } else {
                    assert(taken(steps, n) + b.pending() =~= (taken(steps, k) + a.pending()).push(span));
                }
            },
            ReporterStep::Take(batch) => {
                assert(taken(steps, n) + b.pending() =~= taken(steps, k) + a.pending());
            },
            _ => {},
        }
    }
}

/// Once a reporter is stopped it stays stopped: no later step restarts it.
pub proof fn lemma_stopped_stays_stopped(states: Seq<LightStepReporter>, steps: Seq<ReporterStep>, i: nat, j: nat)
    requires
        is_run(states, steps),
        i <= j <= steps.len(),
        !states[i as int].running(),
    ensures
        !states[j as int].running(),
    decreases j - i,
{
    if i < j {
        assert(step(states[i as int], states[i + 1 as int], steps[i as int]));
        lemma_stopped_stays_stopped(states, steps, i + 1, j);
    }
}

/// A span taken in a batch keeps the reporter pending until the sending is
/// marked finished: after a non-empty batch is taken, every later state up
/// to a `Finish` step counts as sending.
pub proof fn lemma_sending_until_finished(states: Seq<LightStepReporter>, steps: Seq<ReporterStep>, i: nat, j: nat)
    requires
        is_run(states, steps),
        i < j <= steps.len(),
        steps[i as int] matches ReporterStep::Take(batch) && batch.len() > 0,
        forall|k: int| i < k < j ==> !(#[trigger] steps[k] is Finish),
    ensures
        states[j as int].sending(),
    decreases j - i,
{
    assert(step(states[i as int], states[i + 1 as int], steps[i as int]));
    if j > i + 1 {
        lemma_sending_continues(states, steps, (i + 1) as nat, j);
    }
}

proof fn lemma_sending_continues(states: Seq<LightStepReporter>, steps: Seq<ReporterStep>, i: nat, j: nat)
    requires
        is_run(states, steps),
        i <= j <= steps.len(),
        states[i as int].sending(),
        forall|k: int| i <= k < j ==> !(#[trigger] steps[k] is Finish),
    ensures
        states[j as int].sending(),
    decreases j - i,
{
    if i < j {
        assert(!(steps[i as int] is Finish));
        assert(step(states[i as int], states[i + 1 as int], steps[i as int]));
        lemma_sending_continues(states, steps, i + 1, j);
    }
}

/// The reporting side of a LightStep tracer: the buffer of finished spans
/// waiting to be sent, the count of spans dropped because the buffer was
/// full, and whether a report is being sent and the sending loop is
/// running.
pub struct LightStepReporter {
    config: LightStepConfig,
    finished_spans: Vec<FinishedSpan>,
    dropped_spans: usize,
    is_sending: bool,
    is_running: bool,
}

impl LightStepReporter {
    /// The buffer never holds more spans than the configured buffer size.
    #[verifier::type_invariant]
    closed spec fn within_buffer_size(self) -> bool {
        self.finished_spans@.len() <= self.config@.buffer_size
    }

    /// The configuration the reporter was made with.
    pub closed spec fn config_view(self) -> LightStepConfigView {
        self.config@
    }

    /// The spans waiting to be sent, oldest first.
    pub closed spec fn pending(self) -> Seq<FinishedSpan> {
        self.finished_spans@
    }

    /// How many spans were dropped because the buffer was full.
    pub closed spec fn dropped(self) -> usize {
        self.dropped_spans
    }

    /// Whether a report is being sent.
    pub closed spec fn sending(self) -> bool {
        self.is_sending
    }

    /// Whether the sending loop runs.
    pub closed spec fn running(self) -> bool {
        self.is_running
    }

    /// A reporter with an empty buffer whose sending loop runs.
    pub fn new(config: LightStepConfig) -> (r: LightStepReporter)
        ensures
            r.config_view() == config@,
            r.pending() == Seq::<FinishedSpan>::empty(),
            r.dropped() == 0,
            !r.sending(),
            r.running(),
    {
        LightStepReporter {
            config,
            finished_spans: Vec::new(),
            dropped_spans: 0,
            is_sending: false,
            is_running: true,
        }
    }

    /// The configuration the reporter was made with.
    pub fn config(&self) -> (c: &LightStepConfig)
        ensures
            c@ == self.config_view(),
    {
        &self.config
    }

    /// Buffers a finished span to be sent; when the buffer is full the span
    /// is dropped and counted (the count wraps around as an atomic counter
    /// does).
    pub fn report(&mut self, finished_span: FinishedSpan)
        ensures
            reports(*old(self), *final(self), finished_span),
    {
        proof {
            use_type_invariant(&*self);
        }
        if self.finished_spans.len() >= self.config.get_buffer_size() {
            self.dropped_spans = self.dropped_spans.wrapping_add(1);
        } else {
            let mut spans: Vec<FinishedSpan> = Vec::new();
            std::mem::swap(&mut spans, &mut self.finished_spans);
            spans.push(finished_span);
            self.finished_spans = spans;
        }
    }

    /// Takes the buffered spans out to be sent; while there are any, the
    /// reporter counts as sending until `finish_sending`.
    pub fn take_pending(&mut self) -> (spans: Vec<FinishedSpan>)
        ensures
            takes(*old(self), *final(self), spans@),
            spans@.len() <= old(self).config_view().buffer_size,
    {
        proof {
            use_type_invariant(&*self);
        }
        let mut spans: Vec<FinishedSpan> = Vec::new();
        std::mem::swap(&mut spans, &mut self.finished_spans);
        if spans.len() > 0 {
            self.is_sending = true;
        }
        spans
    }

    /// The next batch to send: the buffered spans when there are any (and the
    /// reporter then counts as sending), nothing when the buffer is empty
    /// (and nothing changes).
    pub fn next_batch(&mut self) -> (batch: Option<Vec<FinishedSpan>>)
        ensures
            match batch {
                Some(b) => {
                    &&& takes(*old(self), *final(self), b@)
                    &&& 1 <= b@.len() <= old(self).config_view().buffer_size
                },
                None => old(self).pending().len() == 0 && *final(self) == *old(self),
            },
    {
        if self.finished_spans.len() == 0 {
            None
        } else {
            Some(self.take_pending())
        }
    }

    /// Marks the end of sending a report.
    pub fn finish_sending(&mut self)
        ensures
            finishes(*old(self), *final(self)),
    {
        proof {
            use_type_invariant(&*self);
        }
        self.is_sending = false;
    }

    /// Marks that the sending loop has ended.
    pub fn stop(&mut self)
        ensures
            stops(*old(self), *final(self)),
    {
        proof {
            use_type_invariant(&*self);
        }
        self.is_running = false;
    }

    /// Whether the sending loop runs.
    pub fn is_running(&self) -> (b: bool)
        ensures
            b == self.running(),
    {
        self.is_running
    }

    /// Whether spans are waiting in the buffer or being sent.
    pub fn has_pending_spans(&self) -> (b: bool)
        ensures
            b == (self.pending().len() > 0 || self.sending()),
    {
        self.finished_spans.len() > 0 || self.is_sending
    }

    /// How many spans were dropped because the buffer was full.
    pub fn dropped_spans(&self) -> (n: usize)
        ensures
            n == self.dropped(),
    {
        self.dropped_spans
    }
}

} // verus!
