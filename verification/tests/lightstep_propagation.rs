use distracing::context::{LightStepSpanContextState, SpanContext};
use distracing::strmap::StrMap;
use distracing::tracer::{CarrierMap, TextMap, Tracer};
use distracing::tracers::lightstep::LightStepTracer;

fn assert_baggage_eq(a: &StrMap<String>, b: &StrMap<String>) {
    assert_eq!(a.len(), b.len());
    for i in 0..a.len() {
        let (k, v) = a.entry_at(i);
        assert_eq!(b.get(k), Some(v));
    }
}

fn assert_span_context_eq(a: &SpanContext, b: &SpanContext) {
    assert_baggage_eq(&a.baggage_items, &b.baggage_items);
    let a_state = LightStepSpanContextState::from_trait_object(&a.state);
    let b_state = LightStepSpanContextState::from_trait_object(&b.state);
    assert_eq!(a_state, b_state);
}

#[test]
fn lightstep_test_text_map_inject_and_extract() {
    let tracer = LightStepTracer::new();
    let span = tracer.span("foo").start();
    let span_context = span.span_context();
    let mut text_map = TextMap::new();
    tracer.inject_into_text_map(span_context, &mut text_map);
    let extracted_span_context = tracer.extract_from_text_map(&text_map).ok().unwrap();
    assert_span_context_eq(span_context, &extracted_span_context);
}

#[test]
fn lightstep_test_binary_inject_and_extract() {
    let tracer = LightStepTracer::new();
    let span = tracer.span("foo").start();
    let span_context = span.span_context();
    let binary = tracer.inject_into_binary(span_context);
    let extracted_span_context = tracer.extract_from_binary(&binary).ok().unwrap();
    assert_span_context_eq(span_context, &extracted_span_context);
}

#[test]
fn test_child_span_inherits_from_parent_span() {
    let tracer = LightStepTracer::new();
    let mut parent_span = tracer.span("parent").start();
    parent_span.set_baggage_item("baggage", "item");
    let child_span = tracer
        .span("child")
        .child_of(parent_span.span_context())
        .start();
    assert_eq!(child_span.baggage_item("baggage"), Some("item"));

    let parent_state =
        LightStepSpanContextState::from_trait_object(&parent_span.span_context().state);
    let child_state =
        LightStepSpanContextState::from_trait_object(&child_span.span_context().state);
    assert_eq!(parent_state.trace_id, child_state.trace_id);
}

#[test]
fn mod_test_text_map_inject_and_extract() {
    let tracer = LightStepTracer::new();
    let span = tracer.span("foo").start();
    let span_context = span.span_context();
    let mut text_map = TextMap::new();
    tracer.inject_into_text_map(span_context, &mut text_map);
    let extracted_span_context = tracer.extract_from_text_map(&text_map).ok().unwrap();
    assert_span_context_eq(span_context, &extracted_span_context);
}

#[test]
fn mod_test_binary_inject_and_extract() {
    let tracer = LightStepTracer::new();
    let span = tracer.span("foo").start();
    let span_context = span.span_context();
    let binary = tracer.inject_into_binary(span_context);
    let extracted_span_context = tracer.extract_from_binary(&binary).ok().unwrap();
    assert_span_context_eq(span_context, &extracted_span_context);
}

#[test]
fn text_map_injection_writes_baggage() {
    let tracer = LightStepTracer::new();
    let mut span = tracer.span("foo").start();
    span.set_baggage_item("user", "alice");
    span.set_baggage_item("tenant", "42");
    let mut text_map = TextMap::new();
    tracer.inject_into_http_headers(span.span_context(), &mut text_map);
    assert_eq!(text_map.keys().len(), 5);
    assert_eq!(text_map.get("ot-baggage-user"), Some("alice"));
    assert_eq!(text_map.get("ot-baggage-tenant"), Some("42"));
    let extracted = tracer.extract_from_http_headers(&text_map).ok().unwrap();
    assert_span_context_eq(span.span_context(), &extracted);
}

#[test]
fn text_map_extraction_reads_baggage_under_the_prefixed_key() {
    let tracer = LightStepTracer::new();
    let mut text_map = TextMap::new();
    text_map.set("ot-tracer-traceid", "1");
    text_map.set("ot-tracer-spanid", "2");
    text_map.set("ot-baggage-foo", "bar");
    let extracted = tracer.extract_from_text_map(&text_map).ok().unwrap();
    assert_eq!(extracted.baggage_items.len(), 1);
    assert_eq!(extracted.baggage_items.get(&"foo".to_string()).map(|s| s.as_str()), Some("bar"));
}

#[test]
fn binary_carrier_is_padded_base64() {
    let tracer = LightStepTracer::new();
    let mut span = tracer.span("foo").start();
    span.set_baggage_item("k", "v");
    let binary = tracer.inject_into_binary(span.span_context());
    assert_eq!(binary.len() % 4, 0);
    assert!(binary
        .iter()
        .all(|b| b.is_ascii_alphanumeric() || *b == b'+' || *b == b'/' || *b == b'='));
}

#[test]
fn text_map_injection_writes_hex_fields() {
    let tracer = LightStepTracer::new();
    let span = tracer.span("foo").start();
    let state = *LightStepSpanContextState::from_trait_object(&span.span_context().state);
    let mut text_map = TextMap::new();
    tracer.inject_into_text_map(span.span_context(), &mut text_map);
    assert_eq!(
        text_map.get("ot-tracer-traceid"),
        Some(format!("{:x}", state.trace_id).as_str())
    );
    assert_eq!(
        text_map.get("ot-tracer-spanid"),
        Some(format!("{:x}", state.span_id).as_str())
    );
    assert_eq!(text_map.get("ot-tracer-sampled"), Some("false"));
}

#[test]
fn text_map_extraction_reads_hex_ids() {
    let tracer = LightStepTracer::new();
    let mut text_map = TextMap::new();
    text_map.set("ot-tracer-traceid", "ff");
    text_map.set("ot-tracer-spanid", "1A");
    let context = tracer.extract_from_text_map(&text_map).ok().unwrap();
    let state = LightStepSpanContextState::from_trait_object(&context.state);
    assert_eq!(state.trace_id, 255);
    assert_eq!(state.span_id, 26);
    assert_eq!(context.baggage_items.len(), 0);
}

#[test]
fn text_map_extraction_without_trace_id_fails() {
    let tracer = LightStepTracer::new();
    let mut text_map = TextMap::new();
    text_map.set("ot-tracer-spanid", "1");
    let err = tracer.extract_from_text_map(&text_map).err().unwrap();
    assert_eq!(err.to_string(), "ot-tracer-traceid is missing");
}

#[test]
fn text_map_extraction_without_span_id_fails() {
    let tracer = LightStepTracer::new();
    let mut text_map = TextMap::new();
    text_map.set("ot-tracer-traceid", "1");
    let err = tracer.extract_from_text_map(&text_map).err().unwrap();
    assert_eq!(err.to_string(), "ot-tracer-spanid is missing");
}

#[test]
fn text_map_extraction_of_non_hex_id_fails() {
    let tracer = LightStepTracer::new();
    let mut text_map = TextMap::new();
    text_map.set("ot-tracer-traceid", "xyz");
    text_map.set("ot-tracer-spanid", "1");
    let err = tracer.extract_from_text_map(&text_map).err().unwrap();
    assert_eq!(err.to_string(), "ot-tracer-traceid is not a hexadecimal u64");
}

#[test]
fn binary_extraction_of_bad_base64_fails() {
    let tracer = LightStepTracer::new();
    assert!(tracer.extract_from_binary(b"!!!!").is_err());
}

#[test]
fn binary_extraction_without_basic_context_fails() {
    let tracer = LightStepTracer::new();
    // base64 of an empty BinaryCarrier
    let err = tracer.extract_from_binary(b"").err().unwrap();
    assert_eq!(err.to_string(), "missing basic_ctx");
}

#[test]
fn binary_extraction_of_bad_message_fails() {
    let tracer = LightStepTracer::new();
    // "/w==" is the single byte 0xff: a truncated varint key.
    let err = tracer.extract_from_binary(b"/w==").err().unwrap();
    assert_eq!(err.to_string(), "failed to decode Protobuf message");
}

#[test]
fn both_malformed_ids_name_the_first_key() {
    let tracer = LightStepTracer::new();
    let mut text_map = TextMap::new();
    text_map.set("ot-tracer-spanid", "zz");
    text_map.set("ot-tracer-traceid", "yy");
    let err = tracer.extract_from_text_map(&text_map).err().unwrap();
    assert_eq!(err.to_string(), "ot-tracer-spanid is not a hexadecimal u64");
    let again = tracer.extract_from_http_headers(&text_map).err().unwrap();
    assert_eq!(again.to_string(), err.to_string());
    let mut other = TextMap::new();
    other.set("ot-tracer-traceid", "yy");
    other.set("ot-tracer-spanid", "zz");
    let err = tracer.extract_from_text_map(&other).err().unwrap();
    assert_eq!(err.to_string(), "ot-tracer-traceid is not a hexadecimal u64");
}
