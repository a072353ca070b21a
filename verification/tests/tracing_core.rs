use distracing::context::{MockSpanContextState, SpanContextState};
use distracing::span::{timestamp_of, Timestamp};
use distracing::strmap::StrMap;
use distracing::text::{format_decimal, format_hex, format_signed_decimal, has_prefix, parse_hex, suffix_from};
use distracing::tracer::{CarrierMap, SpanContextCorrupted, TextMap, Tracer};
use distracing::tracers::mock::MockTracer;
use distracing::tracers::noop::NoopTracer;
use distracing::value::{Event, Value};
use distracing::wire::{put_fixed64, put_key, put_len_delimited, put_varint, read_fixed64, read_key, read_len_delimited, read_varint};

#[test]
fn mock_tracer_keeps_finished_spans_in_order() {
    let mut tracer = MockTracer::new();
    let first = tracer.span("first").start().finish();
    let second = tracer.span("second").set_tag("k", Value::from(1u32)).start().finish();
    tracer.report(first);
    tracer.report(second);
    let spans = tracer.finished_spans();
    assert_eq!(spans.len(), 2);
    assert_eq!(spans[0].data().operation_name, "first");
    assert_eq!(spans[1].data().operation_name, "second");
    assert_eq!(spans[1].data().tags.len(), 1);
    assert!(spans[0].data().duration_micros.is_some());
    assert!(spans[0].data().finish_timestamp.is_some());
}

#[test]
fn mock_tracer_contexts_carry_no_identity() {
    let tracer = MockTracer::new();
    let span = tracer.span("s").start();
    assert_eq!(span.span_context().state, SpanContextState::Mock(MockSpanContextState {}));
    assert_eq!(span.span_context().baggage_items.len(), 0);
}

#[test]
fn noop_tracer_propagates_nothing() {
    let tracer = NoopTracer::new();
    let mut span = tracer.span("s").start();
    span.set_baggage_item("k", "v");
    let mut map = TextMap::new();
    tracer.inject_into_text_map(span.span_context(), &mut map);
    assert_eq!(map.len(), 0);
    assert!(tracer.inject_into_binary(span.span_context()).is_empty());
    let extracted = tracer.extract_from_binary(b"anything").ok().unwrap();
    assert_eq!(extracted.baggage_items.len(), 0);
    assert!(tracer.extract_from_text_map(&map).is_ok());
    tracer.flush();
    tracer.report(span.finish());
}

#[test]
fn span_records_what_it_is_told() {
    let tracer = NoopTracer::new();
    let mut span = tracer.span("before").start();
    span.set_operation_name("after");
    span.set_tag("a", Value::string("x"));
    span.set_tag("a", Value::string("y"));
    span.log(&[Event::new("e", Value::from(3i8))]);
    span.log_with_timestamp(&[], Timestamp { seconds: 1, nanos: 2 });
    assert_eq!(span.operation_name(), "after");
    assert_eq!(span.tags().len(), 1);
    match span.tags().get(&"a".to_string()) {
        Some(Value::String(s)) => assert_eq!(s, "y"),
        _ => panic!("tag a missing"),
    }
    assert_eq!(span.log_entries().len(), 2);
    assert_eq!(span.log_entries()[1].0, Timestamp { seconds: 1, nanos: 2 });
    assert_eq!(span.log_entries()[0].1[0].key(), "e");
}

#[test]
fn baggage_item_reads_what_was_set() {
    let tracer = NoopTracer::new();
    let mut span = tracer.span("s").start();
    assert_eq!(span.baggage_item("k"), None);
    span.set_baggage_item("k", "v1");
    span.set_baggage_item("other", "o");
    span.set_baggage_item("k", "v2");
    assert_eq!(span.baggage_item("k"), Some("v2"));
    assert_eq!(span.baggage_item("other"), Some("o"));
}

#[test]
fn span_builder_collects_references() {
    let tracer = NoopTracer::new();
    let parent = tracer.span("p").start();
    let other = tracer.span("o").start();
    let child = tracer
        .span("c")
        .child_of(parent.span_context())
        .follows_from(other.span_context())
        .start();
    assert_eq!(child.references().len(), 2);
}

#[test]
fn span_options_start_empty() {
    let options = distracing::span::SpanOptions::new("op");
    assert_eq!(options.operation_name, "op");
    assert!(options.references.is_empty());
    assert_eq!(options.tags.len(), 0);
}

#[test]
fn span_context_corrupted_to_string_is_its_message() {
    let e = SpanContextCorrupted { message: "broken".to_string() };
    assert_eq!(e.to_string(), "broken");
}

#[test]
fn str_map_keeps_first_insertion_order() {
    let mut m: StrMap<String> = StrMap::new();
    m.insert("b".to_string(), "1".to_string());
    m.insert("a".to_string(), "2".to_string());
    m.insert("b".to_string(), "3".to_string());
    assert_eq!(m.len(), 2);
    let (k0, v0) = m.entry_at(0);
    assert_eq!((k0.as_str(), v0.as_str()), ("b", "3"));
    let (k1, v1) = m.entry_at(1);
    assert_eq!((k1.as_str(), v1.as_str()), ("a", "2"));
    assert_eq!(m.get(&"c".to_string()), None);
    assert_eq!(m.find(&"a".to_string()), Some(1));
}

#[test]
fn text_map_lists_its_keys() {
    let mut map = TextMap::new();
    map.set("x", "1");
    map.set("y", "2");
    map.set("x", "3");
    assert_eq!(map.keys(), vec!["x".to_string(), "y".to_string()]);
    assert_eq!(map.get("x"), Some("3"));
    assert_eq!(map.get("z"), None);
}

#[test]
fn hex_formatting_is_lowercase_without_padding() {
    assert_eq!(format_hex(0), "0");
    assert_eq!(format_hex(255), "ff");
    assert_eq!(format_hex(u64::MAX), "ffffffffffffffff");
    assert_eq!(format_hex(0x1234_abcd), format!("{:x}", 0x1234_abcdu64));
}

#[test]
fn hex_parsing_follows_from_str_radix() {
    assert_eq!(parse_hex("ff"), Some(255));
    assert_eq!(parse_hex("FF"), Some(255));
    assert_eq!(parse_hex("+a"), u64::from_str_radix("+a", 16).ok());
    assert_eq!(parse_hex(""), None);
    assert_eq!(parse_hex("+"), None);
    assert_eq!(parse_hex("-1"), None);
    assert_eq!(parse_hex("g"), None);
    assert_eq!(parse_hex("ffffffffffffffff"), Some(u64::MAX));
    assert_eq!(parse_hex("10000000000000000"), None);
    assert_eq!(parse_hex("0000000000000000001"), Some(1));
}

#[test]
fn hex_round_trip() {
    for n in [0u64, 1, 15, 16, 0xdead_beef, u64::MAX] {
        assert_eq!(parse_hex(&format_hex(n)), Some(n));
    }
}

#[test]
fn decimal_formatting() {
    assert_eq!(format_decimal(0), "0");
    assert_eq!(format_decimal(u128::MAX), u128::MAX.to_string());
    assert_eq!(format_signed_decimal(-42), "-42");
    assert_eq!(format_signed_decimal(i128::MIN), i128::MIN.to_string());
}

#[test]
fn prefixes_and_suffixes() {
    assert!(has_prefix("ot-baggage-user", "ot-baggage-"));
    assert!(!has_prefix("ot-bag", "ot-baggage-"));
    assert_eq!(suffix_from("ot-baggage-user", 11), "user");
}

#[test]
fn varints_round_trip() {
    for v in [0u64, 1, 127, 128, 300, u64::MAX] {
        let mut buf: Vec<u8> = Vec::new();
        put_varint(&mut buf, v);
        let mut expected: Vec<u8> = Vec::new();
        prost::encoding::encode_varint(v, &mut expected);
        assert_eq!(buf, expected);
        assert_eq!(read_varint(&buf, 0, buf.len()), Some((v, buf.len())));
    }
    assert_eq!(read_varint(&[0x80], 0, 1), None);
}

#[test]
fn keys_and_fixed64_round_trip() {
    let mut buf: Vec<u8> = Vec::new();
    put_key(&mut buf, 3, 1);
    put_fixed64(&mut buf, 0x0102_0304_0506_0708);
    assert_eq!(buf, vec![0x19, 8, 7, 6, 5, 4, 3, 2, 1]);
    assert_eq!(read_key(&buf, 0, buf.len()), Some((3, 1, 1)));
    assert_eq!(read_fixed64(&buf, 1), 0x0102_0304_0506_0708);
    // tag 0 and wire type 6 are refused
    assert_eq!(read_key(&[0x02], 0, 1), None);
    assert_eq!(read_key(&[0x0e], 0, 1), None);
}

#[test]
fn length_delimited_fields_round_trip() {
    let mut buf: Vec<u8> = Vec::new();
    put_len_delimited(&mut buf, 2, b"abc");
    assert_eq!(buf, vec![0x12, 3, b'a', b'b', b'c']);
    assert_eq!(read_len_delimited(&buf, 1, buf.len()), Some((2, 5)));
    assert_eq!(read_len_delimited(&buf, 1, 4), None);
}

#[test]
fn events_keep_key_and_value() {
    let e = Event::new("k", Value::from(7u16));
    assert_eq!(e.key(), "k");
    assert!(matches!(e.value(), Value::U16(7)));
    assert!(matches!(Value::from("s".to_string()), Value::String(_)));
    assert!(matches!(Value::from(-1isize), Value::ISize(-1)));
    assert!(matches!(Value::from(1usize), Value::USize(1)));
    assert!(matches!(Value::from(1u128), Value::U128(1)));
    assert!(matches!(Value::from(-1i128), Value::I128(-1)));
    assert!(matches!(Value::from(-1i16), Value::I16(-1)));
    assert!(matches!(Value::from(-1i32), Value::I32(-1)));
    assert!(matches!(Value::from(1u64), Value::U64(1)));
    assert!(matches!(Value::from(false), Value::Bool(false)));
}

#[test]
fn timestamps_before_the_epoch_are_negative_and_normalised() {
    assert_eq!(timestamp_of(false, 1, 500_000_000), Timestamp { seconds: -2, nanos: 500_000_000 });
    assert_eq!(timestamp_of(false, 3, 0), Timestamp { seconds: -3, nanos: 0 });
    assert_eq!(timestamp_of(true, 7, 9), Timestamp { seconds: 7, nanos: 9 });
    assert_eq!(timestamp_of(true, u64::MAX, 5), Timestamp { seconds: i64::MAX, nanos: 5 });
}

#[test]
fn str_values_are_strings() {
    match Value::from("text") {
        Value::String(s) => assert_eq!(s, "text"),
        _ => panic!("expected a string"),
    }
}
