use distracing::context::{LightStepSpanContextState, SpanContext, SpanContextState};
use distracing::span::{FinishedSpan, Reference, ReferenceType, Timestamp};
use distracing::strmap::StrMap;
use distracing::tracer::Tracer;
use distracing::tracers::lightstep::collector::{
    serialize_numeric_to_value, serialize_reference, serialize_span, serialize_span_context,
    serialize_timestamp, KeyValue, KeyValueValue,
};
use distracing::tracers::lightstep::reporter::{
    create_report_request_body, create_reporter, reporter_with_id, Auth, LightStepReporter,
};
use distracing::tracers::lightstep::response::{log_report_response, parse_response, LogLevel};
use distracing::tracers::lightstep::{LightStepConfig, LightStepTracer};
use distracing::value::{Event, Value};
use prost::encoding::{encode_key, encode_varint, WireType};
use prost::Message;

fn message_field(tag: u32, body: &[u8], buf: &mut Vec<u8>) {
    encode_key(tag, WireType::LengthDelimited, buf);
    encode_varint(body.len() as u64, buf);
    buf.extend_from_slice(body);
}

fn lightstep_context(trace_id: u64, span_id: u64) -> SpanContext {
    SpanContext {
        state: SpanContextState::LightStep(LightStepSpanContextState { trace_id, span_id }),
        baggage_items: StrMap::new(),
    }
}

fn text_of(kv: &KeyValue) -> &str {
    match &kv.value {
        Some(KeyValueValue::StringValue(s)) => s.as_str(),
        _ => panic!("not a string value"),
    }
}

fn finished_span(tracer: &LightStepTracer) -> FinishedSpan {
    let mut span = tracer
        .span("work")
        .set_tag("answer", Value::from(42i64))
        .set_tag("ok", Value::from(true))
        .start();
    span.log_with_timestamp(
        &[Event::new("event", Value::string("done"))],
        Timestamp { seconds: 5, nanos: 6 },
    );
    span.finish()
}

#[test]
fn numeric_values_within_i64_are_ints() {
    assert!(matches!(serialize_numeric_to_value(5), KeyValueValue::IntValue(5)));
    assert!(matches!(serialize_numeric_to_value(-1), KeyValueValue::IntValue(-1)));
    assert!(matches!(
        serialize_numeric_to_value(i64::MAX as i128),
        KeyValueValue::IntValue(i64::MAX)
    ));
    assert!(matches!(
        serialize_numeric_to_value(i64::MIN as i128),
        KeyValueValue::IntValue(i64::MIN)
    ));
}

#[test]
fn numeric_values_beyond_i64_are_decimal_strings() {
    match serialize_numeric_to_value(i64::MAX as i128 + 1) {
        KeyValueValue::StringValue(s) => assert_eq!(s, "9223372036854775808"),
        _ => panic!("expected a string"),
    }
    match serialize_numeric_to_value(i64::MIN as i128 - 1) {
        KeyValueValue::StringValue(s) => assert_eq!(s, "-9223372036854775809"),
        _ => panic!("expected a string"),
    }
}

#[test]
fn span_context_encoding_matches_prost() {
    let mut context = lightstep_context(1, 300);
    context.baggage_items.insert("a".to_string(), "b".to_string());
    let mut expected: Vec<u8> = Vec::new();
    prost::encoding::uint64::encode(1, &1, &mut expected);
    prost::encoding::uint64::encode(2, &300, &mut expected);
    let mut entry: Vec<u8> = Vec::new();
    prost::encoding::string::encode(1, &"a".to_string(), &mut entry);
    prost::encoding::string::encode(2, &"b".to_string(), &mut entry);
    message_field(3, &entry, &mut expected);
    assert_eq!(serialize_span_context(&context), expected);
    assert_eq!(
        serialize_span_context(&context),
        vec![0x08, 0x01, 0x10, 0xac, 0x02, 0x1a, 0x06, 0x0a, 0x01, b'a', 0x12, 0x01, b'b']
    );
}

#[test]
fn zero_ids_are_left_out() {
    assert_eq!(serialize_span_context(&lightstep_context(0, 0)), Vec::<u8>::new());
}

#[test]
fn reference_encoding_names_follows_from_only() {
    let child_of = Reference { rtype: ReferenceType::ChildOf, to: lightstep_context(1, 2) };
    assert_eq!(serialize_reference(&child_of), vec![0x12, 0x04, 0x08, 0x01, 0x10, 0x02]);
    let follows = Reference { rtype: ReferenceType::FollowsFrom, to: lightstep_context(1, 2) };
    assert_eq!(
        serialize_reference(&follows),
        vec![0x08, 0x01, 0x12, 0x04, 0x08, 0x01, 0x10, 0x02]
    );
}

#[test]
fn timestamp_encoding_matches_prost() {
    let t = Timestamp { seconds: 1_600_000_000, nanos: 123 };
    let mut expected: Vec<u8> = Vec::new();
    prost_types::Timestamp { seconds: t.seconds, nanos: t.nanos }
        .encode(&mut expected)
        .unwrap();
    assert_eq!(serialize_timestamp(&t), expected);
    let negative = Timestamp { seconds: -1, nanos: -2 };
    let mut expected: Vec<u8> = Vec::new();
    prost_types::Timestamp { seconds: -1, nanos: -2 }.encode(&mut expected).unwrap();
    assert_eq!(serialize_timestamp(&negative), expected);
}

#[test]
fn span_encoding_matches_prost() {
    let tracer = LightStepTracer::new();
    let span = finished_span(&tracer);
    let d = span.data();
    let mut expected: Vec<u8> = Vec::new();
    message_field(1, &serialize_span_context(&d.span_context), &mut expected);
    prost::encoding::string::encode(2, &"work".to_string(), &mut expected);
    let mut start: Vec<u8> = Vec::new();
    prost_types::Timestamp { seconds: d.start_timestamp.seconds, nanos: d.start_timestamp.nanos }
        .encode(&mut start)
        .unwrap();
    message_field(4, &start, &mut expected);
    let micros = d.duration_micros.unwrap() as u64;
    if micros != 0 {
        prost::encoding::uint64::encode(5, &micros, &mut expected);
    }
    let mut answer: Vec<u8> = Vec::new();
    prost::encoding::string::encode(1, &"answer".to_string(), &mut answer);
    prost::encoding::int64::encode(3, &42, &mut answer);
    message_field(6, &answer, &mut expected);
    let mut ok: Vec<u8> = Vec::new();
    prost::encoding::string::encode(1, &"ok".to_string(), &mut ok);
    prost::encoding::bool::encode(5, &true, &mut ok);
    message_field(6, &ok, &mut expected);
    let mut log: Vec<u8> = Vec::new();
    let mut ts: Vec<u8> = Vec::new();
    prost_types::Timestamp { seconds: 5, nanos: 6 }.encode(&mut ts).unwrap();
    message_field(1, &ts, &mut log);
    let mut field: Vec<u8> = Vec::new();
    prost::encoding::string::encode(1, &"event".to_string(), &mut field);
    prost::encoding::string::encode(2, &"done".to_string(), &mut field);
    message_field(2, &field, &mut log);
    message_field(7, &log, &mut expected);
    assert_eq!(serialize_span(&span), expected);
}

#[test]
fn reporter_announces_its_tags_as_text() {
    let mut config = LightStepConfig::new();
    config.tag("team", Value::from(true)).tag("count", Value::from(12u8));
    let reporter = reporter_with_id(&config, 7, "rustc 1.40.0", "0.1.0");
    assert_eq!(reporter.reporter_id, 7);
    let tags: Vec<(&str, &str)> =
        reporter.tags.iter().map(|kv| (kv.key.as_str(), text_of(kv))).collect();
    assert_eq!(
        tags,
        vec![
            ("team", "true"),
            ("count", "12"),
            ("lightstep.tracer_platform", "rust (distracing)"),
            ("lightstep.tracer_platform_version", "rustc 1.40.0"),
            ("lightstep.tracer_version", "0.1.0"),
            ("lightstep.component_name", "None"),
            ("lightstep.guid", "7"),
        ]
    );
}

#[test]
fn reporter_tags_replace_configured_ones_in_place() {
    let mut config = LightStepConfig::new();
    config
        .component_name("checkout")
        .tag("lightstep.tracer_version", Value::string("old"))
        .tag("big", Value::from(u64::MAX));
    let reporter = reporter_with_id(&config, u64::MAX, "v", "new");
    let tags: Vec<(&str, &str)> =
        reporter.tags.iter().map(|kv| (kv.key.as_str(), text_of(kv))).collect();
    assert_eq!(
        tags,
        vec![
            ("lightstep.tracer_version", "new"),
            ("big", "18446744073709551615"),
            ("lightstep.tracer_platform", "rust (distracing)"),
            ("lightstep.tracer_platform_version", "v"),
            ("lightstep.component_name", "checkout"),
            ("lightstep.guid", "18446744073709551615"),
        ]
    );
}

#[test]
fn random_reporter_ids_carry_the_guid_tag() {
    let config = LightStepConfig::new();
    let reporter = create_reporter(&config, "v", "w");
    let guid = reporter.tags.iter().find(|kv| kv.key == "lightstep.guid").unwrap();
    assert_eq!(text_of(guid), reporter.reporter_id.to_string());
}

#[test]
fn report_request_body_matches_prost() {
    let reporter = reporter_with_id(&LightStepConfig::new(), 7, "v", "w");
    let tracer = LightStepTracer::new();
    let span = finished_span(&tracer);
    let span_body = serialize_span(&span);
    let auth = Some(Auth { access_token: "tok".to_string() });
    let body = create_report_request_body(&reporter, &auth, vec![span]);

    let mut reporter_body: Vec<u8> = Vec::new();
    prost::encoding::uint64::encode(1, &7, &mut reporter_body);
    for kv in &reporter.tags {
        let mut tag: Vec<u8> = Vec::new();
        prost::encoding::string::encode(1, &kv.key, &mut tag);
        prost::encoding::string::encode(2, &text_of(kv).to_string(), &mut tag);
        message_field(4, &tag, &mut reporter_body);
    }
    let mut expected: Vec<u8> = Vec::new();
    message_field(1, &reporter_body, &mut expected);
    let mut auth_body: Vec<u8> = Vec::new();
    prost::encoding::string::encode(1, &"tok".to_string(), &mut auth_body);
    message_field(2, &auth_body, &mut expected);
    message_field(3, &span_body, &mut expected);
    assert_eq!(body, expected);
}

#[test]
fn report_request_with_empty_token_sends_empty_auth() {
    let reporter = reporter_with_id(&LightStepConfig::new(), 0, "", "");
    let auth = Some(Auth { access_token: String::new() });
    let body = create_report_request_body(&reporter, &auth, vec![]);
    // The reporter message comes first, then an empty `auth` message.
    assert_eq!(&body[body.len() - 2..], &[0x12, 0x00]);
    let no_auth = create_report_request_body(&reporter, &None, vec![]);
    assert_eq!(no_auth.len(), body.len() - 2);
}

fn response_bytes() -> Vec<u8> {
    let mut b: Vec<u8> = Vec::new();
    let mut command: Vec<u8> = Vec::new();
    prost::encoding::bool::encode(2, &true, &mut command);
    message_field(1, &command, &mut b);
    let mut ts: Vec<u8> = Vec::new();
    prost_types::Timestamp { seconds: 10, nanos: 20 }.encode(&mut ts).unwrap();
    message_field(2, &ts, &mut b);
    prost::encoding::string::encode_repeated(4, &["bad token".to_string()], &mut b);
    prost::encoding::string::encode_repeated(5, &["slow down".to_string()], &mut b);
    prost::encoding::string::encode_repeated(6, &["hi".to_string(), "bye".to_string()], &mut b);
    // an unknown field is skipped
    prost::encoding::uint64::encode(9, &77, &mut b);
    b
}

#[test]
fn response_is_decoded() {
    let response = parse_response(&response_bytes()).unwrap();
    assert_eq!(response.commands.len(), 1);
    assert!(!response.commands[0].disable);
    assert!(response.commands[0].dev_mode);
    assert_eq!(response.receive_timestamp, Some(Timestamp { seconds: 10, nanos: 20 }));
    assert_eq!(response.transmit_timestamp, None);
    assert_eq!(response.errors, vec!["bad token".to_string()]);
    assert_eq!(response.warnings, vec!["slow down".to_string()]);
    assert_eq!(response.infos, vec!["hi".to_string(), "bye".to_string()]);
}

#[test]
fn empty_response_is_default() {
    let response = parse_response(&[]).unwrap();
    assert!(response.commands.is_empty());
    assert!(response.errors.is_empty() && response.warnings.is_empty() && response.infos.is_empty());
    assert_eq!(response.receive_timestamp, None);
}

#[test]
fn malformed_responses_are_refused() {
    // a string that is not UTF-8
    assert!(parse_response(&[0x22, 0x01, 0xff]).is_none());
    // errors with the varint wire type
    assert!(parse_response(&[0x20, 0x01]).is_none());
    // a length beyond the end
    assert!(parse_response(&[0x22, 0x05, b'a']).is_none());
    // a timestamp whose seconds have the wrong wire type
    assert!(parse_response(&[0x12, 0x02, 0x0a, 0x00]).is_none());
    // an end-group key
    assert!(parse_response(&[0x0c]).is_none());
}

#[test]
fn response_messages_become_log_lines() {
    let response = parse_response(&response_bytes()).unwrap();
    let lines = log_report_response(&response);
    assert_eq!(
        lines,
        vec![
            (LogLevel::Error, "Received message from LightStep: bad token".to_string()),
            (LogLevel::Warn, "Received message from LightStep: slow down".to_string()),
            (LogLevel::Info, "Received message from LightStep: hi".to_string()),
            (LogLevel::Info, "Received message from LightStep: bye".to_string()),
        ]
    );
}

#[test]
fn full_buffer_drops_spans() {
    let mut config = LightStepConfig::new();
    config.buffer_size(2);
    let tracer = LightStepTracer::new();
    let mut reporter = LightStepReporter::new(config);
    assert!(reporter.is_running());
    assert!(!reporter.has_pending_spans());
    reporter.report(finished_span(&tracer));
    reporter.report(finished_span(&tracer));
    reporter.report(finished_span(&tracer));
    assert_eq!(reporter.dropped_spans(), 1);
    assert!(reporter.has_pending_spans());
    let pending = reporter.take_pending();
    assert_eq!(pending.len(), 2);
    // still sending
    assert!(reporter.has_pending_spans());
    reporter.finish_sending();
    assert!(!reporter.has_pending_spans());
    reporter.report(finished_span(&tracer));
    assert_eq!(reporter.take_pending().len(), 1);
    assert_eq!(reporter.dropped_spans(), 1);
    reporter.stop();
    assert!(!reporter.is_running());
}

#[test]
fn taking_an_empty_buffer_does_not_start_sending() {
    let mut reporter = LightStepReporter::new(LightStepConfig::new());
    assert!(reporter.take_pending().is_empty());
    assert!(!reporter.has_pending_spans());
}

#[test]
fn config_defaults_and_collector_url() {
    let config = LightStepConfig::new();
    assert_eq!(config.collector_url(), "https://collector.lightstep.com:443/api/v2/reports");
    assert_eq!(config.get_buffer_size(), 1000);
    assert_eq!(config.get_send_period(), std::time::Duration::from_millis(2500));
    assert_eq!(config.get_send_timeout(), std::time::Duration::from_secs(30));
    assert_eq!(config.get_access_token(), None);
    assert_eq!(config.get_component_name(), None);
}

#[test]
fn config_builder_sets_each_option() {
    let mut config = LightStepTracer::build();
    config
        .access_token("secret")
        .component_name("shop")
        .collector_host("tracing.example.org")
        .collector_port(8443)
        .buffer_size(10)
        .send_period(std::time::Duration::from_secs(1));
    assert_eq!(config.collector_url(), "https://tracing.example.org:8443/api/v2/reports");
    assert_eq!(config.get_access_token().map(|s| s.as_str()), Some("secret"));
    assert_eq!(config.get_component_name().map(|s| s.as_str()), Some("shop"));
    assert_eq!(config.get_buffer_size(), 10);
    assert_eq!(config.get_send_period(), std::time::Duration::from_secs(1));
    let tracer = config.build();
    assert_eq!(tracer.config.collector_url(), "https://tracing.example.org:8443/api/v2/reports");
}

#[test]
fn response_of_messages_decodes_to_them() {
    let mut b: Vec<u8> = Vec::new();
    prost::encoding::string::encode_repeated(4, &["".to_string(), "x".to_string()], &mut b);
    prost::encoding::string::encode_repeated(6, &["ünïcode".to_string()], &mut b);
    let response = parse_response(&b).unwrap();
    assert_eq!(response.errors, vec!["".to_string(), "x".to_string()]);
    assert!(response.warnings.is_empty());
    assert_eq!(response.infos, vec!["ünïcode".to_string()]);
    assert!(response.commands.is_empty());
    assert_eq!(response.receive_timestamp, None);
    assert_eq!(response.transmit_timestamp, None);
}

#[test]
fn repeated_timestamps_are_merged() {
    let mut b: Vec<u8> = Vec::new();
    let mut first: Vec<u8> = Vec::new();
    prost::encoding::int64::encode(1, &7, &mut first);
    message_field(3, &first, &mut b);
    let mut second: Vec<u8> = Vec::new();
    prost::encoding::int32::encode(2, &9, &mut second);
    message_field(3, &second, &mut b);
    let response = parse_response(&b).unwrap();
    assert_eq!(response.transmit_timestamp, Some(Timestamp { seconds: 7, nanos: 9 }));
}

#[test]
fn next_batch_is_never_empty() {
    let mut config = LightStepConfig::new();
    config.buffer_size(3);
    let tracer = LightStepTracer::new();
    let mut reporter = LightStepReporter::new(config);
    assert!(reporter.next_batch().is_none());
    assert!(!reporter.has_pending_spans());
    reporter.report(finished_span(&tracer));
    let batch = reporter.next_batch().unwrap();
    assert_eq!(batch.len(), 1);
    assert!(reporter.has_pending_spans());
    assert!(reporter.next_batch().is_none());
    reporter.finish_sending();
    assert!(!reporter.has_pending_spans());
}
