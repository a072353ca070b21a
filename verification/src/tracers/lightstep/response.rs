//! The collector's answer to a report (`lightstep.collector.ReportResponse`)
//! and the log lines it gives.
//!
//! Message layouts: `ReportResponse { repeated Command commands = 1;
//! Timestamp receive_timestamp = 2; Timestamp transmit_timestamp = 3;
//! repeated string errors = 4; repeated string warnings = 5; repeated string
//! infos = 6; }` and `Command { bool disable = 1; bool dev_mode = 2; }`.
use crate::span::Timestamp;
use crate::tracers::lightstep::carrier::{lemma_len_delimited_field, read_string};
use crate::wire::{
    field_key, field_string, varint, parse_key, parse_len_delimited, parse_varint, read_key, read_len_delimited, read_varint,
    skip_field, skip_field_at,
};
use vstd::prelude::*;
use vstd::string::StringExecFns;
use vstd::utf8::{decode_utf8, encode_utf8, encode_utf8_decode_utf8, encode_utf8_valid_utf8, valid_utf8};

verus! {

/// `lightstep.collector.Command`: what the collector asks of the tracer.
#[derive(Clone, Copy, Debug, PartialEq, Eq, Structural)]
pub struct Command {
    pub disable: bool,
    pub dev_mode: bool,
}

/// The collector's answer to a report.
pub struct ReportResponse {
    pub commands: Vec<Command>,
    pub receive_timestamp: Option<Timestamp>,
    pub transmit_timestamp: Option<Timestamp>,
    pub errors: Vec<String>,
    pub warnings: Vec<String>,
    pub infos: Vec<String>,
}

/// What a `ReportResponse` holds.
pub struct ResponseModel {
    pub commands: Seq<Command>,
    pub receive_timestamp: Option<Timestamp>,
    pub transmit_timestamp: Option<Timestamp>,
    pub errors: Seq<Seq<char>>,
    pub warnings: Seq<Seq<char>>,
    pub infos: Seq<Seq<char>>,
}

/// The character sequences of strings.
pub open spec fn string_views(v: Seq<String>) -> Seq<Seq<char>> {
    v.map_values(|s: String| s@)
}

impl ReportResponse {
    /// What the message holds.
    pub open spec fn model(self) -> ResponseModel {
        ResponseModel {
            commands: self.commands@,
            receive_timestamp: self.receive_timestamp,
            transmit_timestamp: self.transmit_timestamp,
            errors: string_views(self.errors@),
            warnings: string_views(self.warnings@),
            infos: string_views(self.infos@),
        }
    }
}

/// A response with every field at its default.
pub open spec fn default_response() -> ResponseModel {
    ResponseModel {
        commands: Seq::empty(),
        receive_timestamp: None,
        transmit_timestamp: None,
        errors: Seq::empty(),
        warnings: Seq::empty(),
        infos: Seq::empty(),
    }
}

/// Reads one field of a `Timestamp` and merges it into `t`: the bytes it
/// takes and the timestamp after it (`seconds` is an `int64`, `nanos` an
/// `int32` that keeps the low 32 bits of the varint).
pub open spec fn timestamp_field_step(b: Seq<u8>, t: Timestamp) -> Option<(nat, Timestamp)> {
    match parse_key(b) {
        None => None,
        Some((tag, w, n)) => {
            let r = b.skip(n as int);
            if tag == 1 || tag == 2 {
                if w != 0 {
                    None
                } else {
                    match parse_varint(r) {
                        None => None,
                        Some((x, m)) => if tag == 1 {
                            Some((n + m, Timestamp { seconds: x as i64, ..t }))
                        } else {
                            Some((n + m, Timestamp { nanos: x as i32, ..t }))
                        },
                    }
                }
            } else {
                match skip_field(r, w, tag, 99) {
                    None => None,
                    Some(m) => Some((n + m, t)),
                }
            }
        },
    }
}

/// Reads the fields of a `Timestamp` as `prost` merges them into `t`.
#[verifier::opaque]
pub open spec fn decode_timestamp_fields(b: Seq<u8>, t: Timestamp) -> Option<Timestamp>
    decreases b.len(),
{
    if b.len() == 0 {
        Some(t)
    } else {
        match timestamp_field_step(b, t) {
            None => None,
            Some((m, t2)) => if m == 0 || m > b.len() {
                None
            } else {
                decode_timestamp_fields(b.skip(m as int), t2)
            },
        }
    }
}

/// Reads one field of a `Command` and merges it into `c`.
pub open spec fn command_field_step(b: Seq<u8>, c: Command) -> Option<(nat, Command)> {
    match parse_key(b) {
        None => None,
        Some((tag, w, n)) => {
            let r = b.skip(n as int);
            if tag == 1 || tag == 2 {
                if w != 0 {
                    None
                } else {
                    match parse_varint(r) {
                        None => None,
                        Some((x, m)) => if tag == 1 {
                            Some((n + m, Command { disable: x != 0, ..c }))
                        } else {
                            Some((n + m, Command { dev_mode: x != 0, ..c }))
                        },
                    }
                }
            } else {
                match skip_field(r, w, tag, 99) {
                    None => None,
                    Some(m) => Some((n + m, c)),
                }
            }
        },
    }
}

/// Reads the fields of a `Command` as `prost` merges them into `c`.
#[verifier::opaque]
pub open spec fn decode_command_fields(b: Seq<u8>, c: Command) -> Option<Command>
    decreases b.len(),
{
    if b.len() == 0 {
        Some(c)
    } else {
        match command_field_step(b, c) {
            None => None,
            Some((m, c2)) => if m == 0 || m > b.len() {
                None
            } else {
                decode_command_fields(b.skip(m as int), c2)
            },
        }
    }
}

/// Merges a `Timestamp` message body into an optional timestamp (a default
/// one when there is none yet).
pub open spec fn merge_timestamp(body: Seq<u8>, t: Option<Timestamp>) -> Option<Timestamp> {
    decode_timestamp_fields(
        body,
        match t {
            Some(x) => x,
            None => Timestamp { seconds: 0, nanos: 0 },
        },
    )
}

/// Reads one field of a `ReportResponse` and merges it into `m`: the bytes
/// it takes and the message after it. Commands and strings are appended,
/// timestamps merged, unknown fields skipped; a wrong wire type, a string
/// that is not UTF-8 or a malformed nested message fails.
pub open spec fn response_field_step(b: Seq<u8>, m: ResponseModel) -> Option<(nat, ResponseModel)> {
    match parse_key(b) {
        None => None,
        Some((tag, w, n)) => {
            let r = b.skip(n as int);
            if 1 <= tag <= 6 {
                if w != 2 {
                    None
                } else {
                    match parse_len_delimited(r) {
                        None => None,
                        Some((s, e)) => {
                            let body = r.subrange(s as int, e as int);
                            if tag == 1 {
                                match decode_command_fields(body, Command { disable: false, dev_mode: false }) {
                                    None => None,
                                    Some(c) => Some((n + e, ResponseModel { commands: m.commands.push(c), ..m })),
                                }
                            } else if tag == 2 {
                                match merge_timestamp(body, m.receive_timestamp) {
                                    None => None,
                                    Some(t) => Some((n + e, ResponseModel { receive_timestamp: Some(t), ..m })),
                                }
                            } else if tag == 3 {
                                match merge_timestamp(body, m.transmit_timestamp) {
                                    None => None,
                                    Some(t) => Some((n + e, ResponseModel { transmit_timestamp: Some(t), ..m })),
                                }
                            } else if !valid_utf8(body) {
                                None
                            } else if tag == 4 {
                                Some((n + e, ResponseModel { errors: m.errors.push(decode_utf8(body)), ..m }))
                            } else if tag == 5 {
                                Some((n + e, ResponseModel { warnings: m.warnings.push(decode_utf8(body)), ..m }))
                            } else {
                                Some((n + e, ResponseModel { infos: m.infos.push(decode_utf8(body)), ..m }))
                            }
                        },
                    }
                }
            } else {
                match skip_field(r, w, tag, 100) {
                    None => None,
                    Some(k) => Some((n + k, m)),
                }
            }
        },
    }
}

/// Reads the fields of a `ReportResponse` as `prost` merges them into `m`.
#[verifier::opaque]
pub open spec fn decode_response_fields(b: Seq<u8>, m: ResponseModel) -> Option<ResponseModel>
    decreases b.len(),
{
    if b.len() == 0 {
        Some(m)
    } else {
        match response_field_step(b, m) {
            None => None,
            Some((k, m2)) => if k == 0 || k > b.len() {
                None
            } else {
                decode_response_fields(b.skip(k as int), m2)
            },
        }
    }
}

/// Decodes a `ReportResponse` as `prost::Message::decode` does: `None` when
/// the bytes are not a valid message.
pub open spec fn decode_report_response(b: Seq<u8>) -> Option<ResponseModel> {
    decode_response_fields(b, default_response())
}

/// Reads one field of a `Timestamp` at `pos` into `t`; gives the position
/// after the field.
fn timestamp_step_at(b: &[u8], pos: usize, end: usize, t: &mut Timestamp) -> (r: Option<usize>)
    requires
        pos < end <= b@.len(),
    ensures
        match timestamp_field_step(b@.subrange(pos as int, end as int), *old(t)) {
            None => r is None,
            Some((m, t2)) => r == Some((pos + m) as usize) && *final(t) == t2 && 1 <= m <= end - pos,
        },
{
    let ghost s = b@.subrange(pos as int, end as int);
    match read_key(b, pos, end) {
        None => None,
        Some((tag, w, p)) => {
            assert(s.skip(p - pos) =~= b@.subrange(p as int, end as int));
            if tag == 1 || tag == 2 {
                if w != 0 {
                    return None;
                }
                match read_varint(b, p, end) {
                    None => None,
                    Some((x, q)) => {
                        if tag == 1 {
                            t.seconds = x as i64;
                        } else {
                            t.nanos = x as i32;
                        }
                        Some(q)
                    },
                }
            } else {
                skip_field_at(b, p, end, w, tag, 99)
            }
        },
    }
}

/// Decodes the fields of a `Timestamp` in `b[start..end]` into `t`.
fn decode_timestamp(b: &[u8], start: usize, end: usize, t: &mut Timestamp) -> (r: bool)
    requires
        start <= end <= b@.len(),
    ensures
        match decode_timestamp_fields(b@.subrange(start as int, end as int), *old(t)) {
            None => !r,
            Some(x) => r && *final(t) == x,
        },
{
    let mut pos = start;
    while pos < end
        invariant
            start <= pos <= end <= b@.len(),
            decode_timestamp_fields(b@.subrange(start as int, end as int), *old(t))
                == decode_timestamp_fields(b@.subrange(pos as int, end as int), *t),
        decreases end - pos,
    {
        let ghost s = b@.subrange(pos as int, end as int);
        let ghost t0 = *t;
        reveal_with_fuel(decode_timestamp_fields, 1);
        match timestamp_step_at(b, pos, end, t) {
            None => {
                return false;
            },
            Some(q) => {
                assert(s.skip(q - pos) =~= b@.subrange(q as int, end as int));
                assert(decode_timestamp_fields(s, t0) == decode_timestamp_fields(s.skip(q - pos), *t));
                pos = q;
            },
        }
    }
    assert(b@.subrange(pos as int, end as int) =~= Seq::<u8>::empty());
    reveal_with_fuel(decode_timestamp_fields, 1);
    true
}

/// Reads one field of a `Command` at `pos` into `c`; gives the position
/// after the field.
fn command_step_at(b: &[u8], pos: usize, end: usize, c: &mut Command) -> (r: Option<usize>)
    requires
        pos < end <= b@.len(),
    ensures
        match command_field_step(b@.subrange(pos as int, end as int), *old(c)) {
            None => r is None,
            Some((m, c2)) => r == Some((pos + m) as usize) && *final(c) == c2 && 1 <= m <= end - pos,
        },
{
    let ghost s = b@.subrange(pos as int, end as int);
    match read_key(b, pos, end) {
        None => None,
        Some((tag, w, p)) => {
            assert(s.skip(p - pos) =~= b@.subrange(p as int, end as int));
            if tag == 1 || tag == 2 {
                if w != 0 {
                    return None;
                }
                match read_varint(b, p, end) {
                    None => None,
                    Some((x, q)) => {
                        if tag == 1 {
                            c.disable = x != 0;
                        } else {
                            c.dev_mode = x != 0;
                        }
                        Some(q)
                    },
                }
            } else {
                skip_field_at(b, p, end, w, tag, 99)
            }
        },
    }
}

/// Decodes the fields of a `Command` in `b[start..end]`.
fn decode_command(b: &[u8], start: usize, end: usize) -> (r: Option<Command>)
    requires
        start <= end <= b@.len(),
    ensures
        r == decode_command_fields(
            b@.subrange(start as int, end as int),
            Command { disable: false, dev_mode: false },
        ),
{
    let mut c = Command { disable: false, dev_mode: false };
    let mut pos = start;
    while pos < end
        invariant
            start <= pos <= end <= b@.len(),
            decode_command_fields(
                b@.subrange(start as int, end as int),
                Command { disable: false, dev_mode: false },
            ) == decode_command_fields(b@.subrange(pos as int, end as int), c),
        decreases end - pos,
    {
        let ghost s = b@.subrange(pos as int, end as int);
        let ghost c0 = c;
        reveal_with_fuel(decode_command_fields, 1);
        match command_step_at(b, pos, end, &mut c) {
            None => {
                return None;
            },
            Some(q) => {
                assert(s.skip(q - pos) =~= b@.subrange(q as int, end as int));
                assert(decode_command_fields(s, c0) == decode_command_fields(s.skip(q - pos), c));
                pos = q;
            },
        }
    }
    assert(b@.subrange(pos as int, end as int) =~= Seq::<u8>::empty());
    reveal_with_fuel(decode_command_fields, 1);
    Some(c)
}

/// Merges the `Timestamp` in `b[start..end]` into an optional timestamp.
fn merge_timestamp_at(b: &[u8], start: usize, end: usize, t: &mut Option<Timestamp>) -> (r: bool)
    requires
        start <= end <= b@.len(),
    ensures
        match merge_timestamp(b@.subrange(start as int, end as int), *old(t)) {
            None => !r,
            Some(x) => r && *final(t) == Some(x),
        },
{
    let mut base = match t {
        Some(x) => *x,
        None => Timestamp { seconds: 0, nanos: 0 },
    };
    if decode_timestamp(b, start, end, &mut base) {
        *t = Some(base);
        true
    } else {
        false
    }
}

/// Reads one field of a `ReportResponse` at `pos` into `m`; gives the
/// position after the field.
#[verifier::rlimit(60)]
fn response_step_at(b: &[u8], pos: usize, end: usize, m: &mut ReportResponse) -> (r: Option<usize>)
    requires
        pos < end <= b@.len(),
    ensures
        match response_field_step(b@.subrange(pos as int, end as int), old(m).model()) {
            None => r is None,
            Some((k, m2)) => r == Some((pos + k) as usize) && final(m).model() == m2 && 1 <= k <= end
                - pos,
        },
{
    let ghost s = b@.subrange(pos as int, end as int);
    match read_key(b, pos, end) {
        None => None,
        Some((tag, w, p)) => {
            let ghost r = s.skip(p - pos);
            assert(r =~= b@.subrange(p as int, end as int));
            if 1 <= tag && tag <= 6 {
                if w != 2 {
                    return None;
                }
                if tag >= 4 {
                    proof {
                        if let Some((s0, e0)) = parse_len_delimited(r) {
                            assert(r.subrange(s0 as int, e0 as int) =~= b@.subrange(p + s0, p + e0));
                        }
                    }
                    match read_string(b, p, end) {
                        None => None,
                        Some((x, q)) => {
                            let ghost xv = x@;
                            if tag == 4 {
                                m.errors.push(x);
                                assert(string_views(m.errors@) =~= string_views(old(m).errors@).push(xv));
                            } else if tag == 5 {
                                m.warnings.push(x);
                                assert(string_views(m.warnings@) =~= string_views(old(m).warnings@).push(
                                    xv,
                                ));
                            } else {
                                m.infos.push(x);
                                assert(string_views(m.infos@) =~= string_views(old(m).infos@).push(xv));
                            }
                            Some(q)
                        },
                    }
                } else {
                    match read_len_delimited(b, p, end) {
                        None => None,
                        Some((s0, e0)) => {
                            assert(r.subrange(s0 - p, e0 - p) =~= b@.subrange(s0 as int, e0 as int));
                            if tag == 1 {
                                match decode_command(b, s0, e0) {
                                    None => None,
                                    Some(c) => {
                                        m.commands.push(c);
                                        Some(e0)
                                    },
                                }
                            } else if tag == 2 {
                                if merge_timestamp_at(b, s0, e0, &mut m.receive_timestamp) {
                                    Some(e0)
                                } else {
                                    None
                                }
                            } else {
                                if merge_timestamp_at(b, s0, e0, &mut m.transmit_timestamp) {
                                    Some(e0)
                                } else {
                                    None
                                }
                            }
                        },
                    }
                }
            } else {
                skip_field_at(b, p, end, w, tag, 100)
            }
        },
    }
}

/// Decodes the body of a collector's answer: `None` when the bytes are not
/// a valid `ReportResponse`.
pub fn parse_response(body: &[u8]) -> (r: Option<ReportResponse>)
    ensures
        match decode_report_response(body@) {
            None => r is None,
            Some(x) => r matches Some(m) && m.model() == x,
        },
{
    let end = body.len();
    let mut m = ReportResponse {
        commands: Vec::new(),
        receive_timestamp: None,
        transmit_timestamp: None,
        errors: Vec::new(),
        warnings: Vec::new(),
        infos: Vec::new(),
    };
    assert(string_views(m.errors@) =~= Seq::<Seq<char>>::empty());
    assert(string_views(m.warnings@) =~= Seq::<Seq<char>>::empty());
    assert(string_views(m.infos@) =~= Seq::<Seq<char>>::empty());
    assert(m.model() == default_response());
    let mut pos: usize = 0;
    assert(body@.subrange(0, end as int) =~= body@);
    while pos < end
        invariant
            pos <= end == body@.len(),
            decode_report_response(body@) == decode_response_fields(
                body@.subrange(pos as int, end as int),
                m.model(),
            ),
        decreases end - pos,
    {
        let ghost s = body@.subrange(pos as int, end as int);
        let ghost m0 = m.model();
        reveal_with_fuel(decode_response_fields, 1);
        match response_step_at(body, pos, end, &mut m) {
            None => {
                return None;
            },
            Some(q) => {
                assert(s.skip(q - pos) =~= body@.subrange(q as int, end as int));
                assert(decode_response_fields(s, m0) == decode_response_fields(s.skip(q - pos), m.model()));
                pos = q;
            },
        }
    }
    assert(body@.subrange(pos as int, end as int) =~= Seq::<u8>::empty());
    reveal_with_fuel(decode_response_fields, 1);
    Some(m)
}

/// Repeated string fields, one per message, in order.
pub open spec fn encode_strings(tag: nat, ms: Seq<Seq<char>>) -> Seq<u8>
    decreases ms.len(),
{
    if ms.len() == 0 {
        Seq::empty()
    } else {
        field_string(tag, ms[0]) + encode_strings(tag, ms.drop_first())
    }
}

/// A `ReportResponse` that carries only messages: its errors, warnings and
/// informational messages.
pub open spec fn encode_response_messages(
    errors: Seq<Seq<char>>,
    warnings: Seq<Seq<char>>,
    infos: Seq<Seq<char>>,
) -> Seq<u8> {
    encode_strings(4, errors) + encode_strings(5, warnings) + encode_strings(6, infos)
}

/// A response with one more message under a string field's tag.
pub open spec fn with_message(m: ResponseModel, tag: nat, x: Seq<char>) -> ResponseModel {
    if tag == 4 {
        ResponseModel { errors: m.errors.push(x), ..m }
    } else if tag == 5 {
        ResponseModel { warnings: m.warnings.push(x), ..m }
    } else {
        ResponseModel { infos: m.infos.push(x), ..m }
    }
}

/// A response with more messages under a string field's tag.
pub open spec fn with_messages(m: ResponseModel, tag: nat, ms: Seq<Seq<char>>) -> ResponseModel {
    if tag == 4 {
        ResponseModel { errors: m.errors + ms, ..m }
    } else if tag == 5 {
        ResponseModel { warnings: m.warnings + ms, ..m }
    } else {
        ResponseModel { infos: m.infos + ms, ..m }
    }
}

/// A message field is one step of a `ReportResponse`.
proof fn lemma_message_step(tag: nat, x: Seq<char>, rest: Seq<u8>, m: ResponseModel)
    requires
        4 <= tag <= 6,
        encode_utf8(x).len() <= u64::MAX,
    ensures
        decode_response_fields(field_string(tag, x) + rest, m) == decode_response_fields(
            rest,
            with_message(m, tag, x),
        ),
{
    reveal_with_fuel(decode_response_fields, 1);
    let bytes = encode_utf8(x);
    lemma_len_delimited_field(tag, bytes, rest);
    encode_utf8_valid_utf8(x);
    encode_utf8_decode_utf8(x);
    let b = field_string(tag, x) + rest;
    let n = field_key(tag, 2).len();
    let l = varint(bytes.len()).len();
    assert(response_field_step(b, m) == Some(((n + l + bytes.len()) as nat, with_message(m, tag, x))));
}

/// Repeated message fields are steps of a `ReportResponse`, appended in
/// order.
proof fn lemma_message_steps(tag: nat, ms: Seq<Seq<char>>, rest: Seq<u8>, m: ResponseModel)
    requires
        4 <= tag <= 6,
        encode_strings(tag, ms).len() <= u64::MAX,
    ensures
        decode_response_fields(encode_strings(tag, ms) + rest, m) == decode_response_fields(
            rest,
            with_messages(m, tag, ms),
        ),
    decreases ms.len(),
{
    if ms.len() == 0 {
        assert(encode_strings(tag, ms) + rest =~= rest);
        assert(m.errors + ms =~= m.errors);
        assert(m.warnings + ms =~= m.warnings);
        assert(m.infos + ms =~= m.infos);
        assert(with_messages(m, tag, ms) == m);
    } else {
        let tail = ms.drop_first();
        let m2 = with_message(m, tag, ms[0]);
        assert(encode_strings(tag, ms) + rest =~= field_string(tag, ms[0]) + (encode_strings(tag, tail)
            + rest));
        assert(encode_utf8(ms[0]).len() <= field_string(tag, ms[0]).len());
        lemma_message_step(tag, ms[0], encode_strings(tag, tail) + rest, m);
        lemma_message_steps(tag, tail, rest, m2);
        assert(m.errors.push(ms[0]) + tail =~= m.errors + ms);
        assert(m.warnings.push(ms[0]) + tail =~= m.warnings + ms);
        assert(m.infos.push(ms[0]) + tail =~= m.infos + ms);
        assert(with_messages(m2, tag, tail) == with_messages(m, tag, ms));
    }
}

/// A response made only of messages decodes to exactly those messages, in
/// order, with no commands and no timestamps.
pub proof fn lemma_response_messages_round_trip(
    errors: Seq<Seq<char>>,
    warnings: Seq<Seq<char>>,
    infos: Seq<Seq<char>>,
)
    requires
        encode_response_messages(errors, warnings, infos).len() <= u64::MAX,
    ensures
        decode_report_response(encode_response_messages(errors, warnings, infos)) == Some(
            ResponseModel { errors, warnings, infos, ..default_response() },
        ),
{
    let d = default_response();
    let e = encode_strings(4, errors);
    let w = encode_strings(5, warnings);
    let i = encode_strings(6, infos);
    let m1 = with_messages(d, 4, errors);
    let m2 = with_messages(m1, 5, warnings);
    let m3 = with_messages(m2, 6, infos);
    assert(encode_response_messages(errors, warnings, infos) =~= e + (w + (i + Seq::empty())));
    lemma_message_steps(4, errors, w + (i + Seq::empty()), d);
    lemma_message_steps(5, warnings, i + Seq::empty(), m1);
    lemma_message_steps(6, infos, Seq::empty(), m2);
    assert(decode_response_fields(Seq::<u8>::empty(), m3) == Some(m3)) by {
        reveal_with_fuel(decode_response_fields, 1);
    }
    assert(d.errors + errors =~= errors);
    assert(d.warnings + warnings =~= warnings);
    assert(d.infos + infos =~= infos);
}

/// How severe a log line is.
#[derive(Clone, Copy, Debug, PartialEq, Eq, Structural)]
pub enum LogLevel {
    Error,
    Warn,
    Info,
}

/// The text a message from the collector is logged with.
pub open spec fn log_message(m: Seq<char>) -> Seq<char> {
    "Received message from LightStep: "@ + m
}

/// Messages logged at one level, in order.
pub open spec fn leveled(level: LogLevel, ms: Seq<Seq<char>>) -> Seq<(LogLevel, Seq<char>)> {
    ms.map_values(|m: Seq<char>| (level, log_message(m)))
}

/// The lines logged for a collector's answer: its errors, then its
/// warnings, then its informational messages.
pub open spec fn report_log_lines(r: ResponseModel) -> Seq<(LogLevel, Seq<char>)> {
    leveled(LogLevel::Error, r.errors) + leveled(LogLevel::Warn, r.warnings) + leveled(
        LogLevel::Info,
        r.infos,
    )
}

/// Log lines taken by their text.
pub open spec fn line_views(lines: Seq<(LogLevel, String)>) -> Seq<(LogLevel, Seq<char>)> {
    lines.map_values(|l: (LogLevel, String)| (l.0, l.1@))
}

/// Appends the log lines of messages at one level.
fn push_lines(lines: &mut Vec<(LogLevel, String)>, level: LogLevel, messages: &Vec<String>)
    ensures
        line_views(final(lines)@) == line_views(old(lines)@) + leveled(level, string_views(messages@)),
{
    let ghost head = line_views(lines@);
    let n = messages.len();
    let mut i: usize = 0;
    while i < n
        invariant
            n == messages@.len(),
            i <= n,
            line_views(lines@) == head + leveled(level, string_views(messages@.take(i as int))),
        decreases n - i,
    {
        let mut text = String::from_str("Received message from LightStep: ");
        text.append(messages[i].as_str());
        let ghost before = lines@;
        lines.push((level, text));
        proof {
            assert(messages@.take(i + 1) =~= messages@.take(i as int).push(messages@[i as int]));
            assert(string_views(messages@.take(i + 1)) =~= string_views(messages@.take(i as int)).push(
                messages@[i as int]@,
            ));
            assert(line_views(lines@) =~= line_views(before).push((level, text@)));
            assert(leveled(level, string_views(messages@.take(i + 1))) =~= leveled(
                level,
                string_views(messages@.take(i as int)),
            ).push((level, log_message(messages@[i as int]@))));
        }
        i = i + 1;
        assert(line_views(lines@) =~= head + leveled(level, string_views(messages@.take(i as int))));
    }
    assert(messages@.take(n as int) =~= messages@);
}

/// The lines to log for a collector's answer: each error, warning and
/// informational message, at its level, after
/// `Received message from LightStep: `.
pub fn log_report_response(response: &ReportResponse) -> (lines: Vec<(LogLevel, String)>)
    ensures
        line_views(lines@) == report_log_lines(response.model()),
{
    let mut lines: Vec<(LogLevel, String)> = Vec::new();
    assert(line_views(lines@) =~= Seq::<(LogLevel, Seq<char>)>::empty());
    push_lines(&mut lines, LogLevel::Error, &response.errors);
    push_lines(&mut lines, LogLevel::Warn, &response.warnings);
    push_lines(&mut lines, LogLevel::Info, &response.infos);
    assert(line_views(lines@) =~= report_log_lines(response.model()));
    lines
}

} // verus!
