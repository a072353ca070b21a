//! Reading the collector messages back field by field: a message is a
//! sequence of keyed fields, each a varint or a length-delimited value.
//! The laws here say what a reader of the bytes finds in them.
use crate::context::SpanContext;
use crate::span::{Reference, ReferenceType, SpanData};
use crate::tracers::lightstep::carrier::{
    encode_map_entries, encode_map_entry, entry_views, lemma_len_delimited_field, optional_string,
};
use crate::tracers::lightstep::collector::{
    encode_log_entry, encode_reference, encode_span, encode_span_context, encode_timestamp,
    optional_uint64, repeated, tag_bodies,
};
use crate::wire::{
    field_key, field_len_delimited, field_string, lemma_parse_key, lemma_parse_varint, parse_key,
    parse_len_delimited, parse_varint, varint,
};
use vstd::prelude::*;
use vstd::utf8::encode_utf8;

verus! {

/// A field's value as it reads off the wire.
pub enum FieldValue {
    Varint(u64),
    Bytes(Seq<u8>),
}

/// A field before the fields that follow it, when they could be read.
pub open spec fn prepend_fields(
    fs: Seq<(nat, FieldValue)>,
    rest: Option<Seq<(nat, FieldValue)>>,
) -> Option<Seq<(nat, FieldValue)>> {
    match rest {
        None => None,
        Some(gs) => Some(fs + gs),
    }
}

/// The fields of a message, in order, each with its tag: `None` when the
/// bytes are not a sequence of varint and length-delimited fields.
pub open spec fn message_fields(b: Seq<u8>) -> Option<Seq<(nat, FieldValue)>>
    decreases b.len(),
{
    if b.len() == 0 {
        Some(Seq::empty())
    } else {
        match parse_key(b) {
            None => None,
            Some((t, w, n)) => {
                let r = b.skip(n as int);
                if n == 0 || n > b.len() {
                    None
                } else if w == 0 {
                    match parse_varint(r) {
                        None => None,
                        Some((x, m)) => if n + m > b.len() {
                            None
                        } else {
                            prepend_fields(
                                seq![(t, FieldValue::Varint(x))],
                                message_fields(b.skip((n + m) as int)),
                            )
                        },
                    }
                } else if w == 2 {
                    match parse_len_delimited(r) {
                        None => None,
                        Some((s, e)) => if n + e > b.len() {
                            None
                        } else {
                            prepend_fields(
                                seq![(t, FieldValue::Bytes(r.subrange(s as int, e as int)))],
                                message_fields(b.skip((n + e) as int)),
                            )
                        },
                    }
                } else {
                    None
                }
            },
        }
    }
}

/// The length-delimited values under one tag, in order.
pub open spec fn payloads(fs: Seq<(nat, FieldValue)>, tag: nat) -> Seq<Seq<u8>>
    decreases fs.len(),
{
    if fs.len() == 0 {
        Seq::empty()
    } else {
        let rest = payloads(fs.drop_first(), tag);
        if fs[0].0 == tag && fs[0].1 is Bytes {
            seq![fs[0].1->Bytes_0] + rest
        } else {
            rest
        }
    }
}

/// The varint values under one tag, in order.
pub open spec fn varints(fs: Seq<(nat, FieldValue)>, tag: nat) -> Seq<u64>
    decreases fs.len(),
{
    if fs.len() == 0 {
        Seq::empty()
    } else {
        let rest = varints(fs.drop_first(), tag);
        if fs[0].0 == tag && fs[0].1 is Varint {
            seq![fs[0].1->Varint_0] + rest
        } else {
            rest
        }
    }
}

/// Reading fields splits over concatenation.
pub proof fn lemma_payloads_append(fs: Seq<(nat, FieldValue)>, gs: Seq<(nat, FieldValue)>, tag: nat)
    ensures
        payloads(fs + gs, tag) == payloads(fs, tag) + payloads(gs, tag),
        varints(fs + gs, tag) == varints(fs, tag) + varints(gs, tag),
    decreases fs.len(),
{
    if fs.len() == 0 {
        assert(fs + gs =~= gs);
        assert(payloads(fs, tag) + payloads(gs, tag) =~= payloads(gs, tag));
        assert(varints(fs, tag) + varints(gs, tag) =~= varints(gs, tag));
    } else {
        assert((fs + gs).drop_first() =~= fs.drop_first() + gs);
        lemma_payloads_append(fs.drop_first(), gs, tag);
        assert(payloads(fs + gs, tag) =~= payloads(fs, tag) + payloads(gs, tag));
        assert(varints(fs + gs, tag) =~= varints(fs, tag) + varints(gs, tag));
    }
}

/// A length-delimited field is read as its tag and its bytes.
pub proof fn lemma_fields_len_delimited(tag: nat, body: Seq<u8>, rest: Seq<u8>)
    requires
        1 <= tag <= 15,
        body.len() <= u64::MAX,
    ensures
        message_fields(field_len_delimited(tag, body) + rest) == prepend_fields(
            seq![(tag, FieldValue::Bytes(body))],
            message_fields(rest),
        ),
{
    let b = field_len_delimited(tag, body) + rest;
    lemma_len_delimited_field(tag, body, rest);
    assert(field_len_delimited(tag, body).len() >= 1);
}

/// A varint field is read as its tag and its value.
pub proof fn lemma_fields_varint(tag: nat, x: u64, rest: Seq<u8>)
    requires
        1 <= tag <= 15,
    ensures
        message_fields(field_key(tag, 0) + varint(x as nat) + rest) == prepend_fields(
            seq![(tag, FieldValue::Varint(x))],
            message_fields(rest),
        ),
{
    let b = field_key(tag, 0) + varint(x as nat) + rest;
    lemma_parse_key(tag, 0, varint(x as nat) + rest);
    assert(b =~= field_key(tag, 0) + (varint(x as nat) + rest));
    let n = field_key(tag, 0).len();
    assert(b.skip(n as int) =~= varint(x as nat) + rest);
    lemma_parse_varint(x, rest);
    let m = varint(x as nat).len();
    assert(b.skip((n + m) as int) =~= rest);
}

/// An optional string field is read as its UTF-8 bytes, or not at all when
/// the string is empty.
pub proof fn lemma_fields_optional_string(tag: nat, s: Seq<char>, rest: Seq<u8>)
    requires
        1 <= tag <= 15,
        optional_string(tag, s).len() <= u64::MAX,
    ensures
        message_fields(optional_string(tag, s) + rest) == prepend_fields(
            if s.len() == 0 {
                Seq::empty()
            } else {
                seq![(tag, FieldValue::Bytes(encode_utf8(s)))]
            },
            message_fields(rest),
        ),
{
    if s.len() == 0 {
        assert(optional_string(tag, s) + rest =~= rest);
        match message_fields(rest) {
            Some(gs) => {
                assert(Seq::<(nat, FieldValue)>::empty() + gs =~= gs);
            },
            None => {},
        }
    } else {
        assert(field_string(tag, s).len() >= encode_utf8(s).len());
        lemma_fields_len_delimited(tag, encode_utf8(s), rest);
    }
}

/// An optional `uint64` field is read as its value, or not at all when it
/// is zero.
pub proof fn lemma_fields_optional_uint64(tag: nat, x: u64, rest: Seq<u8>)
    requires
        1 <= tag <= 15,
    ensures
        message_fields(optional_uint64(tag, x) + rest) == prepend_fields(
            if x == 0 {
                Seq::empty()
            } else {
                seq![(tag, FieldValue::Varint(x))]
            },
            message_fields(rest),
        ),
{
    if x == 0 {
        assert(optional_uint64(tag, x) + rest =~= rest);
        match message_fields(rest) {
            Some(gs) => {
                assert(Seq::<(nat, FieldValue)>::empty() + gs =~= gs);
            },
            None => {},
        }
    } else {
        lemma_fields_varint(tag, x, rest);
    }
}

/// Length-delimited values under one tag, as fields.
pub open spec fn bytes_fields(tag: nat, bodies: Seq<Seq<u8>>) -> Seq<(nat, FieldValue)> {
    bodies.map_values(|body: Seq<u8>| (tag, FieldValue::Bytes(body)))
}

/// Repeated message fields are read as one field per body, in order.
pub proof fn lemma_fields_repeated(tag: nat, bodies: Seq<Seq<u8>>, rest: Seq<u8>)
    requires
        1 <= tag <= 15,
        repeated(tag, bodies).len() <= u64::MAX,
    ensures
        message_fields(repeated(tag, bodies) + rest) == prepend_fields(
            bytes_fields(tag, bodies),
            message_fields(rest),
        ),
    decreases bodies.len(),
{
    if bodies.len() == 0 {
        assert(repeated(tag, bodies) + rest =~= rest);
        match message_fields(rest) {
            Some(gs) => {
                assert(bytes_fields(tag, bodies) + gs =~= gs);
            },
            None => {},
        }
    } else {
        let tail = bodies.drop_first();
        let head = field_len_delimited(tag, bodies[0]);
        assert(repeated(tag, bodies) == head + repeated(tag, tail));
        assert(repeated(tag, bodies) + rest =~= head + (repeated(tag, tail) + rest));
        lemma_fields_repeated(tag, tail, rest);
        lemma_fields_len_delimited(tag, bodies[0], repeated(tag, tail) + rest);
        match message_fields(rest) {
            Some(gs) => {
                assert(seq![(tag, FieldValue::Bytes(bodies[0]))] + (bytes_fields(tag, tail) + gs)
                    =~= bytes_fields(tag, bodies) + gs);
            },
            None => {},
        }
    }
}

/// The bodies under a tag of the fields of repeated bodies.
pub proof fn lemma_payloads_bytes_fields(tag: nat, bodies: Seq<Seq<u8>>, other: nat)
    ensures
        payloads(bytes_fields(tag, bodies), tag) == bodies,
        other != tag ==> payloads(bytes_fields(tag, bodies), other) == Seq::<Seq<u8>>::empty(),
        varints(bytes_fields(tag, bodies), other) == Seq::<u64>::empty(),
    decreases bodies.len(),
{
    if bodies.len() > 0 {
        assert(bytes_fields(tag, bodies).drop_first() =~= bytes_fields(tag, bodies.drop_first()));
        lemma_payloads_bytes_fields(tag, bodies.drop_first(), other);
        assert(payloads(bytes_fields(tag, bodies), tag) =~= bodies);
    } else {
        assert(payloads(bytes_fields(tag, bodies), tag) =~= bodies);
    }
}


/// The value a reader takes for a scalar field: the last one written, or
/// zero when there is none.
pub open spec fn last_or_zero(vs: Seq<u64>) -> u64 {
    if vs.len() == 0 {
        0
    } else {
        vs.last()
    }
}

/// Whether message bytes read as a span context with the given identity.
pub open spec fn reads_as_span_context(p: Seq<u8>, c: SpanContext) -> bool {
    message_fields(p) matches Some(gs) && last_or_zero(varints(gs, 1))
        == c.state->LightStep_0.trace_id && last_or_zero(varints(gs, 2))
        == c.state->LightStep_0.span_id && payloads(gs, 3).len() == c.baggage_items.entries().len()
}

/// Whether message bytes read as a reference: its relationship (`ChildOf`
/// unless the relationship field says `FollowsFrom`) and one span context.
pub open spec fn reads_as_reference(p: Seq<u8>, r: Reference) -> bool {
    message_fields(p) matches Some(gs) && (if last_or_zero(varints(gs, 1)) == 1 {
        ReferenceType::FollowsFrom
    } else {
        ReferenceType::ChildOf
    }) == r.rtype && payloads(gs, 2).len() == 1 && reads_as_span_context(payloads(gs, 2)[0], r.to)
}

/// Map entries are repeated message fields.
proof fn lemma_map_entries_repeated(tag: nat, es: Seq<(Seq<char>, Seq<char>)>)
    ensures
        encode_map_entries(tag, es) == repeated(
            tag,
            es.map_values(|e: (Seq<char>, Seq<char>)| optional_string(1, e.0) + optional_string(2, e.1)),
        ),
    decreases es.len(),
{
    let bodies = es.map_values(
        |e: (Seq<char>, Seq<char>)| optional_string(1, e.0) + optional_string(2, e.1),
    );
    if es.len() > 0 {
        lemma_map_entries_repeated(tag, es.drop_first());
        assert(bodies.drop_first() =~= es.drop_first().map_values(
            |e: (Seq<char>, Seq<char>)| optional_string(1, e.0) + optional_string(2, e.1),
        ));
    }
}

/// Fields read singly carry nothing under other tags.
pub(crate) proof fn lemma_single_field(t: nat, v: FieldValue, tag: nat)
    ensures
        t != tag ==> payloads(seq![(t, v)], tag) == Seq::<Seq<u8>>::empty(),
        t != tag ==> varints(seq![(t, v)], tag) == Seq::<u64>::empty(),
        v is Bytes ==> varints(seq![(t, v)], tag) == Seq::<u64>::empty(),
        v is Varint ==> payloads(seq![(t, v)], tag) == Seq::<Seq<u8>>::empty(),
        (t == tag && v is Varint) ==> varints(seq![(t, v)], tag) == seq![v->Varint_0],
        (t == tag && v is Bytes) ==> payloads(seq![(t, v)], tag) == seq![v->Bytes_0],
{
    reveal_with_fuel(payloads, 2);
    reveal_with_fuel(varints, 2);
    assert(seq![(t, v)].drop_first() =~= Seq::<(nat, FieldValue)>::empty());
    assert(seq![v->Varint_0] + Seq::<u64>::empty() =~= seq![v->Varint_0]);
    assert(seq![v->Bytes_0] + Seq::<Seq<u8>>::empty() =~= seq![v->Bytes_0]);
}

/// The fields of an optional `uint64` as read under tags.
proof fn lemma_optional_uint64_reads(t: nat, x: u64, tag: nat)
    ensures
        ({
            let fs = if x == 0 {
                Seq::<(nat, FieldValue)>::empty()
            } else {
                seq![(t, FieldValue::Varint(x))]
            };
            &&& payloads(fs, tag) == Seq::<Seq<u8>>::empty()
            &&& t != tag ==> varints(fs, tag) == Seq::<u64>::empty()
            &&& t == tag ==> last_or_zero(varints(fs, tag)) == x
        }),
{
    if x != 0 {
        lemma_single_field(t, FieldValue::Varint(x), tag);
    }
}

/// A span context's message reads as its identity.
pub proof fn lemma_span_context_reads(c: SpanContext)
    requires
        encode_span_context(c).len() <= u64::MAX,
    ensures
        reads_as_span_context(encode_span_context(c), c),
{
    let t = c.state->LightStep_0.trace_id;
    let s = c.state->LightStep_0.span_id;
    let es = entry_views(c.baggage_items.entries());
    let bodies = es.map_values(
        |e: (Seq<char>, Seq<char>)| optional_string(1, e.0) + optional_string(2, e.1),
    );
    let a = optional_uint64(1, t);
    let b = optional_uint64(2, s);
    let m = encode_map_entries(3, es);
    lemma_map_entries_repeated(3, es);
    assert(encode_span_context(c) == a + b + m);
    assert(a + b + m =~= a + (b + (m + Seq::empty())));
    lemma_fields_repeated(3, bodies, Seq::empty());
    lemma_fields_optional_uint64(2, s, m + Seq::empty());
    lemma_fields_optional_uint64(1, t, b + (m + Seq::empty()));
    let fa = if t == 0 {
        Seq::<(nat, FieldValue)>::empty()
    } else {
        seq![(1nat, FieldValue::Varint(t))]
    };
    let fb = if s == 0 {
        Seq::<(nat, FieldValue)>::empty()
    } else {
        seq![(2nat, FieldValue::Varint(s))]
    };
    let fm = bytes_fields(3, bodies);
    assert(message_fields(encode_span_context(c)) == Some(fa + (fb + (fm + Seq::empty()))));
    let fs = fa + (fb + (fm + Seq::empty()));
    assert(fm + Seq::<(nat, FieldValue)>::empty() =~= fm);
    lemma_payloads_append(fa, fb + fm, 1);
    lemma_payloads_append(fb, fm, 1);
    lemma_payloads_append(fa, fb + fm, 2);
    lemma_payloads_append(fb, fm, 2);
    lemma_payloads_append(fa, fb + fm, 3);
    lemma_payloads_append(fb, fm, 3);
    lemma_optional_uint64_reads(1, t, 1);
    lemma_optional_uint64_reads(1, t, 2);
    lemma_optional_uint64_reads(1, t, 3);
    lemma_optional_uint64_reads(2, s, 1);
    lemma_optional_uint64_reads(2, s, 2);
    lemma_optional_uint64_reads(2, s, 3);
    lemma_payloads_bytes_fields(3, bodies, 1);
    lemma_payloads_bytes_fields(3, bodies, 2);
    assert(varints(fs, 1) =~= varints(fa, 1));
    assert(varints(fs, 2) =~= varints(fb, 2));
    assert(payloads(fs, 3) =~= bodies);
}


/// A reference's message reads as its relationship and its span context.
pub proof fn lemma_reference_reads(r: Reference)
    requires
        encode_reference(r).len() <= u64::MAX,
    ensures
        reads_as_reference(encode_reference(r), r),
{
    let ctx = encode_span_context(r.to);
    let rel = if r.rtype == ReferenceType::FollowsFrom {
        field_key(1, 0) + varint(1)
    } else {
        Seq::<u8>::empty()
    };
    let fc = seq![(2nat, FieldValue::Bytes(ctx))];
    assert(encode_reference(r) == rel + field_len_delimited(2, ctx));
    assert(field_len_delimited(2, ctx).len() >= ctx.len());
    lemma_span_context_reads(r.to);
    lemma_fields_len_delimited(2, ctx, Seq::empty());
    assert(fc + Seq::<(nat, FieldValue)>::empty() =~= fc);
    lemma_single_field(2, FieldValue::Bytes(ctx), 1);
    lemma_single_field(2, FieldValue::Bytes(ctx), 2);
    if r.rtype == ReferenceType::FollowsFrom {
        let fr = seq![(1nat, FieldValue::Varint(1))];
        assert(encode_reference(r) =~= field_key(1, 0) + varint(1) + (field_len_delimited(2, ctx)
            + Seq::empty()));
        lemma_fields_varint(1, 1, field_len_delimited(2, ctx) + Seq::empty());
        let fs = fr + fc;
        assert(message_fields(encode_reference(r)) == Some(fs));
        lemma_payloads_append(fr, fc, 1);
        lemma_payloads_append(fr, fc, 2);
        lemma_single_field(1, FieldValue::Varint(1), 1);
        lemma_single_field(1, FieldValue::Varint(1), 2);
        assert(varints(fs, 1) =~= seq![1u64]);
        assert(payloads(fs, 2) =~= seq![ctx]);
    } else {
        assert(encode_reference(r) =~= field_len_delimited(2, ctx) + Seq::empty());
        assert(message_fields(encode_reference(r)) == Some(fc));
    }
}

/// What the fields of a span message are.
pub open spec fn span_fields(d: SpanData) -> Seq<(nat, FieldValue)> {
    let dur = d.duration_micros->0 as u64;
    let name = d.operation_name@;
    seq![(1nat, FieldValue::Bytes(encode_span_context(d.span_context)))] + ((if name.len() == 0 {
        Seq::empty()
    } else {
        seq![(2nat, FieldValue::Bytes(encode_utf8(name)))]
    }) + (bytes_fields(3, d.references@.map_values(|r: Reference| encode_reference(r))) + (seq![
        (4nat, FieldValue::Bytes(encode_timestamp(d.start_timestamp))),
    ] + ((if dur == 0 {
        Seq::empty()
    } else {
        seq![(5nat, FieldValue::Varint(dur))]
    }) + (bytes_fields(6, tag_bodies(d.tags.entries())) + (bytes_fields(
        7,
        d.log@.map_values(|l: (crate::span::Timestamp, Vec<crate::value::Event>)| encode_log_entry(l)),
    ) + Seq::empty()))))))
}

/// A span message reads as its fields.
#[verifier::rlimit(60)]
proof fn lemma_span_fields(d: SpanData)
    requires
        encode_span(d).len() <= u64::MAX,
    ensures
        message_fields(encode_span(d)) == Some(span_fields(d)),
{
    let ctx = encode_span_context(d.span_context);
    let name = d.operation_name@;
    let refs = d.references@.map_values(|r: Reference| encode_reference(r));
    let ts = encode_timestamp(d.start_timestamp);
    let dur = d.duration_micros->0 as u64;
    let tags = tag_bodies(d.tags.entries());
    let logs = d.log@.map_values(
        |l: (crate::span::Timestamp, Vec<crate::value::Event>)| encode_log_entry(l),
    );
    let p1 = field_len_delimited(1, ctx);
    let p2 = optional_string(2, name);
    let p3 = repeated(3, refs);
    let p4 = field_len_delimited(4, ts);
    let p5 = optional_uint64(5, dur);
    let p6 = repeated(6, tags);
    let p7 = repeated(7, logs);
    let e = Seq::<u8>::empty();
    let q7 = p7 + e;
    let q6 = p6 + q7;
    let q5 = p5 + q6;
    let q4 = p4 + q5;
    let q3 = p3 + q4;
    let q2 = p2 + q3;
    let q1 = p1 + q2;
    assert(encode_span(d) == p1 + p2 + p3 + p4 + p5 + p6 + p7);
    assert(encode_span(d) =~= q1);
    assert(p7.len() <= u64::MAX && p6.len() <= u64::MAX && p3.len() <= u64::MAX && p2.len()
        <= u64::MAX);
    assert(ctx.len() <= p1.len() && ts.len() <= p4.len());
    let f1 = seq![(1nat, FieldValue::Bytes(ctx))];
    let f2 = if name.len() == 0 {
        Seq::<(nat, FieldValue)>::empty()
    } else {
        seq![(2nat, FieldValue::Bytes(encode_utf8(name)))]
    };
    let f3 = bytes_fields(3, refs);
    let f4 = seq![(4nat, FieldValue::Bytes(ts))];
    let f5 = if dur == 0 {
        Seq::<(nat, FieldValue)>::empty()
    } else {
        seq![(5nat, FieldValue::Varint(dur))]
    };
    let f6 = bytes_fields(6, tags);
    let f7 = bytes_fields(7, logs);
    let g7 = f7 + Seq::<(nat, FieldValue)>::empty();
    let g6 = f6 + g7;
    let g5 = f5 + g6;
    let g4 = f4 + g5;
    let g3 = f3 + g4;
    let g2 = f2 + g3;
    let g1 = f1 + g2;
    assert(message_fields(e) == Some(Seq::<(nat, FieldValue)>::empty()));
    lemma_fields_repeated(7, logs, e);
    assert(message_fields(q7) == Some(g7));
    lemma_fields_repeated(6, tags, q7);
    assert(message_fields(q6) == Some(g6));
    lemma_fields_optional_uint64(5, dur, q6);
    assert(message_fields(q5) == Some(g5));
    lemma_fields_len_delimited(4, ts, q5);
    assert(message_fields(q4) == Some(g4));
    lemma_fields_repeated(3, refs, q4);
    assert(message_fields(q3) == Some(g3));
    lemma_fields_optional_string(2, name, q3);
    assert(message_fields(q2) == Some(g2));
    lemma_fields_len_delimited(1, ctx, q2);
    assert(message_fields(q1) == Some(g1));
    assert(span_fields(d) == g1);
}

/// A span message carries one reference per reference of the span, in
/// order, each read as its relationship and span context.
pub proof fn lemma_span_references_read(d: SpanData)
    requires
        encode_span(d).len() <= u64::MAX,
    ensures
        message_fields(encode_span(d)) matches Some(fs) && payloads(fs, 3).len()
            == d.references@.len() && (forall|i: int|
            0 <= i < d.references@.len() ==> reads_as_reference(
                #[trigger] payloads(fs, 3)[i],
                d.references@[i],
            )),
{
    lemma_span_fields(d);
    let ctx = encode_span_context(d.span_context);
    let name = d.operation_name@;
    let refs = d.references@.map_values(|r: Reference| encode_reference(r));
    let ts = encode_timestamp(d.start_timestamp);
    let dur = d.duration_micros->0 as u64;
    let tags = tag_bodies(d.tags.entries());
    let logs = d.log@.map_values(
        |l: (crate::span::Timestamp, Vec<crate::value::Event>)| encode_log_entry(l),
    );
    let f1 = seq![(1nat, FieldValue::Bytes(ctx))];
    let f2 = if name.len() == 0 {
        Seq::<(nat, FieldValue)>::empty()
    } else {
        seq![(2nat, FieldValue::Bytes(encode_utf8(name)))]
    };
    let f3 = bytes_fields(3, refs);
    let f4 = seq![(4nat, FieldValue::Bytes(ts))];
    let f5 = if dur == 0 {
        Seq::<(nat, FieldValue)>::empty()
    } else {
        seq![(5nat, FieldValue::Varint(dur))]
    };
    let f6 = bytes_fields(6, tags);
    let f7 = bytes_fields(7, logs);
    let e = Seq::<(nat, FieldValue)>::empty();
    let fs = span_fields(d);
    assert(fs == f1 + (f2 + (f3 + (f4 + (f5 + (f6 + (f7 + e)))))));
    assert(f7 + e =~= f7);
    lemma_payloads_append(f6, f7, 3);
    lemma_payloads_append(f5, f6 + f7, 3);
    lemma_payloads_append(f4, f5 + (f6 + f7), 3);
    lemma_payloads_append(f3, f4 + (f5 + (f6 + f7)), 3);
    lemma_payloads_append(f2, f3 + (f4 + (f5 + (f6 + f7))), 3);
    lemma_payloads_append(f1, f2 + (f3 + (f4 + (f5 + (f6 + f7)))), 3);
    lemma_single_field(1, FieldValue::Bytes(ctx), 3);
    lemma_single_field(4, FieldValue::Bytes(ts), 3);
    if name.len() > 0 {
        lemma_single_field(2, FieldValue::Bytes(encode_utf8(name)), 3);
    }
    if dur != 0 {
        lemma_single_field(5, FieldValue::Varint(dur), 3);
    }
    lemma_payloads_bytes_fields(3, refs, 3);
    lemma_payloads_bytes_fields(6, tags, 3);
    lemma_payloads_bytes_fields(7, logs, 3);
    assert(payloads(fs, 3) =~= refs);
    assert forall|i: int| 0 <= i < d.references@.len() implies reads_as_reference(
        #[trigger] payloads(fs, 3)[i],
        d.references@[i],
    ) by {
        assert(refs[i] == encode_reference(d.references@[i]));
        assert(encode_span(d) =~= field_len_delimited(1, ctx) + optional_string(2, name) + repeated(
            3,
            refs,
        ) + field_len_delimited(4, ts) + optional_uint64(5, dur) + repeated(6, tags) + repeated(
            7,
            logs,
        ));
        lemma_repeated_member_len(3, refs, i);
        lemma_reference_reads(d.references@[i]);
    }
}

/// Each body of repeated fields is no longer than the fields.
proof fn lemma_repeated_member_len(tag: nat, bodies: Seq<Seq<u8>>, i: int)
    requires
        0 <= i < bodies.len(),
    ensures
        bodies[i].len() <= repeated(tag, bodies).len(),
    decreases bodies.len(),
{
    if i > 0 {
        lemma_repeated_member_len(tag, bodies.drop_first(), i - 1);
    }
}

} // verus!
