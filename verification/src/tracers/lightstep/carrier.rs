//! The LightStep binary carrier: a `BinaryCarrier` protobuf message whose
//! `basic_ctx` (field 2) holds a `BasicTracerCarrier`:
//! `fixed64 trace_id = 1; fixed64 span_id = 2; bool sampled = 3;
//! map<string, string> baggage_items = 4;`. The `BinaryCarrier` field 1
//! (`repeated bytes deprecated_text_ctx`) is read past and never written.
use crate::context::{LightStepSpanContextState, baggage_view};
use crate::strmap::{StrMap, map_of};
use crate::wire::{
    lemma_fixed64_round_trip, lemma_parse_key, lemma_parse_varint, lemma_parse_len_delimited, varint,
    copy_range, read_fixed64, read_key, read_len_delimited, read_varint, skip_field_at,
    string_from_utf8,
    field_key, field_len_delimited, field_string, le_bytes, le_value, parse_key, parse_len_delimited,
    parse_varint, put_fixed64, put_key, put_len_delimited, put_string, skip_field,
};
use vstd::prelude::*;
use vstd::utf8::{
    decode_utf8, encode_utf8, encode_utf8_decode_utf8, encode_utf8_valid_utf8, valid_utf8,
};

verus! {

/// What a `BasicTracerCarrier` message holds.
pub struct CarrierModel {
    pub trace_id: u64,
    pub span_id: u64,
    pub sampled: bool,
    pub baggage: Map<Seq<char>, Seq<char>>,
}

/// A message with every field at its default.
pub open spec fn default_carrier() -> CarrierModel {
    CarrierModel { trace_id: 0, span_id: 0, sampled: false, baggage: Map::empty() }
}

/// A string field, left out when the string is empty (its default).
pub open spec fn optional_string(tag: nat, s: Seq<char>) -> Seq<u8> {
    if s.len() == 0 {
        Seq::empty()
    } else {
        field_string(tag, s)
    }
}

/// One entry of a `map<string, string>` field, as `prost` writes it.
pub open spec fn encode_map_entry(tag: nat, e: (Seq<char>, Seq<char>)) -> Seq<u8> {
    field_len_delimited(tag, optional_string(1, e.0) + optional_string(2, e.1))
}

/// The entries of a `map<string, string>` field, in the given order.
pub open spec fn encode_map_entries(tag: nat, es: Seq<(Seq<char>, Seq<char>)>) -> Seq<u8>
    decreases es.len(),
{
    if es.len() == 0 {
        Seq::empty()
    } else {
        encode_map_entry(tag, es[0]) + encode_map_entries(tag, es.drop_first())
    }
}

/// One baggage map entry of a `BasicTracerCarrier`.
pub open spec fn encode_entry(e: (Seq<char>, Seq<char>)) -> Seq<u8> {
    encode_map_entry(4, e)
}

/// The baggage map entries of a `BasicTracerCarrier`, in the given order.
pub open spec fn encode_entries(es: Seq<(Seq<char>, Seq<char>)>) -> Seq<u8> {
    encode_map_entries(4, es)
}

/// The `BasicTracerCarrier` of an identity and baggage entries, unsampled.
pub open spec fn encode_basic_carrier(
    trace_id: u64,
    span_id: u64,
    entries: Seq<(Seq<char>, Seq<char>)>,
) -> Seq<u8> {
    (if trace_id != 0 {
        field_key(1, 1) + le_bytes(trace_id as nat, 8)
    } else {
        Seq::empty()
    }) + (if span_id != 0 {
        field_key(2, 1) + le_bytes(span_id as nat, 8)
    } else {
        Seq::empty()
    }) + encode_entries(entries)
}

/// The `BinaryCarrier` of an identity and baggage entries.
pub open spec fn encode_binary_carrier(
    trace_id: u64,
    span_id: u64,
    entries: Seq<(Seq<char>, Seq<char>)>,
) -> Seq<u8> {
    field_len_delimited(2, encode_basic_carrier(trace_id, span_id, entries))
}

/// A `BasicTracerCarrier` as a protobuf encoder writes it, fields in tag
/// order and fields at their default left out: trace id, span id, the
/// `sampled` flag, then the baggage entries.
pub open spec fn encode_basic_carrier_sampled(
    trace_id: u64,
    span_id: u64,
    sampled: bool,
    entries: Seq<(Seq<char>, Seq<char>)>,
) -> Seq<u8> {
    (if trace_id != 0 {
        field_key(1, 1) + le_bytes(trace_id as nat, 8)
    } else {
        Seq::empty()
    }) + (if span_id != 0 {
        field_key(2, 1) + le_bytes(span_id as nat, 8)
    } else {
        Seq::empty()
    }) + (if sampled {
        field_key(3, 0) + varint(1)
    } else {
        Seq::empty()
    }) + encode_entries(entries)
}

/// The `BinaryCarrier` holding such a `BasicTracerCarrier`.
pub open spec fn encode_binary_carrier_sampled(
    trace_id: u64,
    span_id: u64,
    sampled: bool,
    entries: Seq<(Seq<char>, Seq<char>)>,
) -> Seq<u8> {
    field_len_delimited(2, encode_basic_carrier_sampled(trace_id, span_id, sampled, entries))
}

/// The baggage entries of a string map, as character sequences.
pub open spec fn entry_views(es: Seq<(Seq<char>, String)>) -> Seq<(Seq<char>, Seq<char>)> {
    es.map_values(|e: (Seq<char>, String)| (e.0, e.1@))
}

proof fn lemma_encode_entries_push(tag: nat, es: Seq<(Seq<char>, Seq<char>)>, e: (Seq<char>, Seq<char>))
    ensures
        encode_map_entries(tag, es.push(e)) == encode_map_entries(tag, es) + encode_map_entry(tag, e),
    decreases es.len(),
{
    if es.len() == 0 {
        assert(es.push(e).drop_first() =~= Seq::<(Seq<char>, Seq<char>)>::empty());
        assert(es.push(e)[0] == e);
        assert(encode_map_entries(tag, Seq::<(Seq<char>, Seq<char>)>::empty()) =~= Seq::<u8>::empty());
        assert(encode_map_entries(tag, es.push(e)) =~= encode_map_entry(tag, e));
    } else {
        lemma_encode_entries_push(tag, es.drop_first(), e);
        assert(es.push(e).drop_first() =~= es.drop_first().push(e));
        assert(encode_map_entries(tag, es.push(e)) =~= encode_map_entries(tag, es) + encode_map_entry(tag, e));
    }
}

/// Appends the entries of a string map as a `map<string, string>` field.
pub(crate) fn put_string_map(buf: &mut Vec<u8>, tag: u32, map: &StrMap<String>)
    requires
        1 <= tag <= 15,
    ensures
        final(buf)@ == old(buf)@ + encode_map_entries(tag as nat, entry_views(map.entries())),
{
    let ghost head = buf@;
    let ghost es = entry_views(map.entries());
    let n = map.len();
    let mut i: usize = 0;
    assert(es.take(0) =~= Seq::<(Seq<char>, Seq<char>)>::empty());
    assert(buf@ =~= head + encode_map_entries(tag as nat, es.take(0)));
    while i < n
        invariant
            1 <= tag <= 15,
            n == map.entries().len(),
            es == entry_views(map.entries()),
            i <= n,
            buf@ == head + encode_map_entries(tag as nat, es.take(i as int)),
        decreases n - i,
    {
        let (k, v) = map.entry_at(i);
        let mut entry: Vec<u8> = Vec::new();
        put_optional_string(&mut entry, 1, k.as_str());
        put_optional_string(&mut entry, 2, v.as_str());
        put_len_delimited(buf, tag, entry.as_slice());
        proof {
            assert(es[i as int] == (k@, v@));
            assert(entry@ =~= optional_string(1, k@) + optional_string(2, v@));
            lemma_encode_entries_push(tag as nat, es.take(i as int), es[i as int]);
            assert(es.take(i as int).push(es[i as int]) =~= es.take(i + 1));
        }
        i = i + 1;
        assert(buf@ =~= head + encode_map_entries(tag as nat, es.take(i as int)));
    }
    assert(es.take(n as int) =~= es);
}

/// Appends a string field unless the string is empty.
fn put_optional_string(buf: &mut Vec<u8>, tag: u32, s: &str)
    requires
        tag as int * 8 + 2 <= u32::MAX,
    ensures
        final(buf)@ == old(buf)@ + optional_string(tag as nat, s@),
{
    if !s.is_empty() {
        put_string(buf, tag, s);
    } else {
        assert(old(buf)@ =~= old(buf)@ + optional_string(tag as nat, s@));
    }
}

/// Encodes an identity and baggage as a `BinaryCarrier` message.
pub fn encode_carrier(state: &LightStepSpanContextState, baggage: &StrMap<String>) -> (v: Vec<u8>)
    ensures
        v@ == encode_binary_carrier(state.trace_id, state.span_id, entry_views(baggage.entries())),
{
    let mut body: Vec<u8> = Vec::new();
    if state.trace_id != 0 {
        put_key(&mut body, 1, 1);
        put_fixed64(&mut body, state.trace_id);
    }
    if state.span_id != 0 {
        put_key(&mut body, 2, 1);
        put_fixed64(&mut body, state.span_id);
    }
    put_string_map(&mut body, 4, baggage);
    let mut out: Vec<u8> = Vec::new();
    put_len_delimited(&mut out, 2, body.as_slice());
    out
}

/// Reads one field of a map entry: the bytes it takes, and the key and
/// value after it (a string field replaces the key or the value, other
/// fields are skipped, a string that is not UTF-8 fails).
pub open spec fn entry_field_step(b: Seq<u8>, k: Seq<char>, v: Seq<char>) -> Option<
    (nat, Seq<char>, Seq<char>),
> {
    match parse_key(b) {
        None => None,
        Some((t, w, n)) => {
            let r = b.skip(n as int);
            if t == 1 || t == 2 {
                if w != 2 {
                    None
                } else {
                    match parse_len_delimited(r) {
                        None => None,
                        Some((s, e)) => {
                            let bytes = r.subrange(s as int, e as int);
                            if !valid_utf8(bytes) {
                                None
                            } else if t == 1 {
                                Some((n + e, decode_utf8(bytes), v))
                            } else {
                                Some((n + e, k, decode_utf8(bytes)))
                            }
                        },
                    }
                }
            } else {
                match skip_field(r, w, t, 98) {
                    None => None,
                    Some(m) => Some((n + m, k, v)),
                }
            }
        },
    }
}

/// Reads the fields of a map entry as `prost` merges them into a key and a
/// value, starting from `k` and `v`.
#[verifier::opaque]
pub open spec fn decode_entry_fields(b: Seq<u8>, k: Seq<char>, v: Seq<char>) -> Option<
    (Seq<char>, Seq<char>),
>
    decreases b.len(),
{
    if b.len() == 0 {
        Some((k, v))
    } else {
        match entry_field_step(b, k, v) {
            None => None,
            Some((m, k2, v2)) => if m == 0 || m > b.len() {
                None
            } else {
                decode_entry_fields(b.skip(m as int), k2, v2)
            },
        }
    }
}

/// Reads one field of a `BasicTracerCarrier` and merges it into `c`: the
/// bytes it takes and the message after it.
pub open spec fn basic_field_step(b: Seq<u8>, c: CarrierModel) -> Option<(nat, CarrierModel)> {
    match parse_key(b) {
        None => None,
        Some((t, w, n)) => {
            let r = b.skip(n as int);
            if t == 1 || t == 2 {
                if w != 1 || r.len() < 8 {
                    None
                } else {
                    let x = le_value(r.take(8)) as u64;
                    if t == 1 {
                        Some((n + 8, CarrierModel { trace_id: x, ..c }))
                    } else {
                        Some((n + 8, CarrierModel { span_id: x, ..c }))
                    }
                }
            } else if t == 3 {
                if w != 0 {
                    None
                } else {
                    match parse_varint(r) {
                        None => None,
                        Some((x, m)) => Some((n + m, CarrierModel { sampled: x != 0, ..c })),
                    }
                }
            } else if t == 4 {
                if w != 2 {
                    None
                } else {
                    match parse_len_delimited(r) {
                        None => None,
                        Some((s, e)) => match decode_entry_fields(
                            r.subrange(s as int, e as int),
                            Seq::empty(),
                            Seq::empty(),
                        ) {
                            None => None,
                            Some((k, v)) => Some(
                                (n + e, CarrierModel { baggage: c.baggage.insert(k, v), ..c }),
                            ),
                        },
                    }
                }
            } else {
                match skip_field(r, w, t, 99) {
                    None => None,
                    Some(m) => Some((n + m, c)),
                }
            }
        },
    }
}

/// Reads the fields of a `BasicTracerCarrier` as `prost` merges them into
/// `c`: later scalar fields replace earlier ones, map entries are inserted,
/// unknown fields are skipped.
#[verifier::opaque]
pub open spec fn decode_basic_fields(b: Seq<u8>, c: CarrierModel) -> Option<CarrierModel>
    decreases b.len(),
{
    if b.len() == 0 {
        Some(c)
    } else {
        match basic_field_step(b, c) {
            None => None,
            Some((m, c2)) => if m == 0 || m > b.len() {
                None
            } else {
                decode_basic_fields(b.skip(m as int), c2)
            },
        }
    }
}

/// Reads one field of a `BinaryCarrier` and merges it into `c`: the bytes
/// it takes and the `basic_ctx` after it.
pub open spec fn binary_field_step(b: Seq<u8>, c: Option<CarrierModel>) -> Option<
    (nat, Option<CarrierModel>),
> {
    match parse_key(b) {
        None => None,
        Some((t, w, n)) => {
            let r = b.skip(n as int);
            if t == 1 {
                if w != 2 {
                    None
                } else {
                    match parse_len_delimited(r) {
                        None => None,
                        Some((s, e)) => Some((n + e, c)),
                    }
                }
            } else if t == 2 {
                if w != 2 {
                    None
                } else {
                    match parse_len_delimited(r) {
                        None => None,
                        Some((s, e)) => {
                            let base = match c {
                                Some(x) => x,
                                None => default_carrier(),
                            };
                            match decode_basic_fields(r.subrange(s as int, e as int), base) {
                                None => None,
                                Some(x) => Some((n + e, Some(x))),
                            }
                        },
                    }
                }
            } else {
                match skip_field(r, w, t, 100) {
                    None => None,
                    Some(m) => Some((n + m, c)),
                }
            }
        },
    }
}

/// Reads the fields of a `BinaryCarrier` as `prost` merges them: each
/// `basic_ctx` field is merged into the one before (or into a default one).
pub open spec fn decode_binary_fields(b: Seq<u8>, c: Option<CarrierModel>) -> Option<Option<CarrierModel>>
    decreases b.len(),
{
    if b.len() == 0 {
        Some(c)
    } else {
        match binary_field_step(b, c) {
            None => None,
            Some((m, c2)) => if m == 0 || m > b.len() {
                None
            } else {
                decode_binary_fields(b.skip(m as int), c2)
            },
        }
    }
}

/// Decodes a `BinaryCarrier` message as `prost::Message::decode` does: `None`
/// when the bytes are not a valid message; otherwise its `basic_ctx`.
pub open spec fn decode_binary_carrier(b: Seq<u8>) -> Option<Option<CarrierModel>> {
    decode_binary_fields(b, None)
}

/// Reads the string of a length-delimited field at `pos`; gives the string
/// and the position after it.
pub(crate) fn read_string(b: &[u8], pos: usize, end: usize) -> (r: Option<(String, usize)>)
    requires
        pos <= end <= b@.len(),
    ensures
        match parse_len_delimited(b@.subrange(pos as int, end as int)) {
            None => r is None,
            Some((s, e)) => {
                let bytes = b@.subrange(pos + s, pos + e);
                if valid_utf8(bytes) {
                    r matches Some((x, q)) && x@ == decode_utf8(bytes) && q == pos + e
                } else {
                    r is None
                }
            },
        },
{
    match read_len_delimited(b, pos, end) {
        None => None,
        Some((s, e)) => {
            let bytes = copy_range(b, s, e);
            assert(bytes@ == b@.subrange(s as int, e as int));
            match string_from_utf8(bytes) {
                Some(x) => Some((x, e)),
                None => None,
            }
        },
    }
}

/// Reads one field of a map entry at `pos`, updating the key or value;
/// gives the position after the field.
fn entry_step_at(b: &[u8], pos: usize, end: usize, k: &mut String, v: &mut String) -> (r: Option<usize>)
    requires
        pos < end <= b@.len(),
    ensures
        match entry_field_step(b@.subrange(pos as int, end as int), old(k)@, old(v)@) {
            None => r is None,
            Some((m, k2, v2)) => r == Some((pos + m) as usize) && final(k)@ == k2 && final(v)@ == v2
                && 1 <= m <= end - pos,
        },
{
    let ghost s = b@.subrange(pos as int, end as int);
    match read_key(b, pos, end) {
        None => None,
        Some((t, w, p)) => {
            assert(s.skip(p - pos) =~= b@.subrange(p as int, end as int));
            if t == 1 || t == 2 {
                if w != 2 {
                    return None;
                }
                proof {
                    let r = s.skip(p - pos);
                    if let Some((s0, e0)) = parse_len_delimited(r) {
                        assert(r.subrange(s0 as int, e0 as int) =~= b@.subrange(p + s0, p + e0));
                    }
                }
                match read_string(b, p, end) {
                    None => None,
                    Some((x, q)) => {
                        if t == 1 {
                            *k = x;
                        } else {
                            *v = x;
                        }
                        Some(q)
                    },
                }
            } else {
                skip_field_at(b, p, end, w, t, 98)
            }
        },
    }
}

/// Decodes the fields of a map entry in `b[start..end]`.
fn decode_entry(b: &[u8], start: usize, end: usize) -> (r: Option<(String, String)>)
    requires
        start <= end <= b@.len(),
    ensures
        match decode_entry_fields(b@.subrange(start as int, end as int), Seq::empty(), Seq::empty()) {
            None => r is None,
            Some((k, v)) => r matches Some((x, y)) && x@ == k && y@ == v,
        },
{
    let mut k = String::new();
    let mut v = String::new();
    let mut pos = start;
    while pos < end
        invariant
            start <= pos <= end <= b@.len(),
            decode_entry_fields(b@.subrange(start as int, end as int), Seq::empty(), Seq::empty())
                == decode_entry_fields(b@.subrange(pos as int, end as int), k@, v@),
        decreases end - pos,
    {
        let ghost s = b@.subrange(pos as int, end as int);
        let ghost k0 = k@;
        let ghost v0 = v@;
        reveal_with_fuel(decode_entry_fields, 1);
        match entry_step_at(b, pos, end, &mut k, &mut v) {
            None => {
                return None;
            },
            Some(q) => {
                assert(s.skip(q - pos) =~= b@.subrange(q as int, end as int));
                assert(decode_entry_fields(s, k0, v0) == decode_entry_fields(s.skip(q - pos), k@, v@));
                pos = q;
            },
        }
    }
    assert(b@.subrange(pos as int, end as int) =~= Seq::<u8>::empty());
    reveal_with_fuel(decode_entry_fields, 1);
    Some((k, v))
}

/// A `BasicTracerCarrier` being decoded.
pub struct BasicCarrier {
    pub trace_id: u64,
    pub span_id: u64,
    pub sampled: bool,
    pub baggage_items: StrMap<String>,
}

impl BasicCarrier {
    /// What the message holds.
    pub open spec fn model(self) -> CarrierModel {
        CarrierModel {
            trace_id: self.trace_id,
            span_id: self.span_id,
            sampled: self.sampled,
            baggage: baggage_view(self.baggage_items),
        }
    }

    /// A message with every field at its default.
    pub fn new() -> (c: BasicCarrier)
        ensures
            c.model() == default_carrier(),
    {
        let c = BasicCarrier { trace_id: 0, span_id: 0, sampled: false, baggage_items: StrMap::new() };
        assert(c.model().baggage =~= Map::<Seq<char>, Seq<char>>::empty());
        c
    }
}

/// Reads one field of a `BasicTracerCarrier` at `pos` into `c`; gives the
/// position after the field.
#[verifier::rlimit(60)]
fn basic_step_at(b: &[u8], pos: usize, end: usize, c: &mut BasicCarrier) -> (r: Option<usize>)
    requires
        pos < end <= b@.len(),
    ensures
        match basic_field_step(b@.subrange(pos as int, end as int), old(c).model()) {
            None => r is None,
            Some((m, c2)) => r == Some((pos + m) as usize) && final(c).model() == c2 && 1 <= m <= end
                - pos,
        },
{
    let ghost s = b@.subrange(pos as int, end as int);
    match read_key(b, pos, end) {
        None => None,
        Some((t, w, p)) => {
            let ghost r = s.skip(p - pos);
            assert(r =~= b@.subrange(p as int, end as int));
            if t == 1 || t == 2 {
                if w != 1 || end - p < 8 {
                    return None;
                }
                let x = read_fixed64(b, p);
                assert(r.take(8) =~= b@.subrange(p as int, p + 8));
                if t == 1 {
                    c.trace_id = x;
                } else {
                    c.span_id = x;
                }
                Some(p + 8)
            } else if t == 3 {
                if w != 0 {
                    return None;
                }
                match read_varint(b, p, end) {
                    None => None,
                    Some((x, q)) => {
                        c.sampled = x != 0;
                        Some(q)
                    },
                }
            } else if t == 4 {
                if w != 2 {
                    return None;
                }
                match read_len_delimited(b, p, end) {
                    None => None,
                    Some((s0, e0)) => {
                        assert(r.subrange(s0 - p, e0 - p) =~= b@.subrange(s0 as int, e0 as int));
                        match decode_entry(b, s0, e0) {
                            None => None,
                            Some((k, v)) => {
                                let ghost before = c.model().baggage;
                                let ghost kv = k@;
                                let ghost vv = v@;
                                c.baggage_items.insert(k, v);
                                assert(c.model().baggage =~= before.insert(kv, vv));
                                Some(e0)
                            },
                        }
                    },
                }
            } else {
                skip_field_at(b, p, end, w, t, 99)
            }
        },
    }
}

/// Decodes the fields of a `BasicTracerCarrier` in `b[start..end]` into `c`.
fn decode_basic(b: &[u8], start: usize, end: usize, c: &mut BasicCarrier) -> (r: bool)
    requires
        start <= end <= b@.len(),
    ensures
        match decode_basic_fields(b@.subrange(start as int, end as int), old(c).model()) {
            None => !r,
            Some(x) => r && final(c).model() == x,
        },
{
    let mut pos = start;
    while pos < end
        invariant
            start <= pos <= end <= b@.len(),
            decode_basic_fields(b@.subrange(start as int, end as int), old(c).model())
                == decode_basic_fields(b@.subrange(pos as int, end as int), c.model()),
        decreases end - pos,
    {
        let ghost s = b@.subrange(pos as int, end as int);
        let ghost c0 = c.model();
        reveal_with_fuel(decode_basic_fields, 1);
        match basic_step_at(b, pos, end, c) {
            None => {
                return false;
            },
            Some(q) => {
                assert(s.skip(q - pos) =~= b@.subrange(q as int, end as int));
                assert(decode_basic_fields(s, c0) == decode_basic_fields(s.skip(q - pos), c.model()));
                pos = q;
            },
        }
    }
    assert(b@.subrange(pos as int, end as int) =~= Seq::<u8>::empty());
    reveal_with_fuel(decode_basic_fields, 1);
    true
}

/// What an optional message holds.
pub open spec fn optional_model(c: Option<BasicCarrier>) -> Option<CarrierModel> {
    match c {
        Some(x) => Some(x.model()),
        None => None,
    }
}

/// Reads one field of a `BinaryCarrier` at `pos`, merging a `basic_ctx`
/// into `current`; gives the position after the field.
fn binary_step_at(b: &[u8], pos: usize, end: usize, current: &mut Option<BasicCarrier>) -> (r:
    Option<usize>)
    requires
        pos < end <= b@.len(),
    ensures
        match binary_field_step(b@.subrange(pos as int, end as int), optional_model(*old(current))) {
            None => r is None,
            Some((m, c2)) => r == Some((pos + m) as usize) && optional_model(*final(current)) == c2
                && 1 <= m <= end - pos,
        },
{
    let ghost s = b@.subrange(pos as int, end as int);
    match read_key(b, pos, end) {
        None => None,
        Some((t, w, p)) => {
            let ghost r = s.skip(p - pos);
            assert(r =~= b@.subrange(p as int, end as int));
            if t == 1 {
                if w != 2 {
                    return None;
                }
                match read_len_delimited(b, p, end) {
                    None => None,
                    Some((_, e0)) => Some(e0),
                }
            } else if t == 2 {
                if w != 2 {
                    return None;
                }
                match read_len_delimited(b, p, end) {
                    None => None,
                    Some((s0, e0)) => {
                        assert(r.subrange(s0 - p, e0 - p) =~= b@.subrange(s0 as int, e0 as int));
                        let mut base = match current.take() {
                            Some(x) => x,
                            None => BasicCarrier::new(),
                        };
                        if !decode_basic(b, s0, e0, &mut base) {
                            return None;
                        }
                        *current = Some(base);
                        Some(e0)
                    },
                }
            } else {
                skip_field_at(b, p, end, w, t, 100)
            }
        },
    }
}

/// Decodes a `BinaryCarrier` message: `None` when the bytes are not a
/// valid message, otherwise its `basic_ctx`.
pub fn decode_carrier(b: &[u8]) -> (r: Option<Option<BasicCarrier>>)
    ensures
        match decode_binary_carrier(b@) {
            None => r is None,
            Some(None) => r == Some(None::<BasicCarrier>),
            Some(Some(x)) => r matches Some(Some(c)) && c.model() == x,
        },
{
    let end = b.len();
    let mut current: Option<BasicCarrier> = None;
    let mut pos: usize = 0;
    assert(b@.subrange(0, end as int) =~= b@);
    while pos < end
        invariant
            pos <= end == b@.len(),
            decode_binary_carrier(b@) == decode_binary_fields(
                b@.subrange(pos as int, end as int),
                optional_model(current),
            ),
        decreases end - pos,
    {
        let ghost s = b@.subrange(pos as int, end as int);
        let ghost c0 = optional_model(current);
        match binary_step_at(b, pos, end, &mut current) {
            None => {
                return None;
            },
            Some(q) => {
                assert(s.skip(q - pos) =~= b@.subrange(q as int, end as int));
                assert(decode_binary_fields(s, c0) == decode_binary_fields(
                    s.skip(q - pos),
                    optional_model(current),
                ));
                pos = q;
            },
        }
    }
    assert(b@.subrange(pos as int, end as int) =~= Seq::<u8>::empty());
    Some(current)
}

/// Inserts entries into a map, in order.
pub open spec fn insert_all(m: Map<Seq<char>, Seq<char>>, es: Seq<(Seq<char>, Seq<char>)>) -> Map<
    Seq<char>,
    Seq<char>,
>
    decreases es.len(),
{
    if es.len() == 0 {
        m
    } else {
        insert_all(m.insert(es[0].0, es[0].1), es.drop_first())
    }
}

pub(crate) proof fn lemma_insert_all_push(
    m: Map<Seq<char>, Seq<char>>,
    es: Seq<(Seq<char>, Seq<char>)>,
    e: (Seq<char>, Seq<char>),
)
    ensures
        insert_all(m, es.push(e)) == insert_all(m, es).insert(e.0, e.1),
    decreases es.len(),
{
    reveal_with_fuel(insert_all, 2);
    if es.len() == 0 {
        assert(es.push(e).drop_first() =~= es);
        assert(es.push(e)[0] == e);
    } else {
        assert(es.push(e).drop_first() =~= es.drop_first().push(e));
        assert(es.push(e)[0] == es[0]);
        lemma_insert_all_push(m.insert(es[0].0, es[0].1), es.drop_first(), e);
    }
}

/// Inserting the entries of a map in order rebuilds its abstract map.
pub proof fn lemma_insert_all_map_of(es: Seq<(Seq<char>, String)>)
    ensures
        insert_all(Map::empty(), entry_views(es)) == map_of(es).map_values(|s: String| s@),
    decreases es.len(),
{
    if es.len() > 0 {
        let init = es.drop_last();
        lemma_insert_all_map_of(init);
        assert(entry_views(es) =~= entry_views(init).push((es.last().0, es.last().1@)));
        lemma_insert_all_push(Map::empty(), entry_views(init), (es.last().0, es.last().1@));
        assert(map_of(es).map_values(|s: String| s@) =~= map_of(init).map_values(|s: String| s@).insert(
            es.last().0,
            es.last().1@,
        ));
    } else {
        assert(insert_all(Map::empty(), entry_views(es)) =~= Map::<Seq<char>, Seq<char>>::empty());
        assert(map_of(es).map_values(|s: String| s@) =~= Map::<Seq<char>, Seq<char>>::empty());
    }
}

/// A length-delimited field reads back: key, then bounds of the body.
pub(crate) proof fn lemma_len_delimited_field(tag: nat, body: Seq<u8>, rest: Seq<u8>)
    requires
        1 <= tag <= 15,
        body.len() <= u64::MAX,
    ensures
        ({
            let b = field_len_delimited(tag, body) + rest;
            let n = field_key(tag, 2).len();
            let l = varint(body.len()).len();
            &&& parse_key(b) == Some((tag, 2nat, n))
            &&& n <= b.len()
            &&& parse_len_delimited(b.skip(n as int)) == Some((l, l + body.len()))
            &&& b.skip(n as int).subrange(l as int, (l + body.len()) as int) == body
            &&& b.skip(n as int).skip((l + body.len()) as int) == rest
            &&& n + l + body.len() == field_len_delimited(tag, body).len()
            &&& b.skip((n + l + body.len()) as int) == rest
        }),
{
    let b = field_len_delimited(tag, body) + rest;
    let n = field_key(tag, 2).len();
    let l = varint(body.len()).len();
    lemma_parse_key(tag, 2, varint(body.len()) + body + rest);
    assert(b =~= field_key(tag, 2) + (varint(body.len()) + body + rest));
    let r = b.skip(n as int);
    assert(r =~= varint(body.len()) + body + rest);
    lemma_parse_len_delimited(body, rest);
    assert(r.subrange(l as int, (l + body.len()) as int) =~= body);
    assert(r.skip((l + body.len()) as int) =~= rest);
    assert(b.skip((n + l + body.len()) as int) =~= rest);
}

/// A string field is one step of a map entry.
proof fn lemma_entry_string_step(tag: nat, x: Seq<char>, rest: Seq<u8>, k: Seq<char>, v: Seq<char>)
    requires
        tag == 1 || tag == 2,
        encode_utf8(x).len() <= u64::MAX,
    ensures
        entry_field_step(field_string(tag, x) + rest, k, v) == Some(
            (
                field_string(tag, x).len(),
                if tag == 1 {
                    x
                } else {
                    k
                },
                if tag == 2 {
                    x
                } else {
                    v
                },
            ),
        ),
        (field_string(tag, x) + rest).skip(field_string(tag, x).len() as int) == rest,
{
    let bytes = encode_utf8(x);
    lemma_len_delimited_field(tag, bytes, rest);
    encode_utf8_valid_utf8(x);
    encode_utf8_decode_utf8(x);
}

/// An entry body decodes to its key and value.
proof fn lemma_decode_entry_body(k: Seq<char>, v: Seq<char>)
    requires
        encode_utf8(k).len() <= u64::MAX,
        encode_utf8(v).len() <= u64::MAX,
    ensures
        decode_entry_fields(optional_string(1, k) + optional_string(2, v), Seq::empty(), Seq::empty())
            == Some((k, v)),
{
    reveal_with_fuel(decode_entry_fields, 2);
    let b2 = optional_string(2, v);
    // the value part, from any key
    assert(decode_entry_fields(b2, k, Seq::empty()) == Some((k, v))) by {
        if v.len() == 0 {
            assert(b2 =~= Seq::<u8>::empty());
            assert(v =~= Seq::<char>::empty());
        } else {
            lemma_entry_string_step(2, v, Seq::empty(), k, Seq::empty());
            assert(field_string(2, v) + Seq::<u8>::empty() =~= b2);
            assert(b2.skip(b2.len() as int) =~= Seq::<u8>::empty());
        }
    }
    if k.len() == 0 {
        assert(optional_string(1, k) + b2 =~= b2);
        assert(k =~= Seq::<char>::empty());
    } else {
        let b = optional_string(1, k) + b2;
        lemma_entry_string_step(1, k, b2, Seq::empty(), Seq::empty());
        assert(b.skip(field_string(1, k).len() as int) =~= b2);
    }
}

/// A fixed64 identity field is one step of a `BasicTracerCarrier`.
proof fn lemma_basic_fixed64_step(tag: nat, x: u64, rest: Seq<u8>, c: CarrierModel)
    requires
        tag == 1 || tag == 2,
    ensures
        decode_basic_fields(field_key(tag, 1) + le_bytes(x as nat, 8) + rest, c) == decode_basic_fields(
            rest,
            if tag == 1 {
                CarrierModel { trace_id: x, ..c }
            } else {
                CarrierModel { span_id: x, ..c }
            },
        ),
{
    reveal_with_fuel(decode_basic_fields, 1);
    let b = field_key(tag, 1) + le_bytes(x as nat, 8) + rest;
    lemma_parse_key(tag, 1, le_bytes(x as nat, 8) + rest);
    assert(b =~= field_key(tag, 1) + (le_bytes(x as nat, 8) + rest));
    lemma_fixed64_round_trip(x);
    let n = field_key(tag, 1).len();
    let r = b.skip(n as int);
    assert(r =~= le_bytes(x as nat, 8) + rest);
    assert(r.take(8) =~= le_bytes(x as nat, 8));
    assert(b.skip((n + 8) as int) =~= rest);
    assert(basic_field_step(b, c) == Some(
        (
            (n + 8) as nat,
            if tag == 1 {
                CarrierModel { trace_id: x, ..c }
            } else {
                CarrierModel { span_id: x, ..c }
            },
        ),
    ));
}

/// A map entry is one step of a `BasicTracerCarrier`.
proof fn lemma_basic_entry_step(e: (Seq<char>, Seq<char>), rest: Seq<u8>, c: CarrierModel)
    requires
        encode_entry(e).len() <= u64::MAX,
    ensures
        decode_basic_fields(encode_entry(e) + rest, c) == decode_basic_fields(
            rest,
            CarrierModel { baggage: c.baggage.insert(e.0, e.1), ..c },
        ),
{
    reveal_with_fuel(decode_basic_fields, 1);
    let body = optional_string(1, e.0) + optional_string(2, e.1);
    let b = encode_entry(e) + rest;
    assert(encode_utf8(e.0).len() <= u64::MAX && encode_utf8(e.1).len() <= u64::MAX) by {
        if e.0.len() > 0 {
            assert(optional_string(1, e.0).len() >= encode_utf8(e.0).len());
        }
        if e.1.len() > 0 {
            assert(optional_string(2, e.1).len() >= encode_utf8(e.1).len());
        }
    }
    lemma_decode_entry_body(e.0, e.1);
    lemma_len_delimited_field(4, body, rest);
    let n = field_key(4, 2).len();
    let l = varint(body.len()).len();
    assert(basic_field_step(b, c) == Some(
        ((n + l + body.len()) as nat, CarrierModel { baggage: c.baggage.insert(e.0, e.1), ..c }),
    ));
}

/// Baggage entries are steps of a `BasicTracerCarrier`, inserted in order.
proof fn lemma_basic_entries(es: Seq<(Seq<char>, Seq<char>)>, rest: Seq<u8>, c: CarrierModel)
    requires
        encode_entries(es).len() <= u64::MAX,
    ensures
        decode_basic_fields(encode_entries(es) + rest, c) == decode_basic_fields(
            rest,
            CarrierModel { baggage: insert_all(c.baggage, es), ..c },
        ),
    decreases es.len(),
{
    if es.len() == 0 {
        assert(encode_entries(es) + rest =~= rest);
        assert(CarrierModel { baggage: insert_all(c.baggage, es), ..c } == c);
    } else {
        let tail = es.drop_first();
        let c2 = CarrierModel { baggage: c.baggage.insert(es[0].0, es[0].1), ..c };
        assert(encode_entries(es) == encode_entry(es[0]) + encode_entries(tail));
        assert(encode_entries(es) + rest =~= encode_entry(es[0]) + (encode_entries(tail) + rest));
        lemma_basic_entry_step(es[0], encode_entries(tail) + rest, c);
        lemma_basic_entries(tail, rest, c2);
    }
}

/// The `BasicTracerCarrier` of an identity and baggage decodes to them.
proof fn lemma_basic_round_trip(trace_id: u64, span_id: u64, es: Seq<(Seq<char>, Seq<char>)>)
    requires
        encode_basic_carrier(trace_id, span_id, es).len() <= u64::MAX,
    ensures
        decode_basic_fields(encode_basic_carrier(trace_id, span_id, es), default_carrier()) == Some(
            CarrierModel { trace_id, span_id, sampled: false, baggage: insert_all(Map::empty(), es) },
        ),
{
    let body = encode_basic_carrier(trace_id, span_id, es);
    let p1 = if trace_id != 0 {
        field_key(1, 1) + le_bytes(trace_id as nat, 8)
    } else {
        Seq::<u8>::empty()
    };
    let p2 = if span_id != 0 {
        field_key(2, 1) + le_bytes(span_id as nat, 8)
    } else {
        Seq::<u8>::empty()
    };
    let ents = encode_entries(es);
    let d = default_carrier();
    let c1 = CarrierModel { trace_id, ..d };
    let c2 = CarrierModel { span_id, ..c1 };
    let fin = CarrierModel { baggage: insert_all(Map::empty(), es), ..c2 };
    assert(body == p1 + p2 + ents);
    assert(ents.len() <= body.len());
    lemma_basic_entries(es, Seq::empty(), c2);
    assert(ents + Seq::<u8>::empty() =~= ents);
    assert(decode_basic_fields(Seq::<u8>::empty(), fin) == Some(fin)) by {
        reveal_with_fuel(decode_basic_fields, 1);
    }
    assert(decode_basic_fields(p2 + ents, c1) == Some(fin)) by {
        if span_id != 0 {
            lemma_basic_fixed64_step(2, span_id, ents, c1);
            assert(p2 + ents =~= field_key(2, 1) + le_bytes(span_id as nat, 8) + ents);
        } else {
            assert(p2 + ents =~= ents);
            assert(c2 == c1);
        }
    }
    if trace_id != 0 {
        lemma_basic_fixed64_step(1, trace_id, p2 + ents, d);
        assert(body =~= field_key(1, 1) + le_bytes(trace_id as nat, 8) + (p2 + ents));
    } else {
        assert(body =~= p2 + ents);
        assert(c1 == d);
    }
}

/// The encoding of an identity and baggage decodes to them.
pub proof fn lemma_carrier_round_trip(trace_id: u64, span_id: u64, es: Seq<(Seq<char>, Seq<char>)>)
    requires
        encode_binary_carrier(trace_id, span_id, es).len() <= u64::MAX,
    ensures
        decode_binary_carrier(encode_binary_carrier(trace_id, span_id, es)) == Some(
            Some(
                CarrierModel {
                    trace_id,
                    span_id,
                    sampled: false,
                    baggage: insert_all(Map::empty(), es),
                },
            ),
        ),
{
    let body = encode_basic_carrier(trace_id, span_id, es);
    let fin = CarrierModel {
        trace_id,
        span_id,
        sampled: false,
        baggage: insert_all(Map::empty(), es),
    };
    let b = encode_binary_carrier(trace_id, span_id, es);
    lemma_basic_round_trip(trace_id, span_id, es);
    lemma_len_delimited_field(2, body, Seq::empty());
    assert(b + Seq::<u8>::empty() =~= b);
    let n = field_key(2, 2).len();
    let l = varint(body.len()).len();
    assert(binary_field_step(b, None) == Some(((n + l + body.len()) as nat, Some(fin))));
    assert(b.skip(b.len() as int) =~= Seq::<u8>::empty());
    assert(decode_binary_fields(Seq::<u8>::empty(), Some(fin)) == Some(Some(fin)));
}


/// A set `sampled` flag is one step of a `BasicTracerCarrier`.
proof fn lemma_basic_sampled_step(rest: Seq<u8>, c: CarrierModel)
    ensures
        decode_basic_fields(field_key(3, 0) + varint(1) + rest, c) == decode_basic_fields(
            rest,
            CarrierModel { sampled: true, ..c },
        ),
{
    reveal_with_fuel(decode_basic_fields, 1);
    let b = field_key(3, 0) + varint(1) + rest;
    lemma_parse_key(3, 0, varint(1) + rest);
    assert(b =~= field_key(3, 0) + (varint(1) + rest));
    let n = field_key(3, 0).len();
    let r = b.skip(n as int);
    assert(r =~= varint(1) + rest);
    lemma_parse_varint(1, rest);
    let m = varint(1).len();
    assert(b.skip((n + m) as int) =~= rest);
    assert(basic_field_step(b, c) == Some(((n + m) as nat, CarrierModel { sampled: true, ..c })));
}

/// Every `BasicTracerCarrier` an encoder writes decodes to its identity,
/// its `sampled` flag and its baggage, whatever the flag.
proof fn lemma_basic_round_trip_sampled(
    trace_id: u64,
    span_id: u64,
    sampled: bool,
    es: Seq<(Seq<char>, Seq<char>)>,
)
    requires
        encode_basic_carrier_sampled(trace_id, span_id, sampled, es).len() <= u64::MAX,
    ensures
        decode_basic_fields(encode_basic_carrier_sampled(trace_id, span_id, sampled, es), default_carrier())
            == Some(CarrierModel { trace_id, span_id, sampled, baggage: insert_all(Map::empty(), es) }),
{
    let body = encode_basic_carrier_sampled(trace_id, span_id, sampled, es);
    let p1 = if trace_id != 0 {
        field_key(1, 1) + le_bytes(trace_id as nat, 8)
    } else {
        Seq::<u8>::empty()
    };
    let p2 = if span_id != 0 {
        field_key(2, 1) + le_bytes(span_id as nat, 8)
    } else {
        Seq::<u8>::empty()
    };
    let p3 = if sampled {
        field_key(3, 0) + varint(1)
    } else {
        Seq::<u8>::empty()
    };
    let ents = encode_entries(es);
    let d = default_carrier();
    let c1 = CarrierModel { trace_id, ..d };
    let c2 = CarrierModel { span_id, ..c1 };
    let c3 = CarrierModel { sampled, ..c2 };
    let fin = CarrierModel { baggage: insert_all(Map::empty(), es), ..c3 };
    assert(body == p1 + p2 + p3 + ents);
    assert(ents.len() <= body.len());
    lemma_basic_entries(es, Seq::empty(), c3);
    assert(ents + Seq::<u8>::empty() =~= ents);
    assert(decode_basic_fields(Seq::<u8>::empty(), fin) == Some(fin)) by {
        reveal_with_fuel(decode_basic_fields, 1);
    }
    assert(decode_basic_fields(p3 + ents, c2) == Some(fin)) by {
        if sampled {
            lemma_basic_sampled_step(ents, c2);
            assert(p3 + ents =~= field_key(3, 0) + varint(1) + ents);
        } else {
            assert(p3 + ents =~= ents);
            assert(c3 == c2);
        }
    }
    assert(decode_basic_fields(p2 + p3 + ents, c1) == Some(fin)) by {
        if span_id != 0 {
            lemma_basic_fixed64_step(2, span_id, p3 + ents, c1);
            assert(p2 + p3 + ents =~= field_key(2, 1) + le_bytes(span_id as nat, 8) + (p3 + ents));
        } else {
            assert(p2 + p3 + ents =~= p3 + ents);
            assert(c2 == c1);
        }
    }
    if trace_id != 0 {
        lemma_basic_fixed64_step(1, trace_id, p2 + p3 + ents, d);
        assert(body =~= field_key(1, 1) + le_bytes(trace_id as nat, 8) + (p2 + p3 + ents));
    } else {
        assert(body =~= p2 + p3 + ents);
        assert(c1 == d);
    }
}

/// Decoding accepts every `BinaryCarrier` an encoder writes, not only the
/// ones this library writes: for any trace id, span id, `sampled` flag and
/// baggage entries, the encoding decodes to exactly those.
pub proof fn lemma_carrier_round_trip_sampled(
    trace_id: u64,
    span_id: u64,
    sampled: bool,
    es: Seq<(Seq<char>, Seq<char>)>,
)
    requires
        encode_binary_carrier_sampled(trace_id, span_id, sampled, es).len() <= u64::MAX,
    ensures
        decode_binary_carrier(encode_binary_carrier_sampled(trace_id, span_id, sampled, es)) == Some(
            Some(CarrierModel { trace_id, span_id, sampled, baggage: insert_all(Map::empty(), es) }),
        ),
{
    let body = encode_basic_carrier_sampled(trace_id, span_id, sampled, es);
    let fin = CarrierModel { trace_id, span_id, sampled, baggage: insert_all(Map::empty(), es) };
    let b = encode_binary_carrier_sampled(trace_id, span_id, sampled, es);
    lemma_basic_round_trip_sampled(trace_id, span_id, sampled, es);
    lemma_len_delimited_field(2, body, Seq::empty());
    assert(b + Seq::<u8>::empty() =~= b);
    let n = field_key(2, 2).len();
    let l = varint(body.len()).len();
    assert(binary_field_step(b, None) == Some(((n + l + body.len()) as nat, Some(fin))));
    assert(b.skip(b.len() as int) =~= Seq::<u8>::empty());
    assert(decode_binary_fields(Seq::<u8>::empty(), Some(fin)) == Some(Some(fin)));
}

} // verus!
