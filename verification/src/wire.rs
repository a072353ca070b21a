//! Protocol Buffers wire format: the pieces the LightStep messages are
//! built from, in the encoding `prost` produces and with the decoding rules
//! `prost` applies.
use vstd::prelude::*;
use vstd::utf8::{decode_utf8, encode_utf8, valid_utf8};

verus! {

/// 128 to the power `k`.
pub open spec fn pow128(k: nat) -> nat
    decreases k,
{
    if k == 0 {
        1
    } else {
        128 * pow128((k - 1) as nat)
    }
}

/// The LEB128 varint encoding of a number.
pub open spec fn varint(v: nat) -> Seq<u8>
    decreases v,
{
    if v < 128 {
        seq![v as u8]
    } else {
        seq![(v % 128 + 128) as u8] + varint(v / 128)
    }
}

/// Reads a varint of at most `fuel` bytes from the front of `b`: its exact
/// value and its length.
pub open spec fn parse_varint_fuel(b: Seq<u8>, fuel: nat) -> Option<(nat, nat)>
    decreases fuel,
{
    if fuel == 0 || b.len() == 0 {
        None
    } else if b[0] < 128 {
        Some((b[0] as nat, 1))
    } else {
        match parse_varint_fuel(b.drop_first(), (fuel - 1) as nat) {
            Some((v, n)) => Some((((b[0] - 128) + 128 * v) as nat, n + 1)),
            None => None,
        }
    }
}

/// Reads a varint from the front of `b` as `prost` does: at most ten bytes,
/// the value taken modulo 2^64. Gives the value and the number of bytes.
pub open spec fn parse_varint(b: Seq<u8>) -> Option<(u64, nat)> {
    match parse_varint_fuel(b, 10) {
        Some((v, n)) => Some(((v % 0x1_0000_0000_0000_0000) as u64, n)),
        None => None,
    }
}

pub proof fn lemma_pow128_10()
    ensures
        pow128(10) == 0x40_0000_0000_0000_0000,
        pow128(9) == 0x8000_0000_0000_0000,
{
    reveal_with_fuel(pow128, 11);
}

proof fn lemma_pow128_monotone(a: nat, b: nat)
    requires
        a <= b,
    ensures
        pow128(a) <= pow128(b),
    decreases b,
{
    if a < b {
        lemma_pow128_monotone(a, (b - 1) as nat);
    }
}

/// What `parse_varint_fuel` reads is below 128^length, its length within the fuel.
pub proof fn lemma_parse_varint_fuel_bound(b: Seq<u8>, fuel: nat)
    ensures
        parse_varint_fuel(b, fuel) matches Some((v, n)) ==> 1 <= n <= fuel && n <= b.len() && v
            < pow128(n),
    decreases fuel,
{
    reveal_with_fuel(pow128, 2);
    if fuel > 0 && b.len() > 0 && b[0] >= 128 {
        lemma_parse_varint_fuel_bound(b.drop_first(), (fuel - 1) as nat);
        if let Some((v, n)) = parse_varint_fuel(b.drop_first(), (fuel - 1) as nat) {
            assert((b[0] - 128) + 128 * v < pow128(n + 1)) by (nonlinear_arith)
                requires
                    b[0] - 128 < 128,
                    v < pow128(n),
                    pow128(n + 1) == 128 * pow128(n),
            ;
        }
    }
}

/// A varint of a number below 128^k has at most k bytes, and reads back.
pub proof fn lemma_varint_round_trip(v: nat, rest: Seq<u8>, fuel: nat)
    requires
        v < pow128(fuel),
        fuel >= 1,
    ensures
        1 <= varint(v).len() <= fuel,
        parse_varint_fuel(varint(v) + rest, fuel) == Some((v, varint(v).len())),
    decreases v,
{
    let s = varint(v) + rest;
    reveal_with_fuel(pow128, 2);
    if v < 128 {
        assert(s[0] == v as u8);
    } else {
        if fuel == 1 {
            assert(pow128(1) == 128);
        }
        let f1 = (fuel - 1) as nat;
        assert(v / 128 < pow128(f1)) by (nonlinear_arith)
            requires
                v < pow128(fuel),
                pow128(fuel) == 128 * pow128(f1),
        ;
        lemma_varint_round_trip(v / 128, rest, f1);
        assert(s.drop_first() =~= varint(v / 128) + rest);
        assert(s[0] == (v % 128 + 128) as u8);
    }
}

/// A varint of a 64-bit number reads back as that number.
pub proof fn lemma_parse_varint(v: u64, rest: Seq<u8>)
    ensures
        1 <= varint(v as nat).len() <= 10,
        parse_varint(varint(v as nat) + rest) == Some((v, varint(v as nat).len())),
{
    lemma_pow128_10();
    lemma_varint_round_trip(v as nat, rest, 10);
}

/// Appends the varint encoding of a number.
pub fn put_varint(buf: &mut Vec<u8>, v: u64)
    ensures
        final(buf)@ == old(buf)@ + varint(v as nat),
{
    let mut m = v;
    while m >= 128
        invariant
            buf@ + varint(m as nat) == old(buf)@ + varint(v as nat),
        decreases m,
    {
        let ghost before = buf@;
        let ghost m0 = m;
        buf.push((m % 128 + 128) as u8);
        assert(varint(m as nat) == seq![(m % 128 + 128) as u8] + varint((m / 128) as nat));
        m = m / 128;
        assert(buf@ + varint(m as nat) =~= before + varint(m0 as nat));
    }
    let ghost before = buf@;
    buf.push(m as u8);
    assert(buf@ =~= before + varint(m as nat));
}

fn read_varint_fuel(b: &[u8], pos: usize, end: usize, fuel: usize) -> (r: Option<(u128, usize)>)
    requires
        pos <= end <= b@.len(),
        fuel <= 10,
    ensures
        match parse_varint_fuel(b@.subrange(pos as int, end as int), fuel as nat) {
            Some((v, n)) => r == Some((v as u128, (pos + n) as usize)),
            None => r is None,
        },
    decreases fuel,
{
    let ghost s = b@.subrange(pos as int, end as int);
    if fuel == 0 || pos == end {
        return None;
    }
    let byte = b[pos];
    assert(s[0] == byte);
    if byte < 128 {
        return Some((byte as u128, pos + 1));
    }
    assert(s.drop_first() =~= b@.subrange(pos + 1, end as int));
    match read_varint_fuel(b, pos + 1, end, fuel - 1) {
        Some((v, p)) => {
            proof {
                lemma_parse_varint_fuel_bound(s.drop_first(), (fuel - 1) as nat);
                let n = (p - pos - 1) as nat;
                lemma_pow128_monotone(n, 9);
                lemma_pow128_10();
            }
            Some(((byte - 128) as u128 + 128 * v, p))
        },
        None => None,
    }
}

/// Reads a varint at `pos`, within `end`, as `prost` does; gives the value
/// and the position after it.
pub fn read_varint(b: &[u8], pos: usize, end: usize) -> (r: Option<(u64, usize)>)
    requires
        pos <= end <= b@.len(),
    ensures
        match parse_varint(b@.subrange(pos as int, end as int)) {
            Some((v, n)) => r == Some((v, (pos + n) as usize)) && 1 <= n <= end - pos,
            None => r is None,
        },
        r matches Some((_, p)) ==> pos < p <= end,
{
    proof {
        let s = b@.subrange(pos as int, end as int);
        lemma_parse_varint_fuel_bound(s, 10);
        if let Some((v, n)) = parse_varint_fuel(s, 10) {
            lemma_pow128_monotone(n, 10);
            lemma_pow128_10();
        }
    }
    match read_varint_fuel(b, pos, end, 10) {
        Some((v, p)) => Some(((v % 0x1_0000_0000_0000_0000) as u64, p)),
        None => None,
    }
}

/// The key of a field: its tag and wire type as one varint.
pub open spec fn field_key(tag: nat, wire_type: nat) -> Seq<u8> {
    varint(tag * 8 + wire_type)
}

/// Reads a field key as `prost::encoding::decode_key` does: tag, wire type
/// and length of the key. Keys above `u32::MAX`, wire types above 5 and the
/// tag 0 are refused.
pub open spec fn parse_key(b: Seq<u8>) -> Option<(nat, nat, nat)> {
    match parse_varint(b) {
        None => None,
        Some((k, n)) => if k > u32::MAX || k % 8 > 5 || k / 8 == 0 {
            None
        } else {
            Some(((k / 8) as nat, (k % 8) as nat, n))
        },
    }
}

/// A key reads back.
pub proof fn lemma_parse_key(tag: nat, wire_type: nat, rest: Seq<u8>)
    requires
        1 <= tag,
        wire_type <= 5,
        tag * 8 + wire_type <= u32::MAX,
    ensures
        1 <= field_key(tag, wire_type).len() <= 10,
        parse_key(field_key(tag, wire_type) + rest) == Some((tag, wire_type, field_key(tag, wire_type).len())),
{
    lemma_parse_varint((tag * 8 + wire_type) as u64, rest);
}

/// Appends a field key.
pub fn put_key(buf: &mut Vec<u8>, tag: u32, wire_type: u32)
    requires
        tag as int * 8 + wire_type <= u32::MAX,
    ensures
        final(buf)@ == old(buf)@ + field_key(tag as nat, wire_type as nat),
{
    put_varint(buf, (tag as u64) * 8 + wire_type as u64);
}

/// Reads a field key at `pos`; gives tag, wire type and the position after it.
pub fn read_key(b: &[u8], pos: usize, end: usize) -> (r: Option<(u32, u32, usize)>)
    requires
        pos <= end <= b@.len(),
    ensures
        match parse_key(b@.subrange(pos as int, end as int)) {
            Some((t, w, n)) => r == Some((t as u32, w as u32, (pos + n) as usize)) && 1 <= t
                < 0x2000_0000 && w <= 5 && 1 <= n <= end - pos,
            None => r is None,
        },
        r matches Some((_, _, p)) ==> pos < p <= end,
{
    proof {
        lemma_parse_varint_fuel_bound(b@.subrange(pos as int, end as int), 10);
    }
    match read_varint(b, pos, end) {
        None => None,
        Some((k, p)) => {
            if k > 0xffff_ffff || k % 8 > 5 || k / 8 == 0 {
                None
            } else {
                Some(((k / 8) as u32, (k % 8) as u32, p))
            }
        },
    }
}

/// 256 to the power `k`.
pub open spec fn pow256(k: nat) -> nat
    decreases k,
{
    if k == 0 {
        1
    } else {
        256 * pow256((k - 1) as nat)
    }
}

/// The `n` low bytes of a number, least significant first.
pub open spec fn le_bytes(v: nat, n: nat) -> Seq<u8>
    decreases n,
{
    if n == 0 {
        Seq::empty()
    } else {
        seq![(v % 256) as u8] + le_bytes(v / 256, (n - 1) as nat)
    }
}

/// The number whose bytes, least significant first, are `b`.
pub open spec fn le_value(b: Seq<u8>) -> nat
    decreases b.len(),
{
    if b.len() == 0 {
        0
    } else {
        b[0] as nat + 256 * le_value(b.drop_first())
    }
}

proof fn lemma_le_round_trip(v: nat, n: nat)
    requires
        v < pow256(n),
    ensures
        le_bytes(v, n).len() == n,
        le_value(le_bytes(v, n)) == v,
    decreases n,
{
    if n > 0 {
        let n1 = (n - 1) as nat;
        assert(v / 256 < pow256(n1)) by (nonlinear_arith)
            requires
                v < pow256(n),
                pow256(n) == 256 * pow256(n1),
        ;
        lemma_le_round_trip(v / 256, n1);
        assert(le_bytes(v, n).drop_first() =~= le_bytes(v / 256, n1));
    } else {
        assert(pow256(0) == 1);
    }
}

proof fn lemma_le_value_bound(b: Seq<u8>)
    ensures
        le_value(b) < pow256(b.len()),
    decreases b.len(),
{
    if b.len() > 0 {
        lemma_le_value_bound(b.drop_first());
        let r = le_value(b.drop_first());
        let p = pow256((b.len() - 1) as nat);
        assert(b[0] as nat + 256 * r < 256 * p) by (nonlinear_arith)
            requires
                r < p,
                b[0] < 256,
        ;
    } else {
        assert(pow256(0) == 1);
    }
}

proof fn lemma_pow256_8()
    ensures
        pow256(8) == 0x1_0000_0000_0000_0000,
{
    reveal_with_fuel(pow256, 9);
}

/// Eight little-endian bytes of a 64-bit number read back as it.
pub proof fn lemma_fixed64_round_trip(v: u64)
    ensures
        le_bytes(v as nat, 8).len() == 8,
        le_value(le_bytes(v as nat, 8)) == v,
{
    lemma_pow256_8();
    lemma_le_round_trip(v as nat, 8);
}

/// Appends the eight little-endian bytes of a number.
pub fn put_fixed64(buf: &mut Vec<u8>, v: u64)
    ensures
        final(buf)@ == old(buf)@ + le_bytes(v as nat, 8),
{
    let mut m = v;
    let mut i: u64 = 0;
    while i < 8
        invariant
            i <= 8,
            buf@ + le_bytes(m as nat, (8 - i) as nat) == old(buf)@ + le_bytes(v as nat, 8),
        decreases 8 - i,
    {
        let ghost before = buf@;
        let ghost m0 = m;
        buf.push((m % 256) as u8);
        assert(le_bytes(m0 as nat, (8 - i) as nat) == seq![(m0 % 256) as u8] + le_bytes(
            (m0 / 256) as nat,
            (8 - i - 1) as nat,
        ));
        m = m / 256;
        i = i + 1;
        assert(buf@ + le_bytes(m as nat, (8 - i) as nat) =~= before + le_bytes(
            m0 as nat,
            (8 - i + 1) as nat,
        ));
    }
    assert(le_bytes(m as nat, 0) =~= Seq::<u8>::empty());
    assert(buf@ =~= old(buf)@ + le_bytes(v as nat, 8));
}

/// Reads eight little-endian bytes at `pos`.
pub fn read_fixed64(b: &[u8], pos: usize) -> (r: u64)
    requires
        pos + 8 <= b@.len(),
    ensures
        r == le_value(b@.subrange(pos as int, pos + 8)),
{
    let ghost s = b@.subrange(pos as int, pos + 8);
    let len = b.len();
    let mut acc: u128 = 0;
    let mut i: usize = 8;
    while i > 0
        invariant
            i <= 8,
            len == b@.len(),
            pos + 8 <= b@.len(),
            s == b@.subrange(pos as int, pos + 8),
            acc == le_value(s.subrange(i as int, 8)),
        decreases i,
    {
        i = i - 1;
        proof {
            lemma_le_value_bound(s.subrange(i + 1, 8));
            reveal_with_fuel(pow256, 9);
            assert(s.subrange(i as int, 8).drop_first() =~= s.subrange(i + 1, 8));
            let p = pow256((8 - i - 1) as nat);
            assert(p <= 0x1_0000_0000_0000_0000);
            assert(256 * acc + 255 <= 256 * 0x1_0000_0000_0000_0000 + 255) by (nonlinear_arith)
                requires
                    acc < p,
                    p <= 0x1_0000_0000_0000_0000,
            ;
        }
        acc = b[pos + i] as u128 + 256 * acc;
    }
    proof {
        lemma_le_value_bound(s);
        lemma_pow256_8();
        assert(s.subrange(0, 8) =~= s);
    }
    acc as u64
}

/// A length-delimited field: key, length, then the bytes.
pub open spec fn field_len_delimited(tag: nat, body: Seq<u8>) -> Seq<u8> {
    field_key(tag, 2) + varint(body.len()) + body
}

/// A string field: its UTF-8 bytes, length-delimited.
pub open spec fn field_string(tag: nat, s: Seq<char>) -> Seq<u8> {
    field_len_delimited(tag, encode_utf8(s))
}

/// Reads the length of a length-delimited value at the front of `b`; gives
/// where its bytes start and stop, when they are all there.
pub open spec fn parse_len_delimited(b: Seq<u8>) -> Option<(nat, nat)> {
    match parse_varint(b) {
        None => None,
        Some((l, n)) => if l > b.len() - n {
            None
        } else {
            Some((n, (n + l) as nat))
        },
    }
}

/// A length-delimited value reads back.
pub proof fn lemma_parse_len_delimited(body: Seq<u8>, rest: Seq<u8>)
    requires
        body.len() <= u64::MAX,
    ensures
        parse_len_delimited(varint(body.len()) + body + rest) == Some(
            (varint(body.len()).len(), varint(body.len()).len() + body.len()),
        ),
{
    lemma_parse_varint(body.len() as u64, body + rest);
    assert(varint(body.len()) + body + rest =~= varint(body.len()) + (body + rest));
}

/// Appends a length-delimited field.
pub fn put_len_delimited(buf: &mut Vec<u8>, tag: u32, body: &[u8])
    requires
        tag as int * 8 + 2 <= u32::MAX,
    ensures
        final(buf)@ == old(buf)@ + field_len_delimited(tag as nat, body@),
{
    put_key(buf, tag, 2);
    put_varint(buf, body.len() as u64);
    let ghost before = buf@;
    let n = body.len();
    let mut i: usize = 0;
    while i < n
        invariant
            n == body@.len(),
            i <= n,
            buf@ == before + body@.subrange(0, i as int),
        decreases n - i,
    {
        buf.push(body[i]);
        i = i + 1;
        assert(buf@ =~= before + body@.subrange(0, i as int));
    }
    assert(body@.subrange(0, n as int) =~= body@);
    assert(buf@ =~= old(buf)@ + field_len_delimited(tag as nat, body@));
}

/// Appends a string field.
pub fn put_string(buf: &mut Vec<u8>, tag: u32, s: &str)
    requires
        tag as int * 8 + 2 <= u32::MAX,
    ensures
        final(buf)@ == old(buf)@ + field_string(tag as nat, s@),
{
    put_len_delimited(buf, tag, s.as_bytes());
}

/// Reads the length of a length-delimited value at `pos`; gives where its
/// bytes start and stop.
pub fn read_len_delimited(b: &[u8], pos: usize, end: usize) -> (r: Option<(usize, usize)>)
    requires
        pos <= end <= b@.len(),
    ensures
        match parse_len_delimited(b@.subrange(pos as int, end as int)) {
            Some((s, e)) => r == Some(((pos + s) as usize, (pos + e) as usize)) && 1 <= s <= e
                <= end - pos,
            None => r is None,
        },
        r matches Some((s, e)) ==> pos < s <= e <= end,
{
    proof {
        lemma_parse_varint_fuel_bound(b@.subrange(pos as int, end as int), 10);
    }
    match read_varint(b, pos, end) {
        None => None,
        Some((l, p)) => {
            if l > (end - p) as u64 {
                None
            } else {
                Some((p, p + l as usize))
            }
        },
    }
}

/// The bytes `b[start..stop]` as a new vector.
pub fn copy_range(b: &[u8], start: usize, stop: usize) -> (v: Vec<u8>)
    requires
        start <= stop <= b@.len(),
    ensures
        v@ == b@.subrange(start as int, stop as int),
{
    let mut v: Vec<u8> = Vec::new();
    let mut i = start;
    while i < stop
        invariant
            start <= i <= stop <= b@.len(),
            v@ == b@.subrange(start as int, i as int),
        decreases stop - i,
    {
        v.push(b[i]);
        i = i + 1;
        assert(v@ =~= b@.subrange(start as int, i as int));
    }
    v
}

/// The bytes as a string, when they are valid UTF-8 (`String::from_utf8`).
#[verifier::external_body]
pub(crate) fn string_from_utf8(bytes: Vec<u8>) -> (r: Option<String>)
    ensures
        r is Some <==> valid_utf8(bytes@),
        r matches Some(s) ==> s@ == decode_utf8(bytes@),
{
    String::from_utf8(bytes).ok()
}

/// How many bytes `prost::encoding::skip_field` passes over for a field of
/// the given wire type whose key has been read; `depth` is how many more
/// levels of nesting the recursion limit allows.
pub open spec fn skip_field(b: Seq<u8>, wire_type: nat, tag: nat, depth: nat) -> Option<nat>
    decreases b.len(), 1nat,
{
    if depth == 0 {
        None
    } else if wire_type == 0 {
        match parse_varint(b) {
            Some((_, n)) => Some(n),
            None => None,
        }
    } else if wire_type == 1 {
        if b.len() >= 8 {
            Some(8)
        } else {
            None
        }
    } else if wire_type == 2 {
        match parse_len_delimited(b) {
            Some((_, e)) => Some(e),
            None => None,
        }
    } else if wire_type == 3 {
        skip_group(b, tag, (depth - 1) as nat)
    } else if wire_type == 5 {
        if b.len() >= 4 {
            Some(4)
        } else {
            None
        }
    } else {
        None
    }
}

/// How many bytes the fields of a group take, up to and including the key
/// that ends it (which must carry the group's tag).
pub open spec fn skip_group(b: Seq<u8>, tag: nat, depth: nat) -> Option<nat>
    decreases b.len(), 0nat,
{
    match parse_key(b) {
        None => None,
        Some((t, w, n)) => if n == 0 || n > b.len() {
            None
        } else if w == 4 {
            if t == tag {
                Some(n)
            } else {
                None
            }
        } else {
            match skip_field(b.skip(n as int), w, t, depth) {
                None => None,
                Some(m) => if m > b.len() - n {
                    None
                } else {
                    match skip_group(b.skip((n + m) as int), tag, depth) {
                        Some(r) => Some(n + m + r),
                        None => None,
                    }
                },
            }
        },
    }
}

/// Skips a field whose key has been read, at `pos` within `end`; gives the
/// position after it.
pub fn skip_field_at(b: &[u8], pos: usize, end: usize, wire_type: u32, tag: u32, depth: u32) -> (r:
    Option<usize>)
    requires
        pos <= end <= b@.len(),
    ensures
        match skip_field(b@.subrange(pos as int, end as int), wire_type as nat, tag as nat, depth as nat) {
            Some(m) => r == Some((pos + m) as usize) && m <= end - pos,
            None => r is None,
        },
        r matches Some(q) ==> pos <= q <= end,
    decreases end - pos, 1nat,
{
    let ghost s = b@.subrange(pos as int, end as int);
    if depth == 0 {
        return None;
    }
    if wire_type == 0 {
        match read_varint(b, pos, end) {
            Some((_, p)) => Some(p),
            None => None,
        }
    } else if wire_type == 1 {
        if end - pos >= 8 {
            Some(pos + 8)
        } else {
            None
        }
    } else if wire_type == 2 {
        match read_len_delimited(b, pos, end) {
            Some((_, e)) => Some(e),
            None => None,
        }
    } else if wire_type == 3 {
        skip_group_at(b, pos, end, tag, depth - 1)
    } else if wire_type == 5 {
        if end - pos >= 4 {
            Some(pos + 4)
        } else {
            None
        }
    } else {
        None
    }
}

/// Skips the rest of a group at `pos` within `end`; gives the position after
/// the key that ends it.
pub fn skip_group_at(b: &[u8], pos: usize, end: usize, tag: u32, depth: u32) -> (r: Option<usize>)
    requires
        pos <= end <= b@.len(),
    ensures
        match skip_group(b@.subrange(pos as int, end as int), tag as nat, depth as nat) {
            Some(m) => r == Some((pos + m) as usize) && m <= end - pos,
            None => r is None,
        },
        r matches Some(q) ==> pos <= q <= end,
    decreases end - pos, 0nat,
{
    let ghost s = b@.subrange(pos as int, end as int);
    match read_key(b, pos, end) {
        None => None,
        Some((t, w, p)) => {
            if p == pos || p > end {
                return None;
            }
            if w == 4 {
                if t == tag {
                    Some(p)
                } else {
                    None
                }
            } else {
                assert(s.skip((p - pos) as int) =~= b@.subrange(p as int, end as int));
                match skip_field_at(b, p, end, w, t, depth) {
                    None => None,
                    Some(q) => {
                        if q > end {
                            return None;
                        }
                        assert(s.skip((q - pos) as int) =~= b@.subrange(q as int, end as int));
                        let res = skip_group_at(b, q, end, tag, depth);
                        proof {
                            let n = (p - pos) as nat;
                            let m = (q - p) as nat;
                            assert(parse_key(s) == Some((t as nat, w as nat, n)));
                            assert(skip_field(s.skip(n as int), w as nat, t as nat, depth as nat) == Some(m));
                            assert(s.skip((n + m) as int) == b@.subrange(q as int, end as int));
                        }
                        res
                    },
                }
            }
        },
    }
}

} // verus!
