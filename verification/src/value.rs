//! Tag and log values, and log events.
use vstd::prelude::*;
use vstd::std_specs::convert::FromSpecImpl;

verus! {

/// The value of a tag or of a logged event.
///
/// Floating-point values are held as the bit pattern of an IEEE-754 double:
/// the tracers only ever hand them on as a protobuf `double`, so an `f32`
/// is kept as the bits of its (exact) widening to `f64`.
pub enum Value {
    String(String),
    Bool(bool),
    // Numeric types, some tracer implementations may not be able to cope with all of these and
    // may have to cast them to a string.
    U8(u8),
    U16(u16),
    U32(u32),
    U64(u64),
    U128(u128),
    I8(i8),
    I16(i16),
    I32(i32),
    I64(i64),
    I128(i128),
    /// An `f32`, as the bits of the `f64` with the same value.
    F32(u64),
    /// An `f64`, as its bits.
    F64(u64),
    USize(usize),
    ISize(isize),
}

impl Clone for Value {
    fn clone(&self) -> (r: Value)
        ensures
            r == *self,
    {
        match self {
            Value::String(s) => Value::String(s.clone()),
            Value::Bool(b) => Value::Bool(*b),
            Value::U8(n) => Value::U8(*n),
            Value::U16(n) => Value::U16(*n),
            Value::U32(n) => Value::U32(*n),
            Value::U64(n) => Value::U64(*n),
            Value::U128(n) => Value::U128(*n),
            Value::I8(n) => Value::I8(*n),
            Value::I16(n) => Value::I16(*n),
            Value::I32(n) => Value::I32(*n),
            Value::I64(n) => Value::I64(*n),
            Value::I128(n) => Value::I128(*n),
            Value::F32(n) => Value::F32(*n),
            Value::F64(n) => Value::F64(*n),
            Value::USize(n) => Value::USize(*n),
            Value::ISize(n) => Value::ISize(*n),
        }
    }
}

impl Value {
    /// A string value with the characters of `s`.
    pub fn string(s: &str) -> (v: Value)
        ensures
            v matches Value::String(t) && t@ == s@,
    {
        Value::String(s.to_owned())
    }
}

impl From<String> for Value {
    fn from(value: String) -> (v: Value) {
        Value::String(value)
    }
}

impl FromSpecImpl<String> for Value {
    open spec fn obeys_from_spec() -> bool {
        true
    }

    open spec fn from_spec(v: String) -> Value {
        Value::String(v)
    }
}

impl<'a> From<&'a str> for Value {
    /// A string value with the characters of `value`.
    fn from(value: &'a str) -> (v: Value)
        ensures
            v matches Value::String(s) && s@ == value@,
    {
        Value::String(value.to_owned())
    }
}

/// Verus equates two `String`s only when they are the same value, not by
/// their characters, so no `from_spec` is claimed for a string slice; the
/// `from` above states the characters instead.
impl<'a> FromSpecImpl<&'a str> for Value {
    open spec fn obeys_from_spec() -> bool {
        false
    }

    open spec fn from_spec(v: &'a str) -> Value {
        Value::String(choose|s: String| s@ == v@)
    }
}

impl From<bool> for Value {
    fn from(value: bool) -> (v: Value) {
        Value::Bool(value)
    }
}

impl FromSpecImpl<bool> for Value {
    open spec fn obeys_from_spec() -> bool {
        true
    }

    open spec fn from_spec(v: bool) -> Value {
        Value::Bool(v)
    }
}

impl From<u8> for Value {
    fn from(value: u8) -> (v: Value) {
        Value::U8(value)
    }
}

impl FromSpecImpl<u8> for Value {
    open spec fn obeys_from_spec() -> bool {
        true
    }

    open spec fn from_spec(v: u8) -> Value {
        Value::U8(v)
    }
}

impl From<u16> for Value {
    fn from(value: u16) -> (v: Value) {
        Value::U16(value)
    }
}

impl FromSpecImpl<u16> for Value {
    open spec fn obeys_from_spec() -> bool {
        true
    }

    open spec fn from_spec(v: u16) -> Value {
        Value::U16(v)
    }
}

impl From<u32> for Value {
    fn from(value: u32) -> (v: Value) {
        Value::U32(value)
    }
}

impl FromSpecImpl<u32> for Value {
    open spec fn obeys_from_spec() -> bool {
        true
    }

    open spec fn from_spec(v: u32) -> Value {
        Value::U32(v)
    }
}

impl From<u64> for Value {
    fn from(value: u64) -> (v: Value) {
        Value::U64(value)
    }
}

impl FromSpecImpl<u64> for Value {
    open spec fn obeys_from_spec() -> bool {
        true
    }

    open spec fn from_spec(v: u64) -> Value {
        Value::U64(v)
    }
}

impl From<u128> for Value {
    fn from(value: u128) -> (v: Value) {
        Value::U128(value)
    }
}

impl FromSpecImpl<u128> for Value {
    open spec fn obeys_from_spec() -> bool {
        true
    }

    open spec fn from_spec(v: u128) -> Value {
        Value::U128(v)
    }
}

impl From<i8> for Value {
    fn from(value: i8) -> (v: Value) {
        Value::I8(value)
    }
}

impl FromSpecImpl<i8> for Value {
    open spec fn obeys_from_spec() -> bool {
        true
    }

    open spec fn from_spec(v: i8) -> Value {
        Value::I8(v)
    }
}

impl From<i16> for Value {
    fn from(value: i16) -> (v: Value) {
        Value::I16(value)
    }
}

impl FromSpecImpl<i16> for Value {
    open spec fn obeys_from_spec() -> bool {
        true
    }

    open spec fn from_spec(v: i16) -> Value {
        Value::I16(v)
    }
}

impl From<i32> for Value {
    fn from(value: i32) -> (v: Value) {
        Value::I32(value)
    }
}

impl FromSpecImpl<i32> for Value {
    open spec fn obeys_from_spec() -> bool {
        true
    }

    open spec fn from_spec(v: i32) -> Value {
        Value::I32(v)
    }
}

impl From<i64> for Value {
    fn from(value: i64) -> (v: Value) {
        Value::I64(value)
    }
}

impl FromSpecImpl<i64> for Value {
    open spec fn obeys_from_spec() -> bool {
        true
    }

    open spec fn from_spec(v: i64) -> Value {
        Value::I64(v)
    }
}

impl From<i128> for Value {
    fn from(value: i128) -> (v: Value) {
        Value::I128(value)
    }
}

impl FromSpecImpl<i128> for Value {
    open spec fn obeys_from_spec() -> bool {
        true
    }

    open spec fn from_spec(v: i128) -> Value {
        Value::I128(v)
    }
}

impl From<usize> for Value {
    fn from(value: usize) -> (v: Value) {
        Value::USize(value)
    }
}

impl FromSpecImpl<usize> for Value {
    open spec fn obeys_from_spec() -> bool {
        true
    }

    open spec fn from_spec(v: usize) -> Value {
        Value::USize(v)
    }
}

impl From<isize> for Value {
    fn from(value: isize) -> (v: Value) {
        Value::ISize(value)
    }
}

impl FromSpecImpl<isize> for Value {
    open spec fn obeys_from_spec() -> bool {
        true
    }

    open spec fn from_spec(v: isize) -> Value {
        Value::ISize(v)
    }
}

/// Something that happened during a span, as a key and a value.
pub struct Event {
    pub(crate) key: String,
    pub(crate) value: Value,
}

impl Event {
    /// The key of the event.
    pub closed spec fn key_view(self) -> Seq<char> {
        self.key@
    }

    /// The value of the event.
    pub closed spec fn value_view(self) -> Value {
        self.value
    }

    /// Creates an event.
    pub fn new(key: &str, value: Value) -> (e: Event)
        ensures
            e.key_view() == key@,
            e.value_view() == value,
    {
        Event { key: key.to_owned(), value }
    }

    /// The key of the event.
    pub fn key(&self) -> (k: &String)
        ensures
            k@ == self.key_view(),
    {
        &self.key
    }

    /// The value of the event.
    pub fn value(&self) -> (v: &Value)
        ensures
            *v == self.value_view(),
    {
        &self.value
    }
}

impl Clone for Event {
    fn clone(&self) -> (r: Event)
        ensures
            r == *self,
    {
        Event { key: self.key.clone(), value: self.value.clone() }
    }
}

} // verus!
