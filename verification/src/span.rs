//! Spans: live ones, finished ones, and the options they are started with.
use crate::context::{SpanContext, baggage_view};
use crate::strmap::{StrMap, inserted};
use crate::value::{Event, Value};
use std::time::{Duration, Instant, SystemTime, SystemTimeError, UNIX_EPOCH};
use vstd::prelude::*;

verus! {

/// A point in wall-clock time, as seconds and nanoseconds since the Unix
/// epoch (the layout of the protobuf `Timestamp`).
#[derive(Clone, Copy, Debug, PartialEq, Eq, Structural)]
pub struct Timestamp {
    pub seconds: i64,
    pub nanos: i32,
}

#[verifier::external_type_specification]
#[verifier::external_body]
pub struct ExInstant(Instant);

#[verifier::external_type_specification]
#[verifier::external_body]
pub struct ExSystemTime(SystemTime);

#[verifier::external_type_specification]
#[verifier::external_body]
pub struct ExSystemTimeError(SystemTimeError);

/// The whole seconds of a duration, as `std::time::Duration::as_secs`
/// gives them.
pub uninterp spec fn secs_of(d: Duration) -> u64;

/// The fraction of a second of a duration in nanoseconds, as
/// `std::time::Duration::subsec_nanos` gives it.
pub uninterp spec fn subsec_nanos_of(d: Duration) -> u32;

/// Reads the wall clock (`std::time::SystemTime::now`); nothing is
/// promised of the reading.
#[verifier::external_body]
fn system_time_now() -> SystemTime {
    SystemTime::now()
}

/// How long after the Unix epoch a time lies
/// (`std::time::SystemTime::duration_since` with `UNIX_EPOCH`), or an error
/// when it lies before; nothing is promised of which.
#[verifier::external_body]
fn duration_since_epoch(t: &SystemTime) -> Result<Duration, SystemTimeError> {
    t.duration_since(UNIX_EPOCH)
}

/// How far the time lies before the epoch, for the error of
/// `duration_since` (`std::time::SystemTimeError::duration`); nothing is
/// promised of it.
#[verifier::external_body]
fn time_error_duration(e: &SystemTimeError) -> Duration {
    e.duration()
}

/// `std::time::Duration::as_secs`.
#[verifier::external_body]
fn duration_as_secs(d: &Duration) -> (s: u64)
    ensures
        s == secs_of(*d),
{
    d.as_secs()
}

/// `std::time::Duration::subsec_nanos`, which std documents to be less
/// than one billion.
#[verifier::external_body]
fn duration_subsec_nanos(d: &Duration) -> (n: u32)
    ensures
        n == subsec_nanos_of(*d),
        n < 1_000_000_000,
{
    d.subsec_nanos()
}

/// A time given as a distance from the Unix epoch (after it, or before it)
/// in whole seconds and nanoseconds, as a normalised timestamp: the
/// nanoseconds are in `0..1e9` and count forward from the seconds, which
/// are negative before the epoch. Seconds beyond the `i64` range saturate.
pub open spec fn timestamp_spec(after_epoch: bool, secs: u64, nanos: u32) -> Timestamp {
    let s: int = if secs > i64::MAX {
        i64::MAX as int
    } else {
        secs as int
    };
    if after_epoch {
        Timestamp { seconds: s as i64, nanos: nanos as i32 }
    } else if nanos == 0 {
        Timestamp { seconds: (-s) as i64, nanos: 0 }
    } else {
        Timestamp { seconds: (-s - 1) as i64, nanos: (1_000_000_000 - nanos) as i32 }
    }
}

/// The timestamp of a time given as a distance from the Unix epoch (see
/// `timestamp_spec`).
pub fn timestamp_of(after_epoch: bool, secs: u64, nanos: u32) -> (t: Timestamp)
    requires
        nanos < 1_000_000_000,
    ensures
        t == timestamp_spec(after_epoch, secs, nanos),
        0 <= t.nanos < 1_000_000_000,
{
    let s: i64 = if secs > i64::MAX as u64 {
        i64::MAX
    } else {
        secs as i64
    };
    if after_epoch {
        Timestamp { seconds: s, nanos: nanos as i32 }
    } else if nanos == 0 {
        Timestamp { seconds: -s, nanos: 0 }
    } else {
        Timestamp { seconds: -s - 1, nanos: (1_000_000_000 - nanos) as i32 }
    }
}

/// Reads the wall clock as a timestamp; a clock set before 1970 gives a
/// negative one. The reading itself is not promised, only that it is
/// normalised.
fn timestamp_now() -> (t: Timestamp)
    ensures
        0 <= t.nanos < 1_000_000_000,
{
    let now = system_time_now();
    match duration_since_epoch(&now) {
        Ok(d) => timestamp_of(true, duration_as_secs(&d), duration_subsec_nanos(&d)),
        Err(e) => {
            let d = time_error_duration(&e);
            timestamp_of(false, duration_as_secs(&d), duration_subsec_nanos(&d))
        },
    }
}

/// Reads the monotonic clock (`std::time::Instant::now`); nothing is
/// promised of the reading.
#[verifier::external_body]
fn instant_now() -> Instant {
    Instant::now()
}

/// The time since an instant (`std::time::Instant::elapsed`); nothing is
/// promised of the reading.
#[verifier::external_body]
fn instant_elapsed(start: &Instant) -> Duration {
    start.elapsed()
}

/// The whole number of microseconds in a duration
/// (`std::time::Duration::as_micros`): its whole seconds in microseconds
/// and the whole microseconds of its fraction of a second.
#[verifier::external_body]
fn duration_as_micros(d: &Duration) -> (m: u128)
    ensures
        m == secs_of(*d) as int * 1_000_000 + subsec_nanos_of(*d) as int / 1000,
{
    d.as_micros()
}

/// A duration in nanoseconds.
pub open spec fn total_nanos(d: Duration) -> int {
    secs_of(d) as int * 1_000_000_000 + subsec_nanos_of(d) as int
}

/// How a span relates to the span it references.
#[derive(Clone, Copy, Debug, PartialEq, Eq, Structural)]
pub enum ReferenceType {
    ChildOf,
    FollowsFrom,
}

/// A reference from a span to another span's context.
pub struct Reference {
    pub rtype: ReferenceType,
    pub to: SpanContext,
}

/// What a span records.
pub struct SpanData {
    pub span_context: SpanContext,
    pub start_timestamp: Timestamp,
    pub finish_timestamp: Option<Timestamp>,
    pub start_instant: Instant,
    /// How long the span lasted, once it is finished.
    pub duration: Option<Duration>,
    /// The duration of the span in whole microseconds.
    pub duration_micros: Option<u128>,
    pub operation_name: String,
    pub references: Vec<Reference>,
    pub tags: StrMap<Value>,
    pub log: Vec<(Timestamp, Vec<Event>)>,
}

/// The options a span is started with.
pub struct SpanOptions {
    pub operation_name: String,
    pub references: Vec<Reference>,
    pub tags: StrMap<Value>,
}

impl SpanOptions {
    /// Options with a name, and no references or tags.
    pub fn new(operation_name: &str) -> (o: SpanOptions)
        ensures
            o.operation_name@ == operation_name@,
            o.references@ == Seq::<Reference>::empty(),
            o.tags.entries() == Seq::<(Seq<char>, Value)>::empty(),
    {
        SpanOptions {
            operation_name: operation_name.to_owned(),
            references: Vec::new(),
            tags: StrMap::new(),
        }
    }
}

/// Represents a span that has not been finished.
pub struct Span {
    data: SpanData,
}

/// Represents a finished span.
pub struct FinishedSpan {
    data: SpanData,
}

/// Copies a slice of events.
fn copy_events(events: &[Event]) -> (v: Vec<Event>)
    ensures
        v@ == events@,
{
    let mut v: Vec<Event> = Vec::new();
    let n = events.len();
    let mut i: usize = 0;
    while i < n
        invariant
            n == events@.len(),
            i <= n,
            v@ == events@.subrange(0, i as int),
        decreases n - i,
    {
        v.push(events[i].clone());
        i = i + 1;
        assert(v@ =~= events@.subrange(0, i as int));
    }
    assert(events@.subrange(0, n as int) =~= events@);
    v
}

impl Span {
    /// What the span has recorded so far.
    pub closed spec fn data_view(self) -> SpanData {
        self.data
    }

    /// Starts a span with a context and options, at the current time.
    pub fn new(span_context: SpanContext, options: SpanOptions) -> (s: Span)
        ensures
            s.data_view().span_context == span_context,
            s.data_view().operation_name == options.operation_name,
            s.data_view().references == options.references,
            s.data_view().tags == options.tags,
            s.data_view().log@ == Seq::<(Timestamp, Vec<Event>)>::empty(),
            s.data_view().finish_timestamp is None,
            s.data_view().duration_micros is None,
            s.data_view().duration is None,
            0 <= s.data_view().start_timestamp.nanos < 1_000_000_000,
    {
        let start_timestamp = timestamp_now();
        let start_instant = instant_now();
        Span {
            data: SpanData {
                span_context,
                start_timestamp,
                finish_timestamp: None,
                start_instant,
                duration: None,
                duration_micros: None,
                operation_name: options.operation_name,
                references: options.references,
                tags: options.tags,
                log: Vec::new(),
            },
        }
    }

    /// The context of the span.
    pub fn span_context(&self) -> (c: &SpanContext)
        ensures
            *c == self.data_view().span_context,
    {
        &self.data.span_context
    }

    /// The operation name.
    pub fn operation_name(&self) -> (n: &String)
        ensures
            *n == self.data_view().operation_name,
    {
        &self.data.operation_name
    }

    /// The tags.
    pub fn tags(&self) -> (t: &StrMap<Value>)
        ensures
            *t == self.data_view().tags,
    {
        &self.data.tags
    }

    /// The references.
    pub fn references(&self) -> (r: &Vec<Reference>)
        ensures
            *r == self.data_view().references,
    {
        &self.data.references
    }

    /// The log entries.
    pub fn log_entries(&self) -> (l: &Vec<(Timestamp, Vec<Event>)>)
        ensures
            *l == self.data_view().log,
    {
        &self.data.log
    }

    /// Change the operation name to something different.
    pub fn set_operation_name(&mut self, new_operation_name: &str)
        ensures
            final(self).data_view().operation_name@ == new_operation_name@,
            final(self).data_view().span_context == old(self).data_view().span_context,
            final(self).data_view().start_timestamp == old(self).data_view().start_timestamp,
            final(self).data_view().finish_timestamp == old(self).data_view().finish_timestamp,
            final(self).data_view().start_instant == old(self).data_view().start_instant,
            final(self).data_view().duration_micros == old(self).data_view().duration_micros,
            final(self).data_view().references == old(self).data_view().references,
            final(self).data_view().tags == old(self).data_view().tags,
            final(self).data_view().log == old(self).data_view().log,
    {
        self.data.operation_name = new_operation_name.to_owned();
    }

    /// Add/Update a tag.
    pub fn set_tag(&mut self, key: &str, value: Value)
        ensures
            final(self).data_view().tags.map() == old(self).data_view().tags.map().insert(
                key@,
                value,
            ),
            final(self).data_view().tags.entries() == inserted(
                old(self).data_view().tags.entries(),
                key@,
                value,
            ),
            final(self).data_view().span_context == old(self).data_view().span_context,
            final(self).data_view().start_timestamp == old(self).data_view().start_timestamp,
            final(self).data_view().finish_timestamp == old(self).data_view().finish_timestamp,
            final(self).data_view().start_instant == old(self).data_view().start_instant,
            final(self).data_view().duration_micros == old(self).data_view().duration_micros,
            final(self).data_view().operation_name == old(self).data_view().operation_name,
            final(self).data_view().references == old(self).data_view().references,
            final(self).data_view().log == old(self).data_view().log,
    {
        self.data.tags.insert(key.to_owned(), value);
    }

    /// Like `.log()` but with the timestamp given explicitly.
    pub fn log_with_timestamp(&mut self, events: &[Event], timestamp: Timestamp)
        ensures
            final(self).data_view().log@.len() == old(self).data_view().log@.len() + 1,
            final(self).data_view().log@.drop_last() == old(self).data_view().log@,
            final(self).data_view().log@.last().0 == timestamp,
            final(self).data_view().log@.last().1@ == events@,
            final(self).data_view().span_context == old(self).data_view().span_context,
            final(self).data_view().start_timestamp == old(self).data_view().start_timestamp,
            final(self).data_view().finish_timestamp == old(self).data_view().finish_timestamp,
            final(self).data_view().start_instant == old(self).data_view().start_instant,
            final(self).data_view().duration_micros == old(self).data_view().duration_micros,
            final(self).data_view().operation_name == old(self).data_view().operation_name,
            final(self).data_view().references == old(self).data_view().references,
            final(self).data_view().tags == old(self).data_view().tags,
    {
        let copied = copy_events(events);
        self.data.log.push((timestamp, copied));
        assert(self.data.log@.drop_last() =~= old(self).data_view().log@);
    }

    /// Log one or more events that happened right now.
    pub fn log(&mut self, events: &[Event])
        ensures
            final(self).data_view().log@.len() == old(self).data_view().log@.len() + 1,
            final(self).data_view().log@.drop_last() == old(self).data_view().log@,
            final(self).data_view().log@.last().1@ == events@,
            0 <= final(self).data_view().log@.last().0.nanos < 1_000_000_000,
            final(self).data_view().span_context == old(self).data_view().span_context,
            final(self).data_view().start_timestamp == old(self).data_view().start_timestamp,
            final(self).data_view().finish_timestamp == old(self).data_view().finish_timestamp,
            final(self).data_view().start_instant == old(self).data_view().start_instant,
            final(self).data_view().duration_micros == old(self).data_view().duration_micros,
            final(self).data_view().operation_name == old(self).data_view().operation_name,
            final(self).data_view().references == old(self).data_view().references,
            final(self).data_view().tags == old(self).data_view().tags,
    {
        let now = timestamp_now();
        self.log_with_timestamp(events, now);
    }

    /// Retrieves a baggage item from the associated span context.
    pub fn baggage_item(&self, key: &str) -> (r: Option<&str>)
        ensures
            match r {
                Some(v) => self.data_view().span_context.baggage().contains_key(key@)
                    && self.data_view().span_context.baggage()[key@] == v@,
                None => !self.data_view().span_context.baggage().contains_key(key@),
            },
    {
        let k = key.to_owned();
        match self.data.span_context.baggage_items.get(&k) {
            Some(v) => Some(v.as_str()),
            None => None,
        }
    }

    /// Add/Update an item to the baggage context.
    pub fn set_baggage_item(&mut self, key: &str, value: &str)
        ensures
            final(self).data_view().span_context.baggage() == old(
                self,
            ).data_view().span_context.baggage().insert(key@, value@),
            final(self).data_view().span_context.state == old(self).data_view().span_context.state,
            final(self).data_view().start_timestamp == old(self).data_view().start_timestamp,
            final(self).data_view().finish_timestamp == old(self).data_view().finish_timestamp,
            final(self).data_view().start_instant == old(self).data_view().start_instant,
            final(self).data_view().duration_micros == old(self).data_view().duration_micros,
            final(self).data_view().operation_name == old(self).data_view().operation_name,
            final(self).data_view().references == old(self).data_view().references,
            final(self).data_view().tags == old(self).data_view().tags,
            final(self).data_view().log == old(self).data_view().log,
    {
        let ghost before = self.data.span_context.baggage_items.map();
        let v = value.to_owned();
        self.data.span_context.baggage_items.insert(key.to_owned(), v);
        assert(baggage_view(self.data.span_context.baggage_items) =~= baggage_view(
            old(self).data_view().span_context.baggage_items,
        ).insert(key@, value@));
    }

    /// Finish the span: record its duration and finish time.
    ///
    /// A span that is dropped without this call is finished the same way by
    /// whoever reports it.
    pub fn finish(self) -> (f: FinishedSpan)
        ensures
            f.data_view().span_context == self.data_view().span_context,
            f.data_view().start_timestamp == self.data_view().start_timestamp,
            f.data_view().start_instant == self.data_view().start_instant,
            f.data_view().operation_name == self.data_view().operation_name,
            f.data_view().references == self.data_view().references,
            f.data_view().tags == self.data_view().tags,
            f.data_view().log == self.data_view().log,
            f.data_view().finish_timestamp is Some,
            f.data_view().duration_micros is Some,
            f.data_view().duration is Some,
            f.data_view().duration_micros->0 * 1000 <= total_nanos(f.data_view().duration->0)
                < f.data_view().duration_micros->0 * 1000 + 1000,
            0 <= f.data_view().finish_timestamp->0.nanos < 1_000_000_000,
    {
        let elapsed = instant_elapsed(&self.data.start_instant);
        let micros = duration_as_micros(&elapsed);
        let now = timestamp_now();
        let mut data = self.data;
        data.duration = Some(elapsed);
        data.duration_micros = Some(micros);
        data.finish_timestamp = Some(now);
        FinishedSpan { data }
    }
}

impl FinishedSpan {
    /// Every finished span knows its duration and finish time.
    #[verifier::type_invariant]
    pub closed spec fn is_finished(self) -> bool {
        &&& self.data.finish_timestamp is Some
        &&& self.data.duration_micros is Some
        &&& self.data.duration is Some
    }

    /// What the span recorded.
    pub closed spec fn data_view(self) -> SpanData {
        self.data
    }

    /// A finished span's duration and finish time are known.
    pub proof fn lemma_finished(self)
        requires
            self.is_finished(),
        ensures
            self.data_view().finish_timestamp is Some,
            self.data_view().duration_micros is Some,
            self.data_view().duration is Some,
    {
    }

    /// The context of the span.
    pub fn span_context(&self) -> (c: &SpanContext)
        ensures
            *c == self.data_view().span_context,
    {
        &self.data.span_context
    }

    /// What the span recorded.
    pub fn data(&self) -> (d: &SpanData)
        ensures
            *d == self.data_view(),
    {
        &self.data
    }
}

/// Setting a baggage item and reading it back: the value read is the value
/// set, and every other item reads as before.
pub proof fn lemma_baggage_read_after_write(
    before: Map<Seq<char>, Seq<char>>,
    key: Seq<char>,
    value: Seq<char>,
    other: Seq<char>,
)
    requires
        other != key,
    ensures
        before.insert(key, value).contains_key(key),
        before.insert(key, value)[key] == value,
        before.insert(key, value).contains_key(other) == before.contains_key(other),
        before.contains_key(other) ==> before.insert(key, value)[other] == before[other],
{
}

} // verus!
