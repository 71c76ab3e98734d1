//! Spans: named, timed intervals of work, nested within a trace.

use crate::convert::ToEle;
use crate::ele::{Ele, EleView};
use vstd::prelude::*;

verus! {

/// What can go wrong in a tracing operation.
#[derive(Clone, Copy, Debug, PartialEq, Eq, Structural)]
pub enum TraceError {
    /// The span has already been ended.
    SpanAlreadyClosed,
}

/// Nanoseconds since the UNIX epoch.
#[derive(Clone, Copy, Debug, PartialEq, Eq, Structural, PartialOrd, Ord)]
pub struct Timestamp(pub u128);

/// Reads the system clock with `std::time::SystemTime::now` and gives the
/// nanoseconds since `UNIX_EPOCH`, or `None` where the clock stands before the
/// epoch. Nothing is promised of the number: it is the time.
#[verifier::external_body]
pub(crate) fn clock_nanos() -> (r: Option<u128>) {
    match std::time::SystemTime::now().duration_since(std::time::UNIX_EPOCH) {
        Ok(d) => Some(d.as_nanos()),
        Err(_) => None,
    }
}

/// The nanoseconds from `earlier` to `later`, cut to 64 bits; zero where
/// `later` is not after `earlier`.
pub open spec fn nanos_between(later: Timestamp, earlier: Timestamp) -> u64 {
    if later.0 > earlier.0 {
        ((later.0 - earlier.0) % 0x1_0000_0000_0000_0000) as u64
    } else {
        0
    }
}

impl Timestamp {
    /// The timestamp of a clock reading: the reading itself, or zero where the
    /// clock stands before the epoch.
    pub fn from_clock(reading: Option<u128>) -> (r: Self)
        ensures
            r.0 == match reading {
                Some(n) => n,
                None => 0,
            },
    {
        match reading {
            Some(n) => Timestamp(n),
            None => Timestamp(0),
        }
    }

    /// The current time.
    pub fn now() -> Self {
        Timestamp::from_clock(clock_nanos())
    }

    /// The nanoseconds that passed from `earlier` to this timestamp.
    pub fn duration_since(&self, earlier: Timestamp) -> (r: u64)
        ensures
            r == nanos_between(*self, earlier),
    {
        if self.0 > earlier.0 {
            let d: u128 = self.0 - earlier.0;
            (d % 0x1_0000_0000_0000_0000u128) as u64
        } else {
            0
        }
    }
}

/// A named value attached to a span or an event.
#[derive(Debug, PartialEq)]
pub struct Attribute(pub String, pub Ele);

impl Clone for Attribute {
    fn clone(&self) -> (r: Self)
        ensures
            r == *self,
    {
        Attribute(self.0.clone(), self.1.clone())
    }
}

/// The attribute `key` with `value` as its element.
pub fn attr<V: ToEle>(key: &str, value: V) -> (r: Attribute)
    ensures
        r.0@ == key@,
        r.1@ == value.ele_view(),
{
    Attribute(key.to_owned(), value.to_ele())
}

impl Attribute {
    /// The attribute's name.
    pub fn key(&self) -> (r: &str)
        ensures
            r@ == self.0@,
    {
        self.0.as_str()
    }

    /// The attribute's value.
    pub fn value(&self) -> (r: &Ele)
        ensures
            *r == self.1,
    {
        &self.1
    }
}

/// Where in the program a span or an event was made.
#[derive(Debug, PartialEq)]
pub enum Location {
    KnownLocation(u64),
    UnknownLocation(String),
}

impl Clone for Location {
    fn clone(&self) -> (r: Self)
        ensures
            r == *self,
    {
        match self {
            Location::KnownLocation(id) => Location::KnownLocation(*id),
            Location::UnknownLocation(path) => Location::UnknownLocation(path.clone()),
        }
    }
}

/// Something that happened within a span.
#[derive(Debug, PartialEq)]
pub struct Event {
    pub name: String,
    pub location: Option<Location>,
    pub timestamp: Timestamp,
    pub attributes: Vec<Attribute>,
}

impl Clone for Event {
    fn clone(&self) -> (r: Self)
        ensures
            r.name == self.name,
            r.location == self.location,
            r.timestamp == self.timestamp,
            r.attributes@ == self.attributes@,
    {
        Event {
            name: self.name.clone(),
            location: match &self.location {
                Some(l) => Some(l.clone()),
                None => None,
            },
            timestamp: self.timestamp,
            attributes: self.attributes.clone(),
        }
    }
}

/// Whether a span is still running.
#[derive(Clone, Copy, Debug, PartialEq, Eq, Structural, Hash)]
pub enum SpanStatus {
    /// The span has no end time.
    Active,
    /// The span has an end time.
    Completed,
}

impl SpanStatus {
    /// `Completed` exactly when there is an end time.
    pub fn from_end_time(end_time: Option<Timestamp>) -> (r: Self)
        ensures
            r == SpanStatus::Completed <==> end_time is Some,
            r == SpanStatus::Active <==> end_time is None,
    {
        if end_time.is_some() {
            SpanStatus::Completed
        } else {
            SpanStatus::Active
        }
    }
}

/// The identifier that follows `id`.
pub open spec fn next_id(id: u64) -> u64 {
    if id == u64::MAX {
        0
    } else {
        (id + 1) as u64
    }
}

/// The identifier that a counter standing at `start` hands out after `n`
/// earlier ones.
pub open spec fn nth_id(start: u64, n: nat) -> u64
    decreases n,
{
    if n == 0 {
        start
    } else {
        next_id(nth_id(start, (n - 1) as nat))
    }
}

/// The counters that trace and span identifiers are drawn from. Both start
/// at 1 and step by one.
#[derive(Debug, PartialEq, Eq)]
pub struct SpanIds {
    pub next_trace_id: u64,
    pub next_span_id: u64,
}

impl SpanIds {
    /// Counters that stand at 1.
    pub fn new() -> (r: Self)
        ensures
            r.next_trace_id == 1,
            r.next_span_id == 1,
    {
        SpanIds { next_trace_id: 1, next_span_id: 1 }
    }

    /// Hands out the next trace identifier.
    pub fn take_trace_id(&mut self) -> (id: u64)
        ensures
            id == old(self).next_trace_id,
            final(self).next_trace_id == next_id(id),
            final(self).next_span_id == old(self).next_span_id,
    {
        let id: u64 = self.next_trace_id;
        self.next_trace_id = if id == u64::MAX {
            0
        } else {
            id + 1
        };
        id
    }

    /// Hands out the next span identifier.
    pub fn take_span_id(&mut self) -> (id: u64)
        ensures
            id == old(self).next_span_id,
            final(self).next_span_id == next_id(id),
            final(self).next_trace_id == old(self).next_trace_id,
    {
        let id: u64 = self.next_span_id;
        self.next_span_id = if id == u64::MAX {
            0
        } else {
            id + 1
        };
        id
    }
}

/// A counter hands out `start`, `start + 1`, ... for as long as the numbers
/// fit in 64 bits.
pub proof fn lemma_nth_id(start: u64, n: nat)
    requires
        start + n <= u64::MAX,
    ensures
        nth_id(start, n) == start + n,
    decreases n,
{
    if n > 0 {
        lemma_nth_id(start, (n - 1) as nat);
    }
}

/// Of two identifiers drawn from one counter, the one drawn earlier is the
/// smaller, for as long as the counter has not run over 64 bits.
pub proof fn law_ids_increase(start: u64, earlier: nat, later: nat)
    requires
        earlier < later,
        start + later <= u64::MAX,
    ensures
        nth_id(start, earlier) < nth_id(start, later),
{
    lemma_nth_id(start, earlier);
    lemma_nth_id(start, later);
}

/// The text of an optional string.
pub open spec fn opt_text(s: Option<String>) -> Option<Seq<char>> {
    match s {
        Some(t) => Some(t@),
        None => None,
    }
}

/// The text of an optional string slice.
pub open spec fn opt_str_text(s: Option<&str>) -> Option<Seq<char>> {
    match s {
        Some(t) => Some(t@),
        None => None,
    }
}

/// The location that a path given at creation stands for.
pub open spec fn location_text(loc: Option<Location>) -> Option<Seq<char>> {
    match loc {
        Some(Location::UnknownLocation(path)) => Some(path@),
        _ => None,
    }
}

/// A named, timed interval of work.
#[derive(Debug)]
pub struct Span {
    pub trace_id: u64,
    pub span_id: u64,
    pub parent_id: Option<u64>,
    /// The thread that created the span.
    pub thread_id: u64,
    pub name: String,
    pub start: Timestamp,
    pub end: Option<Timestamp>,
    pub kind: Option<String>,
    pub loc: Option<Location>,
    pub attrs: Vec<Attribute>,
    pub events: Vec<Event>,
}

impl Clone for Span {
    fn clone(&self) -> (r: Self)
        ensures
            r.same_identity(self),
            r.end == self.end,
            r.attrs@ == self.attrs@,
            r.events@.len() == self.events@.len(),
            forall|i: int|
                0 <= i < r.events@.len() ==> (#[trigger] r.events@[i]).name == self.events@[i].name
                    && r.events@[i].location == self.events@[i].location && r.events@[i].timestamp
                    == self.events@[i].timestamp && r.events@[i].attributes@ == self.events@[i].attributes@,
    {
        let events = self.events.clone();
        Span {
            trace_id: self.trace_id,
            span_id: self.span_id,
            parent_id: self.parent_id,
            thread_id: self.thread_id,
            name: self.name.clone(),
            start: self.start,
            end: self.end,
            kind: match &self.kind {
                Some(k) => Some(k.clone()),
                None => None,
            },
            loc: match &self.loc {
                Some(l) => Some(l.clone()),
                None => None,
            },
            attrs: self.attrs.clone(),
            events,
        }
    }
}

fn owned(s: Option<&str>) -> (r: Option<String>)
    ensures
        opt_text(r) == opt_str_text(s),
{
    match s {
        Some(t) => Some(t.to_owned()),
        None => None,
    }
}

fn unknown_location(s: Option<&str>) -> (r: Option<Location>)
    ensures
        r is Some <==> s is Some,
        location_text(r) == opt_str_text(s),
{
    match s {
        Some(t) => Some(Location::UnknownLocation(t.to_owned())),
        None => None,
    }
}

impl Span {
    /// Starts a new trace: a span without a parent, with a fresh trace
    /// identifier and a fresh span identifier, made on thread `thread_id`.
    pub fn new_root(
        ids: &mut SpanIds,
        thread_id: u64,
        name: &str,
        kind: Option<&str>,
        location: Option<&str>,
    ) -> (span: Span)
        ensures
            span.trace_id == old(ids).next_trace_id,
            span.span_id == old(ids).next_span_id,
            final(ids).next_trace_id == next_id(old(ids).next_trace_id),
            final(ids).next_span_id == next_id(old(ids).next_span_id),
            span.parent_id is None,
            span.thread_id == thread_id,
            span.name@ == name@,
            span.end is None,
            opt_text(span.kind) == opt_str_text(kind),
            span.loc is Some <==> location is Some,
            location_text(span.loc) == opt_str_text(location),
            span.attrs@.len() == 0,
            span.events@.len() == 0,
    {
        let trace_id = ids.take_trace_id();
        let span_id = ids.take_span_id();
        Span {
            trace_id,
            span_id,
            parent_id: None,
            thread_id,
            name: name.to_owned(),
            start: Timestamp::now(),
            end: None,
            kind: owned(kind),
            loc: unknown_location(location),
            attrs: Vec::new(),
            events: Vec::new(),
        }
    }

    /// Starts a span within the trace of `parent`, made on thread `thread_id`.
    pub fn new_child(
        ids: &mut SpanIds,
        thread_id: u64,
        parent: &Span,
        name: &str,
        kind: Option<&str>,
        location: Option<&str>,
    ) -> (span: Span)
        ensures
            span.trace_id == parent.trace_id,
            span.span_id == old(ids).next_span_id,
            final(ids).next_span_id == next_id(old(ids).next_span_id),
            final(ids).next_trace_id == old(ids).next_trace_id,
            span.parent_id == Some(parent.span_id),
            span.thread_id == thread_id,
            span.name@ == name@,
            span.end is None,
            opt_text(span.kind) == opt_str_text(kind),
            span.loc is Some <==> location is Some,
            location_text(span.loc) == opt_str_text(location),
            span.attrs@.len() == 0,
            span.events@.len() == 0,
    {
        let span_id = ids.take_span_id();
        Span {
            trace_id: parent.trace_id,
            span_id,
            parent_id: Some(parent.span_id),
            thread_id,
            name: name.to_owned(),
            start: Timestamp::now(),
            end: None,
            kind: owned(kind),
            loc: unknown_location(location),
            attrs: Vec::new(),
            events: Vec::new(),
        }
    }

    /// Everything of the span but its attributes, events and end time is as
    /// it was.
    pub open spec fn same_identity(&self, other: &Span) -> bool {
        &&& self.trace_id == other.trace_id
        &&& self.span_id == other.span_id
        &&& self.parent_id == other.parent_id
        &&& self.thread_id == other.thread_id
        &&& self.name == other.name
        &&& self.start == other.start
        &&& self.kind == other.kind
        &&& self.loc == other.loc
    }

    /// Adds an attribute to a span that is still active; a span that has
    /// ended refuses, and stays as it is.
    pub fn add_attr<V: ToEle>(&mut self, key: &str, value: V) -> (r: Result<(), TraceError>)
        ensures
            old(self).end is Some ==> r == Err::<(), TraceError>(TraceError::SpanAlreadyClosed),
            old(self).end is Some ==> *final(self) == *old(self),
            old(self).end is None ==> {
                &&& r is Ok
                &&& final(self).same_identity(old(self))
                &&& final(self).end is None
                &&& final(self).events == old(self).events
                &&& final(self).attrs@.len() == old(self).attrs@.len() + 1
                &&& final(self).attrs@.drop_last() == old(self).attrs@
                &&& final(self).attrs@.last().0@ == key@
                &&& final(self).attrs@.last().1@ == value.ele_view()
            },
    {
        if self.end.is_some() {
            return Err(TraceError::SpanAlreadyClosed);
        }
        self.attrs.push(attr(key, value));
        proof {
            assert(self.attrs@.drop_last() =~= old(self).attrs@);
        }
        Ok(())
    }

    /// Adds an event, stamped with the current time, to a span that is still
    /// active; a span that has ended refuses, and stays as it is.
    pub fn add_event(&mut self, name: &str, attributes: Option<Vec<Attribute>>) -> (r: Result<
        (),
        TraceError,
    >)
        ensures
            old(self).end is Some ==> r == Err::<(), TraceError>(TraceError::SpanAlreadyClosed),
            old(self).end is Some ==> *final(self) == *old(self),
            old(self).end is None ==> {
                &&& r is Ok
                &&& final(self).same_identity(old(self))
                &&& final(self).end is None
                &&& final(self).attrs == old(self).attrs
                &&& final(self).events@.len() == old(self).events@.len() + 1
                &&& final(self).events@.drop_last() == old(self).events@
                &&& final(self).events@.last().name@ == name@
                &&& final(self).events@.last().location is None
                &&& final(self).events@.last().attributes@ == match attributes {
                    Some(list) => list@,
                    None => Seq::<Attribute>::empty(),
                }
            },
    {
        if self.end.is_some() {
            return Err(TraceError::SpanAlreadyClosed);
        }
        let list = match attributes {
            Some(list) => list,
            None => Vec::new(),
        };
        self.events.push(
            Event { name: name.to_owned(), location: None, timestamp: Timestamp::now(), attributes: list },
        );
        proof {
            assert(self.events@.drop_last() =~= old(self).events@);
        }
        Ok(())
    }

    /// Ends the span now. A span that has ended keeps its first end time.
    pub fn finish(&mut self)
        ensures
            final(self).end is Some,
            old(self).end is Some ==> *final(self) == *old(self),
            final(self).same_identity(old(self)),
            final(self).attrs == old(self).attrs,
            final(self).events == old(self).events,
    {
        if self.end.is_none() {
            self.end = Some(Timestamp::now());
        }
    }

    /// Ends the span now, as `finish` does.
    pub fn end(&mut self)
        ensures
            final(self).end is Some,
            old(self).end is Some ==> *final(self) == *old(self),
            final(self).same_identity(old(self)),
            final(self).attrs == old(self).attrs,
            final(self).events == old(self).events,
    {
        self.finish();
    }

    /// Ends the span now, as `finish` does.
    pub fn end_success(&mut self)
        ensures
            final(self).end is Some,
            old(self).end is Some ==> *final(self) == *old(self),
            final(self).same_identity(old(self)),
            final(self).attrs == old(self).attrs,
            final(self).events == old(self).events,
    {
        self.end();
    }

    /// Ends the span now; an active span first records the message, if there
    /// is one, as its attribute `error.message`.
    pub fn end_error(&mut self, error_message: Option<String>)
        ensures
            final(self).end is Some,
            old(self).end is Some ==> *final(self) == *old(self),
            final(self).same_identity(old(self)),
            final(self).events == old(self).events,
            old(self).end is None && error_message is None ==> final(self).attrs == old(self).attrs,
            old(self).end is None && error_message is Some ==> {
                &&& final(self).attrs@.len() == old(self).attrs@.len() + 1
                &&& final(self).attrs@.drop_last() == old(self).attrs@
                &&& final(self).attrs@.last().0@ == "error.message"@
                &&& final(self).attrs@.last().1@ == EleView::Text(error_message->0@)
            },
    {
        if let Some(msg) = error_message {
            let _ = self.add_attr("error.message", msg);
        }
        self.finish();
    }

    /// The status of the span: `Completed` exactly when it has an end time.
    pub open spec fn status_view(&self) -> SpanStatus {
        if self.end is Some {
            SpanStatus::Completed
        } else {
            SpanStatus::Active
        }
    }

    /// The nanoseconds from start to end, once the span has an end time.
    pub open spec fn duration_view(&self) -> Option<u64> {
        match self.end {
            Some(end) => Some(nanos_between(end, self.start)),
            None => None,
        }
    }

    /// `Completed` exactly when the span has ended.
    pub fn status(&self) -> (r: SpanStatus)
        ensures
            r == self.status_view(),
    {
        SpanStatus::from_end_time(self.end)
    }

    /// The nanoseconds from start to end, once the span has ended.
    pub fn duration(&self) -> (r: Option<u64>)
        ensures
            r == self.duration_view(),
    {
        match self.end {
            Some(et) => Some(et.duration_since(self.start)),
            None => None,
        }
    }

    /// Whether the span has ended.
    pub fn is_ended(&self) -> (r: bool)
        ensures
            r == self.end is Some,
    {
        self.end.is_some()
    }
}

/// A span that has ended is completed, its duration is the time from its
/// start to its end, and it takes no further attribute or event: what
/// `add_attr` and `add_event` promise of a span with an end time is that
/// they fail with `SpanAlreadyClosed` and leave it as it is.
pub proof fn law_span_lifecycle(span: Span)
    requires
        span.end is Some,
    ensures
        span.status_view() == SpanStatus::Completed,
        span.duration_view() == Some(nanos_between(span.end->0, span.start)),
{
}

/// A span is completed exactly when it has an end time.
pub proof fn law_status(span: Span)
    ensures
        span.status_view() == SpanStatus::Completed <==> span.end is Some,
        span.status_view() == SpanStatus::Active <==> span.end is None,
        span.duration_view() is Some <==> span.end is Some,
{
}

} // verus!
