//! The table `trace_event`: the rows that spans and their events leave in a
//! bounded buffer.

use crate::trace::{
    location_text, next_id, opt_str_text, opt_text, Attribute, Event, Location, Span, SpanIds, Timestamp,
    TraceError,
};
use std::collections::VecDeque;
use vstd::prelude::*;

verus! {

/// One row of the table `trace_event`.
#[derive(Debug, PartialEq, Eq)]
pub struct TraceEvent {
    /// `span_start`, `span_end` or `event`.
    pub record_type: String,
    pub trace_id: i64,
    pub span_id: i64,
    /// Absent for a root span.
    pub parent_id: Option<i64>,
    /// The name of the span, or of the event.
    pub name: String,
    /// Nanoseconds since the UNIX epoch.
    pub timestamp: i64,
    pub thread_id: i64,
    pub kind: Option<String>,
    pub location: Option<String>,
    /// JSON, on a `span_start` row.
    pub attributes: Option<String>,
    /// JSON, on an `event` row.
    pub event_attributes: Option<String>,
}

impl Clone for TraceEvent {
    fn clone(&self) -> (r: Self)
        ensures
            r == *self,
    {
        TraceEvent {
            record_type: self.record_type.clone(),
            trace_id: self.trace_id,
            span_id: self.span_id,
            parent_id: self.parent_id,
            name: self.name.clone(),
            timestamp: self.timestamp,
            thread_id: self.thread_id,
            kind: clone_text(&self.kind),
            location: clone_text(&self.location),
            attributes: clone_text(&self.attributes),
            event_attributes: clone_text(&self.event_attributes),
        }
    }
}

fn clone_text(s: &Option<String>) -> (r: Option<String>)
    ensures
        r == *s,
{
    match s {
        Some(t) => Some(t.clone()),
        None => None,
    }
}

/// An identifier as the table's 64-bit signed column holds it: the same bit
/// pattern.
pub open spec fn id_cell(id: u64) -> i64 {
    if id <= i64::MAX {
        id as i64
    } else {
        (id - 0x1_0000_0000_0000_0000) as i64
    }
}

/// A timestamp as the table's 64-bit signed column holds it: the count of
/// nanoseconds, or the largest count that fits.
pub open spec fn time_cell(t: Timestamp) -> i64 {
    if t.0 <= i64::MAX {
        t.0 as i64
    } else {
        i64::MAX
    }
}

/// An identifier as the table holds it.
pub fn id_to_cell(id: u64) -> (r: i64)
    ensures
        r == id_cell(id),
{
    if id <= 9223372036854775807u64 {
        id as i64
    } else {
        let low: u64 = id - 9223372036854775808u64;
        (low as i64) + (-9223372036854775807i64 - 1)
    }
}

/// A timestamp as the table holds it.
pub fn time_to_cell(t: Timestamp) -> (r: i64)
    ensures
        r == time_cell(t),
{
    if t.0 <= 9223372036854775807u128 {
        t.0 as i64
    } else {
        9223372036854775807i64
    }
}

/// The location as the table holds it: the path of a location given by
/// path, nothing for a location known by number.
fn location_cell(loc: &Option<Location>) -> (r: Option<String>)
    ensures
        opt_text(r) == location_text(*loc),
{
    match loc {
        Some(Location::UnknownLocation(path)) => Some(path.clone()),
        _ => None,
    }
}

/// What a row says of the span it belongs to.
pub open spec fn row_of_span(row: TraceEvent, span: Span) -> bool {
    &&& row.trace_id == id_cell(span.trace_id)
    &&& row.span_id == id_cell(span.span_id)
    &&& row.parent_id == match span.parent_id {
        Some(p) => Some(id_cell(p)),
        None => None,
    }
    &&& row.thread_id == id_cell(span.thread_id)
    &&& opt_text(row.kind) == opt_text(span.kind)
    &&& opt_text(row.location) == location_text(span.loc)
}

/// The row that a span leaves when it starts; `attributes` is the JSON of
/// the attributes that it starts with.
pub fn span_start_row(span: &Span, attributes: Option<String>) -> (row: TraceEvent)
    ensures
        row.record_type@ == "span_start"@,
        row_of_span(row, *span),
        row.name@ == span.name@,
        row.timestamp == time_cell(span.start),
        row.attributes == attributes,
        row.event_attributes is None,
{
    TraceEvent {
        record_type: "span_start".to_owned(),
        trace_id: id_to_cell(span.trace_id),
        span_id: id_to_cell(span.span_id),
        parent_id: match span.parent_id {
            Some(p) => Some(id_to_cell(p)),
            None => None,
        },
        name: span.name.clone(),
        timestamp: time_to_cell(span.start),
        thread_id: id_to_cell(span.thread_id),
        kind: clone_text(&span.kind),
        location: location_cell(&span.loc),
        attributes,
        event_attributes: None,
    }
}

/// The row that a span leaves when it ends; none for a span that has not
/// ended.
pub fn span_end_row(span: &Span) -> (r: Option<TraceEvent>)
    ensures
        r is Some <==> span.end is Some,
        r matches Some(row) ==> {
            &&& row.record_type@ == "span_end"@
            &&& row_of_span(row, *span)
            &&& row.name@ == span.name@
            &&& row.timestamp == time_cell(span.end->0)
            &&& row.attributes is None
            &&& row.event_attributes is None
        },
{
    match span.end {
        None => None,
        Some(end) => Some(
            TraceEvent {
                record_type: "span_end".to_owned(),
                trace_id: id_to_cell(span.trace_id),
                span_id: id_to_cell(span.span_id),
                parent_id: match span.parent_id {
                    Some(p) => Some(id_to_cell(p)),
                    None => None,
                },
                name: span.name.clone(),
                timestamp: time_to_cell(end),
                thread_id: id_to_cell(span.thread_id),
                kind: clone_text(&span.kind),
                location: location_cell(&span.loc),
                attributes: None,
                event_attributes: None,
            },
        ),
    }
}

/// The row that an event of a span leaves; `event_attributes` is the JSON of
/// the event's attributes.
pub fn event_row(span: &Span, event: &Event, event_attributes: Option<String>) -> (row: TraceEvent)
    ensures
        row.record_type@ == "event"@,
        row_of_span(row, *span),
        row.name@ == event.name@,
        row.timestamp == time_cell(event.timestamp),
        row.attributes is None,
        row.event_attributes == event_attributes,
{
    TraceEvent {
        record_type: "event".to_owned(),
        trace_id: id_to_cell(span.trace_id),
        span_id: id_to_cell(span.span_id),
        parent_id: match span.parent_id {
            Some(p) => Some(id_to_cell(p)),
            None => None,
        },
        name: event.name.clone(),
        timestamp: time_to_cell(event.timestamp),
        thread_id: id_to_cell(span.thread_id),
        kind: clone_text(&span.kind),
        location: location_cell(&span.loc),
        attributes: None,
        event_attributes,
    }
}

/// The rows of a buffer of the given capacity after `row` arrived behind
/// `rows`: where the buffer is full, the oldest row makes room.
pub open spec fn pushed(rows: Seq<TraceEvent>, capacity: nat, row: TraceEvent) -> Seq<TraceEvent> {
    if capacity == 0 {
        rows
    } else if rows.len() < capacity {
        rows.push(row)
    } else {
        rows.subrange(1, rows.len() as int).push(row)
    }
}

/// The rows of a buffer of the given capacity after the rows of `more`
/// arrived behind `rows`, one after the other.
pub open spec fn pushed_all(rows: Seq<TraceEvent>, capacity: nat, more: Seq<TraceEvent>) -> Seq<TraceEvent>
    decreases more.len(),
{
    if more.len() == 0 {
        rows
    } else {
        pushed(pushed_all(rows, capacity, more.drop_last()), capacity, more.last())
    }
}

/// The latest `capacity` rows of `all`, in their order.
pub open spec fn latest(all: Seq<TraceEvent>, capacity: nat) -> Seq<TraceEvent> {
    if all.len() <= capacity {
        all
    } else {
        all.subrange(all.len() - capacity, all.len() as int)
    }
}

/// The oldest rows make room. A buffer that holds no more rows than its
/// capacity holds, after any rows arrived, the latest rows of all that it
/// held and that arrived, as many as its capacity allows and in the order
/// of their arrival: all of them while they fit.
pub proof fn law_latest_rows_stay(rows: Seq<TraceEvent>, capacity: nat, more: Seq<TraceEvent>)
    requires
        rows.len() <= capacity,
    ensures
        pushed_all(rows, capacity, more) == latest(rows + more, capacity),
        rows.len() + more.len() <= capacity ==> pushed_all(rows, capacity, more) == rows + more,
    decreases more.len(),
{
    if more.len() == 0 {
        assert(rows + more =~= rows);
    } else {
        let earlier = more.drop_last();
        let row = more.last();
        law_latest_rows_stay(rows, capacity, earlier);
        let held = rows + earlier;
        let all = rows + more;
        assert(all =~= held.push(row));
        assert(pushed(latest(held, capacity), capacity, row) =~= latest(all, capacity));
    }
}

/// A bounded buffer of rows, in the order of their arrival. A row that
/// arrives at a full buffer drives out the oldest.
#[derive(Debug, PartialEq, Eq)]
pub struct TraceBuffer {
    capacity: usize,
    rows: VecDeque<TraceEvent>,
}

impl TraceBuffer {
    /// The rows, oldest first.
    pub closed spec fn rows_view(&self) -> Seq<TraceEvent> {
        self.rows@
    }

    /// The most rows that the buffer holds.
    pub closed spec fn capacity_view(&self) -> nat {
        self.capacity as nat
    }

    /// The buffer's invariant: it holds no more rows than its capacity.
    pub closed spec fn wf(&self) -> bool {
        self.rows@.len() <= self.capacity
    }

    /// An empty buffer of the given capacity.
    pub fn new(capacity: usize) -> (r: Self)
        ensures
            r.wf(),
            r.capacity_view() == capacity,
            r.rows_view().len() == 0,
    {
        TraceBuffer { capacity, rows: VecDeque::new() }
    }

    /// The most rows that the buffer holds.
    pub fn capacity(&self) -> (n: usize)
        ensures
            n == self.capacity_view(),
    {
        self.capacity
    }

    /// The number of rows in the buffer.
    pub fn len(&self) -> (n: usize)
        ensures
            n == self.rows_view().len(),
    {
        self.rows.len()
    }

    /// The row at position `i`, counted from the oldest.
    pub fn get(&self, i: usize) -> (r: Option<&TraceEvent>)
        ensures
            i < self.rows_view().len() ==> r == Some(&self.rows_view()[i as int]),
            i >= self.rows_view().len() ==> r is None,
    {
        if i < self.rows.len() {
            Some(&self.rows[i])
        } else {
            None
        }
    }

    /// The rows, oldest first.
    pub fn rows(&self) -> (r: Vec<TraceEvent>)
        ensures
            r@ == self.rows_view(),
    {
        let mut out: Vec<TraceEvent> = Vec::new();
        let mut i: usize = 0;
        while i < self.rows.len()
            invariant
                i <= self.rows@.len(),
                out@ == self.rows@.take(i as int),
            decreases self.rows@.len() - i,
        {
            out.push(self.rows[i].clone());
            proof {
                assert(out@ =~= self.rows@.take(i + 1));
            }
            i += 1;
        }
        proof {
            assert(self.rows@.take(self.rows@.len() as int) =~= self.rows@);
        }
        out
    }

    /// Takes in a row.
    pub fn push(&mut self, row: TraceEvent)
        requires
            old(self).wf(),
        ensures
            final(self).wf(),
            final(self).capacity_view() == old(self).capacity_view(),
            final(self).rows_view() == pushed(old(self).rows_view(), old(self).capacity_view(), row),
    {
        if self.capacity == 0 {
            return ;
        }
        if self.rows.len() >= self.capacity {
            let _ = self.rows.pop_front();
            proof {
                assert(self.rows@ =~= old(self).rows@.subrange(1, old(self).rows@.len() as int));
            }
        }
        self.rows.push_back(row);
    }

    /// Drops all rows.
    pub fn clear(&mut self)
        ensures
            final(self).wf(),
            final(self).capacity_view() == old(self).capacity_view(),
            final(self).rows_view().len() == 0,
    {
        self.rows.clear();
    }
}

/// Spans that leave their rows in a buffer: one `span_start` row when a span
/// is made, one `event` row for each event added, one `span_end` row when
/// the span ends.
#[derive(Debug)]
pub struct Tracer {
    pub ids: SpanIds,
    pub buffer: TraceBuffer,
}

impl Tracer {
    /// A tracer whose counters stand at 1 and whose buffer, of the given
    /// capacity, is empty.
    pub fn new(capacity: usize) -> (r: Self)
        ensures
            r.buffer.wf(),
            r.buffer.capacity_view() == capacity,
            r.buffer.rows_view().len() == 0,
            r.ids.next_trace_id == 1,
            r.ids.next_span_id == 1,
    {
        Tracer { ids: SpanIds::new(), buffer: TraceBuffer::new(capacity) }
    }

    /// Starts a new trace on thread `thread_id`, and leaves the root span's
    /// `span_start` row.
    pub fn root(&mut self, thread_id: u64, name: &str, kind: Option<&str>, location: Option<&str>) -> (span:
        Span)
        requires
            old(self).buffer.wf(),
        ensures
            final(self).buffer.wf(),
            final(self).buffer.capacity_view() == old(self).buffer.capacity_view(),
            span.trace_id == old(self).ids.next_trace_id,
            span.span_id == old(self).ids.next_span_id,
            final(self).ids.next_trace_id == next_id(old(self).ids.next_trace_id),
            final(self).ids.next_span_id == next_id(old(self).ids.next_span_id),
            span.parent_id is None,
            span.thread_id == thread_id,
            span.name@ == name@,
            span.end is None,
            opt_text(span.kind) == opt_str_text(kind),
            location_text(span.loc) == opt_str_text(location),
            span.attrs@.len() == 0,
            span.events@.len() == 0,
            exists|row: TraceEvent|
                #![trigger pushed(old(self).buffer.rows_view(), old(self).buffer.capacity_view(), row)]
                {
                    &&& final(self).buffer.rows_view() == pushed(
                        old(self).buffer.rows_view(),
                        old(self).buffer.capacity_view(),
                        row,
                    )
                    &&& row.record_type@ == "span_start"@
                    &&& row_of_span(row, span)
                    &&& row.name@ == name@
                    &&& row.timestamp == time_cell(span.start)
                    &&& row.attributes is None
                    &&& row.event_attributes is None
                },
    {
        let span = Span::new_root(&mut self.ids, thread_id, name, kind, location);
        let row = span_start_row(&span, None);
        self.buffer.push(row);
        span
    }

    /// Starts a span within the trace of `parent` on thread `thread_id`, and
    /// leaves its `span_start` row.
    pub fn child(
        &mut self,
        thread_id: u64,
        parent: &Span,
        name: &str,
        kind: Option<&str>,
        location: Option<&str>,
    ) -> (span: Span)
        requires
            old(self).buffer.wf(),
        ensures
            final(self).buffer.wf(),
            final(self).buffer.capacity_view() == old(self).buffer.capacity_view(),
            span.trace_id == parent.trace_id,
            span.span_id == old(self).ids.next_span_id,
            final(self).ids.next_span_id == next_id(old(self).ids.next_span_id),
            final(self).ids.next_trace_id == old(self).ids.next_trace_id,
            span.parent_id == Some(parent.span_id),
            span.thread_id == thread_id,
            span.name@ == name@,
            span.end is None,
            opt_text(span.kind) == opt_str_text(kind),
            location_text(span.loc) == opt_str_text(location),
            span.attrs@.len() == 0,
            span.events@.len() == 0,
            exists|row: TraceEvent|
                #![trigger pushed(old(self).buffer.rows_view(), old(self).buffer.capacity_view(), row)]
                {
                    &&& final(self).buffer.rows_view() == pushed(
                        old(self).buffer.rows_view(),
                        old(self).buffer.capacity_view(),
                        row,
                    )
                    &&& row.record_type@ == "span_start"@
                    &&& row_of_span(row, span)
                    &&& row.name@ == name@
                    &&& row.timestamp == time_cell(span.start)
                    &&& row.attributes is None
                    &&& row.event_attributes is None
                },
    {
        let span = Span::new_child(&mut self.ids, thread_id, parent, name, kind, location);
        let row = span_start_row(&span, None);
        self.buffer.push(row);
        span
    }

    /// Adds an event to an active span and leaves its `event` row, with
    /// `rendered` as the JSON of the event's attributes. A span that has
    /// ended refuses; it and the buffer stay as they are.
    pub fn add_event(
        &mut self,
        span: &mut Span,
        name: &str,
        attributes: Option<Vec<Attribute>>,
        rendered: Option<String>,
    ) -> (r: Result<(), TraceError>)
        requires
            old(self).buffer.wf(),
        ensures
            final(self).buffer.wf(),
            final(self).buffer.capacity_view() == old(self).buffer.capacity_view(),
            final(self).ids == old(self).ids,
            old(span).end is Some ==> {
                &&& r == Err::<(), TraceError>(TraceError::SpanAlreadyClosed)
                &&& *final(span) == *old(span)
                &&& final(self).buffer.rows_view() == old(self).buffer.rows_view()
            },
            old(span).end is None ==> {
                &&& r is Ok
                &&& final(span).same_identity(old(span))
                &&& final(span).end is None
                &&& final(span).attrs == old(span).attrs
                &&& final(span).events@.len() == old(span).events@.len() + 1
                &&& final(span).events@.drop_last() == old(span).events@
                &&& final(span).events@.last().name@ == name@
                &&& final(span).events@.last().location is None
                &&& final(span).events@.last().attributes@ == match attributes {
                    Some(list) => list@,
                    None => Seq::<Attribute>::empty(),
                }
                &&& exists|row: TraceEvent|
                    #![trigger pushed(old(self).buffer.rows_view(), old(self).buffer.capacity_view(), row)]
                    {
                        &&& final(self).buffer.rows_view() == pushed(
                            old(self).buffer.rows_view(),
                            old(self).buffer.capacity_view(),
                            row,
                        )
                        &&& row.record_type@ == "event"@
                        &&& row_of_span(row, *final(span))
                        &&& row.name@ == name@
                        &&& row.timestamp == time_cell(final(span).events@.last().timestamp)
                        &&& row.attributes is None
                        &&& row.event_attributes == rendered
                    }
            },
    {
        match span.add_event(name, attributes) {
            Err(e) => Err(e),
            Ok(_) => {
                let last: usize = span.events.len() - 1;
                let row = event_row(span, &span.events[last], rendered);
                self.buffer.push(row);
                Ok(())
            },
        }
    }

    /// Ends an active span now and leaves its `span_end` row. A span that
    /// has ended stays as it is, and so does the buffer.
    pub fn finish(&mut self, span: &mut Span)
        requires
            old(self).buffer.wf(),
        ensures
            final(self).buffer.wf(),
            final(self).buffer.capacity_view() == old(self).buffer.capacity_view(),
            final(self).ids == old(self).ids,
            final(span).end is Some,
            final(span).same_identity(old(span)),
            final(span).attrs == old(span).attrs,
            final(span).events == old(span).events,
            old(span).end is Some ==> *final(span) == *old(span) && final(self).buffer.rows_view() == old(
                self,
            ).buffer.rows_view(),
            old(span).end is None ==> exists|row: TraceEvent|
                #![trigger pushed(old(self).buffer.rows_view(), old(self).buffer.capacity_view(), row)]
                {
                    &&& final(self).buffer.rows_view() == pushed(
                        old(self).buffer.rows_view(),
                        old(self).buffer.capacity_view(),
                        row,
                    )
                    &&& row.record_type@ == "span_end"@
                    &&& row_of_span(row, *final(span))
                    &&& row.name@ == final(span).name@
                    &&& row.timestamp == time_cell(final(span).end->0)
                    &&& row.attributes is None
                    &&& row.event_attributes is None
                },
    {
        if span.is_ended() {
            return ;
        }
        span.finish();
        match span_end_row(span) {
            Some(row) => {
                self.buffer.push(row);
            },
            None => {},
        }
    }
}

} // verus!
