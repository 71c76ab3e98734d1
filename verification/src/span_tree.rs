//! The forest of spans that the rows of the table `trace_event` describe:
//! each span with the events within it and, nested, the spans under it.

use crate::text::same_text;
use crate::trace_table::TraceEvent;
use crate::web::{row_view, some_text, ApiClient, EventInfo, RowView, SpanInfo};
use vstd::prelude::*;

verus! {

/// An event, with its texts as sequences of characters.
pub struct EventView {
    pub name: Seq<char>,
    pub timestamp: i64,
    pub attributes: Option<Seq<char>>,
}

impl View for EventInfo {
    type V = EventView;

    open spec fn view(&self) -> EventView {
        EventView { name: self.name@, timestamp: self.timestamp, attributes: some_text(self.attributes) }
    }
}

/// A span with all that is within it, with its texts as sequences of
/// characters.
pub struct SpanView {
    pub span_id: i64,
    pub trace_id: i64,
    pub parent_id: Option<i64>,
    pub name: Seq<char>,
    pub start_timestamp: i64,
    pub end_timestamp: Option<i64>,
    pub thread_id: i64,
    pub kind: Option<Seq<char>>,
    pub location: Option<Seq<char>>,
    pub attributes: Option<Seq<char>>,
    pub children: Seq<SpanView>,
    pub events: Seq<EventView>,
}

/// The events of a list, each by its view.
pub open spec fn event_views(v: Seq<EventInfo>) -> Seq<EventView> {
    Seq::new(v.len(), |i: int| v[i]@)
}

impl View for SpanInfo {
    type V = SpanView;

    open spec fn view(&self) -> SpanView
        decreases self,
    {
        SpanView {
            span_id: self.span_id,
            trace_id: self.trace_id,
            parent_id: self.parent_id,
            name: self.name@,
            start_timestamp: self.start_timestamp,
            end_timestamp: self.end_timestamp,
            thread_id: self.thread_id,
            kind: some_text(self.kind),
            location: some_text(self.location),
            attributes: some_text(self.attributes),
            children: Seq::new(
                self.children@.len(),
                |i: int|
                    if 0 <= i < self.children@.len() {
                        self.children@[i].view()
                    } else {
                        bare(0)
                    },
            ),
            events: event_views(self.events@),
        }
    }
}

/// A span of the given identifier and nothing else.
pub open spec fn bare(id: i64) -> SpanView {
    SpanView {
        span_id: id,
        trace_id: 0,
        parent_id: None,
        name: Seq::empty(),
        start_timestamp: 0,
        end_timestamp: None,
        thread_id: 0,
        kind: None,
        location: None,
        attributes: None,
        children: Seq::empty(),
        events: Seq::empty(),
    }
}

/// The spans of a list, each by its view.
pub open spec fn span_views(v: Seq<SpanInfo>) -> Seq<SpanView> {
    Seq::new(v.len(), |i: int| v[i]@)
}

/// The rows of a list, each by its view.
pub open spec fn row_views(v: Seq<TraceEvent>) -> Seq<RowView> {
    Seq::new(v.len(), |i: int| row_view(v[i]))
}

/// The span that a `span_start` row describes: not ended, and with nothing
/// within it.
pub open spec fn started(row: RowView) -> SpanView {
    SpanView {
        span_id: row.span_id,
        trace_id: row.trace_id,
        parent_id: row.parent_id,
        name: row.name,
        start_timestamp: row.timestamp,
        end_timestamp: None,
        thread_id: row.thread_id,
        kind: row.kind,
        location: row.location,
        attributes: row.attributes,
        children: Seq::empty(),
        events: Seq::empty(),
    }
}

/// The span as it is once it has ended at the given time.
pub open spec fn ended(span: SpanView, at: i64) -> SpanView {
    SpanView {
        span_id: span.span_id,
        trace_id: span.trace_id,
        parent_id: span.parent_id,
        name: span.name,
        start_timestamp: span.start_timestamp,
        end_timestamp: Some(at),
        thread_id: span.thread_id,
        kind: span.kind,
        location: span.location,
        attributes: span.attributes,
        children: span.children,
        events: span.events,
    }
}

/// The span with one more event within it.
pub open spec fn with_event(span: SpanView, event: EventView) -> SpanView {
    SpanView {
        span_id: span.span_id,
        trace_id: span.trace_id,
        parent_id: span.parent_id,
        name: span.name,
        start_timestamp: span.start_timestamp,
        end_timestamp: span.end_timestamp,
        thread_id: span.thread_id,
        kind: span.kind,
        location: span.location,
        attributes: span.attributes,
        children: span.children,
        events: span.events.push(event),
    }
}

/// The span with the given spans under it.
pub open spec fn with_children(span: SpanView, children: Seq<SpanView>) -> SpanView {
    SpanView {
        span_id: span.span_id,
        trace_id: span.trace_id,
        parent_id: span.parent_id,
        name: span.name,
        start_timestamp: span.start_timestamp,
        end_timestamp: span.end_timestamp,
        thread_id: span.thread_id,
        kind: span.kind,
        location: span.location,
        attributes: span.attributes,
        children,
        events: span.events,
    }
}

/// The first position from `from` on of a span of the given identifier.
pub open spec fn slot(spans: Seq<SpanView>, id: i64, from: int) -> Option<int>
    decreases spans.len() - from,
{
    if from < 0 || from >= spans.len() {
        None
    } else if spans[from].span_id == id {
        Some(from)
    } else {
        slot(spans, id, from + 1)
    }
}

/// The spans after one more row: a `span_start` row makes its span, in the
/// place of an earlier span of the same identifier if there is one; a
/// `span_end` row ends its span and an `event` row adds an event to it, if
/// the span has started; any other row changes nothing.
pub open spec fn absorbed(spans: Seq<SpanView>, row: RowView) -> Seq<SpanView> {
    let at = slot(spans, row.span_id, 0);
    if row.record_type == "span_start"@ {
        match at {
            Some(i) => spans.update(i, started(row)),
            None => spans.push(started(row)),
        }
    } else if row.record_type == "span_end"@ {
        match at {
            Some(i) => spans.update(i, ended(spans[i], row.timestamp)),
            None => spans,
        }
    } else if row.record_type == "event"@ {
        match at {
            Some(i) => spans.update(
                i,
                with_event(
                    spans[i],
                    EventView { name: row.name, timestamp: row.timestamp, attributes: row.event_attributes },
                ),
            ),
            None => spans,
        }
    } else {
        spans
    }
}

/// The spans that the first `upto` rows describe, in the order in which
/// they first started, each without the spans under it.
pub open spec fn arena(rows: Seq<RowView>, upto: int) -> Seq<SpanView>
    decreases upto,
{
    if upto <= 0 || upto > rows.len() {
        Seq::empty()
    } else {
        absorbed(arena(rows, upto - 1), rows[upto - 1])
    }
}

fn copy_text(s: &Option<String>) -> (r: Option<String>)
    ensures
        r == *s,
{
    match s {
        Some(t) => Some(t.clone()),
        None => None,
    }
}

fn find_slot(spans: &Vec<SpanInfo>, id: i64) -> (r: Option<usize>)
    ensures
        match r {
            Some(i) => slot(span_views(spans@), id, 0) == Some(i as int) && i < spans@.len(),
            None => slot(span_views(spans@), id, 0) is None,
        },
{
    let mut i: usize = 0;
    while i < spans.len()
        invariant
            i <= spans@.len(),
            slot(span_views(spans@), id, 0) == slot(span_views(spans@), id, i as int),
        decreases spans@.len() - i,
    {
        proof {
            reveal_with_fuel(<SpanInfo as View>::view, 2);
            assert(span_views(spans@)[i as int].span_id == spans@[i as int].span_id);
        }
        if spans[i].span_id == id {
            return Some(i);
        }
        i += 1;
    }
    None
}

fn end_span(span: &mut SpanInfo, at: i64)
    ensures
        final(span)@ == ended(old(span)@, at),
{
    span.end_timestamp = Some(at);
    proof {
        reveal_with_fuel(<SpanInfo as View>::view, 2);
        assert(span@.children =~= old(span)@.children);
    }
}

fn add_event(span: &mut SpanInfo, event: EventInfo)
    ensures
        final(span)@ == with_event(old(span)@, event@),
{
    span.events.push(event);
    proof {
        reveal_with_fuel(<SpanInfo as View>::view, 2);
        assert(span@.children =~= old(span)@.children);
        assert(span@.events =~= old(span)@.events.push(event@));
    }
}

/// The spans that the rows describe, in the order in which they first
/// started, each without the spans under it.
pub fn collect_spans(events: &Vec<TraceEvent>) -> (spans: Vec<SpanInfo>)
    ensures
        span_views(spans@) == arena(row_views(events@), events@.len() as int),
{
    let ghost rows = row_views(events@);
    let mut spans: Vec<SpanInfo> = Vec::new();
    let mut n: usize = 0;
    proof {
        assert(span_views(spans@) =~= arena(rows, 0));
    }
    while n < events.len()
        invariant
            n <= events@.len(),
            rows == row_views(events@),
            span_views(spans@) == arena(rows, n as int),
        decreases events@.len() - n,
    {
        let event = &events[n];
        let ghost before = span_views(spans@);
        let ghost row = rows[n as int];
        proof {
            assert(row == row_view(*event));
            reveal_strlit("span_start");
            reveal_strlit("span_end");
            reveal_strlit("event");
        }
        let at = find_slot(&spans, event.span_id);
        if same_text(event.record_type.as_str(), "span_start") {
            let span = SpanInfo {
                span_id: event.span_id,
                trace_id: event.trace_id,
                parent_id: event.parent_id,
                name: event.name.clone(),
                start_timestamp: event.timestamp,
                end_timestamp: None,
                thread_id: event.thread_id,
                kind: copy_text(&event.kind),
                location: copy_text(&event.location),
                attributes: copy_text(&event.attributes),
                children: Vec::new(),
                events: Vec::new(),
            };
            proof {
                reveal_with_fuel(<SpanInfo as View>::view, 2);
                assert(span@.children =~= Seq::<SpanView>::empty());
                assert(span@.events =~= Seq::<EventView>::empty());
                assert(span@ == started(row));
            }
            match at {
                Some(i) => {
                    spans.set(i, span);
                    proof {
                        assert(span_views(spans@) =~= before.update(i as int, started(row)));
                    }
                },
                None => {
                    spans.push(span);
                    proof {
                        assert(span_views(spans@) =~= before.push(started(row)));
                    }
                },
            }
        } else if same_text(event.record_type.as_str(), "span_end") {
            match at {
                Some(i) => {
                    end_span(&mut spans[i], event.timestamp);
                    proof {
                        assert(span_views(spans@) =~= before.update(
                            i as int,
                            ended(before[i as int], event.timestamp),
                        ));
                    }
                },
                None => {},
            }
        } else if same_text(event.record_type.as_str(), "event") {
            match at {
                Some(i) => {
                    let added = EventInfo {
                        name: event.name.clone(),
                        timestamp: event.timestamp,
                        attributes: copy_text(&event.event_attributes),
                    };
                    let ghost view = added@;
                    add_event(&mut spans[i], added);
                    proof {
                        assert(span_views(spans@) =~= before.update(i as int, with_event(before[i as int], view)));
                    }
                },
                None => {},
            }
        }
        n += 1;
    }
    spans
}

/// The position of the span that the span at position `i` names as its
/// parent, if it names one and that span is among the spans.
pub open spec fn parent_slot(spans: Seq<SpanView>, i: int) -> Option<int> {
    match spans[i].parent_id {
        Some(p) => if p == -1 {
            None
        } else {
            slot(spans, p, 0)
        },
        None => None,
    }
}

/// How far below the top the span at position `i` stands, if following the
/// parents from it reaches, within `fuel` steps, a span without a parent
/// among the spans.
pub open spec fn level(spans: Seq<SpanView>, i: int, fuel: nat) -> Option<nat>
    decreases fuel,
{
    match parent_slot(spans, i) {
        None => Some(0),
        Some(j) => if fuel == 0 {
            None
        } else {
            match level(spans, j, (fuel - 1) as nat) {
                Some(l) => Some(l + 1),
                None => None,
            }
        },
    }
}

/// The position of the span under which the span at position `c` hangs:
/// that of its parent, unless following the parents from it never comes
/// to an end.
pub open spec fn hangs_under(spans: Seq<SpanView>, c: int) -> Option<int> {
    if level(spans, c, spans.len()) is Some {
        parent_slot(spans, c)
    } else {
        None
    }
}

/// The positions below `upto`, in rising order, of the spans that hang
/// under the span at position `i`.
pub open spec fn kids(spans: Seq<SpanView>, i: int, upto: int) -> Seq<int>
    decreases upto,
{
    if upto <= 0 {
        Seq::empty()
    } else if hangs_under(spans, upto - 1) == Some(i) {
        kids(spans, i, upto - 1).push(upto - 1)
    } else {
        kids(spans, i, upto - 1)
    }
}

/// The span at position `i` with the spans that hang under it, each with
/// those that hang under it in turn, down to `fuel` levels.
pub open spec fn nest(spans: Seq<SpanView>, i: int, fuel: nat) -> SpanView
    decreases fuel,
{
    with_children(
        spans[i],
        if fuel == 0 {
            Seq::empty()
        } else {
            Seq::new(
                kids(spans, i, spans.len() as int).len(),
                |k: int| nest(spans, kids(spans, i, spans.len() as int)[k], (fuel - 1) as nat),
            )
        },
    )
}

/// Whether the span names no parent.
pub open spec fn is_root(span: SpanView) -> bool {
    span.parent_id is None || span.parent_id == Some(-1i64)
}

/// The positions below `upto`, in rising order, of the spans that name no
/// parent.
pub open spec fn roots(spans: Seq<SpanView>, upto: int) -> Seq<int>
    decreases upto,
{
    if upto <= 0 {
        Seq::empty()
    } else if is_root(spans[upto - 1]) {
        roots(spans, upto - 1).push(upto - 1)
    } else {
        roots(spans, upto - 1)
    }
}

/// The positions below `upto`, in rising order, of the spans that name a
/// parent and yet hang under none.
pub open spec fn strays(spans: Seq<SpanView>, upto: int) -> Seq<int>
    decreases upto,
{
    if upto <= 0 {
        Seq::empty()
    } else if !is_root(spans[upto - 1]) && hangs_under(spans, upto - 1) is None {
        strays(spans, upto - 1).push(upto - 1)
    } else {
        strays(spans, upto - 1)
    }
}

/// The positions in `order` and `x`, with `x` behind the last position
/// whose span did not start later than the span at `x`.
pub open spec fn placed(spans: Seq<SpanView>, order: Seq<int>, x: int) -> Seq<int>
    decreases order.len(),
{
    if order.len() == 0 || spans[order.last()].start_timestamp <= spans[x].start_timestamp {
        order.push(x)
    } else {
        placed(spans, order.drop_last(), x).push(order.last())
    }
}

/// The first `upto` positions of `order`, sorted by the start of their
/// spans; spans that started at the same time keep their order.
pub open spec fn by_start(spans: Seq<SpanView>, order: Seq<int>, upto: int) -> Seq<int>
    decreases upto,
{
    if upto <= 0 || upto > order.len() {
        Seq::empty()
    } else {
        placed(spans, by_start(spans, order, upto - 1), order[upto - 1])
    }
}

/// The positions of the spans at the top of the forest: those that name no
/// parent, then those that hang under none, all sorted by their start.
pub open spec fn top_order(spans: Seq<SpanView>) -> Seq<int> {
    let tops = roots(spans, spans.len() as int) + strays(spans, spans.len() as int);
    by_start(spans, tops, tops.len() as int)
}

/// The forest of the spans: the spans at the top, each with all that hangs
/// under it.
pub open spec fn forest(spans: Seq<SpanView>) -> Seq<SpanView> {
    Seq::new(top_order(spans).len(), |k: int| nest(spans, top_order(spans)[k], spans.len()))
}

/// A position, if there is one, as a number.
pub open spec fn as_int(o: Option<usize>) -> Option<int> {
    match o {
        Some(i) => Some(i as int),
        None => None,
    }
}

/// The positions of a list as numbers.
pub open spec fn ints(v: Seq<usize>) -> Seq<int> {
    Seq::new(v.len(), |k: int| v[k] as int)
}

fn parents_of(spans: &Vec<SpanInfo>) -> (r: Vec<Option<usize>>)
    ensures
        r@.len() == spans@.len(),
        forall|i: int| 0 <= i < r@.len() ==> as_int(#[trigger] r@[i]) == parent_slot(span_views(spans@), i),
        forall|i: int| 0 <= i < r@.len() && r@[i] is Some ==> (#[trigger] r@[i])->0 < spans@.len(),
{
    let mut r: Vec<Option<usize>> = Vec::new();
    let mut i: usize = 0;
    while i < spans.len()
        invariant
            i <= spans@.len(),
            r@.len() == i,
            forall|k: int| 0 <= k < i ==> as_int(#[trigger] r@[k]) == parent_slot(span_views(spans@), k),
            forall|k: int| 0 <= k < i && r@[k] is Some ==> (#[trigger] r@[k])->0 < spans@.len(),
        decreases spans@.len() - i,
    {
        proof {
            assert(span_views(spans@)[i as int].parent_id == spans@[i as int].parent_id);
        }
        let parent = match spans[i].parent_id {
            Some(p) => {
                if p == -1 {
                    None
                } else {
                    find_slot(spans, p)
                }
            },
            None => None,
        };
        r.push(parent);
        i += 1;
    }
    r
}

fn reaches_top(spans: &Vec<SpanInfo>, parents: &Vec<Option<usize>>, i: usize) -> (r: bool)
    requires
        i < spans@.len(),
        parents@.len() == spans@.len(),
        forall|k: int|
            0 <= k < parents@.len() ==> as_int(#[trigger] parents@[k]) == parent_slot(span_views(spans@), k),
        forall|k: int| 0 <= k < parents@.len() && parents@[k] is Some ==> (#[trigger] parents@[k])->0 < spans@.len(),
    ensures
        r == level(span_views(spans@), i as int, spans@.len()) is Some,
{
    let ghost views = span_views(spans@);
    let mut j: usize = i;
    let mut left: usize = spans.len();
    loop
        invariant
            j < spans@.len(),
            views == span_views(spans@),
            parents@.len() == spans@.len(),
            forall|k: int| 0 <= k < parents@.len() ==> as_int(#[trigger] parents@[k]) == parent_slot(views, k),
            forall|k: int|
                0 <= k < parents@.len() && parents@[k] is Some ==> (#[trigger] parents@[k])->0 < spans@.len(),
            level(views, i as int, spans@.len()) is Some <==> level(views, j as int, left as nat) is Some,
        decreases left,
    {
        proof {
            assert(as_int(parents@[j as int]) == parent_slot(views, j as int));
        }
        match parents[j] {
            None => {
                return true;
            },
            Some(p) => {
                if left == 0 {
                    return false;
                }
                j = p;
                left -= 1;
            },
        }
    }
}

fn hangs_of(spans: &Vec<SpanInfo>) -> (r: Vec<Option<usize>>)
    ensures
        r@.len() == spans@.len(),
        forall|i: int| 0 <= i < r@.len() ==> as_int(#[trigger] r@[i]) == hangs_under(span_views(spans@), i),
{
    let parents = parents_of(spans);
    let mut r: Vec<Option<usize>> = Vec::new();
    let mut i: usize = 0;
    while i < spans.len()
        invariant
            i <= spans@.len(),
            r@.len() == i,
            parents@.len() == spans@.len(),
            forall|k: int|
                0 <= k < parents@.len() ==> as_int(#[trigger] parents@[k]) == parent_slot(span_views(spans@), k),
            forall|k: int|
                0 <= k < parents@.len() && parents@[k] is Some ==> (#[trigger] parents@[k])->0 < spans@.len(),
            forall|k: int| 0 <= k < i ==> as_int(#[trigger] r@[k]) == hangs_under(span_views(spans@), k),
        decreases spans@.len() - i,
    {
        let under = if reaches_top(spans, &parents, i) {
            proof {
                assert(as_int(parents@[i as int]) == parent_slot(span_views(spans@), i as int));
            }
            parents[i]
        } else {
            None
        };
        r.push(under);
        i += 1;
    }
    r
}

fn copy_events(events: &Vec<EventInfo>) -> (r: Vec<EventInfo>)
    ensures
        event_views(r@) == event_views(events@),
{
    let r = events.clone();
    proof {
        assert(event_views(r@) =~= event_views(events@));
    }
    r
}

fn nest_span(spans: &Vec<SpanInfo>, hangs: &Vec<Option<usize>>, i: usize, fuel: usize) -> (r: SpanInfo)
    requires
        i < spans@.len(),
        hangs@.len() == spans@.len(),
        forall|c: int| 0 <= c < hangs@.len() ==> as_int(#[trigger] hangs@[c]) == hangs_under(span_views(spans@), c),
    ensures
        r@ == nest(span_views(spans@), i as int, fuel as nat),
    decreases fuel,
{
    let ghost views = span_views(spans@);
    let mut children: Vec<SpanInfo> = Vec::new();
    if fuel > 0 {
        let mut c: usize = 0;
        while c < spans.len()
            invariant
                c <= spans@.len(),
                i < spans@.len(),
                fuel > 0,
                views == span_views(spans@),
                hangs@.len() == spans@.len(),
                forall|k: int| 0 <= k < hangs@.len() ==> as_int(#[trigger] hangs@[k]) == hangs_under(views, k),
                children@.len() == kids(views, i as int, c as int).len(),
                forall|k: int|
                    0 <= k < children@.len() ==> (#[trigger] children@[k])@ == nest(
                        views,
                        kids(views, i as int, c as int)[k],
                        (fuel - 1) as nat,
                    ),
            decreases spans@.len() - c,
        {
            proof {
                assert(as_int(hangs@[c as int]) == hangs_under(views, c as int));
            }
            let under = match hangs[c] {
                Some(p) => p == i,
                None => false,
            };
            if under {
                let child = nest_span(spans, hangs, c, fuel - 1);
                children.push(child);
            }
            c += 1;
        }
    }
    let span = &spans[i];
    let r = SpanInfo {
        span_id: span.span_id,
        trace_id: span.trace_id,
        parent_id: span.parent_id,
        name: span.name.clone(),
        start_timestamp: span.start_timestamp,
        end_timestamp: span.end_timestamp,
        thread_id: span.thread_id,
        kind: copy_text(&span.kind),
        location: copy_text(&span.location),
        attributes: copy_text(&span.attributes),
        children,
        events: copy_events(&span.events),
    };
    proof {
        reveal_with_fuel(<SpanInfo as View>::view, 2);
        let want = nest(views, i as int, fuel as nat);
        assert(views[i as int] == spans@[i as int]@);
        assert(r@.children =~= want.children);
        assert(r@ == want);
    }
    r
}

fn place(spans: &Vec<SpanInfo>, order: &mut Vec<usize>, x: usize)
    requires
        x < spans@.len(),
        forall|k: int| 0 <= k < old(order)@.len() ==> #[trigger] old(order)@[k] < spans@.len(),
    ensures
        ints(final(order)@) == placed(span_views(spans@), ints(old(order)@), x as int),
        forall|k: int| 0 <= k < final(order)@.len() ==> #[trigger] final(order)@[k] < spans@.len(),
{
    let ghost views = span_views(spans@);
    let ghost before = ints(order@);
    let mut p: usize = order.len();
    proof {
        assert(before.take(p as int) =~= before);
        assert(placed(views, before, x as int) =~= placed(views, before.take(p as int), x as int) + before.skip(
            p as int,
        ));
    }
    loop
        invariant
            p <= order@.len(),
            x < spans@.len(),
            views == span_views(spans@),
            before == ints(order@),
            *order == *old(order),
            forall|k: int| 0 <= k < order@.len() ==> #[trigger] order@[k] < spans@.len(),
            placed(views, before, x as int) == placed(views, before.take(p as int), x as int) + before.skip(
                p as int,
            ),
        ensures
            p <= order@.len(),
            *order == *old(order),
            before == ints(order@),
            placed(views, before, x as int) == before.take(p as int).push(x as int) + before.skip(p as int),
        decreases p,
    {
        let ghost head = before.take(p as int);
        if p == 0 {
            break;
        }
        proof {
            assert(head.last() == order@[p - 1] as int);
            assert(views[order@[p - 1] as int].start_timestamp == spans@[order@[p - 1] as int].start_timestamp);
            assert(views[x as int].start_timestamp == spans@[x as int].start_timestamp);
        }
        if spans[order[p - 1]].start_timestamp <= spans[x].start_timestamp {
            break;
        }
        proof {
            assert(head.drop_last() =~= before.take(p - 1));
            assert(placed(views, head, x as int) == placed(views, before.take(p - 1), x as int).push(head.last()));
            assert(placed(views, before.take(p - 1), x as int).push(head.last()) + before.skip(p as int)
                =~= placed(views, before.take(p - 1), x as int) + before.skip(p - 1));
        }
        p -= 1;
    }
    order.insert(p, x);
    proof {
        assert(ints(order@) =~= before.take(p as int).push(x as int) + before.skip(p as int));
    }
}

impl ApiClient {
    /// The forest of spans that the rows describe. A span hangs under the
    /// span that it names as its parent; a span that names none, or whose
    /// parent is not among the spans, stands at the top. The spans at the
    /// top come sorted by their start, the spans under a span in the order
    /// in which they first started.
    pub fn get_span_tree(&self, events: &Vec<TraceEvent>) -> (r: Vec<SpanInfo>)
        ensures
            span_views(r@) == forest(arena(row_views(events@), events@.len() as int)),
    {
        let spans = collect_spans(events);
        let ghost views = span_views(spans@);
        let hangs = hangs_of(&spans);
        let n: usize = spans.len();

        let mut tops: Vec<usize> = Vec::new();
        let mut i: usize = 0;
        while i < n
            invariant
                i <= n,
                n == spans@.len(),
                views == span_views(spans@),
                ints(tops@) == roots(views, i as int),
                forall|k: int| 0 <= k < tops@.len() ==> #[trigger] tops@[k] < n,
            decreases n - i,
        {
            proof {
                assert(views[i as int].parent_id == spans@[i as int].parent_id);
            }
            let root = match spans[i].parent_id {
                Some(p) => p == -1,
                None => true,
            };
            if root {
                tops.push(i);
                proof {
                    assert(ints(tops@) =~= roots(views, i as int).push(i as int));
                }
            }
            i += 1;
        }
        let ghost first = ints(tops@);
        let mut i: usize = 0;
        while i < n
            invariant
                i <= n,
                n == spans@.len(),
                views == span_views(spans@),
                hangs@.len() == n,
                forall|c: int| 0 <= c < hangs@.len() ==> as_int(#[trigger] hangs@[c]) == hangs_under(views, c),
                first == roots(views, n as int),
                ints(tops@) == first + strays(views, i as int),
                forall|k: int| 0 <= k < tops@.len() ==> #[trigger] tops@[k] < n,
            decreases n - i,
        {
            proof {
                assert(views[i as int].parent_id == spans@[i as int].parent_id);
                assert(as_int(hangs@[i as int]) == hangs_under(views, i as int));
            }
            let root = match spans[i].parent_id {
                Some(p) => p == -1,
                None => true,
            };
            if !root && hangs[i].is_none() {
                let ghost held = ints(tops@);
                tops.push(i);
                proof {
                    assert(ints(tops@) =~= held.push(i as int));
                    assert(held.push(i as int) =~= first + strays(views, i as int).push(i as int));
                }
            }
            i += 1;
        }

        let ghost all = ints(tops@);
        let mut order: Vec<usize> = Vec::new();
        let mut t: usize = 0;
        proof {
            assert(ints(order@) =~= by_start(views, all, 0));
        }
        while t < tops.len()
            invariant
                t <= tops@.len(),
                n == spans@.len(),
                views == span_views(spans@),
                all == ints(tops@),
                forall|k: int| 0 <= k < tops@.len() ==> #[trigger] tops@[k] < n,
                forall|k: int| 0 <= k < order@.len() ==> #[trigger] order@[k] < n,
                ints(order@) == by_start(views, all, t as int),
            decreases tops@.len() - t,
        {
            proof {
                assert(all[t as int] == tops@[t as int] as int);
            }
            place(&spans, &mut order, tops[t]);
            t += 1;
        }

        let mut out: Vec<SpanInfo> = Vec::new();
        let mut k: usize = 0;
        while k < order.len()
            invariant
                k <= order@.len(),
                n == spans@.len(),
                views == span_views(spans@),
                hangs@.len() == n,
                forall|c: int| 0 <= c < hangs@.len() ==> as_int(#[trigger] hangs@[c]) == hangs_under(views, c),
                forall|j: int| 0 <= j < order@.len() ==> #[trigger] order@[j] < n,
                ints(order@) == top_order(views),
                out@.len() == k,
                forall|j: int| 0 <= j < k ==> (#[trigger] out@[j])@ == nest(views, top_order(views)[j], n as nat),
            decreases order@.len() - k,
        {
            proof {
                assert(ints(order@)[k as int] == order@[k as int] as int);
            }
            out.push(nest_span(&spans, &hangs, order[k], n));
            k += 1;
        }
        proof {
            assert(span_views(out@) =~= forest(views));
        }
        out
    }
}

/// The start of the span at a position.
pub open spec fn start_of(spans: Seq<SpanView>, i: int) -> i64 {
    spans[i].start_timestamp
}

/// No span of the sequence of positions started later than a span behind it.
pub open spec fn sorted_by_start(spans: Seq<SpanView>, order: Seq<int>) -> bool {
    forall|a: int, b: int|
        0 <= a < b < order.len() ==> start_of(spans, #[trigger] order[a]) <= start_of(spans, #[trigger] order[b])
}

/// Placing a position into a sorted sequence leaves it sorted, with the
/// same positions and the new one.
pub proof fn lemma_placed(spans: Seq<SpanView>, order: Seq<int>, x: int)
    requires
        sorted_by_start(spans, order),
    ensures
        sorted_by_start(spans, placed(spans, order, x)),
        placed(spans, order, x).len() == order.len() + 1,
        placed(spans, order, x).to_multiset() == order.to_multiset().insert(x),
    decreases order.len(),
{
    broadcast use vstd::seq_lib::group_to_multiset_ensures;

    if order.len() == 0 || spans[order.last()].start_timestamp <= spans[x].start_timestamp {
        let now = order.push(x);
        assert forall|a: int, b: int| 0 <= a < b < now.len() implies start_of(spans, #[trigger] now[a])
            <= start_of(spans, #[trigger] now[b]) by {
            if b == order.len() {
                assert(now[a] == order[a]);
                if a < order.len() - 1 {
                    assert(start_of(spans, order[a]) <= start_of(spans, order[order.len() - 1]));
                }
            } else {
                assert(now[a] == order[a] && now[b] == order[b]);
            }
        }
    } else {
        let rest = order.drop_last();
        assert(sorted_by_start(spans, rest)) by {
            assert forall|a: int, b: int| 0 <= a < b < rest.len() implies start_of(spans, #[trigger] rest[a])
                <= start_of(spans, #[trigger] rest[b]) by {
                assert(rest[a] == order[a] && rest[b] == order[b]);
            }
        }
        lemma_placed(spans, rest, x);
        let inner = placed(spans, rest, x);
        let now = inner.push(order.last());
        assert(order =~= rest.push(order.last()));
        assert forall|a: int, b: int| 0 <= a < b < now.len() implies start_of(spans, #[trigger] now[a])
            <= start_of(spans, #[trigger] now[b]) by {
            if b == inner.len() {
                assert(now[a] == inner[a]);
                assert(inner.to_multiset().contains(inner[a]));
                if inner[a] != x {
                    assert(rest.to_multiset().contains(inner[a]));
                    let m = choose|m: int| 0 <= m < rest.len() && rest[m] == inner[a];
                    assert(order[m] == inner[a]);
                    if m < order.len() - 1 {
                        assert(start_of(spans, order[m]) <= start_of(spans, order[order.len() - 1]));
                    }
                }
            } else {
                assert(now[a] == inner[a] && now[b] == inner[b]);
            }
        }
    }
}

/// The spans at the top of the forest come sorted by their start, and they
/// are the spans that name no parent and those that hang under none.
pub proof fn law_tops_sorted(spans: Seq<SpanView>, upto: int)
    requires
        0 <= upto <= (roots(spans, spans.len() as int) + strays(spans, spans.len() as int)).len(),
    ensures
        sorted_by_start(
            spans,
            by_start(spans, roots(spans, spans.len() as int) + strays(spans, spans.len() as int), upto),
        ),
        by_start(
            spans,
            roots(spans, spans.len() as int) + strays(spans, spans.len() as int),
            upto,
        ).to_multiset() == (roots(spans, spans.len() as int) + strays(spans, spans.len() as int)).take(
            upto,
        ).to_multiset(),
    decreases upto,
{
    broadcast use vstd::seq_lib::group_to_multiset_ensures;

    let tops = roots(spans, spans.len() as int) + strays(spans, spans.len() as int);
    if upto > 0 {
        law_tops_sorted(spans, upto - 1);
        lemma_placed(spans, by_start(spans, tops, upto - 1), tops[upto - 1]);
        assert(tops.take(upto) =~= tops.take(upto - 1).push(tops[upto - 1]));
    } else {
        assert(tops.take(0) =~= Seq::<int>::empty());
    }
}

/// A level that is reached within some steps is reached within more, and
/// is no greater than the steps.
pub proof fn lemma_level_steady(spans: Seq<SpanView>, i: int, fuel: nat, more: nat)
    requires
        level(spans, i, fuel) is Some,
        fuel <= more,
    ensures
        level(spans, i, more) == level(spans, i, fuel),
        level(spans, i, fuel)->0 <= fuel,
    decreases fuel,
{
    match parent_slot(spans, i) {
        None => {},
        Some(j) => {
            lemma_level_steady(spans, j, (fuel - 1) as nat, (more - 1) as nat);
        },
    }
}

/// A span hangs one level below the span it hangs under, and no span
/// stands as deep as there are spans: the forest holds every span that
/// hangs under another, however deep.
pub proof fn law_levels(spans: Seq<SpanView>, c: int)
    requires
        hangs_under(spans, c) is Some,
    ensures
        level(spans, hangs_under(spans, c)->0, spans.len()) is Some,
        level(spans, c, spans.len()) == Some(level(spans, hangs_under(spans, c)->0, spans.len())->0 + 1),
        level(spans, hangs_under(spans, c)->0, spans.len())->0 < spans.len(),
{
    let n = spans.len();
    let p = hangs_under(spans, c)->0;
    assert(parent_slot(spans, c) == Some(p));
    assert(n > 0);
    assert(level(spans, p, (n - 1) as nat) is Some);
    lemma_level_steady(spans, p, (n - 1) as nat, n);
}

/// The spans under a span are exactly the spans that hang under it.
pub proof fn law_kids(spans: Seq<SpanView>, i: int, upto: int, c: int)
    ensures
        kids(spans, i, upto).contains(c) <==> 0 <= c < upto && hangs_under(spans, c) == Some(i),
    decreases upto,
{
    if upto > 0 {
        law_kids(spans, i, upto - 1, c);
        let before = kids(spans, i, upto - 1);
        if hangs_under(spans, upto - 1) == Some(i) {
            let now = before.push(upto - 1);
            if before.contains(c) {
                let k = choose|k: int| 0 <= k < before.len() && before[k] == c;
                assert(now[k] == c);
            }
            if c == upto - 1 {
                assert(now[before.len() as int] == c);
            }
            if now.contains(c) {
                let k = choose|k: int| 0 <= k < now.len() && now[k] == c;
                if k < before.len() {
                    assert(before[k] == c);
                }
            }
        }
    }
}

/// The spans at the top are exactly the spans that hang under none: a span
/// stands in the forest once, at the top or under the one span it hangs
/// under.
pub proof fn law_tops(spans: Seq<SpanView>, upto: int, c: int)
    requires
        0 <= upto <= spans.len(),
    ensures
        (roots(spans, upto) + strays(spans, upto)).contains(c) <==> 0 <= c < upto && hangs_under(spans, c)
            is None,
        roots(spans, upto).contains(c) <==> 0 <= c < upto && is_root(spans[c]),
        strays(spans, upto).contains(c) <==> 0 <= c < upto && !is_root(spans[c]) && hangs_under(spans, c)
            is None,
    decreases upto,
{
    if upto > 0 {
        law_tops(spans, upto - 1, c);
        let r0 = roots(spans, upto - 1);
        let s0 = strays(spans, upto - 1);
        let r1 = roots(spans, upto);
        let s1 = strays(spans, upto);
        assert(r1.contains(c) <==> r0.contains(c) || (c == upto - 1 && is_root(spans[c]))) by {
            if is_root(spans[upto - 1]) {
                if r0.contains(c) {
                    let k = choose|k: int| 0 <= k < r0.len() && r0[k] == c;
                    assert(r1[k] == c);
                }
                if c == upto - 1 {
                    assert(r1[r0.len() as int] == c);
                }
                if r1.contains(c) {
                    let k = choose|k: int| 0 <= k < r1.len() && r1[k] == c;
                    if k < r0.len() {
                        assert(r0[k] == c);
                    }
                }
            }
        }
        assert(s1.contains(c) <==> s0.contains(c) || (c == upto - 1 && !is_root(spans[c]) && hangs_under(
            spans,
            c,
        ) is None)) by {
            if !is_root(spans[upto - 1]) && hangs_under(spans, upto - 1) is None {
                if s0.contains(c) {
                    let k = choose|k: int| 0 <= k < s0.len() && s0[k] == c;
                    assert(s1[k] == c);
                }
                if c == upto - 1 {
                    assert(s1[s0.len() as int] == c);
                }
                if s1.contains(c) {
                    let k = choose|k: int| 0 <= k < s1.len() && s1[k] == c;
                    if k < s0.len() {
                        assert(s0[k] == c);
                    }
                }
            }
        }
    }
    let r = roots(spans, upto);
    let t = strays(spans, upto);
    assert((r + t).contains(c) <==> r.contains(c) || t.contains(c)) by {
        if r.contains(c) {
            let k = choose|k: int| 0 <= k < r.len() && r[k] == c;
            assert((r + t)[k] == c);
        }
        if t.contains(c) {
            let k = choose|k: int| 0 <= k < t.len() && t[k] == c;
            assert((r + t)[r.len() + k] == c);
        }
        if (r + t).contains(c) {
            let k = choose|k: int| 0 <= k < (r + t).len() && (r + t)[k] == c;
            if k < r.len() {
                assert(r[k] == c);
            } else {
                assert(t[k - r.len()] == c);
            }
        }
    }
    if 0 <= c < upto && is_root(spans[c]) {
        assert(parent_slot(spans, c) is None);
    }
}

} // verus!
