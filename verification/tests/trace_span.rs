use probing::convert::EleExt;
use probing::ele::{Ele, Real32, Real64};
use probing::trace::{attr, Location, Span, SpanIds, SpanStatus, Timestamp, TraceError};
use probing::trace_table::{TraceBuffer, TraceEvent, Tracer};

fn single(x: f32) -> Real32 {
    Real32 { bits: x.to_bits(), text: x.to_string() }
}

fn double(x: f64) -> Real64 {
    Real64 { bits: x.to_bits(), text: x.to_string() }
}

fn wait_for_the_clock() {
    let before = Timestamp::now();
    while Timestamp::now() == before {}
}

#[test]
fn test_new_root_span() {
    let mut ids = SpanIds::new();
    let span = Span::new_root(
        &mut ids,
        1,
        "process_incoming_request",
        Some("server_op"),
        Some("my_app::request_handler"),
    );

    assert_eq!(span.name, "process_incoming_request");
    assert_eq!(span.kind, Some("server_op".to_string()));
    assert_eq!(span.parent_id, None, "Root span has no parent");
    assert_eq!(span.status(), SpanStatus::Active, "New span should be active");
    match &span.loc {
        Some(Location::UnknownLocation(path)) => assert_eq!(path, "my_app::request_handler"),
        _ => panic!("Expected UnknownLocation with the specified code_path"),
    }

    assert!(span.trace_id > 0, "Trace ID should be positive");
    assert!(span.span_id > 0, "Span ID should be positive");
    assert!(!span.is_ended(), "New span should not be ended");
}

#[test]
fn test_new_child_span() {
    let mut ids = SpanIds::new();
    let parent = Span::new_root(&mut ids, 1, "root_operation", None, None);

    let child = Span::new_child(
        &mut ids,
        2,
        &parent,
        "database_query",
        Some("db_client"),
        Some("my_app::db_service::query"),
    );

    assert_eq!(child.name, "database_query");
    assert_eq!(child.parent_id, Some(parent.span_id), "Child's parent should be the root span");
    assert_eq!(child.status(), SpanStatus::Active);
    assert_eq!(
        child.trace_id, parent.trace_id,
        "Child span must share the same trace_id as its parent"
    );
    assert!(child.attrs.is_empty(), "Initial attributes should be empty");
    assert_eq!(child.thread_id, 2);
    assert_eq!(parent.thread_id, 1);

    assert_eq!(
        parent.status(),
        SpanStatus::Active,
        "Parent span status remains unchanged without manager"
    );
}

#[test]
fn test_end_span() {
    let mut ids = SpanIds::new();
    let mut span = Span::new_root(&mut ids, 1, "single_task", None, None);
    assert!(!span.is_ended(), "Span should not be ended initially");

    span.end();
    assert!(span.is_ended(), "Span should be ended");
    assert!(span.end.is_some(), "End time must be set");
    assert_eq!(span.status(), SpanStatus::Completed);
    assert!(span.duration().is_some(), "Duration should be available");
}

#[test]
fn test_end_span_with_error() {
    let mut ids = SpanIds::new();
    let mut span = Span::new_root(&mut ids, 1, "error_task", None, None);
    let error_message = "Something went wrong".to_string();

    span.end_error(Some(error_message.clone()));
    assert!(span.is_ended(), "Span should be ended");
    assert_eq!(span.status(), SpanStatus::Completed);
    assert!(
        span.attrs.iter().any(|attr| {
            attr.0 == "error.message" && matches!(&attr.1, Ele::Text(msg) if msg == &error_message)
        }),
        "Error message should be recorded as an attribute"
    );
}

#[test]
fn test_add_attributes_and_events() {
    let mut ids = SpanIds::new();
    let mut span = Span::new_root(&mut ids, 1, "user_request_processing", None, None);

    span.add_attr("http.method", "GET").unwrap();
    span.add_attr("http.url", "/users/123".to_string()).unwrap();
    span.add_attr("user.id", 123i32).unwrap();
    span.add_attr("request.size_bytes", 1024i64).unwrap();
    span.add_attr("cache.hit_ratio", single(0.75f32)).unwrap();
    span.add_attr("processing.time_ms", double(123.456f64)).unwrap();
    span.add_attr("custom.info", Ele::Text("important_detail".to_string())).unwrap();

    wait_for_the_clock();
    span.add_event(
        "cache_lookup",
        Some(vec![attr("cache.key", "user_123_data"), attr("cache.hit", true)]),
    )
    .unwrap();

    wait_for_the_clock();

    span.add_event("validation_complete", None).unwrap();

    assert_eq!(span.attrs.len(), 7, "Expected 7 attributes on the span");
    assert_eq!(span.attrs[0], attr("http.method", "GET"));
    assert_eq!(span.attrs[1], attr("http.url", "/users/123".to_string()));

    assert_eq!(span.events.len(), 2, "Expected 2 events in the span");
    assert_eq!(span.events[0].name, "cache_lookup");
    assert!(
        span.events[0].timestamp.0 > span.start.0,
        "Event timestamp should be after span start"
    );
    assert_eq!(span.events[0].attributes.len(), 2);
    assert_eq!(span.events[0].attributes[0], attr("cache.key", "user_123_data"));
    assert_eq!(span.events[0].attributes[1], attr("cache.hit", true));

    assert_eq!(span.events[1].name, "validation_complete");
    assert!(
        span.events[1].timestamp.0 > span.events[0].timestamp.0,
        "Second event should be later"
    );
    assert!(span.events[1].attributes.is_empty());

    span.end();

    let attributes_count_before = span.attrs.len();
    let events_len_before = span.events.len();

    assert!(span.add_attr("attempt_after_close", "should_not_be_added").is_err());
    assert!(span.add_event("event_after_close", None).is_err());

    assert_eq!(
        span.attrs.len(),
        attributes_count_before,
        "Attributes should not be added to a closed span."
    );
    assert_eq!(
        span.events.len(),
        events_len_before,
        "Events should not be added to a closed span."
    );
}

#[test]
fn test_trace_id_generation() {
    let mut ids = SpanIds::new();
    let span1 = Span::new_root(&mut ids, 1, "span1", None, None);
    let trace_id1 = span1.trace_id;
    assert!(trace_id1 > 0, "Trace ID should be positive");

    let span2 = Span::new_root(&mut ids, 1, "span2", None, None);
    let trace_id2 = span2.trace_id;
    assert!(trace_id2 > trace_id1, "Trace ID should increment");

    let span3 = Span::new_root(&mut ids, 1, "span3", None, None);
    let trace_id3 = span3.trace_id;
    assert!(trace_id3 > trace_id2, "Trace ID should continue incrementing");
}

#[test]
fn test_span_id_generation() {
    let mut ids = SpanIds::new();
    let span1 = Span::new_root(&mut ids, 1, "span1", None, None);
    let span_id1 = span1.span_id;
    assert!(span_id1 > 0, "Span ID should be positive");

    let span2 = Span::new_root(&mut ids, 1, "span2", None, None);
    let span_id2 = span2.span_id;
    assert!(span_id2 > span_id1, "Span ID should increment");
}

#[test]
fn identifiers_start_at_one_and_step_by_one() {
    let mut ids = SpanIds::new();
    let root = Span::new_root(&mut ids, 9, "root", None, None);
    let child = Span::new_child(&mut ids, 9, &root, "child", None, None);
    let other = Span::new_root(&mut ids, 9, "other", None, None);
    assert_eq!((root.trace_id, root.span_id), (1, 1));
    assert_eq!((child.trace_id, child.span_id), (1, 2));
    assert_eq!((other.trace_id, other.span_id), (2, 3));
    assert_eq!(ids, SpanIds { next_trace_id: 3, next_span_id: 4 });

    let mut last = SpanIds { next_trace_id: u64::MAX, next_span_id: u64::MAX };
    assert_eq!(last.take_span_id(), u64::MAX);
    assert_eq!(last.take_trace_id(), u64::MAX);
    assert_eq!(last, SpanIds { next_trace_id: 0, next_span_id: 0 });
}

#[test]
fn a_finished_span_keeps_its_first_end_and_refuses_changes() {
    let mut ids = SpanIds::new();
    let mut span = Span::new_root(&mut ids, 1, "work", None, None);
    span.add_attr("k", 1i32).unwrap();
    span.finish();
    let end = span.end;
    assert!(end.is_some());
    assert_eq!(span.status(), SpanStatus::Completed);
    assert_eq!(span.duration(), Some(end.unwrap().duration_since(span.start)));

    wait_for_the_clock();
    span.finish();
    span.end_success();
    span.end_error(Some("late".to_string()));
    assert_eq!(span.end, end);
    assert_eq!(span.attrs.len(), 1);
    assert_eq!(span.add_attr("x", true), Err(TraceError::SpanAlreadyClosed));
    assert_eq!(span.add_event("e", None), Err(TraceError::SpanAlreadyClosed));
    assert_eq!(span.attrs.len(), 1);
    assert_eq!(span.events.len(), 0);
    assert_eq!(span.attrs[0].key(), "k");
    assert_eq!(span.attrs[0].value().to_string_lossy(), "1");
}

#[test]
fn durations_are_differences_of_timestamps() {
    assert_eq!(Timestamp(1_500).duration_since(Timestamp(500)), 1_000);
    assert_eq!(Timestamp(500).duration_since(Timestamp(1_500)), 0);
    assert_eq!(Timestamp(7).duration_since(Timestamp(7)), 0);
    assert_eq!(Timestamp((1u128 << 64) + 5).duration_since(Timestamp(0)), 5);
    assert_eq!(Timestamp::from_clock(None), Timestamp(0));
    assert_eq!(Timestamp::from_clock(Some(12)), Timestamp(12));
    assert!(Timestamp::now().0 > 1_600_000_000_000_000_000);
    assert_eq!(SpanStatus::from_end_time(None), SpanStatus::Active);
    assert_eq!(SpanStatus::from_end_time(Some(Timestamp(1))), SpanStatus::Completed);
}

#[test]
fn trace_capture() {
    let mut tracer = Tracer::new(16);
    let mut root = tracer.root(7, "work", None, None);
    let mut child = tracer.child(7, &root, "step", None, None);
    tracer.add_event(&mut child, "mid", None, None).unwrap();
    tracer.finish(&mut child);
    tracer.finish(&mut root);

    let rows = tracer.buffer.rows();
    let starts: Vec<&TraceEvent> = rows.iter().filter(|r| r.record_type == "span_start").collect();
    let ends: Vec<&TraceEvent> = rows.iter().filter(|r| r.record_type == "span_end").collect();
    let events: Vec<&TraceEvent> = rows.iter().filter(|r| r.record_type == "event").collect();
    assert_eq!(starts.len(), 2);
    assert_eq!(ends.len(), 2);
    assert_eq!(events.len(), 1);
    assert_eq!(events[0].name, "mid");
    assert_eq!(starts[0].name, "work");
    assert_eq!(starts[0].parent_id, None);
    assert_eq!(starts[1].name, "step");
    assert_eq!(starts[1].parent_id, Some(root.span_id as i64));
    assert_eq!(events[0].span_id, child.span_id as i64);
    assert_eq!(ends[0].name, "step");
    assert_eq!(ends[1].name, "work");
    for row in rows.iter() {
        assert_eq!(row.trace_id, root.trace_id as i64);
        assert_eq!(row.thread_id, 7);
    }
    assert_eq!(rows.len(), 5);

    tracer.finish(&mut root);
    assert_eq!(tracer.add_event(&mut root, "late", None, None), Err(TraceError::SpanAlreadyClosed));
    assert_eq!(tracer.buffer.len(), 5);
}

#[test]
fn a_small_buffer_holds_the_latest_rows_of_a_trace() {
    let mut tracer = Tracer::new(3);
    let mut root = tracer.root(7, "work", None, None);
    let mut child = tracer.child(7, &root, "step", None, None);
    tracer.add_event(&mut child, "mid", None, None).unwrap();
    tracer.finish(&mut child);
    tracer.finish(&mut root);

    let rows = tracer.buffer.rows();
    let kinds: Vec<(&str, &str)> = rows.iter().map(|r| (r.record_type.as_str(), r.name.as_str())).collect();
    assert_eq!(kinds, vec![("event", "mid"), ("span_end", "step"), ("span_end", "work")]);
    assert_eq!(rows[0].span_id, child.span_id as i64);
    assert_eq!(rows[1].parent_id, Some(root.span_id as i64));
    assert_eq!(rows[2].parent_id, None);
    for row in rows.iter() {
        assert_eq!(row.trace_id, root.trace_id as i64);
    }
}

#[test]
fn an_event_added_through_the_tracer_carries_its_attributes() {
    let mut tracer = Tracer::new(4);
    let mut span = tracer.root(1, "work", None, Some("main.py:3"));
    tracer
        .add_event(&mut span, "first", Some(vec![attr("k", "v"), attr("n", 7i64)]), Some("{}".to_string()))
        .unwrap();
    tracer.add_event(&mut span, "second", None, None).unwrap();
    assert_eq!(span.events.len(), 2);
    assert_eq!(span.events[0].name, "first");
    assert_eq!(span.events[0].attributes, vec![attr("k", "v"), attr("n", 7i64)]);
    assert_eq!(span.events[0].location, None);
    assert_eq!(span.events[1].name, "second");
    assert_eq!(span.events[1].attributes, vec![]);
    assert_eq!(span.events[1].location, None);
    assert_eq!(span.loc, Some(Location::UnknownLocation("main.py:3".to_string())));
}

#[test]
fn a_full_buffer_drops_its_oldest_row() {
    let mut tracer = Tracer::new(2);
    let mut a = tracer.root(1, "a", Some("kind"), Some("here"));
    tracer.add_event(&mut a, "e1", None, Some("{\"k\":1}".to_string())).unwrap();
    tracer.add_event(&mut a, "e2", None, None).unwrap();
    let rows = tracer.buffer.rows();
    assert_eq!(rows.len(), 2);
    assert_eq!(rows[0].name, "e1");
    assert_eq!(rows[0].event_attributes, Some("{\"k\":1}".to_string()));
    assert_eq!(rows[0].kind, Some("kind".to_string()));
    assert_eq!(rows[0].location, Some("here".to_string()));
    assert_eq!(rows[1].name, "e2");
    assert_eq!(tracer.buffer.capacity(), 2);

    let mut none = TraceBuffer::new(0);
    none.push(rows[0].clone());
    assert_eq!(none.len(), 0);
    assert_eq!(tracer.buffer.get(1), Some(&rows[1]));
    assert_eq!(tracer.buffer.get(2), None);
    tracer.buffer.clear();
    assert_eq!(tracer.buffer.len(), 0);
}

#[test]
fn identifiers_keep_their_bits_in_the_table() {
    assert_eq!(probing::trace_table::id_to_cell(5), 5);
    assert_eq!(probing::trace_table::id_to_cell(u64::MAX), -1);
    assert_eq!(probing::trace_table::id_to_cell(1u64 << 63), i64::MIN);
    assert_eq!(probing::trace_table::time_to_cell(Timestamp(17)), 17);
    assert_eq!(probing::trace_table::time_to_cell(Timestamp(u128::MAX)), i64::MAX);
}
