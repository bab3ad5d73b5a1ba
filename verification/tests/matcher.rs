use trace_fold::event::{Event, EventArg, EventType, TraceError};
use trace_fold::fold::u32_to_string;
use trace_fold::matcher::{join_stack_names, process_event, process_events};

fn ev(ph: EventType, name: &str, ts: u32) -> Event {
    Event {
        args: None,
        cat: String::new(),
        name: String::from(name),
        ph,
        pid: 1,
        tid: 1,
        ts,
        dur: None,
    }
}

fn complete(name: &str, detail: Option<&str>, dur: Option<u32>) -> Event {
    Event {
        args: Some(EventArg {
            function_args: String::new(),
            location: None,
            detail: detail.map(String::from),
        }),
        cat: String::new(),
        name: String::from(name),
        ph: EventType::Complete,
        pid: 1,
        tid: 1,
        ts: 0,
        dur,
    }
}

fn run(events: Vec<Event>) -> Vec<String> {
    let mut stack: Vec<Event> = Vec::new();
    process_events(events, &mut stack).unwrap()
}

#[test]
fn example_two_nested_spans() {
    let events = vec![
        ev(EventType::Begin, "f", 0),
        ev(EventType::Begin, "g", 5),
        ev(EventType::End, "g", 12),
        ev(EventType::End, "f", 20),
    ];
    assert_eq!(run(events), vec!["f;g 7".to_string(), "f 20".to_string()]);
}

#[test]
fn three_nested_begins_close_innermost_first() {
    let events = vec![
        ev(EventType::Begin, "A", 0),
        ev(EventType::Begin, "B", 1),
        ev(EventType::Begin, "C", 2),
        ev(EventType::End, "C", 3),
        ev(EventType::End, "B", 4),
        ev(EventType::End, "A", 5),
    ];
    assert_eq!(
        run(events),
        vec!["A;B;C 1".to_string(), "A;B 3".to_string(), "A 5".to_string()]
    );
}

#[test]
fn nested_pairs_emit_one_line_each() {
    let events = vec![
        ev(EventType::Begin, "a", 0),
        ev(EventType::End, "a", 1),
        ev(EventType::Begin, "b", 2),
        ev(EventType::End, "b", 6),
    ];
    let lines = run(events);
    assert_eq!(lines.len(), 2);
    assert_eq!(lines, vec!["a 1".to_string(), "b 4".to_string()]);
}

#[test]
fn unmatched_end_is_ignored() {
    let mut stack: Vec<Event> = Vec::new();
    let r = process_event(ev(EventType::End, "stray", 9), &mut stack);
    assert_eq!(r, Ok(None));
    assert!(stack.is_empty());
}

#[test]
fn unmatched_end_leaves_later_matching_untouched() {
    let events = vec![
        ev(EventType::End, "stray", 0),
        ev(EventType::Begin, "f", 1),
        ev(EventType::End, "f", 4),
    ];
    assert_eq!(run(events), vec!["f 3".to_string()]);
}

#[test]
fn end_does_not_check_names() {
    let events = vec![
        ev(EventType::Begin, "left", 0),
        ev(EventType::End, "right", 2),
    ];
    assert_eq!(run(events), vec!["left 2".to_string()]);
}

#[test]
fn complete_with_detail() {
    let mut stack: Vec<Event> = Vec::new();
    let r = process_event(complete("work", Some("x"), Some(31)), &mut stack);
    assert_eq!(r, Ok(Some("work x 31".to_string())));
    assert!(stack.is_empty());
}

#[test]
fn complete_without_detail_has_empty_middle_field() {
    let mut stack: Vec<Event> = Vec::new();
    let r = process_event(complete("work", None, Some(5)), &mut stack);
    assert_eq!(r, Ok(Some("work  5".to_string())));
}

#[test]
fn complete_without_args_has_empty_middle_field() {
    let mut stack: Vec<Event> = Vec::new();
    let mut e = ev(EventType::Complete, "work", 0);
    e.dur = Some(8);
    let r = process_event(e, &mut stack);
    assert_eq!(r, Ok(Some("work  8".to_string())));
}

#[test]
fn complete_without_duration_is_an_error() {
    let mut stack: Vec<Event> = Vec::new();
    let r = process_event(complete("work", Some("x"), None), &mut stack);
    assert_eq!(r, Err(TraceError::MissingDuration));
}

#[test]
fn end_before_begin_is_an_error() {
    let events = vec![
        ev(EventType::Begin, "f", 10),
        ev(EventType::End, "f", 3),
    ];
    let mut stack: Vec<Event> = Vec::new();
    let r = process_events(events, &mut stack);
    assert_eq!(r, Err(TraceError::TimestampOrder));
}

#[test]
fn other_phases_are_ignored() {
    let events = vec![
        ev(EventType::Begin, "f", 0),
        ev(EventType::Instant, "i", 1),
        ev(EventType::Counter, "c", 2),
        ev(EventType::Sample, "p", 3),
        ev(EventType::Metadata, "m", 4),
        ev(EventType::Mark, "r", 5),
        ev(EventType::ClockSync, "s", 6),
        ev(EventType::End, "f", 7),
    ];
    assert_eq!(run(events), vec!["f 7".to_string()]);
}

#[test]
fn empty_stream_emits_nothing() {
    let mut stack: Vec<Event> = Vec::new();
    let r = process_events(Vec::new(), &mut stack);
    assert_eq!(r, Ok(Vec::new()));
    assert!(stack.is_empty());
}

#[test]
fn leftover_begins_emit_nothing() {
    let events = vec![
        ev(EventType::Begin, "f", 0),
        ev(EventType::Begin, "g", 1),
    ];
    let mut stack: Vec<Event> = Vec::new();
    let r = process_events(events, &mut stack);
    assert_eq!(r, Ok(Vec::new()));
    assert_eq!(stack.len(), 2);
}

#[test]
fn rerun_produces_identical_output() {
    let mk = || {
        vec![
            ev(EventType::Begin, "f", 0),
            ev(EventType::Begin, "g", 5),
            ev(EventType::End, "g", 12),
            ev(EventType::End, "f", 20),
        ]
    };
    assert_eq!(run(mk()), run(mk()));
}

#[test]
fn batching_does_not_change_output() {
    let mk = |lo: u32| {
        vec![
            ev(EventType::Begin, "f", lo),
            ev(EventType::Begin, "g", lo + 5),
            ev(EventType::End, "g", lo + 12),
            ev(EventType::End, "f", lo + 20),
        ]
    };
    let whole = {
        let mut all = mk(0);
        all.extend(mk(100));
        run(all)
    };
    let batched = {
        let mut stack: Vec<Event> = Vec::new();
        let mut lines = process_events(mk(0), &mut stack).unwrap();
        lines.extend(process_events(mk(100), &mut stack).unwrap());
        lines
    };
    assert_eq!(whole, batched);
}

#[test]
fn split_span_across_batches() {
    let mut stack: Vec<Event> = Vec::new();
    let first = process_events(vec![ev(EventType::Begin, "f", 2)], &mut stack).unwrap();
    assert!(first.is_empty());
    let second = process_events(vec![ev(EventType::End, "f", 11)], &mut stack).unwrap();
    assert_eq!(second, vec!["f 9".to_string()]);
}

#[test]
fn empty_names_still_join() {
    let events = vec![
        ev(EventType::Begin, "", 0),
        ev(EventType::Begin, "", 1),
        ev(EventType::End, "", 2),
    ];
    assert_eq!(run(events), vec!["; 1".to_string()]);
}

#[test]
fn join_stack_names_joins_bottom_to_top() {
    let stack = vec![
        ev(EventType::Begin, "a", 0),
        ev(EventType::Begin, "b", 1),
        ev(EventType::Begin, "c", 2),
    ];
    assert_eq!(join_stack_names(&stack), "a;b;c".to_string());
    let empty: Vec<Event> = Vec::new();
    assert_eq!(join_stack_names(&empty), String::new());
}

#[test]
fn decimal_rendering_is_exact() {
    assert_eq!(u32_to_string(0), "0".to_string());
    assert_eq!(u32_to_string(7), "7".to_string());
    assert_eq!(u32_to_string(10), "10".to_string());
    assert_eq!(u32_to_string(12345), "12345".to_string());
    assert_eq!(u32_to_string(u32::MAX), "4294967295".to_string());
}

#[test]
fn zero_duration_span() {
    let events = vec![
        ev(EventType::Begin, "f", 4),
        ev(EventType::End, "f", 4),
    ];
    assert_eq!(run(events), vec!["f 0".to_string()]);
}
