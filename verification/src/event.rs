//! The trace-event data model: phases, argument records, and events.

use vstd::prelude::*;

verus! {

/// The phase tag of a trace event. Only `Begin`, `End` and `Complete`
/// affect the output; the other phases are accepted and ignored.
#[derive(Debug, Clone, Copy, PartialEq, Eq, Structural)]
pub enum EventType {
    Begin,
    End,
    Complete,
    Instant,
    Counter,
    Sample,
    Metadata,
    Mark,
    ClockSync,
}

/// Free-form arguments attached to an event. Only `detail` is consumed
/// (as the middle column of a `Complete` line); the rest is carried.
#[derive(Debug)]
pub struct EventArg {
    pub function_args: String,
    pub location: Option<String>,
    pub detail: Option<String>,
}

/// One trace record.
#[derive(Debug)]
pub struct Event {
    pub args: Option<EventArg>,
    /// event category
    pub cat: String,
    pub name: String,
    /// event type
    pub ph: EventType,
    /// process ID
    pub pid: u32,
    /// thread ID
    pub tid: u32,
    /// timestamp in microseconds
    pub ts: u32,
    /// duration in microseconds, present only on `Complete` events
    pub dur: Option<u32>,
}

/// The `detail` column an event contributes to a `Complete` line:
/// `args.detail` if present, otherwise empty text.
pub open spec fn detail_of(e: Event) -> Seq<char> {
    match e.args {
        Some(a) => match a.detail {
            Some(d) => d@,
            None => Seq::<char>::empty(),
        },
        None => Seq::<char>::empty(),
    }
}

/// Why a run aborts. Both are fatal: the tool is single-pass and does
/// not recover.
#[derive(Debug, Clone, Copy, PartialEq, Eq, Structural)]
pub enum TraceError {
    /// An `End` event carries a timestamp smaller than the `Begin` it
    /// closes: the stream violates the ordering assumption, and the
    /// underflowing duration is reported rather than wrapped.
    TimestampOrder,
    /// A `Complete` event lacks its required `dur` field.
    MissingDuration,
}

} // verus!
