//! General properties of the span matcher, stated over the run
//! specification and proved once and for all.

use vstd::prelude::*;
use crate::event::{Event, EventType, TraceError};
use crate::matcher::{spec_run, spec_step, opt_lines, lemma_run_append};

verus! {

/// How many events of the sequence carry the given phase.
pub open spec fn count_phase(events: Seq<Event>, ph: EventType) -> nat
    decreases events.len(),
{
    if events.len() == 0 {
        0
    } else {
        (if events.first().ph == ph {
            1nat
        } else {
            0nat
        }) + count_phase(events.drop_first(), ph)
    }
}

/// Counting over a prefix one longer: the first event's contribution
/// plus the count over the corresponding prefix of the tail.
proof fn lemma_count_take_step(events: Seq<Event>, ph: EventType, k: int)
    requires
        events.len() > 0,
        0 <= k <= events.len() - 1,
    ensures
        count_phase(events.take(k + 1), ph) == (if events.first().ph == ph {
            1int
        } else {
            0int
        }) + count_phase(events.drop_first().take(k), ph),
{
    let u = events.take(k + 1);
    assert(u.len() == k + 1);
    assert(u.first() == events.first());
    assert(u.drop_first() =~= events.drop_first().take(k));
}

/// A stream of Begin and End events whose pairs are correctly nested
/// over the starting stack (no prefix closes more spans than are open)
/// and whose timestamps never decrease runs without error and emits
/// exactly one line per End event; what remains open afterwards is the
/// spans begun and not yet ended.
pub proof fn lemma_nested_pairs_emit_one_line_each(stack: Seq<Event>, events: Seq<Event>)
    requires
        forall|i: int|
            0 <= i < events.len() ==> ((#[trigger] events[i]).ph is Begin || events[i].ph is End),
        forall|k: int|
            0 <= k <= events.len() ==> count_phase(#[trigger] events.take(k), EventType::End)
                <= stack.len() + count_phase(events.take(k), EventType::Begin),
        forall|i: int, j: int|
            0 <= i <= j < events.len() ==> (#[trigger] events[i]).ts <= (#[trigger] events[j]).ts,
        forall|i: int, j: int|
            0 <= i < stack.len() && 0 <= j < events.len() ==> (#[trigger] stack[i]).ts <= (
            #[trigger] events[j]).ts,
    ensures
        spec_run(stack, events) is Ok,
        spec_run(stack, events)->Ok_0.1.len() == count_phase(events, EventType::End),
        spec_run(stack, events)->Ok_0.0.len() == stack.len() + count_phase(
            events,
            EventType::Begin,
        ) - count_phase(events, EventType::End),
    decreases events.len(),
{
    if events.len() == 0 {
        assert(count_phase(events, EventType::End) == 0);
        assert(count_phase(events, EventType::Begin) == 0);
    } else {
        let e = events.first();
        let tail = events.drop_first();
        assert(count_phase(events, EventType::End) == (if e.ph is End {
            1nat
        } else {
            0nat
        }) + count_phase(tail, EventType::End));
        assert(count_phase(events, EventType::Begin) == (if e.ph is Begin {
            1nat
        } else {
            0nat
        }) + count_phase(tail, EventType::Begin));
        assert forall|i: int|
            0 <= i < tail.len() implies ((#[trigger] tail[i]).ph is Begin
            || tail[i].ph is End) by {
            assert(tail[i] == events[i + 1]);
        }
        assert forall|i: int, j: int|
            0 <= i <= j < tail.len() implies (#[trigger] tail[i]).ts <= (
        #[trigger] tail[j]).ts by {
            assert(tail[i] == events[i + 1]);
            assert(tail[j] == events[j + 1]);
        }
        if e.ph is Begin {
            let pushed = stack.push(e);
            assert(spec_step(stack, e) == Ok::<_, TraceError>((pushed, None::<Seq<char>>)));
            assert forall|k: int|
                0 <= k <= tail.len() implies count_phase(
                #[trigger] tail.take(k),
                EventType::End,
            ) <= pushed.len() + count_phase(tail.take(k), EventType::Begin) by {
                lemma_count_take_step(events, EventType::End, k);
                lemma_count_take_step(events, EventType::Begin, k);
                assert(count_phase(events.take(k + 1), EventType::End) <= stack.len()
                    + count_phase(events.take(k + 1), EventType::Begin));
            }
            assert forall|i: int, j: int|
                0 <= i < pushed.len() && 0 <= j < tail.len() implies (#[trigger] pushed[i]).ts
                <= (#[trigger] tail[j]).ts by {
                assert(tail[j] == events[j + 1]);
                if i < stack.len() {
                    assert(pushed[i] == stack[i]);
                } else {
                    assert(pushed[i] == e);
                    assert(events[0].ts <= events[j + 1].ts);
                }
            }
            lemma_nested_pairs_emit_one_line_each(pushed, tail);
            let (st2, lines) = spec_run(pushed, tail)->Ok_0;
            assert(opt_lines(None::<Seq<char>>) + lines =~= lines);
            assert(spec_run(stack, events) == Ok::<_, TraceError>((st2, lines)));
        } else {
            let one = events.take(1);
            assert(one.len() == 1);
            assert(one.first() == e);
            assert(one.drop_first() =~= Seq::<Event>::empty());
            assert(count_phase(Seq::<Event>::empty(), EventType::End) == 0);
            assert(count_phase(Seq::<Event>::empty(), EventType::Begin) == 0);
            assert(count_phase(one, EventType::End) == 1);
            assert(count_phase(one, EventType::Begin) == 0);
            assert(stack.len() >= 1);
            assert(stack[stack.len() - 1].ts <= events[0].ts);
            let popped = stack.drop_last();
            assert forall|k: int|
                0 <= k <= tail.len() implies count_phase(
                #[trigger] tail.take(k),
                EventType::End,
            ) <= popped.len() + count_phase(tail.take(k), EventType::Begin) by {
                lemma_count_take_step(events, EventType::End, k);
                lemma_count_take_step(events, EventType::Begin, k);
                assert(count_phase(events.take(k + 1), EventType::End) <= stack.len()
                    + count_phase(events.take(k + 1), EventType::Begin));
            }
            assert forall|i: int, j: int|
                0 <= i < popped.len() && 0 <= j < tail.len() implies (#[trigger] popped[i]).ts
                <= (#[trigger] tail[j]).ts by {
                assert(popped[i] == stack[i]);
                assert(tail[j] == events[j + 1]);
            }
            lemma_nested_pairs_emit_one_line_each(popped, tail);
            let line = spec_step(stack, e)->Ok_0.1;
            let (st2, lines) = spec_run(popped, tail)->Ok_0;
            assert(opt_lines(line) + lines =~= seq![line->Some_0] + lines);
            assert(spec_run(stack, events) == Ok::<_, TraceError>(
                (st2, opt_lines(line) + lines),
            ));
            assert((opt_lines(line) + lines).len() == 1 + lines.len());
        }
    }
}

/// An End event arriving on an empty stack is ignored: it emits no
/// line and leaves the rest of the matching exactly as it would have
/// been without it.
pub proof fn lemma_unmatched_end_ignored(stack: Seq<Event>, e: Event, rest: Seq<Event>)
    requires
        stack.len() == 0,
        e.ph is End,
    ensures
        spec_run(stack, seq![e] + rest) == spec_run(stack, rest),
{
    let s = seq![e] + rest;
    assert(s.len() > 0);
    assert(s.first() == e);
    assert(s.drop_first() =~= rest);
    assert(spec_step(stack, e) == Ok::<_, TraceError>((stack, None::<Seq<char>>)));
    match spec_run(stack, rest) {
        Ok((st, lines)) => {
            assert(opt_lines(None::<Seq<char>>) + lines =~= lines);
            assert(spec_run(stack, s) == Ok::<_, TraceError>((st, lines)));
        },
        Err(er) => {
            assert(spec_run(stack, s) == Err::<(Seq<Event>, Seq<Seq<char>>), TraceError>(er));
        },
    }
}

/// The matcher is a function of the event stream alone: two runs over
/// the same events from the same starting stack end in the same stack,
/// the same lines, or the same error — so running the tool twice over
/// one file repeats its output byte for byte.
pub proof fn lemma_rerun_identical(stack: Seq<Event>, events1: Seq<Event>, events2: Seq<Event>)
    requires
        events1 == events2,
    ensures
        spec_run(stack, events1) == spec_run(stack, events2),
{
}

/// The run over a sequence of batches, each handed to the matcher in
/// turn with the surviving stack: the shape in which the decoder
/// delivers events, one batch per top-level JSON value in either input
/// mode.
pub open spec fn spec_run_batches(stack: Seq<Event>, batches: Seq<Seq<Event>>) -> Result<
    (Seq<Event>, Seq<Seq<char>>),
    TraceError,
>
    decreases batches.len(),
{
    if batches.len() == 0 {
        Ok((stack, Seq::<Seq<char>>::empty()))
    } else {
        match spec_run(stack, batches.first()) {
            Ok((st1, l1)) => match spec_run_batches(st1, batches.drop_first()) {
                Ok((st2, l2)) => Ok((st2, l1 + l2)),
                Err(e) => Err(e),
            },
            Err(e) => Err(e),
        }
    }
}

/// How the events are split into batches is immaterial: batch-by-batch
/// processing equals one run over the flattened sequence, so the two
/// input modes produce identical output whenever their flattened event
/// sequences agree.
pub proof fn lemma_batching_immaterial(stack: Seq<Event>, batches: Seq<Seq<Event>>)
    ensures
        spec_run_batches(stack, batches) == spec_run(stack, batches.flatten()),
    decreases batches.len(),
{
    if batches.len() == 0 {
        assert(batches.flatten() =~= Seq::<Event>::empty());
    } else {
        let head = batches.first();
        let rest = batches.drop_first();
        assert(batches.flatten() == head + rest.flatten());
        lemma_run_append(stack, head, rest.flatten());
        match spec_run(stack, head) {
            Ok((st1, l1)) => {
                lemma_batching_immaterial(st1, rest);
                match spec_run_batches(st1, rest) {
                    Ok((st2, l2)) => {},
                    Err(e) => {},
                }
            },
            Err(e) => {},
        }
    }
}

} // verus!
