//! The span matcher: consumes trace events in order, keeps the stack of
//! open `Begin` events, and turns each matched `End` (and each
//! `Complete`) into one folded-stack output line.
//!
//! Matching is purely positional: an `End` closes the most recently
//! pushed `Begin`, whatever either is named, and an `End` that arrives
//! on an empty stack is tolerated and ignored. An `End` whose timestamp
//! precedes the `Begin` it closes is reported as an error rather than
//! wrapped around, and a `Complete` event without its `dur` field is
//! likewise an error.

use vstd::prelude::*;
use crate::event::{Event, EventType, TraceError, detail_of};
use crate::fold::{dec_rep, join_semi, u32_to_string};

verus! {

/// The names of the events on the stack, bottom to top.
pub open spec fn names_of(stack: Seq<Event>) -> Seq<Seq<char>> {
    stack.map_values(|e: Event| e.name@)
}

/// The line emitted for an `End` event: the semicolon-joined names of
/// the whole stack (the frame being closed included, on top), a space,
/// and the elapsed time since that frame's `Begin`.
pub open spec fn end_line(stack: Seq<Event>, e: Event) -> Seq<char>
    recommends
        stack.len() > 0,
        stack.last().ts <= e.ts,
{
    join_semi(names_of(stack)) + seq![' '] + dec_rep((e.ts - stack.last().ts) as nat)
}

/// The line emitted for a `Complete` event: name, detail (empty text if
/// absent), and the event's own duration, space-separated.
pub open spec fn complete_line(e: Event, d: u32) -> Seq<char> {
    e.name@ + seq![' '] + detail_of(e) + seq![' '] + dec_rep(d as nat)
}

/// One step of the matcher: the stack after the event, and the line it
/// emits, if any.
pub open spec fn spec_step(stack: Seq<Event>, e: Event) -> Result<
    (Seq<Event>, Option<Seq<char>>),
    TraceError,
> {
    match e.ph {
        EventType::Begin => Ok((stack.push(e), None)),
        EventType::End => if stack.len() == 0 {
            Ok((stack, None))
        } else if stack.last().ts <= e.ts {
            Ok((stack.drop_last(), Some(end_line(stack, e))))
        } else {
            Err(TraceError::TimestampOrder)
        },
        EventType::Complete => match e.dur {
            Some(d) => Ok((stack, Some(complete_line(e, d)))),
            None => Err(TraceError::MissingDuration),
        },
        _ => Ok((stack, None)),
    }
}

/// The emitted lines of one step, as a sequence: one line or none.
pub open spec fn opt_lines(l: Option<Seq<char>>) -> Seq<Seq<char>> {
    match l {
        Some(cs) => seq![cs],
        None => Seq::<Seq<char>>::empty(),
    }
}

/// The whole run of the matcher over an event sequence: the final
/// stack and every emitted line in order, or the first error.
pub open spec fn spec_run(stack: Seq<Event>, events: Seq<Event>) -> Result<
    (Seq<Event>, Seq<Seq<char>>),
    TraceError,
>
    decreases events.len(),
{
    if events.len() == 0 {
        Ok((stack, Seq::<Seq<char>>::empty()))
    } else {
        match spec_step(stack, events.first()) {
            Ok((st1, line)) => match spec_run(st1, events.drop_first()) {
                Ok((st2, lines)) => Ok((st2, opt_lines(line) + lines)),
                Err(e) => Err(e),
            },
            Err(e) => Err(e),
        }
    }
}

/// Running the matcher over a concatenation is running it over the
/// first part and then, from the stack that run left, over the second,
/// with the emitted lines concatenated; an error in the first part is
/// the error of the whole.
pub proof fn lemma_run_append(stack: Seq<Event>, e1: Seq<Event>, e2: Seq<Event>)
    ensures
        spec_run(stack, e1) matches Ok((st1, l1)) ==> match spec_run(st1, e2) {
            Ok((st2, l2)) => spec_run(stack, e1 + e2) == Ok::<_, TraceError>((st2, l1 + l2)),
            Err(e) => spec_run(stack, e1 + e2) == Err::<(Seq<Event>, Seq<Seq<char>>), TraceError>(
                e,
            ),
        },
        spec_run(stack, e1) is Err ==> spec_run(stack, e1 + e2) == spec_run(stack, e1),
    decreases e1.len(),
{
    if e1.len() == 0 {
        assert(e1 + e2 =~= e2);
        assert(spec_run(stack, e1) == Ok::<_, TraceError>((stack, Seq::<Seq<char>>::empty())));
        match spec_run(stack, e2) {
            Ok((st2, l2)) => {
                assert(Seq::<Seq<char>>::empty() + l2 =~= l2);
            },
            Err(e) => {},
        }
    } else {
        let whole = e1 + e2;
        assert(whole.len() > 0);
        assert(whole.first() == e1.first());
        assert(whole.drop_first() =~= e1.drop_first() + e2);
        match spec_step(stack, e1.first()) {
            Ok((st1, line)) => {
                lemma_run_append(st1, e1.drop_first(), e2);
                match spec_run(st1, e1.drop_first()) {
                    Ok((stm, lm)) => {
                        match spec_run(stm, e2) {
                            Ok((st2, l2)) => {
                                assert(opt_lines(line) + (lm + l2) =~= (opt_lines(line) + lm)
                                    + l2);
                            },
                            Err(e) => {},
                        }
                    },
                    Err(e) => {},
                }
            },
            Err(e) => {},
        }
    }
}

/// Whether an emitted line agrees with the one the step specifies.
pub open spec fn line_matches(r: Option<String>, l: Option<Seq<char>>) -> bool {
    match (r, l) {
        (Some(s), Some(cs)) => s@ == cs,
        (None, None) => true,
        _ => false,
    }
}

/// Joins the names of the stacked events with semicolons, bottom to top.
pub fn join_stack_names(stack: &Vec<Event>) -> (s: String)
    ensures
        s@ == join_semi(names_of(stack@)),
{
    let ghost names = names_of(stack@);
    let mut s = String::new();
    let mut i: usize = 0;
    proof {
        assert(names.take(0) =~= Seq::<Seq<char>>::empty());
    }
    while i < stack.len()
        invariant
            i <= stack.len(),
            names == names_of(stack@),
            names.len() == stack@.len(),
            s@ == join_semi(names.take(i as int)),
        decreases stack.len() - i,
    {
        if i > 0 {
            s.append(";");
        }
        s.append(stack[i].name.as_str());
        proof {
            reveal_strlit(";");
            let pre = names.take(i as int);
            let cur = names.take(i + 1);
            assert(cur.drop_last() =~= pre);
            assert(cur.last() == names[i as int]);
            if i == 0 {
                assert(s@ =~= join_semi(cur));
            } else {
                assert(join_semi(cur) == join_semi(pre) + seq![';'] + names[i as int]);
                assert(s@ =~= join_semi(cur));
            }
        }
        i = i + 1;
    }
    proof {
        assert(names.take(stack@.len() as int) =~= names);
    }
    s
}

/// Applies one event to the stack and returns the emitted line, if any.
/// The stack and the line are exactly those of [`spec_step`]; on an
/// error the stack is left as it was, and the caller is expected to
/// abort the run.
pub fn process_event(event: Event, stack: &mut Vec<Event>) -> (r: Result<
    Option<String>,
    TraceError,
>)
    ensures
        spec_step(old(stack)@, event) matches Ok((st, line)) ==> {
            &&& r is Ok
            &&& final(stack)@ == st
            &&& line_matches(r->Ok_0, line)
        },
        spec_step(old(stack)@, event) matches Err(e) ==> {
            &&& r == Err::<Option<String>, TraceError>(e)
            &&& final(stack)@ == old(stack)@
        },
{
    if event.ph == EventType::Begin {
        stack.push(event);
        Ok(None)
    } else if event.ph == EventType::End {
        if stack.len() == 0 {
            Ok(None)
        } else {
            let trace = join_stack_names(stack);
            let top_ts = stack[stack.len() - 1].ts;
            if top_ts <= event.ts {
                let begin_event = stack.pop().unwrap();
                proof {
                    assert(stack@ =~= old(stack)@.drop_last());
                }
                let mut line = trace;
                line.append(" ");
                let dur = u32_to_string(event.ts - begin_event.ts);
                line.append(dur.as_str());
                proof {
                    reveal_strlit(" ");
                    assert(line@ =~= end_line(old(stack)@, event));
                }
                Ok(Some(line))
            } else {
                Err(TraceError::TimestampOrder)
            }
        }
    } else if event.ph == EventType::Complete {
        match event.dur {
            Some(d) => {
                let mut line = String::new();
                line.append(event.name.as_str());
                line.append(" ");
                match &event.args {
                    Some(a) => match &a.detail {
                        Some(det) => line.append(det.as_str()),
                        None => {},
                    },
                    None => {},
                }
                line.append(" ");
                let dur = u32_to_string(d);
                line.append(dur.as_str());
                proof {
                    reveal_strlit(" ");
                    assert(line@ =~= complete_line(event, d));
                }
                Ok(Some(line))
            },
            None => Err(TraceError::MissingDuration),
        }
    } else {
        Ok(None)
    }
}

/// Runs the matcher over a batch of events, growing and shrinking the
/// open-span stack, and returns every emitted line in order, or the
/// first error. A run is abandoned on an error, so nothing further is
/// promised of the stack then.
pub fn process_events(events: Vec<Event>, stack: &mut Vec<Event>) -> (r: Result<
    Vec<String>,
    TraceError,
>)
    ensures
        spec_run(old(stack)@, events@) matches Ok((st, ls)) ==> {
            &&& r is Ok
            &&& final(stack)@ == st
            &&& r->Ok_0.deep_view() == ls
        },
        spec_run(old(stack)@, events@) matches Err(e) ==> r == Err::<Vec<String>, TraceError>(e),
{
    let ghost all = events@;
    let ghost s0 = stack@;
    let mut evs = events;
    let mut out: Vec<String> = Vec::new();
    let ghost mut k: int = 0;
    proof {
        assert(all.take(0) =~= Seq::<Event>::empty());
        assert(out.deep_view() =~= Seq::<Seq<char>>::empty());
    }
    while evs.len() > 0
        invariant
            s0 == old(stack)@,
            all == events@,
            0 <= k <= all.len(),
            evs@ == all.skip(k),
            spec_run(s0, all.take(k)) == Ok::<_, TraceError>((stack@, out.deep_view())),
        decreases evs.len(),
    {
        let e = evs.remove(0);
        proof {
            assert(all.skip(k).len() > 0);
            assert(e == all[k]);
            assert(evs@ =~= all.skip(k + 1));
        }
        let ghost pre_stack = stack@;
        let ghost pre_out = out.deep_view();
        let res = process_event(e, stack);
        proof {
            lemma_run_append(s0, all.take(k), seq![e]);
            assert(all.take(k) + seq![e] =~= all.take(k + 1));
            let single = seq![e];
            assert(single.first() == e);
            assert(single.drop_first() =~= Seq::<Event>::empty());
            match spec_step(pre_stack, e) {
                Ok((st1, line)) => {
                    assert(spec_run(st1, Seq::<Event>::empty()) == Ok::<_, TraceError>(
                        (st1, Seq::<Seq<char>>::empty()),
                    ));
                    assert(opt_lines(line) + Seq::<Seq<char>>::empty() =~= opt_lines(line));
                    assert(spec_run(pre_stack, single) == Ok::<_, TraceError>(
                        (st1, opt_lines(line)),
                    ));
                },
                Err(er) => {
                    assert(spec_run(pre_stack, single) == Err::<
                        (Seq<Event>, Seq<Seq<char>>),
                        TraceError,
                    >(er));
                },
            }
        }
        match res {
            Ok(opt) => {
                match opt {
                    Some(l) => {
                        let ghost lv = l@;
                        out.push(l);
                        proof {
                            assert(out.deep_view() =~= pre_out.push(lv));
                            assert(pre_out.push(lv) =~= pre_out + opt_lines(
                                spec_step(pre_stack, e)->Ok_0.1,
                            ));
                        }
                    },
                    None => {
                        proof {
                            assert(pre_out + opt_lines(spec_step(pre_stack, e)->Ok_0.1)
                                =~= pre_out);
                        }
                    },
                }
                proof {
                    assert(spec_run(s0, all.take(k + 1)) == Ok::<_, TraceError>(
                        (stack@, out.deep_view()),
                    ));
                    k = k + 1;
                }
            },
            Err(err) => {
                proof {
                    assert(spec_run(s0, all.take(k + 1)) == Err::<
                        (Seq<Event>, Seq<Seq<char>>),
                        TraceError,
                    >(err));
                    lemma_run_append(s0, all.take(k + 1), all.skip(k + 1));
                    assert(all.take(k + 1) + all.skip(k + 1) =~= all);
                    assert(spec_run(s0, all) == Err::<(Seq<Event>, Seq<Seq<char>>), TraceError>(
                        err,
                    ));
                }
                return Err(err);
            },
        }
    }
    proof {
        assert(all.take(k) =~= all);
    }
    Ok(out)
}

} // verus!
