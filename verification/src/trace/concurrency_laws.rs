//! Laws of the threads that run at the same time.

use vstd::prelude::*;

use crate::trace::concurrency_analysis::{
    fresh_concurrency, law_concurrency_is_bounded, law_event_keeps_wf, readings_bounded, run,
    ConcurrencyView, MeasurementView,
};
use crate::trace::cpu_time_tracker::{kernel, running};
use crate::trace::error::TraceErrorView;
use crate::trace::event::{EventView, Stop};
use crate::trace::laws::balanced;
use crate::trace::scheduling::{
    law_event_conserves_time, law_events_say_who_runs_where, law_time_passes_where_processes_run,
    lemma_running_of_one, lemma_runs_somewhere,
};

verus! {

/// An event as the kernel reports it: a timer's names no process that comes, and an event names the
/// process that its CPU is known to run.
pub open spec fn plausible(s: ConcurrencyView, e: EventView) -> bool {
    &&& e.is_context_switch <==> e.next_tgid is Some
    &&& s.tracker.cpus[e.cpu_id as int].pid matches Some(p) ==> p == e.pid
}

/// The readings of every CPU that is known to run a process but the kernel's are of that process:
/// since then it has had no more CPU time than all processes together, and no less than has
/// passed.
pub open spec fn readings_of_processes(s: ConcurrencyView) -> bool {
    forall|i: int|
        #![trigger s.tracker.cpus[i]]
        0 <= i < s.starts.len() ==> match s.tracker.cpus[i].pid {
            Some(p) => !kernel(p) ==> {
                let t = s.tracker;
                let gained = t.counter(p).time_at(t.total.last) - s.starts[i].same_process;
                &&& t.cpus[i].last > 0
                &&& t.total.last - t.cpus[i].last <= gained
                &&& gained <= t.total.aggregate - s.starts[i].total
            },
            None => true,
        }
}

/// A new analysis has no readings of processes.
pub proof fn law_fresh_readings_of_processes(num_cpus: nat)
    ensures
        readings_of_processes(fresh_concurrency(num_cpus)),
{
}

/// An event keeps the readings those of the processes that run.
pub proof fn law_event_keeps_readings_of_processes(s: ConcurrencyView, e: EventView)
    requires
        s.wf(),
        balanced(s.tracker),
        readings_of_processes(s),
        e.cpu_id < s.tracker.cpus.len(),
        s.can_take(e),
        plausible(s, e),
        e.timestamp > 0,
    ensures
        readings_of_processes(s.after(e)),
{
    let t = s.tracker;
    let after = s.after(e);
    let u = after.tracker;
    let ts = e.timestamp as nat;
    law_event_keeps_wf(s, e);
    law_event_conserves_time(t, e);
    assert forall|i: int| #![trigger u.cpus[i]] 0 <= i < after.starts.len() implies match u.cpus[i].pid {
        Some(p) => !kernel(p) ==> {
            let gained = u.counter(p).time_at(u.total.last) - after.starts[i].same_process;
            &&& u.cpus[i].last > 0
            &&& u.total.last - u.cpus[i].last <= gained
            &&& gained <= u.total.aggregate - after.starts[i].total
        },
        None => true,
    } by {
        law_events_say_who_runs_where(t, e, i);
        if let Some(p) = u.cpus[i].pid {
            if !kernel(p) {
                law_time_passes_where_processes_run(t, e, p);
                if i == e.cpu_id {
                    assert((ts - ts) * u.counter(p).threads == 0) by (nonlinear_arith);
                } else {
                    assert(t.cpus[i] == u.cpus[i]);
                    lemma_runs_somewhere(t.cpus, i, p);
                    lemma_running_of_one(t.cpus, p);
                    assert(t.cpus[i].last <= t.total.last);
                    let passed = ts - t.total.last;
                    let one = running(t.cpus, Some(p));
                    let all = running(t.cpus, None);
                    assert(passed <= passed * one && passed * one <= passed * all)
                        by (nonlinear_arith)
                        requires
                            passed >= 0,
                            1 <= one <= all,
                    ;
                }
            }
        }
    }
}

/// While a CPU runs one process but the kernel's, between one thread of it and as many as there are
/// CPUs run on average, and no more than run in total.
pub proof fn law_same_process_is_bounded(s: ConcurrencyView, e: EventView)
    requires
        s.wf(),
        balanced(s.tracker),
        readings_bounded(s),
        readings_of_processes(s),
        e.cpu_id < s.tracker.cpus.len(),
        s.can_take(e),
        e.timestamp > 0,
        s.tracker.cpus[e.cpu_id as int].pid == Some(e.pid),
        !kernel(e.pid),
    ensures
        ({
            let time = s.time_of(e);
            &&& time.interval == e.timestamp - s.tracker.cpus[e.cpu_id as int].last
            &&& time.interval <= time.same_process
            &&& time.same_process <= time.total
            &&& time.total <= time.interval * s.tracker.cpus.len()
        }),
{
    let t = s.tracker;
    let c = e.cpu_id as int;
    let u = t.after_event(e);
    let ts = e.timestamp as nat;
    law_event_keeps_wf(s, e);
    law_concurrency_is_bounded(s, e);
    law_event_conserves_time(t, e);
    law_time_passes_where_processes_run(t, e, e.pid);
    assert((ts - ts) * u.counter(e.pid).threads == 0) by (nonlinear_arith);
    lemma_runs_somewhere(t.cpus, c, e.pid);
    lemma_running_of_one(t.cpus, e.pid);
    assert(t.cpus[c].last <= t.total.last);
    assert(s.starts[c].total <= t.total.aggregate);
    let passed = ts - t.total.last;
    let one = running(t.cpus, Some(e.pid));
    let all = running(t.cpus, None);
    assert(passed <= passed * one && passed * one <= passed * all) by (nonlinear_arith)
        requires
            passed >= 0,
            1 <= one <= all,
    ;
    assert(u.counter(e.pid).aggregate <= u64::MAX);
    assert(u.total.aggregate <= u64::MAX);
}

/// The reading of a CPU is never ahead of the process that the CPU is known to run, so an event of
/// that process is refused by the tracker alone.
pub proof fn law_events_of_running_processes_are_taken(s: ConcurrencyView, e: EventView)
    requires
        s.wf(),
        balanced(s.tracker),
        readings_of_processes(s),
        e.cpu_id < s.tracker.cpus.len(),
        s.tracker.can_take(e),
        e.timestamp > 0,
        s.tracker.cpus[e.cpu_id as int].pid == Some(e.pid),
        !kernel(e.pid),
    ensures
        s.can_take(e),
{
    let t = s.tracker;
    let u = t.after_event(e);
    let ts = e.timestamp as nat;
    law_event_conserves_time(t, e);
    law_time_passes_where_processes_run(t, e, e.pid);
    assert((ts - ts) * u.counter(e.pid).threads == 0) by (nonlinear_arith);
    assert(t.cpus[e.cpu_id as int].last <= t.total.last);
    let passed = ts - t.total.last;
    let one = running(t.cpus, Some(e.pid));
    assert(passed * one >= 0) by (nonlinear_arith)
        requires
            passed >= 0,
            one >= 0,
    ;
}

/// The analysis after events, each of which can be taken in.
pub open spec fn after_all(s: ConcurrencyView, events: Seq<EventView>) -> ConcurrencyView
    decreases events.len(),
{
    if events.len() == 0 {
        s
    } else {
        after_all(s, events.drop_last()).after(events.last())
    }
}

/// Whether events can be taken in one after the other, and none is on a CPU.
pub open spec fn all_elsewhere(s: ConcurrencyView, events: Seq<EventView>, cpu: int) -> bool
    decreases events.len(),
{
    events.len() > 0 ==> {
        let before = after_all(s, events.drop_last());
        let e = events.last();
        &&& all_elsewhere(s, events.drop_last(), cpu)
        &&& e.cpu_id < before.tracker.cpus.len()
        &&& e.cpu_id != cpu
        &&& before.can_take(e)
    }
}

proof fn lemma_elsewhere(s: ConcurrencyView, events: Seq<EventView>, cpu: int)
    requires
        s.wf(),
        0 <= cpu < s.starts.len(),
        all_elsewhere(s, events, cpu),
    ensures
        after_all(s, events).wf(),
        after_all(s, events).starts.len() == s.starts.len(),
        after_all(s, events).starts[cpu] == s.starts[cpu],
        after_all(s, events).tracker.cpus[cpu] == s.tracker.cpus[cpu],
    decreases events.len(),
{
    if events.len() > 0 {
        lemma_elsewhere(s, events.drop_last(), cpu);
        law_event_keeps_wf(after_all(s, events.drop_last()), events.last());
    }
}

/// The row of an event tells what happened since the last event on its CPU, whatever happened on
/// the others meanwhile: the time that has passed, the CPU time that all processes had, and the
/// CPU time that the process of the row had, where that event has shown it to run there.
pub proof fn law_rows_tell_what_happened_since(
    s: ConcurrencyView,
    first: EventView,
    between: Seq<EventView>,
    second: EventView,
)
    requires
        s.wf(),
        first.cpu_id < s.tracker.cpus.len(),
        s.can_take(first),
        all_elsewhere(s.after(first), between, first.cpu_id as int),
        second.cpu_id == first.cpu_id,
        after_all(s.after(first), between).can_take(second),
        0 < first.timestamp < second.timestamp,
        first.next_tgid == Some(second.pid) || (first.next_tgid is None && first.pid == second.pid),
    ensures
        ({
            let then = s.after(first).tracker;
            let before = after_all(s.after(first), between);
            let now = before.after(second).tracker;
            let time = before.time_of(second);
            &&& time.interval == second.timestamp - first.timestamp
            &&& time.total == now.total.aggregate - then.total.aggregate
            &&& time.same_process == now.counter(second.pid).aggregate - then.counter(
                second.pid,
            ).aggregate
        }),
{
    let c = first.cpu_id as int;
    let mid = s.after(first);
    let before = after_all(mid, between);
    law_event_keeps_wf(s, first);
    lemma_elsewhere(mid, between, c);
    law_event_keeps_wf(before, second);
    assert(mid.tracker.cpus[c].last == first.timestamp);
    assert(before.starts[c].total <= before.tracker.total.aggregate);
    assert(before.tracker.after_event(second).counter(second.pid).aggregate <= u64::MAX);
    assert(before.tracker.after_event(second).total.aggregate <= u64::MAX);
}

/// The first row of a CPU tells of no interval.
pub proof fn law_first_row_is_empty(s: ConcurrencyView, e: EventView)
    requires
        e.cpu_id < s.tracker.cpus.len(),
        s.tracker.cpus[e.cpu_id as int].last == 0 || s.tracker.cpus[e.cpu_id as int].last
            == e.timestamp,
    ensures
        s.time_of(e).interval == 0,
        s.time_of(e).total == 0,
        s.time_of(e).same_process == 0,
{
}

/// A row is measured exactly where it has instructions and cycles, with its own process, counts
/// and times; what was measured before stays.
pub proof fn law_rows_are_measured(s: ConcurrencyView, e: EventView)
    ensures
        ({
            let before = s.measured;
            let after = s.after_row(e).measured;
            let now = s.time_of(e);
            if e.instructions > 0 && e.cycles > 0 {
                after == before.push(
                    MeasurementView {
                        process_name: e.process_name,
                        time: now,
                        cycles: e.cycles,
                        instructions: e.instructions,
                    },
                )
            } else {
                after == before
            }
        }),
        s.after_row(e).tracker == s.tracker.after_event(e),
        s.after_row(e).starts == s.after(e).starts,
{
}

/// Of a batch that is taken in whole there is a time for each row, which is that of its event once
/// the rows before it were taken in.
pub proof fn law_one_time_for_each_row(s: ConcurrencyView, events: Seq<EventView>, i: int)
    requires
        run(s, events).stop is No,
        0 <= i < events.len(),
    ensures
        run(s, events).times.len() == events.len(),
        run(s, events.take(i)).stop is No,
        run(s, events).times[i] == run(s, events.take(i)).state.time_of(events[i]),
    decreases events.len(),
{
    let front = events.drop_last();
    if i == events.len() - 1 {
        assert(events.take(i) =~= front);
        if front.len() > 0 {
            law_one_time_for_each_row(s, front, 0);
        }
    } else {
        law_one_time_for_each_row(s, front, i);
        assert(front.take(i) =~= events.take(i));
    }
}

/// How a trace is cut into batches does not matter: what two batches give, one after the other, is
/// what both give as one.
pub proof fn law_batches_do_not_matter(
    s: ConcurrencyView,
    a: Seq<EventView>,
    b: Seq<EventView>,
)
    requires
        run(s, a).stop is No,
    ensures
        run(s, a + b).state == run(run(s, a).state, b).state,
        run(s, a + b).times == run(s, a).times + run(run(s, a).state, b).times,
        run(s, a + b).stop == run(run(s, a).state, b).stop,
    decreases b.len(),
{
    if b.len() == 0 {
        assert(a + b =~= a);
        assert(run(s, a).times + Seq::empty() =~= run(s, a).times);
    } else {
        assert((a + b).drop_last() =~= a + b.drop_last());
        law_batches_do_not_matter(s, a, b.drop_last());
        let mid = run(run(s, a).state, b.drop_last());
        if mid.stop is No {
            assert(run(s, a + b).times =~= run(s, a).times + run(run(s, a).state, b).times);
        }
    }
}

/// A batch ends with an error at the first event on a CPU that the trace does not have, and the
/// rows before it are taken in all the same.
pub proof fn law_invalid_cpus_end_a_batch(
    s: ConcurrencyView,
    before: Seq<EventView>,
    e: EventView,
    rest: Seq<EventView>,
)
    requires
        run(s, before).stop is No,
        e.cpu_id >= run(s, before).state.tracker.cpus.len(),
    ensures
        run(s, before + seq![e] + rest).stop == Stop::At(TraceErrorView::InvalidCpuId(e.cpu_id)),
        run(s, before + seq![e] + rest).state == run(s, before).state,
    decreases rest.len(),
{
    let all = before + seq![e] + rest;
    if rest.len() == 0 {
        assert(all.drop_last() =~= before);
        assert(all.last() == e);
    } else {
        law_invalid_cpus_end_a_batch(s, before, e, rest.drop_last());
        assert(all.drop_last() =~= before + seq![e] + rest.drop_last());
    }
}

}
