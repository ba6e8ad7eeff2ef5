//! Laws of the time that processes are off the CPU.

use vstd::prelude::*;

use crate::trace::cpu_time_tracker::running;
use crate::trace::error::TraceErrorView;
use crate::trace::event::{has_cpi, law_event_keeps_consistent, EventView, Stop};
use crate::trace::off_cpu_analysis::{
    law_event_keeps_outs_in_order, outs_in_order, run, with_measurement, OffCpuView,
    OffMeasurementView, OffMetric, OffTimes, ScheduledOut,
};
use crate::trace::scheduling::lemma_runs_somewhere;

verus! {

/// The analysis notes when a process leaves a CPU by a switch, and that it has left all where no
/// CPU runs it any more: the time, and the CPU time that all processes had until then. Nothing
/// else changes what was noted.
pub proof fn law_leaving_is_noted(s: OffCpuView, e: EventView, p: u32, cpu: usize)
    requires
        s.wf(),
        e.cpu_id < s.tracker.cpus.len(),
        s.tracker.can_take(e),
    ensures
        ({
            let after = s.after(e);
            let now = ScheduledOut {
                time: e.timestamp,
                cpu_time: after.tracker.total.aggregate as u64,
            };
            let was = s.out_of(p);
            let out = after.out_of(p);
            let leaves = e.is_context_switch && p == e.pid;
            &&& leaves && cpu == e.cpu_id ==> out.per_cpu.dom().contains(cpu) && out.per_cpu[cpu]
                == now
            &&& !(leaves && cpu == e.cpu_id) ==> out.per_cpu.dom().contains(cpu)
                == was.per_cpu.dom().contains(cpu)
            &&& !(leaves && cpu == e.cpu_id) && was.per_cpu.dom().contains(cpu)
                ==> out.per_cpu[cpu] == was.per_cpu[cpu]
            &&& leaves && running(after.tracker.cpus, Some(p)) == 0 ==> out.everywhere == now
            &&& !(leaves && running(after.tracker.cpus, Some(p)) == 0) ==> out.everywhere
                == was.everywhere
            &&& after.tracker == s.tracker.after_event(e)
        }),
{
    law_event_keeps_consistent(s.tracker, e);
    let after = s.after(e);
    assert(after.tracker.counter(p).threads == running(after.tracker.cpus, Some(p)));
}

/// Where a process of which no thread ran comes to a CPU, the time that it was away from all CPUs
/// is told, and the CPU time that all processes had meanwhile, whichever CPU it comes to and
/// whether or not it was there before. Where a thread of it runs elsewhere, or it was never seen
/// leaving, none is told.
pub proof fn law_time_away_from_all_cpus(s: OffCpuView, e: EventView)
    requires
        s.wf(),
        outs_in_order(s),
        e.cpu_id < s.tracker.cpus.len(),
        s.tracker.can_take(e),
        e.is_context_switch,
        e.next_tgid.unwrap() != e.pid,
        s.out_of(e.next_tgid.unwrap()).everywhere.time <= e.timestamp,
        s.out_of(e.next_tgid.unwrap()).everywhere.cpu_time <= s.tracker.total.aggregate,
    ensures
        ({
            let p = e.next_tgid.unwrap();
            let out = s.out_of(p).everywhere;
            let times = s.after(e).buffered[e.cpu_id as int];
            let total = s.after(e).tracker.total.aggregate;
            if out.time > 0 && running(s.tracker.cpus, Some(p)) == 0 {
                &&& times.global_off_time == e.timestamp - out.time
                &&& times.global_other_cpu_time == total - out.cpu_time
            } else {
                &&& times.global_off_time == 0
                &&& times.global_other_cpu_time == 0
            }
        }),
{
    let p = e.next_tgid.unwrap();
    law_event_keeps_consistent(s.tracker, e);
    let u = s.tracker.after_event(e);
    assert(s.tracker.counter(p).threads == running(s.tracker.cpus, Some(p)));
    assert(u.counter(p).threads == s.tracker.counter(p).threads + 1);
    assert(u.total.aggregate <= u64::MAX);
}

/// Where a process comes to a CPU and then runs nowhere else, the time is told since it was last seen
/// leaving all CPUs, even where it takes over from itself; and so is the CPU time of all processes
/// since then. Where it runs elsewhere too, none is told.
pub proof fn law_time_since_all_cpus_were_left(s: OffCpuView, e: EventView)
    requires
        s.wf(),
        e.cpu_id < s.tracker.cpus.len(),
        s.tracker.can_take(e),
        e.is_context_switch,
        s.out_of(e.next_tgid.unwrap()).everywhere.time <= e.timestamp,
        s.out_of(e.next_tgid.unwrap()).everywhere.cpu_time <= s.tracker.total.aggregate,
    ensures
        ({
            let p = e.next_tgid.unwrap();
            let out = s.out_of(p).everywhere;
            let after = s.after(e);
            let times = after.buffered[e.cpu_id as int];
            if out.time > 0 && running(after.tracker.cpus, Some(p)) == 1 {
                &&& times.global_off_time == e.timestamp - out.time
                &&& times.global_other_cpu_time == after.tracker.total.aggregate - out.cpu_time
            } else {
                &&& times.global_off_time == 0
                &&& times.global_other_cpu_time == 0
            }
        }),
{
    let p = e.next_tgid.unwrap();
    law_event_keeps_consistent(s.tracker, e);
    let u = s.tracker.after_event(e);
    assert(s.tracker.counter(p).threads == running(s.tracker.cpus, Some(p)));
    assert(u.counter(p).threads == running(u.cpus, Some(p)));
    assert(u.cpus[e.cpu_id as int].pid == Some(p));
    lemma_runs_somewhere(u.cpus, e.cpu_id as int, p);
    assert(u.total.aggregate <= u64::MAX);
}

/// Where a process comes to a CPU that it was seen leaving, the time since then is told, and the CPU
/// time that all processes had meanwhile; where it comes for the first time, none is told. A process
/// that takes over from itself was not away.
pub proof fn law_time_away_from_one_cpu(s: OffCpuView, e: EventView)
    requires
        s.wf(),
        outs_in_order(s),
        e.cpu_id < s.tracker.cpus.len(),
        s.tracker.can_take(e),
        e.is_context_switch,
    ensures
        ({
            let p = e.next_tgid.unwrap();
            let was = s.out_of(p).per_cpu;
            let times = s.after(e).buffered[e.cpu_id as int];
            let total = s.after(e).tracker.total.aggregate;
            if p != e.pid && was.dom().contains(e.cpu_id) {
                &&& times.per_cpu_off_time == e.timestamp - was[e.cpu_id].time
                &&& times.per_cpu_other_cpu_time == total - was[e.cpu_id].cpu_time
            } else {
                &&& times.per_cpu_off_time == 0
                &&& times.per_cpu_other_cpu_time == 0
            }
        }),
{
    let p = e.next_tgid.unwrap();
    law_event_keeps_consistent(s.tracker, e);
    let u = s.tracker.after_event(e);
    assert(u.total.aggregate <= u64::MAX);
    if s.out_of(p).per_cpu.dom().contains(e.cpu_id) {
        assert(s.out_of(p).per_cpu[e.cpu_id].time <= s.tracker.total.last);
    }
}

/// The times that an event leaves behind are for its own CPU: those of the other CPUs stay, and an
/// event of a timer leaves none.
pub proof fn law_times_wait_on_their_cpu(s: OffCpuView, e: EventView, cpu: int)
    requires
        s.wf(),
        0 <= cpu < s.buffered.len(),
        e.cpu_id < s.tracker.cpus.len(),
        s.tracker.can_take(e),
    ensures
        s.after(e).buffered.len() == s.buffered.len(),
        cpu != e.cpu_id ==> s.after(e).buffered[cpu] == s.buffered[cpu],
        cpu == e.cpu_id && !e.is_context_switch ==> s.after(e).buffered[cpu] == (OffTimes {
            per_cpu_off_time: 0,
            global_off_time: 0,
            per_cpu_other_cpu_time: 0,
            global_other_cpu_time: 0,
        }),
{
}

/// The analysis after events, each of which can be taken in.
pub open spec fn after_all(s: OffCpuView, events: Seq<EventView>) -> OffCpuView
    decreases events.len(),
{
    if events.len() == 0 {
        s
    } else {
        after_all(s, events.drop_last()).after(events.last())
    }
}

/// Whether events can be taken in one after the other, and none names a process.
pub open spec fn all_of_others(s: OffCpuView, events: Seq<EventView>, p: u32) -> bool
    decreases events.len(),
{
    events.len() > 0 ==> {
        let before = after_all(s, events.drop_last());
        let e = events.last();
        &&& all_of_others(s, events.drop_last(), p)
        &&& e.cpu_id < before.tracker.cpus.len()
        &&& before.tracker.can_take(e)
        &&& e.pid != p
        &&& e.next_tgid != Some(p)
    }
}

proof fn lemma_others(s: OffCpuView, events: Seq<EventView>, p: u32)
    requires
        s.wf(),
        outs_in_order(s),
        all_of_others(s, events, p),
    ensures
        after_all(s, events).wf(),
        outs_in_order(after_all(s, events)),
        after_all(s, events).out_of(p) == s.out_of(p),
        after_all(s, events).tracker.counter(p) == s.tracker.counter(p),
        after_all(s, events).tracker.cpus.len() == s.tracker.cpus.len(),
        after_all(s, events).tracker.total.last >= s.tracker.total.last,
        after_all(s, events).tracker.total.aggregate >= s.tracker.total.aggregate,
    decreases events.len(),
{
    if events.len() > 0 {
        let before = after_all(s, events.drop_last());
        let e = events.last();
        lemma_others(s, events.drop_last(), p);
        law_event_keeps_consistent(before.tracker, e);
        law_event_keeps_outs_in_order(before, e);
    }
}

/// A process that leaves its last CPU, and comes back to some CPU after others have run, was away
/// from all CPUs between the two: that long, and for as much CPU time as all processes had. Where
/// it comes back to the CPU that it left, it was away from that one for the same; to another that
/// it was never on, none is told of that one.
pub proof fn law_coming_back(
    s: OffCpuView,
    first: EventView,
    between: Seq<EventView>,
    second: EventView,
)
    requires
        s.wf(),
        outs_in_order(s),
        first.cpu_id < s.tracker.cpus.len(),
        s.tracker.can_take(first),
        first.is_context_switch,
        first.timestamp > 0,
        first.next_tgid != Some(first.pid),
        running(s.after(first).tracker.cpus, Some(first.pid)) == 0,
        all_of_others(s.after(first), between, first.pid),
        second.cpu_id < s.tracker.cpus.len(),
        after_all(s.after(first), between).tracker.can_take(second),
        second.is_context_switch,
        second.next_tgid == Some(first.pid),
        second.pid != first.pid,
    ensures
        ({
            let then = s.after(first).tracker;
            let after = after_all(s.after(first), between).after(second);
            let times = after.buffered[second.cpu_id as int];
            let away = second.timestamp - first.timestamp;
            let others = after.tracker.total.aggregate - then.total.aggregate;
            &&& times.global_off_time == away
            &&& times.global_other_cpu_time == others
            &&& second.cpu_id == first.cpu_id ==> times.per_cpu_off_time == away
                && times.per_cpu_other_cpu_time == others
            &&& second.cpu_id != first.cpu_id && !s.out_of(first.pid).per_cpu.dom().contains(
                second.cpu_id,
            ) ==> times.per_cpu_off_time == 0 && times.per_cpu_other_cpu_time == 0
        }),
{
    let p = first.pid;
    let mid = s.after(first);
    let before = after_all(mid, between);
    law_event_keeps_consistent(s.tracker, first);
    law_event_keeps_outs_in_order(s, first);
    law_leaving_is_noted(s, first, p, first.cpu_id);
    law_leaving_is_noted(s, first, p, second.cpu_id);
    lemma_others(mid, between, p);
    assert(mid.tracker.total.last == first.timestamp);
    assert(mid.tracker.total.aggregate <= u64::MAX);
    assert(mid.tracker.counter(p).threads == running(mid.tracker.cpus, Some(p)));
    assert(before.tracker.counter(p).threads == running(before.tracker.cpus, Some(p)));
    law_time_away_from_all_cpus(before, second);
    law_time_away_from_one_cpu(before, second);
}

/// Which of the times a metric is.
pub open spec fn metric_of(times: OffTimes, metric: OffMetric) -> u64 {
    match metric {
        OffMetric::PerCpuOffTime => times.per_cpu_off_time,
        OffMetric::GlobalOffTime => times.global_off_time,
        OffMetric::PerCpuOtherCpuTime => times.per_cpu_other_cpu_time,
        OffMetric::GlobalOtherCpuTime => times.global_other_cpu_time,
    }
}

/// A row with instructions and cycles is measured in each metric of which it has a time, and in no
/// other; each measurement has the row's process and counts. What was measured before stays, and
/// of a row without instructions or cycles nothing is measured.
pub proof fn law_rows_are_measured(s: OffCpuView, e: EventView, metric: OffMetric)
    requires
        e.cpu_id < s.buffered.len(),
    ensures
        ({
            let before = s.measured;
            let after = s.after_row(e).measured;
            let value = metric_of(s.buffered[e.cpu_id as int], metric);
            let it = OffMeasurementView {
                process_name: e.process_name,
                metric,
                value,
                cycles: e.cycles,
                instructions: e.instructions,
            };
            let counts = e.instructions > 0 && e.cycles > 0;
            &&& before.len() <= after.len() <= before.len() + 4
            &&& after.take(before.len() as int) == before
            &&& !counts ==> after == before
            &&& counts && value > 0 ==> after.skip(before.len() as int).contains(it)
            &&& forall|i: int|
                before.len() <= i < after.len() && (#[trigger] after[i]).metric == metric
                    ==> after[i] == it && value > 0 && counts
        }),
        s.after_row(e).tracker == s.tracker.after_event(e),
        s.after_row(e).buffered == s.after(e).buffered,
        s.after_row(e).pids == s.after(e).pids,
{
    let times = s.buffered[e.cpu_id as int];
    let m0 = s.measured;
    let m1 = with_measurement(m0, e, OffMetric::PerCpuOffTime, times.per_cpu_off_time);
    let m2 = with_measurement(m1, e, OffMetric::GlobalOffTime, times.global_off_time);
    let m3 = with_measurement(
        m2,
        e,
        OffMetric::PerCpuOtherCpuTime,
        times.per_cpu_other_cpu_time,
    );
    let m4 = with_measurement(m3, e, OffMetric::GlobalOtherCpuTime, times.global_other_cpu_time);
    let after = s.after_row(e).measured;
    let n = m0.len() as int;
    assert(after.take(n) =~= m0);
    if has_cpi(e) {
        assert(after == m4);
        let value = metric_of(times, metric);
        if value > 0 {
            let k = match metric {
                OffMetric::PerCpuOffTime => m1.len() - 1,
                OffMetric::GlobalOffTime => m2.len() - 1,
                OffMetric::PerCpuOtherCpuTime => m3.len() - 1,
                OffMetric::GlobalOtherCpuTime => m4.len() - 1,
            };
            assert(after.skip(n)[k - n] == after[k]);
        }
    }
}

/// Of a batch that is taken in whole there are times for each row, which are those that the event
/// before it on its CPU has left.
pub proof fn law_one_time_for_each_row(s: OffCpuView, events: Seq<EventView>, i: int)
    requires
        run(s, events).stop is No,
        0 <= i < events.len(),
    ensures
        run(s, events).times.len() == events.len(),
        run(s, events.take(i)).stop is No,
        run(s, events).times[i] == run(s, events.take(i)).state.buffered[events[i].cpu_id as int],
    decreases events.len(),
{
    let front = events.drop_last();
    if i == events.len() - 1 {
        assert(events.take(i) =~= front);
        if front.len() > 0 {
            law_one_time_for_each_row(s, front, 0);
        }
    } else {
        law_one_time_for_each_row(s, front, i);
        assert(front.take(i) =~= events.take(i));
    }
}

/// How a trace is cut into batches does not matter: what two batches give, one after the other, is
/// what both give as one.
pub proof fn law_batches_do_not_matter(s: OffCpuView, a: Seq<EventView>, b: Seq<EventView>)
    requires
        run(s, a).stop is No,
    ensures
        run(s, a + b).state == run(run(s, a).state, b).state,
        run(s, a + b).times == run(s, a).times + run(run(s, a).state, b).times,
        run(s, a + b).stop == run(run(s, a).state, b).stop,
    decreases b.len(),
{
    if b.len() == 0 {
        assert(a + b =~= a);
        assert(run(s, a).times + Seq::empty() =~= run(s, a).times);
    } else {
        assert((a + b).drop_last() =~= a + b.drop_last());
        law_batches_do_not_matter(s, a, b.drop_last());
        let mid = run(run(s, a).state, b.drop_last());
        if mid.stop is No {
            assert(run(s, a + b).times =~= run(s, a).times + run(run(s, a).state, b).times);
        }
    }
}

/// A batch ends with an error at the first event on a CPU that the trace does not have, and the
/// rows before it are taken in all the same.
pub proof fn law_invalid_cpus_end_a_batch(
    s: OffCpuView,
    before: Seq<EventView>,
    e: EventView,
    rest: Seq<EventView>,
)
    requires
        run(s, before).stop is No,
        e.cpu_id >= run(s, before).state.tracker.cpus.len(),
    ensures
        run(s, before + seq![e] + rest).stop == Stop::At(TraceErrorView::InvalidCpuId(e.cpu_id)),
        run(s, before + seq![e] + rest).state == run(s, before).state,
    decreases rest.len(),
{
    let all = before + seq![e] + rest;
    if rest.len() == 0 {
        assert(all.drop_last() =~= before);
        assert(all.last() == e);
    } else {
        law_invalid_cpus_end_a_batch(s, before, e, rest.drop_last());
        assert(all.drop_last() =~= before + seq![e] + rest.drop_last());
    }
}

}
