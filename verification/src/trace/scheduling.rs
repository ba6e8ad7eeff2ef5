//! Laws that tell what the events of a trace do to CPU time, by who runs where.

use vstd::prelude::*;

use crate::trace::cpu_time_counter::law_update_is_monotone;
use crate::trace::cpu_time_tracker::{kernel, running, runs, CpuView, TrackerView};
use crate::trace::event::{law_event_keeps_consistent, EventView};
use crate::trace::laws::{balanced, law_switch_conserves_time, law_timer_conserves_time};

verus! {

/// An event keeps the total the sum of all processes but the kernel's.
pub proof fn law_event_conserves_time(t: TrackerView, e: EventView)
    requires
        t.consistent(),
        balanced(t),
        e.cpu_id < t.cpus.len(),
        t.can_take(e),
        e.timestamp > 0,
    ensures
        balanced(t.after_event(e)),
        t.after_event(e).consistent(),
{
    law_event_keeps_consistent(t, e);
    if e.is_context_switch {
        law_switch_conserves_time(
            t,
            e.timestamp as nat,
            e.cpu_id as int,
            e.pid,
            e.next_tgid.unwrap(),
        );
    } else {
        law_timer_conserves_time(t, e.timestamp as nat, e.pid, e.cpu_id as int);
    }
}

/// The CPU time of every process grows, from event to event, by the time that passes on each CPU
/// that runs it, and the total by the time that passes on each CPU that runs any but the kernel's.
pub proof fn law_time_passes_where_processes_run(t: TrackerView, e: EventView, p: u32)
    requires
        t.consistent(),
        balanced(t),
        e.cpu_id < t.cpus.len(),
        t.can_take(e),
        e.timestamp > 0,
    ensures
        ({
            let after = t.after_event(e);
            let passed = e.timestamp - t.total.last;
            &&& after.total.last == e.timestamp
            &&& after.counter(p).time_at(e.timestamp as nat) == t.counter(p).time_at(t.total.last)
                + passed * running(t.cpus, Some(p))
            &&& t.total.last > 0 ==> after.total.aggregate == t.total.aggregate + passed * running(
                t.cpus,
                None,
            )
            &&& t.total.last == 0 ==> after.total.aggregate == t.total.aggregate
        }),
{
    let after = t.after_event(e);
    let ts = e.timestamp as nat;
    let c = t.counter(p);
    let passed = ts - t.total.last;
    law_event_keeps_consistent(t, e);
    assert(c.threads == running(t.cpus, Some(p)) && c.last <= t.total.last);
    law_update_is_monotone(c, ts);
    law_update_is_monotone(t.total, ts);
    assert((ts - ts) * after.counter(p).threads == 0) by (nonlinear_arith);
    assert(after.counter(p).time_at(ts) == c.time_at(ts));
    if c.last > 0 {
        assert((ts - c.last) * c.threads == (t.total.last - c.last) * c.threads + passed
            * c.threads) by (nonlinear_arith)
            requires
                passed == ts - t.total.last,
        ;
    } else {
        assert(c.threads == 0);
        assert(passed * 0 == 0);
    }
}

/// After a context switch its CPU runs the process that comes, and after any event the last event
/// of its CPU is that one; which process the CPU runs changes by switches alone, and nothing
/// changes of the other CPUs.
pub proof fn law_events_say_who_runs_where(t: TrackerView, e: EventView, cpu: int)
    requires
        0 <= cpu < t.cpus.len(),
        e.cpu_id < t.cpus.len(),
        t.can_take(e),
    ensures
        ({
            let after = t.after_event(e);
            &&& after.cpus.len() == t.cpus.len()
            &&& cpu != e.cpu_id ==> after.cpus[cpu] == t.cpus[cpu]
            &&& cpu == e.cpu_id ==> after.cpus[cpu].last == e.timestamp
            &&& cpu == e.cpu_id && e.is_context_switch ==> after.cpus[cpu].pid == e.next_tgid
            &&& cpu == e.cpu_id && !e.is_context_switch ==> after.cpus[cpu].pid == t.cpus[cpu].pid
        }),
{
}

/// An event changes what is counted of no process but those that it names.
pub proof fn law_others_are_not_counted(t: TrackerView, e: EventView, p: u32)
    requires
        e.cpu_id < t.cpus.len(),
        t.can_take(e),
        p != e.pid,
        e.is_context_switch ==> e.next_tgid != Some(p),
    ensures
        t.after_event(e).counter(p) == t.counter(p),
{
}

/// A process but the kernel's runs on no more CPUs than all such processes do.
pub proof fn lemma_running_of_one(cpus: Seq<CpuView>, p: u32)
    requires
        !kernel(p),
    ensures
        running(cpus, Some(p)) <= running(cpus, None) <= cpus.len(),
    decreases cpus.len(),
{
    if cpus.len() > 0 {
        lemma_running_of_one(cpus.drop_last(), p);
    }
}

/// A process that a CPU runs is running.
pub proof fn lemma_runs_somewhere(cpus: Seq<CpuView>, i: int, p: u32)
    requires
        0 <= i < cpus.len(),
        cpus[i].pid == Some(p),
    ensures
        running(cpus, Some(p)) >= 1,
    decreases cpus.len(),
{
    if i == cpus.len() - 1 {
        assert(runs(cpus.last(), Some(p)));
    } else {
        lemma_runs_somewhere(cpus.drop_last(), i, p);
    }
}

/// An event is taken in wherever the time does not run backwards, its CPU is not known to run
/// another process, a switch names who comes, and neither the time that can have passed on all
/// CPUs nor their number is too large.
pub proof fn law_plain_events_are_taken(t: TrackerView, e: EventView)
    requires
        t.consistent(),
        balanced(t),
        e.cpu_id < t.cpus.len(),
        t.total.last <= e.timestamp,
        e.is_context_switch ==> e.next_tgid is Some,
        t.cpus[e.cpu_id as int].pid matches Some(p) ==> p == e.pid,
        t.cpus.len() < u32::MAX,
        forall|p: u32|
            (#[trigger] t.counter(p)).time_at(t.total.last) + (e.timestamp - t.total.last)
                * t.cpus.len() <= u64::MAX,
        t.total.aggregate + (e.timestamp - t.total.last) * t.cpus.len() <= u64::MAX,
    ensures
        t.can_take(e),
{
    let ts = e.timestamp as nat;
    let n = t.cpus.len();
    let passed = ts - t.total.last;
    lemma_running_at_most(t.cpus, None);
    assert(passed * t.total.threads <= passed * n) by (nonlinear_arith)
        requires
            passed >= 0,
            t.total.threads <= n,
    ;
    assert(passed * t.total.threads >= 0) by (nonlinear_arith)
        requires
            passed >= 0,
            t.total.threads >= 0,
    ;
    assert forall|p: u32|
        #![trigger t.counter(p)]
        0 <= t.counter(p).time_at(ts) <= u64::MAX && t.counter(p).threads <= n by {
        let c = t.counter(p);
        lemma_running_at_most(t.cpus, Some(p));
        assert(c.threads == running(t.cpus, Some(p)));
        law_update_is_monotone(c, ts);
        assert((ts - c.last) * c.threads == (t.total.last - c.last) * c.threads + passed
            * c.threads) by (nonlinear_arith)
            requires
                passed == ts - t.total.last,
        ;
        assert(passed * c.threads <= passed * n) by (nonlinear_arith)
            requires
                passed >= 0,
                c.threads <= n,
        ;
        assert(passed * n >= 0) by (nonlinear_arith)
            requires
                passed >= 0,
        ;
    }
    let a = t.counter(e.pid);
    if e.is_context_switch {
        let b = t.counter(e.next_tgid.unwrap());
        match t.cpus[e.cpu_id as int].pid {
            Some(p) => {
                lemma_runs_somewhere(t.cpus, e.cpu_id as int, p);
                if !kernel(p) {
                    lemma_running_of_one(t.cpus, p);
                }
            },
            None => {},
        }
        assert(a.threads == running(t.cpus, Some(e.pid)));
    }
}

proof fn lemma_running_at_most(cpus: Seq<CpuView>, who: Option<u32>)
    ensures
        running(cpus, who) <= cpus.len(),
    decreases cpus.len(),
{
    if cpus.len() > 0 {
        lemma_running_at_most(cpus.drop_last(), who);
    }
}

}
