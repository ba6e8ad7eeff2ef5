//! Laws of the CPU time that a tracker counts.

use vstd::prelude::*;

use crate::trace::cpu_time_counter::law_update_is_monotone;
use crate::trace::cpu_time_tracker::{
    fresh_tracker, kernel, one_if, running, runs, CpuView, TrackerView,
};

verus! {

/// The number of process IDs.
pub open spec fn pid_count() -> nat {
    0x1_0000_0000
}

/// The sum of a function over all processes but the kernel's whose IDs are below `n`.
pub open spec fn sum_below(f: spec_fn(u32) -> int, n: nat) -> int
    decreases n,
{
    if n <= 1 {
        0
    } else {
        sum_below(f, (n - 1) as nat) + f((n - 1) as u32)
    }
}

/// The CPU time of all processes but the kernel's, each brought up to the time of the tracker's
/// last event.
pub open spec fn sum_of_processes(t: TrackerView) -> int {
    sum_below(|p: u32| t.counter(p).time_at(t.total.last), pid_count())
}

/// The total is the sum of the processes; a process that runs was updated, and before the first
/// event none was seen.
pub open spec fn balanced(t: TrackerView) -> bool {
    &&& t.total.aggregate == sum_of_processes(t)
    &&& forall|p: u32| (#[trigger] t.counter(p)).threads > 0 ==> t.counter(p).last > 0
    &&& t.total.last == 0 ==> forall|p: u32| !(#[trigger] t.pids.dom().contains(p))
}

proof fn lemma_sum_equal(f: spec_fn(u32) -> int, g: spec_fn(u32) -> int, n: nat)
    requires
        forall|p: u32| #[trigger] f(p) == g(p),
    ensures
        sum_below(f, n) == sum_below(g, n),
    decreases n,
{
    if n > 1 {
        lemma_sum_equal(f, g, (n - 1) as nat);
    }
}

proof fn lemma_sum_zero(f: spec_fn(u32) -> int, n: nat)
    requires
        forall|p: u32| #[trigger] f(p) == 0,
    ensures
        sum_below(f, n) == 0,
    decreases n,
{
    if n > 1 {
        lemma_sum_zero(f, (n - 1) as nat);
    }
}

proof fn lemma_sum_scaled(
    f: spec_fn(u32) -> int,
    g: spec_fn(u32) -> int,
    h: spec_fn(u32) -> int,
    k: int,
    n: nat,
)
    requires
        forall|p: u32| #[trigger] h(p) == f(p) + k * g(p),
    ensures
        sum_below(h, n) == sum_below(f, n) + k * sum_below(g, n),
    decreases n,
{
    if n > 1 {
        lemma_sum_scaled(f, g, h, k, (n - 1) as nat);
        let p = (n - 1) as u32;
        let rest = sum_below(g, (n - 1) as nat);
        assert(k * (rest + g(p)) == k * rest + k * g(p)) by (nonlinear_arith);
        assert(h(p) == f(p) + k * g(p));
    } else {
        assert(k * 0 == 0);
    }
}

proof fn lemma_sum_one(pid: u32, f: spec_fn(u32) -> int, n: nat)
    requires
        forall|p: u32| #[trigger] f(p) == one_if(p == pid),
        n <= pid_count(),
    ensures
        sum_below(f, n) == one_if(!kernel(pid) && pid < n),
    decreases n,
{
    if n > 1 {
        lemma_sum_one(pid, f, (n - 1) as nat);
        assert(((n - 1) as u32) as nat == n - 1);
    }
}

/// The CPUs that run some process but the kernel's are those that run one of these processes.
proof fn lemma_running_sum(cpus: Seq<CpuView>)
    ensures
        sum_below(|p: u32| running(cpus, Some(p)) as int, pid_count()) == running(cpus, None),
    decreases cpus.len(),
{
    let all = |p: u32| running(cpus, Some(p)) as int;
    if cpus.len() == 0 {
        lemma_sum_zero(all, pid_count());
    } else {
        let front = cpus.drop_last();
        let before = |p: u32| running(front, Some(p)) as int;
        let here = |p: u32| one_if(runs(cpus.last(), Some(p)));
        lemma_running_sum(front);
        lemma_sum_scaled(before, here, all, 1, pid_count());
        match cpus.last().pid {
            Some(pid) => {
                lemma_sum_one(pid, here, pid_count());
            },
            None => {
                lemma_sum_zero(here, pid_count());
            },
        }
    }
}

/// Between events the sum over all processes grows by the time that passes on each busy CPU, as
/// the total does.
proof fn lemma_sum_at(t: TrackerView, timestamp: nat)
    requires
        t.consistent(),
        balanced(t),
        t.total.last <= timestamp,
    ensures
        sum_below(|p: u32| t.counter(p).time_at(timestamp), pid_count()) == t.total.time_at(
            timestamp,
        ),
{
    let at_last = |p: u32| t.counter(p).time_at(t.total.last);
    let at_now = |p: u32| t.counter(p).time_at(timestamp);
    let on_cpu = |p: u32| running(t.cpus, Some(p)) as int;
    let k = timestamp - t.total.last;
    if t.total.last == 0 {
        assert forall|p: u32| #[trigger] at_now(p) == at_last(p) by {
            assert(!t.pids.dom().contains(p));
        }
        lemma_sum_equal(at_now, at_last, pid_count());
    } else {
        assert forall|p: u32| #[trigger] at_now(p) == at_last(p) + k * on_cpu(p) by {
            let c = t.counter(p);
            assert(c.threads == running(t.cpus, Some(p)));
            assert((timestamp - c.last) * c.threads == (t.total.last - c.last) * c.threads + k
                * c.threads) by (nonlinear_arith)
                requires
                    k == timestamp - t.total.last,
            ;
            if c.last == 0 {
                assert(c.threads == 0);
                assert(k * 0 == 0);
            }
        }
        lemma_sum_scaled(at_last, on_cpu, at_now, k, pid_count());
        lemma_running_sum(t.cpus);
    }
}

/// A fresh tracker is balanced.
pub proof fn law_fresh_is_balanced(num_cpus: nat)
    ensures
        balanced(fresh_tracker(num_cpus)),
{
    let t = fresh_tracker(num_cpus);
    lemma_sum_zero(|p: u32| t.counter(p).time_at(t.total.last), pid_count());
}

/// CPU time is conserved over context switches: the total stays the sum of all processes but the
/// kernel's. Time zero stands for a counter that was never updated, so events come later.
pub proof fn law_switch_conserves_time(
    t: TrackerView,
    timestamp: nat,
    cpu: int,
    outgoing: u32,
    incoming: u32,
)
    requires
        t.consistent(),
        balanced(t),
        0 <= cpu < t.cpus.len(),
        t.can_switch(timestamp, cpu, outgoing, incoming),
        timestamp > 0,
    ensures
        balanced(t.switched(timestamp, cpu, outgoing, incoming)),
{
    let after = t.switched(timestamp, cpu, outgoing, incoming);
    let at_now = |p: u32| t.counter(p).time_at(timestamp);
    let at_last = |p: u32| after.counter(p).time_at(after.total.last);
    assert forall|p: u32| #[trigger] at_now(p) == at_last(p) by {
        let c = t.counter(p);
        assert(c.last <= t.total.last);
        law_update_is_monotone(c, timestamp);
        assert((timestamp - timestamp) * after.counter(p).threads == 0) by (nonlinear_arith);
    }
    lemma_sum_at(t, timestamp);
    lemma_sum_equal(at_now, at_last, pid_count());
    law_update_is_monotone(t.total, timestamp);
    assert forall|p: u32| (#[trigger] after.counter(p)).threads > 0 implies after.counter(p).last
        > 0 by {
        assert(t.counter(p).threads > 0 ==> t.counter(p).last > 0);
    }
}

/// CPU time is conserved over the events of timers.
pub proof fn law_timer_conserves_time(t: TrackerView, timestamp: nat, pid: u32, cpu: int)
    requires
        t.consistent(),
        balanced(t),
        0 <= cpu < t.cpus.len(),
        t.can_time(timestamp, pid),
        timestamp > 0,
    ensures
        balanced(t.timed(timestamp, pid, cpu)),
{
    let after = t.timed(timestamp, pid, cpu);
    let at_now = |p: u32| t.counter(p).time_at(timestamp);
    let at_last = |p: u32| after.counter(p).time_at(after.total.last);
    assert forall|p: u32| #[trigger] at_now(p) == at_last(p) by {
        let c = t.counter(p);
        assert(c.last <= t.total.last);
        law_update_is_monotone(c, timestamp);
        assert((timestamp - timestamp) * after.counter(p).threads == 0) by (nonlinear_arith);
    }
    lemma_sum_at(t, timestamp);
    lemma_sum_equal(at_now, at_last, pid_count());
    law_update_is_monotone(t.total, timestamp);
    assert forall|p: u32| (#[trigger] after.counter(p)).threads > 0 implies after.counter(p).last
        > 0 by {
        assert(t.counter(p).threads > 0 ==> t.counter(p).last > 0);
    }
}

/// The CPU time of a process never decreases, whatever event comes.
pub proof fn law_cpu_time_never_decreases(
    t: TrackerView,
    timestamp: nat,
    cpu: int,
    outgoing: u32,
    incoming: u32,
    pid: u32,
)
    requires
        t.consistent(),
        t.total.last <= timestamp,
    ensures
        t.switched(timestamp, cpu, outgoing, incoming).counter(pid).aggregate >= t.counter(
            pid,
        ).aggregate,
        t.timed(timestamp, outgoing, cpu).counter(pid).aggregate >= t.counter(pid).aggregate,
        t.switched(timestamp, cpu, outgoing, incoming).total.aggregate >= t.total.aggregate,
        t.timed(timestamp, outgoing, cpu).total.aggregate >= t.total.aggregate,
{
    assert(t.counter(pid).last <= t.total.last);
    law_update_is_monotone(t.counter(pid), timestamp);
    law_update_is_monotone(t.total, timestamp);
}

}
