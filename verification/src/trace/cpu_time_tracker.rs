//! CPU time of every process and of all processes together, from the events of a trace.

use std::collections::HashMap;

use vstd::prelude::*;

use crate::trace::cpu_time_counter::{
    fresh_counter, law_update_is_idempotent, law_update_is_monotone, CounterView, CpuTimeCounter,
};
use crate::trace::error::{TraceError, TraceErrorView};

verus! {

broadcast use vstd::std_specs::hash::group_hash_axioms;

/// What is known of a CPU: the process that it runs, once a context switch has shown it, and the
/// time of its last event.
pub ghost struct CpuView {
    pub pid: Option<u32>,
    pub last: nat,
}

/// Per-CPU state for tracking current PID and last update timestamp.
#[derive(Debug)]
pub struct PerCpuState {
    pub current_pid: Option<u32>,
    pub last_timestamp: u64,
}

impl View for PerCpuState {
    type V = CpuView;

    open spec fn view(&self) -> CpuView {
        CpuView { pid: self.current_pid, last: self.last_timestamp as nat }
    }
}

impl PerCpuState {
    /// The state of a CPU before its first event.
    pub fn new() -> (r: PerCpuState)
        ensures
            r@ == (CpuView { pid: None, last: 0 }),
    {
        PerCpuState { current_pid: None, last_timestamp: 0 }
    }
}

/// What a tracker holds: a counter for each process that was seen, one for all processes but the
/// kernel's, and the CPUs.
pub ghost struct TrackerView {
    pub pids: Map<u32, CounterView>,
    pub total: CounterView,
    pub cpus: Seq<CpuView>,
}

/// Whether a process ID is that of the kernel's threads.
pub open spec fn kernel(pid: u32) -> bool {
    pid == 0
}

/// Whether a CPU is known to run the process, or, without one, any process but the kernel's.
pub open spec fn runs(cpu: CpuView, who: Option<u32>) -> bool {
    match (cpu.pid, who) {
        (None, _) => false,
        (Some(p), Some(q)) => p == q,
        (Some(p), None) => !kernel(p),
    }
}

/// On how many CPUs the process is known to run, or, without one, any process but the kernel's.
pub open spec fn running(cpus: Seq<CpuView>, who: Option<u32>) -> nat
    decreases cpus.len(),
{
    if cpus.len() == 0 {
        0
    } else {
        running(cpus.drop_last(), who) + if runs(cpus.last(), who) {
            1nat
        } else {
            0nat
        }
    }
}

/// One for a true condition, zero for a false one.
pub open spec fn one_if(b: bool) -> int {
    if b {
        1
    } else {
        0
    }
}

impl TrackerView {
    /// The counter of a process; that of one that was not seen is fresh.
    pub open spec fn counter(self, pid: u32) -> CounterView {
        if self.pids.dom().contains(pid) {
            self.pids[pid]
        } else {
            fresh_counter()
        }
    }

    /// Thread counts are those of the CPUs, and nothing was updated after the total.
    pub open spec fn consistent(self) -> bool {
        &&& forall|p: u32|
            (#[trigger] self.counter(p)).threads == running(self.cpus, Some(p)) && self.counter(p).last
                <= self.total.last
        &&& self.total.threads == running(self.cpus, None)
        &&& forall|i: int| 0 <= i < self.cpus.len() ==> (#[trigger] self.cpus[i]).last <= self.total.last
    }

    /// The counter of a process that a context switch involves: up to date, and with a thread less
    /// where it leaves a CPU that was known to run it, and a thread more where it comes.
    pub open spec fn moved(
        self,
        timestamp: nat,
        cpu: int,
        outgoing: u32,
        incoming: u32,
        pid: u32,
    ) -> CounterView {
        self.counter(pid).updated(timestamp).with_more(
            one_if(pid == incoming) - one_if(pid == outgoing && self.cpus[cpu].pid is Some),
        )
    }

    /// The tracker after a context switch.
    pub open spec fn switched(
        self,
        timestamp: nat,
        cpu: int,
        outgoing: u32,
        incoming: u32,
    ) -> TrackerView {
        TrackerView {
            pids: self.pids.insert(
                outgoing,
                self.moved(timestamp, cpu, outgoing, incoming, outgoing),
            ).insert(incoming, self.moved(timestamp, cpu, outgoing, incoming, incoming)),
            total: self.total.updated(timestamp).with_more(
                one_if(!kernel(incoming)) - one_if(
                    !kernel(outgoing) && self.cpus[cpu].pid is Some,
                ),
            ),
            cpus: self.cpus.update(cpu, CpuView { pid: Some(incoming), last: timestamp }),
        }
    }

    /// Whether a context switch on the CPU can be taken in: the CPU is not known to run another
    /// process, the time does not run backwards, and the counters hold the result.
    pub open spec fn can_switch(
        self,
        timestamp: nat,
        cpu: int,
        outgoing: u32,
        incoming: u32,
    ) -> bool {
        &&& self.cpus[cpu].pid matches Some(p) ==> p == outgoing
        &&& self.total.last <= timestamp
        &&& self.switched(timestamp, cpu, outgoing, incoming).total.fits()
        &&& self.moved(timestamp, cpu, outgoing, incoming, outgoing).fits()
        &&& self.moved(timestamp, cpu, outgoing, incoming, incoming).fits()
    }

    /// The tracker after an event of a timer.
    pub open spec fn timed(self, timestamp: nat, pid: u32, cpu: int) -> TrackerView {
        TrackerView {
            pids: self.pids.insert(pid, self.counter(pid).updated(timestamp)),
            total: self.total.updated(timestamp),
            cpus: self.cpus.update(cpu, CpuView { last: timestamp, ..self.cpus[cpu] }),
        }
    }

    /// Whether an event of a timer can be taken in: the time does not run backwards, and the
    /// counters hold the result.
    pub open spec fn can_time(self, timestamp: nat, pid: u32) -> bool {
        &&& self.total.last <= timestamp
        &&& self.total.updated(timestamp).fits()
        &&& self.counter(pid).updated(timestamp).fits()
    }
}

/// A tracker that has seen nothing.
pub open spec fn fresh_tracker(num_cpus: nat) -> TrackerView {
    TrackerView {
        pids: Map::empty(),
        total: fresh_counter(),
        cpus: Seq::new(num_cpus, |i: int| CpuView { pid: None, last: 0 }),
    }
}

// ---------------------------------------------------------------------------
// Lemmas
// ---------------------------------------------------------------------------

proof fn lemma_running_update(cpus: Seq<CpuView>, i: int, cpu: CpuView, who: Option<u32>)
    requires
        0 <= i < cpus.len(),
    ensures
        running(cpus.update(i, cpu), who) == running(cpus, who) - one_if(runs(cpus[i], who)) + one_if(
            runs(cpu, who),
        ),
        running(cpus, who) >= one_if(runs(cpus[i], who)),
    decreases cpus.len(),
{
    let after = cpus.update(i, cpu);
    if i == cpus.len() - 1 {
        assert(after.drop_last() =~= cpus.drop_last());
    } else {
        assert(after.drop_last() =~= cpus.drop_last().update(i, cpu));
        lemma_running_update(cpus.drop_last(), i, cpu, who);
    }
}

proof fn lemma_running_none(cpus: Seq<CpuView>, who: Option<u32>)
    requires
        forall|i: int| 0 <= i < cpus.len() ==> (#[trigger] cpus[i]).pid is None,
    ensures
        running(cpus, who) == 0,
    decreases cpus.len(),
{
    if cpus.len() > 0 {
        lemma_running_none(cpus.drop_last(), who);
    }
}

/// A fresh tracker is consistent.
pub proof fn law_fresh_is_consistent(num_cpus: nat)
    ensures
        fresh_tracker(num_cpus).consistent(),
{
    let t = fresh_tracker(num_cpus);
    assert forall|p: u32|
        (#[trigger] t.counter(p)).threads == running(t.cpus, Some(p)) && t.counter(p).last <= t.total.last by {
        lemma_running_none(t.cpus, Some(p));
    }
    lemma_running_none(t.cpus, None);
}

/// A context switch keeps a tracker consistent.
pub proof fn law_switch_keeps_consistent(
    t: TrackerView,
    timestamp: nat,
    cpu: int,
    outgoing: u32,
    incoming: u32,
)
    requires
        t.consistent(),
        0 <= cpu < t.cpus.len(),
        t.can_switch(timestamp, cpu, outgoing, incoming),
    ensures
        t.switched(timestamp, cpu, outgoing, incoming).consistent(),
{
    let after = t.switched(timestamp, cpu, outgoing, incoming);
    let now = CpuView { pid: Some(incoming), last: timestamp };
    assert forall|p: u32|
        (#[trigger] after.counter(p)).threads == running(after.cpus, Some(p)) && after.counter(p).last
            <= after.total.last by {
        lemma_running_update(t.cpus, cpu, now, Some(p));
        assert(t.counter(p).threads == running(t.cpus, Some(p)));
    }
    lemma_running_update(t.cpus, cpu, now, None);
    assert forall|i: int| 0 <= i < after.cpus.len() implies (#[trigger] after.cpus[i]).last
        <= after.total.last by {
        assert(t.cpus[i].last <= t.total.last);
    }
}

/// An event of a timer keeps a tracker consistent.
pub proof fn law_timer_keeps_consistent(t: TrackerView, timestamp: nat, pid: u32, cpu: int)
    requires
        t.consistent(),
        0 <= cpu < t.cpus.len(),
        t.can_time(timestamp, pid),
    ensures
        t.timed(timestamp, pid, cpu).consistent(),
{
    let after = t.timed(timestamp, pid, cpu);
    let now = CpuView { last: timestamp, ..t.cpus[cpu] };
    assert forall|p: u32|
        (#[trigger] after.counter(p)).threads == running(after.cpus, Some(p)) && after.counter(p).last
            <= after.total.last by {
        lemma_running_update(t.cpus, cpu, now, Some(p));
        assert(t.counter(p).threads == running(t.cpus, Some(p)));
    }
    lemma_running_update(t.cpus, cpu, now, None);
    assert forall|i: int| 0 <= i < after.cpus.len() implies (#[trigger] after.cpus[i]).last
        <= after.total.last by {
        assert(t.cpus[i].last <= t.total.last);
    }
}

// ---------------------------------------------------------------------------
// The tracker
// ---------------------------------------------------------------------------

/// CPU time tracker that maintains state for both concurrency and off-CPU analysis.
pub struct CpuTimeTracker {
    per_pid_counters: HashMap<u32, CpuTimeCounter>,
    total_counter: CpuTimeCounter,
    per_cpu_state: Vec<PerCpuState>,
}

impl View for CpuTimeTracker {
    type V = TrackerView;

    closed spec fn view(&self) -> TrackerView {
        TrackerView {
            pids: self.per_pid_counters@.map_values(|c: CpuTimeCounter| c@),
            total: self.total_counter@,
            cpus: self.per_cpu_state@.map_values(|c: PerCpuState| c@),
        }
    }
}

impl CpuTimeTracker {
    /// Creates a tracker for that many CPUs.
    pub fn new(num_cpus: usize) -> (r: CpuTimeTracker)
        ensures
            r@ == fresh_tracker(num_cpus as nat),
            r@.consistent(),
    {
        let mut per_cpu_state: Vec<PerCpuState> = Vec::new();
        let mut i: usize = 0;
        while i < num_cpus
            invariant
                i <= num_cpus,
                per_cpu_state@.len() == i,
                forall|k: int| 0 <= k < i ==> (#[trigger] per_cpu_state@[k])@ == (CpuView { pid: None, last: 0 }),
            decreases num_cpus - i,
        {
            per_cpu_state.push(PerCpuState::new());
            i = i + 1;
        }
        let r = CpuTimeTracker {
            per_pid_counters: HashMap::new(),
            total_counter: CpuTimeCounter::new(),
            per_cpu_state,
        };
        proof {
            assert(r@.pids =~= Map::<u32, CounterView>::empty());
            assert(r@.cpus =~= fresh_tracker(num_cpus as nat).cpus);
            law_fresh_is_consistent(num_cpus as nat);
        }
        r
    }

    /// Whether a process ID represents a kernel thread.
    pub fn is_kernel(pid: u32) -> (r: bool)
        ensures
            r == kernel(pid),
    {
        pid == 0
    }

    /// The counter for the given process, created where there is none.
    pub fn get_or_create_pid_counter(&mut self, pid: u32) -> (r: &mut CpuTimeCounter)
        ensures
            r@ == old(self)@.counter(pid),
            final(self)@ == (TrackerView {
                pids: old(self)@.pids.insert(pid, final(r)@),
                ..old(self)@
            }),
    {
        let ghost before = self.per_pid_counters@;
        let r = self.per_pid_counters.entry(pid).or_insert(CpuTimeCounter::new());
        proof {
            assert(before.insert(pid, *final(r)).map_values(|c: CpuTimeCounter| c@)
                =~= before.map_values(|c: CpuTimeCounter| c@).insert(pid, final(r)@));
        }
        r
    }

    /// The state of a CPU.
    pub fn get_per_cpu_state(&mut self, cpu_id: usize) -> (r: &mut PerCpuState)
        requires
            cpu_id < old(self)@.cpus.len(),
        ensures
            r@ == old(self)@.cpus[cpu_id as int],
            final(self)@ == (TrackerView {
                cpus: old(self)@.cpus.update(cpu_id as int, final(r)@),
                ..old(self)@
            }),
    {
        let ghost before = self.per_cpu_state@;
        let r = &mut self.per_cpu_state[cpu_id];
        proof {
            assert(before.update(cpu_id as int, *final(r)).map_values(|c: PerCpuState| c@)
                =~= before.map_values(|c: PerCpuState| c@).update(cpu_id as int, final(r)@));
        }
        r
    }

    /// The aggregate CPU time of a process; zero for one that was not seen.
    pub fn get_pid_cpu_time(&self, pid: u32) -> (r: u64)
        ensures
            r == self@.counter(pid).aggregate,
    {
        match self.per_pid_counters.get(&pid) {
            Some(counter) => counter.get_ns(),
            None => 0,
        }
    }

    /// The counter of a process, without creating it.
    pub fn get_pid_counter(&self, pid: u32) -> (r: Option<&CpuTimeCounter>)
        ensures
            match r {
                Some(c) => self@.pids.dom().contains(pid) && c@ == self@.pids[pid],
                None => !self@.pids.dom().contains(pid),
            },
    {
        self.per_pid_counters.get(&pid)
    }

    /// The total CPU time.
    pub fn get_total_cpu_time(&self) -> (r: u64)
        ensures
            r == self@.total.aggregate,
    {
        self.total_counter.get_ns()
    }

    /// The number of CPUs.
    pub fn num_cpus(&self) -> (r: usize)
        ensures
            r == self@.cpus.len(),
    {
        self.per_cpu_state.len()
    }

    /// The time of the last event of a CPU.
    pub fn last_timestamp(&self, cpu_id: usize) -> (r: u64)
        requires
            cpu_id < self@.cpus.len(),
        ensures
            r == self@.cpus[cpu_id as int].last,
    {
        self.per_cpu_state[cpu_id].last_timestamp
    }

    /// The CPU time of a process that an update at the given time would show.
    pub fn pid_cpu_time_at(&self, pid: u32, timestamp: u64) -> (r: u128)
        requires
            self@.consistent(),
            self@.total.last <= timestamp,
        ensures
            r == self@.counter(pid).time_at(timestamp as nat),
    {
        assert(self@.counter(pid).last <= self@.total.last);
        match self.per_pid_counters.get(&pid) {
            Some(counter) => counter.ns_at(timestamp),
            None => 0,
        }
    }

    /// The number of threads of a process that are known to run.
    fn pid_threads(&self, pid: u32) -> (r: u32)
        ensures
            r == self@.counter(pid).threads,
    {
        match self.per_pid_counters.get(&pid) {
            Some(counter) => counter.current_thread_count,
            None => 0,
        }
    }

    /// Whether a context switch on the CPU can be taken in.
    pub fn accepts_context_switch(
        &self,
        timestamp: u64,
        cpu_id: usize,
        outgoing_pid: u32,
        incoming_pid: u32,
    ) -> (r: bool)
        requires
            self@.consistent(),
            cpu_id < self@.cpus.len(),
        ensures
            r == self@.can_switch(
                timestamp as nat,
                cpu_id as int,
                outgoing_pid,
                incoming_pid,
            ),
    {
        let known: bool = match self.per_cpu_state[cpu_id].current_pid {
            Some(pid) => {
                if pid != outgoing_pid {
                    return false;
                }
                true
            },
            None => false,
        };
        if timestamp < self.total_counter.last_update_timestamp {
            return false;
        }
        let ghost t = self@;
        let ghost now = timestamp as nat;
        proof {
            let next = CpuView { pid: Some(incoming_pid), last: now };
            lemma_running_update(t.cpus, cpu_id as int, next, Some(outgoing_pid));
            lemma_running_update(t.cpus, cpu_id as int, next, None);
            assert(t.counter(outgoing_pid).threads == running(t.cpus, Some(outgoing_pid)));
            assert(t.counter(incoming_pid).last <= t.total.last);
            law_update_is_monotone(t.total, now);
            law_update_is_monotone(t.counter(outgoing_pid), now);
            law_update_is_monotone(t.counter(incoming_pid), now);
        }
        let max_time: u128 = u64::MAX as u128;
        let max_threads: u64 = u32::MAX as u64;
        let same: bool = outgoing_pid == incoming_pid;
        let total_left: u64 = self.total_counter.current_thread_count as u64 - if known
            && !Self::is_kernel(outgoing_pid) {
            1
        } else {
            0
        };
        let total: u64 = total_left + if Self::is_kernel(incoming_pid) {
            0
        } else {
            1
        };
        let incoming_left: u64 = self.pid_threads(incoming_pid) as u64 - if known && same {
            1
        } else {
            0
        };
        let incoming: u64 = incoming_left + 1;
        self.total_counter.ns_at(timestamp) <= max_time && total <= max_threads
            && self.pid_cpu_time_at(outgoing_pid, timestamp) <= max_time && self.pid_cpu_time_at(
            incoming_pid,
            timestamp,
        ) <= max_time && incoming <= max_threads
    }

    /// Whether an event of a timer can be taken in.
    pub fn accepts_timer_event(&self, timestamp: u64, pid: u32) -> (r: bool)
        requires
            self@.consistent(),
        ensures
            r == self@.can_time(timestamp as nat, pid),
    {
        if timestamp < self.total_counter.last_update_timestamp {
            return false;
        }
        proof {
            assert(self@.counter(pid).last <= self@.total.last);
            law_update_is_monotone(self@.total, timestamp as nat);
            law_update_is_monotone(self@.counter(pid), timestamp as nat);
        }
        let max_time: u128 = u64::MAX as u128;
        self.total_counter.ns_at(timestamp) <= max_time && self.pid_cpu_time_at(pid, timestamp)
            <= max_time
    }

    /// Takes in a context switch on a CPU.
    pub fn process_context_switch(
        &mut self,
        timestamp: u64,
        cpu_id: usize,
        outgoing_pid: u32,
        incoming_pid: u32,
    ) -> (r: Result<(), TraceError>)
        requires
            old(self)@.consistent(),
            cpu_id < old(self)@.cpus.len() ==> old(self)@.can_switch(
                timestamp as nat,
                cpu_id as int,
                outgoing_pid,
                incoming_pid,
            ),
        ensures
            final(self)@.consistent(),
            cpu_id < old(self)@.cpus.len() ==> r is Ok && final(self)@ == old(self)@.switched(
                timestamp as nat,
                cpu_id as int,
                outgoing_pid,
                incoming_pid,
            ),
            cpu_id >= old(self)@.cpus.len() ==> r is Err && r->Err_0@
                == TraceErrorView::InvalidCpuId(cpu_id) && *final(self) == *old(self),
    {
        if cpu_id >= self.per_cpu_state.len() {
            return Err(TraceError::InvalidCpuId(cpu_id));
        }
        let ghost before = self@;
        let ghost now = CpuView { pid: Some(incoming_pid), last: timestamp as nat };
        let known: bool = self.per_cpu_state[cpu_id].current_pid.is_some();
        proof {
            lemma_running_update(before.cpus, cpu_id as int, now, Some(outgoing_pid));
            lemma_running_update(before.cpus, cpu_id as int, now, None);
            assert(before.counter(outgoing_pid).threads == running(
                before.cpus,
                Some(outgoing_pid),
            ));
            assert(before.counter(incoming_pid).last <= before.total.last);
            law_update_is_idempotent(before.counter(incoming_pid), timestamp as nat);
            assert(known == before.cpus[cpu_id as int].pid is Some);
            law_switch_keeps_consistent(
                before,
                timestamp as nat,
                cpu_id as int,
                outgoing_pid,
                incoming_pid,
            );
        }

        self.total_counter.update(timestamp);

        let outgoing_counter = self.get_or_create_pid_counter(outgoing_pid);
        outgoing_counter.update(timestamp);
        let incoming_counter = self.get_or_create_pid_counter(incoming_pid);
        incoming_counter.update(timestamp);
        assert(self@.pids == before.pids.insert(
            outgoing_pid,
            before.counter(outgoing_pid).updated(timestamp as nat),
        ).insert(incoming_pid, before.counter(incoming_pid).updated(timestamp as nat)));

        if known {
            let outgoing_counter = self.get_or_create_pid_counter(outgoing_pid);
            outgoing_counter.decrease();
            if !Self::is_kernel(outgoing_pid) {
                self.total_counter.decrease();
            }
        }
        let incoming_counter = self.get_or_create_pid_counter(incoming_pid);
        incoming_counter.increase();
        if !Self::is_kernel(incoming_pid) {
            self.total_counter.increase();
        }

        self.per_cpu_state[cpu_id].current_pid = Some(incoming_pid);
        self.per_cpu_state[cpu_id].last_timestamp = timestamp;
        proof {
            let after = before.switched(
                timestamp as nat,
                cpu_id as int,
                outgoing_pid,
                incoming_pid,
            );
            assert(self@.pids =~= after.pids);
            assert(self@.cpus =~= after.cpus);
        }
        Ok(())
    }

    /// Takes in an event of a timer, which is no context switch.
    pub fn process_timer_event(&mut self, timestamp: u64, pid: u32, cpu_id: usize) -> (r: Result<
        (),
        TraceError,
    >)
        requires
            old(self)@.consistent(),
            cpu_id < old(self)@.cpus.len() ==> old(self)@.can_time(timestamp as nat, pid),
        ensures
            final(self)@.consistent(),
            cpu_id < old(self)@.cpus.len() ==> r is Ok && final(self)@ == old(self)@.timed(
                timestamp as nat,
                pid,
                cpu_id as int,
            ),
            cpu_id >= old(self)@.cpus.len() ==> r is Err && r->Err_0@
                == TraceErrorView::InvalidCpuId(cpu_id) && *final(self) == *old(self),
    {
        if cpu_id >= self.per_cpu_state.len() {
            return Err(TraceError::InvalidCpuId(cpu_id));
        }
        let ghost before = self@;
        proof {
            assert(before.counter(pid).last <= before.total.last);
            law_timer_keeps_consistent(before, timestamp as nat, pid, cpu_id as int);
        }
        self.total_counter.update(timestamp);
        let pid_counter = self.get_or_create_pid_counter(pid);
        pid_counter.update(timestamp);
        self.per_cpu_state[cpu_id].last_timestamp = timestamp;
        proof {
            let after = before.timed(timestamp as nat, pid, cpu_id as int);
            assert(self@.pids =~= after.pids);
            assert(self@.cpus =~= after.cpus);
        }
        Ok(())
    }
}

}
