//! How long processes were off the CPU before they came back, from the events of a trace.
//!
//! When a process leaves a CPU the analysis notes the time and the CPU time of all processes. When
//! the process comes back, to that CPU or to any, the differences are the time that it was away
//! and the CPU time that others had meanwhile. They belong to the event that ends the process's
//! stay, which is the next on that CPU.

use std::collections::HashMap;

use vstd::prelude::*;

use crate::schema::{field_of, field_views, DataType, Field};
use crate::batch::Batch;
use crate::trace::cpu_time_tracker::{fresh_tracker, running, CpuTimeTracker, TrackerView};
use crate::trace::error::{TraceError, TraceErrorView};
use crate::trace::event::{
    bare_event, event_views, events_of, has_cpi, law_event_keeps_consistent, read_events, Event,
    EventView, Stop,
};

verus! {

broadcast use vstd::std_specs::hash::group_hash_axioms;

/// How long a process was away: from the CPU that it came to and from all CPUs, in time and in
/// CPU time that all processes had meanwhile.
#[derive(Debug, Clone, Copy, PartialEq, Eq, Structural)]
pub struct OffTimes {
    pub per_cpu_off_time: u64,
    pub global_off_time: u64,
    pub per_cpu_other_cpu_time: u64,
    pub global_other_cpu_time: u64,
}

/// One of the four times.
#[derive(Debug, Clone, Copy, PartialEq, Eq, Structural)]
pub enum OffMetric {
    PerCpuOffTime,
    GlobalOffTime,
    PerCpuOtherCpuTime,
    GlobalOtherCpuTime,
}

/// A time that is not zero, in a row of which cycles per instruction can be told.
#[derive(Debug)]
pub struct OffCpuMeasurement {
    pub process_name: String,
    pub metric: OffMetric,
    pub value: u64,
    pub cycles: u64,
    pub instructions: u64,
}

/// A measurement as a value.
pub ghost struct OffMeasurementView {
    pub process_name: Seq<char>,
    pub metric: OffMetric,
    pub value: u64,
    pub cycles: u64,
    pub instructions: u64,
}

impl View for OffCpuMeasurement {
    type V = OffMeasurementView;

    open spec fn view(&self) -> OffMeasurementView {
        OffMeasurementView {
            process_name: self.process_name@,
            metric: self.metric,
            value: self.value,
            cycles: self.cycles,
            instructions: self.instructions,
        }
    }
}

/// The times of a process that was not away, or of which it is not known.
pub open spec fn no_off_times() -> OffTimes {
    OffTimes {
        per_cpu_off_time: 0,
        global_off_time: 0,
        per_cpu_other_cpu_time: 0,
        global_other_cpu_time: 0,
    }
}

/// When a process left: the time, and the CPU time that all processes had spent.
#[derive(Debug, Clone, Copy, PartialEq, Eq, Structural)]
pub struct ScheduledOut {
    pub time: u64,
    pub cpu_time: u64,
}

/// When a process left each CPU that it was on, and when it left the last of them; time zero
/// stands for never.
pub ghost struct PidOutView {
    pub per_cpu: Map<usize, ScheduledOut>,
    pub everywhere: ScheduledOut,
}

/// A process that was not seen leaving.
pub open spec fn never_out() -> PidOutView {
    PidOutView { per_cpu: Map::empty(), everywhere: ScheduledOut { time: 0, cpu_time: 0 } }
}

/// What the analysis holds. The times that are buffered for a CPU belong to its next event, and
/// the measurements are those that were not taken yet.
pub ghost struct OffCpuView {
    pub tracker: TrackerView,
    pub pids: Map<u32, PidOutView>,
    pub buffered: Seq<OffTimes>,
    pub measured: Seq<OffMeasurementView>,
}

/// An analysis that has seen nothing.
pub open spec fn fresh_off_cpu(num_cpus: nat) -> OffCpuView {
    OffCpuView {
        tracker: fresh_tracker(num_cpus),
        pids: Map::empty(),
        buffered: Seq::new(num_cpus, |i: int| no_off_times()),
        measured: Seq::empty(),
    }
}

/// The difference, or zero where it would be negative.
pub open spec fn gap(later: int, earlier: int) -> u64 {
    if later > earlier {
        (later - earlier) as u64
    } else {
        0
    }
}

impl OffCpuView {
    /// When a process left; never for one that was not seen leaving.
    pub open spec fn out_of(self, pid: u32) -> PidOutView {
        if self.pids.dom().contains(pid) {
            self.pids[pid]
        } else {
            never_out()
        }
    }

    /// There are times for each CPU.
    pub open spec fn wf(self) -> bool {
        self.tracker.consistent() && self.buffered.len() == self.tracker.cpus.len()
    }

    /// The analysis once a process has left a CPU: it is away from that CPU, and where no thread
    /// of it runs, from all.
    pub open spec fn left(self, timestamp: u64, pid: u32, cpu: usize) -> OffCpuView {
        let out = ScheduledOut { time: timestamp, cpu_time: self.tracker.total.aggregate as u64 };
        OffCpuView {
            pids: self.pids.insert(
                pid,
                PidOutView {
                    per_cpu: self.out_of(pid).per_cpu.insert(cpu, out),
                    everywhere: if self.tracker.counter(pid).threads == 0 {
                        out
                    } else {
                        self.out_of(pid).everywhere
                    },
                },
            ),
            ..self
        }
    }

    /// How long a process was away that comes to a CPU. It was away from all CPUs only where it is
    /// the one thread of it that runs.
    pub open spec fn back(self, timestamp: u64, pid: u32, cpu: usize) -> OffTimes {
        let out = self.out_of(pid);
        let total = self.tracker.total.aggregate as int;
        let here = out.per_cpu.dom().contains(cpu);
        let alone = out.everywhere.time > 0 && self.tracker.counter(pid).threads == 1;
        OffTimes {
            per_cpu_off_time: if here {
                gap(timestamp as int, out.per_cpu[cpu].time as int)
            } else {
                0
            },
            global_off_time: if alone {
                gap(timestamp as int, out.everywhere.time as int)
            } else {
                0
            },
            per_cpu_other_cpu_time: if here {
                gap(total, out.per_cpu[cpu].cpu_time as int)
            } else {
                0
            },
            global_other_cpu_time: if alone {
                gap(total, out.everywhere.cpu_time as int)
            } else {
                0
            },
        }
    }

    /// The analysis after an event.
    pub open spec fn after(self, e: EventView) -> OffCpuView {
        let now = OffCpuView { tracker: self.tracker.after_event(e), ..self };
        if e.is_context_switch {
            let left = now.left(e.timestamp, e.pid, e.cpu_id);
            OffCpuView {
                buffered: self.buffered.update(
                    e.cpu_id as int,
                    left.back(e.timestamp, e.next_tgid.unwrap(), e.cpu_id),
                ),
                ..left
            }
        } else {
            OffCpuView {
                buffered: self.buffered.update(e.cpu_id as int, no_off_times()),
                ..now
            }
        }
    }

    /// The analysis after the event of a row, with the measurements that it makes.
    pub open spec fn after_row(self, e: EventView) -> OffCpuView {
        OffCpuView {
            measured: with_measurements(self.measured, e, self.buffered[e.cpu_id as int]),
            ..self.after(e)
        }
    }
}

// ---------------------------------------------------------------------------
// Laws
// ---------------------------------------------------------------------------

/// Nothing was noted after the tracker's last event, and a process of which no thread runs left
/// the last CPU when it left any for the last time.
pub open spec fn outs_in_order(s: OffCpuView) -> bool {
    forall|p: u32, c: usize|
        (#[trigger] s.out_of(p).per_cpu.dom().contains(c)) ==> {
            let out = s.out_of(p);
            &&& out.per_cpu[c].time <= s.tracker.total.last
            &&& out.per_cpu[c].cpu_time <= s.tracker.total.aggregate
            &&& s.tracker.counter(p).threads == 0 ==> out.per_cpu[c].time <= out.everywhere.time
                && out.per_cpu[c].cpu_time <= out.everywhere.cpu_time
        }
}

/// In a new analysis nothing was noted.
pub proof fn law_fresh_outs_in_order(num_cpus: nat)
    ensures
        outs_in_order(fresh_off_cpu(num_cpus)),
{
}

/// What was noted stays in order over an event.
pub proof fn law_event_keeps_outs_in_order(s: OffCpuView, e: EventView)
    requires
        s.wf(),
        outs_in_order(s),
        e.cpu_id < s.tracker.cpus.len(),
        s.tracker.can_take(e),
    ensures
        outs_in_order(s.after(e)),
{
    law_event_keeps_consistent(s.tracker, e);
    let after = s.after(e);
    let t = after.tracker;
    assert forall|p: u32, c: usize|
        (#[trigger] after.out_of(p).per_cpu.dom().contains(c)) implies {
        let out = after.out_of(p);
        &&& out.per_cpu[c].time <= t.total.last
        &&& out.per_cpu[c].cpu_time <= t.total.aggregate
        &&& t.counter(p).threads == 0 ==> out.per_cpu[c].time <= out.everywhere.time
            && out.per_cpu[c].cpu_time <= out.everywhere.cpu_time
    } by {
        let before = s.out_of(p);
        if before.per_cpu.dom().contains(c) {
            assert(before.per_cpu[c].time <= s.tracker.total.last);
        }
        assert(t.counter(p).threads == running(t.cpus, Some(p)));
        if e.is_context_switch && p == e.next_tgid.unwrap() && p != e.pid {
            assert(t.counter(p).threads == s.tracker.counter(p).threads + 1);
        }
    }
}

/// A process that comes back was away from the CPU that it comes to at least as long as from all
/// CPUs, and others had at least as much CPU time meanwhile, wherever both are known.
pub proof fn law_away_from_one_at_least_as_from_all(s: OffCpuView, e: EventView)
    requires
        s.wf(),
        outs_in_order(s),
        e.cpu_id < s.tracker.cpus.len(),
        s.tracker.can_take(e),
        e.is_context_switch,
        e.next_tgid.unwrap() != e.pid,
        s.out_of(e.next_tgid.unwrap()).per_cpu.dom().contains(e.cpu_id),
    ensures
        ({
            let times = s.after(e).buffered[e.cpu_id as int];
            &&& times.global_off_time <= times.per_cpu_off_time
            &&& times.global_other_cpu_time <= times.per_cpu_other_cpu_time
        }),
{
    let next = e.next_tgid.unwrap();
    law_event_keeps_consistent(s.tracker, e);
    let t = s.tracker.after_event(e);
    let out = s.out_of(next);
    assert(t.counter(next).threads == s.tracker.counter(next).threads + 1);
    assert(out.per_cpu[e.cpu_id].time <= s.tracker.total.last);
    assert(t.total.aggregate <= u64::MAX);
}

// ---------------------------------------------------------------------------
// The analysis
// ---------------------------------------------------------------------------

/// When a process left the CPUs.
#[derive(Debug)]
struct PidState {
    per_cpu: HashMap<usize, ScheduledOut>,
    everywhere: ScheduledOut,
}

impl View for PidState {
    type V = PidOutView;

    closed spec fn view(&self) -> PidOutView {
        PidOutView { per_cpu: self.per_cpu@, everywhere: self.everywhere }
    }
}

impl PidState {
    fn new() -> (r: PidState)
        ensures
            r@ == never_out(),
    {
        PidState { per_cpu: HashMap::new(), everywhere: ScheduledOut { time: 0, cpu_time: 0 } }
    }
}

/// Where the statistics go, one path for each of the four times.
#[derive(Debug)]
pub struct OffCpuPaths {
    pub per_cpu_off_time: String,
    pub global_off_time: String,
    pub per_cpu_other_cpu_time: String,
    pub global_other_cpu_time: String,
}

/// Main off-CPU analysis processor.
pub struct OffCpuAnalysis {
    cpu_time_tracker: CpuTimeTracker,
    per_pid_state: HashMap<u32, PidState>,
    buffered_measurements: Vec<OffTimes>,
    measurements: Vec<OffCpuMeasurement>,
    csv_paths: Option<OffCpuPaths>,
}

impl View for OffCpuAnalysis {
    type V = OffCpuView;

    closed spec fn view(&self) -> OffCpuView {
        OffCpuView {
            tracker: self.cpu_time_tracker@,
            pids: self.per_pid_state@.map_values(|p: PidState| p@),
            buffered: self.buffered_measurements@,
            measured: measured(self.measurements@),
        }
    }
}

impl OffCpuAnalysis {
    /// The paths of the statistics, once they are set.
    pub closed spec fn paths(&self) -> Option<OffCpuPaths> {
        self.csv_paths
    }

    /// Creates an analysis for that many CPUs.
    pub fn new(num_cpus: usize) -> (r: Result<OffCpuAnalysis, TraceError>)
        ensures
            r is Ok,
            r->Ok_0@ == fresh_off_cpu(num_cpus as nat),
            r->Ok_0@.wf(),
            r->Ok_0.paths() is None,
    {
        let none = OffTimes {
            per_cpu_off_time: 0,
            global_off_time: 0,
            per_cpu_other_cpu_time: 0,
            global_other_cpu_time: 0,
        };
        let mut buffered_measurements: Vec<OffTimes> = Vec::new();
        let mut i: usize = 0;
        while i < num_cpus
            invariant
                i <= num_cpus,
                none == no_off_times(),
                buffered_measurements@.len() == i,
                forall|k: int| 0 <= k < i ==> (#[trigger] buffered_measurements@[k]) == none,
            decreases num_cpus - i,
        {
            buffered_measurements.push(none);
            i = i + 1;
        }
        let r = OffCpuAnalysis {
            cpu_time_tracker: CpuTimeTracker::new(num_cpus),
            per_pid_state: HashMap::new(),
            buffered_measurements,
            measurements: Vec::new(),
            csv_paths: None,
        };
        assert(r@.pids =~= Map::<u32, PidOutView>::empty());
        assert(r@.buffered =~= fresh_off_cpu(num_cpus as nat).buffered);
        assert(r@.measured =~= Seq::<OffMeasurementView>::empty());
        Ok(r)
    }

    /// Sets the paths of the statistics.
    pub fn set_csv_paths(
        &mut self,
        per_cpu_off_time_path: String,
        global_off_time_path: String,
        per_cpu_other_cpu_time_path: String,
        global_other_cpu_time_path: String,
    )
        ensures
            final(self)@ == old(self)@,
            final(self).paths() == Some(
                (OffCpuPaths {
                    per_cpu_off_time: per_cpu_off_time_path,
                    global_off_time: global_off_time_path,
                    per_cpu_other_cpu_time: per_cpu_other_cpu_time_path,
                    global_other_cpu_time: global_other_cpu_time_path,
                }),
            ),
    {
        self.csv_paths = Some(
            OffCpuPaths {
                per_cpu_off_time: per_cpu_off_time_path,
                global_off_time: global_off_time_path,
                per_cpu_other_cpu_time: per_cpu_other_cpu_time_path,
                global_other_cpu_time: global_other_cpu_time_path,
            },
        );
    }

    /// The paths of the statistics.
    pub fn csv_paths(&self) -> (r: Option<&OffCpuPaths>)
        ensures
            r == match self.paths() {
                Some(p) => Some(&p),
                None => None,
            },
    {
        self.csv_paths.as_ref()
    }

    /// The number of CPUs.
    pub fn num_cpus(&self) -> (r: usize)
        ensures
            r == self@.tracker.cpus.len(),
    {
        self.cpu_time_tracker.num_cpus()
    }

    /// How long a process was away that comes to a CPU.
    fn calculate_off_cpu_times_for_context_switch_in(
        &self,
        timestamp: u64,
        incoming_pid: u32,
        cpu_id: usize,
    ) -> (r: OffTimes)
        ensures
            r == self@.back(timestamp, incoming_pid, cpu_id),
    {
        let mut times = OffTimes {
            per_cpu_off_time: 0,
            global_off_time: 0,
            per_cpu_other_cpu_time: 0,
            global_other_cpu_time: 0,
        };
        let total: u64 = self.cpu_time_tracker.get_total_cpu_time();
        if let Some(pid_state) = self.per_pid_state.get(&incoming_pid) {
            assert(self@.out_of(incoming_pid) == pid_state@);
            if let Some(out) = pid_state.per_cpu.get(&cpu_id) {
                times.per_cpu_off_time = timestamp.saturating_sub(out.time);
                times.per_cpu_other_cpu_time = total.saturating_sub(out.cpu_time);
            }
            if pid_state.everywhere.time > 0 {
                let threads: u32 = match self.cpu_time_tracker.get_pid_counter(incoming_pid) {
                    Some(counter) => counter.current_thread_count,
                    None => 0,
                };
                if threads == 1 {
                    times.global_off_time = timestamp.saturating_sub(pid_state.everywhere.time);
                    times.global_other_cpu_time = total.saturating_sub(
                        pid_state.everywhere.cpu_time,
                    );
                }
            }
        }
        times
    }

    /// Notes that a process has left a CPU.
    fn update_pid_state_after_context_switch(
        &mut self,
        timestamp: u64,
        outgoing_pid: u32,
        cpu_id: usize,
    )
        requires
            old(self)@.wf(),
        ensures
            final(self)@ == old(self)@.left(timestamp, outgoing_pid, cpu_id),
            final(self).paths() == old(self).paths(),
    {
        let ghost before = self@;
        let ghost pids0 = self.per_pid_state@;
        let out = ScheduledOut {
            time: timestamp,
            cpu_time: self.cpu_time_tracker.get_total_cpu_time(),
        };
        let threads: u32 = match self.cpu_time_tracker.get_pid_counter(outgoing_pid) {
            Some(counter) => counter.current_thread_count,
            None => 0,
        };
        let state = self.per_pid_state.entry(outgoing_pid).or_insert(PidState::new());
        assert(state@ == before.out_of(outgoing_pid));
        state.per_cpu.insert(cpu_id, out);
        if threads == 0 {
            state.everywhere = out;
        }
        proof {
            let after = before.left(timestamp, outgoing_pid, cpu_id);
            assert(self@.pids =~= after.pids);
        }
    }

    /// Takes in an event, and gives the times that were buffered for it.
    pub fn process_event(
        &mut self,
        timestamp: u64,
        pid: u32,
        cpu_id: usize,
        is_context_switch: bool,
        next_tgid: Option<u32>,
    ) -> (r: Result<OffTimes, TraceError>)
        requires
            old(self)@.wf(),
            cpu_id < old(self)@.tracker.cpus.len() ==> old(self)@.tracker.can_take(
                bare_event(timestamp, pid, cpu_id, is_context_switch, next_tgid),
            ),
        ensures
            final(self)@.wf(),
            final(self).paths() == old(self).paths(),
            ({
                let e = bare_event(timestamp, pid, cpu_id, is_context_switch, next_tgid);
                if cpu_id < old(self)@.tracker.cpus.len() {
                    &&& r == Ok::<OffTimes, TraceError>(old(self)@.buffered[cpu_id as int])
                    &&& final(self)@ == old(self)@.after(e)
                } else {
                    r is Err && r->Err_0@ == TraceErrorView::InvalidCpuId(cpu_id) && final(self)@
                        == old(self)@
                }
            }),
    {
        if cpu_id >= self.buffered_measurements.len() {
            return Err(TraceError::InvalidCpuId(cpu_id));
        }
        let ghost before = self@;
        let ghost e = bare_event(timestamp, pid, cpu_id, is_context_switch, next_tgid);
        proof {
            law_event_keeps_consistent(before.tracker, e);
        }
        let current = self.buffered_measurements[cpu_id];
        if let Err(err) = self.cpu_time_tracker.process_event(
            timestamp,
            pid,
            cpu_id,
            is_context_switch,
            next_tgid,
        ) {
            return Err(err);
        }
        if is_context_switch {
            let next_pid: u32 = next_tgid.unwrap();
            self.update_pid_state_after_context_switch(timestamp, pid, cpu_id);
            let next = self.calculate_off_cpu_times_for_context_switch_in(
                timestamp,
                next_pid,
                cpu_id,
            );
            self.buffered_measurements.set(cpu_id, next);
        } else {
            self.buffered_measurements.set(
                cpu_id,
                OffTimes {
                    per_cpu_off_time: 0,
                    global_off_time: 0,
                    per_cpu_other_cpu_time: 0,
                    global_other_cpu_time: 0,
                },
            );
        }
        Ok(current)
    }

    /// Takes in the events of a batch up to the first that is on no CPU of the trace or that
    /// cannot be taken in; `None` stands for the latter. Rows up to there are measured.
    pub fn process_accepted(&mut self, batch: &Batch) -> (r: Result<
        Option<Vec<OffTimes>>,
        TraceError,
    >)
        requires
            old(self)@.wf(),
            batch.wf(),
        ensures
            final(self)@.wf(),
            final(self).paths() == old(self).paths(),
            match events_of(batch) {
                Err(e) => r is Err && r->Err_0@ == e && final(self)@ == old(self)@,
                Ok(events) => {
                    let all = run(old(self)@, events);
                    &&& final(self)@ == all.state
                    &&& match all.stop {
                        Stop::At(e) => r is Err && r->Err_0@ == e,
                        Stop::Refused => r == Ok::<Option<Vec<OffTimes>>, TraceError>(None),
                        Stop::No => r is Ok && r->Ok_0 is Some && r->Ok_0.unwrap()@ == all.times,
                    }
                },
            },
    {
        let events = match read_events(batch) {
            Ok(v) => v,
            Err(e) => {
                return Err(e);
            },
        };
        let ghost s0 = self@;
        let ghost all = event_views(events@);
        let mut times: Vec<OffTimes> = Vec::new();
        let mut i: usize = 0;
        assert(all.take(0) =~= Seq::<EventView>::empty());
        while i < events.len()
            invariant
                i <= events@.len(),
                all == event_views(events@),
                events_of(batch) == Ok::<Seq<EventView>, TraceErrorView>(all),
                s0 == old(self)@,
                self@.wf(),
                self.paths() == old(self).paths(),
                run(s0, all.take(i as int)) == (OffCpuRun {
                    state: self@,
                    times: times@,
                    stop: Stop::No,
                }),
            decreases events.len() - i,
        {
            let event: &Event = &events[i];
            let ghost e = event@;
            let ghost before = self@;
            proof {
                assert(all.take(i as int + 1).drop_last() =~= all.take(i as int));
                assert(all.take(i as int + 1).last() == e);
            }
            if event.cpu_id < self.num_cpus() && !self.cpu_time_tracker.accepts_event(
                event.timestamp,
                event.pid,
                event.cpu_id,
                event.is_context_switch,
                event.next_tgid,
            ) {
                proof {
                    lemma_run_stops(s0, all, i as int + 1);
                }
                return Ok(None);
            }
            let time = match self.process_event(
                event.timestamp,
                event.pid,
                event.cpu_id,
                event.is_context_switch,
                event.next_tgid,
            ) {
                Ok(time) => time,
                Err(err) => {
                    proof {
                        lemma_run_stops(s0, all, i as int + 1);
                    }
                    return Err(err);
                },
            };
            times.push(time);
            if event.instructions > 0 && event.cycles > 0 {
                measure(
                    &mut self.measurements,
                    event,
                    OffMetric::PerCpuOffTime,
                    time.per_cpu_off_time,
                );
                measure(
                    &mut self.measurements,
                    event,
                    OffMetric::GlobalOffTime,
                    time.global_off_time,
                );
                measure(
                    &mut self.measurements,
                    event,
                    OffMetric::PerCpuOtherCpuTime,
                    time.per_cpu_other_cpu_time,
                );
                measure(
                    &mut self.measurements,
                    event,
                    OffMetric::GlobalOtherCpuTime,
                    time.global_other_cpu_time,
                );
            }
            assert(self@ == before.after_row(e));
            i = i + 1;
        }
        assert(all.take(i as int) =~= all);
        Ok(Some(times))
    }

    /// Takes in the events of a batch, and gives the times of each row. An event on no CPU of the
    /// trace ends it with an error; the rows before it are measured all the same.
    pub fn process_record_batch(&mut self, batch: &Batch) -> (r: Result<
        Vec<OffTimes>,
        TraceError,
    >)
        requires
            old(self)@.wf(),
            batch.wf(),
            events_of(batch) is Ok ==> run(old(self)@, events_of(batch)->Ok_0).stop !is Refused,
        ensures
            final(self)@.wf(),
            final(self).paths() == old(self).paths(),
            match events_of(batch) {
                Err(e) => r is Err && r->Err_0@ == e && final(self)@ == old(self)@,
                Ok(events) => {
                    let all = run(old(self)@, events);
                    &&& final(self)@ == all.state
                    &&& match all.stop {
                        Stop::At(e) => r is Err && r->Err_0@ == e,
                        _ => r is Ok && r->Ok_0@ == all.times,
                    }
                },
            },
    {
        match self.process_accepted(batch) {
            Ok(answer) => Ok(answer.unwrap()),
            Err(e) => Err(e),
        }
    }

    /// Takes the measurements that were made since they were last taken.
    pub fn take_measurements(&mut self) -> (r: Vec<OffCpuMeasurement>)
        ensures
            measured(r@) == old(self)@.measured,
            final(self)@ == (OffCpuView { measured: Seq::empty(), ..old(self)@ }),
            final(self).paths() == old(self).paths(),
    {
        let mut r: Vec<OffCpuMeasurement> = Vec::new();
        std::mem::swap(&mut r, &mut self.measurements);
        assert(self@.measured =~= Seq::<OffMeasurementView>::empty());
        r
    }

    /// The columns that the analysis adds.
    pub fn new_columns_schema(&self) -> (r: Vec<Field>)
        ensures
            field_views(r@) == seq![
                field_of("per_cpu_off_time_ns"@, DataType::Float64, false),
                field_of("global_off_time_ns"@, DataType::Float64, false),
                field_of("per_cpu_other_cpu_time_ns"@, DataType::Float64, false),
                field_of("global_other_cpu_time_ns"@, DataType::Float64, false),
            ],
    {
        let mut fields: Vec<Field> = Vec::new();
        fields.push(Field::new("per_cpu_off_time_ns", DataType::Float64, false));
        fields.push(Field::new("global_off_time_ns", DataType::Float64, false));
        fields.push(Field::new("per_cpu_other_cpu_time_ns", DataType::Float64, false));
        fields.push(Field::new("global_other_cpu_time_ns", DataType::Float64, false));
        assert(field_views(fields@) =~= seq![
            field_of("per_cpu_off_time_ns"@, DataType::Float64, false),
            field_of("global_off_time_ns"@, DataType::Float64, false),
            field_of("per_cpu_other_cpu_time_ns"@, DataType::Float64, false),
            field_of("global_other_cpu_time_ns"@, DataType::Float64, false),
        ]);
        fields
    }
}

/// What a run over events leaves and gives.
pub ghost struct OffCpuRun {
    pub state: OffCpuView,
    pub times: Seq<OffTimes>,
    pub stop: Stop,
}

/// The measurements of a list as values.
pub open spec fn measured(m: Seq<OffCpuMeasurement>) -> Seq<OffMeasurementView> {
    m.map_values(|x: OffCpuMeasurement| x@)
}

/// Measurements and one more, where its value is not zero.
pub open spec fn with_measurement(
    m: Seq<OffMeasurementView>,
    e: EventView,
    metric: OffMetric,
    value: u64,
) -> Seq<OffMeasurementView> {
    if value > 0 {
        m.push(
            OffMeasurementView {
                process_name: e.process_name,
                metric,
                value,
                cycles: e.cycles,
                instructions: e.instructions,
            },
        )
    } else {
        m
    }
}

/// Measurements and those that an event with the given times makes, where cycles per instruction
/// can be told.
pub open spec fn with_measurements(
    m: Seq<OffMeasurementView>,
    e: EventView,
    times: OffTimes,
) -> Seq<OffMeasurementView> {
    if has_cpi(e) {
        let m1 = with_measurement(m, e, OffMetric::PerCpuOffTime, times.per_cpu_off_time);
        let m2 = with_measurement(m1, e, OffMetric::GlobalOffTime, times.global_off_time);
        let m3 = with_measurement(
            m2,
            e,
            OffMetric::PerCpuOtherCpuTime,
            times.per_cpu_other_cpu_time,
        );
        with_measurement(m3, e, OffMetric::GlobalOtherCpuTime, times.global_other_cpu_time)
    } else {
        m
    }
}

/// Adds a measurement where its value is not zero.
fn measure(
    measurements: &mut Vec<OffCpuMeasurement>,
    event: &Event,
    metric: OffMetric,
    value: u64,
)
    ensures
        measured(final(measurements)@) == with_measurement(
            measured(old(measurements)@),
            event@,
            metric,
            value,
        ),
{
    if value > 0 {
        let m = OffCpuMeasurement {
            process_name: event.process_name.clone(),
            metric,
            value,
            cycles: event.cycles,
            instructions: event.instructions,
        };
        measurements.push(m);
        assert(measured(measurements@) =~= measured(old(measurements)@).push(m@));
    }
}

/// The run over the events of rows, one after the other: an event on no CPU of the trace ends it,
/// and so does one that cannot be taken in.
pub open spec fn run(s: OffCpuView, events: Seq<EventView>) -> OffCpuRun
    decreases events.len(),
{
    if events.len() == 0 {
        OffCpuRun { state: s, times: Seq::empty(), stop: Stop::No }
    } else {
        let so_far = run(s, events.drop_last());
        let e = events.last();
        if so_far.stop !is No {
            so_far
        } else if e.cpu_id >= so_far.state.tracker.cpus.len() {
            OffCpuRun { stop: Stop::At(TraceErrorView::InvalidCpuId(e.cpu_id)), ..so_far }
        } else if !so_far.state.tracker.can_take(e) {
            OffCpuRun { stop: Stop::Refused, ..so_far }
        } else {
            OffCpuRun {
                state: so_far.state.after_row(e),
                times: so_far.times.push(so_far.state.buffered[e.cpu_id as int]),
                stop: Stop::No,
            }
        }
    }
}

proof fn lemma_run_stops(s: OffCpuView, events: Seq<EventView>, n: int)
    requires
        0 <= n <= events.len(),
        run(s, events.take(n)).stop !is No,
    ensures
        run(s, events) == run(s, events.take(n)),
    decreases events.len() - n,
{
    if n == events.len() {
        assert(events.take(n) =~= events);
    } else {
        assert(events.take(n + 1).drop_last() =~= events.take(n));
        lemma_run_stops(s, events, n + 1);
    }
}

}
