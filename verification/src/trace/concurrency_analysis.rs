//! How many threads run at the same time, from the events of a trace.
//!
//! Between two events of a CPU the analysis reads how much CPU time all processes, and the
//! process on that CPU, have spent. The average number of threads is that CPU time divided by the
//! interval.

use vstd::prelude::*;

use crate::schema::{field_of, field_views, DataType, Field};
use crate::batch::Batch;
use crate::trace::cpu_time_counter::law_update_is_monotone;
use crate::trace::cpu_time_tracker::{
    fresh_tracker, running, CpuTimeTracker, CpuView, TrackerView,
};
use crate::trace::error::{TraceError, TraceErrorView};
use crate::trace::event::{
    bare_event, event_views, events_of, has_cpi, law_event_keeps_consistent, read_events, Event,
    EventView, Stop,
};

verus! {

/// The CPU time that was spent in an interval, by all processes and by one. An interval of zero
/// stands for none.
#[derive(Debug, Clone, Copy, PartialEq, Eq, Structural)]
pub struct ThreadTime {
    pub interval: u64,
    pub total: u64,
    pub same_process: u64,
}

/// A row of which cycles per instruction can be told.
#[derive(Debug)]
pub struct ConcurrencyMeasurement {
    pub process_name: String,
    pub time: ThreadTime,
    pub cycles: u64,
    pub instructions: u64,
}

/// Readings of the CPU time at the last event of a CPU.
#[derive(Debug)]
struct StartTimes {
    total: u64,
    same_process: u64,
}

/// The readings at the last event of a CPU.
pub ghost struct StartView {
    pub total: nat,
    pub same_process: nat,
}

/// What the analysis holds. The measurements are those that were not taken yet.
pub ghost struct ConcurrencyView {
    pub tracker: TrackerView,
    pub starts: Seq<StartView>,
    pub measured: Seq<MeasurementView>,
}

/// A measurement as a value.
pub ghost struct MeasurementView {
    pub process_name: Seq<char>,
    pub time: ThreadTime,
    pub cycles: u64,
    pub instructions: u64,
}

impl View for ConcurrencyMeasurement {
    type V = MeasurementView;

    open spec fn view(&self) -> MeasurementView {
        MeasurementView {
            process_name: self.process_name@,
            time: self.time,
            cycles: self.cycles,
            instructions: self.instructions,
        }
    }
}

/// An analysis that has seen nothing.
pub open spec fn fresh_concurrency(num_cpus: nat) -> ConcurrencyView {
    ConcurrencyView {
        tracker: fresh_tracker(num_cpus),
        starts: Seq::new(num_cpus, |i: int| StartView { total: 0, same_process: 0 }),
        measured: Seq::empty(),
    }
}

impl ConcurrencyView {
    /// The readings are there for each CPU and are none of the future.
    pub open spec fn wf(self) -> bool {
        &&& self.tracker.consistent()
        &&& self.starts.len() == self.tracker.cpus.len()
        &&& forall|i: int|
            0 <= i < self.starts.len() ==> (#[trigger] self.starts[i]).total
                <= self.tracker.total.aggregate
    }

    /// The time since the last event of the event's CPU; zero for the first.
    pub open spec fn interval(self, e: EventView) -> int {
        let last = self.tracker.cpus[e.cpu_id as int].last;
        if last > 0 {
            e.timestamp - last
        } else {
            0
        }
    }

    /// Whether an event on one of the CPUs can be taken in: the tracker takes it in, and the CPU
    /// time of the event's process is not behind the reading at the CPU's last event.
    pub open spec fn can_take(self, e: EventView) -> bool {
        &&& self.tracker.can_take(e)
        &&& self.interval(e) > 0 ==> self.tracker.after_event(e).counter(e.pid).aggregate
            >= self.starts[e.cpu_id as int].same_process
    }

    /// The time of the threads in the interval that an event ends.
    pub open spec fn time_of(self, e: EventView) -> ThreadTime {
        let start = self.starts[e.cpu_id as int];
        if self.interval(e) > 0 {
            ThreadTime {
                interval: self.interval(e) as u64,
                total: (self.tracker.after_event(e).total.aggregate - start.total) as u64,
                same_process: (self.tracker.after_event(e).counter(e.pid).aggregate - start.same_process) as u64,
            }
        } else {
            ThreadTime { interval: 0, total: 0, same_process: 0 }
        }
    }

    /// The analysis after an event: the CPU's readings are those of now, of the process that
    /// comes where there is one.
    pub open spec fn after(self, e: EventView) -> ConcurrencyView {
        let t = self.tracker.after_event(e);
        let pid = match e.next_tgid {
            Some(next) => next,
            None => e.pid,
        };
        ConcurrencyView {
            tracker: t,
            starts: self.starts.update(
                e.cpu_id as int,
                StartView { total: t.total.aggregate, same_process: t.counter(pid).aggregate },
            ),
            ..self
        }
    }

    /// The analysis after the event of a row, which is measured where cycles per instruction can
    /// be told.
    pub open spec fn after_row(self, e: EventView) -> ConcurrencyView {
        let after = self.after(e);
        if has_cpi(e) {
            ConcurrencyView {
                measured: after.measured.push(measurement(e, self.time_of(e))),
                ..after
            }
        } else {
            after
        }
    }
}

/// An event keeps the analysis well formed.
pub proof fn law_event_keeps_wf(s: ConcurrencyView, e: EventView)
    requires
        s.wf(),
        e.cpu_id < s.tracker.cpus.len(),
        s.can_take(e),
    ensures
        s.after(e).wf(),
        s.tracker.after_event(e).total.aggregate >= s.tracker.total.aggregate,
{
    law_event_keeps_consistent(s.tracker, e);
    assert forall|i: int| 0 <= i < s.after(e).starts.len() implies (#[trigger] s.after(
        e,
    ).starts[i]).total <= s.after(e).tracker.total.aggregate by {
        assert(s.starts[i].total <= s.tracker.total.aggregate);
    }
}

/// Whether no reading is further behind than all CPUs could have run since.
pub open spec fn readings_bounded(s: ConcurrencyView) -> bool {
    forall|i: int|
        0 <= i < s.starts.len() && (#[trigger] s.tracker.cpus[i]).last > 0
            ==> s.tracker.total.aggregate <= s.starts[i].total + (s.tracker.total.last
            - s.tracker.cpus[i].last) * s.tracker.cpus.len()
}

proof fn lemma_running_at_most(cpus: Seq<CpuView>, who: Option<u32>)
    ensures
        running(cpus, who) <= cpus.len(),
    decreases cpus.len(),
{
    if cpus.len() > 0 {
        lemma_running_at_most(cpus.drop_last(), who);
    }
}

/// A new analysis has no reading that is behind.
pub proof fn law_fresh_readings_bounded(num_cpus: nat)
    ensures
        readings_bounded(fresh_concurrency(num_cpus)),
{
}

/// On average at most as many threads run as there are CPUs: the CPU time of all processes in an
/// interval is at most the interval times the number of CPUs.
pub proof fn law_concurrency_is_bounded(s: ConcurrencyView, e: EventView)
    requires
        s.wf(),
        readings_bounded(s),
        e.cpu_id < s.tracker.cpus.len(),
        s.can_take(e),
    ensures
        s.time_of(e).total <= s.time_of(e).interval * s.tracker.cpus.len(),
        readings_bounded(s.after(e)),
{
    let t = s.tracker;
    let n = t.cpus.len();
    let after = s.tracker.after_event(e);
    let ts = e.timestamp as nat;
    law_event_keeps_wf(s, e);
    law_update_is_monotone(t.total, ts);
    lemma_running_at_most(t.cpus, None);
    assert forall|i: int| 0 <= i < n && (#[trigger] t.cpus[i]).last > 0 implies after.total.aggregate
        <= s.starts[i].total + (ts - t.cpus[i].last) * n by {
        let k = ts - t.total.last;
        let old_gap = t.total.last - t.cpus[i].last;
        assert(t.cpus[i].last <= t.total.last);
        assert((ts - t.total.last) * t.total.threads <= k * n) by (nonlinear_arith)
            requires
                k == ts - t.total.last,
                k >= 0,
                t.total.threads <= n,
        ;
        assert((ts - t.cpus[i].last) * n == old_gap * n + k * n) by (nonlinear_arith)
            requires
                k == ts - t.total.last,
                old_gap == t.total.last - t.cpus[i].last,
        ;
    }
    let c = e.cpu_id as int;
    assert(t.cpus[c].last <= t.total.last);
    assert(s.starts[c].total <= t.total.aggregate);
    assert forall|i: int|
        0 <= i < s.after(e).starts.len() && (#[trigger] s.after(e).tracker.cpus[i]).last
            > 0 implies after.total.aggregate <= s.after(e).starts[i].total + (after.total.last
        - after.cpus[i].last) * n by {
        if i == c {
            assert((ts - ts) * n == 0) by (nonlinear_arith);
        } else {
            assert(t.cpus[i] == after.cpus[i]);
        }
    }
}

/// Main concurrency analysis processor.
pub struct ConcurrencyAnalysis {
    cpu_time_tracker: CpuTimeTracker,
    per_cpu_state: Vec<StartTimes>,
    measurements: Vec<ConcurrencyMeasurement>,
    total_csv_path: Option<String>,
    same_process_csv_path: Option<String>,
}

impl View for ConcurrencyAnalysis {
    type V = ConcurrencyView;

    closed spec fn view(&self) -> ConcurrencyView {
        ConcurrencyView {
            tracker: self.cpu_time_tracker@,
            starts: self.per_cpu_state@.map_values(
                |s: StartTimes|
                    StartView { total: s.total as nat, same_process: s.same_process as nat },
            ),
            measured: measured(self.measurements@),
        }
    }
}

impl ConcurrencyAnalysis {
    /// Where the statistics go: the path of those on all processes, and of those on single ones.
    pub closed spec fn csv_paths(&self) -> (Option<String>, Option<String>) {
        (self.total_csv_path, self.same_process_csv_path)
    }

    /// Creates an analysis for that many CPUs.
    pub fn new(num_cpus: usize) -> (r: Result<ConcurrencyAnalysis, TraceError>)
        ensures
            r is Ok,
            r->Ok_0@ == fresh_concurrency(num_cpus as nat),
            r->Ok_0@.wf(),
            r->Ok_0.csv_paths() == (None::<String>, None::<String>),
    {
        let mut per_cpu_state: Vec<StartTimes> = Vec::new();
        let mut i: usize = 0;
        while i < num_cpus
            invariant
                i <= num_cpus,
                per_cpu_state@.len() == i,
                forall|k: int|
                    0 <= k < i ==> (#[trigger] per_cpu_state@[k]) == (StartTimes {
                        total: 0,
                        same_process: 0,
                    }),
            decreases num_cpus - i,
        {
            per_cpu_state.push(StartTimes { total: 0, same_process: 0 });
            i = i + 1;
        }
        let r = ConcurrencyAnalysis {
            cpu_time_tracker: CpuTimeTracker::new(num_cpus),
            per_cpu_state,
            measurements: Vec::new(),
            total_csv_path: None,
            same_process_csv_path: None,
        };
        assert(r@.starts =~= fresh_concurrency(num_cpus as nat).starts);
        assert(r@.measured =~= Seq::<MeasurementView>::empty());
        Ok(r)
    }

    /// Sets the paths of the statistics.
    pub fn set_csv_paths(&mut self, total_path: String, same_process_path: String)
        ensures
            final(self)@ == old(self)@,
            final(self).csv_paths() == (Some(total_path), Some(same_process_path)),
    {
        self.total_csv_path = Some(total_path);
        self.same_process_csv_path = Some(same_process_path);
    }

    /// The path of the statistics on all processes.
    pub fn total_csv_path(&self) -> (r: Option<&String>)
        ensures
            r == match self.csv_paths().0 {
                Some(p) => Some(&p),
                None => None,
            },
    {
        self.total_csv_path.as_ref()
    }

    /// The path of the statistics on single processes.
    pub fn same_process_csv_path(&self) -> (r: Option<&String>)
        ensures
            r == match self.csv_paths().1 {
                Some(p) => Some(&p),
                None => None,
            },
    {
        self.same_process_csv_path.as_ref()
    }

    /// Takes in an event, and gives the time of the threads in the interval that it ends.
    pub fn process_event(
        &mut self,
        timestamp: u64,
        pid: u32,
        cpu_id: usize,
        is_context_switch: bool,
        next_tgid: Option<u32>,
    ) -> (r: Result<ThreadTime, TraceError>)
        requires
            old(self)@.wf(),
            cpu_id < old(self)@.tracker.cpus.len() ==> old(self)@.can_take(
                bare_event(timestamp, pid, cpu_id, is_context_switch, next_tgid),
            ),
        ensures
            final(self)@.wf(),
            final(self).csv_paths() == old(self).csv_paths(),
            ({
                let e = bare_event(timestamp, pid, cpu_id, is_context_switch, next_tgid);
                if cpu_id < old(self)@.tracker.cpus.len() {
                    r == Ok::<ThreadTime, TraceError>(old(self)@.time_of(e)) && final(self)@ == old(
                        self,
                    )@.after(e)
                } else {
                    r is Err && r->Err_0@ == TraceErrorView::InvalidCpuId(cpu_id) && final(self)@
                        == old(self)@
                }
            }),
    {
        if cpu_id >= self.per_cpu_state.len() {
            return Err(TraceError::InvalidCpuId(cpu_id));
        }
        let ghost before = self@;
        let ghost e = bare_event(timestamp, pid, cpu_id, is_context_switch, next_tgid);
        proof {
            law_event_keeps_wf(before, e);
            assert(before.starts[cpu_id as int].total <= before.tracker.total.aggregate);
            assert(before.tracker.cpus[cpu_id as int].last <= before.tracker.total.last);
        }
        let start_total_cpu_time: u64 = self.per_cpu_state[cpu_id].total;
        let start_same_process_cpu_time: u64 = self.per_cpu_state[cpu_id].same_process;
        let last_cpu_timestamp: u64 = self.cpu_time_tracker.get_per_cpu_state(
            cpu_id,
        ).last_timestamp;
        assert(self.cpu_time_tracker@.cpus =~= before.tracker.cpus);

        if let Err(err) = self.cpu_time_tracker.process_event(
            timestamp,
            pid,
            cpu_id,
            is_context_switch,
            next_tgid,
        ) {
            return Err(err);
        }
        assert(self.cpu_time_tracker@ == before.tracker.after_event(e));

        let end_total_cpu_time: u64 = self.cpu_time_tracker.get_total_cpu_time();
        let end_same_process_cpu_time: u64 = self.cpu_time_tracker.get_pid_cpu_time(pid);
        let time_interval: u64 = if last_cpu_timestamp > 0 {
            timestamp - last_cpu_timestamp
        } else {
            0
        };
        let time = if time_interval > 0 {
            ThreadTime {
                interval: time_interval,
                total: end_total_cpu_time - start_total_cpu_time,
                same_process: end_same_process_cpu_time - start_same_process_cpu_time,
            }
        } else {
            ThreadTime { interval: 0, total: 0, same_process: 0 }
        };
        let next_same_process_cpu_time: u64 = match next_tgid {
            Some(next) => self.cpu_time_tracker.get_pid_cpu_time(next),
            None => end_same_process_cpu_time,
        };
        self.per_cpu_state.set(
            cpu_id,
            StartTimes { total: end_total_cpu_time, same_process: next_same_process_cpu_time },
        );
        assert(self@.starts =~= before.after(e).starts);
        Ok(time)
    }

    /// Whether an event on one of the CPUs can be taken in.
    pub fn accepts_event(
        &self,
        timestamp: u64,
        pid: u32,
        cpu_id: usize,
        is_context_switch: bool,
        next_tgid: Option<u32>,
    ) -> (r: bool)
        requires
            self@.wf(),
            cpu_id < self@.tracker.cpus.len(),
        ensures
            r == self@.can_take(bare_event(timestamp, pid, cpu_id, is_context_switch, next_tgid)),
    {
        let ghost e = bare_event(timestamp, pid, cpu_id, is_context_switch, next_tgid);
        if !self.cpu_time_tracker.accepts_event(
            timestamp,
            pid,
            cpu_id,
            is_context_switch,
            next_tgid,
        ) {
            return false;
        }
        proof {
            assert(self@.tracker.counter(pid).last <= self@.tracker.total.last);
            law_update_is_monotone(self@.tracker.counter(pid), timestamp as nat);
        }
        let last: u64 = self.cpu_time_tracker.last_timestamp(cpu_id);
        last == 0 || timestamp <= last || self.cpu_time_tracker.pid_cpu_time_at(pid, timestamp)
            >= self.per_cpu_state[cpu_id].same_process as u128
    }

    /// Takes in the events of a batch up to the first that is on no CPU of the trace or that
    /// cannot be taken in; `None` stands for the latter. Rows up to there are measured.
    pub fn process_accepted(&mut self, batch: &Batch) -> (r: Result<
        Option<Vec<ThreadTime>>,
        TraceError,
    >)
        requires
            old(self)@.wf(),
            batch.wf(),
        ensures
            final(self)@.wf(),
            final(self).csv_paths() == old(self).csv_paths(),
            match events_of(batch) {
                Err(e) => r is Err && r->Err_0@ == e && final(self)@ == old(self)@,
                Ok(events) => {
                    let all = run(old(self)@, events);
                    &&& final(self)@ == all.state
                    &&& match all.stop {
                        Stop::At(e) => r is Err && r->Err_0@ == e,
                        Stop::Refused => r == Ok::<Option<Vec<ThreadTime>>, TraceError>(None),
                        Stop::No => r is Ok && r->Ok_0 is Some && r->Ok_0.unwrap()@ == all.times,
                    }
                },
            },
    {
        let events = match read_events(batch) {
            Ok(v) => v,
            Err(e) => {
                return Err(e);
            },
        };
        let ghost s0 = self@;
        let ghost all = event_views(events@);
        let mut times: Vec<ThreadTime> = Vec::new();
        let mut i: usize = 0;
        assert(all.take(0) =~= Seq::<EventView>::empty());
        while i < events.len()
            invariant
                i <= events@.len(),
                all == event_views(events@),
                events_of(batch) == Ok::<Seq<EventView>, TraceErrorView>(all),
                s0 == old(self)@,
                self@.wf(),
                self.csv_paths() == old(self).csv_paths(),
                run(s0, all.take(i as int)) == (ConcurrencyRun {
                    state: self@,
                    times: times@,
                    stop: Stop::No,
                }),
            decreases events.len() - i,
        {
            let event: &Event = &events[i];
            let ghost e = event@;
            let ghost before = self@;
            proof {
                assert(all.take(i as int + 1).drop_last() =~= all.take(i as int));
                assert(all.take(i as int + 1).last() == e);
            }
            if event.cpu_id < self.num_cpus() && !self.accepts_event(
                event.timestamp,
                event.pid,
                event.cpu_id,
                event.is_context_switch,
                event.next_tgid,
            ) {
                proof {
                    lemma_run_stops(s0, all, i as int + 1);
                }
                return Ok(None);
            }
            let time = match self.process_event(
                event.timestamp,
                event.pid,
                event.cpu_id,
                event.is_context_switch,
                event.next_tgid,
            ) {
                Ok(time) => time,
                Err(err) => {
                    proof {
                        lemma_run_stops(s0, all, i as int + 1);
                    }
                    return Err(err);
                },
            };
            times.push(time);
            if event.instructions > 0 && event.cycles > 0 {
                let ghost earlier = self.measurements@;
                let m = ConcurrencyMeasurement {
                    process_name: event.process_name.clone(),
                    time,
                    cycles: event.cycles,
                    instructions: event.instructions,
                };
                self.measurements.push(m);
                assert(measured(self.measurements@) =~= measured(earlier).push(m@));
            }
            assert(self@ == before.after_row(e));
            i = i + 1;
        }
        assert(all.take(i as int) =~= all);
        Ok(Some(times))
    }

    /// Takes in the events of a batch, and gives the time of the threads of each row. An event on
    /// no CPU of the trace ends it with an error; the rows before it are measured all the same.
    pub fn process_record_batch(&mut self, batch: &Batch) -> (r: Result<
        Vec<ThreadTime>,
        TraceError,
    >)
        requires
            old(self)@.wf(),
            batch.wf(),
            events_of(batch) is Ok ==> run(old(self)@, events_of(batch)->Ok_0).stop !is Refused,
        ensures
            final(self)@.wf(),
            final(self).csv_paths() == old(self).csv_paths(),
            match events_of(batch) {
                Err(e) => r is Err && r->Err_0@ == e && final(self)@ == old(self)@,
                Ok(events) => {
                    let all = run(old(self)@, events);
                    &&& final(self)@ == all.state
                    &&& match all.stop {
                        Stop::At(e) => r is Err && r->Err_0@ == e,
                        _ => r is Ok && r->Ok_0@ == all.times,
                    }
                },
            },
    {
        match self.process_accepted(batch) {
            Ok(answer) => Ok(answer.unwrap()),
            Err(e) => Err(e),
        }
    }

    /// Takes the measurements that were made since they were last taken.
    pub fn take_measurements(&mut self) -> (r: Vec<ConcurrencyMeasurement>)
        ensures
            measured(r@) == old(self)@.measured,
            final(self)@ == (ConcurrencyView { measured: Seq::empty(), ..old(self)@ }),
            final(self).csv_paths() == old(self).csv_paths(),
    {
        let mut r: Vec<ConcurrencyMeasurement> = Vec::new();
        std::mem::swap(&mut r, &mut self.measurements);
        assert(self@.measured =~= Seq::<MeasurementView>::empty());
        r
    }

    /// The columns that the analysis adds.
    pub fn new_columns_schema(&self) -> (r: Vec<Field>)
        ensures
            field_views(r@) == seq![
                field_of("avg_total_threads"@, DataType::Float64, false),
                field_of("avg_same_process_threads"@, DataType::Float64, false),
            ],
    {
        let mut fields: Vec<Field> = Vec::new();
        fields.push(Field::new("avg_total_threads", DataType::Float64, false));
        fields.push(Field::new("avg_same_process_threads", DataType::Float64, false));
        assert(field_views(fields@) =~= seq![
            field_of("avg_total_threads"@, DataType::Float64, false),
            field_of("avg_same_process_threads"@, DataType::Float64, false),
        ]);
        fields
    }

    /// The number of CPUs.
    pub fn num_cpus(&self) -> (r: usize)
        ensures
            r == self@.tracker.cpus.len(),
    {
        self.cpu_time_tracker.num_cpus()
    }
}

/// What a run over events leaves and gives.
pub ghost struct ConcurrencyRun {
    pub state: ConcurrencyView,
    pub times: Seq<ThreadTime>,
    pub stop: Stop,
}

/// The measurement that an event makes.
pub open spec fn measurement(e: EventView, time: ThreadTime) -> MeasurementView {
    MeasurementView {
        process_name: e.process_name,
        time,
        cycles: e.cycles,
        instructions: e.instructions,
    }
}

/// The measurements of a list as values.
pub open spec fn measured(m: Seq<ConcurrencyMeasurement>) -> Seq<MeasurementView> {
    m.map_values(|x: ConcurrencyMeasurement| x@)
}

/// The run over the events of rows, one after the other: an event on no CPU of the trace ends it,
/// and so does one that cannot be taken in.
pub open spec fn run(s: ConcurrencyView, events: Seq<EventView>) -> ConcurrencyRun
    decreases events.len(),
{
    if events.len() == 0 {
        ConcurrencyRun { state: s, times: Seq::empty(), stop: Stop::No }
    } else {
        let so_far = run(s, events.drop_last());
        let e = events.last();
        if so_far.stop !is No {
            so_far
        } else if e.cpu_id >= so_far.state.tracker.cpus.len() {
            ConcurrencyRun { stop: Stop::At(TraceErrorView::InvalidCpuId(e.cpu_id)), ..so_far }
        } else if !so_far.state.can_take(e) {
            ConcurrencyRun { stop: Stop::Refused, ..so_far }
        } else {
            ConcurrencyRun {
                state: so_far.state.after_row(e),
                times: so_far.times.push(so_far.state.time_of(e)),
                stop: Stop::No,
            }
        }
    }
}

proof fn lemma_run_stops(s: ConcurrencyView, events: Seq<EventView>, n: int)
    requires
        0 <= n <= events.len(),
        run(s, events.take(n)).stop !is No,
    ensures
        run(s, events) == run(s, events.take(n)),
    decreases events.len() - n,
{
    if n == events.len() {
        assert(events.take(n) =~= events);
    } else {
        assert(events.take(n + 1).drop_last() =~= events.take(n));
        lemma_run_stops(s, events, n + 1);
    }
}

}
