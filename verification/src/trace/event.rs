//! The scheduling events of a trace.

use vstd::prelude::*;

use crate::batch::Batch;
use crate::trace::cpu_time_counter::law_update_is_monotone;
use crate::trace::cpu_time_tracker::{
    law_switch_keeps_consistent, law_timer_keeps_consistent, CpuTimeTracker, TrackerView,
};
use crate::trace::error::{TraceError, TraceErrorView};

verus! {

/// An event on a CPU: a context switch or a timer's, with the work since the CPU's last event.
#[derive(Debug)]
pub struct Event {
    pub timestamp: u64,
    pub pid: u32,
    pub cpu_id: usize,
    pub is_context_switch: bool,
    pub next_tgid: Option<u32>,
    pub instructions: u64,
    pub cycles: u64,
    pub process_name: String,
}

/// What an event says.
pub ghost struct EventView {
    pub timestamp: u64,
    pub pid: u32,
    pub cpu_id: usize,
    pub is_context_switch: bool,
    pub next_tgid: Option<u32>,
    pub instructions: u64,
    pub cycles: u64,
    pub process_name: Seq<char>,
}

impl View for Event {
    type V = EventView;

    open spec fn view(&self) -> EventView {
        EventView {
            timestamp: self.timestamp,
            pid: self.pid,
            cpu_id: self.cpu_id,
            is_context_switch: self.is_context_switch,
            next_tgid: self.next_tgid,
            instructions: self.instructions,
            cycles: self.cycles,
            process_name: self.process_name@,
        }
    }
}

/// What the events of a list say.
pub open spec fn event_views(events: Seq<Event>) -> Seq<EventView> {
    events.map_values(|e: Event| e@)
}

/// Whether cycles per instruction can be told of an event.
pub open spec fn has_cpi(e: EventView) -> bool {
    e.instructions > 0 && e.cycles > 0
}

impl TrackerView {
    /// The tracker after an event on one of its CPUs.
    pub open spec fn after_event(self, e: EventView) -> TrackerView {
        if e.is_context_switch {
            self.switched(e.timestamp as nat, e.cpu_id as int, e.pid, e.next_tgid.unwrap())
        } else {
            self.timed(e.timestamp as nat, e.pid, e.cpu_id as int)
        }
    }

    /// Whether an event on one of the CPUs can be taken in; a context switch has to name the
    /// process that comes.
    pub open spec fn can_take(self, e: EventView) -> bool {
        if e.is_context_switch {
            e.next_tgid is Some && self.can_switch(
                e.timestamp as nat,
                e.cpu_id as int,
                e.pid,
                e.next_tgid.unwrap(),
            )
        } else {
            self.can_time(e.timestamp as nat, e.pid)
        }
    }
}

/// An event keeps a tracker consistent, and no CPU time decreases.
pub proof fn law_event_keeps_consistent(t: TrackerView, e: EventView)
    requires
        t.consistent(),
        e.cpu_id < t.cpus.len(),
        t.can_take(e),
    ensures
        t.after_event(e).consistent(),
        t.after_event(e).cpus.len() == t.cpus.len(),
        t.after_event(e).total.aggregate >= t.total.aggregate,
        t.after_event(e).total.last == e.timestamp,
{
    law_update_is_monotone(t.total, e.timestamp as nat);
    if e.is_context_switch {
        law_switch_keeps_consistent(
            t,
            e.timestamp as nat,
            e.cpu_id as int,
            e.pid,
            e.next_tgid.unwrap(),
        );
    } else {
        law_timer_keeps_consistent(t, e.timestamp as nat, e.pid, e.cpu_id as int);
    }
}

/// An event of which only the scheduling is told.
pub open spec fn bare_event(
    timestamp: u64,
    pid: u32,
    cpu_id: usize,
    is_context_switch: bool,
    next_tgid: Option<u32>,
) -> EventView {
    EventView {
        timestamp,
        pid,
        cpu_id,
        is_context_switch,
        next_tgid,
        instructions: 0,
        cycles: 0,
        process_name: Seq::empty(),
    }
}

impl CpuTimeTracker {
    /// Takes in an event.
    pub fn process_event(
        &mut self,
        timestamp: u64,
        pid: u32,
        cpu_id: usize,
        is_context_switch: bool,
        next_tgid: Option<u32>,
    ) -> (r: Result<(), TraceError>)
        requires
            old(self)@.consistent(),
            cpu_id < old(self)@.cpus.len() ==> old(self)@.can_take(
                bare_event(timestamp, pid, cpu_id, is_context_switch, next_tgid),
            ),
            is_context_switch ==> next_tgid is Some,
        ensures
            final(self)@.consistent(),
            cpu_id < old(self)@.cpus.len() ==> r is Ok && final(self)@ == old(self)@.after_event(
                bare_event(timestamp, pid, cpu_id, is_context_switch, next_tgid),
            ),
            cpu_id >= old(self)@.cpus.len() ==> r is Err && r->Err_0@
                == TraceErrorView::InvalidCpuId(cpu_id) && *final(self) == *old(self),
    {
        if is_context_switch {
            let next_pid: u32 = next_tgid.unwrap();
            self.process_context_switch(timestamp, cpu_id, pid, next_pid)
        } else {
            self.process_timer_event(timestamp, pid, cpu_id)
        }
    }

    /// Whether an event on one of the CPUs can be taken in.
    pub fn accepts_event(
        &self,
        timestamp: u64,
        pid: u32,
        cpu_id: usize,
        is_context_switch: bool,
        next_tgid: Option<u32>,
    ) -> (r: bool)
        requires
            self@.consistent(),
            cpu_id < self@.cpus.len(),
        ensures
            r == self@.can_take(bare_event(timestamp, pid, cpu_id, is_context_switch, next_tgid)),
    {
        if is_context_switch {
            match next_tgid {
                Some(next) => self.accepts_context_switch(timestamp, cpu_id, pid, next),
                None => false,
            }
        } else {
            self.accepts_timer_event(timestamp, pid)
        }
    }
}

/// Why a run over events ended before the last: at an error, or at an event that cannot be taken
/// in.
pub ghost enum Stop {
    No,
    At(TraceErrorView),
    Refused,
}

/// The columns that events are read from, in the order in which they are looked up.
pub ghost struct EventColumns {
    pub timestamp: Seq<i64>,
    pub pid: Seq<i32>,
    pub cpu_id: Seq<i32>,
    pub is_context_switch: Seq<bool>,
    pub next_tgid: Seq<i32>,
    pub no_next_tgid: Seq<bool>,
    pub instructions: Seq<i64>,
    pub cycles: Seq<i64>,
    pub process_name: Seq<String>,
}

/// The columns of a batch, or what is wrong with the first that is not as it should be.
pub open spec fn columns_of(batch: &Batch) -> Result<EventColumns, TraceErrorView> {
    match batch.int64_of("timestamp"@) {
        Err(e) => Err(e),
        Ok(timestamp) => match batch.int32_of("pid"@) {
            Err(e) => Err(e),
            Ok(pid) => match batch.int32_of("cpu_id"@) {
                Err(e) => Err(e),
                Ok(cpu_id) => match batch.boolean_of("is_context_switch"@) {
                    Err(e) => Err(e),
                    Ok(is_context_switch) => match batch.int32_of("next_tgid"@) {
                        Err(e) => Err(e),
                        Ok(next_tgid) => match batch.int64_of("instructions"@) {
                            Err(e) => Err(e),
                            Ok(instructions) => match batch.int64_of("cycles"@) {
                                Err(e) => Err(e),
                                Ok(cycles) => match batch.utf8_of("process_name"@) {
                                    Err(e) => Err(e),
                                    Ok(process_name) => Ok(
                                        EventColumns {
                                            timestamp,
                                            pid: pid.0,
                                            cpu_id: cpu_id.0,
                                            is_context_switch,
                                            next_tgid: next_tgid.0,
                                            no_next_tgid: next_tgid.1,
                                            instructions,
                                            cycles,
                                            process_name,
                                        },
                                    ),
                                },
                            },
                        },
                    },
                },
            },
        },
    }
}

/// The event in a row.
pub open spec fn event_at(c: EventColumns, i: int) -> EventView {
    EventView {
        timestamp: c.timestamp[i] as u64,
        pid: c.pid[i] as u32,
        cpu_id: c.cpu_id[i] as usize,
        is_context_switch: c.is_context_switch[i],
        next_tgid: if c.no_next_tgid[i] {
            None
        } else {
            Some(c.next_tgid[i] as u32)
        },
        instructions: c.instructions[i] as u64,
        cycles: c.cycles[i] as u64,
        process_name: c.process_name[i]@,
    }
}

/// The events of a batch, row by row.
pub open spec fn events_of(batch: &Batch) -> Result<Seq<EventView>, TraceErrorView> {
    match columns_of(batch) {
        Err(e) => Err(e),
        Ok(c) => Ok(Seq::new(batch.num_rows as nat, |i: int| event_at(c, i))),
    }
}

/// The view of the result of reading events.
pub open spec fn events_answer(r: Result<Vec<Event>, TraceError>) -> Result<
    Seq<EventView>,
    TraceErrorView,
> {
    match r {
        Ok(v) => Ok(event_views(v@)),
        Err(e) => Err(e@),
    }
}

/// Reads the events of a batch.
pub fn read_events(batch: &Batch) -> (r: Result<Vec<Event>, TraceError>)
    requires
        batch.wf(),
    ensures
        events_answer(r) == events_of(batch),
{
    let timestamp = match batch.int64_column("timestamp") {
        Ok(v) => v,
        Err(e) => {
            return Err(e);
        },
    };
    let pid = match batch.int32_column("pid") {
        Ok(v) => v.0,
        Err(e) => {
            return Err(e);
        },
    };
    let cpu_id = match batch.int32_column("cpu_id") {
        Ok(v) => v.0,
        Err(e) => {
            return Err(e);
        },
    };
    let is_context_switch = match batch.boolean_column("is_context_switch") {
        Ok(v) => v,
        Err(e) => {
            return Err(e);
        },
    };
    let next_tgid = match batch.int32_column("next_tgid") {
        Ok(v) => v,
        Err(e) => {
            return Err(e);
        },
    };
    let instructions = match batch.int64_column("instructions") {
        Ok(v) => v,
        Err(e) => {
            return Err(e);
        },
    };
    let cycles = match batch.int64_column("cycles") {
        Ok(v) => v,
        Err(e) => {
            return Err(e);
        },
    };
    let process_name = match batch.utf8_column("process_name") {
        Ok(v) => v,
        Err(e) => {
            return Err(e);
        },
    };
    let ghost c = columns_of(batch)->Ok_0;
    let n: usize = batch.num_rows;
    let mut events: Vec<Event> = Vec::new();
    let mut i: usize = 0;
    while i < n
        invariant
            i <= n,
            n == timestamp@.len(),
            n == pid@.len(),
            n == cpu_id@.len(),
            n == is_context_switch@.len(),
            n == next_tgid.0@.len(),
            n == next_tgid.1@.len(),
            n == instructions@.len(),
            n == cycles@.len(),
            n == process_name@.len(),
            c == (EventColumns {
                timestamp: timestamp@,
                pid: pid@,
                cpu_id: cpu_id@,
                is_context_switch: is_context_switch@,
                next_tgid: next_tgid.0@,
                no_next_tgid: next_tgid.1@,
                instructions: instructions@,
                cycles: cycles@,
                process_name: process_name@,
            }),
            events@.len() == i,
            forall|k: int| 0 <= k < i ==> (#[trigger] events@[k])@ == event_at(c, k),
        decreases n - i,
    {
        let next: Option<u32> = if next_tgid.1[i] {
            None
        } else {
            Some(
                #[verifier::truncate]
                (next_tgid.0[i] as u32),
            )
        };
        let event = Event {
            timestamp: #[verifier::truncate]
            (timestamp[i] as u64),
            pid: #[verifier::truncate]
            (pid[i] as u32),
            cpu_id: #[verifier::truncate]
            (cpu_id[i] as usize),
            is_context_switch: is_context_switch[i],
            next_tgid: next,
            instructions: #[verifier::truncate]
            (instructions[i] as u64),
            cycles: #[verifier::truncate]
            (cycles[i] as u64),
            process_name: process_name[i].clone(),
        };
        assert(event@ == event_at(c, i as int));
        events.push(event);
        i = i + 1;
    }
    assert(event_views(events@) =~= Seq::new(n as nat, |i: int| event_at(c, i)));
    Ok(events)
}

}
