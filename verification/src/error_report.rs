//! Reports of events that were lost, at most one per interval.

use vstd::prelude::*;

use crate::decimal::{dec, u128_to_string, usize_to_string};
use crate::text::{concat, opt_view};

verus! {

/// Event types that can be sent to the error reporting channel.
#[derive(Debug)]
pub enum ErrorEvent {
    LostEvents,
}

/// Counts lost events until they are reported.
pub struct ErrorReporter {
    pub lost_events: i32,
}

/// What is reported of lost events; nothing where there are none.
pub open spec fn report_of(lost: nat) -> Option<Seq<char>> {
    if lost > 0 {
        Some("Lost "@ + dec(lost) + " events in the last second"@)
    } else {
        None
    }
}

/// What is reported of lost events.
fn report(lost: i32) -> (r: Option<String>)
    requires
        lost >= 0,
    ensures
        opt_view(r) == report_of(lost as nat),
{
    if lost > 0 {
        let number = u128_to_string(lost as u128);
        let start = concat("Lost ", number.as_str());
        Some(concat(start.as_str(), " events in the last second"))
    } else {
        None
    }
}

/// What happens to a count of events that are reported now and then.
pub ghost enum ReporterStep {
    /// An event is counted.
    Event,
    /// An interval has ended, and what was counted is reported.
    Tick,
    /// No more events can come, and what was counted is reported.
    Closed,
}

/// The count after a step.
pub open spec fn count_after(count: nat, step: ReporterStep) -> nat {
    match step {
        ReporterStep::Event => count + 1,
        ReporterStep::Tick => 0,
        ReporterStep::Closed => 0,
    }
}

/// How many events a step reports.
pub open spec fn reported_by(count: nat, step: ReporterStep) -> nat {
    match step {
        ReporterStep::Event => 0,
        ReporterStep::Tick => count,
        ReporterStep::Closed => count,
    }
}

impl ErrorReporter {
    /// How many events were counted and not yet reported.
    pub open spec fn count(&self) -> nat {
        self.lost_events as nat
    }

    /// A count is never negative.
    pub open spec fn wf(&self) -> bool {
        self.lost_events >= 0
    }

    /// A reporter that has counted nothing.
    pub fn new() -> (r: ErrorReporter)
        ensures
            r.wf(),
            r.count() == 0,
    {
        ErrorReporter { lost_events: 0 }
    }

    /// Counts an event.
    pub fn on_event(&mut self, event: ErrorEvent)
        requires
            old(self).wf(),
            old(self).lost_events < i32::MAX,
        ensures
            final(self).wf(),
            final(self).count() == count_after(old(self).count(), ReporterStep::Event),
    {
        match event {
            ErrorEvent::LostEvents => {
                self.lost_events = self.lost_events + 1;
            },
        }
    }

    /// What is reported at the end of an interval. The count starts anew.
    pub fn on_tick(&mut self) -> (r: Option<String>)
        requires
            old(self).wf(),
        ensures
            final(self).wf(),
            final(self).count() == count_after(old(self).count(), ReporterStep::Tick),
            opt_view(r) == report_of(reported_by(old(self).count(), ReporterStep::Tick)),
    {
        let r = report(self.lost_events);
        self.lost_events = 0;
        r
    }

    /// What is reported at the end of all events.
    pub fn on_closed(self) -> (r: Option<String>)
        requires
            self.wf(),
        ensures
            opt_view(r) == report_of(reported_by(self.count(), ReporterStep::Closed)),
    {
        report(self.lost_events)
    }
}

/// The events among the steps.
pub open spec fn events_in(steps: Seq<ReporterStep>) -> nat
    decreases steps.len(),
{
    if steps.len() == 0 {
        0
    } else {
        events_in(steps.drop_last()) + if steps.last() is Event {
            1nat
        } else {
            0nat
        }
    }
}

/// The count after the steps, from none.
pub open spec fn counted(steps: Seq<ReporterStep>) -> nat
    decreases steps.len(),
{
    if steps.len() == 0 {
        0
    } else {
        count_after(counted(steps.drop_last()), steps.last())
    }
}

/// The sum of what the steps report, from a count of none.
pub open spec fn reported(steps: Seq<ReporterStep>) -> nat
    decreases steps.len(),
{
    if steps.len() == 0 {
        0
    } else {
        reported(steps.drop_last()) + reported_by(counted(steps.drop_last()), steps.last())
    }
}

/// Each event is reported once: what was reported and what is still counted add up to the events,
/// and once no more can come, all were reported.
pub proof fn law_each_event_is_reported_once(steps: Seq<ReporterStep>)
    ensures
        reported(steps) + counted(steps) == events_in(steps),
        steps.len() > 0 && steps.last() is Closed ==> reported(steps) == events_in(steps),
    decreases steps.len(),
{
    if steps.len() > 0 {
        law_each_event_is_reported_once(steps.drop_last());
    }
}

/// What is done about lost events of a ring.
#[derive(Debug)]
pub enum LostEventStep {
    /// The reporter is told, without waiting.
    SendAsync(ErrorEvent),
    /// The reporter is told, once it has room.
    SendBlocking(ErrorEvent),
    /// There is no reporter to tell, so it is logged.
    Log(String),
}

/// What is logged of a ring's lost events that no reporter was told of.
pub open spec fn untold_text(ring_index: nat, why: Seq<char>) -> Seq<char> {
    "Lost events notification on ring "@ + dec(ring_index) + why
}

fn untold(ring_index: usize, why: &str) -> (r: String)
    ensures
        r@ == untold_text(ring_index as nat, why@),
{
    let number = usize_to_string(ring_index);
    let start = concat("Lost events notification on ring ", number.as_str());
    concat(start.as_str(), why)
}

/// What is done about lost events of a ring. A thread that runs tasks must not be blocked.
pub fn handle_lost_events(ring_index: usize, has_sender: bool, in_runtime: bool) -> (r:
    LostEventStep)
    ensures
        match r {
            LostEventStep::SendAsync(_) => has_sender && in_runtime,
            LostEventStep::SendBlocking(_) => has_sender && !in_runtime,
            LostEventStep::Log(s) => !has_sender && s@ == untold_text(
                ring_index as nat,
                " (no error sender)"@,
            ),
        },
{
    if has_sender {
        if in_runtime {
            LostEventStep::SendAsync(ErrorEvent::LostEvents)
        } else {
            LostEventStep::SendBlocking(ErrorEvent::LostEvents)
        }
    } else {
        LostEventStep::Log(untold(ring_index, " (no error sender)"))
    }
}

/// What is logged where the reporter is gone.
pub fn lost_events_unsent(ring_index: usize) -> (r: String)
    ensures
        r@ == untold_text(ring_index as nat, " (error channel closed)"@),
{
    untold(ring_index, " (error channel closed)")
}

/// What follows the processors in the report of a timer that moved.
pub const MIGRATION_ADVICE: &'static str = "\nTimer pinning failed - measurements are no longer reliable.\nThis indicates either:\n  1. Kernel version doesn't support BPF timer CPU pinning (requires 6.7+)\n  2. Legacy fallback timer migration control failed\n  This case should never happen, please report this as a bug with the distribution and kernel version.\nExiting to prevent incorrect performance measurements.";

/// The report of a timer that moved from its processor.
pub open spec fn migration_text(expected_cpu: u32, actual_cpu: u32) -> Seq<char> {
    "CRITICAL ERROR: Timer migration detected!\nExpected CPU: "@ + dec(expected_cpu as nat)
        + ", Actual CPU: "@ + dec(actual_cpu as nat) + MIGRATION_ADVICE@
}

/// The report of a timer that moved from its processor.
pub fn timer_migration_report(expected_cpu: u32, actual_cpu: u32) -> (r: String)
    ensures
        r@ == migration_text(expected_cpu, actual_cpu),
{
    let expected = u128_to_string(expected_cpu as u128);
    let actual = u128_to_string(actual_cpu as u128);
    let mut r = concat(
        "CRITICAL ERROR: Timer migration detected!\nExpected CPU: ",
        expected.as_str(),
    );
    r.append(", Actual CPU: ");
    r.append(actual.as_str());
    r.append(MIGRATION_ADVICE);
    r
}

}
