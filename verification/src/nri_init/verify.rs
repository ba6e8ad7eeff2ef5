//! Restart of the runtime's service.
//!
//! A restart says what is to be done next and takes in what came of it: it looks for a service
//! that runs, restarts it, and waits until it is active and was started later than before.

use vstd::prelude::*;

use crate::decimal::{parse_u128, parse_u128_of};
use crate::nri_init::cmd::{CommandLine, CommandLineView};
use crate::nri_init::error::NriError;
use crate::search::{begins, strip_prefix};
use crate::text::{lines, lines_of, opt_view, str_eq, trim, trimmed, views};

verus! {

/// What came of a restart.
#[derive(Debug, Clone, Copy, PartialEq, Eq, Structural)]
pub enum RestartResult {
    NotRequested,
    NotSupported,
    Issued,
    Verified,
}

/// How long a restart is waited for, in seconds.
pub const RESTART_TIMEOUT_SECS: u64 = 60;

/// How long the socket is waited for, in seconds.
pub const SOCKET_TIMEOUT_SECS: u64 = 60;

/// How long to wait before a restart is looked at again, in milliseconds.
pub const RESTART_POLL_MILLIS: u64 = 500;

/// How long to wait before the socket is looked for again, in milliseconds.
pub const SOCKET_POLL_MILLIS: u64 = 1000;

/// A service that may run containerd.
#[derive(Debug, Clone, Copy, PartialEq, Eq, Structural)]
pub enum Service {
    K3s,
    K3sAgent,
    Containerd,
}

/// The name of a service.
pub open spec fn service_name(svc: Service) -> Seq<char> {
    match svc {
        Service::K3s => "k3s"@,
        Service::K3sAgent => "k3s-agent"@,
        Service::Containerd => "containerd"@,
    }
}

impl Service {
    /// The name of the service.
    pub fn name(self) -> (r: &'static str)
        ensures
            r@ == service_name(self),
    {
        match self {
            Service::K3s => "k3s",
            Service::K3sAgent => "k3s-agent",
            Service::Containerd => "containerd",
        }
    }
}

/// What the start of a service's main process is reported with.
pub const START_KEY: &'static str = "ExecMainStartTimestampMonotonic=";

/// The start that a line gives.
pub open spec fn line_start(line: Seq<char>) -> Option<int> {
    if begins(line, START_KEY@) {
        match parse_u128_of(trimmed(line.skip(START_KEY@.len() as int))) {
            Ok(n) => Some(n),
            Err(_) => None,
        }
    } else {
        None
    }
}

/// The start that the first of the lines gives that gives one.
pub open spec fn lines_start(ls: Seq<Seq<char>>) -> Option<int>
    decreases ls.len(),
{
    if ls.len() == 0 {
        None
    } else if line_start(ls[0]) is Some {
        line_start(ls[0])
    } else {
        lines_start(ls.drop_first())
    }
}

/// A start as a number.
pub open spec fn start_view(start: Option<u128>) -> Option<int> {
    match start {
        Some(n) => Some(n as int),
        None => None,
    }
}

/// The start of a service's main process, in microseconds, from what `systemctl show` printed;
/// `None` where it failed or printed none.
pub fn service_monotonic_start(out: Option<&str>) -> (r: Option<u128>)
    ensures
        start_view(r) == match out {
            Some(s) => lines_start(lines_of(s@)),
            None => None,
        },
{
    let text = match out {
        Some(s) => s,
        None => {
            return None;
        },
    };
    let ls = lines(text);
    let ghost all = lines_of(text@);
    let mut i: usize = 0;
    assert(all.skip(0) =~= all);
    while i < ls.len()
        invariant
            i <= ls@.len(),
            all == views(ls@),
            all == lines_of(text@),
            out == Some(text),
            lines_start(all) == lines_start(all.skip(i as int)),
        decreases ls.len() - i,
    {
        let ghost rest = all.skip(i as int);
        assert(rest[0] == ls@[i as int]@);
        if let Some(val) = strip_prefix(ls[i].as_str(), START_KEY) {
            let number = trim(val.as_str());
            if let Ok(n) = parse_u128(number.as_str()) {
                return Some(n);
            }
        }
        assert(rest.drop_first() =~= all.skip(i as int + 1));
        i = i + 1;
    }
    assert(all.skip(i as int) =~= Seq::<Seq<char>>::empty());
    None
}

/// Whether a service is active, from what `systemctl is-active` printed; not where it failed.
pub fn is_active(out: Option<&str>) -> (r: bool)
    ensures
        r == match out {
            Some(s) => trimmed(s@) == "active"@,
            None => false,
        },
{
    match out {
        Some(s) => {
            let t = trim(s);
            str_eq(t.as_str(), "active")
        },
        None => false,
    }
}

/// Where a restart stands. Each place but the first and the last names the service, and when its
/// main process was started before.
#[derive(Debug, Clone, Copy)]
pub enum RestartStage {
    /// The start of a service is to be asked for.
    Observe(Service),
    /// The service is to be restarted with `systemctl`.
    Systemctl(Service, Option<u128>),
    /// The service is to be restarted with `service`.
    ServiceCommand(Service, Option<u128>),
    /// It is to be seen whether there is time left.
    Clock(Service, Option<u128>),
    /// It is to be asked whether the service is active.
    Active(Service, Option<u128>),
    /// The start of the service is to be asked for again.
    Show(Service, Option<u128>),
    /// Some time is to pass.
    Pause(Service, Option<u128>),
    /// The restart has ended.
    Done(RestartResult),
    /// The restart has failed.
    Failed,
}

/// What is to be done next.
#[derive(Debug)]
pub enum RestartAction {
    /// A command is to be run, and what it printed to be told.
    Output(CommandLine),
    /// A command is to be run, and its exit code to be told.
    Exit(CommandLine),
    /// It is to be told whether there is time left.
    Clock,
    /// Some time is to pass.
    Pause,
    /// Nothing.
    Finished,
}

/// What is to be done next, as a value.
pub ghost enum ActionView {
    Output(CommandLineView),
    Exit(CommandLineView),
    Clock,
    Pause,
    Finished,
}

impl View for RestartAction {
    type V = ActionView;

    open spec fn view(&self) -> ActionView {
        match *self {
            RestartAction::Output(c) => ActionView::Output(c@),
            RestartAction::Exit(c) => ActionView::Exit(c@),
            RestartAction::Clock => ActionView::Clock,
            RestartAction::Pause => ActionView::Pause,
            RestartAction::Finished => ActionView::Finished,
        }
    }
}

/// What came of an action.
#[derive(Debug)]
pub enum RestartAnswer {
    /// What the command printed; `None` where it failed.
    Output(Option<String>),
    /// The exit code of the command, or why it was not run.
    Exit(Result<i32, NriError>),
    /// Whether there is time left.
    TimeLeft(bool),
    /// Some time has passed.
    Paused,
}

/// The command that asks for the start of a service.
pub open spec fn show_command(svc: Service) -> CommandLineView {
    CommandLineView {
        program: "systemctl"@,
        args: seq!["show"@, service_name(svc), "-p"@, "ExecMainStartTimestampMonotonic"@],
    }
}

/// What is to be done at a stage.
pub open spec fn action_of(stage: RestartStage) -> ActionView {
    match stage {
        RestartStage::Observe(svc) => ActionView::Output(show_command(svc)),
        RestartStage::Systemctl(svc, _) => ActionView::Exit(
            CommandLineView {
                program: "systemctl"@,
                args: seq!["restart"@, service_name(svc)],
            },
        ),
        RestartStage::ServiceCommand(svc, _) => ActionView::Exit(
            CommandLineView { program: "service"@, args: seq![service_name(svc), "restart"@] },
        ),
        RestartStage::Clock(_, _) => ActionView::Clock,
        RestartStage::Active(svc, _) => ActionView::Output(
            CommandLineView {
                program: "systemctl"@,
                args: seq!["is-active"@, service_name(svc)],
            },
        ),
        RestartStage::Show(svc, _) => ActionView::Output(show_command(svc)),
        RestartStage::Pause(_, _) => ActionView::Pause,
        RestartStage::Done(_) => ActionView::Finished,
        RestartStage::Failed => ActionView::Finished,
    }
}

/// The service to be looked at after one that does not run. Where none runs, the first is
/// restarted.
pub open spec fn observed(svc: Service, start: Option<u128>) -> RestartStage {
    if start is Some {
        RestartStage::Systemctl(svc, start)
    } else {
        match svc {
            Service::K3s => RestartStage::Observe(Service::K3sAgent),
            Service::K3sAgent => RestartStage::Systemctl(Service::K3s, None),
            Service::Containerd => RestartStage::Systemctl(Service::Containerd, None),
        }
    }
}

/// Whether a stage comes after another once an answer is told. An answer to another question
/// changes nothing.
pub open spec fn follows(stage: RestartStage, answer: RestartAnswer, next: RestartStage) -> bool {
    match (stage, answer) {
        (RestartStage::Observe(svc), RestartAnswer::Output(out)) => exists|start: Option<u128>|
            start_view(start) == started_at(opt_view(out)) && next == #[trigger] observed(
                svc,
                start,
            ),
        (RestartStage::Systemctl(svc, before), RestartAnswer::Exit(code)) => next == match code {
            Err(_) => RestartStage::Failed,
            Ok(c) => if c == 0 {
                RestartStage::Clock(svc, before)
            } else {
                RestartStage::ServiceCommand(svc, before)
            },
        },
        (RestartStage::ServiceCommand(svc, before), RestartAnswer::Exit(code)) => next == match code {
            Err(_) => RestartStage::Failed,
            Ok(c) => if c == 0 {
                RestartStage::Clock(svc, before)
            } else {
                RestartStage::Done(RestartResult::NotSupported)
            },
        },
        (RestartStage::Clock(svc, before), RestartAnswer::TimeLeft(left)) => next == if left {
            RestartStage::Active(svc, before)
        } else {
            RestartStage::Done(RestartResult::Issued)
        },
        (RestartStage::Active(svc, before), RestartAnswer::Output(out)) => next == if says_active(
            opt_view(out),
        ) {
            RestartStage::Show(svc, before)
        } else {
            RestartStage::Pause(svc, before)
        },
        (RestartStage::Show(svc, before), RestartAnswer::Output(out)) => next == if later(
            start_view(before),
            started_at(opt_view(out)),
        ) {
            RestartStage::Done(RestartResult::Verified)
        } else {
            RestartStage::Pause(svc, before)
        },
        (RestartStage::Pause(svc, before), RestartAnswer::Paused) => next == RestartStage::Clock(
            svc,
            before,
        ),
        _ => next == stage,
    }
}

/// The start that `systemctl show` printed.
pub open spec fn started_at(out: Option<Seq<char>>) -> Option<int> {
    match out {
        Some(s) => lines_start(lines_of(s)),
        None => None,
    }
}

/// Whether `systemctl is-active` printed that the service is active.
pub open spec fn says_active(out: Option<Seq<char>>) -> bool {
    match out {
        Some(s) => trimmed(s) == "active"@,
        None => false,
    }
}

/// Whether both starts are known and the second is the later one.
pub open spec fn later(before: Option<int>, after: Option<int>) -> bool {
    match (before, after) {
        (Some(b), Some(a)) => a > b,
        _ => false,
    }
}

/// A restart.
pub struct Restart {
    stage: RestartStage,
    error: Option<NriError>,
}

impl Restart {
    /// Where the restart stands.
    pub closed spec fn stage(&self) -> RestartStage {
        self.stage
    }

    /// Why the restart has failed.
    pub closed spec fn failure(&self) -> Option<NriError> {
        self.error
    }

    /// An error is held exactly where the restart has failed.
    pub open spec fn wf(&self) -> bool {
        self.stage() is Failed <==> self.failure() is Some
    }

    /// A restart of the services that run containerd, where one is asked for.
    pub fn new(requested: bool, k3s: bool) -> (r: Restart)
        ensures
            r.wf(),
            r.stage() == if !requested {
                RestartStage::Done(RestartResult::NotRequested)
            } else if k3s {
                RestartStage::Observe(Service::K3s)
            } else {
                RestartStage::Observe(Service::Containerd)
            },
    {
        let stage = if !requested {
            RestartStage::Done(RestartResult::NotRequested)
        } else if k3s {
            RestartStage::Observe(Service::K3s)
        } else {
            RestartStage::Observe(Service::Containerd)
        };
        Restart { stage, error: None }
    }

    /// What is to be done next.
    pub fn next_action(&self) -> (r: RestartAction)
        ensures
            r@ == action_of(self.stage()),
    {
        match self.stage {
            RestartStage::Observe(svc) => RestartAction::Output(show_line(svc)),
            RestartStage::Systemctl(svc, _) => RestartAction::Exit(
                two_arguments("systemctl", "restart", svc.name()),
            ),
            RestartStage::ServiceCommand(svc, _) => RestartAction::Exit(
                two_arguments("service", svc.name(), "restart"),
            ),
            RestartStage::Clock(_, _) => RestartAction::Clock,
            RestartStage::Active(svc, _) => RestartAction::Output(
                two_arguments("systemctl", "is-active", svc.name()),
            ),
            RestartStage::Show(svc, _) => RestartAction::Output(show_line(svc)),
            RestartStage::Pause(_, _) => RestartAction::Pause,
            RestartStage::Done(_) => RestartAction::Finished,
            RestartStage::Failed => RestartAction::Finished,
        }
    }

    /// Takes in what came of the action.
    pub fn give(&mut self, answer: RestartAnswer)
        requires
            old(self).wf(),
        ensures
            final(self).wf(),
            follows(old(self).stage(), answer, final(self).stage()),
            final(self).stage() is Failed && old(self).stage() !is Failed ==> match answer {
                RestartAnswer::Exit(Err(e)) => final(self).failure() == Some(e),
                _ => false,
            },
            old(self).stage() is Failed ==> final(self).failure() == old(self).failure(),
    {
        match (self.stage, answer) {
            (RestartStage::Observe(svc), RestartAnswer::Output(out)) => {
                let start = service_monotonic_start(as_str(&out));
                let next = if start.is_some() {
                    RestartStage::Systemctl(svc, start)
                } else {
                    match svc {
                        Service::K3s => RestartStage::Observe(Service::K3sAgent),
                        Service::K3sAgent => RestartStage::Systemctl(Service::K3s, None),
                        Service::Containerd => RestartStage::Systemctl(Service::Containerd, None),
                    }
                };
                assert(next == observed(svc, start));
                self.stage = next;
            },
            (RestartStage::Systemctl(svc, before), RestartAnswer::Exit(code)) => match code {
                Err(e) => {
                    self.error = Some(e);
                    self.stage = RestartStage::Failed;
                },
                Ok(c) => {
                    self.stage =
                    if c == 0 {
                        RestartStage::Clock(svc, before)
                    } else {
                        RestartStage::ServiceCommand(svc, before)
                    };
                },
            },
            (RestartStage::ServiceCommand(svc, before), RestartAnswer::Exit(code)) => match code {
                Err(e) => {
                    self.error = Some(e);
                    self.stage = RestartStage::Failed;
                },
                Ok(c) => {
                    self.stage =
                    if c == 0 {
                        RestartStage::Clock(svc, before)
                    } else {
                        RestartStage::Done(RestartResult::NotSupported)
                    };
                },
            },
            (RestartStage::Clock(svc, before), RestartAnswer::TimeLeft(left)) => {
                self.stage =
                if left {
                    RestartStage::Active(svc, before)
                } else {
                    RestartStage::Done(RestartResult::Issued)
                };
            },
            (RestartStage::Active(svc, before), RestartAnswer::Output(out)) => {
                self.stage =
                if is_active(as_str(&out)) {
                    RestartStage::Show(svc, before)
                } else {
                    RestartStage::Pause(svc, before)
                };
            },
            (RestartStage::Show(svc, before), RestartAnswer::Output(out)) => {
                let after = service_monotonic_start(as_str(&out));
                let newer: bool = match (before, after) {
                    (Some(b), Some(a)) => a > b,
                    _ => false,
                };
                self.stage =
                if newer {
                    RestartStage::Done(RestartResult::Verified)
                } else {
                    RestartStage::Pause(svc, before)
                };
            },
            (RestartStage::Pause(svc, before), RestartAnswer::Paused) => {
                self.stage = RestartStage::Clock(svc, before);
            },
            _ => {},
        }
    }

    /// What came of the restart; `None` where it has not ended.
    pub fn result(self) -> (r: Option<Result<RestartResult, NriError>>)
        requires
            self.wf(),
        ensures
            match self.stage() {
                RestartStage::Done(x) => r == Some(Ok::<RestartResult, NriError>(x)),
                RestartStage::Failed => r == Some(
                    Err::<RestartResult, NriError>(self.failure().unwrap()),
                ),
                _ => r is None,
            },
    {
        match self.stage {
            RestartStage::Done(x) => Some(Ok(x)),
            RestartStage::Failed => match self.error {
                Some(e) => Some(Err(e)),
                None => None,
            },
            _ => None,
        }
    }
}

/// A text that may be missing.
fn as_str(s: &Option<String>) -> (r: Option<&str>)
    ensures
        match r {
            Some(t) => opt_view(*s) == Some(t@),
            None => opt_view(*s) is None,
        },
{
    match s {
        Some(t) => Some(t.as_str()),
        None => None,
    }
}

/// The command that asks for the start of a service.
fn show_line(svc: Service) -> (r: CommandLine)
    ensures
        r@ == show_command(svc),
{
    let mut args: Vec<String> = Vec::new();
    args.push("show".to_string());
    args.push(svc.name().to_string());
    args.push("-p".to_string());
    args.push("ExecMainStartTimestampMonotonic".to_string());
    assert(views(args@) =~= show_command(svc).args);
    CommandLine { program: "systemctl".to_string(), args }
}

/// A program with two arguments.
fn two_arguments(program: &str, a: &str, b: &str) -> (r: CommandLine)
    ensures
        r@ == (CommandLineView { program: program@, args: seq![a@, b@] }),
{
    let mut args: Vec<String> = Vec::new();
    args.push(a.to_string());
    args.push(b.to_string());
    assert(views(args@) =~= seq![a@, b@]);
    CommandLine { program: program.to_string(), args }
}

/// Whether the wait for the socket ends, and then whether it is there; `None` where it goes on
/// after some time.
pub fn wait_for_socket(time_left: bool, there: bool) -> (r: Option<bool>)
    ensures
        r == if !time_left {
            Some(false)
        } else if there {
            Some(true)
        } else {
            None
        },
{
    if !time_left {
        Some(false)
    } else if there {
        Some(true)
    } else {
        None
    }
}

/// A restart is only verified of a service that is active, where it was known when its main
/// process was started before, and it was started later since.
pub proof fn law_verified_was_started_later(
    stage: RestartStage,
    answer: RestartAnswer,
    next: RestartStage,
)
    requires
        follows(stage, answer, next),
        next == RestartStage::Done(RestartResult::Verified),
        stage != next,
    ensures
        stage matches RestartStage::Show(svc, before) && answer matches RestartAnswer::Output(out)
            && later(start_view(before), started_at(opt_view(out))),
{
}

/// Nothing is restarted where no restart is asked for: the restart has ended at once, and what has
/// ended stays so.
pub proof fn law_ended_stays(stage: RestartStage, answer: RestartAnswer, next: RestartStage)
    requires
        follows(stage, answer, next),
        stage is Done || stage is Failed,
    ensures
        next == stage,
        action_of(stage) is Finished,
{
}

}
