//! The course of enabling the plugin interface, from the detection to the outcome.
//!
//! A course says what is to be done next and takes in what came of it. It decides what follows: too
//! old a version ends it, nothing is restarted that was not configured, and the socket has the last
//! word.

use vstd::prelude::*;

use crate::nri_init::detect::{Detection, DetectionView};
use crate::nri_init::error::{NriError, NriErrorView};
use crate::nri_init::opts::{Options, OptionsView};
use crate::nri_init::run::{
    after_restart, conclude, conclusion, configuration_of, gate, outcome_answer,
    plan_configuration, restart_flags, restarts_k3s, socket_of, socket_path, too_old,
    version_gate, waits, waits_for_socket, wants_restart, Configuration, ConfigurationView,
    NriOutcome, OutcomeView,
};
use crate::nri_init::verify::RestartResult;

verus! {

/// What is to be done next.
#[derive(Debug)]
pub enum CourseAction {
    /// The runtime is to be detected.
    Detect,
    /// It is to be told whether the socket is there.
    LookForSocket(String),
    /// The runtime is to be configured, and it is to be told whether that changed anything.
    Configure(Configuration),
    /// The runtime is to be restarted: the services of K3s, or that of containerd.
    Restart { k3s: bool },
    /// The socket is to be waited for, and it is to be told whether it appeared.
    WaitForSocket(String),
    /// Nothing.
    Finished,
}

/// What is to be done next, as a value.
pub ghost enum CourseActionView {
    Detect,
    LookForSocket(Seq<char>),
    Configure(ConfigurationView),
    Restart { k3s: bool },
    WaitForSocket(Seq<char>),
    Finished,
}

impl View for CourseAction {
    type V = CourseActionView;

    open spec fn view(&self) -> CourseActionView {
        match *self {
            CourseAction::Detect => CourseActionView::Detect,
            CourseAction::LookForSocket(p) => CourseActionView::LookForSocket(p@),
            CourseAction::Configure(c) => CourseActionView::Configure(c@),
            CourseAction::Restart { k3s } => CourseActionView::Restart { k3s },
            CourseAction::WaitForSocket(p) => CourseActionView::WaitForSocket(p@),
            CourseAction::Finished => CourseActionView::Finished,
        }
    }
}

/// What came of an action.
#[derive(Debug)]
pub enum CourseAnswer {
    Detected(Detection),
    /// Whether the socket is there.
    Socket(bool),
    /// Whether the configuration was changed.
    Configured(Result<bool, NriError>),
    Restarted(Result<RestartResult, NriError>),
}

/// What came of an action, as a value.
pub ghost enum CourseAnswerView {
    Detected(DetectionView),
    Socket(bool),
    Configured(Result<bool, NriErrorView>),
    Restarted(Result<RestartResult, NriErrorView>),
}

impl View for CourseAnswer {
    type V = CourseAnswerView;

    open spec fn view(&self) -> CourseAnswerView {
        match *self {
            CourseAnswer::Detected(d) => CourseAnswerView::Detected(d@),
            CourseAnswer::Socket(there) => CourseAnswerView::Socket(there),
            CourseAnswer::Configured(Ok(c)) => CourseAnswerView::Configured(Ok(c)),
            CourseAnswer::Configured(Err(e)) => CourseAnswerView::Configured(Err(e@)),
            CourseAnswer::Restarted(Ok(x)) => CourseAnswerView::Restarted(Ok(x)),
            CourseAnswer::Restarted(Err(e)) => CourseAnswerView::Restarted(Err(e@)),
        }
    }
}

/// Where a course stands.
#[derive(Debug)]
enum Stage {
    Start,
    Detected(Detection),
    Configuring(Detection),
    Restarting(Detection),
    Waiting(Detection, RestartResult),
    Concluding(Detection, bool, (bool, bool)),
    Ended(Result<NriOutcome, NriError>),
}

/// Where a course stands, as a value.
pub ghost enum StageView {
    /// The runtime is to be detected.
    Start,
    /// The socket is to be looked for.
    Detected(DetectionView),
    /// The runtime is to be configured.
    Configuring(DetectionView),
    /// The runtime was configured, and is to be restarted.
    Restarting(DetectionView),
    /// The runtime was restarted, and the socket is to be waited for.
    Waiting(DetectionView, RestartResult),
    /// The socket is to be looked for again. It is known whether the runtime was configured,
    /// whether it was restarted, and whether that is verified.
    Concluding(DetectionView, bool, (bool, bool)),
    /// The course has ended.
    Ended(Result<OutcomeView, NriErrorView>),
}

impl View for Stage {
    type V = StageView;

    closed spec fn view(&self) -> StageView {
        match *self {
            Stage::Start => StageView::Start,
            Stage::Detected(d) => StageView::Detected(d@),
            Stage::Configuring(d) => StageView::Configuring(d@),
            Stage::Restarting(d) => StageView::Restarting(d@),
            Stage::Waiting(d, x) => StageView::Waiting(d@, x),
            Stage::Concluding(d, configured, restart) => StageView::Concluding(
                d@,
                configured,
                restart,
            ),
            Stage::Ended(r) => StageView::Ended(outcome_answer(r)),
        }
    }
}

/// What is to be done at a stage.
pub open spec fn course_action(o: OptionsView, stage: StageView) -> CourseActionView {
    match stage {
        StageView::Start => CourseActionView::Detect,
        StageView::Detected(_) => CourseActionView::LookForSocket(socket_of(o)),
        StageView::Configuring(d) => CourseActionView::Configure(configuration_of(o, d.env)),
        StageView::Restarting(d) => CourseActionView::Restart { k3s: d.env is K3s },
        StageView::Waiting(_, _) => CourseActionView::WaitForSocket(socket_of(o)),
        StageView::Concluding(_, _, _) => CourseActionView::LookForSocket(socket_of(o)),
        StageView::Ended(_) => CourseActionView::Finished,
    }
}

/// The stage after an answer. An answer to another question changes nothing.
pub open spec fn next_stage(
    o: OptionsView,
    stage: StageView,
    answer: CourseAnswerView,
) -> StageView {
    match (stage, answer) {
        (StageView::Start, CourseAnswerView::Detected(d)) => StageView::Detected(d),
        (StageView::Detected(d), CourseAnswerView::Socket(there)) => match gate(o, d, there) {
            Some(end) => StageView::Ended(end),
            None => if o.configure {
                StageView::Configuring(d)
            } else {
                StageView::Concluding(d, false, (false, false))
            },
        },
        (StageView::Configuring(d), CourseAnswerView::Configured(r)) => match r {
            Err(e) => StageView::Ended(Err(e)),
            Ok(configured) => if o.restart && configured {
                StageView::Restarting(d)
            } else {
                StageView::Concluding(d, configured, (false, false))
            },
        },
        (StageView::Restarting(d), CourseAnswerView::Restarted(r)) => match r {
            Err(e) => StageView::Ended(Err(e)),
            Ok(x) => if waits(x) {
                StageView::Waiting(d, x)
            } else {
                StageView::Concluding(d, true, restart_flags(x, false))
            },
        },
        (StageView::Waiting(d, x), CourseAnswerView::Socket(there)) => StageView::Concluding(
            d,
            true,
            restart_flags(x, there),
        ),
        (
            StageView::Concluding(d, configured, restart),
            CourseAnswerView::Socket(there),
        ) => StageView::Ended(conclusion(o, d, configured, restart, there)),
        _ => stage,
    }
}

/// The course of enabling the plugin interface.
pub struct Course {
    opts: Options,
    stage: Stage,
}

impl Course {
    /// What is asked for.
    pub closed spec fn options(&self) -> OptionsView {
        self.opts@
    }

    /// Where the course stands.
    pub closed spec fn stage(&self) -> StageView {
        self.stage@
    }

    /// A course at its start.
    pub fn new(opts: Options) -> (r: Course)
        ensures
            r.options() == opts@,
            r.stage() == StageView::Start,
    {
        Course { opts, stage: Stage::Start }
    }

    /// What is to be done next.
    pub fn next_action(&self) -> (r: CourseAction)
        ensures
            r@ == course_action(self.options(), self.stage()),
    {
        match &self.stage {
            Stage::Start => CourseAction::Detect,
            Stage::Detected(_) => CourseAction::LookForSocket(socket_path(&self.opts).to_string()),
            Stage::Configuring(d) => CourseAction::Configure(
                plan_configuration(&self.opts, &d.env),
            ),
            Stage::Restarting(d) => CourseAction::Restart { k3s: restarts_k3s(&d.env) },
            Stage::Waiting(_, _) => CourseAction::WaitForSocket(
                socket_path(&self.opts).to_string(),
            ),
            Stage::Concluding(_, _, _) => CourseAction::LookForSocket(
                socket_path(&self.opts).to_string(),
            ),
            Stage::Ended(_) => CourseAction::Finished,
        }
    }

    /// Takes in what came of the action.
    pub fn give(&mut self, answer: CourseAnswer)
        ensures
            final(self).options() == old(self).options(),
            final(self).stage() == next_stage(old(self).options(), old(self).stage(), answer@),
    {
        let mut stage = Stage::Start;
        std::mem::swap(&mut stage, &mut self.stage);
        let next = match (stage, answer) {
            (Stage::Start, CourseAnswer::Detected(d)) => Stage::Detected(d),
            (Stage::Detected(d), CourseAnswer::Socket(there)) => match version_gate(
                &self.opts,
                d,
                there,
            ) {
                Err(end) => Stage::Ended(end),
                Ok(d) => if self.opts.configure {
                    Stage::Configuring(d)
                } else {
                    Stage::Concluding(d, false, (false, false))
                },
            },
            (Stage::Configuring(d), CourseAnswer::Configured(r)) => match r {
                Err(e) => Stage::Ended(Err(e)),
                Ok(configured) => if wants_restart(&self.opts, configured) {
                    Stage::Restarting(d)
                } else {
                    Stage::Concluding(d, configured, (false, false))
                },
            },
            (Stage::Restarting(d), CourseAnswer::Restarted(r)) => match r {
                Err(e) => Stage::Ended(Err(e)),
                Ok(x) => if waits_for_socket(x) {
                    Stage::Waiting(d, x)
                } else {
                    Stage::Concluding(d, true, after_restart(x, false))
                },
            },
            (Stage::Waiting(d, x), CourseAnswer::Socket(there)) => Stage::Concluding(
                d,
                true,
                after_restart(x, there),
            ),
            (Stage::Concluding(d, configured, restart), CourseAnswer::Socket(there)) => {
                Stage::Ended(conclude(&self.opts, d, configured, restart, there))
            },
            (stage, _) => stage,
        };
        self.stage = next;
    }

    /// How it all ended; `None` where it has not.
    pub fn result(self) -> (r: Option<Result<NriOutcome, NriError>>)
        ensures
            match self.stage() {
                StageView::Ended(end) => r is Some && outcome_answer(r.unwrap()) == end,
                _ => r is None,
            },
    {
        match self.stage {
            Stage::Ended(end) => Some(end),
            _ => None,
        }
    }
}

// ---------------------------------------------------------------------------
// The whole course
// ---------------------------------------------------------------------------

/// What the node answers whenever it is asked.
pub ghost struct NodeAnswers {
    pub detection: DetectionView,
    /// Whether the socket is there at first.
    pub socket_before: bool,
    /// Whether configuring changes anything.
    pub configured: Result<bool, NriErrorView>,
    pub restarted: Result<RestartResult, NriErrorView>,
    /// Whether the socket appears after a restart.
    pub socket_appeared: bool,
    /// Whether the socket is there at last.
    pub socket_after: bool,
}

/// What a node answers at a stage.
pub open spec fn node_answer(n: NodeAnswers, stage: StageView) -> CourseAnswerView {
    match stage {
        StageView::Start => CourseAnswerView::Detected(n.detection),
        StageView::Detected(_) => CourseAnswerView::Socket(n.socket_before),
        StageView::Configuring(_) => CourseAnswerView::Configured(n.configured),
        StageView::Restarting(_) => CourseAnswerView::Restarted(n.restarted),
        StageView::Waiting(_, _) => CourseAnswerView::Socket(n.socket_appeared),
        StageView::Concluding(_, _, _) => CourseAnswerView::Socket(n.socket_after),
        StageView::Ended(_) => CourseAnswerView::Socket(n.socket_after),
    }
}

/// How many answers a stage is away from the end at most.
pub open spec fn answers_left(stage: StageView) -> nat {
    match stage {
        StageView::Start => 6,
        StageView::Detected(_) => 5,
        StageView::Configuring(_) => 4,
        StageView::Restarting(_) => 3,
        StageView::Waiting(_, _) => 2,
        StageView::Concluding(_, _, _) => 1,
        StageView::Ended(_) => 0,
    }
}

/// What is done on a node from a stage on, until the course has ended.
pub open spec fn actions_from(o: OptionsView, n: NodeAnswers, stage: StageView) -> Seq<CourseActionView>
    decreases answers_left(stage),
{
    if stage is Ended {
        Seq::empty()
    } else {
        seq![course_action(o, stage)] + actions_from(
            o,
            n,
            next_stage(o, stage, node_answer(n, stage)),
        )
    }
}

/// How a course ends on a node from a stage on.
pub open spec fn end_from(o: OptionsView, n: NodeAnswers, stage: StageView) -> Result<
    OutcomeView,
    NriErrorView,
>
    decreases answers_left(stage),
{
    match stage {
        StageView::Ended(end) => end,
        _ => end_from(o, n, next_stage(o, stage, node_answer(n, stage))),
    }
}

/// The outcome on a node: it is that of too old a version, or the error of configuring or of
/// restarting where these were tried and failed, or else what the socket says at last.
pub open spec fn outcome(o: OptionsView, n: NodeAnswers) -> Result<OutcomeView, NriErrorView> {
    let d = n.detection;
    if gate(o, d, n.socket_before) is Some {
        gate(o, d, n.socket_before).unwrap()
    } else if !o.configure {
        conclusion(o, d, false, (false, false), n.socket_after)
    } else {
        match n.configured {
            Err(e) => Err(e),
            Ok(configured) => if !configured || !o.restart {
                conclusion(o, d, configured, (false, false), n.socket_after)
            } else {
                match n.restarted {
                    Err(e) => Err(e),
                    Ok(x) => conclusion(
                        o,
                        d,
                        true,
                        restart_flags(x, n.socket_appeared),
                        n.socket_after,
                    ),
                }
            },
        }
    }
}

/// A course ends with the outcome on the node.
pub proof fn law_course_ends_with_outcome(o: OptionsView, n: NodeAnswers)
    ensures
        end_from(o, n, StageView::Start) == outcome(o, n),
{
    reveal_with_fuel(end_from, 8);
}

/// An outcome hangs together: a restart is only verified of a runtime that was restarted, only
/// what was configured is restarted, where that is asked for, only what is to be configured is,
/// and of too old a version neither.
pub proof fn law_outcome_hangs_together(o: OptionsView, n: NodeAnswers)
    ensures
        outcome(o, n) matches Ok(out) ==> {
            &&& out.detection == n.detection
            &&& out.restart_verified ==> out.restarted
            &&& out.restarted ==> o.restart && out.configured
            &&& out.configured ==> o.configure
            &&& too_old(n.detection.containerd_version) ==> !out.configured && !out.restarted
        },
{
}

/// Where the socket has to be there, success means that it is. Too old a version is an error then.
pub proof fn law_success_means_socket(o: OptionsView, n: NodeAnswers)
    requires
        o.fail_if_unavailable,
    ensures
        outcome(o, n) matches Ok(out) ==> out.socket_available && n.socket_after && !too_old(
            n.detection.containerd_version,
        ),
{
}

/// Detection alone changes nothing: without `configure` nothing is configured and nothing is
/// restarted, neither in the outcome nor by any action on the way.
pub proof fn law_detection_only(o: OptionsView, n: NodeAnswers)
    requires
        !o.configure,
    ensures
        outcome(o, n) matches Ok(out) ==> !out.configured && !out.restarted
            && !out.restart_verified,
        forall|i: int|
            #![trigger actions_from(o, n, StageView::Start)[i]]
            0 <= i < actions_from(o, n, StageView::Start).len() ==> {
                let a = actions_from(o, n, StageView::Start)[i];
                a !is Configure && a !is Restart
            },
{
    reveal_with_fuel(actions_from, 5);
}

/// Of too old a version nothing is configured and nothing is restarted: the course ends once the
/// socket was looked for.
pub proof fn law_too_old_is_left_alone(o: OptionsView, n: NodeAnswers)
    requires
        too_old(n.detection.containerd_version),
    ensures
        actions_from(o, n, StageView::Start) == seq![
            CourseActionView::Detect,
            CourseActionView::LookForSocket(socket_of(o)),
        ],
{
    reveal_with_fuel(actions_from, 4);
    assert(actions_from(o, n, StageView::Start) =~= seq![
        CourseActionView::Detect,
        CourseActionView::LookForSocket(socket_of(o)),
    ]);
}

}
