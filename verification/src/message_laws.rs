//! Laws of messages: what is told is in the text, as it is and in its place, and nothing else of the
//! text depends on it.

use vstd::prelude::*;

use crate::decimal::{dec, dec_int, IntError};
use crate::error_report::{migration_text, report_of, untold_text};
use crate::nri_init::cmd::{failure_text, CapturedView};
use crate::nri_init::error::NriErrorView;
use crate::nri_plugin::types::{plugin_error_text, PluginErrorView};
use crate::resctrl::error::{error_text, ErrorView, IoErrorView};
use crate::resctrl_collector::tables::health_text;
use crate::trace::command_line::CommandErrorView;
use crate::trace::error::TraceErrorView;

verus! {

/// The error of the filesystem has its path, where it has one, and its cause in its text: the rest of
/// the text is the same for all.
pub proof fn law_errors_name_path_and_cause(
    path: Seq<char>,
    other: Seq<char>,
    source: IoErrorView,
    cause: Seq<char>,
)
    ensures
        ({
            let none = Seq::<char>::empty();
            &&& error_text(ErrorView::NotMounted { root: path }, cause) == error_text(
                ErrorView::NotMounted { root: none },
                other,
            ) + path
            &&& error_text(ErrorView::Capacity { source }, cause) == error_text(
                ErrorView::Capacity { source },
                none,
            ) + cause
            &&& error_text(ErrorView::Unsupported { source }, cause) == error_text(
                ErrorView::Unsupported { source },
                none,
            ) + cause
            &&& error_text(ErrorView::Io { path, source }, cause) == "io error at "@ + path + ": "@
                + cause
            &&& error_text(ErrorView::NoPermission { path, source }, cause)
                == "permission denied for "@ + path + ": "@ + cause
            &&& forall|e: ErrorView| #[trigger]
                plugin_error_text(PluginErrorView::Resctrl(e), cause) == error_text(e, cause)
            &&& plugin_error_text(PluginErrorView::PodNotFound, cause) == plugin_error_text(
                PluginErrorView::PodNotFound,
                other,
            )
            &&& plugin_error_text(PluginErrorView::ContainerNotFound, cause) == plugin_error_text(
                PluginErrorView::ContainerNotFound,
                other,
            )
        }),
{
    let none = Seq::<char>::empty();
    assert("resctrl not mounted at "@ + none =~= "resctrl not mounted at "@);
    assert("resctrl capacity exhausted: "@ + none =~= "resctrl capacity exhausted: "@);
    assert("resctrl not supported: "@ + none =~= "resctrl not supported: "@);
}

/// An error of enabling the plugin interface ends with what it tells; what stands before depends on
/// its kind alone.
pub proof fn law_enabling_errors_end_with_what_they_tell(s: Seq<char>)
    ensures
        ({
            let none = Seq::<char>::empty();
            &&& NriErrorView::Io(s).text() == NriErrorView::Io(none).text() + s
            &&& NriErrorView::CommandFailed(s).text() == NriErrorView::CommandFailed(none).text() + s
            &&& NriErrorView::Parse(s).text() == NriErrorView::Parse(none).text() + s
            &&& NriErrorView::VersionUnsupported(s).text() == NriErrorView::VersionUnsupported(
                none,
            ).text() + s
            &&& NriErrorView::ConfigNotFound(s).text() == NriErrorView::ConfigNotFound(none).text()
                + s
            &&& NriErrorView::Privilege(s).text() == NriErrorView::Privilege(none).text() + s
            &&& NriErrorView::RestartUnavailable(s).text() == NriErrorView::RestartUnavailable(
                none,
            ).text() + s
            &&& NriErrorView::Timeout(s).text() == NriErrorView::Timeout(none).text() + s
            &&& NriErrorView::VerificationFailed(s).text() == NriErrorView::VerificationFailed(
                none,
            ).text() + s
            &&& NriErrorView::DetectionFailed(s).text() == NriErrorView::DetectionFailed(none).text()
                + s
            &&& NriErrorView::TomlMutation(s).text() == NriErrorView::TomlMutation(none).text() + s
        }),
{
    let none = Seq::<char>::empty();
    assert forall|t: Seq<char>| #[trigger] (t + none) == t by {
        assert(t + none =~= t);
    }
}

/// A failed command is told with its program, its arguments, its exit code and what it wrote as
/// errors, in that order.
pub proof fn law_failed_commands_are_told(program: Seq<char>, args: Seq<char>, c: CapturedView)
    ensures
        failure_text(program, args, c) == program + " "@ + args + " -> "@ + dec_int(c.code as int) + ": "@ + c.stderr,
        forall|stdout: Seq<char>|
            failure_text(program, args, c) == #[trigger] failure_text(
                program,
                args,
                CapturedView { stdout, ..c },
            ),
{
}

/// The errors of an analysis name the column or the CPU that they are about, and nothing else of
/// their texts depends on it.
pub proof fn law_analysis_errors_name_what_they_are_about(
    name: Seq<char>,
    id: usize,
    a: IntError,
    b: IntError,
)
    ensures
        TraceErrorView::InvalidCpuId(id).text() == "Invalid CPU ID: "@ + dec(id as nat),
        TraceErrorView::MissingColumn(name).text() == "Missing "@ + name + " column"@,
        TraceErrorView::InvalidColumnType(name).text() == "Invalid "@ + name + " column type"@,
        CommandErrorView::InvalidAnalysisType(name).text() == "Invalid analysis type: "@ + name
            + ". Must be 'concurrency', 'hyperthread', or 'monotonicity'"@,
        CommandErrorView::InvalidNumCpus(a).text() == CommandErrorView::InvalidNumCpus(b).text(),
{
}

/// What was lost is reported with its count, and only where something was; the texts about rings,
/// timers and pods hold the numbers that they are about, each in its place.
pub proof fn law_reports_hold_their_numbers(n: nat, m: nat, a: u32, b: u32, why: Seq<char>)
    ensures
        report_of(n) is None <==> n == 0,
        n > 0 ==> report_of(n) == Some("Lost "@ + dec(n) + " events in the last second"@),
        untold_text(n, why) == "Lost events notification on ring "@ + dec(n) + why,
        health_text(n, m) == "resctrl health: pods_failed="@ + dec(n) + ", pods_unreconciled="@
            + dec(m),
        migration_text(a, b).len() + dec(0).len() + dec(0).len() == migration_text(0, 0).len()
            + dec(a as nat).len() + dec(b as nat).len(),
        begins_with(
            migration_text(a, b),
            "CRITICAL ERROR: Timer migration detected!\nExpected CPU: "@ + dec(a as nat)
                + ", Actual CPU: "@ + dec(b as nat),
        ),
{
    let start = "CRITICAL ERROR: Timer migration detected!\nExpected CPU: "@ + dec(a as nat)
        + ", Actual CPU: "@ + dec(b as nat);
    assert(migration_text(a, b).take(start.len() as int) =~= start);
}

/// Whether a text begins with another.
pub open spec fn begins_with(s: Seq<char>, start: Seq<char>) -> bool {
    start.len() <= s.len() && s.take(start.len() as int) == start
}

}
