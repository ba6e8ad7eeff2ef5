//! Laws of which calls an operation makes of the filesystem, and of what their answers mean.

use vstd::prelude::*;

use crate::decimal::{
    dec_int, law_numbers_are_read_exactly, parse_i32_of, parse_u64_of, IntError,
};
use crate::path::joined;
use crate::resctrl::error::{basic_error, ErrorKind, ErrorView, IoErrorView};
use crate::resctrl::group::{group_path_of, mon_groups_of};
use crate::resctrl::laws::{law_missing_tasks, written};
use crate::resctrl::provider::FsEvent;
use crate::resctrl::runs::{
    assign_run, bad_line, cleanup_run, create_run, delete_run, detect_run,
    empty_report, ensure_run, group_occupancy_run, is_special, list_answer, list_run, missing_of, mount_error,
    mount_in, mount_point_of, occupancy_answer, occupancy_path, occupancy_run, pids_in,
    reconcile_run, root_groups, sat, sat64, sweep_run, tasks_of, write_error, ReportView,
};
use crate::search::begins;
use crate::text::{fields_of, lines_of, trimmed};

verus! {

// ---------------------------------------------------------------------------
// Errors
// ---------------------------------------------------------------------------

/// The input or output error behind an error.
pub open spec fn cause_of(e: ErrorView) -> Option<IoErrorView> {
    match e {
        ErrorView::NotMounted { .. } => None,
        ErrorView::NoPermission { source, .. } => Some(source),
        ErrorView::Capacity { source } => Some(source),
        ErrorView::Unsupported { source } => Some(source),
        ErrorView::Io { source, .. } => Some(source),
    }
}

/// The path that an error names.
pub open spec fn path_in(e: ErrorView) -> Option<Seq<char>> {
    match e {
        ErrorView::NoPermission { path, .. } => Some(path),
        ErrorView::Io { path, .. } => Some(path),
        _ => None,
    }
}

/// What an error says comes from the system's code: permissions, space and support are told apart,
/// everything else is an error at the path, and the code and the path are kept.
pub proof fn law_errors_tell_why(path: Seq<char>, e: IoErrorView)
    ensures
        basic_error(path, e) is NoPermission <==> e.code == Some(1i32) || e.code == Some(13i32),
        basic_error(path, e) is Capacity <==> e.code == Some(28i32),
        basic_error(path, e) is Capacity || path_in(basic_error(path, e)) == Some(path),
        cause_of(basic_error(path, e)) matches Some(c) && c.code == e.code,
        e.code is None ==> cause_of(basic_error(path, e)) == Some(e),
        write_error(path, e) is NoPermission <==> e.code == Some(1i32) || e.code == Some(13i32),
        write_error(path, e) is Capacity <==> e.code == Some(28i32),
        write_error(path, e) is Capacity || path_in(write_error(path, e)) == Some(path),
        cause_of(write_error(path, e)) == Some(e),
        mount_error(path, e) is NoPermission <==> e.code == Some(1i32) || e.code == Some(13i32),
        mount_error(path, e) is Unsupported <==> e.code == Some(19i32) || e.code == Some(22i32)
            || e.code == Some(38i32) || e.code == Some(95i32),
        mount_error(path, e) is Unsupported || path_in(mount_error(path, e)) == Some(path),
        cause_of(mount_error(path, e)) == Some(e),
{
}

// ---------------------------------------------------------------------------
// Support and mounting
// ---------------------------------------------------------------------------

/// Whether a line of the mount table is about a resctrl filesystem.
pub open spec fn mounts_resctrl(line: Seq<char>) -> bool {
    fields_of(line).len() >= 3 && fields_of(line)[2] == "resctrl"@
}

/// Resctrl is mounted where the first line about it says, and nowhere where there is no such line.
pub proof fn law_first_mount_counts(lines: Seq<Seq<char>>)
    ensures
        match mount_in(lines) {
            Some(mp) => exists|i: int|
                0 <= i < lines.len() && mounts_resctrl(#[trigger] lines[i]) && fields_of(
                    lines[i],
                )[1] == mp && forall|j: int| 0 <= j < i ==> !mounts_resctrl(#[trigger] lines[j]),
            None => forall|i: int| 0 <= i < lines.len() ==> !mounts_resctrl(#[trigger] lines[i]),
        },
    decreases lines.len(),
{
    if lines.len() > 0 {
        let rest = lines.drop_first();
        law_first_mount_counts(rest);
        assert(lines[0] == lines[0]);
        if !mounts_resctrl(lines[0]) {
            match mount_in(rest) {
                Some(mp) => {
                    let i = choose|i: int|
                        0 <= i < rest.len() && mounts_resctrl(#[trigger] rest[i]) && fields_of(
                            rest[i],
                        )[1] == mp && forall|j: int|
                            0 <= j < i ==> !mounts_resctrl(#[trigger] rest[j]);
                    assert(lines[i + 1] == rest[i]);
                    assert forall|j: int| 0 <= j < i + 1 implies !mounts_resctrl(
                        #[trigger] lines[j],
                    ) by {
                        if j > 0 {
                            assert(lines[j] == rest[j - 1]);
                        }
                    }
                },
                None => {
                    assert forall|i: int| 0 <= i < lines.len() implies !mounts_resctrl(
                        #[trigger] lines[i],
                    ) by {
                        if i > 0 {
                            assert(lines[i] == rest[i - 1]);
                        }
                    }
                },
            }
        }
    }
}

/// Detection reads the mount table and nothing else where that cannot be read or has no resctrl;
/// where it has one, it is mounted there, and writable exactly where its tasks file can be opened.
pub proof fn law_detection_looks_at_the_mount(tr: Seq<FsEvent>)
    requires
        detect_run(tr) is Some,
        detect_run(tr).unwrap().1.len() == 0,
    ensures
        0 < tr.len() <= 2,
        tr[0] matches FsEvent::ReadToString { path, .. } && path == "/proc/mounts"@,
        ({
            let answer = tr[0]->ReadToString_answer;
            match detect_run(tr).unwrap().0 {
                Err(e) => tr.len() == 1 && answer is Err && cause_of(e) == Some(answer->Err_0),
                Ok(s) => {
                    &&& answer matches Ok(mounts) && s.mount_point == mount_point_of(mounts)
                    &&& s.mounted <==> s.mount_point is Some
                    &&& s.mounted <==> tr.len() == 2
                    &&& s.mounted ==> (tr[1] matches FsEvent::CheckWritable { path, answer: w }
                        && path == tasks_of(s.mount_point.unwrap()) && s.writable == w is Ok)
                    &&& s.writable ==> s.mounted
                },
            }
        }),
{
}

/// Mounting is tried once at most, at the root, and only after the mount table was read. It is tried
/// exactly where mounting is asked for and the table shows no resctrl, and success means that the
/// last look at the table showed one.
pub proof fn law_mounting_is_checked(auto_mount: bool, root: Seq<char>, tr: Seq<FsEvent>)
    requires
        ensure_run(auto_mount, root, tr) is Some,
        ensure_run(auto_mount, root, tr).unwrap().1.len() == 0,
    ensures
        ({
            let answer = ensure_run(auto_mount, root, tr).unwrap().0;
            &&& tr.len() > 0
            &&& forall|i: int|
                0 <= i < tr.len() ==> (#[trigger] tr[i] is Mount ==> i == 1 && tr[i]->target == root)
            &&& answer is Ok <==> tr.last() is CheckWritable
            &&& answer matches Err(ErrorView::NotMounted { root: r }) ==> r == root && !auto_mount
                && tr.len() == 1
            &&& tr.len() == 1 && tr[0]->ReadToString_answer is Ok ==> !auto_mount
            &&& tr.last() is Mount ==> tr.last()->Mount_answer is Err && cause_of(answer->Err_0)
                == Some(tr.last()->Mount_answer->Err_0)
        }),
{
    let (first, rest) = detect_run(tr).unwrap();
    if first is Ok && !first->Ok_0.mounted && auto_mount {
        let after = rest.drop_first();
        assert(rest =~= tr.drop_first());
        assert(tr[1] == rest[0]);
        match rest[0] {
            FsEvent::Mount { target, answer } => {
                if answer is Ok {
                    law_detection_looks_at_the_mount(after);
                    assert(tr.len() == after.len() + 2);
                    assert(tr[2] == after[0]);
                    if after.len() == 2 {
                        assert(tr[3] == after[1]);
                    }
                }
            },
            _ => {},
        }
    } else {
        law_detection_looks_at_the_mount(tr);
    }
}

// ---------------------------------------------------------------------------
// Groups
// ---------------------------------------------------------------------------

/// Creating a group looks for the root first. Where that is missing nothing is created; else the
/// group's own directory is, and the group is there exactly where that was done or it was there.
pub proof fn law_creating_makes_the_groups_directory(
    root: Seq<char>,
    prefix: Seq<char>,
    uid: Seq<char>,
    tr: Seq<FsEvent>,
)
    requires
        create_run(root, prefix, uid, tr) is Some,
        create_run(root, prefix, uid, tr).unwrap().1.len() == 0,
    ensures
        ({
            let answer = create_run(root, prefix, uid, tr).unwrap().0;
            &&& 0 < tr.len() <= 2
            &&& tr[0] matches FsEvent::PathExists { path, found } && path == root && (found
                <==> tr.len() == 2)
            &&& answer == Err::<Seq<char>, ErrorView>(ErrorView::NotMounted { root }) <==> tr.len()
                == 1
            &&& tr.len() == 2 ==> (tr[1] matches FsEvent::CreateDir { path, answer: made } && path
                == group_path_of(root, prefix, uid) && match made {
                Ok(()) => answer == Ok::<Seq<char>, ErrorView>(path),
                Err(e) => if e.code == Some(17i32) || (e.code is None && e.kind
                    == ErrorKind::AlreadyExists) {
                    answer == Ok::<Seq<char>, ErrorView>(path)
                } else {
                    answer == Err::<Seq<char>, ErrorView>(basic_error(path, e))
                },
            })
        }),
{
}

/// Deleting a group removes its directory and does nothing else; it fails exactly where that failed
/// though the directory was there.
pub proof fn law_deleting_removes_the_groups_directory(group: Seq<char>, tr: Seq<FsEvent>)
    requires
        delete_run(group, tr) is Some,
        delete_run(group, tr).unwrap().1.len() == 0,
    ensures
        tr.len() == 1,
        tr[0] matches FsEvent::RemoveDir { path, answer } && path == group && match answer {
            Ok(()) => delete_run(group, tr).unwrap().0 is Ok,
            Err(e) => if e.code == Some(2i32) {
                delete_run(group, tr).unwrap().0 is Ok
            } else {
                delete_run(group, tr).unwrap().0 == Err::<(), ErrorView>(basic_error(group, e))
            },
        },
{
}

// ---------------------------------------------------------------------------
// Tasks
// ---------------------------------------------------------------------------

/// Whether a call writes a task to a tasks file.
pub open spec fn writes_task(e: FsEvent, tasks: Seq<char>, pid: i32) -> bool {
    e matches FsEvent::WriteStr { path, data, .. } && path == tasks && data == dec_int(pid as int)
}

/// Whether a call is a write that was answered with success, or that the task is gone.
pub open spec fn goes_on(e: FsEvent) -> bool {
    e matches FsEvent::WriteStr { answer, .. } && (answer matches Err(x) ==> x.code == Some(3i32))
}

/// The calls of an assignment: the tasks are written one by one, in order, up to the first failure
/// that is not about a task that is gone, and every task counts either way.
pub proof fn law_assigning_writes_each_task(
    tasks: Seq<char>,
    pids: Seq<i32>,
    tr: Seq<FsEvent>,
    assigned: nat,
    missing: nat,
)
    requires
        assign_run(tasks, pids, tr, assigned, missing) is Some,
        assign_run(tasks, pids, tr, assigned, missing).unwrap().1.len() == 0,
    ensures
        tr.len() <= pids.len(),
        forall|i: int| 0 <= i < tr.len() ==> writes_task(#[trigger] tr[i], tasks, pids[i]),
        forall|i: int| 0 <= i < tr.len() - 1 ==> goes_on(#[trigger] tr[i]),
        match assign_run(tasks, pids, tr, assigned, missing).unwrap().0 {
            Ok((a, m)) => tr.len() == pids.len() && a == assigned + written(tr) && a + m == assigned
                + missing + pids.len() && (tr.len() > 0 ==> goes_on(tr.last())),
            Err(e) => tr.len() > 0 && !goes_on(tr.last()) && (tr.last() matches FsEvent::WriteStr {
                answer,
                ..
            } && answer is Err && e == write_error(tasks, answer->Err_0)),
        },
    decreases pids.len(),
{
    if pids.len() > 0 {
        let rest = tr.drop_first();
        match tr[0] {
            FsEvent::WriteStr { path, data, answer } => {
                if goes_on(tr[0]) {
                    if answer is Ok {
                        law_assigning_writes_each_task(
                            tasks,
                            pids.drop_first(),
                            rest,
                            assigned + 1,
                            missing,
                        );
                    } else {
                        law_assigning_writes_each_task(
                            tasks,
                            pids.drop_first(),
                            rest,
                            assigned,
                            missing + 1,
                        );
                    }
                    lemma_written_first(tr);
                    assert forall|i: int| 0 <= i < tr.len() implies writes_task(
                        #[trigger] tr[i],
                        tasks,
                        pids[i],
                    ) by {
                        if i > 0 {
                            assert(tr[i] == rest[i - 1]);
                            assert(pids[i] == pids.drop_first()[i - 1]);
                        }
                    }
                    assert forall|i: int| 0 <= i < tr.len() - 1 implies goes_on(
                        #[trigger] tr[i],
                    ) by {
                        if i > 0 {
                            assert(tr[i] == rest[i - 1]);
                        }
                    }
                    if rest.len() > 0 {
                        assert(tr.last() == rest.last());
                    }
                } else {
                    assert(tr.len() == 1);
                }
            },
            _ => {},
        }
    } else {
        assert(tr.len() == 0);
    }
}

proof fn lemma_written_first(tr: Seq<FsEvent>)
    requires
        tr.len() > 0,
    ensures
        written(tr) == written(tr.drop_first()) + written(seq![tr[0]]),
{
    reveal_with_fuel(written, 2);
}

/// The tasks that are missing are found in the order in which they are wanted: wanting one more
/// finds the same and at most that one behind them.
pub proof fn law_missing_tasks_keep_their_order(want: Seq<i32>, current: Seq<i32>, more: i32)
    ensures
        ({
            let m = missing_of(want, current);
            missing_of(want.push(more), current) == if current.contains(more) || want.contains(
                more,
            ) {
                m
            } else {
                m.push(more)
            }
        }),
{
    law_missing_tasks(want, current);
    assert(want.push(more).drop_last() =~= want);
    if current.contains(more) || want.contains(more) {
        assert(current.contains(more) || missing_of(want, current).contains(more));
    }
}

/// Whether a line of a tasks file is neither blank nor a task.
pub open spec fn no_task(line: Seq<char>) -> bool {
    trimmed(line).len() > 0 && parse_i32_of(trimmed(line)) is Err
}

/// Listing goes line by line: the tasks of lines that follow others come behind theirs.
pub proof fn law_lines_are_listed_in_order(a: Seq<Seq<char>>, b: Seq<Seq<char>>)
    requires
        pids_in(a) is Ok,
        pids_in(b) is Ok,
    ensures
        pids_in(a + b) == Ok::<Seq<i32>, Seq<char>>(pids_in(a)->Ok_0 + pids_in(b)->Ok_0),
    decreases b.len(),
{
    if b.len() == 0 {
        assert(a + b =~= a);
        assert(pids_in(a)->Ok_0 + pids_in(b)->Ok_0 =~= pids_in(a)->Ok_0);
    } else {
        law_lines_are_listed_in_order(a, b.drop_last());
        assert((a + b).drop_last() =~= a + b.drop_last());
        assert((a + b).last() == b.last());
        let l = pids_in(a)->Ok_0 + pids_in(b.drop_last())->Ok_0;
        if trimmed(b.last()).len() > 0 {
            let n = parse_i32_of(trimmed(b.last()))->Ok_0 as i32;
            assert(l.push(n) =~= pids_in(a)->Ok_0 + pids_in(b.drop_last())->Ok_0.push(n));
        }
    }
}

/// A single line lists the task that it holds, or none where it is blank; a listing fails exactly
/// where some line is neither, and then it tells of the first.
pub proof fn law_what_a_line_lists(line: Seq<char>, lines: Seq<Seq<char>>)
    ensures
        trimmed(line).len() == 0 ==> pids_in(seq![line]) == Ok::<Seq<i32>, Seq<char>>(Seq::empty()),
        parse_i32_of(trimmed(line)) is Ok && trimmed(line).len() > 0 ==> pids_in(seq![line]) == Ok::<
            Seq<i32>,
            Seq<char>,
        >(seq![parse_i32_of(trimmed(line))->Ok_0 as i32]),
        match pids_in(lines) {
            Ok(_) => forall|i: int| 0 <= i < lines.len() ==> !no_task(#[trigger] lines[i]),
            Err(m) => exists|i: int|
                0 <= i < lines.len() && no_task(#[trigger] lines[i]) && m == bad_line(
                    (i + 1) as nat,
                    trimmed(lines[i]),
                    parse_i32_of(trimmed(lines[i]))->Err_0,
                ) && forall|j: int| 0 <= j < i ==> !no_task(#[trigger] lines[j]),
        },
    decreases lines.len(),
{
    reveal_with_fuel(pids_in, 2);
    assert(seq![line].drop_last() =~= Seq::<Seq<char>>::empty());
    assert(seq![line].last() == line);
    if parse_i32_of(trimmed(line)) is Ok {
        let n = parse_i32_of(trimmed(line))->Ok_0 as i32;
        assert(Seq::<i32>::empty().push(n) =~= seq![n]);
    }
    if lines.len() > 0 {
        let front = lines.drop_last();
        law_what_a_line_lists(line, front);
        match pids_in(front) {
            Ok(_) => {
                assert forall|i: int| 0 <= i < front.len() implies !no_task(#[trigger] lines[i]) by {
                    assert(lines[i] == front[i]);
                }
                assert(lines[lines.len() - 1] == lines.last());
            },
            Err(m) => {
                let i = choose|i: int|
                    0 <= i < front.len() && no_task(#[trigger] front[i]) && m == bad_line(
                        (i + 1) as nat,
                        trimmed(front[i]),
                        parse_i32_of(trimmed(front[i]))->Err_0,
                    ) && forall|j: int| 0 <= j < i ==> !no_task(#[trigger] front[j]);
                assert(lines[i] == front[i]);
                assert forall|j: int| 0 <= j < i implies !no_task(#[trigger] lines[j]) by {
                    assert(lines[j] == front[j]);
                }
            },
        }
    }
}

/// A tasks file gives its tasks exactly where it was read and each of its lines that is not blank
/// holds one; else the error is about that file, and tells why it was not read or which line is wrong.
/// So it is with the occupancy of a domain, which is one number.
pub proof fn law_files_give_what_they_hold(path: Seq<char>, answer: Result<Seq<char>, IoErrorView>)
    ensures
        answer matches Err(e) ==> list_answer(path, answer) == Err::<Seq<i32>, ErrorView>(
            basic_error(path, e),
        ) && occupancy_answer(path, answer) == Err::<int, ErrorView>(basic_error(path, e)),
        answer matches Ok(text) ==> match list_answer(path, answer) {
            Ok(pids) => pids_in(lines_of(text)) == Ok::<Seq<i32>, Seq<char>>(pids),
            Err(e) => path_in(e) == Some(path) && (cause_of(e) matches Some(c) && c.code is None
                && c.kind == ErrorKind::InvalidData && pids_in(lines_of(text)) == Err::<
                Seq<i32>,
                Seq<char>,
            >(c.message)),
        },
        answer matches Ok(text) ==> match occupancy_answer(path, answer) {
            Ok(n) => parse_u64_of(trimmed(text)) == Ok::<int, IntError>(n),
            Err(e) => path_in(e) == Some(path) && (cause_of(e) matches Some(c) && c.code is None
                && c.kind == ErrorKind::InvalidData && (parse_u64_of(trimmed(text)) matches Err(x)
                && c.message == x.text())),
        },
{
}

/// Whether a call is the reason of an error of reconciling.
pub open spec fn is_reason(e: FsEvent, tasks: Seq<char>, error: ErrorView) -> bool {
    match e {
        FsEvent::ReadToString { answer, .. } => list_answer(tasks, answer) == Err::<
            Seq<i32>,
            ErrorView,
        >(error),
        FsEvent::WriteStr { answer, .. } => !goes_on(e) && answer is Err && error == write_error(
            tasks,
            answer->Err_0,
        ),
        _ => false,
    }
}

proof fn lemma_assign_ends(
    tasks: Seq<char>,
    pids: Seq<i32>,
    tr: Seq<FsEvent>,
    assigned: nat,
    missing: nat,
)
    requires
        assign_run(tasks, pids, tr, assigned, missing) is Some,
    ensures
        ({
            let (answer, left) = assign_run(tasks, pids, tr, assigned, missing).unwrap();
            &&& left.len() <= tr.len()
            &&& left == tr.skip(tr.len() - left.len())
            &&& tr.len() - left.len() <= pids.len()
            &&& forall|i: int|
                0 <= i < tr.len() - left.len() ==> writes_task(#[trigger] tr[i], tasks, pids[i])
            &&& pids.len() > 0 ==> left.len() < tr.len()
            &&& answer matches Err(e) ==> left.len() < tr.len() && is_reason(
                tr[tr.len() - left.len() - 1],
                tasks,
                e,
            )
        }),
    decreases pids.len(),
{
    if pids.len() == 0 {
        assert(tr.skip(0) =~= tr);
    } else {
        let rest = tr.drop_first();
        match tr[0] {
            FsEvent::WriteStr { path, data, answer } => {
                if goes_on(tr[0]) {
                    let (a, m) = if answer is Ok {
                        (assigned + 1, missing)
                    } else {
                        (assigned, missing + 1)
                    };
                    lemma_assign_ends(tasks, pids.drop_first(), rest, a, m);
                    let (done, left) = assign_run(tasks, pids, tr, assigned, missing).unwrap();
                    assert(rest.skip(rest.len() - left.len()) =~= tr.skip(tr.len() - left.len()));
                    assert forall|i: int| 0 <= i < tr.len() - left.len() implies writes_task(
                        #[trigger] tr[i],
                        tasks,
                        pids[i],
                    ) by {
                        if i > 0 {
                            assert(tr[i] == rest[i - 1]);
                            assert(pids[i] == pids.drop_first()[i - 1]);
                        }
                    }
                    if done is Err {
                        assert(tr[tr.len() - left.len() - 1] == rest[rest.len() - left.len() - 1]);
                    }
                } else {
                    assert(rest =~= tr.skip(1));
                }
            },
            _ => {},
        }
    }
}

/// Whether a write is of a task that the last listing before it did not show.
pub open spec fn write_is_needed(tr: Seq<FsEvent>, j: int, tasks: Seq<char>) -> bool {
    exists|i: int, pid: i32|
        #![trigger tr[i], writes_task(tr[j], tasks, pid)]
        0 <= i < j && listed_without(tr[i], tasks, pid) && writes_task(tr[j], tasks, pid)
            && forall|k: int| i < k < j ==> #[trigger] tr[k] is WriteStr
}

/// Whether a call listed the tasks, and a task was not among them.
pub open spec fn listed_without(e: FsEvent, tasks: Seq<char>, pid: i32) -> bool {
    e matches FsEvent::ReadToString { path, answer } && path == tasks && (list_answer(
        tasks,
        answer,
    ) matches Ok(current) && !current.contains(pid))
}

/// Reconciling fails only with the error of its last step: that of the source, of the listing or of
/// a write that failed for another reason than that the task is gone. And it never writes a task that
/// the listing before showed.
pub proof fn law_reconciling_does_what_is_needed(
    tasks: Seq<char>,
    wants: Seq<Result<Seq<i32>, ErrorView>>,
    tr: Seq<FsEvent>,
    passes: nat,
    total: nat,
    last: Seq<i32>,
)
    requires
        reconcile_run(tasks, wants, tr, passes, total, last) is Some,
    ensures
        reconcile_run(tasks, wants, tr, passes, total, last).unwrap() matches Err(e) ==> (
        wants.len() > 0 && wants.last() == Err::<Seq<i32>, ErrorView>(e)) || (tr.len() > 0
            && is_reason(tr.last(), tasks, e)),
        forall|j: int|
            0 <= j < tr.len() && #[trigger] tr[j] is WriteStr ==> write_is_needed(tr, j, tasks),
    decreases passes,
{
    if passes > 0 && wants[0] is Ok {
        let want = wants[0]->Ok_0;
        let (answer, rest) = list_run(tasks, tr).unwrap();
        if let Ok(current) = answer {
            let m = missing_of(want, current);
            if m.len() > 0 {
                law_missing_tasks(want, current);
                lemma_assign_ends(tasks, m, rest, 0, 0);
                let (done, left) = assign_run(tasks, m, rest, 0, 0).unwrap();
                let n = rest.len() - left.len();
                assert forall|j: int| 1 <= j <= n implies write_is_needed(
                    tr,
                    j,
                    tasks,
                ) by {
                    let pid = m[j - 1];
                    assert(tr[j] == rest[j - 1]);
                    assert(writes_task(rest[j - 1], tasks, pid));
                    assert(m.contains(pid));
                    assert(listed_without(tr[0], tasks, pid));
                    assert forall|k: int| 0 < k < j implies #[trigger] tr[k] is WriteStr by {
                        assert(tr[k] == rest[k - 1]);
                    }
                    assert(writes_task(tr[j], tasks, pid));
                }
                if done is Ok {
                    law_reconciling_does_what_is_needed(
                        tasks,
                        wants.drop_first(),
                        left,
                        (passes - 1) as nat,
                        sat(total + done->Ok_0.0),
                        want,
                    );
                    assert forall|j: int| n < j < tr.len() && tr[j] is WriteStr implies write_is_needed(
                        tr,
                        j,
                        tasks,
                    ) by {
                        let at = j - n - 1;
                        assert(tr[j] == left[at]);
                        assert(left[at] is WriteStr);
                        let (i, pid) = choose|i: int, pid: i32|
                            #![trigger left[i], writes_task(left[at], tasks, pid)]
                            0 <= i < at && listed_without(left[i], tasks, pid) && writes_task(
                                left[at],
                                tasks,
                                pid,
                            ) && forall|k: int| i < k < at ==> #[trigger] left[k] is WriteStr;
                        assert(tr[i + n + 1] == left[i]);
                        assert forall|k: int| i + n + 1 < k < j implies #[trigger] tr[
                            k
                        ] is WriteStr by {
                            assert(tr[k] == left[k - n - 1]);
                        }
                        assert(writes_task(tr[j], tasks, pid));
                    }
                    if left.len() > 0 {
                        assert(tr.last() == left.last());
                    }
                    if wants.len() > 1 {
                        assert(wants.drop_first().last() == wants.last());
                    }
                } else {
                    assert(tr.last() == rest[n - 1]);
                }
                assert forall|j: int|
                    0 <= j < tr.len() && #[trigger] tr[j] is WriteStr implies write_is_needed(
                    tr,
                    j,
                    tasks,
                ) by {
                    assert(j > 0);
                }
            }
        }
    }
}

// ---------------------------------------------------------------------------
// Cleanup
// ---------------------------------------------------------------------------

/// How many removals were answered in the three ways that a report tells apart.
pub open spec fn removals_in(tr: Seq<FsEvent>) -> ReportView
    decreases tr.len(),
{
    if tr.len() == 0 {
        empty_report()
    } else {
        let r = removals_in(tr.drop_first());
        match tr[0] {
            FsEvent::RemoveDir { answer: Ok(()), .. } => ReportView { removed: r.removed + 1, ..r },
            FsEvent::RemoveDir { answer: Err(e), .. } => if e.code == Some(2i32) {
                ReportView { removal_race: r.removal_race + 1, ..r }
            } else {
                ReportView { removal_failures: r.removal_failures + 1, ..r }
            },
            _ => r,
        }
    }
}

/// Whether calls hold the removal of a directory.
pub open spec fn removed_in(tr: Seq<FsEvent>, path: Seq<char>) -> bool {
    exists|i: int| 0 <= i < tr.len() && (#[trigger] tr[i] matches FsEvent::RemoveDir { path: p, .. }
        && p == path)
}

/// Whether all calls are removals of named directories whose names begin with a prefix.
pub open spec fn all_removals_of(
    tr: Seq<FsEvent>,
    parent: Seq<char>,
    names: Seq<Seq<char>>,
    prefix: Seq<char>,
) -> bool {
    forall|i: int|
        0 <= i < tr.len() ==> (#[trigger] tr[i] matches FsEvent::RemoveDir { path, .. } && exists|
            name: Seq<char>,
        |
            names.contains(name) && begins(name, prefix) && path == #[trigger] joined(parent, name))
}

/// A sweep tries to remove each of the directories whose names begin with the prefix and no other,
/// and its report tells what came of them, short of counts that reach the greatest `usize`.
pub proof fn law_sweep_tries_each(
    parent: Seq<char>,
    names: Seq<Seq<char>>,
    prefix: Seq<char>,
    tr: Seq<FsEvent>,
    report: ReportView,
)
    requires
        sweep_run(parent, names, prefix, tr, report) is Some,
    ensures
        ({
            let (done, left) = sweep_run(parent, names, prefix, tr, report).unwrap();
            let mine = tr.take(tr.len() - left.len());
            &&& left.len() <= tr.len()
            &&& left == tr.skip(tr.len() - left.len())
            &&& mine.len() <= names.len()
            &&& all_removals_of(mine, parent, names, prefix)
            &&& forall|name: Seq<char>|
                names.contains(name) && #[trigger] begins(name, prefix) ==> removed_in(
                    mine,
                    joined(parent, name),
                )
            &&& report.removed <= usize::MAX ==> done.removed == sat(
                report.removed + removals_in(mine).removed,
            )
            &&& report.removal_race <= usize::MAX ==> done.removal_race == sat(
                report.removal_race + removals_in(mine).removal_race,
            )
            &&& report.removal_failures <= usize::MAX ==> done.removal_failures == sat(
                report.removal_failures + removals_in(mine).removal_failures,
            )
            &&& report.non_prefix_groups <= usize::MAX ==> done.non_prefix_groups == sat(
                (report.non_prefix_groups + names.len() - mine.len()) as nat,
            )
        }),
    decreases names.len(),
{
    let (done, left) = sweep_run(parent, names, prefix, tr, report).unwrap();
    if names.len() == 0 {
        assert(tr.skip(0) =~= tr);
        assert(tr.take(0).len() == 0);
    } else if !begins(names[0], prefix) {
        let next = ReportView { non_prefix_groups: sat(report.non_prefix_groups + 1), ..report };
        let rest = names.drop_first();
        law_sweep_tries_each(parent, rest, prefix, tr, next);
        let mine = tr.take(tr.len() - left.len());
        assert forall|name: Seq<char>|
            names.contains(name) && #[trigger] begins(name, prefix) implies removed_in(
            mine,
            joined(parent, name),
        ) by {
            let k = choose|k: int| 0 <= k < names.len() && names[k] == name;
            assert(rest[k - 1] == name);
        }
        lemma_removals_of_more(mine, parent, rest, names, prefix);
    } else {
        let rest = names.drop_first();
        let after = tr.drop_first();
        match tr[0] {
            FsEvent::RemoveDir { path, answer } => {
                let next = match answer {
                    Ok(()) => ReportView { removed: sat(report.removed + 1), ..report },
                    Err(e) => if e.code == Some(2i32) {
                        ReportView { removal_race: sat(report.removal_race + 1), ..report }
                    } else {
                        ReportView { removal_failures: sat(report.removal_failures + 1), ..report }
                    },
                };
                law_sweep_tries_each(parent, rest, prefix, after, next);
                let mine = tr.take(tr.len() - left.len());
                let theirs = after.take(after.len() - left.len());
                assert(mine.drop_first() =~= theirs);
                assert(after.skip(after.len() - left.len()) =~= tr.skip(tr.len() - left.len()));
                lemma_removals_of_more(theirs, parent, rest, names, prefix);
                assert(names.contains(names[0]));
                assert forall|i: int| 0 <= i < mine.len() implies (
                #[trigger] mine[i] matches FsEvent::RemoveDir { path, .. } && exists|
                    name: Seq<char>,
                |
                    names.contains(name) && begins(name, prefix) && path == #[trigger] joined(
                        parent,
                        name,
                    )) by {
                    if i > 0 {
                        assert(mine[i] == theirs[i - 1]);
                    }
                }
                assert forall|name: Seq<char>|
                    names.contains(name) && #[trigger] begins(name, prefix) implies removed_in(
                    mine,
                    joined(parent, name),
                ) by {
                    if name == names[0] {
                        assert(mine[0] == tr[0]);
                    } else {
                        let k = choose|k: int| 0 <= k < names.len() && names[k] == name;
                        assert(rest[k - 1] == name);
                        let i = choose|i: int|
                            0 <= i < theirs.len() && (
                            #[trigger] theirs[i] matches FsEvent::RemoveDir { path: p, .. } && p
                                == joined(parent, name));
                        assert(mine[i + 1] == theirs[i]);
                    }
                }
            },
            _ => {},
        }
    }
}

proof fn lemma_removals_of_more(
    tr: Seq<FsEvent>,
    parent: Seq<char>,
    fewer: Seq<Seq<char>>,
    names: Seq<Seq<char>>,
    prefix: Seq<char>,
)
    requires
        all_removals_of(tr, parent, fewer, prefix),
        names.len() > 0,
        fewer == names.drop_first(),
    ensures
        all_removals_of(tr, parent, names, prefix),
{
    assert forall|i: int| 0 <= i < tr.len() implies (#[trigger] tr[i] matches FsEvent::RemoveDir {
        path,
        ..
    } && exists|name: Seq<char>|
        names.contains(name) && begins(name, prefix) && path == #[trigger] joined(parent, name)) by {
        let path = tr[i]->RemoveDir_path;
        let name = choose|name: Seq<char>|
            fewer.contains(name) && begins(name, prefix) && path == #[trigger] joined(parent, name);
        let k = choose|k: int| 0 <= k < fewer.len() && fewer[k] == name;
        assert(names[k + 1] == name);
        assert(names.contains(name));
    }
}

/// A cleanup that succeeds has listed the root and the directory of monitoring groups, and has tried
/// to remove every directory of either whose name begins with the prefix, but for the three of the
/// root that are no groups.
pub proof fn law_cleanup_tries_everything(root: Seq<char>, prefix: Seq<char>, tr: Seq<FsEvent>)
    requires
        cleanup_run(root, prefix, tr) is Some,
        cleanup_run(root, prefix, tr).unwrap().0 is Ok,
        cleanup_run(root, prefix, tr).unwrap().1.len() == 0,
    ensures
        exists|names: Seq<Seq<char>>, mon_names: Seq<Seq<char>>, k: int|
            #![trigger cleaned_up(root, prefix, tr, names, mon_names, k)]
            cleaned_up(root, prefix, tr, names, mon_names, k),
{
    let names = tr[0]->ReadChildDirs_answer->Ok_0;
    let groups = root_groups(names);
    let after = tr.drop_first();
    law_sweep_tries_each(root, groups, prefix, after, empty_report());
    let (report, rest) = sweep_run(root, groups, prefix, after, empty_report()).unwrap();
    let k = tr.len() - rest.len();
    assert(tr[k] == rest[0]);
    let mon_names = rest[0]->ReadChildDirs_answer->Ok_0;
    let last = rest.drop_first();
    law_sweep_tries_each(mon_groups_of(root), mon_names, prefix, last, report);
    let first = after.take(after.len() - rest.len());
    assert(first =~= tr.subrange(1, k));
    assert(last =~= tr.skip(k + 1));
    assert(last.take(last.len() as int) =~= last);
    let f = |n: Seq<char>| !is_special(n);
    assert forall|name: Seq<char>| groups.contains(name) <==> names.contains(name) && name
        != "info"@ && name != "mon_data"@ && name != "mon_groups"@ by {
        lemma_filter_contains(names, f, name);
    }
    assert(cleaned_up(root, prefix, tr, names, mon_names, k));
}

proof fn lemma_filter_contains(
    names: Seq<Seq<char>>,
    f: spec_fn(Seq<char>) -> bool,
    name: Seq<char>,
)
    ensures
        names.filter(f).contains(name) <==> names.contains(name) && f(name),
    decreases names.len(),
{
    reveal(Seq::filter);
    if names.len() > 0 {
        let front = names.drop_last();
        lemma_filter_contains(front, f, name);
        let x = names.last();
        if names.contains(name) {
            let k = choose|k: int| 0 <= k < names.len() && names[k] == name;
            if k < front.len() {
                assert(front[k] == name);
            }
        }
        if front.contains(name) {
            let k = choose|k: int| 0 <= k < front.len() && front[k] == name;
            assert(names[k] == name);
        }
        assert(names[names.len() - 1] == x);
        if f(x) {
            let g = front.filter(f);
            assert(names.filter(f) =~= g.push(x));
            assert(g.push(x)[g.len() as int] == x);
            if g.contains(name) {
                let k = choose|k: int| 0 <= k < g.len() && g[k] == name;
                assert(g.push(x)[k] == name);
            }
            if g.push(x).contains(name) {
                let k = choose|k: int| 0 <= k < g.push(x).len() && g.push(x)[k] == name;
                if k < g.len() {
                    assert(g[k] == name);
                }
            }
        }
    }
}

/// Whether calls are those of a cleanup of the named directories of the root and of those of the
/// directory of monitoring groups, which is listed by the call at `k`.
pub open spec fn cleaned_up(
    root: Seq<char>,
    prefix: Seq<char>,
    tr: Seq<FsEvent>,
    names: Seq<Seq<char>>,
    mon_names: Seq<Seq<char>>,
    k: int,
) -> bool {
    let dir = mon_groups_of(root);
    &&& 0 < k < tr.len()
    &&& tr[0] == (FsEvent::ReadChildDirs { path: root, answer: Ok(names) })
    &&& tr[k] == (FsEvent::ReadChildDirs { path: dir, answer: Ok(mon_names) })
    &&& all_removals_of(tr.subrange(1, k), root, root_groups(names), prefix)
    &&& all_removals_of(tr.skip(k + 1), dir, mon_names, prefix)
    &&& forall|name: Seq<char>| #[trigger]
        root_groups(names).contains(name) <==> names.contains(name) && name != "info"@ && name
            != "mon_data"@ && name != "mon_groups"@
    &&& forall|name: Seq<char>|
        root_groups(names).contains(name) && #[trigger] begins(name, prefix) ==> removed_in(
            tr.subrange(1, k),
            joined(root, name),
        )
    &&& forall|name: Seq<char>|
        mon_names.contains(name) && #[trigger] begins(name, prefix) ==> removed_in(
            tr.skip(k + 1),
            joined(dir, name),
        )
}

// ---------------------------------------------------------------------------
// Occupancy of the last level cache
// ---------------------------------------------------------------------------

/// The number that a call has read, or zero where it has read none.
pub open spec fn number_in(e: FsEvent) -> int {
    match e {
        FsEvent::ReadToString { answer: Ok(text), .. } => match parse_u64_of(trimmed(text)) {
            Ok(n) => n,
            Err(_) => 0,
        },
        _ => 0,
    }
}

/// The sum of the numbers that calls have read.
pub open spec fn sum_in(tr: Seq<FsEvent>) -> int
    decreases tr.len(),
{
    if tr.len() == 0 {
        0
    } else {
        number_in(tr[0]) + sum_in(tr.drop_first())
    }
}

/// The directories of cache domains among directories.
pub open spec fn domains_in(names: Seq<Seq<char>>) -> Seq<Seq<char>> {
    names.filter(|n: Seq<char>| begins(n, "mon_L3_"@))
}

proof fn lemma_domains_first(names: Seq<Seq<char>>)
    requires
        names.len() > 0,
    ensures
        domains_in(names) == if begins(names[0], "mon_L3_"@) {
            seq![names[0]] + domains_in(names.drop_first())
        } else {
            domains_in(names.drop_first())
        },
    decreases names.len(),
{
    reveal(Seq::filter);
    let f = |n: Seq<char>| begins(n, "mon_L3_"@);
    if names.len() == 1 {
        assert(names.drop_last() =~= Seq::<Seq<char>>::empty());
        assert(names.drop_first() =~= Seq::<Seq<char>>::empty());
        assert(names.last() == names[0]);
        assert(domains_in(names.drop_last()) =~= Seq::<Seq<char>>::empty());
        if f(names[0]) {
            assert(domains_in(names) =~= seq![names[0]]);
        } else {
            assert(domains_in(names) =~= Seq::<Seq<char>>::empty());
        }
        assert(domains_in(names.drop_first()) =~= Seq::<Seq<char>>::empty());
    } else {
        let front = names.drop_last();
        lemma_domains_first(front);
        assert(front[0] == names[0]);
        assert(front.drop_first() =~= names.drop_first().drop_last());
        assert(names.last() == names.drop_first().last());
        let a = domains_in(front.drop_first());
        let x = names.last();
        if f(x) {
            assert(domains_in(names) =~= domains_in(front).push(x));
            assert(domains_in(names.drop_first()) =~= a.push(x));
        } else {
            assert(domains_in(names) =~= domains_in(front));
            assert(domains_in(names.drop_first()) =~= a);
        }
        if f(names[0]) {
            assert((seq![names[0]] + a).push(x) =~= seq![names[0]] + a.push(x));
        }
    }
}

proof fn lemma_sum_is_not_negative(tr: Seq<FsEvent>)
    ensures
        sum_in(tr) >= 0,
    decreases tr.len(),
{
    if tr.len() > 0 {
        lemma_sum_is_not_negative(tr.drop_first());
        match tr[0] {
            FsEvent::ReadToString { answer: Ok(text), .. } => {
                law_numbers_are_read_exactly(trimmed(text));
            },
            _ => {},
        }
    }
}

proof fn lemma_occupancy_reads(
    mon_data: Seq<char>,
    names: Seq<Seq<char>>,
    tr: Seq<FsEvent>,
    total: int,
)
    requires
        occupancy_run(mon_data, names, tr, total) is Some,
        occupancy_run(mon_data, names, tr, total).unwrap().1.len() == 0,
        0 <= total <= u64::MAX,
    ensures
        ({
            let domains = domains_in(names);
            let answer = occupancy_run(mon_data, names, tr, total).unwrap().0;
            &&& tr.len() <= domains.len()
            &&& forall|i: int|
                0 <= i < tr.len() ==> (#[trigger] tr[i] matches FsEvent::ReadToString { path, .. }
                    && path == occupancy_path(mon_data, domains[i]))
            &&& answer matches Ok(n) ==> tr.len() == domains.len() && n == sat64(
                total + sum_in(tr),
            )
            &&& answer matches Err(e) ==> tr.len() > 0 && occupancy_answer(
                occupancy_path(mon_data, domains[tr.len() - 1]),
                tr.last()->ReadToString_answer,
            ) == Err::<int, ErrorView>(e)
        }),
    decreases names.len(),
{
    if names.len() == 0 {
        reveal(Seq::filter);
        assert(domains_in(names).len() == 0);
    } else {
        lemma_domains_first(names);
        let rest = names.drop_first();
        if !begins(names[0], "mon_L3_"@) {
            lemma_occupancy_reads(mon_data, rest, tr, total);
        } else {
            let domains = domains_in(names);
            assert(domains[0] == names[0]);
            let after = tr.drop_first();
            match tr[0] {
                FsEvent::ReadToString { path, answer } => {
                    match occupancy_answer(path, answer) {
                        Err(_) => {
                            assert(tr.len() == 1);
                        },
                        Ok(n) => {
                            law_numbers_are_read_exactly(trimmed(answer->Ok_0));
                            lemma_occupancy_reads(mon_data, rest, after, sat64(total + n));
                            lemma_sum_is_not_negative(after);
                            assert forall|i: int| 0 <= i < tr.len() implies (
                            #[trigger] tr[i] matches FsEvent::ReadToString { path, .. } && path
                                == occupancy_path(mon_data, domains[i])) by {
                                if i > 0 {
                                    assert(tr[i] == after[i - 1]);
                                    assert(domains[i] == domains_in(rest)[i - 1]);
                                }
                            }
                            if after.len() > 0 {
                                assert(tr.last() == after.last());
                                assert(domains[tr.len() - 1] == domains_in(rest)[after.len() - 1]);
                            }
                        },
                    }
                },
                _ => {},
            }
        }
    }
}

/// The occupancy of a group is the sum of those of all its cache domains, each read once, short of
/// the greatest `u64`; it cannot be had exactly where the listing or one of the readings cannot.
pub proof fn law_occupancy_is_the_sum_of_all_domains(mon_data: Seq<char>, tr: Seq<FsEvent>)
    requires
        group_occupancy_run(mon_data, tr) is Some,
        group_occupancy_run(mon_data, tr).unwrap().1.len() == 0,
    ensures
        tr.len() > 0,
        tr[0] matches FsEvent::ReadChildDirs { path, answer } && path == mon_data && match answer {
            Err(e) => tr.len() == 1 && group_occupancy_run(mon_data, tr).unwrap().0 == Err::<
                int,
                ErrorView,
            >(basic_error(mon_data, e)),
            Ok(names) => {
                let domains = domains_in(names);
                let reads = tr.drop_first();
                &&& reads.len() <= domains.len()
                &&& forall|i: int|
                    0 <= i < reads.len() ==> (
                    #[trigger] reads[i] matches FsEvent::ReadToString { path, .. } && path
                        == occupancy_path(mon_data, domains[i]))
                &&& match group_occupancy_run(mon_data, tr).unwrap().0 {
                    Ok(n) => reads.len() == domains.len() && n == sat64(sum_in(reads)),
                    Err(e) => reads.len() > 0 && occupancy_answer(
                        occupancy_path(mon_data, domains[reads.len() - 1]),
                        reads.last()->ReadToString_answer,
                    ) == Err::<int, ErrorView>(e),
                }
            },
        },
{
    match tr[0] {
        FsEvent::ReadChildDirs { path, answer: Ok(names) } => {
            lemma_occupancy_reads(mon_data, names, tr.drop_first(), 0);
        },
        _ => {},
    }
}

}
