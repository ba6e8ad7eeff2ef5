//! What each operation does to the filesystem and what it returns.
//!
//! An operation is described by how it reads the calls that it made: given a sequence of calls
//! with their answers, its description says which result the operation gives and which calls are
//! left over, or `None` where the operation would not have made these calls.

use vstd::prelude::*;

use crate::decimal::{dec, dec_int, parse_i32_of, parse_u64_of, IntError};
use crate::path::joined;
use crate::resctrl::error::{
    basic_error, text_error, ErrorKind, ErrorView, IoErrorView, EACCES, EINVAL, ENODEV, ENOENT,
    ENOSPC, ENOSYS, ENOTSUP, EPERM, ESRCH,
};
use crate::resctrl::group::{group_path_of, mon_groups_of};
use crate::resctrl::provider::FsEvent;
use crate::search::begins;
use crate::text::{fields_of, lines_of, trimmed};

verus! {

/// A count that stays at the greatest `usize` once it has reached it.
pub open spec fn sat(n: nat) -> nat {
    if n > usize::MAX {
        usize::MAX as nat
    } else {
        n
    }
}

// ---------------------------------------------------------------------------
// Support and mounting
// ---------------------------------------------------------------------------

/// What is known of resctrl on the system.
pub struct SupportView {
    pub mounted: bool,
    pub mount_point: Option<Seq<char>>,
    pub writable: bool,
}

/// Where the first of the mount table's lines whose third field is `resctrl` says that the
/// filesystem is mounted.
pub open spec fn mount_in(lines: Seq<Seq<char>>) -> Option<Seq<char>>
    decreases lines.len(),
{
    if lines.len() == 0 {
        None
    } else {
        let parts = fields_of(lines[0]);
        if parts.len() >= 3 && parts[2] == "resctrl"@ {
            Some(parts[1])
        } else {
            mount_in(lines.drop_first())
        }
    }
}

/// Where a mount table says that resctrl is mounted.
pub open spec fn mount_point_of(mounts: Seq<char>) -> Option<Seq<char>> {
    mount_in(lines_of(mounts))
}

/// Detection reads the mount table and, where resctrl is mounted, asks whether the tasks file at
/// the mount point can be opened for writing.
pub open spec fn detect_run(tr: Seq<FsEvent>) -> Option<
    (Result<SupportView, ErrorView>, Seq<FsEvent>),
> {
    if tr.len() == 0 {
        None
    } else {
        match tr[0] {
            FsEvent::ReadToString { path, answer } => if path != "/proc/mounts"@ {
                None
            } else {
                match answer {
                    Err(e) => Some((Err(ErrorView::Io { path, source: e }), tr.drop_first())),
                    Ok(mounts) => match mount_point_of(mounts) {
                        None => Some(
                            (
                                Ok(
                                    SupportView {
                                        mounted: false,
                                        mount_point: None,
                                        writable: false,
                                    },
                                ),
                                tr.drop_first(),
                            ),
                        ),
                        Some(mp) => if tr.len() < 2 {
                            None
                        } else {
                            match tr[1] {
                                FsEvent::CheckWritable { path: tasks, answer: w } => if tasks
                                    == joined(mp, "tasks"@) {
                                    Some(
                                        (
                                            Ok(
                                                SupportView {
                                                    mounted: true,
                                                    mount_point: Some(mp),
                                                    writable: w is Ok,
                                                },
                                            ),
                                            tr.skip(2),
                                        ),
                                    )
                                } else {
                                    None
                                },
                                _ => None,
                            }
                        },
                    },
                }
            },
            _ => None,
        }
    }
}

/// The error of a failed mount at `root`.
pub open spec fn mount_error(root: Seq<char>, e: IoErrorView) -> ErrorView {
    match e.code {
        Some(code) => if code == EACCES || code == EPERM {
            ErrorView::NoPermission { path: root, source: e }
        } else if code == ENODEV || code == EINVAL || code == ENOTSUP || code == ENOSYS {
            ErrorView::Unsupported { source: e }
        } else {
            ErrorView::Io { path: root, source: e }
        },
        None => ErrorView::Io { path: root, source: e },
    }
}

/// Mounting happens only where resctrl is not mounted and `auto_mount` asks for it; a mount that
/// succeeded is looked for in the mount table again.
pub open spec fn ensure_run(auto_mount: bool, root: Seq<char>, tr: Seq<FsEvent>) -> Option<
    (Result<(), ErrorView>, Seq<FsEvent>),
> {
    match detect_run(tr) {
        None => None,
        Some((Err(e), rest)) => Some((Err(e), rest)),
        Some((Ok(info), rest)) => if info.mounted {
            Some((Ok(()), rest))
        } else if !auto_mount {
            Some((Err(ErrorView::NotMounted { root }), rest))
        } else if rest.len() == 0 {
            None
        } else {
            match rest[0] {
                FsEvent::Mount { target, answer } => if target != root {
                    None
                } else {
                    match answer {
                        Err(e) => Some((Err(mount_error(root, e)), rest.drop_first())),
                        Ok(()) => match detect_run(rest.drop_first()) {
                            None => None,
                            Some((Err(e), left)) => Some((Err(e), left)),
                            Some((Ok(again), left)) => if again.mounted {
                                Some((Ok(()), left))
                            } else {
                                Some(
                                    (
                                        Err(
                                            ErrorView::Io {
                                                path: root,
                                                source: text_error(
                                                    ErrorKind::Other,
                                                    "mount did not take effect"@,
                                                ),
                                            },
                                        ),
                                        left,
                                    ),
                                )
                            },
                        },
                    }
                },
                _ => None,
            }
        },
    }
}

// ---------------------------------------------------------------------------
// Groups
// ---------------------------------------------------------------------------

/// What creating the group at `path` gives where the directory's creation was answered so. A group
/// that is already there is as good as a new one.
pub open spec fn create_answer(path: Seq<char>, answer: Result<(), IoErrorView>) -> Result<
    Seq<char>,
    ErrorView,
> {
    match answer {
        Ok(()) => Ok(path),
        Err(e) => match basic_error(path, e) {
            ErrorView::Io { path: p, source } => if source.kind == ErrorKind::AlreadyExists {
                Ok(path)
            } else {
                Err(ErrorView::Io { path: p, source })
            },
            other => Err(other),
        },
    }
}

/// Creating a group asks whether the root is there and then creates the group's directory.
pub open spec fn create_run(
    root: Seq<char>,
    prefix: Seq<char>,
    uid: Seq<char>,
    tr: Seq<FsEvent>,
) -> Option<(Result<Seq<char>, ErrorView>, Seq<FsEvent>)> {
    if tr.len() == 0 {
        None
    } else {
        match tr[0] {
            FsEvent::PathExists { path, found } => if path != root {
                None
            } else if !found {
                Some((Err(ErrorView::NotMounted { root }), tr.drop_first()))
            } else if tr.len() < 2 {
                None
            } else {
                match tr[1] {
                    FsEvent::CreateDir { path: dir, answer } => if dir == group_path_of(
                        root,
                        prefix,
                        uid,
                    ) {
                        Some((create_answer(dir, answer), tr.skip(2)))
                    } else {
                        None
                    },
                    _ => None,
                }
            },
            _ => None,
        }
    }
}

/// What deleting the group at `path` gives where the directory's removal was answered so. A group
/// that is not there is as good as a removed one.
pub open spec fn delete_answer(path: Seq<char>, answer: Result<(), IoErrorView>) -> Result<
    (),
    ErrorView,
> {
    match answer {
        Ok(()) => Ok(()),
        Err(e) => if e.code == Some(ENOENT) {
            Ok(())
        } else {
            Err(basic_error(path, e))
        },
    }
}

/// Deleting a group removes its directory.
pub open spec fn delete_run(group: Seq<char>, tr: Seq<FsEvent>) -> Option<
    (Result<(), ErrorView>, Seq<FsEvent>),
> {
    if tr.len() == 0 {
        None
    } else {
        match tr[0] {
            FsEvent::RemoveDir { path, answer } => if path == group {
                Some((delete_answer(group, answer), tr.drop_first()))
            } else {
                None
            },
            _ => None,
        }
    }
}

// ---------------------------------------------------------------------------
// Tasks
// ---------------------------------------------------------------------------

/// The tasks file of a group.
pub open spec fn tasks_of(group: Seq<char>) -> Seq<char> {
    joined(group, "tasks"@)
}

/// Whether a failed write of a task means that the task is gone.
pub open spec fn task_is_gone(e: IoErrorView) -> bool {
    e.code == Some(ESRCH)
}

/// The error of a failed write of a task to the tasks file at `path`.
pub open spec fn write_error(path: Seq<char>, e: IoErrorView) -> ErrorView {
    match e.code {
        Some(code) => if code == EACCES || code == EPERM {
            ErrorView::NoPermission { path, source: e }
        } else if code == ENOSPC {
            ErrorView::Capacity { source: e }
        } else {
            ErrorView::Io { path, source: e }
        },
        None => ErrorView::Io { path, source: e },
    }
}

/// Assigning writes the tasks one by one. A task that is gone is counted and passed over; any
/// other failure ends the assignment. `assigned` and `missing` are the counts so far.
pub open spec fn assign_run(
    tasks: Seq<char>,
    pids: Seq<i32>,
    tr: Seq<FsEvent>,
    assigned: nat,
    missing: nat,
) -> Option<(Result<(nat, nat), ErrorView>, Seq<FsEvent>)>
    decreases pids.len(),
{
    if pids.len() == 0 {
        Some((Ok((assigned, missing)), tr))
    } else if tr.len() == 0 {
        None
    } else {
        match tr[0] {
            FsEvent::WriteStr { path, data, answer } => if path != tasks || data != dec_int(
                pids[0] as int,
            ) {
                None
            } else {
                match answer {
                    Ok(()) => assign_run(
                        tasks,
                        pids.drop_first(),
                        tr.drop_first(),
                        assigned + 1,
                        missing,
                    ),
                    Err(e) => if task_is_gone(e) {
                        assign_run(
                            tasks,
                            pids.drop_first(),
                            tr.drop_first(),
                            assigned,
                            missing + 1,
                        )
                    } else {
                        Some((Err(write_error(tasks, e)), tr.drop_first()))
                    },
                }
            },
            _ => None,
        }
    }
}

/// The message about a line of a tasks file that holds no task.
pub open spec fn bad_line(number: nat, text: Seq<char>, e: IntError) -> Seq<char> {
    "invalid pid at line "@ + dec(number) + ": '"@ + text + "': "@ + e.text()
}

/// The tasks that the lines of a tasks file hold, blank lines aside, or the message about the
/// first line that holds none.
pub open spec fn pids_in(lines: Seq<Seq<char>>) -> Result<Seq<i32>, Seq<char>>
    decreases lines.len(),
{
    if lines.len() == 0 {
        Ok(Seq::empty())
    } else {
        match pids_in(lines.drop_last()) {
            Err(m) => Err(m),
            Ok(pids) => {
                let t = trimmed(lines.last());
                if t.len() == 0 {
                    Ok(pids)
                } else {
                    match parse_i32_of(t) {
                        Ok(n) => Ok(pids.push(n as i32)),
                        Err(e) => Err(bad_line(lines.len(), t, e)),
                    }
                }
            },
        }
    }
}

/// The tasks that the tasks file at `path` holds, where it was answered so.
pub open spec fn list_answer(path: Seq<char>, answer: Result<Seq<char>, IoErrorView>) -> Result<
    Seq<i32>,
    ErrorView,
> {
    match answer {
        Err(e) => Err(basic_error(path, e)),
        Ok(text) => match pids_in(lines_of(text)) {
            Ok(pids) => Ok(pids),
            Err(m) => Err(
                ErrorView::Io { path, source: text_error(ErrorKind::InvalidData, m) },
            ),
        },
    }
}

/// Listing reads the tasks file.
pub open spec fn list_run(tasks: Seq<char>, tr: Seq<FsEvent>) -> Option<
    (Result<Seq<i32>, ErrorView>, Seq<FsEvent>),
> {
    if tr.len() == 0 {
        None
    } else {
        match tr[0] {
            FsEvent::ReadToString { path, answer } => if path == tasks {
                Some((list_answer(tasks, answer), tr.drop_first()))
            } else {
                None
            },
            _ => None,
        }
    }
}

/// The wanted tasks that are not among the current ones, each once, in the order of their first
/// occurrence.
pub open spec fn missing_of(want: Seq<i32>, current: Seq<i32>) -> Seq<i32>
    decreases want.len(),
{
    if want.len() == 0 {
        Seq::empty()
    } else {
        let m = missing_of(want.drop_last(), current);
        if current.contains(want.last()) || m.contains(want.last()) {
            m
        } else {
            m.push(want.last())
        }
    }
}

/// Reconciling asks for the wanted tasks, lists the group's and assigns what is missing, at most
/// `passes` times, until nothing is missing. `wants` are the answers about the wanted tasks,
/// `total` the assignments so far and `last` the tasks wanted last.
pub open spec fn reconcile_run(
    tasks: Seq<char>,
    wants: Seq<Result<Seq<i32>, ErrorView>>,
    tr: Seq<FsEvent>,
    passes: nat,
    total: nat,
    last: Seq<i32>,
) -> Option<Result<(nat, nat), ErrorView>>
    decreases passes,
{
    if passes == 0 {
        match list_run(tasks, tr) {
            Some((answer, rest)) => if rest.len() != 0 || wants.len() != 0 {
                None
            } else {
                match answer {
                    Err(e) => Some(Err(e)),
                    Ok(current) => Some(Ok((total, missing_of(last, current).len()))),
                }
            },
            None => None,
        }
    } else if wants.len() == 0 {
        None
    } else {
        match wants[0] {
            Err(e) => if wants.len() == 1 && tr.len() == 0 {
                Some(Err(e))
            } else {
                None
            },
            Ok(want) => match list_run(tasks, tr) {
                None => None,
                Some((Err(e), rest)) => if wants.len() == 1 && rest.len() == 0 {
                    Some(Err(e))
                } else {
                    None
                },
                Some((Ok(current), rest)) => {
                    let m = missing_of(want, current);
                    if m.len() == 0 {
                        if wants.len() == 1 && rest.len() == 0 {
                            Some(Ok((total, 0)))
                        } else {
                            None
                        }
                    } else {
                        match assign_run(tasks, m, rest, 0, 0) {
                            None => None,
                            Some((Err(e), left)) => if wants.len() == 1 && left.len() == 0 {
                                Some(Err(e))
                            } else {
                                None
                            },
                            Some((Ok((assigned, _)), left)) => reconcile_run(
                                tasks,
                                wants.drop_first(),
                                left,
                                (passes - 1) as nat,
                                sat(total + assigned),
                                want,
                            ),
                        }
                    }
                },
            },
        }
    }
}

// ---------------------------------------------------------------------------
// Cleanup
// ---------------------------------------------------------------------------

/// What a cleanup did.
#[verifier::ext_equal]
pub struct ReportView {
    pub removed: nat,
    pub removal_failures: nat,
    pub removal_race: nat,
    pub non_prefix_groups: nat,
}

/// A sweep removes, of the directories `names` below `parent`, those whose name begins with the
/// prefix, and counts what came of each.
pub open spec fn sweep_run(
    parent: Seq<char>,
    names: Seq<Seq<char>>,
    prefix: Seq<char>,
    tr: Seq<FsEvent>,
    report: ReportView,
) -> Option<(ReportView, Seq<FsEvent>)>
    decreases names.len(),
{
    if names.len() == 0 {
        Some((report, tr))
    } else if !begins(names[0], prefix) {
        sweep_run(
            parent,
            names.drop_first(),
            prefix,
            tr,
            ReportView { non_prefix_groups: sat(report.non_prefix_groups + 1), ..report },
        )
    } else if tr.len() == 0 {
        None
    } else {
        match tr[0] {
            FsEvent::RemoveDir { path, answer } => if path != joined(parent, names[0]) {
                None
            } else {
                let next = match answer {
                    Ok(()) => ReportView { removed: sat(report.removed + 1), ..report },
                    Err(e) => if e.code == Some(ENOENT) {
                        ReportView { removal_race: sat(report.removal_race + 1), ..report }
                    } else {
                        ReportView { removal_failures: sat(report.removal_failures + 1), ..report }
                    },
                };
                sweep_run(parent, names.drop_first(), prefix, tr.drop_first(), next)
            },
            _ => None,
        }
    }
}

/// The directories below the root that are no groups.
pub open spec fn is_special(name: Seq<char>) -> bool {
    name == "info"@ || name == "mon_data"@ || name == "mon_groups"@
}

/// The groups among the directories below the root.
pub open spec fn root_groups(names: Seq<Seq<char>>) -> Seq<Seq<char>> {
    names.filter(|n: Seq<char>| !is_special(n))
}

/// A report of nothing.
pub open spec fn empty_report() -> ReportView {
    ReportView { removed: 0, removal_failures: 0, removal_race: 0, non_prefix_groups: 0 }
}

/// Cleanup sweeps the groups directly below the root and then those of the directory of
/// monitoring groups.
pub open spec fn cleanup_run(root: Seq<char>, prefix: Seq<char>, tr: Seq<FsEvent>) -> Option<
    (Result<ReportView, ErrorView>, Seq<FsEvent>),
> {
    if tr.len() == 0 {
        None
    } else {
        match tr[0] {
            FsEvent::ReadChildDirs { path, answer } => if path != root {
                None
            } else {
                match answer {
                    Err(e) => Some((Err(basic_error(root, e)), tr.drop_first())),
                    Ok(names) => match sweep_run(
                        root,
                        root_groups(names),
                        prefix,
                        tr.drop_first(),
                        empty_report(),
                    ) {
                        None => None,
                        Some((report, rest)) => cleanup_mon_run(
                            mon_groups_of(root),
                            prefix,
                            rest,
                            report,
                        ),
                    },
                }
            },
            _ => None,
        }
    }
}

/// The second half of a cleanup: the sweep of the directory of monitoring groups.
pub open spec fn cleanup_mon_run(
    dir: Seq<char>,
    prefix: Seq<char>,
    tr: Seq<FsEvent>,
    report: ReportView,
) -> Option<(Result<ReportView, ErrorView>, Seq<FsEvent>)> {
    if tr.len() == 0 {
        None
    } else {
        match tr[0] {
            FsEvent::ReadChildDirs { path, answer } => if path != dir {
                None
            } else {
                match answer {
                    Err(e) => Some((Err(basic_error(dir, e)), tr.drop_first())),
                    Ok(names) => match sweep_run(dir, names, prefix, tr.drop_first(), report) {
                        None => None,
                        Some((done, rest)) => Some((Ok(done), rest)),
                    },
                }
            },
            _ => None,
        }
    }
}

// ---------------------------------------------------------------------------
// Calls that follow are left over
// ---------------------------------------------------------------------------

/// Calls behind those of a detection are left over.
pub proof fn lemma_detect_frame(a: Seq<FsEvent>, b: Seq<FsEvent>)
    requires
        detect_run(a) is Some,
        detect_run(a).unwrap().1.len() == 0,
    ensures
        detect_run(a + b) == Some((detect_run(a).unwrap().0, b)),
{
    assert((a + b)[0] == a[0]);
    if a.len() == 1 {
        assert((a + b).drop_first() =~= b);
    } else {
        assert((a + b)[1] == a[1]);
        assert((a + b).skip(2) =~= b) by {
            assert(a.len() == 2);
        }
    }
}

/// Calls behind those of a listing are left over.
pub proof fn lemma_list_frame(tasks: Seq<char>, a: Seq<FsEvent>, b: Seq<FsEvent>)
    requires
        list_run(tasks, a) is Some,
        list_run(tasks, a).unwrap().1.len() == 0,
    ensures
        list_run(tasks, a + b) == Some((list_run(tasks, a).unwrap().0, b)),
{
    assert((a + b)[0] == a[0]);
    assert((a + b).drop_first() =~= b);
}

/// Calls behind those of an assignment are left over.
pub proof fn lemma_assign_frame(
    tasks: Seq<char>,
    pids: Seq<i32>,
    a: Seq<FsEvent>,
    b: Seq<FsEvent>,
    assigned: nat,
    missing: nat,
)
    requires
        assign_run(tasks, pids, a, assigned, missing) is Some,
        assign_run(tasks, pids, a, assigned, missing).unwrap().1.len() == 0,
    ensures
        assign_run(tasks, pids, a + b, assigned, missing) == Some(
            (assign_run(tasks, pids, a, assigned, missing).unwrap().0, b),
        ),
    decreases pids.len(),
{
    if pids.len() == 0 {
        assert(a + b =~= b);
    } else {
        assert((a + b)[0] == a[0]);
        assert((a + b).drop_first() =~= a.drop_first() + b);
        match a[0] {
            FsEvent::WriteStr { path, data, answer } => {
                match answer {
                    Ok(()) => {
                        lemma_assign_frame(
                            tasks,
                            pids.drop_first(),
                            a.drop_first(),
                            b,
                            assigned + 1,
                            missing,
                        );
                    },
                    Err(e) => {
                        if task_is_gone(e) {
                            lemma_assign_frame(
                                tasks,
                                pids.drop_first(),
                                a.drop_first(),
                                b,
                                assigned,
                                missing + 1,
                            );
                        } else {
                            assert(a.drop_first() + b =~= b);
                        }
                    },
                }
            },
            _ => {},
        }
    }
}

/// Calls behind those of a sweep are left over.
pub proof fn lemma_sweep_frame(
    parent: Seq<char>,
    names: Seq<Seq<char>>,
    prefix: Seq<char>,
    a: Seq<FsEvent>,
    b: Seq<FsEvent>,
    report: ReportView,
)
    requires
        sweep_run(parent, names, prefix, a, report) is Some,
        sweep_run(parent, names, prefix, a, report).unwrap().1.len() == 0,
    ensures
        sweep_run(parent, names, prefix, a + b, report) == Some(
            (sweep_run(parent, names, prefix, a, report).unwrap().0, b),
        ),
    decreases names.len(),
{
    if names.len() == 0 {
        assert(a + b =~= b);
    } else if !begins(names[0], prefix) {
        lemma_sweep_frame(
            parent,
            names.drop_first(),
            prefix,
            a,
            b,
            ReportView { non_prefix_groups: sat(report.non_prefix_groups + 1), ..report },
        );
    } else {
        assert((a + b)[0] == a[0]);
        assert((a + b).drop_first() =~= a.drop_first() + b);
        match a[0] {
            FsEvent::RemoveDir { path, answer } => {
                let next = match answer {
                    Ok(()) => ReportView { removed: sat(report.removed + 1), ..report },
                    Err(e) => if e.code == Some(ENOENT) {
                        ReportView { removal_race: sat(report.removal_race + 1), ..report }
                    } else {
                        ReportView { removal_failures: sat(report.removal_failures + 1), ..report }
                    },
                };
                lemma_sweep_frame(parent, names.drop_first(), prefix, a.drop_first(), b, next);
            },
            _ => {},
        }
    }
}

// ---------------------------------------------------------------------------
// Occupancy of the last level cache
// ---------------------------------------------------------------------------

/// The directory with the readings of a group.
pub open spec fn mon_data_of(group_path: Seq<char>) -> Seq<char> {
    joined(group_path, "mon_data"@)
}

/// What the directory of a cache domain's readings begins with.
pub const L3_PREFIX: &'static str = "mon_L3_";

/// The file with the occupancy of a cache domain.
pub open spec fn occupancy_path(mon_data: Seq<char>, domain: Seq<char>) -> Seq<char> {
    joined(joined(mon_data, domain), "llc_occupancy"@)
}

/// A sum that stays at the greatest `u64` once it has reached it.
pub open spec fn sat64(n: int) -> int {
    if n > u64::MAX {
        u64::MAX as int
    } else {
        n
    }
}

/// What the occupancy that was read of a domain is, or what is wrong with it.
pub open spec fn occupancy_answer(path: Seq<char>, answer: Result<Seq<char>, IoErrorView>) -> Result<
    int,
    ErrorView,
> {
    match answer {
        Err(e) => Err(basic_error(path, e)),
        Ok(text) => match parse_u64_of(trimmed(text)) {
            Ok(n) => Ok(n),
            Err(e) => Err(
                ErrorView::Io { path, source: text_error(ErrorKind::InvalidData, e.text()) },
            ),
        },
    }
}

/// The occupancy of each domain among the directories is read in turn and added up, up to one that
/// cannot be had.
pub open spec fn occupancy_run(
    mon_data: Seq<char>,
    names: Seq<Seq<char>>,
    tr: Seq<FsEvent>,
    total: int,
) -> Option<(Result<int, ErrorView>, Seq<FsEvent>)>
    decreases names.len(),
{
    if names.len() == 0 {
        Some((Ok(total), tr))
    } else if !begins(names[0], L3_PREFIX@) {
        occupancy_run(mon_data, names.drop_first(), tr, total)
    } else if tr.len() == 0 {
        None
    } else {
        match tr[0] {
            FsEvent::ReadToString { path, answer } => if path != occupancy_path(
                mon_data,
                names[0],
            ) {
                None
            } else {
                match occupancy_answer(path, answer) {
                    Err(e) => Some((Err(e), tr.drop_first())),
                    Ok(n) => occupancy_run(
                        mon_data,
                        names.drop_first(),
                        tr.drop_first(),
                        sat64(total + n),
                    ),
                }
            },
            _ => None,
        }
    }
}

/// The occupancy of a group: its directories of readings are listed, and the domains' are read.
pub open spec fn group_occupancy_run(mon_data: Seq<char>, tr: Seq<FsEvent>) -> Option<
    (Result<int, ErrorView>, Seq<FsEvent>),
> {
    if tr.len() == 0 {
        None
    } else {
        match tr[0] {
            FsEvent::ReadChildDirs { path, answer } => if path != mon_data {
                None
            } else {
                match answer {
                    Err(e) => Some((Err(basic_error(mon_data, e)), tr.drop_first())),
                    Ok(names) => occupancy_run(mon_data, names, tr.drop_first(), 0),
                }
            },
            _ => None,
        }
    }
}

}
