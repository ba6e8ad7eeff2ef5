//! Laws of the operations on the resctrl filesystem.

use vstd::prelude::*;

use crate::decimal::{dec_int, is_digit, law_i32_round_trip, lemma_dec_digits};
use crate::path::joined;
use crate::resctrl::error::{raw_error, ErrorView, IoErrorView, EEXIST, ENOENT};
use crate::resctrl::group::{group_name_of, group_path_of, law_group_name_has_prefix, mon_groups_of};
use crate::resctrl::provider::FsEvent;
use crate::resctrl::runs::{
    assign_run, cleanup_run, create_answer, create_run, delete_answer, detect_run, empty_report,
    ensure_run, is_special, list_answer, list_run, missing_of, mount_error, pids_in, reconcile_run,
    root_groups, sat, sweep_run, ReportView,
};
use crate::search::begins;
use crate::text::{in_line, is_white, lemma_run_len_is, lines_of, run_len, trimmed, white};

verus! {

// ---------------------------------------------------------------------------
// Missing tasks
// ---------------------------------------------------------------------------

/// The missing tasks are those that are wanted and not current, each once.
pub proof fn law_missing_tasks(want: Seq<i32>, current: Seq<i32>)
    ensures
        missing_of(want, current).no_duplicates(),
        forall|p: i32| #[trigger]
            missing_of(want, current).contains(p) <==> want.contains(p) && !current.contains(p),
    decreases want.len(),
{
    if want.len() > 0 {
        let w = want.drop_last();
        let last = want.last();
        let m = missing_of(w, current);
        law_missing_tasks(w, current);
        assert(want =~= w.push(last));
        assert forall|p: i32| #[trigger]
            missing_of(want, current).contains(p) <==> want.contains(p) && !current.contains(p) by {
            if want.contains(p) {
                let k = choose|k: int| 0 <= k < want.len() && want[k] == p;
                if k < w.len() {
                    assert(w[k] == p);
                }
            }
            if w.contains(p) {
                let k = choose|k: int| 0 <= k < w.len() && w[k] == p;
                assert(want[k] == p);
            }
            assert(want[want.len() - 1] == last);
            if m.contains(p) {
                let k = choose|k: int| 0 <= k < m.len() && m[k] == p;
                assert(m.push(last)[k] == p);
            }
            assert(m.push(last)[m.len() as int] == last);
            if m.push(last).contains(p) {
                let k = choose|k: int| 0 <= k < m.push(last).len() && m.push(last)[k] == p;
                if k < m.len() {
                    assert(m[k] == p);
                }
            }
        }
    }
}

/// Nothing is missing exactly where every wanted task is current.
pub proof fn law_nothing_missing(want: Seq<i32>, current: Seq<i32>)
    ensures
        missing_of(want, current).len() == 0 <==> (forall|p: i32|
            want.contains(p) ==> current.contains(p)),
{
    law_missing_tasks(want, current);
    let m = missing_of(want, current);
    if m.len() > 0 {
        assert(m.contains(m[0]));
    } else {
        assert forall|p: i32| want.contains(p) implies current.contains(p) by {
            if !current.contains(p) {
                assert(m.contains(p));
            }
        }
    }
}

// ---------------------------------------------------------------------------
// Reconciliation
// ---------------------------------------------------------------------------

/// Where reconciling reports that nothing is missing, the last call that it made listed the
/// group's tasks, and that list holds every task that was wanted last.
pub proof fn law_reconcile_converged(
    tasks: Seq<char>,
    wants: Seq<Result<Seq<i32>, ErrorView>>,
    tr: Seq<FsEvent>,
    passes: nat,
    total: nat,
    last: Seq<i32>,
)
    requires
        reconcile_run(tasks, wants, tr, passes, total, last) is Some,
        reconcile_run(tasks, wants, tr, passes, total, last).unwrap() is Ok,
        reconcile_run(tasks, wants, tr, passes, total, last).unwrap()->Ok_0.1 == 0,
    ensures
        tr.len() > 0,
        list_run(tasks, seq![tr.last()]) is Some,
        list_run(tasks, seq![tr.last()]).unwrap().0 is Ok,
        wants.len() > 0 ==> wants.last() is Ok,
        ({
            let current = list_run(tasks, seq![tr.last()]).unwrap().0->Ok_0;
            let wanted = if wants.len() > 0 {
                wants.last()->Ok_0
            } else {
                last
            };
            forall|p: i32| wanted.contains(p) ==> current.contains(p)
        }),
    decreases passes,
{
    if passes == 0 {
        law_nothing_missing(last, list_run(tasks, tr).unwrap().0->Ok_0);
        assert(seq![tr.last()] =~= tr);
    } else {
        let want = wants[0]->Ok_0;
        let listed = list_run(tasks, tr).unwrap();
        let current = listed.0->Ok_0;
        let m = missing_of(want, current);
        if m.len() == 0 {
            law_nothing_missing(want, current);
            assert(seq![tr.last()] =~= tr);
        } else {
            let done = assign_run(tasks, m, listed.1, 0, 0).unwrap();
            let assigned = done.0->Ok_0.0;
            law_reconcile_converged(
                tasks,
                wants.drop_first(),
                done.1,
                (passes - 1) as nat,
                sat(total + assigned),
                want,
            );
            lemma_assign_leaves_suffix(tasks, m, listed.1, 0, 0);
            assert(done.1.last() == tr.last());
            if wants.len() > 1 {
                assert(wants.drop_first().last() == wants.last());
            } else {
                assert(wants.last() == wants[0]);
            }
        }
    }
}

/// How many writes succeeded among calls.
pub open spec fn written(tr: Seq<FsEvent>) -> nat
    decreases tr.len(),
{
    if tr.len() == 0 {
        0
    } else {
        written(tr.drop_first()) + match tr[0] {
            FsEvent::WriteStr { answer: Ok(()), .. } => 1nat,
            _ => 0nat,
        }
    }
}

proof fn lemma_assign_counts_writes(
    tasks: Seq<char>,
    pids: Seq<i32>,
    tr: Seq<FsEvent>,
    assigned: nat,
    missing: nat,
)
    requires
        assign_run(tasks, pids, tr, assigned, missing) matches Some((Ok(_), _)),
    ensures
        ({
            let done = assign_run(tasks, pids, tr, assigned, missing).unwrap();
            done.0->Ok_0.0 + written(done.1) == assigned + written(tr)
        }),
    decreases pids.len(),
{
    if pids.len() > 0 {
        match tr[0] {
            FsEvent::WriteStr { path, data, answer } => {
                if answer is Ok {
                    lemma_assign_counts_writes(
                        tasks,
                        pids.drop_first(),
                        tr.drop_first(),
                        assigned + 1,
                        missing,
                    );
                } else {
                    lemma_assign_counts_writes(
                        tasks,
                        pids.drop_first(),
                        tr.drop_first(),
                        assigned,
                        missing + 1,
                    );
                }
            },
            _ => {},
        }
    }
}

/// Reconciling asks its source at most once in each pass, and in fewer passes than it may take only
/// where nothing is missing in the end. It counts the writes that succeeded, and as missing the
/// tasks of the last answer that the last list of the group's tasks does not hold.
pub proof fn law_reconcile_accounts(
    tasks: Seq<char>,
    wants: Seq<Result<Seq<i32>, ErrorView>>,
    tr: Seq<FsEvent>,
    passes: nat,
    total: nat,
    last: Seq<i32>,
)
    requires
        total <= usize::MAX,
        reconcile_run(tasks, wants, tr, passes, total, last) matches Some(Ok(_)),
    ensures
        ({
            let (assigned, missing) = reconcile_run(
                tasks,
                wants,
                tr,
                passes,
                total,
                last,
            ).unwrap()->Ok_0;
            let wanted = if wants.len() > 0 {
                wants.last()->Ok_0
            } else {
                last
            };
            &&& wants.len() <= passes
            &&& passes > 0 ==> wants.len() > 0
            &&& wants.len() < passes ==> missing == 0
            &&& forall|i: int| 0 <= i < wants.len() ==> (#[trigger] wants[i]) is Ok
            &&& assigned == sat(total + written(tr))
            &&& tr.len() > 0
            &&& list_run(tasks, seq![tr.last()]) matches Some((Ok(current), _))
                && missing == missing_of(wanted, current).len()
        }),
    decreases passes,
{
    if passes == 0 {
        assert(seq![tr.last()] =~= tr);
        reveal_with_fuel(written, 2);
    } else {
        let want = wants[0]->Ok_0;
        let listed = list_run(tasks, tr).unwrap();
        let current = listed.0->Ok_0;
        let m = missing_of(want, current);
        if m.len() == 0 {
            assert(seq![tr.last()] =~= tr);
            reveal_with_fuel(written, 2);
        } else {
            let done = assign_run(tasks, m, listed.1, 0, 0).unwrap();
            let assigned = done.0->Ok_0.0;
            let rest = wants.drop_first();
            law_reconcile_accounts(
                tasks,
                rest,
                done.1,
                (passes - 1) as nat,
                sat(total + assigned),
                want,
            );
            lemma_assign_leaves_suffix(tasks, m, listed.1, 0, 0);
            lemma_assign_counts_writes(tasks, m, listed.1, 0, 0);
            assert(done.1.last() == tr.last());
            assert forall|i: int| 0 <= i < wants.len() implies (#[trigger] wants[i]) is Ok by {
                if i > 0 {
                    assert(wants[i] == rest[i - 1]);
                }
            }
            if wants.len() > 1 {
                assert(rest.last() == wants.last());
            } else {
                assert(wants.last() == wants[0]);
            }
        }
    }
}

/// Reconciling a group that already has every task that is wanted asks once, lists the group's
/// tasks once, and writes nothing.
pub proof fn law_reconcile_settled(
    tasks: Seq<char>,
    wants: Seq<Result<Seq<i32>, ErrorView>>,
    tr: Seq<FsEvent>,
    passes: nat,
    want: Seq<i32>,
    current: Seq<i32>,
)
    requires
        passes > 0,
        wants.len() > 0 && wants[0] == Ok::<Seq<i32>, ErrorView>(want),
        list_run(tasks, tr) matches Some((answer, _)) && answer == Ok::<Seq<i32>, ErrorView>(
            current,
        ),
        forall|p: i32| want.contains(p) ==> current.contains(p),
        reconcile_run(tasks, wants, tr, passes, 0, Seq::empty()) is Some,
    ensures
        wants.len() == 1,
        tr.len() == 1,
        written(tr) == 0,
        reconcile_run(tasks, wants, tr, passes, 0, Seq::empty()) == Some(
            Ok::<(nat, nat), ErrorView>((0, 0)),
        ),
{
    law_nothing_missing(want, current);
    reveal_with_fuel(written, 2);
}

/// Whether a task is among answers.
pub open spec fn wanted_in(wants: Seq<Result<Seq<i32>, ErrorView>>, pid: i32) -> bool {
    exists|i: int|
        0 <= i < wants.len() && (#[trigger] wants[i]) is Ok && wants[i]->Ok_0.contains(pid)
}

/// Whether calls write to one file alone, and nothing but tasks that were wanted, and do nothing
/// else than read that file.
pub open spec fn writes_only(
    tr: Seq<FsEvent>,
    file: Seq<char>,
    wants: Seq<Result<Seq<i32>, ErrorView>>,
) -> bool {
    forall|i: int|
        0 <= i < tr.len() ==> match #[trigger] tr[i] {
            FsEvent::WriteStr { path, data, .. } => path == file && exists|pid: i32| #[trigger]
                wanted_in(wants, pid) && data == dec_int(pid as int),
            FsEvent::ReadToString { path, .. } => path == file,
            _ => false,
        }
}

proof fn lemma_assign_writes(
    tasks: Seq<char>,
    pids: Seq<i32>,
    tr: Seq<FsEvent>,
    assigned: nat,
    missing: nat,
    wants: Seq<Result<Seq<i32>, ErrorView>>,
)
    requires
        assign_run(tasks, pids, tr, assigned, missing) is Some,
        forall|p: i32| #[trigger] pids.contains(p) ==> wanted_in(wants, p),
    ensures
        ({
            let left = assign_run(tasks, pids, tr, assigned, missing).unwrap().1;
            left.len() <= tr.len() && left == tr.skip(tr.len() - left.len()) && writes_only(
                tr.take(tr.len() - left.len()),
                tasks,
                wants,
            )
        }),
    decreases pids.len(),
{
    lemma_assign_leaves_suffix(tasks, pids, tr, assigned, missing);
    if pids.len() > 0 {
        let rest = tr.drop_first();
        assert(pids.contains(pids[0]));
        assert forall|p: i32| #[trigger] pids.drop_first().contains(p) implies wanted_in(
            wants,
            p,
        ) by {
            let k = choose|k: int| 0 <= k < pids.drop_first().len() && pids.drop_first()[k] == p;
            assert(pids[k + 1] == p);
            assert(pids.contains(p));
        }
        let left = assign_run(tasks, pids, tr, assigned, missing).unwrap().1;
        let mine = tr.take(tr.len() - left.len());
        match tr[0] {
            FsEvent::WriteStr { path, data, answer } => {
                match answer {
                    Ok(()) => {
                        lemma_assign_writes(
                            tasks,
                            pids.drop_first(),
                            rest,
                            assigned + 1,
                            missing,
                            wants,
                        );
                    },
                    Err(e) => {
                        if crate::resctrl::runs::task_is_gone(e) {
                            lemma_assign_writes(
                                tasks,
                                pids.drop_first(),
                                rest,
                                assigned,
                                missing + 1,
                                wants,
                            );
                        }
                    },
                }
                assert forall|i: int| 0 <= i < mine.len() implies match #[trigger] mine[i] {
                    FsEvent::WriteStr { path, data, .. } => path == tasks && exists|pid: i32| #[trigger]
                        wanted_in(wants, pid) && data == dec_int(pid as int),
                    FsEvent::ReadToString { path, .. } => path == tasks,
                    _ => false,
                } by {
                    if i == 0 {
                        assert(wanted_in(wants, pids[0]));
                    } else {
                        assert(mine[i] == rest.take(rest.len() - left.len())[i - 1]);
                    }
                }
            },
            _ => {},
        }
    }
}

/// Reconciling reads the group's tasks file, writes to it and to nothing else, and writes nothing
/// but tasks that its source has given.
pub proof fn law_reconcile_writes_wanted_tasks(
    tasks: Seq<char>,
    wants: Seq<Result<Seq<i32>, ErrorView>>,
    tr: Seq<FsEvent>,
    passes: nat,
    total: nat,
    last: Seq<i32>,
)
    requires
        reconcile_run(tasks, wants, tr, passes, total, last) is Some,
    ensures
        writes_only(tr, tasks, wants),
    decreases passes,
{
    if passes > 0 {
        match wants[0] {
            Ok(want) => {
                let (answer, rest) = list_run(tasks, tr).unwrap();
                if let Ok(current) = answer {
                    let m = missing_of(want, current);
                    if m.len() > 0 {
                        law_missing_tasks(want, current);
                        assert forall|p: i32| #[trigger] m.contains(p) implies wanted_in(
                            wants,
                            p,
                        ) by {
                            assert(wants[0]->Ok_0.contains(p));
                        }
                        lemma_assign_writes(tasks, m, rest, 0, 0, wants);
                        let (done, left) = assign_run(tasks, m, rest, 0, 0).unwrap();
                        let mine = rest.take(rest.len() - left.len());
                        if let Ok((assigned, _)) = done {
                            law_reconcile_writes_wanted_tasks(
                                tasks,
                                wants.drop_first(),
                                left,
                                (passes - 1) as nat,
                                sat(total + assigned),
                                want,
                            );
                        }
                        assert forall|i: int| 0 <= i < tr.len() implies match #[trigger] tr[i] {
                            FsEvent::WriteStr { path, data, .. } => path == tasks && exists|
                                pid: i32,
                            | #[trigger]
                                wanted_in(wants, pid) && data == dec_int(pid as int),
                            FsEvent::ReadToString { path, .. } => path == tasks,
                            _ => false,
                        } by {
                            if 0 < i <= mine.len() {
                                assert(tr[i] == mine[i - 1]);
                            } else if i > 0 {
                                let k = i - 1 - mine.len();
                                assert(tr[i] == left[k]);
                                if let FsEvent::WriteStr { path, data, .. } = tr[i] {
                                    let pid = choose|pid: i32| #[trigger]
                                        wanted_in(wants.drop_first(), pid) && data == dec_int(
                                            pid as int,
                                        );
                                    let j = choose|j: int|
                                        0 <= j < wants.drop_first().len() && (
                                        #[trigger] wants.drop_first()[j]) is Ok
                                            && wants.drop_first()[j]->Ok_0.contains(pid);
                                    assert(wants[j + 1] == wants.drop_first()[j]);
                                    assert(wanted_in(wants, pid));
                                }
                            }
                        }
                    }
                }
            },
            Err(_) => {},
        }
    }
}

proof fn lemma_assign_leaves_suffix(
    tasks: Seq<char>,
    pids: Seq<i32>,
    tr: Seq<FsEvent>,
    assigned: nat,
    missing: nat,
)
    requires
        assign_run(tasks, pids, tr, assigned, missing) is Some,
    ensures
        ({
            let left = assign_run(tasks, pids, tr, assigned, missing).unwrap().1;
            left.len() <= tr.len() && left == tr.skip(tr.len() - left.len())
        }),
    decreases pids.len(),
{
    if pids.len() == 0 {
        assert(tr.skip(0) =~= tr);
    } else {
        assert(tr.drop_first() =~= tr.skip(1));
        let rest = tr.drop_first();
        match tr[0] {
            FsEvent::WriteStr { path, data, answer } => {
                match answer {
                    Ok(()) => {
                        lemma_assign_leaves_suffix(
                            tasks,
                            pids.drop_first(),
                            rest,
                            assigned + 1,
                            missing,
                        );
                    },
                    Err(e) => {
                        if crate::resctrl::runs::task_is_gone(e) {
                            lemma_assign_leaves_suffix(
                                tasks,
                                pids.drop_first(),
                                rest,
                                assigned,
                                missing + 1,
                            );
                        }
                    },
                }
            },
            _ => {},
        }
        let left = assign_run(tasks, pids, tr, assigned, missing).unwrap().1;
        assert(left =~= tr.skip(tr.len() - left.len()));
    }
}

// ---------------------------------------------------------------------------
// Mounting and groups
// ---------------------------------------------------------------------------

/// Without `auto_mount` nothing is ever mounted.
pub proof fn law_no_mount_unasked(root: Seq<char>, tr: Seq<FsEvent>)
    requires
        ensure_run(false, root, tr) is Some,
        ensure_run(false, root, tr).unwrap().1.len() == 0,
    ensures
        forall|i: int| 0 <= i < tr.len() ==> !(#[trigger] tr[i] is Mount),
{
    let left = detect_run(tr).unwrap().1;
    assert(left.len() == 0);
}

/// Where resctrl is mounted already, it is not mounted again and the result is success.
pub proof fn law_mounted_is_enough(auto_mount: bool, root: Seq<char>, tr: Seq<FsEvent>)
    requires
        detect_run(tr) is Some,
        detect_run(tr).unwrap().0 is Ok,
        detect_run(tr).unwrap().0->Ok_0.mounted,
    ensures
        ensure_run(auto_mount, root, tr) == Some(
            (Ok::<(), ErrorView>(()), detect_run(tr).unwrap().1),
        ),
{
}

/// A mount that fails is an error, and nothing is tried after it.
pub proof fn law_failed_mount_is_the_end(root: Seq<char>, tr: Seq<FsEvent>, e: IoErrorView)
    requires
        detect_run(tr) is Some,
        detect_run(tr).unwrap().0 is Ok,
        !detect_run(tr).unwrap().0->Ok_0.mounted,
        detect_run(tr).unwrap().1 == seq![FsEvent::Mount { target: root, answer: Err(e) }],
    ensures
        ensure_run(true, root, tr) == Some(
            (Err::<(), ErrorView>(mount_error(root, e)), Seq::<FsEvent>::empty()),
        ),
{
    let rest = detect_run(tr).unwrap().1;
    assert(rest.drop_first() =~= Seq::<FsEvent>::empty());
}

/// Creating a group that is already there succeeds with the same path as creating it.
pub proof fn law_create_is_idempotent(path: Seq<char>)
    ensures
        create_answer(path, Err(raw_error(EEXIST))) == create_answer(path, Ok(())),
        create_answer(path, Ok(())) == Ok::<Seq<char>, ErrorView>(path),
{
}

/// Deleting a group that is not there succeeds as deleting it does.
pub proof fn law_delete_is_idempotent(path: Seq<char>)
    ensures
        delete_answer(path, Err(raw_error(ENOENT))) == delete_answer(path, Ok(())),
        delete_answer(path, Ok(())) is Ok,
{
}

/// A group that was created is where its name says: the path that creation returns is that of the
/// pod's group below the directory of monitoring groups.
pub proof fn law_created_path(root: Seq<char>, prefix: Seq<char>, uid: Seq<char>, tr: Seq<FsEvent>)
    requires
        create_run(root, prefix, uid, tr) is Some,
        create_run(root, prefix, uid, tr).unwrap().0 is Ok,
    ensures
        create_run(root, prefix, uid, tr).unwrap().0->Ok_0 == group_path_of(root, prefix, uid),
{
}

// ---------------------------------------------------------------------------
// Cleanup
// ---------------------------------------------------------------------------

/// Whether a call removes a directory of `parent` whose name begins with the prefix.
pub open spec fn removes_prefixed(e: FsEvent, parent: Seq<char>, prefix: Seq<char>) -> bool {
    e matches FsEvent::RemoveDir { path, .. } && exists|name: Seq<char>|
        begins(name, prefix) && path == #[trigger] joined(parent, name)
}

proof fn lemma_sweep_removes_prefixed(
    parent: Seq<char>,
    names: Seq<Seq<char>>,
    prefix: Seq<char>,
    tr: Seq<FsEvent>,
    report: ReportView,
)
    requires
        sweep_run(parent, names, prefix, tr, report) is Some,
    ensures
        ({
            let left = sweep_run(parent, names, prefix, tr, report).unwrap().1;
            &&& left.len() <= tr.len()
            &&& left == tr.skip(tr.len() - left.len())
            &&& forall|i: int|
                0 <= i < tr.len() - left.len() ==> removes_prefixed(#[trigger] tr[i], parent, prefix)
        }),
    decreases names.len(),
{
    if names.len() == 0 {
        assert(tr.skip(0) =~= tr);
    } else if !begins(names[0], prefix) {
        lemma_sweep_removes_prefixed(
            parent,
            names.drop_first(),
            prefix,
            tr,
            ReportView { non_prefix_groups: sat(report.non_prefix_groups + 1), ..report },
        );
    } else {
        match tr[0] {
            FsEvent::RemoveDir { path, answer } => {
                let next = match answer {
                    Ok(()) => ReportView { removed: sat(report.removed + 1), ..report },
                    Err(e) => if e.code == Some(ENOENT) {
                        ReportView { removal_race: sat(report.removal_race + 1), ..report }
                    } else {
                        ReportView { removal_failures: sat(report.removal_failures + 1), ..report }
                    },
                };
                let rest = tr.drop_first();
                lemma_sweep_removes_prefixed(parent, names.drop_first(), prefix, rest, next);
                let left = sweep_run(parent, names, prefix, tr, report).unwrap().1;
                assert(left =~= tr.skip(tr.len() - left.len()));
                assert(removes_prefixed(tr[0], parent, prefix)) by {
                    assert(path == joined(parent, names[0]));
                }
                assert forall|i: int| 0 <= i < tr.len() - left.len() implies removes_prefixed(
                    #[trigger] tr[i],
                    parent,
                    prefix,
                ) by {
                    if i > 0 {
                        assert(rest[i - 1] == tr[i]);
                    }
                }
            },
            _ => {},
        }
    }
}

/// Cleanup changes the filesystem only by removing directories directly below the root or below
/// its directory of monitoring groups whose names begin with the prefix; its other calls list
/// these two.
pub proof fn law_cleanup_removes_only_prefixed(root: Seq<char>, prefix: Seq<char>, tr: Seq<FsEvent>)
    requires
        cleanup_run(root, prefix, tr) is Some,
        cleanup_run(root, prefix, tr).unwrap().1.len() == 0,
    ensures
        forall|i: int|
            0 <= i < tr.len() ==> (#[trigger] tr[i] is ReadChildDirs || removes_prefixed(
                tr[i],
                root,
                prefix,
            ) || removes_prefixed(tr[i], mon_groups_of(root), prefix)),
{
    match tr[0] {
        FsEvent::ReadChildDirs { path, answer } => {
            if let Ok(names) = answer {
                let t1 = tr.drop_first();
                lemma_sweep_removes_prefixed(root, root_groups(names), prefix, t1, empty_report());
                let (report, t2) = sweep_run(root, root_groups(names), prefix, t1, empty_report()).unwrap();
                match t2[0] {
                    FsEvent::ReadChildDirs { path: dir, answer: answer2 } => {
                        let t3 = t2.drop_first();
                        if let Ok(names2) = answer2 {
                            lemma_sweep_removes_prefixed(
                                mon_groups_of(root),
                                names2,
                                prefix,
                                t3,
                                report,
                            );
                        }
                        assert forall|i: int| 0 <= i < tr.len() implies (#[trigger] tr[i]
                            is ReadChildDirs || removes_prefixed(tr[i], root, prefix)
                            || removes_prefixed(tr[i], mon_groups_of(root), prefix)) by {
                            let k = t1.len() - t2.len();
                            if i > 0 && i <= k {
                                assert(tr[i] == t1[i - 1]);
                            } else if i > k {
                                assert(t2[i - 1 - k] == t1[i - 1]);
                                assert(tr[i] == t1[i - 1]);
                                if i > k + 1 {
                                    assert(t3[i - 2 - k] == t2[i - 1 - k]);
                                }
                            }
                        }
                    },
                    _ => {},
                }
            }
        },
        _ => {},
    }
}

/// The number of directories that a report accounts for.
pub open spec fn accounted(r: ReportView) -> nat {
    r.removed + r.removal_failures + r.removal_race + r.non_prefix_groups
}

/// A sweep accounts for each of its directories exactly once, short of counts that reach the
/// greatest `usize`.
pub proof fn law_sweep_accounts_for_all(
    parent: Seq<char>,
    names: Seq<Seq<char>>,
    prefix: Seq<char>,
    tr: Seq<FsEvent>,
    report: ReportView,
)
    requires
        sweep_run(parent, names, prefix, tr, report) is Some,
        accounted(report) + names.len() <= usize::MAX,
    ensures
        accounted(sweep_run(parent, names, prefix, tr, report).unwrap().0) == accounted(report)
            + names.len(),
    decreases names.len(),
{
    if names.len() == 0 {
    } else if !begins(names[0], prefix) {
        law_sweep_accounts_for_all(
            parent,
            names.drop_first(),
            prefix,
            tr,
            ReportView { non_prefix_groups: sat(report.non_prefix_groups + 1), ..report },
        );
    } else {
        match tr[0] {
            FsEvent::RemoveDir { path, answer } => {
                let next = match answer {
                    Ok(()) => ReportView { removed: sat(report.removed + 1), ..report },
                    Err(e) => if e.code == Some(ENOENT) {
                        ReportView { removal_race: sat(report.removal_race + 1), ..report }
                    } else {
                        ReportView { removal_failures: sat(report.removal_failures + 1), ..report }
                    },
                };
                law_sweep_accounts_for_all(
                    parent,
                    names.drop_first(),
                    prefix,
                    tr.drop_first(),
                    next,
                );
            },
            _ => {},
        }
    }
}

/// A sweep of directories none of which begins with the prefix makes no calls, and counts them as
/// others' only.
proof fn lemma_sweep_of_others(
    parent: Seq<char>,
    names: Seq<Seq<char>>,
    prefix: Seq<char>,
    tr: Seq<FsEvent>,
    report: ReportView,
)
    requires
        forall|i: int| 0 <= i < names.len() ==> !begins(#[trigger] names[i], prefix),
    ensures
        ({
            let swept = sweep_run(parent, names, prefix, tr, report);
            &&& swept is Some
            &&& swept.unwrap().1 == tr
            &&& swept.unwrap().0.removed == report.removed
            &&& swept.unwrap().0.removal_failures == report.removal_failures
            &&& swept.unwrap().0.removal_race == report.removal_race
        }),
    decreases names.len(),
{
    if names.len() > 0 {
        lemma_sweep_of_others(
            parent,
            names.drop_first(),
            prefix,
            tr,
            ReportView { non_prefix_groups: sat(report.non_prefix_groups + 1), ..report },
        );
    }
}

/// A cleanup that finds no group with the prefix, such as one that follows another, succeeds
/// without a call but the two listings, and reports that it removed nothing.
pub proof fn law_cleanup_of_nothing(
    root: Seq<char>,
    prefix: Seq<char>,
    names: Seq<Seq<char>>,
    mon_names: Seq<Seq<char>>,
)
    requires
        forall|i: int| 0 <= i < names.len() ==> !begins(#[trigger] names[i], prefix),
        forall|i: int| 0 <= i < mon_names.len() ==> !begins(#[trigger] mon_names[i], prefix),
    ensures
        ({
            let run = cleanup_run(
                root,
                prefix,
                seq![
                    FsEvent::ReadChildDirs { path: root, answer: Ok(names) },
                    FsEvent::ReadChildDirs { path: mon_groups_of(root), answer: Ok(mon_names) },
                ],
            );
            &&& run is Some
            &&& run.unwrap().1.len() == 0
            &&& run.unwrap().0 is Ok
            &&& run.unwrap().0->Ok_0.removed == 0
            &&& run.unwrap().0->Ok_0.removal_failures == 0
            &&& run.unwrap().0->Ok_0.removal_race == 0
        }),
{
    let first = FsEvent::ReadChildDirs { path: root, answer: Ok(names) };
    let second = FsEvent::ReadChildDirs { path: mon_groups_of(root), answer: Ok(mon_names) };
    let tr = seq![first, second];
    let groups = root_groups(names);
    assert forall|i: int| 0 <= i < groups.len() implies !begins(#[trigger] groups[i], prefix) by {
        names.lemma_filter_contains_rev(|n: Seq<char>| !is_special(n), groups[i]);
        let j = choose|j: int| 0 <= j < names.len() && names[j] == groups[i];
        assert(!begins(names[j], prefix));
    }
    lemma_sweep_of_others(root, groups, prefix, tr.drop_first(), empty_report());
    let report = sweep_run(root, groups, prefix, tr.drop_first(), empty_report()).unwrap().0;
    assert(tr.drop_first() =~= seq![second]);
    lemma_sweep_of_others(mon_groups_of(root), mon_names, prefix, seq![second].drop_first(), report);
}

/// A sweep that is given the name of a pod's group tries to remove it: the call stands in the
/// sweep's first calls.
pub proof fn law_created_group_is_swept(
    parent: Seq<char>,
    prefix: Seq<char>,
    uid: Seq<char>,
    names: Seq<Seq<char>>,
    tr: Seq<FsEvent>,
    report: ReportView,
)
    requires
        sweep_run(parent, names, prefix, tr, report) is Some,
        names.contains(group_name_of(prefix, uid)),
    ensures
        exists|i: int|
            0 <= i < tr.len() && (#[trigger] tr[i] matches FsEvent::RemoveDir { path, .. } && path
                == joined(parent, group_name_of(prefix, uid))),
    decreases names.len(),
{
    let name = group_name_of(prefix, uid);
    law_group_name_has_prefix(prefix, uid);
    if names[0] == name {
        assert(tr[0] matches FsEvent::RemoveDir { path, .. } && path == joined(parent, name));
    } else {
        let rest = names.drop_first();
        let k = choose|k: int| 0 <= k < names.len() && names[k] == name;
        assert(rest[k - 1] == name);
        if !begins(names[0], prefix) {
            law_created_group_is_swept(
                parent,
                prefix,
                uid,
                rest,
                tr,
                ReportView { non_prefix_groups: sat(report.non_prefix_groups + 1), ..report },
            );
        } else {
            match tr[0] {
                FsEvent::RemoveDir { path, answer } => {
                    let next = match answer {
                        Ok(()) => ReportView { removed: sat(report.removed + 1), ..report },
                        Err(e) => if e.code == Some(ENOENT) {
                            ReportView { removal_race: sat(report.removal_race + 1), ..report }
                        } else {
                            ReportView {
                                removal_failures: sat(report.removal_failures + 1),
                                ..report
                            }
                        },
                    };
                    law_created_group_is_swept(parent, prefix, uid, rest, tr.drop_first(), next);
                    let i = choose|i: int|
                        0 <= i < tr.drop_first().len() && (#[trigger] tr.drop_first()[i] matches
                            FsEvent::RemoveDir { path, .. } && path == joined(parent, name));
                    assert(tr[i + 1] == tr.drop_first()[i]);
                },
                _ => {},
            }
        }
    }
}

// ---------------------------------------------------------------------------
// What is assigned is listed
// ---------------------------------------------------------------------------

/// A tasks file that holds the given tasks as they are written, one per line.
pub open spec fn tasks_text(pids: Seq<i32>) -> Seq<char>
    decreases pids.len(),
{
    if pids.len() == 0 {
        Seq::empty()
    } else {
        tasks_text(pids.drop_last()) + dec_int(pids.last() as int) + seq!['\n']
    }
}

/// Whether a text is empty or ends in a line feed.
spec fn whole_lines(s: Seq<char>) -> bool {
    s.len() == 0 || s.last() == '\n'
}

proof fn lemma_lines_push(s: Seq<char>, line: Seq<char>)
    requires
        whole_lines(s),
        line.len() > 0,
        forall|i: int| 0 <= i < line.len() ==> #[trigger] line[i] != '\n' && line[i] != '\r',
    ensures
        lines_of(s + line + seq!['\n']) == lines_of(s).push(line),
    decreases s.len(),
{
    let t = s + line + seq!['\n'];
    if s.len() == 0 {
        lemma_run_len_is(t, in_line(), line.len());
        assert(t.take(line.len() as int) =~= line);
        assert(t.skip(line.len() as int + 1) =~= Seq::<char>::empty());
        assert(line[line.len() - 1] != '\r');
        reveal_with_fuel(lines_of, 2);
        assert(lines_of(t) =~= lines_of(s).push(line));
    } else {
        crate::text::lemma_run_len(s, in_line());
        let n = run_len(s, in_line());
        assert(n < s.len()) by {
            if n == s.len() {
                assert(in_line()(s[s.len() - 1]));
            }
        }
        assert forall|i: int| 0 <= i < n implies in_line()(#[trigger] t[i]) by {
            assert(in_line()(s[i]));
        }
        assert(t[n as int] == s[n as int]);
        lemma_run_len_is(t, in_line(), n);
        assert(t.take(n as int) =~= s.take(n as int));
        let rest = s.skip(n as int + 1);
        assert(t.skip(n as int + 1) =~= rest + line + seq!['\n']);
        assert(whole_lines(rest)) by {
            if rest.len() > 0 {
                assert(rest.last() == s.last());
            }
        }
        lemma_lines_push(rest, line);
        assert(lines_of(t) =~= lines_of(s).push(line));
    }
}

proof fn lemma_trimmed_dark(s: Seq<char>)
    requires
        forall|i: int| 0 <= i < s.len() ==> !is_white(#[trigger] s[i]),
    ensures
        trimmed(s) == s,
{
    lemma_run_len_is(s, white(), 0);
    assert(s.skip(0) =~= s);
    if s.len() > 0 {
        assert(!is_white(s[s.len() - 1]));
    }
}

/// Listing a tasks file that holds tasks as they are written gives these tasks back, in order.
pub proof fn law_listed_as_written(path: Seq<char>, pids: Seq<i32>)
    ensures
        list_answer(path, Ok(tasks_text(pids))) == Ok::<Seq<i32>, ErrorView>(pids),
{
    lemma_tasks_text(pids);
}

proof fn lemma_tasks_text(pids: Seq<i32>)
    ensures
        whole_lines(tasks_text(pids)),
        pids_in(lines_of(tasks_text(pids))) == Ok::<Seq<i32>, Seq<char>>(pids),
    decreases pids.len(),
{
    if pids.len() == 0 {
        assert(pids =~= Seq::<i32>::empty());
    } else {
        let before = tasks_text(pids.drop_last());
        let p = pids.last();
        let line = dec_int(p as int);
        lemma_tasks_text(pids.drop_last());
        let m: nat = if p < 0 {
            (-(p as int)) as nat
        } else {
            p as nat
        };
        lemma_dec_digits(m);
        assert forall|i: int| 0 <= i < line.len() implies #[trigger] line[i] != '\n' && line[i]
            != '\r' && !is_white(line[i]) by {
            if p < 0 {
                if i > 0 {
                    assert(line[i] == crate::decimal::dec(m)[i - 1]);
                    assert(is_digit(line[i]));
                }
            } else {
                assert(is_digit(line[i]));
            }
        }
        lemma_lines_push(before, line);
        lemma_trimmed_dark(line);
        law_i32_round_trip(p);
        let ls = lines_of(tasks_text(pids));
        assert(ls.drop_last() =~= lines_of(before));
        assert(pids.drop_last().push(p) =~= pids);
    }
}

}
