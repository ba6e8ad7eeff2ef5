//! Laws of when pods have groups, when containers count as reconciled, and what is tried again.

use vstd::prelude::*;

use crate::nri_plugin::placement::groups_are_own;
use crate::nri_plugin::relations::{
    all_retried, container_retried, container_seen, container_step, container_stop,
    containers_retried, group_reconciled, group_retried, group_settled, group_step, group_stop,
    groups_retried, lists_failed, lists_partial, pod_gone, pod_seen, retry_result, started_up,
    sync_state, GroupStop, Settings, World,
};
use crate::nri_plugin::state::{RetryView, StartView, StateView};
use crate::nri_plugin::types::{Container, ContainerSyncState, GroupView, PluginErrorView};
use crate::resctrl::call_laws::{
    law_creating_makes_the_groups_directory, law_deleting_removes_the_groups_directory,
    law_detection_looks_at_the_mount, law_mounting_is_checked, law_reconciling_does_what_is_needed,
};
use crate::resctrl::error::{ErrorKind, ErrorView};
use crate::resctrl::group::group_path_of;
use crate::resctrl::laws::{
    law_cleanup_removes_only_prefixed, law_nothing_missing, law_reconcile_accounts, law_reconcile_converged,
};
use crate::resctrl::provider::{continues, lemma_continues, lemma_no_call, since, FsEvent};
use crate::resctrl::runs::{cleanup_run, detect_run, ensure_run, list_run, tasks_of};
use crate::resctrl::source::{all_about, answers_in, PidQuery};

verus! {

// ---------------------------------------------------------------------------
// Groups of pods
// ---------------------------------------------------------------------------

/// Whether calls end with a directory that was created, or was there already.
pub open spec fn directory_is_there(tr: Seq<FsEvent>) -> bool {
    tr.len() > 0 && (tr.last() matches FsEvent::CreateDir { answer, .. } && (answer matches Err(e)
        ==> e.code == Some(17i32) || (e.code is None && e.kind == ErrorKind::AlreadyExists)))
}

/// A pod that is seen first has a group exactly where the group's directory was created or was
/// there.
pub proof fn law_pods_have_the_groups_that_were_made(
    set: Settings,
    uid: Seq<char>,
    w0: World,
    w1: World,
)
    requires
        pod_seen(set, uid, w0, w1),
        !w0.state.pods.dom().contains(uid),
    ensures
        w1.state.pods[uid].group is Exists <==> directory_is_there(since(w0.history, w1.history)),
{
    law_creating_makes_the_groups_directory(
        set.root,
        set.group_prefix,
        uid,
        since(w0.history, w1.history),
    );
}

/// A pod without a group has one after another try exactly where the group's directory was created
/// or was there; the try fails exactly where it still has none.
pub proof fn law_retried_pods_have_the_groups_that_were_made(
    set: Settings,
    uid: Seq<char>,
    w0: World,
    w1: World,
    r: Result<GroupView, PluginErrorView>,
)
    requires
        group_retried(set, uid, w0, w1, r),
    ensures
        w0.state.is_failed(uid) ==> (w1.state.pods[uid].group is Exists <==> directory_is_there(
            since(w0.history, w1.history),
        )),
        r is Ok <==> w0.state.pods.dom().contains(uid) && !w1.state.is_failed(uid),
        r matches Ok(g) ==> g == w1.state.pods[uid].group,
        !w0.state.is_failed(uid) ==> w1 == w0,
        w1.state.pods.dom() == w0.state.pods.dom(),
{
    if w0.state.is_failed(uid) {
        law_creating_makes_the_groups_directory(
            set.root,
            set.group_prefix,
            uid,
            since(w0.history, w1.history),
        );
    }
    assert(w1.state.pods.dom() =~= w0.state.pods.dom());
}

// ---------------------------------------------------------------------------
// Reconciled containers
// ---------------------------------------------------------------------------

/// Whether the last call listed all the tasks of the last answer about what is wanted.
pub open spec fn all_tasks_listed(
    asked: Seq<PidQuery>,
    tr: Seq<FsEvent>,
    tasks: Seq<char>,
) -> bool {
    &&& tr.len() > 0
    &&& asked.len() > 0
    &&& asked.last().answer is Ok
    &&& list_run(tasks, seq![tr.last()]) matches Some((Ok(current), _)) && forall|p: i32|
        asked.last().answer->Ok_0.contains(p) ==> current.contains(p)
}

proof fn lemma_reconciled(
    set: Settings,
    group_path: Seq<char>,
    cgroup_path: Seq<char>,
    w0: World,
    w1: World,
    outcome: Result<(nat, nat), ErrorView>,
)
    requires
        set.passes > 0,
        group_reconciled(
            group_path,
            cgroup_path,
            set.passes,
            w0.asked,
            w1.asked,
            w0.history,
            w1.history,
            outcome,
        ),
    ensures
        since(w0.asked, w1.asked).len() > 0,
        (outcome matches Ok((_, missing)) && missing == 0) <==> all_tasks_listed(
            since(w0.asked, w1.asked),
            since(w0.history, w1.history),
            tasks_of(group_path),
        ),
{
    let tasks = tasks_of(group_path);
    let asked = since(w0.asked, w1.asked);
    let wants = answers_in(asked);
    let tr = since(w0.history, w1.history);
    assert(asked.len() > 0 ==> wants.last() == asked.last().answer);
    law_reconciling_does_what_is_needed(tasks, wants, tr, set.passes, 0, Seq::empty());
    match outcome {
        Ok((_, missing)) => {
            law_reconcile_accounts(tasks, wants, tr, set.passes, 0, Seq::empty());
            assert(wants[wants.len() - 1] is Ok);
            if missing == 0 {
                law_reconcile_converged(tasks, wants, tr, set.passes, 0, Seq::empty());
            }
            if all_tasks_listed(asked, tr, tasks) {
                let current = list_run(tasks, seq![tr.last()]).unwrap().0->Ok_0;
                law_nothing_missing(wants.last()->Ok_0, current);
            }
        },
        Err(_) => {
            assert(wants.len() > 0);
            if all_tasks_listed(asked, tr, tasks) {
                assert(seq![tr.last()][0] == tr.last());
            }
        },
    }
}

/// A container that is seen first counts as reconciled exactly where its pod has a group and, after
/// the last pass, all tasks that its control group has were listed in that group.
pub proof fn law_reconciled_means_all_tasks_are_there(
    set: Settings,
    pod_uid: Seq<char>,
    container: Container,
    w0: World,
    w1: World,
)
    requires
        set.passes > 0,
        container_seen(set, pod_uid, container, w0, w1),
        !w0.state.containers.dom().contains(container.id@),
    ensures
        w1.state.containers[container.id@].state == ContainerSyncState::Reconciled
            <==> w0.state.group_path_of(pod_uid) is Some && all_tasks_listed(
            since(w0.asked, w1.asked),
            since(w0.history, w1.history),
            tasks_of(w0.state.group_path_of(pod_uid).unwrap()),
        ),
{
    let (s, start) = w0.state.container_started(
        pod_uid,
        container.id@,
        container.cgroup_path@,
        container.cgroup_path_without_pod@,
    );
    if let StartView::Reconcile { group_path, cgroup_path } = start {
        let outcome = choose|outcome: Result<(nat, nat), ErrorView>| #[trigger]
            group_reconciled(
                group_path,
                cgroup_path,
                set.passes,
                w0.asked,
                w1.asked,
                w0.history,
                w1.history,
                outcome,
            ) && w1.state == w0.state.container_finished(
                pod_uid,
                container.id@,
                cgroup_path,
                sync_state(outcome),
            );
        lemma_reconciled(set, group_path, cgroup_path, w0, w1, outcome);
    }
}

/// A container that is tried again counts as reconciled afterwards exactly where it did before or
/// all its tasks were now listed in its pod's group; a result tells how it counts.
pub proof fn law_retried_containers_are_reconciled_where_all_tasks_are_there(
    set: Settings,
    id: Seq<char>,
    w0: World,
    w1: World,
    r: Result<ContainerSyncState, PluginErrorView>,
)
    requires
        set.passes > 0,
        container_retried(set, id, w0, w1, r),
        w0.state.retry_of(id) is Reconcile,
    ensures
        ({
            let c = w0.state.containers[id];
            let now = w1.state.containers[id].state;
            &&& now == ContainerSyncState::Reconciled <==> c.state == ContainerSyncState::Reconciled
                || all_tasks_listed(
                since(w0.asked, w1.asked),
                since(w0.history, w1.history),
                tasks_of(w0.state.group_path_of(c.pod_uid).unwrap()),
            )
            &&& r matches Ok(state) ==> state == now
            &&& since(w0.asked, w1.asked).len() > 0
        }),
{
    let c = w0.state.containers[id];
    let group_path = w0.state.group_path_of(c.pod_uid).unwrap();
    let outcome = choose|outcome: Result<(nat, nat), ErrorView>| #[trigger]
        group_reconciled(
            group_path,
            c.cgroup_path,
            set.passes,
            w0.asked,
            w1.asked,
            w0.history,
            w1.history,
            outcome,
        ) && match outcome {
            Err(e) => w1.state == w0.state && r == Err::<ContainerSyncState, PluginErrorView>(
                PluginErrorView::Resctrl(e),
            ),
            Ok(_) => {
                let (s, v) = w0.state.retry_finished(
                    id,
                    c.pod_uid,
                    sync_state(outcome),
                );
                w1.state == s && r == retry_result(v)
            },
        };
    lemma_reconciled(set, group_path, c.cgroup_path, w0, w1, outcome);
}

/// What a try of a container comes to where there is nothing to do: it is not held, its pod is gone,
/// it was seen before its pod, or its pod has no group. Then nothing changes and nothing is called.
pub proof fn law_tries_without_a_group(
    set: Settings,
    id: Seq<char>,
    w0: World,
    w1: World,
    r: Result<ContainerSyncState, PluginErrorView>,
)
    requires
        container_retried(set, id, w0, w1, r),
    ensures
        ({
            let c = w0.state.containers[id];
            let held = w0.state.containers.dom().contains(id);
            let no_pod = c.state == ContainerSyncState::NoPod;
            let known = w0.state.pods.dom().contains(c.pod_uid);
            &&& !held ==> w1 == w0 && r == Err::<ContainerSyncState, PluginErrorView>(
                PluginErrorView::ContainerNotFound,
            )
            &&& held && no_pod ==> w1 == w0 && r == Ok::<ContainerSyncState, PluginErrorView>(c.state)
            &&& held && !no_pod && !known ==> w1 == w0 && r == Err::<
                ContainerSyncState,
                PluginErrorView,
            >(PluginErrorView::PodNotFound)
            &&& held && !no_pod && w0.state.is_failed(c.pod_uid) ==> w1 == w0 && r == Ok::<
                ContainerSyncState,
                PluginErrorView,
            >(c.state)
        }),
{
}

/// A try that fails on the filesystem or at the source leaves everything as it is held, and gives
/// that error.
pub proof fn law_failed_tries_change_nothing(
    set: Settings,
    id: Seq<char>,
    w0: World,
    w1: World,
    r: Result<ContainerSyncState, PluginErrorView>,
)
    requires
        container_retried(set, id, w0, w1, r),
        r is Err,
    ensures
        w1.state == w0.state,
        r->Err_0 is Resctrl ==> w0.state.retry_of(id) is Reconcile,
{
}

/// A pod that is gone loses its group: the group's own directory is removed where the pod had one,
/// and nothing else is called.
pub proof fn law_gone_pods_lose_their_group(set: Settings, uid: Seq<char>, w0: World, w1: World)
    requires
        groups_are_own(set, w0.state),
        pod_gone(uid, w0, w1),
    ensures
        w1.asked == w0.asked,
        w0.state.group_path_of(uid) is None ==> w1.history == w0.history,
        w0.state.group_path_of(uid) is Some ==> {
            let tr = since(w0.history, w1.history);
            &&& tr.len() == 1
            &&& tr[0] matches FsEvent::RemoveDir { path, .. } && path == group_path_of(
                set.root,
                set.group_prefix,
                uid,
            )
        },
        w0.state.group_path_of(uid) is Some <==> w0.state.pods.dom().contains(uid)
            && !w0.state.is_failed(uid),
{
    if let Some(path) = w0.state.group_path_of(uid) {
        law_deleting_removes_the_groups_directory(path, since(w0.history, w1.history));
    }
}

/// A group that was created for a pod that is gone meanwhile is removed again; for a pod that is
/// held nothing more is called.
pub proof fn law_groups_of_gone_pods_are_removed(
    uid: Seq<char>,
    path: Seq<char>,
    w0: World,
    w1: World,
    r: Result<GroupView, PluginErrorView>,
)
    requires
        group_settled(uid, path, w0, w1, r),
    ensures
        w0.state.pods.dom().contains(uid) ==> w1.history == w0.history && r is Ok && r->Ok_0
            == w1.state.pods[uid].group && !w1.state.is_failed(uid),
        !w0.state.pods.dom().contains(uid) ==> {
            let tr = since(w0.history, w1.history);
            &&& w1.state == w0.state
            &&& r == Err::<GroupView, PluginErrorView>(PluginErrorView::PodNotFound)
            &&& tr.len() == 1
            &&& tr[0] matches FsEvent::RemoveDir { path: p, .. } && p == path
        },
        w0.state.is_failed(uid) ==> w1.state.pods[uid].group == GroupView::Exists(path),
        w0.state.pods.dom().contains(uid) && !w0.state.is_failed(uid) ==> w1.state == w0.state,
{
    if !w0.state.pods.dom().contains(uid) {
        law_deleting_removes_the_groups_directory(path, since(w0.history, w1.history));
    }
}

/// A container that is removed counts no more for the pod that is named with it, whichever pod it
/// was held for; one that is not held, or was seen before its pod, did not count.
pub proof fn law_removed_containers_count_no_more(s: StateView, pod_uid: Seq<char>, id: Seq<char>)
    requires
        s.pods.dom().contains(pod_uid),
    ensures
        ({
            let t = s.container_removed(pod_uid, id);
            let was = s.pods[pod_uid];
            let now = t.pods[pod_uid];
            let held = s.containers.dom().contains(id);
            let counted = held && s.containers[id].state != ContainerSyncState::NoPod;
            let done = held && s.containers[id].state == ContainerSyncState::Reconciled;
            &&& now.group == was.group
            &&& counted && was.total > 0 ==> now.total == was.total - 1
            &&& !(counted && was.total > 0) ==> now.total == was.total
            &&& done && was.reconciled > 0 ==> now.reconciled == was.reconciled - 1
            &&& !(done && was.reconciled > 0) ==> now.reconciled == was.reconciled
        }),
{
}

// ---------------------------------------------------------------------------
// Start
// ---------------------------------------------------------------------------

/// Whether calls hold the listing of a directory.
pub open spec fn listed_in(tr: Seq<FsEvent>, dir: Seq<char>) -> bool {
    exists|i: int| 0 <= i < tr.len() && (#[trigger] tr[i] matches FsEvent::ReadChildDirs { path, .. }
        && path == dir)
}

/// Whether calls hold one that found resctrl mounted.
pub open spec fn found_mounted(tr: Seq<FsEvent>) -> bool {
    exists|i: int| 0 <= i < tr.len() && #[trigger] tr[i] is CheckWritable
}

/// Stale groups are looked for at the start exactly where that is asked for and resctrl is mounted,
/// or was mounted for it; nothing is mounted where that is not asked for.
pub proof fn law_stale_groups_are_looked_for_where_asked(set: Settings, w0: World, w1: World)
    requires
        started_up(set, w0, w1),
    ensures
        ({
            let tr = since(w0.history, w1.history);
            &&& listed_in(tr, set.root) <==> set.cleanup_on_start && found_mounted(tr)
            &&& !set.auto_mount ==> forall|i: int| 0 <= i < tr.len() ==> !(#[trigger] tr[i] is Mount)
        }),
{
    let h = choose|h: Seq<FsEvent>|
        {
            &&& #[trigger] continues(w0.history, h)
            &&& continues(h, w1.history)
            &&& match ensure_run(set.auto_mount, set.root, since(w0.history, h)) {
                None => false,
                Some((answer, rest)) => rest.len() == 0 && if answer is Ok
                    && set.cleanup_on_start {
                    match cleanup_run(set.root, set.group_prefix, since(h, w1.history)) {
                        Some((_, rest2)) => rest2.len() == 0,
                        None => false,
                    }
                } else {
                    w1.history == h
                },
            }
        };
    let a = since(w0.history, h);
    let b = since(h, w1.history);
    let tr = since(w0.history, w1.history);
    lemma_continues(w0.history, h, w1.history);
    law_mounting_is_checked(set.auto_mount, set.root, a);
    lemma_ensure_calls(set.auto_mount, set.root, a);
    let answer = ensure_run(set.auto_mount, set.root, a).unwrap().0;
    assert forall|i: int| 0 <= i < a.len() implies tr[i] == a[i] by {}
    assert forall|i: int| 0 <= i < b.len() implies tr[a.len() + i] == b[i] by {}
    if answer is Ok {
        assert(tr[a.len() - 1] is CheckWritable);
        if set.cleanup_on_start {
            law_cleanup_removes_only_prefixed(set.root, set.group_prefix, b);
            assert(tr[a.len() as int] == b[0]);
            assert(b[0] matches FsEvent::ReadChildDirs { path, .. } && path == set.root);
            assert forall|i: int| 0 <= i < tr.len() && !set.auto_mount implies !(
            #[trigger] tr[i] is Mount) by {
                if i >= a.len() {
                    assert(tr[i] == b[i - a.len()]);
                }
            }
        } else {
            lemma_no_call(h);
        }
    } else {
        lemma_no_call(h);
        assert(tr =~= a);
    }
    if listed_in(tr, set.root) {
        let i = choose|i: int|
            0 <= i < tr.len() && (#[trigger] tr[i] matches FsEvent::ReadChildDirs { path, .. } && path
                == set.root);
        if i < a.len() {
            assert(a[i] is ReadChildDirs);
        }
    }
    if found_mounted(tr) {
        let i = choose|i: int| 0 <= i < tr.len() && #[trigger] tr[i] is CheckWritable;
        if i >= a.len() {
            assert(b[i - a.len()] is CheckWritable);
        } else {
            assert(a[i] is CheckWritable);
        }
    }
}

proof fn lemma_ensure_calls(auto_mount: bool, root: Seq<char>, tr: Seq<FsEvent>)
    requires
        ensure_run(auto_mount, root, tr) is Some,
        ensure_run(auto_mount, root, tr).unwrap().1.len() == 0,
    ensures
        forall|i: int| 0 <= i < tr.len() ==> !(#[trigger] tr[i] is ReadChildDirs),
        forall|i: int|
            0 <= i < tr.len() && #[trigger] tr[i] is CheckWritable ==> ensure_run(
                auto_mount,
                root,
                tr,
            ).unwrap().0 is Ok,
        !auto_mount ==> forall|i: int| 0 <= i < tr.len() ==> !(#[trigger] tr[i] is Mount),
{
    let (first, rest) = detect_run(tr).unwrap();
    if first is Ok && !first->Ok_0.mounted && auto_mount {
        let after = rest.drop_first();
        assert(rest =~= tr.drop_first());
        assert(tr[1] == rest[0]);
        match rest[0] {
            FsEvent::Mount { target, answer } => {
                if answer is Ok {
                    law_detection_looks_at_the_mount(after);
                    assert(tr.len() == after.len() + 2);
                    assert(tr[2] == after[0]);
                    if after.len() == 2 {
                        assert(tr[3] == after[1]);
                    }
                }
            },
            _ => {},
        }
    } else {
        law_detection_looks_at_the_mount(tr);
    }
}

// ---------------------------------------------------------------------------
// Trying everything again
// ---------------------------------------------------------------------------

/// Whether a call failed for want of space.
pub open spec fn is_out_of_space(e: FsEvent) -> bool {
    e matches FsEvent::CreateDir { answer: Err(x), .. } && x.code == Some(28i32)
}

/// Tries of groups go on to the last, and leave none of them failed, unless creating one failed: for
/// want of space, which ends the tries of groups alone, or for another reason, which is the error.
pub proof fn law_groups_are_tried_up_to_a_failure(
    set: Settings,
    uids: Seq<Seq<char>>,
    w0: World,
    w1: World,
    stop: GroupStop,
)
    requires
        groups_retried(set, uids, w0, w1, stop),
    ensures
        continues(w0.history, w1.history),
        w1.state.containers == w0.state.containers,
        forall|uid: Seq<char>| #[trigger]
            w0.state.pods.dom().contains(uid) ==> w1.state.pods.dom().contains(uid) && (
            w0.state.pods[uid].group is Exists ==> w1.state.pods[uid].group
                == w0.state.pods[uid].group),
        match stop {
            GroupStop::No => forall|uid: Seq<char>| #[trigger]
                uids.contains(uid) ==> !w1.state.is_failed(uid),
            GroupStop::Capacity => since(w0.history, w1.history).len() > 0 && is_out_of_space(
                w1.history.last(),
            ),
            GroupStop::Failed(e) => since(w0.history, w1.history).len() > 0 && !is_out_of_space(
                w1.history.last(),
            ) && !directory_is_there(since(w0.history, w1.history)) && (
            e matches PluginErrorView::Resctrl(x) && !(x is Capacity)),
        },
    decreases uids.len(),
{
    if uids.len() == 0 {
        lemma_no_call(w0.history);
    } else {
        let front = uids.drop_last();
        let uid = uids.last();
        let (w, before) = choose|w: World, before: GroupStop|
            groups_retried(set, front, w0, w, before) && #[trigger] group_step(
                set,
                uid,
                w,
                w1,
                before,
                stop,
            );
        law_groups_are_tried_up_to_a_failure(set, front, w0, w, before);
        if before is No {
            let r = choose|r: Result<GroupView, PluginErrorView>| #[trigger]
                group_retried(set, uid, w, w1, r) && stop
                    == group_stop(r);
            law_retried_pods_have_the_groups_that_were_made(set, uid, w, w1, r);
            if w.state.is_failed(uid) {
                law_creating_makes_the_groups_directory(
                    set.root,
                    set.group_prefix,
                    uid,
                    since(w.history, w1.history),
                );
                assert(w1.history.last() == since(w.history, w1.history).last());
            } else {
                lemma_no_call(w.history);
            }
            lemma_continues(w0.history, w.history, w1.history);
            if since(w.history, w1.history).len() > 0 {
                assert(since(w0.history, w1.history).last() == since(w.history, w1.history).last());
            }
            if stop is No {
                assert forall|u: Seq<char>| #[trigger] uids.contains(
                    u,
                ) implies !w1.state.is_failed(u) by {
                    if u != uid {
                        let k = choose|k: int| 0 <= k < uids.len() && uids[k] == u;
                        assert(front[k] == u);
                        assert(front.contains(u));
                    }
                }
            }
        }
    }
}

/// Whether containers are held where they were: for the same pods, with the same control groups, and
/// with the same groups of these pods.
pub open spec fn in_place(s: StateView, t: StateView) -> bool {
    &&& forall|id: Seq<char>| #[trigger]
        s.containers.dom().contains(id) ==> t.containers.dom().contains(id)
            && t.containers[id].pod_uid == s.containers[id].pod_uid && t.containers[id].cgroup_path
            == s.containers[id].cgroup_path && (t.containers[id].state == ContainerSyncState::NoPod
            <==> s.containers[id].state == ContainerSyncState::NoPod)
    &&& forall|uid: Seq<char>| #[trigger]
        s.pods.dom().contains(uid) ==> t.pods.dom().contains(uid) && t.pods[uid].group
            == s.pods[uid].group
}

/// Whether a source was asked about something.
pub open spec fn asked_about(asked: Seq<PidQuery>, about: Seq<char>) -> bool {
    exists|i: int| 0 <= i < asked.len() && (#[trigger] asked[i]).about == about
}

proof fn lemma_retried_in_place(
    set: Settings,
    id: Seq<char>,
    w0: World,
    w1: World,
    r: Result<ContainerSyncState, PluginErrorView>,
)
    requires
        set.passes > 0,
        container_retried(set, id, w0, w1, r),
    ensures
        in_place(w0.state, w1.state),
        continues(w0.asked, w1.asked),
        w0.state.retry_of(id) is Reconcile ==> asked_about(
            since(w0.asked, w1.asked),
            w0.state.containers[id].cgroup_path,
        ),
{
    match w0.state.retry_of(id) {
        RetryView::Reconcile { group_path, cgroup_path, pod_uid } => {
            law_retried_containers_are_reconciled_where_all_tasks_are_there(set, id, w0, w1, r);
            assert(all_about(since(w0.asked, w1.asked), cgroup_path));
            assert(since(w0.asked, w1.asked)[0].about == cgroup_path);
        },
        _ => {
            lemma_no_call(w0.asked);
        },
    }
}

/// Tries of containers go on to the last unless one fails on the filesystem or at the source; each
/// that goes on asks for the tasks of the container's own control group.
pub proof fn law_containers_are_tried_up_to_a_failure(
    set: Settings,
    ids: Seq<Seq<char>>,
    w0: World,
    w1: World,
    stop: Option<PluginErrorView>,
)
    requires
        set.passes > 0,
        containers_retried(set, ids, w0, w1, stop),
    ensures
        in_place(w0.state, w1.state),
        continues(w0.asked, w1.asked),
        stop matches Some(e) ==> e is Resctrl,
        stop is None ==> forall|id: Seq<char>| #[trigger]
            ids.contains(id) && w0.state.retry_of(id) is Reconcile ==> asked_about(
                since(w0.asked, w1.asked),
                w0.state.containers[id].cgroup_path,
            ),
    decreases ids.len(),
{
    if ids.len() == 0 {
        lemma_no_call(w0.asked);
    } else {
        let front = ids.drop_last();
        let id = ids.last();
        let (w, before) = choose|w: World, before: Option<PluginErrorView>|
            containers_retried(set, front, w0, w, before) && #[trigger] container_step(
                set,
                id,
                w,
                w1,
                before,
                stop,
            );
        law_containers_are_tried_up_to_a_failure(set, front, w0, w, before);
        if before is None {
            let r = choose|r: Result<ContainerSyncState, PluginErrorView>| #[trigger]
                container_retried(set, id, w, w1, r) && stop
                    == container_stop(r);
            lemma_retried_in_place(set, id, w, w1, r);
            lemma_continues(w0.asked, w.asked, w1.asked);
            let early = since(w0.asked, w.asked);
            let late = since(w.asked, w1.asked);
            let all = since(w0.asked, w1.asked);
            assert forall|x: Seq<char>| #[trigger]
                ids.contains(x) && w0.state.retry_of(x) is Reconcile implies asked_about(
                all,
                w0.state.containers[x].cgroup_path,
            ) by {
                let about = w0.state.containers[x].cgroup_path;
                if x == id {
                    assert(w.state.retry_of(id) is Reconcile);
                    let i = choose|i: int| 0 <= i < late.len() && (#[trigger] late[i]).about == about;
                    assert(all[early.len() + i] == late[i]);
                } else {
                    let k = choose|k: int| 0 <= k < ids.len() && ids[k] == x;
                    assert(front[k] == x);
                    assert(front.contains(x));
                    let i = choose|i: int|
                        0 <= i < early.len() && (#[trigger] early[i]).about == about;
                    assert(all[i] == early[i]);
                }
            }
        }
    }
}

/// Trying everything again, where it succeeds, leaves no pod without a group that had none before,
/// unless the kernel has no more groups to give; and it asks for the tasks of every container with
/// missing tasks whose pod has a group, whether or not groups could be had.
pub proof fn law_everything_is_tried_again(
    set: Settings,
    w0: World,
    w1: World,
    r: Result<(), PluginErrorView>,
)
    requires
        set.passes > 0,
        all_retried(set, w0, w1, r),
        r is Ok,
    ensures
        (forall|uid: Seq<char>| #[trigger]
            w0.state.pods.dom().contains(uid) ==> !w1.state.is_failed(uid)) || exists|i: int|
            0 <= i < w1.history.len() && is_out_of_space(#[trigger] w1.history[i]),
        forall|id: Seq<char>| #[trigger]
            w0.state.is_partial(id) && w0.state.group_path_of(w0.state.containers[id].pod_uid)
                is Some ==> asked_about(
                since(w0.asked, w1.asked),
                w0.state.containers[id].cgroup_path,
            ),
{
    let (uids, ids, w, stop) = choose|
        uids: Seq<Seq<char>>,
        ids: Seq<Seq<char>>,
        w: World,
        stop: GroupStop,
    |
        #![trigger groups_retried(set, uids, w0, w, stop), lists_partial(w0.state, ids)]
        {
            &&& lists_failed(w0.state, uids)
            &&& lists_partial(w0.state, ids)
            &&& groups_retried(set, uids, w0, w, stop)
            &&& match stop {
                GroupStop::Failed(e) => w1 == w && r == Err::<(), PluginErrorView>(e),
                _ => exists|failure: Option<PluginErrorView>| #[trigger]
                    containers_retried(set, ids, w, w1, failure) && r == match failure {
                        None => Ok::<(), PluginErrorView>(()),
                        Some(e) => Err(e),
                    },
            }
        };
    law_groups_are_tried_up_to_a_failure(set, uids, w0, w, stop);
    lemma_groups_ask_nothing(set, uids, w0, w, stop);
    let failure: Option<PluginErrorView> = None;
    assert(containers_retried(set, ids, w, w1, failure));
    law_containers_are_tried_up_to_a_failure(set, ids, w, w1, failure);
    lemma_containers_keep_history(set, ids, w, w1, failure);
    if stop is Capacity {
        let k = w.history.len() - 1;
        assert(w1.history.take(w.history.len() as int)[k] == w.history[k]);
        assert(is_out_of_space(w1.history[k]));
    } else {
        assert forall|uid: Seq<char>| #[trigger]
            w0.state.pods.dom().contains(uid) implies !w1.state.is_failed(uid) by {
            assert(uids.contains(uid) <==> w0.state.is_failed(uid));
        }
    }
    assert forall|id: Seq<char>| #[trigger]
        w0.state.is_partial(id) && w0.state.group_path_of(w0.state.containers[id].pod_uid)
            is Some implies asked_about(
        since(w0.asked, w1.asked),
        w0.state.containers[id].cgroup_path,
    ) by {
        assert(ids.contains(id));
        assert(w.state.retry_of(id) is Reconcile);
    }
}

proof fn lemma_groups_ask_nothing(
    set: Settings,
    uids: Seq<Seq<char>>,
    w0: World,
    w1: World,
    stop: GroupStop,
)
    requires
        groups_retried(set, uids, w0, w1, stop),
    ensures
        w1.asked == w0.asked,
        w1.state.pods.dom() == w0.state.pods.dom(),
    decreases uids.len(),
{
    if uids.len() > 0 {
        let (w, before) = choose|w: World, before: GroupStop|
            groups_retried(set, uids.drop_last(), w0, w, before) && #[trigger] group_step(
                set,
                uids.last(),
                w,
                w1,
                before,
                stop,
            );
        lemma_groups_ask_nothing(set, uids.drop_last(), w0, w, before);
        assert(w1.state.pods.dom() =~= w.state.pods.dom());
    }
}

proof fn lemma_containers_keep_history(
    set: Settings,
    ids: Seq<Seq<char>>,
    w0: World,
    w1: World,
    stop: Option<PluginErrorView>,
)
    requires
        containers_retried(set, ids, w0, w1, stop),
    ensures
        continues(w0.history, w1.history),
    decreases ids.len(),
{
    lemma_no_call(w0.history);
    if ids.len() > 0 {
        let (w, before) = choose|w: World, before: Option<PluginErrorView>|
            containers_retried(set, ids.drop_last(), w0, w, before) && #[trigger] container_step(
                set,
                ids.last(),
                w,
                w1,
                before,
                stop,
            );
        lemma_containers_keep_history(set, ids.drop_last(), w0, w, before);
        lemma_no_call(w.history);
        lemma_continues(w0.history, w.history, w1.history);
    }
}

}
