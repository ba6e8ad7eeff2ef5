//! Laws of which pod a container belongs to, which group its tasks go to, and what is reported.

use vstd::prelude::*;

use crate::nri_plugin::relations::{
    container_met, container_retried, container_seen, containers_seen, group_reconciled,
    group_retried, pod_gone, pod_seen, pods_seen, started_up, synchronized, uid_of, Settings, World,
};
use crate::nri_plugin::state::{RetryView, StartView, StateView};
use crate::nri_plugin::types::{
    Container, ContainerSyncState, GroupView, PluginErrorView, PodEventView,
    PodSandbox, PodView,
};
use crate::resctrl::error::ErrorView;
use crate::resctrl::group::group_path_of;
use crate::resctrl::laws::{law_reconcile_writes_wanted_tasks, writes_only};
use crate::resctrl::provider::{since, FsEvent};
use crate::resctrl::runs::tasks_of;
use crate::resctrl::source::{all_about, answers_in};

verus! {

// ---------------------------------------------------------------------------
// Pods of containers
// ---------------------------------------------------------------------------

/// The pod of a sandbox is the last in the list with the sandbox's ID, and there is none exactly
/// where no pod in the list has that ID.
pub proof fn law_sandboxes_name_their_pods(pods: Seq<PodSandbox>, id: Seq<char>)
    ensures
        match uid_of(pods, id) {
            Some(uid) => exists|i: int|
                0 <= i < pods.len() && (#[trigger] pods[i]).id@ == id && pods[i].uid@ == uid
                    && forall|j: int| i < j < pods.len() ==> (#[trigger] pods[j]).id@ != id,
            None => forall|i: int| 0 <= i < pods.len() ==> (#[trigger] pods[i]).id@ != id,
        },
    decreases pods.len(),
{
    if pods.len() > 0 {
        let front = pods.drop_last();
        law_sandboxes_name_their_pods(front, id);
        if pods.last().id@ == id {
            assert(pods[pods.len() - 1].id@ == id);
        } else {
            match uid_of(front, id) {
                Some(uid) => {
                    let i = choose|i: int|
                        0 <= i < front.len() && (#[trigger] front[i]).id@ == id && front[i].uid@
                            == uid && forall|j: int|
                            i < j < front.len() ==> (#[trigger] front[j]).id@ != id;
                    assert(pods[i] == front[i]);
                    assert forall|j: int| i < j < pods.len() implies (#[trigger] pods[j]).id@
                        != id by {
                        if j < front.len() {
                            assert(pods[j] == front[j]);
                        }
                    }
                },
                None => {
                    assert forall|i: int| 0 <= i < pods.len() implies (#[trigger] pods[i]).id@
                        != id by {
                        if i < front.len() {
                            assert(pods[i] == front[i]);
                        }
                    }
                },
            }
        }
    }
}

/// Whether a container is held for the pod whose sandbox it names.
pub open spec fn held_for_its_pod(
    s: StateView,
    pods: Seq<PodSandbox>,
    containers: Seq<Container>,
    id: Seq<char>,
) -> bool {
    exists|j: int, i: int|
        #![trigger containers[j], pods[i]]
        0 <= j < containers.len() && containers[j].id@ == id && 0 <= i < pods.len() && pods[i].id@
            == containers[j].pod_sandbox_id@ && pods[i].uid@ == s.containers[id].pod_uid
}

/// A container that was seen is held, for the pod that it was seen with; one that was held before
/// stays as it was, and nothing changes of the other containers.
pub proof fn law_container_is_held_for_its_pod(
    set: Settings,
    pod_uid: Seq<char>,
    container: Container,
    w0: World,
    w1: World,
    other: Seq<char>,
)
    requires
        container_seen(set, pod_uid, container, w0, w1),
        other != container.id@,
    ensures
        ({
            let id = container.id@;
            let was = w0.state.containers;
            let now = w1.state.containers;
            &&& now.dom().contains(id)
            &&& was.dom().contains(id) ==> now[id] == was[id] && w1 == w0
            &&& !was.dom().contains(id) ==> now[id].pod_uid == pod_uid
            &&& !was.dom().contains(id) && w0.state.pods.dom().contains(pod_uid)
                ==> now[id].state != ContainerSyncState::NoPod && now[id].cgroup_path
                == container.cgroup_path@
            &&& !was.dom().contains(id) && !w0.state.pods.dom().contains(pod_uid)
                ==> now[id].state == ContainerSyncState::NoPod && now[id].cgroup_path
                == container.cgroup_path_without_pod@
            &&& now.dom().contains(other) == was.dom().contains(other)
            &&& was.dom().contains(other) ==> now[other] == was[other]
        }),
{
}

proof fn lemma_containers_seen(
    set: Settings,
    pods: Seq<PodSandbox>,
    containers: Seq<Container>,
    w0: World,
    w1: World,
)
    requires
        containers_seen(set, pods, containers, w0, w1),
    ensures
        forall|id: Seq<char>| #[trigger]
            w0.state.containers.dom().contains(id) ==> w1.state.containers.dom().contains(id)
                && w1.state.containers[id] == w0.state.containers[id],
        forall|id: Seq<char>| #[trigger]
            w1.state.containers.dom().contains(id) && !w0.state.containers.dom().contains(id)
                ==> held_for_its_pod(w1.state, pods, containers, id),
        forall|j: int|
            #![trigger containers[j]]
            0 <= j < containers.len() && uid_of(pods, containers[j].pod_sandbox_id@) is Some
                ==> w1.state.containers.dom().contains(containers[j].id@),
    decreases containers.len(),
{
    if containers.len() > 0 {
        let front = containers.drop_last();
        let c = containers.last();
        let w = choose|w: World|
            containers_seen(set, pods, front, w0, w) && #[trigger] container_met(
                set,
                pods,
                c,
                w,
                w1,
            );
        lemma_containers_seen(set, pods, front, w0, w);
        match uid_of(pods, c.pod_sandbox_id@) {
            Some(uid) => {
                law_sandboxes_name_their_pods(pods, c.pod_sandbox_id@);
                let i = choose|i: int|
                    0 <= i < pods.len() && (#[trigger] pods[i]).id@ == c.pod_sandbox_id@
                        && pods[i].uid@ == uid;
                assert forall|id: Seq<char>| id != c.id@ implies w1.state.containers.dom().contains(
                    id,
                ) == w.state.containers.dom().contains(id) && (w.state.containers.dom().contains(id)
                    ==> w1.state.containers[id] == #[trigger] w.state.containers[id]) by {
                    law_container_is_held_for_its_pod(set, uid, c, w, w1, id);
                }
                let other = c.id@.push('x');
                assert(other.len() != c.id@.len());
                law_container_is_held_for_its_pod(set, uid, c, w, w1, other);
                assert forall|id: Seq<char>| #[trigger]
                    w1.state.containers.dom().contains(id) && !w0.state.containers.dom().contains(
                        id,
                    ) implies held_for_its_pod(w1.state, pods, containers, id) by {
                    if w.state.containers.dom().contains(id) {
                        assert(held_for_its_pod(w.state, pods, front, id));
                        let (j, k) = choose|j: int, k: int|
                            #![trigger front[j], pods[k]]
                            0 <= j < front.len() && front[j].id@ == id && 0 <= k < pods.len()
                                && pods[k].id@ == front[j].pod_sandbox_id@ && pods[k].uid@
                                == w.state.containers[id].pod_uid;
                        assert(w1.state.containers[id] == w.state.containers[id]);
                        assert(containers[j] == front[j]);
                        assert(pods[k].uid@ == w1.state.containers[id].pod_uid);
                    } else {
                        assert(id == c.id@);
                        assert(containers[containers.len() - 1] == c);
                        assert(pods[i].uid@ == w1.state.containers[id].pod_uid);
                    }
                }
            },
            None => {
                assert forall|id: Seq<char>| #[trigger]
                    w1.state.containers.dom().contains(id) && !w0.state.containers.dom().contains(
                        id,
                    ) implies held_for_its_pod(w1.state, pods, containers, id) by {
                    assert(held_for_its_pod(w.state, pods, front, id));
                    let (j, k) = choose|j: int, k: int|
                        #![trigger front[j], pods[k]]
                        0 <= j < front.len() && front[j].id@ == id && 0 <= k < pods.len()
                            && pods[k].id@ == front[j].pod_sandbox_id@ && pods[k].uid@
                            == w.state.containers[id].pod_uid;
                    assert(containers[j] == front[j]);
                    assert(pods[k].uid@ == w1.state.containers[id].pod_uid);
                }
            },
        }
        assert forall|j: int|
            #![trigger containers[j]]
            0 <= j < containers.len() && uid_of(pods, containers[j].pod_sandbox_id@)
                is Some implies w1.state.containers.dom().contains(containers[j].id@) by {
            if j < front.len() {
                assert(front[j] == containers[j]);
            }
        }
    }
}

proof fn lemma_pods_seen(set: Settings, pods: Seq<PodSandbox>, w0: World, w1: World)
    requires
        pods_seen(set, pods, w0, w1),
    ensures
        w1.state.containers == w0.state.containers,
        forall|uid: Seq<char>| #[trigger]
            w0.state.pods.dom().contains(uid) ==> w1.state.pods.dom().contains(uid)
                && w1.state.pods[uid] == w0.state.pods[uid],
        forall|i: int|
            0 <= i < pods.len() ==> w1.state.pods.dom().contains((#[trigger] pods[i]).uid@),
    decreases pods.len(),
{
    if pods.len() > 0 {
        let front = pods.drop_last();
        let w = choose|w: World|
            pods_seen(set, front, w0, w) && #[trigger] pod_seen(set, pods.last().uid@, w, w1);
        lemma_pods_seen(set, front, w0, w);
        assert forall|i: int| 0 <= i < pods.len() implies w1.state.pods.dom().contains(
            (#[trigger] pods[i]).uid@,
        ) by {
            if i < front.len() {
                assert(front[i] == pods[i]);
            }
        }
    }
}

/// Synchronizing holds every pod of the list, and every container of one of these pods, each for the
/// pod whose sandbox it names; containers that were held before stay as they were.
pub proof fn law_synchronizing_holds_everything_in_its_place(
    set: Settings,
    pods: Seq<PodSandbox>,
    containers: Seq<Container>,
    w0: World,
    w1: World,
)
    requires
        synchronized(set, pods, containers, w0, w1),
    ensures
        forall|i: int|
            0 <= i < pods.len() ==> w1.state.pods.dom().contains((#[trigger] pods[i]).uid@),
        forall|id: Seq<char>| #[trigger]
            w0.state.containers.dom().contains(id) ==> w1.state.containers.dom().contains(id)
                && w1.state.containers[id] == w0.state.containers[id],
        forall|id: Seq<char>| #[trigger]
            w1.state.containers.dom().contains(id) && !w0.state.containers.dom().contains(id)
                ==> held_for_its_pod(w1.state, pods, containers, id),
        forall|j: int, i: int|
            #![trigger containers[j], pods[i]]
            0 <= j < containers.len() && 0 <= i < pods.len() && pods[i].id@
                == containers[j].pod_sandbox_id@ ==> w1.state.containers.dom().contains(
                containers[j].id@,
            ),
{
    let (a, b) = choose|a: World, b: World|
        #![trigger started_up(set, w0, a), pods_seen(set, pods, a, b)]
        started_up(set, w0, a) && pods_seen(set, pods, a, b) && containers_seen(
            set,
            pods,
            containers,
            b,
            w1,
        );
    lemma_pods_seen(set, pods, a, b);
    lemma_containers_seen(set, pods, containers, b, w1);
    lemma_containers_keep_pods(set, pods, containers, b, w1);
    assert forall|j: int, i: int|
        #![trigger containers[j], pods[i]]
        0 <= j < containers.len() && 0 <= i < pods.len() && pods[i].id@
            == containers[j].pod_sandbox_id@ implies w1.state.containers.dom().contains(
        containers[j].id@,
    ) by {
        law_sandboxes_name_their_pods(pods, containers[j].pod_sandbox_id@);
    }
}

proof fn lemma_containers_keep_pods(
    set: Settings,
    pods: Seq<PodSandbox>,
    containers: Seq<Container>,
    w0: World,
    w1: World,
)
    requires
        containers_seen(set, pods, containers, w0, w1),
    ensures
        forall|uid: Seq<char>| #[trigger]
            w1.state.pods.dom().contains(uid) == w0.state.pods.dom().contains(uid),
        forall|uid: Seq<char>| #[trigger]
            w0.state.pods.dom().contains(uid) ==> w1.state.pods[uid].group
                == w0.state.pods[uid].group,
    decreases containers.len(),
{
    if containers.len() > 0 {
        let front = containers.drop_last();
        let c = containers.last();
        let w = choose|w: World|
            containers_seen(set, pods, front, w0, w) && #[trigger] container_met(
                set,
                pods,
                c,
                w,
                w1,
            );
        lemma_containers_keep_pods(set, pods, front, w0, w);
    }
}

// ---------------------------------------------------------------------------
// Groups of pods
// ---------------------------------------------------------------------------

/// Every pod that has a group has its own: the one that is named after it.
pub open spec fn groups_are_own(set: Settings, s: StateView) -> bool {
    forall|uid: Seq<char>| #[trigger]
        s.pods.dom().contains(uid) ==> match s.pods[uid].group {
            GroupView::Exists(path) => path == group_path_of(set.root, set.group_prefix, uid),
            GroupView::Failed => true,
        }
}

/// Seeing a pod, trying its group again, and seeing, retrying or losing containers and pods keep
/// every group its pod's own.
pub proof fn law_groups_stay_own(
    set: Settings,
    uid: Seq<char>,
    container: Container,
    w0: World,
    w1: World,
    r: Result<GroupView, PluginErrorView>,
    s: Result<ContainerSyncState, PluginErrorView>,
)
    requires
        groups_are_own(set, w0.state),
    ensures
        pod_seen(set, uid, w0, w1) ==> groups_are_own(set, w1.state),
        group_retried(set, uid, w0, w1, r) ==> groups_are_own(set, w1.state),
        container_seen(set, uid, container, w0, w1) ==> groups_are_own(set, w1.state),
        container_retried(set, container.id@, w0, w1, s) ==> groups_are_own(set, w1.state),
        pod_gone(uid, w0, w1) ==> groups_are_own(set, w1.state),
        groups_are_own(set, w0.state.container_removed(uid, container.id@)),
{
}

/// The tasks of a container of a pod are written to the tasks file of that pod's own group, and to
/// none other, and they are tasks that the source has given for the container's own control group.
pub proof fn law_tasks_go_to_the_pods_own_group(
    set: Settings,
    pod_uid: Seq<char>,
    container: Container,
    w0: World,
    w1: World,
)
    requires
        groups_are_own(set, w0.state),
        container_seen(set, pod_uid, container, w0, w1),
    ensures
        writes_only(
            since(w0.history, w1.history),
            tasks_of(group_path_of(set.root, set.group_prefix, pod_uid)),
            answers_in(since(w0.asked, w1.asked)),
        ),
        all_about(since(w0.asked, w1.asked), container.cgroup_path@),
{
    let (s, start) = w0.state.container_started(
        pod_uid,
        container.id@,
        container.cgroup_path@,
        container.cgroup_path_without_pod@,
    );
    match start {
        StartView::Settled => {
            assert(since(w0.history, w1.history) =~= Seq::<FsEvent>::empty());
            assert(since(w0.asked, w1.asked) =~= Seq::empty());
        },
        StartView::Reconcile { group_path, cgroup_path } => {
            let outcome = choose|outcome: Result<(nat, nat), ErrorView>| #[trigger]
                group_reconciled(
                    group_path,
                    cgroup_path,
                    set.passes,
                    w0.asked,
                    w1.asked,
                    w0.history,
                    w1.history,
                    outcome,
                );
            law_reconcile_writes_wanted_tasks(
                tasks_of(group_path),
                answers_in(since(w0.asked, w1.asked)),
                since(w0.history, w1.history),
                set.passes,
                0,
                Seq::empty(),
            );
        },
    }
}

/// What is tried again of a container is what it was held with: the tasks of its own control group
/// go to the group of its own pod, where the pod has one.
pub proof fn law_retries_go_to_the_pods_own_group(
    set: Settings,
    id: Seq<char>,
    w0: World,
    w1: World,
    r: Result<ContainerSyncState, PluginErrorView>,
)
    requires
        groups_are_own(set, w0.state),
        container_retried(set, id, w0, w1, r),
    ensures
        ({
            let c = w0.state.containers[id];
            let tried = w0.state.containers.dom().contains(id) && c.state
                != ContainerSyncState::NoPod && w0.state.pods.dom().contains(c.pod_uid)
                && w0.state.pods[c.pod_uid].group is Exists;
            if tried {
                &&& writes_only(
                    since(w0.history, w1.history),
                    tasks_of(group_path_of(set.root, set.group_prefix, c.pod_uid)),
                    answers_in(since(w0.asked, w1.asked)),
                )
                &&& all_about(since(w0.asked, w1.asked), c.cgroup_path)
            } else {
                w1 == w0
            }
        }),
        !w0.state.containers.dom().contains(id) ==> r == Err::<ContainerSyncState, PluginErrorView>(
            PluginErrorView::ContainerNotFound,
        ),
{
    match w0.state.retry_of(id) {
        RetryView::Reconcile { group_path, cgroup_path, pod_uid } => {
            let outcome = choose|outcome: Result<(nat, nat), ErrorView>| #[trigger]
                group_reconciled(
                    group_path,
                    cgroup_path,
                    set.passes,
                    w0.asked,
                    w1.asked,
                    w0.history,
                    w1.history,
                    outcome,
                );
            law_reconcile_writes_wanted_tasks(
                tasks_of(group_path),
                answers_in(since(w0.asked, w1.asked)),
                since(w0.history, w1.history),
                set.passes,
                0,
                Seq::empty(),
            );
        },
        _ => {},
    }
}

// ---------------------------------------------------------------------------
// Reports
// ---------------------------------------------------------------------------

/// What somebody knows of pods who knew something and took in events.
pub open spec fn known_after(
    known: Map<Seq<char>, PodView>,
    events: Seq<PodEventView>,
) -> Map<Seq<char>, PodView>
    decreases events.len(),
{
    if events.len() == 0 {
        known
    } else {
        let before = known_after(known, events.drop_last());
        match events.last() {
            PodEventView::AddOrUpdate { pod_uid, pod } => before.insert(pod_uid, pod),
            PodEventView::Removed { uid } => before.remove(uid),
        }
    }
}

proof fn lemma_known_push(
    known: Map<Seq<char>, PodView>,
    events: Seq<PodEventView>,
    e: PodEventView,
)
    ensures
        known_after(known, events.push(e)) == match e {
            PodEventView::AddOrUpdate { pod_uid, pod } => known_after(known, events).insert(
                pod_uid,
                pod,
            ),
            PodEventView::Removed { uid } => known_after(known, events).remove(uid),
        },
{
    assert(events.push(e).drop_last() =~= events);
}

/// Whether the events that were not taken yet bring somebody up to date who knew that much.
pub open spec fn up_to_date(known: Map<Seq<char>, PodView>, s: StateView) -> bool {
    known_after(known, s.events) == s.pods
}

/// Reports are complete: whoever takes in all events knows each pod as it is held, its group and its
/// counts, whatever happens to pods and containers.
pub proof fn law_reports_are_complete(
    known: Map<Seq<char>, PodView>,
    s: StateView,
    uid: Seq<char>,
    id: Seq<char>,
    path: Seq<char>,
    created: Result<Seq<char>, ErrorView>,
    state: ContainerSyncState,
)
    requires
        up_to_date(known, s),
    ensures
        s.pods.dom().contains(uid) ==> up_to_date(known, s.announced(uid)),
        up_to_date(known, s.pod_added(uid, created)),
        up_to_date(known, s.container_started(uid, id, path, path).0),
        up_to_date(known, s.container_finished(uid, id, path, state)),
        up_to_date(known, s.group_created(uid, path).0),
        up_to_date(known, s.retry_finished(id, uid, state).0),
        up_to_date(known, s.pod_removed(uid)),
        up_to_date(known, s.container_removed(uid, id)),
{
    assert forall|t: StateView, pod: PodView| t.events == s.events && t.pods == s.pods implies (
    #[trigger] t.pod_set(uid, pod)).pods == known_after(known, t.pod_set(uid, pod).events) by {
        lemma_known_push(
            known,
            s.events,
            PodEventView::AddOrUpdate { pod_uid: uid, pod: s.pods.insert(uid, pod)[uid] },
        );
    }
    if s.pods.dom().contains(uid) {
        lemma_known_push(
            known,
            s.events,
            PodEventView::AddOrUpdate { pod_uid: uid, pod: s.pods[uid] },
        );
        assert(s.pods.insert(uid, s.pods[uid]) =~= s.pods);
    }
    lemma_known_push(known, s.events, PodEventView::Removed { uid });
}

/// Nothing that happens to one pod or to one of its containers changes another pod, and at most one
/// event comes of it, after those that were there.
pub proof fn law_other_pods_stay_as_they_were(
    s: StateView,
    uid: Seq<char>,
    id: Seq<char>,
    path: Seq<char>,
    created: Result<Seq<char>, ErrorView>,
    state: ContainerSyncState,
    other: Seq<char>,
)
    requires
        other != uid,
    ensures
        same_pod(s, s.announced(uid), other),
        same_pod(s, s.pod_added(uid, created), other),
        same_pod(s, s.container_started(uid, id, path, path).0, other),
        same_pod(s, s.container_finished(uid, id, path, state), other),
        same_pod(s, s.group_created(uid, path).0, other),
        same_pod(s, s.retry_finished(id, uid, state).0, other),
        same_pod(s, s.pod_removed(uid), other),
        same_pod(s, s.container_removed(uid, id), other),
{
    assert(s.events.take(s.events.len() as int) =~= s.events);
    assert forall|e: PodEventView| (#[trigger] s.events.push(e)).take(s.events.len() as int)
        == s.events by {
        assert(s.events.push(e).take(s.events.len() as int) =~= s.events);
    }
}

/// Whether a pod is as it was, and no more than one event has come up since.
pub open spec fn same_pod(s: StateView, t: StateView, uid: Seq<char>) -> bool {
    &&& t.pods.dom().contains(uid) == s.pods.dom().contains(uid)
    &&& s.pods.dom().contains(uid) ==> t.pods[uid] == s.pods[uid]
    &&& s.events.len() <= t.events.len() <= s.events.len() + 1
    &&& t.events.take(s.events.len() as int) == s.events
}

/// Nothing that happens to one container changes another: trying it again or losing it touches it
/// alone, and trying groups again touches none.
pub proof fn law_other_containers_stay_as_they_were(
    s: StateView,
    uid: Seq<char>,
    id: Seq<char>,
    path: Seq<char>,
    created: Result<Seq<char>, ErrorView>,
    state: ContainerSyncState,
    other: Seq<char>,
)
    requires
        other != id,
    ensures
        s.announced(uid).containers == s.containers,
        s.pod_added(uid, created).containers == s.containers,
        s.group_created(uid, path).0.containers == s.containers,
        same_container(s, s.container_started(uid, id, path, path).0, other),
        same_container(s, s.container_finished(uid, id, path, state), other),
        same_container(s, s.retry_finished(id, uid, state).0, other),
        same_container(s, s.container_removed(uid, id), other),
        s.containers.dom().contains(other) && s.containers[other].pod_uid != uid ==> same_container(
            s,
            s.pod_removed(uid),
            other,
        ),
        !s.container_removed(uid, id).containers.dom().contains(id),
{
}

/// Whether a container is as it was.
pub open spec fn same_container(s: StateView, t: StateView, id: Seq<char>) -> bool {
    &&& t.containers.dom().contains(id) == s.containers.dom().contains(id)
    &&& s.containers.dom().contains(id) ==> t.containers[id] == s.containers[id]
}

/// A pod that was not known is held with its own group where that could be created, and else without
/// one, and counts no containers; one that is known stays as it is and makes no calls.
pub proof fn law_seen_pods_are_held(set: Settings, uid: Seq<char>, w0: World, w1: World)
    requires
        pod_seen(set, uid, w0, w1),
    ensures
        w1.state.pods.dom().contains(uid),
        w0.state.pods.dom().contains(uid) ==> w1.state.pods == w0.state.pods && w1.history
            == w0.history,
        !w0.state.pods.dom().contains(uid) ==> w1.state.pods[uid].total == 0
            && w1.state.pods[uid].reconciled == 0,
        w1.state.events.len() == w0.state.events.len() + 1,
        w1.state.events.last() == (PodEventView::AddOrUpdate {
            pod_uid: uid,
            pod: w1.state.pods[uid],
        }),
{
}

}
