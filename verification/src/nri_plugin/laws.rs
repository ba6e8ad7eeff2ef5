//! Laws of what the plugin holds and reports.

use vstd::prelude::*;

use crate::nri_plugin::relations::{
    all_retried, container_met, container_retried, container_seen, container_step, container_stop,
    containers_retried, containers_seen, group_retried, group_step, group_stop, groups_retried,
    lists_failed, lists_partial, pod_gone, pod_seen, pods_seen, started_up, synchronized, uid_of,
    GroupStop, Settings, World,
};
use crate::nri_plugin::state::{StartView, StateView};
use crate::nri_plugin::types::{
    Container, ContainerSyncState, ContainerView, GroupView, PluginErrorView, PodEventView,
    PodSandbox,
};

verus! {

/// The containers that satisfy a condition.
pub open spec fn satisfying(
    containers: Map<Seq<char>, ContainerView>,
    p: spec_fn(ContainerView) -> bool,
) -> Set<Seq<char>> {
    containers.dom().filter(|id: Seq<char>| p(containers[id]))
}

/// A container that counts for a pod.
pub open spec fn counts_for(uid: Seq<char>) -> spec_fn(ContainerView) -> bool {
    |c: ContainerView| c.pod_uid == uid && c.state != ContainerSyncState::NoPod
}

/// A container that counts for a pod and is reconciled.
pub open spec fn reconciled_for(uid: Seq<char>) -> spec_fn(ContainerView) -> bool {
    |c: ContainerView| c.pod_uid == uid && c.state == ContainerSyncState::Reconciled
}

/// The counts of every pod are the numbers of its containers, and every container that was not
/// seen before its pod belongs to a pod that is held.
pub open spec fn counts_right(s: StateView) -> bool {
    &&& s.containers.dom().finite()
    &&& forall|uid: Seq<char>| #[trigger]
        s.pods.dom().contains(uid) ==> s.pods[uid].total == satisfying(
            s.containers,
            counts_for(uid),
        ).len() && s.pods[uid].reconciled == satisfying(s.containers, reconciled_for(uid)).len()
    &&& forall|id: Seq<char>| #[trigger]
        s.containers.dom().contains(id) && s.containers[id].state != ContainerSyncState::NoPod
            ==> s.pods.dom().contains(s.containers[id].pod_uid)
}

/// At the start nothing is counted.
pub proof fn law_fresh_counts()
    ensures
        counts_right(StateView::fresh()),
{
}

/// A pod never has more reconciled containers than containers.
pub proof fn law_reconciled_at_most_total(s: StateView, uid: Seq<char>)
    requires
        counts_right(s),
        s.pods.dom().contains(uid),
    ensures
        s.pods[uid].reconciled <= s.pods[uid].total <= s.containers.dom().len(),
{
    let all = satisfying(s.containers, counts_for(uid));
    let some = satisfying(s.containers, reconciled_for(uid));
    assert(some.subset_of(all));
    vstd::set_lib::lemma_len_subset(some, all);
    assert(all.subset_of(s.containers.dom()));
    vstd::set_lib::lemma_len_subset(all, s.containers.dom());
}

proof fn lemma_count_set(
    containers: Map<Seq<char>, ContainerView>,
    id: Seq<char>,
    c: ContainerView,
    p: spec_fn(ContainerView) -> bool,
)
    requires
        containers.dom().finite(),
    ensures
        ({
            let before = satisfying(containers, p).len() as int;
            let was = containers.dom().contains(id) && p(containers[id]);
            satisfying(containers.insert(id, c), p).len() == before - (if was {
                1int
            } else {
                0int
            }) + (if p(c) {
                1int
            } else {
                0int
            })
        }),
        containers.insert(id, c).dom().finite(),
{
    let a = satisfying(containers, p);
    let b = satisfying(containers.insert(id, c), p);
    assert(a.finite());
    if p(c) {
        assert(b =~= a.insert(id));
    } else {
        assert(b =~= a.remove(id));
    }
}

proof fn lemma_count_remove(
    containers: Map<Seq<char>, ContainerView>,
    id: Seq<char>,
    p: spec_fn(ContainerView) -> bool,
)
    requires
        containers.dom().finite(),
    ensures
        ({
            let before = satisfying(containers, p).len() as int;
            let was = containers.dom().contains(id) && p(containers[id]);
            satisfying(containers.remove(id), p).len() == before - (if was {
                1int
            } else {
                0int
            })
        }),
        containers.remove(id).dom().finite(),
{
    let a = satisfying(containers, p);
    let b = satisfying(containers.remove(id), p);
    assert(a.finite());
    assert(b =~= a.remove(id));
}

proof fn lemma_counts_after_set(s: StateView, id: Seq<char>, c: ContainerView)
    requires
        counts_right(s),
    ensures
        forall|uid: Seq<char>|
            #![trigger satisfying(s.containers.insert(id, c), counts_for(uid))]
            {
                let was = s.containers.dom().contains(id) && counts_for(uid)(s.containers[id]);
                satisfying(s.containers.insert(id, c), counts_for(uid)).len() == satisfying(
                    s.containers,
                    counts_for(uid),
                ).len() - (if was {
                    1int
                } else {
                    0int
                }) + (if counts_for(uid)(c) {
                    1int
                } else {
                    0int
                })
            },
        forall|uid: Seq<char>|
            #![trigger satisfying(s.containers.insert(id, c), reconciled_for(uid))]
            {
                let was = s.containers.dom().contains(id) && reconciled_for(uid)(s.containers[id]);
                satisfying(s.containers.insert(id, c), reconciled_for(uid)).len() == satisfying(
                    s.containers,
                    reconciled_for(uid),
                ).len() - (if was {
                    1int
                } else {
                    0int
                }) + (if reconciled_for(uid)(c) {
                    1int
                } else {
                    0int
                })
            },
        s.containers.insert(id, c).dom().finite(),
{
    assert forall|uid: Seq<char>|
        #![trigger satisfying(s.containers.insert(id, c), counts_for(uid))]
        {
            let was = s.containers.dom().contains(id) && counts_for(uid)(s.containers[id]);
            satisfying(s.containers.insert(id, c), counts_for(uid)).len() == satisfying(
                s.containers,
                counts_for(uid),
            ).len() - (if was {
                1int
            } else {
                0int
            }) + (if counts_for(uid)(c) {
                1int
            } else {
                0int
            })
        } by {
        lemma_count_set(s.containers, id, c, counts_for(uid));
    }
    assert forall|uid: Seq<char>|
        #![trigger satisfying(s.containers.insert(id, c), reconciled_for(uid))]
        {
            let was = s.containers.dom().contains(id) && reconciled_for(uid)(s.containers[id]);
            satisfying(s.containers.insert(id, c), reconciled_for(uid)).len() == satisfying(
                s.containers,
                reconciled_for(uid),
            ).len() - (if was {
                1int
            } else {
                0int
            }) + (if reconciled_for(uid)(c) {
                1int
            } else {
                0int
            })
        } by {
        lemma_count_set(s.containers, id, c, reconciled_for(uid));
    }
    lemma_count_set(s.containers, id, c, counts_for(c.pod_uid));
}

/// Seeing a pod keeps all counts right.
pub proof fn law_pod_seen_keeps_counts(set: Settings, uid: Seq<char>, w0: World, w1: World)
    requires
        counts_right(w0.state),
        pod_seen(set, uid, w0, w1),
    ensures
        counts_right(w1.state),
{
    let s = w0.state;
    if !s.pods.dom().contains(uid) {
        let all = satisfying(s.containers, counts_for(uid));
        let some = satisfying(s.containers, reconciled_for(uid));
        assert(all =~= Set::<Seq<char>>::empty()) by {
            assert forall|id: Seq<char>| !all.contains(id) by {
                if all.contains(id) {
                    assert(s.containers.dom().contains(id));
                }
            }
        }
        assert(some =~= Set::<Seq<char>>::empty()) by {
            assert forall|id: Seq<char>| !some.contains(id) by {
                if some.contains(id) {
                    assert(s.containers.dom().contains(id));
                }
            }
        }
    }
}

/// Holding a container that was not known, of a pod that is, keeps all counts right.
pub proof fn law_container_finished_keeps_counts(
    s: StateView,
    pod_uid: Seq<char>,
    id: Seq<char>,
    cgroup_path: Seq<char>,
    state: ContainerSyncState,
)
    requires
        counts_right(s),
        !s.containers.dom().contains(id),
        s.pods.dom().contains(pod_uid),
        state != ContainerSyncState::NoPod,
    ensures
        counts_right(s.container_finished(pod_uid, id, cgroup_path, state)),
{
    let c = ContainerView { pod_uid, cgroup_path, state };
    lemma_counts_after_set(s, id, c);
    let after = s.container_finished(pod_uid, id, cgroup_path, state);
    assert(after.containers == s.containers.insert(id, c));
    assert forall|uid: Seq<char>| #[trigger] after.pods.dom().contains(uid) implies after.pods[uid].total
        == satisfying(after.containers, counts_for(uid)).len() && after.pods[uid].reconciled
        == satisfying(after.containers, reconciled_for(uid)).len() by {
        assert(s.pods.dom().contains(uid));
    }
    assert forall|k: Seq<char>| #[trigger]
        after.containers.dom().contains(k) && after.containers[k].state
            != ContainerSyncState::NoPod implies after.pods.dom().contains(
        after.containers[k].pod_uid,
    ) by {
        if k != id {
            assert(s.containers.dom().contains(k));
        }
    }
}

/// Seeing a container keeps all counts right.
pub proof fn law_container_seen_keeps_counts(
    set: Settings,
    pod_uid: Seq<char>,
    container: Container,
    w0: World,
    w1: World,
)
    requires
        counts_right(w0.state),
        container_seen(set, pod_uid, container, w0, w1),
    ensures
        counts_right(w1.state),
{
    let s = w0.state;
    let id = container.id@;
    let (t, start) = s.container_started(
        pod_uid,
        id,
        container.cgroup_path@,
        container.cgroup_path_without_pod@,
    );
    match start {
        StartView::Settled => {
            if !s.containers.dom().contains(id) {
                if s.pods.dom().contains(pod_uid) {
                    law_container_finished_keeps_counts(
                        s,
                        pod_uid,
                        id,
                        container.cgroup_path@,
                        ContainerSyncState::Partial,
                    );
                } else {
                    let c = ContainerView {
                        pod_uid,
                        cgroup_path: container.cgroup_path_without_pod@,
                        state: ContainerSyncState::NoPod,
                    };
                    lemma_counts_after_set(s, id, c);
                    assert forall|uid: Seq<char>| #[trigger] t.pods.dom().contains(uid) implies
                        t.pods[uid].total == satisfying(t.containers, counts_for(uid)).len()
                        && t.pods[uid].reconciled == satisfying(
                        t.containers,
                        reconciled_for(uid),
                    ).len() by {
                        assert(s.pods.dom().contains(uid));
                    }
                    assert forall|k: Seq<char>| #[trigger]
                        t.containers.dom().contains(k) && t.containers[k].state
                            != ContainerSyncState::NoPod implies t.pods.dom().contains(
                        t.containers[k].pod_uid,
                    ) by {
                        assert(s.containers.dom().contains(k));
                    }
                }
            }
        },
        StartView::Reconcile { group_path, cgroup_path } => {
            law_container_finished_keeps_counts(
                s,
                pod_uid,
                id,
                cgroup_path,
                ContainerSyncState::Reconciled,
            );
            law_container_finished_keeps_counts(
                s,
                pod_uid,
                id,
                cgroup_path,
                ContainerSyncState::Partial,
            );
        },
    }
}

/// Trying a group again keeps all counts right.
pub proof fn law_group_retried_keeps_counts(
    set: Settings,
    uid: Seq<char>,
    w0: World,
    w1: World,
    r: Result<GroupView, PluginErrorView>,
)
    requires
        counts_right(w0.state),
        group_retried(set, uid, w0, w1, r),
    ensures
        counts_right(w1.state),
{
    let s = w0.state;
    let t = w1.state;
    assert forall|k: Seq<char>| #[trigger] t.pods.dom().contains(k) implies t.pods[k].total
        == satisfying(t.containers, counts_for(k)).len() && t.pods[k].reconciled == satisfying(
        t.containers,
        reconciled_for(k),
    ).len() by {
        assert(s.pods.dom().contains(k));
    }
}

/// Trying the tasks of a container again keeps all counts right.
pub proof fn law_container_retried_keeps_counts(
    set: Settings,
    id: Seq<char>,
    w0: World,
    w1: World,
    r: Result<ContainerSyncState, PluginErrorView>,
)
    requires
        counts_right(w0.state),
        container_retried(set, id, w0, w1, r),
    ensures
        counts_right(w1.state),
{
    let s = w0.state;
    let t = w1.state;
    if t != s {
        let c = ContainerView { state: ContainerSyncState::Reconciled, ..s.containers[id] };
        lemma_counts_after_set(s, id, c);
        assert(t.containers == s.containers.insert(id, c));
        assert forall|k: Seq<char>| #[trigger] t.pods.dom().contains(k) implies t.pods[k].total
            == satisfying(t.containers, counts_for(k)).len() && t.pods[k].reconciled == satisfying(
            t.containers,
            reconciled_for(k),
        ).len() by {
            assert(s.pods.dom().contains(k));
        }
        assert forall|k: Seq<char>| #[trigger]
            t.containers.dom().contains(k) && t.containers[k].state
                != ContainerSyncState::NoPod implies t.pods.dom().contains(
            t.containers[k].pod_uid,
        ) by {
            assert(s.containers.dom().contains(k));
        }
    }
}

/// Once a pod is gone, it and its containers are no longer held, and all counts stay right.
pub proof fn law_pod_gone(uid: Seq<char>, w0: World, w1: World)
    requires
        counts_right(w0.state),
        pod_gone(uid, w0, w1),
    ensures
        counts_right(w1.state),
        !w1.state.pods.dom().contains(uid),
        forall|id: Seq<char>| #[trigger]
            w1.state.containers.dom().contains(id) ==> w1.state.containers[id].pod_uid != uid,
{
    let s = w0.state;
    let t = w1.state;
    assert(t.containers.dom() =~= s.containers.dom().difference(s.containers_of(uid)));
    assert forall|k: Seq<char>| #[trigger] t.pods.dom().contains(k) implies t.pods[k].total
        == satisfying(t.containers, counts_for(k)).len() && t.pods[k].reconciled == satisfying(
        t.containers,
        reconciled_for(k),
    ).len() by {
        assert(s.pods.dom().contains(k));
        assert(satisfying(t.containers, counts_for(k)) =~= satisfying(s.containers, counts_for(k)));
        assert(satisfying(t.containers, reconciled_for(k)) =~= satisfying(
            s.containers,
            reconciled_for(k),
        ));
    }
    assert forall|k: Seq<char>| #[trigger]
        t.containers.dom().contains(k) && t.containers[k].state
            != ContainerSyncState::NoPod implies t.pods.dom().contains(t.containers[k].pod_uid) by {
        assert(s.containers.dom().contains(k));
    }
}

/// Removing a container, where the pod that is named is its own, keeps all counts right.
pub proof fn law_container_removed_keeps_counts(s: StateView, pod_uid: Seq<char>, id: Seq<char>)
    requires
        counts_right(s),
        s.containers.dom().contains(id) ==> s.containers[id].pod_uid == pod_uid,
    ensures
        counts_right(s.container_removed(pod_uid, id)),
        !s.container_removed(pod_uid, id).containers.dom().contains(id),
{
    let t = s.container_removed(pod_uid, id);
    lemma_count_remove(s.containers, id, counts_for(pod_uid));
    assert(t.containers == s.containers.remove(id));
    assert forall|k: Seq<char>| #[trigger] t.pods.dom().contains(k) implies t.pods[k].total
        == satisfying(t.containers, counts_for(k)).len() && t.pods[k].reconciled == satisfying(
        t.containers,
        reconciled_for(k),
    ).len() by {
        assert(s.pods.dom().contains(k));
        lemma_count_remove(s.containers, id, counts_for(k));
        lemma_count_remove(s.containers, id, reconciled_for(k));
    }
    assert forall|k: Seq<char>| #[trigger]
        t.containers.dom().contains(k) && t.containers[k].state
            != ContainerSyncState::NoPod implies t.pods.dom().contains(t.containers[k].pod_uid) by {
        assert(s.containers.dom().contains(k));
    }
}

/// Trying a group again reports something exactly where the pod's group changes, and then it
/// reports the pod as it is held.
pub proof fn law_group_retry_reports_changes(
    set: Settings,
    uid: Seq<char>,
    w0: World,
    w1: World,
    r: Result<GroupView, PluginErrorView>,
)
    requires
        group_retried(set, uid, w0, w1, r),
    ensures
        w1.state.pods == w0.state.pods ==> w1.state.events == w0.state.events,
        w1.state.pods != w0.state.pods ==> w1.state.pods.dom().contains(uid)
            && w1.state.events == w0.state.events.push(
            (PodEventView::AddOrUpdate { pod_uid: uid, pod: w1.state.pods[uid] }),
        ),
{
    if w0.state.is_failed(uid) {
        if let Ok(g) = r {
            assert(w1.state.pods[uid].group is Exists);
            assert(w0.state.pods[uid].group is Failed);
        }
    }
}

/// Trying a container again reports something exactly where the container becomes reconciled.
pub proof fn law_container_retry_reports_changes(
    set: Settings,
    id: Seq<char>,
    w0: World,
    w1: World,
    r: Result<ContainerSyncState, PluginErrorView>,
)
    requires
        container_retried(set, id, w0, w1, r),
    ensures
        w0.state.containers == w1.state.containers <==> w0.state.events == w1.state.events,
        w1.state.events != w0.state.events ==> w0.state.is_partial(id) && r == Ok::<
            ContainerSyncState,
            PluginErrorView,
        >(ContainerSyncState::Reconciled) && w1.state.containers[id].state
            == ContainerSyncState::Reconciled,
{
    if w0.state.is_partial(id) && w1.state != w0.state {
        assert(w1.state.containers[id].state == ContainerSyncState::Reconciled);
        assert(w1.state.events.len() == w0.state.events.len() + 1);
    }
}

proof fn lemma_pods_seen_keep_counts(set: Settings, pods: Seq<PodSandbox>, w0: World, w1: World)
    requires
        counts_right(w0.state),
        pods_seen(set, pods, w0, w1),
    ensures
        counts_right(w1.state),
    decreases pods.len(),
{
    if pods.len() > 0 {
        let w = choose|w: World|
            pods_seen(set, pods.drop_last(), w0, w) && #[trigger] pod_seen(
                set,
                pods.last().uid@,
                w,
                w1,
            );
        lemma_pods_seen_keep_counts(set, pods.drop_last(), w0, w);
        law_pod_seen_keeps_counts(set, pods.last().uid@, w, w1);
    }
}

proof fn lemma_containers_seen_keep_counts(
    set: Settings,
    pods: Seq<PodSandbox>,
    containers: Seq<Container>,
    w0: World,
    w1: World,
)
    requires
        counts_right(w0.state),
        containers_seen(set, pods, containers, w0, w1),
    ensures
        counts_right(w1.state),
    decreases containers.len(),
{
    if containers.len() > 0 {
        let c = containers.last();
        let w = choose|w: World|
            containers_seen(set, pods, containers.drop_last(), w0, w)
                && #[trigger] container_met(set, pods, c, w, w1);
        lemma_containers_seen_keep_counts(set, pods, containers.drop_last(), w0, w);
        if let Some(uid) = uid_of(pods, c.pod_sandbox_id@) {
            law_container_seen_keeps_counts(set, uid, c, w, w1);
        }
    }
}

/// Synchronizing keeps all counts right.
pub proof fn law_synchronized_keeps_counts(
    set: Settings,
    pods: Seq<PodSandbox>,
    containers: Seq<Container>,
    w0: World,
    w1: World,
)
    requires
        counts_right(w0.state),
        synchronized(set, pods, containers, w0, w1),
    ensures
        counts_right(w1.state),
{
    let (a, b) = choose|a: World, b: World|
        #![trigger started_up(set, w0, a), pods_seen(set, pods, a, b)]
        started_up(set, w0, a) && pods_seen(set, pods, a, b) && containers_seen(
            set,
            pods,
            containers,
            b,
            w1,
        );
    lemma_pods_seen_keep_counts(set, pods, a, b);
    lemma_containers_seen_keep_counts(set, pods, containers, b, w1);
}

proof fn lemma_groups_retried_keep_counts(
    set: Settings,
    uids: Seq<Seq<char>>,
    w0: World,
    w1: World,
    stop: GroupStop,
)
    requires
        counts_right(w0.state),
        groups_retried(set, uids, w0, w1, stop),
    ensures
        counts_right(w1.state),
    decreases uids.len(),
{
    if uids.len() > 0 {
        let (w, before) = choose|w: World, before: GroupStop|
            groups_retried(set, uids.drop_last(), w0, w, before) && #[trigger] group_step(
                set,
                uids.last(),
                w,
                w1,
                before,
                stop,
            );
        lemma_groups_retried_keep_counts(set, uids.drop_last(), w0, w, before);
        if before is No {
            let r = choose|r: Result<GroupView, PluginErrorView>| #[trigger]
                group_retried(set, uids.last(), w, w1, r) && stop == group_stop(r);
            law_group_retried_keeps_counts(set, uids.last(), w, w1, r);
        }
    }
}

proof fn lemma_containers_retried_keep_counts(
    set: Settings,
    ids: Seq<Seq<char>>,
    w0: World,
    w1: World,
    stop: Option<PluginErrorView>,
)
    requires
        counts_right(w0.state),
        containers_retried(set, ids, w0, w1, stop),
    ensures
        counts_right(w1.state),
    decreases ids.len(),
{
    if ids.len() > 0 {
        let (w, before) = choose|w: World, before: Option<PluginErrorView>|
            containers_retried(set, ids.drop_last(), w0, w, before)
                && #[trigger] container_step(set, ids.last(), w, w1, before, stop);
        lemma_containers_retried_keep_counts(set, ids.drop_last(), w0, w, before);
        if before is None {
            let r = choose|r: Result<ContainerSyncState, PluginErrorView>| #[trigger]
                container_retried(set, ids.last(), w, w1, r) && stop == container_stop(r);
            law_container_retried_keeps_counts(set, ids.last(), w, w1, r);
        }
    }
}

/// Trying everything again keeps all counts right.
pub proof fn law_all_retried_keeps_counts(
    set: Settings,
    w0: World,
    w1: World,
    r: Result<(), PluginErrorView>,
)
    requires
        counts_right(w0.state),
        all_retried(set, w0, w1, r),
    ensures
        counts_right(w1.state),
{
    let (uids, ids, w, stop) = choose|
        uids: Seq<Seq<char>>,
        ids: Seq<Seq<char>>,
        w: World,
        stop: GroupStop,
    |
        #![trigger groups_retried(set, uids, w0, w, stop), lists_partial(w0.state, ids)]
        {
            &&& lists_failed(w0.state, uids)
            &&& lists_partial(w0.state, ids)
            &&& groups_retried(set, uids, w0, w, stop)
            &&& match stop {
                GroupStop::Failed(e) => w1 == w && r == Err::<(), PluginErrorView>(e),
                _ => exists|failure: Option<PluginErrorView>| #[trigger]
                    containers_retried(set, ids, w, w1, failure) && r == match failure {
                        None => Ok::<(), PluginErrorView>(()),
                        Some(e) => Err(e),
                    },
            }
        };
    lemma_groups_retried_keep_counts(set, uids, w0, w, stop);
    if stop !is Failed {
        let failure = choose|failure: Option<PluginErrorView>| #[trigger]
            containers_retried(set, ids, w, w1, failure) && r == match failure {
                None => Ok::<(), PluginErrorView>(()),
                Some(e) => Err(e),
            };
        lemma_containers_retried_keep_counts(set, ids, w, w1, failure);
    }
}

/// Starting up reports nothing: mounting and the cleanup of stale groups touch neither the pods,
/// the containers nor the events.
pub proof fn law_start_up_reports_nothing(set: Settings, w0: World, w1: World)
    requires
        started_up(set, w0, w1),
    ensures
        w1.state == w0.state,
{
}

}
