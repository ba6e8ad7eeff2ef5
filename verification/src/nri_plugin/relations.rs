//! What the plugin's operations do to what it holds and to the filesystem.

use vstd::prelude::*;

use crate::nri_plugin::state::{RetryView, StartView, StateView};
use crate::nri_plugin::types::{
    Container, ContainerSyncState, GroupView, PluginErrorView, PodSandbox,
};
use crate::resctrl::error::ErrorView;
use crate::resctrl::provider::{continues, since, FsEvent};
use crate::resctrl::runs::{
    cleanup_run, create_run, delete_run, ensure_run, reconcile_run, tasks_of,
};
use crate::resctrl::source::{all_about, answers_in, PidQuery};

verus! {

/// What the plugin holds, the calls that were made of the filesystem, and the times that the source
/// of tasks was asked.
#[verifier::ext_equal]
pub ghost struct World {
    pub state: StateView,
    pub history: Seq<FsEvent>,
    pub asked: Seq<PidQuery>,
}

/// What the plugin was set up with.
pub ghost struct Settings {
    pub root: Seq<char>,
    pub group_prefix: Seq<char>,
    pub passes: nat,
    pub cleanup_on_start: bool,
    pub auto_mount: bool,
}

/// A pod was seen: one that is known is reported again, and for another one a group is tried.
pub open spec fn pod_seen(set: Settings, uid: Seq<char>, w0: World, w1: World) -> bool {
    if w0.state.pods.dom().contains(uid) {
        w1 == World { state: w0.state.announced(uid), ..w0 }
    } else {
        w1.asked == w0.asked && continues(w0.history, w1.history) && match create_run(
            set.root,
            set.group_prefix,
            uid,
            since(w0.history, w1.history),
        ) {
            Some((answer, rest)) => rest.len() == 0 && w1.state == w0.state.pod_added(uid, answer),
            None => false,
        }
    }
}

/// Pods were seen one after the other.
pub open spec fn pods_seen(set: Settings, pods: Seq<PodSandbox>, w0: World, w1: World) -> bool
    decreases pods.len(),
{
    if pods.len() == 0 {
        w1 == w0
    } else {
        exists|w: World|
            pods_seen(set, pods.drop_last(), w0, w) && #[trigger] pod_seen(
                set,
                pods.last().uid@,
                w,
                w1,
            )
    }
}

/// A pod is gone; its group is deleted where it had one.
pub open spec fn pod_gone(uid: Seq<char>, w0: World, w1: World) -> bool {
    &&& w1.state == w0.state.pod_removed(uid)
    &&& w1.asked == w0.asked
    &&& continues(w0.history, w1.history)
    &&& match w0.state.group_path_of(uid) {
        Some(path) => match delete_run(path, since(w0.history, w1.history)) {
            Some((_, rest)) => rest.len() == 0,
            None => false,
        },
        None => w1.history == w0.history,
    }
}

/// The tasks of a control group were brought into a resctrl group, with the given outcome: the
/// source was asked about that control group alone, once in each pass, and the calls of the
/// filesystem followed from its answers.
pub open spec fn group_reconciled(
    group_path: Seq<char>,
    cgroup_path: Seq<char>,
    passes: nat,
    a0: Seq<PidQuery>,
    a1: Seq<PidQuery>,
    h0: Seq<FsEvent>,
    h1: Seq<FsEvent>,
    outcome: Result<(nat, nat), ErrorView>,
) -> bool {
    &&& continues(a0, a1)
    &&& all_about(since(a0, a1), cgroup_path)
    &&& continues(h0, h1)
    &&& reconcile_run(
        tasks_of(group_path),
        answers_in(since(a0, a1)),
        since(h0, h1),
        passes,
        0,
        Seq::empty(),
    ) == Some(outcome)
}

/// The state of a container whose tasks were tried: reconciled where none is missing.
pub open spec fn sync_state(outcome: Result<(nat, nat), ErrorView>) -> ContainerSyncState {
    match outcome {
        Ok((_, missing)) if missing == 0 => ContainerSyncState::Reconciled,
        _ => ContainerSyncState::Partial,
    }
}

/// The tasks of a container were brought into its pod's group with some outcome, and the container
/// is held.
pub open spec fn container_reconciled(
    set: Settings,
    pod_uid: Seq<char>,
    id: Seq<char>,
    group_path: Seq<char>,
    cgroup_path: Seq<char>,
    w0: World,
    w1: World,
) -> bool {
    exists|outcome: Result<(nat, nat), ErrorView>| #[trigger]
        group_reconciled(
            group_path,
            cgroup_path,
            set.passes,
            w0.asked,
            w1.asked,
            w0.history,
            w1.history,
            outcome,
        ) && w1.state == w0.state.container_finished(
            pod_uid,
            id,
            cgroup_path,
            sync_state(outcome),
        )
}

/// A container of a pod was seen.
pub open spec fn container_seen(
    set: Settings,
    pod_uid: Seq<char>,
    container: Container,
    w0: World,
    w1: World,
) -> bool {
    let (s, start) = w0.state.container_started(
        pod_uid,
        container.id@,
        container.cgroup_path@,
        container.cgroup_path_without_pod@,
    );
    match start {
        StartView::Settled => w1 == World { state: s, ..w0 },
        StartView::Reconcile { group_path, cgroup_path } => container_reconciled(
            set,
            pod_uid,
            container.id@,
            group_path,
            cgroup_path,
            World { state: s, ..w0 },
            w1,
        ),
    }
}

/// The UID of the last of the pods with the given ID.
pub open spec fn uid_of(pods: Seq<PodSandbox>, id: Seq<char>) -> Option<Seq<char>>
    decreases pods.len(),
{
    if pods.len() == 0 {
        None
    } else if pods.last().id@ == id {
        Some(pods.last().uid@)
    } else {
        uid_of(pods.drop_last(), id)
    }
}

/// A container was seen, or passed over where it belongs to none of the pods.
pub open spec fn container_met(
    set: Settings,
    pods: Seq<PodSandbox>,
    container: Container,
    w0: World,
    w1: World,
) -> bool {
    match uid_of(pods, container.pod_sandbox_id@) {
        Some(uid) => container_seen(set, uid, container, w0, w1),
        None => w1 == w0,
    }
}

/// Containers were seen one after the other; those of none of the pods are passed over.
pub open spec fn containers_seen(
    set: Settings,
    pods: Seq<PodSandbox>,
    containers: Seq<Container>,
    w0: World,
    w1: World,
) -> bool
    decreases containers.len(),
{
    if containers.len() == 0 {
        w1 == w0
    } else {
        exists|w: World|
            containers_seen(set, pods, containers.drop_last(), w0, w)
                && #[trigger] container_met(set, pods, containers.last(), w, w1)
    }
}

/// Resctrl was mounted as far as asked, and stale groups were removed where that is asked and it
/// is mounted. What is held stays as it is.
pub open spec fn started_up(set: Settings, w0: World, w1: World) -> bool {
    exists|h: Seq<FsEvent>|
        {
            &&& #[trigger] continues(w0.history, h)
            &&& continues(h, w1.history)
            &&& w1.state == w0.state
            &&& w1.asked == w0.asked
            &&& match ensure_run(set.auto_mount, set.root, since(w0.history, h)) {
                None => false,
                Some((answer, rest)) => rest.len() == 0 && if answer is Ok
                    && set.cleanup_on_start {
                    match cleanup_run(set.root, set.group_prefix, since(h, w1.history)) {
                        Some((_, rest2)) => rest2.len() == 0,
                        None => false,
                    }
                } else {
                    w1.history == h
                },
            }
        }
}

/// The plugin was synchronized: it started up, saw all pods, and then all containers.
pub open spec fn synchronized(
    set: Settings,
    pods: Seq<PodSandbox>,
    containers: Seq<Container>,
    w0: World,
    w1: World,
) -> bool {
    exists|a: World, b: World|
        #![trigger started_up(set, w0, a), pods_seen(set, pods, a, b)]
        started_up(set, w0, a) && pods_seen(set, pods, a, b) && containers_seen(
            set,
            pods,
            containers,
            b,
            w1,
        )
}

/// A group that was created for a pod was taken in; where the pod is gone it is deleted.
pub open spec fn group_settled(
    uid: Seq<char>,
    path: Seq<char>,
    w0: World,
    w1: World,
    r: Result<GroupView, PluginErrorView>,
) -> bool {
    let (s, group) = w0.state.group_created(uid, path);
    match group {
        Some(g) => w1 == (World { state: s, ..w0 }) && r == Ok::<
            GroupView,
            PluginErrorView,
        >(g),
        None => {
            &&& continues(w0.history, w1.history)
            &&& w1.state == s
            &&& w1.asked == w0.asked
            &&& match delete_run(path, since(w0.history, w1.history)) {
                Some((_, rest)) => rest.len() == 0,
                None => false,
            }
            &&& r == Err::<GroupView, PluginErrorView>(PluginErrorView::PodNotFound)
        },
    }
}

/// The group of a pod that has none was tried again.
pub open spec fn group_retried(
    set: Settings,
    uid: Seq<char>,
    w0: World,
    w1: World,
    r: Result<GroupView, PluginErrorView>,
) -> bool {
    if !w0.state.pods.dom().contains(uid) {
        w1 == w0 && r == Err::<GroupView, PluginErrorView>(PluginErrorView::PodNotFound)
    } else {
        match w0.state.pods[uid].group {
            GroupView::Exists(path) => w1 == w0 && r == Ok::<GroupView, PluginErrorView>(
                GroupView::Exists(path),
            ),
            GroupView::Failed => w1.asked == w0.asked && continues(
                w0.history,
                w1.history,
            ) && match create_run(
                set.root,
                set.group_prefix,
                uid,
                since(w0.history, w1.history),
            ) {
                Some((Ok(path), rest)) => rest.len() == 0 && w1.state == w0.state.group_created(
                    uid,
                    path,
                ).0 && r == Ok::<GroupView, PluginErrorView>(GroupView::Exists(path)),
                Some((Err(e), rest)) => rest.len() == 0 && w1.state == w0.state && r == Err::<
                    GroupView,
                    PluginErrorView,
                >(PluginErrorView::Resctrl(e)),
                None => false,
            },
        }
    }
}

/// What a retry of a container comes to.
pub open spec fn retry_result(v: RetryView) -> Result<ContainerSyncState, PluginErrorView> {
    match v {
        RetryView::ContainerNotFound => Err(PluginErrorView::ContainerNotFound),
        RetryView::PodNotFound => Err(PluginErrorView::PodNotFound),
        RetryView::Settled(s) => Ok(s),
        RetryView::Reconcile { .. } => Ok(ContainerSyncState::Partial),
    }
}

/// The tasks of a container were brought into its pod's group again with some outcome. An error
/// changes nothing that is held.
pub open spec fn reconcile_retried(
    set: Settings,
    pod_uid: Seq<char>,
    id: Seq<char>,
    group_path: Seq<char>,
    cgroup_path: Seq<char>,
    w0: World,
    w1: World,
    r: Result<ContainerSyncState, PluginErrorView>,
) -> bool {
    exists|outcome: Result<(nat, nat), ErrorView>| #[trigger]
        group_reconciled(
            group_path,
            cgroup_path,
            set.passes,
            w0.asked,
            w1.asked,
            w0.history,
            w1.history,
            outcome,
        ) && match outcome {
            Err(e) => w1.state == w0.state && r == Err::<ContainerSyncState, PluginErrorView>(
                PluginErrorView::Resctrl(e),
            ),
            Ok(_) => {
                let (s, v) = w0.state.retry_finished(id, pod_uid, sync_state(outcome));
                w1.state == s && r == retry_result(v)
            },
        }
}

/// The tasks of a container were tried again.
pub open spec fn container_retried(
    set: Settings,
    id: Seq<char>,
    w0: World,
    w1: World,
    r: Result<ContainerSyncState, PluginErrorView>,
) -> bool {
    match w0.state.retry_of(id) {
        RetryView::Reconcile { group_path, cgroup_path, pod_uid } => reconcile_retried(
            set,
            pod_uid,
            id,
            group_path,
            cgroup_path,
            w0,
            w1,
            r,
        ),
        other => w1 == w0 && r == retry_result(other),
    }
}

/// Why the retries of groups ended before the last: the kernel has no more groups to give, or
/// another error.
pub ghost enum GroupStop {
    No,
    Capacity,
    Failed(PluginErrorView),
}

/// What a retry of a group means for those that follow. A pod that is gone is passed over.
pub open spec fn group_stop(r: Result<GroupView, PluginErrorView>) -> GroupStop {
    match r {
        Ok(_) => GroupStop::No,
        Err(PluginErrorView::Resctrl(ErrorView::Capacity { .. })) => GroupStop::Capacity,
        Err(PluginErrorView::PodNotFound) => GroupStop::No,
        Err(e) => GroupStop::Failed(e),
    }
}

/// The group of a pod was tried again, unless the retries have ended.
pub open spec fn group_step(
    set: Settings,
    uid: Seq<char>,
    w0: World,
    w1: World,
    before: GroupStop,
    stop: GroupStop,
) -> bool {
    if before is No {
        exists|r: Result<GroupView, PluginErrorView>| #[trigger]
            group_retried(set, uid, w0, w1, r) && stop == group_stop(r)
    } else {
        w1 == w0 && stop == before
    }
}

/// The groups of pods were tried again, one after the other up to one that ends it.
pub open spec fn groups_retried(
    set: Settings,
    uids: Seq<Seq<char>>,
    w0: World,
    w1: World,
    stop: GroupStop,
) -> bool
    decreases uids.len(),
{
    if uids.len() == 0 {
        w1 == w0 && stop is No
    } else {
        exists|w: World, before: GroupStop|
            groups_retried(set, uids.drop_last(), w0, w, before) && #[trigger] group_step(
                set,
                uids.last(),
                w,
                w1,
                before,
                stop,
            )
    }
}

/// The error that ends the retries of containers. Those that are gone are passed over.
pub open spec fn container_stop(r: Result<ContainerSyncState, PluginErrorView>) -> Option<
    PluginErrorView,
> {
    match r {
        Ok(_) => None,
        Err(PluginErrorView::ContainerNotFound) => None,
        Err(PluginErrorView::PodNotFound) => None,
        Err(e) => Some(e),
    }
}

/// The tasks of a container were tried again, unless the retries have ended.
pub open spec fn container_step(
    set: Settings,
    id: Seq<char>,
    w0: World,
    w1: World,
    before: Option<PluginErrorView>,
    stop: Option<PluginErrorView>,
) -> bool {
    if before is None {
        exists|r: Result<ContainerSyncState, PluginErrorView>| #[trigger]
            container_retried(set, id, w0, w1, r) && stop == container_stop(r)
    } else {
        w1 == w0 && stop == before
    }
}

/// The tasks of containers were tried again, one after the other up to an error.
pub open spec fn containers_retried(
    set: Settings,
    ids: Seq<Seq<char>>,
    w0: World,
    w1: World,
    stop: Option<PluginErrorView>,
) -> bool
    decreases ids.len(),
{
    if ids.len() == 0 {
        w1 == w0 && stop is None
    } else {
        exists|w: World, before: Option<PluginErrorView>|
            containers_retried(set, ids.drop_last(), w0, w, before)
                && #[trigger] container_step(set, ids.last(), w, w1, before, stop)
    }
}

/// A list holds each pod whose group could not be created once.
pub open spec fn lists_failed(state: StateView, uids: Seq<Seq<char>>) -> bool {
    &&& uids.no_duplicates()
    &&& forall|uid: Seq<char>| #[trigger] uids.contains(uid) <==> state.is_failed(uid)
}

/// A list holds each container whose tasks are not all in its pod's group once.
pub open spec fn lists_partial(state: StateView, ids: Seq<Seq<char>>) -> bool {
    &&& ids.no_duplicates()
    &&& forall|id: Seq<char>| #[trigger] ids.contains(id) <==> state.is_partial(id)
}

/// All pods without a group and then all containers with missing tasks were tried again, as they
/// were at the start, in some order.
pub open spec fn all_retried(
    set: Settings,
    w0: World,
    w1: World,
    r: Result<(), PluginErrorView>,
) -> bool {
    exists|uids: Seq<Seq<char>>, ids: Seq<Seq<char>>, w: World, stop: GroupStop|
        #![trigger groups_retried(set, uids, w0, w, stop), lists_partial(w0.state, ids)]
        {
            &&& lists_failed(w0.state, uids)
            &&& lists_partial(w0.state, ids)
            &&& groups_retried(set, uids, w0, w, stop)
            &&& match stop {
                GroupStop::Failed(e) => w1 == w && r == Err::<(), PluginErrorView>(e),
                _ => exists|failure: Option<PluginErrorView>| #[trigger]
                    containers_retried(set, ids, w, w1, failure) && r == match failure {
                        None => Ok::<(), PluginErrorView>(()),
                        Some(e) => Err(e),
                    },
            }
        }
}

}
