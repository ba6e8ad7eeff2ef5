//! The plugin: it takes in what the runtime reports and keeps the groups of pods.

use vstd::prelude::*;

use crate::nri_plugin::pid_source::{AtPath, CgroupPidSource};
use crate::nri_plugin::relations::{
    all_retried, container_met, container_reconciled, container_retried,
    container_seen, container_step, container_stop, containers_retried, containers_seen,
    group_reconciled, group_retried, group_settled, group_step, group_stop, groups_retried,
    lists_failed, lists_partial, pod_gone, pod_seen, pods_seen, reconcile_retried, started_up,
    sync_state, synchronized, uid_of, GroupStop, Settings, World,
};
use crate::nri_plugin::state::{ContainerRetry, ContainerStart, PluginState, StateView};
use crate::nri_plugin::types::{
    event_views, Container, ContainerSyncState, GroupView, LifecycleEvent, PluginError,
    PluginErrorView, PodResctrlEvent, PodSandbox, ResctrlGroupState, ResctrlPluginConfig,
};
use crate::resctrl::error::Error;
use crate::resctrl::handle::{
    counts_answer, AssignmentResult, Resctrl,
};
use crate::resctrl::provider::{continues, lemma_no_call, FsProvider};
use crate::resctrl::source::PidSource;
use crate::text::{str_eq, views};

verus! {

/// What an answer with a group's state says.
pub open spec fn group_answer(r: Result<ResctrlGroupState, PluginError>) -> Result<
    GroupView,
    PluginErrorView,
> {
    match r {
        Ok(g) => Ok(g@),
        Err(e) => Err(e@),
    }
}

/// What an answer with a container's state says.
pub open spec fn sync_answer(r: Result<ContainerSyncState, PluginError>) -> Result<
    ContainerSyncState,
    PluginErrorView,
> {
    match r {
        Ok(s) => Ok(s),
        Err(e) => Err(e@),
    }
}

/// What an answer without content says.
pub open spec fn plain_answer(r: Result<(), PluginError>) -> Result<(), PluginErrorView> {
    match r {
        Ok(()) => Ok(()),
        Err(e) => Err(e@),
    }
}

/// Resctrl plugin.
pub struct ResctrlPlugin<P: FsProvider, S: CgroupPidSource> {
    cfg: ResctrlPluginConfig,
    resctrl: Resctrl<P>,
    state: PluginState,
    dropped: usize,
    pid_source: AtPath<S>,
}

impl<P: FsProvider, S: CgroupPidSource> ResctrlPlugin<P, S> {
    /// No pod and no container is held twice.
    pub closed spec fn wf(&self) -> bool {
        self.state.wf()
    }

    /// What the plugin holds, the calls that were made of the filesystem, and the times that the
    /// source of tasks was asked.
    pub closed spec fn world(&self) -> World {
        World {
            state: self.state@,
            history: self.resctrl.history(),
            asked: self.pid_source.asked(),
        }
    }

    /// What the plugin was set up with.
    pub closed spec fn settings(&self) -> Settings {
        Settings {
            root: self.resctrl.config().root,
            group_prefix: self.resctrl.config().group_prefix,
            passes: self.cfg.max_reconcile_passes as nat,
            cleanup_on_start: self.cfg.cleanup_on_start,
            auto_mount: self.cfg.auto_mount,
        }
    }

    /// How many events were dropped.
    pub closed spec fn drops(&self) -> usize {
        self.dropped
    }

    /// What no operation on pods and containers changes.
    pub open spec fn same_setup(&self, other: &Self) -> bool {
        self.settings() == other.settings() && self.drops() == other.drops()
    }

    /// A plugin that works through the given handle and source.
    pub fn with_pid_source(cfg: ResctrlPluginConfig, resctrl: Resctrl<P>, pid_source: S) -> (r: Self)
        ensures
            r.wf(),
            r.world() == (World {
                state: StateView::fresh(),
                history: resctrl.history(),
                asked: pid_source.asked(),
            }),
            r.settings() == (Settings {
                root: resctrl.config().root,
                group_prefix: resctrl.config().group_prefix,
                passes: cfg.max_reconcile_passes as nat,
                cleanup_on_start: cfg.cleanup_on_start,
                auto_mount: cfg.auto_mount,
            }),
            r.drops() == 0,
    {
        ResctrlPlugin {
            cfg,
            resctrl,
            state: PluginState::new(),
            dropped: 0,
            pid_source: AtPath { source: pid_source, path: String::new() },
        }
    }

    /// Number of events dropped due to a full channel.
    pub fn dropped_events(&self) -> (n: usize)
        ensures
            n == self.drops(),
    {
        self.dropped
    }

    /// Takes in that an event could not be delivered.
    pub fn event_dropped(&mut self)
        requires
            old(self).wf(),
        ensures
            final(self).wf(),
            final(self).world() == old(self).world(),
            final(self).settings() == old(self).settings(),
            final(self).drops() == if old(self).drops() == usize::MAX {
                0
            } else {
                old(self).drops() + 1
            },
    {
        self.dropped = self.dropped.wrapping_add(1);
    }

    /// Takes the events that were not taken yet, in the order in which they came up.
    pub fn take_events(&mut self) -> (r: Vec<PodResctrlEvent>)
        requires
            old(self).wf(),
        ensures
            final(self).wf(),
            final(self).same_setup(old(self)),
            event_views(r@) == old(self).world().state.events,
            final(self).world() == (World {
                state: StateView { events: Seq::empty(), ..old(self).world().state },
                ..old(self).world()
            }),
    {
        self.state.take_events()
    }

    /// Whether that many containers more can be counted for every pod.
    pub fn has_room_for(&self, n: usize) -> (r: bool)
        requires
            self.wf(),
        ensures
            r == self.world().state.has_room(n as nat),
    {
        self.state.has_room_for(n)
    }

    /// How many containers have missing tasks.
    pub fn partial_count(&self) -> (n: usize)
        requires
            self.wf(),
        ensures
            n == self.world().state.partials().len(),
    {
        let ids = self.state.partial_containers();
        proof {
            self.state.lemma_finite();
            let partials = self.world().state.partials();
            assert forall|id: Seq<char>|
                views(ids@).to_set().contains(id) <==> partials.contains(id) by {
                assert(views(ids@).contains(id) <==> self.world().state.is_partial(id));
            }
            assert(views(ids@).to_set() =~= partials);
            views(ids@).unique_seq_to_set();
        }
        ids.len()
    }

    /// Takes in a pod: creates its group where the pod is not known, and reports its state.
    pub fn handle_new_pod(&mut self, pod: &PodSandbox)
        requires
            old(self).wf(),
        ensures
            final(self).wf(),
            final(self).same_setup(old(self)),
            pod_seen(old(self).settings(), pod.uid@, old(self).world(), final(self).world()),
    {
        if self.state.has_pod(pod.uid.as_str()) {
            self.state.announce(pod.uid.as_str());
        } else {
            let created = self.resctrl.create_group(pod.uid.as_str());
            self.state.add_pod(pod.uid.as_str(), created);
        }
    }

    /// Brings the tasks of a control group into a resctrl group.
    fn reconcile(&mut self, group_path: &str, cgroup_path: &str) -> (r: Result<
        AssignmentResult,
        Error,
    >)
        requires
            old(self).wf(),
        ensures
            final(self).wf(),
            final(self).same_setup(old(self)),
            final(self).world().state == old(self).world().state,
            group_reconciled(
                group_path@,
                cgroup_path@,
                old(self).settings().passes,
                old(self).world().asked,
                final(self).world().asked,
                old(self).world().history,
                final(self).world().history,
                counts_answer(r),
            ),
    {
        self.pid_source.path = cgroup_path.to_string();
        self.resctrl.reconcile_group(
            group_path,
            &mut self.pid_source,
            self.cfg.max_reconcile_passes,
        )
    }

    /// Takes in a container of a pod.
    pub fn handle_new_container(&mut self, pod: &PodSandbox, container: &Container)
        requires
            old(self).wf(),
            old(self).world().state.has_room(1),
        ensures
            final(self).wf(),
            final(self).same_setup(old(self)),
            container_seen(
                old(self).settings(),
                pod.uid@,
                *container,
                old(self).world(),
                final(self).world(),
            ),
    {
        match self.state.start_container(pod.uid.as_str(), container) {
            ContainerStart::Settled => {},
            ContainerStart::Reconcile { group_path, cgroup_path } => {
                let ghost group = group_path@;
                let ghost cgroup = cgroup_path@;
                let outcome = self.reconcile(group_path.as_str(), cgroup_path.as_str());
                let state = match outcome {
                    Ok(ref counts) if counts.missing == 0 => ContainerSyncState::Reconciled,
                    _ => ContainerSyncState::Partial,
                };
                assert(state == sync_state(counts_answer(outcome)));
                self.state.finish_container(
                    pod.uid.as_str(),
                    container.id.as_str(),
                    cgroup_path,
                    state,
                );
                assert(group_reconciled(
                    group,
                    cgroup,
                    old(self).settings().passes,
                    old(self).world().asked,
                    self.world().asked,
                    old(self).world().history,
                    self.world().history,
                    counts_answer(outcome),
                ));
                assert(container_reconciled(
                    old(self).settings(),
                    pod.uid@,
                    container.id@,
                    group,
                    cgroup,
                    old(self).world(),
                    self.world(),
                ));
            },
        }
    }

    /// Takes in a group that was created for a pod. Where the pod is gone, the group is deleted.
    pub fn settle_group(&mut self, pod_uid: &str, path: &str) -> (r: Result<
        ResctrlGroupState,
        PluginError,
    >)
        requires
            old(self).wf(),
        ensures
            final(self).wf(),
            final(self).same_setup(old(self)),
            group_settled(pod_uid@, path@, old(self).world(), final(self).world(), group_answer(r)),
    {
        match self.state.finish_group(pod_uid, path) {
            Some(group) => Ok(group),
            None => {
                let _ = self.resctrl.delete_group(path);
                Err(PluginError::PodNotFound)
            },
        }
    }

    /// Tries to create the group of a pod that has none. Reports the pod's state only where it
    /// changes.
    pub fn retry_group_creation(&mut self, pod_uid: &str) -> (r: Result<
        ResctrlGroupState,
        PluginError,
    >)
        requires
            old(self).wf(),
        ensures
            final(self).wf(),
            final(self).same_setup(old(self)),
            group_retried(
                old(self).settings(),
                pod_uid@,
                old(self).world(),
                final(self).world(),
                group_answer(r),
            ),
    {
        match self.state.group_state(pod_uid) {
            None => {
                return Err(PluginError::PodNotFound);
            },
            Some(ResctrlGroupState::Exists(path)) => {
                return Ok(ResctrlGroupState::Exists(path));
            },
            Some(ResctrlGroupState::Failed) => {},
        }
        match self.resctrl.create_group(pod_uid) {
            Ok(path) => self.settle_group(pod_uid, path.as_str()),
            Err(e) => Err(PluginError::Resctrl(e)),
        }
    }

    /// Tries the tasks of a container again where its pod has a group. Reports the pod's state
    /// only where its count changes.
    pub fn retry_container_reconcile(&mut self, container_id: &str) -> (r: Result<
        ContainerSyncState,
        PluginError,
    >)
        requires
            old(self).wf(),
            old(self).world().state.has_room(1),
        ensures
            final(self).wf(),
            final(self).same_setup(old(self)),
            container_retried(
                old(self).settings(),
                container_id@,
                old(self).world(),
                final(self).world(),
                sync_answer(r),
            ),
    {
        let (group_path, cgroup_path, pod_uid) = match self.state.start_retry(container_id) {
            ContainerRetry::ContainerNotFound => {
                return Err(PluginError::ContainerNotFound);
            },
            ContainerRetry::PodNotFound => {
                return Err(PluginError::PodNotFound);
            },
            ContainerRetry::Settled(s) => {
                return Ok(s);
            },
            ContainerRetry::Reconcile { group_path, cgroup_path, pod_uid } => (
                group_path,
                cgroup_path,
                pod_uid,
            ),
        };
        let outcome = self.reconcile(group_path.as_str(), cgroup_path.as_str());
        let ghost answer = counts_answer(outcome);
        assert(group_reconciled(
            group_path@,
            cgroup_path@,
            old(self).settings().passes,
            old(self).world().asked,
            self.world().asked,
            old(self).world().history,
            self.world().history,
            answer,
        ));
        let state = match outcome {
            Ok(counts) => if counts.missing == 0 {
                ContainerSyncState::Reconciled
            } else {
                ContainerSyncState::Partial
            },
            Err(e) => {
                let r = Err(PluginError::Resctrl(e));
                assert(reconcile_retried(
                    old(self).settings(),
                    pod_uid@,
                    container_id@,
                    group_path@,
                    cgroup_path@,
                    old(self).world(),
                    self.world(),
                    sync_answer(r),
                ));
                return r;
            },
        };
        assert(state == sync_state(answer));
        let r = match self.state.finish_retry(container_id, pod_uid.as_str(), state) {
            ContainerRetry::ContainerNotFound => Err(PluginError::ContainerNotFound),
            ContainerRetry::PodNotFound => Err(PluginError::PodNotFound),
            ContainerRetry::Settled(s) => Ok(s),
            ContainerRetry::Reconcile { .. } => Ok(ContainerSyncState::Partial),
        };
        assert(group_reconciled(
            group_path@,
            cgroup_path@,
            old(self).settings().passes,
            old(self).world().asked,
            self.world().asked,
            old(self).world().history,
            self.world().history,
            answer,
        ));
        assert(reconcile_retried(
            old(self).settings(),
            pod_uid@,
            container_id@,
            group_path@,
            cgroup_path@,
            old(self).world(),
            self.world(),
            sync_answer(r),
        ));
        r
    }

    /// Tries the groups of pods again, one after the other up to one that ends it.
    fn retry_groups(&mut self, uids: &Vec<String>) -> (r: Result<(), PluginError>)
        requires
            old(self).wf(),
        ensures
            final(self).wf(),
            final(self).same_setup(old(self)),
            final(self).world().state.containers == old(self).world().state.containers,
            forall|n: nat|
                old(self).world().state.has_room(n) ==> #[trigger] final(self).world().state.has_room(n),
            exists|stop: GroupStop| #[trigger]
                groups_retried(
                    old(self).settings(),
                    views(uids@),
                    old(self).world(),
                    final(self).world(),
                    stop,
                ) && match stop {
                    GroupStop::Failed(e) => r is Err && r->Err_0@ == e,
                    _ => r is Ok,
                },
    {
        let ghost w0 = self.world();
        let ghost set = self.settings();
        let ghost names = views(uids@);
        let mut i: usize = 0;
        assert(names.take(0) =~= Seq::<Seq<char>>::empty());
        while i < uids.len()
            invariant
                i <= uids@.len(),
                names == views(uids@),
                self.wf(),
                self.same_setup(old(self)),
                set == old(self).settings(),
                w0 == old(self).world(),
                self.world().state.containers == w0.state.containers,
                forall|n: nat| w0.state.has_room(n) ==> #[trigger] self.world().state.has_room(n),
                groups_retried(set, names.take(i as int), w0, self.world(), GroupStop::No),
            decreases uids.len() - i,
        {
            let ghost w = self.world();
            let r = self.retry_group_creation(uids[i].as_str());
            let ghost answer = group_answer(r);
            let ghost stop = group_stop(answer);
            proof {
                let now = names.take(i as int + 1);
                assert(now.drop_last() =~= names.take(i as int));
                assert(now.last() == uids@[i as int]@);
                assert(group_retried(set, now.last(), w, self.world(), answer));
                assert(group_step(set, now.last(), w, self.world(), GroupStop::No, stop));
                assert(groups_retried(set, now, w0, self.world(), stop));
                lemma_group_retry_keeps_counts(set, now.last(), w, self.world(), answer);
            }
            let ended: bool = match r {
                Err(PluginError::Resctrl(Error::Capacity { .. })) => true,
                Err(PluginError::PodNotFound) => false,
                Err(e) => {
                    proof {
                        lemma_groups_stopped(set, names, i as int + 1, w0, self.world(), stop);
                    }
                    return Err(e);
                },
                Ok(_) => false,
            };
            if ended {
                proof {
                    lemma_groups_stopped(set, names, i as int + 1, w0, self.world(), stop);
                }
                return Ok(());
            }
            i = i + 1;
        }
        assert(names.take(i as int) =~= names);
        Ok(())
    }

    /// Tries the tasks of containers again, one after the other up to an error.
    fn retry_containers(&mut self, ids: &Vec<String>) -> (r: Result<(), PluginError>)
        requires
            old(self).wf(),
            old(self).world().state.has_room(ids@.len()),
        ensures
            final(self).wf(),
            final(self).same_setup(old(self)),
            exists|stop: Option<PluginErrorView>| #[trigger]
                containers_retried(
                    old(self).settings(),
                    views(ids@),
                    old(self).world(),
                    final(self).world(),
                    stop,
                ) && plain_answer(r) == match stop {
                    None => Ok::<(), PluginErrorView>(()),
                    Some(e) => Err(e),
                },
    {
        let ghost w0 = self.world();
        let ghost set = self.settings();
        let ghost names = views(ids@);
        let ghost none: Option<PluginErrorView> = None;
        let mut i: usize = 0;
        assert(names.take(0) =~= Seq::<Seq<char>>::empty());
        while i < ids.len()
            invariant
                i <= ids@.len(),
                names == views(ids@),
                self.wf(),
                self.same_setup(old(self)),
                set == old(self).settings(),
                w0 == old(self).world(),
                none is None,
                self.world().state.has_room((ids@.len() - i) as nat),
                containers_retried(set, names.take(i as int), w0, self.world(), none),
            decreases ids.len() - i,
        {
            let ghost w = self.world();
            assert(w.state.has_room(1)) by {
                lemma_room(w.state, (ids@.len() - i) as nat, 1);
            }
            let r = self.retry_container_reconcile(ids[i].as_str());
            let ghost answer = sync_answer(r);
            let ghost stop = container_stop(answer);
            proof {
                let now = names.take(i as int + 1);
                assert(now.drop_last() =~= names.take(i as int));
                assert(now.last() == ids@[i as int]@);
                assert(container_retried(set, now.last(), w, self.world(), answer));
                assert(container_step(set, now.last(), w, self.world(), none, stop));
                assert(containers_retried(set, now, w0, self.world(), stop));
                lemma_container_retry_room(
                    set,
                    now.last(),
                    w,
                    self.world(),
                    answer,
                    (ids@.len() - i - 1) as nat,
                );
            }
            match r {
                Ok(_) => {},
                Err(PluginError::ContainerNotFound) => {},
                Err(PluginError::PodNotFound) => {},
                Err(e) => {
                    proof {
                        lemma_containers_stopped(
                            set,
                            names,
                            i as int + 1,
                            w0,
                            self.world(),
                            stop,
                        );
                    }
                    return Err(e);
                },
            }
            i = i + 1;
        }
        assert(names.take(i as int) =~= names);
        Ok(())
    }

    /// Tries once all pods without a group, up to one for which the kernel has no more groups to
    /// give, and then all containers with missing tasks.
    pub fn retry_all_once(&mut self) -> (r: Result<(), PluginError>)
        requires
            old(self).wf(),
            old(self).world().state.has_room(old(self).world().state.partials().len()),
        ensures
            final(self).wf(),
            final(self).same_setup(old(self)),
            all_retried(
                old(self).settings(),
                old(self).world(),
                final(self).world(),
                plain_answer(r),
            ),
    {
        let ghost w0 = self.world();
        let uids = self.state.failed_pods();
        let ids = self.state.partial_containers();
        proof {
            self.state.lemma_finite();
            assert(lists_failed(w0.state, views(uids@)));
            assert(lists_partial(w0.state, views(ids@)));
            assert forall|id: Seq<char>|
                views(ids@).to_set().contains(id) <==> w0.state.partials().contains(id) by {
                assert(views(ids@).contains(id) <==> w0.state.is_partial(id));
            }
            assert(views(ids@).to_set() =~= w0.state.partials());
            views(ids@).unique_seq_to_set();
        }
        let groups = self.retry_groups(&uids);
        let ghost w = self.world();
        let ghost stop = choose|stop: GroupStop| #[trigger]
            groups_retried(self.settings(), views(uids@), w0, w, stop) && match stop {
                GroupStop::Failed(e) => groups is Err && groups->Err_0@ == e,
                _ => groups is Ok,
            };
        if let Err(e) = groups {
            return Err(e);
        }
        self.retry_containers(&ids)
    }

    /// The pod that a container belongs to: the last of the pods with its ID.
    fn pod_of<'a>(pods: &'a Vec<PodSandbox>, id: &str) -> (r: Option<&'a PodSandbox>)
        ensures
            match r {
                Some(pod) => uid_of(pods@, id@) == Some(pod.uid@),
                None => uid_of(pods@, id@) is None,
            },
    {
        let mut i: usize = pods.len();
        assert(pods@.take(i as int) =~= pods@);
        while i > 0
            invariant
                i <= pods@.len(),
                uid_of(pods@, id@) == uid_of(pods@.take(i as int), id@),
            decreases i,
        {
            let ghost rest = pods@.take(i as int);
            assert(rest.last() == pods@[i as int - 1]);
            assert(rest.drop_last() =~= pods@.take(i as int - 1));
            if str_eq(pods[i - 1].id.as_str(), id) {
                return Some(&pods[i - 1]);
            }
            i = i - 1;
        }
        None
    }

    /// Mounts resctrl as far as asked and removes stale groups, where that is asked and it is
    /// mounted. Failures end nothing.
    fn start_up(&mut self)
        requires
            old(self).wf(),
        ensures
            final(self).wf(),
            final(self).same_setup(old(self)),
            started_up(old(self).settings(), old(self).world(), final(self).world()),
    {
        let ghost h0 = self.resctrl.history();
        let mounted: bool = self.resctrl.ensure_mounted(self.cfg.auto_mount).is_ok();
        let ghost h = self.resctrl.history();
        proof {
            lemma_no_call(h);
        }
        if self.cfg.cleanup_on_start && mounted {
            let _ = self.resctrl.cleanup_all();
        }
        assert(continues(h0, h));
    }

    /// Takes in all pods and containers that the runtime knows.
    pub fn synchronize(&mut self, pods: &Vec<PodSandbox>, containers: &Vec<Container>)
        requires
            old(self).wf(),
            old(self).world().state.has_room(containers@.len()),
        ensures
            final(self).wf(),
            final(self).same_setup(old(self)),
            synchronized(
                old(self).settings(),
                pods@,
                containers@,
                old(self).world(),
                final(self).world(),
            ),
    {
        let ghost w0 = self.world();
        let ghost set = self.settings();
        let ghost room = containers@.len();
        let count: usize = containers.len();
        assert(room == count);
        self.start_up();
        let ghost a = self.world();
        let mut i: usize = 0;
        assert(pods@.take(0) =~= Seq::<PodSandbox>::empty());
        while i < pods.len()
            invariant
                i <= pods@.len(),
                self.wf(),
                self.same_setup(old(self)),
                set == old(self).settings(),
                room <= usize::MAX,
                self.world().state.has_room(room),
                pods_seen(set, pods@.take(i as int), a, self.world()),
            decreases pods.len() - i,
        {
            let ghost w = self.world();
            self.handle_new_pod(&pods[i]);
            proof {
                let now = pods@.take(i as int + 1);
                assert(now.drop_last() =~= pods@.take(i as int));
                assert(now.last() == pods@[i as int]);
                assert(pods_seen(set, now, a, self.world()));
                lemma_pod_seen_room(set, pods@[i as int].uid@, w, self.world(), room);
            }
            i = i + 1;
        }
        assert(pods@.take(i as int) =~= pods@);
        let ghost b = self.world();
        let mut j: usize = 0;
        assert(containers@.take(0) =~= Seq::<Container>::empty());
        while j < count
            invariant
                j <= count,
                count == containers@.len(),
                self.wf(),
                self.same_setup(old(self)),
                set == old(self).settings(),
                self.world().state.has_room((containers@.len() - j) as nat),
                containers_seen(set, pods@, containers@.take(j as int), b, self.world()),
            decreases count - j,
        {
            let ghost w = self.world();
            let container = &containers[j];
            proof {
                lemma_room(w.state, (containers@.len() - j) as nat, 1);
                lemma_room(
                    w.state,
                    (containers@.len() - j) as nat,
                    (containers@.len() - j - 1) as nat,
                );
            }
            let pod = Self::pod_of(pods, container.pod_sandbox_id.as_str());
            if let Some(pod) = pod {
                self.handle_new_container(pod, container);
                proof {
                    lemma_container_seen_room(
                        set,
                        pod.uid@,
                        *container,
                        w,
                        self.world(),
                        (containers@.len() - j - 1) as nat,
                    );
                }
            }
            proof {
                let now = containers@.take(j as int + 1);
                assert(now.drop_last() =~= containers@.take(j as int));
                assert(now.last() == containers@[j as int]);
                assert(container_met(set, pods@, now.last(), w, self.world()));
                assert(containers_seen(set, pods@, now, b, self.world()));
            }
            j = j + 1;
        }
        assert(containers@.take(j as int) =~= containers@);
        assert(started_up(set, w0, a));
        assert(pods_seen(set, pods@, a, b));
    }

    /// Takes in that a container is created.
    pub fn create_container(&mut self, pod: Option<&PodSandbox>, container: Option<&Container>)
        requires
            old(self).wf(),
            old(self).world().state.has_room(1),
        ensures
            final(self).wf(),
            final(self).same_setup(old(self)),
            match (pod, container) {
                (Some(p), Some(c)) => container_seen(
                    old(self).settings(),
                    p.uid@,
                    *c,
                    old(self).world(),
                    final(self).world(),
                ),
                _ => final(self).world() == old(self).world(),
            },
    {
        if let Some(p) = pod {
            if let Some(c) = container {
                self.handle_new_container(p, c);
            }
        }
    }

    /// Takes in an event of the runtime.
    pub fn state_change(
        &mut self,
        event: LifecycleEvent,
        pod: Option<&PodSandbox>,
        container: Option<&Container>,
    )
        requires
            old(self).wf(),
        ensures
            final(self).wf(),
            final(self).same_setup(old(self)),
            match (event, pod) {
                (LifecycleEvent::RunPodSandbox, Some(p)) => pod_seen(
                    old(self).settings(),
                    p.uid@,
                    old(self).world(),
                    final(self).world(),
                ),
                (LifecycleEvent::RemovePodSandbox, Some(p)) => pod_gone(
                    p.uid@,
                    old(self).world(),
                    final(self).world(),
                ),
                (LifecycleEvent::RemoveContainer, Some(p)) => match container {
                    Some(c) => final(self).world() == (World {
                        state: old(self).world().state.container_removed(p.uid@, c.id@),
                        ..old(self).world()
                    }),
                    None => final(self).world() == old(self).world(),
                },
                _ => final(self).world() == old(self).world(),
            },
    {
        proof {
            lemma_no_call(self.resctrl.history());
        }
        match event {
            LifecycleEvent::RunPodSandbox => {
                if let Some(p) = pod {
                    self.handle_new_pod(p);
                }
            },
            LifecycleEvent::RemovePodSandbox => {
                if let Some(p) = pod {
                    let group_path = self.state.remove_pod(p.uid.as_str());
                    if let Some(path) = group_path {
                        let _ = self.resctrl.delete_group(path.as_str());
                    }
                }
            },
            LifecycleEvent::RemoveContainer => {
                if let Some(p) = pod {
                    if let Some(c) = container {
                        self.state.remove_container(p.uid.as_str(), c.id.as_str());
                    }
                }
            },
            LifecycleEvent::CreateContainer => {},
            LifecycleEvent::Other => {},
        }
    }
}

// ---------------------------------------------------------------------------
// Lemmas
// ---------------------------------------------------------------------------

proof fn lemma_room(s: StateView, n: nat, m: nat)
    requires
        s.has_room(n),
        m <= n,
    ensures
        s.has_room(m),
{
}

proof fn lemma_group_retry_keeps_counts(
    set: Settings,
    uid: Seq<char>,
    w0: World,
    w1: World,
    r: Result<GroupView, PluginErrorView>,
)
    requires
        group_retried(set, uid, w0, w1, r),
    ensures
        w1.state.containers == w0.state.containers,
        forall|n: nat| w0.state.has_room(n) ==> #[trigger] w1.state.has_room(n),
{
}

proof fn lemma_container_retry_room(
    set: Settings,
    id: Seq<char>,
    w0: World,
    w1: World,
    r: Result<ContainerSyncState, PluginErrorView>,
    n: nat,
)
    requires
        container_retried(set, id, w0, w1, r),
        w0.state.has_room(n + 1),
    ensures
        w1.state.has_room(n),
{
    lemma_room(w0.state, n + 1, n);
}

proof fn lemma_pod_seen_room(set: Settings, uid: Seq<char>, w0: World, w1: World, n: nat)
    requires
        pod_seen(set, uid, w0, w1),
        w0.state.has_room(n),
        n <= usize::MAX,
    ensures
        w1.state.has_room(n),
{
}

proof fn lemma_container_seen_room(
    set: Settings,
    uid: Seq<char>,
    container: Container,
    w0: World,
    w1: World,
    n: nat,
)
    requires
        container_seen(set, uid, container, w0, w1),
        w0.state.has_room(n + 1),
    ensures
        w1.state.has_room(n),
{
    lemma_room(w0.state, n + 1, n);
}

proof fn lemma_groups_stopped(
    set: Settings,
    uids: Seq<Seq<char>>,
    n: int,
    w0: World,
    w1: World,
    stop: GroupStop,
)
    requires
        0 <= n <= uids.len(),
        groups_retried(set, uids.take(n), w0, w1, stop),
        stop !is No,
    ensures
        groups_retried(set, uids, w0, w1, stop),
    decreases uids.len() - n,
{
    if n == uids.len() {
        assert(uids.take(n) =~= uids);
    } else {
        assert(uids.take(n + 1).drop_last() =~= uids.take(n));
        assert(group_step(set, uids.take(n + 1).last(), w1, w1, stop, stop));
        assert(groups_retried(set, uids.take(n + 1), w0, w1, stop));
        lemma_groups_stopped(set, uids, n + 1, w0, w1, stop);
    }
}

proof fn lemma_containers_stopped(
    set: Settings,
    ids: Seq<Seq<char>>,
    n: int,
    w0: World,
    w1: World,
    stop: Option<PluginErrorView>,
)
    requires
        0 <= n <= ids.len(),
        containers_retried(set, ids.take(n), w0, w1, stop),
        stop is Some,
    ensures
        containers_retried(set, ids, w0, w1, stop),
    decreases ids.len() - n,
{
    if n == ids.len() {
        assert(ids.take(n) =~= ids);
    } else {
        assert(ids.take(n + 1).drop_last() =~= ids.take(n));
        assert(container_step(set, ids.take(n + 1).last(), w1, w1, stop, stop));
        assert(containers_retried(set, ids.take(n + 1), w0, w1, stop));
        lemma_containers_stopped(set, ids, n + 1, w0, w1, stop);
    }
}

}
