//! What the plugin holds of pods and containers, and how it changes.
//!
//! Work on the filesystem takes place between two changes: one function says what is to be done,
//! and another takes the outcome in, whatever has changed meanwhile.

use vstd::prelude::*;

use crate::nri_plugin::types::{
    event_views, Container, ContainerSyncState, ContainerView, GroupView, PodEventView,
    PodResctrlAddOrUpdate, PodResctrlEvent, PodResctrlRemoved, PodView, ResctrlGroupState,
};
use crate::resctrl::error::{Error, ErrorView};
use crate::resctrl::handle::path_answer;
use crate::str_map::StrMap;
use crate::text::{str_eq, views};

verus! {

/// The pods, by UID; the containers, by ID; and the events that were not taken yet.
#[verifier::ext_equal]
pub ghost struct StateView {
    pub pods: Map<Seq<char>, PodView>,
    pub containers: Map<Seq<char>, ContainerView>,
    pub events: Seq<PodEventView>,
}

/// What is to be done for a container that was seen.
pub ghost enum StartView {
    /// Nothing more.
    Settled,
    /// The tasks of a control group are to be brought into a resctrl group.
    Reconcile { group_path: Seq<char>, cgroup_path: Seq<char> },
}

/// What is to be done to bring a container on.
pub ghost enum RetryView {
    ContainerNotFound,
    PodNotFound,
    /// Nothing.
    Settled(ContainerSyncState),
    /// The tasks of a control group are to be brought into a resctrl group.
    Reconcile { group_path: Seq<char>, cgroup_path: Seq<char>, pod_uid: Seq<char> },
}

/// A count, less one where that is asked for and it is not zero.
pub open spec fn less_one_if(n: nat, b: bool) -> nat {
    if b && n > 0 {
        (n - 1) as nat
    } else {
        n
    }
}

impl StateView {
    /// Nothing is held.
    pub open spec fn fresh() -> StateView {
        StateView { pods: Map::empty(), containers: Map::empty(), events: Seq::empty() }
    }

    /// A pod's state is reported.
    pub open spec fn announced(self, uid: Seq<char>) -> StateView {
        StateView {
            events: self.events.push(
                PodEventView::AddOrUpdate { pod_uid: uid, pod: self.pods[uid] },
            ),
            ..self
        }
    }

    /// A pod has a new state, which is reported.
    pub open spec fn pod_set(self, uid: Seq<char>, pod: PodView) -> StateView {
        StateView { pods: self.pods.insert(uid, pod), ..self }.announced(uid)
    }

    /// A container has a new state.
    pub open spec fn container_set(self, id: Seq<char>, c: ContainerView) -> StateView {
        StateView { containers: self.containers.insert(id, c), ..self }
    }

    /// A pod that was not known is held once its group was tried; its state is reported.
    pub open spec fn pod_added(
        self,
        uid: Seq<char>,
        created: Result<Seq<char>, ErrorView>,
    ) -> StateView {
        let group = match created {
            Ok(path) => GroupView::Exists(path),
            Err(_) => GroupView::Failed,
        };
        self.pod_set(uid, PodView { group, total: 0, reconciled: 0 })
    }

    /// What is to be done for a container, and what is held meanwhile. A container that is known
    /// is left alone. One whose pod is not known is held without it. One whose pod has no group
    /// counts as known.
    pub open spec fn container_started(
        self,
        pod_uid: Seq<char>,
        id: Seq<char>,
        cgroup_path: Seq<char>,
        cgroup_path_without_pod: Seq<char>,
    ) -> (StateView, StartView) {
        if self.containers.dom().contains(id) {
            (self, StartView::Settled)
        } else if !self.pods.dom().contains(pod_uid) {
            let c = ContainerView {
                pod_uid,
                cgroup_path: cgroup_path_without_pod,
                state: ContainerSyncState::NoPod,
            };
            (self.container_set(id, c), StartView::Settled)
        } else {
            let pod = self.pods[pod_uid];
            match pod.group {
                GroupView::Failed => {
                    let c = ContainerView {
                        pod_uid,
                        cgroup_path,
                        state: ContainerSyncState::Partial,
                    };
                    (
                        self.container_set(id, c).pod_set(
                            pod_uid,
                            PodView { total: pod.total + 1, ..pod },
                        ),
                        StartView::Settled,
                    )
                },
                GroupView::Exists(group_path) => (
                    self,
                    StartView::Reconcile { group_path, cgroup_path },
                ),
            }
        }
    }

    /// A container is held once its tasks were tried; where its pod is still known it counts,
    /// and the pod's state is reported.
    pub open spec fn container_finished(
        self,
        pod_uid: Seq<char>,
        id: Seq<char>,
        cgroup_path: Seq<char>,
        state: ContainerSyncState,
    ) -> StateView {
        let s = self.container_set(id, ContainerView { pod_uid, cgroup_path, state });
        if self.pods.dom().contains(pod_uid) {
            let pod = self.pods[pod_uid];
            s.pod_set(
                pod_uid,
                PodView {
                    total: pod.total + 1,
                    reconciled: if state == ContainerSyncState::Reconciled {
                        pod.reconciled + 1
                    } else {
                        pod.reconciled
                    },
                    ..pod
                },
            )
        } else {
            s
        }
    }

    /// A group was created for a pod that had none: it is held and reported where the pod still
    /// has none. The result is the pod's group, or nothing where the pod is gone.
    pub open spec fn group_created(self, uid: Seq<char>, path: Seq<char>) -> (
        StateView,
        Option<GroupView>,
    ) {
        if !self.pods.dom().contains(uid) {
            (self, None)
        } else {
            let pod = self.pods[uid];
            match pod.group {
                GroupView::Failed => (
                    self.pod_set(uid, PodView { group: GroupView::Exists(path), ..pod }),
                    Some(GroupView::Exists(path)),
                ),
                GroupView::Exists(p) => (self, Some(GroupView::Exists(p))),
            }
        }
    }

    /// What is to be done to bring a container on.
    pub open spec fn retry_of(self, id: Seq<char>) -> RetryView {
        if !self.containers.dom().contains(id) {
            RetryView::ContainerNotFound
        } else {
            let c = self.containers[id];
            if c.state == ContainerSyncState::NoPod {
                RetryView::Settled(c.state)
            } else if !self.pods.dom().contains(c.pod_uid) {
                RetryView::PodNotFound
            } else {
                match self.pods[c.pod_uid].group {
                    GroupView::Failed => RetryView::Settled(c.state),
                    GroupView::Exists(group_path) => RetryView::Reconcile {
                        group_path,
                        cgroup_path: c.cgroup_path,
                        pod_uid: c.pod_uid,
                    },
                }
            }
        }
    }

    /// A container's tasks were tried again: it counts as reconciled, and its pod's state is
    /// reported, where it did not before and now all tasks are in the group.
    pub open spec fn retry_finished(
        self,
        id: Seq<char>,
        pod_uid: Seq<char>,
        state: ContainerSyncState,
    ) -> (StateView, RetryView) {
        if !self.containers.dom().contains(id) {
            (self, RetryView::ContainerNotFound)
        } else if !self.pods.dom().contains(pod_uid) {
            (self, RetryView::PodNotFound)
        } else {
            let c = self.containers[id];
            let pod = self.pods[pod_uid];
            if c.state == ContainerSyncState::Partial && state == ContainerSyncState::Reconciled {
                (
                    self.container_set(id, ContainerView { state, ..c }).pod_set(
                        pod_uid,
                        PodView { reconciled: pod.reconciled + 1, ..pod },
                    ),
                    RetryView::Settled(state),
                )
            } else {
                (self, RetryView::Settled(c.state))
            }
        }
    }

    /// The containers of a pod.
    pub open spec fn containers_of(self, uid: Seq<char>) -> Set<Seq<char>> {
        Set::new(
            |id: Seq<char>|
                self.containers.dom().contains(id) && self.containers[id].pod_uid == uid,
        )
    }

    /// A pod is gone, with its containers, and its removal is reported.
    pub open spec fn pod_removed(self, uid: Seq<char>) -> StateView {
        StateView {
            pods: self.pods.remove(uid),
            containers: self.containers.remove_keys(self.containers_of(uid)),
            events: self.events.push(PodEventView::Removed { uid }),
        }
    }

    /// The path of a pod's group, where it is known and has one.
    pub open spec fn group_path_of(self, uid: Seq<char>) -> Option<Seq<char>> {
        if self.pods.dom().contains(uid) {
            match self.pods[uid].group {
                GroupView::Exists(path) => Some(path),
                GroupView::Failed => None,
            }
        } else {
            None
        }
    }

    /// A container is gone. It no longer counts for the pod that is named, whose state is reported
    /// where the pod is known.
    pub open spec fn container_removed(self, pod_uid: Seq<char>, id: Seq<char>) -> StateView {
        let s = StateView { containers: self.containers.remove(id), ..self };
        if self.pods.dom().contains(pod_uid) {
            let pod = self.pods[pod_uid];
            let known = self.containers.dom().contains(id);
            s.pod_set(
                pod_uid,
                PodView {
                    total: less_one_if(
                        pod.total,
                        known && self.containers[id].state != ContainerSyncState::NoPod,
                    ),
                    reconciled: less_one_if(
                        pod.reconciled,
                        known && self.containers[id].state == ContainerSyncState::Reconciled,
                    ),
                    ..pod
                },
            )
        } else {
            s
        }
    }

    /// Whether the counts of every pod can grow by `n`.
    pub open spec fn has_room(self, n: nat) -> bool {
        forall|uid: Seq<char>| #[trigger]
            self.pods.dom().contains(uid) ==> self.pods[uid].total + n <= usize::MAX
                && self.pods[uid].reconciled + n <= usize::MAX
    }

    /// The containers whose tasks are not all in their pods' groups.
    pub open spec fn partials(self) -> Set<Seq<char>> {
        self.containers.dom().filter(|id: Seq<char>| self.is_partial(id))
    }

    /// A pod whose group could not be created.
    pub open spec fn is_failed(self, uid: Seq<char>) -> bool {
        self.pods.dom().contains(uid) && self.pods[uid].group is Failed
    }

    /// A container whose tasks are not all in its pod's group.
    pub open spec fn is_partial(self, id: Seq<char>) -> bool {
        self.containers.dom().contains(id) && self.containers[id].state
            == ContainerSyncState::Partial
    }
}

/// What is held of a pod.
struct PodState {
    group_state: ResctrlGroupState,
    total_containers: usize,
    reconciled_containers: usize,
}

impl View for PodState {
    type V = PodView;

    closed spec fn view(&self) -> PodView {
        PodView {
            group: self.group_state@,
            total: self.total_containers as nat,
            reconciled: self.reconciled_containers as nat,
        }
    }
}

/// What is held of a container.
struct ContainerState {
    pod_uid: String,
    cgroup_path: String,
    state: ContainerSyncState,
}

impl View for ContainerState {
    type V = ContainerView;

    closed spec fn view(&self) -> ContainerView {
        ContainerView {
            pod_uid: self.pod_uid@,
            cgroup_path: self.cgroup_path@,
            state: self.state,
        }
    }
}

/// What is to be done for a container that was seen.
pub enum ContainerStart {
    Settled,
    Reconcile { group_path: String, cgroup_path: String },
}

impl View for ContainerStart {
    type V = StartView;

    open spec fn view(&self) -> StartView {
        match *self {
            ContainerStart::Settled => StartView::Settled,
            ContainerStart::Reconcile { group_path, cgroup_path } => StartView::Reconcile {
                group_path: group_path@,
                cgroup_path: cgroup_path@,
            },
        }
    }
}

/// What is to be done to bring a container on.
pub enum ContainerRetry {
    ContainerNotFound,
    PodNotFound,
    Settled(ContainerSyncState),
    Reconcile { group_path: String, cgroup_path: String, pod_uid: String },
}

impl View for ContainerRetry {
    type V = RetryView;

    open spec fn view(&self) -> RetryView {
        match *self {
            ContainerRetry::ContainerNotFound => RetryView::ContainerNotFound,
            ContainerRetry::PodNotFound => RetryView::PodNotFound,
            ContainerRetry::Settled(s) => RetryView::Settled(s),
            ContainerRetry::Reconcile { group_path, cgroup_path, pod_uid } => RetryView::Reconcile {
                group_path: group_path@,
                cgroup_path: cgroup_path@,
                pod_uid: pod_uid@,
            },
        }
    }
}

/// What the plugin holds.
pub struct PluginState {
    pods: StrMap<PodState>,
    containers: StrMap<ContainerState>,
    events: Vec<PodResctrlEvent>,
}

impl View for PluginState {
    type V = StateView;

    closed spec fn view(&self) -> StateView {
        StateView {
            pods: self.pods@.map_values(|p: PodState| p@),
            containers: self.containers@.map_values(|c: ContainerState| c@),
            events: event_views(self.events@),
        }
    }
}

impl PluginState {
    /// No pod and no container is held twice.
    pub closed spec fn wf(&self) -> bool {
        self.pods.wf() && self.containers.wf()
    }

    /// Only finitely many pods and containers are held.
    pub proof fn lemma_finite(&self)
        requires
            self.wf(),
        ensures
            self@.pods.dom().finite(),
            self@.containers.dom().finite(),
    {
        self.pods.lemma_key_order();
        self.containers.lemma_key_order();
        assert(self@.pods.dom() =~= self.pods@.dom());
        assert(self@.containers.dom() =~= self.containers@.dom());
    }

    /// Holds nothing.
    pub fn new() -> (r: PluginState)
        ensures
            r.wf(),
            r@ == StateView::fresh(),
    {
        let r = PluginState {
            pods: StrMap::new(),
            containers: StrMap::new(),
            events: Vec::new(),
        };
        assert(r@ =~= StateView::fresh());
        r
    }

    /// Takes the events that were not taken yet, in the order in which they came up.
    pub fn take_events(&mut self) -> (r: Vec<PodResctrlEvent>)
        requires
            old(self).wf(),
        ensures
            final(self).wf(),
            event_views(r@) == old(self)@.events,
            final(self)@ == (StateView { events: Seq::empty(), ..old(self)@ }),
    {
        let mut taken: Vec<PodResctrlEvent> = Vec::new();
        std::mem::swap(&mut taken, &mut self.events);
        assert(event_views(self.events@) =~= Seq::<PodEventView>::empty());
        taken
    }

    /// Whether a pod is held.
    pub fn has_pod(&self, uid: &str) -> (r: bool)
        requires
            self.wf(),
        ensures
            r == self@.pods.dom().contains(uid@),
    {
        self.pods.contains_key(uid)
    }

    /// Reports the state of a pod.
    pub fn announce(&mut self, uid: &str)
        requires
            old(self).wf(),
            old(self)@.pods.dom().contains(uid@),
        ensures
            final(self).wf(),
            final(self)@ == old(self)@.announced(uid@),
    {
        let ghost before = self.events@;
        let ps = self.pods.get(uid).unwrap();
        let ev = PodResctrlEvent::AddOrUpdate(
            PodResctrlAddOrUpdate {
                pod_uid: uid.to_string(),
                group_state: ps.group_state.copy(),
                total_containers: ps.total_containers,
                reconciled_containers: ps.reconciled_containers,
            },
        );
        self.events.push(ev);
        assert(event_views(self.events@) =~= event_views(before).push(ev@));
    }

    /// Gives a pod a state, and reports it.
    fn set_pod(&mut self, uid: &str, ps: PodState)
        requires
            old(self).wf(),
        ensures
            final(self).wf(),
            final(self)@ == old(self)@.pod_set(uid@, ps@),
    {
        let ghost before = self.pods@;
        self.pods.insert(uid.to_string(), ps);
        assert(self.pods@.map_values(|p: PodState| p@) =~= before.map_values(
            |p: PodState| p@,
        ).insert(uid@, ps@));
        self.announce(uid);
    }

    /// Gives a container a state.
    fn set_container(&mut self, id: &str, cs: ContainerState)
        requires
            old(self).wf(),
        ensures
            final(self).wf(),
            final(self)@ == old(self)@.container_set(id@, cs@),
    {
        let ghost before = self.containers@;
        self.containers.insert(id.to_string(), cs);
        assert(self.containers@.map_values(|c: ContainerState| c@) =~= before.map_values(
            |c: ContainerState| c@,
        ).insert(id@, cs@));
    }

    /// Holds a pod once its group was tried, and reports its state.
    pub fn add_pod(&mut self, uid: &str, created: Result<String, Error>)
        requires
            old(self).wf(),
        ensures
            final(self).wf(),
            final(self)@ == old(self)@.pod_added(uid@, path_answer(created)),
    {
        let group_state = match created {
            Ok(path) => ResctrlGroupState::Exists(path),
            Err(_) => ResctrlGroupState::Failed,
        };
        self.set_pod(uid, PodState { group_state, total_containers: 0, reconciled_containers: 0 });
    }

    /// What is to be done for a container.
    pub fn start_container(&mut self, pod_uid: &str, container: &Container) -> (r: ContainerStart)
        requires
            old(self).wf(),
            old(self)@.has_room(1),
        ensures
            final(self).wf(),
            (final(self)@, r@) == old(self)@.container_started(
                pod_uid@,
                container.id@,
                container.cgroup_path@,
                container.cgroup_path_without_pod@,
            ),
    {
        if self.containers.contains_key(container.id.as_str()) {
            return ContainerStart::Settled;
        }
        let pod = match self.pods.get(pod_uid) {
            Some(ps) => ps,
            None => {
                let cs = ContainerState {
                    pod_uid: pod_uid.to_string(),
                    cgroup_path: container.cgroup_path_without_pod.clone(),
                    state: ContainerSyncState::NoPod,
                };
                self.set_container(container.id.as_str(), cs);
                return ContainerStart::Settled;
            },
        };
        assert(self@.pods.dom().contains(pod_uid@));
        match &pod.group_state {
            ResctrlGroupState::Exists(path) => ContainerStart::Reconcile {
                group_path: path.clone(),
                cgroup_path: container.cgroup_path.clone(),
            },
            ResctrlGroupState::Failed => {
                let ps = PodState {
                    group_state: ResctrlGroupState::Failed,
                    total_containers: pod.total_containers + 1,
                    reconciled_containers: pod.reconciled_containers,
                };
                let cs = ContainerState {
                    pod_uid: pod_uid.to_string(),
                    cgroup_path: container.cgroup_path.clone(),
                    state: ContainerSyncState::Partial,
                };
                self.set_container(container.id.as_str(), cs);
                self.set_pod(pod_uid, ps);
                ContainerStart::Settled
            },
        }
    }

    /// Holds a container once its tasks were tried.
    pub fn finish_container(
        &mut self,
        pod_uid: &str,
        id: &str,
        cgroup_path: String,
        state: ContainerSyncState,
    )
        requires
            old(self).wf(),
            old(self)@.has_room(1),
        ensures
            final(self).wf(),
            final(self)@ == old(self)@.container_finished(pod_uid@, id@, cgroup_path@, state),
    {
        let cs = ContainerState { pod_uid: pod_uid.to_string(), cgroup_path, state };
        self.set_container(id, cs);
        if let Some(pod) = self.pods.get(pod_uid) {
            assert(self@.pods.dom().contains(pod_uid@));
            let ps = PodState {
                group_state: pod.group_state.copy(),
                total_containers: pod.total_containers + 1,
                reconciled_containers: if state == ContainerSyncState::Reconciled {
                    pod.reconciled_containers + 1
                } else {
                    pod.reconciled_containers
                },
            };
            self.set_pod(pod_uid, ps);
        }
    }

    /// The state of a pod's group.
    pub fn group_state(&self, uid: &str) -> (r: Option<ResctrlGroupState>)
        requires
            self.wf(),
        ensures
            match r {
                Some(g) => self@.pods.dom().contains(uid@) && g@ == self@.pods[uid@].group,
                None => !self@.pods.dom().contains(uid@),
            },
    {
        match self.pods.get(uid) {
            Some(ps) => Some(ps.group_state.copy()),
            None => None,
        }
    }

    /// Takes in that a group was created for a pod that had none.
    pub fn finish_group(&mut self, uid: &str, path: &str) -> (r: Option<ResctrlGroupState>)
        requires
            old(self).wf(),
        ensures
            final(self).wf(),
            final(self)@ == old(self)@.group_created(uid@, path@).0,
            match r {
                Some(g) => old(self)@.group_created(uid@, path@).1 == Some(g@),
                None => old(self)@.group_created(uid@, path@).1 is None,
            },
    {
        let pod = match self.pods.get(uid) {
            Some(ps) => ps,
            None => {
                return None;
            },
        };
        assert(self@.pods.dom().contains(uid@));
        match &pod.group_state {
            ResctrlGroupState::Exists(p) => Some(ResctrlGroupState::Exists(p.clone())),
            ResctrlGroupState::Failed => {
                let ps = PodState {
                    group_state: ResctrlGroupState::Exists(path.to_string()),
                    total_containers: pod.total_containers,
                    reconciled_containers: pod.reconciled_containers,
                };
                self.set_pod(uid, ps);
                Some(ResctrlGroupState::Exists(path.to_string()))
            },
        }
    }

    /// What is to be done to bring a container on.
    pub fn start_retry(&self, id: &str) -> (r: ContainerRetry)
        requires
            self.wf(),
        ensures
            r@ == self@.retry_of(id@),
    {
        let cs = match self.containers.get(id) {
            Some(cs) => cs,
            None => {
                return ContainerRetry::ContainerNotFound;
            },
        };
        assert(self@.containers.dom().contains(id@));
        if cs.state == ContainerSyncState::NoPod {
            return ContainerRetry::Settled(cs.state);
        }
        let pod = match self.pods.get(cs.pod_uid.as_str()) {
            Some(ps) => ps,
            None => {
                return ContainerRetry::PodNotFound;
            },
        };
        assert(self@.pods.dom().contains(cs.pod_uid@));
        match &pod.group_state {
            ResctrlGroupState::Exists(path) => ContainerRetry::Reconcile {
                group_path: path.clone(),
                cgroup_path: cs.cgroup_path.clone(),
                pod_uid: cs.pod_uid.clone(),
            },
            ResctrlGroupState::Failed => ContainerRetry::Settled(cs.state),
        }
    }

    /// Takes in that a container's tasks were tried again.
    pub fn finish_retry(&mut self, id: &str, pod_uid: &str, state: ContainerSyncState) -> (r:
        ContainerRetry)
        requires
            old(self).wf(),
            old(self)@.has_room(1),
        ensures
            final(self).wf(),
            (final(self)@, r@) == old(self)@.retry_finished(id@, pod_uid@, state),
    {
        let cs = match self.containers.get(id) {
            Some(cs) => cs,
            None => {
                return ContainerRetry::ContainerNotFound;
            },
        };
        assert(self@.containers.dom().contains(id@));
        let pod = match self.pods.get(pod_uid) {
            Some(ps) => ps,
            None => {
                return ContainerRetry::PodNotFound;
            },
        };
        assert(self@.pods.dom().contains(pod_uid@));
        if cs.state == ContainerSyncState::Partial && state == ContainerSyncState::Reconciled {
            let ps = PodState {
                group_state: pod.group_state.copy(),
                total_containers: pod.total_containers,
                reconciled_containers: pod.reconciled_containers + 1,
            };
            let cs = ContainerState {
                pod_uid: cs.pod_uid.clone(),
                cgroup_path: cs.cgroup_path.clone(),
                state,
            };
            self.set_container(id, cs);
            self.set_pod(pod_uid, ps);
            return ContainerRetry::Settled(state);
        }
        ContainerRetry::Settled(cs.state)
    }

    /// The IDs of a pod's containers.
    fn container_ids(&self, uid: &str) -> (r: Vec<String>)
        requires
            self.wf(),
        ensures
            views(r@).to_set() == self@.containers_of(uid@),
    {
        let mut ids: Vec<String> = Vec::new();
        let mut i: usize = 0;
        let ghost order = self.containers.key_order();
        proof {
            self.containers.lemma_key_order();
        }
        while i < self.containers.len()
            invariant
                self.wf(),
                order == self.containers.key_order(),
                i <= order.len(),
                forall|k: int|
                    0 <= k < ids@.len() ==> self@.containers_of(uid@).contains(
                        (#[trigger] ids@[k])@,
                    ),
                forall|k: int|
                    0 <= k < i && self@.containers_of(uid@).contains(#[trigger] order[k])
                        ==> views(ids@).contains(order[k]),
            decreases order.len() - i,
        {
            let cs = self.containers.value_at(i);
            let key = self.containers.key_at(i);
            let ghost earlier = ids@;
            if str_eq(cs.pod_uid.as_str(), uid) {
                ids.push(key.clone());
                proof {
                    assert(views(ids@) =~= views(earlier).push(key@));
                    assert(views(ids@)[earlier.len() as int] == key@);
                    assert forall|x: Seq<char>| views(earlier).contains(x) implies views(
                        ids@,
                    ).contains(x) by {
                        let k = choose|k: int| 0 <= k < views(earlier).len() && views(earlier)[k] == x;
                        assert(views(ids@)[k] == x);
                    }
                }
            }
            i = i + 1;
        }
        proof {
            assert forall|x: Seq<char>| views(ids@).to_set().contains(x) <==> self@.containers_of(
                uid@,
            ).contains(x) by {
                if views(ids@).contains(x) {
                    let k = choose|k: int| 0 <= k < views(ids@).len() && views(ids@)[k] == x;
                    assert(ids@[k]@ == x);
                }
                if self@.containers_of(uid@).contains(x) {
                    assert(self.containers@.dom().contains(x));
                    assert(order.contains(x));
                    let k = choose|k: int| 0 <= k < order.len() && order[k] == x;
                    assert(views(ids@).contains(order[k]));
                }
            }
            assert(views(ids@).to_set() =~= self@.containers_of(uid@));
        }
        ids
    }

    /// Removes a pod with its containers, reports that, and gives the path of its group.
    pub fn remove_pod(&mut self, uid: &str) -> (r: Option<String>)
        requires
            old(self).wf(),
        ensures
            final(self).wf(),
            final(self)@ == old(self)@.pod_removed(uid@),
            match r {
                Some(path) => old(self)@.group_path_of(uid@) == Some(path@),
                None => old(self)@.group_path_of(uid@) is None,
            },
    {
        let ghost before = self@;
        let group_path = match self.group_state(uid) {
            Some(ResctrlGroupState::Exists(path)) => Some(path),
            _ => None,
        };
        let ids = self.container_ids(uid);
        let ghost all = self.containers@;
        let mut i: usize = 0;
        assert(all.remove_keys(views(ids@).take(0).to_set()) =~= all);
        while i < ids.len()
            invariant
                i <= ids@.len(),
                self.wf(),
                self.pods == old(self).pods,
                self.events == old(self).events,
                self.containers@ == all.remove_keys(views(ids@).take(i as int).to_set()),
            decreases ids.len() - i,
        {
            let _ = self.containers.remove(ids[i].as_str());
            proof {
                let names = views(ids@);
                let now = names.take(i as int + 1);
                assert(now =~= names.take(i as int).push(names[i as int]));
                assert forall|x: Seq<char>| now.to_set().contains(x) <==> names.take(
                    i as int,
                ).to_set().contains(x) || x == names[i as int] by {
                    if names.take(i as int).contains(x) {
                        let k = choose|k: int|
                            0 <= k < names.take(i as int).len() && names.take(i as int)[k] == x;
                        assert(now[k] == x);
                    }
                    assert(now[i as int] == names[i as int]);
                }
                assert(self.containers@ =~= all.remove_keys(now.to_set()));
            }
            i = i + 1;
        }
        assert(views(ids@).take(i as int) =~= views(ids@));
        let ghost pods = self.pods@;
        let _ = self.pods.remove(uid);
        let ghost earlier = self.events@;
        let ev = PodResctrlEvent::Removed(PodResctrlRemoved { pod_uid: uid.to_string() });
        self.events.push(ev);
        proof {
            assert(event_views(self.events@) =~= event_views(earlier).push(ev@));
            assert(self@.pods =~= before.pods.remove(uid@));
            assert(self@.containers =~= before.containers.remove_keys(before.containers_of(uid@)));
        }
        group_path
    }

    /// Removes a container, and adjusts and reports the counts of the pod that is named.
    pub fn remove_container(&mut self, pod_uid: &str, id: &str)
        requires
            old(self).wf(),
        ensures
            final(self).wf(),
            final(self)@ == old(self)@.container_removed(pod_uid@, id@),
    {
        let ghost before = self@;
        let removed = self.containers.remove(id);
        assert(self@.containers =~= before.containers.remove(id@));
        if let Some(pod) = self.pods.get(pod_uid) {
            assert(self@.pods.dom().contains(pod_uid@));
            let counted: bool = match &removed {
                Some(cs) => cs.state != ContainerSyncState::NoPod,
                None => false,
            };
            let reconciled: bool = match &removed {
                Some(cs) => cs.state == ContainerSyncState::Reconciled,
                None => false,
            };
            let ps = PodState {
                group_state: pod.group_state.copy(),
                total_containers: if counted {
                    pod.total_containers.saturating_sub(1)
                } else {
                    pod.total_containers
                },
                reconciled_containers: if reconciled {
                    pod.reconciled_containers.saturating_sub(1)
                } else {
                    pod.reconciled_containers
                },
            };
            self.set_pod(pod_uid, ps);
        }
    }

    /// Whether the counts of every pod can grow by that many.
    pub fn has_room_for(&self, n: usize) -> (r: bool)
        requires
            self.wf(),
        ensures
            r == self@.has_room(n as nat),
    {
        let mut i: usize = 0;
        let ghost order = self.pods.key_order();
        proof {
            self.pods.lemma_key_order();
        }
        while i < self.pods.len()
            invariant
                self.wf(),
                order == self.pods.key_order(),
                i <= order.len(),
                forall|k: int|
                    #![trigger order[k]]
                    0 <= k < i ==> self@.pods[order[k]].total + n <= usize::MAX
                        && self@.pods[order[k]].reconciled + n <= usize::MAX,
            decreases order.len() - i,
        {
            let ps = self.pods.value_at(i);
            let key = self.pods.key_at(i);
            assert(self@.pods.dom().contains(key@));
            assert(self@.pods[key@] == ps@);
            if ps.total_containers > usize::MAX - n || ps.reconciled_containers > usize::MAX - n {
                return false;
            }
            i = i + 1;
        }
        proof {
            assert forall|uid: Seq<char>| #[trigger] self@.pods.dom().contains(uid) implies
                self@.pods[uid].total + n <= usize::MAX && self@.pods[uid].reconciled + n
                <= usize::MAX by {
                assert(self.pods@.dom().contains(uid));
                assert(order.contains(uid));
                let k = choose|k: int| 0 <= k < order.len() && order[k] == uid;
                assert(order[k] == uid);
            }
        }
        true
    }

    /// The pods whose groups could not be created, in some order.
    pub fn failed_pods(&self) -> (r: Vec<String>)
        requires
            self.wf(),
        ensures
            views(r@).no_duplicates(),
            forall|uid: Seq<char>| #[trigger]
                views(r@).contains(uid) <==> self@.is_failed(uid),
    {
        let mut uids: Vec<String> = Vec::new();
        let mut i: usize = 0;
        let ghost order = self.pods.key_order();
        proof {
            self.pods.lemma_key_order();
        }
        while i < self.pods.len()
            invariant
                self.wf(),
                order == self.pods.key_order(),
                order.no_duplicates(),
                i <= order.len(),
                listed(order.take(i as int), |uid: Seq<char>| self@.is_failed(uid), views(uids@)),
            decreases order.len() - i,
        {
            let ps = self.pods.value_at(i);
            let key = self.pods.key_at(i);
            assert(self@.pods.dom().contains(key@));
            let ghost earlier = uids@;
            let failed: bool = match &ps.group_state {
                ResctrlGroupState::Failed => true,
                ResctrlGroupState::Exists(_) => false,
            };
            proof {
                lemma_listed_step(
                    order,
                    |uid: Seq<char>| self@.is_failed(uid),
                    views(uids@),
                    i as int,
                );
            }
            if failed {
                uids.push(key.clone());
                assert(views(uids@) =~= views(earlier).push(key@));
            }
            i = i + 1;
        }
        proof {
            assert(order.take(i as int) =~= order);
            assert forall|uid: Seq<char>| #[trigger] views(uids@).contains(uid) <==> self@.is_failed(
                uid,
            ) by {
                assert(self.pods@.dom().contains(uid) == self@.pods.dom().contains(uid));
            }
        }
        uids
    }

    /// The containers whose tasks are not all in their pods' groups, in some order.
    pub fn partial_containers(&self) -> (r: Vec<String>)
        requires
            self.wf(),
        ensures
            views(r@).no_duplicates(),
            forall|id: Seq<char>| #[trigger]
                views(r@).contains(id) <==> self@.is_partial(id),
    {
        let mut ids: Vec<String> = Vec::new();
        let mut i: usize = 0;
        let ghost order = self.containers.key_order();
        proof {
            self.containers.lemma_key_order();
        }
        while i < self.containers.len()
            invariant
                self.wf(),
                order == self.containers.key_order(),
                order.no_duplicates(),
                i <= order.len(),
                listed(order.take(i as int), |id: Seq<char>| self@.is_partial(id), views(ids@)),
            decreases order.len() - i,
        {
            let cs = self.containers.value_at(i);
            let key = self.containers.key_at(i);
            assert(self@.containers.dom().contains(key@));
            let ghost earlier = ids@;
            proof {
                lemma_listed_step(
                    order,
                    |id: Seq<char>| self@.is_partial(id),
                    views(ids@),
                    i as int,
                );
            }
            if cs.state == ContainerSyncState::Partial {
                ids.push(key.clone());
                assert(views(ids@) =~= views(earlier).push(key@));
            }
            i = i + 1;
        }
        proof {
            assert(order.take(i as int) =~= order);
            assert forall|id: Seq<char>| #[trigger] views(ids@).contains(id) <==> self@.is_partial(
                id,
            ) by {
                assert(self.containers@.dom().contains(id) == self@.containers.dom().contains(id));
            }
        }
        ids
    }
}

/// Whether a list holds, each once, the keys that satisfy a condition.
spec fn listed(
    keys: Seq<Seq<char>>,
    p: spec_fn(Seq<char>) -> bool,
    list: Seq<Seq<char>>,
) -> bool {
    &&& list.no_duplicates()
    &&& forall|x: Seq<char>| #[trigger] list.contains(x) <==> keys.contains(x) && p(x)
}

proof fn lemma_listed_step(
    order: Seq<Seq<char>>,
    p: spec_fn(Seq<char>) -> bool,
    list: Seq<Seq<char>>,
    i: int,
)
    requires
        0 <= i < order.len(),
        order.no_duplicates(),
        listed(order.take(i), p, list),
    ensures
        p(order[i]) ==> listed(order.take(i + 1), p, list.push(order[i])),
        !p(order[i]) ==> listed(order.take(i + 1), p, list),
{
    let before = order.take(i);
    let after = order.take(i + 1);
    let key = order[i];
    assert(!before.contains(key)) by {
        if before.contains(key) {
            let k = choose|k: int| 0 <= k < before.len() && before[k] == key;
            assert(order[k] == order[i]);
        }
    }
    assert forall|x: Seq<char>| after.contains(x) <==> before.contains(x) || x == key by {
        if before.contains(x) {
            let k = choose|k: int| 0 <= k < before.len() && before[k] == x;
            assert(after[k] == x);
        }
        assert(after[i] == key);
        if after.contains(x) {
            let k = choose|k: int| 0 <= k < after.len() && after[k] == x;
            if k < i {
                assert(before[k] == x);
            }
        }
    }
    assert(!list.contains(key));
    let longer = list.push(key);
    assert forall|x: Seq<char>| #[trigger] longer.contains(x) <==> list.contains(x) || x == key by {
        if list.contains(x) {
            let k = choose|k: int| 0 <= k < list.len() && list[k] == x;
            assert(longer[k] == x);
        }
        assert(longer[list.len() as int] == key);
        if longer.contains(x) {
            let k = choose|k: int| 0 <= k < longer.len() && longer[k] == x;
            if k < list.len() {
                assert(list[k] == x);
            }
        }
    }
    assert forall|a: int, b: int| 0 <= a < longer.len() && 0 <= b < longer.len() && a != b implies
        longer[a] != longer[b] by {
        if a == list.len() {
            assert(list.contains(list[b]));
        } else if b == list.len() {
            assert(list.contains(list[a]));
        }
    }
}

}
