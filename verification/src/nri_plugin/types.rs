//! What the plugin is told, what it holds of pods and containers, and what it reports.

use vstd::prelude::*;

use crate::resctrl::error::{error_text, Error, ErrorView};

verus! {

/// Resctrl group state for a pod.
#[derive(Clone, Debug, PartialEq, Eq)]
pub enum ResctrlGroupState {
    /// The group exists at the given path.
    Exists(String),
    /// The group could not be created.
    Failed,
}

/// The state of a pod's group as a value.
pub ghost enum GroupView {
    Exists(Seq<char>),
    Failed,
}

impl View for ResctrlGroupState {
    type V = GroupView;

    open spec fn view(&self) -> GroupView {
        match *self {
            ResctrlGroupState::Exists(path) => GroupView::Exists(path@),
            ResctrlGroupState::Failed => GroupView::Failed,
        }
    }
}

impl ResctrlGroupState {
    /// A copy of the state.
    pub fn copy(&self) -> (r: ResctrlGroupState)
        ensures
            r@ == self@,
    {
        match self {
            ResctrlGroupState::Exists(path) => ResctrlGroupState::Exists(path.clone()),
            ResctrlGroupState::Failed => ResctrlGroupState::Failed,
        }
    }
}

/// Event payload for an added or updated pod.
#[derive(Clone, Debug, PartialEq, Eq)]
pub struct PodResctrlAddOrUpdate {
    pub pod_uid: String,
    pub group_state: ResctrlGroupState,
    /// Number of containers known for the pod.
    pub total_containers: usize,
    /// Number of containers reconciled successfully.
    pub reconciled_containers: usize,
}

/// Event payload for a removed pod.
#[derive(Clone, Debug, PartialEq, Eq)]
pub struct PodResctrlRemoved {
    pub pod_uid: String,
}

/// Events emitted by the resctrl plugin.
#[derive(Clone, Debug, PartialEq, Eq)]
pub enum PodResctrlEvent {
    AddOrUpdate(PodResctrlAddOrUpdate),
    Removed(PodResctrlRemoved),
}

/// What is held of a pod: its group, and how many of its containers are known and reconciled.
pub ghost struct PodView {
    pub group: GroupView,
    pub total: nat,
    pub reconciled: nat,
}

/// An event as a value.
pub ghost enum PodEventView {
    AddOrUpdate { pod_uid: Seq<char>, pod: PodView },
    Removed { uid: Seq<char> },
}

impl View for PodResctrlEvent {
    type V = PodEventView;

    open spec fn view(&self) -> PodEventView {
        match *self {
            PodResctrlEvent::AddOrUpdate(a) => PodEventView::AddOrUpdate {
                pod_uid: a.pod_uid@,
                pod: PodView {
                    group: a.group_state@,
                    total: a.total_containers as nat,
                    reconciled: a.reconciled_containers as nat,
                },
            },
            PodResctrlEvent::Removed(r) => PodEventView::Removed { uid: r.pod_uid@ },
        }
    }
}

/// Events as values.
pub open spec fn event_views(events: Seq<PodResctrlEvent>) -> Seq<PodEventView> {
    events.map_values(|e: PodResctrlEvent| e@)
}

/// Configuration for the resctrl plugin.
#[derive(Clone, Debug)]
pub struct ResctrlPluginConfig {
    /// Prefix of the names of resctrl groups.
    pub group_prefix: String,
    /// Whether stale groups with the prefix are removed on start.
    pub cleanup_on_start: bool,
    /// Max reconciliation passes when assigning tasks of a container.
    pub max_reconcile_passes: usize,
    /// Max concurrent pod operations.
    pub concurrency_limit: usize,
    /// Whether resctrl is mounted when it is not.
    pub auto_mount: bool,
}

impl Default for ResctrlPluginConfig {
    fn default() -> (r: ResctrlPluginConfig)
        ensures
            r.group_prefix@ == "pod_"@,
            r.cleanup_on_start,
            r.max_reconcile_passes == 10,
            r.concurrency_limit == 1,
            !r.auto_mount,
    {
        ResctrlPluginConfig {
            group_prefix: "pod_".to_string(),
            cleanup_on_start: true,
            max_reconcile_passes: 10,
            concurrency_limit: 1,
            auto_mount: false,
        }
    }
}

/// How far the tasks of a container are in its pod's group.
#[derive(Clone, Copy, Debug, PartialEq, Eq, Structural)]
pub enum ContainerSyncState {
    /// The container was seen before its pod.
    NoPod,
    /// Tasks are missing in the group, or there is none.
    Partial,
    /// All tasks are in the group.
    Reconciled,
}

/// What is held of a container.
pub ghost struct ContainerView {
    pub pod_uid: Seq<char>,
    pub cgroup_path: Seq<char>,
    pub state: ContainerSyncState,
}

/// A pod as the runtime describes it.
#[derive(Clone, Debug)]
pub struct PodSandbox {
    pub id: String,
    pub uid: String,
}

/// A container as the runtime describes it, with the full path of its control group.
#[derive(Clone, Debug)]
pub struct Container {
    pub id: String,
    pub pod_sandbox_id: String,
    /// The full path that the container's own data and its pod's give.
    pub cgroup_path: String,
    /// The full path that the container's own data alone give.
    pub cgroup_path_without_pod: String,
}

/// What happens to pods and containers in the runtime.
#[derive(Clone, Copy, Debug, PartialEq, Eq, Structural)]
pub enum LifecycleEvent {
    RunPodSandbox,
    RemovePodSandbox,
    CreateContainer,
    RemoveContainer,
    /// Anything else.
    Other,
}

/// Why a pod or a container was not brought on.
#[derive(Debug)]
pub enum PluginError {
    PodNotFound,
    ContainerNotFound,
    Resctrl(Error),
}

/// What an error says.
pub ghost enum PluginErrorView {
    PodNotFound,
    ContainerNotFound,
    Resctrl(ErrorView),
}

impl View for PluginError {
    type V = PluginErrorView;

    open spec fn view(&self) -> PluginErrorView {
        match *self {
            PluginError::PodNotFound => PluginErrorView::PodNotFound,
            PluginError::ContainerNotFound => PluginErrorView::ContainerNotFound,
            PluginError::Resctrl(e) => PluginErrorView::Resctrl(e@),
        }
    }
}

/// The text of an error, given that of the input or output error behind it.
pub open spec fn plugin_error_text(e: PluginErrorView, cause: Seq<char>) -> Seq<char> {
    match e {
        PluginErrorView::PodNotFound => "pod not found"@,
        PluginErrorView::ContainerNotFound => "container not found"@,
        PluginErrorView::Resctrl(e) => error_text(e, cause),
    }
}

impl PluginError {
    /// The text of the error, given that of the input or output error behind it.
    pub fn message(&self, cause: &str) -> (r: String)
        ensures
            r@ == plugin_error_text(self@, cause@),
    {
        match self {
            PluginError::PodNotFound => "pod not found".to_string(),
            PluginError::ContainerNotFound => "container not found".to_string(),
            PluginError::Resctrl(e) => e.message(cause),
        }
    }
}

/// The events that the plugin subscribes to.
pub fn subscribed_events() -> (r: Vec<LifecycleEvent>)
    ensures
        r@ == seq![
            LifecycleEvent::CreateContainer,
            LifecycleEvent::RemoveContainer,
            LifecycleEvent::RunPodSandbox,
            LifecycleEvent::RemovePodSandbox,
        ],
{
    let mut events: Vec<LifecycleEvent> = Vec::new();
    events.push(LifecycleEvent::CreateContainer);
    events.push(LifecycleEvent::RemoveContainer);
    events.push(LifecycleEvent::RunPodSandbox);
    events.push(LifecycleEvent::RemovePodSandbox);
    events
}

}
