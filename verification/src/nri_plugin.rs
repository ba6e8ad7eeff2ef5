//! The plugin of the container runtime that keeps a resctrl group for each pod.

pub mod handler;
pub mod laws;
pub mod pid_source;
pub mod placement;
pub mod relations;
pub mod retry_laws;
pub mod state;
pub mod types;

pub use handler::ResctrlPlugin;
pub use pid_source::CgroupPidSource;
pub use types::{
    PluginError, PodResctrlAddOrUpdate, PodResctrlEvent, PodResctrlRemoved, ResctrlGroupState,
    ResctrlPluginConfig,
};
