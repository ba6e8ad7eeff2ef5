//! Monitoring groups of the resctrl filesystem: mounting, groups of pods, their tasks and cleanup.

pub mod call_laws;
pub mod error;
pub mod group;
pub mod handle;
pub mod laws;
pub mod provider;
pub mod runs;
pub mod source;

pub use error::Error;
pub use handle::{AssignmentResult, CleanupReport, Config, Resctrl, SupportInfo};
pub use provider::FsProvider;
pub use source::PidSource;
