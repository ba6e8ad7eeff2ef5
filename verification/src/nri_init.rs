//! Enabling of the runtime's plugin interface on a node.

pub mod cmd;
pub mod containerd;
pub mod course;
pub mod detect;
pub mod error;
pub mod k3s;
pub mod laws;
pub mod opts;
pub mod run;
pub mod toml_util;
pub mod verify;
pub mod version;

pub use detect::{Detection, EnvKind};
pub use error::NriError;
pub use opts::{LogLevel, Mode, Nsenter, Options};
pub use run::NriOutcome;
pub use verify::RestartResult;
