//! Samples of the last level cache that pods occupy.

pub mod config;
pub mod laws;
pub mod sampling;
pub mod tables;

pub use config::{Interval, ResctrlCollectorConfig};
pub use sampling::{create_schema, now_ns, OccupancyColumns, Sample};
pub use tables::{ResctrlCollector, Tables};
