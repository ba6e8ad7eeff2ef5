//! Analysis of scheduling traces: CPU time, concurrency, time off the CPU and order of events.

pub mod analyzer;
pub mod columns;
pub mod command_line;
pub mod concurrency_analysis;
pub mod concurrency_laws;
pub mod cpu_time_counter;
pub mod cpu_time_tracker;
pub mod error;
pub mod event;
pub mod laws;
pub mod monotonicity_analysis;
pub mod off_cpu_analysis;
pub mod off_cpu_laws;
pub mod scheduling;
pub mod table_laws;
