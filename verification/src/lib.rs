//! A collector for cluster nodes: resource-control groups for pods, the node's container runtime
//! configuration, enrichment of measurements, and analysis of scheduling traces.

pub mod batch;
pub mod decimal;
pub mod error_report;
pub mod health_server;
pub mod message_laws;
pub mod nri_enrich;
pub mod nri_init;
pub mod nri_plugin;
pub mod path;
pub mod resctrl;
pub mod resctrl_collector;
pub mod schema;
pub mod search;
pub mod str_map;
pub mod text;
pub mod text_laws;
pub mod trace;
