//! Core of a metrics-collection daemon: metric primitives, sample parsers,
//! and the decision logic of the poll, update and scheduling cycles.

pub mod config;
pub mod errors;
pub mod metric;
pub mod parsers;
pub mod plugin;
pub mod plugins;
pub mod poller;
pub mod scheduler;
pub mod updater;
