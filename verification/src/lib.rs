//! Core engine of a terminal system monitor: bounded metric history,
//! process-table reconciliation, panel layout state, and the persistence
//! and event-loop state machines that drive an interactive dashboard.

pub mod config;
pub mod engine;
pub mod history;
pub mod layout;
pub mod process;
pub mod sampler;
pub mod store;
