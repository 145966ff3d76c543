//! Incremental view-maintenance core for a change-data-capture dataflow
//! engine: stateful operators that keep grouped aggregates and windowed
//! views up to date from a stream of row-level deltas, and a transactional,
//! indexed, versioned cache that pipeline output is committed into.

pub mod aggregation;
pub mod alist;
pub mod app_state;
pub mod cache;
pub mod config;
pub mod errors;
pub mod fields;
pub mod index;
pub mod record_store;
pub mod records;
pub mod sink;
pub mod window;
