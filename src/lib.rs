//! Bounded-concurrency batch orchestration with hierarchical progress.
//!
//! The library holds the decisions: which item is admitted next, how each
//! completion is accounted for, and which progress events a work unit emits.
//! The caller performs the actual waiting, spawning and rendering.

pub mod batch;
pub mod config;
pub mod item;
pub mod scheduler;
pub mod timing;
pub mod unit;
