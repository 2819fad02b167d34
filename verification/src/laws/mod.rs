//! What the operations of the library are for, as laws over their inputs and
//! results.

pub mod aligned;
pub mod answers;
pub mod clustering;
pub mod counters;
pub mod devices;
pub mod edges;
pub mod facts;
pub mod gauges;
pub mod grading;
pub mod host;
pub mod incidents;
pub mod intake;
pub mod integers;
pub mod levels;
pub mod plans;
pub mod processes;
pub mod queries;
pub mod ratio;
pub mod records;
pub mod registry;
pub mod sessions;
pub mod slots;
pub mod steps;
pub mod store;
pub mod subject;
pub mod sums;
