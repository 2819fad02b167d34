//! Typed counter, gauge, and snapshot evidence forwarded to lenses.
//!
//! Anomaly episodes only locate an incident; a finding needs the underlying
//! values. Counter columns hold the folded differences of the reader, gauges
//! hold levels, and snapshots hold moments.

pub mod counter;
pub mod gauge;
pub mod inputs;
pub mod snapshot;

