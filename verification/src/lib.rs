//! Incident analysis over typed telemetry.

pub mod active;
pub mod align;
pub mod catalog;
pub mod cluster;
pub mod digest;
pub mod dispatch;
pub mod engine;
pub mod entity_join;
pub mod events;
pub mod evidence;
pub mod float64;
pub mod gauge_contracts;
pub mod inspect;
pub mod laws;
pub mod lens;
pub mod lenses;
pub mod load;
pub mod model;
pub mod order;
pub mod ordered;
pub mod os_lenses;
pub mod query_plan;
pub mod series;
pub mod text;
pub mod typed;
