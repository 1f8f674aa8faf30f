//! Verified core of a small telemetry display: a single-slot forecast cache
//! that honours the upstream expiry window, the pure projection of a forecast
//! document onto the next hours, the sensor-text parser, and the all-or-nothing
//! join of one tick's concurrent operations.

pub mod cache;
pub mod errors;
pub mod met;
pub mod onewire;
pub mod orchestrator;
