//! Core logic of a terminal monitor for pilots flying near an airport on the
//! VATSIM network: geographic filtering of the live pilot list, a per-pilot
//! experience cache, the refresh cycle that merges and sorts the result, a
//! selection that survives reordering refreshes, and the refresh schedule.
//!
//! Network transport and terminal rendering live outside this crate; the
//! functions here work on plain values handed in by that outer layer.

pub mod display;
pub mod engine;
pub mod geo;
pub mod input;
pub mod models;
pub mod sched;
pub mod state;
