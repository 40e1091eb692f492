//! What holds of the protocol as a whole.
pub mod announce;
pub mod clocks;
pub mod delivery;
pub mod formats;
pub mod listening;
pub mod names;
pub mod outcomes;
pub mod reassembly;
pub mod rendering;
pub mod reporting;
pub mod sending;
pub mod steps;
pub mod wire;
