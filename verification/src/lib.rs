//! A daily cryptocurrency signal engine over fixed-point arithmetic.
//!
//! All prices, volumes, fractions and cash amounts are scaled integers with
//! six decimal places (`SCALE` units per whole unit), so that every indicator,
//! score and simulated trade is computed exactly and deterministically.

use vstd::prelude::*;

pub mod analytics;
pub mod data_point;
pub mod engine;
pub mod indicators;
pub mod laws;
pub mod models;
pub mod shared;
pub mod status;
pub mod num;

verus! {

/// Number of scaled integer units per whole unit (six decimal places).
pub const SCALE: i64 = 1_000_000;

/// Largest accepted scaled price (open/high/low/close).
pub const PRICE_MAX: i64 = 100_000_000_000_000;

/// Largest accepted scaled volume.
pub const VOLUME_MAX: i64 = 1_000_000_000_000_000;

/// Largest accepted magnitude for a bar timestamp, in milliseconds.
pub const DATETIME_MAX: i64 = 1_000_000_000_000_000;

/// Errors surfaced by the engine.
#[derive(Debug, Clone, PartialEq, Eq, Structural)]
pub enum EngineError {
    /// The input series has out-of-range values, non-ascending timestamps,
    /// or inconsistent lengths across analytics inputs.
    InputShape,
    /// An arithmetic fault in an analytics call, such as the correlation of
    /// an empty series.
    ComputeError,
}

} // verus!
