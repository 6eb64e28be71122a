//! Regression-decision engine for benchmark results: it selects the newest
//! baseline release, joins fresh samples to the baseline's per-metric
//! statistics by (project, metric) key, and computes a threshold-based
//! regression verdict with a configurable confidence multiplier.
//!
//! Floating-point statistics are carried as IEEE 754 binary64 bit patterns
//! (`u64`); the arithmetic on them lives behind the wrappers in `ieee`.

pub mod calculate;
pub mod errors;
pub mod ieee;
pub mod model;
pub mod version;
