//! Size profiling for a binary-encoded, self-describing value stream.
//!
//! Given the framing measurements of each top-level value (header bytes,
//! optional annotation bytes, value bytes), this crate computes the exact
//! byte footprint of every value and summarizes the resulting population:
//! count, minimum, maximum, mean, and an equal-width histogram.

pub mod accumulator;
pub mod command;
pub mod error;
pub mod histogram;
pub mod laws;
pub mod measurement;
pub mod stats;
pub mod summary;
