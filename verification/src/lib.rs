//! A load-generation core for benchmarking a JSON-RPC endpoint.
//!
//! The library turns a duration/rate/concurrency configuration into timed
//! request cycles and aggregates nanosecond-resolution latencies into
//! histograms that can be snapshotted at sampling boundaries. All scheduling
//! decisions and statistics bookkeeping are verified; the asynchronous wire
//! transport is left to the embedding binary, which feeds measured timings
//! back into the verified state machine.

pub mod config;
pub mod ext;
pub mod workload;

use vstd::prelude::*;

verus! {

/// Errors surfaced by the library: configuration parsing and worker setup.
#[derive(Debug, Clone)]
pub enum FloodError {
    /// A configuration value could not be parsed.
    Parse(String),
    /// A worker's connection context could not be set up.
    Session(String),
}

impl FloodError {
    /// A human-readable description of the error.
    pub fn message(&self) -> (r: &String)
        ensures
            r@ == (match self {
                FloodError::Parse(m) => m@,
                FloodError::Session(m) => m@,
            }),
    {
        match self {
            FloodError::Parse(m) => m,
            FloodError::Session(m) => m,
        }
    }
}

} // verus!
