//! Reassembly of interleaved multi-channel sample streams into complete scans,
//! calibration of raw codes, stall detection and the decisions of the
//! acquisition loop that ties them together.

pub mod grid;
pub mod reassembly;
pub mod convert;
pub mod monitor;
pub mod acquisition;
pub mod setup;
