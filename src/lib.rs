//! A TCP reachability and latency probe: destination and option parsing,
//! choice of the probed address, the decisions of the probe loop, and the
//! round-trip statistics of a run.
pub mod cli;
pub mod destination;
pub mod digits;
pub mod probe;
pub mod stats;
pub mod target;
pub mod text;
