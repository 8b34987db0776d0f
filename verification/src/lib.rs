//! Verified core of a host-metrics collector.
//!
//! The library decides and computes; reading the machine, talking to the
//! network and keeping time belong to the program around it.

pub mod binary64;
pub mod cli;
pub mod config;
pub mod hub;
pub mod log;
pub mod metrics;
pub mod names;
pub mod number;
pub mod sampler;
pub mod server;
pub mod snapshot;
pub mod startup;
pub mod text;
