//! Pushing to a hub.

pub mod client;
pub mod flatten;
pub mod protocol;
