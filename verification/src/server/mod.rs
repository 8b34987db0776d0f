//! The decisions of the HTTP and WebSocket server.

pub mod http;
pub mod probes;
pub mod worker;
pub mod ws;
