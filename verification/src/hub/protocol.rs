//! The frames that are exchanged with a hub.

use crate::hub::flatten::MetricValue;
use crate::binary64::Real;
use crate::names::NameMap;
use vstd::prelude::*;

verus! {

/// The version of the protocol.
pub const PROTOCOL_VERSION: u32 = 1;

/// The version of the collector.
pub const AGENT_VERSION: &'static str = "0.1.1";

/// The host, as it introduces itself.
pub struct HostInfo<'a> {
    pub name: &'a str,
    pub hostname: &'a str,
    pub os: &'a str,
    pub arch: &'a str,
    pub agent_version: &'a str,
    pub cpu_cores: Option<u32>,
    pub tags: &'a [String],
}

/// The first frame to the hub.
pub struct Hello<'a> {
    pub v: u32,
    pub t: &'static str,
    pub key: &'a str,
    pub host: HostInfo<'a>,
}

/// A frame from the hub.
pub enum HubFrame {
    Welcome { host_id: Option<i64>, interval: Option<Real> },
    Error { code: Option<String>, message: Option<String> },
    Ping,
    Pong,
    Unknown,
}

/// A frame of metrics.
pub struct Samples<'a> {
    pub v: u32,
    pub t: &'static str,
    pub ts: i64,
    pub metrics: &'a NameMap<MetricValue>,
}

/// A row of a frame of processes by memory.
pub struct ProcessItem<'a> {
    pub pid: u32,
    pub name: &'a str,
    pub username: &'a str,
    pub mem_bytes: u64,
}

/// A frame of processes by memory.
pub struct Processes<'a> {
    pub v: u32,
    pub t: &'static str,
    pub ts: i64,
    pub metric: &'a str,
    pub items: Vec<ProcessItem<'a>>,
}

/// A row of a frame of processes by processor time.
pub struct ProcessCpuItem<'a> {
    pub pid: u32,
    pub name: &'a str,
    pub username: &'a str,
    pub cpu_pct: Real,
}

/// A frame of processes by processor time.
pub struct ProcessesCpu<'a> {
    pub v: u32,
    pub t: &'static str,
    pub ts: i64,
    pub items: Vec<ProcessCpuItem<'a>>,
}

} // verus!
