//! The published state of the machine.

use crate::binary64::Real;
use crate::names::NameMap;
use vstd::prelude::*;

verus! {

/// The processor.
#[derive(Clone, Copy, Debug)]
pub struct Cpu {
    /// Utilization in percent.
    pub usage: Real,
    /// Package temperature in degrees Celsius; zero without a sensor.
    pub temp: Real,
    /// Frequency in MHz.
    pub freq: Real,
    pub cores: u32,
    /// Load averages over 1, 5 and 15 minutes.
    pub load: Option<[Real; 3]>,
}

/// The operating system.
pub struct PlatformInfo {
    pub distro: String,
    pub kernel: String,
    pub uptime: String,
}

/// Disk traffic per second.
#[derive(Clone, Copy, Debug)]
pub struct DiskIo {
    pub read_bytes_per_sec: u64,
    pub write_bytes_per_sec: u64,
    pub read_iops: u64,
    pub write_iops: u64,
}

/// Network traffic per second.
#[derive(Clone, Copy, Debug)]
pub struct Throughput {
    pub rx_bytes_per_sec: u64,
    pub tx_bytes_per_sec: u64,
}

/// Counters of one network interface since boot.
#[derive(Clone, Copy, Debug)]
pub struct NetIfaceStats {
    pub bytes_sent: u64,
    pub bytes_received: u64,
    pub pk_sent: u64,
    pub pk_received: u64,
    pub error_in: u64,
    pub error_out: u64,
    pub dropin: u64,
    pub dropout: u64,
}

/// Memory, in GiB and in percent.
#[derive(Clone, Copy, Debug)]
pub struct Mem {
    pub total: Real,
    pub used: Real,
    pub free: Real,
    pub percent: Real,
}

/// Space of the primary file system, in GiB and in percent.
#[derive(Clone, Copy, Debug)]
pub struct Disk {
    pub total: Real,
    pub used: Real,
    pub free: Real,
    pub percent: Real,
}

/// Space of a mounted file system, in GiB and in percent.
pub struct DiskInfo {
    pub device: String,
    pub mountpoint: String,
    pub fstype: String,
    pub total: Real,
    pub used: Real,
    pub free: Real,
    pub percent: Real,
}

/// A group of processes by memory, in MiB.
#[derive(Debug)]
pub struct Process {
    pub pid: u32,
    pub name: String,
    pub username: String,
    pub mem: Real,
}

impl Clone for Process {
    fn clone(&self) -> (r: Process)
        ensures
            r == *self,
    {
        Process {
            pid: self.pid,
            name: self.name.clone(),
            username: self.username.clone(),
            mem: self.mem,
        }
    }
}

/// A group of processes by processor time, in percent.
pub struct ProcessCpu {
    pub pid: u32,
    pub name: String,
    pub username: String,
    pub cpu: Real,
}

/// Everything that one tick of the sampler found out.
pub struct Snapshot {
    pub cpu: Cpu,
    pub mem: Mem,
    pub disk: Disk,
    pub disks: Vec<DiskInfo>,
    pub disk_io: DiskIo,
    pub network: Throughput,
    /// The traffic of each interface but loopback.
    pub network_by_interface: NameMap<Throughput>,
    pub user: String,
    pub platform: PlatformInfo,
    pub uptime: String,
    pub processes: Vec<Process>,
    pub processes_metric: String,
    pub processes_by_cpu: Vec<ProcessCpu>,
    pub interfaces: Vec<String>,
    pub network_stats: NameMap<NetIfaceStats>,
}

impl Default for Cpu {
    fn default() -> (r: Cpu)
        ensures
            r == (Cpu {
                usage: Real::zero(),
                temp: Real::zero(),
                freq: Real::zero(),
                cores: 0,
                load: None,
            }),
    {
        let zero = Real::from_bits(0);
        Cpu { usage: zero, temp: zero, freq: zero, cores: 0, load: None }
    }
}

impl Default for PlatformInfo {
    fn default() -> (r: PlatformInfo)
        ensures
            r.distro@.len() == 0,
            r.kernel@.len() == 0,
            r.uptime@.len() == 0,
    {
        PlatformInfo { distro: String::new(), kernel: String::new(), uptime: String::new() }
    }
}

impl Default for DiskIo {
    fn default() -> (r: DiskIo)
        ensures
            r == (DiskIo {
                read_bytes_per_sec: 0,
                write_bytes_per_sec: 0,
                read_iops: 0,
                write_iops: 0,
            }),
    {
        DiskIo { read_bytes_per_sec: 0, write_bytes_per_sec: 0, read_iops: 0, write_iops: 0 }
    }
}

impl Default for Throughput {
    fn default() -> (r: Throughput)
        ensures
            r == (Throughput { rx_bytes_per_sec: 0, tx_bytes_per_sec: 0 }),
    {
        Throughput { rx_bytes_per_sec: 0, tx_bytes_per_sec: 0 }
    }
}

impl Default for Mem {
    fn default() -> (r: Mem)
        ensures
            r == (Mem {
                total: Real::zero(),
                used: Real::zero(),
                free: Real::zero(),
                percent: Real::zero(),
            }),
    {
        let zero = Real::from_bits(0);
        Mem { total: zero, used: zero, free: zero, percent: zero }
    }
}

impl Default for Disk {
    fn default() -> (r: Disk)
        ensures
            r == (Disk {
                total: Real::zero(),
                used: Real::zero(),
                free: Real::zero(),
                percent: Real::zero(),
            }),
    {
        let zero = Real::from_bits(0);
        Disk { total: zero, used: zero, free: zero, percent: zero }
    }
}

impl Snapshot {
    /// Whether nothing has been found out yet: every number is zero, every
    /// text and every list is empty.
    pub open spec fn blank(&self) -> bool {
        &&& self.cpu == (Cpu {
            usage: Real::zero(),
            temp: Real::zero(),
            freq: Real::zero(),
            cores: 0,
            load: None,
        })
        &&& self.mem == (Mem {
            total: Real::zero(),
            used: Real::zero(),
            free: Real::zero(),
            percent: Real::zero(),
        })
        &&& self.disk == (Disk {
            total: Real::zero(),
            used: Real::zero(),
            free: Real::zero(),
            percent: Real::zero(),
        })
        &&& self.disks@.len() == 0
        &&& self.disk_io == (DiskIo {
            read_bytes_per_sec: 0,
            write_bytes_per_sec: 0,
            read_iops: 0,
            write_iops: 0,
        })
        &&& self.network == (Throughput { rx_bytes_per_sec: 0, tx_bytes_per_sec: 0 })
        &&& self.network_by_interface.wf()
        &&& self.network_by_interface@ == Map::<Seq<char>, Throughput>::empty()
        &&& self.user@.len() == 0
        &&& self.platform.distro@.len() == 0
        &&& self.platform.kernel@.len() == 0
        &&& self.platform.uptime@.len() == 0
        &&& self.uptime@.len() == 0
        &&& self.processes@.len() == 0
        &&& self.processes_metric@.len() == 0
        &&& self.processes_by_cpu@.len() == 0
        &&& self.interfaces@.len() == 0
        &&& self.network_stats.wf()
        &&& self.network_stats@ == Map::<Seq<char>, NetIfaceStats>::empty()
    }
}

impl Default for Snapshot {
    fn default() -> (r: Snapshot)
        ensures
            r.blank(),
    {
        Snapshot {
            cpu: Cpu::default(),
            mem: Mem::default(),
            disk: Disk::default(),
            disks: Vec::new(),
            disk_io: DiskIo::default(),
            network: Throughput::default(),
            network_by_interface: NameMap::new(),
            user: String::new(),
            platform: PlatformInfo::default(),
            uptime: String::new(),
            processes: Vec::new(),
            processes_metric: String::new(),
            processes_by_cpu: Vec::new(),
            interfaces: Vec::new(),
            network_stats: NameMap::new(),
        }
    }
}

/// What `/system` shows.
pub struct HttpSystemView<'a> {
    pub cpu: &'a Cpu,
    pub mem: &'a Mem,
    pub disk: &'a Disk,
    pub disks: &'a [DiskInfo],
    pub disk_io: &'a DiskIo,
    pub network: &'a Throughput,
    pub user: &'a str,
    pub platform: &'a PlatformInfo,
    pub processes: &'a [Process],
    pub processes_metric: &'a str,
    pub processes_by_cpu: &'a [ProcessCpu],
}

/// What a WebSocket frame shows: no mounts, no user and no platform, but the
/// uptime.
pub struct WsSystemView<'a> {
    pub cpu: &'a Cpu,
    pub mem: &'a Mem,
    pub disk: &'a Disk,
    pub disk_io: &'a DiskIo,
    pub network: &'a Throughput,
    pub uptime: &'a str,
    pub processes: &'a [Process],
    pub processes_metric: &'a str,
    pub processes_by_cpu: &'a [ProcessCpu],
}

/// What `/network` shows.
pub struct NetworkView<'a> {
    pub interfaces: &'a [String],
    pub statistics: &'a NameMap<NetIfaceStats>,
}

impl Snapshot {
    /// The part of the snapshot for `/system`.
    pub fn http_view(&self) -> (v: HttpSystemView<'_>)
        ensures
            *v.cpu == self.cpu,
            *v.mem == self.mem,
            *v.disk == self.disk,
            v.disks@ == self.disks@,
            *v.disk_io == self.disk_io,
            *v.network == self.network,
            v.user@ == self.user@,
            *v.platform == self.platform,
            v.processes@ == self.processes@,
            v.processes_metric@ == self.processes_metric@,
            v.processes_by_cpu@ == self.processes_by_cpu@,
    {
        HttpSystemView {
            cpu: &self.cpu,
            mem: &self.mem,
            disk: &self.disk,
            disks: self.disks.as_slice(),
            disk_io: &self.disk_io,
            network: &self.network,
            user: self.user.as_str(),
            platform: &self.platform,
            processes: self.processes.as_slice(),
            processes_metric: self.processes_metric.as_str(),
            processes_by_cpu: self.processes_by_cpu.as_slice(),
        }
    }

    /// The part of the snapshot for a WebSocket frame.
    pub fn ws_view(&self) -> (v: WsSystemView<'_>)
        ensures
            *v.cpu == self.cpu,
            *v.mem == self.mem,
            *v.disk == self.disk,
            *v.disk_io == self.disk_io,
            *v.network == self.network,
            v.uptime@ == self.uptime@,
            v.processes@ == self.processes@,
            v.processes_metric@ == self.processes_metric@,
            v.processes_by_cpu@ == self.processes_by_cpu@,
    {
        WsSystemView {
            cpu: &self.cpu,
            mem: &self.mem,
            disk: &self.disk,
            disk_io: &self.disk_io,
            network: &self.network,
            uptime: self.uptime.as_str(),
            processes: self.processes.as_slice(),
            processes_metric: self.processes_metric.as_str(),
            processes_by_cpu: self.processes_by_cpu.as_slice(),
        }
    }

    /// The part of the snapshot for `/network`.
    pub fn network_view(&self) -> (v: NetworkView<'_>)
        ensures
            v.interfaces@ == self.interfaces@,
            *v.statistics == self.network_stats,
    {
        NetworkView { interfaces: self.interfaces.as_slice(), statistics: &self.network_stats }
    }
}

/// The temperature as it is published.
#[derive(Clone, Copy, PartialEq, Eq, Structural)]
pub enum TempField {
    /// No sensor: the integer zero.
    Zero,
    /// A reading.
    Degrees(Real),
}

/// How a temperature is published: the integer zero without a sensor.
pub fn serialize_temp(temp: Real) -> (r: TempField)
    ensures
        r == if temp.is_zero_value() {
            TempField::Zero
        } else {
            TempField::Degrees(temp)
        },
{
    if temp.is_zero() {
        TempField::Zero
    } else {
        TempField::Degrees(temp)
    }
}

/// A temperature is the integer zero if and only if its bits are those of zero,
/// of either sign.
pub proof fn law_zero_temperature(temp: Real)
    ensures
        temp.is_zero_value() <==> temp.bits == 0 || temp.bits == 0x8000_0000_0000_0000,
{
}

/// A blank snapshot shows zeros for every number, and no text, no list and no
/// table with anything in it.
pub proof fn law_blank_shows_nothing(s: Snapshot)
    requires
        s.blank(),
    ensures
        s.cpu.usage.bits == 0 && s.cpu.temp.bits == 0 && s.cpu.freq.bits == 0,
        s.cpu.cores == 0 && s.cpu.load is None,
        s.mem.total.bits == 0 && s.mem.used.bits == 0 && s.mem.free.bits == 0
            && s.mem.percent.bits == 0,
        s.disk.total.bits == 0 && s.disk.used.bits == 0 && s.disk.free.bits == 0
            && s.disk.percent.bits == 0,
        s.disk_io.read_bytes_per_sec == 0 && s.disk_io.write_bytes_per_sec == 0,
        s.disk_io.read_iops == 0 && s.disk_io.write_iops == 0,
        s.network.rx_bytes_per_sec == 0 && s.network.tx_bytes_per_sec == 0,
        s.disks@.len() == 0 && s.processes@.len() == 0 && s.processes_by_cpu@.len() == 0,
        s.interfaces@.len() == 0,
        s.user@.len() == 0 && s.uptime@.len() == 0 && s.processes_metric@.len() == 0,
        s.platform.distro@.len() == 0 && s.platform.kernel@.len() == 0 && s.platform.uptime@.len()
            == 0,
        forall|n: Seq<char>| !(#[trigger] s.network_by_interface@.contains_key(n)),
        forall|n: Seq<char>| !(#[trigger] s.network_stats@.contains_key(n)),
{
}

} // verus!
