use vigil_collector::binary64::Real;
use vigil_collector::metrics::disk::DiskCounters;
use vigil_collector::metrics::net::Interface;
use vigil_collector::sampler::{
    next_step, CachedJson, ProcessScan, Published, Readings, Sampler, SamplerAction, SamplerEvent,
    SamplerPhase, SamplerState,
};
use vigil_collector::snapshot::{
    serialize_temp, Cpu, Disk, DiskInfo, Mem, PlatformInfo, Process, TempField,
};

fn num(x: f64) -> Real {
    Real::from_bits(x.to_bits())
}

fn readings(now: u64, counter: u64, scan: Option<ProcessScan>) -> Readings {
    Readings {
        cpu: Cpu { usage: num(1.0), temp: num(2.0), freq: num(3.0), cores: 4, load: None },
        mem: Mem { total: num(8.0), used: num(2.0), free: num(6.0), percent: num(25.0) },
        disk: Disk { total: num(1.0), used: num(1.0), free: num(0.0), percent: num(100.0) },
        disks: vec![DiskInfo {
            device: "/dev/sda1".to_string(),
            mountpoint: "/".to_string(),
            fstype: "ext4".to_string(),
            total: num(1.0),
            used: num(1.0),
            free: num(0.0),
            percent: num(100.0),
        }],
        disk_counters: Some(DiskCounters {
            read_bytes: counter,
            write_bytes: 2 * counter,
            read_ops: 3 * counter,
            write_ops: 4 * counter,
        }),
        interfaces: vec![Interface {
            name: "eth0".to_string(),
            received: counter,
            transmitted: 2 * counter,
            packets_received: 0,
            packets_transmitted: 0,
            errors_on_received: 0,
            errors_on_transmitted: 0,
        }],
        net_dev: None,
        platform: PlatformInfo {
            distro: "Debian".to_string(),
            kernel: "6.1".to_string(),
            uptime: "1 min".to_string(),
        },
        user: "me".to_string(),
        scan,
        now,
    }
}

fn scan(name: &str) -> Option<ProcessScan> {
    Some(ProcessScan {
        processes: vec![Process {
            pid: 1,
            name: name.to_string(),
            username: "u".to_string(),
            mem: num(1.0),
        }],
        pss: true,
    })
}

#[test]
fn slow_work_keeps_its_cadence() {
    let mut state = SamplerState::new(4);
    let mut scans = Vec::new();
    let mut rescans = Vec::new();
    for tick in 0..121u64 {
        let plan = state.plan();
        if plan.scan_processes {
            scans.push(tick);
        }
        if plan.rescan_mounts {
            rescans.push(tick);
        }
        let s = if plan.scan_processes { scan("p") } else { None };
        state.refresh(readings(tick, tick, s));
    }
    assert_eq!(scans.len(), 25);
    assert!(scans.iter().all(|t| t % 5 == 0));
    assert_eq!(rescans, vec![0, 60, 120]);
}

#[test]
fn processes_are_kept_between_scans() {
    let mut state = SamplerState::new(4);
    assert!(!state.cached_processes_pss);
    let first = state.refresh(readings(1, 1, scan("first")));
    assert_eq!(first.processes[0].name, "first");
    for tick in 1..5 {
        let s = state.refresh(readings(1 + tick, 1, None));
        assert_eq!(s.processes[0].name, "first");
        assert_eq!(s.processes_metric, "pss");
    }
    let sixth = state.refresh(readings(9, 1, scan("second")));
    assert_eq!(sixth.processes[0].name, "second");
}

#[test]
fn rates_need_two_ticks() {
    let mut state = SamplerState::new(4);
    let a = state.refresh(readings(1_000_000_000, 100, scan("p")));
    assert_eq!(a.disk_io.read_bytes_per_sec, 0);
    assert_eq!(a.network.rx_bytes_per_sec, 0);
    let b = state.refresh(readings(3_000_000_000, 300, None));
    assert_eq!(b.disk_io.read_bytes_per_sec, 100);
    assert_eq!(b.disk_io.write_bytes_per_sec, 200);
    assert_eq!((b.disk_io.read_iops, b.disk_io.write_iops), (300, 400));
    assert_eq!((b.network.rx_bytes_per_sec, b.network.tx_bytes_per_sec), (100, 200));
    let eth = b.network_by_interface.get("eth0").unwrap();
    assert_eq!((eth.rx_bytes_per_sec, eth.tx_bytes_per_sec), (100, 200));
    assert_eq!(a.network_by_interface.get("eth0").unwrap().rx_bytes_per_sec, 0);
    assert_eq!(b.interfaces, vec!["eth0"]);
    assert_eq!(b.network_stats.get("eth0").unwrap().bytes_received, 300);
    assert_eq!((b.uptime.as_str(), b.user.as_str()), ("1 min", "me"));
    assert!(b.processes_by_cpu.is_empty());
}

#[test]
fn views_project_the_snapshot() {
    let mut state = SamplerState::new(4);
    let s = state.refresh(readings(1, 1, scan("p")));
    let http = s.http_view();
    assert_eq!((http.user, http.disks.len(), http.processes.len()), ("me", 1, 1));
    assert_eq!(http.platform.distro, "Debian");
    assert_eq!(http.processes_metric, "pss");
    let ws = s.ws_view();
    assert_eq!((ws.uptime, ws.processes[0].name.as_str()), ("1 min", "p"));
    let net = s.network_view();
    assert_eq!(net.interfaces.len(), 1);
    assert_eq!(net.statistics.pairs().len(), 1);
}

#[test]
fn temperature_zero_is_an_integer() {
    assert!(serialize_temp(num(0.0)) == TempField::Zero);
    assert!(serialize_temp(num(-0.0)) == TempField::Zero);
    assert!(serialize_temp(num(48.5)) == TempField::Degrees(num(48.5)));
}

#[test]
fn published_bytes_survive_a_failed_serialization() {
    let empty = CachedJson::new();
    assert_eq!(empty.http_system, b"{}".to_vec());
    assert_eq!(empty.ws_system, b"{}".to_vec());
    assert_eq!(empty.network, b"{\"interfaces\":[],\"statistics\":{}}".to_vec());
    let a = empty.publish(Some(b"1".to_vec()), Some(b"2".to_vec()), Some(b"3".to_vec()));
    let b = a.publish(None, Some(b"4".to_vec()), None);
    assert_eq!(b.http_system, b"1".to_vec());
    assert_eq!(b.ws_system, b"4".to_vec());
    assert_eq!(b.network, b"3".to_vec());
}

#[test]
fn the_sampler_never_dies() {
    let waiting = SamplerPhase::Waiting;
    assert!(next_step(waiting, SamplerEvent::IntervalElapsed) == (SamplerPhase::Refreshing, SamplerAction::Refresh));
    let refreshing = SamplerPhase::Refreshing;
    assert!(next_step(refreshing, SamplerEvent::RefreshDone) == (waiting, SamplerAction::Publish));
    assert!(next_step(refreshing, SamplerEvent::RefreshFailed) == (waiting, SamplerAction::Rebuild));
    assert!(next_step(refreshing, SamplerEvent::StopRequested) == (refreshing, SamplerAction::Ignore));
    assert!(next_step(waiting, SamplerEvent::StopRequested) == (SamplerPhase::Stopped, SamplerAction::Exit));
}

#[test]
fn the_first_snapshot_comes_before_the_first_tick() {
    let mut state = SamplerState::new(4);
    let mut s = Sampler::new(num(1.0));
    let empty = Published::new();
    assert_eq!(empty.snapshot.cpu.cores, 0);
    assert!(empty.snapshot.cpu.usage == num(0.0));
    assert!(empty.snapshot.cpu.load.is_none());
    assert!(empty.snapshot.processes.is_empty());
    assert_eq!(empty.snapshot.processes_metric, "");
    assert_eq!(empty.snapshot.platform.distro, "");
    assert!(s.start());
    let first = state.refresh(readings(1, 1, scan("seed")));
    let shown = s.seeded(&empty, first, Some(b"h".to_vec()), Some(b"w".to_vec()), Some(b"n".to_vec()));
    assert_eq!(shown.snapshot.processes[0].name, "seed");
    assert_eq!(shown.json.http_system, b"h".to_vec());
    assert_eq!(shown.json.ws_system, b"w".to_vec());
    assert_eq!(shown.json.network, b"n".to_vec());
    assert!(!s.start());
    let next = shown.show(state.refresh(readings(2, 1, None)), None, Some(b"w2".to_vec()), None);
    assert_eq!(next.json.http_system, b"h".to_vec());
    assert_eq!(next.json.ws_system, b"w2".to_vec());
}

#[test]
fn waiting_is_reached_through_a_publication() {
    let stopped = SamplerPhase::Stopped;
    assert!(next_step(stopped, SamplerEvent::StartRequested) == (SamplerPhase::Seeding, SamplerAction::Seed));
    assert!(next_step(SamplerPhase::Seeding, SamplerEvent::IntervalElapsed) == (SamplerPhase::Seeding, SamplerAction::Ignore));
    assert!(next_step(SamplerPhase::Seeding, SamplerEvent::RefreshDone) == (SamplerPhase::Waiting, SamplerAction::Publish));
    assert!(next_step(SamplerPhase::Waiting, SamplerEvent::StartRequested) == (SamplerPhase::Waiting, SamplerAction::Ignore));
}

#[test]
fn the_snapshot_agrees_with_itself() {
    let mut state = SamplerState::new(7);
    let s = state.refresh(readings(1, 1, scan("p")));
    assert_eq!(s.cpu.cores, 7);
    assert_eq!(s.uptime, s.platform.uptime);
    assert_eq!(s.processes_metric, "pss");
    assert_eq!(s.interfaces.len(), s.network_stats.pairs().len());
    let mut other = SamplerState::new(7);
    let scan = ProcessScan { processes: Vec::new(), pss: false };
    assert_eq!(other.refresh(readings(1, 1, Some(scan))).processes_metric, "rss");
}

#[test]
fn the_sampler_starts_and_stops_once() {
    let mut s = Sampler::new(num(1.0));
    assert!(s.start());
    assert!(!s.start());
    assert!(s.stop());
    assert!(!s.stop());
    assert!(s.start());
}

#[test]
fn the_interval_has_a_floor() {
    let secs = |x: f64| f64::from_bits(Sampler::new(num(x)).interval().bits);
    assert_eq!(secs(1.0), 1.0);
    assert_eq!(secs(0.1), 0.1);
    assert_eq!(secs(0.05), 0.1);
    assert_eq!(secs(0.0), 0.1);
    assert_eq!(secs(-3.0), 0.1);
    assert_eq!(secs(f64::NAN), 0.1);
    assert_eq!(secs(f64::NEG_INFINITY), 0.1);
}
