use vigil_collector::binary64::Real;
use vigil_collector::hub::client::{
    advertised_name, clip, detect_os, hello, hostname, hostname_from, processes_frame,
    read_greeting, samples_frame, HubAction, HubClient, HubError, HubEvent, HubLink, HubPhase,
    Incoming, PushFrame, Round,
};
use vigil_collector::hub::flatten::{flatten, gib_to_bytes, MetricValue};
use vigil_collector::hub::protocol::HubFrame;
use vigil_collector::names::NameMap;
use vigil_collector::snapshot::{
    Cpu, Disk, DiskInfo, DiskIo, Mem, PlatformInfo, Process, Snapshot, Throughput,
};

fn num(x: f64) -> Real {
    Real::from_bits(x.to_bits())
}

fn disk(mountpoint: &str, total: f64, used: f64, percent: f64) -> DiskInfo {
    DiskInfo {
        device: "/dev/sda1".to_string(),
        mountpoint: mountpoint.to_string(),
        fstype: "ext4".to_string(),
        total: num(total),
        used: num(used),
        free: num(total - used),
        percent: num(percent),
    }
}

fn process(pid: u32, name: &str, username: &str, mem: f64) -> Process {
    Process {
        pid,
        name: name.to_string(),
        username: username.to_string(),
        mem: num(mem),
    }
}

fn snapshot(disks: Vec<DiskInfo>, processes: Vec<Process>) -> Snapshot {
    Snapshot {
        cpu: Cpu {
            usage: num(12.5),
            temp: num(48.0),
            freq: num(2400.0),
            cores: 8,
            load: Some([num(0.5), num(0.25), num(0.125)]),
        },
        mem: Mem { total: num(16.0), used: num(4.5), free: num(11.5), percent: num(28.1) },
        disk: Disk { total: num(100.0), used: num(40.0), free: num(60.0), percent: num(40.0) },
        disks,
        disk_io: DiskIo {
            read_bytes_per_sec: 1024,
            write_bytes_per_sec: 2048,
            read_iops: 3,
            write_iops: 4,
        },
        network: Throughput { rx_bytes_per_sec: 500, tx_bytes_per_sec: 600 },
        network_by_interface: NameMap::new(),
        user: "root".to_string(),
        platform: PlatformInfo {
            distro: "Debian".to_string(),
            kernel: "6.1".to_string(),
            uptime: "1 minute".to_string(),
        },
        uptime: "1 minute".to_string(),
        processes,
        processes_metric: "pss".to_string(),
        processes_by_cpu: Vec::new(),
        interfaces: Vec::new(),
        network_stats: NameMap::new(),
    }
}

fn measure(metrics: &NameMap<MetricValue>, key: &str) -> Option<f64> {
    match metrics.get(key) {
        Some(MetricValue::Measure(x)) => Some(f64::from_bits(x.bits)),
        _ => None,
    }
}

fn count(metrics: &NameMap<MetricValue>, key: &str) -> Option<u64> {
    match metrics.get(key) {
        Some(MetricValue::Count(n)) => Some(*n),
        _ => None,
    }
}

#[test]
fn flatten_lists_every_fixed_metric() {
    let m = flatten(&snapshot(Vec::new(), Vec::new()));
    assert_eq!(m.pairs().len(), 16);
    assert_eq!(measure(&m, "cpu.usage"), Some(12.5));
    assert_eq!(measure(&m, "cpu.freq_mhz"), Some(2400.0));
    assert_eq!(measure(&m, "cpu.load_1m"), Some(0.5));
    assert_eq!(measure(&m, "cpu.load_5m"), Some(0.25));
    assert_eq!(measure(&m, "cpu.load_15m"), Some(0.125));
    assert_eq!(measure(&m, "cpu.temp_c"), Some(48.0));
    assert_eq!(count(&m, "mem.total_bytes"), Some(17179869184));
    assert_eq!(count(&m, "mem.used_bytes"), Some(4831838208));
    assert_eq!(count(&m, "mem.free_bytes"), Some(12348030976));
    assert_eq!(measure(&m, "mem.percent"), Some(28.1));
    assert_eq!(count(&m, "disk.io.read_bytes_per_s"), Some(1024));
    assert_eq!(count(&m, "disk.io.write_bytes_per_s"), Some(2048));
    assert_eq!(count(&m, "disk.io.read_iops"), Some(3));
    assert_eq!(count(&m, "disk.io.write_iops"), Some(4));
    assert_eq!(count(&m, "net.rx_bytes_per_s"), Some(500));
    assert_eq!(count(&m, "net.tx_bytes_per_s"), Some(600));
}

#[test]
fn a_blank_snapshot_gives_zeros() {
    let blank = Snapshot::default();
    let m = flatten(&blank);
    assert_eq!(m.pairs().len(), 11);
    for (_, value) in m.pairs() {
        assert!(*value == MetricValue::Measure(num(0.0)) || *value == MetricValue::Count(0));
    }
    assert_eq!(measure(&m, "cpu.usage"), Some(0.0));
    assert_eq!(count(&m, "mem.total_bytes"), Some(0));
    assert_eq!(Round::new(&blank, 7).frames().len(), 1);
}

#[test]
fn flatten_leaves_out_unknown_cpu_values() {
    let mut s = snapshot(Vec::new(), Vec::new());
    s.cpu.freq = num(0.0);
    s.cpu.temp = num(-0.0);
    s.cpu.load = None;
    let m = flatten(&s);
    assert_eq!(m.pairs().len(), 11);
    assert!(m.get("cpu.freq_mhz").is_none());
    assert!(m.get("cpu.temp_c").is_none());
    assert!(m.get("cpu.load_1m").is_none());
    s.cpu.temp = num(f64::NAN);
    assert!(flatten(&s).get("cpu.temp_c").is_none());
    s.cpu.temp = num(f64::INFINITY);
    assert!(flatten(&s).get("cpu.temp_c").is_none());
    s.cpu.temp = num(-3.5);
    assert_eq!(measure(&flatten(&s), "cpu.temp_c"), Some(-3.5));
}

#[test]
fn reported_mounts_are_shown() {
    let m = flatten(&snapshot(vec![disk("/", 2.0, 1.0, 50.0), disk("/var", 4.0, 0.5, 12.5)], Vec::new()));
    assert_eq!(count(&m, "disk.total_bytes|/"), Some(2147483648));
    assert_eq!(count(&m, "disk.used_bytes|/"), Some(1073741824));
    assert_eq!(measure(&m, "disk.percent|/"), Some(50.0));
    assert_eq!(count(&m, "disk.used_bytes|/var"), Some(536870912));
}

#[test]
fn a_later_mount_at_the_same_path_wins() {
    let m = flatten(&snapshot(vec![disk("/a", 2.0, 1.0, 50.0), disk("/a", 8.0, 2.0, 25.0)], Vec::new()));
    assert_eq!(count(&m, "disk.total_bytes|/a"), Some(8589934592));
    assert_eq!(measure(&m, "disk.percent|/a"), Some(25.0));
    assert_eq!(m.pairs().len(), 19);
}

#[test]
fn container_and_snap_mounts_are_silent() {
    let skipped = ["", "/snap/core/1", "/var/lib/docker/overlay2", "/run/docker/netns"];
    for mount in skipped {
        let m = flatten(&snapshot(vec![disk(mount, 2.0, 1.0, 50.0)], Vec::new()));
        assert_eq!(m.pairs().len(), 16);
    }
    let m = flatten(&snapshot(vec![disk("/snapshots", 2.0, 1.0, 50.0)], Vec::new()));
    assert_eq!(m.pairs().len(), 19);
}

#[test]
fn traffic_is_keyed_by_interface() {
    let mut s = snapshot(Vec::new(), Vec::new());
    s.interfaces = vec!["lo".to_string(), "eth0".to_string(), "wlan0".to_string()];
    s.network_by_interface
        .insert("eth0".to_string(), Throughput { rx_bytes_per_sec: 7, tx_bytes_per_sec: 8 });
    let m = flatten(&s);
    assert_eq!(count(&m, "net.rx_bytes_per_s|eth0"), Some(7));
    assert_eq!(count(&m, "net.tx_bytes_per_s|eth0"), Some(8));
    assert_eq!(count(&m, "net.rx_bytes_per_s|wlan0"), Some(0));
    assert_eq!(count(&m, "net.rx_bytes_per_s"), Some(500));
    assert!(m.get("net.rx_bytes_per_s|lo").is_none());
    assert!(m.get("net.tx_bytes_per_s|eth1").is_none());
    assert_eq!(m.pairs().len(), 20);
}

#[test]
fn a_round_is_of_one_snapshot_and_one_time() {
    let s = snapshot(Vec::new(), vec![process(1, "p", "u", 1.0)]);
    let round = Round::new(&s, 99);
    let frames = round.frames();
    assert_eq!(frames.len(), 2);
    match (&frames[0], &frames[1]) {
        (PushFrame::Samples(a), PushFrame::Processes(b)) => {
            assert_eq!((a.t, a.ts, a.metrics.pairs().len()), ("samples", 99, 16));
            assert_eq!((b.t, b.ts, b.items.len()), ("processes", 99, 1));
        }
        _ => panic!("wrong order"),
    }
    let idle = snapshot(Vec::new(), Vec::new());
    let alone = Round::new(&idle, 1);
    assert_eq!(alone.frames().len(), 1);
}

#[test]
fn sizes_are_whole_and_capped() {
    assert_eq!(gib_to_bytes(num(1.0)), 1073741824);
    assert_eq!(gib_to_bytes(num(0.1)), 107374182);
    assert_eq!(gib_to_bytes(num(2048.0)), 1 << 41);
    assert_eq!(gib_to_bytes(num(5000.0)), 1 << 41);
    assert_eq!(gib_to_bytes(num(f64::INFINITY)), 1 << 41);
    assert_eq!(gib_to_bytes(num(f64::NAN)), 0);
    assert_eq!(gib_to_bytes(num(-1.0)), 0);
    assert_eq!(gib_to_bytes(num(1e-300)), 0);
    for x in [0.3_f64, 7.77, 123.456, 1999.999, 1e-9, 5e-324] {
        assert_eq!(gib_to_bytes(num(x)), (x * 1024.0_f64.powi(3)) as u64);
    }
}

#[test]
fn clip_keeps_whole_characters() {
    assert_eq!(clip("short", 256), "short");
    assert_eq!(clip("abcdef", 6), "abcdef");
    assert_eq!(clip("abcdef", 4), "abcd");
    assert_eq!(clip("aéb", 2), "a");
    assert_eq!(clip("aéb", 3), "aé");
    assert_eq!(clip("日本", 5), "日");
    assert_eq!(clip("日本", 2), "");
    assert_eq!(clip("x", 0), "");
    assert_eq!(clip("", 0), "");
}

#[test]
fn samples_frame_carries_the_metrics() {
    let m = flatten(&snapshot(Vec::new(), Vec::new()));
    let f = samples_frame(&m, 1700000000).unwrap();
    assert_eq!((f.v, f.t, f.ts), (1, "samples", 1700000000));
    assert_eq!(f.metrics.pairs().len(), 16);
    let none: NameMap<MetricValue> = NameMap::new();
    assert!(samples_frame(&none, 1).is_none());
}

#[test]
fn processes_frame_lists_at_most_twenty_five() {
    assert!(processes_frame(&snapshot(Vec::new(), Vec::new()), 7).is_none());
    let many: Vec<Process> = (0..30).map(|i| process(i, "p", "u", 1.5)).collect();
    let s = snapshot(Vec::new(), many);
    let f = processes_frame(&s, 7).unwrap();
    assert_eq!((f.v, f.t, f.ts, f.metric), (1, "processes", 7, "pss"));
    assert_eq!(f.items.len(), 25);
    assert_eq!(f.items[24].pid, 24);
    assert_eq!(f.items[0].mem_bytes, 1572864);
}

#[test]
fn processes_frame_clips_names_and_caps_sizes() {
    let name = "n".repeat(300);
    let user = "é".repeat(200);
    let s = snapshot(Vec::new(), vec![process(1, &name, &user, 1e12)]);
    let f = processes_frame(&s, 0).unwrap();
    assert_eq!(f.items[0].name.len(), 256);
    assert_eq!(f.items[0].username.len(), 256);
    assert_eq!(f.items[0].username.chars().count(), 128);
    assert_eq!(f.items[0].mem_bytes, 1 << 41);
}

#[test]
fn hello_introduces_the_host() {
    let tags = vec!["prod".to_string(), "web".to_string()];
    let h = hello("secret", "web-01", "box", "Debian", "x86_64", Some(8), &tags);
    assert_eq!((h.v, h.t, h.key), (1, "hello", "secret"));
    assert_eq!((h.host.name, h.host.hostname, h.host.os), ("web-01", "box", "Debian"));
    assert_eq!((h.host.arch, h.host.agent_version), ("x86_64", "0.1.1"));
    assert_eq!(h.host.cpu_cores, Some(8));
    assert_eq!(h.host.tags.len(), 2);
}

#[test]
fn os_name_comes_from_the_first_line() {
    let raw = "NAME=\"Debian GNU/Linux\"\nPRETTY_NAME=\"Debian 12\"\nPRETTY_NAME=\"Other\"\n";
    assert_eq!(detect_os(Some(raw)), "Debian 12");
    assert_eq!(detect_os(Some("ID=x\nNAME=Alpine\nNAME=Two\n")), "Alpine");
    assert_eq!(detect_os(Some("ID=x\n")), "linux");
    assert_eq!(detect_os(None), "linux");
}

#[test]
fn advertised_name_prefers_the_configured_one() {
    let sys = || Some("box".to_string());
    assert_eq!(advertised_name(Some("web-01".to_string()), sys()), "web-01");
    assert_eq!(advertised_name(Some(String::new()), sys()), "box");
    assert_eq!(advertised_name(None, sys()), "box");
    assert_eq!(advertised_name(None, None), "unknown");
    assert_eq!(hostname_from(None), "unknown");
}

#[test]
fn hostname_is_the_systems() {
    let expected = gethostname::gethostname().into_string().unwrap_or("unknown".to_string());
    assert_eq!(hostname(), expected);
    let c = HubClient::new("u".to_string(), "k".to_string(), None, Vec::new(), num(1.0));
    assert_eq!(c.host_name(), expected);
}

#[test]
fn client_starts_and_stops_once() {
    let mut c = HubClient::new(
        "wss://hub".to_string(),
        "key".to_string(),
        Some("me".to_string()),
        vec!["a".to_string()],
        num(2.0),
    );
    assert_eq!((c.url(), c.key(), c.host_name()), ("wss://hub", "key", "me"));
    assert_eq!(c.tags().len(), 1);
    let link = c.start().unwrap();
    assert!(link.phase == HubPhase::Connecting);
    assert_eq!(link.backoff, 1_000_000_000);
    assert!(link.sampler_interval == num(2.0));
    assert!(c.start().is_none());
    assert!(c.stop());
    assert!(!c.stop());
    assert!(c.start().is_some());
}

fn welcome(interval: Option<f64>) -> Incoming {
    Incoming::Text(Ok(HubFrame::Welcome { host_id: Some(1), interval: interval.map(num) }))
}

#[test]
fn greeting_sets_the_interval() {
    let got = |i: Option<f64>, own: f64| match read_greeting(welcome(i), num(own)) {
        Ok(secs) => f64::from_bits(secs.bits),
        Err(_) => -1.0,
    };
    assert_eq!(got(Some(2.5), 1.0), 2.5);
    assert_eq!(got(None, 1.0), 1.0);
    assert_eq!(got(Some(0.01), 1.0), 0.1);
    assert_eq!(got(Some(-5.0), 1.0), 0.1);
    assert_eq!(got(None, f64::NAN), 0.1);
}

fn refusal(first: Incoming) -> String {
    match read_greeting(first, num(1.0)) {
        Ok(_) => "ok".to_string(),
        Err(e) => e.describe(),
    }
}

#[test]
fn greeting_errors_are_told_apart() {
    let code = Some("auth".to_string());
    let message = Some("bad key".to_string());
    assert_eq!(refusal(Incoming::Text(Ok(HubFrame::Error { code, message }))), "hub error: auth bad key");
    assert_eq!(refusal(Incoming::Text(Ok(HubFrame::Error { code: None, message: None }))), "hub error:  ");
    assert_eq!(refusal(Incoming::Text(Ok(HubFrame::Ping))), "hub: unexpected first frame");
    assert_eq!(refusal(Incoming::Text(Ok(HubFrame::Pong))), "hub: unexpected first frame");
    assert_eq!(refusal(Incoming::Text(Ok(HubFrame::Unknown))), "hub: unexpected first frame");
    assert_eq!(refusal(Incoming::Text(Err("no json".to_string()))), "no json");
    assert_eq!(refusal(Incoming::Other), "hub: non-text first frame");
    assert_eq!(refusal(Incoming::Close), "hub: non-text first frame");
    assert_eq!(refusal(Incoming::End), "hub closed before welcome");
}

#[test]
fn link_goes_through_its_phases() {
    let mut l = HubLink::new(num(1.0));
    assert!(matches!(l.step(HubEvent::Connected), HubAction::SendHello));
    assert!(matches!(l.step(HubEvent::Sent), HubAction::ReadFrame));
    assert!(matches!(l.step(HubEvent::Arrived(welcome(Some(3.0)))), HubAction::Push));
    match l.step(HubEvent::Sent) {
        HubAction::Wait(secs) => assert!(secs == num(3.0)),
        _ => panic!("no wait"),
    }
    assert!(matches!(l.step(HubEvent::Arrived(Incoming::Other)), HubAction::Stay));
    assert!(matches!(l.step(HubEvent::Arrived(welcome(None))), HubAction::Stay));
    assert!(matches!(l.step(HubEvent::TimerFired), HubAction::Push));
    assert!(matches!(l.step(HubEvent::StopRequested), HubAction::Quit));
    assert!(l.phase == HubPhase::Stopped);
    assert!(matches!(l.step(HubEvent::Connected), HubAction::Stay));
}

#[test]
fn nothing_is_pushed_without_a_welcome() {
    let mut l = HubLink::new(num(1.0));
    assert!(matches!(l.step(HubEvent::Sent), HubAction::Stay));
    assert!(matches!(l.step(HubEvent::TimerFired), HubAction::Stay));
    assert!(matches!(l.step(HubEvent::Connected), HubAction::SendHello));
    assert!(matches!(l.step(HubEvent::Arrived(welcome(None))), HubAction::Stay));
    assert!(matches!(l.step(HubEvent::Sent), HubAction::ReadFrame));
    match l.step(HubEvent::Arrived(Incoming::End)) {
        HubAction::Rest { pause, lost: Some(HubError::ClosedEarly) } => assert_eq!(pause, 1_000_000_000),
        _ => panic!("no rest"),
    }
}

#[test]
fn failed_attempts_back_off() {
    let mut l = HubLink::new(num(1.0));
    let mut pauses = Vec::new();
    for _ in 0..10 {
        match l.step(HubEvent::Failed("refused".to_string())) {
            HubAction::Rest { pause, lost: Some(e) } => {
                assert_eq!(e.describe(), "refused");
                pauses.push(pause);
            }
            _ => panic!("no rest"),
        }
        assert!(matches!(l.step(HubEvent::Failed("x".to_string())), HubAction::Stay));
        assert!(matches!(l.step(HubEvent::TimerFired), HubAction::Connect));
    }
    assert_eq!(
        pauses,
        vec![
            1_000_000_000,
            1_700_000_000,
            2_890_000_000,
            4_913_000_000,
            8_352_100_000,
            14_198_570_000,
            24_137_569_000,
            30_000_000_000,
            30_000_000_000,
            30_000_000_000,
        ]
    );
}

#[test]
fn a_good_connection_resets_the_backoff() {
    for end in [Incoming::Close, Incoming::End] {
        let mut l = HubLink::new(num(1.0));
        for _ in 0..3 {
            l.step(HubEvent::Failed("x".to_string()));
            l.step(HubEvent::TimerFired);
        }
        assert_eq!(l.backoff, 4_913_000_000);
        l.step(HubEvent::Connected);
        l.step(HubEvent::Sent);
        l.step(HubEvent::Arrived(welcome(None)));
        l.step(HubEvent::Sent);
        match l.step(HubEvent::Arrived(end)) {
            HubAction::Rest { pause, lost: None } => assert_eq!(pause, 1_000_000_000),
            _ => panic!("no rest"),
        }
        assert!(matches!(l.step(HubEvent::TimerFired), HubAction::Connect));
        assert_eq!(l.backoff, 1_700_000_000);
    }
}
