use vigil_collector::binary64::Real;
use vigil_collector::metrics::cpu;
use vigil_collector::metrics::cpu::{
    read_cpu_temp, read_load_avg, read_via_components, read_via_thermal_zones, sum_frequencies,
    CpuTemp, Sensor, Zone,
};
use vigil_collector::metrics::disk::{
    collect_all, collect_io, collect_root, nodev_filesystems, read_diskstats, statvfs_usage,
    usage_for_mount, whole_disks, DiskCounters, DiskTotals, Mount, StatVfs,
};
use vigil_collector::metrics::mem;
use vigil_collector::metrics::net::{
    collect_throughput, interface_names, read_proc_net_drops, statistics,
    throughput_by_interface, Interface,
};
use vigil_collector::metrics::platform::{
    collect, distro, distro_from, format_uptime, kernel, kernel_from, platform_from, uptime_string,
    user,
};
use vigil_collector::metrics::process::{
    collect_top, detect_pss, foreign_pids, group_pss_bytes, probe_outcome, process_metric_label,
    read_pss_kb, settles_pss, Member, ProcessEntry, PssProbe,
};
use vigil_collector::metrics::{bytes_to_gib, per_second, saturating_product};

fn num(x: f64) -> Real {
    Real::from_bits(x.to_bits())
}

fn sensor(label: &str, temp: f64) -> Sensor {
    Sensor { label: label.to_string(), temp: num(temp) }
}

fn degrees(sensors: Vec<Sensor>) -> Option<f64> {
    read_via_components(&sensors).map(|t| f64::from_bits(t.bits))
}

#[test]
fn package_sensors_come_first() {
    let all = || vec![
        sensor("nvme Composite", 30.0),
        sensor("CPU fan zone", 41.0),
        sensor("k10temp Tdie", 42.0),
        sensor("k10temp Tctl", 43.0),
        sensor("coretemp Package id 0", 44.0),
    ];
    assert_eq!(degrees(all()), Some(44.0));
    assert_eq!(degrees(all().into_iter().take(4).collect()), Some(43.0));
    assert_eq!(degrees(all().into_iter().take(3).collect()), Some(42.0));
    assert_eq!(degrees(all().into_iter().take(2).collect()), Some(41.0));
    assert_eq!(degrees(all().into_iter().take(1).collect()), Some(30.0));
    assert_eq!(degrees(Vec::new()), None);
}

#[test]
fn sensors_without_a_reading_are_passed_over() {
    assert_eq!(
        degrees(vec![sensor("Package id 0", f64::NAN), sensor("Package id 1", 50.0)]),
        Some(50.0)
    );
    assert_eq!(degrees(vec![sensor("Package", f64::NAN), sensor("gpu", 33.0)]), Some(33.0));
    assert_eq!(degrees(vec![sensor("x", f64::INFINITY)]), None);
}

fn zone(name: &str, kind: &str, temp: &str) -> Zone {
    Zone {
        name: name.to_string(),
        kind: Some(kind.to_string()),
        temp: Some(temp.to_string()),
    }
}

#[test]
fn thermal_zones_of_the_processor_count() {
    let zones = vec![
        zone("cooling_device0", "x86_pkg_temp", "1000"),
        zone("thermal_zone0", "acpitz", "20000"),
        zone("thermal_zone1", "x86_pkg_temp\n", "hot\n"),
        zone("thermal_zone2", "cpu-thermal\n", " 45500\n"),
        zone("thermal_zone3", "soc_thermal", "50000"),
    ];
    assert_eq!(read_via_thermal_zones(&zones), Some(45500));
    assert_eq!(read_via_thermal_zones(&vec![zone("thermal_zone0", "cpu_thermal", "-1500")]), Some(-1500));
    let unread = Zone { name: "thermal_zone0".to_string(), kind: Some("soc_thermal".to_string()), temp: None };
    assert_eq!(read_via_thermal_zones(&vec![unread]), None);
}

#[test]
fn sensors_come_before_zones() {
    let zones = vec![zone("thermal_zone0", "x86_pkg_temp", "45000")];
    assert!(read_cpu_temp(&vec![sensor("x", 30.0)], &zones) == CpuTemp::Sensor(num(30.0)));
    assert!(read_cpu_temp(&Vec::new(), &zones) == CpuTemp::Zone(45000));
    assert!(read_cpu_temp(&Vec::new(), &Vec::new()) == CpuTemp::Absent);
}

#[test]
fn load_averages_come_all_or_not() {
    let values = [num(1.0), num(2.0), num(3.0)];
    assert!(read_load_avg(3, values).is_some());
    assert!(read_load_avg(2, values).is_none());
    assert!(read_load_avg(-1, values).is_none());
}

#[test]
fn known_frequencies_are_summed() {
    let f = sum_frequencies(&vec![2400, 0, 3600, u64::MAX]);
    assert_eq!(f.sum, 6000 + u64::MAX as u128);
    assert_eq!(f.count, 3);
    assert_eq!(sum_frequencies(&Vec::new()).count, 0);
}

#[test]
fn usage_without_cores_is_zero() {
    let c = cpu::collect(0, num(9.0), num(1.0), num(2.0), 4, None);
    assert!(c.usage == num(0.0));
    let c = cpu::collect(2, num(9.0), num(1.0), num(2.0), 4, None);
    assert!(c.usage == num(9.0));
    assert_eq!(c.cores, 4);
}

#[test]
fn memory_adds_up() {
    let m = mem::collect(16_000, 11_500);
    assert_eq!((m.total, m.used, m.free), (16_000, 4_500, 11_500));
    assert_eq!(m.used + m.free, m.total);
    assert_eq!(mem::collect(1, 2).used, 0);
}

#[test]
fn shown_memory_adds_up() {
    for (total, available) in [(16_777_216_000u64, 5_368_709u64), (1 << 34, 12_345_678_901), (7, 3)] {
        let m = mem::collect(total, available).shown();
        assert_eq!(m.used + m.free, m.total);
    }
    let m = mem::collect(17_179_869_184, 12_348_030_976).shown();
    assert_eq!((m.total, m.used, m.free), (1600, 450, 1150));
    assert_eq!(mem::collect(1 << 30, 1 << 31).shown().free, 200);
}

#[test]
fn sizes_are_shown_in_hundredths_of_a_gib() {
    assert_eq!(bytes_to_gib(0), 0);
    assert_eq!(bytes_to_gib(1 << 30), 100);
    assert_eq!(bytes_to_gib(5_368_709), 0);
    assert_eq!(bytes_to_gib(5_368_710), 1);
    assert_eq!(bytes_to_gib(u64::MAX), 1_717_986_918_400);
    for x in [123_456_789u64, 98_765_432_101, 512_110_190_592] {
        let rounded = (x as f64 / 1024.0_f64.powi(3) * 100.0).round() / 100.0;
        assert_eq!(bytes_to_gib(x) as f64 / 100.0, rounded);
    }
}

#[test]
fn space_is_counted_as_df_does() {
    let st = StatVfs { frsize: 4096, blocks: 1000, bfree: 400, bavail: 350 };
    assert!(st.is_countable());
    let u = statvfs_usage(&st);
    assert_eq!((u.total, u.used, u.free), (4_096_000, 2_457_600, 1_433_600));
    assert_eq!(u.basis, u.used + u.free);
    assert_eq!(u.total - u.used - u.free, 50 * 4096);
    let huge = StatVfs { frsize: u64::MAX, blocks: 10, bfree: 5, bavail: 5 };
    assert!(!huge.is_countable());
}

fn mount(device: &str, point: &str, fstype: &str, total: u64, available: u64) -> Mount {
    Mount {
        device: device.to_string(),
        mountpoint: point.to_string(),
        fstype: fstype.to_string(),
        total_space: total,
        available_space: available,
        stat: None,
    }
}

#[test]
fn mounts_without_a_report_use_plain_totals() {
    let u = usage_for_mount(&mount("/dev/sda1", "/", "ext4", 100, 30));
    assert_eq!((u.total, u.used, u.free, u.basis), (100, 70, 30, 100));
    let mut m = mount("/dev/sda1", "/", "ext4", 100, 30);
    m.stat = Some(StatVfs { frsize: 1, blocks: 10, bfree: 4, bavail: 3 });
    let u = usage_for_mount(&m);
    assert_eq!((u.total, u.used, u.free, u.basis), (10, 6, 3, 9));
}

#[test]
fn the_primary_mount_is_found() {
    let all = vec![
        mount("/dev/sdb", "/data", "ext4", 1, 0),
        mount("/dev/sda", "/", "ext4", 2, 0),
        mount("/dev/sdc", "C:\\", "ntfs", 3, 0),
    ];
    assert_eq!(collect_root(&all, "/").total, 2);
    assert_eq!(collect_root(&all, "C:\\").total, 3);
    assert_eq!(collect_root(&all, "Q:\\").total, 2);
    assert_eq!(collect_root(&vec![mount("/dev/sdb", "/data", "ext4", 1, 0)], "/").total, 1);
    assert_eq!(collect_root(&Vec::new(), "/").total, 0);
}

#[test]
fn pseudo_file_systems_are_left_out() {
    let nodev = nodev_filesystems(Some("nodev\tsysfs\nnodev\ttmpfs\n\text4\n"));
    assert!(nodev.contains("tmpfs") && nodev.contains("sysfs") && nodev.contains("fuse.snapfuse"));
    assert!(!nodev.contains("ext4"));
    let all = vec![
        mount("/dev/sda1", "/", "ext4", 100, 30),
        mount("tmpfs", "/run", "tmpfs", 10, 10),
        mount("/dev/loop0", "/snap/x", "fuse.snapfuse", 5, 0),
        mount("", "/odd", "ext4", 1, 1),
    ];
    let rows = collect_all(&all, Some(&nodev));
    assert_eq!(rows.len(), 1);
    assert_eq!((rows[0].device.as_str(), rows[0].mountpoint.as_str()), ("/dev/sda1", "/"));
    assert_eq!((rows[0].fstype.as_str(), rows[0].usage.used), ("ext4", 70));
    assert_eq!(collect_all(&all, None).len(), 4);
    assert_eq!(nodev_filesystems(None).len(), 0);
}

const DISKSTATS: &str = "   8       0 sda 100 0 2000 0 50 0 1000 0 0 0 0\n   8       1 sda1 90 0 1800 0 40 0 900 0 0 0 0\n   7       0 loop0 5 0 10 0 0 0 0 0 0 0 0\n 259 0 nvme0n1 1 0 x 0 2 0 4 0 0 0 0 0\n short line\n";

#[test]
fn only_whole_disks_count() {
    let names: Vec<String> = ["sda", "nvme0n1", "loop0", "ram0"].iter().map(|s| s.to_string()).collect();
    let allowed = whole_disks(&names);
    assert_eq!(allowed.len(), 2);
    let t = read_diskstats(DISKSTATS, &allowed);
    assert_eq!((t.read_ops, t.read_sectors, t.write_ops, t.write_sectors), (101, 2000, 52, 1004));
    assert!(t.is_countable());
    let c = t.in_bytes();
    assert_eq!((c.read_bytes, c.write_bytes, c.read_ops, c.write_ops), (1_024_000, 514_048, 101, 52));
    let huge = DiskTotals { read_ops: 0, read_sectors: u64::MAX, write_ops: 0, write_sectors: 0 };
    assert!(!huge.is_countable());
}

#[test]
fn disk_traffic_is_a_rate() {
    let c = |n: u64| DiskCounters { read_bytes: 1000 * n, write_bytes: 500 * n, read_ops: 10 * n, write_ops: n };
    let mut prev = None;
    let first = collect_io(&mut prev, Some(c(1)), 1_000_000_000);
    assert_eq!(first.read_bytes_per_sec, 0);
    let next = collect_io(&mut prev, Some(c(4)), 3_000_000_000);
    assert_eq!((next.read_bytes_per_sec, next.write_bytes_per_sec), (1500, 750));
    assert_eq!((next.read_iops, next.write_iops), (15, 2));
    let none = collect_io(&mut prev, None, 4_000_000_000);
    assert_eq!(none.read_bytes_per_sec, 0);
    assert_eq!(prev.unwrap().at, 3_000_000_000);
    let back = collect_io(&mut prev, Some(c(2)), 5_000_000_000);
    assert_eq!(back.read_bytes_per_sec, 0);
    let instant = collect_io(&mut prev, Some(c(9)), 5_000_000_000);
    assert_eq!(instant.read_bytes_per_sec, 0);
}

#[test]
fn rates_are_rounded_half_up() {
    assert_eq!(per_second(3, 2_000_000_000), 2);
    assert_eq!(per_second(1, 3_000_000_000), 0);
    assert_eq!(per_second(7, 1_000_000_000), 7);
    assert_eq!(per_second(0, 5), 0);
    assert_eq!(per_second(u64::MAX, 1), u64::MAX);
    assert_eq!(saturating_product(u64::MAX, 2), u64::MAX);
    assert_eq!(saturating_product(6, 7), 42);
    for (delta, nanos) in [(12345u64, 999_999_999u64), (987_654_321, 1_000_123_456), (5, 10_000_000_000)] {
        assert_eq!(per_second(delta, nanos), (delta as f64 / (nanos as f64 / 1e9)).round() as u64);
    }
}

fn interface(name: &str, received: u64, transmitted: u64) -> Interface {
    Interface {
        name: name.to_string(),
        received,
        transmitted,
        packets_received: 1,
        packets_transmitted: 2,
        errors_on_received: 3,
        errors_on_transmitted: 4,
    }
}

#[test]
fn loopback_is_no_traffic() {
    let mut prev = None;
    let at = |n: u64| vec![interface("lo", 99999 * n, 99999 * n), interface("eth0", 100 * n, 10 * n), interface("wlan0", n, n)];
    let first = collect_throughput(&at(1), &mut prev, 1_000_000_000);
    assert_eq!((first.rx_bytes_per_sec, first.tx_bytes_per_sec), (0, 0));
    let next = collect_throughput(&at(3), &mut prev, 2_000_000_000);
    assert_eq!((next.rx_bytes_per_sec, next.tx_bytes_per_sec), (202, 22));
    let reset = collect_throughput(&at(1), &mut prev, 3_000_000_000);
    assert_eq!(reset.rx_bytes_per_sec, 0);
    assert_eq!(interface_names(&at(1)), vec!["lo", "eth0", "wlan0"]);
}

#[test]
fn every_interface_has_its_own_rate() {
    let mut prev = None;
    let at = |n: u64| vec![interface("lo", n, n), interface("eth0", 100 * n, 10 * n), interface("wlan0", n, n)];
    let first = throughput_by_interface(&at(1), &prev, 1_000_000_000);
    assert_eq!(first.get("eth0").unwrap().rx_bytes_per_sec, 0);
    assert!(first.get("lo").is_none());
    collect_throughput(&at(1), &mut prev, 1_000_000_000);
    let mut later = at(3);
    later.push(interface("tun0", 5000, 5000));
    let next = throughput_by_interface(&later, &prev, 2_000_000_000);
    let eth = next.get("eth0").unwrap();
    assert_eq!((eth.rx_bytes_per_sec, eth.tx_bytes_per_sec), (200, 20));
    assert_eq!(next.get("wlan0").unwrap().rx_bytes_per_sec, 2);
    assert_eq!(next.get("tun0").unwrap().rx_bytes_per_sec, 0);
    assert_eq!(next.pairs().len(), 3);
}

const NET_DEV: &str = "Inter-|   Receive\n face |bytes\n    lo: 1 2 3 4 5 6 7 8 9 10 11 12 13 14 15 16\n  eth0: 1 2 3 44 5 6 7 8 9 10 11 122 13 14 15 16\nbad0: 1 2 3\nno colon\n";

#[test]
fn drops_come_from_net_dev() {
    let d = read_proc_net_drops(NET_DEV);
    let eth = d.get("eth0").unwrap();
    assert_eq!((eth.received, eth.sent), (44, 122));
    assert!(d.get("bad0").is_none());
    assert_eq!(d.pairs().len(), 2);
    assert!(read_proc_net_drops("one line").is_empty());
}

#[test]
fn statistics_list_every_interface() {
    let all = vec![interface("eth0", 100, 10), interface("tun0", 7, 8)];
    let s = statistics(&all, Some(NET_DEV));
    let eth = s.get("eth0").unwrap();
    assert_eq!((eth.bytes_received, eth.bytes_sent), (100, 10));
    assert_eq!((eth.pk_received, eth.pk_sent, eth.error_in, eth.error_out), (1, 2, 3, 4));
    assert_eq!((eth.dropin, eth.dropout), (44, 122));
    let tun = s.get("tun0").unwrap();
    assert_eq!((tun.dropin, tun.dropout), (0, 0));
    assert!(s.get("lo").is_none());
    assert_eq!(statistics(&all, None).get("eth0").unwrap().dropin, 0);
}

#[test]
fn uptime_is_written_in_words() {
    assert_eq!(format_uptime(0), "");
    assert_eq!(format_uptime(1), "1 sec");
    assert_eq!(format_uptime(59), "59 secs");
    assert_eq!(format_uptime(60), "1 min");
    assert_eq!(format_uptime(3_600), "1 hr");
    assert_eq!(format_uptime(86_400), "1 day");
    assert_eq!(format_uptime(2 * 86_400 + 3 * 3_600 + 4 * 60 + 5), "2 days, 3 hrs, 4 mins, 5 secs");
    assert_eq!(format_uptime(86_461), "1 day, 1 min, 1 sec");
}

#[test]
fn distro_prefers_the_pretty_name() {
    let raw = "NAME=\"Ubuntu\"\nPRETTY_NAME=\"Ubuntu 24.04.1 LTS\"\nID=ubuntu\n";
    assert_eq!(distro_from(Some(raw), None), "Ubuntu 24.04.1 LTS");
    assert_eq!(distro_from(Some("NAME=A\nNAME=B\n"), None), "B");
    assert_eq!(distro_from(Some("ID=x\n"), Some("Linux".to_string())), "Linux");
    assert_eq!(distro_from(None, Some("Darwin".to_string())), "Darwin");
    assert_eq!(distro_from(None, None), "unknown");
    assert_eq!(kernel_from(None), "");
    assert_eq!(kernel_from(Some("6.1".to_string())), "6.1");
}

#[test]
fn the_platform_is_put_together() {
    let p = platform_from("Debian".to_string(), Some("6.1".to_string()), 61);
    assert_eq!(p.distro, "Debian");
    assert_eq!(p.kernel, "6.1");
    assert_eq!(p.uptime, format_uptime(61));
    assert_eq!(platform_from(String::new(), None, 0).kernel, "");
}

#[test]
fn the_platform_is_that_of_the_machine() {
    assert_eq!(kernel(), sysinfo::System::kernel_version().unwrap_or_default());
    assert_eq!(user(), whoami::username());
    assert_eq!(distro(Some("PRETTY_NAME=P\n")), "P");
    assert_eq!(distro(None), sysinfo::System::name().unwrap_or("unknown".to_string()));
    let before = sysinfo::System::uptime();
    let shown = uptime_string();
    let after = sysinfo::System::uptime();
    assert!((before..=after).any(|secs| format_uptime(secs) == shown));
    let before = sysinfo::System::uptime();
    let p = collect("D".to_string());
    let after = sysinfo::System::uptime();
    assert_eq!((p.distro, p.kernel), ("D".to_string(), kernel()));
    assert!((before..=after).any(|secs| format_uptime(secs) == p.uptime));
}

fn task(pid: u32, name: &str, username: &str, rss: u64) -> ProcessEntry {
    ProcessEntry { pid, name: name.to_string(), username: username.to_string(), rss, thread: false }
}

#[test]
fn processes_are_grouped_by_name() {
    let mut thread = task(9, "worker", "root", 1_000_000);
    thread.thread = true;
    let all = vec![
        task(5, "nginx", "www", 100),
        task(6, "nginx", "root", 50),
        task(7, "nginx", "", 1),
        task(8, "", "me", 120),
        thread,
    ];
    let rows = collect_top(&all, false).finish();
    assert_eq!(rows.len(), 2);
    assert_eq!((rows[0].name.as_str(), rows[0].pid, rows[0].mem_bytes), ("nginx", 5, 151));
    assert_eq!(rows[0].username, "root, www");
    assert_eq!((rows[1].name.as_str(), rows[1].username.as_str()), ("unknown", "me"));
}

#[test]
fn ten_largest_by_resident_size() {
    let all: Vec<ProcessEntry> = (0..15).map(|i| task(i, &format!("p{i}"), "u", i as u64)).collect();
    let rows = collect_top(&all, false).finish();
    assert_eq!(rows.len(), 10);
    assert_eq!(rows[0].mem_bytes, 14);
    assert_eq!(rows[9].mem_bytes, 5);
}

fn rank_by_pss(all: &Vec<ProcessEntry>, pss_kb: &dyn Fn(u32) -> Option<u64>) -> (Vec<(String, u128)>, usize) {
    let mut scan = collect_top(all, true);
    let mut asked = 0;
    loop {
        let readings = match scan.next_group() {
            Some(members) => members.iter().map(|m: &Member| pss_kb(m.pid)).collect::<Vec<_>>(),
            None => break,
        };
        asked += 1;
        scan.weigh(&readings);
    }
    (scan.finish().into_iter().map(|r| (r.name, r.mem_bytes)).collect(), asked)
}

#[test]
fn ranking_by_proportional_size_is_exact() {
    let all: Vec<ProcessEntry> =
        (1..31).map(|i| task(i, &format!("p{i}"), "u", i as u64 * 10 * 1024)).collect();
    let pss = |pid: u32| Some(pid as u64 * (pid as u64 % 7) % 11 + pid as u64);
    let (rows, _) = rank_by_pss(&all, &pss);
    let mut truth: Vec<u128> = (1..31u32).map(|p| pss(p).unwrap() as u128 * 1024).collect();
    truth.sort();
    truth.reverse();
    truth.truncate(10);
    let got: Vec<u128> = rows.iter().map(|r| r.1).collect();
    assert_eq!(got, truth);
}

#[test]
fn threads_do_not_count() {
    let plain: Vec<ProcessEntry> =
        (1..13).map(|i| task(i, &format!("p{}", i / 2), "u", i as u64 * 4096)).collect();
    let mut mixed: Vec<ProcessEntry> = Vec::new();
    for i in (1..13).rev() {
        let mut thread = task(100 + i, &format!("p{}", i % 3), "t", 1 << 30);
        thread.thread = true;
        mixed.push(thread);
        mixed.push(task(i, &format!("p{}", i / 2), "u", i as u64 * 4096));
        let mut stray = task(200 + i, &format!("stray{i}"), "t", 1 << 40);
        stray.thread = true;
        mixed.push(stray);
    }
    let pss = |pid: u32| Some((pid as u64 * 5) % 13);
    let shown = |all: &Vec<ProcessEntry>| {
        collect_top(all, false).finish().into_iter().map(|r| (r.name, r.mem_bytes)).collect::<Vec<_>>()
    };
    assert_eq!(shown(&plain), shown(&mixed));
    assert_eq!(shown(&plain)[0], ("p5".to_string(), 21 * 4096));
    let (one, _) = rank_by_pss(&plain, &pss);
    let (two, _) = rank_by_pss(&mixed, &pss);
    let weights = |rows: &Vec<(String, u128)>| rows.iter().map(|r| r.1).collect::<Vec<_>>();
    assert_eq!(weights(&one), weights(&two));
    assert_eq!(one.len(), 7);
}

#[test]
fn ranking_stops_early() {
    let all: Vec<ProcessEntry> =
        (1..101).map(|i| task(i, &format!("p{i}"), "u", i as u64 * 1024)).collect();
    let (rows, asked) = rank_by_pss(&all, &|pid| Some(pid as u64));
    assert_eq!(rows.len(), 10);
    assert_eq!(rows[0], ("p100".to_string(), 100 * 1024));
    assert_eq!(asked, 10);
    let (denied, _) = rank_by_pss(&all, &|_| None);
    assert_eq!(denied[9], ("p91".to_string(), 91 * 1024));
}

#[test]
fn groups_fall_back_member_by_member() {
    let members = vec![Member { pid: 1, rss: 5000 }, Member { pid: 2, rss: 7000 }];
    assert_eq!(group_pss_bytes(&members, &vec![Some(2), None]), 2048 + 7000);
    assert_eq!(group_pss_bytes(&members, &vec![Some(u64::MAX), Some(1)]), u64::MAX);
}

#[test]
fn proportional_size_is_parsed() {
    assert_eq!(read_pss_kb("Rss:  10 kB\nPss:    1234 kB\nPss: 5 kB\n"), Some(1234));
    assert_eq!(read_pss_kb("Pss_Anon: 7 kB\n"), None);
    assert_eq!(read_pss_kb("Pss:\n"), None);
    assert_eq!(read_pss_kb("Pss: many kB\nPss: 5 kB\n"), None);
    assert_eq!(read_pss_kb(""), None);
}

#[test]
fn the_first_foreign_process_decides() {
    assert!(detect_pss(&vec![PssProbe::Gone, PssProbe::Readable, PssProbe::Denied]));
    assert!(!detect_pss(&vec![PssProbe::Denied, PssProbe::Readable]));
    assert!(!detect_pss(&vec![PssProbe::Gone]));
    assert!(!detect_pss(&Vec::new()));
    assert!(settles_pss(PssProbe::Readable));
    assert!(settles_pss(PssProbe::Denied));
    assert!(!settles_pss(PssProbe::Gone));
    assert!(probe_outcome(Some(0), false) == PssProbe::Readable);
    assert!(probe_outcome(None, true) == PssProbe::Denied);
    assert!(probe_outcome(None, false) == PssProbe::Gone);
    assert_eq!(foreign_pids(&vec![30, 7, 12, 1], 12), vec![1, 7, 30]);
    assert_eq!(process_metric_label(true), "pss");
    assert_eq!(process_metric_label(false), "rss");
}
