//! The flat list of metrics that the hub takes.

use crate::binary64::{lemma_zero_whole, Real, BYTES_CEILING};
use crate::names::NameMap;
use crate::snapshot::{Cpu, DiskInfo, DiskIo, Mem, Snapshot, Throughput};
use crate::text::{same, starts_with};
use vstd::prelude::*;

verus! {

/// How many processes a frame lists at most.
pub const PROCESSES_MAX: usize = 25;

/// The value of a metric.
#[derive(Clone, Copy, Debug, PartialEq, Eq, Structural)]
pub enum MetricValue {
    /// A measured number.
    Measure(Real),
    /// A whole number.
    Count(u64),
}

/// GiB as whole bytes, up to the byte ceiling.
pub fn gib_to_bytes(value: Real) -> (r: u64)
    ensures
        r == value.whole_scaled(30),
{
    value.scaled_whole(30)
}

/// GiB as a metric in bytes.
pub open spec fn in_bytes(gib: Real) -> MetricValue {
    MetricValue::Count(gib.whole_scaled(30) as u64)
}

/// The metrics of the processor. Frequency and temperature are left out where
/// they are zero, the temperature also where it is not finite.
pub open spec fn cpu_metrics(cpu: Cpu) -> Map<Seq<char>, MetricValue> {
    let m = Map::empty().insert("cpu.usage"@, MetricValue::Measure(cpu.usage));
    let m = if cpu.freq.is_zero_value() {
        m
    } else {
        m.insert("cpu.freq_mhz"@, MetricValue::Measure(cpu.freq))
    };
    let m = match cpu.load {
        Some(load) => m.insert("cpu.load_1m"@, MetricValue::Measure(load[0])).insert(
            "cpu.load_5m"@,
            MetricValue::Measure(load[1]),
        ).insert("cpu.load_15m"@, MetricValue::Measure(load[2])),
        None => m,
    };
    if cpu.temp.finite() && !cpu.temp.is_zero_value() {
        m.insert("cpu.temp_c"@, MetricValue::Measure(cpu.temp))
    } else {
        m
    }
}

/// The metrics of memory and of traffic, which are always there.
pub open spec fn add_machine(
    m: Map<Seq<char>, MetricValue>,
    mem: Mem,
    io: DiskIo,
    net: Throughput,
) -> Map<Seq<char>, MetricValue> {
    m.insert("mem.total_bytes"@, in_bytes(mem.total)).insert(
        "mem.used_bytes"@,
        in_bytes(mem.used),
    ).insert("mem.free_bytes"@, in_bytes(mem.free)).insert(
        "mem.percent"@,
        MetricValue::Measure(mem.percent),
    ).insert("disk.io.read_bytes_per_s"@, MetricValue::Count(io.read_bytes_per_sec)).insert(
        "disk.io.write_bytes_per_s"@,
        MetricValue::Count(io.write_bytes_per_sec),
    ).insert("disk.io.read_iops"@, MetricValue::Count(io.read_iops)).insert(
        "disk.io.write_iops"@,
        MetricValue::Count(io.write_iops),
    ).insert("net.rx_bytes_per_s"@, MetricValue::Count(net.rx_bytes_per_sec)).insert(
        "net.tx_bytes_per_s"@,
        MetricValue::Count(net.tx_bytes_per_sec),
    )
}

/// Whether a mount is reported: it has a path, and is not a snap or one of
/// Docker's.
pub open spec fn reported(mount: Seq<char>) -> bool {
    &&& mount.len() > 0
    &&& !"/snap/"@.is_prefix_of(mount)
    &&& !"/var/lib/docker/"@.is_prefix_of(mount)
    &&& !"/run/docker/"@.is_prefix_of(mount)
}

/// The name of a metric of one mount or one interface.
pub open spec fn dimension(metric: Seq<char>, dim: Seq<char>) -> Seq<char> {
    metric + dim
}

/// The metrics of the mounts that are reported; a later mount at the same
/// path overrides.
pub open spec fn add_disks(m: Map<Seq<char>, MetricValue>, disks: Seq<DiskInfo>) -> Map<
    Seq<char>,
    MetricValue,
>
    decreases disks.len(),
{
    if disks.len() == 0 {
        m
    } else {
        let before = add_disks(m, disks.drop_last());
        let d = disks.last();
        let mount = d.mountpoint@;
        if reported(mount) {
            before.insert(dimension("disk.total_bytes|"@, mount), in_bytes(d.total)).insert(
                dimension("disk.used_bytes|"@, mount),
                in_bytes(d.used),
            ).insert(dimension("disk.percent|"@, mount), MetricValue::Measure(d.percent))
        } else {
            before
        }
    }
}

/// The metrics that belong to neither a mount nor an interface.
pub open spec fn base_metrics(s: Snapshot) -> Map<Seq<char>, MetricValue> {
    add_machine(cpu_metrics(s.cpu), s.mem, s.disk_io, s.network)
}

/// The traffic of an interface; none where it is not known.
pub open spec fn rate_of(s: Snapshot, name: Seq<char>) -> Throughput {
    if s.network_by_interface@.contains_key(name) {
        s.network_by_interface@[name]
    } else {
        Throughput { rx_bytes_per_sec: 0, tx_bytes_per_sec: 0 }
    }
}

/// The metrics of the interfaces called `names`, but for loopback.
pub open spec fn add_interfaces(
    m: Map<Seq<char>, MetricValue>,
    s: Snapshot,
    names: Seq<String>,
) -> Map<Seq<char>, MetricValue>
    decreases names.len(),
{
    if names.len() == 0 {
        m
    } else {
        let before = add_interfaces(m, s, names.drop_last());
        let name = names.last()@;
        if name == "lo"@ {
            before
        } else {
            before.insert(
                dimension("net.rx_bytes_per_s|"@, name),
                MetricValue::Count(rate_of(s, name).rx_bytes_per_sec),
            ).insert(
                dimension("net.tx_bytes_per_s|"@, name),
                MetricValue::Count(rate_of(s, name).tx_bytes_per_sec),
            )
        }
    }
}

/// All metrics of a snapshot.
pub open spec fn metrics_of(s: Snapshot) -> Map<Seq<char>, MetricValue> {
    add_disks(add_interfaces(base_metrics(s), s, s.interfaces@), s.disks@)
}

fn is_reported(mount: &str) -> (r: bool)
    ensures
        r == reported(mount@),
{
    !mount.is_empty() && !starts_with(mount, "/snap/") && !starts_with(mount, "/var/lib/docker/")
        && !starts_with(mount, "/run/docker/")
}

fn put(out: &mut NameMap<MetricValue>, key: &str, value: MetricValue)
    requires
        old(out).wf(),
    ensures
        final(out).wf(),
        final(out)@ == old(out)@.insert(key@, value),
{
    out.insert(key.to_owned(), value);
}

fn put_for(out: &mut NameMap<MetricValue>, metric: &str, dim: &str, value: MetricValue)
    requires
        old(out).wf(),
    ensures
        final(out).wf(),
        final(out)@ == old(out)@.insert(dimension(metric@, dim@), value),
{
    let mut key = metric.to_owned();
    key.append(dim);
    out.insert(key, value);
}

/// Lists the metrics of a snapshot.
pub fn flatten(snapshot: &Snapshot) -> (out: NameMap<MetricValue>)
    ensures
        out.wf(),
        out@ == metrics_of(*snapshot),
{
    let mut out: NameMap<MetricValue> = NameMap::new();
    let cpu = &snapshot.cpu;
    put(&mut out, "cpu.usage", MetricValue::Measure(cpu.usage));
    if !cpu.freq.is_zero() {
        put(&mut out, "cpu.freq_mhz", MetricValue::Measure(cpu.freq));
    }
    match cpu.load {
        Some(load) => {
            put(&mut out, "cpu.load_1m", MetricValue::Measure(load[0]));
            put(&mut out, "cpu.load_5m", MetricValue::Measure(load[1]));
            put(&mut out, "cpu.load_15m", MetricValue::Measure(load[2]));
        },
        None => {},
    }
    if cpu.temp.is_finite() && !cpu.temp.is_zero() {
        put(&mut out, "cpu.temp_c", MetricValue::Measure(cpu.temp));
    }
    assert(out@ == cpu_metrics(*cpu));
    let mem = &snapshot.mem;
    put(&mut out, "mem.total_bytes", MetricValue::Count(gib_to_bytes(mem.total)));
    put(&mut out, "mem.used_bytes", MetricValue::Count(gib_to_bytes(mem.used)));
    put(&mut out, "mem.free_bytes", MetricValue::Count(gib_to_bytes(mem.free)));
    put(&mut out, "mem.percent", MetricValue::Measure(mem.percent));
    let io = &snapshot.disk_io;
    put(&mut out, "disk.io.read_bytes_per_s", MetricValue::Count(io.read_bytes_per_sec));
    put(&mut out, "disk.io.write_bytes_per_s", MetricValue::Count(io.write_bytes_per_sec));
    put(&mut out, "disk.io.read_iops", MetricValue::Count(io.read_iops));
    put(&mut out, "disk.io.write_iops", MetricValue::Count(io.write_iops));
    let net = &snapshot.network;
    put(&mut out, "net.rx_bytes_per_s", MetricValue::Count(net.rx_bytes_per_sec));
    put(&mut out, "net.tx_bytes_per_s", MetricValue::Count(net.tx_bytes_per_sec));
    let ghost base = base_metrics(*snapshot);
    assert(out@ == base);
    let names = &snapshot.interfaces;
    let mut i: usize = 0;
    assert(names@.take(0) =~= Seq::<String>::empty());
    while i < names.len()
        invariant
            i <= names.len(),
            out.wf(),
            *names == snapshot.interfaces,
            out@ == add_interfaces(base, *snapshot, names@.take(i as int)),
        decreases names.len() - i,
    {
        assert(names@.take(i as int + 1).drop_last() =~= names@.take(i as int));
        let name = names[i].as_str();
        if !same(name, "lo") {
            let rate = match snapshot.network_by_interface.get(name) {
                Some(t) => *t,
                None => Throughput { rx_bytes_per_sec: 0, tx_bytes_per_sec: 0 },
            };
            put_for(
                &mut out,
                "net.rx_bytes_per_s|",
                name,
                MetricValue::Count(rate.rx_bytes_per_sec),
            );
            put_for(
                &mut out,
                "net.tx_bytes_per_s|",
                name,
                MetricValue::Count(rate.tx_bytes_per_sec),
            );
        }
        i += 1;
    }
    assert(names@.take(names.len() as int) =~= names@);
    let ghost base = add_interfaces(base, *snapshot, names@);
    let disks = &snapshot.disks;
    let mut i: usize = 0;
    assert(disks@.take(0) =~= Seq::<DiskInfo>::empty());
    while i < disks.len()
        invariant
            i <= disks.len(),
            out.wf(),
            out@ == add_disks(base, disks@.take(i as int)),
        decreases disks.len() - i,
    {
        assert(disks@.take(i as int + 1).drop_last() =~= disks@.take(i as int));
        let d = &disks[i];
        let mount = d.mountpoint.as_str();
        if is_reported(mount) {
            put_for(
                &mut out,
                "disk.total_bytes|",
                mount,
                MetricValue::Count(gib_to_bytes(d.total)),
            );
            put_for(
                &mut out,
                "disk.used_bytes|",
                mount,
                MetricValue::Count(gib_to_bytes(d.used)),
            );
            put_for(&mut out, "disk.percent|", mount, MetricValue::Measure(d.percent));
        }
        i += 1;
    }
    assert(disks@.take(disks.len() as int) =~= disks@);
    out
}

/// The metric names that belong to neither a mount nor an interface.
pub open spec fn fixed_name(key: Seq<char>) -> bool {
    ||| key == "cpu.usage"@
    ||| key == "cpu.freq_mhz"@
    ||| key == "cpu.load_1m"@
    ||| key == "cpu.load_5m"@
    ||| key == "cpu.load_15m"@
    ||| key == "cpu.temp_c"@
    ||| key == "mem.total_bytes"@
    ||| key == "mem.used_bytes"@
    ||| key == "mem.free_bytes"@
    ||| key == "mem.percent"@
    ||| key == "disk.io.read_bytes_per_s"@
    ||| key == "disk.io.write_bytes_per_s"@
    ||| key == "disk.io.read_iops"@
    ||| key == "disk.io.write_iops"@
    ||| key == "net.rx_bytes_per_s"@
    ||| key == "net.tx_bytes_per_s"@
}

/// Whether `key` has these letters at its first, fifth and sixth place.
spec fn begins(key: Seq<char>, first: char, fifth: char, sixth: char) -> bool {
    &&& key.len() > 5
    &&& key[0] == first
    &&& key[4] == fifth
    &&& key[5] == sixth
}

/// The letters by which the names without a dimension are told from those with
/// one, sizes from other metrics, and `cpu.usage` from the rest.
proof fn lemma_fixed_letters()
    ensures
        begins("cpu.usage"@, 'c', 'u', 's'),
        begins("cpu.freq_mhz"@, 'c', 'f', 'r'),
        begins("cpu.load_1m"@, 'c', 'l', 'o'),
        begins("cpu.load_5m"@, 'c', 'l', 'o'),
        begins("cpu.load_15m"@, 'c', 'l', 'o'),
        begins("cpu.temp_c"@, 'c', 't', 'e'),
        begins("mem.total_bytes"@, 'm', 't', 'o'),
        begins("mem.used_bytes"@, 'm', 'u', 's'),
        begins("mem.free_bytes"@, 'm', 'f', 'r'),
        begins("mem.percent"@, 'm', 'p', 'e'),
        begins("disk.io.read_bytes_per_s"@, 'd', '.', 'i'),
        begins("disk.io.write_bytes_per_s"@, 'd', '.', 'i'),
        begins("disk.io.read_iops"@, 'd', '.', 'i'),
        begins("disk.io.write_iops"@, 'd', '.', 'i'),
        begins("net.rx_bytes_per_s"@, 'n', 'r', 'x'),
        begins("net.tx_bytes_per_s"@, 'n', 't', 'x'),
        "net.rx_bytes_per_s"@.len() == 18,
        "net.tx_bytes_per_s"@.len() == 18,
{
    reveal_strlit("cpu.usage");
    reveal_strlit("cpu.freq_mhz");
    reveal_strlit("cpu.load_1m");
    reveal_strlit("cpu.load_5m");
    reveal_strlit("cpu.load_15m");
    reveal_strlit("cpu.temp_c");
    reveal_strlit("mem.total_bytes");
    reveal_strlit("mem.used_bytes");
    reveal_strlit("mem.free_bytes");
    reveal_strlit("mem.percent");
    reveal_strlit("disk.io.read_bytes_per_s");
    reveal_strlit("disk.io.write_bytes_per_s");
    reveal_strlit("disk.io.read_iops");
    reveal_strlit("disk.io.write_iops");
    reveal_strlit("net.rx_bytes_per_s");
    reveal_strlit("net.tx_bytes_per_s");
}

/// The metric names of a mount differ from one another, from those of every
/// other mount and from the names without a mount.
proof fn lemma_mount_names(mount: Seq<char>, other: Seq<char>)
    ensures
        !fixed_name(dimension("disk.total_bytes|"@, mount)),
        !fixed_name(dimension("disk.used_bytes|"@, mount)),
        !fixed_name(dimension("disk.percent|"@, mount)),
        dimension("disk.total_bytes|"@, mount) != dimension("disk.used_bytes|"@, other),
        dimension("disk.total_bytes|"@, mount) != dimension("disk.percent|"@, other),
        dimension("disk.used_bytes|"@, mount) != dimension("disk.percent|"@, other),
        mount != other ==> dimension("disk.total_bytes|"@, mount) != dimension(
            "disk.total_bytes|"@,
            other,
        ),
        mount != other ==> dimension("disk.used_bytes|"@, mount) != dimension(
            "disk.used_bytes|"@,
            other,
        ),
        mount != other ==> dimension("disk.percent|"@, mount) != dimension(
            "disk.percent|"@,
            other,
        ),
{
    lemma_fixed_letters();
    reveal_strlit("disk.total_bytes|");
    reveal_strlit("disk.used_bytes|");
    reveal_strlit("disk.percent|");
    let total = dimension("disk.total_bytes|"@, mount);
    let used = dimension("disk.used_bytes|"@, mount);
    let percent = dimension("disk.percent|"@, mount);
    assert(total[0] == 'd' && used[0] == 'd' && percent[0] == 'd');
    assert(total[5] == 't' && used[5] == 'u' && percent[5] == 'p');
    assert(dimension("disk.used_bytes|"@, other)[5] == 'u');
    assert(dimension("disk.percent|"@, other)[5] == 'p');
    if mount != other {
        lemma_same_prefix("disk.total_bytes|"@, mount, other);
        lemma_same_prefix("disk.used_bytes|"@, mount, other);
        lemma_same_prefix("disk.percent|"@, mount, other);
    }
}

proof fn lemma_same_prefix(prefix: Seq<char>, a: Seq<char>, b: Seq<char>)
    requires
        a != b,
    ensures
        prefix + a != prefix + b,
{
    assert((prefix + a).skip(prefix.len() as int) == a);
    assert((prefix + b).skip(prefix.len() as int) == b);
}

/// The names without a mount come from the snapshot's processor, memory and
/// traffic alone.
proof fn lemma_fixed_names(s: Snapshot, key: Seq<char>)
    ensures
        base_metrics(s).contains_key(key) ==> fixed_name(key),
{
}

/// Whether a name is that of a metric of a mount.
pub open spec fn mount_name(key: Seq<char>) -> bool {
    ||| "disk.total_bytes|"@.is_prefix_of(key)
    ||| "disk.used_bytes|"@.is_prefix_of(key)
    ||| "disk.percent|"@.is_prefix_of(key)
}

/// Whether a name is that of a metric of an interface.
pub open spec fn interface_name(key: Seq<char>) -> bool {
    ||| "net.rx_bytes_per_s|"@.is_prefix_of(key)
    ||| "net.tx_bytes_per_s|"@.is_prefix_of(key)
}

/// A name with a dimension begins with its metric.
proof fn lemma_dimension(metric: Seq<char>, dim: Seq<char>)
    ensures
        metric.is_prefix_of(dimension(metric, dim)),
{
    assert(dimension(metric, dim).subrange(0, metric.len() as int) =~= metric);
}

/// Names of mounts, names of interfaces and names without either are three
/// different things.
proof fn lemma_kinds_of_names(key: Seq<char>)
    ensures
        !(mount_name(key) && interface_name(key)),
        fixed_name(key) ==> !mount_name(key) && !interface_name(key),
        size_name(key) ==> !interface_name(key),
{
    lemma_fixed_letters();
    lemma_prefix_letters(key);
    lemma_dimension_letters(key);
}

/// What the letters of a name with a dimension are.
proof fn lemma_dimension_letters(key: Seq<char>)
    ensures
        mount_name(key) ==> key.len() > 5 && key[0] == 'd' && (key[5] == 't' || key[5] == 'u'
            || key[5] == 'p'),
        interface_name(key) ==> key.len() > 18 && key[0] == 'n',
{
    reveal_strlit("disk.total_bytes|");
    reveal_strlit("disk.used_bytes|");
    reveal_strlit("disk.percent|");
    reveal_strlit("net.rx_bytes_per_s|");
    reveal_strlit("net.tx_bytes_per_s|");
    let total = "disk.total_bytes|"@;
    let used = "disk.used_bytes|"@;
    let percent = "disk.percent|"@;
    let rx = "net.rx_bytes_per_s|"@;
    let tx = "net.tx_bytes_per_s|"@;
    if total.is_prefix_of(key) {
        assert(key[0] == total[0] && key[5] == total[5]);
    }
    if used.is_prefix_of(key) {
        assert(key[0] == used[0] && key[5] == used[5]);
    }
    if percent.is_prefix_of(key) {
        assert(key[0] == percent[0] && key[5] == percent[5]);
    }
    if rx.is_prefix_of(key) {
        assert(key[0] == rx[0]);
    }
    if tx.is_prefix_of(key) {
        assert(key[0] == tx[0]);
    }
}

/// The mounts leave every name that is not theirs as it was.
proof fn lemma_disk_names(m: Map<Seq<char>, MetricValue>, disks: Seq<DiskInfo>, key: Seq<char>)
    requires
        !mount_name(key),
    ensures
        add_disks(m, disks).contains_key(key) == m.contains_key(key),
        m.contains_key(key) ==> add_disks(m, disks)[key] == m[key],
    decreases disks.len(),
{
    if disks.len() > 0 {
        let mount = disks.last().mountpoint@;
        lemma_disk_names(m, disks.drop_last(), key);
        lemma_dimension("disk.total_bytes|"@, mount);
        lemma_dimension("disk.used_bytes|"@, mount);
        lemma_dimension("disk.percent|"@, mount);
    }
}

/// The interfaces leave every name that is not theirs as it was.
proof fn lemma_other_than_interfaces(
    m: Map<Seq<char>, MetricValue>,
    s: Snapshot,
    names: Seq<String>,
    key: Seq<char>,
)
    requires
        !interface_name(key),
    ensures
        add_interfaces(m, s, names).contains_key(key) == m.contains_key(key),
        m.contains_key(key) ==> add_interfaces(m, s, names)[key] == m[key],
    decreases names.len(),
{
    if names.len() > 0 {
        lemma_other_than_interfaces(m, s, names.drop_last(), key);
        lemma_dimension("net.rx_bytes_per_s|"@, names.last()@);
        lemma_dimension("net.tx_bytes_per_s|"@, names.last()@);
    }
}

/// The metric names of an interface differ from each other and from those of
/// every other interface.
proof fn lemma_interface_keys(name: Seq<char>, other: Seq<char>)
    ensures
        dimension("net.rx_bytes_per_s|"@, name) != dimension("net.tx_bytes_per_s|"@, other),
        name != other ==> dimension("net.rx_bytes_per_s|"@, name) != dimension(
            "net.rx_bytes_per_s|"@,
            other,
        ),
        name != other ==> dimension("net.tx_bytes_per_s|"@, name) != dimension(
            "net.tx_bytes_per_s|"@,
            other,
        ),
{
    reveal_strlit("net.rx_bytes_per_s|");
    reveal_strlit("net.tx_bytes_per_s|");
    assert(dimension("net.rx_bytes_per_s|"@, name)[4] == 'r');
    assert(dimension("net.tx_bytes_per_s|"@, other)[4] == 't');
    if name != other {
        lemma_same_prefix("net.rx_bytes_per_s|"@, name, other);
        lemma_same_prefix("net.tx_bytes_per_s|"@, name, other);
    }
}

/// Whether an interface of that name is among those that are reported.
pub open spec fn listed(names: Seq<String>, name: Seq<char>) -> bool {
    name != "lo"@ && exists|i: int| 0 <= i < names.len() && (#[trigger] names[i])@ == name
}

/// Whether the two metrics of an interface are there with this traffic.
pub open spec fn shows_traffic(
    m: Map<Seq<char>, MetricValue>,
    name: Seq<char>,
    rate: Throughput,
) -> bool {
    &&& m.contains_key(dimension("net.rx_bytes_per_s|"@, name))
    &&& m[dimension("net.rx_bytes_per_s|"@, name)] == MetricValue::Count(rate.rx_bytes_per_sec)
    &&& m.contains_key(dimension("net.tx_bytes_per_s|"@, name))
    &&& m[dimension("net.tx_bytes_per_s|"@, name)] == MetricValue::Count(rate.tx_bytes_per_sec)
}

/// Whether neither of the two metrics of an interface is there.
pub open spec fn silent_interface(m: Map<Seq<char>, MetricValue>, name: Seq<char>) -> bool {
    &&& !m.contains_key(dimension("net.rx_bytes_per_s|"@, name))
    &&& !m.contains_key(dimension("net.tx_bytes_per_s|"@, name))
}

proof fn lemma_interfaces(
    m: Map<Seq<char>, MetricValue>,
    s: Snapshot,
    names: Seq<String>,
    name: Seq<char>,
)
    requires
        silent_interface(m, name),
    ensures
        listed(names, name) ==> shows_traffic(add_interfaces(m, s, names), name, rate_of(s, name)),
        !listed(names, name) ==> silent_interface(add_interfaces(m, s, names), name),
    decreases names.len(),
{
    if names.len() > 0 {
        let init = names.drop_last();
        let other = names.last()@;
        lemma_interfaces(m, s, init, name);
        lemma_interface_keys(name, other);
        lemma_interface_keys(other, name);
        if listed(init, name) {
            let i = choose|i: int| 0 <= i < init.len() && (#[trigger] init[i])@ == name;
            assert(names[i]@ == name);
            assert(listed(names, name));
        }
        if listed(names, name) && !listed(init, name) {
            let i = choose|i: int| 0 <= i < names.len() && (#[trigger] names[i])@ == name;
            if i < init.len() {
                assert(init[i]@ == name);
            }
            assert(other == name);
        }
        if other == name && name != "lo"@ {
            assert(names[names.len() - 1]@ == name);
        }
    }
}

proof fn lemma_traffic_metrics(s: Snapshot, name: Seq<char>)
    ensures
        listed(s.interfaces@, name) ==> shows_traffic(metrics_of(s), name, rate_of(s, name)),
        !listed(s.interfaces@, name) ==> silent_interface(metrics_of(s), name),
{
    let rx = dimension("net.rx_bytes_per_s|"@, name);
    let tx = dimension("net.tx_bytes_per_s|"@, name);
    lemma_dimension("net.rx_bytes_per_s|"@, name);
    lemma_dimension("net.tx_bytes_per_s|"@, name);
    lemma_kinds_of_names(rx);
    lemma_kinds_of_names(tx);
    lemma_fixed_names(s, rx);
    lemma_fixed_names(s, tx);
    lemma_interfaces(base_metrics(s), s, s.interfaces@, name);
    let m = add_interfaces(base_metrics(s), s, s.interfaces@);
    lemma_disk_names(m, s.disks@, rx);
    lemma_disk_names(m, s.disks@, tx);
}

/// An interface that the snapshot lists has its two metrics, with its own
/// traffic. Loopback has none.
pub proof fn law_listed_interfaces_are_shown(s: Snapshot, i: int)
    requires
        0 <= i < s.interfaces@.len(),
        s.interfaces@[i]@ != "lo"@,
    ensures
        shows_traffic(metrics_of(s), s.interfaces@[i]@, rate_of(s, s.interfaces@[i]@)),
{
    assert(listed(s.interfaces@, s.interfaces@[i]@));
    lemma_traffic_metrics(s, s.interfaces@[i]@);
}

/// An interface that the snapshot does not list, and loopback, have no metrics.
pub proof fn law_other_interfaces_are_silent(s: Snapshot, name: Seq<char>)
    requires
        !listed(s.interfaces@, name),
    ensures
        silent_interface(metrics_of(s), name),
{
    lemma_traffic_metrics(s, name);
}

/// No mount at `mount` stands at or after position `from`.
pub open spec fn none_at(disks: Seq<DiskInfo>, mount: Seq<char>, from: int) -> bool {
    forall|j: int| from <= j < disks.len() ==> (#[trigger] disks[j]).mountpoint@ != mount
}

/// Whether the three metrics of a mount are there with the values of `d`.
pub open spec fn shows(m: Map<Seq<char>, MetricValue>, mount: Seq<char>, d: DiskInfo) -> bool {
    &&& m.contains_key(dimension("disk.total_bytes|"@, mount))
    &&& m[dimension("disk.total_bytes|"@, mount)] == in_bytes(d.total)
    &&& m.contains_key(dimension("disk.used_bytes|"@, mount))
    &&& m[dimension("disk.used_bytes|"@, mount)] == in_bytes(d.used)
    &&& m.contains_key(dimension("disk.percent|"@, mount))
    &&& m[dimension("disk.percent|"@, mount)] == MetricValue::Measure(d.percent)
}

/// Whether none of the three metrics of a mount is there.
pub open spec fn silent(m: Map<Seq<char>, MetricValue>, mount: Seq<char>) -> bool {
    &&& !m.contains_key(dimension("disk.total_bytes|"@, mount))
    &&& !m.contains_key(dimension("disk.used_bytes|"@, mount))
    &&& !m.contains_key(dimension("disk.percent|"@, mount))
}

proof fn lemma_silent(m: Map<Seq<char>, MetricValue>, disks: Seq<DiskInfo>, mount: Seq<char>)
    requires
        silent(m, mount),
        !reported(mount) || none_at(disks, mount, 0),
    ensures
        silent(add_disks(m, disks), mount),
    decreases disks.len(),
{
    if disks.len() > 0 {
        let init = disks.drop_last();
        let other = disks.last().mountpoint@;
        assert(none_at(disks, mount, 0) ==> none_at(init, mount, 0)) by {
            assert forall|j: int| none_at(disks, mount, 0) && 0 <= j < init.len() implies (
            #[trigger] init[j]).mountpoint@ != mount by {
                assert(init[j] == disks[j]);
            }
        }
        lemma_silent(m, init, mount);
        lemma_mount_names(mount, other);
        lemma_mount_names(other, mount);
        assert(disks[disks.len() - 1] == disks.last());
    }
}

proof fn lemma_shown(
    m: Map<Seq<char>, MetricValue>,
    disks: Seq<DiskInfo>,
    mount: Seq<char>,
    i: int,
)
    requires
        reported(mount),
        0 <= i < disks.len(),
        disks[i].mountpoint@ == mount,
        none_at(disks, mount, i + 1),
    ensures
        shows(add_disks(m, disks), mount, disks[i]),
    decreases disks.len(),
{
    let init = disks.drop_last();
    let other = disks.last().mountpoint@;
    lemma_mount_names(mount, other);
    lemma_mount_names(other, mount);
    if i < disks.len() - 1 {
        assert(disks[disks.len() - 1] == disks.last());
        assert(none_at(init, mount, i + 1)) by {
            assert forall|j: int| i + 1 <= j < init.len() implies (
            #[trigger] init[j]).mountpoint@ != mount by {
                assert(init[j] == disks[j]);
            }
        }
        lemma_shown(m, init, mount, i);
    }
}

/// A mount that is not reported, or that the snapshot does not list, has no
/// metrics.
pub proof fn law_other_mounts_are_silent(s: Snapshot, mount: Seq<char>)
    requires
        !reported(mount) || none_at(s.disks@, mount, 0),
    ensures
        silent(metrics_of(s), mount),
{
    let m = add_interfaces(base_metrics(s), s, s.interfaces@);
    lemma_mount_is_new(s, "disk.total_bytes|"@, mount);
    lemma_mount_is_new(s, "disk.used_bytes|"@, mount);
    lemma_mount_is_new(s, "disk.percent|"@, mount);
    lemma_silent(m, s.disks@, mount);
}

proof fn lemma_mount_is_new(s: Snapshot, metric: Seq<char>, mount: Seq<char>)
    requires
        metric == "disk.total_bytes|"@ || metric == "disk.used_bytes|"@ || metric
            == "disk.percent|"@,
    ensures
        !add_interfaces(base_metrics(s), s, s.interfaces@).contains_key(dimension(metric, mount)),
{
    let key = dimension(metric, mount);
    lemma_dimension(metric, mount);
    lemma_kinds_of_names(key);
    lemma_fixed_names(s, key);
    lemma_other_than_interfaces(base_metrics(s), s, s.interfaces@, key);
}

/// A mount that is reported has its three metrics, those of the last entry at
/// its path.
pub proof fn law_reported_mounts_are_shown(s: Snapshot, i: int)
    requires
        0 <= i < s.disks@.len(),
        reported(s.disks@[i].mountpoint@),
        none_at(s.disks@, s.disks@[i].mountpoint@, i + 1),
    ensures
        shows(metrics_of(s), s.disks@[i].mountpoint@, s.disks@[i]),
{
    let m = add_interfaces(base_metrics(s), s, s.interfaces@);
    lemma_shown(m, s.disks@, s.disks@[i].mountpoint@, i);
}

/// Mounts and interfaces do not disturb the other metrics.
pub proof fn law_dimensions_leave_the_rest(s: Snapshot, key: Seq<char>)
    requires
        fixed_name(key),
    ensures
        metrics_of(s).contains_key(key) == base_metrics(s).contains_key(key),
        base_metrics(s).contains_key(key) ==> metrics_of(s)[key] == base_metrics(s)[key],
{
    lemma_kinds_of_names(key);
    lemma_other_than_interfaces(base_metrics(s), s, s.interfaces@, key);
    lemma_disk_names(add_interfaces(base_metrics(s), s, s.interfaces@), s.disks@, key);
}

/// There is always something to push: every snapshot has a processor load.
pub proof fn law_metrics_are_never_empty(s: Snapshot)
    ensures
        metrics_of(s).contains_key("cpu.usage"@),
        metrics_of(s)["cpu.usage"@] == MetricValue::Measure(s.cpu.usage),
{
    lemma_fixed_letters();
    let key = "cpu.usage"@;
    law_dimensions_leave_the_rest(s, key);
}

/// A snapshot of which nothing is known yet gives zeros: no metric of it has
/// another value.
pub proof fn law_blank_metrics_are_zero(s: Snapshot, key: Seq<char>)
    requires
        s.blank(),
        metrics_of(s).contains_key(key),
    ensures
        metrics_of(s)[key] == MetricValue::Measure(Real::zero()) || metrics_of(s)[key]
            == MetricValue::Count(0),
{
    lemma_zero_whole(30);
}

/// Whether a metric is a size in bytes.
pub open spec fn size_name(key: Seq<char>) -> bool {
    ||| key == "mem.total_bytes"@
    ||| key == "mem.used_bytes"@
    ||| key == "mem.free_bytes"@
    ||| "disk.total_bytes|"@.is_prefix_of(key)
    ||| "disk.used_bytes|"@.is_prefix_of(key)
}

/// Whether every size of `m` is a whole number up to the byte ceiling.
pub open spec fn sizes_capped(m: Map<Seq<char>, MetricValue>) -> bool {
    forall|key: Seq<char>| #[trigger]
        m.contains_key(key) && size_name(key) ==> m[key] is Count && m[key]->Count_0
            <= BYTES_CEILING
}

/// Names that are not those of a size.
proof fn lemma_other_names(mount: Seq<char>)
    ensures
        !size_name("cpu.usage"@),
        !size_name("cpu.freq_mhz"@),
        !size_name("cpu.load_1m"@),
        !size_name("cpu.load_5m"@),
        !size_name("cpu.load_15m"@),
        !size_name("cpu.temp_c"@),
        !size_name("mem.percent"@),
        !size_name("disk.io.read_bytes_per_s"@),
        !size_name("disk.io.write_bytes_per_s"@),
        !size_name("disk.io.read_iops"@),
        !size_name("disk.io.write_iops"@),
        !size_name("net.rx_bytes_per_s"@),
        !size_name("net.tx_bytes_per_s"@),
        !size_name(dimension("disk.percent|"@, mount)),
{
    lemma_fixed_letters();
    reveal_strlit("disk.total_bytes|");
    reveal_strlit("disk.used_bytes|");
    reveal_strlit("disk.percent|");
    lemma_prefix_letters("cpu.usage"@);
    lemma_prefix_letters("cpu.freq_mhz"@);
    lemma_prefix_letters("cpu.load_1m"@);
    lemma_prefix_letters("cpu.load_5m"@);
    lemma_prefix_letters("cpu.load_15m"@);
    lemma_prefix_letters("cpu.temp_c"@);
    lemma_prefix_letters("mem.percent"@);
    lemma_prefix_letters("disk.io.read_bytes_per_s"@);
    lemma_prefix_letters("disk.io.write_bytes_per_s"@);
    lemma_prefix_letters("disk.io.read_iops"@);
    lemma_prefix_letters("disk.io.write_iops"@);
    lemma_prefix_letters("net.rx_bytes_per_s"@);
    lemma_prefix_letters("net.tx_bytes_per_s"@);
    lemma_prefix_letters(dimension("disk.percent|"@, mount));
    assert(dimension("disk.percent|"@, mount)[5] == 'p');
}

/// What the first letters of a size's name are.
proof fn lemma_prefix_letters(key: Seq<char>)
    ensures
        size_name(key) ==> key.len() > 5 && ((key[0] == 'm' && (key[4] == 't' || key[4] == 'u'
            || key[4] == 'f')) || (key[0] == 'd' && (key[5] == 't' || key[5] == 'u'))),
{
    reveal_strlit("mem.total_bytes");
    reveal_strlit("mem.used_bytes");
    reveal_strlit("mem.free_bytes");
    reveal_strlit("disk.total_bytes|");
    reveal_strlit("disk.used_bytes|");
    let total = "disk.total_bytes|"@;
    let used = "disk.used_bytes|"@;
    if total.is_prefix_of(key) {
        assert(key[0] == total[0] && key[5] == total[5]);
    }
    if used.is_prefix_of(key) {
        assert(key[0] == used[0] && key[5] == used[5]);
    }
}

proof fn lemma_disks_capped(m: Map<Seq<char>, MetricValue>, disks: Seq<DiskInfo>)
    requires
        sizes_capped(m),
    ensures
        sizes_capped(add_disks(m, disks)),
    decreases disks.len(),
{
    if disks.len() > 0 {
        lemma_disks_capped(m, disks.drop_last());
        lemma_other_names(disks.last().mountpoint@);
    }
}

/// No size exceeds the ceiling that the hub accepts.
pub proof fn law_sizes_are_capped(s: Snapshot)
    ensures
        sizes_capped(metrics_of(s)),
{
    lemma_other_names(Seq::empty());
    assert(sizes_capped(cpu_metrics(s.cpu)));
    assert(sizes_capped(base_metrics(s)));
    let m = add_interfaces(base_metrics(s), s, s.interfaces@);
    assert(sizes_capped(m)) by {
        assert forall|key: Seq<char>| #[trigger]
            m.contains_key(key) && size_name(key) implies m[key] is Count && m[key]->Count_0
            <= BYTES_CEILING by {
            lemma_kinds_of_names(key);
            lemma_other_than_interfaces(base_metrics(s), s, s.interfaces@, key);
        }
    }
    lemma_disks_capped(m, s.disks@);
}

/// A mount whose path is not empty and begins with none of `/snap/`,
/// `/var/lib/docker/` and `/run/docker/` is reported to the hub: its total, its
/// used space and its share in use are there under its own path.
pub proof fn law_ordinary_mounts_are_reported(s: Snapshot, i: int)
    requires
        0 <= i < s.disks@.len(),
        s.disks@[i].mountpoint@.len() > 0,
        !"/snap/"@.is_prefix_of(s.disks@[i].mountpoint@),
        !"/var/lib/docker/"@.is_prefix_of(s.disks@[i].mountpoint@),
        !"/run/docker/"@.is_prefix_of(s.disks@[i].mountpoint@),
        forall|j: int|
            i < j < s.disks@.len() ==> (#[trigger] s.disks@[j]).mountpoint@
                != s.disks@[i].mountpoint@,
    ensures
        ({
            let m = metrics_of(s);
            let d = s.disks@[i];
            let total = "disk.total_bytes|"@ + d.mountpoint@;
            let used = "disk.used_bytes|"@ + d.mountpoint@;
            let percent = "disk.percent|"@ + d.mountpoint@;
            &&& m.contains_key(total)
            &&& m[total] == MetricValue::Count(d.total.whole_scaled(30) as u64)
            &&& m.contains_key(used)
            &&& m[used] == MetricValue::Count(d.used.whole_scaled(30) as u64)
            &&& m.contains_key(percent)
            &&& m[percent] == MetricValue::Measure(d.percent)
        }),
{
    law_reported_mounts_are_shown(s, i);
}

/// A mount whose path is empty or begins with `/snap/`, `/var/lib/docker/` or
/// `/run/docker/` is not reported, and neither is one that the snapshot does
/// not list.
pub proof fn law_hidden_mounts_are_not_reported(s: Snapshot, mount: Seq<char>)
    requires
        mount.len() == 0 || "/snap/"@.is_prefix_of(mount) || "/var/lib/docker/"@.is_prefix_of(mount)
            || "/run/docker/"@.is_prefix_of(mount) || forall|j: int|
            0 <= j < s.disks@.len() ==> (#[trigger] s.disks@[j]).mountpoint@ != mount,
    ensures
        !metrics_of(s).contains_key("disk.total_bytes|"@ + mount),
        !metrics_of(s).contains_key("disk.used_bytes|"@ + mount),
        !metrics_of(s).contains_key("disk.percent|"@ + mount),
{
    law_other_mounts_are_silent(s, mount);
}

/// What the hub hears of the processor: the utilization always, the frequency
/// unless it is zero, the three loads where they are known, and the temperature
/// where it is finite and not zero.
pub proof fn law_processor_metrics(s: Snapshot)
    ensures
        ({
            let m = metrics_of(s);
            let c = s.cpu;
            &&& m.contains_key("cpu.usage"@) && m["cpu.usage"@] == MetricValue::Measure(c.usage)
            &&& m.contains_key("cpu.freq_mhz"@) <==> !c.freq.is_zero_value()
            &&& m.contains_key("cpu.freq_mhz"@) ==> m["cpu.freq_mhz"@] == MetricValue::Measure(
                c.freq,
            )
            &&& m.contains_key("cpu.temp_c"@) <==> c.temp.finite() && !c.temp.is_zero_value()
            &&& m.contains_key("cpu.temp_c"@) ==> m["cpu.temp_c"@] == MetricValue::Measure(c.temp)
            &&& match c.load {
                Some(load) => {
                    &&& m.contains_key("cpu.load_1m"@) && m["cpu.load_1m"@]
                        == MetricValue::Measure(load[0])
                    &&& m.contains_key("cpu.load_5m"@) && m["cpu.load_5m"@]
                        == MetricValue::Measure(load[1])
                    &&& m.contains_key("cpu.load_15m"@) && m["cpu.load_15m"@]
                        == MetricValue::Measure(load[2])
                },
                None => {
                    &&& !m.contains_key("cpu.load_1m"@)
                    &&& !m.contains_key("cpu.load_5m"@)
                    &&& !m.contains_key("cpu.load_15m"@)
                },
            }
        }),
{
    lemma_fixed_letters();
    lemma_load_names();
    law_dimensions_leave_the_rest(s, "cpu.usage"@);
    law_dimensions_leave_the_rest(s, "cpu.freq_mhz"@);
    law_dimensions_leave_the_rest(s, "cpu.load_1m"@);
    law_dimensions_leave_the_rest(s, "cpu.load_5m"@);
    law_dimensions_leave_the_rest(s, "cpu.load_15m"@);
    law_dimensions_leave_the_rest(s, "cpu.temp_c"@);
}

proof fn lemma_load_names()
    ensures
        "cpu.load_1m"@ != "cpu.load_5m"@,
        "cpu.load_1m"@ != "cpu.load_15m"@,
        "cpu.load_5m"@ != "cpu.load_15m"@,
{
    reveal_strlit("cpu.load_1m");
    reveal_strlit("cpu.load_5m");
    reveal_strlit("cpu.load_15m");
    assert("cpu.load_1m"@[9] == '1' && "cpu.load_5m"@[9] == '5');
    assert("cpu.load_1m"@.len() == 11 && "cpu.load_5m"@.len() == 11 && "cpu.load_15m"@.len() == 12);
}

proof fn lemma_machine_names()
    ensures
        "disk.io.read_bytes_per_s"@ != "disk.io.write_bytes_per_s"@,
        "disk.io.read_bytes_per_s"@ != "disk.io.read_iops"@,
        "disk.io.read_bytes_per_s"@ != "disk.io.write_iops"@,
        "disk.io.write_bytes_per_s"@ != "disk.io.read_iops"@,
        "disk.io.write_bytes_per_s"@ != "disk.io.write_iops"@,
        "disk.io.read_iops"@ != "disk.io.write_iops"@,
{
    reveal_strlit("disk.io.read_bytes_per_s");
    reveal_strlit("disk.io.write_bytes_per_s");
    reveal_strlit("disk.io.read_iops");
    reveal_strlit("disk.io.write_iops");
    assert("disk.io.read_bytes_per_s"@[8] == 'r' && "disk.io.read_iops"@[8] == 'r');
    assert("disk.io.write_bytes_per_s"@[8] == 'w' && "disk.io.write_iops"@[8] == 'w');
    assert("disk.io.read_bytes_per_s"@[13] == 'b' && "disk.io.read_iops"@[13] == 'i');
    assert("disk.io.write_bytes_per_s"@[14] == 'b' && "disk.io.write_iops"@[14] == 'i');
}

/// What the hub hears of memory and traffic, always: sizes in bytes, the share
/// in use, and what is read, written, received and sent per second.
pub proof fn law_machine_metrics(s: Snapshot)
    ensures
        ({
            let m = metrics_of(s);
            &&& m.contains_key("mem.total_bytes"@) && m["mem.total_bytes"@] == MetricValue::Count(
                s.mem.total.whole_scaled(30) as u64,
            )
            &&& m.contains_key("mem.used_bytes"@) && m["mem.used_bytes"@] == MetricValue::Count(
                s.mem.used.whole_scaled(30) as u64,
            )
            &&& m.contains_key("mem.free_bytes"@) && m["mem.free_bytes"@] == MetricValue::Count(
                s.mem.free.whole_scaled(30) as u64,
            )
            &&& m.contains_key("mem.percent"@) && m["mem.percent"@] == MetricValue::Measure(
                s.mem.percent,
            )
            &&& m.contains_key("disk.io.read_bytes_per_s"@) && m["disk.io.read_bytes_per_s"@]
                == MetricValue::Count(s.disk_io.read_bytes_per_sec)
            &&& m.contains_key("disk.io.write_bytes_per_s"@) && m["disk.io.write_bytes_per_s"@]
                == MetricValue::Count(s.disk_io.write_bytes_per_sec)
            &&& m.contains_key("disk.io.read_iops"@) && m["disk.io.read_iops"@]
                == MetricValue::Count(s.disk_io.read_iops)
            &&& m.contains_key("disk.io.write_iops"@) && m["disk.io.write_iops"@]
                == MetricValue::Count(s.disk_io.write_iops)
            &&& m.contains_key("net.rx_bytes_per_s"@) && m["net.rx_bytes_per_s"@]
                == MetricValue::Count(s.network.rx_bytes_per_sec)
            &&& m.contains_key("net.tx_bytes_per_s"@) && m["net.tx_bytes_per_s"@]
                == MetricValue::Count(s.network.tx_bytes_per_sec)
        }),
{
    lemma_fixed_letters();
    lemma_machine_names();
    law_dimensions_leave_the_rest(s, "mem.total_bytes"@);
    law_dimensions_leave_the_rest(s, "mem.used_bytes"@);
    law_dimensions_leave_the_rest(s, "mem.free_bytes"@);
    law_dimensions_leave_the_rest(s, "mem.percent"@);
    law_dimensions_leave_the_rest(s, "disk.io.read_bytes_per_s"@);
    law_dimensions_leave_the_rest(s, "disk.io.write_bytes_per_s"@);
    law_dimensions_leave_the_rest(s, "disk.io.read_iops"@);
    law_dimensions_leave_the_rest(s, "disk.io.write_iops"@);
    law_dimensions_leave_the_rest(s, "net.rx_bytes_per_s"@);
    law_dimensions_leave_the_rest(s, "net.tx_bytes_per_s"@);
}

/// What the hub hears of an interface: its own traffic where it is listed and
/// is not `lo`, zeros where its traffic is not known, and else nothing.
pub proof fn law_interface_metrics(s: Snapshot, name: Seq<char>)
    ensures
        ({
            let m = metrics_of(s);
            let rx = "net.rx_bytes_per_s|"@ + name;
            let tx = "net.tx_bytes_per_s|"@ + name;
            let shown = name != "lo"@ && exists|i: int|
                0 <= i < s.interfaces@.len() && (#[trigger] s.interfaces@[i])@ == name;
            let known = s.network_by_interface@.contains_key(name);
            &&& m.contains_key(rx) <==> shown
            &&& m.contains_key(tx) <==> shown
            &&& shown && known ==> m[rx] == MetricValue::Count(
                s.network_by_interface@[name].rx_bytes_per_sec,
            ) && m[tx] == MetricValue::Count(s.network_by_interface@[name].tx_bytes_per_sec)
            &&& shown && !known ==> m[rx] == MetricValue::Count(0) && m[tx] == MetricValue::Count(0)
        }),
{
    lemma_traffic_metrics(s, name);
}

/// The hub hears of nothing else: every metric is one of the sixteen without a
/// dimension, or is of a mount that the snapshot lists, or of an interface.
pub proof fn law_no_other_metrics(s: Snapshot, key: Seq<char>)
    requires
        metrics_of(s).contains_key(key),
    ensures
        fixed_name(key) || "disk.total_bytes|"@.is_prefix_of(key) || "disk.used_bytes|"@.is_prefix_of(
            key,
        ) || "disk.percent|"@.is_prefix_of(key) || "net.rx_bytes_per_s|"@.is_prefix_of(key)
            || "net.tx_bytes_per_s|"@.is_prefix_of(key),
{
    lemma_fixed_names(s, key);
    if !interface_name(key) && !mount_name(key) {
        lemma_other_than_interfaces(base_metrics(s), s, s.interfaces@, key);
        lemma_disk_names(add_interfaces(base_metrics(s), s, s.interfaces@), s.disks@, key);
    }
}

} // verus!
