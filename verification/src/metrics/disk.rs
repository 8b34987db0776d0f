//! Disk space and disk traffic.

use crate::metrics::{cell, law_nearest_rate, nearest, per_second, rate_per_sec, read_cell, sat_add, sat_mul, sat_sub, saturating_product};
use crate::names::NameSet;
use crate::snapshot::DiskIo;
use crate::text::{lines, lines_of, same, starts_with, strip_both, strip_prefix, texts, trim, words, words_of, Class};
use vstd::prelude::*;

verus! {

/// What the file system reports of itself, in blocks of `frsize` bytes.
#[derive(Clone, Copy)]
pub struct StatVfs {
    pub frsize: u64,
    pub blocks: u64,
    pub bfree: u64,
    pub bavail: u64,
}

/// Space of a file system in bytes. The share in use is `used` of `basis`.
#[derive(Clone, Copy)]
pub struct Usage {
    pub total: u64,
    pub used: u64,
    pub free: u64,
    pub basis: u64,
}

impl StatVfs {
    pub open spec fn total_bytes(self) -> nat {
        sat_mul(self.blocks as nat, self.frsize as nat)
    }

    /// Everything but the free blocks; free blocks kept for root count as free
    /// here, and not as available below.
    pub open spec fn used_bytes(self) -> nat {
        sat_mul(sat_sub(self.blocks as nat, self.bfree as nat), self.frsize as nat)
    }

    /// What is available to ordinary users.
    pub open spec fn free_bytes(self) -> nat {
        sat_mul(self.bavail as nat, self.frsize as nat)
    }

    /// Whether used and available bytes together fit a `u64`.
    pub open spec fn fits(self) -> bool {
        self.used_bytes() + self.free_bytes() <= u64::MAX
    }

    /// Whether used and available bytes together fit a `u64`.
    pub fn is_countable(&self) -> (r: bool)
        ensures
            r == self.fits(),
    {
        let used: u64 = saturating_product(self.blocks.saturating_sub(self.bfree), self.frsize);
        let free: u64 = saturating_product(self.bavail, self.frsize);
        match used.checked_add(free) {
            Some(_) => true,
            None => false,
        }
    }
}

/// The space that `st` describes: the share in use is that of used and
/// available bytes together, as `df` counts.
pub open spec fn stat_usage(st: StatVfs) -> Usage {
    Usage {
        total: st.total_bytes() as u64,
        used: st.used_bytes() as u64,
        free: st.free_bytes() as u64,
        basis: (st.used_bytes() + st.free_bytes()) as u64,
    }
}

/// The space known without a report: the share in use is that of the total.
pub open spec fn plain_usage(total: u64, available: u64) -> Usage {
    Usage {
        total,
        used: sat_sub(total as nat, available as nat) as u64,
        free: available,
        basis: total,
    }
}

/// Derives the space of a file system from its own report.
pub fn statvfs_usage(st: &StatVfs) -> (r: Usage)
    requires
        st.fits(),
    ensures
        r == stat_usage(*st),
{
    let total: u64 = saturating_product(st.blocks, st.frsize);
    let used: u64 = saturating_product(st.blocks.saturating_sub(st.bfree), st.frsize);
    let free: u64 = saturating_product(st.bavail, st.frsize);
    Usage { total, used, free, basis: used + free }
}

/// A mounted file system.
pub struct Mount {
    pub device: String,
    pub mountpoint: String,
    pub fstype: String,
    pub total_space: u64,
    pub available_space: u64,
    /// The file system's own report, if it gave one.
    pub stat: Option<StatVfs>,
}

impl Mount {
    /// Whether its space can be counted.
    pub open spec fn countable(self) -> bool {
        self.stat is Some ==> self.stat->0.fits()
    }

    /// The space of the mount.
    pub open spec fn usage(self) -> Usage {
        match self.stat {
            Some(st) => stat_usage(st),
            None => plain_usage(self.total_space, self.available_space),
        }
    }
}

/// The space of a mount: by its own report, or else by the plain totals.
pub fn usage_for_mount(m: &Mount) -> (r: Usage)
    requires
        m.countable(),
    ensures
        r == m.usage(),
{
    match &m.stat {
        Some(st) => statvfs_usage(st),
        None => Usage {
            total: m.total_space,
            used: m.total_space.saturating_sub(m.available_space),
            free: m.available_space,
            basis: m.total_space,
        },
    }
}

/// The position of the first mount at `point`; the number of mounts if none.
pub open spec fn first_at(mounts: Seq<Mount>, point: Seq<char>) -> nat
    decreases mounts.len(),
{
    if mounts.len() == 0 || mounts[0].mountpoint@ == point {
        0
    } else {
        1 + first_at(mounts.skip(1), point)
    }
}

/// The position of the primary mount: the first at `root`, else the first at
/// `/`, else the first of all.
pub open spec fn primary(mounts: Seq<Mount>, root: Seq<char>) -> nat {
    if first_at(mounts, root) < mounts.len() {
        first_at(mounts, root)
    } else if first_at(mounts, "/"@) < mounts.len() {
        first_at(mounts, "/"@)
    } else {
        0
    }
}

fn find_mount(mounts: &Vec<Mount>, point: &str) -> (r: usize)
    ensures
        r <= mounts.len(),
        r == first_at(mounts@, point@),
{
    let mut i: usize = 0;
    assert(mounts@.skip(0) =~= mounts@);
    while i < mounts.len() && !same(mounts[i].mountpoint.as_str(), point)
        invariant
            i <= mounts.len(),
            first_at(mounts@, point@) == i + first_at(mounts@.skip(i as int), point@),
        decreases mounts.len() - i,
    {
        assert(mounts@.skip(i as int).skip(1) =~= mounts@.skip(i as int + 1));
        i += 1;
    }
    i
}

/// Finds the primary mount.
pub fn primary_mount(mounts: &Vec<Mount>, root: &str) -> (r: usize)
    requires
        mounts.len() > 0,
    ensures
        r < mounts.len(),
        r == primary(mounts@, root@),
{
    let at_root: usize = find_mount(mounts, root);
    if at_root < mounts.len() {
        return at_root;
    }
    let at_slash: usize = find_mount(mounts, "/");
    if at_slash < mounts.len() {
        return at_slash;
    }
    0
}

/// The space of the primary mount; nothing if there are no mounts.
pub fn collect_root(mounts: &Vec<Mount>, root: &str) -> (r: Usage)
    requires
        mounts.len() > 0 ==> mounts@[primary(mounts@, root@) as int].countable(),
    ensures
        r == if mounts.len() > 0 {
            mounts@[primary(mounts@, root@) as int].usage()
        } else {
            plain_usage(0, 0)
        },
{
    if mounts.len() == 0 {
        return Usage { total: 0, used: 0, free: 0, basis: 0 };
    }
    usage_for_mount(&mounts[primary_mount(mounts, root)])
}

/// A mount that is shown, with its space.
pub struct MountUsage {
    pub device: String,
    pub mountpoint: String,
    pub fstype: String,
    pub usage: Usage,
}

/// Whether a mount is shown. With `nodev`, only devices named by a path are,
/// and none whose file system type is in that set.
pub open spec fn shown(m: Mount, nodev: Option<Set<Seq<char>>>) -> bool {
    match nodev {
        Some(types) => m.device@.len() > 0 && m.device@[0] == '/' && !types.contains(m.fstype@),
        None => true,
    }
}

/// Whether `row` is the row of mount `m`.
pub open spec fn row_of(row: MountUsage, m: Mount) -> bool {
    &&& row.device@ == m.device@
    &&& row.mountpoint@ == m.mountpoint@
    &&& row.fstype@ == m.fstype@
    &&& row.usage == m.usage()
}

/// Whether `rows` are the rows of `mounts`, one for one and in order.
pub open spec fn rows_of(rows: Seq<MountUsage>, mounts: Seq<Mount>) -> bool {
    &&& rows.len() == mounts.len()
    &&& forall|i: int| 0 <= i < rows.len() ==> row_of(#[trigger] rows[i], mounts[i])
}

/// The set that an optional set of names stands for.
pub open spec fn types_in(nodev: Option<&NameSet>) -> Option<Set<Seq<char>>> {
    match nodev {
        Some(set) => Some(set@),
        None => None,
    }
}

/// Whether a mount is shown.
pub fn is_shown(m: &Mount, nodev: Option<&NameSet>) -> (r: bool)
    ensures
        r == shown(*m, types_in(nodev)),
{
    match nodev {
        Some(types) => {
            let by_path = starts_with(m.device.as_str(), "/");
            assert(by_path == (m.device@.len() > 0 && m.device@[0] == '/')) by {
                reveal_strlit("/");
                if m.device@.len() > 0 && m.device@[0] == '/' {
                    assert(m.device@.subrange(0, 1) =~= "/"@);
                }
                if by_path {
                    assert("/"@ =~= m.device@.subrange(0, 1));
                    assert(m.device@.subrange(0, 1)[0] == m.device@[0]);
                }
            }
            by_path && !types.contains(m.fstype.as_str())
        },
        None => true,
    }
}

/// The space of every mount that is shown, in order.
pub fn collect_all(mounts: &Vec<Mount>, nodev: Option<&NameSet>) -> (rows: Vec<MountUsage>)
    requires
        forall|i: int|
            0 <= i < mounts.len() && shown(#[trigger] mounts@[i], types_in(nodev))
                ==> mounts@[i].countable(),
    ensures
        rows_of(rows@, mounts@.filter(|m: Mount| shown(m, types_in(nodev)))),
{
    let ghost keep = |m: Mount| shown(m, types_in(nodev));
    let mut rows: Vec<MountUsage> = Vec::new();
    let mut i: usize = 0;
    assert(mounts@.take(0).filter(keep) =~= Seq::<Mount>::empty()) by {
        reveal(Seq::filter);
    }
    while i < mounts.len()
        invariant
            i <= mounts.len(),
            keep == (|m: Mount| shown(m, types_in(nodev))),
            forall|i: int|
                0 <= i < mounts.len() && shown(#[trigger] mounts@[i], types_in(nodev))
                    ==> mounts@[i].countable(),
            rows_of(rows@, mounts@.take(i as int).filter(keep)),
        decreases mounts.len() - i,
    {
        let m = &mounts[i];
        let ghost kept = mounts@.take(i as int).filter(keep);
        let ghost was = rows@;
        assert(mounts@.take(i as int + 1) =~= mounts@.take(i as int).push(*m));
        proof {
            crate::text::lemma_filter_push(mounts@.take(i as int), *m, keep);
        }
        if is_shown(m, nodev) {
            assert(shown(mounts@[i as int], types_in(nodev)));
            rows.push(
                MountUsage {
                    device: m.device.clone(),
                    mountpoint: m.mountpoint.clone(),
                    fstype: m.fstype.clone(),
                    usage: usage_for_mount(m),
                },
            );
            assert forall|k: int| 0 <= k < rows@.len() implies row_of(
                #[trigger] rows@[k],
                kept.push(*m)[k],
            ) by {
                if k < was.len() {
                    assert(row_of(was[k], kept[k]));
                }
            }
        }
        i += 1;
    }
    assert(mounts@.take(mounts.len() as int) =~= mounts@);
    rows
}

/// The file system types that the lines of `/proc/filesystems` mark `nodev`.
pub open spec fn nodev_types(lines: Seq<Seq<char>>) -> Set<Seq<char>>
    decreases lines.len(),
{
    if lines.len() == 0 {
        Set::empty()
    } else {
        let before = nodev_types(lines.drop_last());
        if "nodev"@.is_prefix_of(lines.last()) {
            before.insert(strip_both(lines.last().skip("nodev"@.len() as int), Class::Space))
        } else {
            before
        }
    }
}

/// The pseudo file systems: those marked in the text of `/proc/filesystems`,
/// and the one that snap loops use. Nothing is known if there is no text.
pub fn nodev_filesystems(raw: Option<&str>) -> (r: NameSet)
    ensures
        r.wf(),
        match raw {
            Some(s) => r@ == nodev_types(lines_of(s@)).insert("fuse.snapfuse"@),
            None => r@ == Set::<Seq<char>>::empty(),
        },
{
    let mut set = NameSet::new();
    match raw {
        Some(s) => {
            let rows = lines(s);
            let ghost all = texts(rows@);
            let mut i: usize = 0;
            assert(all.take(0) =~= Seq::<Seq<char>>::empty());
            while i < rows.len()
                invariant
                    i <= rows.len(),
                    all == texts(rows@),
                    set.wf(),
                    set@ == nodev_types(all.take(i as int)),
                decreases rows.len() - i,
            {
                assert(all.take(i as int + 1).drop_last() =~= all.take(i as int));
                assert(all.take(i as int + 1).last() == rows@[i as int]@);
                match strip_prefix(rows[i].as_str(), "nodev") {
                    Some(rest) => {
                        set.insert(trim(rest.as_str()));
                    },
                    None => {},
                }
                i += 1;
            }
            assert(all.take(rows.len() as int) =~= all);
            set.insert("fuse.snapfuse".to_owned());
        },
        None => {},
    }
    set
}

/// Whether a block device counts: loop and RAM devices do not.
pub open spec fn is_disk(name: Seq<char>) -> bool {
    !"loop"@.is_prefix_of(name) && !"ram"@.is_prefix_of(name)
}

/// The whole disks among the entries of `/sys/block`.
pub fn whole_disks(names: &Vec<String>) -> (r: NameSet)
    ensures
        r.wf(),
        r@ == texts(names@).filter(|n: Seq<char>| is_disk(n)).to_set(),
{
    let ghost keep = |n: Seq<char>| is_disk(n);
    let ghost all = texts(names@);
    let mut set = NameSet::new();
    let mut i: usize = 0;
    assert(all.take(0).filter(keep).to_set() =~= Set::<Seq<char>>::empty()) by {
        reveal(Seq::filter);
    }
    while i < names.len()
        invariant
            i <= names.len(),
            all == texts(names@),
            keep == (|n: Seq<char>| is_disk(n)),
            set.wf(),
            set@ == all.take(i as int).filter(keep).to_set(),
        decreases names.len() - i,
    {
        let ghost kept = all.take(i as int).filter(keep);
        let ghost name = names@[i as int]@;
        assert(all.take(i as int + 1) =~= all.take(i as int).push(name));
        proof {
            crate::text::lemma_filter_push(all.take(i as int), name, keep);
        }
        if !starts_with(names[i].as_str(), "loop") && !starts_with(names[i].as_str(), "ram") {
            set.insert(names[i].clone());
            assert(kept.push(name).to_set() =~= kept.to_set().insert(name)) by {
                assert forall|k: Seq<char>| kept.push(name).to_set().contains(k)
                    <==> kept.to_set().insert(name).contains(k) by {
                    if kept.to_set().contains(k) {
                        let j = choose|j: int| 0 <= j < kept.len() && kept[j] == k;
                        assert(kept.push(name)[j] == k);
                    }
                    assert(kept.push(name)[kept.len() as int] == name);
                }
            }
        }
        i += 1;
    }
    assert(all.take(names.len() as int) =~= all);
    set
}

/// Traffic of all disks since boot, in operations and in sectors of 512 bytes.
#[derive(Clone, Copy)]
pub struct DiskTotals {
    pub read_ops: u64,
    pub read_sectors: u64,
    pub write_ops: u64,
    pub write_sectors: u64,
}

/// Whether a row of `/proc/diskstats` counts: it is complete, and its device
/// is among `allowed`.
pub open spec fn row_counts(fields: Seq<Seq<char>>, allowed: Set<Seq<char>>) -> bool {
    fields.len() >= 14 && allowed.contains(fields[2])
}

/// The saturated sum of a column over the rows that count.
pub open spec fn column_sum(lines: Seq<Seq<char>>, allowed: Set<Seq<char>>, i: int) -> nat
    decreases lines.len(),
{
    if lines.len() == 0 {
        0
    } else {
        let before = column_sum(lines.drop_last(), allowed, i);
        let fields = words_of(lines.last());
        if row_counts(fields, allowed) {
            sat_add(before, cell(fields, i) as nat)
        } else {
            before
        }
    }
}

/// Adds up the text of `/proc/diskstats` over the disks in `allowed`.
pub fn read_diskstats(raw: &str, allowed: &NameSet) -> (r: DiskTotals)
    ensures
        r.read_ops == column_sum(lines_of(raw@), allowed@, 3),
        r.read_sectors == column_sum(lines_of(raw@), allowed@, 5),
        r.write_ops == column_sum(lines_of(raw@), allowed@, 7),
        r.write_sectors == column_sum(lines_of(raw@), allowed@, 9),
{
    let rows = lines(raw);
    let ghost all = texts(rows@);
    let mut read_ops: u64 = 0;
    let mut read_sectors: u64 = 0;
    let mut write_ops: u64 = 0;
    let mut write_sectors: u64 = 0;
    let mut i: usize = 0;
    assert(all.take(0) =~= Seq::<Seq<char>>::empty());
    while i < rows.len()
        invariant
            i <= rows.len(),
            all == texts(rows@),
            read_ops == column_sum(all.take(i as int), allowed@, 3),
            read_sectors == column_sum(all.take(i as int), allowed@, 5),
            write_ops == column_sum(all.take(i as int), allowed@, 7),
            write_sectors == column_sum(all.take(i as int), allowed@, 9),
        decreases rows.len() - i,
    {
        assert(all.take(i as int + 1).drop_last() =~= all.take(i as int));
        assert(all.take(i as int + 1).last() == rows@[i as int]@);
        let fields = words(rows[i].as_str());
        let ghost cells = words_of(rows@[i as int]@);
        assert(fields.len() == cells.len());
        if fields.len() >= 14 {
            assert(cells[2] == fields@[2]@);
            if allowed.contains(fields[2].as_str()) {
                read_ops = read_ops.saturating_add(read_cell(&fields, 3));
                read_sectors = read_sectors.saturating_add(read_cell(&fields, 5));
                write_ops = write_ops.saturating_add(read_cell(&fields, 7));
                write_sectors = write_sectors.saturating_add(read_cell(&fields, 9));
            }
        }
        i += 1;
    }
    assert(all.take(rows.len() as int) =~= all);
    DiskTotals { read_ops, read_sectors, write_ops, write_sectors }
}

/// A row of a device that is not among those asked for, such as a partition of
/// one of them, adds nothing.
pub proof fn law_partitions_are_left_out(
    rows: Seq<Seq<char>>,
    allowed: Set<Seq<char>>,
    k: int,
    i: int,
)
    requires
        0 <= k < rows.len(),
        words_of(rows[k]).len() > 2,
        !allowed.contains(words_of(rows[k])[2]),
    ensures
        column_sum(rows, allowed, i) == column_sum(rows.remove(k), allowed, i),
    decreases rows.len(),
{
    if k == rows.len() - 1 {
        assert(rows.remove(k) =~= rows.drop_last());
    } else {
        assert(rows.remove(k).drop_last() =~= rows.drop_last().remove(k));
        assert(rows.remove(k).last() == rows.last());
        law_partitions_are_left_out(rows.drop_last(), allowed, k, i);
    }
}

/// Bytes in a sector, whatever the device's own sector size is.
pub const SECTOR: u64 = 512;

/// Traffic of all disks since boot, in operations and in bytes.
#[derive(Clone, Copy)]
pub struct DiskCounters {
    pub read_bytes: u64,
    pub write_bytes: u64,
    pub read_ops: u64,
    pub write_ops: u64,
}

impl DiskTotals {
    /// Whether the bytes fit a `u64`.
    pub open spec fn fits(self) -> bool {
        self.read_sectors * SECTOR <= u64::MAX && self.write_sectors * SECTOR <= u64::MAX
    }

    /// Whether the bytes fit a `u64`.
    pub fn is_countable(&self) -> (r: bool)
        ensures
            r == self.fits(),
    {
        self.read_sectors <= u64::MAX / SECTOR && self.write_sectors <= u64::MAX / SECTOR
    }

    /// The same traffic in bytes.
    pub fn in_bytes(&self) -> (r: DiskCounters)
        requires
            self.fits(),
        ensures
            r.read_bytes == self.read_sectors * SECTOR,
            r.write_bytes == self.write_sectors * SECTOR,
            r.read_bytes == self.read_sectors * 512,
            r.write_bytes == self.write_sectors * 512,
            r.read_ops == self.read_ops,
            r.write_ops == self.write_ops,
    {
        DiskCounters {
            read_bytes: self.read_sectors * SECTOR,
            write_bytes: self.write_sectors * SECTOR,
            read_ops: self.read_ops,
            write_ops: self.write_ops,
        }
    }
}

/// A reading of the disk counters and the monotonic time, in nanoseconds, at
/// which it was taken.
#[derive(Clone, Copy, Debug)]
pub struct DiskIoPrev {
    pub at: u64,
    pub read_bytes: u64,
    pub write_bytes: u64,
    pub read_ops: u64,
    pub write_ops: u64,
}

/// No traffic.
pub open spec fn idle() -> DiskIo {
    DiskIo { read_bytes_per_sec: 0, write_bytes_per_sec: 0, read_iops: 0, write_iops: 0 }
}

/// The reading `c` taken at `now`.
pub open spec fn reading(c: DiskCounters, now: u64) -> DiskIoPrev {
    DiskIoPrev {
        at: now,
        read_bytes: c.read_bytes,
        write_bytes: c.write_bytes,
        read_ops: c.read_ops,
        write_ops: c.write_ops,
    }
}

/// The growth of a counter per second; a counter that went back counts as not
/// grown.
pub open spec fn growth(now: u64, before: u64, nanos: nat) -> u64 {
    rate_per_sec(sat_sub(now as nat, before as nat), nanos) as u64
}

/// The traffic between reading `before` and counters `c` at `now`.
pub open spec fn traffic(before: Option<DiskIoPrev>, c: DiskCounters, now: u64) -> DiskIo {
    match before {
        Some(p) => if now <= p.at {
            idle()
        } else {
            let nanos = (now - p.at) as nat;
            DiskIo {
                read_bytes_per_sec: growth(c.read_bytes, p.read_bytes, nanos),
                write_bytes_per_sec: growth(c.write_bytes, p.write_bytes, nanos),
                read_iops: growth(c.read_ops, p.read_ops, nanos),
                write_iops: growth(c.write_ops, p.write_ops, nanos),
            }
        },
        None => idle(),
    }
}

/// The traffic per second since the previous reading, which the new reading
/// replaces. Without a new reading there is no traffic and the previous
/// reading stays.
pub fn collect_io(prev: &mut Option<DiskIoPrev>, counters: Option<DiskCounters>, now: u64) -> (r:
    DiskIo)
    ensures
        match counters {
            Some(c) => r == traffic(*old(prev), c, now) && *final(prev) == Some(reading(c, now)),
            None => r == idle() && *final(prev) == *old(prev),
        },
{
    let none = DiskIo {
        read_bytes_per_sec: 0,
        write_bytes_per_sec: 0,
        read_iops: 0,
        write_iops: 0,
    };
    match counters {
        None => none,
        Some(c) => {
            let last = prev.take();
            *prev = Some(
                DiskIoPrev {
                    at: now,
                    read_bytes: c.read_bytes,
                    write_bytes: c.write_bytes,
                    read_ops: c.read_ops,
                    write_ops: c.write_ops,
                },
            );
            match last {
                None => none,
                Some(p) => {
                    let elapsed: u64 = now.saturating_sub(p.at);
                    if elapsed == 0 {
                        none
                    } else {
                        DiskIo {
                            read_bytes_per_sec: per_second(
                                c.read_bytes.saturating_sub(p.read_bytes),
                                elapsed,
                            ),
                            write_bytes_per_sec: per_second(
                                c.write_bytes.saturating_sub(p.write_bytes),
                                elapsed,
                            ),
                            read_iops: per_second(c.read_ops.saturating_sub(p.read_ops), elapsed),
                            write_iops: per_second(
                                c.write_ops.saturating_sub(p.write_ops),
                                elapsed,
                            ),
                        }
                    }
                },
            }
        },
    }
}

/// Space adds up as `df` shows it: what is neither used nor available is kept
/// for root, and the share in use is counted over the rest.
pub proof fn law_reserved_space(st: StatVfs)
    requires
        st.bavail <= st.bfree <= st.blocks,
        st.blocks * st.frsize <= u64::MAX,
    ensures
        st.fits(),
        ({
            let u = stat_usage(st);
            &&& u.basis == u.used + u.free
            &&& u.total == u.used + u.free + (st.bfree - st.bavail) * st.frsize
        }),
{
    let f = st.frsize as int;
    assert((st.blocks - st.bfree) * f + st.bavail * f + (st.bfree - st.bavail) * f == st.blocks * f)
        by (nonlinear_arith);
    assert((st.blocks - st.bfree) * f >= 0 && st.bavail * f >= 0 && (st.bfree - st.bavail) * f >= 0)
        by (nonlinear_arith)
        requires
            f >= 0,
            st.bavail <= st.bfree <= st.blocks,
    ;
}

/// Every row with at least fourteen fields whose third is a device that was
/// asked for adds the number in each column, however many further fields it
/// has. The sum stays at the largest number where it would exceed that; what is
/// not a number adds nothing.
pub proof fn law_rows_of_disks_are_added(
    rows: Seq<Seq<char>>,
    row: Seq<char>,
    allowed: Set<Seq<char>>,
    i: int,
)
    requires
        words_of(row).len() >= 14,
        allowed.contains(words_of(row)[2]),
    ensures
        ({
            let before = column_sum(rows, allowed, i);
            let after = column_sum(rows.push(row), allowed, i);
            match crate::number::u64_written(words_of(row)[i]) {
                Some(v) => {
                    &&& before + v <= u64::MAX ==> after == before + v
                    &&& before + v > u64::MAX ==> after == u64::MAX
                },
                None => after == before,
            }
        }),
        column_sum(Seq::empty(), allowed, i) == 0,
        column_sum(rows, allowed, i) <= u64::MAX,
{
    assert(rows.push(row).drop_last() =~= rows);
    lemma_column_fits(rows, allowed, i);
}

proof fn lemma_column_fits(rows: Seq<Seq<char>>, allowed: Set<Seq<char>>, i: int)
    ensures
        column_sum(rows, allowed, i) <= u64::MAX,
    decreases rows.len(),
{
    if rows.len() > 0 {
        lemma_column_fits(rows.drop_last(), allowed, i);
    }
}

/// A row with fewer than fourteen fields, and one of another device, add
/// nothing.
pub proof fn law_other_rows_add_nothing(
    rows: Seq<Seq<char>>,
    row: Seq<char>,
    allowed: Set<Seq<char>>,
    i: int,
)
    requires
        words_of(row).len() < 14 || !allowed.contains(words_of(row)[2]),
    ensures
        column_sum(rows.push(row), allowed, i) == column_sum(rows, allowed, i),
{
    assert(rows.push(row).drop_last() =~= rows);
}

/// The pseudo file systems are those that a line names after the word `nodev`.
pub proof fn law_nodev_lines(lines: Seq<Seq<char>>, name: Seq<char>)
    ensures
        nodev_types(lines).contains(name) <==> exists|i: int|
            0 <= i < lines.len() && "nodev"@.is_prefix_of(#[trigger] lines[i]) && strip_both(
                lines[i].skip(5),
                Class::Space,
            ) == name,
    decreases lines.len(),
{
    assert("nodev"@.len() == 5) by {
        reveal_strlit("nodev");
    }
    if lines.len() > 0 {
        let init = lines.drop_last();
        law_nodev_lines(init, name);
        if nodev_types(init).contains(name) {
            let i = choose|i: int|
                0 <= i < init.len() && "nodev"@.is_prefix_of(#[trigger] init[i]) && strip_both(
                    init[i].skip(5),
                    Class::Space,
                ) == name;
            assert(lines[i] == init[i]);
        }
        assert(lines[lines.len() - 1] == lines.last());
        assert forall|i: int|
            0 <= i < init.len() && "nodev"@.is_prefix_of(#[trigger] lines[i]) && strip_both(
                lines[i].skip(5),
                Class::Space,
            ) == name implies nodev_types(init).contains(name) by {
            assert(init[i] == lines[i]);
        }
    }
}

/// The whole disks are the block devices whose names begin neither with `loop`
/// nor with `ram`.
pub proof fn law_whole_disks(names: Seq<Seq<char>>, name: Seq<char>)
    ensures
        names.filter(|n: Seq<char>| is_disk(n)).to_set().contains(name) <==> names.contains(name)
            && !"loop"@.is_prefix_of(name) && !"ram"@.is_prefix_of(name),
    decreases names.len(),
{
    reveal(Seq::filter);
    let keep = |n: Seq<char>| is_disk(n);
    let kept = names.filter(keep);
    if names.len() > 0 {
        let init = names.drop_last();
        law_whole_disks(init, name);
        let before = init.filter(keep);
        if before.contains(name) {
            let i = choose|i: int| 0 <= i < before.len() && before[i] == name;
            assert(kept[i] == name);
        }
        if init.contains(name) {
            let i = choose|i: int| 0 <= i < init.len() && init[i] == name;
            assert(names[i] == name);
        }
        if names.contains(name) {
            let i = choose|i: int| 0 <= i < names.len() && names[i] == name;
            if i < init.len() {
                assert(init[i] == name);
            }
        }
        if kept.contains(name) {
            let i = choose|i: int| 0 <= i < kept.len() && kept[i] == name;
            if i < before.len() {
                assert(before[i] == name);
            }
        }
        assert(names[names.len() - 1] == names.last());
        if is_disk(names.last()) {
            assert(kept[before.len() as int] == names.last());
        }
    }
}

/// Which mounts are shown: all where the pseudo file systems are not known, and
/// else those whose device is a path and whose type is none of them.
pub proof fn law_shown_mounts(m: Mount, types: Set<Seq<char>>)
    ensures
        shown(m, None),
        m.device@.len() > 0 && m.device@[0] == '/' && !types.contains(m.fstype@) ==> shown(
            m,
            Some(types),
        ),
        m.device@.len() == 0 ==> !shown(m, Some(types)),
        m.device@.len() > 0 && m.device@[0] != '/' ==> !shown(m, Some(types)),
        types.contains(m.fstype@) ==> !shown(m, Some(types)),
{
}

proof fn lemma_first_at(mounts: Seq<Mount>, point: Seq<char>)
    ensures
        first_at(mounts, point) <= mounts.len(),
        first_at(mounts, point) < mounts.len() ==> mounts[first_at(
            mounts,
            point,
        ) as int].mountpoint@ == point,
        forall|i: int|
            0 <= i < first_at(mounts, point) ==> (#[trigger] mounts[i]).mountpoint@ != point,
    decreases mounts.len(),
{
    if mounts.len() > 0 && mounts[0].mountpoint@ != point {
        let rest = mounts.skip(1);
        lemma_first_at(rest, point);
        assert forall|i: int| 0 <= i < first_at(mounts, point) implies (
        #[trigger] mounts[i]).mountpoint@ != point by {
            if i > 0 {
                assert(rest[i - 1] == mounts[i]);
            }
        }
    }
}

/// The primary mount is the first one at `root`; without one the first at `/`;
/// and without that the first of all.
pub proof fn law_primary_mount(mounts: Seq<Mount>, root: Seq<char>, j: int)
    requires
        0 <= j < mounts.len(),
    ensures
        ({
            let p = primary(mounts, root) as int;
            let some_at_root = exists|i: int|
                0 <= i < mounts.len() && (#[trigger] mounts[i]).mountpoint@ == root;
            let some_at_top = exists|i: int|
                0 <= i < mounts.len() && (#[trigger] mounts[i]).mountpoint@ == "/"@;
            &&& p < mounts.len()
            &&& some_at_root ==> mounts[p].mountpoint@ == root
            &&& mounts[j].mountpoint@ == root ==> p <= j
            &&& !some_at_root && some_at_top ==> mounts[p].mountpoint@ == "/"@
            &&& !some_at_root && mounts[j].mountpoint@ == "/"@ ==> p <= j
            &&& !some_at_root && !some_at_top ==> p == 0
        }),
{
    lemma_first_at(mounts, root);
    lemma_first_at(mounts, "/"@);
}

/// Space in bytes, where it can be counted: blocks times their size; what is
/// not free is used, and what ordinary users can have is free. Without a report
/// of the file system, what is not available of the total is used.
pub proof fn law_space_in_bytes(m: Mount)
    ensures
        m.stat matches Some(st) ==> st.blocks * st.frsize <= u64::MAX && st.bfree <= st.blocks
            && st.bavail <= st.bfree ==> {
            let u = m.usage();
            &&& u.total == st.blocks * st.frsize
            &&& u.used == (st.blocks - st.bfree) * st.frsize
            &&& u.free == st.bavail * st.frsize
            &&& u.basis == u.used + u.free
        },
        m.stat is None && m.available_space <= m.total_space ==> {
            let u = m.usage();
            &&& u.total == m.total_space
            &&& u.free == m.available_space
            &&& u.used + u.free == u.total
            &&& u.basis == m.total_space
        },
        m.stat is None && m.available_space > m.total_space ==> m.usage().used == 0,
{
    match m.stat {
        Some(st) => {
            if st.blocks * st.frsize <= u64::MAX && st.bfree <= st.blocks && st.bavail
                <= st.bfree {
                law_reserved_space(st);
                let f = st.frsize as int;
                assert((st.blocks - st.bfree) * f <= st.blocks * f && st.bavail * f <= st.blocks
                    * f) by (nonlinear_arith)
                    requires
                        f >= 0,
                        st.bavail <= st.bfree <= st.blocks,
                ;
            }
        },
        None => {},
    }
}

/// Rates are what each counter grew by per second, rounded to the nearest, and
/// zero for a counter that went back: each rate is that of its own counter.
pub proof fn law_disk_rates(p: DiskIoPrev, c: DiskCounters, now: u64)
    requires
        now > p.at,
        c.read_bytes >= p.read_bytes,
        c.write_bytes >= p.write_bytes,
        c.read_ops >= p.read_ops,
        c.write_ops >= p.write_ops,
    ensures
        ({
            let t = traffic(Some(p), c, now);
            let n = (now - p.at) as int;
            &&& nearest(t.read_bytes_per_sec, c.read_bytes - p.read_bytes, n)
            &&& nearest(t.write_bytes_per_sec, c.write_bytes - p.write_bytes, n)
            &&& nearest(t.read_iops, c.read_ops - p.read_ops, n)
            &&& nearest(t.write_iops, c.write_ops - p.write_ops, n)
        }),
{
    law_nearest_rate((c.read_bytes - p.read_bytes) as nat, (now - p.at) as nat);
    law_nearest_rate((c.write_bytes - p.write_bytes) as nat, (now - p.at) as nat);
    law_nearest_rate((c.read_ops - p.read_ops) as nat, (now - p.at) as nat);
    law_nearest_rate((c.write_ops - p.write_ops) as nat, (now - p.at) as nat);
}

/// A counter that went back shows no traffic; neither does a clock that did not
/// advance, nor the first reading.
pub proof fn law_no_disk_rates(p: DiskIoPrev, c: DiskCounters, now: u64)
    ensures
        ({
            let t = traffic(Some(p), c, now);
            &&& c.read_bytes <= p.read_bytes || now <= p.at ==> t.read_bytes_per_sec == 0
            &&& c.write_bytes <= p.write_bytes || now <= p.at ==> t.write_bytes_per_sec == 0
            &&& c.read_ops <= p.read_ops || now <= p.at ==> t.read_iops == 0
            &&& c.write_ops <= p.write_ops || now <= p.at ==> t.write_iops == 0
        }),
        traffic(None, c, now).read_bytes_per_sec == 0,
        traffic(None, c, now).write_bytes_per_sec == 0,
        traffic(None, c, now).read_iops == 0,
        traffic(None, c, now).write_iops == 0,
        reading(c, now).at == now,
        reading(c, now).read_bytes == c.read_bytes,
        reading(c, now).write_bytes == c.write_bytes,
        reading(c, now).read_ops == c.read_ops,
        reading(c, now).write_ops == c.write_ops,
{
    if now > p.at {
        crate::metrics::law_no_growth_no_rate((now - p.at) as nat);
    }
}

/// Counters can be told in bytes, of 512 to a sector, if and only if both fit a
/// `u64`; so can the space of a file system if what is used and what is free
/// fit together.
pub proof fn law_what_can_be_counted(t: DiskTotals, st: StatVfs)
    requires
        st.bfree <= st.blocks,
        st.bavail * st.frsize <= u64::MAX,
        (st.blocks - st.bfree) * st.frsize <= u64::MAX,
    ensures
        t.fits() <==> t.read_sectors * 512 <= u64::MAX && t.write_sectors * 512 <= u64::MAX,
        st.fits() <==> (st.blocks - st.bfree) * st.frsize + st.bavail * st.frsize <= u64::MAX,
{
}

/// The space that a file system reports, figure by figure: each is a number of
/// blocks times their size, or the largest number where that exceeds it; no
/// more blocks can be free than there are.
pub proof fn law_reported_space(st: StatVfs)
    ensures
        ({
            let u = stat_usage(st);
            &&& st.blocks * st.frsize <= u64::MAX ==> u.total == st.blocks * st.frsize
            &&& st.blocks * st.frsize > u64::MAX ==> u.total == u64::MAX
            &&& st.bavail * st.frsize <= u64::MAX ==> u.free == st.bavail * st.frsize
            &&& st.bavail * st.frsize > u64::MAX ==> u.free == u64::MAX
            &&& st.bfree >= st.blocks ==> u.used == 0
            &&& st.bfree < st.blocks && (st.blocks - st.bfree) * st.frsize <= u64::MAX ==> u.used
                == (st.blocks - st.bfree) * st.frsize
            &&& st.bfree < st.blocks && (st.blocks - st.bfree) * st.frsize > u64::MAX ==> u.used
                == u64::MAX
            &&& u.used + u.free <= u64::MAX ==> u.basis == u.used + u.free
        }),
{
    let none = sat_sub(st.blocks as nat, st.bfree as nat);
    if st.bfree >= st.blocks {
        assert(none * st.frsize as nat == 0) by (nonlinear_arith)
            requires
                none == 0,
        ;
    }
}

/// A row shows the device, the path, the type and the space of its own mount.
pub proof fn law_rows_show_their_mounts(rows: Seq<MountUsage>, mounts: Seq<Mount>, i: int)
    requires
        rows_of(rows, mounts),
        0 <= i < mounts.len(),
    ensures
        rows.len() == mounts.len(),
        rows[i].device@ == mounts[i].device@,
        rows[i].mountpoint@ == mounts[i].mountpoint@,
        rows[i].fstype@ == mounts[i].fstype@,
        rows[i].usage == mounts[i].usage(),
{
    assert(row_of(rows[i], mounts[i]));
}

} // verus!
