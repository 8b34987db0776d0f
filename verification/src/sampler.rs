//! The sampler: what each tick refreshes, what it publishes, and how it keeps
//! going.

use crate::binary64::Real;
use crate::metrics::disk::{collect_io, idle, reading, traffic, DiskCounters, DiskIoPrev};
use crate::metrics::net::{collect_throughput, distinct_names, drops_in, interface_names, lemma_stats_names, quiet, rates_map, reads, received_total, sent_total, statistics, stats_map, throughput, throughput_by_interface, Interface, NetIoPrev};
use crate::metrics::process::{metric_name, process_metric_label};
use crate::snapshot::{Cpu, Disk, DiskInfo, Mem, PlatformInfo, Process, Snapshot};
use crate::text::{text_of, texts};
use vstd::prelude::*;
use vstd::slice::slice_to_vec;
use vstd::utf8::encode_utf8;

verus! {

/// Processes are scanned every so many ticks.
pub const PROCESS_SCAN_EVERY: u64 = 5;

/// The mount table is read again every so many ticks.
pub const DISK_LIST_REFRESH_EVERY: u64 = 60;

/// The slow work that a tick has to do.
#[derive(Clone, Copy, PartialEq, Eq, Structural)]
pub struct RefreshPlan {
    pub scan_processes: bool,
    pub rescan_mounts: bool,
}

/// The slow work due at tick `tick`.
pub open spec fn plan_at(tick: u64) -> RefreshPlan {
    RefreshPlan {
        scan_processes: tick % PROCESS_SCAN_EVERY == 0,
        rescan_mounts: tick % DISK_LIST_REFRESH_EVERY == 0,
    }
}

/// The result of a process scan.
pub struct ProcessScan {
    pub processes: Vec<Process>,
    /// Whether they were ranked by proportional size.
    pub pss: bool,
}

/// What one tick read from the machine.
pub struct Readings {
    /// The processor; the state knows its number of cores.
    pub cpu: Cpu,
    pub mem: Mem,
    pub disk: Disk,
    pub disks: Vec<DiskInfo>,
    pub disk_counters: Option<DiskCounters>,
    pub interfaces: Vec<Interface>,
    /// The text of `/proc/net/dev`, where there is one.
    pub net_dev: Option<String>,
    pub platform: PlatformInfo,
    pub user: String,
    /// The process scan, on the ticks that do one.
    pub scan: Option<ProcessScan>,
    /// Monotonic time in nanoseconds.
    pub now: u64,
}

/// What the sampler carries from tick to tick.
pub struct SamplerState {
    pub cores: u32,
    pub disk_io_prev: Option<DiskIoPrev>,
    pub net_io_prev: Option<NetIoPrev>,
    pub tick: u64,
    pub cached_processes: Vec<Process>,
    /// Whether they were ranked by proportional size.
    pub cached_processes_pss: bool,
}

/// The process list after a tick: a new scan, else the one before.
pub open spec fn processes_after(s: SamplerState, r: Readings) -> Seq<Process> {
    match r.scan {
        Some(scan) => scan.processes@,
        None => s.cached_processes@,
    }
}

/// Whether the processes are ranked by proportional size after a tick.
pub open spec fn pss_after(s: SamplerState, r: Readings) -> bool {
    match r.scan {
        Some(scan) => scan.pss,
        None => s.cached_processes_pss,
    }
}

impl SamplerState {
    /// The state before the first tick, which does all the slow work at once.
    pub fn new(cores: u32) -> (r: SamplerState)
        ensures
            r.cores == cores,
            r.disk_io_prev is None,
            r.net_io_prev is None,
            r.tick == 0,
            plan_at(r.tick).scan_processes,
            plan_at(r.tick).rescan_mounts,
            r.cached_processes@.len() == 0,
            !r.cached_processes_pss,
    {
        SamplerState {
            cores,
            disk_io_prev: None,
            net_io_prev: None,
            tick: 0,
            cached_processes: Vec::new(),
            cached_processes_pss: false,
        }
    }

    /// The slow work due at this tick.
    pub fn plan(&self) -> (r: RefreshPlan)
        ensures
            r == plan_at(self.tick),
    {
        RefreshPlan {
            scan_processes: self.tick == 0 || self.tick % PROCESS_SCAN_EVERY == 0,
            rescan_mounts: self.tick == 0 || self.tick % DISK_LIST_REFRESH_EVERY == 0,
        }
    }

    /// Turns the readings of a tick into a snapshot.
    pub fn refresh(&mut self, r: Readings) -> (snap: Snapshot)
        requires
            r.scan is Some <==> plan_at(old(self).tick).scan_processes,
        ensures
            final(self).cores == old(self).cores,
            final(self).tick == tick_after(old(self).tick, 1),
            final(self).cached_processes@ == processes_after(*old(self), r),
            final(self).cached_processes_pss == pss_after(*old(self), r),
            final(self).disk_io_prev == match r.disk_counters {
                Some(c) => Some(reading(c, r.now)),
                None => old(self).disk_io_prev,
            },
            final(self).net_io_prev matches Some(p) && reads(p, r.interfaces@, r.now),
            snap.cpu == (Cpu {
                usage: r.cpu.usage,
                temp: r.cpu.temp,
                freq: r.cpu.freq,
                cores: old(self).cores,
                load: r.cpu.load,
            }),
            snap.mem == r.mem,
            snap.disk == r.disk,
            snap.disks == r.disks,
            snap.disk_io == match r.disk_counters {
                Some(c) => traffic(old(self).disk_io_prev, c, r.now),
                None => idle(),
            },
            snap.network == throughput(
                old(self).net_io_prev,
                received_total(r.interfaces@) as u64,
                sent_total(r.interfaces@) as u64,
                r.now,
            ),
            snap.network_by_interface.wf(),
            snap.network_by_interface@ == rates_map(
                old(self).net_io_prev,
                r.interfaces@,
                r.now,
            ),
            snap.user == r.user,
            snap.platform == r.platform,
            snap.uptime@ == r.platform.uptime@,
            snap.processes@ == processes_after(*old(self), r),
            snap.processes_metric@ == metric_name(pss_after(*old(self), r)),
            snap.processes_by_cpu@.len() == 0,
            texts(snap.interfaces@) == Seq::new(
                r.interfaces@.len(),
                |i: int| r.interfaces@[i].name@,
            ),
            distinct_names(r.interfaces@) ==> texts(snap.interfaces@).no_duplicates(),
            texts(snap.interfaces@).to_set() == snap.network_stats@.dom(),
            snap.network_stats.wf(),
            snap.network_stats@ == stats_map(r.interfaces@, drops_in(text_of(r.net_dev))),
    {
        match r.scan {
            Some(scan) => {
                self.cached_processes = scan.processes;
                self.cached_processes_pss = scan.pss;
            },
            None => {},
        }
        self.tick = self.tick.wrapping_add(1);
        let disk_io = collect_io(&mut self.disk_io_prev, r.disk_counters, r.now);
        let network_by_interface = throughput_by_interface(
            &r.interfaces,
            &self.net_io_prev,
            r.now,
        );
        let network = collect_throughput(&r.interfaces, &mut self.net_io_prev, r.now);
        let processes = self.cached_processes.clone();
        assert(processes@ =~= self.cached_processes@);
        let net_dev = match &r.net_dev {
            Some(raw) => Some(raw.as_str()),
            None => None,
        };
        let network_stats = statistics(&r.interfaces, net_dev);
        let interfaces = interface_names(&r.interfaces);
        proof {
            lemma_stats_names(r.interfaces@, drops_in(text_of(r.net_dev)));
            let names = texts(interfaces@);
            if distinct_names(r.interfaces@) {
                assert forall|i: int, j: int|
                    0 <= i < names.len() && 0 <= j < names.len() && i != j implies names[i]
                    != names[j] by {
                    if i < j {
                        assert(r.interfaces@[i].name@ != r.interfaces@[j].name@);
                    } else {
                        assert(r.interfaces@[j].name@ != r.interfaces@[i].name@);
                    }
                }
            }
        }
        Snapshot {
            cpu: Cpu {
                usage: r.cpu.usage,
                temp: r.cpu.temp,
                freq: r.cpu.freq,
                cores: self.cores,
                load: r.cpu.load,
            },
            mem: r.mem,
            disk: r.disk,
            disks: r.disks,
            disk_io,
            network,
            network_by_interface,
            user: r.user,
            uptime: r.platform.uptime.clone(),
            platform: r.platform,
            processes,
            processes_metric: process_metric_label(self.cached_processes_pss).to_owned(),
            processes_by_cpu: Vec::new(),
            interfaces,
            network_stats,
        }
    }
}

/// The first tick shows no traffic: rates need two readings.
pub proof fn law_first_tick_has_no_rates(r: Readings)
    ensures
        r.disk_counters matches Some(c) ==> traffic(None, c, r.now) == idle(),
        throughput(
            None,
            received_total(r.interfaces@) as u64,
            sent_total(r.interfaces@) as u64,
            r.now,
        ) == quiet(),
        forall|n: Seq<char>| #[trigger]
            rates_map(None, r.interfaces@, r.now).contains_key(n) ==> rates_map(
                None,
                r.interfaces@,
                r.now,
            )[n] == quiet(),
{
    assert forall|n: Seq<char>| #[trigger]
        rates_map(None, r.interfaces@, r.now).contains_key(n) implies rates_map(
        None,
        r.interfaces@,
        r.now,
    )[n] == quiet() by {
        lemma_quiet(r.interfaces@, r.now, n);
    }
}

proof fn lemma_quiet(all: Seq<Interface>, now: u64, n: Seq<char>)
    requires
        rates_map(None, all, now).contains_key(n),
    ensures
        rates_map(None, all, now)[n] == quiet(),
    decreases all.len(),
{
    if all.len() > 0 && rates_map(None, all.drop_last(), now).contains_key(n) {
        lemma_quiet(all.drop_last(), now, n);
    }
}

/// The tick `j` ticks after `tick`.
pub open spec fn tick_after(tick: u64, j: int) -> u64 {
    ((tick + j) % 0x1_0000_0000_0000_0000) as u64
}

/// Of five ticks in a row exactly one scans the processes, but where the count
/// of the ticks starts over.
pub proof fn law_one_scan_in_five(tick: u64) -> (k: int)
    requires
        tick + PROCESS_SCAN_EVERY - 1 <= u64::MAX,
    ensures
        0 <= k < PROCESS_SCAN_EVERY,
        forall|j: int|
            0 <= j < PROCESS_SCAN_EVERY ==> (#[trigger] plan_at(
                tick_after(tick, j),
            ).scan_processes <==> j == k),
{
    let k = if tick % 5 == 0 {
        0
    } else {
        5 - (tick % 5) as int
    };
    k
}

/// Of sixty ticks in a row exactly one reads the mount table again, but where
/// the count of the ticks starts over soon after one that does.
pub proof fn law_one_rescan_in_sixty(tick: u64) -> (k: int)
    requires
        tick + DISK_LIST_REFRESH_EVERY - 1 <= u64::MAX || tick > u64::MAX - 15,
    ensures
        0 <= k < DISK_LIST_REFRESH_EVERY,
        forall|j: int|
            0 <= j < DISK_LIST_REFRESH_EVERY ==> (#[trigger] plan_at(
                tick_after(tick, j),
            ).rescan_mounts <==> j == k),
{
    let k = if tick > u64::MAX - 15 {
        u64::MAX + 1 - tick
    } else if tick % 60 == 0 {
        0
    } else {
        60 - (tick % 60) as int
    };
    k
}

/// The published bytes, one buffer per kind of reader.
pub struct CachedJson {
    pub http_system: Vec<u8>,
    pub ws_system: Vec<u8>,
    pub network: Vec<u8>,
}

/// The bytes to show next: what was serialized, else what was shown before.
pub open spec fn next_bytes(shown: Vec<u8>, serialized: Option<Vec<u8>>) -> Seq<u8> {
    match serialized {
        Some(bytes) => bytes@,
        None => shown@,
    }
}

fn replace_bytes(shown: &Vec<u8>, serialized: Option<Vec<u8>>) -> (r: Vec<u8>)
    ensures
        r@ == next_bytes(*shown, serialized),
{
    match serialized {
        Some(bytes) => bytes,
        None => {
            let kept = shown.clone();
            assert(kept@ =~= shown@);
            kept
        },
    }
}

impl CachedJson {
    /// What is shown before the first snapshot: empty objects.
    pub fn new() -> (r: CachedJson)
        ensures
            r.http_system@ == encode_utf8("{}"@),
            r.ws_system@ == encode_utf8("{}"@),
            r.network@ == encode_utf8("{\"interfaces\":[],\"statistics\":{}}"@),
    {
        CachedJson {
            http_system: slice_to_vec("{}".as_bytes()),
            ws_system: slice_to_vec("{}".as_bytes()),
            network: slice_to_vec("{\"interfaces\":[],\"statistics\":{}}".as_bytes()),
        }
    }

    /// What is shown after a snapshot was serialized for each kind of reader.
    /// A buffer that could not be serialized stays as it was.
    pub fn publish(
        &self,
        http_system: Option<Vec<u8>>,
        ws_system: Option<Vec<u8>>,
        network: Option<Vec<u8>>,
    ) -> (r: CachedJson)
        ensures
            r.http_system@ == next_bytes(self.http_system, http_system),
            r.ws_system@ == next_bytes(self.ws_system, ws_system),
            r.network@ == next_bytes(self.network, network),
    {
        CachedJson {
            http_system: replace_bytes(&self.http_system, http_system),
            ws_system: replace_bytes(&self.ws_system, ws_system),
            network: replace_bytes(&self.network, network),
        }
    }
}

/// What readers see: the latest snapshot, and its bytes for each kind of
/// reader.
pub struct Published {
    pub snapshot: Snapshot,
    pub json: CachedJson,
}

impl Published {
    /// What readers see before the first tick: a blank snapshot.
    pub fn new() -> (r: Published)
        ensures
            r.snapshot.blank(),
            r.json.http_system@ == encode_utf8("{}"@),
            r.json.ws_system@ == encode_utf8("{}"@),
            r.json.network@ == encode_utf8("{\"interfaces\":[],\"statistics\":{}}"@),
    {
        Published { snapshot: Snapshot::default(), json: CachedJson::new() }
    }

    /// What readers see after `snap` was taken and serialized for each kind of
    /// reader.
    pub fn show(
        &self,
        snap: Snapshot,
        http_system: Option<Vec<u8>>,
        ws_system: Option<Vec<u8>>,
        network: Option<Vec<u8>>,
    ) -> (r: Published)
        ensures
            r.snapshot == snap,
            r.json.http_system@ == next_bytes(self.json.http_system, http_system),
            r.json.ws_system@ == next_bytes(self.json.ws_system, ws_system),
            r.json.network@ == next_bytes(self.json.network, network),
    {
        Published { snapshot: snap, json: self.json.publish(http_system, ws_system, network) }
    }
}

/// What the sampler is doing.
#[derive(Clone, Copy, PartialEq, Eq, Structural)]
pub enum SamplerPhase {
    Stopped,
    /// Taking the first snapshot.
    Seeding,
    /// Waiting for the next tick.
    Waiting,
    /// Refreshing away from the main thread.
    Refreshing,
}

/// What happens to the sampler.
#[derive(Clone, Copy, PartialEq, Eq, Structural)]
pub enum SamplerEvent {
    StartRequested,
    StopRequested,
    IntervalElapsed,
    RefreshDone,
    RefreshFailed,
}

/// What the sampler has to do next.
#[derive(Clone, Copy, PartialEq, Eq, Structural)]
pub enum SamplerAction {
    /// Build a state and take the first snapshot.
    Seed,
    /// Leave the loop.
    Exit,
    /// Refresh the state.
    Refresh,
    /// Publish the new snapshot, then wait.
    Publish,
    /// Build a fresh state, leave the published snapshot in place, then wait.
    Rebuild,
    /// Nothing.
    Ignore,
}

/// The step of the sampler from `phase` at `event`.
pub open spec fn sampler_step(phase: SamplerPhase, event: SamplerEvent) -> (
    SamplerPhase,
    SamplerAction,
) {
    match (phase, event) {
        (SamplerPhase::Stopped, SamplerEvent::StartRequested) => (
            SamplerPhase::Seeding,
            SamplerAction::Seed,
        ),
        (SamplerPhase::Seeding, SamplerEvent::RefreshDone) => (
            SamplerPhase::Waiting,
            SamplerAction::Publish,
        ),
        (SamplerPhase::Waiting, SamplerEvent::StopRequested) => (
            SamplerPhase::Stopped,
            SamplerAction::Exit,
        ),
        (SamplerPhase::Waiting, SamplerEvent::IntervalElapsed) => (
            SamplerPhase::Refreshing,
            SamplerAction::Refresh,
        ),
        (SamplerPhase::Refreshing, SamplerEvent::RefreshDone) => (
            SamplerPhase::Waiting,
            SamplerAction::Publish,
        ),
        (SamplerPhase::Refreshing, SamplerEvent::RefreshFailed) => (
            SamplerPhase::Waiting,
            SamplerAction::Rebuild,
        ),
        _ => (phase, SamplerAction::Ignore),
    }
}

/// The sampler never dies: unless it is told to stop, it keeps running,
/// whatever happens; a failed refresh leads to a fresh state, and nothing is
/// published.
pub proof fn law_sampler_never_dies(phase: SamplerPhase, event: SamplerEvent)
    requires
        phase != SamplerPhase::Stopped,
        event != SamplerEvent::StopRequested,
    ensures
        sampler_step(phase, event).0 != SamplerPhase::Stopped,
        sampler_step(phase, event).1 != SamplerAction::Exit,
        phase == SamplerPhase::Refreshing && event == SamplerEvent::RefreshFailed ==> sampler_step(
            phase,
            event,
        ) == (SamplerPhase::Waiting, SamplerAction::Rebuild),
{
}

/// Where the sampler stands after `events`, starting out stopped, and whether
/// it has published a snapshot since it was last started.
pub open spec fn sampler_run(events: Seq<SamplerEvent>) -> (SamplerPhase, bool)
    decreases events.len(),
{
    if events.len() == 0 {
        (SamplerPhase::Stopped, false)
    } else {
        let before = sampler_run(events.drop_last());
        let (phase, action) = sampler_step(before.0, events.last());
        (
            phase,
            if action == SamplerAction::Seed {
                false
            } else {
                before.1 || action == SamplerAction::Publish
            },
        )
    }
}

/// Whenever the sampler waits for a tick or works on one, it has published a
/// snapshot since it was started: the first reader never sees an empty one.
pub proof fn law_first_snapshot_before_first_tick(events: Seq<SamplerEvent>)
    ensures
        sampler_run(events).0 == SamplerPhase::Waiting || sampler_run(events).0
            == SamplerPhase::Refreshing ==> sampler_run(events).1,
    decreases events.len(),
{
    if events.len() > 0 {
        law_first_snapshot_before_first_tick(events.drop_last());
    }
}

/// Starting a sampler that runs changes nothing.
pub proof fn law_second_start_changes_nothing(phase: SamplerPhase)
    requires
        phase != SamplerPhase::Stopped,
    ensures
        sampler_step(phase, SamplerEvent::StartRequested) == (phase, SamplerAction::Ignore),
{
}

/// A tenth of a second, the shortest interval.
pub const SHORTEST_INTERVAL: u64 = 0x3fb9_9999_9999_999a;

/// The sampler's interval and phase.
pub struct Sampler {
    /// Seconds between ticks.
    interval: Real,
    phase: SamplerPhase,
}

impl Sampler {
    pub closed spec fn secs(&self) -> Real {
        self.interval
    }

    pub closed spec fn phase(&self) -> SamplerPhase {
        self.phase
    }

    /// A stopped sampler that is to tick every `interval_secs` seconds, but at
    /// least a tenth of a second apart.
    pub fn new(interval_secs: Real) -> (r: Sampler)
        ensures
            r.phase() == SamplerPhase::Stopped,
            r.secs() == interval_secs.raised(Real { bits: SHORTEST_INTERVAL }),
    {
        Sampler {
            interval: interval_secs.at_least(Real::from_bits(SHORTEST_INTERVAL)),
            phase: SamplerPhase::Stopped,
        }
    }

    /// Seconds between ticks.
    pub fn interval(&self) -> (r: Real)
        ensures
            r == self.secs(),
    {
        self.interval
    }

    /// Starts the sampler. Says whether a first snapshot has to be taken and
    /// handed to `seeded`; a sampler that runs goes on.
    pub fn start(&mut self) -> (r: bool)
        ensures
            r == (old(self).phase() == SamplerPhase::Stopped),
            final(self).secs() == old(self).secs(),
            final(self).phase() == sampler_step(
                old(self).phase(),
                SamplerEvent::StartRequested,
            ).0,
    {
        let (phase, action) = next_step(self.phase, SamplerEvent::StartRequested);
        self.phase = phase;
        match action {
            SamplerAction::Seed => true,
            _ => false,
        }
    }

    /// Publishes the first snapshot. From here on the loop is to be run.
    pub fn seeded(
        &mut self,
        shown: &Published,
        snap: Snapshot,
        http_system: Option<Vec<u8>>,
        ws_system: Option<Vec<u8>>,
        network: Option<Vec<u8>>,
    ) -> (r: Published)
        requires
            old(self).phase() == SamplerPhase::Seeding,
        ensures
            final(self).secs() == old(self).secs(),
            final(self).phase() == SamplerPhase::Waiting,
            r.snapshot == snap,
            r.json.http_system@ == next_bytes(shown.json.http_system, http_system),
            r.json.ws_system@ == next_bytes(shown.json.ws_system, ws_system),
            r.json.network@ == next_bytes(shown.json.network, network),
    {
        let (phase, _publish) = next_step(self.phase, SamplerEvent::RefreshDone);
        self.phase = phase;
        shown.show(snap, http_system, ws_system, network)
    }

    /// Stops the sampler. Says whether it was running and its loop has to be
    /// ended.
    pub fn stop(&mut self) -> (r: bool)
        ensures
            r == (old(self).phase() != SamplerPhase::Stopped),
            final(self).secs() == old(self).secs(),
            final(self).phase() == SamplerPhase::Stopped,
    {
        let running = match self.phase {
            SamplerPhase::Stopped => false,
            _ => true,
        };
        self.phase = SamplerPhase::Stopped;
        running
    }
}

/// The next phase and action of the loop.
pub fn next_step(phase: SamplerPhase, event: SamplerEvent) -> (r: (SamplerPhase, SamplerAction))
    ensures
        r == sampler_step(phase, event),
{
    match (phase, event) {
        (SamplerPhase::Stopped, SamplerEvent::StartRequested) => (
            SamplerPhase::Seeding,
            SamplerAction::Seed,
        ),
        (SamplerPhase::Seeding, SamplerEvent::RefreshDone) => (
            SamplerPhase::Waiting,
            SamplerAction::Publish,
        ),
        (SamplerPhase::Waiting, SamplerEvent::StopRequested) => (
            SamplerPhase::Stopped,
            SamplerAction::Exit,
        ),
        (SamplerPhase::Waiting, SamplerEvent::IntervalElapsed) => (
            SamplerPhase::Refreshing,
            SamplerAction::Refresh,
        ),
        (SamplerPhase::Refreshing, SamplerEvent::RefreshDone) => (
            SamplerPhase::Waiting,
            SamplerAction::Publish,
        ),
        (SamplerPhase::Refreshing, SamplerEvent::RefreshFailed) => (
            SamplerPhase::Waiting,
            SamplerAction::Rebuild,
        ),
        _ => (phase, SamplerAction::Ignore),
    }
}

/// Processes are scanned at the ticks that are multiples of five, and the mount
/// table is read again at the multiples of sixty.
pub proof fn law_fifth_and_sixtieth_ticks(k: nat, j: nat)
    requires
        60 * k + j <= u64::MAX,
        j < 60,
    ensures
        plan_at((60 * k + j) as u64).rescan_mounts <==> j == 0,
        plan_at((60 * k + j) as u64).scan_processes <==> j == 0 || j == 5 || j == 10 || j == 15
            || j == 20 || j == 25 || j == 30 || j == 35 || j == 40 || j == 45 || j == 50 || j
            == 55,
{
}

/// The ticks are counted one by one, from the largest number on to zero.
pub proof fn law_ticks_are_counted(tick: u64)
    ensures
        tick < u64::MAX ==> tick_after(tick, 1) == tick + 1,
        tick == u64::MAX ==> tick_after(tick, 1) == 0,
{
}

/// A tick that scans shows the processes of the scan and how they were ranked;
/// any other shows what the last scan found.
pub proof fn law_processes_between_scans(s: SamplerState, r: Readings)
    ensures
        r.scan matches Some(scan) ==> processes_after(s, r) == scan.processes@ && pss_after(s, r)
            == scan.pss,
        r.scan is None ==> processes_after(s, r) == s.cached_processes@ && pss_after(s, r)
            == s.cached_processes_pss,
{
}

/// Readers get what was serialized; where that failed, they keep what they had.
pub proof fn law_readers_keep_the_last_good(shown: Vec<u8>, serialized: Option<Vec<u8>>)
    ensures
        serialized matches Some(bytes) ==> next_bytes(shown, serialized) == bytes@,
        serialized is None ==> next_bytes(shown, serialized) == shown@,
{
}

/// The course of the sampler: a start leads to the first snapshot, which is
/// published; then it waits, refreshes when the interval is over, and publishes
/// what came of it. A stop ends it while it waits. Nothing else moves it.
pub proof fn law_course_of_the_sampler(phase: SamplerPhase, event: SamplerEvent)
    ensures
        sampler_step(SamplerPhase::Stopped, SamplerEvent::StartRequested) == (
            SamplerPhase::Seeding,
            SamplerAction::Seed,
        ),
        sampler_step(SamplerPhase::Seeding, SamplerEvent::RefreshDone) == (
            SamplerPhase::Waiting,
            SamplerAction::Publish,
        ),
        sampler_step(SamplerPhase::Waiting, SamplerEvent::IntervalElapsed) == (
            SamplerPhase::Refreshing,
            SamplerAction::Refresh,
        ),
        sampler_step(SamplerPhase::Refreshing, SamplerEvent::RefreshDone) == (
            SamplerPhase::Waiting,
            SamplerAction::Publish,
        ),
        sampler_step(SamplerPhase::Refreshing, SamplerEvent::RefreshFailed) == (
            SamplerPhase::Waiting,
            SamplerAction::Rebuild,
        ),
        sampler_step(SamplerPhase::Waiting, SamplerEvent::StopRequested) == (
            SamplerPhase::Stopped,
            SamplerAction::Exit,
        ),
        sampler_step(phase, event).1 == SamplerAction::Publish ==> event
            == SamplerEvent::RefreshDone,
        sampler_step(phase, event).0 != phase ==> sampler_step(phase, event).1
            != SamplerAction::Ignore,
        phase == SamplerPhase::Stopped && event != SamplerEvent::StartRequested ==> sampler_step(
            phase,
            event,
        ) == (phase, SamplerAction::Ignore),
        phase == SamplerPhase::Seeding && event != SamplerEvent::RefreshDone ==> sampler_step(
            phase,
            event,
        ) == (phase, SamplerAction::Ignore),
        phase == SamplerPhase::Waiting && event != SamplerEvent::StopRequested && event
            != SamplerEvent::IntervalElapsed ==> sampler_step(phase, event) == (
            phase,
            SamplerAction::Ignore,
        ),
        phase == SamplerPhase::Refreshing && event != SamplerEvent::RefreshDone && event
            != SamplerEvent::RefreshFailed ==> sampler_step(phase, event) == (
            phase,
            SamplerAction::Ignore,
        ),
{
}

/// The shortest interval is a tenth of a second, as near as a binary64 number
/// comes to it.
pub proof fn law_shortest_interval()
    ensures
        SHORTEST_INTERVAL == 0x3fb9_9999_9999_999a,
{
}

} // verus!
