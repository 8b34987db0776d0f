//! The connection to a hub: how it introduces itself, what it pushes, when it
//! gives up and when it tries again.

use crate::binary64::Real;
use crate::hub::flatten::{flatten, law_metrics_are_never_empty, metrics_of, MetricValue, PROCESSES_MAX};
use crate::hub::protocol::{Hello, HostInfo, HubFrame, ProcessItem, Processes, Samples, AGENT_VERSION, PROTOCOL_VERSION};
use crate::metrics::platform::unquoted;
use crate::names::NameMap;
use crate::sampler::SHORTEST_INTERVAL;
use crate::snapshot::{Process, Snapshot};
use crate::text::{find_first, first_after, lines, lines_of, slice_text, strip, text_of, Class};
use vstd::prelude::*;
use vstd::utf8::{decode_utf8_split, encode_scalar, encode_utf8, encode_utf8_decode_utf8, encode_utf8_first_scalar, encode_utf8_valid_utf8, is_char_boundary, is_char_boundary_start_end_of_seq, pop_first_scalar};

verus! {

/// Whether `part` is the longest prefix of `whole` that takes at most `max`
/// bytes.
pub open spec fn longest_fit(part: Seq<char>, whole: Seq<char>, max: nat) -> bool {
    &&& part.len() <= whole.len()
    &&& part == whole.take(part.len() as int)
    &&& encode_utf8(part).len() <= max
    &&& part.len() < whole.len() ==> encode_utf8(whole.take(part.len() as int + 1)).len() > max
}

proof fn lemma_encode_push(s: Seq<char>, c: char)
    ensures
        encode_utf8(s.push(c)) == encode_utf8(s) + encode_scalar(c as u32),
    decreases s.len(),
{
    let t = s.push(c);
    if s.len() == 0 {
        assert(t.drop_first() =~= s);
        assert(encode_utf8(t) =~= encode_scalar(c as u32) + encode_utf8(s));
        assert(encode_utf8(s) =~= Seq::<u8>::empty());
        assert(encode_utf8(t) =~= encode_utf8(s) + encode_scalar(c as u32));
    } else {
        assert(t.drop_first() =~= s.drop_first().push(c));
        lemma_encode_push(s.drop_first(), c);
        assert(encode_utf8(t) =~= encode_utf8(s) + encode_scalar(c as u32));
    }
}

/// The end of every prefix is a character boundary.
proof fn lemma_prefix_boundary(s: Seq<char>, k: int)
    requires
        0 <= k <= s.len(),
    ensures
        encode_utf8(s.take(k)).len() <= encode_utf8(s).len(),
        is_char_boundary(encode_utf8(s), encode_utf8(s.take(k)).len() as int),
    decreases s.len(),
{
    let bytes = encode_utf8(s);
    encode_utf8_valid_utf8(s);
    if k == 0 {
        assert(encode_utf8(s.take(0)).len() == 0);
    } else {
        encode_utf8_first_scalar(s);
        let rest = s.drop_first();
        assert(pop_first_scalar(bytes) =~= encode_utf8(rest));
        assert(s.take(k).drop_first() =~= rest.take(k - 1));
        lemma_prefix_boundary(rest, k - 1);
        encode_utf8_valid_utf8(rest);
    }
}

/// Cuts `s` down to at most `max` bytes, without breaking a character.
pub fn clip<'a>(s: &'a str, max: usize) -> (r: &'a str)
    ensures
        longest_fit(r@, s@, max as nat),
{
    let len: usize = s.as_bytes().len();
    if len <= max {
        assert(s@.take(s@.len() as int) =~= s@);
        return s;
    }
    let ghost bytes = encode_utf8(s@);
    proof {
        encode_utf8_valid_utf8(s@);
        is_char_boundary_start_end_of_seq(bytes);
    }
    let mut end: usize = max;
    while !s.is_char_boundary(end) && end > 0
        invariant
            end <= max,
            max < bytes.len(),
            bytes == encode_utf8(s@),
            forall|j: int| end < j <= max ==> !#[trigger] is_char_boundary(bytes, j),
        decreases end,
    {
        end -= 1;
    }
    assert(is_char_boundary(bytes, end as int));
    let (head, tail) = s.split_at(end);
    proof {
        decode_utf8_split(bytes, end as int);
        encode_utf8_decode_utf8(s@);
        encode_utf8_decode_utf8(head@);
        encode_utf8_decode_utf8(tail@);
        assert(s@ =~= head@ + tail@);
        let k = head@.len() as int;
        assert(head@ =~= s@.take(k));
        if k < s@.len() {
            assert(s@.take(k + 1) =~= s@.take(k).push(s@[k]));
            lemma_encode_push(s@.take(k), s@[k]);
            lemma_prefix_boundary(s@, k + 1);
        }
    }
    head
}

/// There is only one longest prefix that fits.
pub proof fn law_longest_fit_is_unique(a: Seq<char>, b: Seq<char>, whole: Seq<char>, max: nat)
    requires
        longest_fit(a, whole, max),
        longest_fit(b, whole, max),
    ensures
        a == b,
{
    lemma_no_longer_fit(a, b, whole, max);
    lemma_no_longer_fit(b, a, whole, max);
}

proof fn lemma_no_longer_fit(a: Seq<char>, b: Seq<char>, whole: Seq<char>, max: nat)
    requires
        longest_fit(a, whole, max),
        longest_fit(b, whole, max),
    ensures
        b.len() <= a.len(),
{
    if a.len() < b.len() {
        let k = a.len() as int + 1;
        assert(b.take(k) =~= whole.take(k));
        lemma_prefix_boundary(b, k);
    }
}

/// The first pause before a new attempt, in nanoseconds.
pub const BACKOFF_INITIAL: u64 = 1_000_000_000;

/// The longest pause before a new attempt, in nanoseconds.
pub const BACKOFF_MAX: u64 = 30_000_000_000;

/// How long process and user names may be, in bytes.
pub const NAME_MAX: usize = 256;

/// The next pause: 1.7 times as long, up to the longest.
pub open spec fn grown(backoff: nat) -> nat {
    if backoff * 17 / 10 < BACKOFF_MAX {
        backoff * 17 / 10
    } else {
        BACKOFF_MAX as nat
    }
}

/// What the system calls itself, or `unknown`.
pub open spec fn hostname_text(system: Option<Seq<char>>) -> Seq<char> {
    match system {
        Some(name) => name,
        None => "unknown"@,
    }
}

/// The name to advertise: the configured one unless it is empty, else the
/// system's.
pub open spec fn advertised(configured: Option<Seq<char>>, system: Option<Seq<char>>) -> Seq<char> {
    match configured {
        Some(name) => if name.len() > 0 {
            name
        } else {
            hostname_text(system)
        },
        None => hostname_text(system),
    }
}

/// The host name, from what the system calls itself, where that is readable.
pub fn hostname_from(system: Option<String>) -> (r: String)
    ensures
        r@ == hostname_text(text_of(system)),
{
    match system {
        Some(name) => name,
        None => "unknown".to_owned(),
    }
}

/// The name to advertise.
pub fn advertised_name(configured: Option<String>, system: Option<String>) -> (r: String)
    ensures
        r@ == advertised(text_of(configured), text_of(system)),
{
    match configured {
        Some(name) => if name.as_str().is_empty() {
            hostname_from(system)
        } else {
            name
        },
        None => hostname_from(system),
    }
}

/// Calls `gethostname::gethostname`, the name that the system gives this
/// machine; `None` where it is not Unicode. The name is a matter of the machine
/// and of the moment, so nothing is promised of it. On Windows it panics where
/// the name cannot be read, or changes its length while it is read.
#[verifier::external_body]
fn system_hostname() -> (r: Option<String>) {
    gethostname::gethostname().into_string().ok()
}

/// The host name of this machine. Which name it is, is up to the system.
pub fn hostname() -> (r: String)
    ensures
        exists|system: Option<Seq<char>>| r@ == #[trigger] hostname_text(system),
{
    let system = system_hostname();
    let ghost given = text_of(system);
    let name = hostname_from(system);
    assert(name@ == hostname_text(given));
    name
}

/// A hub to push to.
pub struct HubClient {
    url: String,
    key: String,
    host_name: String,
    tags: Vec<String>,
    sampler_interval: Real,
    running: bool,
}

impl HubClient {
    pub closed spec fn url_text(&self) -> Seq<char> {
        self.url@
    }

    pub closed spec fn key_text(&self) -> Seq<char> {
        self.key@
    }

    pub closed spec fn name_text(&self) -> Seq<char> {
        self.host_name@
    }

    pub closed spec fn tag_list(&self) -> Seq<String> {
        self.tags@
    }

    /// Seconds between two snapshots.
    pub closed spec fn secs(&self) -> Real {
        self.sampler_interval
    }

    pub closed spec fn is_running(&self) -> bool {
        self.running
    }

    /// Whether all but the running state is the same.
    pub open spec fn same_hub(&self, other: &HubClient) -> bool {
        &&& self.url_text() == other.url_text()
        &&& self.key_text() == other.key_text()
        &&& self.name_text() == other.name_text()
        &&& self.tag_list() == other.tag_list()
        &&& self.secs() == other.secs()
    }

    /// A client that does not run yet and advertises `host_name`, or the name of
    /// this machine where that is missing or empty.
    pub fn new(
        url: String,
        key: String,
        host_name: Option<String>,
        tags: Vec<String>,
        sampler_interval: Real,
    ) -> (r: HubClient)
        ensures
            r.url_text() == url@,
            r.key_text() == key@,
            r.tag_list() == tags@,
            r.secs() == sampler_interval,
            !r.is_running(),
            exists|system: Option<Seq<char>>|
                r.name_text() == #[trigger] advertised(text_of(host_name), system),
            host_name matches Some(name) ==> name@.len() > 0 ==> r.name_text() == name@,
    {
        let system = match &host_name {
            Some(name) if !name.as_str().is_empty() => None,
            _ => system_hostname(),
        };
        let ghost given = text_of(system);
        let name = advertised_name(host_name, system);
        assert(name@ == advertised(text_of(host_name), given));
        HubClient { url, key, host_name: name, tags, sampler_interval, running: false }
    }

    pub fn url(&self) -> (r: &str)
        ensures
            r@ == self.url_text(),
    {
        self.url.as_str()
    }

    pub fn key(&self) -> (r: &str)
        ensures
            r@ == self.key_text(),
    {
        self.key.as_str()
    }

    pub fn host_name(&self) -> (r: &str)
        ensures
            r@ == self.name_text(),
    {
        self.host_name.as_str()
    }

    pub fn tags(&self) -> (r: &Vec<String>)
        ensures
            r@ == self.tag_list(),
    {
        &self.tags
    }

    /// Starts the client. Says whether its loop has to be run, and gives the
    /// link to run it with; a client that runs goes on.
    pub fn start(&mut self) -> (r: Option<HubLink>)
        ensures
            final(self).same_hub(old(self)),
            final(self).is_running(),
            r == if old(self).is_running() {
                None
            } else {
                Some(HubLink::fresh(old(self).secs()))
            },
    {
        if self.running {
            return None;
        }
        self.running = true;
        Some(HubLink::new(self.sampler_interval))
    }

    /// Stops the client. Says whether it was running and its loop has to be
    /// ended.
    pub fn stop(&mut self) -> (r: bool)
        ensures
            final(self).same_hub(old(self)),
            !final(self).is_running(),
            r == old(self).is_running(),
    {
        let was = self.running;
        self.running = false;
        was
    }
}

/// The greeting to the hub.
pub fn hello<'a>(
    key: &'a str,
    name: &'a str,
    hostname: &'a str,
    os: &'a str,
    arch: &'a str,
    cpu_cores: Option<u32>,
    tags: &'a [String],
) -> (r: Hello<'a>)
    ensures
        r.v == PROTOCOL_VERSION,
        r.t@ == "hello"@,
        r.key@ == key@,
        r.host.name@ == name@,
        r.host.hostname@ == hostname@,
        r.host.os@ == os@,
        r.host.arch@ == arch@,
        r.host.agent_version@ == AGENT_VERSION@,
        r.host.cpu_cores == cpu_cores,
        r.host.tags@ == tags@,
{
    Hello {
        v: PROTOCOL_VERSION,
        t: "hello",
        key,
        host: HostInfo { name, hostname, os, arch, agent_version: AGENT_VERSION, cpu_cores, tags },
    }
}

/// The name of the operating system that `os-release` gives: its first pretty
/// name, else its first plain name, else `linux`.
pub open spec fn os_name(os_release: Option<Seq<char>>) -> Seq<char> {
    match os_release {
        Some(raw) => match unquoted(first_after(lines_of(raw), "PRETTY_NAME="@)) {
            Some(v) => v,
            None => match unquoted(first_after(lines_of(raw), "NAME="@)) {
                Some(v) => v,
                None => "linux"@,
            },
        },
        None => "linux"@,
    }
}

/// The name of the operating system, from the text of `os-release`.
pub fn detect_os(os_release: Option<&str>) -> (r: String)
    ensures
        r@ == os_name(slice_text(os_release)),
{
    match os_release {
        Some(raw) => {
            let rows = lines(raw);
            match find_first(&rows, "PRETTY_NAME=") {
                Some(v) => {
                    return strip(v.as_str(), Class::One('"'));
                },
                None => {},
            }
            match find_first(&rows, "NAME=") {
                Some(v) => {
                    return strip(v.as_str(), Class::One('"'));
                },
                None => {},
            }
        },
        None => {},
    }
    "linux".to_owned()
}

/// The frame of metrics, unless there are none.
pub fn samples_frame<'a>(metrics: &'a NameMap<MetricValue>, ts: i64) -> (r: Option<Samples<'a>>)
    ensures
        r is Some <==> metrics@ != Map::<Seq<char>, MetricValue>::empty(),
        r matches Some(f) ==> {
            &&& f.v == PROTOCOL_VERSION
            &&& f.t@ == "samples"@
            &&& f.ts == ts
            &&& f.metrics == metrics
        },
{
    if metrics.is_empty() {
        None
    } else {
        Some(Samples { v: PROTOCOL_VERSION, t: "samples", ts, metrics })
    }
}

/// Whether a row of the process frame is that of `p`, with names cut to length
/// and the size in bytes.
pub open spec fn item_of(item: ProcessItem<'_>, p: Process) -> bool {
    &&& item.pid == p.pid
    &&& longest_fit(item.name@, p.name@, NAME_MAX as nat)
    &&& longest_fit(item.username@, p.username@, NAME_MAX as nat)
    &&& item.mem_bytes == p.mem.whole_scaled(20)
}

/// Whether `f` is the frame of metrics of `snap` at time `ts`.
pub open spec fn samples_of(f: Samples<'_>, snap: Snapshot, ts: i64) -> bool {
    &&& f.v == PROTOCOL_VERSION
    &&& f.t@ == "samples"@
    &&& f.ts == ts
    &&& f.metrics@ == metrics_of(snap)
}

/// Whether `f` is the frame of the first processes of `snap` at time `ts`.
pub open spec fn processes_of(f: Processes<'_>, snap: Snapshot, ts: i64) -> bool {
    &&& f.v == PROTOCOL_VERSION
    &&& f.t@ == "processes"@
    &&& f.ts == ts
    &&& f.metric@ == snap.processes_metric@
    &&& f.items@.len() == if snap.processes@.len() < PROCESSES_MAX {
        snap.processes@.len()
    } else {
        PROCESSES_MAX as nat
    }
    &&& forall|i: int|
        0 <= i < f.items@.len() ==> item_of(#[trigger] f.items@[i], snap.processes@[i])
}

/// The frame of the first processes, unless there are none.
pub fn processes_frame<'a>(snap: &'a Snapshot, ts: i64) -> (r: Option<Processes<'a>>)
    ensures
        r is Some <==> snap.processes@.len() > 0,
        r matches Some(f) ==> processes_of(f, *snap, ts),
{
    if snap.processes.len() == 0 {
        return None;
    }
    let mut items: Vec<ProcessItem<'a>> = Vec::new();
    let mut i: usize = 0;
    while i < snap.processes.len() && i < PROCESSES_MAX
        invariant
            i <= snap.processes.len(),
            i <= PROCESSES_MAX,
            items@.len() == i,
            forall|j: int| 0 <= j < i ==> item_of(#[trigger] items@[j], snap.processes@[j]),
        decreases snap.processes.len() - i,
    {
        let p = &snap.processes[i];
        let ghost was = items@;
        items.push(
            ProcessItem {
                pid: p.pid,
                name: clip(p.name.as_str(), NAME_MAX),
                username: clip(p.username.as_str(), NAME_MAX),
                mem_bytes: p.mem.scaled_whole(20),
            },
        );
        assert forall|j: int| 0 <= j < i + 1 implies item_of(
            #[trigger] items@[j],
            snap.processes@[j],
        ) by {
            if j < i {
                assert(items@[j] == was[j]);
            }
        }
        i += 1;
    }
    Some(
        Processes {
            v: PROTOCOL_VERSION,
            t: "processes",
            ts,
            metric: snap.processes_metric.as_str(),
            items,
        },
    )
}

/// A frame to the hub.
pub enum PushFrame<'a> {
    Samples(Samples<'a>),
    Processes(Processes<'a>),
}

/// One push: a snapshot, its metrics, and the time in seconds since 1970.
pub struct Round<'a> {
    snapshot: &'a Snapshot,
    metrics: NameMap<MetricValue>,
    ts: i64,
}

impl<'a> Round<'a> {
    pub closed spec fn snap(&self) -> Snapshot {
        *self.snapshot
    }

    pub closed spec fn time(&self) -> i64 {
        self.ts
    }

    /// The metrics are those of the snapshot.
    pub closed spec fn wf(&self) -> bool {
        self.metrics@ == metrics_of(*self.snapshot)
    }

    /// Gets ready to push `snapshot` at time `ts`.
    pub fn new(snapshot: &'a Snapshot, ts: i64) -> (r: Round<'a>)
        ensures
            r.wf(),
            r.snap() == *snapshot,
            r.time() == ts,
    {
        Round { snapshot, metrics: flatten(snapshot), ts }
    }

    /// The frames to send, in order: the metrics, then the processes where there
    /// are any. All are of the same snapshot and the same time.
    pub fn frames(&'a self) -> (r: Vec<PushFrame<'a>>)
        requires
            self.wf(),
        ensures
            r@.len() == if self.snap().processes@.len() > 0 {
                2nat
            } else {
                1nat
            },
            r@[0] matches PushFrame::Samples(f) && samples_of(f, self.snap(), self.time()),
            r@.len() == 2 ==> (r@[1] matches PushFrame::Processes(f) && processes_of(
                f,
                self.snap(),
                self.time(),
            )),
    {
        let mut out: Vec<PushFrame<'a>> = Vec::new();
        proof {
            law_metrics_are_never_empty(*self.snapshot);
        }
        match samples_frame(&self.metrics, self.ts) {
            Some(f) => {
                out.push(PushFrame::Samples(f));
            },
            None => {},
        }
        match processes_frame(self.snapshot, self.ts) {
            Some(f) => {
                out.push(PushFrame::Processes(f));
            },
            None => {},
        }
        out
    }
}

/// Why a connection ended badly.
pub enum HubError {
    /// The hub refused the greeting.
    Refused { code: Option<String>, message: Option<String> },
    /// The first frame was neither a welcome nor a refusal.
    UnexpectedFrame,
    /// The first frame was not text.
    NonTextFrame,
    /// The hub hung up before its first frame.
    ClosedEarly,
    /// A frame could not be sent, received, read or written.
    Broken(String),
}

/// The characters of an optional text, none where it is missing.
pub open spec fn text_or_empty(s: Option<String>) -> Seq<char> {
    match s {
        Some(t) => t@,
        None => Seq::empty(),
    }
}

fn append_optional(out: &mut String, s: &Option<String>)
    ensures
        final(out)@ == old(out)@ + text_or_empty(*s),
{
    match s {
        Some(t) => {
            out.append(t.as_str());
        },
        None => {
            assert(out@ + Seq::empty() =~= out@);
        },
    }
}

impl HubError {
    pub open spec fn text(self) -> Seq<char> {
        match self {
            HubError::Refused { code, message } => "hub error: "@ + text_or_empty(code) + " "@
                + text_or_empty(message),
            HubError::UnexpectedFrame => "hub: unexpected first frame"@,
            HubError::NonTextFrame => "hub: non-text first frame"@,
            HubError::ClosedEarly => "hub closed before welcome"@,
            HubError::Broken(e) => e@,
        }
    }

    /// The message for the log.
    pub fn describe(&self) -> (r: String)
        ensures
            r@ == self.text(),
    {
        match self {
            HubError::Refused { code, message } => {
                let mut out = "hub error: ".to_owned();
                append_optional(&mut out, code);
                out.append(" ");
                append_optional(&mut out, message);
                out
            },
            HubError::UnexpectedFrame => "hub: unexpected first frame".to_owned(),
            HubError::NonTextFrame => "hub: non-text first frame".to_owned(),
            HubError::ClosedEarly => "hub closed before welcome".to_owned(),
            HubError::Broken(e) => e.clone(),
        }
    }
}

/// What came from the hub.
pub enum Incoming {
    /// A text frame, or why it could not be read.
    Text(Result<HubFrame, String>),
    /// A request to close.
    Close,
    /// Any other frame.
    Other,
    /// The end of the connection.
    End,
}

/// What the first frame leads to: the seconds between two pushes, at least a
/// tenth of a second, or an error.
pub open spec fn greeted(first: Incoming, sampler_interval: Real) -> Result<Real, HubError> {
    match first {
        Incoming::Text(Ok(HubFrame::Welcome { host_id, interval })) => {
            let secs = match interval {
                Some(x) => x,
                None => sampler_interval,
            };
            Ok(secs.raised(Real { bits: SHORTEST_INTERVAL }))
        },
        Incoming::Text(Ok(HubFrame::Error { code, message })) => Err(
            HubError::Refused { code, message },
        ),
        Incoming::Text(Ok(_)) => Err(HubError::UnexpectedFrame),
        Incoming::Text(Err(e)) => Err(HubError::Broken(e)),
        Incoming::Close | Incoming::Other => Err(HubError::NonTextFrame),
        Incoming::End => Err(HubError::ClosedEarly),
    }
}

/// Reads the answer to the greeting.
pub fn read_greeting(first: Incoming, sampler_interval: Real) -> (r: Result<Real, HubError>)
    ensures
        r == greeted(first, sampler_interval),
{
    match first {
        Incoming::Text(Ok(HubFrame::Welcome { host_id: _, interval })) => {
            let secs = match interval {
                Some(x) => x,
                None => sampler_interval,
            };
            Ok(secs.at_least(Real::from_bits(SHORTEST_INTERVAL)))
        },
        Incoming::Text(Ok(HubFrame::Error { code, message })) => Err(
            HubError::Refused { code, message },
        ),
        Incoming::Text(Ok(_)) => Err(HubError::UnexpectedFrame),
        Incoming::Text(Err(e)) => Err(HubError::Broken(e)),
        Incoming::Close | Incoming::Other => Err(HubError::NonTextFrame),
        Incoming::End => Err(HubError::ClosedEarly),
    }
}

/// Where the link to the hub stands.
#[derive(Clone, Copy, PartialEq, Eq, Structural)]
pub enum HubPhase {
    /// Opening a connection.
    Connecting,
    /// Sending the greeting.
    Greeting,
    /// Waiting for the answer to the greeting.
    AwaitingWelcome,
    /// Sending frames, every so many seconds.
    Pushing(Real),
    /// Waiting between two pushes.
    Waiting(Real),
    /// Waiting before a new attempt.
    Resting,
    Stopped,
}

/// What happens to the link.
pub enum HubEvent {
    StopRequested,
    Connected,
    /// What had to be sent was sent.
    Sent,
    Arrived(Incoming),
    /// The wait is over.
    TimerFired,
    /// Connecting, sending or receiving failed.
    Failed(String),
}

/// What the link has to do next.
pub enum HubAction {
    Connect,
    SendHello,
    /// Read the answer to the greeting.
    ReadFrame,
    /// Send the frames of the latest snapshot.
    Push,
    /// Wait so many seconds, and watch for frames meanwhile.
    Wait(Real),
    /// Drop the connection and pause for so many nanoseconds.
    Rest { pause: u64, lost: Option<HubError> },
    Quit,
    /// Go on waiting.
    Stay,
}

/// The link to a hub.
#[derive(Clone, Copy, PartialEq, Eq, Structural)]
pub struct HubLink {
    pub phase: HubPhase,
    /// The pause after the next loss, in nanoseconds.
    pub backoff: u64,
    pub sampler_interval: Real,
}

impl HubLink {
    /// The pause is between the first and the longest one, and frames are never
    /// pushed more than ten times a second.
    pub open spec fn wf(self) -> bool {
        &&& BACKOFF_INITIAL <= self.backoff <= BACKOFF_MAX
        &&& self.phase matches HubPhase::Pushing(secs) ==> slow_enough(secs)
        &&& self.phase matches HubPhase::Waiting(secs) ==> slow_enough(secs)
    }

    /// A link before its first attempt.
    pub open spec fn fresh(sampler_interval: Real) -> HubLink {
        HubLink { phase: HubPhase::Connecting, backoff: BACKOFF_INITIAL, sampler_interval }
    }

    pub open spec fn at(self, phase: HubPhase) -> HubLink {
        HubLink { phase, backoff: self.backoff, sampler_interval: self.sampler_interval }
    }

    pub fn new(sampler_interval: Real) -> (r: HubLink)
        ensures
            r.wf(),
            r == HubLink::fresh(sampler_interval),
    {
        HubLink { phase: HubPhase::Connecting, backoff: BACKOFF_INITIAL, sampler_interval }
    }

    /// Takes one step.
    pub fn step(&mut self, event: HubEvent) -> (r: HubAction)
        requires
            old(self).wf(),
        ensures
            final(self).wf(),
            *final(self) == hub_step(*old(self), event).0,
            r == hub_step(*old(self), event).1,
    {
        match event {
            HubEvent::StopRequested => {
                self.phase = HubPhase::Stopped;
                HubAction::Quit
            },
            HubEvent::Connected => match self.phase {
                HubPhase::Connecting => {
                    self.phase = HubPhase::Greeting;
                    HubAction::SendHello
                },
                _ => HubAction::Stay,
            },
            HubEvent::Sent => match self.phase {
                HubPhase::Greeting => {
                    self.phase = HubPhase::AwaitingWelcome;
                    HubAction::ReadFrame
                },
                HubPhase::Pushing(secs) => {
                    self.phase = HubPhase::Waiting(secs);
                    HubAction::Wait(secs)
                },
                _ => HubAction::Stay,
            },
            HubEvent::Arrived(incoming) => match self.phase {
                HubPhase::AwaitingWelcome => match read_greeting(incoming, self.sampler_interval) {
                    Ok(secs) => {
                        self.phase = HubPhase::Pushing(secs);
                        HubAction::Push
                    },
                    Err(e) => {
                        self.phase = HubPhase::Resting;
                        HubAction::Rest { pause: self.backoff, lost: Some(e) }
                    },
                },
                HubPhase::Waiting(_) => match incoming {
                    Incoming::Close | Incoming::End => {
                        self.phase = HubPhase::Resting;
                        self.backoff = BACKOFF_INITIAL;
                        HubAction::Rest { pause: self.backoff, lost: None }
                    },
                    _ => HubAction::Stay,
                },
                _ => HubAction::Stay,
            },
            HubEvent::TimerFired => match self.phase {
                HubPhase::Waiting(secs) => {
                    self.phase = HubPhase::Pushing(secs);
                    HubAction::Push
                },
                HubPhase::Resting => {
                    self.phase = HubPhase::Connecting;
                    self.backoff = if self.backoff * 17 / 10 < BACKOFF_MAX {
                        self.backoff * 17 / 10
                    } else {
                        BACKOFF_MAX
                    };
                    HubAction::Connect
                },
                _ => HubAction::Stay,
            },
            HubEvent::Failed(e) => match self.phase {
                HubPhase::Resting | HubPhase::Stopped => HubAction::Stay,
                _ => {
                    self.phase = HubPhase::Resting;
                    HubAction::Rest { pause: self.backoff, lost: Some(HubError::Broken(e)) }
                },
            },
        }
    }
}

/// Whether `secs` is at least a tenth of a second.
pub open spec fn slow_enough(secs: Real) -> bool {
    !secs.nan() && secs.value() >= (Real { bits: SHORTEST_INTERVAL }).value()
}

/// The link after a connection was lost, and the pause that follows.
pub open spec fn lost(l: HubLink, e: HubError) -> (HubLink, HubAction) {
    (l.at(HubPhase::Resting), HubAction::Rest { pause: l.backoff, lost: Some(e) })
}

/// The link after the hub hung up in good order: the next pause is the first
/// one again.
pub open spec fn hung_up(l: HubLink) -> (HubLink, HubAction) {
    (
        HubLink {
            phase: HubPhase::Resting,
            backoff: BACKOFF_INITIAL,
            sampler_interval: l.sampler_interval,
        },
        HubAction::Rest { pause: BACKOFF_INITIAL, lost: None },
    )
}

/// The step of the link at `event`. An event that the phase does not wait for
/// changes nothing.
pub open spec fn hub_step(l: HubLink, event: HubEvent) -> (HubLink, HubAction) {
    match (l.phase, event) {
        (_, HubEvent::StopRequested) => (l.at(HubPhase::Stopped), HubAction::Quit),
        (HubPhase::Connecting, HubEvent::Connected) => (
            l.at(HubPhase::Greeting),
            HubAction::SendHello,
        ),
        (HubPhase::Greeting, HubEvent::Sent) => (
            l.at(HubPhase::AwaitingWelcome),
            HubAction::ReadFrame,
        ),
        (HubPhase::AwaitingWelcome, HubEvent::Arrived(first)) => match greeted(
            first,
            l.sampler_interval,
        ) {
            Ok(secs) => (l.at(HubPhase::Pushing(secs)), HubAction::Push),
            Err(e) => lost(l, e),
        },
        (HubPhase::Pushing(secs), HubEvent::Sent) => (
            l.at(HubPhase::Waiting(secs)),
            HubAction::Wait(secs),
        ),
        (HubPhase::Waiting(_), HubEvent::Arrived(Incoming::Close)) => hung_up(l),
        (HubPhase::Waiting(_), HubEvent::Arrived(Incoming::End)) => hung_up(l),
        (HubPhase::Waiting(secs), HubEvent::TimerFired) => (
            l.at(HubPhase::Pushing(secs)),
            HubAction::Push,
        ),
        (HubPhase::Resting, HubEvent::TimerFired) => (
            HubLink {
                phase: HubPhase::Connecting,
                backoff: grown(l.backoff as nat) as u64,
                sampler_interval: l.sampler_interval,
            },
            HubAction::Connect,
        ),
        (HubPhase::Resting, HubEvent::Failed(_)) => (l, HubAction::Stay),
        (HubPhase::Stopped, HubEvent::Failed(_)) => (l, HubAction::Stay),
        (_, HubEvent::Failed(e)) => lost(l, HubError::Broken(e)),
        _ => (l, HubAction::Stay),
    }
}

/// Nothing is pushed before the hub's welcome: a link that is not pushing yet
/// starts to push at a welcome only.
pub proof fn law_no_push_before_welcome(l: HubLink, event: HubEvent)
    requires
        !(l.phase is Pushing),
        !(l.phase is Waiting),
        hub_step(l, event).1 is Push,
    ensures
        l.phase is AwaitingWelcome,
        event matches HubEvent::Arrived(Incoming::Text(Ok(frame))) && frame is Welcome,
{
}

/// The link never gives up: unless it is told to stop, it goes on, whatever
/// happens.
pub proof fn law_link_never_gives_up(l: HubLink, event: HubEvent)
    requires
        !(l.phase is Stopped),
        !(event is StopRequested),
    ensures
        !(hub_step(l, event).0.phase is Stopped),
        !(hub_step(l, event).1 is Quit),
{
}

/// Once stopped, the link stays stopped.
pub proof fn law_stopped_link_stays_stopped(l: HubLink, event: HubEvent)
    requires
        l.phase is Stopped,
    ensures
        hub_step(l, event).0 == l,
        hub_step(l, event).1 is Quit || hub_step(l, event).1 is Stay,
{
}

/// The pause after `k` failed attempts in a row, in nanoseconds.
pub open spec fn pause_after(k: nat) -> nat
    decreases k,
{
    if k == 0 {
        BACKOFF_INITIAL as nat
    } else {
        grown(pause_after((k - 1) as nat))
    }
}

/// The link after attempts that fail with `errors`, each followed by its pause.
pub open spec fn after_failures(l: HubLink, errors: Seq<String>) -> HubLink
    decreases errors.len(),
{
    if errors.len() == 0 {
        l
    } else {
        let before = after_failures(l, errors.drop_last());
        hub_step(hub_step(before, HubEvent::Failed(errors.last())).0, HubEvent::TimerFired).0
    }
}

proof fn lemma_pauses(k: nat)
    ensures
        k == 0 ==> pause_after(k) == 1_000_000_000,
        k == 1 ==> pause_after(k) == 1_700_000_000,
        k == 2 ==> pause_after(k) == 2_890_000_000,
        k == 3 ==> pause_after(k) == 4_913_000_000,
        k == 4 ==> pause_after(k) == 8_352_100_000,
        k == 5 ==> pause_after(k) == 14_198_570_000,
        k == 6 ==> pause_after(k) == 24_137_569_000,
        k >= 7 ==> pause_after(k) == BACKOFF_MAX,
    decreases k,
{
    if k > 0 {
        lemma_pauses((k - 1) as nat);
    }
}

/// Attempts that fail in a row are spaced by pauses that start at one second,
/// grow 1.7 times without rounding, and stay at half a minute from the eighth
/// on.
pub proof fn law_backoff_schedule(sampler_interval: Real, errors: Seq<String>, e: String)
    ensures
        ({
            let k = errors.len();
            let l = after_failures(HubLink::fresh(sampler_interval), errors);
            &&& l.phase is Connecting
            &&& hub_step(l, HubEvent::Failed(e)).1 matches HubAction::Rest { pause, lost }
            &&& pause == pause_after(k)
            &&& BACKOFF_INITIAL <= pause_after(k) <= BACKOFF_MAX
            &&& pause_after(k) <= pause_after(k + 1)
            &&& pause_after(k + 1) < BACKOFF_MAX ==> 10 * pause_after(k + 1) == 17 * pause_after(k)
            &&& k >= 7 ==> pause_after(k) == BACKOFF_MAX
            &&& k < 7 ==> pause_after(k) < BACKOFF_MAX
        }),
    decreases errors.len(),
{
    lemma_pauses(errors.len());
    lemma_pauses(errors.len() + 1);
    if errors.len() > 0 {
        law_backoff_schedule(sampler_interval, errors.drop_last(), errors.last());
    }
}

/// The link after `events`.
pub open spec fn link_after(l: HubLink, events: Seq<HubEvent>) -> HubLink
    decreases events.len(),
{
    if events.len() == 0 {
        l
    } else {
        hub_step(link_after(l, events.drop_last()), events.last()).0
    }
}

/// What the link does at the last of `events`.
pub open spec fn last_action(l: HubLink, events: Seq<HubEvent>) -> HubAction {
    hub_step(link_after(l, events.drop_last()), events.last()).1
}

/// Whether no pause begins during `events`.
pub open spec fn no_rest(l: HubLink, events: Seq<HubEvent>) -> bool
    decreases events.len(),
{
    events.len() > 0 ==> no_rest(l, events.drop_last()) && !(last_action(l, events) is Rest)
}

proof fn lemma_between_pauses(l: HubLink, events: Seq<HubEvent>)
    requires
        l.phase is Resting,
        l.wf(),
        no_rest(l, events),
    ensures
        ({
            let now = link_after(l, events);
            ||| now == l
            ||| now.phase is Stopped
            ||| !(now.phase is Resting) && now.backoff == grown(l.backoff as nat)
        }),
    decreases events.len(),
{
    if events.len() > 0 {
        lemma_between_pauses(l, events.drop_last());
    }
}

/// From any pause to the next, whatever happens in between: the next pause is
/// one second if the connection ended in good order, and else the previous one
/// grown.
pub proof fn law_next_pause(l: HubLink, events: Seq<HubEvent>)
    requires
        l.wf(),
        l.phase is Resting,
        events.len() > 0,
        no_rest(l, events.drop_last()),
        last_action(l, events) is Rest,
    ensures
        last_action(l, events) matches HubAction::Rest { pause, lost } && pause == (
        if lost is None {
            BACKOFF_INITIAL as nat
        } else {
            grown(l.backoff as nat)
        }) && link_after(l, events).phase is Resting && link_after(l, events).backoff == pause,
{
    lemma_between_pauses(l, events.drop_last());
}

/// After a connection that the hub ended in good order, the next attempt
/// follows after one second.
pub proof fn law_good_connection_resets_backoff(l: HubLink, end: Incoming)
    requires
        l.phase is Waiting,
        end is Close || end is End,
    ensures
        hub_step(l, HubEvent::Arrived(end)) == hung_up(l),
        hung_up(l).0.backoff == BACKOFF_INITIAL,
{
}

/// Pauses grow 1.7 times, rounded down, and never beyond thirty seconds; they
/// start at one second.
pub proof fn law_pauses_grow(backoff: nat)
    ensures
        10 * grown(backoff) <= 17 * backoff,
        17 * backoff < 300_000_000_000 ==> 17 * backoff < 10 * grown(backoff) + 10,
        17 * backoff >= 300_000_000_000 ==> grown(backoff) == 30_000_000_000,
        pause_after(0) == 1_000_000_000,
{
}

/// The name that is advertised: the configured one where it is not empty, else
/// the system's, else `unknown`.
pub proof fn law_advertised_name(configured: Option<Seq<char>>, system: Option<Seq<char>>)
    ensures
        configured matches Some(name) ==> name.len() > 0 ==> advertised(configured, system)
            == name,
        (configured is None || configured->0.len() == 0) && system is Some ==> advertised(
            configured,
            system,
        ) == system->0,
        (configured is None || configured->0.len() == 0) && system is None ==> advertised(
            configured,
            system,
        ) == "unknown"@,
        system matches Some(name) ==> hostname_text(system) == name,
        system is None ==> hostname_text(system) == "unknown"@,
{
}

/// The operating system is called by the first pretty name that `os-release`
/// gives, without the quotation marks around it.
pub proof fn law_first_pretty_name(raw: Seq<char>, j: int, name: Seq<char>)
    requires
        0 <= j < lines_of(raw).len(),
        lines_of(raw)[j] == "PRETTY_NAME="@ + name || lines_of(raw)[j] == "PRETTY_NAME=\""@ + name
            + "\""@,
        name.len() > 0 ==> name[0] != '"' && name[name.len() - 1] != '"',
        forall|i: int|
            0 <= i < j ==> !"PRETTY_NAME="@.is_prefix_of(#[trigger] lines_of(raw)[i]),
    ensures
        os_name(Some(raw)) == name,
{
    let rows = lines_of(raw);
    crate::metrics::platform::lemma_quoted(
        rows[j],
        "PRETTY_NAME="@,
        "PRETTY_NAME=\""@,
        name,
    );
    crate::text::law_first_line_counts(rows, "PRETTY_NAME="@, j);
}

/// Without one it is called by the first plain name, and without that, or
/// without the file, `linux`.
pub proof fn law_first_plain_name(raw: Seq<char>, j: int, name: Seq<char>)
    requires
        0 <= j <= lines_of(raw).len(),
        forall|i: int|
            0 <= i < lines_of(raw).len() ==> !"PRETTY_NAME="@.is_prefix_of(
                #[trigger] lines_of(raw)[i],
            ),
        j < lines_of(raw).len() ==> (lines_of(raw)[j] == "NAME="@ + name || lines_of(raw)[j]
            == "NAME=\""@ + name + "\""@) && (name.len() > 0 ==> name[0] != '"' && name[name.len()
            - 1] != '"'),
        forall|i: int| 0 <= i < j ==> !"NAME="@.is_prefix_of(#[trigger] lines_of(raw)[i]),
    ensures
        j < lines_of(raw).len() ==> os_name(Some(raw)) == name,
        j == lines_of(raw).len() ==> os_name(Some(raw)) == "linux"@,
        os_name(None) == "linux"@,
{
    let rows = lines_of(raw);
    crate::text::law_first_line_counts(rows, "PRETTY_NAME="@, rows.len() as int);
    if j < rows.len() {
        crate::metrics::platform::lemma_quoted(rows[j], "NAME="@, "NAME=\""@, name);
    }
    crate::text::law_first_line_counts(rows, "NAME="@, j);
}

/// A name of at most 256 bytes is sent whole; a longer one is cut to a prefix of
/// at most 256 bytes, and one character more would not fit.
pub proof fn law_names_are_cut(item: ProcessItem<'_>, p: Process)
    requires
        item_of(item, p),
    ensures
        item.pid == p.pid,
        item.mem_bytes == p.mem.whole_scaled(20),
        encode_utf8(p.name@).len() <= 256 ==> item.name@ == p.name@,
        encode_utf8(p.username@).len() <= 256 ==> item.username@ == p.username@,
        encode_utf8(item.name@).len() <= 256,
        encode_utf8(item.username@).len() <= 256,
        item.name@.is_prefix_of(p.name@),
        item.username@.is_prefix_of(p.username@),
        item.name@.len() < p.name@.len() ==> encode_utf8(
            p.name@.take(item.name@.len() as int + 1),
        ).len() > 256,
        item.username@.len() < p.username@.len() ==> encode_utf8(
            p.username@.take(item.username@.len() as int + 1),
        ).len() > 256,
{
    lemma_short_is_whole(item.name@, p.name@);
    lemma_short_is_whole(item.username@, p.username@);
}

proof fn lemma_short_is_whole(part: Seq<char>, whole: Seq<char>)
    requires
        longest_fit(part, whole, 256),
    ensures
        encode_utf8(whole).len() <= 256 ==> part == whole,
        part.is_prefix_of(whole),
{
    if encode_utf8(whole).len() <= 256 && part.len() < whole.len() {
        lemma_prefix_boundary(whole, part.len() as int + 1);
    }
    assert(whole.take(whole.len() as int) =~= whole);
}

/// The frame of processes shows at most twenty-five, in the order of the
/// snapshot, of version 1 and with the accounting of the snapshot; the frame of
/// metrics shows all metrics at the same time.
pub proof fn law_frames(f: Processes<'_>, m: Samples<'_>, snap: Snapshot, ts: i64)
    requires
        processes_of(f, snap, ts),
        samples_of(m, snap, ts),
    ensures
        f.v == 1,
        f.t@ == "processes"@,
        f.ts == ts,
        f.metric@ == snap.processes_metric@,
        snap.processes@.len() <= 25 ==> f.items@.len() == snap.processes@.len(),
        snap.processes@.len() > 25 ==> f.items@.len() == 25,
        forall|i: int|
            0 <= i < f.items@.len() ==> (#[trigger] f.items@[i]).pid == snap.processes@[i].pid,
        m.v == 1,
        m.t@ == "samples"@,
        m.ts == ts,
        m.metrics@ == metrics_of(snap),
        AGENT_VERSION@ == "0.1.1"@,
{
    assert forall|i: int| 0 <= i < f.items@.len() implies (#[trigger] f.items@[i]).pid
        == snap.processes@[i].pid by {
        assert(item_of(f.items@[i], snap.processes@[i]));
    }
}

/// What an error says in the log.
pub proof fn law_texts_of_errors(code: String, message: String, text: String)
    ensures
        (HubError::Refused { code: Some(code), message: Some(message) }).text() == "hub error: "@
            + code@ + " "@ + message@,
        (HubError::Refused { code: None, message: Some(message) }).text() == "hub error: "@ + " "@
            + message@,
        (HubError::Refused { code: Some(code), message: None }).text() == "hub error: "@ + code@
            + " "@,
        (HubError::Refused { code: None, message: None }).text() == "hub error: "@ + " "@,
        HubError::UnexpectedFrame.text() == "hub: unexpected first frame"@,
        HubError::NonTextFrame.text() == "hub: non-text first frame"@,
        HubError::ClosedEarly.text() == "hub closed before welcome"@,
        HubError::Broken(text).text() == text@,
{
    let none = Seq::<char>::empty();
    let start = "hub error: "@;
    assert(start + none =~= start);
    assert(start + code@ + " "@ + none =~= start + code@ + " "@);
    assert(start + " "@ + none =~= start + " "@);
}

/// What the first frame of a hub leads to. A welcome sets the seconds between
/// two pushes, the hub's own where it names some and else the sampler's, but
/// never less than a tenth; everything else is an error.
pub proof fn law_greetings(
    host_id: Option<i64>,
    interval: Option<Real>,
    own: Real,
    code: Option<String>,
    message: Option<String>,
    text: String,
)
    ensures
        ({
            let secs = match interval {
                Some(x) => x,
                None => own,
            };
            let least = Real { bits: 0x3fb9_9999_9999_999a };
            let frame = HubFrame::Welcome { host_id, interval };
            &&& greeted(Incoming::Text(Ok(frame)), own) is Ok
            &&& !secs.nan() && secs.value() >= least.value() ==> greeted(
                Incoming::Text(Ok(frame)),
                own,
            ) == Ok::<Real, HubError>(secs)
            &&& secs.nan() || secs.value() < least.value() ==> greeted(
                Incoming::Text(Ok(frame)),
                own,
            ) == Ok::<Real, HubError>(least)
        }),
        greeted(Incoming::Text(Ok(HubFrame::Error { code, message })), own) == Err::<
            Real,
            HubError,
        >(HubError::Refused { code, message }),
        greeted(Incoming::Text(Ok(HubFrame::Ping)), own) == Err::<Real, HubError>(
            HubError::UnexpectedFrame,
        ),
        greeted(Incoming::Text(Ok(HubFrame::Pong)), own) == Err::<Real, HubError>(
            HubError::UnexpectedFrame,
        ),
        greeted(Incoming::Text(Ok(HubFrame::Unknown)), own) == Err::<Real, HubError>(
            HubError::UnexpectedFrame,
        ),
        greeted(Incoming::Text(Err(text)), own) == Err::<Real, HubError>(HubError::Broken(text)),
        greeted(Incoming::Close, own) == Err::<Real, HubError>(HubError::NonTextFrame),
        greeted(Incoming::Other, own) == Err::<Real, HubError>(HubError::NonTextFrame),
        greeted(Incoming::End, own) == Err::<Real, HubError>(HubError::ClosedEarly),
{
}

/// The course of the link: it connects, greets, reads the answer, and then
/// pushes and waits in turn, always by the same interval; a frame that is not an
/// end does not disturb the wait. A failure anywhere leads to a pause of the
/// length that is due.
pub proof fn law_course_of_the_link(
    l: HubLink,
    secs: Real,
    first: Incoming,
    frame: Result<HubFrame, String>,
    error: String,
)
    ensures
        hub_step(l.at(HubPhase::Connecting), HubEvent::Connected) == (
            l.at(HubPhase::Greeting),
            HubAction::SendHello,
        ),
        hub_step(l.at(HubPhase::Greeting), HubEvent::Sent) == (
            l.at(HubPhase::AwaitingWelcome),
            HubAction::ReadFrame,
        ),
        greeted(first, l.sampler_interval) matches Ok(every) ==> hub_step(
            l.at(HubPhase::AwaitingWelcome),
            HubEvent::Arrived(first),
        ) == (l.at(HubPhase::Pushing(every)), HubAction::Push),
        greeted(first, l.sampler_interval) matches Err(e) ==> hub_step(
            l.at(HubPhase::AwaitingWelcome),
            HubEvent::Arrived(first),
        ) == (
            l.at(HubPhase::Resting),
            HubAction::Rest { pause: l.backoff, lost: Some(e) },
        ),
        hub_step(l.at(HubPhase::Pushing(secs)), HubEvent::Sent) == (
            l.at(HubPhase::Waiting(secs)),
            HubAction::Wait(secs),
        ),
        hub_step(l.at(HubPhase::Waiting(secs)), HubEvent::TimerFired) == (
            l.at(HubPhase::Pushing(secs)),
            HubAction::Push,
        ),
        hub_step(
            l.at(HubPhase::Waiting(secs)),
            HubEvent::Arrived(Incoming::Text(frame)),
        ) == (l.at(HubPhase::Waiting(secs)), HubAction::Stay),
        hub_step(l.at(HubPhase::Waiting(secs)), HubEvent::Arrived(Incoming::Other)) == (
            l.at(HubPhase::Waiting(secs)),
            HubAction::Stay,
        ),
        l.phase is Connecting || l.phase is Greeting || l.phase is AwaitingWelcome
            || l.phase is Pushing || l.phase is Waiting ==> hub_step(l, HubEvent::Failed(error))
            == (
            l.at(HubPhase::Resting),
            HubAction::Rest { pause: l.backoff, lost: Some(HubError::Broken(error)) },
        ),
        hub_step(l, HubEvent::StopRequested) == (l.at(HubPhase::Stopped), HubAction::Quit),
        l.at(HubPhase::Resting).backoff == l.backoff,
        l.at(HubPhase::Resting).phase is Resting,
        l.at(HubPhase::Resting).sampler_interval == l.sampler_interval,
        l.phase is Waiting ==> hub_step(l, HubEvent::Arrived(Incoming::End)).1 == (
        HubAction::Rest { pause: 1_000_000_000, lost: None }),
        l.phase is Waiting ==> hub_step(l, HubEvent::Arrived(Incoming::Close)).1 == (
        HubAction::Rest { pause: 1_000_000_000, lost: None }),
        l.phase is Resting ==> hub_step(l, HubEvent::TimerFired).1 == HubAction::Connect
            && hub_step(l, HubEvent::TimerFired).0.phase is Connecting,
{
}

/// Events that the link does not wait for change nothing, and a hub that hangs
/// up in good order leaves the first pause and the interval for the next
/// attempt.
pub proof fn law_unexpected_events_change_nothing(
    l: HubLink,
    incoming: Incoming,
    error: String,
)
    ensures
        !(l.phase is Connecting) ==> hub_step(l, HubEvent::Connected) == (l, HubAction::Stay),
        !(l.phase is Greeting) && !(l.phase is Pushing) ==> hub_step(l, HubEvent::Sent) == (
            l,
            HubAction::Stay,
        ),
        !(l.phase is AwaitingWelcome) && !(l.phase is Waiting) ==> hub_step(
            l,
            HubEvent::Arrived(incoming),
        ) == (l, HubAction::Stay),
        !(l.phase is Waiting) && !(l.phase is Resting) ==> hub_step(l, HubEvent::TimerFired) == (
            l,
            HubAction::Stay,
        ),
        l.phase is Resting || l.phase is Stopped ==> hub_step(l, HubEvent::Failed(error)) == (
            l,
            HubAction::Stay,
        ),
        l.phase is Waiting && (incoming is End || incoming is Close) ==> {
            let after = hub_step(l, HubEvent::Arrived(incoming)).0;
            &&& after.phase is Resting
            &&& after.backoff == 1_000_000_000
            &&& after.sampler_interval == l.sampler_interval
        },
        l.phase is Resting ==> {
            let after = hub_step(l, HubEvent::TimerFired).0;
            &&& after.backoff == grown(l.backoff as nat) as u64
            &&& after.sampler_interval == l.sampler_interval
        },
{
}

} // verus!
