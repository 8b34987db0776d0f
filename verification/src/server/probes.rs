//! Checks of outside targets.

use crate::binary64::Real;
use crate::config::Probe;
use crate::sampler::SHORTEST_INTERVAL;
use vstd::prelude::*;

verus! {

/// The outcome of a check.
pub struct ProbeResult {
    pub name: String,
    pub url: String,
    pub ok: bool,
    pub status_code: Option<u16>,
    pub latency_ms: u64,
    pub error: Option<String>,
}

/// The outcomes of all checks.
pub struct ProbesResponse {
    pub probes: Vec<ProbeResult>,
}

/// What came back for a request.
pub enum ProbeReply {
    /// A response with this status.
    Status(u16),
    /// No response; the status is that of the error, where it has one.
    Failed { status: Option<u16>, error: String },
}

/// Whether a status counts as healthy: success or a redirect.
pub open spec fn healthy(status: u16) -> bool {
    200 <= status < 400
}

/// Whether a target refuses requests without a body and is to be asked again
/// with one.
pub open spec fn wants_get(reply: ProbeReply) -> bool {
    reply == ProbeReply::Status(405)
}

/// The outcome that follows from the last reply.
pub open spec fn outcome(
    name: String,
    url: String,
    reply: ProbeReply,
    latency_ms: u64,
) -> ProbeResult {
    match reply {
        ProbeReply::Status(code) => ProbeResult {
            name,
            url,
            ok: healthy(code),
            status_code: Some(code),
            latency_ms,
            error: None,
        },
        ProbeReply::Failed { status, error } => ProbeResult {
            name,
            url,
            ok: false,
            status_code: status,
            latency_ms,
            error: Some(error),
        },
    }
}

/// Seconds until a check gives up: at least a tenth of a second.
pub fn effective_timeout(timeout: Real) -> (r: Real)
    ensures
        r == timeout.raised(Real { bits: SHORTEST_INTERVAL }),
{
    timeout.at_least(Real::from_bits(SHORTEST_INTERVAL))
}

/// Whether to ask again with `GET` after the reply to `HEAD`.
pub fn retry_with_get(reply: &ProbeReply) -> (r: bool)
    ensures
        r == wants_get(*reply),
{
    match reply {
        ProbeReply::Status(code) => *code == 405,
        ProbeReply::Failed { .. } => false,
    }
}

/// What was asked of a target, and what came back.
pub struct Check {
    /// The reply to `HEAD`.
    pub head: ProbeReply,
    /// The reply to `GET`, where that was asked for.
    pub get: Option<ProbeReply>,
    pub latency_ms: u64,
}

impl Check {
    /// Whether `GET` was asked for exactly where it was wanted.
    pub open spec fn wf(self) -> bool {
        self.get is Some <==> wants_get(self.head)
    }

    /// The reply that counts.
    pub open spec fn last_reply(self) -> ProbeReply {
        match self.get {
            Some(reply) => reply,
            None => self.head,
        }
    }
}

/// The outcome of a check.
pub fn probe_one(probe: Probe, check: Check) -> (r: ProbeResult)
    requires
        check.wf(),
    ensures
        r == outcome(probe.name, probe.url, check.last_reply(), check.latency_ms),
        r.ok <==> (check.last_reply() matches ProbeReply::Status(code) && 200 <= code <= 399),
        r.name == probe.name,
        r.url == probe.url,
        r.latency_ms == check.latency_ms,
{
    let reply = match check.get {
        Some(again) => again,
        None => check.head,
    };
    match reply {
        ProbeReply::Status(code) => ProbeResult {
            name: probe.name,
            url: probe.url,
            ok: 200 <= code && code < 400,
            status_code: Some(code),
            latency_ms: check.latency_ms,
            error: None,
        },
        ProbeReply::Failed { status, error } => ProbeResult {
            name: probe.name,
            url: probe.url,
            ok: false,
            status_code: status,
            latency_ms: check.latency_ms,
            error: Some(error),
        },
    }
}

/// Whether `row` says that `probe` could not be checked at all.
pub open spec fn not_checked(row: ProbeResult, probe: Probe, error: Seq<char>) -> bool {
    &&& row.name@ == probe.name@
    &&& row.url@ == probe.url@
    &&& !row.ok
    &&& row.status_code is None
    &&& row.latency_ms == 0
    &&& row.error matches Some(e) && e@ == "client build failed: "@ + error
}

/// The outcomes where no request could be made at all, because there is no
/// client to make it with.
pub fn run_without_client(probes: &Vec<Probe>, error: &str) -> (r: ProbesResponse)
    ensures
        r.probes@.len() == probes@.len(),
        forall|i: int|
            0 <= i < probes@.len() ==> not_checked(#[trigger] r.probes@[i], probes@[i], error@),
{
    let mut rows: Vec<ProbeResult> = Vec::new();
    let mut i: usize = 0;
    while i < probes.len()
        invariant
            i <= probes.len(),
            rows@.len() == i,
            forall|j: int| 0 <= j < i ==> not_checked(#[trigger] rows@[j], probes@[j], error@),
        decreases probes.len() - i,
    {
        let mut text = "client build failed: ".to_owned();
        text.append(error);
        let ghost was = rows@;
        rows.push(
            ProbeResult {
                name: probes[i].name.clone(),
                url: probes[i].url.clone(),
                ok: false,
                status_code: None,
                latency_ms: 0,
                error: Some(text),
            },
        );
        assert forall|j: int| 0 <= j < i + 1 implies not_checked(
            #[trigger] rows@[j],
            probes@[j],
            error@,
        ) by {
            if j < i {
                assert(rows@[j] == was[j]);
            }
        }
        i += 1;
    }
    ProbesResponse { probes: rows }
}

/// The outcomes of the checks of all targets, in the order of the targets.
pub fn run(probes: Vec<Probe>, checks: Vec<Check>) -> (r: ProbesResponse)
    requires
        probes@.len() == checks@.len(),
        forall|i: int| 0 <= i < checks@.len() ==> (#[trigger] checks@[i]).wf(),
    ensures
        r.probes@.len() == probes@.len(),
        forall|i: int|
            0 <= i < probes@.len() ==> #[trigger] r.probes@[i] == outcome(
                probes@[i].name,
                probes@[i].url,
                checks@[i].last_reply(),
                checks@[i].latency_ms,
            ),
{
    let ghost targets = probes@;
    let ghost made = checks@;
    let mut probes = probes;
    let mut checks = checks;
    let mut rows: Vec<ProbeResult> = Vec::new();
    assert(targets.skip(0) =~= targets);
    assert(made.skip(0) =~= made);
    while probes.len() > 0
        invariant
            rows@.len() <= targets.len(),
            targets.len() == made.len(),
            probes@ == targets.skip(rows@.len() as int),
            checks@ == made.skip(rows@.len() as int),
            forall|j: int| 0 <= j < made.len() ==> (#[trigger] made[j]).wf(),
            forall|j: int|
                0 <= j < rows@.len() ==> #[trigger] rows@[j] == outcome(
                    targets[j].name,
                    targets[j].url,
                    made[j].last_reply(),
                    made[j].latency_ms,
                ),
        decreases probes.len(),
    {
        let ghost k = rows@.len() as int;
        assert(probes@[0] == targets[k]);
        assert(checks@[0] == made[k]);
        let probe = probes.remove(0);
        let check = checks.remove(0);
        rows.push(probe_one(probe, check));
        assert(probes@ =~= targets.skip(k + 1));
        assert(checks@ =~= made.skip(k + 1));
    }
    ProbesResponse { probes: rows }
}

/// A check is healthy if and only if a response came whose status is success or
/// a redirect; then there is no error.
pub proof fn law_ok_means_healthy(name: String, url: String, reply: ProbeReply, latency_ms: u64)
    ensures
        outcome(name, url, reply, latency_ms).ok <==> (reply matches ProbeReply::Status(code)
            && healthy(code)),
        outcome(name, url, reply, latency_ms).ok ==> outcome(
            name,
            url,
            reply,
            latency_ms,
        ).error is None,
        outcome(name, url, reply, latency_ms).error is Some <==> reply is Failed,
{
}

/// A check is ok if and only if the reply that counts, that to `GET` where the
/// target was asked again and else that to `HEAD`, is a response with a status
/// from 200 to 399. The status is shown as it came, with the name and the URL
/// of the target and the time that it took; an error shows as such.
pub proof fn law_ok_from_200_to_399(probe: Probe, check: Check)
    requires
        check.wf(),
    ensures
        ({
            let r = outcome(probe.name, probe.url, check.last_reply(), check.latency_ms);
            let reply = match check.get {
                Some(get) => get,
                None => check.head,
            };
            &&& r.name == probe.name
            &&& r.url == probe.url
            &&& r.latency_ms == check.latency_ms
            &&& match reply {
                ProbeReply::Status(code) => {
                    &&& r.status_code == Some(code)
                    &&& r.error is None
                    &&& code < 200 ==> !r.ok
                    &&& 200 <= code < 400 ==> r.ok
                    &&& code >= 400 ==> !r.ok
                },
                ProbeReply::Failed { status, error } => {
                    &&& r.status_code == status
                    &&& r.error == Some(error)
                    &&& !r.ok
                },
            }
        }),
        check.get is Some <==> (check.head matches ProbeReply::Status(code) && code == 405),
{
}

/// A target is asked again if and only if it answered `HEAD` with status 405.
pub proof fn law_asked_again_at_405(reply: ProbeReply)
    ensures
        wants_get(reply) <==> (reply matches ProbeReply::Status(code) && code == 405),
{
}

/// Where no request can be made at all, every target is shown as not reached,
/// with why, and with neither a status nor a time.
pub proof fn law_nothing_checked(row: ProbeResult, probe: Probe, error: Seq<char>)
    requires
        not_checked(row, probe, error),
    ensures
        row.name@ == probe.name@,
        row.url@ == probe.url@,
        !row.ok,
        row.status_code is None,
        row.latency_ms == 0,
        row.error matches Some(e) && e@ == "client build failed: "@ + error,
{
}

} // verus!
