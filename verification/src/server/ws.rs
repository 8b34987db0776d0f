//! WebSocket sessions.

use crate::server::worker::WorkerRegistry;
use vstd::prelude::*;

verus! {

/// The query of a request to connect.
pub struct ConnectQuery {
    pub id: Option<String>,
}

/// The answer to a request to connect.
#[derive(Clone, Copy, PartialEq, Eq, Structural)]
pub enum ConnectReply {
    /// The id is missing.
    MissingId,
    /// The id cannot be claimed.
    InvalidId,
    /// There are too many sessions.
    Full,
    /// A session is opened.
    Upgrade,
}

impl ConnectReply {
    /// The status of a refusal.
    pub open spec fn code(self) -> Option<u16> {
        match self {
            ConnectReply::MissingId => Some(400),
            ConnectReply::InvalidId => Some(403),
            ConnectReply::Full => Some(503),
            ConnectReply::Upgrade => None,
        }
    }

    /// The text of a refusal.
    pub open spec fn message(self) -> Seq<char> {
        match self {
            ConnectReply::MissingId => "missing worker id"@,
            ConnectReply::InvalidId => "Invalid worker id"@,
            ConnectReply::Full => "Server is at full capacity. Please try again later."@,
            ConnectReply::Upgrade => Seq::empty(),
        }
    }

    /// The status of a refusal; `None` if a session is opened.
    pub fn status(&self) -> (r: Option<u16>)
        ensures
            r == self.code(),
    {
        match self {
            ConnectReply::MissingId => Some(400),
            ConnectReply::InvalidId => Some(403),
            ConnectReply::Full => Some(503),
            ConnectReply::Upgrade => None,
        }
    }

    /// The text of a refusal.
    pub fn text(&self) -> (r: &'static str)
        ensures
            r@ == self.message(),
    {
        match self {
            ConnectReply::MissingId => "missing worker id",
            ConnectReply::InvalidId => "Invalid worker id",
            ConnectReply::Full => "Server is at full capacity. Please try again later.",
            ConnectReply::Upgrade => {
                proof {
                    reveal_strlit("");
                    assert(""@ =~= Seq::<char>::empty());
                }
                ""
            },
        }
    }
}

/// The id that a query gives, empty where it gives none.
pub open spec fn query_id(q: ConnectQuery) -> Seq<char> {
    match q.id {
        Some(id) => id@,
        None => Seq::empty(),
    }
}

/// The answer to a request for `id` with these ids to claim and so many
/// sessions.
pub open spec fn connect_reply(
    id: Seq<char>,
    pending: Set<Seq<char>>,
    active: usize,
    max: usize,
) -> ConnectReply {
    if id.len() == 0 {
        ConnectReply::MissingId
    } else if !pending.contains(id) {
        ConnectReply::InvalidId
    } else if active >= max {
        ConnectReply::Full
    } else {
        ConnectReply::Upgrade
    }
}

/// The number of sessions that are open.
pub struct Sessions {
    active: usize,
}

impl View for Sessions {
    type V = usize;

    closed spec fn view(&self) -> usize {
        self.active
    }
}

/// The number of sessions after a request was answered.
pub open spec fn open_after(active: usize, reply: ConnectReply) -> usize {
    if reply == ConnectReply::Upgrade {
        (active + 1) as usize
    } else {
        active
    }
}

/// One session less.
pub open spec fn one_less(active: usize) -> usize {
    if active == 0 {
        usize::MAX
    } else {
        (active - 1) as usize
    }
}

impl Sessions {
    pub fn new() -> (r: Sessions)
        ensures
            r@ == 0,
    {
        Sessions { active: 0 }
    }

    /// The number of sessions that are open.
    pub fn active(&self) -> (r: usize)
        ensures
            r == self@,
    {
        self.active
    }

    /// Counts a session that ends.
    pub fn end(&mut self)
        ensures
            final(self)@ == one_less(old(self)@),
    {
        self.active = if self.active == 0 {
            usize::MAX
        } else {
            self.active - 1
        };
    }
}

/// Answers a request to connect, and counts the session that it opens at once.
/// An id that is claimed is used up, even where there are too many sessions.
pub fn connect(
    workers: &mut WorkerRegistry,
    sessions: &mut Sessions,
    query: ConnectQuery,
    max: usize,
) -> (r: ConnectReply)
    requires
        old(workers).wf(),
    ensures
        final(workers).wf(),
        r == connect_reply(query_id(query), old(workers)@, old(sessions)@, max),
        final(workers)@ == if query_id(query).len() == 0 {
            old(workers)@
        } else {
            old(workers)@.remove(query_id(query))
        },
        final(sessions)@ == open_after(old(sessions)@, r),
        old(sessions)@ <= max ==> final(sessions)@ <= max,
{
    match query.id {
        Some(id) => {
            if id.as_str().is_empty() {
                return ConnectReply::MissingId;
            }
            if !workers.claim(id.as_str()) {
                return ConnectReply::InvalidId;
            }
            if sessions.active >= max {
                return ConnectReply::Full;
            }
            sessions.active = sessions.active + 1;
            ConnectReply::Upgrade
        },
        None => ConnectReply::MissingId,
    }
}

/// A session is opened only for an id that can be claimed, and only below the
/// limit; afterwards the id cannot be claimed again.
pub proof fn law_sessions_need_a_ticket(
    id: Seq<char>,
    pending: Set<Seq<char>>,
    active: usize,
    max: usize,
)
    requires
        connect_reply(id, pending, active, max) == ConnectReply::Upgrade,
    ensures
        pending.contains(id),
        active < max,
        forall|later: usize, limit: usize| #[trigger]
            connect_reply(id, pending.remove(id), later, limit) == ConnectReply::InvalidId,
{
}

/// A session that was opened and ended leaves the count as it was.
pub proof fn law_sessions_are_counted_back(
    id: Seq<char>,
    pending: Set<Seq<char>>,
    active: usize,
    max: usize,
)
    requires
        connect_reply(id, pending, active, max) == ConnectReply::Upgrade,
    ensures
        one_less(open_after(active, ConnectReply::Upgrade)) == active,
{
}

/// What happens to the sessions.
pub enum Visit {
    /// Someone asked for a session with `id` while `pending` could be claimed.
    Asked { id: Seq<char>, pending: Set<Seq<char>> },
    /// A session ended.
    Ended,
}

/// The number of sessions after `visits`, starting with none.
pub open spec fn sessions_after(visits: Seq<Visit>, max: usize) -> usize
    decreases visits.len(),
{
    if visits.len() == 0 {
        0
    } else {
        let before = sessions_after(visits.drop_last(), max);
        match visits.last() {
            Visit::Asked { id, pending } => open_after(
                before,
                connect_reply(id, pending, before, max),
            ),
            Visit::Ended => one_less(before),
        }
    }
}

/// Whether a session ends only while one is open.
pub open spec fn ends_are_real(visits: Seq<Visit>, max: usize) -> bool
    decreases visits.len(),
{
    visits.len() > 0 ==> {
        &&& ends_are_real(visits.drop_last(), max)
        &&& visits.last() is Ended ==> sessions_after(visits.drop_last(), max) > 0
    }
}

/// At every moment no more sessions are open than the limit allows, however the
/// requests and the ends follow one another.
pub proof fn law_sessions_stay_within_the_limit(visits: Seq<Visit>, max: usize)
    requires
        ends_are_real(visits, max),
    ensures
        sessions_after(visits, max) <= max,
    decreases visits.len(),
{
    if visits.len() > 0 {
        law_sessions_stay_within_the_limit(visits.drop_last(), max);
    }
}

/// Where a session stands.
#[derive(Clone, Copy, PartialEq, Eq, Structural)]
pub enum SessionPhase {
    /// Sending the latest snapshot.
    Pushing,
    /// Waiting for the next push.
    Waiting,
    Over,
}

/// What happens to a session.
pub enum SessionEvent {
    /// The snapshot was sent; it took so many nanoseconds.
    Sent { elapsed: u64 },
    /// It is time for the next push.
    TimerFired,
    /// The client wants to close, or hung up.
    Closed,
    /// Any other frame came.
    Frame,
    /// Sending or receiving failed.
    Failed(String),
}

/// What a session has to do next.
pub enum SessionAction {
    /// Send the latest snapshot.
    Push,
    /// Wait so many nanoseconds, and watch for frames meanwhile.
    Wait(u64),
    /// Go on waiting.
    Stay,
    /// Close the connection.
    Finish { error: Option<String> },
}

/// The rest of the interval after sending.
pub open spec fn rest_of(interval: u64, elapsed: u64) -> u64 {
    if elapsed >= interval {
        0
    } else {
        (interval - elapsed) as u64
    }
}

/// The step of a session that pushes every `interval` nanoseconds. An event
/// that the phase does not wait for changes nothing.
pub open spec fn session_step(phase: SessionPhase, interval: u64, event: SessionEvent) -> (
    SessionPhase,
    SessionAction,
) {
    match (phase, event) {
        (SessionPhase::Pushing, SessionEvent::Sent { elapsed }) => (
            SessionPhase::Waiting,
            SessionAction::Wait(rest_of(interval, elapsed)),
        ),
        (SessionPhase::Pushing, SessionEvent::Failed(e)) => (
            SessionPhase::Over,
            SessionAction::Finish { error: Some(e) },
        ),
        (SessionPhase::Waiting, SessionEvent::TimerFired) => (
            SessionPhase::Pushing,
            SessionAction::Push,
        ),
        (SessionPhase::Waiting, SessionEvent::Closed) => (
            SessionPhase::Over,
            SessionAction::Finish { error: None },
        ),
        (SessionPhase::Waiting, SessionEvent::Failed(e)) => (
            SessionPhase::Over,
            SessionAction::Finish { error: Some(e) },
        ),
        _ => (phase, SessionAction::Stay),
    }
}

/// Takes one step of a session.
pub fn next_step(phase: SessionPhase, interval: u64, event: SessionEvent) -> (r: (
    SessionPhase,
    SessionAction,
))
    ensures
        r == session_step(phase, interval, event),
{
    match phase {
        SessionPhase::Pushing => match event {
            SessionEvent::Sent { elapsed } => (
                SessionPhase::Waiting,
                SessionAction::Wait(interval.saturating_sub(elapsed)),
            ),
            SessionEvent::Failed(e) => (
                SessionPhase::Over,
                SessionAction::Finish { error: Some(e) },
            ),
            _ => (phase, SessionAction::Stay),
        },
        SessionPhase::Waiting => match event {
            SessionEvent::TimerFired => (SessionPhase::Pushing, SessionAction::Push),
            SessionEvent::Closed => (SessionPhase::Over, SessionAction::Finish { error: None }),
            SessionEvent::Failed(e) => (
                SessionPhase::Over,
                SessionAction::Finish { error: Some(e) },
            ),
            _ => (phase, SessionAction::Stay),
        },
        SessionPhase::Over => (phase, SessionAction::Stay),
    }
}

/// The pace does not drift: sending and waiting together take the interval, or
/// as long as sending alone where that takes longer.
pub proof fn law_steady_pace(interval: u64, elapsed: u64)
    ensures
        elapsed + rest_of(interval, elapsed) == if elapsed >= interval {
            elapsed as int
        } else {
            interval as int
        },
        session_step(SessionPhase::Pushing, interval, SessionEvent::Sent { elapsed }).1
            == SessionAction::Wait(rest_of(interval, elapsed)),
{
}

/// Frames from the client do not disturb the pushes.
pub proof fn law_frames_are_ignored(phase: SessionPhase, interval: u64)
    ensures
        session_step(phase, interval, SessionEvent::Frame) == (phase, SessionAction::Stay),
{
}

/// How a request to connect is answered: 400 without an id, 403 with one that
/// cannot be claimed, 503 where as many sessions are open as may be, and else a
/// session is opened.
pub proof fn law_answers_to_requests(
    id: Seq<char>,
    pending: Set<Seq<char>>,
    active: usize,
    max: usize,
)
    ensures
        ({
            let r = connect_reply(id, pending, active, max);
            &&& id.len() == 0 ==> r.code() == Some(400u16) && r.message() == "missing worker id"@
            &&& id.len() > 0 && !pending.contains(id) ==> r.code() == Some(403u16) && r.message()
                == "Invalid worker id"@
            &&& id.len() > 0 && pending.contains(id) && active >= max ==> r.code() == Some(503u16)
                && r.message() == "Server is at full capacity. Please try again later."@
            &&& id.len() > 0 && pending.contains(id) && active < max ==> r.code() is None && r
                == ConnectReply::Upgrade && open_after(active, r) == active + 1
            &&& !(id.len() > 0 && pending.contains(id) && active < max) ==> open_after(active, r)
                == active
        }),
        active > 0 ==> one_less(active) == active - 1,
{
}

/// The id is the one that the query gives.
pub proof fn law_id_of_a_query(q: ConnectQuery)
    ensures
        q.id matches Some(id) ==> query_id(q) == id@,
        q.id is None ==> query_id(q).len() == 0,
{
}

/// What a session does: it sends, then waits for the rest of the interval, then
/// sends again; it ends when the client closes while it waits, or when sending
/// or receiving fails, and stays ended.
pub proof fn law_course_of_a_session(
    interval: u64,
    elapsed: u64,
    error: String,
    event: SessionEvent,
)
    ensures
        session_step(SessionPhase::Pushing, interval, SessionEvent::Sent { elapsed }) == (
            SessionPhase::Waiting,
            SessionAction::Wait(
                if elapsed < interval {
                    (interval - elapsed) as u64
                } else {
                    0
                },
            ),
        ),
        session_step(SessionPhase::Waiting, interval, SessionEvent::TimerFired) == (
            SessionPhase::Pushing,
            SessionAction::Push,
        ),
        session_step(SessionPhase::Waiting, interval, SessionEvent::Closed) == (
            SessionPhase::Over,
            SessionAction::Finish { error: None },
        ),
        session_step(SessionPhase::Waiting, interval, SessionEvent::Failed(error)) == (
            SessionPhase::Over,
            SessionAction::Finish { error: Some(error) },
        ),
        session_step(SessionPhase::Pushing, interval, SessionEvent::Failed(error)) == (
            SessionPhase::Over,
            SessionAction::Finish { error: Some(error) },
        ),
        session_step(SessionPhase::Over, interval, event) == (
            SessionPhase::Over,
            SessionAction::Stay,
        ),
        session_step(SessionPhase::Waiting, interval, SessionEvent::Sent { elapsed }) == (
            SessionPhase::Waiting,
            SessionAction::Stay,
        ),
        session_step(SessionPhase::Pushing, interval, SessionEvent::TimerFired) == (
            SessionPhase::Pushing,
            SessionAction::Stay,
        ),
        session_step(SessionPhase::Pushing, interval, SessionEvent::Closed) == (
            SessionPhase::Pushing,
            SessionAction::Stay,
        ),
{
}

} // verus!
