//! Tickets for WebSocket connections.
//!
//! A worker id is handed out by `POST /worker`, can be claimed once, and
//! expires after five seconds if nobody claims it.

use crate::names::NameSet;
use base64::Engine;
use rand::RngCore;
use vstd::prelude::*;

verus! {

/// How many random bytes an id is made of.
pub const TOKEN_BYTES: usize = 32;

/// How many characters an id has.
pub const TOKEN_CHARS: usize = 43;

/// How long an id can be claimed, in seconds.
pub const EXPIRY_SECS: u64 = 5;

/// The character that stands for the six bits `n` in the URL-safe alphabet.
pub open spec fn url_safe_digit(n: int) -> char {
    if n < 26 {
        (n + 'A' as int) as char
    } else if n < 52 {
        (n - 26 + 'a' as int) as char
    } else if n < 62 {
        (n - 52 + '0' as int) as char
    } else if n == 62 {
        '-'
    } else {
        '_'
    }
}

/// The `i`-th group of six bits of `bytes`, the highest bits first. Bits past
/// the end are zero.
pub open spec fn sextet(bytes: Seq<u8>, i: int) -> int {
    let k = 6 * i / 8;
    let next = if k + 1 < bytes.len() {
        bytes[k + 1] as int
    } else {
        0
    };
    let pair = bytes[k] * 256 + next;
    if i % 4 == 0 {
        pair / 1024 % 64
    } else if i % 4 == 1 {
        pair / 16 % 64
    } else if i % 4 == 2 {
        pair / 64 % 64
    } else {
        pair / 256 % 64
    }
}

/// The id that is made of `bytes`.
pub open spec fn token_text(bytes: Seq<u8>) -> Seq<char> {
    Seq::new(TOKEN_CHARS as nat, |i: int| url_safe_digit(sextet(bytes, i)))
}

/// Calls `base64::Engine::encode` of the engine `URL_SAFE_NO_PAD`: one
/// character of the URL-safe alphabet for every six bits, the highest bits
/// first, the last group filled up with zero bits, and no padding.
#[verifier::external_body]
fn encode_token(bytes: &[u8; TOKEN_BYTES]) -> (r: String)
    ensures
        r@ == token_text(bytes@),
{
    base64::engine::general_purpose::URL_SAFE_NO_PAD.encode(bytes)
}

/// Calls `fill_bytes` of `rand::thread_rng`. The bytes are random, so nothing
/// is promised of them. The generator panics when it is first used on a system
/// that has no source of randomness.
#[verifier::external_body]
fn random_token() -> (r: [u8; TOKEN_BYTES]) {
    let mut buf = [0u8; TOKEN_BYTES];
    rand::thread_rng().fill_bytes(&mut buf);
    buf
}

proof fn lemma_digits_differ(a: int, b: int)
    requires
        0 <= a < 64,
        0 <= b < 64,
        url_safe_digit(a) == url_safe_digit(b),
    ensures
        a == b,
{
}

/// How a group of six bits is made up of two bytes.
proof fn lemma_pair(x: int, y: int)
    requires
        0 <= x < 256,
        0 <= y < 256,
    ensures
        (x * 256 + y) / 1024 % 64 == x / 4,
        (x * 256 + y) / 16 % 64 == x % 4 * 16 + y / 16,
        (x * 256 + y) / 64 % 64 == x % 16 * 4 + y / 64,
        (x * 256 + y) / 256 % 64 == x % 64,
{
    let p = x * 256 + y;
    assert(p / 1024 == x / 4);
    assert(p / 16 == x * 16 + y / 16);
    assert((x * 16 + y / 16) % 64 == x % 4 * 16 + y / 16);
    assert(p / 64 == x * 4 + y / 64);
    assert((x * 4 + y / 64) % 64 == x % 16 * 4 + y / 64);
    assert(p / 256 == x);
}

/// The byte after position `k`, or zero.
spec fn after(bytes: Seq<u8>, k: int) -> int {
    if k + 1 < bytes.len() {
        bytes[k + 1] as int
    } else {
        0
    }
}

proof fn lemma_sextet(bytes: Seq<u8>, i: int)
    requires
        0 <= i,
        6 * i / 8 < bytes.len(),
    ensures
        0 <= sextet(bytes, i) < 64,
        ({
            let x = bytes[6 * i / 8] as int;
            let y = after(bytes, 6 * i / 8);
            sextet(bytes, i) == if i % 4 == 0 {
                x / 4
            } else if i % 4 == 1 {
                x % 4 * 16 + y / 16
            } else if i % 4 == 2 {
                x % 16 * 4 + y / 64
            } else {
                x % 64
            }
        }),
{
    lemma_pair(bytes[6 * i / 8] as int, after(bytes, 6 * i / 8));
}

proof fn lemma_same_sextet(a: Seq<u8>, b: Seq<u8>, i: int)
    requires
        a.len() == TOKEN_BYTES,
        b.len() == TOKEN_BYTES,
        token_text(a) == token_text(b),
        0 <= i < TOKEN_CHARS,
    ensures
        sextet(a, i) == sextet(b, i),
{
    lemma_sextet(a, i);
    lemma_sextet(b, i);
    assert(token_text(a)[i] == url_safe_digit(sextet(a, i)));
    assert(token_text(b)[i] == url_safe_digit(sextet(b, i)));
    lemma_digits_differ(sextet(a, i), sextet(b, i));
}

proof fn lemma_same_byte(a: Seq<u8>, b: Seq<u8>, k: int)
    requires
        a.len() == TOKEN_BYTES,
        b.len() == TOKEN_BYTES,
        token_text(a) == token_text(b),
        0 <= k < TOKEN_BYTES,
    ensures
        a[k] == b[k],
{
    let j = k / 3;
    let i = 4 * j + k % 3;
    lemma_same_sextet(a, b, i);
    lemma_same_sextet(a, b, i + 1);
    lemma_sextet(a, i);
    lemma_sextet(b, i);
    lemma_sextet(a, i + 1);
    lemma_sextet(b, i + 1);
    if k % 3 == 0 {
        assert(6 * i / 8 == k && 6 * (i + 1) / 8 == k);
        assert(i % 4 == 0 && (i + 1) % 4 == 1);
    } else if k % 3 == 1 {
        assert(6 * i / 8 == k - 1 && 6 * (i + 1) / 8 == k);
        assert(i % 4 == 1 && (i + 1) % 4 == 2);
    } else {
        assert(6 * i / 8 == k - 1 && 6 * (i + 1) / 8 == k);
        assert(i % 4 == 2 && (i + 1) % 4 == 3);
    }
}

/// Different bytes give different ids.
pub proof fn law_ids_are_faithful(a: Seq<u8>, b: Seq<u8>)
    requires
        a.len() == TOKEN_BYTES,
        b.len() == TOKEN_BYTES,
        token_text(a) == token_text(b),
    ensures
        a == b,
{
    assert forall|k: int| 0 <= k < TOKEN_BYTES implies a[k] == b[k] by {
        lemma_same_byte(a, b, k);
    }
    assert(a =~= b);
}

/// The id that is made of `bytes`.
pub fn id_of(bytes: &[u8; TOKEN_BYTES]) -> (r: String)
    ensures
        r@ == token_text(bytes@),
{
    encode_token(bytes)
}

/// A new id.
pub fn generate_id() -> (r: String)
    ensures
        exists|bytes: [u8; TOKEN_BYTES]| r@ == #[trigger] token_text(bytes@),
{
    let bytes = random_token();
    let id = id_of(&bytes);
    assert(id@ == token_text(bytes@));
    id
}

/// The ids that can be claimed.
pub struct WorkerRegistry {
    pending: NameSet,
}

impl View for WorkerRegistry {
    type V = Set<Seq<char>>;

    closed spec fn view(&self) -> Set<Seq<char>> {
        self.pending@
    }
}

impl WorkerRegistry {
    pub closed spec fn wf(&self) -> bool {
        self.pending.wf()
    }

    pub fn new() -> (r: WorkerRegistry)
        ensures
            r.wf(),
            r@ == Set::<Seq<char>>::empty(),
    {
        WorkerRegistry { pending: NameSet::new() }
    }

    /// Hands out a new id. The caller lets it expire `EXPIRY_SECS` later.
    pub fn issue(&mut self) -> (r: String)
        requires
            old(self).wf(),
        ensures
            final(self).wf(),
            final(self)@ == old(self)@.insert(r@),
            exists|bytes: [u8; TOKEN_BYTES]| r@ == #[trigger] token_text(bytes@),
    {
        self.register(generate_id())
    }

    /// Hands out `id`.
    pub fn register(&mut self, id: String) -> (r: String)
        requires
            old(self).wf(),
        ensures
            final(self).wf(),
            r@ == id@,
            final(self)@ == old(self)@.insert(r@),
    {
        self.pending.insert(id.clone());
        id
    }

    /// Lets an id expire. An id that was claimed is gone already.
    pub fn expire(&mut self, id: &str)
        requires
            old(self).wf(),
        ensures
            final(self).wf(),
            final(self)@ == old(self)@.remove(id@),
    {
        let _was_pending = self.pending.remove(id);
    }

    /// Claims an id and removes it. Says whether it could be claimed.
    pub fn claim(&mut self, id: &str) -> (r: bool)
        requires
            old(self).wf(),
        ensures
            final(self).wf(),
            r == old(self)@.contains(id@),
            final(self)@ == old(self)@.remove(id@),
    {
        self.pending.remove(id)
    }
}

/// What happens to an id.
pub enum WorkerEvent {
    Issued(Seq<char>),
    Claimed(Seq<char>),
    Expired(Seq<char>),
}

impl WorkerEvent {
    pub open spec fn id(self) -> Seq<char> {
        match self {
            WorkerEvent::Issued(id) => id,
            WorkerEvent::Claimed(id) => id,
            WorkerEvent::Expired(id) => id,
        }
    }

    /// The ids that can be claimed after the event.
    pub open spec fn applied(self, pending: Set<Seq<char>>) -> Set<Seq<char>> {
        match self {
            WorkerEvent::Issued(id) => pending.insert(id),
            WorkerEvent::Claimed(id) => pending.remove(id),
            WorkerEvent::Expired(id) => pending.remove(id),
        }
    }
}

/// The ids that can be claimed after `history`, starting with none.
pub open spec fn pending_after(history: Seq<WorkerEvent>) -> Set<Seq<char>>
    decreases history.len(),
{
    if history.len() == 0 {
        Set::empty()
    } else {
        history.last().applied(pending_after(history.drop_last()))
    }
}

/// Whether the last thing that happened to `id`, at position `i`, was that it
/// was handed out.
pub open spec fn fresh_at(history: Seq<WorkerEvent>, id: Seq<char>, i: int) -> bool {
    &&& 0 <= i < history.len()
    &&& history[i] == WorkerEvent::Issued(id)
    &&& forall|j: int| i < j < history.len() ==> (#[trigger] history[j]).id() != id
}

/// An id can be claimed if and only if it was handed out and has been neither
/// claimed nor expired since.
pub proof fn law_claimable_once_and_in_time(history: Seq<WorkerEvent>, id: Seq<char>)
    ensures
        pending_after(history).contains(id) <==> exists|i: int| #[trigger] fresh_at(history, id, i),
    decreases history.len(),
{
    if history.len() > 0 {
        let before = history.drop_last();
        let last = history.len() - 1;
        law_claimable_once_and_in_time(before, id);
        if history[last].id() == id {
            if history[last] is Issued {
                assert(fresh_at(history, id, last));
            }
            assert forall|i: int| #[trigger] fresh_at(history, id, i) implies i == last by {}
        } else {
            assert forall|i: int| #[trigger] fresh_at(history, id, i) implies fresh_at(
                before,
                id,
                i,
            ) by {
                assert forall|j: int| i < j < before.len() implies (#[trigger] before[j]).id()
                    != id by {
                    assert(before[j] == history[j]);
                }
            }
            assert forall|i: int| #[trigger] fresh_at(before, id, i) implies fresh_at(
                history,
                id,
                i,
            ) by {
                assert forall|j: int| i < j < history.len() implies (#[trigger] history[j]).id()
                    != id by {
                    if j < last {
                        assert(before[j] == history[j]);
                    }
                }
            }
        }
    }
}

/// An id is made of thirty-two bytes, has forty-three characters, and all of
/// them can stand in a URL: letters, digits, `-` and `_`. It can be claimed for
/// five seconds.
pub proof fn law_ids_are_url_safe(bytes: Seq<u8>, i: int)
    requires
        bytes.len() == 32,
        0 <= i < 43,
    ensures
        TOKEN_BYTES == 32,
        TOKEN_CHARS == 43,
        EXPIRY_SECS == 5,
        token_text(bytes).len() == 43,
        ({
            let c = token_text(bytes)[i];
            'A' <= c <= 'Z' || 'a' <= c <= 'z' || '0' <= c <= '9' || c == '-' || c == '_'
        }),
{
    lemma_sextet(bytes, i);
}

} // verus!
