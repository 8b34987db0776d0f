//! Replies to HTTP requests.

use crate::sampler::CachedJson;
use crate::server::worker::{token_text, WorkerRegistry, TOKEN_BYTES};
use crate::text::text_of;
use vstd::prelude::*;

verus! {

/// A reply.
pub enum Reply {
    /// Success, with a body of the given media type.
    Content { media_type: String, body: Vec<u8> },
    /// A status with a text.
    Message { status: u16, text: String },
}

/// The files that are built into the program.
#[derive(Clone, Copy, PartialEq, Eq, Structural)]
pub enum Asset {
    Index,
    Favicon,
}

impl Asset {
    /// The name under which the file is built in.
    pub open spec fn file_name(self) -> Seq<char> {
        match self {
            Asset::Index => "web.html"@,
            Asset::Favicon => "favicon.ico"@,
        }
    }

    /// What is said where the file is missing.
    pub open spec fn missing_text(self) -> Seq<char> {
        match self {
            Asset::Index => "index missing"@,
            Asset::Favicon => "no favicon"@,
        }
    }

    /// The name under which the file is built in.
    pub fn path(&self) -> (r: &'static str)
        ensures
            r@ == self.file_name(),
    {
        match self {
            Asset::Index => "web.html",
            Asset::Favicon => "favicon.ico",
        }
    }
}

/// The media type that `mime_guess` gives a file of that name.
pub uninterp spec fn media_type_of(path: Seq<char>) -> Seq<char>;

/// Calls `mime_guess::from_path` and `first_or_octet_stream`: the media type
/// that the crate's table lists first for the extension of `path`. A name with
/// a backslash or a colon is left out: what its extension is depends on the
/// platform.
#[verifier::external_body]
fn guess_media_type(path: &str) -> (r: String)
    requires
        !path@.contains('\\'),
        !path@.contains(':'),
    ensures
        r@ == media_type_of(path@),
{
    mime_guess::from_path(path).first_or_octet_stream().to_string()
}

/// Whether `reply` serves a file with this media type and content, or reports
/// that it is missing.
pub open spec fn serves(
    reply: Reply,
    asset: Asset,
    media: Seq<char>,
    data: Option<Vec<u8>>,
) -> bool {
    match data {
        Some(bytes) => reply matches Reply::Content { media_type, body } && media_type@ == media
            && body == bytes,
        None => reply matches Reply::Message { status, text } && status == 404 && text@
            == asset.missing_text(),
    }
}

/// Serves a built-in file with the given media type.
pub fn asset_reply(asset: Asset, media_type: String, data: Option<Vec<u8>>) -> (r: Reply)
    ensures
        serves(r, asset, media_type@, data),
{
    match data {
        Some(body) => Reply::Content { media_type, body },
        None => Reply::Message {
            status: 404,
            text: match asset {
                Asset::Index => "index missing".to_owned(),
                Asset::Favicon => "no favicon".to_owned(),
            },
        },
    }
}

/// Serves a built-in file, where it is there.
pub fn serve_asset(asset: Asset, data: Option<Vec<u8>>) -> (r: Reply)
    ensures
        serves(r, asset, media_type_of(asset.file_name()), data),
{
    proof {
        reveal_strlit("web.html");
        reveal_strlit("favicon.ico");
        assert(forall|i: int|
            0 <= i < asset.file_name().len() ==> asset.file_name()[i] != '\\'
                && asset.file_name()[i] != ':');
    }
    asset_reply(asset, guess_media_type(asset.path()), data)
}

/// Serves the dashboard.
pub fn serve_index(data: Option<Vec<u8>>) -> (r: Reply)
    ensures
        serves(r, Asset::Index, media_type_of("web.html"@), data),
{
    serve_asset(Asset::Index, data)
}

/// Serves the icon.
pub fn serve_favicon(data: Option<Vec<u8>>) -> (r: Reply)
    ensures
        serves(r, Asset::Favicon, media_type_of("favicon.ico"@), data),
{
    serve_asset(Asset::Favicon, data)
}

/// The status of the answer to a preflight request.
pub fn preflight() -> (r: u16)
    ensures
        r == 204,
{
    204
}

/// The answer to `POST /worker`.
pub struct WorkerResponse {
    pub id: Option<String>,
    pub url: Option<String>,
    pub message: String,
}

/// The address at which `id` can be claimed at `host`; none without a host.
pub open spec fn connect_url(host: Seq<char>, id: Seq<char>) -> Option<Seq<char>> {
    if host.len() == 0 {
        None
    } else {
        Some("ws://"@ + host + "/connect?id="@ + id)
    }
}

/// The name of the host, empty where it is not known.
pub open spec fn host_text(host: Option<&str>) -> Seq<char> {
    match host {
        Some(h) => h@,
        None => Seq::empty(),
    }
}

impl WorkerResponse {
    /// Whether this hands out `id` to a client that reached us as `host`.
    pub open spec fn hands_out(self, id: Seq<char>, host: Seq<char>) -> bool {
        &&& text_of(self.id) == Some(id)
        &&& text_of(self.url) == connect_url(host, id)
        &&& self.message@
            == "Websocket connection ready (Worker expires in 5 seconds if unclaimed)."@
    }
}

fn worker_url(host: &str, id: &str) -> (r: Option<String>)
    ensures
        text_of(r) == connect_url(host@, id@),
{
    if host.is_empty() {
        return None;
    }
    let mut url = "ws://".to_owned();
    url.append(host);
    url.append("/connect?id=");
    url.append(id);
    Some(url)
}

/// The answer that hands out `id`.
pub fn worker_response(id: String, host: Option<&str>) -> (r: WorkerResponse)
    ensures
        r.hands_out(id@, host_text(host)),
{
    let url = match host {
        Some(h) => worker_url(h, id.as_str()),
        None => None,
    };
    WorkerResponse {
        id: Some(id),
        url,
        message: "Websocket connection ready (Worker expires in 5 seconds if unclaimed).".to_owned(),
    }
}

/// Hands out a new id, by the `Host` header of the request.
pub fn create_worker(workers: &mut WorkerRegistry, host: Option<&str>) -> (r: WorkerResponse)
    requires
        old(workers).wf(),
    ensures
        final(workers).wf(),
        exists|bytes: [u8; TOKEN_BYTES]| handed_out(r, bytes, host_text(host)),
        text_of(r.id) is Some,
        final(workers)@ == old(workers)@.insert(text_of(r.id)->0),
{
    let id = workers.issue();
    let ghost given = id@;
    proof {
        let bytes = choose|bytes: [u8; TOKEN_BYTES]| given == #[trigger] token_text(bytes@);
        assert forall|r: WorkerResponse| #[trigger]
            r.hands_out(given, host_text(host)) implies handed_out(r, bytes, host_text(host)) by {}
    }
    worker_response(id, host)
}

/// Whether `r` hands out the id that is made of `bytes`.
pub open spec fn handed_out(
    r: WorkerResponse,
    bytes: [u8; TOKEN_BYTES],
    host: Seq<char>,
) -> bool {
    r.hands_out(token_text(bytes@), host)
}

/// Replies with bytes that are JSON already.
pub fn raw_json(bytes: Vec<u8>) -> (r: Reply)
    ensures
        r matches Reply::Content { media_type, body } && media_type@ == "application/json"@
            && body == bytes,
{
    Reply::Content { media_type: "application/json".to_owned(), body: bytes }
}

/// Replies to `GET /system` with what was published last.
pub fn system(json: &CachedJson) -> (r: Reply)
    ensures
        r matches Reply::Content { media_type, body } && media_type@ == "application/json"@
            && body@ == json.http_system@,
{
    let bytes = json.http_system.clone();
    assert(bytes@ =~= json.http_system@);
    raw_json(bytes)
}

/// Replies to `GET /network` with what was published last.
pub fn network(json: &CachedJson) -> (r: Reply)
    ensures
        r matches Reply::Content { media_type, body } && media_type@ == "application/json"@
            && body@ == json.network@,
{
    let bytes = json.network.clone();
    assert(bytes@ =~= json.network@);
    raw_json(bytes)
}

/// Replies with a value that was serialized as JSON, or says why it could not
/// be.
pub fn json_response(serialized: Result<Vec<u8>, String>) -> (r: Reply)
    ensures
        match serialized {
            Ok(bytes) => r matches Reply::Content { media_type, body } && media_type@
                == "application/json"@ && body == bytes,
            Err(e) => r == (Reply::Message { status: 500, text: e }),
        },
{
    match serialized {
        Ok(bytes) => raw_json(bytes),
        Err(text) => Reply::Message { status: 500, text },
    }
}

/// A worker can be claimed over `ws://` at the host that was asked for, by its
/// id; without a host no address is given.
pub proof fn law_worker_address(r: WorkerResponse, id: Seq<char>, host: Seq<char>)
    requires
        r.hands_out(id, host),
    ensures
        r.id matches Some(given) && given@ == id,
        host.len() == 0 ==> r.url is None,
        host.len() > 0 ==> (r.url matches Some(url) && url@ == "ws://"@ + host + "/connect?id="@
            + id),
        r.message@ == "Websocket connection ready (Worker expires in 5 seconds if unclaimed)."@,
{
}

/// The dashboard is `web.html` and the icon is `favicon.ico`; a file that is
/// there is served whole with its media type, and a missing one is answered
/// with status 404.
pub proof fn law_built_in_files(
    reply: Reply,
    asset: Asset,
    media: Seq<char>,
    data: Option<Vec<u8>>,
)
    requires
        serves(reply, asset, media, data),
    ensures
        Asset::Index.file_name() == "web.html"@,
        Asset::Favicon.file_name() == "favicon.ico"@,
        data matches Some(bytes) ==> (reply matches Reply::Content { media_type, body }
            && media_type@ == media && body@ == bytes@),
        data is None && asset == Asset::Index ==> (reply matches Reply::Message { status, text }
            && status == 404 && text@ == "index missing"@),
        data is None && asset == Asset::Favicon ==> (reply matches Reply::Message { status, text }
            && status == 404 && text@ == "no favicon"@),
{
}

/// The host is what the header says, and empty where there is none.
pub proof fn law_host_of_a_request(host: Option<&str>)
    ensures
        host matches Some(h) ==> host_text(host) == h@,
        host is None ==> host_text(host) == Seq::<char>::empty(),
{
}

} // verus!
