use vigil_collector::binary64::Real;
use vigil_collector::config::Probe;
use vigil_collector::sampler::CachedJson;
use vigil_collector::server::http::{
    asset_reply, create_worker, json_response, network, preflight, raw_json, serve_favicon,
    serve_index, system, worker_response, Asset, Reply,
};
use vigil_collector::server::probes::{
    effective_timeout, probe_one, retry_with_get, run, run_without_client, Check, ProbeReply,
};
use vigil_collector::server::worker::{generate_id, id_of, WorkerRegistry};
use vigil_collector::server::ws::{
    connect, next_step, ConnectQuery, ConnectReply, SessionAction, SessionEvent, SessionPhase,
    Sessions,
};

#[test]
fn ids_are_url_safe_base64() {
    assert_eq!(id_of(&[0; 32]), "A".repeat(43));
    assert_eq!(id_of(&[255; 32]), format!("{}8", "_".repeat(42)));
    let mut bytes = [0u8; 32];
    for i in 0..32 {
        bytes[i] = i as u8;
    }
    assert_eq!(id_of(&bytes), "AAECAwQFBgcICQoLDA0ODxAREhMUFRYXGBkaGxwdHh8");
    bytes[0] = 0xfb;
    bytes[1] = 0xef;
    bytes[2] = 0xbe;
    assert_eq!(&id_of(&bytes)[0..4], "----");
}

#[test]
fn ids_tell_bytes_apart() {
    for k in 0..32 {
        let mut bytes = [7u8; 32];
        bytes[k] = 8;
        assert_ne!(id_of(&bytes), id_of(&[7; 32]));
    }
}

#[test]
fn generated_ids_are_random() {
    let a = generate_id();
    let b = generate_id();
    assert_eq!(a.len(), 43);
    assert_ne!(a, b);
    assert!(a.chars().all(|c| c.is_ascii_alphanumeric() || c == '-' || c == '_'));
}

#[test]
fn a_worker_is_single_use() {
    let mut w = WorkerRegistry::new();
    let id = w.issue();
    assert!(w.claim(&id));
    assert!(!w.claim(&id));
    assert!(!w.claim("nope"));
}

#[test]
fn an_expired_worker_cannot_be_claimed() {
    let mut w = WorkerRegistry::new();
    let a = w.issue();
    let b = w.issue();
    w.expire(&a);
    assert!(!w.claim(&a));
    assert!(w.claim(&b));
    w.expire(&b);
    assert!(!w.claim(&b));
}

#[test]
fn registering_again_renews_a_worker() {
    let mut w = WorkerRegistry::new();
    assert_eq!(w.register("x".to_string()), "x");
    assert!(w.claim("x"));
    w.register("x".to_string());
    w.register("x".to_string());
    assert!(w.claim("x"));
    assert!(!w.claim("x"));
}

#[test]
fn worker_response_builds_the_url() {
    let r = worker_response("abc".to_string(), Some("localhost:4500"));
    assert_eq!(r.id.as_deref(), Some("abc"));
    assert_eq!(r.url.as_deref(), Some("ws://localhost:4500/connect?id=abc"));
    assert_eq!(
        r.message,
        "Websocket connection ready (Worker expires in 5 seconds if unclaimed)."
    );
    assert!(worker_response("abc".to_string(), Some("")).url.is_none());
    assert!(worker_response("abc".to_string(), None).url.is_none());
}

#[test]
fn created_workers_can_connect_once() {
    let mut w = WorkerRegistry::new();
    let r = create_worker(&mut w, Some("h"));
    let id = r.id.unwrap();
    assert_eq!(r.url.unwrap(), format!("ws://h/connect?id={id}"));
    let query = || ConnectQuery { id: Some(id.clone()) };
    let mut s = Sessions::new();
    assert!(connect(&mut w, &mut s, query(), 20) == ConnectReply::Upgrade);
    assert_eq!(s.active(), 1);
    assert!(connect(&mut w, &mut s, query(), 20) == ConnectReply::InvalidId);
    assert_eq!(s.active(), 1);
}

fn ask(w: &mut WorkerRegistry, s: &mut Sessions, id: &str, max: usize) -> ConnectReply {
    connect(w, s, ConnectQuery { id: Some(id.to_string()) }, max)
}

#[test]
fn connect_refuses_in_order() {
    let mut w = WorkerRegistry::new();
    let mut s = Sessions::new();
    w.register("first".to_string());
    assert!(ask(&mut w, &mut s, "first", 1) == ConnectReply::Upgrade);
    let missing = connect(&mut w, &mut s, ConnectQuery { id: None }, 1);
    assert_eq!((missing.status(), missing.text()), (Some(400), "missing worker id"));
    assert!(ask(&mut w, &mut s, "", 1) == ConnectReply::MissingId);
    let invalid = ask(&mut w, &mut s, "x", 1);
    assert_eq!((invalid.status(), invalid.text()), (Some(403), "Invalid worker id"));
    w.register("x".to_string());
    let full = ask(&mut w, &mut s, "x", 1);
    assert_eq!(
        (full.status(), full.text()),
        (Some(503), "Server is at full capacity. Please try again later.")
    );
    assert!(!w.claim("x"));
    w.register("y".to_string());
    let ok = ask(&mut w, &mut s, "y", 2);
    assert!(ok == ConnectReply::Upgrade);
    assert_eq!((ok.status(), ok.text()), (None, ""));
}

#[test]
fn sessions_stay_within_the_limit() {
    let mut w = WorkerRegistry::new();
    let mut s = Sessions::new();
    for i in 0..10 {
        let id = w.register(format!("id{i}"));
        let reply = ask(&mut w, &mut s, &id, 3);
        assert_eq!(reply == ConnectReply::Upgrade, i < 3);
        assert!(s.active() <= 3);
    }
    s.end();
    assert_eq!(s.active(), 2);
    w.register("late".to_string());
    assert!(ask(&mut w, &mut s, "late", 3) == ConnectReply::Upgrade);
    assert_eq!(s.active(), 3);
}

#[test]
fn a_session_keeps_its_pace() {
    let (phase, action) = next_step(SessionPhase::Pushing, 1000, SessionEvent::Sent { elapsed: 300 });
    assert!(phase == SessionPhase::Waiting);
    assert!(matches!(action, SessionAction::Wait(700)));
    let (_, late) = next_step(SessionPhase::Pushing, 1000, SessionEvent::Sent { elapsed: 1500 });
    assert!(matches!(late, SessionAction::Wait(0)));
    let (again, push) = next_step(phase, 1000, SessionEvent::TimerFired);
    assert!(again == SessionPhase::Pushing);
    assert!(matches!(push, SessionAction::Push));
}

#[test]
fn a_session_ends_on_close_or_failure() {
    let (same, stay) = next_step(SessionPhase::Waiting, 1, SessionEvent::Frame);
    assert!(same == SessionPhase::Waiting);
    assert!(matches!(stay, SessionAction::Stay));
    let (over, done) = next_step(SessionPhase::Waiting, 1, SessionEvent::Closed);
    assert!(over == SessionPhase::Over);
    assert!(matches!(done, SessionAction::Finish { error: None }));
    for phase in [SessionPhase::Waiting, SessionPhase::Pushing] {
        match next_step(phase, 1, SessionEvent::Failed("reset".to_string())) {
            (SessionPhase::Over, SessionAction::Finish { error: Some(e) }) => assert_eq!(e, "reset"),
            _ => panic!("not over"),
        }
    }
    let (still, nothing) = next_step(SessionPhase::Over, 1, SessionEvent::TimerFired);
    assert!(still == SessionPhase::Over);
    assert!(matches!(nothing, SessionAction::Stay));
}

#[test]
fn assets_are_served_with_their_media_type() {
    match serve_index(Some(vec![1, 2])) {
        Reply::Content { media_type, body } => {
            assert_eq!(media_type, "text/html");
            assert_eq!(body, vec![1, 2]);
        }
        _ => panic!("no content"),
    }
    match serve_favicon(Some(vec![3])) {
        Reply::Content { media_type, .. } => assert_eq!(media_type, "image/x-icon"),
        _ => panic!("no content"),
    }
}

#[test]
fn missing_assets_are_not_found() {
    match serve_index(None) {
        Reply::Message { status, text } => assert_eq!((status, text.as_str()), (404, "index missing")),
        _ => panic!("content"),
    }
    match serve_favicon(None) {
        Reply::Message { status, text } => assert_eq!((status, text.as_str()), (404, "no favicon")),
        _ => panic!("content"),
    }
    match asset_reply(Asset::Index, "a/b".to_string(), Some(vec![9])) {
        Reply::Content { media_type, body } => assert_eq!((media_type.as_str(), body), ("a/b", vec![9])),
        _ => panic!("no content"),
    }
    assert_eq!(Asset::Index.path(), "web.html");
    assert_eq!(Asset::Favicon.path(), "favicon.ico");
    assert_eq!(preflight(), 204);
}

#[test]
fn json_replies_carry_their_bytes() {
    match raw_json(b"{}".to_vec()) {
        Reply::Content { media_type, body } => {
            assert_eq!((media_type.as_str(), body), ("application/json", b"{}".to_vec()))
        }
        _ => panic!("no content"),
    }
    match json_response(Ok(b"[1]".to_vec())) {
        Reply::Content { body, .. } => assert_eq!(body, b"[1]".to_vec()),
        _ => panic!("no content"),
    }
    match json_response(Err("broken".to_string())) {
        Reply::Message { status, text } => assert_eq!((status, text.as_str()), (500, "broken")),
        _ => panic!("content"),
    }
}

#[test]
fn requests_are_answered_from_the_published_bytes() {
    let json = CachedJson::new().publish(
        Some(b"\"http\"".to_vec()),
        Some(b"\"ws\"".to_vec()),
        Some(b"\"net\"".to_vec()),
    );
    match (system(&json), network(&json)) {
        (Reply::Content { body: a, .. }, Reply::Content { body: b, .. }) => {
            assert_eq!((a, b), (b"\"http\"".to_vec(), b"\"net\"".to_vec()))
        }
        _ => panic!("no content"),
    }
}

fn probe(name: &str) -> Probe {
    Probe { name: name.to_string(), url: format!("https://{name}") }
}

#[test]
fn head_denied_is_retried_with_get() {
    assert!(retry_with_get(&ProbeReply::Status(405)));
    assert!(!retry_with_get(&ProbeReply::Status(404)));
    assert!(!retry_with_get(&ProbeReply::Failed { status: Some(405), error: String::new() }));
    let r = probe_one(
        probe("a"),
        Check { head: ProbeReply::Status(405), get: Some(ProbeReply::Status(200)), latency_ms: 12 },
    );
    assert!(r.ok);
    assert_eq!((r.status_code, r.latency_ms), (Some(200), 12));
    assert_eq!((r.name.as_str(), r.url.as_str()), ("a", "https://a"));
    assert!(r.error.is_none());
}

#[test]
fn success_and_redirects_are_healthy() {
    for (code, ok) in [(199, false), (200, true), (301, true), (399, true), (400, false), (500, false)] {
        let r = probe_one(probe("a"), Check { head: ProbeReply::Status(code), get: None, latency_ms: 1 });
        assert_eq!(r.ok, ok);
        assert_eq!(r.status_code, Some(code));
    }
    let failed = ProbeReply::Failed { status: None, error: "timed out".to_string() };
    let r = probe_one(probe("a"), Check { head: failed, get: None, latency_ms: 5000 });
    assert!(!r.ok);
    assert_eq!((r.status_code, r.error.as_deref()), (None, Some("timed out")));
}

#[test]
fn outcomes_keep_the_order_of_the_targets() {
    let checks = vec![
        Check { head: ProbeReply::Status(204), get: None, latency_ms: 1 },
        Check { head: ProbeReply::Status(503), get: None, latency_ms: 2 },
    ];
    let r = run(vec![probe("a"), probe("b")], checks);
    assert_eq!(r.probes.len(), 2);
    assert_eq!((r.probes[0].name.as_str(), r.probes[0].ok), ("a", true));
    assert_eq!((r.probes[1].name.as_str(), r.probes[1].ok), ("b", false));
    assert!(run(Vec::new(), Vec::new()).probes.is_empty());
}

#[test]
fn without_a_client_no_target_is_checked() {
    let r = run_without_client(&vec![probe("a"), probe("b")], "no tls");
    assert_eq!(r.probes.len(), 2);
    assert_eq!(r.probes[1].name, "b");
    assert_eq!(r.probes[1].error.as_deref(), Some("client build failed: no tls"));
    assert!(!r.probes[0].ok);
    assert_eq!((r.probes[0].status_code, r.probes[0].latency_ms), (None, 0));
}

#[test]
fn probe_timeouts_have_a_floor() {
    let secs = |x: f64| f64::from_bits(effective_timeout(Real::from_bits(x.to_bits())).bits);
    assert_eq!(secs(5.0), 5.0);
    assert_eq!(secs(0.0), 0.1);
    assert_eq!(secs(-1.0), 0.1);
    assert_eq!(secs(f64::NAN), 0.1);
}
