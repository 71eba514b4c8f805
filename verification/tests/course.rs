use janus::cache::CachedResponse;
use janus::config::PipelineConfig;
use janus::json::Json;
use janus::metrics::{CacheStatus, ToolCallStatus};
use janus::pipeline::Compiled;
use janus::proxy::{
    answer_from_cache, compress_in_session, compress_request, describe_request, extract_user_text, forward_headers,
    health_json, messages_url, read_request, response_of_stream, session_id_of, Action,
    CacheSettings, Exchange, Input, Outcome, Request,
};
use janus::session::SessionStore;
use janus::stream_reassemble::json_to_sse;
use janus::tokenizer::Tokenizer;

const ON: CacheSettings = CacheSettings { enabled: true, has_cache: true, has_embedder: true };
const AWAY: CacheSettings = CacheSettings { enabled: true, has_cache: false, has_embedder: true };

fn parse(s: &str) -> Json {
    Json::parse(s.as_bytes()).unwrap()
}

fn request(streaming: bool) -> Request {
    let body = if streaming {
        "{\"stream\":true,\"model\":\"m\",\"messages\":[{\"role\":\"user\",\"content\":\"hi\"}]}"
    } else {
        "{\"messages\":[{\"role\":\"user\",\"content\":\"hi\"}]}"
    };
    describe_request(parse(body), 10, true)
}

fn outcome() -> Outcome {
    Outcome { tokens_after: 4, events: vec![], tool_calls: vec![], pipeline_millis: 3 }
}

fn cached(body: &str) -> Option<CachedResponse> {
    Some(CachedResponse {
        response_body: body.as_bytes().to_vec(),
        model: "m".to_string(),
        tokens_saved: 1,
        similarity_bits: 9,
    })
}

#[test]
fn requests_are_described() {
    let r = request(true);
    assert!(r.streaming);
    assert_eq!((r.model.as_str(), r.user_text.as_str(), r.tokens_before), ("m", "hi", 10));
    let r = request(false);
    assert!(!r.streaming);
    assert_eq!(r.model, "unknown");
    let r = describe_request(parse("{\"stream\":\"yes\",\"messages\":[{\"role\":\"user\",\"content\":\"hi\"}]}"), 1, false);
    assert!(!r.streaming);
    assert_eq!(r.user_text, "");
    assert_eq!(extract_user_text(&parse("{\"messages\":[{\"role\":\"user\",\"content\":\"a\"}]}")), "a");
}

#[test]
fn bodies_that_are_no_json_are_refused() {
    let t = Tokenizer::new();
    assert!(matches!(read_request(b"{", true, &t), Err(400)));
    let r = read_request(b"{\"messages\":[{\"role\":\"user\",\"content\":\"hello world\"}]}", true, &t);
    match r {
        Ok(q) => assert_eq!((q.tokens_before, q.user_text.as_str()), (2, "hello world")),
        Err(_) => panic!("refused"),
    }
}

#[test]
fn sessions_urls_headers_and_health() {
    assert_eq!(session_id_of(&parse("{}")), "default");
    assert_eq!(
        session_id_of(&parse("{\"messages\":[{\"role\":\"user\",\"content\":\"x\"}]}")),
        format!("{:016x}", xxhash_rust::xxh3::xxh3_64(b"x"))
    );
    assert_eq!(messages_url("https://h"), "https://h/v1/messages");
    assert_eq!(
        forward_headers(),
        vec!["authorization", "x-api-key", "anthropic-version", "content-type", "anthropic-beta", "accept"]
    );
    assert_eq!(
        health_json(5, "0.1.0"),
        "{\"status\":\"healthy\",\"uptime\":5,\"version\":\"0.1.0\"}"
    );
}

#[test]
fn a_cache_hit_is_answered_at_once() {
    let (mut x, step) = Exchange::begin(request(false), ON);
    assert!(matches!(step.action, Action::Embed));
    assert!(matches!(x.step(Input::Embedded(true)).action, Action::LookUp));
    let step = x.step(Input::LookedUp(cached("{\"a\":1}")));
    match step.action {
        Action::Reply(a) => {
            assert_eq!((a.status, a.from_cache), (200, true));
            assert_eq!(a.body, b"{\"a\":1}".to_vec());
            assert_eq!(a.content_type.as_deref(), Some("application/json"));
        }
        _ => panic!("no reply"),
    }
    let u = step.update.unwrap();
    assert_eq!((u.tokens_original, u.tokens_compressed), (10, 0));
    assert_eq!(u.cache_status, CacheStatus::Hit { similarity_bits: 9 });
    assert!(matches!(x.step(Input::Stored).action, Action::Nothing));
}

#[test]
fn a_streaming_client_gets_a_stream_from_the_cache() {
    let m = b"{\"content\":[]}";
    let a = answer_from_cache(m.to_vec(), true);
    assert_eq!(a.content_type.as_deref(), Some("text/event-stream"));
    assert_eq!(Some(a.body), json_to_sse(m));
    let a = answer_from_cache(b"[]".to_vec(), true);
    assert_eq!(a.content_type.as_deref(), Some("application/json"));
    assert_eq!(a.body, b"[]".to_vec());
}

#[test]
fn cache_trouble_does_not_stop_a_request() {
    let (mut x, _) = Exchange::begin(request(false), ON);
    assert!(matches!(x.step(Input::Embedded(false)).action, Action::Compress));
    let (mut x, _) = Exchange::begin(request(false), ON);
    x.step(Input::Embedded(true));
    assert!(matches!(x.step(Input::LookedUp(None)).action, Action::Compress));
    let (_, step) = Exchange::begin(request(false), AWAY);
    assert!(matches!(step.action, Action::Compress));
}

fn forwarded(streaming: bool, settings: CacheSettings) -> Exchange {
    let (mut x, step) = Exchange::begin(request(streaming), settings);
    if matches!(step.action, Action::Embed) {
        x.step(Input::Embedded(true));
        x.step(Input::LookedUp(None));
    }
    assert!(matches!(x.step(Input::Compressed(outcome())).action, Action::Forward));
    x
}

#[test]
fn an_unreachable_server_is_a_bad_gateway() {
    let mut x = forwarded(false, ON);
    assert!(matches!(x.step(Input::Unreachable).action, Action::Refuse(502)));
    let mut x = forwarded(false, ON);
    x.step(Input::Answered { status: 200, millis: 1 });
    assert!(matches!(x.step(Input::Read(None)).action, Action::Refuse(502)));
}

#[test]
fn a_good_response_is_stored_and_passed_on() {
    let mut x = forwarded(false, ON);
    assert!(matches!(x.step(Input::Answered { status: 200, millis: 7 }).action, Action::ReadBody));
    assert!(matches!(x.step(Input::Read(Some(b"r".to_vec()))).action, Action::Embed));
    match x.step(Input::Embedded(true)).action {
        Action::Store { body, tokens_saved } => assert_eq!((body, tokens_saved), (b"r".to_vec(), 6)),
        _ => panic!("not stored"),
    }
    let step = x.step(Input::Stored);
    match step.action {
        Action::Reply(a) => assert_eq!((a.status, a.body, a.from_cache), (200, b"r".to_vec(), false)),
        _ => panic!("no reply"),
    }
    let u = step.update.unwrap();
    assert_eq!(u.cache_status, CacheStatus::Miss);
    assert_eq!((u.tokens_compressed, u.pipeline_millis, u.upstream_millis), (4, 3, Some(7)));
    assert!(u.error_status.is_none());
}

#[test]
fn errors_of_the_server_are_passed_on_and_told() {
    let mut x = forwarded(false, ON);
    x.step(Input::Answered { status: 429, millis: 7 });
    let step = x.step(Input::Read(Some(b"slow down".to_vec())));
    match step.action {
        Action::Reply(a) => assert_eq!((a.status, a.body), (429, b"slow down".to_vec())),
        _ => panic!("no reply"),
    }
    let u = step.update.unwrap();
    assert_eq!(u.cache_status, CacheStatus::Skipped);
    assert_eq!(u.error_status, Some((429, "Upstream returned 429".to_string())));
}

#[test]
fn an_embedding_that_fails_leaves_the_response_unstored() {
    let mut x = forwarded(false, ON);
    x.step(Input::Answered { status: 200, millis: 7 });
    x.step(Input::Read(Some(b"r".to_vec())));
    let step = x.step(Input::Embedded(false));
    assert!(matches!(step.action, Action::Reply(_)));
    assert_eq!(step.update.unwrap().cache_status, CacheStatus::Skipped);
}

#[test]
fn streams_are_relayed_and_kept() {
    let mut x = forwarded(true, ON);
    let step = x.step(Input::Answered { status: 200, millis: 7 });
    assert!(matches!(step.action, Action::Relay { status: 200, keep: true }));
    assert_eq!(step.update.unwrap().cache_status, CacheStatus::Miss);
    let m = "{\"content\":[{\"text\":\"t\",\"type\":\"text\"}],\"stop_reason\":null,\"stop_sequence\":null}";
    let kept = json_to_sse(m.as_bytes()).unwrap();
    assert_eq!(response_of_stream(&kept), Some(m.as_bytes().to_vec()));
    assert!(matches!(x.step(Input::Ended(Some(kept))).action, Action::Embed));
    match x.step(Input::Embedded(true)).action {
        Action::Store { body, tokens_saved } => {
            assert_eq!((String::from_utf8(body).unwrap().as_str(), tokens_saved), (m, 6))
        }
        _ => panic!("not stored"),
    }
}

#[test]
fn streams_that_cannot_be_stored_are_only_relayed() {
    let mut x = forwarded(true, ON);
    let step = x.step(Input::Answered { status: 500, millis: 7 });
    assert!(matches!(step.action, Action::Relay { status: 500, keep: false }));
    let mut x = forwarded(true, AWAY);
    let step = x.step(Input::Answered { status: 200, millis: 7 });
    assert!(matches!(step.action, Action::Relay { status: 200, keep: false }));
    assert_eq!(step.update.unwrap().cache_status, CacheStatus::Skipped);
    for kept in [None, Some(b"data: {}\n".to_vec()), Some(vec![0xff])] {
        let mut x = forwarded(true, ON);
        x.step(Input::Answered { status: 200, millis: 7 });
        assert!(matches!(x.step(Input::Ended(kept)).action, Action::Nothing));
    }
}

#[test]
fn requests_are_compressed_before_they_are_sent() {
    let t = Tokenizer::new();
    let mut body = parse("{\"messages\":[{\"content\":\"x = 1  # a long winded remark about x\",\"role\":\"user\"}]}");
    let r = compress_request(
        &mut body,
        &t,
        &PipelineConfig::default(),
        None,
        &Compiled::new().unwrap(),
    );
    match r {
        Ok(c) => {
            let sent = "{\"messages\":[{\"content\":\"x = 1\",\"role\":\"user\"}]}";
            assert_eq!(String::from_utf8(c.bytes).unwrap(), sent);
            assert_eq!(c.tokens_after, t.count_tokens("x = 1").unwrap());
            assert_eq!(c.result.events.len(), 1);
        }
        Err(_) => panic!("refused"),
    }
}

#[test]
fn requests_of_a_session_share_what_it_has_seen() {
    let t = Tokenizer::new();
    let compiled = Compiled::new().unwrap();
    let config = PipelineConfig { regex_structural: false, ast_pruning: false, ..PipelineConfig::default() };
    let mut store = SessionStore::new();
    let mut send = |store: &mut SessionStore, id: &str, now: u128| {
        let mut body = parse(&format!("{{\"messages\":[{{\"role\":\"user\",\"content\":[{{\"type\":\"tool_result\",\"tool_use_id\":\"{}\",\"content\":\"one two three\"}}]}}]}}", now));
        match compress_in_session(store, id, now, &mut body, &t, &config, &compiled) {
            Ok(c) => c.result.tool_calls[0].status,
            Err(_) => panic!("refused"),
        }
    };
    assert_eq!(send(&mut store, "a", 1), ToolCallStatus::Kept);
    assert_eq!(store.len(), 1);
    assert_eq!(send(&mut store, "a", 2), ToolCallStatus::Deduped);
    assert_eq!(send(&mut store, "b", 3), ToolCallStatus::Kept);
    assert_eq!(store.len(), 2);
    // Eviction goes by the last access.
    store.evict_stale_sessions(3_600_000_000_002);
    assert_eq!(store.len(), 1);
    assert_eq!(send(&mut store, "b", 3_600_000_000_003), ToolCallStatus::Deduped);
}
