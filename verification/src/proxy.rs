//! The course of a request through the proxy: what is done next, and what is
//! answered.
use vstd::prelude::*;
use vstd::string::*;
use vstd::utf8::*;

use crate::cache::{CachedResponse, CachedView};
use crate::config::PipelineConfig;
use crate::json;
use crate::json::{Json, JsonView};
use crate::metrics;
use crate::metrics::{CacheStatus, CompressionEvent, EventView, ToolCallInfo, ToolCallView};
use crate::pipeline;
use crate::pipeline::{Compiled, PipelineResult};
use crate::session;
use crate::session::{SessionData, SessionStore, SessionView};
use crate::stream_reassemble;
use crate::text;
use crate::tokenizer;
use crate::tokenizer::Tokenizer;
use crate::tui::{ProxyUpdate, UpdateView};

verus! {

pub const OK: u16 = 200;

pub const BAD_REQUEST: u16 = 400;

pub const INTERNAL_SERVER_ERROR: u16 = 500;

pub const BAD_GATEWAY: u16 = 502;

/// The headers of a request that are forwarded.
pub open spec fn forwarded_headers() -> Seq<Seq<char>> {
    seq![
        "authorization"@,
        "x-api-key"@,
        "anthropic-version"@,
        "content-type"@,
        "anthropic-beta"@,
        "accept"@,
    ]
}

/// The headers of a request that are forwarded.
pub fn forward_headers() -> (r: Vec<&'static str>)
    ensures
        r@.map_values(|s: &'static str| s@) == forwarded_headers(),
{
    let r = vec![
        "authorization",
        "x-api-key",
        "anthropic-version",
        "content-type",
        "anthropic-beta",
        "accept",
    ];
    assert(r@.map_values(|s: &'static str| s@) =~= forwarded_headers());
    r
}

/// The address of the Messages API of a server.
pub open spec fn messages_address(upstream_url: Seq<char>) -> Seq<char> {
    upstream_url + "/v1/messages"@
}

/// Where a request is forwarded to.
pub fn messages_url(upstream_url: &str) -> (r: String)
    ensures
        r@ == upstream_url@ + "/v1/messages"@,
        r@ == messages_address(upstream_url@),
{
    let mut out = text::chars_of(upstream_url);
    text::append_str(&mut out, "/v1/messages");
    text::text_of(out.as_slice())
}

/// What the health check answers.
pub open spec fn health(uptime: u64, version: Seq<char>) -> JsonView {
    JsonView::Object(Map::empty()).with("status"@, JsonView::Text("healthy"@)).with(
        "uptime"@,
        JsonView::Number(json::number_of(uptime)),
    ).with("version"@, JsonView::Text(version))
}

/// What the health check answers, as JSON: that the proxy is healthy, for how
/// many seconds it has been running, and its version.
pub fn health_json(uptime: u64, version: &str) -> (r: String)
    ensures
        r@ == json::json_text(health(uptime, version@)),
{
    let mut body = Json::object();
    body.put("status", Json::text("healthy"));
    body.put("uptime", Json::number(uptime));
    body.put("version", Json::text(version));
    body.render()
}

// ---------------------------------------------------------------------------
// The request
// ---------------------------------------------------------------------------
/// Whether the cache is switched on, and what is there of it.
#[derive(Debug, Clone, Copy, PartialEq, Eq, Structural)]
pub struct CacheSettings {
    pub enabled: bool,
    pub has_cache: bool,
    pub has_embedder: bool,
}

/// The cache can be used.
pub open spec fn usable(c: CacheSettings) -> bool {
    c.enabled && c.has_cache && c.has_embedder
}

/// What is known of a request.
pub struct Request {
    pub body: Json,
    pub tokens_before: usize,
    pub streaming: bool,
    pub user_text: String,
    pub model: String,
}

/// What a request is.
pub struct RequestView {
    pub body: JsonView,
    pub tokens_before: nat,
    pub streaming: bool,
    pub user_text: Seq<char>,
    pub model: Seq<char>,
}

impl View for Request {
    type V = RequestView;

    open spec fn view(&self) -> RequestView {
        RequestView {
            body: self.body@,
            tokens_before: self.tokens_before as nat,
            streaming: self.streaming,
            user_text: self.user_text@,
            model: self.model@,
        }
    }
}

/// The client wants a stream.
pub open spec fn wants_stream(body: JsonView) -> bool {
    match body.get("stream"@) {
        Some(v) => v.as_bool() == Some(true),
        None => false,
    }
}

/// The model that a request names.
pub open spec fn model_of(body: JsonView) -> Seq<char> {
    match body.text_of("model"@) {
        Some(m) => m,
        None => "unknown"@,
    }
}

/// The request that a body makes. Its last text of the user is what the cache
/// goes by; it is left out where the cache is switched off.
pub open spec fn request_of(body: JsonView, tokens_before: nat, cache_enabled: bool) -> RequestView {
    RequestView {
        body,
        tokens_before,
        streaming: wants_stream(body),
        user_text: if cache_enabled {
            pipeline::user_query(body)
        } else {
            Seq::empty()
        },
        model: model_of(body),
    }
}

/// The last text of the user, which the cache goes by.
pub fn extract_user_text(body: &Json) -> (r: String)
    ensures
        r@ == pipeline::user_query(body@),
{
    pipeline::extract_user_query(body)
}

/// What is known of a request with the given body and token count.
pub fn describe_request(body: Json, tokens_before: usize, cache_enabled: bool) -> (r: Request)
    ensures
        r@ == request_of(body@, tokens_before as nat, cache_enabled),
{
    let streaming = match body.get("stream") {
        Some(v) => match v.as_bool() {
            Some(b) => b,
            None => false,
        },
        None => false,
    };
    let user_text = if cache_enabled {
        extract_user_text(&body)
    } else {
        String::new()
    };
    let model = match body.text_of("model") {
        Some(m) => text::owned(m),
        None => text::owned("unknown"),
    };
    Request { body, tokens_before, streaming, user_text, model }
}

/// The tokens of a request body, where they can be counted.
pub open spec fn body_tokens(body: JsonView) -> Option<usize> {
    tokenizer::counted(tokenizer::tokens_of_all(tokenizer::body_texts(body)))
}

/// Reads a request. A body that is not JSON is a bad request. Where its tokens
/// cannot be counted, the proxy fails.
pub fn read_request(bytes: &[u8], cache_enabled: bool, tokenizer: &Tokenizer) -> (r: Result<
    Request,
    u16,
>)
    ensures
        match json::json_parsed(bytes@) {
            Some(body) => match body_tokens(body) {
                Some(n) => r matches Ok(q) && q@ == request_of(body, n as nat, cache_enabled),
                None => r == Err::<Request, u16>(INTERNAL_SERVER_ERROR),
            },
            None => r == Err::<Request, u16>(BAD_REQUEST),
        },
{
    match Json::parse(bytes) {
        Some(body) => match tokenizer.count_message_tokens(&body) {
            Some(n) => Ok(describe_request(body, n, cache_enabled)),
            None => Err(INTERNAL_SERVER_ERROR),
        },
        None => Err(BAD_REQUEST),
    }
}

/// The session that a request belongs to.
pub open spec fn session_of(body: JsonView) -> Seq<char> {
    match body.items_of("messages"@) {
        Some(messages) => session::session_id(messages),
        None => "default"@,
    }
}

/// The session that a request belongs to.
pub fn session_id_of(body: &Json) -> (r: String)
    ensures
        r@ == session_of(body@),
{
    match body.items_of("messages") {
        Some(messages) => SessionStore::derive_session_id(messages),
        None => text::owned("default"),
    }
}

/// What is sent to the server of a request body.
pub open spec fn sent(body: JsonView) -> Seq<u8> {
    encode_utf8(json::json_text(body))
}

/// A request that has been compressed: what is sent to the server, its tokens,
/// and what came of the pipeline.
pub struct CompressedRequest {
    pub bytes: Vec<u8>,
    pub tokens_after: usize,
    pub result: PipelineResult,
}

/// Compresses a request body in its session, and writes it as JSON. Where the
/// tokens that are left cannot be counted, the proxy fails.
pub fn compress_request(
    body: &mut Json,
    tokenizer: &Tokenizer,
    config: &PipelineConfig,
    session: Option<&mut SessionData>,
    compiled: &Compiled,
) -> (r: Result<CompressedRequest, u16>)
    ensures
        ({
            let p = pipeline::processed(
                old(body)@,
                *config,
                pipeline::tools_seen(session),
            );
            &&& final(body)@ == p.body
            &&& match session {
                Some(s) => p.tools is Some && (*final(s))@ == (SessionView {
                    tools: p.tools->0,
                    ..(*s)@
                }),
                None => p.tools is None,
            }
            &&& match body_tokens(p.body) {
                Some(n) => r matches Ok(c) && c.tokens_after == n && c.bytes@ == encode_utf8(
                    json::json_text(p.body),
                ) && c.bytes@ == sent(p.body) && metrics::event_views(c.result.events@) == p.events
                    && metrics::tool_call_views(c.result.tool_calls@) == p.calls,
                None => r matches Err(status) && status == INTERNAL_SERVER_ERROR,
            }
        }),
{
    let result = pipeline::process(body, tokenizer, config, session, compiled);
    match tokenizer.count_message_tokens(body) {
        Some(tokens_after) => Ok(
            CompressedRequest {
                bytes: text::bytes_of(body.render().as_str()),
                tokens_after,
                result,
            },
        ),
        None => Err(INTERNAL_SERVER_ERROR),
    }
}

/// Compresses a request body in the session of an id, which is started where
/// there is none, and writes it as JSON. The session in the store has then seen
/// the request.
pub fn compress_in_session(
    store: &mut SessionStore,
    id: &str,
    now: u128,
    body: &mut Json,
    tokenizer: &Tokenizer,
    config: &PipelineConfig,
    compiled: &Compiled,
) -> (r: Result<CompressedRequest, u16>)
    ensures
        ({
            let sessions = session::kept_sessions(old(store)@, now as nat);
            let p = pipeline::processed(
                old(body)@,
                *config,
                Some(session::tools_of(sessions, id@)),
            );
            &&& final(body)@ == p.body
            &&& final(store)@ == sessions.insert(
                id@,
                SessionView { tools: p.tools->0, last_accessed: now as nat },
            )
            &&& match body_tokens(p.body) {
                Some(n) => r matches Ok(c) && c.tokens_after == n && c.bytes@ == encode_utf8(
                    json::json_text(p.body),
                ) && c.bytes@ == sent(p.body) && metrics::event_views(c.result.events@) == p.events
                    && metrics::tool_call_views(c.result.tool_calls@) == p.calls,
                None => r matches Err(status) && status == INTERNAL_SERVER_ERROR,
            }
        }),
{
    let session = store.get_or_create(id, now);
    compress_request(body, tokenizer, config, Some(session), compiled)
}

/// A request sees what the last one in its session has seen, unless the session
/// has gone stale in between.
pub proof fn requests_share_their_session(
    sessions: Map<Seq<char>, SessionView>,
    id: Seq<char>,
    body: JsonView,
    config: PipelineConfig,
    now: nat,
    later: nat,
)
    requires
        session::fresh(now, later),
    ensures
        ({
            let kept = session::kept_sessions(sessions, now);
            let seen = pipeline::processed(
                body,
                config,
                Some(session::tools_of(kept, id)),
            ).tools->0;
            let after = kept.insert(id, SessionView { tools: seen, last_accessed: now });
            session::tools_of(session::kept_sessions(after, later), id) == seen
        }),
{
}

// ---------------------------------------------------------------------------
// The course of a request
// ---------------------------------------------------------------------------
/// What compression made of a request.
pub struct Outcome {
    pub tokens_after: usize,
    pub events: Vec<CompressionEvent>,
    pub tool_calls: Vec<ToolCallInfo>,
    pub pipeline_millis: u128,
}

/// What compression made of a request.
pub struct OutcomeView {
    pub tokens_after: nat,
    pub events: Seq<EventView>,
    pub tool_calls: Seq<ToolCallView>,
    pub pipeline_millis: u128,
}

impl View for Outcome {
    type V = OutcomeView;

    open spec fn view(&self) -> OutcomeView {
        OutcomeView {
            tokens_after: self.tokens_after as nat,
            events: metrics::event_views(self.events@),
            tool_calls: metrics::tool_call_views(self.tool_calls@),
            pipeline_millis: self.pipeline_millis,
        }
    }
}

/// How far a request has come, and what is kept for what is still to do.
pub enum Phase {
    /// The text of the user is being embedded, for a lookup.
    Embedding,
    /// The cache is being asked.
    LookingUp,
    /// The request is being compressed.
    Compressing,
    /// The request has been sent to the server.
    Forwarding { outcome: Outcome },
    /// The response is being read.
    Reading { outcome: Outcome, status: u16, upstream_millis: u128 },
    /// The text of the user is being embedded, to store the response.
    EmbeddingToStore { outcome: Outcome, status: u16, upstream_millis: u128, body: Vec<u8> },
    /// The response is being stored.
    Storing { outcome: Outcome, status: u16, upstream_millis: u128, body: Vec<u8> },
    /// The response is being relayed as a stream, and kept.
    Relaying { tokens_saved: usize },
    /// The text of the user is being embedded, to store what was kept.
    EmbeddingKept { tokens_saved: usize, body: Vec<u8> },
    /// Nothing is left to do.
    Done,
}

/// How far a request has come.
pub enum PhaseView {
    Embedding,
    LookingUp,
    Compressing,
    Forwarding { outcome: OutcomeView },
    Reading { outcome: OutcomeView, status: u16, upstream_millis: u128 },
    EmbeddingToStore {
        outcome: OutcomeView,
        status: u16,
        upstream_millis: u128,
        body: Seq<u8>,
    },
    Storing { outcome: OutcomeView, status: u16, upstream_millis: u128, body: Seq<u8> },
    Relaying { tokens_saved: nat },
    EmbeddingKept { tokens_saved: nat, body: Seq<u8> },
    Done,
}

impl View for Phase {
    type V = PhaseView;

    open spec fn view(&self) -> PhaseView {
        match *self {
            Phase::Embedding => PhaseView::Embedding,
            Phase::LookingUp => PhaseView::LookingUp,
            Phase::Compressing => PhaseView::Compressing,
            Phase::Forwarding { outcome } => PhaseView::Forwarding { outcome: outcome@ },
            Phase::Reading { outcome, status, upstream_millis } => PhaseView::Reading {
                outcome: outcome@,
                status,
                upstream_millis,
            },
            Phase::EmbeddingToStore { outcome, status, upstream_millis, body } => {
                PhaseView::EmbeddingToStore {
                    outcome: outcome@,
                    status,
                    upstream_millis,
                    body: body@,
                }
            },
            Phase::Storing { outcome, status, upstream_millis, body } => PhaseView::Storing {
                outcome: outcome@,
                status,
                upstream_millis,
                body: body@,
            },
            Phase::Relaying { tokens_saved } => PhaseView::Relaying {
                tokens_saved: tokens_saved as nat,
            },
            Phase::EmbeddingKept { tokens_saved, body } => PhaseView::EmbeddingKept {
                tokens_saved: tokens_saved as nat,
                body: body@,
            },
            Phase::Done => PhaseView::Done,
        }
    }
}

/// What has happened.
pub enum Input {
    /// The text of the user has been embedded, or not.
    Embedded(bool),
    /// The cache has answered. An error counts as no answer.
    LookedUp(Option<CachedResponse>),
    /// The request has been compressed.
    Compressed(Outcome),
    /// The server has answered.
    Answered { status: u16, millis: u128 },
    /// The server could not be reached.
    Unreachable,
    /// The response has been read, or not.
    Read(Option<Vec<u8>>),
    /// The response has been stored, or not.
    Stored,
    /// The stream has ended, with what was kept of it.
    Ended(Option<Vec<u8>>),
}

/// What has happened.
pub enum InputView {
    Embedded(bool),
    LookedUp(Option<CachedView>),
    Compressed(OutcomeView),
    Answered { status: u16, millis: u128 },
    Unreachable,
    Read(Option<Seq<u8>>),
    Stored,
    Ended(Option<Seq<u8>>),
}

pub open spec fn bytes_view(b: Option<Vec<u8>>) -> Option<Seq<u8>> {
    match b {
        Some(v) => Some(v@),
        None => None,
    }
}

impl View for Input {
    type V = InputView;

    open spec fn view(&self) -> InputView {
        match *self {
            Input::Embedded(ok) => InputView::Embedded(ok),
            Input::LookedUp(found) => InputView::LookedUp(
                match found {
                    Some(c) => Some(c@),
                    None => None,
                },
            ),
            Input::Compressed(outcome) => InputView::Compressed(outcome@),
            Input::Answered { status, millis } => InputView::Answered { status, millis },
            Input::Unreachable => InputView::Unreachable,
            Input::Read(body) => InputView::Read(bytes_view(body)),
            Input::Stored => InputView::Stored,
            Input::Ended(kept) => InputView::Ended(bytes_view(kept)),
        }
    }
}

/// A response to the client that does not pass through from the server as a
/// stream. One from the cache says so, and has a content type of its own.
pub struct Answer {
    pub status: u16,
    pub body: Vec<u8>,
    pub from_cache: bool,
    pub content_type: Option<String>,
}

/// A response to the client.
pub struct AnswerView {
    pub status: u16,
    pub body: Seq<u8>,
    pub from_cache: bool,
    pub content_type: Option<Seq<char>>,
}

impl View for Answer {
    type V = AnswerView;

    open spec fn view(&self) -> AnswerView {
        AnswerView {
            status: self.status,
            body: self.body@,
            from_cache: self.from_cache,
            content_type: match self.content_type {
                Some(t) => Some(t@),
                None => None,
            },
        }
    }
}

/// What is to be done.
pub enum Action {
    /// Embed the text of the user.
    Embed,
    /// Ask the cache for a response to what has been embedded.
    LookUp,
    /// Compress the request.
    Compress,
    /// Send the compressed request to the server.
    Forward,
    /// Read the response.
    ReadBody,
    /// Pass the response through as a stream, and keep it or not.
    Relay { status: u16, keep: bool },
    /// Store a response under what has been embedded.
    Store { body: Vec<u8>, tokens_saved: usize },
    /// Answer the client.
    Reply(Answer),
    /// Answer the client with an error.
    Refuse(u16),
    /// Do nothing more.
    Nothing,
}

/// What is to be done.
pub enum ActionView {
    Embed,
    LookUp,
    Compress,
    Forward,
    ReadBody,
    Relay { status: u16, keep: bool },
    Store { body: Seq<u8>, tokens_saved: nat },
    Reply(AnswerView),
    Refuse(u16),
    Nothing,
}

impl View for Action {
    type V = ActionView;

    open spec fn view(&self) -> ActionView {
        match *self {
            Action::Embed => ActionView::Embed,
            Action::LookUp => ActionView::LookUp,
            Action::Compress => ActionView::Compress,
            Action::Forward => ActionView::Forward,
            Action::ReadBody => ActionView::ReadBody,
            Action::Relay { status, keep } => ActionView::Relay { status, keep },
            Action::Store { body, tokens_saved } => ActionView::Store {
                body: body@,
                tokens_saved: tokens_saved as nat,
            },
            Action::Reply(answer) => ActionView::Reply(answer@),
            Action::Refuse(status) => ActionView::Refuse(status),
            Action::Nothing => ActionView::Nothing,
        }
    }
}

/// What comes of an event: how far the request has come, what is to be done,
/// and what the dashboard is told.
pub struct StepView {
    pub phase: PhaseView,
    pub action: ActionView,
    pub update: Option<UpdateView>,
}

/// What comes of an event.
pub struct Step {
    pub action: Action,
    pub update: Option<ProxyUpdate>,
}

pub open spec fn update_view(u: Option<ProxyUpdate>) -> Option<UpdateView> {
    match u {
        Some(v) => Some(v@),
        None => None,
    }
}

/// The cache is asked for a response where it can be used and there is a text
/// to go by.
pub open spec fn looks_up(q: RequestView, c: CacheSettings) -> bool {
    usable(c) && q.user_text.len() > 0
}

/// How a request starts.
pub open spec fn started(q: RequestView, c: CacheSettings) -> StepView {
    if looks_up(q, c) {
        StepView { phase: PhaseView::Embedding, action: ActionView::Embed, update: None }
    } else {
        to_compress()
    }
}

pub open spec fn to_compress() -> StepView {
    StepView { phase: PhaseView::Compressing, action: ActionView::Compress, update: None }
}

/// The answer that a response from the cache makes: a stream for a client that
/// wants one, where the response can be made into one.
pub open spec fn cached_answer(body: Seq<u8>, streaming: bool) -> AnswerView {
    let json = AnswerView {
        status: OK,
        body,
        from_cache: true,
        content_type: Some("application/json"@),
    };
    match json::json_parsed(body) {
        Some(m) => if streaming && m.takes_fields() {
            AnswerView {
                body: encode_utf8(
                    stream_reassemble::sse_text(stream_reassemble::message_events(m)),
                ),
                content_type: Some("text/event-stream"@),
                ..json
            }
        } else {
            json
        },
        None => json,
    }
}

/// What the dashboard is told of a cache hit.
pub open spec fn hit_update(tokens_before: nat, similarity_bits: u64) -> UpdateView {
    UpdateView {
        tokens_original: tokens_before,
        tokens_compressed: 0,
        events: Seq::empty(),
        tool_calls: Seq::empty(),
        cache_status: CacheStatus::Hit { similarity_bits },
        pipeline_millis: 0,
        upstream_millis: None,
        error_status: None,
    }
}

/// The error that a status of the server is.
pub open spec fn upstream_error(status: u16) -> Option<(u16, Seq<char>)> {
    if status >= 400 {
        Some((status, "Upstream returned "@ + text::decimal(status as nat)))
    } else {
        None
    }
}

/// What the dashboard is told of a request that was forwarded.
pub open spec fn forward_update(
    tokens_before: nat,
    o: OutcomeView,
    cache_status: CacheStatus,
    status: u16,
    upstream_millis: u128,
) -> UpdateView {
    UpdateView {
        tokens_original: tokens_before,
        tokens_compressed: o.tokens_after,
        events: o.events,
        tool_calls: o.tool_calls,
        cache_status,
        pipeline_millis: o.pipeline_millis,
        upstream_millis: Some(upstream_millis),
        error_status: upstream_error(status),
    }
}

/// The answer that a response of the server makes.
pub open spec fn passed_on(
    q: RequestView,
    o: OutcomeView,
    cache_status: CacheStatus,
    status: u16,
    upstream_millis: u128,
    body: Seq<u8>,
) -> StepView {
    StepView {
        phase: PhaseView::Done,
        action: ActionView::Reply(
            AnswerView { status, body, from_cache: false, content_type: None },
        ),
        update: Some(forward_update(q.tokens_before, o, cache_status, status, upstream_millis)),
    }
}

pub open spec fn finished() -> StepView {
    StepView { phase: PhaseView::Done, action: ActionView::Nothing, update: None }
}

pub open spec fn refused(status: u16) -> StepView {
    StepView { phase: PhaseView::Done, action: ActionView::Refuse(status), update: None }
}

/// What comes of the answer of the server: a stream is passed through, and
/// kept where it can be stored; any other response is read.
pub open spec fn answered(
    q: RequestView,
    c: CacheSettings,
    o: OutcomeView,
    status: u16,
    millis: u128,
) -> StepView {
    if q.streaming {
        let keep = status == OK && usable(c);
        StepView {
            phase: if keep {
                PhaseView::Relaying { tokens_saved: metrics::saved(q.tokens_before, o.tokens_after) }
            } else {
                PhaseView::Done
            },
            action: ActionView::Relay { status, keep },
            update: Some(
                forward_update(
                    q.tokens_before,
                    o,
                    if keep {
                        CacheStatus::Miss
                    } else {
                        CacheStatus::Skipped
                    },
                    status,
                    millis,
                ),
            ),
        }
    } else {
        StepView {
            phase: PhaseView::Reading { outcome: o, status, upstream_millis: millis },
            action: ActionView::ReadBody,
            update: None,
        }
    }
}

/// The response that was kept of a stream, if it is a whole one.
pub open spec fn kept_response(kept: Seq<u8>) -> Option<Seq<u8>> {
    match stream_reassemble::reconstructed(text::utf8_lossy(kept)) {
        Some(m) => Some(encode_utf8(json::json_text(m))),
        None => None,
    }
}

/// What comes of an event. One that cannot happen at this point of the course
/// of a request changes nothing.
pub open spec fn next(q: RequestView, c: CacheSettings, phase: PhaseView, input: InputView) -> StepView {
    match (phase, input) {
        (PhaseView::Embedding, InputView::Embedded(ok)) => if ok {
            StepView { phase: PhaseView::LookingUp, action: ActionView::LookUp, update: None }
        } else {
            to_compress()
        },
        (PhaseView::LookingUp, InputView::LookedUp(found)) => match found {
            Some(r) => StepView {
                phase: PhaseView::Done,
                action: ActionView::Reply(cached_answer(r.response_body, q.streaming)),
                update: Some(hit_update(q.tokens_before, r.similarity_bits)),
            },
            None => to_compress(),
        },
        (PhaseView::Compressing, InputView::Compressed(outcome)) => StepView {
            phase: PhaseView::Forwarding { outcome },
            action: ActionView::Forward,
            update: None,
        },
        (PhaseView::Forwarding { outcome }, InputView::Answered { status, millis }) => answered(
            q,
            c,
            outcome,
            status,
            millis,
        ),
        (PhaseView::Forwarding { .. }, InputView::Unreachable) => refused(BAD_GATEWAY),
        (PhaseView::Reading { outcome, status, upstream_millis }, InputView::Read(read)) => match read {
            Some(body) => if status == OK && looks_up(q, c) {
                StepView {
                    phase: PhaseView::EmbeddingToStore { outcome, status, upstream_millis, body },
                    action: ActionView::Embed,
                    update: None,
                }
            } else {
                passed_on(q, outcome, CacheStatus::Skipped, status, upstream_millis, body)
            },
            None => refused(BAD_GATEWAY),
        },
        (
            PhaseView::EmbeddingToStore { outcome, status, upstream_millis, body },
            InputView::Embedded(ok),
        ) => if ok {
            StepView {
                phase: PhaseView::Storing { outcome, status, upstream_millis, body },
                action: ActionView::Store {
                    body,
                    tokens_saved: metrics::saved(q.tokens_before, outcome.tokens_after),
                },
                update: None,
            }
        } else {
            passed_on(q, outcome, CacheStatus::Skipped, status, upstream_millis, body)
        },
        (PhaseView::Storing { outcome, status, upstream_millis, body }, InputView::Stored) => {
            passed_on(q, outcome, CacheStatus::Miss, status, upstream_millis, body)
        },
        (PhaseView::Relaying { tokens_saved }, InputView::Ended(kept)) => match kept {
            Some(bytes) => match kept_response(bytes) {
                Some(body) => if looks_up(q, c) {
                    StepView {
                        phase: PhaseView::EmbeddingKept { tokens_saved, body },
                        action: ActionView::Embed,
                        update: None,
                    }
                } else {
                    finished()
                },
                None => finished(),
            },
            None => finished(),
        },
        (PhaseView::EmbeddingKept { tokens_saved, body }, InputView::Embedded(ok)) => if ok {
            StepView {
                phase: PhaseView::Done,
                action: ActionView::Store { body, tokens_saved },
                update: None,
            }
        } else {
            finished()
        },
        _ => StepView { phase, action: ActionView::Nothing, update: None },
    }
}

/// A request on its way through the proxy.
pub struct Exchange {
    pub request: Request,
    pub settings: CacheSettings,
    pub phase: Phase,
}

impl CacheSettings {
    fn is_usable(&self) -> (r: bool)
        ensures
            r == usable(*self),
    {
        self.enabled && self.has_cache && self.has_embedder
    }
}

fn saved_of(before: usize, after: usize) -> (r: usize)
    ensures
        r == metrics::saved(before as nat, after as nat),
{
    before.saturating_sub(after)
}

/// The answer that a response from the cache makes.
pub fn answer_from_cache(body: Vec<u8>, streaming: bool) -> (r: Answer)
    ensures
        r@ == cached_answer(body@, streaming),
{
    if streaming {
        match stream_reassemble::json_to_sse(body.as_slice()) {
            Some(stream) => {
                return Answer {
                    status: OK,
                    body: stream,
                    from_cache: true,
                    content_type: Some(text::owned("text/event-stream")),
                };
            },
            None => {},
        }
    }
    Answer {
        status: OK,
        body,
        from_cache: true,
        content_type: Some(text::owned("application/json")),
    }
}

fn error_of(status: u16) -> (r: Option<(u16, String)>)
    ensures
        crate::tui::error_view(r) == upstream_error(status),
{
    if status >= 400 {
        let mut message = text::chars_of("Upstream returned ");
        let number = text::decimal_chars(status as u64);
        text::append_chars(&mut message, number.as_slice());
        Some((status, text::text_of(message.as_slice())))
    } else {
        None
    }
}

fn tell(
    tokens_before: usize,
    outcome: Outcome,
    cache_status: CacheStatus,
    status: u16,
    upstream_millis: u128,
) -> (r: ProxyUpdate)
    ensures
        r@ == forward_update(
            tokens_before as nat,
            outcome@,
            cache_status,
            status,
            upstream_millis,
        ),
{
    ProxyUpdate {
        tokens_original: tokens_before,
        tokens_compressed: outcome.tokens_after,
        events: outcome.events,
        tool_calls: outcome.tool_calls,
        cache_status,
        pipeline_millis: outcome.pipeline_millis,
        upstream_millis: Some(upstream_millis),
        error_status: error_of(status),
    }
}

/// The response that was kept of a stream.
pub fn response_of_stream(kept: &[u8]) -> (r: Option<Vec<u8>>)
    ensures
        bytes_view(r) == kept_response(kept@),
        // A stream in UTF-8 is read as the text that it is.
        forall|t: Seq<char>|
            kept@ == #[trigger] encode_utf8(t) ==> bytes_view(r)
                == match stream_reassemble::reconstructed(t) {
                Some(m) => Some(encode_utf8(json::json_text(m))),
                None => None,
            },
{
    let stream = text::lossy(kept);
    proof {
        assert forall|t: Seq<char>| kept@ == #[trigger] encode_utf8(t) implies stream@ == t by {
            encode_utf8_valid_utf8(t);
            encode_utf8_decode_utf8(t);
        }
    }
    stream_reassemble::reconstruct_response(stream.as_str())
}

impl Exchange {
    /// Starts the course of a request.
    pub fn begin(request: Request, settings: CacheSettings) -> (r: (Self, Step))
        ensures
            r.0.request == request,
            r.0.settings == settings,
            ({
                let s = started(request@, settings);
                &&& r.0.phase@ == s.phase
                &&& r.1.action@ == s.action
                &&& update_view(r.1.update) == s.update
            }),
    {
        let wanted = settings.is_usable() && text::chars_of(request.user_text.as_str()).len() > 0;
        if wanted {
            (
                Exchange { request, settings, phase: Phase::Embedding },
                Step { action: Action::Embed, update: None },
            )
        } else {
            (
                Exchange { request, settings, phase: Phase::Compressing },
                Step { action: Action::Compress, update: None },
            )
        }
    }

    fn wants_cache(&self) -> (r: bool)
        ensures
            r == looks_up(self.request@, self.settings),
    {
        self.settings.is_usable() && text::chars_of(self.request.user_text.as_str()).len() > 0
    }

    /// Passes the response of the server on to the client.
    fn pass_on(
        &mut self,
        outcome: Outcome,
        cache_status: CacheStatus,
        status: u16,
        upstream_millis: u128,
        body: Vec<u8>,
    ) -> (r: Step)
        ensures
            final(self).request == old(self).request,
            final(self).settings == old(self).settings,
            ({
                let s = passed_on(
                    old(self).request@,
                    outcome@,
                    cache_status,
                    status,
                    upstream_millis,
                    body@,
                );
                &&& final(self).phase@ == s.phase
                &&& r.action@ == s.action
                &&& update_view(r.update) == s.update
            }),
    {
        self.phase = Phase::Done;
        let update = tell(
            self.request.tokens_before,
            outcome,
            cache_status,
            status,
            upstream_millis,
        );
        Step {
            action: Action::Reply(Answer { status, body, from_cache: false, content_type: None }),
            update: Some(update),
        }
    }

    /// Takes in the answer of the server.
    fn take_answer(&mut self, outcome: Outcome, status: u16, millis: u128) -> (r: Step)
        ensures
            final(self).request == old(self).request,
            final(self).settings == old(self).settings,
            ({
                let s = answered(
                    old(self).request@,
                    old(self).settings,
                    outcome@,
                    status,
                    millis,
                );
                &&& final(self).phase@ == s.phase
                &&& r.action@ == s.action
                &&& update_view(r.update) == s.update
            }),
    {
        if self.request.streaming {
            let keep = status == OK && self.settings.is_usable();
            let tokens_saved = saved_of(self.request.tokens_before, outcome.tokens_after);
            self.phase = if keep {
                Phase::Relaying { tokens_saved }
            } else {
                Phase::Done
            };
            let cache_status = if keep {
                CacheStatus::Miss
            } else {
                CacheStatus::Skipped
            };
            let update = tell(self.request.tokens_before, outcome, cache_status, status, millis);
            Step { action: Action::Relay { status, keep }, update: Some(update) }
        } else {
            self.phase = Phase::Reading { outcome, status, upstream_millis: millis };
            Step { action: Action::ReadBody, update: None }
        }
    }

    /// Takes in what has happened, and says what is to be done.
    pub fn step(&mut self, input: Input) -> (r: Step)
        ensures
            final(self).request == old(self).request,
            final(self).settings == old(self).settings,
            ({
                let s = next(old(self).request@, old(self).settings, old(self).phase@, input@);
                &&& final(self).phase@ == s.phase
                &&& r.action@ == s.action
                &&& update_view(r.update) == s.update
            }),
    {
        let mut phase = Phase::Done;
        std::mem::swap(&mut self.phase, &mut phase);
        match (phase, input) {
            (Phase::Embedding, Input::Embedded(ok)) => {
                if ok {
                    self.phase = Phase::LookingUp;
                    Step { action: Action::LookUp, update: None }
                } else {
                    self.phase = Phase::Compressing;
                    Step { action: Action::Compress, update: None }
                }
            },
            (Phase::LookingUp, Input::LookedUp(found)) => match found {
                Some(cached) => {
                    let update = ProxyUpdate {
                        tokens_original: self.request.tokens_before,
                        tokens_compressed: 0,
                        events: Vec::new(),
                        tool_calls: Vec::new(),
                        cache_status: CacheStatus::Hit { similarity_bits: cached.similarity_bits },
                        pipeline_millis: 0,
                        upstream_millis: None,
                        error_status: None,
                    };
                    assert(metrics::event_views(update.events@) =~= Seq::empty());
                    assert(metrics::tool_call_views(update.tool_calls@) =~= Seq::empty());
                    let answer = answer_from_cache(cached.response_body, self.request.streaming);
                    Step { action: Action::Reply(answer), update: Some(update) }
                },
                None => {
                    self.phase = Phase::Compressing;
                    Step { action: Action::Compress, update: None }
                },
            },
            (Phase::Compressing, Input::Compressed(outcome)) => {
                self.phase = Phase::Forwarding { outcome };
                Step { action: Action::Forward, update: None }
            },
            (Phase::Forwarding { outcome }, Input::Answered { status, millis }) => {
                self.take_answer(outcome, status, millis)
            },
            (Phase::Forwarding { .. }, Input::Unreachable) => {
                Step { action: Action::Refuse(BAD_GATEWAY), update: None }
            },
            (Phase::Reading { outcome, status, upstream_millis }, Input::Read(read)) => match read {
                Some(body) => {
                    if status == OK && self.wants_cache() {
                        self.phase = Phase::EmbeddingToStore {
                            outcome,
                            status,
                            upstream_millis,
                            body,
                        };
                        Step { action: Action::Embed, update: None }
                    } else {
                        self.pass_on(outcome, CacheStatus::Skipped, status, upstream_millis, body)
                    }
                },
                None => Step { action: Action::Refuse(BAD_GATEWAY), update: None },
            },
            (
                Phase::EmbeddingToStore { outcome, status, upstream_millis, body },
                Input::Embedded(ok),
            ) => {
                if ok {
                    let mut copy: Vec<u8> = Vec::new();
                    copy.extend_from_slice(body.as_slice());
                    assert(copy@ =~= body@);
                    let tokens_saved = saved_of(self.request.tokens_before, outcome.tokens_after);
                    self.phase = Phase::Storing { outcome, status, upstream_millis, body };
                    Step { action: Action::Store { body: copy, tokens_saved }, update: None }
                } else {
                    self.pass_on(outcome, CacheStatus::Skipped, status, upstream_millis, body)
                }
            },
            (Phase::Storing { outcome, status, upstream_millis, body }, Input::Stored) => {
                self.pass_on(outcome, CacheStatus::Miss, status, upstream_millis, body)
            },
            (Phase::Relaying { tokens_saved }, Input::Ended(kept)) => {
                match kept {
                    Some(bytes) => match response_of_stream(bytes.as_slice()) {
                        Some(body) => {
                            if self.wants_cache() {
                                self.phase = Phase::EmbeddingKept { tokens_saved, body };
                                return Step { action: Action::Embed, update: None };
                            }
                        },
                        None => {},
                    },
                    None => {},
                }
                Step { action: Action::Nothing, update: None }
            },
            (Phase::EmbeddingKept { tokens_saved, body }, Input::Embedded(ok)) => {
                if ok {
                    Step { action: Action::Store { body, tokens_saved }, update: None }
                } else {
                    Step { action: Action::Nothing, update: None }
                }
            },
            (phase, _) => {
                self.phase = phase;
                Step { action: Action::Nothing, update: None }
            },
        }
    }
}

// ---------------------------------------------------------------------------
// Laws
// ---------------------------------------------------------------------------
/// How far a request still has to go.
pub open spec fn distance(phase: PhaseView) -> nat {
    match phase {
        PhaseView::Embedding => 7,
        PhaseView::LookingUp => 6,
        PhaseView::Compressing => 5,
        PhaseView::Forwarding { .. } => 4,
        PhaseView::Reading { .. } => 3,
        PhaseView::EmbeddingToStore { .. } => 2,
        PhaseView::Storing { .. } => 1,
        PhaseView::Relaying { .. } => 2,
        PhaseView::EmbeddingKept { .. } => 1,
        PhaseView::Done => 0,
    }
}

/// Every event brings a request closer to its end, or changes nothing.
pub proof fn every_event_comes_closer(
    q: RequestView,
    c: CacheSettings,
    phase: PhaseView,
    input: InputView,
)
    ensures
        ({
            let s = next(q, c, phase, input);
            distance(s.phase) < distance(phase) || (s.phase == phase && s.action
                == ActionView::Nothing && s.update is None)
        }),
{
}

/// A request that is done stays done, and nothing more is said of it.
pub proof fn done_is_final(q: RequestView, c: CacheSettings, input: InputView)
    ensures
        next(q, c, PhaseView::Done, input) == finished(),
{
}

/// The cache never makes a request fail: where the text of the user cannot be
/// embedded, or the cache has no answer, the request is compressed and
/// forwarded.
pub proof fn cache_trouble_is_survived(q: RequestView, c: CacheSettings)
    ensures
        next(q, c, PhaseView::Embedding, InputView::Embedded(false)) == to_compress(),
        next(q, c, PhaseView::LookingUp, InputView::LookedUp(None)) == to_compress(),
{
}

/// A response from the cache is answered at once: the server is not asked.
pub proof fn cache_hits_skip_the_server(q: RequestView, c: CacheSettings, found: CachedView)
    ensures
        ({
            let s = next(q, c, PhaseView::LookingUp, InputView::LookedUp(Some(found)));
            &&& s.phase == PhaseView::Done
            &&& s.action == ActionView::Reply(cached_answer(found.response_body, q.streaming))
            &&& s.update == Some(hit_update(q.tokens_before, found.similarity_bits))
        }),
{
}

/// A response of the server reaches the client as it is, with its status,
/// whatever becomes of the cache.
pub proof fn responses_pass_unchanged(
    q: RequestView,
    c: CacheSettings,
    o: OutcomeView,
    status: u16,
    millis: u128,
    body: Seq<u8>,
    embedded: bool,
)
    ensures
        ({
            let reading = PhaseView::Reading { outcome: o, status, upstream_millis: millis };
            let read = next(q, c, reading, InputView::Read(Some(body)));
            let embedding = next(q, c, read.phase, InputView::Embedded(embedded));
            let stored = next(q, c, embedding.phase, InputView::Stored);
            let answer = ActionView::Reply(
                AnswerView { status, body, from_cache: false, content_type: None },
            );
            if status == OK && looks_up(q, c) {
                if embedded {
                    stored.action == answer
                } else {
                    embedding.action == answer
                }
            } else {
                read.action == answer
            }
        }),
{
}

/// Only a response with status 200 is stored.
pub proof fn only_good_responses_are_stored(
    q: RequestView,
    c: CacheSettings,
    o: OutcomeView,
    status: u16,
    millis: u128,
    body: Seq<u8>,
)
    requires
        status != OK,
    ensures
        next(
            q,
            c,
            PhaseView::Reading { outcome: o, status, upstream_millis: millis },
            InputView::Read(Some(body)),
        ).phase == PhaseView::Done,
        q.streaming ==> answered(q, c, o, status, millis).action == (ActionView::Relay {
            status,
            keep: false,
        }),
{
}

/// Where the cache is switched off or not there, it is neither asked nor
/// filled.
pub proof fn without_cache_nothing_is_embedded(
    q: RequestView,
    c: CacheSettings,
    phase: PhaseView,
    input: InputView,
)
    requires
        !usable(c),
    ensures
        started(q, c) == to_compress(),
        next(q, c, phase, input).action != ActionView::Embed,
{
}

} // verus!
