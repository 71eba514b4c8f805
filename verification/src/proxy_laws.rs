//! What a client of the proxy gets, and when the cache and the server are asked.
use vstd::prelude::*;
use vstd::string::*;
use vstd::utf8::*;

use crate::cache::CachedView;
use crate::json;
use crate::json::JsonView;
use crate::metrics::CacheStatus;
use crate::pipeline;
use crate::proxy;
use crate::proxy::{
    ActionView, AnswerView, CacheSettings, InputView, OutcomeView, PhaseView, RequestView, StepView,
};
use crate::session;
use crate::stream_reassemble;
use crate::text;
use crate::tui::UpdateView;

verus! {

// ---------------------------------------------------------------------------
// Requests
// ---------------------------------------------------------------------------
/// The statuses by which the proxy answers are those of HTTP.
pub proof fn statuses_are_those_of_http()
    ensures
        proxy::OK == 200,
        proxy::BAD_REQUEST == 400,
        proxy::INTERNAL_SERVER_ERROR == 500,
        proxy::BAD_GATEWAY == 502,
{
}

/// Credentials, versions and content types are forwarded, and no other header
/// is.
pub proof fn few_headers_are_forwarded(name: Seq<char>)
    ensures
        proxy::forwarded_headers().contains(name) <==> name == "authorization"@ || name
            == "x-api-key"@ || name == "anthropic-version"@ || name == "content-type"@ || name
            == "anthropic-beta"@ || name == "accept"@,
{
    let all = proxy::forwarded_headers();
    assert(all[0] == "authorization"@ && all[1] == "x-api-key"@ && all[2] == "anthropic-version"@
        && all[3] == "content-type"@ && all[4] == "anthropic-beta"@ && all[5] == "accept"@);
}

/// A client wants a stream if and only if its request says `true` to that. The
/// text that the cache goes by is what the user asked last, where the cache is
/// switched on. A request that names no model is of an unknown one.
pub proof fn requests_say_what_they_want(body: JsonView, tokens: nat, cache_enabled: bool)
    ensures
        ({
            let q = proxy::request_of(body, tokens, cache_enabled);
            &&& q.body == body
            &&& q.tokens_before == tokens
            &&& q.streaming <==> body.get("stream"@) == Some(JsonView::Bool(true))
            &&& cache_enabled ==> q.user_text == pipeline::user_query(body)
            &&& !cache_enabled ==> q.user_text.len() == 0
            &&& q.model == match body.get("model"@) {
                Some(JsonView::Text(m)) => m,
                _ => "unknown"@,
            }
        }),
{
}

/// Requests of the same conversation belong to the same session; a request
/// without messages belongs to the default one.
pub proof fn conversations_have_sessions(body: JsonView)
    ensures
        proxy::session_of(body) == match body.get("messages"@) {
            Some(JsonView::Array(messages)) => session::session_id(messages),
            _ => "default"@,
        },
{
}

/// The server gets the JSON text of the compressed request, at its Messages
/// API. Where that text can be read back, it gets that request and no other.
pub proof fn the_server_gets_the_request(body: JsonView, upstream_url: Seq<char>)
    ensures
        proxy::sent(body) == encode_utf8(json::json_text(body)),
        stream_reassemble::readable(body) ==> json::json_parsed(proxy::sent(body)) == Some(body),
        text::starts_with(proxy::messages_address(upstream_url), upstream_url),
        proxy::messages_address(upstream_url).skip(upstream_url.len() as int) == "/v1/messages"@,
{
    let url = proxy::messages_address(upstream_url);
    assert(url.subrange(0, upstream_url.len() as int) =~= upstream_url);
    assert(url.skip(upstream_url.len() as int) =~= "/v1/messages"@);
}

// ---------------------------------------------------------------------------
// The cache
// ---------------------------------------------------------------------------
/// The cache is switched on, and everything that it takes is there.
pub open spec fn at_hand(c: CacheSettings) -> bool {
    c.enabled && c.has_cache && c.has_embedder
}

/// What comes of a request whose text is embedded and to which the cache finds
/// an answer or none.
pub open spec fn looked_up(q: RequestView, c: CacheSettings, found: Option<CachedView>) -> StepView {
    let first = proxy::started(q, c);
    let second = proxy::next(q, c, first.phase, InputView::Embedded(true));
    proxy::next(q, c, second.phase, InputView::LookedUp(found))
}

/// Where the cache can be used and there is a text of the user, a request
/// starts with embedding and lookup, whether or not the client wants a stream.
/// Where it cannot, or there is no such text, it starts with compression.
pub proof fn usable_caches_are_asked(q: RequestView, c: CacheSettings, found: Option<CachedView>)
    ensures
        ({
            let first = proxy::started(q, c);
            let second = proxy::next(q, c, first.phase, InputView::Embedded(true));
            let asked = at_hand(c) && q.user_text.len() > 0;
            &&& first.update is None
            &&& asked ==> first.action == ActionView::Embed
            &&& asked ==> second.action == ActionView::LookUp && second.update is None
            &&& !asked ==> first.action == ActionView::Compress
            &&& asked && found is None ==> looked_up(q, c, found).action == ActionView::Compress
                && looked_up(q, c, found).update is None
            &&& asked ==> proxy::next(q, c, first.phase, InputView::Embedded(false)).action
                == ActionView::Compress
        }),
{
}

/// A hit is answered at once, with status 200 and as one from the cache: with
/// the response as it is where the client wants no stream, and else as a stream
/// of events that tells the response, where it can be told. Nothing more is
/// done then.
pub proof fn hits_are_answered(
    q: RequestView,
    c: CacheSettings,
    found: CachedView,
    later: InputView,
)
    requires
        at_hand(c),
        q.user_text.len() > 0,
    ensures
        ({
            let s = looked_up(q, c, Some(found));
            let m = json::json_parsed(found.response_body);
            &&& s.action matches ActionView::Reply(answer) && {
                &&& answer.status == 200
                &&& answer.from_cache
                &&& !q.streaming || m is None || !(m->0 is Object || m->0 is Null) ==> answer.body == found.response_body
                    && answer.content_type == Some("application/json"@)
                &&& q.streaming && (m matches Some(v) && v is Object) ==> answer.body
                    == encode_utf8(
                    stream_reassemble::sse_text(stream_reassemble::message_events(m->0)),
                ) && answer.content_type == Some("text/event-stream"@)
            }
            &&& s.update matches Some(u) && {
                &&& u.tokens_original == q.tokens_before
                &&& u.tokens_compressed == 0
                &&& u.cache_status == (CacheStatus::Hit { similarity_bits: found.similarity_bits })
                &&& u.events.len() == 0 && u.tool_calls.len() == 0
                &&& u.pipeline_millis == 0
                &&& u.upstream_millis is None
                &&& u.error_status is None
            }
            &&& proxy::next(q, c, s.phase, later).action == ActionView::Nothing
            &&& proxy::next(q, c, s.phase, later).update is None
        }),
{
}

// ---------------------------------------------------------------------------
// The server
// ---------------------------------------------------------------------------
/// How far a request is that is being compressed.
pub open spec fn compressing(q: RequestView, c: CacheSettings) -> PhaseView {
    let first = proxy::started(q, c);
    match first.action {
        ActionView::Compress => first.phase,
        _ => proxy::next(q, c, first.phase, InputView::Embedded(false)).phase,
    }
}

/// How far a request is that has been sent to the server.
pub open spec fn forwarding(q: RequestView, c: CacheSettings, o: OutcomeView) -> PhaseView {
    proxy::next(q, c, compressing(q, c), InputView::Compressed(o)).phase
}

/// What comes of the answer of the server.
pub open spec fn on_answer(
    q: RequestView,
    c: CacheSettings,
    o: OutcomeView,
    status: u16,
    millis: u128,
) -> StepView {
    proxy::next(q, c, forwarding(q, c, o), InputView::Answered { status, millis })
}

/// The tokens that compression took away.
pub open spec fn taken_away(q: RequestView, o: OutcomeView) -> nat {
    if q.tokens_before > o.tokens_after {
        (q.tokens_before - o.tokens_after) as nat
    } else {
        0
    }
}

/// The dashboard is told of a request that was forwarded: its tokens before and
/// after, what compression did, how long it all took, and the error, if the
/// status is one.
pub open spec fn told(
    update: Option<UpdateView>,
    q: RequestView,
    o: OutcomeView,
    cache_status: CacheStatus,
    status: u16,
    millis: u128,
) -> bool {
    update matches Some(u) && {
        &&& u.tokens_original == q.tokens_before
        &&& u.tokens_compressed == o.tokens_after
        &&& u.events == o.events
        &&& u.tool_calls == o.tool_calls
        &&& u.cache_status == cache_status
        &&& u.pipeline_millis == o.pipeline_millis
        &&& u.upstream_millis == Some(millis)
        &&& u.error_status == if status >= 400 {
            Some((status, "Upstream returned "@ + text::decimal(status as nat)))
        } else {
            None
        }
    }
}

/// A request that the cache does not answer is compressed and sent to the
/// server. Where the server cannot be reached, the client gets status 502.
pub proof fn requests_are_forwarded(q: RequestView, c: CacheSettings, o: OutcomeView)
    ensures
        proxy::next(q, c, compressing(q, c), InputView::Compressed(o)).action
            == ActionView::Forward,
        proxy::next(q, c, compressing(q, c), InputView::Compressed(o)).update is None,
        proxy::next(q, c, forwarding(q, c, o), InputView::Unreachable).action
            == ActionView::Refuse(502),
{
}

/// A stream is passed through with the status of the server, and told of. It is
/// kept if and only if its status is 200 and the cache can be used.
pub proof fn streams_are_relayed(
    q: RequestView,
    c: CacheSettings,
    o: OutcomeView,
    status: u16,
    millis: u128,
)
    requires
        q.streaming,
    ensures
        ({
            let s = on_answer(q, c, o, status, millis);
            let keep = status == 200 && at_hand(c);
            &&& s.action == (ActionView::Relay { status, keep })
            &&& told(
                s.update,
                q,
                o,
                if keep {
                    CacheStatus::Miss
                } else {
                    CacheStatus::Skipped
                },
                status,
                millis,
            )
        }),
{
}

/// What was kept of a stream is stored as the response that it carries, with
/// the tokens that compression took away, where it carries one and there is a
/// text of the user to store it under. Else nothing is stored.
pub proof fn kept_streams_are_stored(
    q: RequestView,
    c: CacheSettings,
    o: OutcomeView,
    millis: u128,
    kept: Option<Seq<u8>>,
)
    requires
        q.streaming,
        at_hand(c),
    ensures
        ({
            let relaying = on_answer(q, c, o, 200, millis).phase;
            let ended = proxy::next(q, c, relaying, InputView::Ended(kept));
            let m = stream_reassemble::reconstructed(text::utf8_lossy(kept->0));
            let stored = proxy::next(q, c, ended.phase, InputView::Embedded(true));
            let failed = proxy::next(q, c, ended.phase, InputView::Embedded(false));
            &&& ended.update is None
            &&& if kept is Some && m is Some && q.user_text.len() > 0 {
                &&& ended.action == ActionView::Embed
                &&& stored.action == (ActionView::Store {
                    body: encode_utf8(json::json_text(m->0)),
                    tokens_saved: taken_away(q, o),
                })
                &&& failed.action == ActionView::Nothing
            } else {
                &&& ended.action == ActionView::Nothing
                &&& stored.action == ActionView::Nothing
            }
        }),
{
}

/// A response that is no stream is read, and reaches the client as it is, with
/// the status of the server. It is stored before that, with the tokens that
/// compression took away, if and only if its status is 200, the cache can be
/// used, there is a text of the user, and that text can be embedded. The
/// dashboard is told once. A response that cannot be read is status 502.
pub proof fn responses_are_stored_and_passed_on(
    q: RequestView,
    c: CacheSettings,
    o: OutcomeView,
    status: u16,
    millis: u128,
    body: Seq<u8>,
)
    requires
        !q.streaming,
    ensures
        ({
            let reading = on_answer(q, c, o, status, millis);
            let read = proxy::next(q, c, reading.phase, InputView::Read(Some(body)));
            let embedded = proxy::next(q, c, read.phase, InputView::Embedded(true));
            let failed = proxy::next(q, c, read.phase, InputView::Embedded(false));
            let stored = proxy::next(q, c, embedded.phase, InputView::Stored);
            let answer = ActionView::Reply(
                AnswerView { status, body, from_cache: false, content_type: None },
            );
            &&& reading.action == ActionView::ReadBody && reading.update is None
            &&& proxy::next(q, c, reading.phase, InputView::Read(None)).action
                == ActionView::Refuse(502)
            &&& if status == 200 && at_hand(c) && q.user_text.len() > 0 {
                &&& read.action == ActionView::Embed && read.update is None
                &&& embedded.action == (ActionView::Store {
                    body,
                    tokens_saved: taken_away(q, o),
                }) && embedded.update is None
                &&& stored.action == answer
                &&& told(stored.update, q, o, CacheStatus::Miss, status, millis)
                &&& failed.action == answer
                &&& told(failed.update, q, o, CacheStatus::Skipped, status, millis)
            } else {
                &&& read.action == answer
                &&& told(read.update, q, o, CacheStatus::Skipped, status, millis)
            }
        }),
{
}

/// The health check says that the proxy is healthy, for how many seconds it has
/// been running, and its version.
pub proof fn health_is_told(uptime: u64, version: Seq<char>)
    ensures
        ({
            let h = proxy::health(uptime, version);
            &&& h.get("status"@) == Some(JsonView::Text("healthy"@))
            &&& h.get("uptime"@) == Some(JsonView::Number(json::number_of(uptime)))
            &&& h.get("version"@) == Some(JsonView::Text(version))
        }),
{
    reveal_strlit("status");
    reveal_strlit("uptime");
    reveal_strlit("version");
    assert("status"@[0] == 's' && "uptime"@[0] == 'u' && "version"@[0] == 'v');
}

} // verus!
