//! The compression pipeline.
use vstd::prelude::*;
use vstd::string::*;

use crate::config::PipelineConfig;
use crate::json;
use crate::json::{Json, JsonView};
use crate::metrics;
use crate::metrics::{CompressionEvent, EventView, ToolCallInfo, ToolCallView};
use crate::pipeline::ast_prune::CodeBlocks;
use crate::pipeline::regex_compress::Patterns;
use crate::session;
use crate::session::{SessionData, SessionView};
use crate::text;
use crate::tokenizer::Tokenizer;

pub mod ast_prune;
pub mod dedup;
pub mod dedup_laws;
pub mod laws;
pub mod prune_laws;
pub mod query_laws;
pub mod regex_compress;
pub mod semantic_trim;
pub mod shape;
pub mod stage_laws;
pub mod strip_laws;

verus! {

// ---------------------------------------------------------------------------
// The query of the user
// ---------------------------------------------------------------------------
/// The first text of content blocks.
pub open spec fn first_text(blocks: Seq<JsonView>) -> Option<Seq<char>>
    decreases blocks.len(),
{
    if blocks.len() == 0 {
        None
    } else if blocks[0].text_of("type"@) == Some("text"@) && blocks[0].text_of("text"@) is Some {
        blocks[0].text_of("text"@)
    } else {
        first_text(blocks.skip(1))
    }
}

/// What a message of the user asks.
pub open spec fn message_query(message: JsonView) -> Option<Seq<char>> {
    if message.text_of("role"@) == Some("user"@) {
        match message.get("content"@) {
            Some(JsonView::Text(s)) => Some(s),
            Some(JsonView::Array(blocks)) => first_text(blocks),
            _ => None,
        }
    } else {
        None
    }
}

/// What the user asked last.
pub open spec fn last_query(messages: Seq<JsonView>) -> Seq<char>
    decreases messages.len(),
{
    if messages.len() == 0 {
        Seq::empty()
    } else {
        match message_query(messages.last()) {
            Some(q) => q,
            None => last_query(messages.drop_last()),
        }
    }
}

/// What the user of a request body asked last.
pub open spec fn user_query(body: JsonView) -> Seq<char> {
    match body.items_of("messages"@) {
        Some(messages) => last_query(messages),
        None => Seq::empty(),
    }
}

fn first_text_of(blocks: &Vec<Json>) -> (r: Option<String>)
    ensures
        match first_text(json::view_items(blocks@)) {
            Some(t) => r matches Some(s) && s@ == t,
            None => r is None,
        },
{
    let ghost views = json::view_items(blocks@);
    let mut i: usize = 0;
    proof {
        json::lemma_view_items(blocks@);
        assert(views.skip(0) =~= views);
    }
    while i < blocks.len()
        invariant
            i <= blocks@.len(),
            views == json::view_items(blocks@),
            views.len() == blocks@.len(),
            first_text(views) == first_text(views.skip(i as int)),
        decreases blocks@.len() - i,
    {
        proof {
            json::lemma_view_items(blocks@);
            assert(views.skip(i as int)[0] == blocks@[i as int]@);
            assert(views.skip(i as int).skip(1) =~= views.skip(i + 1));
        }
        if blocks[i].text_is("type", "text") {
            match blocks[i].text_of("text") {
                Some(t) => {
                    return Some(text::owned(t));
                },
                None => {},
            }
        }
        i += 1;
    }
    None
}

fn query_of(message: &Json) -> (r: Option<String>)
    ensures
        match message_query(message@) {
            Some(t) => r matches Some(s) && s@ == t,
            None => r is None,
        },
{
    if message.text_is("role", "user") {
        match message.get("content") {
            Some(Json::Text(s)) => Some(text::owned(s.as_str())),
            Some(Json::Array(blocks)) => first_text_of(blocks),
            _ => None,
        }
    } else {
        None
    }
}

/// Extracts what the user of a request body asked last.
pub fn extract_user_query(body: &Json) -> (r: String)
    ensures
        r@ == user_query(body@),
{
    match body.items_of("messages") {
        Some(messages) => {
            let ghost views = json::view_items(messages@);
            let mut n: usize = messages.len();
            proof {
                json::lemma_view_items(messages@);
                assert(views.take(n as int) =~= views);
            }
            while n > 0
                invariant
                    n <= messages@.len(),
                    views == json::view_items(messages@),
                    views.len() == messages@.len(),
                    body@.items_of("messages"@) == Some(views),
                    last_query(views) == last_query(views.take(n as int)),
                decreases n,
            {
                proof {
                    json::lemma_view_items(messages@);
                    assert(views.take(n as int).last() == messages@[n - 1]@);
                    assert(views.take(n as int).drop_last() =~= views.take(n - 1));
                }
                match query_of(&messages[n - 1]) {
                    Some(q) => {
                        return q;
                    },
                    None => {},
                }
                n -= 1;
            }
            String::new()
        },
        None => String::new(),
    }
}

// ---------------------------------------------------------------------------
// The texts that are compressed
// ---------------------------------------------------------------------------
/// A text of a request body and where it stands: in a message, in a block of
/// its content, or in a block of a tool result in its content.
pub struct SegmentView {
    pub path: Seq<usize>,
    pub text: Seq<char>,
}

/// The texts of the blocks of a tool result.
pub open spec fn inner_segments(i: usize, j: usize, blocks: Seq<JsonView>) -> Seq<SegmentView>
    decreases blocks.len(),
{
    if blocks.len() == 0 {
        Seq::empty()
    } else {
        let before = inner_segments(i, j, blocks.drop_last());
        match blocks.last().text_of("text"@) {
            Some(t) => before.push(
                SegmentView { path: seq![i, j, (blocks.len() - 1) as usize], text: t },
            ),
            None => before,
        }
    }
}

/// The texts of a block: those of a tool result, and its own text where it
/// stands in a message of the user.
pub open spec fn block_segments(i: usize, j: usize, block: JsonView, user: bool) -> Seq<
    SegmentView,
> {
    let kind = block.text_of("type"@);
    if kind == Some("text"@) {
        match block.text_of("text"@) {
            Some(t) => if user {
                seq![SegmentView { path: seq![i, j], text: t }]
            } else {
                Seq::empty()
            },
            None => Seq::empty(),
        }
    } else if kind == Some("tool_result"@) {
        match block.get("content"@) {
            Some(JsonView::Text(t)) => seq![SegmentView { path: seq![i, j], text: t }],
            Some(JsonView::Array(blocks)) => inner_segments(i, j, blocks),
            _ => Seq::empty(),
        }
    } else {
        Seq::empty()
    }
}

/// The texts of blocks.
pub open spec fn blocks_segments(i: usize, blocks: Seq<JsonView>, user: bool) -> Seq<SegmentView>
    decreases blocks.len(),
{
    if blocks.len() == 0 {
        Seq::empty()
    } else {
        blocks_segments(i, blocks.drop_last(), user) + block_segments(
            i,
            (blocks.len() - 1) as usize,
            blocks.last(),
            user,
        )
    }
}

/// The message is one of the user.
pub open spec fn of_user(message: JsonView) -> bool {
    message.text_of("role"@) == Some("user"@)
}

/// The texts of a message that are compressed: those of the user, and tool
/// results. A message of the assistant has none.
pub open spec fn message_segments(i: usize, message: JsonView) -> Seq<SegmentView> {
    if message.text_of("role"@) == Some("assistant"@) {
        Seq::empty()
    } else {
        match message.get("content"@) {
            Some(JsonView::Text(t)) => if of_user(message) {
                seq![SegmentView { path: seq![i], text: t }]
            } else {
                Seq::empty()
            },
            Some(JsonView::Array(blocks)) => blocks_segments(i, blocks, of_user(message)),
            _ => Seq::empty(),
        }
    }
}

/// The texts of messages.
pub open spec fn messages_segments(messages: Seq<JsonView>) -> Seq<SegmentView>
    decreases messages.len(),
{
    if messages.len() == 0 {
        Seq::empty()
    } else {
        messages_segments(messages.drop_last()) + message_segments(
            (messages.len() - 1) as usize,
            messages.last(),
        )
    }
}

/// The texts of a request body.
pub open spec fn segments(body: JsonView) -> Seq<SegmentView> {
    match body.items_of("messages"@) {
        Some(messages) => messages_segments(messages),
        None => Seq::empty(),
    }
}

/// A text of a request body and where it stands.
pub struct Segment {
    pub path: Vec<usize>,
    pub text: String,
}

impl View for Segment {
    type V = SegmentView;

    open spec fn view(&self) -> SegmentView {
        SegmentView { path: self.path@, text: self.text@ }
    }
}

pub open spec fn segment_views(segments: Seq<Segment>) -> Seq<SegmentView> {
    segments.map_values(|s: Segment| s@)
}

fn push_segment(out: &mut Vec<Segment>, path: Vec<usize>, t: &str)
    ensures
        segment_views(final(out)@) == segment_views(old(out)@).push(
            SegmentView { path: path@, text: t@ },
        ),
{
    let ghost before = out@;
    let segment = Segment { path, text: text::owned(t) };
    out.push(segment);
    assert(segment_views(out@) =~= segment_views(before).push(segment@));
}

fn push_inner(out: &mut Vec<Segment>, i: usize, j: usize, blocks: &Vec<Json>)
    ensures
        segment_views(final(out)@) == segment_views(old(out)@) + inner_segments(
            i,
            j,
            json::view_items(blocks@),
        ),
{
    let ghost start = segment_views(out@);
    let ghost views = json::view_items(blocks@);
    let mut k: usize = 0;
    proof {
        json::lemma_view_items(blocks@);
        assert(views.take(0) =~= Seq::empty());
        assert(start + inner_segments(i, j, views.take(0)) =~= start);
    }
    while k < blocks.len()
        invariant
            k <= blocks@.len(),
            views == json::view_items(blocks@),
            views.len() == blocks@.len(),
            segment_views(out@) == start + inner_segments(i, j, views.take(k as int)),
        decreases blocks@.len() - k,
    {
        proof {
            json::lemma_view_items(blocks@);
            assert(views.take(k + 1).drop_last() =~= views.take(k as int));
            assert(views.take(k + 1).last() == blocks@[k as int]@);
        }
        match blocks[k].text_of("text") {
            Some(t) => {
                let path = vec![i, j, k];
                push_segment(out, path, t);
                assert(path@ =~= seq![i, j, k]);
            },
            None => {},
        }
        assert(segment_views(out@) =~= start + inner_segments(i, j, views.take(k + 1)));
        k += 1;
    }
    assert(views.take(views.len() as int) =~= views);
}

fn push_block(out: &mut Vec<Segment>, i: usize, j: usize, block: &Json, user: bool)
    ensures
        segment_views(final(out)@) == segment_views(old(out)@) + block_segments(i, j, block@, user),
{
    let ghost start = segment_views(out@);
    let path = vec![i, j];
    assert(path@ =~= seq![i, j]);
    if block.text_is("type", "text") {
        match block.text_of("text") {
            Some(t) => {
                if user {
                    push_segment(out, path, t);
                }
            },
            None => {},
        }
        assert(segment_views(out@) =~= start + block_segments(i, j, block@, user));
    } else if block.text_is("type", "tool_result") {
        match block.get("content") {
            Some(Json::Text(t)) => push_segment(out, path, t.as_str()),
            Some(Json::Array(blocks)) => push_inner(out, i, j, blocks),
            _ => {},
        }
        assert(segment_views(out@) =~= start + block_segments(i, j, block@, user));
    } else {
        assert(start + Seq::<SegmentView>::empty() =~= start);
    }
}

fn push_message(out: &mut Vec<Segment>, i: usize, message: &Json)
    ensures
        segment_views(final(out)@) == segment_views(old(out)@) + message_segments(i, message@),
{
    let ghost start = segment_views(out@);
    proof {
        assert(start + Seq::<SegmentView>::empty() =~= start);
    }
    if message.text_is("role", "assistant") {
        return;
    }
    let user = message.text_is("role", "user");
    match message.get("content") {
        Some(Json::Text(t)) => {
            if user {
                let path = vec![i];
                assert(path@ =~= seq![i]);
                push_segment(out, path, t.as_str());
            }
            assert(segment_views(out@) =~= start + message_segments(i, message@));
        },
        Some(Json::Array(blocks)) => {
            let ghost views = json::view_items(blocks@);
            let mut j: usize = 0;
            proof {
                json::lemma_view_items(blocks@);
                assert(views.take(0) =~= Seq::empty());
            }
            while j < blocks.len()
                invariant
                    j <= blocks@.len(),
                    views == json::view_items(blocks@),
                    views.len() == blocks@.len(),
                    segment_views(out@) == start + blocks_segments(i, views.take(j as int), user),
                decreases blocks@.len() - j,
            {
                proof {
                    json::lemma_view_items(blocks@);
                    assert(views.take(j + 1).drop_last() =~= views.take(j as int));
                    assert(start + blocks_segments(i, views.take(j as int), user) + block_segments(
                        i,
                        j,
                        views[j as int],
                        user,
                    ) =~= start + blocks_segments(i, views.take(j + 1), user));
                }
                push_block(out, i, j, &blocks[j], user);
                j += 1;
            }
            assert(views.take(views.len() as int) =~= views);
        },
        _ => {},
    }
}

/// Extracts the texts of a request body that are compressed: those of the
/// user, and tool results.
pub fn extract_compressible_texts(body: &Json) -> (r: Vec<Segment>)
    ensures
        segment_views(r@) == segments(body@),
{
    let mut out: Vec<Segment> = Vec::new();
    assert(segment_views(out@) =~= Seq::empty());
    match body.items_of("messages") {
        Some(messages) => {
            let ghost views = json::view_items(messages@);
            let mut i: usize = 0;
            proof {
                json::lemma_view_items(messages@);
                assert(views.take(0) =~= Seq::empty());
            }
            while i < messages.len()
                invariant
                    i <= messages@.len(),
                    views == json::view_items(messages@),
                    views.len() == messages@.len(),
                    segment_views(out@) == messages_segments(views.take(i as int)),
                decreases messages@.len() - i,
            {
                proof {
                    json::lemma_view_items(messages@);
                    assert(views.take(i + 1).drop_last() =~= views.take(i as int));
                    assert(views.take(i + 1).last() == messages@[i as int]@);
                }
                push_message(&mut out, i, &messages[i]);
                i += 1;
            }
            assert(views.take(views.len() as int) =~= views);
        },
        None => {},
    }
    out
}

// ---------------------------------------------------------------------------
// Writing texts back
// ---------------------------------------------------------------------------
/// The item at `i` of the array that a key has for its value.
pub open spec fn item_at(j: JsonView, key: Seq<char>, i: int) -> Option<JsonView> {
    match j.items_of(key) {
        Some(items) => if 0 <= i < items.len() {
            Some(items[i])
        } else {
            None
        },
        None => None,
    }
}

/// The same value with another item at `i` of that array.
pub open spec fn with_item_at(j: JsonView, key: Seq<char>, i: int, item: JsonView) -> JsonView {
    match j.items_of(key) {
        Some(items) => j.with(key, JsonView::Array(items.update(i, item))),
        None => j,
    }
}

/// A block with another text: that of a text block, or the content of a tool
/// result.
pub open spec fn block_with_text(block: JsonView, t: Seq<char>) -> JsonView {
    let kind = block.text_of("type"@);
    if kind == Some("text"@) {
        block.with("text"@, JsonView::Text(t))
    } else if kind == Some("tool_result"@) {
        block.with("content"@, JsonView::Text(t))
    } else {
        block
    }
}

/// A message with another text at a path within it.
pub open spec fn message_with_text(message: JsonView, path: Seq<usize>, t: Seq<char>) -> JsonView {
    if path.len() == 1 {
        message.with("content"@, JsonView::Text(t))
    } else {
        let j = path[1] as int;
        match item_at(message, "content"@, j) {
            Some(block) => with_item_at(
                message,
                "content"@,
                j,
                if path.len() == 2 {
                    block_with_text(block, t)
                } else {
                    let k = path[2] as int;
                    match item_at(block, "content"@, k) {
                        Some(inner) => with_item_at(
                            block,
                            "content"@,
                            k,
                            inner.with("text"@, JsonView::Text(t)),
                        ),
                        None => block,
                    }
                },
            ),
            None => message,
        }
    }
}

/// A request body with another text at a path. A path that leads nowhere
/// changes nothing.
pub open spec fn with_text(body: JsonView, path: Seq<usize>, t: Seq<char>) -> JsonView {
    if 1 <= path.len() <= 3 {
        let i = path[0] as int;
        match item_at(body, "messages"@, i) {
            Some(message) => with_item_at(
                body,
                "messages"@,
                i,
                message_with_text(message, path, t),
            ),
            None => body,
        }
    } else {
        body
    }
}

/// Sets a key to a text, where keys can be set.
fn set_text(j: &mut Json, key: &str, t: &str)
    ensures
        final(j)@ == old(j)@.with(key@, JsonView::Text(t@)),
{
    if j.takes_fields() {
        j.put(key, Json::text(t));
    }
}

/// Sets the text at a path within a block.
fn write_block(block: &mut Json, path: &[usize], t: &str)
    requires
        2 <= path@.len() <= 3,
    ensures
        final(block)@ == if path@.len() == 2 {
            block_with_text(old(block)@, t@)
        } else {
            match item_at(old(block)@, "content"@, path@[2] as int) {
                Some(inner) => with_item_at(
                    old(block)@,
                    "content"@,
                    path@[2] as int,
                    inner.with("text"@, JsonView::Text(t@)),
                ),
                None => old(block)@,
            }
        },
{
    if path.len() == 2 {
        if block.text_is("type", "text") {
            set_text(block, "text", t);
        } else if block.text_is("type", "tool_result") {
            set_text(block, "content", t);
        }
    } else {
        let ghost whole = block@;
        match block.get_mut("content") {
            Some(content) => {
                let ghost had = content@;
                match content.item_mut(path[2]) {
                    Some(inner) => set_text(inner, "text", t),
                    None => {},
                }
                proof {
                    lemma_same_field(whole, "content"@, had);
                }
            },
            None => {},
        }
    }
}

/// Setting a field to what it is changes nothing.
proof fn lemma_same_field(j: JsonView, key: Seq<char>, value: JsonView)
    requires
        j.get(key) == Some(value),
    ensures
        j.with(key, value) == j,
{
    assert(j->Object_0.insert(key, value) =~= j->Object_0);
}

/// Sets the text at a path within a message.
fn write_message(message: &mut Json, path: &[usize], t: &str)
    requires
        1 <= path@.len() <= 3,
    ensures
        final(message)@ == message_with_text(old(message)@, path@, t@),
{
    if path.len() == 1 {
        set_text(message, "content", t);
    } else {
        let ghost whole = message@;
        match message.get_mut("content") {
            Some(content) => {
                let ghost had = content@;
                match content.item_mut(path[1]) {
                    Some(block) => write_block(block, path, t),
                    None => {},
                }
                proof {
                    lemma_same_field(whole, "content"@, had);
                }
            },
            None => {},
        }
    }
}

/// Writes a text back into a request body at the given path.
pub fn write_text_back(body: &mut Json, path: &[usize], t: &str)
    ensures
        final(body)@ == with_text(old(body)@, path@, t@),
{
    if path.len() < 1 || path.len() > 3 {
        return;
    }
    let ghost whole = body@;
    match body.get_mut("messages") {
        Some(messages) => {
            let ghost had = messages@;
            match messages.item_mut(path[0]) {
                Some(message) => write_message(message, path, t),
                None => {},
            }
            proof {
                lemma_same_field(whole, "messages"@, had);
            }
        },
        None => {},
    }
}

// ---------------------------------------------------------------------------
// The pipeline
// ---------------------------------------------------------------------------
/// The compiled patterns of all stages.
pub struct Compiled {
    pub patterns: Patterns,
    pub blocks: CodeBlocks,
}

impl Compiled {
    /// Compiles the patterns of all stages.
    pub fn new() -> (r: Option<Self>)
        ensures
            r is Some <==> regex_compress::all_compile() && crate::patterns::compiles(
                ast_prune::FENCED_BLOCK@,
            ),
    {
        Some(Compiled { patterns: Patterns::new()?, blocks: CodeBlocks::new()? })
    }
}

/// What came of a run of the pipeline.
pub struct PipelineResult {
    pub events: Vec<CompressionEvent>,
    pub tool_calls: Vec<ToolCallInfo>,
}

impl Default for PipelineResult {
    fn default() -> (r: Self)
        ensures
            r.events@.len() == 0,
            r.tool_calls@.len() == 0,
    {
        PipelineResult { events: Vec::new(), tool_calls: Vec::new() }
    }
}

/// What is left of a text behind the stages that are switched on. A stage that
/// cannot count the tokens of the text leaves it as it is.
pub open spec fn text_compressed(
    t: Seq<char>,
    config: PipelineConfig,
    query: Seq<char>,
) -> regex_compress::CompressedView {
    let start = regex_compress::CompressedView { text: t, events: Seq::empty() };
    let structural = if config.regex_structural {
        match regex_compress::compressed(t) {
            Some(c) => c,
            None => start,
        }
    } else {
        start
    };
    if config.ast_pruning {
        match ast_prune::prune_stage(
            structural.text,
            query,
            config.min_lines_for_ast as nat,
        ) {
            Some(s) => regex_compress::then_stage(structural, s),
            None => structural,
        }
    } else {
        structural
    }
}

/// A request body and the events of its compression.
pub struct BodyView {
    pub body: JsonView,
    pub events: Seq<EventView>,
}

/// A request body once its texts have been compressed, one after the other.
pub open spec fn texts_compressed(
    body: JsonView,
    texts: Seq<SegmentView>,
    config: PipelineConfig,
    query: Seq<char>,
) -> BodyView
    decreases texts.len(),
{
    if texts.len() == 0 {
        BodyView { body, events: Seq::empty() }
    } else {
        let before = texts_compressed(body, texts.drop_last(), config, query);
        let c = text_compressed(texts.last().text, config, query);
        BodyView {
            body: with_text(before.body, texts.last().path, c.text),
            events: before.events + c.events,
        }
    }
}

/// What deduplication makes of a request body. There has to be a session.
pub open spec fn first_stage(
    body: JsonView,
    config: PipelineConfig,
    tools: Option<Map<u64, session::EntryView>>,
) -> dedup::Examined {
    if config.tool_dedup && tools is Some {
        dedup::deduped(tools->0, body)
    } else {
        dedup::Examined {
            block: body,
            progress: dedup::nothing_done(
                match tools {
                    Some(t) => t,
                    None => Map::empty(),
                },
            ),
        }
    }
}

/// What comes out of the pipeline: the compressed body, what the session knows,
/// the events and the tool calls.
pub struct ProcessedView {
    pub body: JsonView,
    pub tools: Option<Map<u64, session::EntryView>>,
    pub events: Seq<EventView>,
    pub calls: Seq<ToolCallView>,
}

pub open spec fn processed(
    body: JsonView,
    config: PipelineConfig,
    tools: Option<Map<u64, session::EntryView>>,
) -> ProcessedView {
    let first = first_stage(body, config, tools);
    let rest = texts_compressed(
        first.block,
        segments(first.block),
        config,
        user_query(first.block),
    );
    ProcessedView {
        body: rest.body,
        tools: match tools {
            Some(_) => Some(first.progress.tools),
            None => None,
        },
        events: first.progress.events + rest.events,
        calls: first.progress.calls,
    }
}

/// What a session, if there is one, has seen of tool results.
pub open spec fn tools_seen(s: Option<&mut SessionData>) -> Option<Map<u64, session::EntryView>> {
    match s {
        Some(s) => Some((*s)@.tools),
        None => None,
    }
}

/// Adds events.
fn push_events(out: &mut Vec<CompressionEvent>, events: Vec<CompressionEvent>)
    ensures
        metrics::event_views(final(out)@) == metrics::event_views(old(out)@)
            + metrics::event_views(events@),
{
    let ghost before = out@;
    let mut events = events;
    let ghost added = events@;
    out.append(&mut events);
    assert(metrics::event_views(out@) =~= metrics::event_views(before) + metrics::event_views(
        added,
    ));
}

/// What is left of a text behind the stages that are switched on.
fn compress_text(
    t: &str,
    tokenizer: &Tokenizer,
    config: &PipelineConfig,
    query: &str,
    compiled: &Compiled,
) -> (r: (String, Vec<CompressionEvent>))
    ensures
        ({
            let c = text_compressed(t@, *config, query@);
            r.0@ == c.text && metrics::event_views(r.1@) == c.events
        }),
{
    let mut left = text::owned(t);
    let mut events: Vec<CompressionEvent> = Vec::new();
    assert(metrics::event_views(events@) =~= Seq::empty());
    if config.regex_structural {
        match regex_compress::compress(t, &compiled.patterns, tokenizer) {
            Some((compressed, found)) => {
                left = compressed;
                events = found;
            },
            None => {},
        }
    }
    if config.ast_pruning {
        match ast_prune::prune(
            left.as_str(),
            query,
            &compiled.blocks,
            tokenizer,
            config.min_lines_for_ast,
        ) {
            Some((pruned, found)) => {
                let ghost before = metrics::event_views(events@);
                let ghost s = ast_prune::prune_stage(
                    left@,
                    query@,
                    config.min_lines_for_ast as nat,
                )->0;
                left = pruned;
                push_events(&mut events, found);
                proof {
                    match s.event {
                        Some(e) => {
                            assert(before + seq![e] =~= before.push(e));
                        },
                        None => {
                            assert(before + Seq::<EventView>::empty() =~= before);
                        },
                    }
                }
            },
            None => {},
        }
    }
    (left, events)
}

/// Runs the pipeline on a request body: deduplication of tool results where
/// there is a session, then the compression of each text. The stages that the
/// settings switch off are passed over.
pub fn process(
    body: &mut Json,
    tokenizer: &Tokenizer,
    config: &PipelineConfig,
    session: Option<&mut SessionData>,
    compiled: &Compiled,
) -> (r: PipelineResult)
    ensures
        ({
            let p = processed(old(body)@, *config, tools_seen(session));
            &&& final(body)@ == p.body
            &&& match session {
                Some(s) => p.tools is Some && (*final(s))@ == (SessionView {
                    tools: p.tools->0,
                    ..(*s)@
                }),
                None => p.tools is None,
            }
            &&& metrics::event_views(r.events@) == p.events
            &&& metrics::tool_call_views(r.tool_calls@) == p.calls
        }),
{
    let ghost tools = tools_seen(session);
    let ghost whole = body@;
    let mut events: Vec<CompressionEvent> = Vec::new();
    let mut calls: Vec<ToolCallInfo> = Vec::new();
    proof {
        assert(metrics::event_views(events@) =~= Seq::empty());
        assert(metrics::tool_call_views(calls@) =~= Seq::empty());
    }
    if config.tool_dedup {
        match session {
            Some(s) => {
                let (found, seen) = dedup::dedup(body, s, tokenizer);
                events = found;
                calls = seen;
            },
            None => {},
        }
    }
    let ghost first = first_stage(whole, *config, tools);
    let texts = extract_compressible_texts(body);
    let query = extract_user_query(body);
    let ghost views = segment_views(texts@);
    let ghost start = metrics::event_views(events@);
    let mut i: usize = 0;
    proof {
        assert(views.take(0) =~= Seq::empty());
        assert(start + Seq::<EventView>::empty() =~= start);
    }
    while i < texts.len()
        invariant
            i <= texts@.len(),
            views == segment_views(texts@),
            query@ == user_query(first.block),
            body@ == texts_compressed(
                first.block,
                views.take(i as int),
                *config,
                query@,
            ).body,
            metrics::event_views(events@) == start + texts_compressed(
                first.block,
                views.take(i as int),
                *config,
                query@,
            ).events,
        decreases texts@.len() - i,
    {
        let segment = &texts[i];
        let (left, found) = compress_text(
            segment.text.as_str(),
            tokenizer,
            config,
            query.as_str(),
            compiled,
        );
        proof {
            assert(views.take(i + 1).drop_last() =~= views.take(i as int));
            assert(views.take(i + 1).last() == segment@);
        }
        let ghost before = texts_compressed(
            first.block,
            views.take(i as int),
            *config,
            query@,
        ).events;
        push_events(&mut events, found);
        write_text_back(body, segment.path.as_slice(), left.as_str());
        assert(metrics::event_views(events@) =~= start + (before + metrics::event_views(found@)));
        i += 1;
    }
    assert(views.take(views.len() as int) =~= views);
    PipelineResult { events, tool_calls: calls }
}

} // verus!
