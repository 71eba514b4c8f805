//! Deduplication of tool results within a session.
use vstd::prelude::*;
use vstd::string::*;
use vstd::utf8::*;

use crate::hashing;
use crate::json;
use crate::json::{Json, JsonView};
use crate::metrics;
use crate::metrics::{CompressionEvent, EventView, ToolCallInfo, ToolCallStatus, ToolCallView};
use crate::pipeline::regex_compress;
use crate::session;
use crate::session::{SessionData, SessionView, ToolResultEntry};
use crate::text;
use crate::tokenizer;
use crate::tokenizer::Tokenizer;

verus! {

// ---------------------------------------------------------------------------
// Tool uses
// ---------------------------------------------------------------------------
/// A tool use: its id, the name of the tool and the start of its input.
pub struct ToolUseView {
    pub id: Seq<char>,
    pub name: Seq<char>,
    pub summary: Seq<char>,
}

/// The most characters of an input that a summary shows.
pub const SUMMARY_CHARS: usize = 80;

/// The first characters of a text.
pub open spec fn shortened_to(t: Seq<char>, n: nat) -> Seq<char> {
    if t.len() > n {
        t.take(n as int)
    } else {
        t
    }
}

/// The text that a key has for its value, or the empty text.
pub open spec fn text_or_empty(j: JsonView, key: Seq<char>) -> Seq<char> {
    match j.text_of(key) {
        Some(s) => s,
        None => Seq::empty(),
    }
}

/// The start of the JSON text of the input of a tool use.
pub open spec fn input_summary(block: JsonView) -> Seq<char> {
    match block.get("input"@) {
        Some(input) => shortened_to(json::json_text(input), SUMMARY_CHARS as nat),
        None => Seq::empty(),
    }
}

/// The tool use that a content block is, if it is one.
pub open spec fn use_of_block(block: JsonView) -> Seq<ToolUseView> {
    if block.text_of("type"@) == Some("tool_use"@) {
        seq![
            ToolUseView {
                id: text_or_empty(block, "id"@),
                name: text_or_empty(block, "name"@),
                summary: input_summary(block),
            },
        ]
    } else {
        Seq::empty()
    }
}

/// The tool uses of content blocks.
pub open spec fn uses_of_blocks(blocks: Seq<JsonView>) -> Seq<ToolUseView>
    decreases blocks.len(),
{
    if blocks.len() == 0 {
        Seq::empty()
    } else {
        uses_of_blocks(blocks.drop_last()) + use_of_block(blocks.last())
    }
}

/// The tool uses of messages.
pub open spec fn uses_of(messages: Seq<JsonView>) -> Seq<ToolUseView>
    decreases messages.len(),
{
    if messages.len() == 0 {
        Seq::empty()
    } else {
        uses_of(messages.drop_last()) + match messages.last().items_of("content"@) {
            Some(blocks) => uses_of_blocks(blocks),
            None => Seq::empty(),
        }
    }
}

/// The first tool use of an id. A tool without one has no name.
pub open spec fn use_of(uses: Seq<ToolUseView>, id: Seq<char>) -> ToolUseView
    decreases uses.len(),
{
    if uses.len() == 0 {
        ToolUseView { id, name: Seq::empty(), summary: Seq::empty() }
    } else if uses[0].id == id {
        uses[0]
    } else {
        use_of(uses.skip(1), id)
    }
}

/// A tool use.
struct ToolUse {
    id: String,
    name: String,
    summary: String,
}

impl View for ToolUse {
    type V = ToolUseView;

    closed spec fn view(&self) -> ToolUseView {
        ToolUseView { id: self.id@, name: self.name@, summary: self.summary@ }
    }
}

spec fn use_views(uses: Seq<ToolUse>) -> Seq<ToolUseView> {
    uses.map_values(|u: ToolUse| u@)
}

fn owned_or_empty(j: &Json, key: &str) -> (r: String)
    ensures
        r@ == text_or_empty(j@, key@),
{
    match j.text_of(key) {
        Some(s) => text::owned(s),
        None => String::new(),
    }
}

fn summarize(block: &Json) -> (r: String)
    ensures
        r@ == input_summary(block@),
{
    match block.get("input") {
        Some(input) => {
            let chars = text::chars_of(input.render().as_str());
            if chars.len() > SUMMARY_CHARS {
                let start = text::sub_chars(chars.as_slice(), 0, SUMMARY_CHARS);
                assert(start@ =~= chars@.take(SUMMARY_CHARS as int));
                text::text_of(start.as_slice())
            } else {
                text::text_of(chars.as_slice())
            }
        },
        None => String::new(),
    }
}

/// Adds the tool uses of content blocks.
fn add_uses(out: &mut Vec<ToolUse>, blocks: &Vec<Json>)
    ensures
        use_views(final(out)@) == use_views(old(out)@) + uses_of_blocks(
            json::view_items(blocks@),
        ),
{
    let ghost views = json::view_items(blocks@);
    let ghost start = use_views(out@);
    let mut i: usize = 0;
    proof {
        json::lemma_view_items(blocks@);
        assert(views.take(0) =~= Seq::empty());
        assert(start + uses_of_blocks(views.take(0)) =~= start);
    }
    while i < blocks.len()
        invariant
            i <= blocks@.len(),
            views == json::view_items(blocks@),
            views.len() == blocks@.len(),
            use_views(out@) == start + uses_of_blocks(views.take(i as int)),
        decreases blocks@.len() - i,
    {
        let ghost before = out@;
        proof {
            json::lemma_view_items(blocks@);
            assert(views.take(i + 1).drop_last() =~= views.take(i as int));
            assert(views.take(i + 1).last() == blocks@[i as int]@);
        }
        let block = &blocks[i];
        if block.text_is("type", "tool_use") {
            let used = ToolUse {
                id: owned_or_empty(block, "id"),
                name: owned_or_empty(block, "name"),
                summary: summarize(block),
            };
            out.push(used);
            assert(use_views(out@) =~= use_views(before) + seq![used@]);
        }
        assert(use_views(out@) =~= use_views(before) + use_of_block(blocks@[i as int]@));
        assert(use_views(out@) =~= start + uses_of_blocks(views.take(i + 1)));
        i += 1;
    }
    assert(views.take(views.len() as int) =~= views);
}

/// Collects the tool uses of messages.
fn collect_uses(messages: &Vec<Json>) -> (r: Vec<ToolUse>)
    ensures
        use_views(r@) == uses_of(json::view_items(messages@)),
{
    let ghost views = json::view_items(messages@);
    let mut out: Vec<ToolUse> = Vec::new();
    let mut i: usize = 0;
    proof {
        json::lemma_view_items(messages@);
        assert(views.take(0) =~= Seq::empty());
        assert(use_views(out@) =~= Seq::empty());
    }
    while i < messages.len()
        invariant
            i <= messages@.len(),
            views == json::view_items(messages@),
            views.len() == messages@.len(),
            use_views(out@) == uses_of(views.take(i as int)),
        decreases messages@.len() - i,
    {
        let ghost before = use_views(out@);
        proof {
            json::lemma_view_items(messages@);
            assert(views.take(i + 1).drop_last() =~= views.take(i as int));
            assert(views.take(i + 1).last() == messages@[i as int]@);
        }
        match messages[i].items_of("content") {
            Some(blocks) => add_uses(&mut out, blocks),
            None => {
                assert(before + Seq::<ToolUseView>::empty() =~= before);
            },
        }
        i += 1;
    }
    assert(views.take(views.len() as int) =~= views);
    out
}

/// Finds the first tool use of an id.
fn find_use(uses: &Vec<ToolUse>, id: &str) -> (r: (String, String))
    ensures
        r.0@ == use_of(use_views(uses@), id@).name,
        r.1@ == use_of(use_views(uses@), id@).summary,
{
    let ghost views = use_views(uses@);
    let mut i: usize = 0;
    assert(views.skip(0) =~= views);
    while i < uses.len()
        invariant
            i <= uses@.len(),
            views == use_views(uses@),
            use_of(views, id@) == use_of(views.skip(i as int), id@),
        decreases uses@.len() - i,
    {
        assert(views.skip(i as int)[0] == uses@[i as int]@);
        assert(views.skip(i as int).skip(1) =~= views.skip(i + 1));
        if text::same_text(uses[i].id.as_str(), id) {
            return (text::owned(uses[i].name.as_str()), text::owned(uses[i].summary.as_str()));
        }
        i += 1;
    }
    (String::new(), String::new())
}

// ---------------------------------------------------------------------------
// Tool results
// ---------------------------------------------------------------------------
/// The output of a tool result: its text, or the JSON text of what it holds.
pub open spec fn output_of(block: JsonView) -> Option<Seq<char>> {
    match block.get("content"@) {
        Some(JsonView::Text(s)) => Some(s),
        Some(v) => Some(json::json_text(v)),
        None => None,
    }
}

/// What the outputs of tools are told apart by: the tool and the output.
pub open spec fn identity(name: Seq<char>, output: Seq<char>) -> Seq<char> {
    name + seq!['\n'] + output
}

/// The hash of the output of a tool.
pub open spec fn output_hash(name: Seq<char>, output: Seq<char>) -> u64 {
    hashing::xxh3(encode_utf8(identity(name, output)))
}

/// The text that stands for the output of a tool that has been seen before.
pub open spec fn placeholder(first_id: Seq<char>, tokens: nat) -> Seq<char> {
    "[Janus: duplicate of tool result "@ + first_id + " — "@ + text::decimal(tokens)
        + " tokens omitted]"@
}

/// What deduplication knows and has done: the tool results of the session, its
/// events and its tool calls.
pub struct Progress {
    pub tools: Map<u64, session::EntryView>,
    pub events: Seq<EventView>,
    pub calls: Seq<ToolCallView>,
}

/// A content block, and what is known and done once it has come.
pub struct Examined {
    pub block: JsonView,
    pub progress: Progress,
}

/// A tool result that is the same as one of another tool use is replaced by a
/// placeholder. Any other is kept, and remembered if it is new. One that is
/// empty, or whose tokens cannot be counted, is passed over.
pub open spec fn examined(p: Progress, uses: Seq<ToolUseView>, block: JsonView) -> Examined {
    let same = Examined { block, progress: p };
    if block.text_of("type"@) == Some("tool_result"@) {
        match output_of(block) {
            Some(output) => match tokenizer::tokens(output) {
                Some(n) => if output.len() == 0 {
                    same
                } else {
                    result_examined(p, uses, block, output, n)
                },
                None => same,
            },
            None => same,
        }
    } else {
        same
    }
}

/// The same of a tool result with an output of `n` tokens.
pub open spec fn result_examined(
    p: Progress,
    uses: Seq<ToolUseView>,
    block: JsonView,
    output: Seq<char>,
    n: nat,
) -> Examined {
    let id = text_or_empty(block, "tool_use_id"@);
    let used = use_of(uses, id);
    let hash = output_hash(used.name, output);
    let call = ToolCallView {
        name: used.name,
        summary: used.summary,
        id,
        status: ToolCallStatus::Kept,
        saved: 0,
    };
    if p.tools.dom().contains(hash) && p.tools[hash].0 != id {
        let note = placeholder(p.tools[hash].0, n);
        match tokenizer::tokens(note) {
            Some(a) => Examined {
                block: block.with("content"@, JsonView::Text(note)),
                progress: Progress {
                    events: if n > a {
                        p.events.push(
                            EventView {
                                before: n,
                                after: a,
                                stage: "A_dedup"@,
                                reason: "Replaced duplicate tool results"@,
                            },
                        )
                    } else {
                        p.events
                    },
                    calls: p.calls.push(
                        ToolCallView {
                            status: ToolCallStatus::Deduped,
                            saved: metrics::saved(n, a),
                            ..call
                        },
                    ),
                    ..p
                },
            },
            None => Examined { block, progress: p },
        }
    } else {
        Examined {
            block,
            progress: Progress {
                tools: if p.tools.dom().contains(hash) {
                    p.tools
                } else {
                    p.tools.insert(hash, (id, n))
                },
                calls: p.calls.push(call),
                ..p
            },
        }
    }
}

/// Content blocks or messages, and what is known and done once they have come.
pub struct AllExamined {
    pub items: Seq<JsonView>,
    pub progress: Progress,
}

pub open spec fn blocks_examined(
    p: Progress,
    uses: Seq<ToolUseView>,
    blocks: Seq<JsonView>,
) -> AllExamined
    decreases blocks.len(),
{
    if blocks.len() == 0 {
        AllExamined { items: Seq::empty(), progress: p }
    } else {
        let before = blocks_examined(p, uses, blocks.drop_last());
        let last = examined(before.progress, uses, blocks.last());
        AllExamined { items: before.items.push(last.block), progress: last.progress }
    }
}

/// A message of the assistant is passed over.
pub open spec fn message_examined(p: Progress, uses: Seq<ToolUseView>, message: JsonView) -> Examined {
    if message.text_of("role"@) == Some("assistant"@) {
        Examined { block: message, progress: p }
    } else {
        match message.items_of("content"@) {
            Some(blocks) => {
                let all = blocks_examined(p, uses, blocks);
                Examined {
                    block: message.with("content"@, JsonView::Array(all.items)),
                    progress: all.progress,
                }
            },
            None => Examined { block: message, progress: p },
        }
    }
}

pub open spec fn messages_examined(
    p: Progress,
    uses: Seq<ToolUseView>,
    messages: Seq<JsonView>,
) -> AllExamined
    decreases messages.len(),
{
    if messages.len() == 0 {
        AllExamined { items: Seq::empty(), progress: p }
    } else {
        let before = messages_examined(p, uses, messages.drop_last());
        let last = message_examined(before.progress, uses, messages.last());
        AllExamined { items: before.items.push(last.block), progress: last.progress }
    }
}

/// What is known before anything has been done.
pub open spec fn nothing_done(tools: Map<u64, session::EntryView>) -> Progress {
    Progress { tools, events: Seq::empty(), calls: Seq::empty() }
}

/// A request body without the tool results that the session has seen, and what
/// is known and done once it has come.
pub open spec fn deduped(tools: Map<u64, session::EntryView>, body: JsonView) -> Examined {
    match body.items_of("messages"@) {
        Some(messages) => {
            let all = messages_examined(nothing_done(tools), uses_of(messages), messages);
            Examined {
                block: body.with("messages"@, JsonView::Array(all.items)),
                progress: all.progress,
            }
        },
        None => Examined { block: body, progress: nothing_done(tools) },
    }
}

// ---------------------------------------------------------------------------
// The same, executed
// ---------------------------------------------------------------------------
/// What has been done so far.
struct Done {
    events: Vec<CompressionEvent>,
    calls: Vec<ToolCallInfo>,
}

spec fn progress(session: SessionView, done: Done) -> Progress {
    Progress {
        tools: session.tools,
        events: metrics::event_views(done.events@),
        calls: metrics::tool_call_views(done.calls@),
    }
}

/// The text that stands for the output of a tool that has been seen before.
pub fn placeholder_text(first_id: &str, tokens: usize) -> (r: String)
    ensures
        r@ == placeholder(first_id@, tokens as nat),
{
    let mut out = text::chars_of("[Janus: duplicate of tool result ");
    text::append_str(&mut out, first_id);
    text::append_str(&mut out, " — ");
    let number = text::decimal_chars(tokens as u64);
    text::append_chars(&mut out, number.as_slice());
    text::append_str(&mut out, " tokens omitted]");
    text::text_of(out.as_slice())
}

/// Whether a tool result is the same as one of another tool use.
pub fn repeats_another(seen: &Option<ToolResultEntry>, tool_use_id: &str) -> (r: bool)
    ensures
        r == match *seen {
            Some(e) => e.tool_use_id@ != tool_use_id@,
            None => false,
        },
{
    match seen {
        Some(e) => !text::same_text(e.tool_use_id.as_str(), tool_use_id),
        None => false,
    }
}

fn push_call(done: &mut Done, call: ToolCallInfo)
    ensures
        metrics::tool_call_views(final(done).calls@) == metrics::tool_call_views(
            old(done).calls@,
        ).push(call@),
        final(done).events == old(done).events,
{
    let ghost before = done.calls@;
    done.calls.push(call);
    assert(metrics::tool_call_views(done.calls@) =~= metrics::tool_call_views(before).push(call@));
}

/// Takes in a tool result with an output.
fn take_result(
    block: &Json,
    output: &str,
    n: usize,
    uses: &Vec<ToolUse>,
    session: &mut SessionData,
    done: &mut Done,
    tokenizer: &Tokenizer,
) -> (r: Json)
    requires
        block@ is Object,
    ensures
        ({
            let e = result_examined(
                progress(old(session)@, *old(done)),
                use_views(uses@),
                block@,
                output@,
                n as nat,
            );
            &&& r@ == e.block
            &&& progress(final(session)@, *final(done)) == e.progress
            &&& final(session)@.last_accessed == old(session)@.last_accessed
        }),
{
    let id = owned_or_empty(block, "tool_use_id");
    let (name, summary) = find_use(uses, id.as_str());
    let mut key = text::chars_of(name.as_str());
    key.push('\n');
    text::append_str(&mut key, output);
    assert(key@ =~= identity(name@, output@));
    let hash = hashing::hash_of(text::text_of(key.as_slice()).as_str().as_bytes());
    let seen = session.seen(hash);
    let mut copy = block.copy();
    if repeats_another(&seen, id.as_str()) {
        match &seen {
            Some(first) => {
                let note = placeholder_text(first.tool_use_id.as_str(), n);
                match tokenizer.count_tokens(note.as_str()) {
                    Some(a) => {
                        let event = regex_compress::stage_event(
                            n,
                            a,
                            "A_dedup",
                            "Replaced duplicate tool results",
                        );
                        let ghost before = done.events@;
                        match event {
                            Some(e) => {
                                done.events.push(e);
                                assert(metrics::event_views(done.events@) =~= metrics::event_views(
                                    before,
                                ).push(e@));
                            },
                            None => {},
                        }
                        copy.put("content", Json::text(note.as_str()));
                        push_call(
                            done,
                            ToolCallInfo {
                                tool_name: name,
                                input_summary: summary,
                                tool_use_id: id,
                                status: ToolCallStatus::Deduped,
                                tokens_saved: n.saturating_sub(a),
                            },
                        );
                    },
                    None => {},
                }
            },
            None => {},
        }
    } else {
        if seen.is_none() {
            session.record(
                hash,
                ToolResultEntry {
                    tool_use_id: text::owned(id.as_str()),
                    original_token_count: n,
                },
            );
        }
        push_call(
            done,
            ToolCallInfo {
                tool_name: name,
                input_summary: summary,
                tool_use_id: id,
                status: ToolCallStatus::Kept,
                tokens_saved: 0,
            },
        );
    }
    copy
}

/// Takes in a content block.
fn take_block(
    block: &Json,
    uses: &Vec<ToolUse>,
    session: &mut SessionData,
    done: &mut Done,
    tokenizer: &Tokenizer,
) -> (r: Json)
    ensures
        ({
            let e = examined(progress(old(session)@, *old(done)), use_views(uses@), block@);
            &&& r@ == e.block
            &&& progress(final(session)@, *final(done)) == e.progress
            &&& final(session)@.last_accessed == old(session)@.last_accessed
        }),
{
    if !block.text_is("type", "tool_result") {
        return block.copy();
    }
    let output: String = match block.get("content") {
        Some(Json::Text(s)) => text::owned(s.as_str()),
        Some(v) => v.render(),
        None => {
            return block.copy();
        },
    };
    assert(output_of(block@) == Some(output@));
    match tokenizer.count_tokens(output.as_str()) {
        Some(n) => {
            if text::chars_of(output.as_str()).len() == 0 {
                block.copy()
            } else {
                take_result(block, output.as_str(), n, uses, session, done, tokenizer)
            }
        },
        None => block.copy(),
    }
}

/// Takes in content blocks.
fn take_blocks(
    blocks: &Vec<Json>,
    uses: &Vec<ToolUse>,
    session: &mut SessionData,
    done: &mut Done,
    tokenizer: &Tokenizer,
) -> (r: Vec<Json>)
    ensures
        ({
            let e = blocks_examined(
                progress(old(session)@, *old(done)),
                use_views(uses@),
                json::view_items(blocks@),
            );
            &&& json::view_items(r@) == e.items
            &&& progress(final(session)@, *final(done)) == e.progress
            &&& final(session)@.last_accessed == old(session)@.last_accessed
        }),
{
    let ghost p = progress(session@, *done);
    let ghost at = session@.last_accessed;
    let ghost views = json::view_items(blocks@);
    let mut out: Vec<Json> = Vec::new();
    let mut i: usize = 0;
    proof {
        json::lemma_view_items(blocks@);
        assert(views.take(0) =~= Seq::empty());
    }
    while i < blocks.len()
        invariant
            i <= blocks@.len(),
            views == json::view_items(blocks@),
            views.len() == blocks@.len(),
            json::view_items(out@) == blocks_examined(
                p,
                use_views(uses@),
                views.take(i as int),
            ).items,
            progress(session@, *done) == blocks_examined(
                p,
                use_views(uses@),
                views.take(i as int),
            ).progress,
            session@.last_accessed == at,
        decreases blocks@.len() - i,
    {
        proof {
            json::lemma_view_items(blocks@);
            assert(views.take(i + 1).drop_last() =~= views.take(i as int));
            assert(views.take(i + 1).last() == blocks@[i as int]@);
        }
        let block = take_block(&blocks[i], uses, session, done, tokenizer);
        let ghost before = out@;
        out.push(block);
        assert(out@.drop_last() =~= before);
        i += 1;
    }
    assert(views.take(views.len() as int) =~= views);
    out
}

/// Takes in a message.
fn take_message(
    message: &Json,
    uses: &Vec<ToolUse>,
    session: &mut SessionData,
    done: &mut Done,
    tokenizer: &Tokenizer,
) -> (r: Json)
    ensures
        ({
            let e = message_examined(
                progress(old(session)@, *old(done)),
                use_views(uses@),
                message@,
            );
            &&& r@ == e.block
            &&& progress(final(session)@, *final(done)) == e.progress
            &&& final(session)@.last_accessed == old(session)@.last_accessed
        }),
{
    let mut copy = message.copy();
    if !message.text_is("role", "assistant") {
        match message.items_of("content") {
            Some(blocks) => {
                let taken = take_blocks(blocks, uses, session, done, tokenizer);
                copy.put("content", Json::Array(taken));
            },
            None => {},
        }
    }
    copy
}

/// Replaces the tool results of a request body that the session has already
/// seen from another tool use. The first of its kind stays. Returns an event
/// for each replacement that took tokens away, and what became of each tool
/// result.
pub fn dedup(body: &mut Json, session: &mut SessionData, tokenizer: &Tokenizer) -> (r: (
    Vec<CompressionEvent>,
    Vec<ToolCallInfo>,
))
    ensures
        ({
            let e = deduped(old(session)@.tools, old(body)@);
            &&& final(body)@ == e.block
            &&& final(session)@ == (SessionView { tools: e.progress.tools, ..old(session)@ })
            &&& metrics::event_views(r.0@) == e.progress.events
            &&& metrics::tool_call_views(r.1@) == e.progress.calls
        }),
{
    let ghost tools = session@.tools;
    let ghost at = session@.last_accessed;
    let mut done = Done { events: Vec::new(), calls: Vec::new() };
    proof {
        assert(metrics::event_views(done.events@) =~= Seq::empty());
        assert(metrics::tool_call_views(done.calls@) =~= Seq::empty());
    }
    let mut out: Vec<Json> = Vec::new();
    match body.items_of("messages") {
        Some(messages) => {
            let uses = collect_uses(messages);
            let ghost views = json::view_items(messages@);
            let mut i: usize = 0;
            proof {
                json::lemma_view_items(messages@);
                assert(views.take(0) =~= Seq::empty());
            }
            while i < messages.len()
                invariant
                    i <= messages@.len(),
                    views == json::view_items(messages@),
                    views.len() == messages@.len(),
                    json::view_items(out@) == messages_examined(
                        nothing_done(tools),
                        use_views(uses@),
                        views.take(i as int),
                    ).items,
                    progress(session@, done) == messages_examined(
                        nothing_done(tools),
                        use_views(uses@),
                        views.take(i as int),
                    ).progress,
                    session@.last_accessed == at,
                decreases messages@.len() - i,
            {
                proof {
                    json::lemma_view_items(messages@);
                    assert(views.take(i + 1).drop_last() =~= views.take(i as int));
                    assert(views.take(i + 1).last() == messages@[i as int]@);
                }
                let message = take_message(&messages[i], &uses, session, &mut done, tokenizer);
                let ghost before = out@;
                out.push(message);
                assert(out@.drop_last() =~= before);
                i += 1;
            }
            assert(views.take(views.len() as int) =~= views);
        },
        None => {
            return (done.events, done.calls);
        },
    }
    body.put("messages", Json::Array(out));
    (done.events, done.calls)
}

// ---------------------------------------------------------------------------
// Laws
// ---------------------------------------------------------------------------
/// Every tool result of `a` is in `b`.
pub open spec fn known_in(a: Map<u64, session::EntryView>, b: Map<u64, session::EntryView>) -> bool {
    forall|h: u64| #[trigger] a.dom().contains(h) ==> b.dom().contains(h) && b[h] == a[h]
}

proof fn lemma_blocks_remembered(p: Progress, uses: Seq<ToolUseView>, blocks: Seq<JsonView>)
    ensures
        known_in(p.tools, blocks_examined(p, uses, blocks).progress.tools),
    decreases blocks.len(),
{
    if blocks.len() > 0 {
        lemma_blocks_remembered(p, uses, blocks.drop_last());
    }
}

proof fn lemma_messages_remembered(p: Progress, uses: Seq<ToolUseView>, messages: Seq<JsonView>)
    ensures
        known_in(p.tools, messages_examined(p, uses, messages).progress.tools),
    decreases messages.len(),
{
    if messages.len() > 0 {
        lemma_messages_remembered(p, uses, messages.drop_last());
        let before = messages_examined(p, uses, messages.drop_last()).progress;
        match messages.last().items_of("content"@) {
            Some(blocks) => {
                lemma_blocks_remembered(before, uses, blocks);
            },
            None => {},
        }
    }
}

/// A session never forgets a tool result, nor the tool use that it first came
/// from.
pub proof fn tool_results_are_remembered(tools: Map<u64, session::EntryView>, body: JsonView)
    ensures
        known_in(tools, deduped(tools, body).progress.tools),
{
    match body.items_of("messages"@) {
        Some(messages) => {
            lemma_messages_remembered(nothing_done(tools), uses_of(messages), messages);
        },
        None => {},
    }
}

/// A block fares the same with all that is known after it as with what was
/// known before it.
proof fn lemma_block_again(p: Progress, q: Progress, uses: Seq<ToolUseView>, block: JsonView)
    requires
        known_in(examined(p, uses, block).progress.tools, q.tools),
    ensures
        examined(q, uses, block).block == examined(p, uses, block).block,
        examined(q, uses, block).progress.tools == q.tools,
{
    let after = examined(p, uses, block).progress.tools;
    if block.text_of("type"@) == Some("tool_result"@) {
        match output_of(block) {
            Some(output) => {
                let id = text_or_empty(block, "tool_use_id"@);
                let hash = output_hash(use_of(uses, id).name, output);
                if tokenizer::tokens(output) is Some && output.len() > 0 {
                    if p.tools.dom().contains(hash) {
                        assert(after == p.tools);
                        assert(after.dom().contains(hash));
                    } else {
                        assert(after.dom().contains(hash));
                        assert(after[hash].0 == id);
                    }
                }
            },
            None => {},
        }
    }
}

proof fn lemma_blocks_again(p: Progress, q: Progress, uses: Seq<ToolUseView>, blocks: Seq<JsonView>)
    requires
        known_in(blocks_examined(p, uses, blocks).progress.tools, q.tools),
    ensures
        blocks_examined(q, uses, blocks).items == blocks_examined(p, uses, blocks).items,
        blocks_examined(q, uses, blocks).progress.tools == q.tools,
    decreases blocks.len(),
{
    if blocks.len() > 0 {
        let less = blocks.drop_last();
        let before = blocks_examined(p, uses, less).progress;
        let after = blocks_examined(p, uses, blocks).progress;
        lemma_blocks_remembered(before, uses, seq![blocks.last()]);
        reveal_with_fuel(blocks_examined, 2);
        assert(seq![blocks.last()].drop_last() =~= Seq::empty());
        assert(blocks_examined(before, uses, seq![blocks.last()]).progress == after);
        assert(known_in(before.tools, q.tools));
        lemma_blocks_again(p, q, uses, less);
        let q2 = blocks_examined(q, uses, less).progress;
        lemma_block_again(before, q2, uses, blocks.last());
    }
}

proof fn lemma_message_again(p: Progress, q: Progress, uses: Seq<ToolUseView>, message: JsonView)
    requires
        known_in(message_examined(p, uses, message).progress.tools, q.tools),
    ensures
        message_examined(q, uses, message).block == message_examined(p, uses, message).block,
        message_examined(q, uses, message).progress.tools == q.tools,
{
    match message.items_of("content"@) {
        Some(blocks) => {
            if message.text_of("role"@) != Some("assistant"@) {
                lemma_blocks_again(p, q, uses, blocks);
            }
        },
        None => {},
    }
}

proof fn lemma_messages_again(
    p: Progress,
    q: Progress,
    uses: Seq<ToolUseView>,
    messages: Seq<JsonView>,
)
    requires
        known_in(messages_examined(p, uses, messages).progress.tools, q.tools),
    ensures
        messages_examined(q, uses, messages).items == messages_examined(p, uses, messages).items,
        messages_examined(q, uses, messages).progress.tools == q.tools,
    decreases messages.len(),
{
    if messages.len() > 0 {
        let less = messages.drop_last();
        let before = messages_examined(p, uses, less).progress;
        lemma_messages_remembered(before, uses, seq![messages.last()]);
        reveal_with_fuel(messages_examined, 2);
        assert(seq![messages.last()].drop_last() =~= Seq::empty());
        assert(messages_examined(before, uses, seq![messages.last()]).progress
            == messages_examined(p, uses, messages).progress);
        lemma_messages_again(p, q, uses, less);
        let q2 = messages_examined(q, uses, less).progress;
        lemma_message_again(before, q2, uses, messages.last());
    }
}

/// A conversation that is sent again is deduplicated as it was before: what
/// stayed stays, and what was replaced is replaced by the same text.
pub proof fn resending_changes_nothing(tools: Map<u64, session::EntryView>, body: JsonView)
    ensures
        deduped(deduped(tools, body).progress.tools, body).block == deduped(tools, body).block,
        deduped(deduped(tools, body).progress.tools, body).progress.tools == deduped(
            tools,
            body,
        ).progress.tools,
{
    match body.items_of("messages"@) {
        Some(messages) => {
            let uses = uses_of(messages);
            let p = nothing_done(tools);
            let after = messages_examined(p, uses, messages).progress.tools;
            lemma_messages_again(p, nothing_done(after), uses, messages);
        },
        None => {},
    }
}

/// The first result of a tool with some output is kept. Any later one with the
/// same output, from another tool use, is replaced, however much the session
/// has seen in between.
pub proof fn only_later_results_are_replaced(
    p: Progress,
    q: Progress,
    uses: Seq<ToolUseView>,
    later_uses: Seq<ToolUseView>,
    first: JsonView,
    later: JsonView,
    output: Seq<char>,
)
    requires
        known_in(examined(p, uses, first).progress.tools, q.tools),
    ensures
        ({
            let id = text_or_empty(first, "tool_use_id"@);
            let other_id = text_or_empty(later, "tool_use_id"@);
            let hash = output_hash(use_of(uses, id).name, output);
            // Two results of the same tool with the same output, the first of
            // which is new to the session.
            first.text_of("type"@) == Some("tool_result"@) && later.text_of("type"@) == Some(
                "tool_result"@,
            ) && output_of(first) == Some(output) && output_of(later) == Some(output)
                && output.len() > 0 && id != other_id && use_of(uses, id).name == use_of(
                later_uses,
                other_id,
            ).name && !p.tools.dom().contains(hash) ==> {
                &&& examined(p, uses, first).block == first
                &&& tokenizer::tokens(output) matches Some(n) ==> tokenizer::tokens(
                    placeholder(id, n),
                ) is Some ==> examined(q, later_uses, later).block == later.with(
                    "content"@,
                    JsonView::Text(placeholder(id, n)),
                )
            }
        }),
{
    let id = text_or_empty(first, "tool_use_id"@);
    let hash = output_hash(use_of(uses, id).name, output);
    let once = examined(p, uses, first).progress.tools;
    assert(once.dom().contains(hash) ==> q.tools.dom().contains(hash) && q.tools[hash]
        == once[hash]);
}

/// Deduplication leaves everything but tool results as it is.
pub proof fn other_blocks_stay(p: Progress, uses: Seq<ToolUseView>, block: JsonView)
    requires
        block.text_of("type"@) != Some("tool_result"@),
    ensures
        examined(p, uses, block).block == block,
        examined(p, uses, block).progress == p,
{
}

/// Deduplication leaves the messages of the assistant as they are.
pub proof fn assistant_messages_stay(p: Progress, uses: Seq<ToolUseView>, message: JsonView)
    requires
        message.text_of("role"@) == Some("assistant"@),
    ensures
        message_examined(p, uses, message).block == message,
        message_examined(p, uses, message).progress == p,
{
}

} // verus!
