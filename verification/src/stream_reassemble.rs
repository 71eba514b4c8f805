//! From a stream of server-sent events to one response, and back.
use std::collections::HashMap;
use vstd::prelude::*;
use vstd::string::*;
use vstd::utf8::*;

use crate::json;
use crate::json::{Json, JsonView};
use crate::stream_round_trip;
use crate::text;

verus! {

// ---------------------------------------------------------------------------
// Keeping a copy of a stream
// ---------------------------------------------------------------------------
/// The most that is kept of a stream, in bytes: 10 MB.
pub const MAX_BUFFER_SIZE: usize = 10_485_760;

/// What is kept of a stream while its chunks are forwarded. Once the stream
/// has failed, has grown past `MAX_BUFFER_SIZE` or has ended, nothing is.
pub struct StreamTee {
    kept: Option<Vec<u8>>,
}

/// What is kept once a chunk has come.
pub open spec fn kept_with(kept: Option<Seq<u8>>, chunk: Seq<u8>) -> Option<Seq<u8>> {
    match kept {
        Some(bytes) => if bytes.len() + chunk.len() <= MAX_BUFFER_SIZE {
            Some(bytes + chunk)
        } else {
            None
        },
        None => None,
    }
}

/// What is kept of a run of chunks.
pub open spec fn kept_of(chunks: Seq<Seq<u8>>) -> Option<Seq<u8>>
    decreases chunks.len(),
{
    if chunks.len() == 0 {
        Some(Seq::empty())
    } else {
        kept_with(kept_of(chunks.drop_last()), chunks.last())
    }
}

impl View for StreamTee {
    type V = Option<Seq<u8>>;

    closed spec fn view(&self) -> Option<Seq<u8>> {
        match self.kept {
            Some(bytes) => Some(bytes@),
            None => None,
        }
    }
}

impl StreamTee {
    /// Starts to keep a stream.
    pub fn new() -> (r: Self)
        ensures
            r@ == Some(Seq::<u8>::empty()),
    {
        StreamTee { kept: Some(Vec::new()) }
    }

    /// Takes in a chunk that is forwarded.
    pub fn chunk(&mut self, bytes: &[u8])
        ensures
            final(self)@ == kept_with(old(self)@, bytes@),
    {
        match self.kept.take() {
            Some(mut kept) => {
                if kept.len() <= MAX_BUFFER_SIZE && bytes.len() <= MAX_BUFFER_SIZE - kept.len() {
                    kept.extend_from_slice(bytes);
                    self.kept = Some(kept);
                }
            },
            None => {},
        }
    }

    /// Takes in that the stream has failed: nothing is kept of it.
    pub fn fail(&mut self)
        ensures
            final(self)@ is None,
    {
        self.kept = None;
    }

    /// Takes in that the stream has ended, and gives out what was kept.
    pub fn finish(&mut self) -> (r: Option<Vec<u8>>)
        ensures
            old(self)@ == match r {
                Some(bytes) => Some(bytes@),
                None => None,
            },
            final(self)@ is None,
    {
        self.kept.take()
    }
}

/// A stream that does not fail is kept whole, unless it is longer than
/// `MAX_BUFFER_SIZE`: nothing is kept of it then.
pub proof fn tee_keeps_whole_streams(chunks: Seq<Seq<u8>>)
    ensures
        kept_of(chunks) == if chunks.flatten().len() <= MAX_BUFFER_SIZE {
            Some(chunks.flatten())
        } else {
            None
        },
    decreases chunks.len(),
{
    broadcast use Seq::lemma_flatten_push;

    if chunks.len() == 0 {
        assert(chunks.flatten() =~= Seq::empty());
    } else {
        tee_keeps_whole_streams(chunks.drop_last());
        assert(chunks =~= chunks.drop_last().push(chunks.last()));
        assert(chunks.flatten() == chunks.drop_last().flatten() + chunks.last());
    }
}

// ---------------------------------------------------------------------------
// Reading the events of a stream
// ---------------------------------------------------------------------------
/// The value that a line of a stream carries: the JSON text behind `data: `.
pub open spec fn line_event(line: Seq<char>) -> Option<JsonView> {
    let t = text::trim(line);
    if text::starts_with(t, "data: "@) {
        json::json_parsed(encode_utf8(t.skip(6)))
    } else {
        None
    }
}

/// The values that lines of a stream carry, in order.
pub open spec fn line_events(lines: Seq<Seq<char>>) -> Seq<JsonView>
    decreases lines.len(),
{
    if lines.len() == 0 {
        Seq::empty()
    } else {
        match line_event(lines.last()) {
            Some(e) => line_events(lines.drop_last()).push(e),
            None => line_events(lines.drop_last()),
        }
    }
}

/// The string that a key has for its value, or the empty string.
pub open spec fn text_or_empty(j: JsonView, key: Seq<char>) -> Seq<char> {
    match j.text_of(key) {
        Some(s) => s,
        None => Seq::empty(),
    }
}

/// The content block that an event is about.
pub open spec fn event_index(event: JsonView) -> usize {
    match event.get("index"@) {
        Some(i) => match i.as_u64() {
            Some(u) => u as usize,
            None => 0,
        },
        None => 0,
    }
}

/// What has been gathered from a stream.
pub struct AssemblyView {
    /// The message that the stream started with.
    pub base: Option<JsonView>,
    pub blocks: Seq<JsonView>,
    /// What the deltas of each content block add up to, by kind of delta.
    pub text: Map<usize, Seq<char>>,
    pub json: Map<usize, Seq<char>>,
    pub thinking: Map<usize, Seq<char>>,
    pub signature: Map<usize, Seq<char>>,
    pub stop_reason: Option<JsonView>,
    pub stop_sequence: Option<JsonView>,
    pub usage: Option<JsonView>,
    /// Whether the stream came to its end.
    pub stopped: bool,
}

pub open spec fn nothing_gathered() -> AssemblyView {
    AssemblyView {
        base: None,
        blocks: Seq::empty(),
        text: Map::empty(),
        json: Map::empty(),
        thinking: Map::empty(),
        signature: Map::empty(),
        stop_reason: None,
        stop_sequence: None,
        usage: None,
        stopped: false,
    }
}

/// `m` with `tail` appended to what it has at `i`.
pub open spec fn extended(m: Map<usize, Seq<char>>, i: usize, tail: Seq<char>) -> Map<
    usize,
    Seq<char>,
> {
    m.insert(
        i,
        if m.dom().contains(i) {
            m[i] + tail
        } else {
            tail
        },
    )
}

/// A text block without text.
pub open spec fn empty_text_block() -> JsonView {
    JsonView::Object(Map::empty()).with("type"@, JsonView::Text("text"@)).with(
        "text"@,
        JsonView::Text(Seq::empty()),
    )
}

/// `blocks`, filled up with empty text blocks to a length of more than `i`.
pub open spec fn filled_up(blocks: Seq<JsonView>, i: nat) -> Seq<JsonView> {
    if blocks.len() > i {
        blocks
    } else {
        blocks + Seq::new((i + 1 - blocks.len()) as nat, |k: int| empty_text_block())
    }
}

/// What is gathered once a `content_block_delta` has come.
pub open spec fn gather_delta(a: AssemblyView, i: usize, delta: JsonView) -> AssemblyView {
    let kind = text_or_empty(delta, "type"@);
    if kind == "text_delta"@ {
        match delta.text_of("text"@) {
            Some(s) => AssemblyView { text: extended(a.text, i, s), ..a },
            None => a,
        }
    } else if kind == "input_json_delta"@ {
        match delta.text_of("partial_json"@) {
            Some(s) => AssemblyView { json: extended(a.json, i, s), ..a },
            None => a,
        }
    } else if kind == "thinking_delta"@ {
        match delta.text_of("thinking"@) {
            Some(s) => AssemblyView { thinking: extended(a.thinking, i, s), ..a },
            None => a,
        }
    } else if kind == "signature_delta"@ {
        match delta.text_of("signature"@) {
            Some(s) => AssemblyView { signature: extended(a.signature, i, s), ..a },
            None => a,
        }
    } else {
        a
    }
}

/// What is gathered once an event has come.
pub open spec fn gather(a: AssemblyView, event: JsonView) -> AssemblyView {
    let kind = text_or_empty(event, "type"@);
    let i = event_index(event);
    if kind == "message_start"@ {
        match event.get("message"@) {
            Some(m) => AssemblyView { base: Some(m), ..a },
            None => a,
        }
    } else if kind == "content_block_start"@ {
        let block = match event.get("content_block"@) {
            Some(b) => b,
            None => empty_text_block(),
        };
        AssemblyView { blocks: filled_up(a.blocks, i as nat).update(i as int, block), ..a }
    } else if kind == "content_block_delta"@ {
        match event.get("delta"@) {
            Some(delta) => gather_delta(a, i, delta),
            None => a,
        }
    } else if kind == "message_delta"@ {
        let b = match event.get("delta"@) {
            Some(delta) => AssemblyView {
                stop_reason: delta.get("stop_reason"@),
                stop_sequence: delta.get("stop_sequence"@),
                ..a
            },
            None => a,
        };
        match event.get("usage"@) {
            Some(u) => AssemblyView { usage: Some(u), ..b },
            None => b,
        }
    } else if kind == "message_stop"@ {
        AssemblyView { stopped: true, ..a }
    } else {
        a
    }
}

/// What is gathered from a run of events.
pub open spec fn gather_all(events: Seq<JsonView>) -> AssemblyView
    decreases events.len(),
{
    if events.len() == 0 {
        nothing_gathered()
    } else {
        gather(gather_all(events.drop_last()), events.last())
    }
}

// ---------------------------------------------------------------------------
// Putting the response together
// ---------------------------------------------------------------------------
/// The content block at `i` with what its deltas add up to.
pub open spec fn finished_block(a: AssemblyView, i: usize, block: JsonView) -> JsonView {
    let kind = text_or_empty(block, "type"@);
    if kind == "text"@ {
        if a.text.dom().contains(i) {
            block.with("text"@, JsonView::Text(a.text[i]))
        } else {
            block
        }
    } else if kind == "tool_use"@ {
        if a.json.dom().contains(i) {
            match json::json_parsed(encode_utf8(a.json[i])) {
                Some(input) => block.with("input"@, input),
                None => block,
            }
        } else {
            block
        }
    } else if kind == "thinking"@ {
        let thought = block.with(
            "thinking"@,
            JsonView::Text(
                if a.thinking.dom().contains(i) {
                    a.thinking[i]
                } else {
                    Seq::empty()
                },
            ),
        );
        if a.signature.dom().contains(i) {
            thought.with("signature"@, JsonView::Text(a.signature[i]))
        } else {
            thought
        }
    } else {
        block
    }
}

pub open spec fn finished_blocks(a: AssemblyView) -> Seq<JsonView> {
    Seq::new(a.blocks.len(), |i: int| finished_block(a, i as usize, a.blocks[i]))
}

/// `message` with the fields of `usage` over those of its own usage.
pub open spec fn with_usage(message: JsonView, usage: Option<JsonView>) -> JsonView {
    match (message.get("usage"@), usage) {
        (Some(JsonView::Object(have)), Some(JsonView::Object(more))) => message.with(
            "usage"@,
            JsonView::Object(have.union_prefer_right(more)),
        ),
        _ => message,
    }
}

pub open spec fn with_if_some(message: JsonView, key: Seq<char>, value: Option<JsonView>) -> JsonView {
    match value {
        Some(v) => message.with(key, v),
        None => message,
    }
}

/// The response that the gathered events make, if the stream came to its end
/// and started with a message.
pub open spec fn assembled(a: AssemblyView) -> Option<JsonView> {
    match a.base {
        Some(base) => if a.stopped && base.takes_fields() {
            let m1 = base.with("content"@, JsonView::Array(finished_blocks(a)));
            let m2 = with_if_some(m1, "stop_reason"@, a.stop_reason);
            let m3 = with_if_some(m2, "stop_sequence"@, a.stop_sequence);
            Some(with_usage(m3, a.usage).without("delta"@))
        } else {
            None
        },
        None => None,
    }
}

/// The response that a stream carries.
pub open spec fn reconstructed(sse: Seq<char>) -> Option<JsonView> {
    assembled(gather_all(line_events(text::lines(sse))))
}

// ---------------------------------------------------------------------------
// The same, executed
// ---------------------------------------------------------------------------
spec fn opt_view(j: Option<Json>) -> Option<JsonView> {
    match j {
        Some(v) => Some(v@),
        None => None,
    }
}

spec fn texts(m: Map<usize, String>) -> Map<usize, Seq<char>> {
    m.map_values(|s: String| s@)
}

/// What has been gathered from a stream so far.
struct Assembly {
    base: Option<Json>,
    blocks: Vec<Json>,
    text: HashMap<usize, String>,
    json: HashMap<usize, String>,
    thinking: HashMap<usize, String>,
    signature: HashMap<usize, String>,
    stop_reason: Option<Json>,
    stop_sequence: Option<Json>,
    usage: Option<Json>,
    stopped: bool,
}

impl View for Assembly {
    type V = AssemblyView;

    closed spec fn view(&self) -> AssemblyView {
        AssemblyView {
            base: opt_view(self.base),
            blocks: json::view_items(self.blocks@),
            text: texts(self.text@),
            json: texts(self.json@),
            thinking: texts(self.thinking@),
            signature: texts(self.signature@),
            stop_reason: opt_view(self.stop_reason),
            stop_sequence: opt_view(self.stop_sequence),
            usage: opt_view(self.usage),
            stopped: self.stopped,
        }
    }
}

/// A copy of the value of a key.
fn copy_of(j: &Json, key: &str) -> (r: Option<Json>)
    ensures
        opt_view(r) == j@.get(key@),
{
    match j.get(key) {
        Some(v) => Some(v.copy()),
        None => None,
    }
}

/// A text block without text.
fn blank_block() -> (r: Json)
    ensures
        r@ == empty_text_block(),
{
    let mut block = Json::object();
    block.put("type", Json::text("text"));
    block.put("text", Json::Text(String::new()));
    block
}

/// Appends `tail` to what `m` has at `i`.
fn extend(m: &mut HashMap<usize, String>, i: usize, tail: &str)
    ensures
        texts(final(m)@) == extended(texts(old(m)@), i, tail@),
{
    broadcast use vstd::std_specs::hash::group_hash_axioms;

    let mut chars: Vec<char> = Vec::new();
    match m.get(&i) {
        Some(have) => text::append_str(&mut chars, have.as_str()),
        None => {},
    }
    text::append_str(&mut chars, tail);
    let ghost before = m@;
    m.insert(i, text::text_of(chars.as_slice()));
    assert(texts(m@) =~= extended(texts(before), i, tail@));
}

impl Assembly {
    fn new() -> (r: Self)
        ensures
            r@ == nothing_gathered(),
    {
        broadcast use vstd::std_specs::hash::group_hash_axioms;

        let r = Assembly {
            base: None,
            blocks: Vec::new(),
            text: HashMap::new(),
            json: HashMap::new(),
            thinking: HashMap::new(),
            signature: HashMap::new(),
            stop_reason: None,
            stop_sequence: None,
            usage: None,
            stopped: false,
        };
        assert(texts(Map::<usize, String>::empty()) =~= Map::<usize, Seq<char>>::empty());
        r
    }

    /// Takes in the delta of the content block at `i`.
    fn take_delta(&mut self, i: usize, delta: &Json)
        ensures
            final(self)@ == gather_delta(old(self)@, i, delta@),
    {
        proof {
            lemma_delta_kinds();
        }
        if delta.text_is("type", "text_delta") {
            match delta.text_of("text") {
                Some(s) => extend(&mut self.text, i, s),
                None => {},
            }
        } else if delta.text_is("type", "input_json_delta") {
            match delta.text_of("partial_json") {
                Some(s) => extend(&mut self.json, i, s),
                None => {},
            }
        } else if delta.text_is("type", "thinking_delta") {
            match delta.text_of("thinking") {
                Some(s) => extend(&mut self.thinking, i, s),
                None => {},
            }
        } else if delta.text_is("type", "signature_delta") {
            match delta.text_of("signature") {
                Some(s) => extend(&mut self.signature, i, s),
                None => {},
            }
        }
    }

    /// Puts `block` at `i`, behind as many empty text blocks as that takes.
    fn place_block(&mut self, i: usize, block: Json)
        ensures
            final(self)@ == (AssemblyView {
                blocks: filled_up(old(self)@.blocks, i as nat).update(i as int, block@),
                ..old(self)@
            }),
    {
        broadcast use json::lemma_view_items;

        let ghost before = self.blocks@;
        while self.blocks.len() <= i
            invariant
                *self == (Assembly { blocks: self.blocks, ..*old(self) }),
                before == old(self).blocks@,
                self.blocks@.len() >= before.len(),
                self.blocks@.len() > before.len() ==> self.blocks@.len() <= i + 1,
                forall|k: int| 0 <= k < before.len() ==> self.blocks@[k] == before[k],
                forall|k: int|
                    before.len() <= k < self.blocks@.len() ==> #[trigger] view_at(self.blocks@, k)
                        == empty_text_block(),
            decreases i + 1 - self.blocks@.len(),
        {
            let blank = blank_block();
            let ghost last = self.blocks@;
            self.blocks.push(blank);
            assert forall|k: int| before.len() <= k < self.blocks@.len() implies #[trigger] view_at(
                self.blocks@,
                k,
            ) == empty_text_block() by {
                if k < last.len() {
                    assert(view_at(last, k) == empty_text_block());
                }
            }
        }
        let ghost filled = self.blocks@;
        self.blocks.set(i, block);
        assert(json::view_items(self.blocks@) =~= filled_up(
            json::view_items(before),
            i as nat,
        ).update(i as int, block@)) by {
            assert forall|k: int| 0 <= k < self.blocks@.len() implies json::view_items(
                self.blocks@,
            )[k] == filled_up(json::view_items(before), i as nat).update(i as int, block@)[k] by {
                json::lemma_view_items(self.blocks@);
                json::lemma_view_items(before);
                if k != i && k >= before.len() {
                    assert(view_at(filled, k) == empty_text_block());
                }
            }
        }
    }

    /// Takes in an event.
    fn take_event(&mut self, event: &Json)
        ensures
            final(self)@ == gather(old(self)@, event@),
    {
        proof {
            lemma_event_kinds();
        }
        let i: usize = match event.get("index") {
            Some(n) => match n.as_u64() {
                Some(u) => #[verifier::truncate] (u as usize),
                None => 0,
            },
            None => 0,
        };
        if event.text_is("type", "message_start") {
            match event.get("message") {
                Some(m) => {
                    self.base = Some(m.copy());
                },
                None => {},
            }
        } else if event.text_is("type", "content_block_start") {
            let block = match event.get("content_block") {
                Some(b) => b.copy(),
                None => blank_block(),
            };
            self.place_block(i, block);
        } else if event.text_is("type", "content_block_delta") {
            match event.get("delta") {
                Some(delta) => self.take_delta(i, delta),
                None => {},
            }
        } else if event.text_is("type", "message_delta") {
            match event.get("delta") {
                Some(delta) => {
                    self.stop_reason = copy_of(delta, "stop_reason");
                    self.stop_sequence = copy_of(delta, "stop_sequence");
                },
                None => {},
            }
            match event.get("usage") {
                Some(u) => {
                    self.usage = Some(u.copy());
                },
                None => {},
            }
        } else if event.text_is("type", "message_stop") {
            self.stopped = true;
        }
    }

    /// The content block at `i` with what its deltas add up to.
    fn finish_block(&self, i: usize) -> (r: Json)
        requires
            i < self@.blocks.len(),
        ensures
            r@ == finished_block(self@, i, self@.blocks[i as int]),
    {
        broadcast use vstd::std_specs::hash::group_hash_axioms;
        broadcast use json::lemma_view_items;

        proof {
            lemma_block_kinds();
        }
        let mut block = self.blocks[i].copy();
        if block.text_is("type", "text") {
            match self.text.get(&i) {
                Some(t) => block.put("text", Json::text(t.as_str())),
                None => {},
            }
        } else if block.text_is("type", "tool_use") {
            match self.json.get(&i) {
                Some(t) => match Json::parse(t.as_str().as_bytes()) {
                    Some(input) => block.put("input", input),
                    None => {},
                },
                None => {},
            }
        } else if block.text_is("type", "thinking") {
            match self.thinking.get(&i) {
                Some(t) => block.put("thinking", Json::text(t.as_str())),
                None => {
                    block.put("thinking", Json::Text(String::new()));
                    assert(Seq::<char>::empty() =~= ""@) by {
                        reveal_strlit("");
                    }
                },
            }
            match self.signature.get(&i) {
                Some(t) => block.put("signature", Json::text(t.as_str())),
                None => {},
            }
        }
        block
    }

    /// The response that the gathered events make.
    fn finish(self) -> (r: Option<Json>)
        ensures
            opt_view(r) == assembled(self@),
    {
        broadcast use json::lemma_view_items;

        if !self.stopped {
            return None;
        }
        let mut blocks: Vec<Json> = Vec::new();
        let mut i: usize = 0;
        while i < self.blocks.len()
            invariant
                i <= self.blocks@.len(),
                self@.blocks == json::view_items(self.blocks@),
                self@.blocks.len() == self.blocks@.len(),
                blocks@.len() == i,
                forall|k: int|
                    0 <= k < i ==> #[trigger] view_at(blocks@, k) == finished_block(
                        self@,
                        k as usize,
                        self@.blocks[k],
                    ),
            decreases self.blocks@.len() - i,
        {
            let block = self.finish_block(i);
            let ghost before = blocks@;
            blocks.push(block);
            assert forall|k: int| 0 <= k < i + 1 implies #[trigger] view_at(blocks@, k)
                == finished_block(self@, k as usize, self@.blocks[k]) by {
                if k < i {
                    assert(view_at(before, k) == finished_block(
                        self@,
                        k as usize,
                        self@.blocks[k],
                    ));
                }
            }
            i += 1;
        }
        assert(json::view_items(blocks@) =~= finished_blocks(self@)) by {
            assert forall|k: int| 0 <= k < blocks@.len() implies json::view_items(blocks@)[k]
                == finished_blocks(self@)[k] by {
                json::lemma_view_items(blocks@);
                assert(view_at(blocks@, k) == finished_block(
                    self@,
                    k as usize,
                    self@.blocks[k],
                ));
            }
        }
        let mut message = match self.base {
            Some(m) => m,
            None => {
                return None;
            },
        };
        if !message.takes_fields() {
            return None;
        }
        message.put("content", Json::Array(blocks));
        match self.stop_reason {
            Some(v) => message.put("stop_reason", v),
            None => {},
        }
        match self.stop_sequence {
            Some(v) => message.put("stop_sequence", v),
            None => {},
        }
        match self.usage {
            Some(more) => add_usage(&mut message, more),
            None => {},
        }
        message.remove("delta");
        Some(message)
    }
}

/// The view of the item at `k`.
spec fn view_at(items: Seq<Json>, k: int) -> JsonView {
    items[k]@
}

/// Sets the fields of `usage` over those of the usage of `message`.
fn add_usage(message: &mut Json, usage: Json)
    ensures
        final(message)@ == with_usage(old(message)@, Some(usage@)),
{
    let more = match usage {
        Json::Object(entries) => entries,
        _ => {
            return;
        },
    };
    let ghost whole = message@;
    match message.get_mut("usage") {
        Some(have) => {
            let is_object = match &*have {
                Json::Object(_) => true,
                _ => false,
            };
            if is_object {
                put_all(have, &more);
            } else {
                assert(whole.with("usage"@, have@) == whole) by {
                    assert(whole->Object_0.insert("usage"@, have@) =~= whole->Object_0);
                }
            }
        },
        None => {},
    }
}

/// Sets every field of `more` on `have`.
fn put_all(have: &mut Json, more: &Vec<(String, Json)>)
    requires
        old(have)@ is Object,
    ensures
        final(have)@ == JsonView::Object(
            old(have)@->Object_0.union_prefer_right(json::view_entries(more@)),
        ),
{
    let ghost start = have@->Object_0;
    let mut i: usize = 0;
    assert(start.union_prefer_right(json::view_entries(more@.take(0))) =~= start);
    while i < more.len()
        invariant
            i <= more@.len(),
            have@ == JsonView::Object(
                start.union_prefer_right(json::view_entries(more@.take(i as int))),
            ),
        decreases more@.len() - i,
    {
        have.put(more[i].0.as_str(), more[i].1.copy());
        proof {
            let next = more@.take(i + 1);
            assert(next.drop_last() =~= more@.take(i as int));
            assert(start.union_prefer_right(json::view_entries(more@.take(i as int))).insert(
                more@[i as int].0@,
                more@[i as int].1@,
            ) =~= start.union_prefer_right(json::view_entries(next)));
        }
        i += 1;
    }
    assert(more@.take(more@.len() as int) =~= more@);
}

pub proof fn lemma_event_kinds()
    ensures
        Seq::<char>::empty() != "message_start"@,
        Seq::<char>::empty() != "content_block_start"@,
        Seq::<char>::empty() != "content_block_delta"@,
        Seq::<char>::empty() != "message_delta"@,
        Seq::<char>::empty() != "message_stop"@,
{
    reveal_strlit("message_start");
    assert("message_start"@.len() == 13);
    reveal_strlit("content_block_start");
    assert("content_block_start"@.len() == 19);
    reveal_strlit("content_block_delta");
    assert("content_block_delta"@.len() == 19);
    reveal_strlit("message_delta");
    assert("message_delta"@.len() == 13);
    reveal_strlit("message_stop");
    assert("message_stop"@.len() == 12);
}

pub proof fn lemma_delta_kinds()
    ensures
        Seq::<char>::empty() != "text_delta"@,
        Seq::<char>::empty() != "input_json_delta"@,
        Seq::<char>::empty() != "thinking_delta"@,
        Seq::<char>::empty() != "signature_delta"@,
{
    reveal_strlit("text_delta");
    assert("text_delta"@.len() == 10);
    reveal_strlit("input_json_delta");
    assert("input_json_delta"@.len() == 16);
    reveal_strlit("thinking_delta");
    assert("thinking_delta"@.len() == 14);
    reveal_strlit("signature_delta");
    assert("signature_delta"@.len() == 15);
}

pub proof fn lemma_block_kinds()
    ensures
        Seq::<char>::empty() != "text"@,
        Seq::<char>::empty() != "tool_use"@,
        Seq::<char>::empty() != "thinking"@,
{
    reveal_strlit("text");
    assert("text"@.len() == 4);
    reveal_strlit("tool_use");
    assert("tool_use"@.len() == 8);
    reveal_strlit("thinking");
    assert("thinking"@.len() == 8);
}

/// The response that the events of a stream make. Returns `None` if the stream
/// did not come to its end or did not start with a message.
pub fn assemble(events: &Vec<Json>) -> (r: Option<Json>)
    ensures
        match assembled(gather_all(json::view_items(events@))) {
            Some(m) => r matches Some(message) && message@ == m,
            None => r is None,
        },
{
    let ghost views = json::view_items(events@);
    let mut assembly = Assembly::new();
    let mut i: usize = 0;
    proof {
        json::lemma_view_items(events@);
        assert(views.take(0) =~= Seq::empty());
    }
    while i < events.len()
        invariant
            i <= events@.len(),
            views == json::view_items(events@),
            views.len() == events@.len(),
            assembly@ == gather_all(views.take(i as int)),
        decreases events@.len() - i,
    {
        proof {
            json::lemma_view_items(events@);
            assert(views.take(i + 1).drop_last() =~= views.take(i as int));
            assert(views.take(i + 1).last() == events@[i as int]@);
        }
        assembly.take_event(&events[i]);
        i += 1;
    }
    assert(views.take(views.len() as int) =~= views);
    assembly.finish()
}

/// The value that a line of a stream carries.
fn read_line(line: &[char]) -> (r: Option<Json>)
    ensures
        opt_view(r) == line_event(line@),
{
    proof {
        reveal_strlit("data: ");
    }
    let t = text::trimmed(line);
    let prefix = text::chars_of("data: ");
    if !text::begins_with(t.as_slice(), prefix.as_slice()) {
        return None;
    }
    let rest = text::sub_chars(t.as_slice(), 6, t.len());
    assert(t@.subrange(6, t@.len() as int) =~= t@.skip(6));
    let json = text::text_of(rest.as_slice());
    Json::parse(json.as_str().as_bytes())
}

/// Reconstructs a non-streaming response from the text of a stream of events.
/// Returns `None` if the stream was incomplete or unparseable.
pub fn reconstruct_response(sse_data: &str) -> (r: Option<Vec<u8>>)
    ensures
        match reconstructed(sse_data@) {
            Some(m) => r matches Some(bytes) && bytes@ == encode_utf8(json::json_text(m)) && (
            json::plain(m, 127) ==> json::json_parsed(bytes@) == Some(m)),
            None => r is None,
        },
{
    let chars = text::chars_of(sse_data);
    let lines = text::split_lines(chars.as_slice());
    let ghost all = text::lines(sse_data@);
    let mut events: Vec<Json> = Vec::new();
    let mut i: usize = 0;
    assert(all.take(0) =~= Seq::empty());
    while i < lines.len()
        invariant
            i <= lines@.len(),
            all == text::views(lines@),
            json::view_items(events@) == line_events(all.take(i as int)),
        decreases lines@.len() - i,
    {
        proof {
            assert(all.take(i + 1).drop_last() =~= all.take(i as int));
            assert(all.take(i + 1).last() == lines@[i as int]@);
        }
        match read_line(lines[i].as_slice()) {
            Some(event) => {
                let ghost before = events@;
                events.push(event);
                assert(events@.drop_last() =~= before);
            },
            None => {},
        }
        i += 1;
    }
    assert(all.take(all.len() as int) =~= all);
    match assemble(&events) {
        Some(message) => Some(text::bytes_of(message.render().as_str())),
        None => None,
    }
}

// ---------------------------------------------------------------------------
// From a response to a stream
// ---------------------------------------------------------------------------
/// The text of one event of a stream: its type, and its JSON text.
pub open spec fn sse_frame(event: JsonView) -> Seq<char> {
    "event: "@ + text_or_empty(event, "type"@) + "\ndata: "@ + json::json_text(event) + "\n\n"@
}

/// The text of a stream.
pub open spec fn sse_text(events: Seq<JsonView>) -> Seq<char>
    decreases events.len(),
{
    if events.len() == 0 {
        Seq::empty()
    } else {
        sse_text(events.drop_last()) + sse_frame(events.last())
    }
}

/// An object with a `type` alone.
pub open spec fn typed(kind: Seq<char>) -> JsonView {
    JsonView::Object(Map::empty()).with("type"@, JsonView::Text(kind))
}

/// An event about the content block at `i`.
pub open spec fn block_event(kind: Seq<char>, i: int) -> JsonView {
    typed(kind).with("index"@, JsonView::Number(json::number_of(i as u64)))
}

/// The message as a stream starts with it: without content, without a reason
/// to stop, and without a count of output tokens.
pub open spec fn start_message(m: JsonView) -> JsonView {
    let bare = m.with("content"@, JsonView::Array(Seq::empty())).with(
        "stop_reason"@,
        JsonView::Null,
    ).with("stop_sequence"@, JsonView::Null);
    match bare.get("usage"@) {
        Some(usage) => bare.with("usage"@, usage.without("output_tokens"@)),
        None => bare,
    }
}

pub open spec fn start_event(m: JsonView) -> JsonView {
    typed("message_start"@).with("message"@, start_message(m))
}

/// The type of a content block: a block that does not say is a text block.
pub open spec fn block_kind(block: JsonView) -> Seq<char> {
    match block.text_of("type"@) {
        Some(kind) => kind,
        None => "text"@,
    }
}

/// The value of a key, or the empty string.
pub open spec fn value_or_empty(j: JsonView, key: Seq<char>) -> JsonView {
    match j.get(key) {
        Some(v) => v,
        None => JsonView::Text(Seq::empty()),
    }
}

/// A content block as a stream starts it.
pub open spec fn start_block(block: JsonView) -> JsonView {
    let kind = block_kind(block);
    if kind == "text"@ {
        typed("text"@).with("text"@, JsonView::Text(Seq::empty()))
    } else if kind == "tool_use"@ {
        typed("tool_use"@).with("id"@, value_or_empty(block, "id"@)).with(
            "name"@,
            value_or_empty(block, "name"@),
        ).with("input"@, JsonView::Object(Map::empty()))
    } else if kind == "thinking"@ {
        typed("thinking"@).with("thinking"@, JsonView::Text(Seq::empty()))
    } else {
        block
    }
}

/// The event that adds `content` to the block at `i`, if there is any.
pub open spec fn delta_events(i: int, kind: Seq<char>, key: Seq<char>, content: Seq<char>) -> Seq<
    JsonView,
> {
    if content.len() == 0 {
        Seq::empty()
    } else {
        seq![
            block_event("content_block_delta"@, i).with(
                "delta"@,
                typed(kind).with(key, JsonView::Text(content)),
            ),
        ]
    }
}

/// The events that add what a content block holds.
pub open spec fn fill_events(block: JsonView, i: int) -> Seq<JsonView> {
    let kind = block_kind(block);
    if kind == "text"@ {
        delta_events(i, "text_delta"@, "text"@, text_or_empty(block, "text"@))
    } else if kind == "tool_use"@ {
        match block.get("input"@) {
            Some(input) => delta_events(
                i,
                "input_json_delta"@,
                "partial_json"@,
                json::json_text(input),
            ),
            None => Seq::empty(),
        }
    } else if kind == "thinking"@ {
        delta_events(i, "thinking_delta"@, "thinking"@, text_or_empty(block, "thinking"@))
            + delta_events(i, "signature_delta"@, "signature"@, text_or_empty(block, "signature"@))
    } else {
        Seq::empty()
    }
}

/// The events of the content block at `i`.
pub open spec fn events_of_block(block: JsonView, i: int) -> Seq<JsonView> {
    seq![block_event("content_block_start"@, i).with("content_block"@, start_block(block))]
        + fill_events(block, i) + seq![block_event("content_block_stop"@, i)]
}

/// The events of content blocks.
pub open spec fn events_of_blocks(blocks: Seq<JsonView>) -> Seq<JsonView>
    decreases blocks.len(),
{
    if blocks.len() == 0 {
        Seq::empty()
    } else {
        events_of_blocks(blocks.drop_last()) + events_of_block(blocks.last(), blocks.len() - 1)
    }
}

/// The value of a key, or null.
pub open spec fn value_or_null(j: JsonView, key: Seq<char>) -> JsonView {
    match j.get(key) {
        Some(v) => v,
        None => JsonView::Null,
    }
}

/// The count of output tokens of a message.
pub open spec fn output_tokens(m: JsonView) -> Option<JsonView> {
    match m.get("usage"@) {
        Some(usage) => usage.get("output_tokens"@),
        None => None,
    }
}

/// The event that says why a message stopped and how many tokens it has.
pub open spec fn delta_event(m: JsonView) -> JsonView {
    let reason = JsonView::Object(Map::empty()).with(
        "stop_reason"@,
        value_or_null(m, "stop_reason"@),
    ).with("stop_sequence"@, value_or_null(m, "stop_sequence"@));
    let event = typed("message_delta"@).with("delta"@, reason);
    match output_tokens(m) {
        Some(n) => event.with("usage"@, JsonView::Object(Map::empty()).with("output_tokens"@, n)),
        None => event,
    }
}

/// The content blocks of a message.
pub open spec fn content_blocks(m: JsonView) -> Seq<JsonView> {
    match m.items_of("content"@) {
        Some(blocks) => blocks,
        None => Seq::empty(),
    }
}

/// The events that a message is sent as.
pub open spec fn message_events(m: JsonView) -> Seq<JsonView> {
    seq![start_event(m)] + events_of_blocks(content_blocks(m)) + seq![
        delta_event(m),
        typed("message_stop"@),
    ]
}

/// A content block that a stream carries whole: it says its type, and a text,
/// tool use or thinking block has the fields of its type and no others. A
/// signature is not empty.
pub open spec fn faithful_block(block: JsonView) -> bool {
    let kind = block_kind(block);
    let thought = typed("thinking"@).with(
        "thinking"@,
        JsonView::Text(text_or_empty(block, "thinking"@)),
    );
    let signature = text_or_empty(block, "signature"@);
    &&& block.text_of("type"@) is Some
    &&& kind == "text"@ ==> block == typed("text"@).with(
        "text"@,
        JsonView::Text(text_or_empty(block, "text"@)),
    )
    &&& kind == "tool_use"@ ==> block == typed("tool_use"@).with(
        "id"@,
        value_or_empty(block, "id"@),
    ).with("name"@, value_or_empty(block, "name"@)).with(
        "input"@,
        value_or_null(block, "input"@),
    )
    &&& kind == "thinking"@ ==> block == thought || (signature.len() > 0 && block == thought.with(
        "signature"@,
        JsonView::Text(signature),
    ))
}

/// A message that a stream carries whole: its content blocks are, it says why
/// it stopped, and the texts of the events that carry it can be read back.
pub open spec fn faithful_message(m: JsonView) -> bool {
    &&& m is Object
    &&& m.items_of("content"@) is Some
    &&& forall|k: int| 0 <= k < content_blocks(m).len() ==> faithful_block(
        #[trigger] content_blocks(m)[k],
    )
    &&& forall|k: int| 0 <= k < content_blocks(m).len() ==> json::plain(
        #[trigger] content_blocks(m)[k],
        126,
    )
    &&& m.get("stop_reason"@) is Some
    &&& m.get("stop_sequence"@) is Some
    &&& m.get("delta"@) is None
    &&& json::plain(m.without("content"@), 126)
}

// ---------------------------------------------------------------------------
// The same, executed
// ---------------------------------------------------------------------------
/// The text of a value can be read back, and stands on one line.
pub open spec fn readable(j: JsonView) -> bool {
    &&& json::one_line(json::json_text(j))
    &&& json::json_parsed(encode_utf8(json::json_text(j))) == Some(j)
}

/// A value that can be read back unless it is nested too deep, holds a
/// floating-point number, or an object in it starts with the reserved key.
pub open spec fn readable_if_plain(j: JsonView) -> bool {
    json::plain(j, 127) ==> readable(j)
}

/// The number of an index reads as that index.
pub open spec fn indexable(i: int) -> bool {
    json::number_u64(json::number_of(i as u64)) == Some(i as u64) && !json::number_float(
        json::number_of(i as u64),
    )
}

/// What is known of the events of a stream that has been written.
pub open spec fn written(events: Seq<JsonView>) -> bool {
    forall|k: int| 0 <= k < events.len() ==> readable_if_plain(#[trigger] events[k])
}

/// Appends an event to the text of a stream.
fn write_sse_event(out: &mut Vec<char>, data: &Json)
    ensures
        final(out)@ == old(out)@ + sse_frame(data@),
        readable_if_plain(data@),
{
    let json = data.render();
    let ghost before = out@;
    text::append_str(out, "event: ");
    match data.text_of("type") {
        Some(kind) => text::append_str(out, kind),
        None => {},
    }
    text::append_str(out, "\ndata: ");
    text::append_str(out, json.as_str());
    text::append_str(out, "\n\n");
    assert(out@ =~= before + sse_frame(data@));
}

fn typed_json(kind: &str) -> (r: Json)
    ensures
        r@ == typed(kind@),
{
    let mut j = Json::object();
    j.put("type", Json::text(kind));
    j
}

fn block_event_json(kind: &str, i: usize) -> (r: Json)
    ensures
        r@ == block_event(kind@, i as int),
        indexable(i as int),
{
    let mut j = typed_json(kind);
    j.put("index", Json::number(i as u64));
    j
}

fn start_message_json(m: &Json) -> (r: Json)
    requires
        m@.takes_fields(),
    ensures
        r@ == start_message(m@),
{
    let mut start = m.copy();
    start.put("content", Json::array());
    start.put("stop_reason", Json::Null);
    start.put("stop_sequence", Json::Null);
    match start.get_mut("usage") {
        Some(usage) => usage.remove("output_tokens"),
        None => {},
    }
    start
}

fn copy_or_empty(j: &Json, key: &str) -> (r: Json)
    ensures
        r@ == value_or_empty(j@, key@),
{
    match j.get(key) {
        Some(v) => v.copy(),
        None => Json::Text(String::new()),
    }
}

fn copy_or_null(j: &Json, key: &str) -> (r: Json)
    ensures
        r@ == value_or_null(j@, key@),
{
    match j.get(key) {
        Some(v) => v.copy(),
        None => Json::Null,
    }
}

fn start_block_json(block: &Json, kind: &str) -> (r: Json)
    requires
        kind@ == block_kind(block@),
    ensures
        r@ == start_block(block@),
{
    if text::same_text(kind, "text") {
        let mut j = typed_json("text");
        j.put("text", Json::Text(String::new()));
        j
    } else if text::same_text(kind, "tool_use") {
        let mut j = typed_json("tool_use");
        j.put("id", copy_or_empty(block, "id"));
        j.put("name", copy_or_empty(block, "name"));
        j.put("input", Json::object());
        j
    } else if text::same_text(kind, "thinking") {
        let mut j = typed_json("thinking");
        j.put("thinking", Json::Text(String::new()));
        j
    } else {
        block.copy()
    }
}

/// Adds the event that adds `content` to the block at `i`, if there is any.
fn add_delta(out: &mut Vec<Json>, i: usize, kind: &str, key: &str, content: &str)
    ensures
        json::view_items(final(out)@) == json::view_items(old(out)@) + delta_events(
            i as int,
            kind@,
            key@,
            content@,
        ),
{
    let empty = text::chars_of(content).len() == 0;
    let ghost before = json::view_items(out@);
    if !empty {
        let mut delta = typed_json(kind);
        delta.put(key, Json::text(content));
        let mut event = block_event_json("content_block_delta", i);
        event.put("delta", delta);
        add_event(out, event);
        assert(before.push(event@) =~= before + seq![event@]);
    } else {
        assert(before + Seq::<JsonView>::empty() =~= before);
    }
}

fn add_event(out: &mut Vec<Json>, event: Json)
    ensures
        json::view_items(final(out)@) == json::view_items(old(out)@).push(event@),
{
    let ghost before = out@;
    out.push(event);
    assert(out@.drop_last() =~= before);
}

pub proof fn lemma_sse_text_one(event: JsonView)
    ensures
        sse_text(seq![event]) == sse_frame(event),
{
    reveal_with_fuel(sse_text, 2);
    assert(seq![event].drop_last() =~= Seq::empty());
    assert(sse_text(seq![event]) =~= sse_frame(event));
}

pub proof fn lemma_sse_text_concat(a: Seq<JsonView>, b: Seq<JsonView>)
    ensures
        sse_text(a + b) == sse_text(a) + sse_text(b),
    decreases b.len(),
{
    if b.len() == 0 {
        assert(a + b =~= a);
        assert(sse_text(a) + sse_text(b) =~= sse_text(a));
    } else {
        lemma_sse_text_concat(a, b.drop_last());
        assert((a + b).drop_last() =~= a + b.drop_last());
        assert((a + b).last() == b.last());
        assert(sse_text(a + b) =~= sse_text(a) + sse_text(b));
    }
}

/// The string that a key has for its value, or the empty string.
fn str_or_empty<'a>(j: &'a Json, key: &str) -> (r: &'a str)
    ensures
        r@ == text_or_empty(j@, key@),
{
    match j.text_of(key) {
        Some(s) => s,
        None => {
            proof {
                reveal_strlit("");
                assert(""@ =~= Seq::<char>::empty());
            }
            ""
        },
    }
}

/// The input of a tool use can be read back.
pub open spec fn input_readable(block: JsonView) -> bool {
    match block.get("input"@) {
        Some(input) => block_kind(block) == "tool_use"@ ==> readable_if_plain(input),
        None => true,
    }
}

/// Adds the events that add what a content block holds.
fn add_fill(out: &mut Vec<Json>, block: &Json, kind: &str, i: usize)
    requires
        kind@ == block_kind(block@),
    ensures
        json::view_items(final(out)@) == json::view_items(old(out)@) + fill_events(
            block@,
            i as int,
        ),
        input_readable(block@),
{
    let ghost before = json::view_items(out@);
    proof {
        assert(before + Seq::<JsonView>::empty() =~= before);
        lemma_fill_kinds();
    }
    if text::same_text(kind, "text") {
        add_delta(out, i, "text_delta", "text", str_or_empty(block, "text"));
    } else if text::same_text(kind, "tool_use") {
        match block.get("input") {
            Some(input) => {
                let json = input.render();
                add_delta(out, i, "input_json_delta", "partial_json", json.as_str());
            },
            None => {},
        }
    } else if text::same_text(kind, "thinking") {
        add_delta(out, i, "thinking_delta", "thinking", str_or_empty(block, "thinking"));
        let ghost middle = json::view_items(out@);
        add_delta(out, i, "signature_delta", "signature", str_or_empty(block, "signature"));
        assert(json::view_items(out@) =~= before + fill_events(block@, i as int));
    }
}

proof fn lemma_fill_kinds()
    ensures
        "text"@ != "tool_use"@,
        "thinking"@ != "tool_use"@,
        "thinking"@ != "text"@,
{
    reveal_strlit("text");
    reveal_strlit("tool_use");
    reveal_strlit("thinking");
    assert("text"@[1] != "tool_use"@[1]);
    assert("thinking"@[1] != "tool_use"@[1]);
    assert("thinking"@[1] != "text"@[1]);
}

/// Adds the events of the content block at `i`.
fn add_block(out: &mut Vec<Json>, block: &Json, i: usize)
    ensures
        json::view_items(final(out)@) == json::view_items(old(out)@) + events_of_block(
            block@,
            i as int,
        ),
        input_readable(block@),
        indexable(i as int),
{
    let ghost before = json::view_items(out@);
    let kind = match block.text_of("type") {
        Some(kind) => kind,
        None => "text",
    };
    let mut start = block_event_json("content_block_start", i);
    start.put("content_block", start_block_json(block, kind));
    add_event(out, start);
    add_fill(out, block, kind, i);
    let stop = block_event_json("content_block_stop", i);
    add_event(out, stop);
    assert(json::view_items(out@) =~= before + events_of_block(block@, i as int));
}

fn delta_event_json(m: &Json) -> (r: Json)
    ensures
        r@ == delta_event(m@),
{
    let mut reason = Json::object();
    reason.put("stop_reason", copy_or_null(m, "stop_reason"));
    reason.put("stop_sequence", copy_or_null(m, "stop_sequence"));
    let mut event = typed_json("message_delta");
    event.put("delta", reason);
    match m.get("usage") {
        Some(usage) => match usage.get("output_tokens") {
            Some(n) => {
                let mut counted = Json::object();
                counted.put("output_tokens", n.copy());
                event.put("usage", counted);
            },
            None => {},
        },
        None => {},
    }
    event
}

/// The indices of the content blocks of a message, and the inputs of its tool
/// uses, can be read back.
pub open spec fn parts_readable(m: JsonView) -> bool {
    &&& forall|k: int| 0 <= k < content_blocks(m).len() ==> indexable(k)
    &&& forall|k: int|
        0 <= k < content_blocks(m).len() ==> input_readable(#[trigger] content_blocks(m)[k])
    &&& content_blocks(m).len() <= usize::MAX
}

/// The events that a response is sent as.
pub fn events_of_message(m: &Json) -> (r: Vec<Json>)
    requires
        m@.takes_fields(),
    ensures
        json::view_items(r@) == message_events(m@),
        parts_readable(m@),
{
    let mut events: Vec<Json> = Vec::new();
    let mut start = typed_json("message_start");
    start.put("message", start_message_json(m));
    add_event(&mut events, start);
    assert(json::view_items(events@) =~= seq![start@]);
    match m.items_of("content") {
        Some(blocks) => {
            let ghost views = json::view_items(blocks@);
            let mut i: usize = 0;
            proof {
                json::lemma_view_items(blocks@);
                assert(views.take(0) =~= Seq::empty());
                assert(seq![start@] + events_of_blocks(views.take(0)) =~= seq![start@]);
            }
            while i < blocks.len()
                invariant
                    i <= blocks@.len(),
                    views == json::view_items(blocks@),
                    views.len() == blocks@.len(),
                    json::view_items(events@) == seq![start@] + events_of_blocks(
                        views.take(i as int),
                    ),
                    forall|k: int| 0 <= k < i ==> indexable(k),
                    forall|k: int| 0 <= k < i ==> input_readable(#[trigger] views[k]),
                decreases blocks@.len() - i,
            {
                proof {
                    json::lemma_view_items(blocks@);
                    assert(views.take(i + 1).drop_last() =~= views.take(i as int));
                    assert(seq![start@] + events_of_blocks(views.take(i as int)) + events_of_block(
                        views[i as int],
                        i as int,
                    ) =~= seq![start@] + events_of_blocks(views.take(i + 1)));
                }
                add_block(&mut events, &blocks[i], i);
                i += 1;
            }
            assert(views.take(views.len() as int) =~= views);
            assert(views == content_blocks(m@));
        },
        None => {
            assert(seq![start@] + Seq::empty() =~= seq![start@]);
        },
    }
    let ghost inner = json::view_items(events@);
    let delta = delta_event_json(m);
    add_event(&mut events, delta);
    let stop = typed_json("message_stop");
    add_event(&mut events, stop);
    assert(inner.push(delta@).push(stop@) =~= message_events(m@));
    events
}

/// The text of a stream of events.
fn stream_text(events: &Vec<Json>) -> (r: String)
    ensures
        r@ == sse_text(json::view_items(events@)),
        written(json::view_items(events@)),
{
    let ghost views = json::view_items(events@);
    let mut out: Vec<char> = Vec::new();
    let mut i: usize = 0;
    proof {
        json::lemma_view_items(events@);
        assert(views.take(0) =~= Seq::empty());
    }
    while i < events.len()
        invariant
            i <= events@.len(),
            views == json::view_items(events@),
            views.len() == events@.len(),
            out@ == sse_text(views.take(i as int)),
            forall|k: int| 0 <= k < i ==> readable_if_plain(#[trigger] views[k]),
        decreases events@.len() - i,
    {
        proof {
            json::lemma_view_items(events@);
            assert(views.take(i + 1).drop_last() =~= views.take(i as int));
            assert(views.take(i + 1).last() == events@[i as int]@);
        }
        write_sse_event(&mut out, &events[i]);
        i += 1;
    }
    assert(views.take(views.len() as int) =~= views);
    text::text_of(out.as_slice())
}

/// Converts a non-streaming response into the text of a stream of events, for
/// a client that asked for one. Returns `None` if `response_json` is not a
/// JSON object (null counts as one without fields).
pub fn json_to_sse(response_json: &[u8]) -> (r: Option<Vec<u8>>)
    ensures
        match json::json_parsed(response_json@) {
            Some(m) => if m.takes_fields() {
                r matches Some(bytes) && bytes@ == encode_utf8(sse_text(message_events(m)))
            } else {
                r is None
            },
            None => r is None,
        },
        // What is reconstructed from the stream is the response itself.
        json::json_parsed(response_json@) matches Some(m) ==> faithful_message(m) ==> reconstructed(
            sse_text(message_events(m)),
        ) == Some(m),
{
    let m = match Json::parse(response_json) {
        Some(m) => m,
        None => {
            return None;
        },
    };
    if !m.takes_fields() {
        return None;
    }
    let events = events_of_message(&m);
    let text = stream_text(&events);
    proof {
        if faithful_message(m@) {
            stream_round_trip::stream_carries_message(m@);
        }
    }
    Some(text::bytes_of(text.as_str()))
}

} // verus!
