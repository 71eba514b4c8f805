//! Token counts of texts and of request bodies.
use vstd::prelude::*;
use vstd::string::*;

use crate::json;
use crate::json::{Json, JsonView};
use crate::patterns;
use crate::text;

verus! {

/// The tokens of a text in the `cl100k_base` encoding, special tokens read as
/// plain text. There are none where the pattern that splits the text gives up
/// on it.
pub uninterp spec fn cl100k(text: Seq<char>) -> Option<Seq<u32>>;

/// Calls `CoreBPE::encode` of `tiktoken_rs` on its `cl100k_base` tokenizer,
/// without allowed special tokens. What it returns depends on the text alone.
/// The error that it gives where its regular expression runs into a limit is
/// `None` here.
#[verifier::external_body]
fn encode(text: &str) -> (r: Option<Vec<u32>>)
    ensures
        r matches Some(tokens) ==> cl100k(text@) == Some(tokens@),
        r is None ==> cl100k(text@) is None,
{
    let none_special = std::collections::HashSet::new();
    tiktoken_rs::cl100k_base_singleton().encode(text, &none_special).ok().map(|r| r.0)
}

/// How many tokens a text has.
pub open spec fn tokens(text: Seq<char>) -> Option<nat> {
    match cl100k(text) {
        Some(t) => Some(t.len()),
        None => None,
    }
}

/// How many tokens texts have together, if all of them can be counted.
pub open spec fn tokens_of_all(texts: Seq<Seq<char>>) -> Option<nat>
    decreases texts.len(),
{
    if texts.len() == 0 {
        Some(0)
    } else {
        match (tokens_of_all(texts.drop_last()), tokens(texts.last())) {
            (Some(x), Some(y)) => Some(x + y),
            _ => None,
        }
    }
}

// ---------------------------------------------------------------------------
// What counts of a request body
// ---------------------------------------------------------------------------
/// The text that a key has for its value, if it has one.
pub open spec fn field_texts(j: JsonView, key: Seq<char>) -> Seq<Seq<char>> {
    match j.text_of(key) {
        Some(t) => seq![t],
        None => Seq::empty(),
    }
}

/// The JSON text of the value of a key, if it has one.
pub open spec fn field_json(j: JsonView, key: Seq<char>) -> Seq<Seq<char>> {
    match j.get(key) {
        Some(v) => seq![json::json_text(v)],
        None => Seq::empty(),
    }
}

/// What counts of a content block: its text, its result or its input; of a
/// block of another type, its JSON text.
pub open spec fn block_texts(block: JsonView) -> Seq<Seq<char>>
    decreases block,
{
    let kind = block.text_of("type"@);
    if kind == Some("text"@) {
        field_texts(block, "text"@)
    } else if kind == Some("tool_result"@) {
        match block {
            JsonView::Object(fields) => if fields.dom().contains("content"@) {
                proof {
                    lemma_field_decreases(block, "content"@);
                }
                content_texts(fields["content"@])
            } else {
                Seq::empty()
            },
            _ => Seq::empty(),
        }
    } else if kind == Some("tool_use"@) {
        field_json(block, "input"@)
    } else {
        seq![json::json_text(block)]
    }
}

pub proof fn lemma_field_decreases(j: JsonView, key: Seq<char>)
    requires
        j is Object,
        j->Object_0.dom().contains(key),
    ensures
        decreases_to!(j => j->Object_0[key]),
{
    vstd::map::axiom_map_index_decreases_infinite(j->Object_0, key);
}

/// What counts of content blocks.
pub open spec fn blocks_texts(blocks: Seq<JsonView>) -> Seq<Seq<char>>
    decreases blocks,
{
    if blocks.len() == 0 {
        Seq::empty()
    } else {
        blocks_texts(blocks.drop_last()) + block_texts(blocks.last())
    }
}

/// What counts of the content of a message: a text, or content blocks. Of
/// anything else the JSON text does.
pub open spec fn content_texts(content: JsonView) -> Seq<Seq<char>>
    decreases content,
{
    match content {
        JsonView::Text(s) => seq![s],
        JsonView::Array(blocks) => blocks_texts(blocks),
        _ => seq![json::json_text(content)],
    }
}

/// What counts of messages.
pub open spec fn messages_texts(messages: Seq<JsonView>) -> Seq<Seq<char>>
    decreases messages.len(),
{
    if messages.len() == 0 {
        Seq::empty()
    } else {
        messages_texts(messages.drop_last()) + match messages.last().get("content"@) {
            Some(content) => content_texts(content),
            None => Seq::empty(),
        }
    }
}

/// The texts of blocks.
pub open spec fn texts_of(blocks: Seq<JsonView>) -> Seq<Seq<char>>
    decreases blocks.len(),
{
    if blocks.len() == 0 {
        Seq::empty()
    } else {
        texts_of(blocks.drop_last()) + field_texts(blocks.last(), "text"@)
    }
}

/// What counts of a request body: its messages, its system prompt and its tool
/// definitions.
pub open spec fn body_texts(body: JsonView) -> Seq<Seq<char>> {
    let messages = match body.items_of("messages"@) {
        Some(items) => messages_texts(items),
        None => Seq::empty(),
    };
    let system = match body.get("system"@) {
        Some(JsonView::Text(s)) => seq![s],
        Some(JsonView::Array(blocks)) => texts_of(blocks),
        _ => Seq::empty(),
    };
    messages + system + field_json(body, "tools"@)
}

/// Adds a text.
fn push_text(out: &mut Vec<String>, t: &str)
    ensures
        patterns::string_views(final(out)@) == patterns::string_views(old(out)@) + seq![t@],
{
    let ghost before = out@;
    out.push(text::owned(t));
    assert(patterns::string_views(out@) =~= patterns::string_views(before) + seq![t@]);
}

/// Adds the text that a key has for its value.
fn push_field(out: &mut Vec<String>, j: &Json, key: &str)
    ensures
        patterns::string_views(final(out)@) == patterns::string_views(old(out)@) + field_texts(
            j@,
            key@,
        ),
{
    match j.text_of(key) {
        Some(t) => push_text(out, t),
        None => {
            assert(patterns::string_views(out@) + Seq::<Seq<char>>::empty()
                =~= patterns::string_views(out@));
        },
    }
}

/// Adds the JSON text of the value of a key.
fn push_json(out: &mut Vec<String>, j: &Json, key: &str)
    ensures
        patterns::string_views(final(out)@) == patterns::string_views(old(out)@) + field_json(
            j@,
            key@,
        ),
{
    match j.get(key) {
        Some(v) => push_text(out, v.render().as_str()),
        None => {
            assert(patterns::string_views(out@) + Seq::<Seq<char>>::empty()
                =~= patterns::string_views(out@));
        },
    }
}

/// Adds what counts of a content block.
fn push_block(out: &mut Vec<String>, block: &Json)
    ensures
        patterns::string_views(final(out)@) == patterns::string_views(old(out)@) + block_texts(
            block@,
        ),
    decreases block@,
{
    if block.text_is("type", "text") {
        push_field(out, block, "text");
    } else if block.text_is("type", "tool_result") {
        match block.get("content") {
            Some(content) => {
                proof {
                    lemma_field_decreases(block@, "content"@);
                }
                push_content(out, content);
            },
            None => {
                assert(patterns::string_views(out@) + Seq::<Seq<char>>::empty()
                    =~= patterns::string_views(out@));
            },
        }
    } else if block.text_is("type", "tool_use") {
        push_json(out, block, "input");
    } else {
        push_text(out, block.render().as_str());
    }
}

/// Adds what counts of the content of a message.
fn push_content(out: &mut Vec<String>, content: &Json)
    ensures
        patterns::string_views(final(out)@) == patterns::string_views(old(out)@) + content_texts(
            content@,
        ),
    decreases content@,
{
    match content {
        Json::Text(s) => push_text(out, s.as_str()),
        Json::Array(items) => {
            let ghost views = json::view_items(items@);
            let ghost start = patterns::string_views(out@);
            let mut i: usize = 0;
            proof {
                json::lemma_view_items(items@);
                assert(views.take(0) =~= Seq::empty());
                assert(start + blocks_texts(views.take(0)) =~= start);
            }
            while i < items.len()
                invariant
                    i <= items@.len(),
                    content@ == JsonView::Array(views),
                    views == json::view_items(items@),
                    views.len() == items@.len(),
                    patterns::string_views(out@) == start + blocks_texts(views.take(i as int)),
                decreases items@.len() - i,
            {
                proof {
                    json::lemma_view_items(items@);
                    assert(decreases_to!(content@ => content@->Array_0));
                    assert(decreases_to!(views => views[i as int]));
                    assert(views.take(i + 1).drop_last() =~= views.take(i as int));
                    assert(start + blocks_texts(views.take(i as int)) + block_texts(
                        views[i as int],
                    ) =~= start + blocks_texts(views.take(i + 1)));
                }
                push_block(out, &items[i]);
                i += 1;
            }
            assert(views.take(views.len() as int) =~= views);
        },
        _ => push_text(out, content.render().as_str()),
    }
}

/// Adds what counts of messages.
fn push_messages(out: &mut Vec<String>, messages: &Vec<Json>)
    ensures
        patterns::string_views(final(out)@) == patterns::string_views(old(out)@) + messages_texts(
            json::view_items(messages@),
        ),
{
    let ghost views = json::view_items(messages@);
    let ghost start = patterns::string_views(out@);
    let mut i: usize = 0;
    proof {
        json::lemma_view_items(messages@);
        assert(views.take(0) =~= Seq::empty());
        assert(start + messages_texts(views.take(0)) =~= start);
    }
    while i < messages.len()
        invariant
            i <= messages@.len(),
            views == json::view_items(messages@),
            views.len() == messages@.len(),
            patterns::string_views(out@) == start + messages_texts(views.take(i as int)),
        decreases messages@.len() - i,
    {
        let ghost before = patterns::string_views(out@);
        proof {
            json::lemma_view_items(messages@);
            assert(views.take(i + 1).drop_last() =~= views.take(i as int));
        }
        match messages[i].get("content") {
            Some(content) => push_content(out, content),
            None => {},
        }
        assert(patterns::string_views(out@) =~= start + messages_texts(views.take(i + 1)));
        i += 1;
    }
    assert(views.take(views.len() as int) =~= views);
}

/// Adds the texts of blocks.
fn push_texts(out: &mut Vec<String>, blocks: &Vec<Json>)
    ensures
        patterns::string_views(final(out)@) == patterns::string_views(old(out)@) + texts_of(
            json::view_items(blocks@),
        ),
{
    let ghost views = json::view_items(blocks@);
    let ghost start = patterns::string_views(out@);
    let mut i: usize = 0;
    proof {
        json::lemma_view_items(blocks@);
        assert(views.take(0) =~= Seq::empty());
        assert(start + texts_of(views.take(0)) =~= start);
    }
    while i < blocks.len()
        invariant
            i <= blocks@.len(),
            views == json::view_items(blocks@),
            views.len() == blocks@.len(),
            patterns::string_views(out@) == start + texts_of(views.take(i as int)),
        decreases blocks@.len() - i,
    {
        proof {
            json::lemma_view_items(blocks@);
            assert(views.take(i + 1).drop_last() =~= views.take(i as int));
            assert(start + texts_of(views.take(i as int)) + field_texts(views[i as int], "text"@)
                =~= start + texts_of(views.take(i + 1)));
        }
        push_field(out, &blocks[i], "text");
        i += 1;
    }
    assert(views.take(views.len() as int) =~= views);
}

/// What counts of a request body: its messages, its system prompt and its tool
/// definitions.
pub fn countable_texts(body: &Json) -> (r: Vec<String>)
    ensures
        patterns::string_views(r@) == body_texts(body@),
{
    let mut out: Vec<String> = Vec::new();
    match body.items_of("messages") {
        Some(items) => push_messages(&mut out, items),
        None => {},
    }
    match body.get("system") {
        Some(Json::Text(s)) => push_text(&mut out, s.as_str()),
        Some(Json::Array(blocks)) => push_texts(&mut out, blocks),
        _ => {},
    }
    push_json(&mut out, body, "tools");
    assert(patterns::string_views(out@) =~= body_texts(body@));
    out
}

// ---------------------------------------------------------------------------
// Counting
// ---------------------------------------------------------------------------
/// A count that a `usize` holds.
pub open spec fn counted(n: Option<nat>) -> Option<usize> {
    match n {
        Some(k) => if k <= usize::MAX {
            Some(k as usize)
        } else {
            None
        },
        None => None,
    }
}

/// Counts the tokens of texts and of request bodies in the `cl100k_base`
/// encoding.
pub struct Tokenizer {}

impl Tokenizer {
    pub fn new() -> (r: Self) {
        Tokenizer {  }
    }

    /// Counts the tokens of a text. There is no count where the tokenizer
    /// gives up on the text.
    pub fn count_tokens(&self, text: &str) -> (r: Option<usize>)
        ensures
            r == counted(tokens(text@)),
            r is Some <==> tokens(text@) is Some,
    {
        match encode(text) {
            Some(t) => Some(t.len()),
            None => None,
        }
    }

    /// Counts the tokens of texts together. There is no count where one of
    /// them has none, or where the sum is too large.
    pub fn count_all(&self, texts: &Vec<String>) -> (r: Option<usize>)
        ensures
            r == counted(tokens_of_all(patterns::string_views(texts@))),
    {
        let ghost views = patterns::string_views(texts@);
        let mut total: Option<usize> = Some(0);
        let mut i: usize = 0;
        assert(views.take(0) =~= Seq::empty());
        while i < texts.len()
            invariant
                i <= texts@.len(),
                views == patterns::string_views(texts@),
                total == counted(tokens_of_all(views.take(i as int))),
            decreases texts@.len() - i,
        {
            assert(views.take(i + 1).drop_last() =~= views.take(i as int));
            total = match (total, self.count_tokens(texts[i].as_str())) {
                (Some(x), Some(y)) => x.checked_add(y),
                _ => None,
            };
            i += 1;
        }
        assert(views.take(views.len() as int) =~= views);
        total
    }

    /// Counts the tokens of a request body: of its messages, its system prompt
    /// and its tool definitions. There is no count where one of its texts has
    /// none, or where the sum is too large.
    pub fn count_message_tokens(&self, body: &Json) -> (r: Option<usize>)
        ensures
            r == counted(tokens_of_all(body_texts(body@))),
    {
        self.count_all(&countable_texts(body))
    }
}

} // verus!
