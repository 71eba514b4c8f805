//! What counts of a request, and how tokens add up.
use vstd::prelude::*;
use vstd::string::*;

use crate::json;
use crate::json::JsonView;
use crate::metrics;
use crate::tokenizer;

verus! {

/// What is saved is the difference, and nothing where there is none.
pub proof fn savings_are_differences(before: nat, after: nat)
    ensures
        after <= before ==> after + metrics::saved(before, after) == before,
        after >= before ==> metrics::saved(before, after) == 0,
{
}

/// The tokens of texts add up, where those of each can be counted.
pub proof fn tokens_add_up(texts: Seq<Seq<char>>, t: Seq<char>)
    ensures
        tokenizer::tokens_of_all(Seq::empty()) == Some(0nat),
        tokenizer::tokens_of_all(texts.push(t)) == match (
            tokenizer::tokens_of_all(texts),
            tokenizer::tokens(t),
        ) {
            (Some(x), Some(y)) => Some(x + y),
            _ => None,
        },
        tokenizer::tokens(t) == match tokenizer::cl100k(t) {
            Some(tokens) => Some(tokens.len()),
            None => None,
        },
{
    assert(texts.push(t).drop_last() =~= texts);
}

/// A count is given where it fits, and none where there is none.
pub proof fn counts_are_given_where_they_fit(n: nat)
    ensures
        n <= usize::MAX ==> tokenizer::counted(Some(n)) == Some(n as usize),
        n > usize::MAX ==> tokenizer::counted(Some(n)) is None,
        tokenizer::counted(None) is None,
{
}

/// The value of a field, as a list.
pub open spec fn values(j: JsonView, key: Seq<char>) -> Seq<JsonView> {
    match j.get(key) {
        Some(v) => seq![v],
        None => Seq::empty(),
    }
}

/// Of a content block counts its text, the result that it holds, or its input;
/// of a block of another kind, all of it.
pub proof fn every_kind_of_block_counts(block: JsonView)
    ensures
        ({
            let r = tokenizer::block_texts(block);
            let kind = block.get("type"@);
            &&& kind == Some(JsonView::Text("text"@)) ==> r == match block.get("text"@) {
                Some(JsonView::Text(t)) => seq![t],
                _ => Seq::empty(),
            }
            &&& kind == Some(JsonView::Text("tool_result"@)) ==> r == match block.get("content"@) {
                Some(c) => tokenizer::content_texts(c),
                None => Seq::empty(),
            }
            &&& kind == Some(JsonView::Text("tool_use"@)) ==> r == match block.get("input"@) {
                Some(v) => seq![json::json_text(v)],
                None => Seq::empty(),
            }
            &&& kind != Some(JsonView::Text("text"@)) && kind != Some(
                JsonView::Text("tool_result"@),
            ) && kind != Some(JsonView::Text("tool_use"@)) ==> r == seq![json::json_text(block)]
        }),
{
    reveal_strlit("text");
    reveal_strlit("tool_result");
    reveal_strlit("tool_use");
    assert("text"@.len() == 4 && "tool_result"@.len() == 11 && "tool_use"@.len() == 8);
}

/// Of the content of a message counts its text, or each of its blocks; of
/// anything else, all of it.
pub proof fn every_block_counts(content: JsonView, blocks: Seq<JsonView>, block: JsonView)
    ensures
        content matches JsonView::Text(s) ==> tokenizer::content_texts(content) == seq![s],
        !(content is Text) && !(content is Array) ==> tokenizer::content_texts(content) == seq![
            json::json_text(content),
        ],
        tokenizer::content_texts(JsonView::Array(Seq::empty())) == Seq::<Seq<char>>::empty(),
        tokenizer::content_texts(JsonView::Array(blocks.push(block))) == tokenizer::content_texts(
            JsonView::Array(blocks),
        ) + tokenizer::block_texts(block),
{
    assert(blocks.push(block).drop_last() =~= blocks);
}

/// Of a request counts each of its messages, its system prompt, whether that is
/// a text or blocks with texts, and its tools.
pub proof fn every_part_of_a_request_counts(
    body: JsonView,
    messages: Seq<JsonView>,
    message: JsonView,
    blocks: Seq<JsonView>,
    block: JsonView,
)
    ensures
        tokenizer::messages_texts(Seq::empty()) == Seq::<Seq<char>>::empty(),
        tokenizer::messages_texts(messages.push(message)) == tokenizer::messages_texts(messages)
            + match message.get("content"@) {
            Some(c) => tokenizer::content_texts(c),
            None => Seq::empty(),
        },
        tokenizer::texts_of(Seq::empty()) == Seq::<Seq<char>>::empty(),
        tokenizer::texts_of(blocks.push(block)) == tokenizer::texts_of(blocks) + match block.get(
            "text"@,
        ) {
            Some(JsonView::Text(t)) => seq![t],
            _ => Seq::empty(),
        },
        tokenizer::body_texts(body) == (match body.get("messages"@) {
            Some(JsonView::Array(items)) => tokenizer::messages_texts(items),
            _ => Seq::empty(),
        }) + (match body.get("system"@) {
            Some(JsonView::Text(s)) => seq![s],
            Some(JsonView::Array(items)) => tokenizer::texts_of(items),
            _ => Seq::empty(),
        }) + values(body, "tools"@).map_values(|v: JsonView| json::json_text(v)),
{
    assert(messages.push(message).drop_last() =~= messages);
    assert(blocks.push(block).drop_last() =~= blocks);
    assert(values(body, "tools"@).map_values(|v: JsonView| json::json_text(v))
        =~= tokenizer::field_json(body, "tools"@));
}

} // verus!
