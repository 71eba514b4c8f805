//! Which tool results deduplication replaces, and what it remembers of them.
use vstd::prelude::*;
use vstd::string::*;
use vstd::utf8::*;

use crate::hashing;
use crate::json;
use crate::json::JsonView;
use crate::metrics::{ToolCallStatus, ToolCallView};
use crate::pipeline::dedup;
use crate::pipeline::dedup::{Progress, ToolUseView};
use crate::session;
use crate::text;
use crate::tokenizer;

verus! {

// ---------------------------------------------------------------------------
// Tool uses
// ---------------------------------------------------------------------------
/// The text of a field, or the empty text where there is none.
pub open spec fn field(j: JsonView, key: Seq<char>) -> Seq<char> {
    match j.get(key) {
        Some(JsonView::Text(s)) => s,
        _ => Seq::empty(),
    }
}

/// A block that is a tool use is known with its id, its tool and the first 80
/// characters of its input. Any other block is none.
pub proof fn tool_uses_are_known(block: JsonView)
    ensures
        ({
            let found = dedup::use_of_block(block);
            &&& block.get("type"@) != Some(JsonView::Text("tool_use"@)) ==> found.len() == 0
            &&& block.get("type"@) == Some(JsonView::Text("tool_use"@)) ==> {
                &&& found.len() == 1
                &&& found[0].id == field(block, "id"@)
                &&& found[0].name == field(block, "name"@)
                &&& block.get("input"@) is None ==> found[0].summary.len() == 0
                &&& block.get("input"@) matches Some(input) ==> {
                    &&& found[0].summary.len() <= 80
                    &&& found[0].summary.len() < 80 ==> found[0].summary == json::json_text(input)
                    &&& found[0].summary.len() <= json::json_text(input).len()
                    &&& found[0].summary == json::json_text(input).take(
                        found[0].summary.len() as int,
                    )
                }
            }
        }),
{
    match block.get("input"@) {
        Some(input) => {
            let all = json::json_text(input);
            assert(all.take(all.len() as int) =~= all);
        },
        None => {},
    }
}

/// The tool uses of a conversation are those of its messages, one after the
/// other, and those of a message are those of its blocks.
pub proof fn tool_uses_keep_their_order(
    messages: Seq<JsonView>,
    message: JsonView,
    blocks: Seq<JsonView>,
    block: JsonView,
)
    ensures
        dedup::uses_of(Seq::empty()) == Seq::<ToolUseView>::empty(),
        dedup::uses_of(messages.push(message)) == dedup::uses_of(messages) + match message.get(
            "content"@,
        ) {
            Some(JsonView::Array(items)) => dedup::uses_of_blocks(items),
            _ => Seq::empty(),
        },
        dedup::uses_of_blocks(Seq::empty()) == Seq::<ToolUseView>::empty(),
        dedup::uses_of_blocks(blocks.push(block)) == dedup::uses_of_blocks(blocks)
            + dedup::use_of_block(block),
{
    assert(messages.push(message).drop_last() =~= messages);
    assert(blocks.push(block).drop_last() =~= blocks);
}

/// A tool result belongs to the first tool use with its id. Without one, its
/// tool has no name.
pub proof fn results_belong_to_the_first_use(uses: Seq<ToolUseView>, id: Seq<char>, i: int)
    ensures
        0 <= i < uses.len() && uses[i].id == id && (forall|k: int|
            0 <= k < i ==> (#[trigger] uses[k]).id != id) ==> dedup::use_of(uses, id) == uses[i],
        (forall|k: int| 0 <= k < uses.len() ==> (#[trigger] uses[k]).id != id) ==> dedup::use_of(
            uses,
            id,
        ).name.len() == 0,
    decreases uses.len(),
{
    if uses.len() > 0 && uses[0].id != id {
        let rest = uses.skip(1);
        results_belong_to_the_first_use(rest, id, i - 1);
        if 0 <= i < uses.len() && uses[i].id == id && (forall|k: int|
            0 <= k < i ==> (#[trigger] uses[k]).id != id) {
            assert(rest[i - 1] == uses[i]);
            assert forall|k: int| 0 <= k < i - 1 implies (#[trigger] rest[k]).id != id by {
                assert(rest[k] == uses[k + 1]);
            }
        }
        if forall|k: int| 0 <= k < uses.len() ==> (#[trigger] uses[k]).id != id {
            assert forall|k: int| 0 <= k < rest.len() implies (#[trigger] rest[k]).id != id by {
                assert(rest[k] == uses[k + 1]);
            }
        }
    } else if uses.len() > 0 {
        assert(uses[0].id == id);
    }
}

// ---------------------------------------------------------------------------
// One tool result
// ---------------------------------------------------------------------------
/// The whole output of a tool result: its text, or the JSON text of what it
/// holds.
pub open spec fn whole_output(block: JsonView) -> Seq<char> {
    match block.get("content"@) {
        Some(JsonView::Text(s)) => s,
        Some(v) => json::json_text(v),
        None => Seq::empty(),
    }
}

/// The block is a tool result with an output.
pub open spec fn has_output(block: JsonView) -> bool {
    &&& block.get("type"@) == Some(JsonView::Text("tool_result"@))
    &&& block.get("content"@) is Some
    &&& whole_output(block).len() > 0
}

/// The hash of a tool result: of the name of its tool, a line feed, and its
/// whole output.
pub open spec fn fingerprint(uses: Seq<ToolUseView>, block: JsonView) -> u64 {
    hashing::xxh3(
        encode_utf8(
            dedup::use_of(uses, field(block, "tool_use_id"@)).name + seq!['\n'] + whole_output(
                block,
            ),
        ),
    )
}

/// What is hashed of a tool result determines its tool and its whole output:
/// results that differ anywhere are told apart, hash collisions aside.
pub proof fn hashed_texts_tell_results_apart(
    name: Seq<char>,
    other: Seq<char>,
    s: Seq<char>,
    t: Seq<char>,
)
    ensures
        dedup::identity(name, s) == dedup::identity(name, t) ==> s == t,
        dedup::identity(name, s) == dedup::identity(other, s) ==> name == other,
        (forall|k: int| 0 <= k < name.len() ==> #[trigger] name[k] != '\n') && (forall|k: int|
            0 <= k < other.len() ==> #[trigger] other[k] != '\n') && dedup::identity(name, s)
            == dedup::identity(other, t) ==> name == other && s == t,
        dedup::output_hash(name, s) == hashing::xxh3(encode_utf8(dedup::identity(name, s))),
{
    let a = dedup::identity(name, s);
    let b = dedup::identity(name, t);
    let n = name.len() as int;
    if a == b {
        assert(a.skip(n + 1) =~= s);
        assert(b.skip(n + 1) =~= t);
    }
    let c = dedup::identity(other, s);
    if a == c {
        assert(a.len() == name.len() + 1 + s.len() && c.len() == other.len() + 1 + s.len());
        assert(a.take(n) =~= name);
        assert(c.take(n) =~= other);
    }
    let d = dedup::identity(other, t);
    if (forall|k: int| 0 <= k < name.len() ==> #[trigger] name[k] != '\n') && (forall|k: int|
        0 <= k < other.len() ==> #[trigger] other[k] != '\n') && a == d {
        let m = other.len() as int;
        assert(a[n] == '\n' && d[m] == '\n');
        if n < m {
            assert(d[n] == other[n]);
        }
        if m < n {
            assert(a[m] == name[m]);
        }
        assert(a.take(n) =~= name);
        assert(d.take(n) =~= other);
        assert(a.skip(n + 1) =~= s);
        assert(d.skip(n + 1) =~= t);
    }
}

/// The text that stands for a repeated tool result.
pub open spec fn stands_for(first_id: Seq<char>, tokens: nat) -> Seq<char> {
    "[Janus: duplicate of tool result "@ + first_id + " — "@ + text::decimal(tokens)
        + " tokens omitted]"@
}

/// A tool result is replaced only where the session has seen the very same
/// output of the same tool, from another tool use. The text that stands for it
/// names that tool use and says how many tokens have gone. Nothing else of the
/// block changes.
pub proof fn only_seen_results_are_replaced(
    p: Progress,
    uses: Seq<ToolUseView>,
    block: JsonView,
)
    ensures
        ({
            let h = fingerprint(uses, block);
            let id = field(block, "tool_use_id"@);
            let after = dedup::examined(p, uses, block).block;
            let again = has_output(block) && p.tools.dom().contains(h) && p.tools[h].0 != id;
            let n = tokenizer::tokens(whole_output(block));
            &&& after != block ==> again && n is Some && after == block.with(
                "content"@,
                JsonView::Text(stands_for(p.tools[h].0, n->0)),
            )
            &&& again && n is Some && tokenizer::tokens(stands_for(p.tools[h].0, n->0)) is Some
                ==> after == block.with(
                "content"@,
                JsonView::Text(stands_for(p.tools[h].0, n->0)),
            )
        }),
{
}

/// A tool result that is new to the session is remembered, with its tool use
/// and its tokens. Nothing else is remembered, and nothing is forgotten.
pub proof fn new_results_are_remembered(p: Progress, uses: Seq<ToolUseView>, block: JsonView)
    ensures
        ({
            let h = fingerprint(uses, block);
            let n = tokenizer::tokens(whole_output(block));
            dedup::examined(p, uses, block).progress.tools == if has_output(block) && n is Some
                && !p.tools.dom().contains(h) {
                p.tools.insert(h, (field(block, "tool_use_id"@), n->0))
            } else {
                p.tools
            }
        }),
{
}

/// Of every tool result with an output there is one tool call, which says of
/// which tool and tool use it is, whether it was replaced, and how many tokens
/// that saved. An event tells of it where it saved any.
pub proof fn every_result_is_reported(p: Progress, uses: Seq<ToolUseView>, block: JsonView)
    ensures
        ({
            let after = dedup::examined(p, uses, block);
            let n = tokenizer::tokens(whole_output(block));
            let id = field(block, "tool_use_id"@);
            let used = dedup::use_of(uses, id);
            let h = fingerprint(uses, block);
            let again = p.tools.dom().contains(h) && p.tools[h].0 != id;
            let note = tokenizer::tokens(stands_for(p.tools[h].0, n->0));
            if !has_output(block) || n is None || (again && note is None) {
                after.progress.calls == p.calls && after.progress.events == p.events
            } else if !again {
                &&& after.progress.calls == p.calls.push(
                    ToolCallView {
                        name: used.name,
                        summary: used.summary,
                        id,
                        status: ToolCallStatus::Kept,
                        saved: 0,
                    },
                )
                &&& after.progress.events == p.events
            } else {
                &&& after.progress.calls.len() == p.calls.len() + 1
                &&& after.progress.calls.drop_last() == p.calls
                &&& after.progress.calls.last().name == used.name
                &&& after.progress.calls.last().summary == used.summary
                &&& after.progress.calls.last().id == id
                &&& after.progress.calls.last().status == ToolCallStatus::Deduped
                &&& after.progress.calls.last().saved == if n->0 > note->0 {
                    n->0 - note->0
                } else {
                    0
                }
                &&& n->0 <= note->0 ==> after.progress.events == p.events
                &&& n->0 > note->0 ==> {
                    &&& after.progress.events.len() == p.events.len() + 1
                    &&& after.progress.events.drop_last() == p.events
                    &&& after.progress.events.last().before == n->0
                    &&& after.progress.events.last().after == note->0
                    &&& after.progress.events.last().stage == "A_dedup"@
                }
            }
        }),
{
    let after = dedup::examined(p, uses, block);
    if after.progress.calls.len() == p.calls.len() + 1 {
        assert(after.progress.calls.drop_last() =~= p.calls);
    }
    if after.progress.events.len() == p.events.len() + 1 {
        assert(after.progress.events.drop_last() =~= p.events);
    }
}

// ---------------------------------------------------------------------------
// All tool results of a request
// ---------------------------------------------------------------------------
/// The block is a tool result of that hash.
pub open spec fn result_of(uses: Seq<ToolUseView>, block: JsonView, h: u64) -> bool {
    has_output(block) && fingerprint(uses, block) == h
}

/// The blocks of a message that are looked at: those of an array, where the
/// message is not one of the assistant.
pub open spec fn blocks_of(message: JsonView) -> Seq<JsonView> {
    match message.get("content"@) {
        Some(JsonView::Array(blocks)) => if message.get("role"@) == Some(
            JsonView::Text("assistant"@),
        ) {
            Seq::empty()
        } else {
            blocks
        },
        _ => Seq::empty(),
    }
}

/// The block at `j` of the message at `i` is a tool result of that hash.
pub open spec fn result_at(
    messages: Seq<JsonView>,
    uses: Seq<ToolUseView>,
    i: int,
    j: int,
    h: u64,
) -> bool {
    &&& 0 <= i < messages.len()
    &&& 0 <= j < blocks_of(messages[i]).len()
    &&& result_of(uses, blocks_of(messages[i])[j], h)
}

proof fn lemma_blocks_known(
    p: Progress,
    uses: Seq<ToolUseView>,
    blocks: Seq<JsonView>,
    h: u64,
) -> (j: int)
    requires
        dedup::blocks_examined(p, uses, blocks).progress.tools.dom().contains(h),
        !p.tools.dom().contains(h),
    ensures
        0 <= j < blocks.len(),
        result_of(uses, blocks[j], h),
    decreases blocks.len(),
{
    if blocks.len() == 0 {
        0
    } else {
        let before = dedup::blocks_examined(p, uses, blocks.drop_last()).progress;
        new_results_are_remembered(before, uses, blocks.last());
        if before.tools.dom().contains(h) {
            let j = lemma_blocks_known(p, uses, blocks.drop_last(), h);
            assert(blocks.drop_last()[j] == blocks[j]);
            j
        } else {
            blocks.len() - 1
        }
    }
}

proof fn lemma_messages_known(
    p: Progress,
    uses: Seq<ToolUseView>,
    messages: Seq<JsonView>,
    h: u64,
) -> (at: (int, int))
    requires
        dedup::messages_examined(p, uses, messages).progress.tools.dom().contains(h),
        !p.tools.dom().contains(h),
    ensures
        result_at(messages, uses, at.0, at.1, h),
    decreases messages.len(),
{
    if messages.len() == 0 {
        (0, 0)
    } else {
        let less = messages.drop_last();
        let before = dedup::messages_examined(p, uses, less).progress;
        if before.tools.dom().contains(h) {
            let at = lemma_messages_known(p, uses, less, h);
            assert(less[at.0] == messages[at.0]);
            at
        } else {
            let last = messages.last();
            let j = lemma_blocks_known(before, uses, blocks_of(last), h);
            (messages.len() - 1, j)
        }
    }
}

proof fn lemma_block_item(p: Progress, uses: Seq<ToolUseView>, blocks: Seq<JsonView>, j: int)
    requires
        0 <= j < blocks.len(),
    ensures
        dedup::blocks_examined(p, uses, blocks).items.len() == blocks.len(),
        dedup::blocks_examined(p, uses, blocks).items[j] == dedup::examined(
            dedup::blocks_examined(p, uses, blocks.take(j)).progress,
            uses,
            blocks[j],
        ).block,
    decreases blocks.len(),
{
    let less = blocks.drop_last();
    if j < less.len() {
        lemma_block_item(p, uses, less, j);
        assert(less.take(j) =~= blocks.take(j));
        assert(less[j] == blocks[j]);
    } else {
        assert(less =~= blocks.take(j));
        if less.len() > 0 {
            lemma_block_item(p, uses, less, 0);
        }
    }
}

proof fn lemma_message_item(p: Progress, uses: Seq<ToolUseView>, messages: Seq<JsonView>, i: int)
    requires
        0 <= i < messages.len(),
    ensures
        dedup::messages_examined(p, uses, messages).items.len() == messages.len(),
        dedup::messages_examined(p, uses, messages).items[i] == dedup::message_examined(
            dedup::messages_examined(p, uses, messages.take(i)).progress,
            uses,
            messages[i],
        ).block,
    decreases messages.len(),
{
    let less = messages.drop_last();
    if i < less.len() {
        lemma_message_item(p, uses, less, i);
        assert(less.take(i) =~= messages.take(i));
        assert(less[i] == messages[i]);
    } else {
        assert(less =~= messages.take(i));
        if less.len() > 0 {
            lemma_message_item(p, uses, less, 0);
        }
    }
}

/// A tool result of a request is replaced only where the session had seen the
/// same output of the same tool before the request, or the same stands earlier
/// in the request. Results with an output that has not come before stay.
pub proof fn replaced_results_have_come_before(
    tools: Map<u64, session::EntryView>,
    messages: Seq<JsonView>,
    body: JsonView,
    i: int,
    j: int,
)
    requires
        body.get("messages"@) == Some(JsonView::Array(messages)),
        0 <= i < messages.len(),
        0 <= j < blocks_of(messages[i]).len(),
    ensures
        ({
            let uses = dedup::uses_of(messages);
            let block = blocks_of(messages[i])[j];
            let h = fingerprint(uses, block);
            let after = dedup::deduped(tools, body).block;
            let items = after.get("messages"@)->0->Array_0[i].get("content"@)->0->Array_0;
            &&& after.get("messages"@) matches Some(JsonView::Array(ms))
            &&& ms.len() == messages.len()
            &&& items.len() == blocks_of(messages[i]).len()
            &&& items[j] != block ==> result_of(uses, block, h) && (tools.dom().contains(h) || (
            exists|i2: int, j2: int|
                #[trigger] result_at(messages, uses, i2, j2, h) && (i2 < i || (i2 == i && j2 < j))))
        }),
{
    let uses = dedup::uses_of(messages);
    let p = dedup::nothing_done(tools);
    let all = dedup::messages_examined(p, uses, messages).items;
    let before = dedup::messages_examined(p, uses, messages.take(i)).progress;
    let blocks = blocks_of(messages[i]);
    let block = blocks[j];
    let h = fingerprint(uses, block);
    lemma_message_item(p, uses, messages, i);
    lemma_block_item(before, uses, blocks, j);
    let now = dedup::blocks_examined(before, uses, blocks.take(j)).progress;
    only_seen_results_are_replaced(now, uses, block);
    let after = dedup::deduped(tools, body).block;
    assert(after.get("messages"@) == Some(JsonView::Array(all)));
    let items = dedup::blocks_examined(before, uses, blocks).items;
    assert(all[i].get("content"@) == Some(JsonView::Array(items)));
    if items[j] != block && !tools.dom().contains(h) {
        if before.tools.dom().contains(h) {
            let at = lemma_messages_known(p, uses, messages.take(i), h);
            assert(messages.take(i)[at.0] == messages[at.0]);
            assert(result_at(messages, uses, at.0, at.1, h));
        } else {
            let k = lemma_blocks_known(before, uses, blocks.take(j), h);
            assert(blocks.take(j)[k] == blocks[k]);
            assert(result_at(messages, uses, i, k, h));
        }
    }
}

} // verus!
