//! What the pipeline reads of a request: the query of the user, and the texts
//! that are compressed.
use vstd::prelude::*;
use vstd::string::*;

use crate::config::PipelineConfig;
use crate::json::JsonView;
use crate::pipeline;
use crate::pipeline::ast_prune;
use crate::pipeline::dedup;
use crate::pipeline::laws;
use crate::pipeline::regex_compress;
use crate::pipeline::SegmentView;
use crate::session;

verus! {

// ---------------------------------------------------------------------------
// The query of the user
// ---------------------------------------------------------------------------
/// The block is a text block with a text.
pub open spec fn has_text(block: JsonView) -> bool {
    block.get("type"@) == Some(JsonView::Text("text"@)) && block.get("text"@) is Some
        && block.get("text"@)->0 is Text
}

/// The text of a message is that of the first of its blocks that has one.
pub proof fn the_first_text_of_a_message_counts(blocks: Seq<JsonView>, i: int)
    ensures
        0 <= i < blocks.len() && has_text(blocks[i]) && (forall|k: int|
            0 <= k < i ==> !has_text(#[trigger] blocks[k])) ==> pipeline::first_text(blocks)
            == Some(blocks[i].get("text"@)->0->Text_0),
        (forall|k: int| 0 <= k < blocks.len() ==> !has_text(#[trigger] blocks[k]))
            ==> pipeline::first_text(blocks) is None,
    decreases blocks.len(),
{
    if blocks.len() > 0 && !has_text(blocks[0]) {
        let rest = blocks.skip(1);
        the_first_text_of_a_message_counts(rest, i - 1);
        if forall|k: int| 0 <= k < i ==> !has_text(#[trigger] blocks[k]) {
            assert forall|k: int| 0 <= k < i - 1 && k < rest.len() implies !has_text(
                #[trigger] rest[k],
            ) by {
                assert(rest[k] == blocks[k + 1]);
            }
        }
        if 0 < i < blocks.len() {
            assert(rest[i - 1] == blocks[i]);
        }
        if forall|k: int| 0 <= k < blocks.len() ==> !has_text(#[trigger] blocks[k]) {
            assert forall|k: int| 0 <= k < rest.len() implies !has_text(#[trigger] rest[k]) by {
                assert(rest[k] == blocks[k + 1]);
            }
        }
    } else if blocks.len() > 0 {
        assert(has_text(blocks[0]));
    }
}

/// The message is one of the user, and `t` its text.
pub open spec fn asks(message: JsonView, t: Seq<char>) -> bool {
    &&& message.get("role"@) == Some(JsonView::Text("user"@))
    &&& match message.get("content"@) {
        Some(JsonView::Text(s)) => t == s,
        Some(JsonView::Array(blocks)) => pipeline::first_text(blocks) == Some(t),
        _ => false,
    }
}

/// The query is the text of the last message of the user that has one, whatever
/// others say behind it. Without such a message it is empty.
pub proof fn the_last_text_of_the_user_is_the_query(
    body: JsonView,
    messages: Seq<JsonView>,
    i: int,
    t: Seq<char>,
)
    requires
        body.get("messages"@) == Some(JsonView::Array(messages)),
    ensures
        0 <= i < messages.len() && asks(messages[i], t) && (forall|k: int, s: Seq<char>|
            i < k < messages.len() ==> !#[trigger] asks(messages[k], s)) ==> pipeline::user_query(
            body,
        ) == t,
        (forall|k: int, s: Seq<char>|
            0 <= k < messages.len() ==> !#[trigger] asks(messages[k], s)) ==> pipeline::user_query(
            body,
        ).len() == 0,
{
    lemma_last_query(messages, i, t);
}

proof fn lemma_last_query(messages: Seq<JsonView>, i: int, t: Seq<char>)
    ensures
        0 <= i < messages.len() && asks(messages[i], t) && (forall|k: int, s: Seq<char>|
            i < k < messages.len() ==> !#[trigger] asks(messages[k], s)) ==> pipeline::last_query(
            messages,
        ) == t,
        (forall|k: int, s: Seq<char>|
            0 <= k < messages.len() ==> !#[trigger] asks(messages[k], s)) ==> pipeline::last_query(
            messages,
        ).len() == 0,
    decreases messages.len(),
{
    if messages.len() > 0 {
        let n = messages.len() - 1;
        let less = messages.drop_last();
        lemma_last_query(less, i, t);
        match pipeline::message_query(messages.last()) {
            Some(q) => {
                assert(asks(messages[n], q));
            },
            None => {
                assert(forall|k: int| 0 <= k < n ==> #[trigger] less[k] == messages[k]);
                if 0 <= i < messages.len() && asks(messages[i], t) {
                    assert(i < n);
                    if forall|k: int, s: Seq<char>|
                        i < k < messages.len() ==> !#[trigger] asks(messages[k], s) {
                        assert forall|k: int, s: Seq<char>| i < k < less.len() implies !(
                        #[trigger] asks(less[k], s)) by {
                            assert(!asks(messages[k], s));
                        }
                    }
                }
                if forall|k: int, s: Seq<char>|
                    0 <= k < messages.len() ==> !#[trigger] asks(messages[k], s) {
                    assert forall|k: int, s: Seq<char>| 0 <= k < less.len() implies !(
                    #[trigger] asks(less[k], s)) by {
                        assert(!asks(messages[k], s));
                    }
                }
            },
        }
    }
}

// ---------------------------------------------------------------------------
// The texts that are compressed
// ---------------------------------------------------------------------------
proof fn lemma_inner_found(i: usize, j: usize, blocks: Seq<JsonView>, k: int)
    requires
        0 <= k < blocks.len() <= usize::MAX,
        blocks[k].text_of("text"@) is Some,
    ensures
        pipeline::inner_segments(i, j, blocks).contains(
            SegmentView { path: seq![i, j, k as usize], text: blocks[k].text_of("text"@)->0 },
        ),
    decreases blocks.len(),
{
    let less = blocks.drop_last();
    let s = SegmentView { path: seq![i, j, k as usize], text: blocks[k].text_of("text"@)->0 };
    let before = pipeline::inner_segments(i, j, less);
    let found = pipeline::inner_segments(i, j, blocks);
    if k < less.len() {
        assert(less[k] == blocks[k]);
        lemma_inner_found(i, j, less, k);
        let a = choose|a: int| 0 <= a < before.len() && before[a] == s;
        assert(found[a] == before[a]);
    } else {
        assert(found[before.len() as int] == s);
    }
}

proof fn lemma_blocks_found(
    i: usize,
    blocks: Seq<JsonView>,
    user: bool,
    j: int,
    s: SegmentView,
)
    requires
        0 <= j < blocks.len() <= usize::MAX,
        pipeline::block_segments(i, j as usize, blocks[j], user).contains(s),
    ensures
        pipeline::blocks_segments(i, blocks, user).contains(s),
    decreases blocks.len(),
{
    let less = blocks.drop_last();
    let before = pipeline::blocks_segments(i, less, user);
    let more = pipeline::block_segments(i, (blocks.len() - 1) as usize, blocks.last(), user);
    let found = pipeline::blocks_segments(i, blocks, user);
    assert(found == before + more);
    if j < less.len() {
        assert(less[j] == blocks[j]);
        lemma_blocks_found(i, less, user, j, s);
        let a = choose|a: int| 0 <= a < before.len() && before[a] == s;
        assert(found[a] == before[a]);
    } else {
        let a = choose|a: int| 0 <= a < more.len() && more[a] == s;
        assert(found[before.len() + a] == more[a]);
    }
}

proof fn lemma_messages_found(messages: Seq<JsonView>, i: int, s: SegmentView)
    requires
        0 <= i < messages.len() <= usize::MAX,
        pipeline::message_segments(i as usize, messages[i]).contains(s),
    ensures
        pipeline::messages_segments(messages).contains(s),
    decreases messages.len(),
{
    let less = messages.drop_last();
    let before = pipeline::messages_segments(less);
    let more = pipeline::message_segments((messages.len() - 1) as usize, messages.last());
    let found = pipeline::messages_segments(messages);
    assert(found == before + more);
    if i < less.len() {
        assert(less[i] == messages[i]);
        lemma_messages_found(less, i, s);
        let a = choose|a: int| 0 <= a < before.len() && before[a] == s;
        assert(found[a] == before[a]);
    } else {
        let a = choose|a: int| 0 <= a < more.len() && more[a] == s;
        assert(found[before.len() + a] == more[a]);
    }
}

/// Every text of the user, and every text of a tool result, is extracted with
/// its path, unless it stands in a message of the assistant.
pub proof fn every_text_is_extracted(body: JsonView, path: Seq<usize>)
    requires
        laws::indexable(body),
        laws::text_at(body, path) is Some,
        ({
            let message = pipeline::item_at(body, "messages"@, path[0] as int)->0;
            laws::compressible(message, path) && message.get("role"@) != Some(
                JsonView::Text("assistant"@),
            )
        }),
    ensures
        pipeline::segments(body).contains(
            SegmentView { path, text: laws::text_at(body, path)->0 },
        ),
{
    laws::lemma_keys();
    let messages = body.items_of("messages"@)->0;
    let i = path[0] as int;
    let message = messages[i];
    let s = SegmentView { path, text: laws::text_at(body, path)->0 };
    let user = pipeline::of_user(message);
    assert(laws::message_indexable(message));
    if path.len() == 1 {
        assert(path =~= seq![path[0]]);
        assert(pipeline::message_segments(path[0], message)[0] == s);
    } else {
        let blocks = message.items_of("content"@)->0;
        let j = path[1] as int;
        let block = blocks[j];
        assert(laws::block_indexable(block));
        let found = pipeline::block_segments(path[0], path[1], block, user);
        if path.len() == 2 {
            assert(path =~= seq![path[0], path[1]]);
            assert(found[0] == s);
        } else {
            let inner = block.items_of("content"@)->0;
            let k = path[2] as int;
            assert(path =~= seq![path[0], path[1], path[2]]);
            lemma_inner_found(path[0], path[1], inner, k);
        }
        assert(found.contains(s));
        lemma_blocks_found(path[0], blocks, user, j, s);
    }
    lemma_messages_found(messages, i, s);
}

/// A path that leads nowhere changes nothing.
pub proof fn paths_that_lead_nowhere_change_nothing(
    body: JsonView,
    path: Seq<usize>,
    t: Seq<char>,
)
    requires
        path.len() == 0 || path.len() > 3 || pipeline::item_at(body, "messages"@, path[0] as int)
            is None || (path.len() >= 2 && pipeline::item_at(
            pipeline::item_at(body, "messages"@, path[0] as int)->0,
            "content"@,
            path[1] as int,
        ) is None),
    ensures
        pipeline::with_text(body, path, t) == body,
{
    if 1 <= path.len() <= 3 {
        let i = path[0] as int;
        match pipeline::item_at(body, "messages"@, i) {
            Some(message) => {
                let messages = body.items_of("messages"@)->0;
                assert(messages.update(i, message) =~= messages);
                assert(body->Object_0.insert("messages"@, JsonView::Array(messages))
                    =~= body->Object_0);
            },
            None => {},
        }
    }
}

// ---------------------------------------------------------------------------
// The stages
// ---------------------------------------------------------------------------
/// Each stage runs if and only if it is switched on, on what the stage before
/// it left. Where it cannot count tokens, the text goes on as it came.
pub proof fn stages_run_where_they_are_switched_on(
    t: Seq<char>,
    config: PipelineConfig,
    query: Seq<char>,
)
    ensures
        ({
            let r = pipeline::text_compressed(t, config, query);
            let squeezed = regex_compress::compressed(t);
            let before = if config.regex_structural && squeezed is Some {
                squeezed->0.text
            } else {
                t
            };
            let told = if config.regex_structural && squeezed is Some {
                squeezed->0.events
            } else {
                Seq::empty()
            };
            let stage = ast_prune::prune_stage(before, query, config.min_lines_for_ast as nat);
            if config.ast_pruning && stage is Some {
                &&& r.text == stage->0.text
                &&& stage->0.event is None ==> r.events == told
                &&& stage->0.event is Some ==> r.events.len() == told.len() + 1
                    && r.events.drop_last() == told && r.events.last() == stage->0.event->0
            } else {
                r.text == before && r.events == told
            }
        }),
{
    let r = pipeline::text_compressed(t, config, query);
    if r.events.len() > 0 {
        assert(r.events.drop_last().push(r.events.last()) =~= r.events);
    }
    match regex_compress::compressed(t) {
        Some(c) => {
            match ast_prune::prune_stage(c.text, query, config.min_lines_for_ast as nat) {
                Some(s) => match s.event {
                    Some(e) => {
                        assert(c.events.push(e).drop_last() =~= c.events);
                    },
                    None => {},
                },
                None => {},
            }
        },
        None => {},
    }
    match ast_prune::prune_stage(t, query, config.min_lines_for_ast as nat) {
        Some(s) => match s.event {
            Some(e) => {
                assert(Seq::empty().push(e).drop_last() =~= Seq::empty());
            },
            None => {},
        },
        None => {},
    }
}

/// Deduplication runs first, if and only if it is switched on and there is a
/// session. Then the texts of what it left are compressed, held against the
/// query. What the stages tell stands in the order in which they ran.
pub proof fn deduplication_comes_first(
    body: JsonView,
    config: PipelineConfig,
    tools: Option<Map<u64, session::EntryView>>,
)
    ensures
        ({
            let r = pipeline::processed(body, config, tools);
            let on = config.tool_dedup && tools is Some;
            let first = if on {
                dedup::deduped(tools->0, body).block
            } else {
                body
            };
            let rest = pipeline::texts_compressed(
                first,
                pipeline::segments(first),
                config,
                pipeline::user_query(first),
            );
            &&& r.body == rest.body
            &&& on ==> r.tools == Some(dedup::deduped(tools->0, body).progress.tools) && r.calls
                == dedup::deduped(tools->0, body).progress.calls && r.events == dedup::deduped(
                tools->0,
                body,
            ).progress.events + rest.events
            &&& !on ==> r.tools == tools && r.calls.len() == 0 && r.events == rest.events
        }),
{
    let first = pipeline::first_stage(body, config, tools);
    let rest = pipeline::texts_compressed(
        first.block,
        pipeline::segments(first.block),
        config,
        pipeline::user_query(first.block),
    );
    if !(config.tool_dedup && tools is Some) {
        assert(first.progress.events + rest.events =~= rest.events);
    }
}

/// Texts are compressed one after the other, each written back where it stood,
/// and everything that is told of them is kept.
pub proof fn texts_are_compressed_one_by_one(
    body: JsonView,
    texts: Seq<SegmentView>,
    s: SegmentView,
    config: PipelineConfig,
    query: Seq<char>,
)
    ensures
        pipeline::texts_compressed(body, Seq::empty(), config, query).body == body,
        pipeline::texts_compressed(body, Seq::empty(), config, query).events.len() == 0,
        ({
            let before = pipeline::texts_compressed(body, texts, config, query);
            let after = pipeline::texts_compressed(body, texts.push(s), config, query);
            let c = pipeline::text_compressed(s.text, config, query);
            &&& after.body == pipeline::with_text(before.body, s.path, c.text)
            &&& after.events == before.events + c.events
        }),
{
    assert(texts.push(s).drop_last() =~= texts);
}

} // verus!
