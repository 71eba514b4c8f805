//! How the pipeline keeps the shape of a request body, and how compression can
//! be undone.
use vstd::prelude::*;
use vstd::string::*;

use crate::config::PipelineConfig;
use crate::json::JsonView;
use crate::pipeline;
use crate::pipeline::dedup;
use crate::pipeline::laws;
use crate::pipeline::SegmentView;
use crate::session;

verus! {

// ---------------------------------------------------------------------------
// The shape of a body
// ---------------------------------------------------------------------------
/// Two values have the same fields, but for one.
pub open spec fn same_but(b: JsonView, c: JsonView, key: Seq<char>) -> bool {
    forall|k: Seq<char>| k != key ==> #[trigger] c.get(k) == b.get(k)
}

/// A block may change in the content of a tool result and in a text of the
/// user, and in nothing else.
pub open spec fn block_alike(b: JsonView, c: JsonView, user: bool) -> bool {
    if b.text_of("type"@) == Some("tool_result"@) {
        same_but(b, c, "content"@)
    } else if b.text_of("type"@) == Some("text"@) && user {
        same_but(b, c, "text"@)
    } else {
        c == b
    }
}

/// Blocks are as many as before, in the same order, and each is alike.
pub open spec fn blocks_alike(b: Seq<JsonView>, c: Seq<JsonView>, user: bool) -> bool {
    c.len() == b.len() && forall|j: int|
        0 <= j < b.len() ==> block_alike(#[trigger] b[j], c[j], user)
}

/// A message may change in its content, and there only in a text of the user
/// and in its blocks. One of the assistant does not change.
pub open spec fn message_alike(m: JsonView, n: JsonView) -> bool {
    &&& same_but(m, n, "content"@)
    &&& m.text_of("role"@) == Some("assistant"@) ==> n == m
    &&& match (m.items_of("content"@), n.items_of("content"@)) {
        (Some(b), Some(c)) => blocks_alike(b, c, pipeline::of_user(m)),
        (None, None) => pipeline::of_user(m) || n == m,
        _ => false,
    }
}

/// Messages are as many as before, in the same order, and each is alike.
pub open spec fn messages_alike(m: Seq<JsonView>, n: Seq<JsonView>) -> bool {
    n.len() == m.len() && forall|i: int|
        0 <= i < m.len() ==> message_alike(#[trigger] m[i], n[i])
}

/// A body may change in its messages, and in nothing else.
pub open spec fn body_alike(b: JsonView, a: JsonView) -> bool {
    &&& same_but(b, a, "messages"@)
    &&& match (b.items_of("messages"@), a.items_of("messages"@)) {
        (Some(m), Some(n)) => messages_alike(m, n),
        (None, None) => a == b,
        _ => false,
    }
}

proof fn lemma_alike_itself(body: JsonView)
    ensures
        body_alike(body, body),
{
}

proof fn lemma_block_alike_through(b: JsonView, c: JsonView, d: JsonView, user: bool)
    requires
        block_alike(b, c, user),
        block_alike(c, d, user),
    ensures
        block_alike(b, d, user),
{
    laws::lemma_keys();
    assert(c.get("type"@) == b.get("type"@));
}

proof fn lemma_message_alike_through(m: JsonView, n: JsonView, o: JsonView)
    requires
        message_alike(m, n),
        message_alike(n, o),
    ensures
        message_alike(m, o),
{
    laws::lemma_keys();
    assert(n.get("role"@) == m.get("role"@));
    match (m.items_of("content"@), n.items_of("content"@), o.items_of("content"@)) {
        (Some(b), Some(c), Some(d)) => {
            let user = pipeline::of_user(m);
            assert forall|j: int| 0 <= j < b.len() implies block_alike(
                #[trigger] b[j],
                d[j],
                user,
            ) by {
                assert(block_alike(b[j], c[j], user));
                assert(block_alike(c[j], d[j], user));
                lemma_block_alike_through(b[j], c[j], d[j], user);
            }
        },
        _ => {},
    }
}

proof fn lemma_alike_through(a: JsonView, b: JsonView, c: JsonView)
    requires
        body_alike(a, b),
        body_alike(b, c),
    ensures
        body_alike(a, c),
{
    match (a.items_of("messages"@), b.items_of("messages"@), c.items_of("messages"@)) {
        (Some(m), Some(n), Some(o)) => {
            assert forall|i: int| 0 <= i < m.len() implies message_alike(
                #[trigger] m[i],
                o[i],
            ) by {
                assert(message_alike(m[i], n[i]));
                assert(message_alike(n[i], o[i]));
                lemma_message_alike_through(m[i], n[i], o[i]);
            }
        },
        _ => {},
    }
}

// ---------------------------------------------------------------------------
// Writing
// ---------------------------------------------------------------------------
proof fn lemma_block_write(message: JsonView, block: JsonView, path: Seq<usize>, t: Seq<char>)
    requires
        2 <= path.len() <= 3,
        pipeline::item_at(message, "content"@, path[1] as int) == Some(block),
        laws::message_text_at(message, path) is Some,
        laws::compressible(message, path),
        laws::block_indexable(block),
    ensures
        block_alike(block, laws::block_written(block, path, t), pipeline::of_user(message)),
        laws::block_indexable(laws::block_written(block, path, t)),
{
    laws::lemma_keys();
    let after = laws::block_written(block, path, t);
    if path.len() == 3 {
        let k = path[2] as int;
        let inner = pipeline::item_at(block, "content"@, k)->0;
        laws::lemma_with_item(
            block,
            "content"@,
            k,
            inner.with("text"@, JsonView::Text(t)),
        );
    } else if block.text_of("type"@) == Some("text"@) {
        assert(after.get("content"@) == block.get("content"@));
    } else {
        assert(after.get("content"@) == Some(JsonView::Text(t)));
    }
}

proof fn lemma_message_write(message: JsonView, path: Seq<usize>, t: Seq<char>)
    requires
        1 <= path.len() <= 3,
        laws::message_text_at(message, path) is Some,
        laws::compressible(message, path),
        message.text_of("role"@) != Some("assistant"@),
        laws::message_indexable(message),
    ensures
        message_alike(message, pipeline::message_with_text(message, path, t)),
        laws::message_indexable(pipeline::message_with_text(message, path, t)),
{
    laws::lemma_keys();
    let after = pipeline::message_with_text(message, path, t);
    if path.len() == 1 {
        assert(after.get("content"@) == Some(JsonView::Text(t)));
    } else {
        let j = path[1] as int;
        let blocks = message.items_of("content"@)->0;
        let block = blocks[j];
        let written = laws::block_written(block, path, t);
        assert(laws::block_indexable(block));
        lemma_block_write(message, block, path, t);
        laws::lemma_with_item(message, "content"@, j, written);
        assert(after == pipeline::with_item_at(message, "content"@, j, written));
        let set = blocks.update(j, written);
        assert(after.get("content"@) == Some(JsonView::Array(set)));
        assert forall|k: int| 0 <= k < blocks.len() implies block_alike(
            #[trigger] blocks[k],
            set[k],
            pipeline::of_user(message),
        ) by {
            if k != j {
                assert(set[k] == blocks[k]);
            }
        }
        assert forall|k: int| 0 <= k < set.len() implies laws::block_indexable(
            #[trigger] set[k],
        ) by {
            if k != j {
                assert(set[k] == blocks[k]);
            }
        }
    }
}

/// Writing at the path of a text of the user or of a tool result keeps the
/// shape of a body.
proof fn lemma_write(body: JsonView, path: Seq<usize>, t: Seq<char>)
    requires
        laws::indexable(body),
        laws::text_at(body, path) is Some,
        ({
            let message = pipeline::item_at(body, "messages"@, path[0] as int)->0;
            laws::compressible(message, path) && message.text_of("role"@) != Some("assistant"@)
        }),
    ensures
        body_alike(body, pipeline::with_text(body, path, t)),
        laws::indexable(pipeline::with_text(body, path, t)),
{
    let i = path[0] as int;
    let messages = body.items_of("messages"@)->0;
    let message = messages[i];
    let written = pipeline::message_with_text(message, path, t);
    let after = pipeline::with_text(body, path, t);
    assert(laws::message_indexable(message));
    lemma_message_write(message, path, t);
    laws::lemma_with_item(body, "messages"@, i, written);
    let set = messages.update(i, written);
    assert(after.get("messages"@) == Some(JsonView::Array(set)));
    assert forall|k: int| 0 <= k < messages.len() implies message_alike(
        #[trigger] messages[k],
        set[k],
    ) by {
        if k != i {
            assert(set[k] == messages[k]);
        }
    }
    assert forall|k: int| 0 <= k < set.len() implies laws::message_indexable(
        #[trigger] set[k],
    ) by {
        if k != i {
            assert(set[k] == messages[k]);
        }
    }
}

/// What can be compressed in a body can be compressed in one that is alike.
proof fn lemma_still_compressible(body: JsonView, after: JsonView, s: SegmentView)
    requires
        body_alike(body, after),
        laws::found_in(body, s),
        laws::text_at(after, s.path) is Some,
    ensures
        ({
            let message = pipeline::item_at(after, "messages"@, s.path[0] as int)->0;
            laws::compressible(message, s.path) && message.text_of("role"@) != Some("assistant"@)
        }),
{
    laws::lemma_keys();
    let i = s.path[0] as int;
    let m = body.items_of("messages"@)->0[i];
    let n = after.items_of("messages"@)->0[i];
    assert(message_alike(m, n));
    assert(n.get("role"@) == m.get("role"@));
    if s.path.len() > 1 {
        let j = s.path[1] as int;
        let b = m.items_of("content"@)->0[j];
        let c = n.items_of("content"@)->0[j];
        assert(block_alike(b, c, pipeline::of_user(m)));
        assert(c.get("type"@) == b.get("type"@));
    }
}

// ---------------------------------------------------------------------------
// Compression
// ---------------------------------------------------------------------------
/// A body with texts written back, the last one first.
pub open spec fn undone(body: JsonView, texts: Seq<SegmentView>) -> JsonView
    decreases texts.len(),
{
    if texts.len() == 0 {
        body
    } else {
        undone(
            pipeline::with_text(body, texts.last().path, texts.last().text),
            texts.drop_last(),
        )
    }
}

/// The texts of a body, the first `n` of them compressed.
pub open spec fn partly_compressed(
    texts: Seq<SegmentView>,
    config: PipelineConfig,
    query: Seq<char>,
    n: int,
) -> Seq<SegmentView> {
    Seq::new(
        texts.len(),
        |a: int|
            if a < n {
                SegmentView {
                    path: texts[a].path,
                    text: pipeline::text_compressed(texts[a].text, config, query).text,
                }
            } else {
                texts[a]
            },
    )
}

proof fn lemma_steps(body: JsonView, config: PipelineConfig, query: Seq<char>, n: int)
    requires
        laws::indexable(body),
        0 <= n <= pipeline::segments(body).len(),
    ensures
        ({
            let texts = pipeline::segments(body);
            let after = pipeline::texts_compressed(body, texts.take(n), config, query).body;
            &&& body_alike(body, after)
            &&& laws::indexable(after)
            &&& pipeline::segments(after) == partly_compressed(texts, config, query, n)
            &&& undone(after, texts.take(n)) == body
        }),
    decreases n,
{
    let texts = pipeline::segments(body);
    let after = pipeline::texts_compressed(body, texts.take(n), config, query).body;
    if n > 0 {
        lemma_steps(body, config, query, n - 1);
        laws::extracted_texts_are_in_place(body);
        assert(laws::distinct(texts));
        laws::lemma_compressed(body, texts, config, query, n - 1);
        assert(texts.take(n).drop_last() =~= texts.take(n - 1));
        let before = pipeline::texts_compressed(body, texts.take(n - 1), config, query).body;
        let s = texts[n - 1];
        let t = pipeline::text_compressed(s.text, config, query).text;
        assert(after == pipeline::with_text(before, s.path, t));
        assert(laws::found_in(body, s));
        assert(laws::text_at(before, s.path) == Some(s.text));
        lemma_still_compressible(body, before, s);
        lemma_write(before, s.path, t);
        lemma_alike_through(body, before, after);
        assert(pipeline::segments(before)[n - 1] == s);
        laws::writing_replaces_one_text(before, n - 1, t);
        assert(pipeline::segments(after) =~= partly_compressed(texts, config, query, n));
        laws::writing_can_be_undone(before, s.path, t);
    } else {
        assert(texts.take(0) =~= Seq::empty());
        lemma_alike_itself(body);
        assert(partly_compressed(texts, config, query, 0) =~= texts);
    }
}

/// Compression leaves the texts of a body where they are, in their order, each
/// with what the stages leave of it.
pub proof fn texts_keep_their_places(body: JsonView, config: PipelineConfig, query: Seq<char>)
    requires
        laws::indexable(body),
    ensures
        ({
            let texts = pipeline::segments(body);
            let after = pipeline::segments(
                pipeline::texts_compressed(body, texts, config, query).body,
            );
            &&& after.len() == texts.len()
            &&& forall|a: int|
                0 <= a < texts.len() ==> #[trigger] after[a] == (SegmentView {
                    path: texts[a].path,
                    text: pipeline::text_compressed(texts[a].text, config, query).text,
                })
        }),
{
    let texts = pipeline::segments(body);
    lemma_steps(body, config, query, texts.len() as int);
    assert(texts.take(texts.len() as int) =~= texts);
}

/// Compression changes nothing of a body but its texts: with the old texts
/// written back at their paths, the body is as it was.
pub proof fn compression_can_be_undone(body: JsonView, config: PipelineConfig, query: Seq<char>)
    requires
        laws::indexable(body),
    ensures
        ({
            let texts = pipeline::segments(body);
            undone(pipeline::texts_compressed(body, texts, config, query).body, texts) == body
        }),
{
    let texts = pipeline::segments(body);
    lemma_steps(body, config, query, texts.len() as int);
    assert(texts.take(texts.len() as int) =~= texts);
}

// ---------------------------------------------------------------------------
// The pipeline
// ---------------------------------------------------------------------------
/// Deduplication keeps a block, or writes a placeholder into a tool result.
pub open spec fn block_kept(b: JsonView, c: JsonView) -> bool {
    c == b || b.text_of("type"@) == Some("tool_result"@) && exists|id: Seq<char>, n: nat|
        c == b.with("content"@, JsonView::Text(#[trigger] dedup::placeholder(id, n)))
}

/// Blocks are as many as before, in the same order, and each is kept but for
/// placeholders.
pub open spec fn blocks_kept(b: Seq<JsonView>, c: Seq<JsonView>) -> bool {
    c.len() == b.len() && forall|j: int| 0 <= j < b.len() ==> block_kept(#[trigger] b[j], c[j])
}

/// A message is kept but for placeholders in its blocks.
pub open spec fn message_kept(m: JsonView, n: JsonView) -> bool {
    n == m || match (m.items_of("content"@), n.items_of("content"@)) {
        (Some(b), Some(c)) => m.text_of("role"@) != Some("assistant"@) && blocks_kept(b, c) && n
            == m.with("content"@, JsonView::Array(c)),
        _ => false,
    }
}

/// Messages are as many as before, in the same order, and each is kept but for
/// placeholders.
pub open spec fn messages_kept(m: Seq<JsonView>, n: Seq<JsonView>) -> bool {
    n.len() == m.len() && forall|i: int| 0 <= i < m.len() ==> message_kept(#[trigger] m[i], n[i])
}

/// A body is kept but for placeholders in its messages.
pub open spec fn body_kept(b: JsonView, a: JsonView) -> bool {
    a == b || match (b.items_of("messages"@), a.items_of("messages"@)) {
        (Some(m), Some(n)) => messages_kept(m, n) && a == b.with("messages"@, JsonView::Array(n)),
        _ => false,
    }
}

proof fn lemma_examined_blocks(
    p: dedup::Progress,
    uses: Seq<dedup::ToolUseView>,
    blocks: Seq<JsonView>,
)
    ensures
        blocks_kept(blocks, dedup::blocks_examined(p, uses, blocks).items),
    decreases blocks.len(),
{
    if blocks.len() > 0 {
        let less = blocks.drop_last();
        lemma_examined_blocks(p, uses, less);
        let before = dedup::blocks_examined(p, uses, less);
        let items = dedup::blocks_examined(p, uses, blocks).items;
        assert forall|j: int| 0 <= j < blocks.len() implies block_kept(
            #[trigger] blocks[j],
            items[j],
        ) by {
            if j < less.len() {
                assert(items[j] == before.items[j]);
                assert(block_kept(less[j], before.items[j]));
            }
        }
    }
}

proof fn lemma_examined_messages(
    p: dedup::Progress,
    uses: Seq<dedup::ToolUseView>,
    messages: Seq<JsonView>,
)
    ensures
        messages_kept(messages, dedup::messages_examined(p, uses, messages).items),
    decreases messages.len(),
{
    if messages.len() > 0 {
        let less = messages.drop_last();
        lemma_examined_messages(p, uses, less);
        let before = dedup::messages_examined(p, uses, less);
        let items = dedup::messages_examined(p, uses, messages).items;
        let message = messages.last();
        let after = dedup::message_examined(before.progress, uses, message).block;
        match message.items_of("content"@) {
            Some(blocks) => {
                lemma_examined_blocks(before.progress, uses, blocks);
                let kept = dedup::blocks_examined(before.progress, uses, blocks).items;
                if message.text_of("role"@) != Some("assistant"@) {
                    assert(after.get("content"@) == Some(JsonView::Array(kept)));
                }
            },
            None => {},
        }
        assert(message_kept(message, after));
        assert forall|i: int| 0 <= i < messages.len() implies message_kept(
            #[trigger] messages[i],
            items[i],
        ) by {
            if i < less.len() {
                assert(items[i] == before.items[i]);
                assert(message_kept(less[i], before.items[i]));
            }
        }
    }
}

/// Deduplication changes nothing but the content of tool results, and writes
/// nothing but placeholders there.
pub proof fn deduplication_writes_placeholders_only(
    body: JsonView,
    tools: Map<u64, session::EntryView>,
)
    ensures
        body_kept(body, dedup::deduped(tools, body).block),
{
    match body.items_of("messages"@) {
        Some(messages) => {
            let p = dedup::nothing_done(tools);
            let uses = dedup::uses_of(messages);
            lemma_examined_messages(p, uses, messages);
            let items = dedup::messages_examined(p, uses, messages).items;
            let after = dedup::deduped(tools, body).block;
            assert(after.get("messages"@) == Some(JsonView::Array(items)));
        },
        None => {},
    }
}

/// A block that is kept is alike, whoever wrote it.
proof fn lemma_block_kept(b: JsonView, c: JsonView, user: bool)
    requires
        block_kept(b, c),
        laws::block_indexable(b),
    ensures
        block_alike(b, c, user),
        laws::block_indexable(c),
{
}

proof fn lemma_message_kept(m: JsonView, n: JsonView)
    requires
        message_kept(m, n),
        laws::message_indexable(m),
    ensures
        message_alike(m, n),
        laws::message_indexable(n),
{
    let user = pipeline::of_user(m);
    match (m.items_of("content"@), n.items_of("content"@)) {
        (Some(b), Some(c)) => {
            assert forall|j: int| 0 <= j < b.len() implies block_alike(#[trigger] b[j], c[j], user)
                && laws::block_indexable(c[j]) by {
                assert(block_kept(b[j], c[j]));
                lemma_block_kept(b[j], c[j], user);
            }
            assert forall|j: int| 0 <= j < c.len() implies laws::block_indexable(
                #[trigger] c[j],
            ) by {
                assert(block_alike(b[j], c[j], user));
            }
        },
        _ => {},
    }
}

proof fn lemma_body_kept(b: JsonView, a: JsonView)
    requires
        body_kept(b, a),
        laws::indexable(b),
    ensures
        body_alike(b, a),
        laws::indexable(a),
{
    match (b.items_of("messages"@), a.items_of("messages"@)) {
        (Some(m), Some(n)) => {
            assert forall|i: int| 0 <= i < m.len() implies message_alike(#[trigger] m[i], n[i])
                && laws::message_indexable(n[i]) by {
                assert(message_kept(m[i], n[i]));
                lemma_message_kept(m[i], n[i]);
            }
            assert forall|i: int| 0 <= i < n.len() implies laws::message_indexable(
                #[trigger] n[i],
            ) by {
                assert(message_alike(m[i], n[i]));
            }
        },
        _ => {},
    }
}

/// The pipeline keeps the number and the order of messages and blocks. It
/// changes nothing but texts of the user and the content of tool results.
pub proof fn the_pipeline_keeps_the_shape(
    body: JsonView,
    config: PipelineConfig,
    tools: Option<Map<u64, session::EntryView>>,
)
    requires
        laws::indexable(body),
    ensures
        body_alike(body, pipeline::processed(body, config, tools).body),
{
    let first = pipeline::first_stage(body, config, tools).block;
    if config.tool_dedup && tools is Some {
        deduplication_writes_placeholders_only(body, tools->0);
    }
    lemma_body_kept(body, first);
    let texts = pipeline::segments(first);
    let query = pipeline::user_query(first);
    lemma_steps(first, config, query, texts.len() as int);
    assert(texts.take(texts.len() as int) =~= texts);
    lemma_alike_through(
        body,
        first,
        pipeline::texts_compressed(first, texts, config, query).body,
    );
}

/// What comes out of the pipeline, with the texts that it compressed written
/// back at their paths, is the body that came in, but for the placeholders of
/// repeated tool results. Without deduplication it is that body.
pub proof fn the_pipeline_can_be_undone(
    body: JsonView,
    config: PipelineConfig,
    tools: Option<Map<u64, session::EntryView>>,
)
    requires
        laws::indexable(body),
    ensures
        ({
            let texts = pipeline::segments(pipeline::first_stage(body, config, tools).block);
            let before = undone(pipeline::processed(body, config, tools).body, texts);
            &&& body_kept(body, before)
            &&& !config.tool_dedup || tools is None ==> before == body
        }),
{
    let first = pipeline::first_stage(body, config, tools).block;
    if config.tool_dedup && tools is Some {
        deduplication_writes_placeholders_only(body, tools->0);
    }
    lemma_body_kept(body, first);
    compression_can_be_undone(first, config, pipeline::user_query(first));
}

} // verus!
