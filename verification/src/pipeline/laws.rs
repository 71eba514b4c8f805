//! What the pipeline changes of a request body, and what it leaves.
use vstd::prelude::*;
use vstd::string::*;

use crate::config::PipelineConfig;
use crate::json::JsonView;
use crate::metrics::EventView;
use crate::pipeline;
use crate::pipeline::dedup;
use crate::pipeline::regex_compress;
use crate::pipeline::SegmentView;
use crate::session;

verus! {

// ---------------------------------------------------------------------------
// Reading and writing at a path
// ---------------------------------------------------------------------------
/// The text that stands at a path within a message.
pub open spec fn message_text_at(message: JsonView, path: Seq<usize>) -> Option<Seq<char>> {
    if path.len() == 1 {
        message.text_of("content"@)
    } else {
        match pipeline::item_at(message, "content"@, path[1] as int) {
            Some(block) => if path.len() == 2 {
                if block.text_of("type"@) == Some("text"@) {
                    block.text_of("text"@)
                } else if block.text_of("type"@) == Some("tool_result"@) {
                    block.text_of("content"@)
                } else {
                    None
                }
            } else {
                match pipeline::item_at(block, "content"@, path[2] as int) {
                    Some(inner) => inner.text_of("text"@),
                    None => None,
                }
            },
            None => None,
        }
    }
}

/// The text that stands at a path.
pub open spec fn text_at(body: JsonView, path: Seq<usize>) -> Option<Seq<char>> {
    if 1 <= path.len() <= 3 {
        match pipeline::item_at(body, "messages"@, path[0] as int) {
            Some(message) => message_text_at(message, path),
            None => None,
        }
    } else {
        None
    }
}

pub proof fn lemma_keys()
    ensures
        "text"@ != "type"@,
        "content"@ != "type"@,
        "content"@ != "role"@,
        "text"@ != "content"@,
        "text"@ != "tool_result"@,
{
    reveal_strlit("text");
    reveal_strlit("type");
    reveal_strlit("content");
    reveal_strlit("role");
    reveal_strlit("tool_result");
    assert("text"@[1] != "type"@[1]);
    assert("content"@.len() != "type"@.len());
    assert("content"@.len() != "role"@.len());
    assert("text"@.len() != "content"@.len());
    assert("text"@.len() != "tool_result"@.len());
}

/// A value with another item in an array has that item there, and no other
/// item or field has changed.
pub proof fn lemma_with_item(j: JsonView, key: Seq<char>, i: int, item: JsonView)
    requires
        pipeline::item_at(j, key, i) is Some,
    ensures
        ({
            let after = pipeline::with_item_at(j, key, i, item);
            &&& pipeline::item_at(after, key, i) == Some(item)
            &&& forall|k: int|
                k != i ==> #[trigger] pipeline::item_at(after, key, k) == pipeline::item_at(
                    j,
                    key,
                    k,
                )
            &&& forall|other: Seq<char>|
                other != key ==> #[trigger] after.get(other) == j.get(other)
        }),
{
    let items = j.items_of(key)->0;
    let after = pipeline::with_item_at(j, key, i, item);
    assert(after.get(key) == Some(JsonView::Array(items.update(i, item))));
}

/// Putting an item where it is changes nothing.
proof fn lemma_same_item(j: JsonView, key: Seq<char>, i: int, item: JsonView)
    requires
        pipeline::item_at(j, key, i) == Some(item),
    ensures
        pipeline::with_item_at(j, key, i, item) == j,
{
    let items = j.items_of(key)->0;
    assert(items.update(i, item) =~= items);
    assert(j->Object_0.insert(key, JsonView::Array(items)) =~= j->Object_0);
}

proof fn lemma_same_text(j: JsonView, key: Seq<char>, t: Seq<char>)
    requires
        j.text_of(key) == Some(t),
    ensures
        j.with(key, JsonView::Text(t)) == j,
{
    assert(j->Object_0.insert(key, JsonView::Text(t)) =~= j->Object_0);
}

/// A text that is written back where it was read changes nothing.
pub proof fn writing_what_was_read_changes_nothing(body: JsonView, path: Seq<usize>)
    requires
        text_at(body, path) is Some,
    ensures
        pipeline::with_text(body, path, text_at(body, path)->0) == body,
{
    let t = text_at(body, path)->0;
    let i = path[0] as int;
    let message = pipeline::item_at(body, "messages"@, i)->0;
    assert(pipeline::message_with_text(message, path, t) == message) by {
        if path.len() == 1 {
            lemma_same_text(message, "content"@, t);
        } else {
            let j = path[1] as int;
            let block = pipeline::item_at(message, "content"@, j)->0;
            if path.len() == 2 {
                if block.text_of("type"@) == Some("text"@) {
                    lemma_same_text(block, "text"@, t);
                } else {
                    lemma_same_text(block, "content"@, t);
                }
            } else {
                let k = path[2] as int;
                let inner = pipeline::item_at(block, "content"@, k)->0;
                lemma_same_text(inner, "text"@, t);
                lemma_same_item(block, "content"@, k, inner);
            }
            lemma_same_item(message, "content"@, j, block);
        }
    }
    lemma_same_item(body, "messages"@, i, message);
}

/// A text that has been written at the path of another one is read back there.
pub proof fn written_text_is_read_back(body: JsonView, path: Seq<usize>, t: Seq<char>)
    requires
        text_at(body, path) is Some,
    ensures
        text_at(pipeline::with_text(body, path, t), path) == Some(t),
{
    lemma_keys();
    let i = path[0] as int;
    let message = pipeline::item_at(body, "messages"@, i)->0;
    let written = pipeline::message_with_text(message, path, t);
    lemma_with_item(body, "messages"@, i, written);
    assert(message_text_at(written, path) == Some(t)) by {
        if path.len() > 1 {
            let j = path[1] as int;
            let block = pipeline::item_at(message, "content"@, j)->0;
            if path.len() == 2 {
                let b = pipeline::block_with_text(block, t);
                lemma_with_item(message, "content"@, j, b);
                assert(b.get("type"@) == block.get("type"@));
            } else {
                let k = path[2] as int;
                let inner = pipeline::item_at(block, "content"@, k)->0;
                let set = inner.with("text"@, JsonView::Text(t));
                lemma_with_item(block, "content"@, k, set);
                lemma_with_item(
                    message,
                    "content"@,
                    j,
                    pipeline::with_item_at(block, "content"@, k, set),
                );
            }
        }
    }
}

/// Writing a text changes none of the others.
pub proof fn other_texts_stay(body: JsonView, path: Seq<usize>, t: Seq<char>, other: Seq<usize>)
    requires
        text_at(body, path) is Some,
        text_at(body, other) is Some,
        path != other,
    ensures
        text_at(pipeline::with_text(body, path, t), other) == text_at(body, other),
{
    lemma_keys();
    let i = path[0] as int;
    let message = pipeline::item_at(body, "messages"@, i)->0;
    let written = pipeline::message_with_text(message, path, t);
    lemma_with_item(body, "messages"@, i, written);
    if other[0] == path[0] {
        assert(message_text_at(written, other) == message_text_at(message, other)) by {
            if path.len() == 1 {
                // The content of the message is a text: no other path leads
                // into it.
                assert(other =~= path);
            } else {
                assert(other.len() > 1);
                let j = path[1] as int;
                let block = pipeline::item_at(message, "content"@, j)->0;
                if path.len() == 2 {
                    let b = pipeline::block_with_text(block, t);
                    lemma_with_item(message, "content"@, j, b);
                    if other[1] == path[1] {
                        if other.len() == 2 {
                            assert(other =~= path);
                        } else if block.text_of("type"@) == Some("text"@) {
                            assert(b.get("content"@) == block.get("content"@));
                        }
                    }
                } else {
                    let k = path[2] as int;
                    let inner = pipeline::item_at(block, "content"@, k)->0;
                    let set = inner.with("text"@, JsonView::Text(t));
                    lemma_with_item(block, "content"@, k, set);
                    let b = pipeline::with_item_at(block, "content"@, k, set);
                    lemma_with_item(message, "content"@, j, b);
                    if other[1] == path[1] {
                        if other.len() == 2 {
                            assert(b.get("type"@) == block.get("type"@));
                            assert(b.get("text"@) == block.get("text"@));
                        } else if other[2] == path[2] {
                            assert(other =~= path);
                        }
                    }
                }
            }
        }
    }
}

// ---------------------------------------------------------------------------
// The texts of a body
// ---------------------------------------------------------------------------
/// The text at a path in a message is one of the user, or of a tool result.
pub open spec fn compressible(message: JsonView, path: Seq<usize>) -> bool {
    let result = pipeline::item_at(message, "content"@, path[1] as int)->0.text_of("type"@) == Some(
        "tool_result"@,
    );
    if path.len() == 1 {
        pipeline::of_user(message)
    } else if path.len() == 2 {
        pipeline::of_user(message) || result
    } else {
        result
    }
}

/// What holds of a text of some message.
spec fn in_message(message: JsonView, i: usize, s: SegmentView) -> bool {
    &&& 1 <= s.path.len() <= 3
    &&& s.path[0] == i
    &&& message_text_at(message, s.path) == Some(s.text)
    &&& compressible(message, s.path)
}

/// No two texts stand at the same path.
pub open spec fn distinct(texts: Seq<SegmentView>) -> bool {
    forall|a: int, b: int|
        0 <= a < b < texts.len() ==> (#[trigger] texts[a]).path != (#[trigger] texts[b]).path
}

proof fn lemma_inner(message: JsonView, block: JsonView, i: usize, j: usize, n: int)
    requires
        pipeline::item_at(message, "content"@, j as int) == Some(block),
        block.text_of("type"@) == Some("tool_result"@),
        block.items_of("content"@) is Some,
        0 <= n <= block.items_of("content"@)->0.len() <= usize::MAX,
    ensures
        ({
            let found = pipeline::inner_segments(i, j, block.items_of("content"@)->0.take(n));
            &&& distinct(found)
            &&& forall|a: int|
                0 <= a < found.len() ==> in_message(message, i, #[trigger] found[a])
                    && found[a].path.len() == 3 && found[a].path[1] == j && found[a].path[2] < n
        }),
    decreases n,
{
    let blocks = block.items_of("content"@)->0;
    let found = pipeline::inner_segments(i, j, blocks.take(n));
    if n > 0 {
        lemma_inner(message, block, i, j, n - 1);
        assert(blocks.take(n).drop_last() =~= blocks.take(n - 1));
        let before = pipeline::inner_segments(i, j, blocks.take(n - 1));
        assert forall|a: int| 0 <= a < found.len() implies in_message(
            message,
            i,
            #[trigger] found[a],
        ) && found[a].path.len() == 3 && found[a].path[1] == j && found[a].path[2] < n by {
            if a < before.len() {
                assert(found[a] == before[a]);
            } else {
                assert(found[a].path[2] == n - 1);
            }
        }
        assert forall|a: int, b: int| 0 <= a < b < found.len() implies (#[trigger] found[a]).path
            != (#[trigger] found[b]).path by {
            assert(found[a] == before[a]);
            if b < before.len() {
                assert(found[b] == before[b]);
            } else {
                assert(found[b].path[2] == n - 1);
                assert(before[a].path[2] < n - 1);
            }
        }
    }
}

proof fn lemma_block(message: JsonView, block: JsonView, i: usize, j: usize, user: bool)
    requires
        pipeline::item_at(message, "content"@, j as int) == Some(block),
        user == pipeline::of_user(message),
        block.items_of("content"@) matches Some(blocks) ==> blocks.len() <= usize::MAX,
    ensures
        ({
            let found = pipeline::block_segments(i, j, block, user);
            &&& distinct(found)
            &&& forall|a: int|
                0 <= a < found.len() ==> in_message(message, i, #[trigger] found[a])
                    && found[a].path.len() >= 2 && found[a].path[1] == j
        }),
{
    lemma_keys();
    match block.get("content"@) {
        Some(JsonView::Array(blocks)) => {
            if block.text_of("type"@) == Some("tool_result"@) {
                lemma_inner(message, block, i, j, blocks.len() as int);
                assert(blocks.take(blocks.len() as int) =~= blocks);
            }
        },
        _ => {},
    }
}

/// Every array of a body has a length that a `usize` holds.
pub open spec fn indexable(body: JsonView) -> bool {
    body.items_of("messages"@) matches Some(messages) ==> messages.len() <= usize::MAX && forall|
        i: int,
    |
        0 <= i < messages.len() ==> message_indexable(#[trigger] messages[i])
}

pub open spec fn message_indexable(message: JsonView) -> bool {
    message.items_of("content"@) matches Some(blocks) ==> blocks.len() <= usize::MAX && forall|
        j: int,
    |
        0 <= j < blocks.len() ==> block_indexable(#[trigger] blocks[j])
}

pub open spec fn block_indexable(block: JsonView) -> bool {
    block.items_of("content"@) matches Some(blocks) ==> blocks.len() <= usize::MAX
}

proof fn lemma_blocks(message: JsonView, i: usize, n: int, user: bool)
    requires
        message_indexable(message),
        user == pipeline::of_user(message),
        message.items_of("content"@) is Some,
        0 <= n <= message.items_of("content"@)->0.len(),
    ensures
        ({
            let found = pipeline::blocks_segments(
                i,
                message.items_of("content"@)->0.take(n),
                user,
            );
            &&& distinct(found)
            &&& forall|a: int|
                0 <= a < found.len() ==> in_message(message, i, #[trigger] found[a])
                    && found[a].path.len() >= 2 && found[a].path[1] < n
        }),
    decreases n,
{
    let blocks = message.items_of("content"@)->0;
    let found = pipeline::blocks_segments(i, blocks.take(n), user);
    if n > 0 {
        lemma_blocks(message, i, n - 1, user);
        assert(blocks.take(n).drop_last() =~= blocks.take(n - 1));
        let block = blocks[n - 1];
        let j = (n - 1) as usize;
        assert(block_indexable(block));
        lemma_block(message, block, i, j, user);
        let before = pipeline::blocks_segments(i, blocks.take(n - 1), user);
        let more = pipeline::block_segments(i, j, block, user);
        assert(found =~= before + more);
        lemma_joined(message, i, before, more, n - 1);
    }
}

/// Texts of earlier blocks and those of the next one.
proof fn lemma_joined(
    message: JsonView,
    i: usize,
    before: Seq<SegmentView>,
    more: Seq<SegmentView>,
    j: int,
)
    requires
        distinct(before),
        distinct(more),
        forall|a: int|
            0 <= a < before.len() ==> in_message(message, i, #[trigger] before[a])
                && before[a].path.len() >= 2 && before[a].path[1] < j,
        forall|a: int|
            0 <= a < more.len() ==> in_message(message, i, #[trigger] more[a])
                && more[a].path.len() >= 2 && more[a].path[1] == j,
    ensures
        distinct(before + more),
        forall|a: int|
            0 <= a < (before + more).len() ==> in_message(message, i, #[trigger] (before + more)[a])
                && (before + more)[a].path.len() >= 2 && (before + more)[a].path[1] < j + 1,
{
    let found = before + more;
    assert forall|a: int| 0 <= a < found.len() implies in_message(message, i, #[trigger] found[a])
        && found[a].path.len() >= 2 && found[a].path[1] < j + 1 by {
        if a < before.len() {
            assert(found[a] == before[a]);
        } else {
            assert(found[a] == more[a - before.len()]);
        }
    }
    assert forall|a: int, b: int| 0 <= a < b < found.len() implies (#[trigger] found[a]).path != (
    #[trigger] found[b]).path by {
        if b < before.len() {
            assert(found[a] == before[a] && found[b] == before[b]);
        } else if a >= before.len() {
            assert(found[a] == more[a - before.len()] && found[b] == more[b - before.len()]);
        } else {
            assert(found[a] == before[a] && found[b] == more[b - before.len()]);
            assert(found[a].path[1] < found[b].path[1]);
        }
    }
}

proof fn lemma_message(message: JsonView, i: usize)
    requires
        message_indexable(message),
    ensures
        distinct(pipeline::message_segments(i, message)),
        forall|a: int|
            0 <= a < pipeline::message_segments(i, message).len() ==> in_message(
                message,
                i,
                #[trigger] pipeline::message_segments(i, message)[a],
            ),
        message.text_of("role"@) == Some("assistant"@) ==> pipeline::message_segments(
            i,
            message,
        ).len() == 0,
{
    match message.get("content"@) {
        Some(JsonView::Array(blocks)) => {
            lemma_blocks(message, i, blocks.len() as int, pipeline::of_user(message));
            assert(blocks.take(blocks.len() as int) =~= blocks);
        },
        _ => {},
    }
}

/// What holds of a text of a body.
pub open spec fn found_in(body: JsonView, s: SegmentView) -> bool {
    let message = pipeline::item_at(body, "messages"@, s.path[0] as int)->0;
    &&& text_at(body, s.path) == Some(s.text)
    &&& message.text_of("role"@) != Some("assistant"@)
    &&& compressible(message, s.path)
}

proof fn lemma_messages(body: JsonView, n: int)
    requires
        indexable(body),
        body.items_of("messages"@) is Some,
        0 <= n <= body.items_of("messages"@)->0.len(),
    ensures
        ({
            let found = pipeline::messages_segments(body.items_of("messages"@)->0.take(n));
            &&& distinct(found)
            &&& forall|a: int|
                0 <= a < found.len() ==> found_in(body, #[trigger] found[a]) && found[a].path[0]
                    < n
        }),
    decreases n,
{
    let messages = body.items_of("messages"@)->0;
    let found = pipeline::messages_segments(messages.take(n));
    if n > 0 {
        lemma_messages(body, n - 1);
        assert(messages.take(n).drop_last() =~= messages.take(n - 1));
        let message = messages[n - 1];
        let i = (n - 1) as usize;
        assert(message_indexable(message));
        lemma_message(message, i);
        let before = pipeline::messages_segments(messages.take(n - 1));
        let more = pipeline::message_segments(i, message);
        assert(found =~= before + more);
        assert forall|a: int| 0 <= a < found.len() implies found_in(body, #[trigger] found[a])
            && found[a].path[0] < n by {
            if a < before.len() {
                assert(found[a] == before[a]);
            } else {
                assert(found[a] == more[a - before.len()]);
                assert(pipeline::item_at(body, "messages"@, i as int) == Some(message));
            }
        }
        assert forall|a: int, b: int| 0 <= a < b < found.len() implies (#[trigger] found[a]).path
            != (#[trigger] found[b]).path by {
            if b < before.len() {
                assert(found[a] == before[a] && found[b] == before[b]);
            } else if a >= before.len() {
                assert(found[a] == more[a - before.len()] && found[b] == more[b - before.len()]);
            } else {
                assert(found[a] == before[a] && found[b] == more[b - before.len()]);
                assert(found[a].path[0] < found[b].path[0]);
            }
        }
    }
}

/// Each text that is extracted from a body stands at its path. It is one of the
/// user or of a tool result, and not in a message of the assistant. No two of
/// them stand at the same path.
pub proof fn extracted_texts_are_in_place(body: JsonView)
    requires
        indexable(body),
    ensures
        forall|a: int|
            0 <= a < pipeline::segments(body).len() ==> found_in(
                body,
                #[trigger] pipeline::segments(body)[a],
            ),
        forall|a: int, b: int|
            0 <= a < b < pipeline::segments(body).len() ==> (#[trigger] pipeline::segments(
                body,
            )[a]).path != (#[trigger] pipeline::segments(body)[b]).path,
{
    match body.items_of("messages"@) {
        Some(messages) => {
            lemma_messages(body, messages.len() as int);
            assert(messages.take(messages.len() as int) =~= messages);
            assert(distinct(pipeline::segments(body)));
        },
        None => {},
    }
}

// ---------------------------------------------------------------------------
// The texts of a body in which one has been written
// ---------------------------------------------------------------------------
/// Texts with another one at a path.
pub open spec fn retold(texts: Seq<SegmentView>, path: Seq<usize>, t: Seq<char>) -> Seq<
    SegmentView,
> {
    texts.map_values(
        |s: SegmentView|
            if s.path == path {
                SegmentView { path, text: t }
            } else {
                s
            },
    )
}

proof fn lemma_retold_concat(
    a: Seq<SegmentView>,
    b: Seq<SegmentView>,
    path: Seq<usize>,
    t: Seq<char>,
)
    ensures
        retold(a + b, path, t) == retold(a, path, t) + retold(b, path, t),
{
    assert(retold(a + b, path, t) =~= retold(a, path, t) + retold(b, path, t));
}

/// A path that leads elsewhere than to a block changes none of its texts.
proof fn lemma_inner_elsewhere(
    i: usize,
    j: usize,
    blocks: Seq<JsonView>,
    path: Seq<usize>,
    t: Seq<char>,
)
    requires
        !(path.len() == 3 && path[0] == i && path[1] == j),
    ensures
        retold(pipeline::inner_segments(i, j, blocks), path, t) == pipeline::inner_segments(
            i,
            j,
            blocks,
        ),
    decreases blocks.len(),
{
    let found = pipeline::inner_segments(i, j, blocks);
    if blocks.len() > 0 {
        lemma_inner_elsewhere(i, j, blocks.drop_last(), path, t);
        let k = (blocks.len() - 1) as usize;
        assert(seq![i, j, k].len() == 3 && seq![i, j, k][0] == i && seq![i, j, k][1] == j);
        let before = pipeline::inner_segments(i, j, blocks.drop_last());
        assert forall|a: int| 0 <= a < found.len() implies #[trigger] retold(found, path, t)[a]
            == found[a] by {
            if a < before.len() {
                assert(found[a] == before[a]);
                assert(retold(before, path, t)[a] == before[a]);
            }
        }
    }
    assert(retold(found, path, t) =~= found);
}

proof fn lemma_block_elsewhere(
    i: usize,
    j: usize,
    block: JsonView,
    user: bool,
    path: Seq<usize>,
    t: Seq<char>,
)
    requires
        !(path.len() >= 2 && path[0] == i && path[1] == j),
    ensures
        retold(pipeline::block_segments(i, j, block, user), path, t) == pipeline::block_segments(
            i,
            j,
            block,
            user,
        ),
{
    let found = pipeline::block_segments(i, j, block, user);
    assert(seq![i, j].len() == 2 && seq![i, j][0] == i && seq![i, j][1] == j);
    match block.get("content"@) {
        Some(JsonView::Array(blocks)) => {
            lemma_inner_elsewhere(i, j, blocks, path, t);
        },
        _ => {},
    }
    assert(retold(found, path, t) =~= found);
}

proof fn lemma_blocks_elsewhere(
    i: usize,
    blocks: Seq<JsonView>,
    user: bool,
    path: Seq<usize>,
    t: Seq<char>,
)
    requires
        path.len() < 2 || path[0] != i,
    ensures
        retold(pipeline::blocks_segments(i, blocks, user), path, t) == pipeline::blocks_segments(
            i,
            blocks,
            user,
        ),
    decreases blocks.len(),
{
    let found = pipeline::blocks_segments(i, blocks, user);
    if blocks.len() > 0 {
        let j = (blocks.len() - 1) as usize;
        lemma_blocks_elsewhere(i, blocks.drop_last(), user, path, t);
        lemma_block_elsewhere(i, j, blocks.last(), user, path, t);
        lemma_retold_concat(
            pipeline::blocks_segments(i, blocks.drop_last(), user),
            pipeline::block_segments(i, j, blocks.last(), user),
            path,
            t,
        );
    } else {
        assert(retold(found, path, t) =~= found);
    }
}

proof fn lemma_message_elsewhere(i: usize, message: JsonView, path: Seq<usize>, t: Seq<char>)
    requires
        path.len() < 1 || path[0] != i,
    ensures
        retold(pipeline::message_segments(i, message), path, t) == pipeline::message_segments(
            i,
            message,
        ),
{
    let found = pipeline::message_segments(i, message);
    assert(seq![i].len() == 1 && seq![i][0] == i);
    match message.get("content"@) {
        Some(JsonView::Array(blocks)) => {
            lemma_blocks_elsewhere(i, blocks, pipeline::of_user(message), path, t);
        },
        _ => {},
    }
    assert(retold(found, path, t) =~= found);
}

/// The first `n` blocks of a tool result, one of which may have another text.
proof fn lemma_inner_written(
    i: usize,
    j: usize,
    blocks: Seq<JsonView>,
    path: Seq<usize>,
    t: Seq<char>,
    n: int,
)
    requires
        path.len() == 3,
        path[0] == i,
        path[1] == j,
        0 <= n <= blocks.len() <= usize::MAX,
        path[2] < blocks.len(),
        blocks[path[2] as int].text_of("text"@) is Some,
    ensures
        ({
            let k = path[2] as int;
            let set = blocks[k].with("text"@, JsonView::Text(t));
            pipeline::inner_segments(i, j, blocks.update(k, set).take(n)) == retold(
                pipeline::inner_segments(i, j, blocks.take(n)),
                path,
                t,
            )
        }),
    decreases n,
{
    let k = path[2] as int;
    let set = blocks[k].with("text"@, JsonView::Text(t));
    let after = blocks.update(k, set);
    let old = pipeline::inner_segments(i, j, blocks.take(n));
    let new = pipeline::inner_segments(i, j, after.take(n));
    if n > 0 {
        lemma_inner_written(i, j, blocks, path, t, n - 1);
        assert(blocks.take(n).drop_last() =~= blocks.take(n - 1));
        assert(after.take(n).drop_last() =~= after.take(n - 1));
        let before = pipeline::inner_segments(i, j, blocks.take(n - 1));
        let m = (n - 1) as usize;
        let here = seq![i, j, m];
        assert(here[2] == m);
        if n - 1 == k {
            assert(here =~= path);
            assert(set.text_of("text"@) == Some(t));
        }
        match blocks[n - 1].text_of("text"@) {
            Some(was) => {
                let s = SegmentView { path: here, text: was };
                assert(old == before.push(s));
                assert(old =~= before + seq![s]);
                lemma_retold_concat(before, seq![s], path, t);
                let s2 = if n - 1 == k {
                    SegmentView { path, text: t }
                } else {
                    s
                };
                assert(retold(seq![s], path, t) =~= seq![s2]);
                assert(new =~= pipeline::inner_segments(i, j, after.take(n - 1)) + seq![s2]);
            },
            None => {},
        }
    } else {
        assert(blocks.take(0) =~= Seq::empty());
        assert(after.take(0) =~= Seq::empty());
        assert(new =~= retold(old, path, t));
    }
}

/// A block with another text at a path into it.
pub open spec fn block_written(block: JsonView, path: Seq<usize>, t: Seq<char>) -> JsonView {
    if path.len() == 2 {
        pipeline::block_with_text(block, t)
    } else {
        match pipeline::item_at(block, "content"@, path[2] as int) {
            Some(inner) => pipeline::with_item_at(
                block,
                "content"@,
                path[2] as int,
                inner.with("text"@, JsonView::Text(t)),
            ),
            None => block,
        }
    }
}

proof fn lemma_block_written(
    message: JsonView,
    block: JsonView,
    user: bool,
    path: Seq<usize>,
    t: Seq<char>,
)
    requires
        2 <= path.len() <= 3,
        pipeline::item_at(message, "content"@, path[1] as int) == Some(block),
        message_text_at(message, path) is Some,
        block_indexable(block),
    ensures
        pipeline::block_segments(path[0], path[1], block_written(block, path, t), user) == retold(
            pipeline::block_segments(path[0], path[1], block, user),
            path,
            t,
        ),
{
    lemma_keys();
    let i = path[0];
    let j = path[1];
    let after = block_written(block, path, t);
    let old = pipeline::block_segments(i, j, block, user);
    let new = pipeline::block_segments(i, j, after, user);
    if path.len() == 2 {
        assert(seq![i, j] =~= path);
        assert(after.get("type"@) == block.get("type"@));
        if block.text_of("type"@) == Some("text"@) {
            assert(after.text_of("text"@) == Some(t));
        } else {
            assert(after.get("content"@) == Some(JsonView::Text(t)));
        }
        assert(new =~= retold(old, path, t));
    } else {
        let k = path[2] as int;
        let inner = pipeline::item_at(block, "content"@, k)->0;
        let set = inner.with("text"@, JsonView::Text(t));
        let blocks = block.items_of("content"@)->0;
        lemma_with_item(block, "content"@, k, set);
        assert(after.get("content"@) == Some(JsonView::Array(blocks.update(k, set))));
        assert(after.get("type"@) == block.get("type"@));
        assert(after.get("text"@) == block.get("text"@));
        lemma_inner_written(i, j, blocks, path, t, blocks.len() as int);
        assert(blocks.take(blocks.len() as int) =~= blocks);
        assert(blocks.update(k, set).take(blocks.len() as int) =~= blocks.update(k, set));
        if block.text_of("type"@) == Some("text"@) {
            assert(seq![i, j].len() == 2);
            assert(new =~= retold(old, path, t));
        } else if block.text_of("type"@) != Some("tool_result"@) {
            assert(new =~= retold(old, path, t));
        }
    }
}

proof fn lemma_blocks_written(
    message: JsonView,
    user: bool,
    path: Seq<usize>,
    t: Seq<char>,
    n: int,
)
    requires
        2 <= path.len() <= 3,
        message_indexable(message),
        message_text_at(message, path) is Some,
        0 <= n <= message.items_of("content"@)->0.len(),
    ensures
        ({
            let blocks = message.items_of("content"@)->0;
            let j = path[1] as int;
            let after = blocks.update(j, block_written(blocks[j], path, t));
            pipeline::blocks_segments(path[0], after.take(n), user) == retold(
                pipeline::blocks_segments(path[0], blocks.take(n), user),
                path,
                t,
            )
        }),
    decreases n,
{
    let blocks = message.items_of("content"@)->0;
    let i = path[0];
    let j = path[1] as int;
    let after = blocks.update(j, block_written(blocks[j], path, t));
    if n > 0 {
        lemma_blocks_written(message, user, path, t, n - 1);
        assert(blocks.take(n).drop_last() =~= blocks.take(n - 1));
        assert(after.take(n).drop_last() =~= after.take(n - 1));
        let m = (n - 1) as usize;
        if n - 1 == j {
            assert(block_indexable(blocks[j]));
            lemma_block_written(message, blocks[j], user, path, t);
        } else {
            lemma_block_elsewhere(i, m, blocks[n - 1], user, path, t);
        }
        lemma_retold_concat(
            pipeline::blocks_segments(i, blocks.take(n - 1), user),
            pipeline::block_segments(i, m, blocks[n - 1], user),
            path,
            t,
        );
    } else {
        assert(blocks.take(0) =~= Seq::empty());
        assert(after.take(0) =~= Seq::empty());
        assert(retold(Seq::empty(), path, t) =~= Seq::empty());
    }
}

proof fn lemma_message_written(message: JsonView, path: Seq<usize>, t: Seq<char>)
    requires
        1 <= path.len() <= 3,
        message_indexable(message),
        message_text_at(message, path) is Some,
    ensures
        pipeline::message_segments(path[0], pipeline::message_with_text(message, path, t))
            == retold(pipeline::message_segments(path[0], message), path, t),
{
    lemma_keys();
    let i = path[0];
    let after = pipeline::message_with_text(message, path, t);
    let old = pipeline::message_segments(i, message);
    let new = pipeline::message_segments(i, after);
    let user = pipeline::of_user(message);
    if path.len() == 1 {
        assert(seq![i] =~= path);
        assert(after.get("role"@) == message.get("role"@));
        assert(after.get("content"@) == Some(JsonView::Text(t)));
        assert(new =~= retold(old, path, t));
    } else {
        let j = path[1] as int;
        let blocks = message.items_of("content"@)->0;
        let block = blocks[j];
        let written = block_written(block, path, t);
        lemma_with_item(message, "content"@, j, written);
        assert(after == pipeline::with_item_at(message, "content"@, j, written));
        assert(after.get("role"@) == message.get("role"@));
        assert(after.get("content"@) == Some(JsonView::Array(blocks.update(j, written))));
        lemma_blocks_written(message, user, path, t, blocks.len() as int);
        assert(blocks.take(blocks.len() as int) =~= blocks);
        assert(blocks.update(j, written).take(blocks.len() as int) =~= blocks.update(j, written));
        if message.text_of("role"@) == Some("assistant"@) {
            assert(new =~= retold(old, path, t));
        }
    }
}

proof fn lemma_messages_written(body: JsonView, path: Seq<usize>, t: Seq<char>, n: int)
    requires
        indexable(body),
        text_at(body, path) is Some,
        0 <= n <= body.items_of("messages"@)->0.len(),
    ensures
        ({
            let messages = body.items_of("messages"@)->0;
            let i = path[0] as int;
            let after = messages.update(
                i,
                pipeline::message_with_text(messages[i], path, t),
            );
            pipeline::messages_segments(after.take(n)) == retold(
                pipeline::messages_segments(messages.take(n)),
                path,
                t,
            )
        }),
    decreases n,
{
    let messages = body.items_of("messages"@)->0;
    let i = path[0] as int;
    let after = messages.update(i, pipeline::message_with_text(messages[i], path, t));
    if n > 0 {
        lemma_messages_written(body, path, t, n - 1);
        assert(messages.take(n).drop_last() =~= messages.take(n - 1));
        assert(after.take(n).drop_last() =~= after.take(n - 1));
        let m = (n - 1) as usize;
        if n - 1 == i {
            assert(message_indexable(messages[i]));
            lemma_message_written(messages[i], path, t);
        } else {
            lemma_message_elsewhere(m, messages[n - 1], path, t);
        }
        lemma_retold_concat(
            pipeline::messages_segments(messages.take(n - 1)),
            pipeline::message_segments(m, messages[n - 1]),
            path,
            t,
        );
    } else {
        assert(messages.take(0) =~= Seq::empty());
        assert(after.take(0) =~= Seq::empty());
        assert(retold(Seq::empty(), path, t) =~= Seq::empty());
    }
}

/// Writing a text at the path of one that was extracted replaces that one in
/// the list of texts, and nothing else of the list.
pub proof fn writing_replaces_one_text(body: JsonView, a: int, t: Seq<char>)
    requires
        indexable(body),
        0 <= a < pipeline::segments(body).len(),
    ensures
        ({
            let path = pipeline::segments(body)[a].path;
            pipeline::segments(pipeline::with_text(body, path, t)) == pipeline::segments(
                body,
            ).update(a, SegmentView { path, text: t })
        }),
{
    let texts = pipeline::segments(body);
    let path = texts[a].path;
    extracted_texts_are_in_place(body);
    assert(found_in(body, texts[a]));
    let messages = body.items_of("messages"@)->0;
    let i = path[0] as int;
    let written = pipeline::message_with_text(messages[i], path, t);
    let after = pipeline::with_text(body, path, t);
    assert(after.get("messages"@) == Some(JsonView::Array(messages.update(i, written))));
    lemma_messages_written(body, path, t, messages.len() as int);
    assert(messages.take(messages.len() as int) =~= messages);
    assert(messages.update(i, written).take(messages.len() as int) =~= messages.update(
        i,
        written,
    ));
    assert forall|b: int| 0 <= b < texts.len() implies #[trigger] retold(texts, path, t)[b]
        == texts.update(a, SegmentView { path, text: t })[b] by {
        if b < a {
            assert(texts[b].path != texts[a].path);
        } else if b > a {
            assert(texts[a].path != texts[b].path);
        }
    }
    assert(retold(texts, path, t) =~= texts.update(a, SegmentView { path, text: t }));
}

proof fn lemma_item_twice(j: JsonView, key: Seq<char>, i: int, first: JsonView, second: JsonView)
    requires
        pipeline::item_at(j, key, i) is Some,
    ensures
        pipeline::with_item_at(pipeline::with_item_at(j, key, i, first), key, i, second)
            == pipeline::with_item_at(j, key, i, second),
{
    let items = j.items_of(key)->0;
    let once = pipeline::with_item_at(j, key, i, first);
    assert(once.get(key) == Some(JsonView::Array(items.update(i, first))));
    assert(items.update(i, first).update(i, second) =~= items.update(i, second));
    assert(once.with(key, JsonView::Array(items.update(i, second)))->Object_0 =~= j.with(
        key,
        JsonView::Array(items.update(i, second)),
    )->Object_0);
}

proof fn lemma_text_twice(j: JsonView, key: Seq<char>, first: Seq<char>, second: Seq<char>)
    requires
        j.get(key) is Some,
    ensures
        j.with(key, JsonView::Text(first)).with(key, JsonView::Text(second)) == j.with(
            key,
            JsonView::Text(second),
        ),
{
    assert(j->Object_0.insert(key, JsonView::Text(first)).insert(key, JsonView::Text(second))
        =~= j->Object_0.insert(key, JsonView::Text(second)));
}

/// Writing changes nothing but the text at its path: where the text that was
/// there is written again, the body is as it was.
pub proof fn writing_can_be_undone(body: JsonView, path: Seq<usize>, t: Seq<char>)
    requires
        text_at(body, path) is Some,
    ensures
        pipeline::with_text(
            pipeline::with_text(body, path, t),
            path,
            text_at(body, path)->0,
        ) == body,
{
    lemma_keys();
    let was = text_at(body, path)->0;
    let i = path[0] as int;
    let message = pipeline::item_at(body, "messages"@, i)->0;
    let once = pipeline::message_with_text(message, path, t);
    let twice = pipeline::message_with_text(once, path, was);
    lemma_with_item(body, "messages"@, i, once);
    assert(twice == pipeline::message_with_text(message, path, was)) by {
        if path.len() == 1 {
            lemma_text_twice(message, "content"@, t, was);
        } else {
            let j = path[1] as int;
            let block = pipeline::item_at(message, "content"@, j)->0;
            let b1 = block_written(block, path, t);
            let b2 = block_written(block, path, was);
            lemma_with_item(message, "content"@, j, b1);
            assert(once == pipeline::with_item_at(message, "content"@, j, b1));
            assert(block_written(b1, path, was) == b2) by {
                if path.len() == 2 {
                    assert(b1.get("type"@) == block.get("type"@));
                    if block.text_of("type"@) == Some("text"@) {
                        lemma_text_twice(block, "text"@, t, was);
                    } else {
                        lemma_text_twice(block, "content"@, t, was);
                    }
                } else {
                    let k = path[2] as int;
                    let inner = pipeline::item_at(block, "content"@, k)->0;
                    let set = inner.with("text"@, JsonView::Text(t));
                    lemma_with_item(block, "content"@, k, set);
                    lemma_text_twice(inner, "text"@, t, was);
                    lemma_item_twice(
                        block,
                        "content"@,
                        k,
                        set,
                        inner.with("text"@, JsonView::Text(was)),
                    );
                }
            }
            lemma_item_twice(message, "content"@, j, b1, b2);
        }
    }
    lemma_item_twice(body, "messages"@, i, once, twice);
    writing_what_was_read_changes_nothing(body, path);
}

// ---------------------------------------------------------------------------
// The pipeline
// ---------------------------------------------------------------------------
/// What holds once the first `n` texts have been compressed: they have been
/// replaced at their paths, the others stand where they stood, and so does
/// every message without a text.
pub proof fn lemma_compressed(
    body: JsonView,
    texts: Seq<SegmentView>,
    config: PipelineConfig,
    query: Seq<char>,
    n: int,
)
    requires
        0 <= n <= texts.len(),
        distinct(texts),
        forall|a: int| 0 <= a < texts.len() ==> found_in(body, #[trigger] texts[a]),
    ensures
        ({
            let after = pipeline::texts_compressed(body, texts.take(n), config, query).body;
            &&& forall|a: int|
                0 <= a < n ==> text_at(after, (#[trigger] texts[a]).path) == Some(
                    pipeline::text_compressed(texts[a].text, config, query).text,
                )
            &&& forall|a: int|
                n <= a < texts.len() ==> text_at(after, (#[trigger] texts[a]).path) == Some(
                    texts[a].text,
                )
            &&& forall|i: int|
                (pipeline::item_at(body, "messages"@, i) is Some && pipeline::item_at(
                    body,
                    "messages"@,
                    i,
                )->0.text_of("role"@) == Some("assistant"@)) ==> #[trigger] pipeline::item_at(
                    after,
                    "messages"@,
                    i,
                ) == pipeline::item_at(body, "messages"@, i)
            &&& forall|key: Seq<char>|
                key != "messages"@ ==> #[trigger] after.get(key) == body.get(key)
        }),
    decreases n,
{
    let after = pipeline::texts_compressed(body, texts.take(n), config, query).body;
    if n > 0 {
        lemma_compressed(body, texts, config, query, n - 1);
        assert(texts.take(n).drop_last() =~= texts.take(n - 1));
        let before = pipeline::texts_compressed(body, texts.take(n - 1), config, query).body;
        let s = texts[n - 1];
        let t = pipeline::text_compressed(s.text, config, query).text;
        assert(after == pipeline::with_text(before, s.path, t));
        assert(text_at(before, s.path) is Some);
        written_text_is_read_back(before, s.path, t);
        assert forall|a: int| 0 <= a < texts.len() && a != n - 1 implies text_at(
            after,
            (#[trigger] texts[a]).path,
        ) == text_at(before, texts[a].path) by {
            assert(texts[a].path != s.path);
            other_texts_stay(before, s.path, t, texts[a].path);
        }
        let i = s.path[0] as int;
        let message = pipeline::item_at(before, "messages"@, i)->0;
        lemma_with_item(
            before,
            "messages"@,
            i,
            pipeline::message_with_text(message, s.path, t),
        );
        assert(found_in(body, s));
    } else {
        assert(texts.take(0) =~= Seq::empty());
        assert(after == body);
    }
}

/// Compression replaces each text by what the stages leave of it. It leaves
/// the messages of the assistant and everything but the messages as it is.
pub proof fn compression_replaces_texts_only(
    body: JsonView,
    config: PipelineConfig,
    query: Seq<char>,
)
    requires
        indexable(body),
    ensures
        ({
            let texts = pipeline::segments(body);
            let after = pipeline::texts_compressed(body, texts, config, query).body;
            &&& forall|a: int|
                0 <= a < texts.len() ==> text_at(after, (#[trigger] texts[a]).path) == Some(
                    pipeline::text_compressed(texts[a].text, config, query).text,
                )
            &&& forall|i: int|
                (pipeline::item_at(body, "messages"@, i) is Some && pipeline::item_at(
                    body,
                    "messages"@,
                    i,
                )->0.text_of("role"@) == Some("assistant"@)) ==> #[trigger] pipeline::item_at(
                    after,
                    "messages"@,
                    i,
                ) == pipeline::item_at(body, "messages"@, i)
            &&& forall|key: Seq<char>|
                key != "messages"@ ==> #[trigger] after.get(key) == body.get(key)
        }),
{
    let texts = pipeline::segments(body);
    extracted_texts_are_in_place(body);
    lemma_compressed(body, texts, config, query, texts.len() as int);
    assert(texts.take(texts.len() as int) =~= texts);
}

proof fn lemma_off(
    body: JsonView,
    texts: Seq<SegmentView>,
    config: PipelineConfig,
    query: Seq<char>,
)
    requires
        !config.regex_structural,
        !config.ast_pruning,
        forall|a: int| 0 <= a < texts.len() ==> found_in(body, #[trigger] texts[a]),
    ensures
        pipeline::texts_compressed(body, texts, config, query).body == body,
        pipeline::texts_compressed(body, texts, config, query).events.len() == 0,
    decreases texts.len(),
{
    if texts.len() > 0 {
        let less = texts.drop_last();
        assert forall|a: int| 0 <= a < less.len() implies found_in(body, #[trigger] less[a]) by {
            assert(less[a] == texts[a]);
        }
        lemma_off(body, less, config, query);
        assert(found_in(body, texts.last()));
        writing_what_was_read_changes_nothing(body, texts.last().path);
    }
}

/// With every stage switched off, a request body comes out as it went in.
pub proof fn without_stages_nothing_changes(
    body: JsonView,
    config: PipelineConfig,
    tools: Option<Map<u64, session::EntryView>>,
)
    requires
        indexable(body),
        !config.tool_dedup,
        !config.regex_structural,
        !config.ast_pruning,
    ensures
        pipeline::processed(body, config, tools).body == body,
        pipeline::processed(body, config, tools).tools == tools,
        pipeline::processed(body, config, tools).events.len() == 0,
        pipeline::processed(body, config, tools).calls.len() == 0,
{
    extracted_texts_are_in_place(body);
    lemma_off(body, pipeline::segments(body), config, pipeline::user_query(body));
}

/// Deduplication keeps the number of messages and the messages of the
/// assistant, and makes no array longer.
proof fn lemma_examined_messages(
    p: dedup::Progress,
    uses: Seq<dedup::ToolUseView>,
    messages: Seq<JsonView>,
)
    requires
        forall|i: int| 0 <= i < messages.len() ==> message_indexable(#[trigger] messages[i]),
    ensures
        ({
            let items = dedup::messages_examined(p, uses, messages).items;
            &&& items.len() == messages.len()
            &&& forall|i: int| 0 <= i < items.len() ==> message_indexable(#[trigger] items[i])
            &&& forall|i: int|
                0 <= i < items.len() && messages[i].text_of("role"@) == Some("assistant"@)
                    ==> #[trigger] items[i] == messages[i]
        }),
    decreases messages.len(),
{
    if messages.len() > 0 {
        let less = messages.drop_last();
        assert forall|i: int| 0 <= i < less.len() implies message_indexable(
            #[trigger] less[i],
        ) by {
            assert(less[i] == messages[i]);
        }
        lemma_examined_messages(p, uses, less);
        let before = dedup::messages_examined(p, uses, less);
        let last = dedup::message_examined(before.progress, uses, messages.last());
        let items = dedup::messages_examined(p, uses, messages).items;
        assert(message_indexable(messages.last()));
        assert(message_indexable(last.block)) by {
            match messages.last().items_of("content"@) {
                Some(blocks) => {
                    lemma_examined_blocks(before.progress, uses, blocks);
                },
                None => {},
            }
        }
        assert forall|i: int| 0 <= i < items.len() implies message_indexable(
            #[trigger] items[i],
        ) && (messages[i].text_of("role"@) == Some("assistant"@) ==> items[i] == messages[i]) by {
            if i < less.len() {
                assert(items[i] == before.items[i]);
                assert(less[i] == messages[i]);
            }
        }
    }
}

proof fn lemma_examined_blocks(
    p: dedup::Progress,
    uses: Seq<dedup::ToolUseView>,
    blocks: Seq<JsonView>,
)
    requires
        forall|j: int| 0 <= j < blocks.len() ==> block_indexable(#[trigger] blocks[j]),
    ensures
        dedup::blocks_examined(p, uses, blocks).items.len() == blocks.len(),
        forall|j: int|
            0 <= j < blocks.len() ==> block_indexable(
                #[trigger] dedup::blocks_examined(p, uses, blocks).items[j],
            ),
    decreases blocks.len(),
{
    if blocks.len() > 0 {
        let less = blocks.drop_last();
        assert forall|j: int| 0 <= j < less.len() implies block_indexable(#[trigger] less[j]) by {
            assert(less[j] == blocks[j]);
        }
        lemma_examined_blocks(p, uses, less);
        let before = dedup::blocks_examined(p, uses, less);
        let last = dedup::examined(before.progress, uses, blocks.last());
        assert(block_indexable(blocks.last()));
        assert(block_indexable(last.block));
        let items = dedup::blocks_examined(p, uses, blocks).items;
        assert forall|j: int| 0 <= j < items.len() implies block_indexable(#[trigger] items[j]) by {
            if j < less.len() {
                assert(items[j] == before.items[j]);
            }
        }
    }
}

/// The pipeline leaves the messages of the assistant, and everything but the
/// messages, as it is.
pub proof fn assistant_messages_pass_through(
    body: JsonView,
    config: PipelineConfig,
    tools: Option<Map<u64, session::EntryView>>,
)
    requires
        indexable(body),
    ensures
        ({
            let after = pipeline::processed(body, config, tools).body;
            &&& forall|i: int|
                (pipeline::item_at(body, "messages"@, i) is Some && pipeline::item_at(
                    body,
                    "messages"@,
                    i,
                )->0.text_of("role"@) == Some("assistant"@)) ==> #[trigger] pipeline::item_at(
                    after,
                    "messages"@,
                    i,
                ) == pipeline::item_at(body, "messages"@, i)
            &&& forall|key: Seq<char>|
                key != "messages"@ ==> #[trigger] after.get(key) == body.get(key)
        }),
{
    let first = pipeline::first_stage(body, config, tools).block;
    match body.items_of("messages"@) {
        Some(messages) => {
            if config.tool_dedup && tools is Some {
                let p = dedup::nothing_done(tools->0);
                let uses = dedup::uses_of(messages);
                lemma_examined_messages(p, uses, messages);
                let items = dedup::messages_examined(p, uses, messages).items;
                assert(first.get("messages"@) == Some(JsonView::Array(items)));
                assert forall|i: int|
                    (pipeline::item_at(body, "messages"@, i) is Some && pipeline::item_at(
                        body,
                        "messages"@,
                        i,
                    )->0.text_of("role"@) == Some("assistant"@)) implies #[trigger] pipeline::item_at(
                    first,
                    "messages"@,
                    i,
                ) == pipeline::item_at(body, "messages"@, i) by {
                    assert(items[i] == messages[i]);
                }
            }
        },
        None => {},
    }
    assert(indexable(first));
    compression_replaces_texts_only(first, config, pipeline::user_query(first));
}

// ---------------------------------------------------------------------------
// Events
// ---------------------------------------------------------------------------
/// Every event reports fewer tokens after than before.
pub open spec fn all_save(events: Seq<EventView>) -> bool {
    forall|a: int| 0 <= a < events.len() ==> (#[trigger] events[a]).before > events[a].after
}

proof fn lemma_save_concat(a: Seq<EventView>, b: Seq<EventView>)
    requires
        all_save(a),
        all_save(b),
    ensures
        all_save(a + b),
{
    assert forall|i: int| 0 <= i < (a + b).len() implies (#[trigger] (a + b)[i]).before > (a
        + b)[i].after by {
        if i < a.len() {
            assert((a + b)[i] == a[i]);
        } else {
            assert((a + b)[i] == b[i - a.len()]);
        }
    }
}

proof fn lemma_blocks_save(
    p: dedup::Progress,
    uses: Seq<dedup::ToolUseView>,
    blocks: Seq<JsonView>,
)
    requires
        all_save(p.events),
    ensures
        all_save(dedup::blocks_examined(p, uses, blocks).progress.events),
    decreases blocks.len(),
{
    if blocks.len() > 0 {
        lemma_blocks_save(p, uses, blocks.drop_last());
    }
}

proof fn lemma_messages_save(
    p: dedup::Progress,
    uses: Seq<dedup::ToolUseView>,
    messages: Seq<JsonView>,
)
    requires
        all_save(p.events),
    ensures
        all_save(dedup::messages_examined(p, uses, messages).progress.events),
    decreases messages.len(),
{
    if messages.len() > 0 {
        lemma_messages_save(p, uses, messages.drop_last());
        let before = dedup::messages_examined(p, uses, messages.drop_last()).progress;
        match messages.last().items_of("content"@) {
            Some(blocks) => {
                lemma_blocks_save(before, uses, blocks);
            },
            None => {},
        }
    }
}

proof fn lemma_text_saves(t: Seq<char>, config: PipelineConfig, query: Seq<char>)
    ensures
        all_save(pipeline::text_compressed(t, config, query).events),
{
    regex_compress::events_report_savings(t);
}

proof fn lemma_texts_save(
    body: JsonView,
    texts: Seq<SegmentView>,
    config: PipelineConfig,
    query: Seq<char>,
)
    ensures
        all_save(pipeline::texts_compressed(body, texts, config, query).events),
    decreases texts.len(),
{
    if texts.len() > 0 {
        lemma_texts_save(body, texts.drop_last(), config, query);
        lemma_text_saves(texts.last().text, config, query);
        lemma_save_concat(
            pipeline::texts_compressed(body, texts.drop_last(), config, query).events,
            pipeline::text_compressed(texts.last().text, config, query).events,
        );
    }
}

/// Every event of the pipeline reports that a stage took tokens away.
pub proof fn every_event_reports_savings(
    body: JsonView,
    config: PipelineConfig,
    tools: Option<Map<u64, session::EntryView>>,
)
    ensures
        all_save(pipeline::processed(body, config, tools).events),
{
    let first = pipeline::first_stage(body, config, tools);
    match body.items_of("messages"@) {
        Some(messages) => {
            if config.tool_dedup && tools is Some {
                lemma_messages_save(
                    dedup::nothing_done(tools->0),
                    dedup::uses_of(messages),
                    messages,
                );
            }
        },
        None => {},
    }
    let texts = pipeline::segments(first.block);
    let query = pipeline::user_query(first.block);
    lemma_texts_save(first.block, texts, config, query);
    lemma_save_concat(
        first.progress.events,
        pipeline::texts_compressed(first.block, texts, config, query).events,
    );
}

} // verus!
