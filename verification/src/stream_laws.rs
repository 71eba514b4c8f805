//! What is gathered from the events of a stream, and what a stream tells.
use vstd::prelude::*;
use vstd::string::*;
use vstd::utf8::*;

use crate::json;
use crate::json::JsonView;
use crate::stream_reassemble;
use crate::stream_reassemble::AssemblyView;
use crate::text;

verus! {

// ---------------------------------------------------------------------------
// Keeping a stream
// ---------------------------------------------------------------------------
/// Up to 10 MB of a stream are kept, all of it and in its order. Of a longer one
/// nothing is kept, however it is cut into chunks.
pub proof fn streams_are_kept_whole_or_not_at_all(kept: Seq<u8>, chunk: Seq<u8>)
    ensures
        kept.len() + chunk.len() <= 10_485_760 ==> stream_reassemble::kept_with(Some(kept), chunk)
            == Some(kept + chunk),
        kept.len() + chunk.len() > 10_485_760 ==> stream_reassemble::kept_with(Some(kept), chunk)
            is None,
        stream_reassemble::kept_with(None, chunk) is None,
{
}

// ---------------------------------------------------------------------------
// Events
// ---------------------------------------------------------------------------
/// The value says that it is of a kind.
pub open spec fn is_a(j: JsonView, kind: Seq<char>) -> bool {
    j.get("type"@) == Some(JsonView::Text(kind))
}

/// The number of the content block that an event is about; 0 where it does not
/// say.
pub open spec fn block_number(event: JsonView) -> usize {
    match event.get("index"@) {
        Some(JsonView::Number(n)) => match json::number_u64(n) {
            Some(u) => u as usize,
            None => 0,
        },
        _ => 0,
    }
}

/// What an event adds to the content block at `i` by a delta of a kind: one
/// piece of text, or none.
pub open spec fn piece_in(event: JsonView, i: usize, kind: Seq<char>, key: Seq<char>) -> Seq<
    Seq<char>,
> {
    match event.get("delta"@) {
        Some(delta) => match delta.get(key) {
            Some(JsonView::Text(s)) => if is_a(event, "content_block_delta"@) && block_number(event)
                == i && is_a(delta, kind) {
                seq![s]
            } else {
                Seq::empty()
            },
            _ => Seq::empty(),
        },
        None => Seq::empty(),
    }
}

/// All pieces that events add to the content block at `i` by deltas of a kind.
pub open spec fn pieces(events: Seq<JsonView>, i: usize, kind: Seq<char>, key: Seq<char>) -> Seq<
    Seq<char>,
>
    decreases events.len(),
{
    if events.len() == 0 {
        Seq::empty()
    } else {
        piece_in(events[0], i, kind, key) + pieces(events.skip(1), i, kind, key)
    }
}

proof fn lemma_pieces_push(
    events: Seq<JsonView>,
    e: JsonView,
    i: usize,
    kind: Seq<char>,
    key: Seq<char>,
)
    ensures
        pieces(events.push(e), i, kind, key) == pieces(events, i, kind, key) + piece_in(
            e,
            i,
            kind,
            key,
        ),
    decreases events.len(),
{
    let more = events.push(e);
    if events.len() == 0 {
        reveal_with_fuel(pieces, 2);
        assert(more.skip(1) =~= Seq::empty());
        assert(pieces(more, i, kind, key) =~= pieces(events, i, kind, key) + piece_in(
            e,
            i,
            kind,
            key,
        ));
    } else {
        assert(more[0] == events[0]);
        assert(more.skip(1) =~= events.skip(1).push(e));
        lemma_pieces_push(events.skip(1), e, i, kind, key);
        assert(pieces(more, i, kind, key) =~= pieces(events, i, kind, key) + piece_in(
            e,
            i,
            kind,
            key,
        ));
    }
}

proof fn lemma_concatenated_push(parts: Seq<Seq<char>>, p: Seq<char>)
    ensures
        text::concatenated(parts + seq![p]) == text::concatenated(parts) + p,
        text::concatenated(parts + Seq::empty()) == text::concatenated(parts),
{
    assert((parts + seq![p]).drop_last() =~= parts);
    assert(parts + Seq::<Seq<char>>::empty() =~= parts);
}

/// What has been gathered at `i` is the concatenation of the pieces, and there
/// is something if and only if there is a piece.
pub open spec fn adds_up(m: Map<usize, Seq<char>>, i: usize, parts: Seq<Seq<char>>) -> bool {
    &&& m.dom().contains(i) <==> parts.len() > 0
    &&& m.dom().contains(i) ==> m[i] == text::concatenated(parts)
}

proof fn lemma_adds_up(m: Map<usize, Seq<char>>, i: usize, parts: Seq<Seq<char>>, s: Seq<char>)
    requires
        adds_up(m, i, parts),
    ensures
        adds_up(stream_reassemble::extended(m, i, s), i, parts + seq![s]),
        forall|k: usize|
            k != i ==> (#[trigger] stream_reassemble::extended(m, i, s).dom().contains(k)
                <==> m.dom().contains(k)) && stream_reassemble::extended(m, i, s)[k] == m[k],
{
    lemma_concatenated_push(parts, s);
    if parts.len() == 0 {
        assert(parts =~= Seq::empty());
        assert(text::concatenated(parts) + s =~= s);
    }
}

proof fn lemma_delta_strings()
    ensures
        "text_delta"@ != "input_json_delta"@,
        "text_delta"@ != "thinking_delta"@,
        "text_delta"@ != "signature_delta"@,
        "input_json_delta"@ != "thinking_delta"@,
        "input_json_delta"@ != "signature_delta"@,
        "thinking_delta"@ != "signature_delta"@,
        "content_block_delta"@ != "message_start"@,
        "content_block_delta"@ != "content_block_start"@,
        "content_block_delta"@ != "message_delta"@,
        "content_block_delta"@ != "message_stop"@,
        "content_block_start"@ != "message_start"@,
        "content_block_start"@ != "message_delta"@,
        "content_block_start"@ != "message_stop"@,
        "message_start"@ != "message_delta"@,
        "message_start"@ != "message_stop"@,
        "message_delta"@ != "message_stop"@,
{
    reveal_strlit("text_delta");
    reveal_strlit("input_json_delta");
    reveal_strlit("thinking_delta");
    reveal_strlit("signature_delta");
    reveal_strlit("content_block_delta");
    reveal_strlit("content_block_start");
    reveal_strlit("message_start");
    reveal_strlit("message_delta");
    reveal_strlit("message_stop");
    assert("text_delta"@.len() == 10 && "input_json_delta"@.len() == 16 && "thinking_delta"@.len()
        == 14 && "signature_delta"@.len() == 15);
    assert("content_block_delta"@[14] == 'd' && "content_block_start"@[14] == 's');
    assert("message_start"@[8] == 's' && "message_delta"@[8] == 'd');
    assert("content_block_delta"@.len() == 19 && "content_block_start"@.len() == 19
        && "message_start"@.len() == 13 && "message_delta"@.len() == 13 && "message_stop"@.len()
        == 12);
}

/// However the content of a block is cut into deltas, the block gets their
/// concatenation: each delta is appended as it is, and no other event adds to
/// it. This holds of text, of the JSON of tool inputs, of thinking and of
/// signatures alike.
pub proof fn deltas_add_up(events: Seq<JsonView>, i: usize)
    ensures
        ({
            let a = stream_reassemble::gather_all(events);
            &&& adds_up(a.text, i, pieces(events, i, "text_delta"@, "text"@))
            &&& adds_up(a.json, i, pieces(events, i, "input_json_delta"@, "partial_json"@))
            &&& adds_up(a.thinking, i, pieces(events, i, "thinking_delta"@, "thinking"@))
            &&& adds_up(a.signature, i, pieces(events, i, "signature_delta"@, "signature"@))
        }),
    decreases events.len(),
{
    if events.len() > 0 {
        let less = events.drop_last();
        let e = events.last();
        assert(less.push(e) =~= events);
        deltas_add_up(less, i);
        let a = stream_reassemble::gather_all(less);
        let b = stream_reassemble::gather_all(events);
        assert(b == stream_reassemble::gather(a, e));
        lemma_pieces_push(less, e, i, "text_delta"@, "text"@);
        lemma_pieces_push(less, e, i, "input_json_delta"@, "partial_json"@);
        lemma_pieces_push(less, e, i, "thinking_delta"@, "thinking"@);
        lemma_pieces_push(less, e, i, "signature_delta"@, "signature"@);
        lemma_delta_strings();
        stream_reassemble::lemma_event_kinds();
        stream_reassemble::lemma_delta_kinds();
        let t = pieces(less, i, "text_delta"@, "text"@);
        let j = pieces(less, i, "input_json_delta"@, "partial_json"@);
        let k = pieces(less, i, "thinking_delta"@, "thinking"@);
        let s = pieces(less, i, "signature_delta"@, "signature"@);
        lemma_concatenated_push(t, Seq::empty());
        lemma_concatenated_push(j, Seq::empty());
        lemma_concatenated_push(k, Seq::empty());
        lemma_concatenated_push(s, Seq::empty());
        assert(t + Seq::<Seq<char>>::empty() =~= t);
        assert(j + Seq::<Seq<char>>::empty() =~= j);
        assert(k + Seq::<Seq<char>>::empty() =~= k);
        assert(s + Seq::<Seq<char>>::empty() =~= s);
        let n = stream_reassemble::event_index(e);
        assert(n == block_number(e));
        match e.get("delta"@) {
            Some(delta) => {
                match delta.text_of("text"@) {
                    Some(x) => if n == i {
                        lemma_adds_up(a.text, i, t, x);
                    },
                    None => {},
                }
                match delta.text_of("partial_json"@) {
                    Some(x) => if n == i {
                        lemma_adds_up(a.json, i, j, x);
                    },
                    None => {},
                }
                match delta.text_of("thinking"@) {
                    Some(x) => if n == i {
                        lemma_adds_up(a.thinking, i, k, x);
                    },
                    None => {},
                }
                match delta.text_of("signature"@) {
                    Some(x) => if n == i {
                        lemma_adds_up(a.signature, i, s, x);
                    },
                    None => {},
                }
            },
            None => {},
        }
    }
}

// ---------------------------------------------------------------------------
// Blocks
// ---------------------------------------------------------------------------
/// A text block without text.
pub open spec fn blank(block: JsonView) -> bool {
    &&& is_a(block, "text"@)
    &&& block.get("text"@) == Some(JsonView::Text(Seq::empty()))
    &&& forall|k: Seq<char>| k != "type"@ && k != "text"@ ==> #[trigger] block.get(k) is None
}

/// The event starts the content block at `i` as `block`; where it does not say
/// how, as a blank one.
pub open spec fn starts(event: JsonView, i: usize, block: JsonView) -> bool {
    &&& is_a(event, "content_block_start"@)
    &&& block_number(event) == i
    &&& match event.get("content_block"@) {
        Some(b) => block == b,
        None => blank(block),
    }
}

/// The last event to start the content block at `i` is the one at `k`.
pub open spec fn last_start(events: Seq<JsonView>, i: usize, k: int) -> bool {
    &&& 0 <= k < events.len()
    &&& is_a(events[k], "content_block_start"@) && block_number(events[k]) == i
    &&& forall|l: int|
        k < l < events.len() ==> !(is_a(#[trigger] events[l], "content_block_start"@)
            && block_number(events[l]) == i)
}

proof fn lemma_blank()
    ensures
        blank(stream_reassemble::empty_text_block()),
{
    reveal_strlit("type");
    reveal_strlit("text");
    assert("type"@[1] == 'y' && "text"@[1] == 'e');
}

/// A content block is what the last event that starts it says. Blocks that no
/// event starts, before one that is, are blank; there are no others.
pub proof fn blocks_are_what_starts_them(events: Seq<JsonView>, i: usize, k: int)
    ensures
        ({
            let blocks = stream_reassemble::gather_all(events).blocks;
            &&& last_start(events, i, k) ==> i < blocks.len() && starts(
                events[k],
                i,
                blocks[i as int],
            )
            &&& i < blocks.len() && (forall|l: int|
                0 <= l < events.len() ==> !(is_a(#[trigger] events[l], "content_block_start"@)
                    && block_number(events[l]) == i)) ==> blank(blocks[i as int])
            &&& blocks.len() > 0 ==> exists|l: int|
                0 <= l < events.len() && is_a(#[trigger] events[l], "content_block_start"@)
                    && block_number(events[l]) == blocks.len() - 1
        }),
    decreases events.len(),
{
    lemma_blank();
    if events.len() > 0 {
        let less = events.drop_last();
        let e = events.last();
        let n = events.len() - 1;
        blocks_are_what_starts_them(less, i, k);
        lemma_delta_strings();
        stream_reassemble::lemma_event_kinds();
        let before = stream_reassemble::gather_all(less).blocks;
        let blocks = stream_reassemble::gather_all(events).blocks;
        let at = stream_reassemble::event_index(e);
        assert(at == block_number(e));
        assert(events[n] == e);
        let here = is_a(e, "content_block_start"@);
        if here {
            assert(blocks.len() == if before.len() > at {
                before.len()
            } else {
                (at + 1) as nat
            });
        } else {
            assert(blocks == before);
        }
        if last_start(events, i, k) {
            if k < n {
                assert(less[k] == events[k]);
                assert forall|l: int| k < l < less.len() implies !(is_a(
                    #[trigger] less[l],
                    "content_block_start"@,
                ) && block_number(less[l]) == i) by {
                    assert(less[l] == events[l]);
                }
                assert(last_start(less, i, k));
                assert(!(is_a(events[n], "content_block_start"@) && block_number(events[n]) == i));
            }
        }
        if forall|l: int|
            0 <= l < events.len() ==> !(is_a(#[trigger] events[l], "content_block_start"@)
                && block_number(events[l]) == i) {
            assert forall|l: int| 0 <= l < less.len() implies !(is_a(
                #[trigger] less[l],
                "content_block_start"@,
            ) && block_number(less[l]) == i) by {
                assert(less[l] == events[l]);
            }
            assert(!(is_a(events[n], "content_block_start"@) && block_number(events[n]) == i));
        }
        if blocks.len() > 0 {
            if here && at == blocks.len() - 1 {
                assert(is_a(events[n], "content_block_start"@) && block_number(events[n])
                    == blocks.len() - 1);
            } else {
                let l = choose|l: int|
                    0 <= l < less.len() && is_a(#[trigger] less[l], "content_block_start"@)
                        && block_number(less[l]) == before.len() - 1;
                assert(less[l] == events[l]);
                assert(is_a(events[l], "content_block_start"@) && block_number(events[l])
                    == blocks.len() - 1);
            }
        }
    }
}

// ---------------------------------------------------------------------------
// The message
// ---------------------------------------------------------------------------
/// The value that the last event of a kind with a field has in that field.
pub open spec fn last_value(events: Seq<JsonView>, kind: Seq<char>, key: Seq<char>) -> Option<
    JsonView,
>
    decreases events.len(),
{
    if events.len() == 0 {
        None
    } else {
        match last_value(events.skip(1), kind, key) {
            Some(v) => Some(v),
            None => if is_a(events[0], kind) {
                events[0].get(key)
            } else {
                None
            },
        }
    }
}

proof fn lemma_last_value_push(
    events: Seq<JsonView>,
    e: JsonView,
    kind: Seq<char>,
    key: Seq<char>,
)
    ensures
        last_value(events.push(e), kind, key) == if is_a(e, kind) && e.get(key) is Some {
            e.get(key)
        } else {
            last_value(events, kind, key)
        },
    decreases events.len(),
{
    let more = events.push(e);
    if events.len() == 0 {
        reveal_with_fuel(last_value, 2);
        assert(more.skip(1) =~= Seq::empty());
    } else {
        assert(more[0] == events[0]);
        assert(more.skip(1) =~= events.skip(1).push(e));
        lemma_last_value_push(events.skip(1), e, kind, key);
    }
}

/// The message is what the last start of it says, and why it stopped and what
/// it used what the last word on that says. The stream came to its end if and
/// only if an event says so.
pub proof fn the_last_word_counts(events: Seq<JsonView>)
    ensures
        ({
            let a = stream_reassemble::gather_all(events);
            let why = last_value(events, "message_delta"@, "delta"@);
            &&& a.base == last_value(events, "message_start"@, "message"@)
            &&& a.usage == last_value(events, "message_delta"@, "usage"@)
            &&& a.stop_reason == (match why {
                Some(d) => d.get("stop_reason"@),
                None => None,
            })
            &&& a.stop_sequence == (match why {
                Some(d) => d.get("stop_sequence"@),
                None => None,
            })
            &&& a.stopped <==> exists|k: int|
                0 <= k < events.len() && is_a(#[trigger] events[k], "message_stop"@)
        }),
    decreases events.len(),
{
    if events.len() > 0 {
        let less = events.drop_last();
        let e = events.last();
        let n = events.len() - 1;
        assert(less.push(e) =~= events);
        the_last_word_counts(less);
        lemma_last_value_push(less, e, "message_start"@, "message"@);
        lemma_last_value_push(less, e, "message_delta"@, "usage"@);
        lemma_last_value_push(less, e, "message_delta"@, "delta"@);
        lemma_delta_strings();
        stream_reassemble::lemma_event_kinds();
        let a = stream_reassemble::gather_all(less);
        let b = stream_reassemble::gather_all(events);
        assert(events[n] == e);
        if a.stopped {
            let k = choose|k: int|
                0 <= k < less.len() && is_a(#[trigger] less[k], "message_stop"@);
            assert(less[k] == events[k]);
        }
        if !b.stopped {
            assert forall|k: int| 0 <= k < events.len() implies !is_a(
                #[trigger] events[k],
                "message_stop"@,
            ) by {
                if k < n {
                    assert(less[k] == events[k]);
                }
            }
        }
    }
}

/// A text block gets the text of its deltas, a tool use the input that their
/// JSON is, and a thinking block thoughts and signature. Every other field, and
/// every block of another kind, stays as it started.
pub proof fn blocks_get_what_their_deltas_add(a: AssemblyView, i: usize, block: JsonView)
    requires
        block is Object,
    ensures
        ({
            let r = stream_reassemble::finished_block(a, i, block);
            &&& is_a(block, "text"@) ==> {
                &&& r.get("text"@) == if a.text.dom().contains(i) {
                    Some(JsonView::Text(a.text[i]))
                } else {
                    block.get("text"@)
                }
                &&& forall|k: Seq<char>| k != "text"@ ==> #[trigger] r.get(k) == block.get(k)
            }
            &&& is_a(block, "tool_use"@) ==> {
                let input = json::json_parsed(encode_utf8(a.json[i]));
                &&& r.get("input"@) == if a.json.dom().contains(i) && input is Some {
                    input
                } else {
                    block.get("input"@)
                }
                &&& forall|k: Seq<char>| k != "input"@ ==> #[trigger] r.get(k) == block.get(k)
            }
            &&& is_a(block, "thinking"@) ==> {
                &&& r.get("thinking"@) == Some(
                    JsonView::Text(
                        if a.thinking.dom().contains(i) {
                            a.thinking[i]
                        } else {
                            Seq::empty()
                        },
                    ),
                )
                &&& r.get("signature"@) == if a.signature.dom().contains(i) {
                    Some(JsonView::Text(a.signature[i]))
                } else {
                    block.get("signature"@)
                }
                &&& forall|k: Seq<char>|
                    k != "thinking"@ && k != "signature"@ ==> #[trigger] r.get(k) == block.get(k)
            }
            &&& !is_a(block, "text"@) && !is_a(block, "tool_use"@) && !is_a(block, "thinking"@)
                ==> r == block
        }),
{
    stream_reassemble::lemma_block_kinds();
    reveal_strlit("text");
    reveal_strlit("tool_use");
    reveal_strlit("thinking");
    reveal_strlit("signature");
    assert("text"@.len() == 4 && "tool_use"@.len() == 8 && "thinking"@.len() == 8
        && "signature"@.len() == 9);
    assert("tool_use"@[1] == 'o' && "thinking"@[1] == 'h');
}

/// A response comes of a stream if and only if it came to its end and started
/// with a message. The response is that message with the gathered blocks for
/// its content, with why it stopped, and with the usage that the end told over
/// its own. Every other field stays.
pub proof fn responses_are_what_was_gathered(a: AssemblyView)
    ensures
        stream_reassemble::assembled(a) is Some <==> a.stopped && (a.base matches Some(b)
            && b.takes_fields()),
        stream_reassemble::assembled(a) matches Some(r) ==> {
            let base = a.base->0;
            &&& r.get("content"@) matches Some(JsonView::Array(blocks)) && blocks.len()
                == a.blocks.len() && forall|i: int|
                0 <= i < a.blocks.len() ==> #[trigger] blocks[i]
                    == stream_reassemble::finished_block(a, i as usize, a.blocks[i])
            &&& r.get("stop_reason"@) == if a.stop_reason is Some {
                a.stop_reason
            } else {
                base.get("stop_reason"@)
            }
            &&& r.get("stop_sequence"@) == if a.stop_sequence is Some {
                a.stop_sequence
            } else {
                base.get("stop_sequence"@)
            }
            &&& r.get("delta"@) is None
            &&& forall|k: Seq<char>|
                k != "content"@ && k != "stop_reason"@ && k != "stop_sequence"@ && k != "usage"@ && k
                    != "delta"@ ==> #[trigger] r.get(k) == base.get(k)
            &&& match (base.get("usage"@), a.usage) {
                (Some(JsonView::Object(have)), Some(JsonView::Object(more))) => {
                    &&& r.get("usage"@) is Some
                    &&& forall|k: Seq<char>| #[trigger]
                        r.get("usage"@)->0.get(k) == if more.dom().contains(k) {
                            Some(more[k])
                        } else if have.dom().contains(k) {
                            Some(have[k])
                        } else {
                            None
                        }
                },
                _ => r.get("usage"@) == base.get("usage"@),
            }
        },
{
    reveal_strlit("content");
    reveal_strlit("stop_reason");
    reveal_strlit("stop_sequence");
    reveal_strlit("usage");
    reveal_strlit("delta");
    assert("content"@.len() == 7 && "stop_reason"@.len() == 11 && "stop_sequence"@.len() == 13
        && "usage"@.len() == 5 && "delta"@.len() == 5);
    assert("usage"@[0] == 'u' && "delta"@[0] == 'd');
}

/// The text of a block of the response is what the text deltas of that block
/// add up to, however the server cut it.
pub proof fn streamed_text_is_whole(events: Seq<JsonView>, i: usize)
    ensures
        ({
            let a = stream_reassemble::gather_all(events);
            let parts = pieces(events, i, "text_delta"@, "text"@);
            stream_reassemble::assembled(a) matches Some(r) ==> i < a.blocks.len() && is_a(
                a.blocks[i as int],
                "text"@,
            ) && parts.len() > 0 ==> r.get("content"@)->0->Array_0[i as int].get("text"@) == Some(
                JsonView::Text(text::concatenated(parts)),
            )
        }),
{
    let a = stream_reassemble::gather_all(events);
    deltas_add_up(events, i);
    responses_are_what_was_gathered(a);
    if i < a.blocks.len() && is_a(a.blocks[i as int], "text"@) {
        blocks_get_what_their_deltas_add(a, i, a.blocks[i as int]);
        assert(i as int as usize == i);
    }
}

// ---------------------------------------------------------------------------
// Lines
// ---------------------------------------------------------------------------
/// A line carries the JSON value behind `data: `, white space around the line
/// apart. A line that starts otherwise carries nothing.
pub proof fn data_lines_carry_events(line: Seq<char>, t: Seq<char>)
    ensures
        text::trim(line) == "data: "@ + t ==> stream_reassemble::line_event(line)
            == json::json_parsed(encode_utf8(t)),
        !text::starts_with(text::trim(line), "data: "@) ==> stream_reassemble::line_event(line)
            is None,
{
    reveal_strlit("data: ");
    let s = "data: "@ + t;
    if text::trim(line) == s {
        assert("data: "@.len() == 6);
        assert(s.subrange(0, 6) =~= "data: "@);
        assert(s.skip(6) =~= t);
    }
}

/// The events of a stream are those that its lines carry, in their order.
pub proof fn events_keep_their_order(lines: Seq<Seq<char>>, line: Seq<char>, sse: Seq<char>)
    ensures
        stream_reassemble::line_events(Seq::empty()) == Seq::<JsonView>::empty(),
        stream_reassemble::line_events(lines.push(line)) == match stream_reassemble::line_event(
            line,
        ) {
            Some(e) => stream_reassemble::line_events(lines).push(e),
            None => stream_reassemble::line_events(lines),
        },
        stream_reassemble::reconstructed(sse) == stream_reassemble::assembled(
            stream_reassemble::gather_all(stream_reassemble::line_events(text::lines(sse))),
        ),
{
    assert(lines.push(line).drop_last() =~= lines);
}

// ---------------------------------------------------------------------------
// Telling a message as a stream
// ---------------------------------------------------------------------------
/// An event is written as a line with its kind, a line with its JSON text, and
/// an empty line. A stream is its events, one after the other.
pub proof fn events_are_written_in_lines(
    events: Seq<JsonView>,
    event: JsonView,
    kind: Seq<char>,
)
    ensures
        is_a(event, kind) ==> stream_reassemble::sse_frame(event) == "event: "@ + kind
            + "\ndata: "@ + json::json_text(event) + "\n\n"@,
        stream_reassemble::sse_text(Seq::empty()) == Seq::<char>::empty(),
        stream_reassemble::sse_text(events.push(event)) == stream_reassemble::sse_text(events)
            + stream_reassemble::sse_frame(event),
{
    assert(events.push(event).drop_last() =~= events);
}

/// A stream starts with the message, without content, without a reason to stop
/// and without its count of output tokens. Then come the events of each block,
/// why the message stopped with that count, and the end.
pub proof fn streams_follow_the_protocol(m: JsonView)
    requires
        m is Object,
    ensures
        ({
            let events = stream_reassemble::message_events(m);
            let blocks = match m.get("content"@) {
                Some(JsonView::Array(items)) => items,
                _ => Seq::empty(),
            };
            let n = events.len() as int;
            let first = events[0].get("message"@)->0;
            let why = events[n - 2].get("delta"@)->0;
            &&& n >= 3
            &&& events.subrange(1, n - 2) == stream_reassemble::events_of_blocks(blocks)
            &&& is_a(events[0], "message_start"@) && events[0].get("message"@) is Some
            &&& first.get("content"@) == Some(JsonView::Array(Seq::empty()))
            &&& first.get("stop_reason"@) == Some(JsonView::Null)
            &&& first.get("stop_sequence"@) == Some(JsonView::Null)
            &&& forall|k: Seq<char>|
                k != "content"@ && k != "stop_reason"@ && k != "stop_sequence"@ && k != "usage"@
                    ==> #[trigger] first.get(k) == m.get(k)
            &&& (m.get("usage"@) is None ==> first.get("usage"@) is None)
            &&& (m.get("usage"@) matches Some(JsonView::Object(usage)) ==> {
                &&& first.get("usage"@) is Some
                &&& first.get("usage"@)->0.get("output_tokens"@) is None
                &&& forall|k: Seq<char>|
                    k != "output_tokens"@ ==> #[trigger] first.get("usage"@)->0.get(k) == (
                    if usage.dom().contains(k) {
                        Some(usage[k])
                    } else {
                        None
                    })
            })
            &&& is_a(events[n - 2], "message_delta"@) && events[n - 2].get("delta"@) is Some
            &&& why.get("stop_reason"@) == Some(
                match m.get("stop_reason"@) {
                    Some(v) => v,
                    None => JsonView::Null,
                },
            )
            &&& why.get("stop_sequence"@) == Some(
                match m.get("stop_sequence"@) {
                    Some(v) => v,
                    None => JsonView::Null,
                },
            )
            &&& (m.get("usage"@) matches Some(usage) ==> usage.get("output_tokens"@) matches Some(c)
                ==> events[n - 2].get("usage"@) matches Some(told) && told.get("output_tokens"@)
                == Some(c))
            &&& is_a(events[n - 1], "message_stop"@)
        }),
{
    reveal_strlit("content");
    reveal_strlit("stop_reason");
    reveal_strlit("stop_sequence");
    reveal_strlit("usage");
    reveal_strlit("delta");
    reveal_strlit("type");
    reveal_strlit("message");
    reveal_strlit("output_tokens");
    assert("content"@.len() == 7 && "stop_reason"@.len() == 11 && "stop_sequence"@.len() == 13
        && "usage"@.len() == 5 && "delta"@.len() == 5 && "type"@.len() == 4 && "message"@.len()
        == 7);
    assert("usage"@[0] == 'u' && "delta"@[0] == 'd' && "content"@[0] == 'c' && "message"@[0]
        == 'm');
    let events = stream_reassemble::message_events(m);
    let n = events.len() as int;
    let blocks = stream_reassemble::content_blocks(m);
    let inner = stream_reassemble::events_of_blocks(blocks);
    assert(events.subrange(1, n - 2) =~= inner);
    assert(events[0] == stream_reassemble::start_event(m));
    assert(events[n - 2] == stream_reassemble::delta_event(m));
    assert(events[n - 1] == stream_reassemble::typed("message_stop"@));
}

/// The events of the block at `i` start it, fill it, and stop it. All of them
/// say its number. A text is told whole, and so are the input of a tool use,
/// thoughts and a signature; what is empty is not told.
pub proof fn blocks_are_told_whole(blocks: Seq<JsonView>, block: JsonView, i: int)
    requires
        block is Object,
    ensures
        stream_reassemble::events_of_blocks(Seq::empty()) == Seq::<JsonView>::empty(),
        stream_reassemble::events_of_blocks(blocks.push(block))
            == stream_reassemble::events_of_blocks(blocks) + stream_reassemble::events_of_block(
            block,
            blocks.len() as int,
        ),
        ({
            let events = stream_reassemble::events_of_block(block, i);
            let n = events.len() as int;
            &&& n >= 2
            &&& is_a(events[0], "content_block_start"@) && events[0].get("content_block"@) is Some
            &&& is_a(events[n - 1], "content_block_stop"@)
            &&& forall|k: int|
                0 <= k < n ==> (#[trigger] events[k]).get("index"@) == Some(
                    JsonView::Number(json::number_of(i as u64)),
                )
            &&& forall|k: int|
                0 < k < n - 1 ==> is_a(#[trigger] events[k], "content_block_delta"@)
            &&& is_a(block, "text"@) ==> told_once(
                events,
                "text_delta"@,
                "text"@,
                text_in(block, "text"@),
            )
            &&& is_a(block, "thinking"@) ==> {
                let thought = text_in(block, "thinking"@);
                let signature = text_in(block, "signature"@);
                &&& n == 2 + (if thought.len() > 0 {
                    1int
                } else {
                    0
                }) + (if signature.len() > 0 {
                    1int
                } else {
                    0
                })
                &&& thought.len() > 0 ==> tells(events[1], "thinking_delta"@, "thinking"@, thought)
                &&& signature.len() > 0 ==> tells(
                    events[n - 2],
                    "signature_delta"@,
                    "signature"@,
                    signature,
                )
            }
            &&& is_a(block, "tool_use"@) && block.get("input"@) is Some ==> told_once(
                events,
                "input_json_delta"@,
                "partial_json"@,
                json::json_text(block.get("input"@)->0),
            )
            &&& is_a(block, "tool_use"@) ==> {
                let start = events[0].get("content_block"@)->0;
                &&& is_a(start, "tool_use"@)
                &&& block.get("id"@) is Some ==> start.get("id"@) == block.get("id"@)
                &&& block.get("name"@) is Some ==> start.get("name"@) == block.get("name"@)
            }
        }),
{
    reveal_strlit("type");
    reveal_strlit("index");
    reveal_strlit("delta");
    reveal_strlit("content_block");
    reveal_strlit("text");
    reveal_strlit("tool_use");
    reveal_strlit("thinking");
    reveal_strlit("signature");
    reveal_strlit("partial_json");
    reveal_strlit("id");
    reveal_strlit("name");
    reveal_strlit("input");
    assert("type"@.len() == 4 && "index"@.len() == 5 && "delta"@.len() == 5
        && "content_block"@.len() == 13 && "text"@.len() == 4 && "tool_use"@.len() == 8
        && "thinking"@.len() == 8 && "signature"@.len() == 9 && "partial_json"@.len() == 12
        && "id"@.len() == 2 && "name"@.len() == 4 && "input"@.len() == 5);
    assert("type"@[1] == 'y' && "text"@[1] == 'e' && "name"@[1] == 'a' && "index"@[1] == 'n'
        && "delta"@[1] == 'e' && "tool_use"@[1] == 'o' && "thinking"@[1] == 'h' && "index"@[2]
        == 'd' && "input"@[2] == 'p');
    assert(blocks.push(block).drop_last() =~= blocks);
    let events = stream_reassemble::events_of_block(block, i);
    let fill = stream_reassemble::fill_events(block, i);
    let n = events.len() as int;
    assert(n == fill.len() + 2);
    assert(forall|k: int| 0 < k < n - 1 ==> #[trigger] events[k] == fill[k - 1]);
    assert(events[n - 1] == stream_reassemble::block_event("content_block_stop"@, i));
}

/// The text of a field, or the empty text where there is none.
pub open spec fn text_in(j: JsonView, key: Seq<char>) -> Seq<char> {
    match j.get(key) {
        Some(JsonView::Text(s)) => s,
        _ => Seq::empty(),
    }
}

/// The event adds a text by a delta of a kind.
pub open spec fn tells(event: JsonView, kind: Seq<char>, key: Seq<char>, t: Seq<char>) -> bool {
    event.get("delta"@) matches Some(d) && is_a(d, kind) && d.get(key) == Some(JsonView::Text(t))
}

/// Between the start and the stop of a block there is one event that adds the
/// whole text, or none where the text is empty.
pub open spec fn told_once(
    events: Seq<JsonView>,
    kind: Seq<char>,
    key: Seq<char>,
    t: Seq<char>,
) -> bool {
    if t.len() == 0 {
        events.len() == 2
    } else {
        events.len() == 3 && tells(events[1], kind, key, t)
    }
}

} // verus!
