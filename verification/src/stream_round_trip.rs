//! What a stream of events carries: the message that it was made from.
use vstd::prelude::*;
use vstd::string::*;
use vstd::utf8::*;

use crate::json;
use crate::json::JsonView;
use crate::stream_reassemble;
use crate::stream_reassemble::AssemblyView;
use crate::text;

verus! {

// ---------------------------------------------------------------------------
// From the text of a stream to its events
// ---------------------------------------------------------------------------
proof fn lemma_line_end(a: Seq<char>, rest: Seq<char>)
    requires
        forall|i: int| 0 <= i < a.len() ==> a[i] != '\n',
    ensures
        text::line_end(a + seq!['\n'] + rest) == a.len(),
    decreases a.len(),
{
    let s = a + seq!['\n'] + rest;
    if a.len() == 0 {
        assert(s[0] == '\n');
    } else {
        assert(s[0] == a[0]);
        lemma_line_end(a.skip(1), rest);
        assert(s.skip(1) =~= a.skip(1) + seq!['\n'] + rest);
    }
}

/// A text up to a line feed is the first line of what starts with it.
proof fn lemma_first_line(a: Seq<char>, rest: Seq<char>)
    requires
        forall|i: int| 0 <= i < a.len() ==> a[i] != '\n',
    ensures
        text::lines(a + seq!['\n'] + rest) == seq![text::without_return(a)] + text::lines(rest),
{
    let s = a + seq!['\n'] + rest;
    lemma_line_end(a, rest);
    assert(s.take(a.len() as int) =~= a);
    assert(s.skip(a.len() as int + 1) =~= rest);
}

proof fn lemma_trailing_kept(s: Seq<char>)
    ensures
        s.len() > 0 && !text::is_space(s.last()) ==> text::trim_end(s) == s,
        text::trim_end(s).len() > 0 ==> text::trim_end(s)[0] == s[0],
{
    text::lemma_trailing_spaces_bound(s);
    if s.len() > 0 && !text::is_space(s.last()) {
        assert(text::trim_end(s) =~= s);
    }
}

/// A line that starts and ends with a character that is no white space.
proof fn lemma_trim_kept(s: Seq<char>)
    requires
        s.len() > 0,
        !text::is_space(s[0]),
    ensures
        !text::is_space(s.last()) ==> text::trim(s) == s,
        text::trim(s).len() > 0 ==> text::trim(s)[0] == s[0],
{
    assert(text::trim_start(s) =~= s);
    lemma_trailing_kept(s);
}

proof fn lemma_line_events_concat(a: Seq<Seq<char>>, b: Seq<Seq<char>>)
    ensures
        stream_reassemble::line_events(a + b) == stream_reassemble::line_events(a)
            + stream_reassemble::line_events(b),
    decreases b.len(),
{
    if b.len() == 0 {
        assert(a + b =~= a);
        assert(stream_reassemble::line_events(a) + stream_reassemble::line_events(b)
            =~= stream_reassemble::line_events(a));
    } else {
        lemma_line_events_concat(a, b.drop_last());
        assert((a + b).drop_last() =~= a + b.drop_last());
        assert((a + b).last() == b.last());
        assert(stream_reassemble::line_events(a + b) =~= stream_reassemble::line_events(a)
            + stream_reassemble::line_events(b));
    }
}

/// An event whose type stands on one line.
spec fn named(e: JsonView) -> bool {
    forall|i: int|
        0 <= i < stream_reassemble::text_or_empty(e, "type"@).len()
            ==> #[trigger] stream_reassemble::text_or_empty(e, "type"@)[i] != '\n'
}

/// The text of an event holds that event and nothing else.
proof fn lemma_frame_lines(e: JsonView, rest: Seq<char>)
    requires
        stream_reassemble::readable(e),
        named(e),
    ensures
        stream_reassemble::line_events(text::lines(stream_reassemble::sse_frame(e) + rest))
            == seq![e] + stream_reassemble::line_events(text::lines(rest)),
{
    reveal_strlit("event: ");
    reveal_strlit("\ndata: ");
    reveal_strlit("data: ");
    reveal_strlit("\n\n");
    let name = stream_reassemble::text_or_empty(e, "type"@);
    let json = json::json_text(e);
    let first = "event: "@ + name;
    let second = "data: "@ + json;
    let third = Seq::<char>::empty();
    let after_second = seq!['\n'] + rest;
    let after_first = second + seq!['\n'] + after_second;
    assert("\ndata: "@ =~= seq!['\n'] + "data: "@);
    assert("\n\n"@ =~= seq!['\n', '\n']);
    assert(stream_reassemble::sse_frame(e) + rest =~= first + seq!['\n'] + after_first);
    assert forall|i: int| 0 <= i < first.len() implies first[i] != '\n' by {
        if i >= 7 {
            assert(first[i] == name[i - 7]);
        }
    }
    lemma_first_line(first, after_first);
    assert forall|i: int| 0 <= i < second.len() implies second[i] != '\n' by {
        if i >= 6 {
            assert(second[i] == json[i - 6]);
        }
    }
    lemma_first_line(second, after_second);
    assert(after_second =~= third + seq!['\n'] + rest);
    lemma_first_line(third, rest);
    let l1 = text::without_return(first);
    let l2 = text::without_return(second);
    let l3 = text::without_return(third);
    assert(second.last() == json.last());
    assert(l2 == second);
    assert(l3 == third);
    assert(text::lines(stream_reassemble::sse_frame(e) + rest) =~= seq![l1, l2, l3] + text::lines(
        rest,
    ));
    lemma_line_events_concat(seq![l1, l2, l3], text::lines(rest));
    // The line that names the event carries nothing.
    assert(l1[0] == 'e');
    lemma_trim_kept(l1);
    assert("data: "@[0] == 'd');
    assert(stream_reassemble::line_event(l1) is None) by {
        let t = text::trim(l1);
        if text::starts_with(t, "data: "@) {
            assert(t.subrange(0, 6)[0] == t[0]);
        }
    }
    // The data line carries the event.
    lemma_trim_kept(second);
    assert(second.subrange(0, 6) =~= "data: "@);
    assert(second.skip(6) =~= json);
    assert(stream_reassemble::line_event(l2) == Some(e));
    // The empty line carries nothing.
    assert(stream_reassemble::line_event(l3) is None) by {
        text::lemma_trailing_spaces_bound(text::trim_start(l3));
        text::lemma_leading_spaces_bound(l3);
    }
    reveal_with_fuel(stream_reassemble::line_events, 4);
    assert(seq![l1, l2, l3].drop_last() =~= seq![l1, l2]);
    assert(seq![l1, l2].drop_last() =~= seq![l1]);
    assert(seq![l1].drop_last() =~= Seq::empty());
    assert(stream_reassemble::line_events(seq![l1]) =~= Seq::empty());
    assert(stream_reassemble::line_events(seq![l1, l2]) =~= seq![e]);
    assert(stream_reassemble::line_events(seq![l1, l2, l3]) =~= seq![e]);
}

/// The text of a stream holds its events.
proof fn lemma_stream_lines(events: Seq<JsonView>)
    requires
        forall|k: int| 0 <= k < events.len() ==> stream_reassemble::readable(#[trigger] events[k]),
        forall|k: int| 0 <= k < events.len() ==> named(#[trigger] events[k]),
    ensures
        stream_reassemble::line_events(text::lines(stream_reassemble::sse_text(events))) == events,
    decreases events.len(),
{
    if events.len() == 0 {
        assert(text::lines(Seq::<char>::empty()) =~= Seq::<Seq<char>>::empty());
        assert(events =~= Seq::empty());
    } else {
        let rest = events.skip(1);
        assert(events =~= seq![events[0]] + rest);
        stream_reassemble::lemma_sse_text_concat(seq![events[0]], rest);
        stream_reassemble::lemma_sse_text_one(events[0]);
        lemma_frame_lines(events[0], stream_reassemble::sse_text(rest));
        assert forall|k: int| 0 <= k < rest.len() implies stream_reassemble::readable(
            #[trigger] rest[k],
        ) && named(rest[k]) by {
            assert(rest[k] == events[k + 1]);
        }
        lemma_stream_lines(rest);
    }
}

// ---------------------------------------------------------------------------
// Names
// ---------------------------------------------------------------------------
proof fn lemma_event_keys()
    ensures
        "type"@ != "index"@,
        "type"@ != "message"@,
        "type"@ != "content_block"@,
        "type"@ != "delta"@,
        "type"@ != "usage"@,
        "index"@ != "message"@,
        "index"@ != "content_block"@,
        "index"@ != "delta"@,
        "index"@ != "usage"@,
        "message"@ != "content_block"@,
        "message"@ != "delta"@,
        "message"@ != "usage"@,
        "content_block"@ != "delta"@,
        "content_block"@ != "usage"@,
        "delta"@ != "usage"@,
{
    reveal_strlit("type");
    reveal_strlit("index");
    reveal_strlit("message");
    reveal_strlit("content_block");
    reveal_strlit("delta");
    reveal_strlit("usage");
    assert("type"@.len() != "index"@.len());
    assert("type"@.len() != "message"@.len());
    assert("type"@.len() != "content_block"@.len());
    assert("type"@.len() != "delta"@.len());
    assert("type"@.len() != "usage"@.len());
    assert("index"@.len() != "message"@.len());
    assert("index"@.len() != "content_block"@.len());
    assert("index"@[0] != "delta"@[0]);
    assert("index"@[0] != "usage"@[0]);
    assert("message"@.len() != "content_block"@.len());
    assert("message"@.len() != "delta"@.len());
    assert("message"@.len() != "usage"@.len());
    assert("content_block"@.len() != "delta"@.len());
    assert("content_block"@.len() != "usage"@.len());
    assert("delta"@[0] != "usage"@[0]);
}

proof fn lemma_message_keys()
    ensures
        "content"@ != "stop_reason"@,
        "content"@ != "stop_sequence"@,
        "content"@ != "usage"@,
        "content"@ != "delta"@,
        "stop_reason"@ != "stop_sequence"@,
        "stop_reason"@ != "usage"@,
        "stop_reason"@ != "delta"@,
        "stop_sequence"@ != "usage"@,
        "stop_sequence"@ != "delta"@,
        "usage"@ != "delta"@,
{
    reveal_strlit("content");
    reveal_strlit("stop_reason");
    reveal_strlit("stop_sequence");
    reveal_strlit("usage");
    reveal_strlit("delta");
    assert("content"@.len() != "stop_reason"@.len());
    assert("content"@.len() != "stop_sequence"@.len());
    assert("content"@.len() != "usage"@.len());
    assert("content"@.len() != "delta"@.len());
    assert("stop_reason"@.len() != "stop_sequence"@.len());
    assert("stop_reason"@.len() != "usage"@.len());
    assert("stop_reason"@.len() != "delta"@.len());
    assert("stop_sequence"@.len() != "usage"@.len());
    assert("stop_sequence"@.len() != "delta"@.len());
    assert("usage"@[0] != "delta"@[0]);
}

proof fn lemma_block_keys()
    ensures
        "type"@ != "text"@,
        "type"@ != "thinking"@,
        "type"@ != "signature"@,
        "type"@ != "id"@,
        "type"@ != "name"@,
        "type"@ != "input"@,
        "text"@ != "thinking"@,
        "text"@ != "signature"@,
        "text"@ != "id"@,
        "text"@ != "name"@,
        "text"@ != "input"@,
        "thinking"@ != "signature"@,
        "thinking"@ != "id"@,
        "thinking"@ != "name"@,
        "thinking"@ != "input"@,
        "signature"@ != "id"@,
        "signature"@ != "name"@,
        "signature"@ != "input"@,
        "id"@ != "name"@,
        "id"@ != "input"@,
        "name"@ != "input"@,
{
    reveal_strlit("type");
    reveal_strlit("text");
    reveal_strlit("thinking");
    reveal_strlit("signature");
    reveal_strlit("id");
    reveal_strlit("name");
    reveal_strlit("input");
    assert("type"@[1] != "text"@[1]);
    assert("type"@.len() != "thinking"@.len());
    assert("type"@.len() != "signature"@.len());
    assert("type"@.len() != "id"@.len());
    assert("type"@[0] != "name"@[0]);
    assert("type"@.len() != "input"@.len());
    assert("text"@.len() != "thinking"@.len());
    assert("text"@.len() != "signature"@.len());
    assert("text"@.len() != "id"@.len());
    assert("text"@[0] != "name"@[0]);
    assert("text"@.len() != "input"@.len());
    assert("thinking"@.len() != "signature"@.len());
    assert("thinking"@.len() != "id"@.len());
    assert("thinking"@.len() != "name"@.len());
    assert("thinking"@.len() != "input"@.len());
    assert("signature"@.len() != "id"@.len());
    assert("signature"@.len() != "name"@.len());
    assert("signature"@.len() != "input"@.len());
    assert("id"@.len() != "name"@.len());
    assert("id"@.len() != "input"@.len());
    assert("name"@.len() != "input"@.len());
}

proof fn lemma_delta_keys()
    ensures
        "type"@ != "text"@,
        "type"@ != "partial_json"@,
        "type"@ != "thinking"@,
        "type"@ != "signature"@,
        "text"@ != "partial_json"@,
        "text"@ != "thinking"@,
        "text"@ != "signature"@,
        "partial_json"@ != "thinking"@,
        "partial_json"@ != "signature"@,
        "thinking"@ != "signature"@,
{
    reveal_strlit("type");
    reveal_strlit("text");
    reveal_strlit("partial_json");
    reveal_strlit("thinking");
    reveal_strlit("signature");
    assert("type"@[1] != "text"@[1]);
    assert("type"@.len() != "partial_json"@.len());
    assert("type"@.len() != "thinking"@.len());
    assert("type"@.len() != "signature"@.len());
    assert("text"@.len() != "partial_json"@.len());
    assert("text"@.len() != "thinking"@.len());
    assert("text"@.len() != "signature"@.len());
    assert("partial_json"@.len() != "thinking"@.len());
    assert("partial_json"@.len() != "signature"@.len());
    assert("thinking"@.len() != "signature"@.len());
}

proof fn lemma_event_types()
    ensures
        "message_start"@ != "content_block_start"@,
        "message_start"@ != "content_block_delta"@,
        "message_start"@ != "content_block_stop"@,
        "message_start"@ != "message_delta"@,
        "message_start"@ != "message_stop"@,
        "content_block_start"@ != "content_block_delta"@,
        "content_block_start"@ != "content_block_stop"@,
        "content_block_start"@ != "message_delta"@,
        "content_block_start"@ != "message_stop"@,
        "content_block_delta"@ != "content_block_stop"@,
        "content_block_delta"@ != "message_delta"@,
        "content_block_delta"@ != "message_stop"@,
        "content_block_stop"@ != "message_delta"@,
        "content_block_stop"@ != "message_stop"@,
        "message_delta"@ != "message_stop"@,
{
    reveal_strlit("message_start");
    reveal_strlit("content_block_start");
    reveal_strlit("content_block_delta");
    reveal_strlit("content_block_stop");
    reveal_strlit("message_delta");
    reveal_strlit("message_stop");
    assert("message_start"@.len() != "content_block_start"@.len());
    assert("message_start"@.len() != "content_block_delta"@.len());
    assert("message_start"@.len() != "content_block_stop"@.len());
    assert("message_start"@[8] != "message_delta"@[8]);
    assert("message_start"@.len() != "message_stop"@.len());
    assert("content_block_start"@[14] != "content_block_delta"@[14]);
    assert("content_block_start"@.len() != "content_block_stop"@.len());
    assert("content_block_start"@.len() != "message_delta"@.len());
    assert("content_block_start"@.len() != "message_stop"@.len());
    assert("content_block_delta"@.len() != "content_block_stop"@.len());
    assert("content_block_delta"@.len() != "message_delta"@.len());
    assert("content_block_delta"@.len() != "message_stop"@.len());
    assert("content_block_stop"@.len() != "message_delta"@.len());
    assert("content_block_stop"@.len() != "message_stop"@.len());
    assert("message_delta"@.len() != "message_stop"@.len());
}

proof fn lemma_delta_types()
    ensures
        "text_delta"@ != "input_json_delta"@,
        "text_delta"@ != "thinking_delta"@,
        "text_delta"@ != "signature_delta"@,
        "input_json_delta"@ != "thinking_delta"@,
        "input_json_delta"@ != "signature_delta"@,
        "thinking_delta"@ != "signature_delta"@,
{
    reveal_strlit("text_delta");
    reveal_strlit("input_json_delta");
    reveal_strlit("thinking_delta");
    reveal_strlit("signature_delta");
    assert("text_delta"@.len() != "input_json_delta"@.len());
    assert("text_delta"@.len() != "thinking_delta"@.len());
    assert("text_delta"@.len() != "signature_delta"@.len());
    assert("input_json_delta"@.len() != "thinking_delta"@.len());
    assert("input_json_delta"@.len() != "signature_delta"@.len());
    assert("thinking_delta"@.len() != "signature_delta"@.len());
}

proof fn lemma_block_types()
    ensures
        "text"@ != "tool_use"@,
        "text"@ != "thinking"@,
        "tool_use"@ != "thinking"@,
{
    reveal_strlit("text");
    reveal_strlit("tool_use");
    reveal_strlit("thinking");
    assert("text"@.len() != "tool_use"@.len());
    assert("text"@.len() != "thinking"@.len());
    assert("tool_use"@[1] != "thinking"@[1]);
}

// ---------------------------------------------------------------------------
// The events of a message
// ---------------------------------------------------------------------------
/// An event that can be read back.
spec fn good(e: JsonView) -> bool {
    json::plain(e, 127) && named(e)
}

/// The fields of events and messages have other keys than the reserved one.
proof fn lemma_field_keys()
    ensures
        "text"@ != json::reserved_key(),
        "thinking"@ != json::reserved_key(),
        "signature"@ != json::reserved_key(),
        "partial_json"@ != json::reserved_key(),
        "input"@ != json::reserved_key(),
        "id"@ != json::reserved_key(),
        "name"@ != json::reserved_key(),
        "type"@ != json::reserved_key(),
        "message"@ != json::reserved_key(),
        "index"@ != json::reserved_key(),
        "content"@ != json::reserved_key(),
        "content_block"@ != json::reserved_key(),
        "delta"@ != json::reserved_key(),
        "usage"@ != json::reserved_key(),
        "stop_reason"@ != json::reserved_key(),
        "stop_sequence"@ != json::reserved_key(),
        "output_tokens"@ != json::reserved_key(),
{
    json::lemma_reserved_key();
    reveal_strlit("text");
    reveal_strlit("thinking");
    reveal_strlit("signature");
    reveal_strlit("partial_json");
    reveal_strlit("input");
    reveal_strlit("id");
    reveal_strlit("name");
    reveal_strlit("type");
    reveal_strlit("message");
    reveal_strlit("index");
    reveal_strlit("content");
    reveal_strlit("content_block");
    reveal_strlit("delta");
    reveal_strlit("usage");
    reveal_strlit("stop_reason");
    reveal_strlit("stop_sequence");
    reveal_strlit("output_tokens");
}

proof fn lemma_typed(kind: Seq<char>)
    requires
        forall|i: int| 0 <= i < kind.len() ==> kind[i] != '\n',
    ensures
        good(stream_reassemble::typed(kind)),
        forall|d: nat| d > 0 ==> #[trigger] json::plain(stream_reassemble::typed(kind), d),
        stream_reassemble::typed(kind) is Object,
{
    lemma_field_keys();
    let e = stream_reassemble::typed(kind);
    assert(e.get("type"@) == Some(JsonView::Text(kind)));
    assert forall|d: nat| d > 0 implies #[trigger] json::plain(e, d) by {
        let fields = e->Object_0;
        assert forall|k: Seq<char>| fields.dom().contains(k) implies json::plain(
            #[trigger] fields[k],
            (d - 1) as nat,
        ) by {
            assert(k == "type"@);
        }
    }
}

/// An event stays good when a field other than its type is set.
proof fn lemma_good_with(e: JsonView, key: Seq<char>, value: JsonView)
    requires
        good(e),
        e is Object,
        key != "type"@,
        key != json::reserved_key(),
        json::plain(value, 126),
    ensures
        good(e.with(key, value)),
        e.with(key, value) is Object,
{
    json::lemma_plain_with(e, key, value, 127);
    let f = e.with(key, value);
    assert(f.get("type"@) == e.get("type"@));
    assert(stream_reassemble::text_or_empty(f, "type"@) == stream_reassemble::text_or_empty(
        e,
        "type"@,
    ));
}

proof fn lemma_good_block_event(kind: Seq<char>, i: int)
    requires
        forall|k: int| 0 <= k < kind.len() ==> kind[k] != '\n',
        stream_reassemble::indexable(i),
    ensures
        good(stream_reassemble::block_event(kind, i)),
        stream_reassemble::block_event(kind, i) is Object,
{
    lemma_event_keys();
    lemma_field_keys();
    lemma_typed(kind);
    lemma_good_with(
        stream_reassemble::typed(kind),
        "index"@,
        JsonView::Number(json::number_of(i as u64)),
    );
}

proof fn lemma_plain_start_block(block: JsonView)
    requires
        json::plain(block, 126),
    ensures
        json::plain(stream_reassemble::start_block(block), 126),
{
    let kind = stream_reassemble::block_kind(block);
    lemma_field_keys();
    reveal_strlit("text");
    reveal_strlit("tool_use");
    reveal_strlit("thinking");
    if kind == "text"@ {
        lemma_typed("text"@);
        json::lemma_plain_with(
            stream_reassemble::typed("text"@),
            "text"@,
            JsonView::Text(Seq::empty()),
            126,
        );
    } else if kind == "tool_use"@ {
        lemma_typed("tool_use"@);
        let e0 = stream_reassemble::typed("tool_use"@);
        let id = stream_reassemble::value_or_empty(block, "id"@);
        let name = stream_reassemble::value_or_empty(block, "name"@);
        if block.get("id"@) is Some {
            json::lemma_plain_get(block, "id"@, 126);
        }
        if block.get("name"@) is Some {
            json::lemma_plain_get(block, "name"@, 126);
        }
        json::lemma_plain_with(e0, "id"@, id, 126);
        let e1 = e0.with("id"@, id);
        json::lemma_plain_with(e1, "name"@, name, 126);
        let empty = JsonView::Object(Map::empty());
        assert(json::plain(empty, 125));
        json::lemma_plain_with(e1.with("name"@, name), "input"@, empty, 126);
    } else if kind == "thinking"@ {
        lemma_typed("thinking"@);
        json::lemma_plain_with(
            stream_reassemble::typed("thinking"@),
            "thinking"@,
            JsonView::Text(Seq::empty()),
            126,
        );
    }
}

proof fn lemma_good_deltas(i: int, kind: Seq<char>, key: Seq<char>, content: Seq<char>)
    requires
        key != json::reserved_key(),
        forall|k: int| 0 <= k < kind.len() ==> kind[k] != '\n',
        stream_reassemble::indexable(i),
    ensures
        forall|k: int|
            0 <= k < stream_reassemble::delta_events(i, kind, key, content).len() ==> good(
                #[trigger] stream_reassemble::delta_events(i, kind, key, content)[k],
            ),
{
    if content.len() > 0 {
        reveal_strlit("content_block_delta");
        lemma_event_keys();
        lemma_field_keys();
        lemma_typed(kind);
        let delta = stream_reassemble::typed(kind).with(key, JsonView::Text(content));
        json::lemma_plain_with(
            stream_reassemble::typed(kind),
            key,
            JsonView::Text(content),
            126,
        );
        lemma_good_block_event("content_block_delta"@, i);
        lemma_good_with(
            stream_reassemble::block_event("content_block_delta"@, i),
            "delta"@,
            delta,
        );
    }
}

proof fn lemma_good_block(block: JsonView, i: int)
    requires
        json::plain(block, 126),
        stream_reassemble::indexable(i),
    ensures
        forall|k: int|
            0 <= k < stream_reassemble::events_of_block(block, i).len() ==> good(
                #[trigger] stream_reassemble::events_of_block(block, i)[k],
            ),
{
    lemma_event_keys();
    lemma_field_keys();
    reveal_strlit("content_block_start");
    reveal_strlit("content_block_stop");
    reveal_strlit("text_delta");
    reveal_strlit("input_json_delta");
    reveal_strlit("thinking_delta");
    reveal_strlit("signature_delta");
    lemma_good_block_event("content_block_start"@, i);
    lemma_good_block_event("content_block_stop"@, i);
    lemma_plain_start_block(block);
    lemma_good_with(
        stream_reassemble::block_event("content_block_start"@, i),
        "content_block"@,
        stream_reassemble::start_block(block),
    );
    lemma_good_deltas(
        i,
        "text_delta"@,
        "text"@,
        stream_reassemble::text_or_empty(block, "text"@),
    );
    if block.get("input"@) is Some {
        lemma_good_deltas(
            i,
            "input_json_delta"@,
            "partial_json"@,
            json::json_text(block.get("input"@)->0),
        );
    }
    let first = stream_reassemble::delta_events(
        i,
        "thinking_delta"@,
        "thinking"@,
        stream_reassemble::text_or_empty(block, "thinking"@),
    );
    let second = stream_reassemble::delta_events(
        i,
        "signature_delta"@,
        "signature"@,
        stream_reassemble::text_or_empty(block, "signature"@),
    );
    lemma_good_deltas(
        i,
        "thinking_delta"@,
        "thinking"@,
        stream_reassemble::text_or_empty(block, "thinking"@),
    );
    lemma_good_deltas(
        i,
        "signature_delta"@,
        "signature"@,
        stream_reassemble::text_or_empty(block, "signature"@),
    );
    let fill = stream_reassemble::fill_events(block, i);
    assert forall|k: int| 0 <= k < fill.len() implies good(#[trigger] fill[k]) by {
        if fill == first + second {
            if k < first.len() {
                assert(fill[k] == first[k]);
            } else {
                assert(fill[k] == second[k - first.len()]);
            }
        }
    }
    let all = stream_reassemble::events_of_block(block, i);
    assert forall|k: int| 0 <= k < all.len() implies good(#[trigger] all[k]) by {
        if 0 < k < all.len() - 1 {
            assert(all[k] == fill[k - 1]);
        }
    }
}

proof fn lemma_good_blocks(blocks: Seq<JsonView>)
    requires
        forall|k: int| 0 <= k < blocks.len() ==> json::plain(#[trigger] blocks[k], 126),
        forall|k: int| 0 <= k < blocks.len() ==> stream_reassemble::indexable(k),
    ensures
        forall|k: int|
            0 <= k < stream_reassemble::events_of_blocks(blocks).len() ==> good(
                #[trigger] stream_reassemble::events_of_blocks(blocks)[k],
            ),
    decreases blocks.len(),
{
    if blocks.len() > 0 {
        let less = blocks.drop_last();
        assert forall|k: int| 0 <= k < less.len() implies json::plain(#[trigger] less[k], 126) by {
            assert(less[k] == blocks[k]);
        }
        lemma_good_blocks(less);
        lemma_good_block(blocks.last(), blocks.len() - 1);
        let a = stream_reassemble::events_of_blocks(less);
        let b = stream_reassemble::events_of_block(blocks.last(), blocks.len() - 1);
        assert forall|k: int| 0 <= k < (a + b).len() implies good(#[trigger] (a + b)[k]) by {
            if k < a.len() {
                assert((a + b)[k] == a[k]);
            } else {
                assert((a + b)[k] == b[k - a.len()]);
            }
        }
    }
}

/// A message without its content has its other fields.
proof fn lemma_other_fields(m: JsonView)
    ensures
        m.without("content"@).get("stop_reason"@) == m.get("stop_reason"@),
        m.without("content"@).get("stop_sequence"@) == m.get("stop_sequence"@),
        m.without("content"@).get("usage"@) == m.get("usage"@),
{
    reveal_strlit("content");
    reveal_strlit("stop_reason");
    reveal_strlit("stop_sequence");
    reveal_strlit("usage");
    assert("content"@[0] == 'c' && "stop_reason"@[0] == 's' && "stop_sequence"@[0] == 's'
        && "usage"@[0] == 'u');
}

proof fn lemma_plain_start(m: JsonView)
    requires
        m is Object,
        json::plain(m.without("content"@), 126),
    ensures
        json::plain(stream_reassemble::start_message(m), 126),
{
    lemma_field_keys();
    let nothing = JsonView::Array(Seq::empty());
    assert(json::plain(nothing, 125));
    let bare = m.without("content"@);
    json::lemma_plain_with(bare, "content"@, nothing, 126);
    let m1 = m.with("content"@, nothing);
    assert(m1->Object_0 =~= bare.with("content"@, nothing)->Object_0);
    json::lemma_plain_with(m1, "stop_reason"@, JsonView::Null, 126);
    let m2 = m1.with("stop_reason"@, JsonView::Null);
    json::lemma_plain_with(m2, "stop_sequence"@, JsonView::Null, 126);
    let m3 = m2.with("stop_sequence"@, JsonView::Null);
    match m3.get("usage"@) {
        Some(usage) => {
            json::lemma_plain_get(m3, "usage"@, 126);
            let less = usage.without("output_tokens"@);
            assert(!text::precedes("output_tokens"@, json::reserved_key())) by {
                json::lemma_reserved_key();
                reveal_strlit("output_tokens");
            }
            json::lemma_plain_without(usage, "output_tokens"@, 125);
            json::lemma_plain_with(m3, "usage"@, less, 126);
        },
        None => {},
    }
}

proof fn lemma_good_delta_event(m: JsonView)
    requires
        m is Object,
        json::plain(m.without("content"@), 126),
    ensures
        good(stream_reassemble::delta_event(m)),
{
    lemma_event_keys();
    lemma_field_keys();
    reveal_strlit("message_delta");
    let empty = JsonView::Object(Map::empty());
    let why = stream_reassemble::value_or_null(m, "stop_reason"@);
    let mark = stream_reassemble::value_or_null(m, "stop_sequence"@);
    let bare = m.without("content"@);
    lemma_other_fields(m);
    if m.get("stop_reason"@) is Some {
        json::lemma_plain_get(bare, "stop_reason"@, 126);
    }
    if m.get("stop_sequence"@) is Some {
        json::lemma_plain_get(bare, "stop_sequence"@, 126);
    }
    json::lemma_plain_with(empty, "stop_reason"@, why, 126);
    let r1 = empty.with("stop_reason"@, why);
    json::lemma_plain_with(r1, "stop_sequence"@, mark, 126);
    lemma_typed("message_delta"@);
    let event = stream_reassemble::typed("message_delta"@);
    lemma_good_with(event, "delta"@, r1.with("stop_sequence"@, mark));
    match stream_reassemble::output_tokens(m) {
        Some(n) => {
            json::lemma_plain_get(bare, "usage"@, 126);
            json::lemma_plain_get(m.get("usage"@)->0, "output_tokens"@, 125);
            json::lemma_plain_deeper(n, 124, 125);
            json::lemma_plain_with(empty, "output_tokens"@, n, 126);
            lemma_good_with(
                event.with("delta"@, r1.with("stop_sequence"@, mark)),
                "usage"@,
                empty.with("output_tokens"@, n),
            );
        },
        None => {},
    }
}

proof fn lemma_good_message(m: JsonView)
    requires
        stream_reassemble::faithful_message(m),
        forall|k: int|
            0 <= k < stream_reassemble::content_blocks(m).len() ==> stream_reassemble::indexable(k),
    ensures
        forall|k: int|
            0 <= k < stream_reassemble::message_events(m).len() ==> good(
                #[trigger] stream_reassemble::message_events(m)[k],
            ),
{
    lemma_event_keys();
    lemma_field_keys();
    reveal_strlit("message_start");
    reveal_strlit("message_stop");
    let blocks = stream_reassemble::content_blocks(m);
    lemma_good_blocks(blocks);
    lemma_plain_start(m);
    lemma_typed("message_start"@);
    lemma_good_with(
        stream_reassemble::typed("message_start"@),
        "message"@,
        stream_reassemble::start_message(m),
    );
    lemma_good_delta_event(m);
    lemma_typed("message_stop"@);
    let inner = stream_reassemble::events_of_blocks(blocks);
    let all = stream_reassemble::message_events(m);
    assert forall|k: int| 0 <= k < all.len() implies good(#[trigger] all[k]) by {
        if 0 < k <= inner.len() {
            assert(all[k] == inner[k - 1]);
        }
    }
}

// ---------------------------------------------------------------------------
// Gathering the events of a message
// ---------------------------------------------------------------------------
proof fn lemma_gather_push(events: Seq<JsonView>, e: JsonView)
    ensures
        stream_reassemble::gather_all(events.push(e)) == stream_reassemble::gather(
            stream_reassemble::gather_all(events),
            e,
        ),
{
    assert(events.push(e).drop_last() =~= events);
}

/// What an event about a content block says of itself.
proof fn lemma_block_event_fields(kind: Seq<char>, i: int, key: Seq<char>, value: JsonView)
    requires
        stream_reassemble::indexable(i),
        0 <= i <= usize::MAX,
        key != "type"@,
        key != "index"@,
    ensures
        stream_reassemble::text_or_empty(stream_reassemble::block_event(kind, i), "type"@) == kind,
        stream_reassemble::event_index(stream_reassemble::block_event(kind, i)) == i,
        stream_reassemble::text_or_empty(
            stream_reassemble::block_event(kind, i).with(key, value),
            "type"@,
        ) == kind,
        stream_reassemble::event_index(stream_reassemble::block_event(kind, i).with(key, value))
            == i,
        stream_reassemble::block_event(kind, i).with(key, value).get(key) == Some(value),
{
    lemma_event_keys();
    let number = JsonView::Number(json::number_of(i as u64));
    let e = stream_reassemble::block_event(kind, i);
    assert(e.get("type"@) == Some(JsonView::Text(kind)));
    assert(e.get("index"@) == Some(number));
    let f = e.with(key, value);
    assert(f.get("type"@) == Some(JsonView::Text(kind)));
    assert(f.get("index"@) == Some(number));
    assert((i as u64) as usize == i);
}

/// The first `n` content blocks of `m` have been gathered, and nothing else
/// but the message that the stream starts with.
spec fn carried(a: AssemblyView, m: JsonView, n: int) -> bool {
    let blocks = stream_reassemble::content_blocks(m);
    &&& a.base == Some(stream_reassemble::start_message(m))
    &&& a.stop_reason is None
    &&& a.stop_sequence is None
    &&& a.usage is None
    &&& !a.stopped
    &&& a.blocks.len() == n
    &&& forall|k: int|
        0 <= k < n ==> stream_reassemble::finished_block(a, k as usize, #[trigger] a.blocks[k])
            == blocks[k]
    &&& forall|k: usize| #[trigger] a.text.dom().contains(k) ==> k < n
    &&& forall|k: usize| #[trigger] a.json.dom().contains(k) ==> k < n
    &&& forall|k: usize| #[trigger] a.thinking.dom().contains(k) ==> k < n
    &&& forall|k: usize| #[trigger] a.signature.dom().contains(k) ==> k < n
}

proof fn lemma_gather_start(a: AssemblyView, n: int, block: JsonView)
    requires
        stream_reassemble::indexable(n),
        0 <= n <= usize::MAX,
        a.blocks.len() == n,
    ensures
        stream_reassemble::gather(
            a,
            stream_reassemble::block_event("content_block_start"@, n).with(
                "content_block"@,
                block,
            ),
        ) == (AssemblyView { blocks: a.blocks.push(block), ..a }),
{
    lemma_event_keys();
    lemma_event_types();
    lemma_block_event_fields("content_block_start"@, n, "content_block"@, block);
    assert(stream_reassemble::filled_up(a.blocks, n as nat).update(n, block) =~= a.blocks.push(
        block,
    ));
}

proof fn lemma_gather_stop(a: AssemblyView, n: int)
    requires
        stream_reassemble::indexable(n),
        0 <= n <= usize::MAX,
    ensures
        stream_reassemble::gather(a, stream_reassemble::block_event("content_block_stop"@, n))
            == a,
{
    lemma_event_keys();
    lemma_event_types();
    lemma_block_event_fields("content_block_stop"@, n, "delta"@, JsonView::Null);
}

/// A delta adds its content, where there is any, to what has been gathered.
proof fn lemma_gather_deltas(
    events: Seq<JsonView>,
    n: int,
    kind: Seq<char>,
    key: Seq<char>,
    content: Seq<char>,
)
    requires
        stream_reassemble::indexable(n),
        0 <= n <= usize::MAX,
        key != "type"@,
    ensures
        ({
            let a = stream_reassemble::gather_all(events);
            let b = stream_reassemble::gather_all(
                events + stream_reassemble::delta_events(n, kind, key, content),
            );
            &&& content.len() == 0 ==> b == a
            &&& content.len() > 0 && kind == "text_delta"@ && key == "text"@ ==> b == (
            AssemblyView {
                text: stream_reassemble::extended(a.text, n as usize, content),
                ..a
            })
            &&& content.len() > 0 && kind == "input_json_delta"@ && key == "partial_json"@ ==> b
                == (AssemblyView {
                json: stream_reassemble::extended(a.json, n as usize, content),
                ..a
            })
            &&& content.len() > 0 && kind == "thinking_delta"@ && key == "thinking"@ ==> b == (
            AssemblyView {
                thinking: stream_reassemble::extended(a.thinking, n as usize, content),
                ..a
            })
            &&& content.len() > 0 && kind == "signature_delta"@ && key == "signature"@ ==> b == (
            AssemblyView {
                signature: stream_reassemble::extended(a.signature, n as usize, content),
                ..a
            })
        }),
{
    let more = stream_reassemble::delta_events(n, kind, key, content);
    if content.len() == 0 {
        assert(events + more =~= events);
    } else {
        lemma_event_keys();
        lemma_event_types();
        lemma_delta_types();
        let delta = stream_reassemble::typed(kind).with(key, JsonView::Text(content));
        let e = stream_reassemble::block_event("content_block_delta"@, n).with("delta"@, delta);
        assert(events + more =~= events.push(e));
        lemma_gather_push(events, e);
        lemma_block_event_fields("content_block_delta"@, n, "delta"@, delta);
        assert(delta.get("type"@) == Some(JsonView::Text(kind)));
        assert(delta.get(key) == Some(JsonView::Text(content)));
    }
}

/// Once the events of the next content block have come, it has been gathered
/// too.
#[verifier::rlimit(40)]
proof fn lemma_gather_block(events: Seq<JsonView>, m: JsonView, n: int)
    requires
        carried(stream_reassemble::gather_all(events), m, n),
        0 <= n < stream_reassemble::content_blocks(m).len() <= usize::MAX,
        stream_reassemble::faithful_block(stream_reassemble::content_blocks(m)[n]),
        stream_reassemble::indexable(n),
        ({
            let block = stream_reassemble::content_blocks(m)[n];
            stream_reassemble::block_kind(block) == "tool_use"@ ==> stream_reassemble::readable(
                stream_reassemble::value_or_null(block, "input"@),
            )
        }),
    ensures
        carried(
            stream_reassemble::gather_all(
                events + stream_reassemble::events_of_block(
                    stream_reassemble::content_blocks(m)[n],
                    n,
                ),
            ),
            m,
            n + 1,
        ),
{
    lemma_block_keys();
    lemma_block_types();
    lemma_delta_keys();
    let block = stream_reassemble::content_blocks(m)[n];
    let kind = stream_reassemble::block_kind(block);
    let a = stream_reassemble::gather_all(events);
    let start = stream_reassemble::start_block(block);
    let e = stream_reassemble::block_event("content_block_start"@, n).with(
        "content_block"@,
        start,
    );
    let fill = stream_reassemble::fill_events(block, n);
    let stop = stream_reassemble::block_event("content_block_stop"@, n);
    let s1 = events.push(e);
    lemma_gather_push(events, e);
    lemma_gather_start(a, n, start);
    let a1 = stream_reassemble::gather_all(s1);
    assert(a1 == (AssemblyView { blocks: a.blocks.push(start), ..a }));
    let s2 = s1 + fill;
    let a2 = stream_reassemble::gather_all(s2);
    lemma_gather_push(s2, stop);
    lemma_gather_stop(a2, n);
    assert(events + stream_reassemble::events_of_block(block, n) =~= s2.push(stop));
    let i = n as usize;
    if kind == "text"@ {
        let t = stream_reassemble::text_or_empty(block, "text"@);
        lemma_gather_deltas(s1, n, "text_delta"@, "text"@, t);
        assert(start.get("type"@) == Some(JsonView::Text("text"@)));
        if t.len() == 0 {
            assert(t =~= Seq::empty());
        } else {
            assert(start.with("text"@, JsonView::Text(t))->Object_0 =~= block->Object_0);
        }
        assert(stream_reassemble::finished_block(a2, i, start) == block);
    } else if kind == "tool_use"@ {
        let input = stream_reassemble::value_or_null(block, "input"@);
        assert(block.get("input"@) == Some(input));
        let t = json::json_text(input);
        lemma_gather_deltas(s1, n, "input_json_delta"@, "partial_json"@, t);
        assert(start.get("type"@) == Some(JsonView::Text("tool_use"@)));
        assert(start.with("input"@, input)->Object_0 =~= block->Object_0);
        assert(stream_reassemble::finished_block(a2, i, start) == block);
    } else if kind == "thinking"@ {
        let t = stream_reassemble::text_or_empty(block, "thinking"@);
        let g = stream_reassemble::text_or_empty(block, "signature"@);
        let first = stream_reassemble::delta_events(n, "thinking_delta"@, "thinking"@, t);
        let second = stream_reassemble::delta_events(n, "signature_delta"@, "signature"@, g);
        lemma_gather_deltas(s1, n, "thinking_delta"@, "thinking"@, t);
        lemma_gather_deltas(s1 + first, n, "signature_delta"@, "signature"@, g);
        assert(s2 =~= s1 + first + second);
        assert(start.get("type"@) == Some(JsonView::Text("thinking"@)));
        let thought = start.with("thinking"@, JsonView::Text(t));
        assert(thought->Object_0 =~= stream_reassemble::typed("thinking"@).with(
            "thinking"@,
            JsonView::Text(t),
        )->Object_0);
        if t.len() == 0 {
            assert(t =~= Seq::empty());
        }
        if block == thought {
            assert(block.get("signature"@) is None);
            assert(g.len() == 0);
        } else {
            assert(g.len() > 0);
        }
        assert(stream_reassemble::finished_block(a2, i, start) == block);
    } else {
        assert(s2 =~= s1);
        assert(start == block);
        assert(stream_reassemble::finished_block(a2, i, start) == block);
    }
    assert(a2.blocks == a.blocks.push(start));
    let done = stream_reassemble::content_blocks(m);
    assert forall|k: int| 0 <= k < n + 1 implies stream_reassemble::finished_block(
        a2,
        k as usize,
        #[trigger] a2.blocks[k],
    ) == done[k] by {
        if k < n {
            assert(a2.blocks[k] == a.blocks[k]);
            assert(stream_reassemble::finished_block(a, k as usize, a.blocks[k]) == done[k]);
            assert(k as usize != i);
        }
    }
}

proof fn lemma_gather_blocks(m: JsonView, n: int)
    requires
        0 <= n <= stream_reassemble::content_blocks(m).len() <= usize::MAX,
        forall|k: int|
            0 <= k < stream_reassemble::content_blocks(m).len() ==> stream_reassemble::faithful_block(
                #[trigger] stream_reassemble::content_blocks(m)[k],
            ),
        forall|k: int|
            0 <= k < stream_reassemble::content_blocks(m).len() ==> stream_reassemble::indexable(k),
        forall|k: int|
            0 <= k < stream_reassemble::content_blocks(m).len() && stream_reassemble::block_kind(
                #[trigger] stream_reassemble::content_blocks(m)[k],
            ) == "tool_use"@ ==> stream_reassemble::readable(
                stream_reassemble::value_or_null(
                    stream_reassemble::content_blocks(m)[k],
                    "input"@,
                ),
            ),
    ensures
        carried(
            stream_reassemble::gather_all(
                seq![stream_reassemble::start_event(m)] + stream_reassemble::events_of_blocks(
                    stream_reassemble::content_blocks(m).take(n),
                ),
            ),
            m,
            n,
        ),
    decreases n,
{
    let start = stream_reassemble::start_event(m);
    let blocks = stream_reassemble::content_blocks(m);
    if n == 0 {
        lemma_event_keys();
        lemma_event_types();
        assert(blocks.take(0) =~= Seq::empty());
        assert(seq![start] + stream_reassemble::events_of_blocks(blocks.take(0)) =~= Seq::empty().push(
            start,
        ));
        lemma_gather_push(Seq::empty(), start);
        assert(start.get("type"@) == Some(JsonView::Text("message_start"@)));
        assert(start.get("message"@) == Some(stream_reassemble::start_message(m)));
    } else {
        lemma_gather_blocks(m, n - 1);
        let events = seq![start] + stream_reassemble::events_of_blocks(blocks.take(n - 1));
        lemma_gather_block(events, m, n - 1);
        assert(blocks.take(n).drop_last() =~= blocks.take(n - 1));
        assert(seq![start] + stream_reassemble::events_of_blocks(blocks.take(n)) =~= events
            + stream_reassemble::events_of_block(blocks[n - 1], n - 1));
    }
}

/// What is gathered from the events of a message makes that message.
proof fn lemma_gather_message(m: JsonView, a: AssemblyView)
    requires
        stream_reassemble::faithful_message(m),
        carried(a, m, stream_reassemble::content_blocks(m).len() as int),
        stream_reassemble::content_blocks(m).len() <= usize::MAX,
    ensures
        stream_reassemble::assembled(
            stream_reassemble::gather(
                stream_reassemble::gather(a, stream_reassemble::delta_event(m)),
                stream_reassemble::typed("message_stop"@),
            ),
        ) == Some(m),
{
    lemma_event_keys();
    lemma_event_types();
    lemma_message_keys();
    let stop = stream_reassemble::typed("message_stop"@);
    assert(stop.get("type"@) == Some(JsonView::Text("message_stop"@)));
    let delta = stream_reassemble::delta_event(m);
    let why = stream_reassemble::value_or_null(m, "stop_reason"@);
    let mark = stream_reassemble::value_or_null(m, "stop_sequence"@);
    let reason = JsonView::Object(Map::empty()).with("stop_reason"@, why).with(
        "stop_sequence"@,
        mark,
    );
    assert(delta.get("type"@) == Some(JsonView::Text("message_delta"@)));
    assert(delta.get("delta"@) == Some(reason));
    assert(reason.get("stop_reason"@) == Some(why));
    assert(reason.get("stop_sequence"@) == Some(mark));
    let counted = match stream_reassemble::output_tokens(m) {
        Some(n) => Some(JsonView::Object(Map::empty()).with("output_tokens"@, n)),
        None => None,
    };
    assert(delta.get("usage"@) == counted);
    let a1 = stream_reassemble::gather(a, delta);
    let a2 = stream_reassemble::gather(a1, stop);
    assert(a2 == (AssemblyView {
        stop_reason: Some(why),
        stop_sequence: Some(mark),
        usage: counted,
        stopped: true,
        ..a
    }));
    let blocks = stream_reassemble::content_blocks(m);
    assert(stream_reassemble::finished_blocks(a2) =~= blocks) by {
        assert forall|k: int| 0 <= k < blocks.len() implies stream_reassemble::finished_blocks(
            a2,
        )[k] == blocks[k] by {
            assert(stream_reassemble::finished_block(a, k as usize, a.blocks[k]) == blocks[k]);
        }
    }
    let base = stream_reassemble::start_message(m);
    let m3 = base.with("content"@, JsonView::Array(blocks)).with("stop_reason"@, why).with(
        "stop_sequence"@,
        mark,
    );
    assert(m.get("content"@) == Some(JsonView::Array(blocks)));
    assert(base.get("usage"@) == match m.get("usage"@) {
        Some(usage) => Some(usage.without("output_tokens"@)),
        None => None,
    });
    assert(m3.get("usage"@) == base.get("usage"@));
    let m4 = stream_reassemble::with_usage(m3, counted);
    assert(m4.get("usage"@) == m.get("usage"@)) by {
        match m.get("usage"@) {
            Some(JsonView::Object(usage)) => {
                let less = usage.remove("output_tokens"@);
                match counted {
                    Some(JsonView::Object(more)) => {
                        assert(less.union_prefer_right(more) =~= usage);
                    },
                    _ => {
                        assert(less =~= usage);
                    },
                }
            },
            _ => {},
        }
    }
    assert(m4.without("delta"@)->Object_0 =~= m->Object_0) by {
        let f = m4.without("delta"@)->Object_0;
        let g = m->Object_0;
        assert(f.dom() =~= g.dom());
        assert forall|k: Seq<char>| f.dom().contains(k) implies f[k] == g[k] by {
            if k == "usage"@ {
                assert(m4.get("usage"@) == Some(f[k]));
                assert(m.get("usage"@) == Some(g[k]));
            }
        }
    }
}

/// The stream that a message is sent as carries that message, whatever it
/// holds: where every event, and every input of a tool use, can be read back,
/// what is reconstructed from the text of the stream is the message.
pub proof fn stream_carries_message(m: JsonView)
    requires
        stream_reassemble::faithful_message(m),
        stream_reassemble::written(stream_reassemble::message_events(m)),
        stream_reassemble::parts_readable(m),
    ensures
        stream_reassemble::reconstructed(
            stream_reassemble::sse_text(stream_reassemble::message_events(m)),
        ) == Some(m),
{
    let blocks = stream_reassemble::content_blocks(m);
    let events = stream_reassemble::message_events(m);
    lemma_good_message(m);
    assert forall|k: int| 0 <= k < events.len() implies stream_reassemble::readable(
        #[trigger] events[k],
    ) && named(events[k]) by {
        assert(good(events[k]));
    }
    lemma_stream_lines(events);
    assert forall|k: int|
        0 <= k < blocks.len() && stream_reassemble::block_kind(#[trigger] blocks[k])
            == "tool_use"@ implies stream_reassemble::readable(
        stream_reassemble::value_or_null(blocks[k], "input"@),
    ) by {
        lemma_block_keys();
        let input = stream_reassemble::value_or_null(blocks[k], "input"@);
        assert(stream_reassemble::faithful_block(blocks[k]));
        assert(blocks[k].get("input"@) == Some(input));
        assert(json::plain(blocks[k], 126));
        json::lemma_plain_get(blocks[k], "input"@, 126);
        json::lemma_plain_deeper(input, 125, 127);
        assert(stream_reassemble::input_readable(blocks[k]));
    }
    lemma_gather_blocks(m, blocks.len() as int);
    assert(blocks.take(blocks.len() as int) =~= blocks);
    let inner = seq![stream_reassemble::start_event(m)] + stream_reassemble::events_of_blocks(
        blocks,
    );
    let delta = stream_reassemble::delta_event(m);
    let stop = stream_reassemble::typed("message_stop"@);
    assert(events =~= inner.push(delta).push(stop));
    lemma_gather_push(inner.push(delta), stop);
    lemma_gather_push(inner, delta);
    lemma_gather_message(m, stream_reassemble::gather_all(inner));
}

} // verus!
