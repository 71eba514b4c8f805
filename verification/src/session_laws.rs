//! How long sessions last, and how conversations are told apart.
use vstd::prelude::*;
use vstd::string::*;
use vstd::utf8::*;

use crate::hashing;
use crate::json::JsonView;
use crate::session;
use crate::session::SessionView;

verus! {

// ---------------------------------------------------------------------------
// Sessions
// ---------------------------------------------------------------------------
/// A session is fresh for an hour after it was last asked for.
pub proof fn sessions_go_stale_after_an_hour(last_accessed: nat, now: nat)
    ensures
        session::fresh(last_accessed, now) <==> now < last_accessed + 3_600_000_000_000,
{
    assert(session::SESSION_TTL_SECS * session::NANOS_PER_SEC == 3_600_000_000_000) by (
    nonlinear_arith)
        requires
            session::SESSION_TTL_SECS == 3600,
            session::NANOS_PER_SEC == 1_000_000_000,
    ;
}

/// Up to ten thousand sessions are all kept. Of more, those stay that were
/// asked for within the last hour, as they are, and the others go.
pub proof fn few_sessions_are_all_kept(
    sessions: Map<Seq<char>, SessionView>,
    now: nat,
    id: Seq<char>,
)
    ensures
        sessions.dom().len() <= 10_000 ==> session::kept_sessions(sessions, now) == sessions,
        sessions.dom().len() > 10_000 ==> {
            let kept = session::kept_sessions(sessions, now);
            &&& kept.dom().contains(id) <==> sessions.dom().contains(id) && now
                < sessions[id].last_accessed + 3_600_000_000_000
            &&& kept.dom().contains(id) ==> kept[id] == sessions[id]
        },
{
    sessions_go_stale_after_an_hour(sessions[id].last_accessed, now);
}

/// A session knows what it has seen; one that there is not has seen nothing.
pub proof fn sessions_know_what_they_have_seen(
    sessions: Map<Seq<char>, SessionView>,
    id: Seq<char>,
    hash: u64,
)
    ensures
        sessions.dom().contains(id) ==> session::tools_of(sessions, id) == sessions[id].tools,
        !sessions.dom().contains(id) ==> !session::tools_of(sessions, id).dom().contains(hash),
{
}

/// A session that is asked for is fresh again for an hour, and knows what it
/// has seen, unless it was evicted. One that is new has seen nothing.
pub proof fn asking_keeps_a_session_fresh(
    sessions: Map<Seq<char>, SessionView>,
    id: Seq<char>,
    now: nat,
    later: nat,
)
    ensures
        later < now + 3_600_000_000_000 ==> session::fresh(
            session::handed_out(sessions, id, now).last_accessed,
            later,
        ),
        sessions.dom().contains(id) && (sessions.dom().len() <= 10_000 || now
            < sessions[id].last_accessed + 3_600_000_000_000) ==> session::handed_out(
            sessions,
            id,
            now,
        ).tools == sessions[id].tools,
        !sessions.dom().contains(id) ==> session::handed_out(sessions, id, now).tools == Map::<
            u64,
            session::EntryView,
        >::empty(),
{
    sessions_go_stale_after_an_hour(now, later);
    few_sessions_are_all_kept(sessions, now, id);
}

// ---------------------------------------------------------------------------
// The opening of a conversation
// ---------------------------------------------------------------------------
/// The block is a text block with a text.
pub open spec fn has_text(block: JsonView) -> bool {
    block.get("type"@) == Some(JsonView::Text("text"@)) && block.get("text"@) is Some
        && block.get("text"@)->0 is Text
}

/// The text of blocks is that of the first one that has a text.
pub proof fn the_first_text_counts(blocks: Seq<JsonView>, i: int)
    ensures
        0 <= i < blocks.len() && has_text(blocks[i]) && (forall|k: int|
            0 <= k < i ==> !has_text(#[trigger] blocks[k])) ==> session::first_text(blocks)
            == blocks[i].get("text"@)->0->Text_0,
        (forall|k: int| 0 <= k < blocks.len() ==> !has_text(#[trigger] blocks[k]))
            ==> session::first_text(blocks).len() == 0,
    decreases blocks.len(),
{
    if blocks.len() > 0 && !has_text(blocks[0]) {
        let rest = blocks.skip(1);
        the_first_text_counts(rest, i - 1);
        if forall|k: int| 0 <= k < i ==> !has_text(#[trigger] blocks[k]) {
            assert forall|k: int| 0 <= k < i - 1 && k < rest.len() implies !has_text(
                #[trigger] rest[k],
            ) by {
                assert(rest[k] == blocks[k + 1]);
            }
        }
        if 0 < i < blocks.len() {
            assert(rest[i - 1] == blocks[i]);
        }
        if forall|k: int| 0 <= k < blocks.len() ==> !has_text(#[trigger] blocks[k]) {
            assert forall|k: int| 0 <= k < rest.len() implies !has_text(#[trigger] rest[k]) by {
                assert(rest[k] == blocks[k + 1]);
            }
        }
    } else if blocks.len() > 0 {
        assert(has_text(blocks[0]));
    }
}

/// What a message says of the user: its text, or the first text of its blocks.
pub open spec fn said(message: JsonView) -> Seq<char> {
    if message.get("role"@) == Some(JsonView::Text("user"@)) {
        match message.get("content"@) {
            Some(JsonView::Text(s)) => s,
            Some(JsonView::Array(blocks)) => session::first_text(blocks),
            _ => Seq::empty(),
        }
    } else {
        Seq::empty()
    }
}

/// A conversation opens with the first thing that its user says. One in which
/// the user says nothing has no opening.
pub proof fn conversations_open_with_the_user(messages: Seq<JsonView>, i: int)
    ensures
        0 <= i < messages.len() && said(messages[i]).len() > 0 && (forall|k: int|
            0 <= k < i ==> said(#[trigger] messages[k]).len() == 0) ==> session::opening(messages)
            == Some(said(messages[i])),
        (forall|k: int| 0 <= k < messages.len() ==> said(#[trigger] messages[k]).len() == 0)
            ==> session::opening(messages) is None,
    decreases messages.len(),
{
    if messages.len() > 0 {
        assert(session::user_text(messages[0]) == said(messages[0]));
        if said(messages[0]).len() == 0 {
            let rest = messages.skip(1);
            conversations_open_with_the_user(rest, i - 1);
            if forall|k: int| 0 <= k < i ==> said(#[trigger] messages[k]).len() == 0 {
                assert forall|k: int| 0 <= k < i - 1 && k < rest.len() implies said(
                    #[trigger] rest[k],
                ).len() == 0 by {
                    assert(rest[k] == messages[k + 1]);
                }
            }
            if 0 < i < messages.len() {
                assert(rest[i - 1] == messages[i]);
            }
            if forall|k: int| 0 <= k < messages.len() ==> said(#[trigger] messages[k]).len() == 0 {
                assert forall|k: int| 0 <= k < rest.len() implies said(#[trigger] rest[k]).len()
                    == 0 by {
                    assert(rest[k] == messages[k + 1]);
                }
            }
        }
    }
}

// ---------------------------------------------------------------------------
// Ids
// ---------------------------------------------------------------------------
/// A hexadecimal number ends with the digit of its remainder by 16, behind that
/// of its sixteenth part.
pub proof fn numbers_are_written_in_hexadecimal(value: nat, n: nat)
    ensures
        session::hex(value, n).len() == n,
        n > 0 ==> session::hex(value, n) == session::hex(value / 16, (n - 1) as nat).push(
            "0123456789abcdef"@[(value % 16) as int],
        ),
    decreases n,
{
    if n > 0 {
        numbers_are_written_in_hexadecimal(value / 16, (n - 1) as nat);
        reveal_strlit("0123456789abcdef");
        let d = (value % 16) as int;
        assert(session::hex_digit(d) == "0123456789abcdef"@[d]);
    }
}

/// Sixteen to the power of `n`.
spec fn power_of_16(n: nat) -> nat
    decreases n,
{
    if n == 0 {
        1
    } else {
        16 * power_of_16((n - 1) as nat)
    }
}

proof fn lemma_hex_differs(a: nat, b: nat, n: nat)
    requires
        a < power_of_16(n),
        b < power_of_16(n),
        session::hex(a, n) == session::hex(b, n),
    ensures
        a == b,
    decreases n,
{
    if n > 0 {
        let m = (n - 1) as nat;
        let x = session::hex(a / 16, m);
        let y = session::hex(b / 16, m);
        let c = session::hex_digit((a % 16) as int);
        let d = session::hex_digit((b % 16) as int);
        assert(session::hex(a, n) == x.push(c));
        assert(session::hex(b, n) == y.push(d));
        numbers_are_written_in_hexadecimal(a / 16, m);
        numbers_are_written_in_hexadecimal(b / 16, m);
        assert(x.push(c).drop_last() =~= x);
        assert(y.push(d).drop_last() =~= y);
        assert(x.push(c).last() == c);
        assert(y.push(d).last() == d);
        assert(a % 16 == b % 16);
        lemma_hex_differs(a / 16, b / 16, m);
    }
}

/// A conversation with an opening has an id of sixteen digits, which tells it
/// from every conversation whose opening has another hash. One without has the
/// default id.
pub proof fn conversations_are_told_apart_by_their_openings(
    messages: Seq<JsonView>,
    others: Seq<JsonView>,
)
    ensures
        session::opening(messages) is None ==> session::session_id(messages) == "default"@,
        session::opening(messages) is Some ==> session::session_id(messages).len() == 16,
        session::opening(messages) is Some && session::opening(others) is Some ==> {
            session::session_id(messages) == session::session_id(others) <==> hashing::xxh3(
                encode_utf8(session::opening(messages)->0),
            ) == hashing::xxh3(encode_utf8(session::opening(others)->0))
        },
{
    match session::opening(messages) {
        Some(s) => {
            let a = hashing::xxh3(encode_utf8(s));
            numbers_are_written_in_hexadecimal(a as nat, 16);
            match session::opening(others) {
                Some(t) => {
                    let b = hashing::xxh3(encode_utf8(t));
                    if session::session_id(messages) == session::session_id(others) {
                        assert(power_of_16(16) == 0x1_0000_0000_0000_0000) by {
                            reveal_with_fuel(power_of_16, 17);
                        }
                        lemma_hex_differs(a as nat, b as nat, 16);
                    }
                },
                None => {},
            }
        },
        None => {},
    }
}

} // verus!
