//! What the cache is asked, what it answers, and what it stores.
use vstd::prelude::*;
use vstd::string::*;
use vstd::utf8::*;

use crate::cache::redis_cache;
use crate::cache::redis_cache::{
    FieldView, IndexError, Purpose, RecordView, Reply, TaskActionView, TaskInput, TaskPhaseView,
    TaskStep,
};
use crate::cache::CachedView;
use crate::text;
use crate::text_laws;

verus! {

// ---------------------------------------------------------------------------
// Names and commands
// ---------------------------------------------------------------------------
/// The name of a model stands in keys with an underscore for each slash, hyphen
/// and full stop. Every other character stays.
pub proof fn model_names_keep_their_characters(model: Seq<char>, i: int)
    requires
        0 <= i < model.len(),
    ensures
        redis_cache::key_name(model).len() == model.len(),
        redis_cache::key_name(model)[i] == if model[i] == '/' || model[i] == '-' || model[i]
            == '.' {
            '_'
        } else {
            model[i]
        },
{
}

/// The index that is created for a model is the one that is searched for it. It
/// covers the entries of that model, by the cosine distance of their
/// embeddings, which have 384 numbers; the search asks for the one nearest.
pub proof fn entries_are_found_through_their_index(model: Seq<char>, id: Seq<char>)
    ensures
        ({
            let made = redis_cache::create_words(model);
            let asked = redis_cache::search_words(model);
            &&& made[0] == asked.0[0]
            &&& made[0] == "janus_cache_"@ + redis_cache::key_name(model)
            &&& made[3] == "PREFIX"@ && made[4] == "1"@
            &&& text::starts_with(redis_cache::entry_key(model, id), made[5])
            &&& made[7] == "embedding"@ && made[8] == "VECTOR"@
            &&& made[13] == "DIM"@ && made[14] == text::decimal(384)
            &&& made[15] == "DISTANCE_METRIC"@ && made[16] == "COSINE"@
            &&& asked.0[1] == "*=>[KNN 1 @embedding $vec AS score]"@
            &&& asked.0.last() == "vec"@
            &&& asked.1[0] == "SORTBY"@ && asked.1[1] == "score"@
        }),
        redis_cache::DIMENSIONS == 384,
        redis_cache::NEAR_DUPLICATE_BITS == 0x3fee_6666_6666_6666,
        redis_cache::entry_key(model, id) == "janus:cache:"@ + redis_cache::key_name(model) + ":"@
            + id,
{
    let prefix = redis_cache::create_words(model)[5];
    let key = redis_cache::entry_key(model, id);
    assert(key =~= prefix + id);
    text_laws::held_texts_are_parts(key, prefix);
}

/// The entries of a model are covered by no other index, unless the models have
/// the same name in keys, or one of them has a colon in it.
pub proof fn models_are_kept_apart(model: Seq<char>, other: Seq<char>, id: Seq<char>)
    requires
        forall|k: int| 0 <= k < model.len() ==> #[trigger] model[k] != ':',
        forall|k: int| 0 <= k < other.len() ==> #[trigger] other[k] != ':',
        redis_cache::key_name(model) != redis_cache::key_name(other),
    ensures
        !text::starts_with(
            redis_cache::entry_key(model, id),
            redis_cache::create_words(other)[5],
        ),
{
    let a = redis_cache::key_name(model);
    let b = redis_cache::key_name(other);
    let key = redis_cache::entry_key(model, id);
    let prefix = redis_cache::create_words(other)[5];
    reveal_strlit("janus:cache:");
    reveal_strlit(":");
    let n = "janus:cache:"@.len() as int;
    if text::starts_with(key, prefix) {
        assert forall|k: int| 0 <= k < prefix.len() implies key[k] == prefix[k] by {
            assert(key.subrange(0, prefix.len() as int)[k] == key[k]);
        }
        assert(key[n + a.len()] == ':');
        assert(prefix[n + b.len()] == ':');
        assert(forall|k: int| 0 <= k < a.len() ==> #[trigger] key[n + k] == a[k]);
        assert(forall|k: int| 0 <= k < b.len() ==> #[trigger] prefix[n + k] == b[k]);
        if a.len() < b.len() {
            assert(prefix[n + a.len()] == b[a.len() as int]);
            assert(other[a.len() as int] != ':');
        } else if b.len() < a.len() {
            assert(key[n + b.len()] == a[b.len() as int]);
            assert(model[b.len() as int] != ':');
        } else {
            assert forall|k: int| 0 <= k < a.len() implies a[k] == b[k] by {
                assert(key[n + k] == prefix[n + k]);
            }
            assert(a =~= b);
        }
    }
}

// ---------------------------------------------------------------------------
// Replies
// ---------------------------------------------------------------------------
/// The fields of an entry come as names and values by turns.
pub proof fn fields_come_in_pairs(name: Vec<u8>, value: Reply, rest: Seq<Reply>)
    ensures
        redis_cache::fields_of(seq![Reply::Bytes(name), value] + rest) == seq![
            FieldView {
                name: text::utf8_lossy(name@),
                value: match value {
                    Reply::Bytes(b) => Some((b@, text::utf8_lossy(b@))),
                    _ => None,
                },
            },
        ] + redis_cache::fields_of(rest),
        redis_cache::fields_of(Seq::empty()) == Seq::<FieldView>::empty(),
{
    let all = seq![Reply::Bytes(name), value] + rest;
    assert(all.skip(2) =~= rest);
    assert(all[0] == Reply::Bytes(name) && all[1] == value);
}

/// A field says of an entry what its name says: how near it is, its response,
/// its model, or the tokens that it saved. It leaves the rest as it was.
pub proof fn fields_say_what_they_are_named(fields: Seq<FieldView>, f: FieldView)
    ensures
        ({
            let before = redis_cache::record_of(fields);
            let after = redis_cache::record_of(fields.push(f));
            let (bytes, t) = f.value->0;
            &&& after.score == if f.value is Some && f.name == "score"@ {
                Some(t)
            } else {
                before.score
            }
            &&& after.response == if f.value is Some && f.name == "response"@ {
                Some(bytes)
            } else {
                before.response
            }
            &&& after.model == if f.value is Some && f.name == "model"@ {
                t
            } else {
                before.model
            }
            &&& after.tokens_saved == if f.value is Some && f.name == "tokens_saved"@ {
                if text::number_in(t) is Some && text::number_in(t)->0 <= usize::MAX {
                    text::number_in(t)->0
                } else {
                    0
                }
            } else {
                before.tokens_saved
            }
        }),
        redis_cache::record_of(Seq::empty()) == (RecordView {
            score: None,
            response: None,
            model: Seq::empty(),
            tokens_saved: 0,
        }),
{
    assert(fields.push(f).drop_last() =~= fields);
    reveal_strlit("score");
    reveal_strlit("response");
    reveal_strlit("model");
    reveal_strlit("tokens_saved");
    assert("score"@.len() == 5 && "response"@.len() == 8 && "model"@.len() == 5
        && "tokens_saved"@.len() == 12);
    assert("score"@[0] == 's' && "model"@[0] == 'm');
}

/// The fields that a search gives back of what was stored: the distance, and
/// each field with its bytes and the text that they encode.
pub open spec fn given_back(score: Seq<char>, fields: Seq<(Seq<char>, Seq<u8>)>) -> Seq<FieldView> {
    seq![FieldView { name: "score"@, value: Some((encode_utf8(score), score)) }]
        + fields.map_values(
        |f: (Seq<char>, Seq<u8>)|
            FieldView { name: f.0, value: Some((f.1, decode_utf8(f.1))) },
    )
}

/// What was stored of a response is what a search that finds it gives out: the
/// same bytes, the same model, and the same count of tokens.
pub proof fn responses_come_back_as_they_were_stored(
    score: Seq<char>,
    embedding: Seq<u8>,
    response: Seq<u8>,
    model: Seq<char>,
    tokens_saved: nat,
)
    requires
        tokens_saved <= usize::MAX,
    ensures
        redis_cache::record_of(
            given_back(
                score,
                redis_cache::stored_fields(embedding, response, model, tokens_saved),
            ),
        ) == (RecordView {
            score: Some(score),
            response: Some(response),
            model,
            tokens_saved,
        }),
        redis_cache::stored_fields(embedding, response, model, tokens_saved).contains(
            ("embedding"@, embedding),
        ),
{
    let stored = redis_cache::stored_fields(embedding, response, model, tokens_saved);
    let all = given_back(score, stored);
    let count = text::decimal(tokens_saved);
    encode_utf8_decode_utf8(model);
    encode_utf8_decode_utf8(count);
    redis_cache::stored_entries_are_read_back(
        score,
        (embedding, decode_utf8(embedding)),
        (response, decode_utf8(response)),
        model,
        tokens_saved,
    );
    assert(stored[0] == ("embedding"@, embedding));
    assert(all =~= seq![
        FieldView { name: "score"@, value: Some((encode_utf8(score), score)) },
        FieldView { name: "embedding"@, value: Some((embedding, decode_utf8(embedding))) },
        FieldView { name: "response"@, value: Some((response, decode_utf8(response))) },
        FieldView { name: "model"@, value: Some((encode_utf8(model), model)) },
        FieldView { name: "tokens_saved"@, value: Some((encode_utf8(count), count)) },
    ]);
}

/// A list of modules with `search` anywhere in it names a search module, and
/// it does not matter how it is written.
pub proof fn search_modules_are_known_by_name(a: Seq<char>, b: Seq<char>)
    requires
        text::is_ascii(a),
        text::is_ascii(b),
    ensures
        redis_cache::offers_search(a + "search"@ + b),
        redis_cache::offers_search(text::ascii_uppercase(a + "search"@ + b)),
        redis_cache::offers_search(a) <==> text::contains_text(text::lowercase(a), "search"@),
{
    reveal_strlit("search");
    let t = a + "search"@ + b;
    assert forall|i: int| 0 <= i < t.len() implies (#[trigger] t[i] as u32) < 0x80 by {
        if i < a.len() {
            assert(t[i] == a[i]);
        } else if i >= a.len() + 6 {
            assert(t[i] == b[i - a.len() - 6]);
        }
    }
    text::case_is_lost_in_lower_case(t);
    let low = text::lowercase(t);
    assert(low.subrange(a.len() as int, a.len() as int + 6) =~= "search"@);
    assert(text::has_at(low, "search"@, a.len() as int));
}

/// The reply to a search is a count, a key and the fields of an entry. Without
/// these there is no entry in it.
pub proof fn searches_find_entries(items: Vec<Reply>, fields: Vec<Reply>)
    ensures
        items@.len() >= 3 && items@[2] == Reply::Items(fields) ==> redis_cache::found_in(
            Reply::Items(items),
        ) == Some(redis_cache::record_of(redis_cache::fields_of(fields@))),
        items@.len() < 3 ==> redis_cache::found_in(Reply::Items(items)) is None,
        items@.len() >= 3 && !(items@[2] is Items) ==> redis_cache::found_in(Reply::Items(items))
            is None,
        redis_cache::found_in(Reply::Other) is None,
{
}

/// A message that an index already exists says that, whatever else it says; one
/// about an unknown command says that there is no search module.
pub proof fn messages_say_what_went_wrong(before: Seq<char>, after: Seq<char>, other: Seq<char>)
    ensures
        redis_cache::index_error(before + "already exists"@ + after) == IndexError::Exists,
        !text::contains_text(before + "unknown command"@ + after, "already exists"@)
            ==> redis_cache::index_error(before + "unknown command"@ + after)
            == IndexError::NoModule,
        !text::contains_text(before + "ERR unknown"@ + after, "already exists"@)
            ==> redis_cache::index_error(before + "ERR unknown"@ + after) == IndexError::NoModule,
        !text::contains_text(other, "already exists"@) && !text::contains_text(
            other,
            "unknown command"@,
        ) && !text::contains_text(other, "ERR unknown"@) ==> redis_cache::index_error(other)
            == IndexError::Other,
{
    text_laws::held_texts_are_parts(before + "already exists"@ + after, "already exists"@);
    text_laws::held_texts_are_parts(before + "unknown command"@ + after, "unknown command"@);
    text_laws::held_texts_are_parts(before + "ERR unknown"@ + after, "ERR unknown"@);
}

// ---------------------------------------------------------------------------
// Lookups and stores
// ---------------------------------------------------------------------------
/// A search follows where the index is there, was created, or was created by
/// somebody else at the same time. Where it cannot be created, the task fails
/// with what went wrong.
pub proof fn indexes_come_first(purpose: Purpose, message: String)
    ensures
        ({
            let there = redis_cache::next_task(
                purpose,
                TaskPhaseView::Checking,
                TaskInput::Checked(true),
            );
            let missing = redis_cache::next_task(
                purpose,
                TaskPhaseView::Checking,
                TaskInput::Checked(false),
            );
            let made = redis_cache::next_task(purpose, missing.phase, TaskInput::Created(None));
            let failed = redis_cache::next_task(
                purpose,
                missing.phase,
                TaskInput::Created(Some(message)),
            );
            &&& there.action == TaskActionView::Search
            &&& missing.action == TaskActionView::CreateIndex
            &&& made.action == TaskActionView::Search && made.phase == there.phase
            &&& text::contains_text(message@, "already exists"@) ==> failed.action
                == TaskActionView::Search && failed.phase == there.phase
            &&& !text::contains_text(message@, "already exists"@) ==> failed.action
                == TaskActionView::Fail(redis_cache::index_error(message@)) && failed.phase
                == TaskPhaseView::Done
        }),
{
}

/// What a search that found the reply, and then the comparison, come to.
pub open spec fn compared(purpose: Purpose, reply: Option<Reply>, near: Option<u64>) -> TaskStep {
    let there = redis_cache::next_task(
        purpose,
        TaskPhaseView::Checking,
        TaskInput::Checked(true),
    );
    let found = redis_cache::next_task(purpose, there.phase, TaskInput::Searched(reply));
    redis_cache::next_task(purpose, found.phase, TaskInput::Compared(near))
}

/// The nearest entry, if it has a response and says how near it is, is held
/// against what is asked for. A lookup gives it out as it was stored, with its
/// similarity, where it is near enough, and nothing where it is not; a store
/// writes only where it is not.
pub proof fn near_entries_are_given_out(
    purpose: Purpose,
    reply: Option<Reply>,
    r: RecordView,
    near: Option<u64>,
)
    requires
        reply is Some,
        redis_cache::found_in(reply->0) == Some(r),
        r.score is Some,
        r.response is Some,
    ensures
        ({
            let there = redis_cache::next_task(
                purpose,
                TaskPhaseView::Checking,
                TaskInput::Checked(true),
            );
            let found = redis_cache::next_task(purpose, there.phase, TaskInput::Searched(reply));
            let s = compared(purpose, reply, near);
            &&& found.action == TaskActionView::Compare(r.score->0)
            &&& purpose == Purpose::Lookup ==> s.action == TaskActionView::Give(
                match near {
                    Some(similarity_bits) => Some(
                        CachedView {
                            response_body: r.response->0,
                            model: r.model,
                            tokens_saved: r.tokens_saved,
                            similarity_bits,
                        },
                    ),
                    None => None,
                },
            )
            &&& purpose == Purpose::Store ==> s.action == if near is Some {
                TaskActionView::Skip
            } else {
                TaskActionView::Write
            }
            &&& s.phase == TaskPhaseView::Done
        }),
{
}

/// Where a search fails or finds no entry, a lookup gives nothing out, and a
/// store writes.
pub proof fn without_entries_stores_write(purpose: Purpose, reply: Option<Reply>)
    requires
        reply is None || redis_cache::found_in(reply->0) is None || (redis_cache::found_in(
            reply->0,
        )->0.score is None) || (redis_cache::found_in(reply->0)->0.response is None),
    ensures
        ({
            let there = redis_cache::next_task(
                purpose,
                TaskPhaseView::Checking,
                TaskInput::Checked(true),
            );
            let s = redis_cache::next_task(purpose, there.phase, TaskInput::Searched(reply));
            &&& purpose == Purpose::Lookup ==> s.action == TaskActionView::Give(None)
            &&& purpose == Purpose::Store ==> s.action == TaskActionView::Write
            &&& s.phase == TaskPhaseView::Done
        }),
{
}

} // verus!
