//! What the dashboard counts, and what its keys do.
use vstd::prelude::*;
use vstd::string::*;

use crate::metrics::{EventView, ToolCallStatus, ToolCallView};
use crate::text;
use crate::tui;
use crate::tui::ui;
use crate::tui::{AppView, EntryView, Key, TuiCommand, UpdateView};

verus! {

// ---------------------------------------------------------------------------
// Keys
// ---------------------------------------------------------------------------
/// `q` quits, `p` pauses or goes on, `a` switches the flush of an idle cache,
/// and `f` flushes the cache. None of them changes anything else.
pub proof fn keys_do_one_thing(app: AppView, key: Key)
    ensures
        tui::after_key(app, Key::Char('q')) == (AppView { should_quit: true, ..app }),
        tui::after_key(app, Key::Char('p')) == (AppView { paused: !app.paused, ..app }),
        tui::after_key(app, Key::Char('a')) == (AppView {
            auto_flush_enabled: !app.auto_flush_enabled,
            ..app
        }),
        tui::after_key(app, Key::Char('f')) == app,
        tui::key_command(key) == Some(TuiCommand::FlushCache) <==> key == Key::Char('f'),
        key != Key::Char('q') && key != Key::Char('p') && key != Key::Char('r') && key != Key::Char(
            'a',
        ) && key != Key::Up && key != Key::Down ==> tui::after_key(app, key) == app,
{
}

/// `Up` and `Down` go by one request, and no further than to the first and the
/// last one. Up undoes down, unless down came to the end.
pub proof fn scrolling_stays_in_the_log(app: AppView)
    ensures
        ({
            let up = tui::after_key(app, Key::Up);
            let down = tui::after_key(app, Key::Down);
            &&& app.log_scroll > 0 ==> up.log_scroll == app.log_scroll - 1
            &&& app.log_scroll == 0 ==> up == app
            &&& app.log_scroll + 1 < app.log.len() ==> down.log_scroll == app.log_scroll + 1
            &&& app.log_scroll + 1 >= app.log.len() ==> down == app
            &&& up.log == app.log && down.log == app.log
            &&& up.stats == app.stats && down.stats == app.stats
            &&& down != app ==> tui::after_key(down, Key::Up) == app
        }),
{
}

/// `r` forgets all requests, what was counted of them, and the last error. The
/// settings stay.
pub proof fn resetting_starts_anew(app: AppView)
    ensures
        ({
            let after = tui::after_key(app, Key::Char('r'));
            &&& after.stats.total_requests == 0 && after.stats.total_tokens_original == 0
            &&& after.stats.total_tokens_compressed == 0 && after.stats.cache_hits == 0
            &&& after.stats.cache_misses == 0 && after.stats.cache_tokens_saved == 0
            &&& after.log.len() == 0 && after.log_scroll == 0
            &&& after.last_request is None && after.last_error is None
            &&& after.breakdown.len() == 0
            &&& after.originals.len() == 0 && after.compressed.len() == 0
            &&& after.should_quit == app.should_quit && after.paused == app.paused
            &&& after.auto_flush_enabled == app.auto_flush_enabled
            &&& after.upstream_url == app.upstream_url && after.listen_addr == app.listen_addr
            &&& after.last_request_time == app.last_request_time
            &&& after.idle_flush_sent == app.idle_flush_sent
        }),
{
}

// ---------------------------------------------------------------------------
// Requests
// ---------------------------------------------------------------------------
/// Every request counts once. A hit counts as a hit, and all of its tokens as
/// saved by the cache. Any other adds its tokens, before and after, and one that
/// was looked up in vain counts as a miss.
pub proof fn every_request_counts_once(app: AppView, u: UpdateView, now: u128)
    requires
        !app.paused,
        tui::room_for(app.stats, u),
    ensures
        ({
            let a = app.stats;
            let b = tui::after_update(app, u, now).stats;
            let hit = u.cache_status is Hit;
            let miss = u.cache_status is Miss;
            &&& b.total_requests == a.total_requests + 1
            &&& b.cache_hits == a.cache_hits + (if hit {
                1int
            } else {
                0
            })
            &&& b.cache_misses == a.cache_misses + (if miss {
                1int
            } else {
                0
            })
            &&& b.cache_tokens_saved == a.cache_tokens_saved + (if hit {
                u.tokens_original as int
            } else {
                0
            })
            &&& b.total_tokens_original == a.total_tokens_original + (if hit {
                0
            } else {
                u.tokens_original as int
            })
            &&& b.total_tokens_compressed == a.total_tokens_compressed + (if hit {
                0
            } else {
                u.tokens_compressed as int
            })
        }),
{
}

/// A request stands in the log with its number, its tokens, how the cache took
/// part and its error. It is the last request, and its error the last one. The
/// last eight requests come into view, and the wait for the next begins.
pub proof fn requests_are_logged(app: AppView, u: UpdateView, now: u128)
    requires
        !app.paused,
        tui::room_for(app.stats, u),
    ensures
        ({
            let after = tui::after_update(app, u, now);
            &&& after.log.len() == app.log.len() + 1
            &&& after.log.last() == (EntryView {
                request_number: (app.stats.total_requests + 1) as nat,
                tokens_original: u.tokens_original,
                tokens_compressed: u.tokens_compressed,
                cache_status: u.cache_status,
                error_status: u.error_status,
            })
            &&& after.last_request == Some(u)
            &&& after.last_request_time == Some(now)
            &&& !after.idle_flush_sent
            &&& after.scroll_offset == 0
            &&& u.error_status matches Some(e) ==> after.last_error == Some((e.0, e.1, now))
            &&& u.error_status is None ==> after.last_error == app.last_error
            &&& after.log.len() > 8 ==> after.log_scroll + 8 == after.log.len()
            &&& after.log.len() <= 8 ==> after.log_scroll == app.log_scroll
            &&& after.paused == app.paused && after.should_quit == app.should_quit
            &&& after.auto_flush_enabled == app.auto_flush_enabled
        }),
        tui::after_update(AppView { paused: true, ..app }, u, now) == (AppView {
            paused: true,
            ..app
        }),
{
}

/// The sparklines show the tokens of the last sixty requests, before and after.
pub proof fn sparklines_show_sixty_requests(app: AppView, u: UpdateView, now: u128)
    requires
        !app.paused,
        app.originals.len() <= 60,
        app.compressed.len() <= 60,
        u.tokens_original <= u64::MAX,
        u.tokens_compressed <= u64::MAX,
    ensures
        ({
            let after = tui::after_update(app, u, now);
            &&& after.originals.len() <= 60 && after.compressed.len() <= 60
            &&& after.originals.last() == u.tokens_original
            &&& after.compressed.last() == u.tokens_compressed
            &&& app.originals.len() < 60 ==> after.originals.drop_last() == app.originals
            &&& app.originals.len() == 60 ==> after.originals.drop_last() == app.originals.skip(1)
            &&& app.compressed.len() < 60 ==> after.compressed.drop_last() == app.compressed
            &&& app.compressed.len() == 60 ==> after.compressed.drop_last() == app.compressed.skip(
                1,
            )
        }),
{
    let after = tui::after_update(app, u, now);
    if app.originals.len() < 60 {
        assert(after.originals.drop_last() =~= app.originals);
    } else {
        assert(after.originals.drop_last() =~= app.originals.skip(1));
    }
    if app.compressed.len() < 60 {
        assert(after.compressed.drop_last() =~= app.compressed);
    } else {
        assert(after.compressed.drop_last() =~= app.compressed.skip(1));
    }
}

/// What a stage took away is the sum of what its events say; those of other
/// stages do not count for it.
pub proof fn events_count_for_their_stage(
    events: Seq<EventView>,
    e: EventView,
    name: Seq<char>,
)
    ensures
        tui::stage_total(Seq::empty(), name) == 0,
        tui::stage_total(events.push(e), name) == tui::stage_total(events, name) + (if e.stage
            == name && e.before > e.after {
            e.before - e.after
        } else {
            0
        }),
{
    assert(events.push(e).drop_last() =~= events);
}

/// The breakdown shows the eight stages in the order in which they run, each
/// with what it took away of the last request.
pub proof fn the_breakdown_shows_every_stage(app: AppView, u: UpdateView, now: u128)
    requires
        !app.paused,
    ensures
        ({
            let b = tui::after_update(app, u, now).breakdown;
            &&& b.len() == 8
            &&& b[0] == ("A_dedup"@, tui::stage_total(u.events, "A_dedup"@))
            &&& b[1] == ("B1_docstrings"@, tui::stage_total(u.events, "B1_docstrings"@))
            &&& b[2] == ("B2_comments"@, tui::stage_total(u.events, "B2_comments"@))
            &&& b[3] == ("B3_whitespace"@, tui::stage_total(u.events, "B3_whitespace"@))
            &&& b[4] == ("B4_stacktrace"@, tui::stage_total(u.events, "B4_stacktrace"@))
            &&& b[5] == ("B5_dedup_blocks"@, tui::stage_total(u.events, "B5_dedup_blocks"@))
            &&& b[6] == ("C_ast"@, tui::stage_total(u.events, "C_ast"@))
            &&& b[7] == ("D_semantic"@, tui::stage_total(u.events, "D_semantic"@))
        }),
{
    let names = tui::stage_names();
    assert(names[0] == "A_dedup"@ && names[1] == "B1_docstrings"@ && names[2] == "B2_comments"@
        && names[3] == "B3_whitespace"@ && names[4] == "B4_stacktrace"@ && names[5]
        == "B5_dedup_blocks"@ && names[6] == "C_ast"@ && names[7] == "D_semantic"@);
}

/// The cache is flushed when there was no request for more than two minutes,
/// where that is switched on and has not been done since the last request.
pub proof fn idle_caches_are_flushed(app: AppView, now: u128)
    ensures
        tui::flush_due(app, now) <==> {
            &&& app.auto_flush_enabled
            &&& !app.idle_flush_sent
            &&& app.last_request_time matches Some(last) && now > last + 120_000_000_000
        },
{
}

// ---------------------------------------------------------------------------
// What is shown
// ---------------------------------------------------------------------------
/// Large numbers have a comma before each three digits from the right.
pub proof fn commas_stand_before_three_digits(n: nat)
    ensures
        n < 1000 ==> ui::grouped(n) == text::decimal(n),
        n >= 1000 ==> {
            let t = ui::grouped(n);
            &&& t.len() > 4
            &&& t[t.len() - 4] == ','
            &&& t.take(t.len() - 4) == ui::grouped(n / 1000)
            &&& t.skip(t.len() - 3) == text::decimal((n / 100) % 10) + text::decimal((n / 10) % 10)
                + text::decimal(n % 10)
        },
    decreases n,
{
    if n >= 1000 {
        let t = ui::grouped(n);
        let head = ui::grouped(n / 1000);
        let rest = n % 1000;
        let tail = ui::three_digits(rest);
        lemma_some_digits(n / 1000);
        assert(t == head.push(',') + tail);
        assert(t.take(t.len() - 4) =~= head);
        assert(t.skip(t.len() - 3) =~= tail);
        lemma_last_digits(n);
        lemma_one_digit((n / 100) % 10);
        lemma_one_digit((n / 10) % 10);
        lemma_one_digit(n % 10);
        assert(tail =~= text::decimal((n / 100) % 10) + text::decimal((n / 10) % 10)
            + text::decimal(n % 10));
    }
}

proof fn lemma_last_digits(n: nat)
    ensures
        (n % 1000) / 100 == (n / 100) % 10,
        ((n % 1000) / 10) % 10 == (n / 10) % 10,
        (n % 1000) % 10 == n % 10,
{
    let q = n / 1000;
    let r = n % 1000;
    assert(n == 1000 * q + r);
    assert(n / 10 == 100 * q + r / 10);
    assert(n / 100 == 10 * q + r / 100);
}

proof fn lemma_one_digit(d: nat)
    requires
        d < 10,
    ensures
        text::decimal(d) == seq![text::digit(d)],
{
}

proof fn lemma_some_digits(n: nat)
    ensures
        ui::grouped(n).len() > 0,
        text::decimal(n).len() > 0,
    decreases n,
{
    if n >= 10 {
        lemma_some_digits(n / 10);
    }
    if n >= 1000 {
        lemma_some_digits(n / 1000);
    }
}

/// Every stage has a name of its own for the user; a stage that is not known is
/// shown as it is.
pub proof fn stages_have_names_of_their_own(other: Seq<char>)
    ensures
        ui::friendly("A_dedup"@) == "Deduplication"@,
        ui::friendly("B1_docstrings"@) == "Docstrings"@,
        ui::friendly("B2_comments"@) == "Comments"@,
        ui::friendly("B3_whitespace"@) == "Whitespace"@,
        ui::friendly("B4_stacktrace"@) == "Stack Traces"@,
        ui::friendly("B5_dedup_blocks"@) == "Block Dedup"@,
        ui::friendly("C_ast"@) == "AST Pruning"@,
        ui::friendly("D_semantic"@) == "Semantic"@,
        !tui::stage_names().contains(other) ==> ui::friendly(other) == other,
{
    reveal_strlit("A_dedup");
    reveal_strlit("B1_docstrings");
    reveal_strlit("B2_comments");
    reveal_strlit("B3_whitespace");
    reveal_strlit("B4_stacktrace");
    reveal_strlit("B5_dedup_blocks");
    reveal_strlit("C_ast");
    reveal_strlit("D_semantic");
    assert("A_dedup"@[0] == 'A' && "C_ast"@[0] == 'C' && "D_semantic"@[0] == 'D'
        && "B1_docstrings"@[0] == 'B' && "B2_comments"@[0] == 'B' && "B3_whitespace"@[0] == 'B'
        && "B4_stacktrace"@[0] == 'B' && "B5_dedup_blocks"@[0] == 'B');
    assert("B1_docstrings"@[1] == '1' && "B2_comments"@[1] == '2' && "B3_whitespace"@[1] == '3'
        && "B4_stacktrace"@[1] == '4' && "B5_dedup_blocks"@[1] == '5');
    let names = tui::stage_names();
    assert(names[0] == "A_dedup"@ && names[1] == "B1_docstrings"@ && names[2] == "B2_comments"@
        && names[3] == "B3_whitespace"@ && names[4] == "B4_stacktrace"@ && names[5]
        == "B5_dedup_blocks"@ && names[6] == "C_ast"@ && names[7] == "D_semantic"@);
}

/// What compression and the cache saved is shown together; each token counts
/// once.
pub proof fn savings_are_shown_together(app: AppView)
    ensures
        app.stats.total_tokens_compressed <= app.stats.total_tokens_original ==> ui::total_saved(
            app.stats,
        ) == app.stats.total_tokens_original - app.stats.total_tokens_compressed
            + app.stats.cache_tokens_saved,
        app.stats.total_tokens_compressed >= app.stats.total_tokens_original ==> ui::total_saved(
            app.stats,
        ) == app.stats.cache_tokens_saved,
{
}

/// The scale is one of the values, or the least that it can be: it is no larger
/// than it has to be.
pub proof fn scales_are_no_larger_than_needed(values: Seq<nat>, least: nat)
    ensures
        ui::largest(values, least) == least || values.contains(ui::largest(values, least)),
    decreases values.len(),
{
    if values.len() > 0 {
        let less = values.drop_last();
        scales_are_no_larger_than_needed(less, least);
        let before = ui::largest(less, least);
        if values.last() > before {
            assert(values[values.len() - 1] == values.last());
        } else if before != least {
            let k = choose|k: int| 0 <= k < less.len() && less[k] == before;
            assert(values[k] == before);
        }
    }
}

/// The welcome is shown until there is a request, and tool calls where the last
/// request has any.
pub proof fn panels_follow_the_requests(app: AppView, u: UpdateView, now: u128)
    requires
        !app.paused,
        tui::room_for(app.stats, u),
    ensures
        app.stats.total_requests == 0 && app.last_request is None ==> ui::welcomes(app),
        !ui::welcomes(tui::after_update(app, u, now)),
        ui::lists_tool_calls(tui::after_update(app, u, now)) <==> u.tool_calls.len() > 0,
{
}

/// A line of the log shows the number of the request, how the cache took part,
/// its tokens before and after, and the error of the server, if there was one.
pub proof fn log_lines_show_requests(e: EntryView)
    ensures
        ({
            let l = ui::log_line_of(e);
            let counts = ui::grouped(e.tokens_original) + " → "@ + ui::grouped(
                e.tokens_compressed,
            );
            &&& l.label == "#"@ + text::decimal(e.request_number)
            &&& e.cache_status is Hit ==> l.value == "HIT"@
            &&& e.cache_status is Miss ==> l.value == "MISS"@
            &&& e.cache_status is Skipped ==> l.value == "SKIPPED"@
            &&& e.error_status is None ==> l.remark == counts
            &&& e.error_status matches Some(error) ==> l.remark == counts + (" error "@
                + text::decimal(error.0 as nat))
        }),
{
    let counts = ui::grouped(e.tokens_original) + " → "@ + ui::grouped(e.tokens_compressed);
    assert(counts + Seq::<char>::empty() =~= counts);
}

/// The last request shows how it fared: a hit saves everything and skips the
/// server; any other shows its tokens before and after, and how long it took.
pub proof fn request_lines_show_how_it_fared(
    u: UpdateView,
    percent: Seq<char>,
    similarity: Seq<char>,
)
    ensures
        ({
            let l = ui::request_lines(u, percent, similarity);
            &&& l[0].label == "Status"@ && l[1].label == "Tokens"@
            &&& u.cache_status is Hit ==> {
                &&& l.len() == 3
                &&& l[0].value == "CACHE HIT ("@ + similarity + ")"@
                &&& l[1].value == ui::grouped(u.tokens_original)
                &&& l[1].remark == " (100% saved)"@
                &&& l[2].label == "Upstream"@ && l[2].value == "skipped"@
            }
            &&& !(u.cache_status is Hit) ==> {
                &&& l.len() == 4
                &&& u.cache_status is Miss ==> l[0].value == "FORWARDED"@
                &&& u.cache_status is Skipped ==> l[0].value == "SKIPPED"@
                &&& l[1].value == ui::grouped(u.tokens_original) + " → "@ + ui::grouped(
                    u.tokens_compressed,
                )
                &&& l[1].remark == " ("@ + percent + "% saved)"@
                &&& l[2].label == "Pipeline"@ && l[2].value == text::decimal(
                    u.pipeline_millis as nat,
                ) + "ms"@
                &&& l[3].label == "Upstream"@
                &&& u.upstream_millis matches Some(n) ==> l[3].value == text::decimal(n as nat)
                    + "ms"@
            }
        }),
{
}

/// A line of a tool call shows what became of its result, the tool, and the
/// tokens saved.
pub proof fn call_lines_show_tool_calls(c: ToolCallView)
    ensures
        ({
            let l = ui::call_line(c);
            &&& c.status == ToolCallStatus::Kept ==> l.label == " KEPT "@
            &&& c.status == ToolCallStatus::Deduped ==> l.label == " DEDUPED "@
            &&& text::contains_text(l.value, c.name)
            &&& text::contains_text(l.remark, text::decimal(c.saved))
        }),
{
    let l = ui::call_line(c);
    reveal_strlit(" ");
    reveal_strlit("  -");
    assert(l.value.subrange(1, (1 + c.name.len()) as int) =~= c.name);
    assert(text::has_at(l.value, c.name, 1));
    let n = text::decimal(c.saved);
    assert(l.remark.subrange(3, (3 + n.len()) as int) =~= n);
    assert(text::has_at(l.remark, n, 3));
}

/// The last error is shown with its status, its message, and the whole seconds
/// that have passed since.
pub proof fn errors_are_shown_with_their_age(
    status: u16,
    message: Seq<char>,
    since: nat,
    now: nat,
)
    requires
        since <= now,
    ensures
        ui::error_line_of(status, message, since, now) == "Error "@ + text::decimal(status as nat)
            + ": "@ + message + " ("@ + text::decimal(((now - since) / 1_000_000_000) as nat)
            + "s ago)"@,
{
    if since == now {
        assert((now - since) / 1_000_000_000 == 0);
    }
}

/// A session is summed up by its requests, its tokens before and after, and how
/// much compression took away on average.
pub proof fn summaries_show_the_totals(app: AppView, average: Seq<char>)
    ensures
        ({
            let l = ui::summary(app.stats, average);
            &&& l.len() == 4
            &&& l[0].label == "Requests"@ && l[0].value == ui::grouped(
                app.stats.total_requests as nat,
            )
            &&& l[1].label == "Tokens in"@ && l[1].value == ui::grouped(
                app.stats.total_tokens_original as nat,
            )
            &&& l[2].label == "Tokens out"@ && l[2].value == ui::grouped(
                app.stats.total_tokens_compressed as nat,
            )
            &&& l[3].label == "Avg compress"@ && l[3].value == average + "%"@
        }),
{
}

} // verus!
