//! What the dashboard shows.
use vstd::prelude::*;
use vstd::string::*;

use crate::metrics;
use crate::metrics::{CacheStatus, SessionStats, ToolCallInfo, ToolCallStatus, ToolCallView};
use crate::text;
use crate::tui::{
    AppView, EntryView, ProxyUpdate, RequestEntry, TuiApp, UpdateView, VISIBLE_ROWS,
};

verus! {

// ---------------------------------------------------------------------------
// Names and numbers
// ---------------------------------------------------------------------------
/// The name of a stage as it is shown. One that is not known is shown as it
/// is.
pub open spec fn friendly(raw: Seq<char>) -> Seq<char> {
    if raw == "A_dedup"@ {
        "Deduplication"@
    } else if raw == "B1_docstrings"@ {
        "Docstrings"@
    } else if raw == "B2_comments"@ {
        "Comments"@
    } else if raw == "B3_whitespace"@ {
        "Whitespace"@
    } else if raw == "B4_stacktrace"@ {
        "Stack Traces"@
    } else if raw == "B5_dedup_blocks"@ {
        "Block Dedup"@
    } else if raw == "C_ast"@ {
        "AST Pruning"@
    } else if raw == "D_semantic"@ {
        "Semantic"@
    } else {
        raw
    }
}

/// The name of a stage as it is shown.
pub fn friendly_stage_name(raw: &str) -> (r: String)
    ensures
        r@ == friendly(raw@),
{
    let shown = if text::same_text(raw, "A_dedup") {
        "Deduplication"
    } else if text::same_text(raw, "B1_docstrings") {
        "Docstrings"
    } else if text::same_text(raw, "B2_comments") {
        "Comments"
    } else if text::same_text(raw, "B3_whitespace") {
        "Whitespace"
    } else if text::same_text(raw, "B4_stacktrace") {
        "Stack Traces"
    } else if text::same_text(raw, "B5_dedup_blocks") {
        "Block Dedup"
    } else if text::same_text(raw, "C_ast") {
        "AST Pruning"
    } else if text::same_text(raw, "D_semantic") {
        "Semantic"
    } else {
        raw
    };
    text::owned(shown)
}

/// The three digits of a number below 1000.
pub open spec fn three_digits(n: nat) -> Seq<char> {
    seq![text::digit(n / 100), text::digit((n / 10) % 10), text::digit(n % 10)]
}

/// A number with a comma between each three digits.
pub open spec fn grouped(n: nat) -> Seq<char>
    decreases n,
{
    if n < 1000 {
        text::decimal(n)
    } else {
        grouped(n / 1000).push(',') + three_digits(n % 1000)
    }
}

fn digit_of(d: u64) -> (r: char)
    requires
        d < 10,
    ensures
        r == text::digit(d as nat),
{
    let chars = text::decimal_chars(d);
    chars[0]
}

fn group(n: u64) -> (r: Vec<char>)
    ensures
        r@ == grouped(n as nat),
    decreases n,
{
    if n < 1000 {
        text::decimal_chars(n)
    } else {
        let mut out = group(n / 1000);
        let rest = n % 1000;
        out.push(',');
        out.push(digit_of(rest / 100));
        out.push(digit_of((rest / 10) % 10));
        out.push(digit_of(rest % 10));
        assert(out@ =~= grouped(n as nat));
        out
    }
}

/// A number with a comma between each three digits.
pub fn format_number(n: u64) -> (r: String)
    ensures
        r@ == grouped(n as nat),
{
    let chars = group(n);
    text::text_of(chars.as_slice())
}

/// A text without its commas.
pub open spec fn without_commas(t: Seq<char>) -> Seq<char> {
    t.filter(|c: char| c != ',')
}

proof fn lemma_decimal_has_no_commas(n: nat)
    ensures
        forall|i: int| 0 <= i < text::decimal(n).len() ==> text::decimal(n)[i] != ',',
    decreases n,
{
    let t = text::decimal(n);
    if n >= 10 {
        lemma_decimal_has_no_commas(n / 10);
        let head = text::decimal(n / 10);
        assert forall|i: int| 0 <= i < t.len() implies t[i] != ',' by {
            if i < head.len() {
                assert(t[i] == head[i]);
            } else {
                assert(t[i] == text::digit(n % 10));
            }
        }
    }
}

proof fn lemma_nothing_filtered(t: Seq<char>)
    requires
        forall|i: int| 0 <= i < t.len() ==> t[i] != ',',
    ensures
        without_commas(t) == t,
    decreases t.len(),
{
    reveal(Seq::filter);
    if t.len() > 0 {
        lemma_nothing_filtered(t.drop_last());
        assert(t.drop_last().push(t.last()) =~= t);
    }
}

/// The commas are all that is added to a number.
pub proof fn formatting_adds_commas_only(n: nat)
    ensures
        without_commas(grouped(n)) == text::decimal(n),
    decreases n,
{
    if n < 1000 {
        lemma_decimal_has_no_commas(n);
        lemma_nothing_filtered(text::decimal(n));
    } else {
        formatting_adds_commas_only(n / 1000);
        let rest = n % 1000;
        let head = grouped(n / 1000);
        let tail = three_digits(rest);
        let keep = |c: char| c != ',';
        reveal(Seq::filter);
        assert(head.push(',').drop_last() =~= head);
        assert(without_commas(head.push(',')) == without_commas(head));
        Seq::filter_distributes_over_add(head.push(','), tail, keep);
        lemma_nothing_filtered(tail);
        let t1 = text::decimal(n / 1000);
        assert(text::decimal(n) =~= text::decimal(n / 10).push(text::digit(n % 10)));
        assert(text::decimal(n / 10) =~= text::decimal((n / 10) / 10).push(
            text::digit((n / 10) % 10),
        ));
        assert((n / 10) / 10 == n / 100);
        assert(text::decimal(n / 100) =~= text::decimal((n / 100) / 10).push(
            text::digit((n / 100) % 10),
        ));
        assert((n / 100) / 10 == n / 1000);
        assert(rest % 10 == n % 10);
        assert((rest / 10) % 10 == (n / 10) % 10);
        assert(rest / 100 == (n / 100) % 10);
        assert(t1 + tail =~= text::decimal(n));
    }
}

// ---------------------------------------------------------------------------
// Which panels are shown
// ---------------------------------------------------------------------------
/// There has been no request: the dashboard welcomes the user.
pub open spec fn welcomes(app: AppView) -> bool {
    app.stats.total_requests == 0 && app.last_request is None
}

/// Whether the dashboard welcomes the user.
pub fn shows_welcome(app: &TuiApp) -> (r: bool)
    ensures
        r == welcomes(app@),
{
    app.stats.total_requests == 0 && app.last_request.is_none()
}

/// The last request has tool calls: they are shown in place of the totals.
pub open spec fn lists_tool_calls(app: AppView) -> bool {
    app.last_request matches Some(u) && u.tool_calls.len() > 0
}

/// Whether the tool calls of the last request are shown.
pub fn shows_tool_calls(app: &TuiApp) -> (r: bool)
    ensures
        r == lists_tool_calls(app@),
{
    match &app.last_request {
        Some(u) => u.tool_calls.len() > 0,
        None => false,
    }
}

/// The dots behind the welcome, from none to three.
pub open spec fn dots(tick: nat) -> Seq<char> {
    Seq::new((tick / 3) % 4, |i: int| '.')
}

/// The dots behind the welcome.
pub fn waiting_dots(tick: u64) -> (r: String)
    ensures
        r@ == dots(tick as nat),
{
    let n = (tick / 3) % 4;
    let mut out: Vec<char> = Vec::new();
    let mut i: u64 = 0;
    while i < n
        invariant
            i <= n,
            out@ == Seq::new(i as nat, |k: int| '.'),
        decreases n - i,
    {
        out.push('.');
        i += 1;
        assert(out@ =~= Seq::new(i as nat, |k: int| '.'));
    }
    text::text_of(out.as_slice())
}

/// The icon and the word for what the dashboard does.
pub fn header_status(paused: bool) -> (r: (String, String))
    ensures
        r.0@ == if paused {
            "⏸"@
        } else {
            "●"@
        },
        r.1@ == if paused {
            "PAUSED"@
        } else {
            "LIVE"@
        },
{
    if paused {
        (text::owned("⏸"), text::owned("PAUSED"))
    } else {
        (text::owned("●"), text::owned("LIVE"))
    }
}

// ---------------------------------------------------------------------------
// Totals
// ---------------------------------------------------------------------------
/// The tokens that compression and the cache saved together.
pub open spec fn total_saved(stats: SessionStats) -> nat {
    metrics::saved(
        stats.total_tokens_original as nat,
        stats.total_tokens_compressed as nat,
    ) + stats.cache_tokens_saved as nat
}

/// The tokens that compression and the cache saved together.
pub fn all_tokens_saved(stats: &SessionStats) -> (r: u64)
    requires
        total_saved(*stats) <= u64::MAX,
    ensures
        r == total_saved(*stats),
{
    stats.tokens_saved() + stats.cache_tokens_saved
}

/// The line below the savings: what compression saved, what the cache saved,
/// and how often it was hit, the latter as a text.
pub fn savings_line(stats: &SessionStats, hit_rate: &str) -> (r: String)
    ensures
        r@ == "Compression: "@ + grouped(
            metrics::saved(
                stats.total_tokens_original as nat,
                stats.total_tokens_compressed as nat,
            ),
        ) + " │ Cache: "@ + grouped(stats.cache_tokens_saved as nat) + " ("@ + hit_rate@
            + "% hit rate)"@,
{
    let mut out = text::chars_of("Compression: ");
    let compression = group(stats.tokens_saved());
    text::append_chars(&mut out, compression.as_slice());
    text::append_str(&mut out, " │ Cache: ");
    let cache = group(stats.cache_tokens_saved);
    text::append_chars(&mut out, cache.as_slice());
    text::append_str(&mut out, " (");
    text::append_str(&mut out, hit_rate);
    text::append_str(&mut out, "% hit rate)");
    text::text_of(out.as_slice())
}

/// A line of a panel: what it is about, what it says, and a remark.
pub struct PanelLine {
    pub label: String,
    pub value: String,
    pub remark: String,
}

/// What a line of a panel is.
pub struct LineView {
    pub label: Seq<char>,
    pub value: Seq<char>,
    pub remark: Seq<char>,
}

impl View for PanelLine {
    type V = LineView;

    open spec fn view(&self) -> LineView {
        LineView { label: self.label@, value: self.value@, remark: self.remark@ }
    }
}

pub open spec fn line_views(lines: Seq<PanelLine>) -> Seq<LineView> {
    lines.map_values(|l: PanelLine| l@)
}

fn panel_line(label: &str, value: String, remark: String) -> (r: PanelLine)
    ensures
        r@ == (LineView { label: label@, value: value@, remark: remark@ }),
{
    PanelLine { label: text::owned(label), value, remark }
}

/// The lines of the summary of a session. The average compression is given as
/// a text.
pub open spec fn summary(stats: SessionStats, average: Seq<char>) -> Seq<LineView> {
    seq![
        LineView {
            label: "Requests"@,
            value: grouped(stats.total_requests as nat),
            remark: Seq::empty(),
        },
        LineView {
            label: "Tokens in"@,
            value: grouped(stats.total_tokens_original as nat),
            remark: Seq::empty(),
        },
        LineView {
            label: "Tokens out"@,
            value: grouped(stats.total_tokens_compressed as nat),
            remark: Seq::empty(),
        },
        LineView { label: "Avg compress"@, value: average + "%"@, remark: Seq::empty() },
    ]
}

/// The lines of the summary of a session.
pub fn session_summary(stats: &SessionStats, average: &str) -> (r: Vec<PanelLine>)
    ensures
        line_views(r@) == summary(*stats, average@),
{
    let mut percent = text::chars_of(average);
    text::append_str(&mut percent, "%");
    let lines = vec![
        panel_line("Requests", format_number(stats.total_requests), String::new()),
        panel_line("Tokens in", format_number(stats.total_tokens_original), String::new()),
        panel_line("Tokens out", format_number(stats.total_tokens_compressed), String::new()),
        panel_line("Avg compress", text::text_of(percent.as_slice()), String::new()),
    ];
    assert(line_views(lines@) =~= summary(*stats, average@));
    lines
}

/// How many lookups hit the cache, of how many.
pub fn cache_fraction(stats: &SessionStats) -> (r: String)
    requires
        stats.cache_hits + stats.cache_misses <= u64::MAX,
    ensures
        r@ == "("@ + text::decimal(stats.cache_hits as nat) + "/"@ + text::decimal(
            (stats.cache_hits + stats.cache_misses) as nat,
        ) + ")"@,
{
    let mut out = text::chars_of("(");
    let hits = text::decimal_chars(stats.cache_hits);
    text::append_chars(&mut out, hits.as_slice());
    text::append_str(&mut out, "/");
    let all = text::decimal_chars(stats.cache_hits + stats.cache_misses);
    text::append_chars(&mut out, all.as_slice());
    text::append_str(&mut out, ")");
    text::text_of(out.as_slice())
}

// ---------------------------------------------------------------------------
// The last request
// ---------------------------------------------------------------------------
/// The word for how the cache took part in a request. The similarity of a hit
/// is given as a text.
pub open spec fn status_word(status: CacheStatus, similarity: Seq<char>) -> Seq<char> {
    match status {
        CacheStatus::Hit { .. } => "CACHE HIT ("@ + similarity + ")"@,
        CacheStatus::Miss => "FORWARDED"@,
        CacheStatus::Skipped => "SKIPPED"@,
    }
}

pub open spec fn millis_text(n: nat) -> Seq<char> {
    text::decimal(n) + "ms"@
}

/// The lines of the last request: a cache hit saves everything and skips the
/// server. The tokens saved, in percent, and the similarity are given as texts.
pub open spec fn request_lines(u: UpdateView, percent: Seq<char>, similarity: Seq<char>) -> Seq<
    LineView,
> {
    let status = LineView {
        label: "Status"@,
        value: status_word(u.cache_status, similarity),
        remark: Seq::empty(),
    };
    if u.cache_status is Hit {
        seq![
            status,
            LineView {
                label: "Tokens"@,
                value: grouped(u.tokens_original),
                remark: " (100% saved)"@,
            },
            LineView { label: "Upstream"@, value: "skipped"@, remark: Seq::empty() },
        ]
    } else {
        seq![
            status,
            LineView {
                label: "Tokens"@,
                value: grouped(u.tokens_original) + " → "@ + grouped(u.tokens_compressed),
                remark: " ("@ + percent + "% saved)"@,
            },
            LineView {
                label: "Pipeline"@,
                value: millis_text(u.pipeline_millis as nat),
                remark: Seq::empty(),
            },
            LineView {
                label: "Upstream"@,
                value: millis_text(
                    match u.upstream_millis {
                        Some(n) => n as nat,
                        None => 0,
                    },
                ),
                remark: Seq::empty(),
            },
        ]
    }
}

fn status_text(status: &CacheStatus, similarity: &str) -> (r: String)
    ensures
        r@ == status_word(*status, similarity@),
{
    match status {
        CacheStatus::Hit { .. } => {
            let mut out = text::chars_of("CACHE HIT (");
            text::append_str(&mut out, similarity);
            text::append_str(&mut out, ")");
            text::text_of(out.as_slice())
        },
        CacheStatus::Miss => text::owned("FORWARDED"),
        CacheStatus::Skipped => text::owned("SKIPPED"),
    }
}

/// The decimal digits of a number.
fn wide_chars(n: u128) -> (r: Vec<char>)
    ensures
        r@ == text::decimal(n as nat),
    decreases n,
{
    if n < 10 {
        text::decimal_chars(n as u64)
    } else {
        let mut out = wide_chars(n / 10);
        out.push(digit_of((n % 10) as u64));
        out
    }
}

fn millis(n: u128) -> (r: String)
    ensures
        r@ == millis_text(n as nat),
{
    let mut out = wide_chars(n);
    text::append_str(&mut out, "ms");
    text::text_of(out.as_slice())
}

/// The lines of the last request.
pub fn last_request_lines(u: &ProxyUpdate, percent: &str, similarity: &str) -> (r: Vec<PanelLine>)
    ensures
        line_views(r@) == request_lines(u@, percent@, similarity@),
{
    let status = panel_line("Status", status_text(&u.cache_status, similarity), String::new());
    let hit = match u.cache_status {
        CacheStatus::Hit { .. } => true,
        _ => false,
    };
    if hit {
        let lines = vec![
            status,
            panel_line(
                "Tokens",
                format_number(u.tokens_original as u64),
                text::owned(" (100% saved)"),
            ),
            panel_line("Upstream", text::owned("skipped"), String::new()),
        ];
        assert(line_views(lines@) =~= request_lines(u@, percent@, similarity@));
        lines
    } else {
        let mut counts = group(u.tokens_original as u64);
        text::append_str(&mut counts, " → ");
        let left = group(u.tokens_compressed as u64);
        text::append_chars(&mut counts, left.as_slice());
        let mut saved = text::chars_of(" (");
        text::append_str(&mut saved, percent);
        text::append_str(&mut saved, "% saved)");
        let upstream: u128 = match u.upstream_millis {
            Some(n) => n,
            None => 0,
        };
        let lines = vec![
            status,
            panel_line(
                "Tokens",
                text::text_of(counts.as_slice()),
                text::text_of(saved.as_slice()),
            ),
            panel_line("Pipeline", millis(u.pipeline_millis), String::new()),
            panel_line("Upstream", millis(upstream), String::new()),
        ];
        assert(line_views(lines@) =~= request_lines(u@, percent@, similarity@));
        lines
    }
}

// ---------------------------------------------------------------------------
// The log
// ---------------------------------------------------------------------------
/// A request of the log as it is shown: its number, how the cache took part,
/// and its tokens, with the error of the server where there was one.
pub open spec fn log_line_of(e: EntryView) -> LineView {
    LineView {
        label: "#"@ + text::decimal(e.request_number),
        value: match e.cache_status {
            CacheStatus::Hit { .. } => "HIT"@,
            CacheStatus::Miss => "MISS"@,
            CacheStatus::Skipped => "SKIPPED"@,
        },
        remark: grouped(e.tokens_original) + " → "@ + grouped(e.tokens_compressed)
            + match e.error_status {
            Some(error) => " error "@ + text::decimal(error.0 as nat),
            None => Seq::empty(),
        },
    }
}

/// A request of the log as it is shown.
pub fn log_line(e: &RequestEntry) -> (r: PanelLine)
    ensures
        r@ == log_line_of(e@),
{
    let mut label = text::chars_of("#");
    let number = text::decimal_chars(e.request_number);
    text::append_chars(&mut label, number.as_slice());
    let value = match e.cache_status {
        CacheStatus::Hit { .. } => "HIT",
        CacheStatus::Miss => "MISS",
        CacheStatus::Skipped => "SKIPPED",
    };
    let mut remark = group(e.tokens_original as u64);
    text::append_str(&mut remark, " → ");
    let left = group(e.tokens_compressed as u64);
    text::append_chars(&mut remark, left.as_slice());
    match &e.error_status {
        Some(error) => {
            let mut said = text::chars_of(" error ");
            let code = text::decimal_chars(error.0 as u64);
            text::append_chars(&mut said, code.as_slice());
            text::append_chars(&mut remark, said.as_slice());
        },
        None => {},
    }
    let r = PanelLine {
        label: text::text_of(label.as_slice()),
        value: text::owned(value),
        remark: text::text_of(remark.as_slice()),
    };
    assert(r@.remark =~= log_line_of(e@).remark);
    r
}

/// The last error as it is shown: its status, its message, and how many
/// seconds ago it came.
pub open spec fn error_line_of(status: u16, message: Seq<char>, since: nat, now: nat) -> Seq<char> {
    "Error "@ + text::decimal(status as nat) + ": "@ + message + " ("@ + text::decimal(
        metrics::saved(now, since) / 1_000_000_000,
    ) + "s ago)"@
}

/// The last error as it is shown.
pub fn last_error_line(status: u16, message: &str, since: u128, now: u128) -> (r: String)
    ensures
        r@ == error_line_of(status, message@, since as nat, now as nat),
{
    let mut out = text::chars_of("Error ");
    let code = text::decimal_chars(status as u64);
    text::append_chars(&mut out, code.as_slice());
    text::append_str(&mut out, ": ");
    text::append_str(&mut out, message);
    text::append_str(&mut out, " (");
    let age = wide_chars(now.saturating_sub(since) / 1_000_000_000);
    text::append_chars(&mut out, age.as_slice());
    text::append_str(&mut out, "s ago)");
    text::text_of(out.as_slice())
}

/// Which requests of the log are in view: the first of them, and the one
/// behind the last.
pub fn visible_log(total: usize, scroll: usize) -> (r: (usize, usize))
    ensures
        r.0 == if scroll < total {
            scroll
        } else {
            total
        },
        r.1 == if total - r.0 > VISIBLE_ROWS {
            r.0 + VISIBLE_ROWS
        } else {
            total as int
        },
{
    let first = if scroll < total {
        scroll
    } else {
        total
    };
    if total - first > VISIBLE_ROWS {
        (first, first + VISIBLE_ROWS)
    } else {
        (first, total)
    }
}

// ---------------------------------------------------------------------------
// Tool calls
// ---------------------------------------------------------------------------
/// The title of the list of tool calls.
pub open spec fn calls_title(total: nat) -> Seq<char> {
    if total > 0 {
        " Tool Calls ("@ + text::decimal(total) + ") "@
    } else {
        " Tool Calls "@
    }
}

/// The title of the list of tool calls.
pub fn tool_calls_title(total: usize) -> (r: String)
    ensures
        r@ == calls_title(total as nat),
{
    if total > 0 {
        let mut out = text::chars_of(" Tool Calls (");
        let number = text::decimal_chars(total as u64);
        text::append_chars(&mut out, number.as_slice());
        text::append_str(&mut out, ") ");
        text::text_of(out.as_slice())
    } else {
        text::owned(" Tool Calls ")
    }
}

/// A tool call as it is shown: what became of its result, the tool, and the
/// tokens saved.
pub open spec fn call_line(c: ToolCallView) -> LineView {
    LineView {
        label: match c.status {
            ToolCallStatus::Kept => " KEPT "@,
            ToolCallStatus::Deduped => " DEDUPED "@,
        },
        value: " "@ + c.name + " "@,
        remark: "  -"@ + text::decimal(c.saved) + " tok"@,
    }
}

/// A tool call as it is shown.
pub fn tool_call_line(c: &ToolCallInfo) -> (r: PanelLine)
    ensures
        r@ == call_line(c@),
{
    let label = match c.status {
        ToolCallStatus::Kept => " KEPT ",
        ToolCallStatus::Deduped => " DEDUPED ",
    };
    let mut value = text::chars_of(" ");
    text::append_str(&mut value, c.tool_name.as_str());
    text::append_str(&mut value, " ");
    let mut remark = text::chars_of("  -");
    let number = text::decimal_chars(c.tokens_saved as u64);
    text::append_chars(&mut remark, number.as_slice());
    text::append_str(&mut remark, " tok");
    panel_line(label, text::text_of(value.as_slice()), text::text_of(remark.as_slice()))
}

/// The tool calls in view: from `scroll` on, as many as there are rows within
/// the border.
pub fn visible_calls(total: usize, scroll: usize, height: u16) -> (r: (usize, usize))
    ensures
        r.0 <= r.1 <= total,
        r.0 == if scroll < total {
            scroll
        } else {
            total
        },
        r.1 - r.0 == {
            let rows = if height >= 2 {
                height - 2
            } else {
                0
            };
            if rows < total - r.0 {
                rows
            } else {
                total - r.0
            }
        },
{
    let start: usize = if scroll < total {
        scroll
    } else {
        total
    };
    let rows: usize = if height >= 2 {
        (height - 2) as usize
    } else {
        0
    };
    let shown: usize = if rows < total - start {
        rows
    } else {
        total - start
    };
    (start, start + shown)
}

// ---------------------------------------------------------------------------
// Scales
// ---------------------------------------------------------------------------
/// The largest of some values, or `least` where that is larger.
pub open spec fn largest(values: Seq<nat>, least: nat) -> nat
    decreases values.len(),
{
    if values.len() == 0 {
        least
    } else {
        let before = largest(values.drop_last(), least);
        if values.last() > before {
            values.last()
        } else {
            before
        }
    }
}

pub open spec fn as_nats(values: Seq<u64>) -> Seq<nat> {
    values.map_values(|v: u64| v as nat)
}

/// The largest of some values, or `least` where that is larger.
fn largest_of(values: &Vec<u64>, least: u64) -> (r: u64)
    ensures
        r == largest(as_nats(values@), least as nat),
{
    let ghost views = as_nats(values@);
    let mut max: u64 = least;
    let mut i: usize = 0;
    assert(views.take(0) =~= Seq::empty());
    while i < values.len()
        invariant
            i <= values@.len(),
            views == as_nats(values@),
            max == largest(views.take(i as int), least as nat),
        decreases values@.len() - i,
    {
        assert(views.take(i + 1).drop_last() =~= views.take(i as int));
        assert(views.take(i + 1).last() == values@[i as int] as nat);
        if values[i] > max {
            max = values[i];
        }
        i += 1;
    }
    assert(views.take(views.len() as int) =~= views);
    max
}

/// The scale that both sparklines share: their largest value, and at least 1.
pub fn shared_max(originals: &Vec<u64>, compressed: &Vec<u64>) -> (r: u64)
    ensures
        r == largest(as_nats(compressed@), largest(as_nats(originals@), 1)),
{
    let first = largest_of(originals, 1);
    largest_of(compressed, first)
}

pub open spec fn stage_values(stages: Seq<(String, usize)>) -> Seq<nat> {
    stages.map_values(|s: (String, usize)| s.1 as nat)
}

/// The scale of the stages: the largest of them, or 1 where there are none.
pub fn breakdown_max(stages: &Vec<(String, usize)>) -> (r: u64)
    ensures
        r == if stages@.len() == 0 {
            1
        } else {
            largest(stage_values(stages@), 0)
        },
{
    if stages.len() == 0 {
        return 1;
    }
    let ghost views = stage_values(stages@);
    let mut max: u64 = 0;
    let mut i: usize = 0;
    assert(views.take(0) =~= Seq::empty());
    while i < stages.len()
        invariant
            i <= stages@.len(),
            views == stage_values(stages@),
            max == largest(views.take(i as int), 0),
        decreases stages@.len() - i,
    {
        assert(views.take(i + 1).drop_last() =~= views.take(i as int));
        assert(views.take(i + 1).last() == stages@[i as int].1 as nat);
        if stages[i].1 as u64 > max {
            max = stages[i].1 as u64;
        }
        i += 1;
    }
    assert(views.take(views.len() as int) =~= views);
    max
}

/// No value goes beyond the scale that it is shown on.
pub proof fn scale_covers_all_values(values: Seq<nat>, least: nat)
    ensures
        least <= largest(values, least),
        forall|i: int| 0 <= i < values.len() ==> #[trigger] values[i] <= largest(values, least),
    decreases values.len(),
{
    if values.len() > 0 {
        scale_covers_all_values(values.drop_last(), least);
        assert forall|i: int| 0 <= i < values.len() implies #[trigger] values[i] <= largest(
            values,
            least,
        ) by {
            if i < values.len() - 1 {
                assert(values.drop_last()[i] == values[i]);
            }
        }
    }
}

} // verus!
