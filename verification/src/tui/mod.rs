//! The state of the terminal dashboard.
use vstd::prelude::*;
use vstd::string::*;

use crate::metrics;
use crate::metrics::{
    CacheStatus, CompressionEvent, EventView, SessionStats, ToolCallInfo, ToolCallView,
};
use crate::text;
use crate::tui::sparkline::TokenHistory;

pub mod board_laws;
pub mod sparkline;
pub mod ui;

verus! {

/// What the proxy tells the dashboard of a request. Times are in milliseconds.
#[derive(Debug, Clone)]
pub struct ProxyUpdate {
    pub tokens_original: usize,
    pub tokens_compressed: usize,
    pub events: Vec<CompressionEvent>,
    pub tool_calls: Vec<ToolCallInfo>,
    pub cache_status: CacheStatus,
    pub pipeline_millis: u128,
    pub upstream_millis: Option<u128>,
    pub error_status: Option<(u16, String)>,
}

/// What an update says.
pub struct UpdateView {
    pub tokens_original: nat,
    pub tokens_compressed: nat,
    pub events: Seq<EventView>,
    pub tool_calls: Seq<ToolCallView>,
    pub cache_status: CacheStatus,
    pub pipeline_millis: u128,
    pub upstream_millis: Option<u128>,
    pub error_status: Option<(u16, Seq<char>)>,
}

pub open spec fn error_view(e: Option<(u16, String)>) -> Option<(u16, Seq<char>)> {
    match e {
        Some((code, message)) => Some((code, message@)),
        None => None,
    }
}

impl View for ProxyUpdate {
    type V = UpdateView;

    open spec fn view(&self) -> UpdateView {
        UpdateView {
            tokens_original: self.tokens_original as nat,
            tokens_compressed: self.tokens_compressed as nat,
            events: metrics::event_views(self.events@),
            tool_calls: metrics::tool_call_views(self.tool_calls@),
            cache_status: self.cache_status,
            pipeline_millis: self.pipeline_millis,
            upstream_millis: self.upstream_millis,
            error_status: error_view(self.error_status),
        }
    }
}

/// A request in the log.
#[derive(Debug, Clone)]
pub struct RequestEntry {
    pub request_number: u64,
    pub tokens_original: usize,
    pub tokens_compressed: usize,
    pub cache_status: CacheStatus,
    pub error_status: Option<(u16, String)>,
}

/// What a request in the log says.
pub struct EntryView {
    pub request_number: nat,
    pub tokens_original: nat,
    pub tokens_compressed: nat,
    pub cache_status: CacheStatus,
    pub error_status: Option<(u16, Seq<char>)>,
}

impl View for RequestEntry {
    type V = EntryView;

    open spec fn view(&self) -> EntryView {
        EntryView {
            request_number: self.request_number as nat,
            tokens_original: self.tokens_original as nat,
            tokens_compressed: self.tokens_compressed as nat,
            cache_status: self.cache_status,
            error_status: error_view(self.error_status),
        }
    }
}

pub open spec fn entry_views(log: Seq<RequestEntry>) -> Seq<EntryView> {
    log.map_values(|e: RequestEntry| e@)
}

/// What the dashboard asks of the proxy.
#[derive(Debug, Clone, Copy, PartialEq, Eq, Structural)]
pub enum TuiCommand {
    FlushCache,
}

/// A key that has been pressed.
#[derive(Debug, Clone, Copy, PartialEq, Eq, Structural)]
pub enum Key {
    Char(char),
    Up,
    Down,
    Other,
}

/// How many rows of the log are in view.
pub const VISIBLE_ROWS: usize = 8;

/// How many requests the sparklines show.
pub const HISTORY_CAPACITY: usize = 60;

/// The nanoseconds without a request after which the cache is flushed: two
/// minutes.
pub const IDLE_FLUSH_NANOS: u128 = 120_000_000_000;

/// The state of the dashboard. Times are in nanoseconds of a clock that does
/// not go back.
pub struct TuiApp {
    pub should_quit: bool,
    pub paused: bool,
    pub scroll_offset: usize,
    pub stats: SessionStats,
    pub request_log: Vec<RequestEntry>,
    pub log_scroll: usize,
    pub last_request: Option<ProxyUpdate>,
    pub stage_breakdown: Vec<(String, usize)>,
    pub upstream_url: String,
    pub listen_addr: String,
    pub input_cost_per_1k_bits: u64,
    pub tick_count: u64,
    pub last_error: Option<(u16, String, u128)>,
    pub last_request_time: Option<u128>,
    pub idle_flush_sent: bool,
    pub auto_flush_enabled: bool,
    pub token_history_original: TokenHistory,
    pub token_history_compressed: TokenHistory,
}

/// What the state of the dashboard is.
pub struct AppView {
    pub should_quit: bool,
    pub paused: bool,
    pub scroll_offset: nat,
    pub stats: SessionStats,
    pub log: Seq<EntryView>,
    pub log_scroll: nat,
    pub last_request: Option<UpdateView>,
    pub breakdown: Seq<(Seq<char>, nat)>,
    pub upstream_url: Seq<char>,
    pub listen_addr: Seq<char>,
    pub input_cost_per_1k_bits: u64,
    pub tick_count: u64,
    pub last_error: Option<(u16, Seq<char>, u128)>,
    pub last_request_time: Option<u128>,
    pub idle_flush_sent: bool,
    pub auto_flush_enabled: bool,
    pub originals: Seq<u64>,
    pub compressed: Seq<u64>,
}

pub open spec fn breakdown_views(stages: Seq<(String, usize)>) -> Seq<(Seq<char>, nat)> {
    stages.map_values(|s: (String, usize)| (s.0@, s.1 as nat))
}

impl View for TuiApp {
    type V = AppView;

    open spec fn view(&self) -> AppView {
        AppView {
            should_quit: self.should_quit,
            paused: self.paused,
            scroll_offset: self.scroll_offset as nat,
            stats: self.stats,
            log: entry_views(self.request_log@),
            log_scroll: self.log_scroll as nat,
            last_request: match self.last_request {
                Some(u) => Some(u@),
                None => None,
            },
            breakdown: breakdown_views(self.stage_breakdown@),
            upstream_url: self.upstream_url@,
            listen_addr: self.listen_addr@,
            input_cost_per_1k_bits: self.input_cost_per_1k_bits,
            tick_count: self.tick_count,
            last_error: match self.last_error {
                Some((code, message, at)) => Some((code, message@, at)),
                None => None,
            },
            last_request_time: self.last_request_time,
            idle_flush_sent: self.idle_flush_sent,
            auto_flush_enabled: self.auto_flush_enabled,
            originals: self.token_history_original@,
            compressed: self.token_history_compressed@,
        }
    }
}

/// Totals of nothing.
pub open spec fn no_stats() -> SessionStats {
    SessionStats {
        total_requests: 0,
        total_tokens_original: 0,
        total_tokens_compressed: 0,
        cache_hits: 0,
        cache_misses: 0,
        cache_tokens_saved: 0,
    }
}

/// A dashboard that has seen nothing.
pub open spec fn fresh_app(
    upstream_url: Seq<char>,
    listen_addr: Seq<char>,
    input_cost_per_1k_bits: u64,
) -> AppView {
    AppView {
        should_quit: false,
        paused: false,
        scroll_offset: 0,
        stats: no_stats(),
        log: Seq::empty(),
        log_scroll: 0,
        last_request: None,
        breakdown: Seq::empty(),
        upstream_url,
        listen_addr,
        input_cost_per_1k_bits,
        tick_count: 0,
        last_error: None,
        last_request_time: None,
        idle_flush_sent: false,
        auto_flush_enabled: true,
        originals: Seq::empty(),
        compressed: Seq::empty(),
    }
}

/// The dashboard once a key has been pressed.
pub open spec fn after_key(app: AppView, key: Key) -> AppView {
    match key {
        Key::Char('q') => AppView { should_quit: true, ..app },
        Key::Char('p') => AppView { paused: !app.paused, ..app },
        Key::Char('r') => AppView {
            stats: no_stats(),
            log: Seq::empty(),
            log_scroll: 0,
            last_request: None,
            last_error: None,
            breakdown: Seq::empty(),
            originals: Seq::empty(),
            compressed: Seq::empty(),
            ..app
        },
        Key::Char('a') => AppView { auto_flush_enabled: !app.auto_flush_enabled, ..app },
        Key::Up => AppView {
            log_scroll: if app.log_scroll > 0 {
                (app.log_scroll - 1) as nat
            } else {
                0
            },
            ..app
        },
        Key::Down => AppView {
            log_scroll: if app.log_scroll + 1 < app.log.len() {
                app.log_scroll + 1
            } else {
                app.log_scroll
            },
            ..app
        },
        _ => app,
    }
}

/// What a key asks of the proxy.
pub open spec fn key_command(key: Key) -> Option<TuiCommand> {
    if key == Key::Char('f') {
        Some(TuiCommand::FlushCache)
    } else {
        None
    }
}

/// The totals once a request has come. A cache hit saves all of its tokens;
/// they do not count as compressed.
pub open spec fn stats_with(stats: SessionStats, u: UpdateView) -> SessionStats {
    let counted = SessionStats { total_requests: (stats.total_requests + 1) as u64, ..stats };
    let forwarded = SessionStats {
        total_tokens_original: (stats.total_tokens_original + u.tokens_original) as u64,
        total_tokens_compressed: (stats.total_tokens_compressed + u.tokens_compressed) as u64,
        ..counted
    };
    match u.cache_status {
        CacheStatus::Hit { .. } => SessionStats {
            cache_hits: (stats.cache_hits + 1) as u64,
            cache_tokens_saved: (stats.cache_tokens_saved + u.tokens_original) as u64,
            ..counted
        },
        CacheStatus::Miss => SessionStats {
            cache_misses: (stats.cache_misses + 1) as u64,
            ..forwarded
        },
        CacheStatus::Skipped => forwarded,
    }
}

/// The tokens that the events of a stage took away.
pub open spec fn stage_total(events: Seq<EventView>, name: Seq<char>) -> nat
    decreases events.len(),
{
    if events.len() == 0 {
        0
    } else {
        stage_total(events.drop_last(), name) + if events.last().stage == name {
            metrics::saved(events.last().before, events.last().after)
        } else {
            0
        }
    }
}

/// The names of the stages, in the order in which they run.
pub open spec fn stage_names() -> Seq<Seq<char>> {
    seq![
        "A_dedup"@,
        "B1_docstrings"@,
        "B2_comments"@,
        "B3_whitespace"@,
        "B4_stacktrace"@,
        "B5_dedup_blocks"@,
        "C_ast"@,
        "D_semantic"@,
    ]
}

/// What each stage took away.
pub open spec fn breakdown_of(events: Seq<EventView>) -> Seq<(Seq<char>, nat)> {
    stage_names().map_values(|name: Seq<char>| (name, stage_total(events, name)))
}

/// What each stage took away is a count that a `usize` holds.
pub open spec fn breakdown_fits(events: Seq<EventView>) -> bool {
    forall|k: int|
        0 <= k < stage_names().len() ==> stage_total(events, #[trigger] stage_names()[k])
            <= usize::MAX
}

/// There is room for a request in the totals that it adds to.
pub open spec fn room_for(stats: SessionStats, u: UpdateView) -> bool {
    &&& stats.total_requests < u64::MAX
    &&& match u.cache_status {
        CacheStatus::Hit { .. } => stats.cache_hits < u64::MAX && stats.cache_tokens_saved
            + u.tokens_original <= u64::MAX,
        CacheStatus::Miss => stats.cache_misses < u64::MAX && room_to_forward(stats, u),
        CacheStatus::Skipped => room_to_forward(stats, u),
    }
    &&& breakdown_fits(u.events)
}

/// There is room for the tokens of a request that was forwarded.
pub open spec fn room_to_forward(stats: SessionStats, u: UpdateView) -> bool {
    &&& stats.total_tokens_original + u.tokens_original <= u64::MAX
    &&& stats.total_tokens_compressed + u.tokens_compressed <= u64::MAX
}

/// The dashboard once a request has come. A paused one takes no notice.
pub open spec fn after_update(app: AppView, u: UpdateView, now: u128) -> AppView {
    if app.paused {
        app
    } else {
        let stats = stats_with(app.stats, u);
        let log = app.log.push(
            EntryView {
                request_number: stats.total_requests as nat,
                tokens_original: u.tokens_original,
                tokens_compressed: u.tokens_compressed,
                cache_status: u.cache_status,
                error_status: u.error_status,
            },
        );
        AppView {
            last_request_time: Some(now),
            idle_flush_sent: false,
            stats,
            log,
            log_scroll: if log.len() > VISIBLE_ROWS {
                (log.len() - VISIBLE_ROWS) as nat
            } else {
                app.log_scroll
            },
            breakdown: breakdown_of(u.events),
            scroll_offset: 0,
            last_error: match u.error_status {
                Some((code, message)) => Some((code, message, now)),
                None => app.last_error,
            },
            last_request: Some(u),
            originals: sparkline::pushed(
                app.originals,
                HISTORY_CAPACITY as nat,
                u.tokens_original as u64,
            ),
            compressed: sparkline::pushed(
                app.compressed,
                HISTORY_CAPACITY as nat,
                u.tokens_compressed as u64,
            ),
            ..app
        }
    }
}

/// The cache is to be flushed: there was a request, but none for two minutes,
/// and the cache has not been flushed since.
pub open spec fn flush_due(app: AppView, now: u128) -> bool {
    match app.last_request_time {
        Some(last) => app.auto_flush_enabled && !app.idle_flush_sent && now - last
            > IDLE_FLUSH_NANOS,
        None => false,
    }
}

proof fn lemma_stage_grows(events: Seq<EventView>, name: Seq<char>, n: int)
    requires
        0 <= n <= events.len(),
    ensures
        stage_total(events.take(n), name) <= stage_total(events, name),
    decreases events.len(),
{
    if n < events.len() {
        assert(events.drop_last().take(n) =~= events.take(n));
        lemma_stage_grows(events.drop_last(), name, n);
    } else {
        assert(events.take(n) =~= events);
    }
}

/// Adds up the tokens that the events of a stage took away. There is no sum
/// where it is too large.
fn sum_stage(events: &Vec<CompressionEvent>, name: &str) -> (r: Option<usize>)
    ensures
        r matches Some(n) ==> n == stage_total(metrics::event_views(events@), name@),
        r is None ==> stage_total(metrics::event_views(events@), name@) > usize::MAX,
{
    let ghost views = metrics::event_views(events@);
    let mut total: usize = 0;
    let mut i: usize = 0;
    assert(views.take(0) =~= Seq::empty());
    while i < events.len()
        invariant
            i <= events@.len(),
            views == metrics::event_views(events@),
            total == stage_total(views.take(i as int), name@),
        decreases events@.len() - i,
    {
        proof {
            assert(views.take(i + 1).drop_last() =~= views.take(i as int));
            assert(views.take(i + 1).last() == events@[i as int]@);
            lemma_stage_grows(views, name@, i + 1);
        }
        if text::same_text(events[i].stage_name.as_str(), name) {
            match total.checked_add(events[i].tokens_saved()) {
                Some(sum) => {
                    total = sum;
                },
                None => {
                    return None;
                },
            }
        }
        i += 1;
    }
    assert(views.take(views.len() as int) =~= views);
    Some(total)
}

/// Adds what a stage took away, where it can be counted.
fn add_stage(out: &mut Vec<(String, usize)>, events: &Vec<CompressionEvent>, name: &str) -> (r:
    Option<()>)
    ensures
        r is Some <==> stage_total(metrics::event_views(events@), name@) <= usize::MAX,
        r is Some ==> breakdown_views(final(out)@) == breakdown_views(old(out)@).push(
            (name@, stage_total(metrics::event_views(events@), name@)),
        ),
{
    let ghost before = out@;
    let saved = sum_stage(events, name)?;
    let entry = (text::owned(name), saved);
    out.push(entry);
    assert(breakdown_views(out@) =~= breakdown_views(before).push((entry.0@, entry.1 as nat)));
    Some(())
}

/// What each stage took away, where it can be counted.
fn break_down(events: &Vec<CompressionEvent>) -> (r: Option<Vec<(String, usize)>>)
    ensures
        match r {
            Some(stages) => breakdown_fits(metrics::event_views(events@)) && breakdown_views(
                stages@,
            ) == breakdown_of(metrics::event_views(events@)),
            None => !breakdown_fits(metrics::event_views(events@)),
        },
{
    proof {
        let names = stage_names();
        assert(names[0] == "A_dedup"@ && names[1] == "B1_docstrings"@ && names[2] == "B2_comments"@
            && names[3] == "B3_whitespace"@ && names[4] == "B4_stacktrace"@ && names[5]
            == "B5_dedup_blocks"@ && names[6] == "C_ast"@ && names[7] == "D_semantic"@);
    }
    let mut out: Vec<(String, usize)> = Vec::new();
    add_stage(&mut out, events, "A_dedup")?;
    add_stage(&mut out, events, "B1_docstrings")?;
    add_stage(&mut out, events, "B2_comments")?;
    add_stage(&mut out, events, "B3_whitespace")?;
    add_stage(&mut out, events, "B4_stacktrace")?;
    add_stage(&mut out, events, "B5_dedup_blocks")?;
    add_stage(&mut out, events, "C_ast")?;
    add_stage(&mut out, events, "D_semantic")?;
    assert(breakdown_views(out@) =~= breakdown_of(metrics::event_views(events@)));
    Some(out)
}

fn copy_error(e: &Option<(u16, String)>) -> (r: Option<(u16, String)>)
    ensures
        error_view(r) == error_view(*e),
{
    match e {
        Some((code, message)) => Some((*code, text::owned(message.as_str()))),
        None => None,
    }
}

impl TuiApp {
    /// The histories have the capacity that the sparklines show.
    pub open spec fn well_formed(&self) -> bool {
        &&& self.token_history_original.capacity() == HISTORY_CAPACITY
        &&& self.token_history_compressed.capacity() == HISTORY_CAPACITY
    }

    /// A dashboard that has seen nothing.
    pub fn new(upstream_url: String, listen_addr: String, input_cost_per_1k_bits: u64) -> (r: Self)
        ensures
            r@ == fresh_app(upstream_url@, listen_addr@, input_cost_per_1k_bits),
            r.well_formed(),
    {
        let r = TuiApp {
            should_quit: false,
            paused: false,
            scroll_offset: 0,
            stats: SessionStats::default(),
            request_log: Vec::new(),
            log_scroll: 0,
            last_request: None,
            stage_breakdown: Vec::new(),
            upstream_url,
            listen_addr,
            input_cost_per_1k_bits,
            tick_count: 0,
            last_error: None,
            last_request_time: None,
            idle_flush_sent: false,
            auto_flush_enabled: true,
            token_history_original: TokenHistory::new(HISTORY_CAPACITY),
            token_history_compressed: TokenHistory::new(HISTORY_CAPACITY),
        };
        assert(entry_views(r.request_log@) =~= Seq::empty());
        assert(breakdown_views(r.stage_breakdown@) =~= Seq::empty());
        r
    }

    /// Takes in a key. Returns what it asks of the proxy.
    pub fn on_key(&mut self, key: Key) -> (r: Option<TuiCommand>)
        requires
            old(self).well_formed(),
        ensures
            final(self)@ == after_key(old(self)@, key),
            final(self).well_formed(),
            r == key_command(key),
    {
        match key {
            Key::Char('q') => {
                self.should_quit = true;
            },
            Key::Char('p') => {
                self.paused = !self.paused;
            },
            Key::Char('r') => {
                self.stats = SessionStats::default();
                self.request_log = Vec::new();
                self.log_scroll = 0;
                self.last_request = None;
                self.last_error = None;
                self.stage_breakdown = Vec::new();
                self.token_history_original = TokenHistory::new(HISTORY_CAPACITY);
                self.token_history_compressed = TokenHistory::new(HISTORY_CAPACITY);
                assert(entry_views(self.request_log@) =~= Seq::empty());
                assert(breakdown_views(self.stage_breakdown@) =~= Seq::empty());
            },
            Key::Char('f') => {
                return Some(TuiCommand::FlushCache);
            },
            Key::Char('a') => {
                self.auto_flush_enabled = !self.auto_flush_enabled;
            },
            Key::Up => {
                if self.log_scroll > 0 {
                    self.log_scroll = self.log_scroll - 1;
                }
            },
            Key::Down => {
                if self.request_log.len() > 0 && self.log_scroll < self.request_log.len() - 1 {
                    self.log_scroll = self.log_scroll + 1;
                }
            },
            _ => {},
        }
        None
    }

    /// Whether there is room for a request in the totals that it adds to.
    pub fn has_room(&self, update: &ProxyUpdate) -> (r: bool)
        ensures
            r == room_for(self@.stats, update@),
    {
        let original = update.tokens_original as u64;
        let left = update.tokens_compressed as u64;
        let forwarded = self.stats.total_tokens_original.checked_add(original).is_some()
            && self.stats.total_tokens_compressed.checked_add(left).is_some();
        let counted = match update.cache_status {
            CacheStatus::Hit { .. } => self.stats.cache_hits < u64::MAX
                && self.stats.cache_tokens_saved.checked_add(original).is_some(),
            CacheStatus::Miss => self.stats.cache_misses < u64::MAX && forwarded,
            CacheStatus::Skipped => forwarded,
        };
        self.stats.total_requests < u64::MAX && counted && break_down(&update.events).is_some()
    }

    /// Counts a request.
    fn count(&mut self, update: &ProxyUpdate)
        requires
            room_for(old(self)@.stats, update@),
        ensures
            *final(self) == (TuiApp { stats: stats_with(old(self).stats, update@), ..*old(self) }),
    {
        self.stats.total_requests = self.stats.total_requests + 1;
        match update.cache_status {
            CacheStatus::Hit { .. } => {
                self.stats.cache_hits = self.stats.cache_hits + 1;
                self.stats.cache_tokens_saved = self.stats.cache_tokens_saved
                    + update.tokens_original as u64;
            },
            CacheStatus::Miss => {
                self.stats.cache_misses = self.stats.cache_misses + 1;
                self.stats.total_tokens_original = self.stats.total_tokens_original
                    + update.tokens_original as u64;
                self.stats.total_tokens_compressed = self.stats.total_tokens_compressed
                    + update.tokens_compressed as u64;
            },
            CacheStatus::Skipped => {
                self.stats.total_tokens_original = self.stats.total_tokens_original
                    + update.tokens_original as u64;
                self.stats.total_tokens_compressed = self.stats.total_tokens_compressed
                    + update.tokens_compressed as u64;
            },
        }
    }

    /// Takes in a request.
    pub fn on_proxy_event(&mut self, update: ProxyUpdate, now: u128)
        requires
            old(self).well_formed(),
            !old(self)@.paused ==> room_for(old(self)@.stats, update@),
        ensures
            final(self)@ == after_update(old(self)@, update@, now),
            final(self).well_formed(),
    {
        if self.paused {
            return;
        }
        self.last_request_time = Some(now);
        self.idle_flush_sent = false;
        self.count(&update);
        let ghost log = self.request_log@;
        let entry = RequestEntry {
            request_number: self.stats.total_requests,
            tokens_original: update.tokens_original,
            tokens_compressed: update.tokens_compressed,
            cache_status: update.cache_status,
            error_status: copy_error(&update.error_status),
        };
        self.request_log.push(entry);
        assert(entry_views(self.request_log@) =~= entry_views(log).push(entry@));
        if self.request_log.len() > VISIBLE_ROWS {
            self.log_scroll = self.request_log.len() - VISIBLE_ROWS;
        }
        match break_down(&update.events) {
            Some(stages) => {
                self.stage_breakdown = stages;
            },
            None => {},
        }
        self.scroll_offset = 0;
        self.token_history_original.push(update.tokens_original as u64);
        self.token_history_compressed.push(update.tokens_compressed as u64);
        match &update.error_status {
            Some((code, message)) => {
                self.last_error = Some((*code, text::owned(message.as_str()), now));
            },
            None => {},
        }
        self.last_request = Some(update);
    }

    /// Flushes the cache once there has been no request for two minutes.
    pub fn on_idle(&mut self, now: u128) -> (r: Option<TuiCommand>)
        requires
            old(self).well_formed(),
        ensures
            final(self)@ == (AppView {
                idle_flush_sent: old(self)@.idle_flush_sent || flush_due(old(self)@, now),
                ..old(self)@
            }),
            final(self).well_formed(),
            r == if flush_due(old(self)@, now) {
                Some(TuiCommand::FlushCache)
            } else {
                None
            },
    {
        match self.last_request_time {
            Some(last) => {
                if self.auto_flush_enabled && !self.idle_flush_sent && now > last && now - last
                    > IDLE_FLUSH_NANOS {
                    self.idle_flush_sent = true;
                    return Some(TuiCommand::FlushCache);
                }
            },
            None => {},
        }
        None
    }

    /// Counts a frame that has been drawn.
    pub fn on_tick(&mut self)
        requires
            old(self).well_formed(),
        ensures
            final(self)@ == (AppView {
                tick_count: if old(self)@.tick_count == u64::MAX {
                    0
                } else {
                    (old(self)@.tick_count + 1) as u64
                },
                ..old(self)@
            }),
            final(self).well_formed(),
    {
        self.tick_count = self.tick_count.wrapping_add(1);
    }
}

// ---------------------------------------------------------------------------
// Laws
// ---------------------------------------------------------------------------
/// What holds of a dashboard at any time: the log holds every request since
/// the last reset, numbered from 1; what is scrolled to is in the log; and no
/// more cache hits and misses are counted than requests.
pub open spec fn consistent(app: AppView) -> bool {
    &&& app.log.len() == app.stats.total_requests
    &&& forall|i: int| 0 <= i < app.log.len() ==> (#[trigger] app.log[i]).request_number == i + 1
    &&& app.log_scroll == 0 || app.log_scroll < app.log.len()
    &&& app.stats.cache_hits + app.stats.cache_misses <= app.stats.total_requests
}

/// A dashboard starts out consistent.
pub proof fn new_dashboard_is_consistent(
    upstream_url: Seq<char>,
    listen_addr: Seq<char>,
    cost_bits: u64,
)
    ensures
        consistent(fresh_app(upstream_url, listen_addr, cost_bits)),
{
}

/// A key leaves a dashboard consistent.
pub proof fn keys_keep_it_consistent(app: AppView, key: Key)
    requires
        consistent(app),
    ensures
        consistent(after_key(app, key)),
{
}

/// A request leaves a dashboard consistent.
pub proof fn updates_keep_it_consistent(app: AppView, u: UpdateView, now: u128)
    requires
        consistent(app),
        !app.paused ==> room_for(app.stats, u),
    ensures
        consistent(after_update(app, u, now)),
{
    let after = after_update(app, u, now);
    if !app.paused {
        assert forall|i: int| 0 <= i < after.log.len() implies (
        #[trigger] after.log[i]).request_number == i + 1 by {
            if i < app.log.len() {
                assert(after.log[i] == app.log[i]);
            }
        }
    }
}

/// A request adds one entry to the log, behind those that are there. The last
/// error changes only with an error.
pub proof fn updates_add_to_the_log(app: AppView, u: UpdateView, now: u128)
    requires
        !app.paused,
    ensures
        after_update(app, u, now).log.len() == app.log.len() + 1,
        after_update(app, u, now).log.drop_last() == app.log,
        u.error_status is None ==> after_update(app, u, now).last_error == app.last_error,
{
    assert(after_update(app, u, now).log.drop_last() =~= app.log);
}

/// A paused dashboard takes no notice of requests; one that goes on does.
pub proof fn pausing_stops_updates(app: AppView, u: UpdateView, now: u128)
    ensures
        after_update(after_key(app, Key::Char('p')), u, now) == if app.paused {
            after_update(AppView { paused: false, ..app }, u, now)
        } else {
            after_key(app, Key::Char('p'))
        },
        after_key(after_key(app, Key::Char('p')), Key::Char('p')) == app,
{
}

/// A reset forgets all requests, but not the settings.
pub proof fn reset_forgets_requests(app: AppView, u: UpdateView, now: u128)
    requires
        !app.paused,
    ensures
        ({
            let after = after_key(after_update(app, u, now), Key::Char('r'));
            &&& after.stats == no_stats()
            &&& after.log.len() == 0
            &&& after.last_request is None
            &&& after.last_error is None
            &&& after.auto_flush_enabled == app.auto_flush_enabled
            &&& after.paused == app.paused
        }),
{
}

/// The cache is flushed at most once between two requests.
pub proof fn idle_flush_happens_once(app: AppView, now: u128, later: u128)
    requires
        flush_due(app, now),
    ensures
        !flush_due(AppView { idle_flush_sent: true, ..app }, later),
{
}

/// A cache hit saves all tokens of the request; what compression saved stays
/// as it was.
pub proof fn cache_hits_save_everything(app: AppView, u: UpdateView, now: u128)
    requires
        !app.paused,
        room_for(app.stats, u),
        u.cache_status is Hit,
    ensures
        ({
            let after = after_update(app, u, now).stats;
            &&& after.cache_tokens_saved == app.stats.cache_tokens_saved + u.tokens_original
            &&& after.total_tokens_original == app.stats.total_tokens_original
            &&& after.total_tokens_compressed == app.stats.total_tokens_compressed
        }),
{
}

} // verus!
