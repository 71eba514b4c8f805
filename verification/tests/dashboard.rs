use janus::metrics::{CacheStatus, CompressionEvent, SessionStats, ToolCallInfo, ToolCallStatus};
use janus::tui::sparkline::TokenHistory;
use janus::tui::ui::{
    all_tokens_saved, breakdown_max, cache_fraction, format_number, friendly_stage_name,
    header_status, last_error_line, last_request_lines, log_line, savings_line, session_summary,
    shared_max, shows_tool_calls, shows_welcome, tool_call_line, tool_calls_title, visible_calls,
    visible_log, waiting_dots,
};
use janus::tui::{Key, ProxyUpdate, TuiApp, TuiCommand};

fn app() -> TuiApp {
    TuiApp::new("up".to_string(), "here".to_string(), 0)
}

fn event(stage: &str, before: usize, after: usize) -> CompressionEvent {
    CompressionEvent {
        tokens_before: before,
        tokens_after: after,
        stage_name: stage.to_string(),
        reason: "r".to_string(),
    }
}

fn update(status: CacheStatus) -> ProxyUpdate {
    ProxyUpdate {
        tokens_original: 100,
        tokens_compressed: 60,
        events: vec![event("C_ast", 50, 20), event("C_ast", 10, 4), event("other", 9, 1)],
        tool_calls: vec![],
        cache_status: status,
        pipeline_millis: 2,
        upstream_millis: Some(30),
        error_status: None,
    }
}

const HIT: CacheStatus = CacheStatus::Hit { similarity_bits: 1 };

#[test]
fn requests_are_counted() {
    let mut a = app();
    a.on_proxy_event(update(CacheStatus::Miss), 5);
    a.on_proxy_event(update(CacheStatus::Skipped), 6);
    a.on_proxy_event(update(HIT), 7);
    assert_eq!(
        a.stats,
        SessionStats {
            total_requests: 3,
            total_tokens_original: 200,
            total_tokens_compressed: 120,
            cache_hits: 1,
            cache_misses: 1,
            cache_tokens_saved: 100,
        }
    );
    assert_eq!(a.stats.tokens_saved(), 80);
    assert_eq!(all_tokens_saved(&a.stats), 180);
    assert_eq!(a.last_request_time, Some(7));
    assert_eq!(a.request_log.iter().map(|e| e.request_number).collect::<Vec<u64>>(), vec![1, 2, 3]);
    assert_eq!(a.token_history_original.as_vec(), vec![100, 100, 100]);
    assert_eq!(a.token_history_compressed.as_vec(), vec![60, 60, 60]);
}

#[test]
fn stages_are_broken_down_in_order() {
    let mut a = app();
    a.on_proxy_event(update(CacheStatus::Miss), 5);
    let names: Vec<&str> = a.stage_breakdown.iter().map(|s| s.0.as_str()).collect();
    assert_eq!(
        names,
        vec![
            "A_dedup", "B1_docstrings", "B2_comments", "B3_whitespace", "B4_stacktrace",
            "B5_dedup_blocks", "C_ast", "D_semantic"
        ]
    );
    let saved: Vec<usize> = a.stage_breakdown.iter().map(|s| s.1).collect();
    assert_eq!(saved, vec![0, 0, 0, 0, 0, 0, 36, 0]);
    assert_eq!(breakdown_max(&a.stage_breakdown), 36);
    assert_eq!(breakdown_max(&vec![]), 1);
    assert_eq!(breakdown_max(&vec![("x".to_string(), 0)]), 0);
}

#[test]
fn a_paused_dashboard_takes_no_notice() {
    let mut a = app();
    assert_eq!(a.on_key(Key::Char('p')), None);
    a.on_proxy_event(update(CacheStatus::Miss), 5);
    assert_eq!(a.stats.total_requests, 0);
    a.on_key(Key::Char('p'));
    a.on_proxy_event(update(CacheStatus::Miss), 5);
    assert_eq!(a.stats.total_requests, 1);
}

#[test]
fn keys_do_what_they_say() {
    let mut a = app();
    assert_eq!(a.on_key(Key::Char('f')), Some(TuiCommand::FlushCache));
    assert_eq!(a.on_key(Key::Char('x')), None);
    assert_eq!(a.on_key(Key::Other), None);
    assert!(a.auto_flush_enabled);
    a.on_key(Key::Char('a'));
    assert!(!a.auto_flush_enabled);
    a.on_key(Key::Char('q'));
    assert!(a.should_quit);
    a.on_proxy_event(update(CacheStatus::Miss), 5);
    a.on_key(Key::Char('r'));
    assert_eq!(a.stats, SessionStats::default());
    assert!(a.request_log.is_empty() && a.last_request.is_none() && a.stage_breakdown.is_empty());
    assert!(shows_welcome(&a));
}

#[test]
fn the_log_scrolls_within_its_bounds() {
    let mut a = app();
    a.on_key(Key::Up);
    a.on_key(Key::Down);
    assert_eq!(a.log_scroll, 0);
    for i in 0..10 {
        a.on_proxy_event(update(CacheStatus::Miss), i);
    }
    assert_eq!(a.log_scroll, 2);
    for _ in 0..20 {
        a.on_key(Key::Down);
    }
    assert_eq!(a.log_scroll, 9);
    a.on_key(Key::Up);
    assert_eq!(a.log_scroll, 8);
}

#[test]
fn errors_are_kept_with_their_time() {
    let mut a = app();
    let mut u = update(CacheStatus::Skipped);
    u.error_status = Some((500, "bad".to_string()));
    a.on_proxy_event(u, 9);
    a.on_proxy_event(update(CacheStatus::Miss), 10);
    assert_eq!(a.last_error, Some((500, "bad".to_string(), 9)));
}

#[test]
fn the_cache_is_flushed_once_when_idle() {
    let mut a = app();
    let second: u128 = 1_000_000_000;
    assert_eq!(a.on_idle(500 * second), None);
    a.on_proxy_event(update(CacheStatus::Miss), 10 * second);
    assert_eq!(a.on_idle(130 * second), None);
    assert_eq!(a.on_idle(130 * second + 1), Some(TuiCommand::FlushCache));
    assert_eq!(a.on_idle(999 * second), None);
    a.on_proxy_event(update(CacheStatus::Miss), 1000 * second);
    a.on_key(Key::Char('a'));
    assert_eq!(a.on_idle(2000 * second), None);
}

#[test]
fn frames_are_counted_and_room_is_checked() {
    let mut a = app();
    a.on_tick();
    assert_eq!(a.tick_count, 1);
    a.tick_count = u64::MAX;
    a.on_tick();
    assert_eq!(a.tick_count, 0);
    assert!(a.has_room(&update(HIT)) && a.has_room(&update(CacheStatus::Miss)));
    // Only the totals that a request adds to count.
    a.stats.total_tokens_original = u64::MAX;
    assert!(a.has_room(&update(HIT)));
    assert!(!a.has_room(&update(CacheStatus::Miss)));
    assert!(!a.has_room(&update(CacheStatus::Skipped)));
    a.stats.total_tokens_original = 0;
    a.stats.cache_tokens_saved = u64::MAX;
    assert!(!a.has_room(&update(HIT)));
    assert!(a.has_room(&update(CacheStatus::Miss)));
    // Each stage is counted on its own.
    let mut u = update(CacheStatus::Miss);
    u.events = vec![event("C_ast", usize::MAX, 0), event("A_dedup", usize::MAX, 0)];
    assert!(a.has_room(&u));
    a.on_proxy_event(u, 1);
    assert_eq!(a.stage_breakdown[0].1, usize::MAX);
    assert_eq!(a.stage_breakdown[6].1, usize::MAX);
    let mut u = update(CacheStatus::Miss);
    u.events = vec![event("C_ast", usize::MAX, 0), event("C_ast", 1, 0)];
    assert!(!a.has_room(&u));
}

#[test]
fn numbers_have_commas() {
    assert_eq!(format_number(0), "0");
    assert_eq!(format_number(999), "999");
    assert_eq!(format_number(1000), "1,000");
    assert_eq!(format_number(1234567), "1,234,567");
    assert_eq!(format_number(u64::MAX), "18,446,744,073,709,551,615");
    for n in [0, 7, 1000, 100_000, 99_999_999] {
        assert_eq!(format_number(n).replace(',', ""), n.to_string());
    }
}

#[test]
fn words_of_the_dashboard() {
    assert_eq!(friendly_stage_name("B4_stacktrace"), "Stack Traces");
    assert_eq!(friendly_stage_name("unknown"), "unknown");
    assert_eq!(waiting_dots(0), "");
    assert_eq!(waiting_dots(5), ".");
    assert_eq!(waiting_dots(11), "...");
    assert_eq!(waiting_dots(12), "");
    assert_eq!(header_status(true).1, "PAUSED");
    assert_eq!(header_status(false).1, "LIVE");
    assert_eq!(tool_calls_title(0), " Tool Calls ");
    assert_eq!(tool_calls_title(3), " Tool Calls (3) ");
}

#[test]
fn lines_of_the_last_request() {
    let shown = |u: &ProxyUpdate| -> Vec<String> {
        last_request_lines(u, "40", "0.91")
            .iter()
            .map(|l| format!("{}|{}|{}", l.label, l.value, l.remark))
            .collect()
    };
    assert_eq!(
        shown(&update(CacheStatus::Miss)),
        vec!["Status|FORWARDED|", "Tokens|100 → 60| (40% saved)", "Pipeline|2ms|", "Upstream|30ms|"]
    );
    assert_eq!(
        shown(&update(HIT)),
        vec!["Status|CACHE HIT (0.91)|", "Tokens|100| (100% saved)", "Upstream|skipped|"]
    );
    let mut u = update(CacheStatus::Skipped);
    u.upstream_millis = None;
    assert_eq!(shown(&u)[3], "Upstream|0ms|");
}

#[test]
fn totals_of_the_session() {
    let stats = SessionStats {
        total_requests: 1200,
        total_tokens_original: 5000,
        total_tokens_compressed: 3000,
        cache_hits: 1,
        cache_misses: 3,
        cache_tokens_saved: 10,
    };
    assert_eq!(savings_line(&stats, "25"), "Compression: 2,000 │ Cache: 10 (25% hit rate)");
    assert_eq!(cache_fraction(&stats), "(1/4)");
    let lines: Vec<String> = session_summary(&stats, "40")
        .iter()
        .map(|l| format!("{}={}", l.label, l.value))
        .collect();
    assert_eq!(lines, vec!["Requests=1,200", "Tokens in=5,000", "Tokens out=3,000", "Avg compress=40%"]);
    let reversed = SessionStats { total_tokens_original: 1, total_tokens_compressed: 2, ..stats };
    assert_eq!(reversed.tokens_saved(), 0);
}

#[test]
fn tool_calls_are_listed() {
    let c = ToolCallInfo {
        tool_name: "read".to_string(),
        input_summary: "{}".to_string(),
        tool_use_id: "t".to_string(),
        status: ToolCallStatus::Deduped,
        tokens_saved: 5,
    };
    let l = tool_call_line(&c);
    assert_eq!((l.label.as_str(), l.value.as_str(), l.remark.as_str()), (" DEDUPED ", " read ", "  -5 tok"));
    assert_eq!(visible_calls(10, 2, 6), (2, 6));
    assert_eq!(visible_calls(3, 2, 6), (2, 3));
    assert_eq!(visible_calls(3, 9, 6), (3, 3));
    assert_eq!(visible_calls(3, 0, 1), (0, 0));
    let mut a = app();
    assert!(!shows_tool_calls(&a));
    let mut u = update(CacheStatus::Miss);
    u.tool_calls = vec![c];
    a.on_proxy_event(u, 0);
    assert!(shows_tool_calls(&a) && !shows_welcome(&a));
}

#[test]
fn sparklines_share_a_scale() {
    assert_eq!(shared_max(&vec![], &vec![]), 1);
    assert_eq!(shared_max(&vec![3, 9], &vec![4]), 9);
    assert_eq!(shared_max(&vec![3], &vec![4, 12, 1]), 12);
}

#[test]
fn histories_keep_the_latest_values() {
    let mut h = TokenHistory::new(3);
    for v in 1..=5 {
        h.push(v);
    }
    assert_eq!(h.as_vec(), vec![3, 4, 5]);
    assert_eq!(h.len(), 3);
    let mut z = TokenHistory::new(0);
    z.push(1);
    z.push(2);
    assert_eq!(z.as_vec(), vec![2]);
}

#[test]
fn the_log_shows_requests_and_errors() {
    let mut a = app();
    a.on_proxy_event(update(HIT), 1);
    let mut u = update(CacheStatus::Miss);
    u.tokens_original = 1500;
    u.error_status = Some((503, "Upstream returned 503".to_string()));
    a.on_proxy_event(u, 2_000_000_000);
    let shown: Vec<String> = a
        .request_log
        .iter()
        .map(|e| {
            let l = log_line(e);
            format!("{} {} {}", l.label, l.value, l.remark)
        })
        .collect();
    assert_eq!(shown, vec!["#1 HIT 100 → 60", "#2 MISS 1,500 → 60 error 503"]);
    let (status, message, since) = a.last_error.unwrap();
    assert_eq!(
        last_error_line(status, &message, since, 7_900_000_000),
        "Error 503: Upstream returned 503 (5s ago)"
    );
    assert_eq!(last_error_line(500, "x", 9, 1), "Error 500: x (0s ago)");
    assert_eq!(visible_log(20, 3), (3, 11));
    assert_eq!(visible_log(5, 3), (3, 5));
    assert_eq!(visible_log(2, 3), (2, 2));
}
