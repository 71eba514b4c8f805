use janus::config::{JanusConfig, PipelineConfig};
use janus::json::Json;
use janus::pipeline::dedup::{dedup, placeholder_text, repeats_another};
use janus::pipeline::semantic_trim::trim;
use janus::pipeline::{
    extract_compressible_texts, extract_user_query, process, write_text_back, Compiled,
    PipelineResult,
};
use janus::session::{hex16, opening_text, SessionData, SessionStore, ToolResultEntry};
use janus::tokenizer::{countable_texts, Tokenizer};

fn parse(s: &str) -> Json {
    Json::parse(s.as_bytes()).unwrap()
}

fn messages(s: &str) -> Vec<Json> {
    match parse(s) {
        Json::Array(items) => items,
        _ => panic!("no array"),
    }
}

fn off() -> PipelineConfig {
    PipelineConfig {
        tool_dedup: false,
        regex_structural: false,
        ast_pruning: false,
        semantic_trim: false,
        semantic_threshold_bits: 0,
        min_lines_for_ast: 30,
    }
}

// Tokens

#[test]
fn tokens_are_those_of_cl100k() {
    let t = Tokenizer::new();
    let bpe = tiktoken_rs::cl100k_base().unwrap();
    for s in ["", "hello world", "fn main() {}\n", "<|endoftext|> x", "žluťoučký 🦀"] {
        assert_eq!(t.count_tokens(s), Some(bpe.encode_ordinary(s).len()));
    }
    assert_eq!(t.count_tokens("hello world"), Some(2));
}

#[test]
fn bodies_count_messages_system_and_tools() {
    let body = parse(
        "{\"messages\":[{\"role\":\"user\",\"content\":\"one\"},{\"role\":\"user\",\"content\":[{\"type\":\"text\",\"text\":\"two\"},{\"type\":\"tool_result\",\"content\":[{\"type\":\"text\",\"text\":\"three\"}]},{\"type\":\"tool_use\",\"input\":{\"a\":1}},{\"type\":\"image\"}]},{\"role\":\"user\",\"content\":7},{\"role\":\"user\"}],\"system\":[{\"type\":\"text\",\"text\":\"sys\"},{}],\"tools\":[]}",
    );
    assert_eq!(
        countable_texts(&body),
        vec!["one", "two", "three", "{\"a\":1}", "{\"type\":\"image\"}", "7", "sys", "[]"]
    );
    let t = Tokenizer::new();
    let sum: usize = countable_texts(&body).iter().map(|s| t.count_tokens(s).unwrap()).sum();
    assert_eq!(t.count_message_tokens(&body), Some(sum));
    assert_eq!(t.count_message_tokens(&parse("{}")), Some(0));
    assert_eq!(countable_texts(&parse("{\"system\":\"s\"}")), vec!["s"]);
}

// Sessions

#[test]
fn session_ids_are_hashes_of_the_first_user_text() {
    let m = messages("[{\"role\":\"assistant\",\"content\":\"x\"},{\"role\":\"user\",\"content\":\"hello\"}]");
    let id = SessionStore::derive_session_id(&m);
    assert_eq!(id, format!("{:016x}", xxhash_rust::xxh3::xxh3_64(b"hello")));
    let blocks = messages("[{\"role\":\"user\",\"content\":[{\"type\":\"image\"},{\"type\":\"text\",\"text\":\"hello\"}]}]");
    assert_eq!(SessionStore::derive_session_id(&blocks), id);
    assert_eq!(SessionStore::derive_session_id(&messages("[{\"role\":\"user\",\"content\":\"\"},{\"role\":\"user\",\"content\":7}]")), "default");
    assert_eq!(opening_text(&m), Some("hello".to_string()));
    assert_eq!(hex16(0xab), "00000000000000ab");
    assert_eq!(hex16(u64::MAX), "ffffffffffffffff");
}

#[test]
fn session_id_does_not_change_as_the_conversation_goes_on() {
    let short = messages("[{\"role\":\"user\",\"content\":\"hello\"}]");
    let long = messages("[{\"role\":\"user\",\"content\":\"hello\"},{\"role\":\"user\",\"content\":\"more\"}]");
    assert_eq!(
        SessionStore::derive_session_id(&short),
        SessionStore::derive_session_id(&long)
    );
}

#[test]
fn sessions_remember_tool_results() {
    let mut store = SessionStore::new();
    let s = store.get_or_create("a", 5);
    assert!(s.seen(1).is_none());
    s.record(1, ToolResultEntry { tool_use_id: "t".to_string(), original_token_count: 9 });
    assert_eq!(store.len(), 1);
    // Asked for twice in a row, it is the same session.
    assert!(store.get_or_create("a", 6).seen(1).is_some());
    assert!(store.get_or_create("b", 6).seen(1).is_none());
    assert_eq!(store.len(), 2);
    let s = store.get_or_create("a", 7);
    assert_eq!(s.last_accessed, 7);
    let e = s.seen(1).unwrap();
    assert_eq!((e.tool_use_id.as_str(), e.original_token_count), ("t", 9));
    assert_eq!(store.len(), 2);
}

#[test]
fn stale_sessions_are_evicted_where_there_are_too_many() {
    let second: u128 = 1_000_000_000;
    let mut store = SessionStore::new();
    for i in 0..10_001u32 {
        let at = if i % 2 == 0 { 0 } else { 100 * second };
        store.get_or_create(&format!("s{}", i), at);
    }
    store.get_or_create("new", 3600 * second);
    assert_eq!(store.len(), 5001);
    assert!(SessionData::new(0).is_fresh(3600 * second - 1));
    assert!(!SessionData::new(0).is_fresh(3600 * second));
    assert!(SessionData::new(5).is_fresh(1));
}

// Deduplication

fn tool_body() -> Json {
    parse(
        "{\"messages\":[{\"role\":\"assistant\",\"content\":[{\"type\":\"tool_use\",\"id\":\"t1\",\"name\":\"read\",\"input\":{\"path\":\"a\"}},{\"type\":\"tool_use\",\"id\":\"t2\",\"name\":\"read\",\"input\":{}},{\"type\":\"tool_use\",\"id\":\"t3\",\"name\":\"list\",\"input\":{}}]},{\"role\":\"user\",\"content\":[{\"type\":\"tool_result\",\"tool_use_id\":\"t1\",\"content\":\"the very same long output, line after line after line after line after line after line\"},{\"type\":\"tool_result\",\"tool_use_id\":\"t2\",\"content\":\"the very same long output, line after line after line after line after line after line\"},{\"type\":\"tool_result\",\"tool_use_id\":\"t3\",\"content\":\"the very same long output, line after line after line after line after line after line\"},{\"type\":\"tool_result\",\"tool_use_id\":\"t2\",\"content\":\"\"}]}]}",
    )
}

fn result_text(body: &Json, i: usize) -> String {
    let messages = body.items_of("messages").unwrap();
    let blocks = messages[1].items_of("content").unwrap();
    blocks[i].text_of("content").unwrap().to_string()
}

#[test]
fn repeated_tool_results_are_replaced() {
    let t = Tokenizer::new();
    let mut body = tool_body();
    let output = result_text(&body, 0);
    let mut session = SessionData::new(0);
    let (events, calls) = dedup(&mut body, &mut session, &t);
    let n = t.count_tokens(&output).unwrap();
    let note = format!("[Janus: duplicate of tool result t1 — {} tokens omitted]", n);
    assert_eq!(placeholder_text("t1", n), note);
    assert_eq!(result_text(&body, 0), output);
    assert_eq!(result_text(&body, 1), note);
    // Another tool with the same output.
    assert_eq!(result_text(&body, 2), output);
    assert_eq!(result_text(&body, 3), "");
    assert_eq!(events.len(), 1);
    assert_eq!(events[0].stage_name, "A_dedup");
    assert_eq!(events[0].tokens_before, n);
    assert_eq!(calls.len(), 3);
    assert_eq!(calls[0].tool_name, "read");
    assert_eq!(calls[0].input_summary, "{\"path\":\"a\"}");
    assert_eq!(calls[1].tool_use_id, "t2");
    assert_eq!(calls[1].tokens_saved, n - t.count_tokens(&note).unwrap());
    assert_eq!(calls[1].status, janus::metrics::ToolCallStatus::Deduped);
    assert_eq!(calls[2].status, janus::metrics::ToolCallStatus::Kept);
}

#[test]
fn a_conversation_sent_again_comes_out_the_same() {
    let t = Tokenizer::new();
    let mut session = SessionData::new(0);
    let mut first = tool_body();
    dedup(&mut first, &mut session, &t);
    let mut second = tool_body();
    dedup(&mut second, &mut session, &t);
    assert_eq!(first.render(), second.render());
}

#[test]
fn only_another_tool_use_is_a_repetition() {
    let seen = Some(ToolResultEntry { tool_use_id: "a".to_string(), original_token_count: 1 });
    assert!(repeats_another(&seen, "b"));
    assert!(!repeats_another(&seen, "a"));
    assert!(!repeats_another(&None, "a"));
}

// The pipeline

#[test]
fn the_last_user_text_is_the_query() {
    assert_eq!(
        extract_user_query(&parse("{\"messages\":[{\"role\":\"user\",\"content\":\"a\"},{\"role\":\"user\",\"content\":[{\"type\":\"image\"},{\"type\":\"text\",\"text\":\"b\"}]},{\"role\":\"assistant\",\"content\":\"c\"},{\"role\":\"user\",\"content\":[{\"type\":\"image\"}]}]}")),
        "b"
    );
    assert_eq!(extract_user_query(&parse("{}")), "");
}

#[test]
fn texts_are_found_and_written_back() {
    let text = "{\"messages\":[{\"content\":\"a\",\"role\":\"user\"},{\"content\":\"no\",\"role\":\"assistant\"},{\"content\":[{\"text\":\"b\",\"type\":\"text\"},{\"content\":\"c\",\"type\":\"tool_result\"},{\"content\":[{\"text\":\"d\",\"type\":\"text\"},{\"type\":\"image\"}],\"type\":\"tool_result\"}],\"role\":\"user\"}]}";
    let mut body = parse(text);
    let found = extract_compressible_texts(&body);
    let shown: Vec<(Vec<usize>, &str)> =
        found.iter().map(|s| (s.path.clone(), s.text.as_str())).collect();
    assert_eq!(
        shown,
        vec![
            (vec![0], "a"),
            (vec![2, 0], "b"),
            (vec![2, 1], "c"),
            (vec![2, 2, 0], "d")
        ]
    );
    for s in &found {
        write_text_back(&mut body, &s.path, &s.text);
    }
    assert_eq!(body.render(), text);
    for s in &found {
        write_text_back(&mut body, &s.path, &format!("{}!", s.text));
    }
    assert_eq!(
        body.render(),
        "{\"messages\":[{\"content\":\"a!\",\"role\":\"user\"},{\"content\":\"no\",\"role\":\"assistant\"},{\"content\":[{\"text\":\"b!\",\"type\":\"text\"},{\"content\":\"c!\",\"type\":\"tool_result\"},{\"content\":[{\"text\":\"d!\",\"type\":\"text\"},{\"type\":\"image\"}],\"type\":\"tool_result\"}],\"role\":\"user\"}]}"
    );
    let before = body.render();
    write_text_back(&mut body, &[9], "x");
    write_text_back(&mut body, &[], "x");
    write_text_back(&mut body, &[2, 0, 0, 0], "x");
    write_text_back(&mut body, &[2, 9], "x");
    assert_eq!(body.render(), before);
}

#[test]
fn without_stages_a_body_comes_out_as_it_went_in() {
    let mut body = tool_body();
    let before = body.render();
    let mut session = SessionData::new(0);
    let r = process(&mut body, &Tokenizer::new(), &off(), Some(&mut session), &Compiled::new().unwrap());
    assert_eq!(body.render(), before);
    assert!(r.events.is_empty() && r.tool_calls.is_empty());
}

#[test]
fn the_pipeline_compresses_users_and_leaves_assistants() {
    let mut body = parse("{\"messages\":[{\"role\":\"user\",\"content\":\"x = 1  # a long winded remark about x\"},{\"role\":\"assistant\",\"content\":\"y = 1  # a long winded remark about y\"}]}");
    let config = PipelineConfig { regex_structural: true, ..off() };
    let r = process(&mut body, &Tokenizer::new(), &config, None, &Compiled::new().unwrap());
    assert_eq!(
        body.render(),
        "{\"messages\":[{\"content\":\"x = 1\",\"role\":\"user\"},{\"content\":\"y = 1  # a long winded remark about y\",\"role\":\"assistant\"}]}"
    );
    assert_eq!(r.events.len(), 1);
    assert_eq!(r.events[0].stage_name, "B2_comments");
}

#[test]
fn old_texts_written_back_undo_compression() {
    let mut body = parse("{\"model\":\"m\",\"messages\":[{\"role\":\"user\",\"name\":\"n\",\"content\":\"x = 1  # a long winded remark about x\"},{\"role\":\"assistant\",\"content\":\"y = 1  # kept\"},{\"role\":\"user\",\"content\":[{\"type\":\"image\",\"source\":\"# s\"},{\"type\":\"text\",\"text\":\"z = 1  # a long winded remark about z\",\"tag\":7},{\"type\":\"tool_result\",\"tool_use_id\":\"t\",\"content\":[{\"type\":\"text\",\"text\":\"w = 1  # a long winded remark about w\"}]}]}]}");
    let before = body.render();
    let texts = extract_compressible_texts(&body);
    let config = PipelineConfig { regex_structural: true, ..off() };
    process(&mut body, &Tokenizer::new(), &config, None, &Compiled::new().unwrap());
    assert_eq!(
        body.render(),
        "{\"messages\":[{\"content\":\"x = 1\",\"name\":\"n\",\"role\":\"user\"},{\"content\":\"y = 1  # kept\",\"role\":\"assistant\"},{\"content\":[{\"source\":\"# s\",\"type\":\"image\"},{\"tag\":7,\"text\":\"z = 1\",\"type\":\"text\"},{\"content\":[{\"text\":\"w = 1\",\"type\":\"text\"}],\"tool_use_id\":\"t\",\"type\":\"tool_result\"}],\"role\":\"user\"}],\"model\":\"m\"}"
    );
    let after = extract_compressible_texts(&body);
    assert_eq!(after.len(), texts.len());
    for (a, b) in after.iter().zip(&texts) {
        assert_eq!(a.path, b.path);
        assert!(b.text.starts_with(&a.text));
    }
    for s in texts.iter().rev() {
        write_text_back(&mut body, &s.path, &s.text);
    }
    assert_eq!(body.render(), before);
}

#[test]
fn dedup_needs_a_session() {
    let config = PipelineConfig { tool_dedup: true, ..off() };
    let compiled = Compiled::new().unwrap();
    let mut body = tool_body();
    let r = process(&mut body, &Tokenizer::new(), &config, None, &compiled);
    assert!(r.tool_calls.is_empty());
    let mut session = SessionData::new(0);
    let r = process(&mut body, &Tokenizer::new(), &config, Some(&mut session), &compiled);
    assert_eq!(r.tool_calls.len(), 3);
}

#[test]
fn empty_results_and_trimming() {
    let r = PipelineResult::default();
    assert!(r.events.is_empty() && r.tool_calls.is_empty());
    let (text, events) = trim("as it is", &Tokenizer::new());
    assert_eq!(text, "as it is");
    assert!(events.is_empty());
}

// Settings

#[test]
fn defaults_are_as_documented() {
    let c = JanusConfig::default();
    assert_eq!(c.server.listen, "0.0.0.0:8080");
    assert_eq!(c.server.upstream_url, "https://api.anthropic.com");
    assert_eq!(f64::from_bits(c.cache.similarity_cutoff_bits), 0.85);
    assert_eq!(c.cache.ttl_seconds, 3600);
    assert_eq!(c.cache.redis_url, "redis://127.0.0.1:6379");
    assert!(c.cache.enabled && c.cache.stateless_only);
    assert_eq!(f64::from_bits(c.pipeline.semantic_threshold_bits), 0.35);
    assert_eq!(c.pipeline.min_lines_for_ast, 30);
    assert_eq!(f64::from_bits(c.pricing.input_cost_per_1k_bits), 0.003);
    assert_eq!(f64::from_bits(c.pricing.output_cost_per_1k_bits), 0.015);
    assert_eq!(c.model.embedding_model, "BAAI/bge-small-en-v1.5");
    assert_eq!(c.model.embedding_cache, "~/.janus/models");
}

#[test]
fn only_texts_of_the_user_and_tool_results_are_taken() {
    let body = parse("{\"messages\":[{\"role\":\"system\",\"content\":\"s\"},{\"role\":\"assistant\",\"content\":\"a\"},{\"role\":\"user\",\"content\":[{\"type\":\"tool_result\",\"content\":[{\"type\":\"text\",\"text\":\"t\"}]}]},{\"role\":\"tool\",\"content\":[{\"type\":\"text\",\"text\":\"no\"},{\"type\":\"tool_result\",\"content\":\"yes\"}]},{\"content\":\"nobody\"}]}");
    let found: Vec<(Vec<usize>, String)> =
        extract_compressible_texts(&body).into_iter().map(|s| (s.path, s.text)).collect();
    assert_eq!(found, vec![(vec![2, 0, 0], "t".to_string()), (vec![3, 1], "yes".to_string())]);
}
