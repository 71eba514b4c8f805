use janus::cache::redis_cache::{
    classify_index_error, create_args, embedding_to_bytes, entry_fields, has_search_module,
    index_name, model_key_prefix, names_search, new_entry, parse_search_reply, read_record,
    search_args, stats_of_keys, CacheTask, Field, IndexError, Purpose, Reply, TaskAction, TaskInput,
    NEAR_DUPLICATE_BITS,
};
use janus::cache::CacheStats;
use janus::text::parse_usize;

fn bytes(s: &str) -> Reply {
    Reply::Bytes(s.as_bytes().to_vec())
}

fn reply(fields: Vec<Reply>) -> Reply {
    Reply::Items(vec![Reply::Other, bytes("key"), Reply::Items(fields)])
}

#[test]
fn names_of_keys_and_indexes() {
    assert_eq!(model_key_prefix("a/b-c.d"), "janus:cache:a_b_c_d:");
    assert_eq!(index_name("sonnet-3.5"), "janus_cache_sonnet_3_5");
}

#[test]
fn commands_have_their_arguments() {
    let args: Vec<String> =
        create_args("m").into_iter().map(|a| String::from_utf8(a).unwrap()).collect();
    assert_eq!(
        args.join(" "),
        "janus_cache_m ON HASH PREFIX 1 janus:cache:m: SCHEMA embedding VECTOR HNSW 6 TYPE FLOAT32 DIM 384 DISTANCE_METRIC COSINE model TAG tokens_saved NUMERIC"
    );
    let args = search_args("m", vec![1, 2]);
    assert_eq!(args.len(), 10);
    assert_eq!(args[1], b"*=>[KNN 1 @embedding $vec AS score]".to_vec());
    assert_eq!(args[5], vec![1, 2]);
    assert_eq!(args[9], b"2".to_vec());
}

#[test]
fn embeddings_are_little_endian() {
    let v = [1.5f32, -0.25f32];
    let bits: Vec<u32> = v.iter().map(|f| f.to_bits()).collect();
    let expected: Vec<u8> = v.iter().flat_map(|f| f.to_le_bytes()).collect();
    assert_eq!(embedding_to_bytes(&bits), expected);
    assert_eq!(embedding_to_bytes(&vec![0x0403_0201]), vec![1, 2, 3, 4]);
}

#[test]
fn index_errors_are_told_apart() {
    assert_eq!(classify_index_error("Index already exists"), IndexError::Exists);
    assert_eq!(classify_index_error("ERR unknown command 'FT.CREATE'"), IndexError::NoModule);
    assert_eq!(classify_index_error("unknown command"), IndexError::NoModule);
    assert_eq!(classify_index_error("timeout"), IndexError::Other);
}

#[test]
fn search_modules_are_recognized() {
    assert!(names_search("bulk(\"search\")"));
    assert!(!names_search("SEARCH"));
    assert!(has_search_module("bulk(\"SEARCH\")"));
    assert!(!has_search_module("bulk(\"json\")"));
}

#[test]
fn a_found_entry_is_read() {
    let r = parse_search_reply(&reply(vec![
        bytes("score"),
        bytes("0.1"),
        bytes("response"),
        bytes("{}"),
        Reply::Other,
        bytes("skipped"),
        bytes("model"),
        bytes("m"),
        bytes("tokens_saved"),
        bytes("42"),
        bytes("dangling"),
    ]))
    .unwrap();
    assert_eq!(r.score, Some("0.1".to_string()));
    assert_eq!(r.response, Some(b"{}".to_vec()));
    assert_eq!(r.model, "m");
    assert_eq!(r.tokens_saved, 42);
}

#[test]
fn replies_without_an_entry_give_nothing() {
    assert!(parse_search_reply(&Reply::Other).is_none());
    assert!(parse_search_reply(&Reply::Items(vec![Reply::Other])).is_none());
    assert!(parse_search_reply(&Reply::Items(vec![Reply::Other, Reply::Other, Reply::Other])).is_none());
    let r = parse_search_reply(&reply(vec![bytes("tokens_saved"), bytes("many")])).unwrap();
    assert_eq!((r.score, r.response, r.tokens_saved), (None, None, 0));
    let r = parse_search_reply(&reply(vec![bytes("score"), Reply::Other])).unwrap();
    assert_eq!(r.score, None);
    let r = parse_search_reply(&reply(vec![bytes("model"), Reply::Bytes(vec![0xff, b'm'])])).unwrap();
    assert_eq!(r.model, "\u{fffd}m");
}

#[test]
fn stored_entries_are_found_again() {
    let fields = entry_fields(vec![9], b"body", "model", 7);
    let mut read: Vec<Field> = vec![Field {
        name: "score".to_string(),
        value: Some((b"0.2".to_vec(), "0.2".to_string())),
    }];
    for (name, value) in fields {
        let text = String::from_utf8_lossy(&value).into_owned();
        read.push(Field { name, value: Some((value, text)) });
    }
    let r = read_record(&read);
    assert_eq!(r.score, Some("0.2".to_string()));
    assert_eq!(r.response, Some(b"body".to_vec()));
    assert_eq!(r.model, "model");
    assert_eq!(r.tokens_saved, 7);
}

#[test]
fn numbers_are_read_as_the_standard_library_does() {
    for s in ["0", "42", "+7", "", "+", "-1", " 1", "1 ", "a", "18446744073709551615", "18446744073709551616"] {
        assert_eq!(parse_usize(s), s.parse::<usize>().ok(), "{}", s);
    }
}

#[test]
fn statistics() {
    assert_eq!(stats_of_keys(3), CacheStats { total_entries: 3, total_hits: 0, total_misses: 0 });
    assert_eq!(CacheStats::default(), stats_of_keys(0));
    assert_eq!(f64::from_bits(NEAR_DUPLICATE_BITS), 0.95);
}

fn hit() -> Reply {
    reply(vec![bytes("score"), bytes("0.1"), bytes("response"), bytes("{}")])
}

#[test]
fn a_lookup_finds_an_entry() {
    let (mut task, action) = CacheTask::begin(Purpose::Lookup);
    assert!(matches!(action, TaskAction::CheckIndex));
    assert!(matches!(task.step(TaskInput::Checked(true)), TaskAction::Search));
    match task.step(TaskInput::Searched(Some(hit()))) {
        TaskAction::Compare(score) => assert_eq!(score, "0.1"),
        _ => panic!("no comparison"),
    }
    match task.step(TaskInput::Compared(Some(5))) {
        TaskAction::Give(Some(c)) => {
            assert_eq!(c.response_body, b"{}".to_vec());
            assert_eq!(c.similarity_bits, 5);
        }
        _ => panic!("no response"),
    }
    assert!(matches!(task.step(TaskInput::Compared(None)), TaskAction::Nothing));
}

#[test]
fn a_lookup_without_a_match_gives_nothing() {
    for input in [TaskInput::Searched(None), TaskInput::Searched(Some(Reply::Other))] {
        let (mut task, _) = CacheTask::begin(Purpose::Lookup);
        task.step(TaskInput::Checked(true));
        assert!(matches!(task.step(input), TaskAction::Give(None)));
    }
    let (mut task, _) = CacheTask::begin(Purpose::Lookup);
    task.step(TaskInput::Checked(true));
    task.step(TaskInput::Searched(Some(hit())));
    assert!(matches!(task.step(TaskInput::Compared(None)), TaskAction::Give(None)));
}

#[test]
fn a_missing_index_is_created() {
    let (mut task, _) = CacheTask::begin(Purpose::Store);
    assert!(matches!(task.step(TaskInput::Checked(false)), TaskAction::CreateIndex));
    assert!(matches!(task.step(TaskInput::Created(None)), TaskAction::Search));
    assert!(matches!(task.step(TaskInput::Searched(None)), TaskAction::Write));
    let (mut task, _) = CacheTask::begin(Purpose::Store);
    task.step(TaskInput::Checked(false));
    let raced = TaskInput::Created(Some("Index already exists".to_string()));
    assert!(matches!(task.step(raced), TaskAction::Search));
    let (mut task, _) = CacheTask::begin(Purpose::Store);
    task.step(TaskInput::Checked(false));
    let failed = TaskInput::Created(Some("ERR unknown command".to_string()));
    assert!(matches!(task.step(failed), TaskAction::Fail(IndexError::NoModule)));
}

#[test]
fn near_duplicates_are_skipped() {
    let (mut task, _) = CacheTask::begin(Purpose::Store);
    task.step(TaskInput::Checked(true));
    task.step(TaskInput::Searched(Some(hit())));
    assert!(matches!(task.step(TaskInput::Compared(Some(1))), TaskAction::Skip));
}

#[test]
fn what_a_store_writes() {
    let bits = vec![0x0403_0201u32];
    let e = new_entry("a/b", "id", &bits, b"body", 7, 60);
    assert_eq!(e.key, "janus:cache:a_b:id");
    assert_eq!(e.ttl_seconds, 60);
    let fields: Vec<(&str, &[u8])> =
        e.fields.iter().map(|f| (f.0.as_str(), f.1.as_slice())).collect();
    assert_eq!(
        fields,
        vec![
            ("embedding", &[1u8, 2, 3, 4][..]),
            ("response", &b"body"[..]),
            ("model", &b"a/b"[..]),
            ("tokens_saved", &b"7"[..])
        ]
    );
}

#[test]
fn two_ids_make_two_keys() {
    let bits = vec![0u32];
    let key = |model: &str, id: &str| new_entry(model, id, &bits, b"", 0, 1).key;
    assert_ne!(key("a", "1234"), key("a", "1235"));
    assert_ne!(key("a:1", "2345"), key("a", "1234"));
    assert_eq!(key("a-b", "1234"), key("a.b", "1234"));
}
