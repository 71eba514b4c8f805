use janus::json::Json;
use janus::stream_reassemble::{
    assemble, events_of_message, json_to_sse, reconstruct_response, StreamTee, MAX_BUFFER_SIZE,
};

fn parse(s: &str) -> Json {
    Json::parse(s.as_bytes()).unwrap()
}

const STREAM: &str = "event: message_start\ndata: {\"type\":\"message_start\",\"message\":{\"id\":\"msg_1\",\"role\":\"assistant\",\"content\":[],\"usage\":{\"input_tokens\":10}}}\n\nevent: content_block_start\ndata: {\"type\":\"content_block_start\",\"index\":0,\"content_block\":{\"type\":\"text\",\"text\":\"\"}}\n\nevent: content_block_delta\ndata: {\"type\":\"content_block_delta\",\"index\":0,\"delta\":{\"type\":\"text_delta\",\"text\":\"Hel\"}}\n\nevent: content_block_delta\ndata: {\"type\":\"content_block_delta\",\"index\":0,\"delta\":{\"type\":\"text_delta\",\"text\":\"lo\"}}\n\nevent: content_block_stop\ndata: {\"type\":\"content_block_stop\",\"index\":0}\n\nevent: message_delta\ndata: {\"type\":\"message_delta\",\"delta\":{\"stop_reason\":\"end_turn\",\"stop_sequence\":null},\"usage\":{\"output_tokens\":2}}\n\n";

#[test]
fn reconstructs_a_text_response() {
    let full = format!("{}event: message_stop\ndata: {{\"type\":\"message_stop\"}}\n\n", STREAM);
    let bytes = reconstruct_response(&full).unwrap();
    assert_eq!(
        String::from_utf8(bytes).unwrap(),
        "{\"content\":[{\"text\":\"Hello\",\"type\":\"text\"}],\"id\":\"msg_1\",\"role\":\"assistant\",\"stop_reason\":\"end_turn\",\"stop_sequence\":null,\"usage\":{\"input_tokens\":10,\"output_tokens\":2}}"
    );
}

#[test]
fn incomplete_stream_gives_nothing() {
    assert!(reconstruct_response(STREAM).is_none());
    assert!(reconstruct_response("").is_none());
    assert!(reconstruct_response("data: {\"type\":\"message_stop\"}\n").is_none());
}

#[test]
fn a_message_that_is_no_object_gives_nothing() {
    let s = "data: {\"type\":\"message_start\",\"message\":7}\ndata: {\"type\":\"message_stop\"}\n";
    assert!(reconstruct_response(s).is_none());
}

#[test]
fn unreadable_lines_are_passed_over() {
    let s = "data: nonsense\r\n: comment\ndata: {\"type\":\"message_start\",\"message\":{\"delta\":1}}\r\n  data: {\"type\":\"message_stop\"}  \n";
    assert_eq!(
        String::from_utf8(reconstruct_response(s).unwrap()).unwrap(),
        "{\"content\":[]}"
    );
}

#[test]
fn gaps_between_blocks_are_filled_with_empty_text_blocks() {
    let s = "data: {\"type\":\"message_start\",\"message\":{}}\ndata: {\"type\":\"content_block_start\",\"index\":1,\"content_block\":{\"type\":\"tool_use\",\"id\":\"t\",\"name\":\"f\",\"input\":{}}}\ndata: {\"type\":\"content_block_delta\",\"index\":1,\"delta\":{\"type\":\"input_json_delta\",\"partial_json\":\"{\\\"a\\\"\"}}\ndata: {\"type\":\"content_block_delta\",\"index\":1,\"delta\":{\"type\":\"input_json_delta\",\"partial_json\":\":1}\"}}\ndata: {\"type\":\"message_stop\"}\n";
    assert_eq!(
        String::from_utf8(reconstruct_response(s).unwrap()).unwrap(),
        "{\"content\":[{\"text\":\"\",\"type\":\"text\"},{\"id\":\"t\",\"input\":{\"a\":1},\"name\":\"f\",\"type\":\"tool_use\"}]}"
    );
}

#[test]
fn stream_of_a_message_has_the_events_in_order() {
    let sse = json_to_sse(b"{\"id\":\"m\",\"content\":[{\"type\":\"text\",\"text\":\"hi\"}],\"stop_reason\":\"end_turn\",\"stop_sequence\":null,\"usage\":{\"input_tokens\":1,\"output_tokens\":2}}").unwrap();
    assert_eq!(
        String::from_utf8(sse).unwrap(),
        "event: message_start\ndata: {\"message\":{\"content\":[],\"id\":\"m\",\"stop_reason\":null,\"stop_sequence\":null,\"usage\":{\"input_tokens\":1}},\"type\":\"message_start\"}\n\nevent: content_block_start\ndata: {\"content_block\":{\"text\":\"\",\"type\":\"text\"},\"index\":0,\"type\":\"content_block_start\"}\n\nevent: content_block_delta\ndata: {\"delta\":{\"text\":\"hi\",\"type\":\"text_delta\"},\"index\":0,\"type\":\"content_block_delta\"}\n\nevent: content_block_stop\ndata: {\"index\":0,\"type\":\"content_block_stop\"}\n\nevent: message_delta\ndata: {\"delta\":{\"stop_reason\":\"end_turn\",\"stop_sequence\":null},\"type\":\"message_delta\",\"usage\":{\"output_tokens\":2}}\n\nevent: message_stop\ndata: {\"type\":\"message_stop\"}\n\n"
    );
}

#[test]
fn a_response_that_is_no_object_has_no_stream() {
    assert!(json_to_sse(b"[1,2]").is_none());
    assert!(json_to_sse(b"\"text\"").is_none());
    assert!(json_to_sse(b"{").is_none());
    assert!(json_to_sse(b"null").is_some());
}

#[test]
fn stream_carries_the_whole_message() {
    let m = "{\"content\":[{\"text\":\"a\\nb\",\"type\":\"text\"},{\"text\":\"\",\"type\":\"text\"},{\"id\":\"t1\",\"input\":{\"n\":-3,\"q\":[1,2]},\"name\":\"run\",\"type\":\"tool_use\"},{\"signature\":\"sig\",\"thinking\":\"hm\",\"type\":\"thinking\"},{\"thinking\":\"\",\"type\":\"thinking\"},{\"data\":\"x\",\"type\":\"redacted_thinking\"}],\"id\":\"m\",\"stop_reason\":\"tool_use\",\"stop_sequence\":null,\"usage\":{\"input_tokens\":5,\"output_tokens\":7}}";
    assert!(parse(m).is_plain(126));
    let sse = json_to_sse(m.as_bytes()).unwrap();
    let back = reconstruct_response(&String::from_utf8(sse).unwrap()).unwrap();
    assert_eq!(String::from_utf8(back).unwrap(), m);
}

#[test]
fn events_make_the_message_again() {
    let m = parse("{\"content\":[{\"text\":\"x\",\"type\":\"text\"}],\"stop_reason\":null,\"stop_sequence\":null}");
    let events = events_of_message(&m);
    assert_eq!(events.len(), 6);
    assert_eq!(assemble(&events).unwrap().render(), m.render());
}

#[test]
fn tee_keeps_a_stream() {
    let mut tee = StreamTee::new();
    tee.chunk(b"ab");
    tee.chunk(b"c");
    assert_eq!(tee.finish(), Some(b"abc".to_vec()));
    assert_eq!(tee.finish(), None);
}

#[test]
fn tee_gives_up_on_errors_and_long_streams() {
    let mut tee = StreamTee::new();
    tee.chunk(b"ab");
    tee.fail();
    tee.chunk(b"c");
    assert_eq!(tee.finish(), None);
    let mut tee = StreamTee::new();
    tee.chunk(&vec![0u8; MAX_BUFFER_SIZE]);
    assert_eq!(tee.finish().map(|b| b.len()), Some(MAX_BUFFER_SIZE));
    let mut tee = StreamTee::new();
    tee.chunk(&vec![0u8; MAX_BUFFER_SIZE]);
    tee.chunk(b"x");
    assert_eq!(tee.finish(), None);
}

#[test]
fn deep_content_is_carried_too() {
    let input = format!("{}1{}", "[".repeat(124), "]".repeat(124));
    let m = format!("{{\"content\":[{{\"id\":\"t\",\"input\":{},\"name\":\"f\",\"type\":\"tool_use\"}},{{\"data\":{},\"type\":\"other\"}}],\"stop_reason\":null,\"stop_sequence\":null,\"x\":{{\"!\":0,\"$serde_json::private::RawValue\":1}}}}", input, input);
    assert!(parse(&m).is_plain(127) && !parse(&m).is_plain(126));
    let sse = json_to_sse(m.as_bytes()).unwrap();
    let back = reconstruct_response(&String::from_utf8(sse).unwrap()).unwrap();
    assert_eq!(String::from_utf8(back).unwrap(), m);
}
