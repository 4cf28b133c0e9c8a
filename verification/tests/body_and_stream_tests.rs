use google_ai::client::GoogleAiClient;
use google_ai::json::{parse_json, Json};
use google_ai::retry::{is_success, retry_delay_from_body};
use google_ai::stream::StartedBlocks;
use google_ai::stream_session::StreamSession;
use google_ai::types::{
    ApiError, ContentBlockDelta, InputContentBlock, InputMessage, MessageRequest, OutputContentBlock, StreamEvent,
};

fn new_client() -> GoogleAiClient {
    GoogleAiClient::new(None, Some("/home/u".to_string())).unwrap()
}

fn request(messages: Vec<InputMessage>) -> MessageRequest {
    MessageRequest {
        model: "gemini-2.5-pro".to_string(),
        max_tokens: 1024,
        messages,
        system: None,
        tools: None,
        tool_choice: None,
        stream: false,
        stop: None,
        reasoning_effort: None,
    }
}

fn describe(e: &StreamEvent) -> String {
    match e {
        StreamEvent::MessageStart(m) => format!("message_start {}", m.message.model),
        StreamEvent::ContentBlockStart(b) => match &b.content_block {
            OutputContentBlock::Text { .. } => format!("start {} text", b.index),
            OutputContentBlock::ToolUse { id, name, .. } => format!("start {} tool {} {}", b.index, id, name),
        },
        StreamEvent::ContentBlockDelta(d) => match &d.delta {
            ContentBlockDelta::TextDelta { text } => format!("delta {} text {}", d.index, text),
            ContentBlockDelta::InputJsonDelta { partial_json } => format!("delta {} json {}", d.index, partial_json),
        },
        StreamEvent::ContentBlockStop(b) => format!("stop {}", b.index),
        StreamEvent::MessageDelta(m) => format!("usage {} {}", m.usage.input_tokens, m.usage.output_tokens),
        StreamEvent::MessageStop(_) => "message_stop".to_string(),
    }
}

fn describe_all(events: &[StreamEvent]) -> Vec<String> {
    events.iter().map(describe).collect()
}

/// The tool name and thought signature that a request sends back for a tool call ID.
fn sent_back(client: &GoogleAiClient, id: &str) -> (String, Option<String>) {
    let req = request(vec![
        InputMessage {
            role: "model".to_string(),
            content: vec![InputContentBlock::ToolUse { id: id.to_string(), name: "x".to_string(), input: Json::empty_object() }],
        },
        InputMessage {
            role: "user".to_string(),
            content: vec![InputContentBlock::ToolResult { tool_use_id: id.to_string(), content: vec![], is_error: false }],
        },
    ]);
    let payload = client.translate_request(&req, "p").unwrap();
    let contents = payload.get("request").unwrap().get("contents").unwrap().as_array().unwrap();
    let call_part = &contents[0].get("parts").unwrap().as_array().unwrap()[0];
    let result_part = &contents[1].get("parts").unwrap().as_array().unwrap()[0];
    let name = result_part.get("functionResponse").unwrap().get_str("name").unwrap().clone();
    (name, call_part.get_str("thoughtSignature").cloned())
}

#[test]
fn parsing_json_text_gives_its_value() {
    let j = parse_json("{\"a\": [1, -2, \"x\", true, null]}").unwrap();
    assert_eq!(j.to_json_text(), "{\"a\":[1,-2,\"x\",true,null]}");
    assert!(parse_json("{\"a\":").is_err());
    assert!(parse_json("").is_err());
}

#[test]
fn an_answer_body_becomes_a_message() {
    let mut client = new_client();
    let body = "{\"response\":{\"candidates\":[{\"content\":{\"parts\":[{\"text\":\"hi\"},{\"functionCall\":{\"name\":\"ls\",\"args\":{\"d\":1}},\"thoughtSignature\":\"s1\"}]}}],\"usageMetadata\":{\"promptTokenCount\":7,\"candidatesTokenCount\":3}}}";
    let m = client.read_generate_body(body, &"gemini-x".to_string()).unwrap();
    assert_eq!(m.model, "gemini-x");
    assert_eq!(m.usage.input_tokens, 7);
    assert_eq!(m.usage.output_tokens, 3);
    assert_eq!(m.content.len(), 2);
    match &m.content[1] {
        OutputContentBlock::ToolUse { id, name, input } => {
            assert_eq!(id, "call_0_1");
            assert_eq!(name, "ls");
            assert_eq!(input.to_json_text(), "{\"d\":1}");
        },
        _ => panic!("not a tool use"),
    }
    assert_eq!(sent_back(&client, "call_0_1"), ("ls".to_string(), Some("s1".to_string())));
}

#[test]
fn a_body_that_is_not_json_is_a_json_error() {
    let mut client = new_client();
    match client.read_generate_body("<html>busy</html>", &"gemini-x".to_string()) {
        Err(ApiError::Json { provider, model, body, detail }) => {
            assert_eq!(provider, "Google");
            assert_eq!(model, "gemini-x");
            assert_eq!(body, "<html>busy</html>");
            assert!(!detail.is_empty());
        },
        other => panic!("unexpected {:?}", other),
    }
    assert!(client.tool_call_cache().len() == 0);
}

#[test]
fn an_answered_call_is_still_sent_back_after_later_answers() {
    let mut client = new_client();
    let first = "{\"candidates\":[{\"content\":{\"parts\":[{\"functionCall\":{\"name\":\"test_tool\"},\"thoughtSignature\":\"test-sig-123\"}]}}]}";
    client.read_generate_body(first, &"m".to_string()).unwrap();
    let second = "{\"candidates\":[{\"content\":{\"parts\":[{\"text\":\"a\"},{\"functionCall\":{\"name\":\"other\"},\"thoughtSignature\":\"s2\"}]}}]}";
    client.read_generate_body(second, &"m".to_string()).unwrap();
    assert_eq!(sent_back(&client, "call_0_0"), ("test_tool".to_string(), Some("test-sig-123".to_string())));
    assert_eq!(sent_back(&client, "call_0_1"), ("other".to_string(), Some("s2".to_string())));
}

#[test]
fn a_name_with_an_at_sign_comes_back_from_a_streamed_id() {
    let mut streaming = new_client();
    let mut started = StartedBlocks::new();
    let events = streaming.translate_payload(
        "{\"candidates\":[{\"content\":{\"parts\":[{\"functionCall\":{\"name\":\"a@b\"},\"thoughtSignature\":\"x@y\"}]}}]}",
        &mut started,
    );
    let id = match &events[0] {
        StreamEvent::ContentBlockStart(b) => match &b.content_block {
            OutputContentBlock::ToolUse { id, .. } => id.clone(),
            _ => panic!("not a tool use"),
        },
        _ => panic!("not a block start"),
    };
    assert_eq!(id, "call_0_0__@__a@b__@__x@y");
    assert_eq!(sent_back(&new_client(), &id), ("a@b".to_string(), Some("x@y".to_string())));
}

#[test]
fn a_name_that_forms_the_delimiter_at_the_joint_is_cut() {
    let (name, sig) = sent_back(&new_client(), "call_0_0__@__a__@__@__s");
    assert_eq!(name, "a");
    assert_eq!(sig, Some("@__s".to_string()));
}

#[test]
fn a_payload_that_is_not_json_gives_no_event() {
    let mut client = new_client();
    let mut started = StartedBlocks::new();
    let events = client.translate_payload("{\"candidates\":[{\"content\":{\"parts\":[{\"text\":\"a\"}]}}]}", &mut started);
    assert_eq!(describe_all(&events), vec!["start 0 text", "delta 0 text a"]);
    let none = client.translate_payload("{\"candidates\":", &mut started);
    assert!(none.is_empty());
    assert_eq!(started.len(), 1);
    assert_eq!(started.at(0), 0);
}

#[test]
fn the_events_of_a_run_of_chunks_say_which_blocks_are_open() {
    let mut client = new_client();
    let mut started = StartedBlocks::new();
    let mut all: Vec<StreamEvent> = Vec::new();
    all.extend(client.translate_payload("{\"candidates\":[{\"content\":{\"parts\":[{\"text\":\"a\"},{\"text\":\"b\"}]}}]}", &mut started));
    all.extend(client.translate_payload("{\"candidates\":[{\"content\":{\"parts\":[{\"text\":\"c\"}]}}]}", &mut started));
    assert_eq!(started.len(), 2);
    all.extend(client.translate_payload(
        "{\"candidates\":[{\"content\":{\"parts\":[{\"text\":\"d\"}]},\"finishReason\":\"STOP\"}]}",
        &mut started,
    ));
    assert_eq!(started.len(), 0);
    assert_eq!(
        describe_all(&all),
        vec![
            "start 0 text", "delta 0 text a", "start 1 text", "delta 1 text b", "delta 0 text c",
            "delta 0 text d", "stop 0", "stop 1",
        ]
    );
}

#[test]
fn a_stream_session_reads_lines_split_across_pieces() {
    let mut client = new_client();
    let mut session = StreamSession::new();
    let first = session.on_bytes(&mut client, b"data: {\"candidates\":[{\"content\":{\"par");
    assert!(first.is_empty());
    let second = session.on_bytes(&mut client, b"ts\":[{\"text\":\"hi\"}]}}]}\n\ndata: [DONE]\nevent: x\n");
    assert_eq!(describe_all(&second), vec!["start 0 text", "delta 0 text hi"]);
    let third = session.on_bytes(&mut client, b"data: {\"candidates\":[{\"finishReason\":\"STOP\"}]}");
    assert!(third.is_empty());
    let end = session.on_end(&mut client);
    assert_eq!(describe_all(&end), vec!["stop 0", "message_stop"]);
}

#[test]
fn a_stream_session_skips_payloads_that_are_not_json() {
    let mut client = new_client();
    let mut session = StreamSession::new();
    let events = session.on_bytes(&mut client, b"data: {oops\ndata: {\"candidates\":[{\"content\":{\"parts\":[{\"text\":\"x\"}]}}]}\n");
    assert_eq!(describe_all(&events), vec!["start 0 text", "delta 0 text x"]);
    assert_eq!(describe_all(&session.on_end(&mut client)), vec!["message_stop"]);
}

#[test]
fn a_failed_load_code_assist_quotes_the_status_and_body() {
    let mut client = new_client();
    match client.finish_load_code_assist(404, "nope") {
        Err(ApiError::Auth(m)) => assert_eq!(m, "loadCodeAssist HTTP 404 Not Found \u{2014} nope"),
        other => panic!("unexpected {:?}", other),
    }
    match client.finish_load_code_assist(599, "") {
        Err(ApiError::Auth(m)) => assert_eq!(m, "loadCodeAssist HTTP 599 <unknown status code> \u{2014} "),
        other => panic!("unexpected {:?}", other),
    }
    assert!(client.project().is_none());
}

#[test]
fn a_failed_load_code_assist_quotes_at_most_300_bytes() {
    let mut client = new_client();
    let body = "é".repeat(200);
    match client.finish_load_code_assist(500, &body) {
        Err(ApiError::Auth(m)) => {
            assert_eq!(m, format!("loadCodeAssist HTTP 500 Internal Server Error \u{2014} {}", "é".repeat(150)))
        },
        other => panic!("unexpected {:?}", other),
    }
}

#[test]
fn a_load_code_assist_answer_names_the_project() {
    let mut client = new_client();
    assert_eq!(client.finish_load_code_assist(200, "{\"cloudaicompanionProject\":\"proj-7\"}").unwrap(), "proj-7");
    assert_eq!(client.project().unwrap(), "proj-7");
    let mut other = new_client();
    match other.finish_load_code_assist(200, "{\"cloudaicompanionProject\":\"\"}") {
        Err(ApiError::Auth(m)) => assert!(m.starts_with("Could not resolve project_id.")),
        r => panic!("unexpected {:?}", r),
    }
    match other.finish_load_code_assist(200, "not json") {
        Err(ApiError::Json { provider, model, body, .. }) => {
            assert_eq!(provider, "Google");
            assert_eq!(model, "loadCodeAssist");
            assert_eq!(body, "not json");
        },
        r => panic!("unexpected {:?}", r),
    }
    assert!(other.project().is_none());
}

#[test]
fn retry_delays_are_read_from_error_bodies() {
    assert_eq!(
        retry_delay_from_body("{\"error\":{\"details\":[{\"retryDelay\":\"12.5s\"}]}}"),
        Some("12.5".to_string())
    );
    assert_eq!(retry_delay_from_body("{\"error\":{\"details\":[]}}"), None);
    assert_eq!(retry_delay_from_body("Too many requests"), None);
}

#[test]
fn success_statuses_are_the_two_hundreds() {
    assert!(is_success(200));
    assert!(is_success(299));
    assert!(!is_success(199));
    assert!(!is_success(300));
    assert!(!is_success(429));
}

fn read_all(pieces: &[&[u8]]) -> Vec<String> {
    let mut client = new_client();
    let mut session = StreamSession::new();
    let mut events: Vec<StreamEvent> = Vec::new();
    for p in pieces {
        events.extend(session.on_bytes(&mut client, p));
    }
    events.extend(session.on_end(&mut client));
    describe_all(&events)
}

#[test]
fn two_cuttings_between_characters_give_the_same_events() {
    let body = "data: {\"candidates\":[{\"content\":{\"parts\":[{\"text\":\"caf\u{e9} \u{2014} ok\"}]}}]}\n".as_bytes();
    let whole = read_all(&[body]);
    let cut = body.iter().position(|b| *b == 0xC3).unwrap();
    let dash = body.iter().position(|b| *b == 0xE2).unwrap();
    let pieces = read_all(&[&body[..cut], &body[cut..dash], &body[dash..]]);
    assert_eq!(whole, pieces);
    assert_eq!(whole, vec!["start 0 text", "delta 0 text caf\u{e9} \u{2014} ok", "message_stop"]);
}

#[test]
fn a_character_cut_in_two_is_decoded_piece_by_piece() {
    let body = "data: {\"candidates\":[{\"content\":{\"parts\":[{\"text\":\"\u{e9}\"}]}}]}\n".as_bytes();
    let cut = body.iter().position(|b| *b == 0xC3).unwrap() + 1;
    let pieces = read_all(&[&body[..cut], &body[cut..]]);
    assert_eq!(pieces, vec!["start 0 text", "delta 0 text \u{fffd}\u{fffd}", "message_stop"]);
}

#[test]
fn an_answered_call_outlasts_streamed_chunks_and_other_answers() {
    let mut client = new_client();
    let first = "{\"candidates\":[{\"content\":{\"parts\":[{\"functionCall\":{\"name\":\"test_tool\"},\"thoughtSignature\":\"test-sig-123\"}]}}]}";
    client.read_generate_body(first, &"m".to_string()).unwrap();
    let mut started = StartedBlocks::new();
    client.translate_payload(
        "{\"candidates\":[{\"content\":{\"parts\":[{\"functionCall\":{\"name\":\"other\"},\"thoughtSignature\":\"s9\"}]}}]}",
        &mut started,
    );
    let other = "{\"candidates\":[{\"index\":1,\"content\":{\"parts\":[{\"functionCall\":{\"name\":\"third\"}}]}}]}";
    client.read_generate_body(other, &"m".to_string()).unwrap();
    assert_eq!(sent_back(&client, "call_0_0"), ("test_tool".to_string(), Some("test-sig-123".to_string())));
    assert_eq!(sent_back(&client, "call_1_0"), ("third".to_string(), None));
}
