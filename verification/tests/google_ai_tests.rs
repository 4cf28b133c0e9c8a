use google_ai::cache::ToolCallMeta;
use google_ai::client::GoogleAiClient;
use google_ai::json::{Json, Number};
use google_ai::stream::StartedBlocks;
use google_ai::types::{
    InputContentBlock, InputMessage, MessageRequest, OutputContentBlock, StreamEvent, ToolResultContentBlock,
};

fn s(text: &str) -> Json {
    Json::Str(text.to_string())
}

fn obj(members: Vec<(&str, Json)>) -> Json {
    Json::Obj(members.into_iter().map(|(k, v)| (k.to_string(), v)).collect())
}

fn posint(n: u64) -> Json {
    Json::Num(Number::PosInt(n))
}

fn new_client() -> GoogleAiClient {
    GoogleAiClient::new(None, Some("/root".to_string())).unwrap()
}

fn function_call_chunk(sig: &str, name: &str, args: Json) -> Json {
    obj(vec![(
        "response",
        obj(vec![(
            "candidates",
            Json::Arr(vec![obj(vec![
                ("index", posint(0)),
                (
                    "content",
                    obj(vec![(
                        "parts",
                        Json::Arr(vec![obj(vec![
                            ("thoughtSignature", s(sig)),
                            ("functionCall", obj(vec![("name", s(name)), ("args", args)])),
                        ])]),
                    )]),
                ),
            ])]),
        )]),
    )])
}

fn request_with(role: &str, block: InputContentBlock) -> MessageRequest {
    MessageRequest {
        model: "gemini-3-flash-preview".to_string(),
        max_tokens: 1024,
        messages: vec![InputMessage { role: role.to_string(), content: vec![block] }],
        system: None,
        tools: None,
        tool_choice: None,
        stream: false,
        stop: None,
        reasoning_effort: None,
    }
}

fn first_part(payload: &Json) -> &Json {
    let contents = payload.get("request").unwrap().get("contents").unwrap().as_array().unwrap();
    &contents[0].get("parts").unwrap().as_array().unwrap()[0]
}

#[test]
fn test_thought_signature_caching_in_send_message_response() {
    let mut client = new_client();

    let response_json = function_call_chunk("test-sig-123", "test_tool", obj(vec![("input", s("foo"))]));

    let candidate = &response_json.get("response").unwrap().get("candidates").unwrap().as_array().unwrap()[0];
    let part = &candidate.get("content").unwrap().get("parts").unwrap().as_array().unwrap()[0];
    let id = "call_0_0".to_string();

    let thought_signature = part.get_str("thoughtSignature").cloned();
    let name = part.get("functionCall").unwrap().get_str("name").unwrap().to_string();

    client.remember_tool_call(id.clone(), ToolCallMeta { name, thought_signature });

    let cached = client.tool_call_cache().get(&id).unwrap().clone();
    assert_eq!(cached.name, "test_tool");
    assert_eq!(cached.thought_signature, Some("test-sig-123".to_string()));
}

#[test]
fn test_thought_signature_caching_in_stream_chunk() {
    let mut client = new_client();
    let mut started_blocks = StartedBlocks::new();

    let chunk = function_call_chunk("stream-sig-456", "stream_tool", obj(vec![("cmd", s("ls"))]));

    let events = client.translate_response_chunk(chunk, &mut started_blocks);

    let start_event = events.iter().find(|e| matches!(e, StreamEvent::ContentBlockStart(_)));
    assert!(start_event.is_some(), "Should have emitted a ContentBlockStart");
    if let Some(StreamEvent::ContentBlockStart(ev)) = start_event {
        if let OutputContentBlock::ToolUse { id, .. } = &ev.content_block {
            assert!(id.contains("stream_tool"), "Tool ID should contain the tool name");
        } else {
            panic!("Should have been a ToolUse block");
        }
    }

    let cached = client
        .tool_call_cache()
        .get("call_0_0__@__stream_tool__@__stream-sig-456")
        .expect("Should have cached the tool call");
    assert_eq!(cached.name, "stream_tool");
    assert_eq!(cached.thought_signature, Some("stream-sig-456".to_string()));
}

#[test]
fn test_thought_signature_attachment_in_translate_request() {
    let mut client = new_client();
    let tool_use_id = "cached_call_id".to_string();

    client.remember_tool_call(
        tool_use_id.clone(),
        ToolCallMeta { name: "cached_tool".to_string(), thought_signature: Some("attached-sig-789".to_string()) },
    );

    let request = request_with(
        "assistant",
        InputContentBlock::ToolUse {
            id: tool_use_id.clone(),
            name: "cached_tool".to_string(),
            input: obj(vec![("arg", posint(1))]),
        },
    );

    let payload = client.translate_request(&request, "test-project").unwrap();
    let part = first_part(&payload);

    assert_eq!(part.get("functionCall").unwrap().get_str("name").unwrap(), "cached_tool");
    assert_eq!(part.get_str("thoughtSignature").unwrap(), "attached-sig-789");
}

#[test]
fn test_tool_name_resolution_for_tool_result() {
    let mut client = new_client();
    let tool_use_id = "result_call_id".to_string();

    client.remember_tool_call(
        tool_use_id.clone(),
        ToolCallMeta { name: "resolved_tool_name".to_string(), thought_signature: None },
    );

    let request = request_with(
        "user",
        InputContentBlock::ToolResult {
            tool_use_id: tool_use_id.clone(),
            content: vec![ToolResultContentBlock::Text { text: "success".to_string() }],
            is_error: false,
        },
    );

    let payload = client.translate_request(&request, "test-project").unwrap();
    let part = first_part(&payload);

    let response = part.get("functionResponse").unwrap();
    assert_eq!(response.get_str("name").unwrap(), "resolved_tool_name");
    assert_eq!(response.get("response").unwrap().get_str("output").unwrap(), "success");
}
