use google_ai::auth::{load_code_assist_payload, refresh_answer_fits, OAuthCreds, ProjectStep, TokenStep};
use google_ai::cache::ToolCallMeta;
use google_ai::client::GoogleAiClient;
use google_ai::json::{Json, Number};
use google_ai::retry::{after_failure, retry_delay_text, FailureStep};
use google_ai::session::{
    generate_content_url, load_code_assist_headers, message_start_event, message_stop_event, request_headers,
    stream_content_url,
};
use google_ai::stream::StartedBlocks;
use google_ai::types::{
    ApiError, ContentBlockDelta, InputContentBlock, InputMessage, MessageRequest, OutputContentBlock, StreamEvent,
    ToolDefinition, ToolResultContentBlock,
};

fn s(text: &str) -> Json {
    Json::Str(text.to_string())
}

fn obj(members: Vec<(&str, Json)>) -> Json {
    Json::Obj(members.into_iter().map(|(k, v)| (k.to_string(), v)).collect())
}

fn arr(items: Vec<Json>) -> Json {
    Json::Arr(items)
}

fn num(n: u64) -> Json {
    Json::Num(Number::PosInt(n))
}

fn new_client() -> GoogleAiClient {
    GoogleAiClient::new(None, Some("/home/u".to_string())).unwrap()
}

fn chunk(candidates: Vec<Json>) -> Json {
    obj(vec![("response", obj(vec![("candidates", arr(candidates))]))])
}

fn candidate(parts: Vec<Json>) -> Json {
    obj(vec![("content", obj(vec![("parts", arr(parts))]))])
}

fn text_part(t: &str) -> Json {
    obj(vec![("text", s(t))])
}

fn message(role: &str, content: Vec<InputContentBlock>) -> InputMessage {
    InputMessage { role: role.to_string(), content }
}

fn request(messages: Vec<InputMessage>) -> MessageRequest {
    MessageRequest {
        model: "gemini-2.5-pro".to_string(),
        max_tokens: 1024,
        messages,
        system: None,
        tools: None,
        tool_choice: None,
        stream: false,
        stop: None,
        reasoning_effort: None,
    }
}

fn parts_of(payload: &Json, k: usize) -> &Vec<Json> {
    let contents = payload.get("request").unwrap().get("contents").unwrap().as_array().unwrap();
    contents[k].get("parts").unwrap().as_array().unwrap()
}

fn creds(expiry_date: u64, expiry: Option<&str>) -> OAuthCreds {
    OAuthCreds {
        access_token: "old-token".to_string(),
        scope: "scope".to_string(),
        token_type: "Bearer".to_string(),
        id_token: "id".to_string(),
        expiry_date,
        refresh_token: "refresh-1".to_string(),
        client_id: None,
        client_secret: Some("secret".to_string()),
        expiry: expiry.map(|e| e.to_string()),
    }
}

fn describe(e: &StreamEvent) -> String {
    match e {
        StreamEvent::MessageStart(m) => format!("message_start {}", m.message.model),
        StreamEvent::ContentBlockStart(b) => match &b.content_block {
            OutputContentBlock::Text { text } => format!("start {} text {:?}", b.index, text),
            OutputContentBlock::ToolUse { id, name, input } => {
                format!("start {} tool {} {} {}", b.index, id, name, input.to_json_text())
            },
        },
        StreamEvent::ContentBlockDelta(d) => match &d.delta {
            ContentBlockDelta::TextDelta { text } => format!("delta {} text {:?}", d.index, text),
            ContentBlockDelta::InputJsonDelta { partial_json } => format!("delta {} json {}", d.index, partial_json),
        },
        StreamEvent::ContentBlockStop(b) => format!("stop {}", b.index),
        StreamEvent::MessageDelta(m) => format!(
            "usage {} {} {} {}",
            m.usage.input_tokens,
            m.usage.output_tokens,
            m.usage.cache_creation_input_tokens,
            m.usage.cache_read_input_tokens
        ),
        StreamEvent::MessageStop(_) => "message_stop".to_string(),
    }
}

fn describe_all(events: &[StreamEvent]) -> Vec<String> {
    events.iter().map(describe).collect()
}

#[test]
fn new_client_finds_its_credentials_file() {
    let c = GoogleAiClient::new(Some("/etc/creds.json".to_string()), Some("/home/u".to_string())).unwrap();
    assert_eq!(c.creds_path(), "/etc/creds.json");
    let c = GoogleAiClient::new(None, Some("/home/u".to_string())).unwrap();
    assert_eq!(c.creds_path(), "/home/u/.gemini/oauth_creds.json");
    let c = GoogleAiClient::new(None, None).unwrap();
    assert_eq!(c.creds_path(), "/root/.gemini/oauth_creds.json");
    assert!(c.credentials().is_none());
    assert!(c.project().is_none());
    assert_eq!(c.tool_call_cache().len(), 0);
}

#[test]
fn text_blocks_start_once_and_stop_on_finish() {
    let mut client = new_client();
    let mut started = StartedBlocks::new();
    let e1 = client.translate_response_chunk(chunk(vec![candidate(vec![text_part("Hel"), text_part("")])]), &mut started);
    assert_eq!(describe_all(&e1), vec!["start 0 text \"\"", "delta 0 text \"Hel\""]);
    let e2 = client.translate_response_chunk(chunk(vec![candidate(vec![text_part("lo"), text_part("!")])]), &mut started);
    assert_eq!(describe_all(&e2), vec!["delta 0 text \"lo\"", "start 1 text \"\"", "delta 1 text \"!\""]);
    assert_eq!(started.len(), 2);
    let stop = chunk(vec![obj(vec![("finishReason", s("STOP"))])]);
    let e3 = client.translate_response_chunk(stop, &mut started);
    assert_eq!(describe_all(&e3), vec!["stop 0", "stop 1"]);
    assert_eq!(started.len(), 0);
}

#[test]
fn other_finish_reasons_leave_blocks_open() {
    let mut client = new_client();
    let mut started = StartedBlocks::new();
    client.translate_response_chunk(chunk(vec![candidate(vec![text_part("a")])]), &mut started);
    let e = client.translate_response_chunk(chunk(vec![obj(vec![("finishReason", s("MAX_TOKENS"))])]), &mut started);
    assert!(e.is_empty());
    assert_eq!(started.len(), 1);
    assert!(started.contains(0));
}

#[test]
fn function_calls_become_whole_tool_use_blocks() {
    let mut client = new_client();
    let mut started = StartedBlocks::new();
    let call = obj(vec![("functionCall", obj(vec![("name", s("run")), ("args", obj(vec![("cmd", s("ls -l"))]))]))]);
    let bare = obj(vec![("functionCall", obj(vec![])), ("thoughtSignature", s("sig"))]);
    let cand = obj(vec![("index", num(2)), ("content", obj(vec![("parts", arr(vec![text_part("x"), call, bare]))]))]);
    let events = client.translate_response_chunk(chunk(vec![cand]), &mut started);
    assert_eq!(
        describe_all(&events),
        vec![
            "start 0 text \"\"",
            "delta 0 text \"x\"",
            "start 1 tool call_2_1__@__run__@__ run {}",
            "delta 1 json {\"cmd\":\"ls -l\"}",
            "stop 1",
            "start 2 tool call_2_2__@__unknown__@__sig unknown {}",
            "delta 2 json {}",
            "stop 2",
        ]
    );
    let meta = client.tool_call_cache().get("call_2_1__@__run__@__").unwrap();
    assert_eq!(meta.name, "run");
    assert_eq!(meta.thought_signature, None);
    let meta = client.tool_call_cache().get("call_2_2__@__unknown__@__sig").unwrap();
    assert_eq!(meta.thought_signature, Some("sig".to_string()));
    assert_eq!(started.len(), 1);
}

#[test]
fn a_text_that_is_not_a_string_falls_through_to_the_function_call() {
    let mut client = new_client();
    let mut started = StartedBlocks::new();
    let part = obj(vec![("text", num(5)), ("functionCall", obj(vec![("name", s("f"))]))]);
    let events = client.translate_response_chunk(chunk(vec![candidate(vec![part])]), &mut started);
    assert_eq!(describe_all(&events), vec!["start 0 tool call_0_0__@__f__@__ f {}", "delta 0 json {}", "stop 0"]);
}

#[test]
fn usage_metadata_gives_a_message_delta() {
    let mut client = new_client();
    let mut started = StartedBlocks::new();
    let c = obj(vec![(
        "usageMetadata",
        obj(vec![
            ("promptTokenCount", num(4294967297)),
            ("candidatesTokenCount", num(7)),
            ("cachedContentTokenCount", num(3)),
        ]),
    )]);
    assert_eq!(describe_all(&client.translate_response_chunk(c, &mut started)), vec!["usage 1 7 0 3"]);
    let zero = obj(vec![("usageMetadata", obj(vec![("cachedContentTokenCount", num(3))]))]);
    assert!(client.translate_response_chunk(zero, &mut started).is_empty());
    let wrapped = obj(vec![("response", obj(vec![("usageMetadata", obj(vec![("promptTokenCount", num(1))]))]))]);
    assert_eq!(describe_all(&client.translate_response_chunk(wrapped, &mut started)), vec!["usage 1 0 0 0"]);
}

#[test]
fn whole_answers_become_messages() {
    let mut client = new_client();
    let call = obj(vec![
        ("functionCall", obj(vec![("name", s("read_file")), ("args", obj(vec![("path", s("a.txt"))]))])),
        ("thoughtSignature", s("sig-1")),
    ]);
    let data = obj(vec![(
        "response",
        obj(vec![
            ("candidates", arr(vec![candidate(vec![text_part(""), call]), candidate(vec![text_part("ignored")])])),
            ("usageMetadata", obj(vec![("promptTokenCount", num(10)), ("candidatesTokenCount", num(20))])),
        ]),
    )]);
    let msg = client.read_generate_response(&data, &"gemini-2.5-pro".to_string());
    assert_eq!(msg.id, "gemini_msg");
    assert_eq!(msg.kind, "message");
    assert_eq!(msg.role, "assistant");
    assert_eq!(msg.model, "gemini-2.5-pro");
    assert_eq!(msg.content.len(), 2);
    assert!(matches!(&msg.content[0], OutputContentBlock::Text { text } if text.is_empty()));
    match &msg.content[1] {
        OutputContentBlock::ToolUse { id, name, input } => {
            assert_eq!(id, "call_0_1");
            assert_eq!(name, "read_file");
            assert_eq!(input.to_json_text(), "{\"path\":\"a.txt\"}");
        },
        other => panic!("unexpected block {:?}", other),
    }
    assert_eq!(msg.usage.input_tokens, 10);
    assert_eq!(msg.usage.output_tokens, 20);
    assert_eq!(msg.usage.cache_read_input_tokens, 0);
    assert!(msg.stop_reason.is_none() && msg.request_id.is_none());
    let meta = client.tool_call_cache().get("call_0_1").unwrap();
    assert_eq!(meta.name, "read_file");
    assert_eq!(meta.thought_signature, Some("sig-1".to_string()));

    let empty = client.read_generate_response(&obj(vec![]), &"m".to_string());
    assert!(empty.content.is_empty());
    assert_eq!(empty.usage.input_tokens, 0);
}

#[test]
fn a_call_read_from_an_answer_is_sent_back_with_its_signature_and_name() {
    let mut client = new_client();
    let call = obj(vec![("functionCall", obj(vec![("name", s("grep"))])), ("thoughtSignature", s("sig-9"))]);
    let data = obj(vec![("candidates", arr(vec![candidate(vec![call])]))]);
    client.read_generate_response(&data, &"m".to_string());
    let req = request(vec![
        message("assistant", vec![InputContentBlock::ToolUse { id: "call_0_0".to_string(), name: "grep".to_string(), input: obj(vec![]) }]),
        message(
            "user",
            vec![InputContentBlock::ToolResult { tool_use_id: "call_0_0".to_string(), content: vec![], is_error: false }],
        ),
    ]);
    let payload = client.translate_request(&req, "p").unwrap();
    assert_eq!(parts_of(&payload, 0)[0].get_str("thoughtSignature").unwrap(), "sig-9");
    let response = parts_of(&payload, 1)[0].get("functionResponse").unwrap();
    assert_eq!(response.get_str("name").unwrap(), "grep");
    assert_eq!(response.get("response").unwrap().to_json_text(), "{\"output\":\"success\"}");
}

#[test]
fn a_streamed_call_is_sent_back_from_its_id_alone() {
    let mut streaming = new_client();
    let mut started = StartedBlocks::new();
    let call = obj(vec![("functionCall", obj(vec![("name", s("edit"))])), ("thoughtSignature", s("c2ln"))]);
    let events = streaming.translate_response_chunk(chunk(vec![candidate(vec![call])]), &mut started);
    let id = match &events[0] {
        StreamEvent::ContentBlockStart(b) => match &b.content_block {
            OutputContentBlock::ToolUse { id, .. } => id.clone(),
            _ => panic!("not a tool use"),
        },
        _ => panic!("not a block start"),
    };
    let fresh = new_client();
    let req = request(vec![
        message("model", vec![InputContentBlock::ToolUse { id: id.clone(), name: "edit".to_string(), input: obj(vec![]) }]),
        message(
            "user",
            vec![InputContentBlock::ToolResult {
                tool_use_id: id.clone(),
                content: vec![ToolResultContentBlock::Json { value: obj(vec![("ok", Json::Bool(true))]) }],
                is_error: false,
            }],
        ),
    ]);
    let payload = fresh.translate_request(&req, "p").unwrap();
    assert_eq!(parts_of(&payload, 0)[0].get_str("thoughtSignature").unwrap(), "c2ln");
    let response = parts_of(&payload, 1)[0].get("functionResponse").unwrap();
    assert_eq!(response.get_str("name").unwrap(), "edit");
    assert_eq!(response.get("response").unwrap().to_json_text(), "{\"ok\":true}");
}

#[test]
fn an_empty_signature_in_an_id_is_not_sent() {
    let client = new_client();
    let req = request(vec![message(
        "model",
        vec![InputContentBlock::ToolUse { id: "call_0_0__@__t__@__".to_string(), name: "t".to_string(), input: obj(vec![]) }],
    )]);
    let payload = client.translate_request(&req, "p").unwrap();
    assert!(parts_of(&payload, 0)[0].get("thoughtSignature").is_none());
}

#[test]
fn unknown_tool_results_are_named_unknown_tool() {
    let client = new_client();
    let req = request(vec![message(
        "user",
        vec![InputContentBlock::ToolResult {
            tool_use_id: "never_seen".to_string(),
            content: vec![ToolResultContentBlock::Text { text: "out".to_string() }],
            is_error: true,
        }],
    )]);
    let payload = client.translate_request(&req, "p").unwrap();
    let response = parts_of(&payload, 0)[0].get("functionResponse").unwrap();
    assert_eq!(response.get_str("name").unwrap(), "unknown_tool");
    assert_eq!(response.get("response").unwrap().to_json_text(), "{\"output\":\"out\"}");
}

#[test]
fn a_remembered_empty_signature_is_sent() {
    let mut client = new_client();
    client.remember_tool_call("id1".to_string(), ToolCallMeta { name: "n".to_string(), thought_signature: Some(String::new()) });
    let req = request(vec![message(
        "model",
        vec![InputContentBlock::ToolUse { id: "id1".to_string(), name: "n".to_string(), input: obj(vec![]) }],
    )]);
    let payload = client.translate_request(&req, "p").unwrap();
    assert_eq!(parts_of(&payload, 0)[0].get_str("thoughtSignature").unwrap(), "");
}

#[test]
fn the_payload_has_the_whole_request() {
    let client = new_client();
    let mut req = request(vec![
        message("user", vec![InputContentBlock::Text { text: "hi".to_string() }]),
        message("assistant", vec![InputContentBlock::Text { text: "hello".to_string() }]),
    ]);
    req.system = Some("be brief".to_string());
    req.tools = Some(vec![ToolDefinition {
        name: "bash".to_string(),
        description: None,
        input_schema: obj(vec![("type", s("object")), ("additionalProperties", Json::Bool(false))]),
    }]);
    let payload = client.translate_request_with_prompt_id(&req, "proj", "prompt-1").unwrap();
    let expected = obj(vec![
        ("model", s("gemini-2.5-pro")),
        ("project", s("proj")),
        ("user_prompt_id", s("prompt-1")),
        (
            "request",
            obj(vec![
                (
                    "contents",
                    arr(vec![
                        obj(vec![("role", s("user")), ("parts", arr(vec![text_part("hi")]))]),
                        obj(vec![("role", s("model")), ("parts", arr(vec![text_part("hello")]))]),
                    ]),
                ),
                ("systemInstruction", obj(vec![("parts", arr(vec![text_part("be brief")]))])),
                (
                    "tools",
                    arr(vec![obj(vec![(
                        "function_declarations",
                        arr(vec![obj(vec![
                            ("name", s("bash")),
                            ("description", s("")),
                            ("parameters", obj(vec![("type", s("object"))])),
                        ])]),
                    )])]),
                ),
            ]),
        ),
    ]);
    assert_eq!(payload, expected);
}

#[test]
fn every_payload_has_a_fresh_uuid_v4_prompt_id() {
    let client = new_client();
    let req = request(vec![]);
    let a = client.translate_request(&req, "p").unwrap();
    let b = client.translate_request(&req, "p").unwrap();
    let ida = a.get_str("user_prompt_id").unwrap().clone();
    let idb = b.get_str("user_prompt_id").unwrap().clone();
    assert_ne!(ida, idb);
    for id in [ida, idb] {
        let cs: Vec<char> = id.chars().collect();
        assert_eq!(cs.len(), 36);
        for (i, c) in cs.iter().enumerate() {
            match i {
                8 | 13 | 18 | 23 => assert_eq!(*c, '-'),
                14 => assert_eq!(*c, '4'),
                19 => assert!("89ab".contains(*c)),
                _ => assert!(c.is_ascii_hexdigit() && !c.is_ascii_uppercase()),
            }
        }
    }
    assert!(a.get("request").unwrap().get_array("contents").unwrap().is_empty());
}

#[test]
fn tokens_expire_a_minute_early_or_with_an_old_expiry_text() {
    let c = creds(100_000, None);
    assert!(!c.is_expired(39_999));
    assert!(c.is_expired(40_000));
    assert!(creds(10, None).is_expired(0));
    assert!(creds(u64::MAX, Some("2019-12-31T00:00:00Z")).is_expired(0));
    assert!(creds(u64::MAX, Some("2020-06-01")).is_expired(0));
    assert!(!creds(u64::MAX, Some("2021-06-01")).is_expired(0));
    assert!(!creds(u64::MAX, Some("202")).is_expired(0));
}

#[test]
fn the_refresh_form_falls_back_to_the_default_client() {
    let form = creds(0, None).refresh_form();
    let pairs: Vec<(&str, &str)> = form.iter().map(|(k, v)| (k.as_str(), v.as_str())).collect();
    assert_eq!(
        pairs,
        vec![
            ("client_id", "***REMOVED***"),
            ("client_secret", "secret"),
            ("grant_type", "refresh_token"),
            ("refresh_token", "refresh-1"),
        ]
    );
}

#[test]
fn a_refresh_answer_updates_the_credentials() {
    let mut c = creds(5, Some("2019"));
    let resp = obj(vec![("access_token", s("new")), ("expires_in", num(3600)), ("refresh_token", s("refresh-2"))]);
    assert!(c.apply_refresh(1_000, &resp).is_ok());
    assert_eq!(c.access_token, "new");
    assert_eq!(c.expiry_date, 3_601_000);
    assert_eq!(c.expiry, None);
    assert_eq!(c.refresh_token, "refresh-2");
    assert!(!c.is_expired(1_000));

    let mut d = creds(5, Some("2019"));
    assert!(d.apply_refresh(1_000, &obj(vec![("access_token", s("only"))])).is_ok());
    assert_eq!(d.access_token, "only");
    assert_eq!(d.expiry_date, 5);
    assert_eq!(d.expiry, Some("2019".to_string()));
    assert_eq!(d.refresh_token, "refresh-1");

    let mut e = creds(5, None);
    match e.apply_refresh(1_000, &obj(vec![("expires_in", num(10))])) {
        Err(ApiError::Auth(m)) => assert_eq!(m, "Refresh response missing access_token"),
        other => panic!("unexpected {:?}", other),
    }
    assert_eq!(e.access_token, "old-token");
    assert_eq!(e.expiry_date, 5);
}

#[test]
fn getting_a_token_loads_then_refreshes_when_needed() {
    let mut client = new_client();
    assert!(matches!(client.token_step(0), TokenStep::LoadCredentials));
    client.set_credentials(creds(100_000, None));
    match client.token_step(1_000) {
        TokenStep::Current(t) => assert_eq!(t, "old-token"),
        other => panic!("unexpected {:?}", other),
    }
    match client.token_step(50_000) {
        TokenStep::Refresh(form) => assert_eq!(form[3].1, "refresh-1"),
        other => panic!("unexpected {:?}", other),
    }
    let token = client.finish_refresh(50_000, &obj(vec![("access_token", s("t2")), ("expires_in", num(3599))])).unwrap();
    assert_eq!(token, "t2");
    match client.token_step(50_000) {
        TokenStep::Current(t) => assert_eq!(t, "t2"),
        other => panic!("unexpected {:?}", other),
    }
    assert_eq!(client.credentials().unwrap().expiry_date, 50_000 + 3_599_000);
    assert!(client.finish_refresh(60_000, &obj(vec![])).is_err());
    assert_eq!(client.credentials().unwrap().access_token, "t2");
}

#[test]
fn the_project_comes_from_the_cache_the_environment_or_the_server() {
    let mut client = new_client();
    assert!(matches!(client.project_step(None), ProjectStep::AskServer));
    assert!(matches!(client.project_step(Some(String::new())), ProjectStep::AskServer));
    match client.project_step(Some("env-proj".to_string())) {
        ProjectStep::Known(p) => assert_eq!(p, "env-proj"),
        other => panic!("unexpected {:?}", other),
    }
    match client.project_step(Some("other".to_string())) {
        ProjectStep::Known(p) => assert_eq!(p, "env-proj"),
        other => panic!("unexpected {:?}", other),
    }

    let mut asking = new_client();
    let message = "Could not resolve project_id. Ensure your account has Gemini Code Assist access and run claw from a directory listed in ~/.gemini/projects.json.";
    match asking.resolve_project(&obj(vec![("cloudaicompanionProject", s(""))])) {
        Err(ApiError::Auth(m)) => assert_eq!(m, message),
        other => panic!("unexpected {:?}", other),
    }
    match asking.resolve_project(&obj(vec![])) {
        Err(ApiError::Auth(m)) => assert_eq!(m, message),
        other => panic!("unexpected {:?}", other),
    }
    assert!(asking.project().is_none());
    assert_eq!(asking.resolve_project(&obj(vec![("cloudaicompanionProject", s("srv-proj"))])).unwrap(), "srv-proj");
    match asking.project_step(None) {
        ProjectStep::Known(p) => assert_eq!(p, "srv-proj"),
        other => panic!("unexpected {:?}", other),
    }
    assert_eq!(
        load_code_assist_payload().to_json_text(),
        "{\"metadata\":{\"ideType\":\"IDE_UNSPECIFIED\",\"pluginType\":\"GEMINI\"}}"
    );
}

#[test]
fn retry_delays_are_read_from_the_error_details() {
    let in_array = obj(vec![("error", obj(vec![("details", arr(vec![obj(vec![("retryDelay", s("30s"))])]))]))]);
    assert_eq!(retry_delay_text(Some(&in_array)), Some("30".to_string()));
    let many_s = obj(vec![("error", obj(vec![("details", arr(vec![obj(vec![("retryDelay", s("1.5sss"))])]))]))]);
    assert_eq!(retry_delay_text(Some(&many_s)), Some("1.5".to_string()));
    let in_object = obj(vec![("error", obj(vec![("details", obj(vec![("0", obj(vec![("retryDelay", s("7s"))]))]))]))]);
    assert_eq!(retry_delay_text(Some(&in_object)), Some("7".to_string()));
    let not_text = obj(vec![("error", obj(vec![("details", arr(vec![obj(vec![("retryDelay", num(3))])]))]))]);
    assert_eq!(retry_delay_text(Some(&not_text)), None);
    let empty_details = obj(vec![("error", obj(vec![("details", arr(vec![]))]))]);
    assert_eq!(retry_delay_text(Some(&empty_details)), None);
    assert_eq!(retry_delay_text(None), None);
}

#[test]
fn failures_are_retried_only_for_429_before_the_third_attempt() {
    assert!(matches!(after_failure(429, 1, false, "b".to_string()), FailureStep::Retry { next_attempt: 2 }));
    assert!(matches!(after_failure(429, 2, false, "b".to_string()), FailureStep::Retry { next_attempt: 3 }));
    match after_failure(429, 3, false, "body".to_string()) {
        FailureStep::Fail(ApiError::Api { status, error_type, message, request_id, body, retryable }) => {
            assert_eq!(status, 429);
            assert_eq!(error_type, Some("gemini_error".to_string()));
            assert_eq!(message, None);
            assert_eq!(request_id, None);
            assert_eq!(body, "body");
            assert!(!retryable);
        },
        other => panic!("unexpected {:?}", other),
    }
    match after_failure(429, 1, true, "q".to_string()) {
        FailureStep::Fail(ApiError::Api { error_type, message, .. }) => {
            assert_eq!(error_type, Some("gemini_quota_exhausted".to_string()));
            assert_eq!(message, Some("Quota fully exhausted, retry later.".to_string()));
        },
        other => panic!("unexpected {:?}", other),
    }
    match after_failure(500, 1, false, "x".to_string()) {
        FailureStep::Fail(ApiError::Api { status, error_type, .. }) => {
            assert_eq!(status, 500);
            assert_eq!(error_type, Some("gemini_error".to_string()));
        },
        other => panic!("unexpected {:?}", other),
    }
}

#[test]
fn urls_headers_and_stream_bounds() {
    assert_eq!(generate_content_url(), "https://cloudcode-pa.googleapis.com/v1internal:generateContent");
    assert_eq!(stream_content_url(), "https://cloudcode-pa.googleapis.com/v1internal:streamGenerateContent?alt=sse");
    let h = request_headers("tok");
    assert_eq!(h.len(), 5);
    assert_eq!(h[0], ("authorization".to_string(), "Bearer tok".to_string()));
    assert_eq!(h[1], ("content-type".to_string(), "application/json".to_string()));
    assert_eq!(h[3], ("x-goog-authuser".to_string(), "0".to_string()));
    let l = load_code_assist_headers("t");
    assert_eq!(l, vec![("authorization".to_string(), "Bearer t".to_string()), ("content-type".to_string(), "application/json".to_string())]);
    assert_eq!(describe(&message_start_event(&"gemini-x".to_string())), "message_start gemini-x");
    assert_eq!(describe(&message_stop_event()), "message_stop");
}

#[test]
fn once_expired_a_token_stays_expired() {
    let c = creds(100_000, None);
    let first = (0..200_000u64).step_by(1_000).find(|t| c.is_expired(*t)).unwrap();
    assert_eq!(first, 40_000);
    for t in (first..300_000).step_by(7_919) {
        assert!(c.is_expired(t));
    }
}

#[test]
fn remembering_a_call_again_replaces_it() {
    let mut client = new_client();
    client.remember_tool_call("a".to_string(), ToolCallMeta { name: "one".to_string(), thought_signature: None });
    client.remember_tool_call("b".to_string(), ToolCallMeta { name: "two".to_string(), thought_signature: None });
    client.remember_tool_call("a".to_string(), ToolCallMeta { name: "three".to_string(), thought_signature: Some("s".to_string()) });
    assert_eq!(client.tool_call_cache().len(), 2);
    let a = client.tool_call_cache().get("a").unwrap();
    assert_eq!(a.name, "three");
    assert_eq!(a.thought_signature, Some("s".to_string()));
    assert_eq!(client.tool_call_cache().get("b").unwrap().name, "two");
    assert!(client.tool_call_cache().get("c").is_none());
}

#[test]
fn the_same_answer_twice_reuses_the_call_ids() {
    let mut client = new_client();
    let data = |sig: &str| obj(vec![("candidates", arr(vec![candidate(vec![obj(vec![
        ("functionCall", obj(vec![("name", s("t"))])),
        ("thoughtSignature", s(sig)),
    ])])]))]);
    client.read_generate_response(&data("first"), &"m".to_string());
    client.read_generate_response(&data("second"), &"m".to_string());
    assert_eq!(client.tool_call_cache().len(), 1);
    assert_eq!(client.tool_call_cache().get("call_0_0").unwrap().thought_signature, Some("second".to_string()));
}

#[test]
fn a_refresh_answer_fits_when_its_expiry_date_does() {
    let with = |e: u64| obj(vec![("access_token", s("t")), ("expires_in", num(e))]);
    assert!(refresh_answer_fits(u64::MAX - 1_000, &with(1)));
    assert!(!refresh_answer_fits(u64::MAX - 999, &with(1)));
    assert!(refresh_answer_fits(u64::MAX, &with(0)));
    assert!(refresh_answer_fits(u64::MAX, &obj(vec![("expires_in", num(u64::MAX))])));
    assert!(refresh_answer_fits(5, &obj(vec![("access_token", s("t"))])));
}
