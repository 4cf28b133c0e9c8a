use vstd::prelude::*;

use crate::auth::form_view;
use crate::types::{EventV, MessageResponse, MessageStartEvent, MessageStopEvent, MessageV, StreamEvent, Usage};

verus! {

/// The Code Assist endpoint.
pub const DEFAULT_GEMINI_BASE_URL: &'static str = "https://cloudcode-pa.googleapis.com/v1internal";

/// The endpoint that resolves the project of the signed-in account.
pub const LOAD_CODE_ASSIST_URL: &'static str = "https://cloudcode-pa.googleapis.com/v1internal:loadCodeAssist";

/// The OAuth token endpoint.
pub const TOKEN_URL: &'static str = "https://oauth2.googleapis.com/token";

/// The URL of a whole answer.
pub fn generate_content_url() -> (u: String)
    ensures
        u@ == DEFAULT_GEMINI_BASE_URL@ + ":generateContent"@,
{
    DEFAULT_GEMINI_BASE_URL.to_owned().concat(":generateContent")
}

/// The URL of a streamed answer, as server-sent events.
pub fn stream_content_url() -> (u: String)
    ensures
        u@ == DEFAULT_GEMINI_BASE_URL@ + ":streamGenerateContent?alt=sse"@,
{
    DEFAULT_GEMINI_BASE_URL.to_owned().concat(":streamGenerateContent?alt=sse")
}

/// The headers of a request for an answer.
pub open spec fn request_headers_v(token: Seq<char>) -> Seq<(Seq<char>, Seq<char>)> {
    seq![
        ("authorization"@, "Bearer "@ + token),
        ("content-type"@, "application/json"@),
        ("User-Agent"@, "GeminiCLI/0.38.1/gemini-3.1-pro-preview (linux; x64; terminal) google-api-nodejs-client/9.15.1"@),
        ("x-goog-authuser"@, "0"@),
        ("x-goog-api-client"@, "gl-node/22.11.0 auth/9.15.1 gdcl/7.2.0"@),
    ]
}

/// The headers of a request for an answer, authorized by `token`.
pub fn request_headers(token: &str) -> (h: Vec<(String, String)>)
    ensures
        form_view(h@) == request_headers_v(token@),
{
    let mut h: Vec<(String, String)> = Vec::new();
    h.push(("authorization".to_owned(), "Bearer ".to_owned().concat(token)));
    h.push(("content-type".to_owned(), "application/json".to_owned()));
    h.push(
        (
            "User-Agent".to_owned(),
            "GeminiCLI/0.38.1/gemini-3.1-pro-preview (linux; x64; terminal) google-api-nodejs-client/9.15.1".to_owned(),
        ),
    );
    h.push(("x-goog-authuser".to_owned(), "0".to_owned()));
    h.push(("x-goog-api-client".to_owned(), "gl-node/22.11.0 auth/9.15.1 gdcl/7.2.0".to_owned()));
    proof {
        assert(form_view(h@) =~= request_headers_v(token@));
    }
    h
}

/// The headers of the `loadCodeAssist` request, authorized by `token`.
pub fn load_code_assist_headers(token: &str) -> (h: Vec<(String, String)>)
    ensures
        form_view(h@) == seq![("authorization"@, "Bearer "@ + token@), ("content-type"@, "application/json"@)],
{
    let mut h: Vec<(String, String)> = Vec::new();
    h.push(("authorization".to_owned(), "Bearer ".to_owned().concat(token)));
    h.push(("content-type".to_owned(), "application/json".to_owned()));
    proof {
        assert(form_view(h@) =~= seq![("authorization"@, "Bearer "@ + token@), ("content-type"@, "application/json"@)]);
    }
    h
}

/// The message that a stream announces first, for `model`: empty, no usage yet.
pub open spec fn opening_message(model: Seq<char>) -> MessageV {
    MessageV {
        id: "gemini_msg"@,
        kind: "message"@,
        role: "assistant"@,
        content: Seq::empty(),
        model,
        stop_reason: None,
        stop_sequence: None,
        usage: Usage::zero(),
        request_id: None,
    }
}

/// The first event of a streamed answer.
pub fn message_start_event(model: &String) -> (e: StreamEvent)
    ensures
        e@ == EventV::MessageStart(opening_message(model@)),
{
    let message = MessageResponse {
        id: "gemini_msg".to_owned(),
        kind: "message".to_owned(),
        role: "assistant".to_owned(),
        content: Vec::new(),
        model: model.clone(),
        stop_reason: None,
        stop_sequence: None,
        usage: Usage { input_tokens: 0, output_tokens: 0, cache_creation_input_tokens: 0, cache_read_input_tokens: 0 },
        request_id: None,
    };
    proof {
        assert(message.content@.map_values(|b: crate::types::OutputContentBlock| b@) =~= Seq::empty());
    }
    StreamEvent::MessageStart(MessageStartEvent { message })
}

/// The last event of a streamed answer.
pub fn message_stop_event() -> (e: StreamEvent)
    ensures
        e@ == EventV::MessageStop,
{
    StreamEvent::MessageStop(MessageStopEvent {})
}

}
