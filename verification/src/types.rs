use vstd::prelude::*;

use crate::json::{Json, JsonV};

verus! {

/// The characters of an optional string.
pub open spec fn opt_view(o: Option<String>) -> Option<Seq<char>> {
    match o {
        Some(s) => Some(s@),
        None => None,
    }
}

/// One message of a conversation.
#[derive(Debug)]
pub struct InputMessage {
    pub role: String,
    pub content: Vec<InputContentBlock>,
}

/// A block of a message sent to the model.
#[derive(Debug)]
pub enum InputContentBlock {
    Text { text: String },
    ToolUse { id: String, name: String, input: Json },
    ToolResult { tool_use_id: String, content: Vec<ToolResultContentBlock>, is_error: bool },
}

/// A block of the result of a tool call.
#[derive(Debug)]
pub enum ToolResultContentBlock {
    Text { text: String },
    Json { value: Json },
}

/// A tool that the model may call.
#[derive(Debug)]
pub struct ToolDefinition {
    pub name: String,
    pub description: Option<String>,
    pub input_schema: Json,
}

/// How the model is asked to choose among the tools.
#[derive(Debug)]
pub enum ToolChoice {
    Auto,
    Any,
    Tool { name: String },
}

/// A request for one model turn. The sampling parameters that this provider
/// does not send (temperature, top-p, the penalties) are not held here.
#[derive(Debug)]
pub struct MessageRequest {
    pub model: String,
    pub max_tokens: u32,
    pub messages: Vec<InputMessage>,
    pub system: Option<String>,
    pub tools: Option<Vec<ToolDefinition>>,
    pub tool_choice: Option<ToolChoice>,
    pub stream: bool,
    pub stop: Option<Vec<String>>,
    pub reasoning_effort: Option<String>,
}

/// A block of the model's answer.
#[derive(Debug)]
pub enum OutputContentBlock {
    Text { text: String },
    ToolUse { id: String, name: String, input: Json },
}

pub enum OutputBlockV {
    Text(Seq<char>),
    ToolUse(Seq<char>, Seq<char>, JsonV),
}

impl View for OutputContentBlock {
    type V = OutputBlockV;

    open spec fn view(&self) -> OutputBlockV {
        match self {
            OutputContentBlock::Text { text } => OutputBlockV::Text(text@),
            OutputContentBlock::ToolUse { id, name, input } => OutputBlockV::ToolUse(id@, name@, input@),
        }
    }
}

/// Token counts of a turn.
#[derive(Debug, Clone, Copy, PartialEq, Eq)]
pub struct Usage {
    pub input_tokens: u32,
    pub output_tokens: u32,
    pub cache_creation_input_tokens: u32,
    pub cache_read_input_tokens: u32,
}

impl Usage {
    /// All counts zero.
    pub open spec fn zero() -> Usage {
        Usage { input_tokens: 0, output_tokens: 0, cache_creation_input_tokens: 0, cache_read_input_tokens: 0 }
    }
}

/// The model's answer to a request.
#[derive(Debug)]
pub struct MessageResponse {
    pub id: String,
    pub kind: String,
    pub role: String,
    pub content: Vec<OutputContentBlock>,
    pub model: String,
    pub stop_reason: Option<String>,
    pub stop_sequence: Option<String>,
    pub usage: Usage,
    pub request_id: Option<String>,
}

pub struct MessageV {
    pub id: Seq<char>,
    pub kind: Seq<char>,
    pub role: Seq<char>,
    pub content: Seq<OutputBlockV>,
    pub model: Seq<char>,
    pub stop_reason: Option<Seq<char>>,
    pub stop_sequence: Option<Seq<char>>,
    pub usage: Usage,
    pub request_id: Option<Seq<char>>,
}

impl View for MessageResponse {
    type V = MessageV;

    open spec fn view(&self) -> MessageV {
        MessageV {
            id: self.id@,
            kind: self.kind@,
            role: self.role@,
            content: self.content@.map_values(|b: OutputContentBlock| b@),
            model: self.model@,
            stop_reason: opt_view(self.stop_reason),
            stop_sequence: opt_view(self.stop_sequence),
            usage: self.usage,
            request_id: opt_view(self.request_id),
        }
    }
}

/// A piece of a content block that arrives while streaming.
#[derive(Debug)]
pub enum ContentBlockDelta {
    TextDelta { text: String },
    InputJsonDelta { partial_json: String },
}

pub enum DeltaV {
    Text(Seq<char>),
    InputJson(Seq<char>),
}

impl View for ContentBlockDelta {
    type V = DeltaV;

    open spec fn view(&self) -> DeltaV {
        match self {
            ContentBlockDelta::TextDelta { text } => DeltaV::Text(text@),
            ContentBlockDelta::InputJsonDelta { partial_json } => DeltaV::InputJson(partial_json@),
        }
    }
}

#[derive(Debug)]
pub struct MessageStartEvent {
    pub message: MessageResponse,
}

#[derive(Debug)]
pub struct ContentBlockStartEvent {
    pub index: u32,
    pub content_block: OutputContentBlock,
}

#[derive(Debug)]
pub struct ContentBlockDeltaEvent {
    pub index: u32,
    pub delta: ContentBlockDelta,
}

#[derive(Debug)]
pub struct ContentBlockStopEvent {
    pub index: u32,
}

#[derive(Debug)]
pub struct MessageDelta {
    pub stop_reason: Option<String>,
    pub stop_sequence: Option<String>,
}

#[derive(Debug)]
pub struct MessageDeltaEvent {
    pub delta: MessageDelta,
    pub usage: Usage,
}

#[derive(Debug)]
pub struct MessageStopEvent {}

/// An event of a streamed answer.
#[derive(Debug)]
pub enum StreamEvent {
    MessageStart(MessageStartEvent),
    ContentBlockStart(ContentBlockStartEvent),
    ContentBlockDelta(ContentBlockDeltaEvent),
    ContentBlockStop(ContentBlockStopEvent),
    MessageDelta(MessageDeltaEvent),
    MessageStop(MessageStopEvent),
}

pub enum EventV {
    MessageStart(MessageV),
    BlockStart(u32, OutputBlockV),
    BlockDelta(u32, DeltaV),
    BlockStop(u32),
    MessageDelta(Option<Seq<char>>, Option<Seq<char>>, Usage),
    MessageStop,
}

impl View for StreamEvent {
    type V = EventV;

    open spec fn view(&self) -> EventV {
        match self {
            StreamEvent::MessageStart(e) => EventV::MessageStart(e.message@),
            StreamEvent::ContentBlockStart(e) => EventV::BlockStart(e.index, e.content_block@),
            StreamEvent::ContentBlockDelta(e) => EventV::BlockDelta(e.index, e.delta@),
            StreamEvent::ContentBlockStop(e) => EventV::BlockStop(e.index),
            StreamEvent::MessageDelta(e) => EventV::MessageDelta(
                opt_view(e.delta.stop_reason),
                opt_view(e.delta.stop_sequence),
                e.usage,
            ),
            StreamEvent::MessageStop(_) => EventV::MessageStop,
        }
    }
}

/// The views of a list of events.
pub open spec fn events_view(v: Seq<StreamEvent>) -> Seq<EventV> {
    v.map_values(|e: StreamEvent| e@)
}

/// Why a call to the provider failed.
#[derive(Debug)]
pub enum ApiError {
    /// Credentials could not be had, refreshed or used.
    Auth(String),
    /// The provider answered with an error status.
    Api {
        status: u16,
        error_type: Option<String>,
        message: Option<String>,
        request_id: Option<String>,
        body: String,
        retryable: bool,
    },
    /// The request could not be sent or its answer not read.
    Http(String),
    /// An answer was not valid JSON.
    Json { provider: String, model: String, body: String, detail: String },
}


/// Whether `r` failed with an authentication error of the given message.
pub open spec fn is_auth_error<T>(r: Result<T, ApiError>, message: Seq<char>) -> bool {
    match r {
        Err(ApiError::Auth(m)) => m@ == message,
        _ => false,
    }
}

}
