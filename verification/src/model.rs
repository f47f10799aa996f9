//! The canonical, vendor-neutral vocabulary: messages and their content
//! parts, tool definitions, the stream-event alphabet, and the request record
//! that upstream services hand to an adapter.

use vstd::prelude::*;

use crate::json::{Jv, JsonValue};

verus! {

/// One part of a structured message content.
pub enum ContentPart {
    Text { text: String },
    /// Base64-encoded image data.
    Image { image: String },
    ToolCall { tool_call_id: String, tool_name: String, input: JsonValue },
    ToolResult { tool_call_id: String, tool_name: String, output: JsonValue },
    /// Explanatory text some vendors merge into assistant text.
    Reasoning { text: String },
}

/// Message content: plain text, or an ordered sequence of parts.
pub enum MessageContent {
    Text(String),
    Parts(Vec<ContentPart>),
}

/// A canonical chat message. Provider options are an opaque JSON value passed
/// through unmodified.
#[allow(inconsistent_fields)]
pub enum Message {
    System { content: String },
    User { content: MessageContent, provider_options: Option<JsonValue> },
    Assistant { content: MessageContent, provider_options: Option<JsonValue> },
    Tool { content: Vec<ContentPart> },
}

/// A vendor-agnostic tool definition.
pub struct ToolDefinition {
    pub name: String,
    pub description: String,
    /// A JSON schema for the tool's parameters.
    pub parameters: JsonValue,
}

/// The canonical output vocabulary of a parsed vendor stream.
#[derive(Debug, PartialEq)]
pub enum StreamEvent {
    TextStart,
    TextDelta {
        text: String,
    },
    ToolCall {
        tool_call_id: String,
        tool_name: String,
        input: JsonValue,
    },
    Usage {
        input_tokens: i32,
        output_tokens: i32,
        total_tokens: Option<i32>,
        cached_input_tokens: Option<i32>,
        cache_creation_input_tokens: Option<i32>,
    },
    Error {
        message: String,
    },
    Done {
        finish_reason: Option<String>,
    },
}

/// Ghost mirror of `StreamEvent`.
#[verifier::ext_equal]
pub enum Ev {
    TextStart,
    TextDelta(Seq<char>),
    ToolCall(Seq<char>, Seq<char>, Jv),
    Usage(i32, i32, Option<i32>, Option<i32>, Option<i32>),
    Error(Seq<char>),
    Done(Option<Seq<char>>),
}

impl View for StreamEvent {
    type V = Ev;

    open spec fn view(&self) -> Ev {
        match self {
            StreamEvent::TextStart => Ev::TextStart,
            StreamEvent::TextDelta { text } => Ev::TextDelta(text@),
            StreamEvent::ToolCall { tool_call_id, tool_name, input } => Ev::ToolCall(
                tool_call_id@,
                tool_name@,
                input@,
            ),
            StreamEvent::Usage {
                input_tokens,
                output_tokens,
                total_tokens,
                cached_input_tokens,
                cache_creation_input_tokens,
            } => Ev::Usage(
                *input_tokens,
                *output_tokens,
                *total_tokens,
                *cached_input_tokens,
                *cache_creation_input_tokens,
            ),
            StreamEvent::Error { message } => Ev::Error(message@),
            StreamEvent::Done { finish_reason } => Ev::Done(
                match finish_reason {
                    Some(s) => Some(s@),
                    None => None,
                },
            ),
        }
    }
}

impl DeepView for StreamEvent {
    type V = Ev;

    open spec fn deep_view(&self) -> Ev {
        self.view()
    }
}

/// The canonical request record upstream services build and an adapter turns
/// into vendor wire JSON. Sampling parameters that vendors take as JSON
/// numbers are carried as JSON values.
pub struct StreamTextRequest {
    pub model: String,
    pub messages: Vec<Message>,
    pub tools: Option<Vec<ToolDefinition>>,
    pub stream: Option<bool>,
    pub temperature: Option<JsonValue>,
    pub max_tokens: Option<i32>,
    pub top_p: Option<JsonValue>,
    pub top_k: Option<i32>,
    pub provider_options: Option<JsonValue>,
    pub request_id: Option<String>,
    pub trace_context: Option<JsonValue>,
}

} // verus!
