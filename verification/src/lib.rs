//! A protocol-adapter and streaming-normalization layer for chat-completion
//! vendors: it turns a canonical request model into vendor wire JSON and
//! folds a vendor's incremental event stream back into one canonical
//! sequence of stream events, with the accumulation state machine verified
//! against its transition system.

pub mod completion_service;
pub mod context_compaction_service;
pub mod git_message_service;
pub mod headers;
pub mod json;
pub mod laws;
pub mod model;
pub mod protocol;
pub mod service_types;
pub mod state;
pub mod stream_collector;
pub mod task_title_service;
pub mod terminal;
pub mod text;

pub use json::{Jv, JsonValue};
pub use model::{ContentPart, Ev, Message, MessageContent, StreamEvent, StreamTextRequest, ToolDefinition};
pub use protocol::OpenAiProtocol;
pub use state::{ProtocolStreamState, ToolCallAccum};
