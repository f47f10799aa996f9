//! Value types the AI feature services exchange with their callers, and the
//! service error vocabulary.

use vstd::prelude::*;

use crate::json::JsonValue;
use crate::text::dec_str;

verus! {

/// What a code-completion request works on.
#[derive(Debug, Clone)]
pub struct CompletionContext {
    pub file_content: String,
    /// Character offset of the cursor inside `file_content`.
    pub cursor_position: usize,
    pub file_name: String,
    pub language: String,
}

#[derive(Debug, Clone)]
pub struct CompletionResult {
    pub completion: String,
    pub range: Option<CompletionRange>,
}

#[derive(Debug, Clone)]
pub struct CompletionRange {
    pub start_line_number: u32,
    pub start_column: u32,
    pub end_line_number: u32,
    pub end_column: u32,
}

#[derive(Debug, Clone)]
pub struct ContextCompactionRequest {
    pub conversation_history: String,
    pub model: Option<String>,
}

#[derive(Debug, Clone)]
pub struct ContextCompactionResult {
    pub compressed_summary: String,
}

#[derive(Debug, Clone)]
pub struct GitMessageContext {
    pub user_input: Option<String>,
    pub diff_text: String,
}

#[derive(Debug, Clone)]
pub struct GitMessageResult {
    pub message: String,
    pub suggestions: Option<Vec<String>>,
}

#[derive(Debug, Clone)]
pub struct TokenUsage {
    pub input_tokens: u32,
    pub output_tokens: u32,
    pub cached_input_tokens: Option<u32>,
    pub cache_creation_input_tokens: Option<u32>,
}

/// A cost calculation request: the usage of one model, with the known
/// per-model configuration records carried as JSON data, keyed by model id.
#[derive(Debug)]
pub struct CalculateCostRequest {
    pub model_id: String,
    pub usage: TokenUsage,
    pub model_configs: Vec<(String, JsonValue)>,
}

#[derive(Debug, Clone)]
pub struct TitleGenerationRequest {
    pub user_input: String,
    pub language: Option<String>,
    pub model: Option<String>,
}

#[derive(Debug, Clone)]
pub struct TitleGenerationResult {
    pub title: String,
}

/// Everything that can go wrong in the AI feature services.
#[derive(Debug, Clone)]
pub enum AiServiceError {
    EmptyConversationHistory,
    EmptyDiffText,
    EmptyUserInput,
    NoAvailableModel,
    CompressionTimeout(u64),
    ModelPricingNotFound(String),
    StreamingError(String),
    InvalidModelIdentifier(String),
    Other(String),
}

/// The human-readable description of each service error.
pub open spec fn spec_error_message(e: AiServiceError) -> Seq<char> {
    match e {
        AiServiceError::EmptyConversationHistory => "No conversation history provided"@,
        AiServiceError::EmptyDiffText => "No diff text provided"@,
        AiServiceError::EmptyUserInput => "No user input provided"@,
        AiServiceError::NoAvailableModel => "No available model for the requested operation"@,
        AiServiceError::CompressionTimeout(ms) => "Compression timeout after "@ + dec_str(
            ms as nat,
        ) + "ms"@,
        AiServiceError::ModelPricingNotFound(id) => "Model pricing not found: "@ + id@,
        AiServiceError::StreamingError(msg) => "Streaming error: "@ + msg@,
        AiServiceError::InvalidModelIdentifier(id) => "Invalid model identifier: "@ + id@,
        AiServiceError::Other(msg) => msg@,
    }
}

impl AiServiceError {
    /// Renders the error for display.
    pub fn message(&self) -> (r: String)
        ensures
            r@ == spec_error_message(*self),
    {
        match self {
            AiServiceError::EmptyConversationHistory => String::from_str(
                "No conversation history provided",
            ),
            AiServiceError::EmptyDiffText => String::from_str("No diff text provided"),
            AiServiceError::EmptyUserInput => String::from_str("No user input provided"),
            AiServiceError::NoAvailableModel => String::from_str(
                "No available model for the requested operation",
            ),
            AiServiceError::CompressionTimeout(ms) => {
                let mut s = String::from_str("Compression timeout after ");
                let digits = crate::text::u64_to_string(*ms);
                s.append(digits.as_str());
                s.append("ms");
                s
            },
            AiServiceError::ModelPricingNotFound(id) => {
                let mut s = String::from_str("Model pricing not found: ");
                s.append(id.as_str());
                s
            },
            AiServiceError::StreamingError(msg) => {
                let mut s = String::from_str("Streaming error: ");
                s.append(msg.as_str());
                s
            },
            AiServiceError::InvalidModelIdentifier(id) => {
                let mut s = String::from_str("Invalid model identifier: ");
                s.append(id.as_str());
                s
            },
            AiServiceError::Other(msg) => msg.clone(),
        }
    }
}

} // verus!
