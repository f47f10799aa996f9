//! Conversation-compaction prompting: validation, model selection, and the
//! sectioned summary prompt.

use vstd::prelude::*;

use crate::service_types::{ContextCompactionRequest, ContextCompactionResult};
use crate::text::{is_blank, str_is_blank};

verus! {

/// Relies on `core::time::Duration::from_millis`; nothing is assumed of the
/// returned value.
pub assume_specification[ core::time::Duration::from_millis ](ms: u64) -> core::time::Duration;

pub struct ContextCompactionService {
    pub compression_timeout_ms: u64,
}

/// The compaction prompt: the fixed eight-section instructions around the
/// conversation history.
pub open spec fn spec_compaction_prompt(conversation_history: Seq<char>) -> Seq<char> {
    "Your task is to create a detailed summary of the conversation so far, paying close attention to the user's explicit requests and your previous actions.\nThis summary should be thorough in capturing technical details, code patterns, and architectural decisions that would be essential for continuing development work without losing context.\n\nBefore providing your final summary, wrap your analysis in <analysis> tags to organize your thoughts and ensure you've covered all necessary points.\n\nYour summary should include the following sections:\n\n1. Primary Request and Intent: Capture all of the user's explicit requests and intents in detail\n2. Key Technical Concepts: List all important technical concepts, technologies, and frameworks discussed.\n3. Files and Code Sections: Enumerate specific files and code sections examined, modified, or created. Pay special attention to the most recent messages and include full code snippets where applicable.\n4. Errors and fixes: List all errors that you ran into, and how you fixed them. Pay special attention to specific user feedback.\n5. Problem Solving: Document problems solved and any ongoing troubleshooting efforts.\n6. All user messages: List ALL user messages that are not tool results. These are critical for understanding the users' feedback and changing intent.\n7. Pending Tasks: Outline any pending tasks that you have explicitly been asked to work on.\n8. Current Work: Describe in detail precisely what was being worked on immediately before this summary request.\n\nPlease be comprehensive and technical in your summary. Include specific file paths, function names, error messages, and code patterns that would be essential for maintaining context.\n\nCONVERSATION HISTORY TO SUMMARIZE:\n"@
        + conversation_history
        + "\n\nPlease provide a comprehensive structured summary following the 8-section format above."@
}

impl ContextCompactionService {
    /// A service with the default five-minute compression timeout.
    pub fn new() -> (r: ContextCompactionService)
        ensures
            r.compression_timeout_ms == 300000,
    {
        ContextCompactionService { compression_timeout_ms: 300000 }
    }

    /// The same service with another timeout.
    pub fn with_timeout(self, timeout_ms: u64) -> (r: ContextCompactionService)
        ensures
            r.compression_timeout_ms == timeout_ms,
    {
        ContextCompactionService { compression_timeout_ms: timeout_ms }
    }

    /// Rejects a blank history with the exact error; otherwise picks the
    /// model, prepares the prompt, and reports the (not yet model-filled)
    /// result: an empty summary.
    pub fn compact_context(&self, request: ContextCompactionRequest) -> (r: Result<
        ContextCompactionResult,
        String,
    >)
        ensures
            is_blank(request.conversation_history@) <==> r is Err,
            r matches Err(e) ==> e@ == "Conversation history is required for compaction"@,
            r matches Ok(c) ==> c.compressed_summary@ == Seq::<char>::empty(),
    {
        if str_is_blank(request.conversation_history.as_str()) {
            return Err(String::from_str("Conversation history is required for compaction"));
        }
        let _model = self.get_available_model_for_compression(&request.model);
        let _prompt = self.build_compaction_prompt(request.conversation_history.as_str());
        Ok(ContextCompactionResult { compressed_summary: String::new() })
    }

    /// The configured timeout as a `Duration`.
    /// Relies on `core::time::Duration::from_millis` for the conversion.
    pub fn timeout(&self) -> core::time::Duration {
        core::time::Duration::from_millis(self.compression_timeout_ms)
    }

    /// Builds the compaction prompt, as `spec_compaction_prompt` says.
    pub fn build_compaction_prompt(&self, conversation_history: &str) -> (r: String)
        ensures
            r@ == spec_compaction_prompt(conversation_history@),
    {
        let mut p = String::from_str(
            "Your task is to create a detailed summary of the conversation so far, paying close attention to the user's explicit requests and your previous actions.\nThis summary should be thorough in capturing technical details, code patterns, and architectural decisions that would be essential for continuing development work without losing context.\n\nBefore providing your final summary, wrap your analysis in <analysis> tags to organize your thoughts and ensure you've covered all necessary points.\n\nYour summary should include the following sections:\n\n1. Primary Request and Intent: Capture all of the user's explicit requests and intents in detail\n2. Key Technical Concepts: List all important technical concepts, technologies, and frameworks discussed.\n3. Files and Code Sections: Enumerate specific files and code sections examined, modified, or created. Pay special attention to the most recent messages and include full code snippets where applicable.\n4. Errors and fixes: List all errors that you ran into, and how you fixed them. Pay special attention to specific user feedback.\n5. Problem Solving: Document problems solved and any ongoing troubleshooting efforts.\n6. All user messages: List ALL user messages that are not tool results. These are critical for understanding the users' feedback and changing intent.\n7. Pending Tasks: Outline any pending tasks that you have explicitly been asked to work on.\n8. Current Work: Describe in detail precisely what was being worked on immediately before this summary request.\n\nPlease be comprehensive and technical in your summary. Include specific file paths, function names, error messages, and code patterns that would be essential for maintaining context.\n\nCONVERSATION HISTORY TO SUMMARIZE:\n",
        );
        p.append(conversation_history);
        p.append(
            "\n\nPlease provide a comprehensive structured summary following the 8-section format above.",
        );
        p
    }

    /// The model used for compression: the caller's preference, or the
    /// default.
    pub fn get_available_model_for_compression(&self, preferred_model: &Option<String>) -> (r:
        String)
        ensures
            r@ == (match preferred_model {
                Some(m) => m@,
                None => "gemini-2.5-flash-lite"@,
            }),
    {
        match preferred_model {
            Some(m) => m.clone(),
            None => String::from_str("gemini-2.5-flash-lite"),
        }
    }
}

impl Default for ContextCompactionService {
    fn default() -> (r: ContextCompactionService)
        ensures
            r.compression_timeout_ms == 300000,
    {
        ContextCompactionService::new()
    }
}

} // verus!
