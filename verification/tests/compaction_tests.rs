use std::time::Duration;

use llm_adapter::context_compaction_service::ContextCompactionService;
use llm_adapter::service_types::ContextCompactionRequest;

#[test]
fn new_has_default_timeout() {
    let service = ContextCompactionService::new();
    assert_eq!(service.compression_timeout_ms, 300_000);
}

#[test]
fn with_timeout_changes_timeout() {
    let service = ContextCompactionService::new().with_timeout(60_000);
    assert_eq!(service.compression_timeout_ms, 60_000);
}

#[test]
fn timeout_returns_duration() {
    let service = ContextCompactionService::new().with_timeout(60_000);
    assert_eq!(service.timeout(), Duration::from_secs(60));
}

#[test]
fn build_prompt_contains_all_sections() {
    let service = ContextCompactionService::new();
    let history = "User: Hello\nAI: Hi there!";
    let prompt = service.build_compaction_prompt(history);

    assert!(prompt.contains("Primary Request and Intent"));
    assert!(prompt.contains("Key Technical Concepts"));
    assert!(prompt.contains("Files and Code Sections"));
    assert!(prompt.contains("Errors and fixes"));
    assert!(prompt.contains("Problem Solving"));
    assert!(prompt.contains("All user messages"));
    assert!(prompt.contains("Pending Tasks"));
    assert!(prompt.contains("Current Work"));
}

#[test]
fn build_prompt_contains_analysis_tags() {
    let service = ContextCompactionService::new();
    let prompt = service.build_compaction_prompt("test");

    assert!(prompt.contains("<analysis>"));
}

#[test]
fn build_prompt_includes_conversation_history() {
    let service = ContextCompactionService::new();
    let history = "This is the conversation history";
    let prompt = service.build_compaction_prompt(history);

    assert!(prompt.contains(history));
    assert!(prompt.contains("CONVERSATION HISTORY TO SUMMARIZE:"));
}

#[test]
fn compact_fails_with_empty_history() {
    let service = ContextCompactionService::new();
    let request = ContextCompactionRequest {
        conversation_history: "   ".to_string(),
        model: None,
    };

    let result = service.compact_context(request);

    assert!(result.is_err());
    assert!(result
        .unwrap_err()
        .contains("Conversation history is required"));
}

#[test]
fn compact_succeeds_with_valid_history() {
    let service = ContextCompactionService::new();
    let request = ContextCompactionRequest {
        conversation_history: "User: How do I implement auth?\nAI: Here's how...".to_string(),
        model: Some("gemini-2.5-flash-lite".to_string()),
    };

    let result = service.compact_context(request);

    assert!(result.is_ok());
    // Result is empty for now (no LLM call)
    assert_eq!(result.unwrap().compressed_summary, "");
}

#[test]
fn get_available_model_uses_preferred() {
    let service = ContextCompactionService::new();
    let model = service.get_available_model_for_compression(&Some("custom-model".to_string()));
    assert_eq!(model, "custom-model");
}

#[test]
fn get_available_model_uses_default() {
    let service = ContextCompactionService::new();
    let model = service.get_available_model_for_compression(&None);
    assert_eq!(model, "gemini-2.5-flash-lite");
}
