use llm_adapter::service_types::TitleGenerationRequest;
use llm_adapter::task_title_service::TaskTitleService;

#[test]
fn task_title_service_build_prompt_includes_user_input() {
    let service = TaskTitleService::new();
    let prompt = service.build_prompt(
        "How do I use React hooks?",
        "Generate the title in English.",
    );

    assert!(prompt.contains("How do I use React hooks?"));
    assert!(prompt.contains("User's message"));
}

#[test]
fn task_title_service_build_prompt_contains_guidelines() {
    let service = TaskTitleService::new();
    let prompt = service.build_prompt("test", "Generate the title in English.");

    assert!(prompt.contains("5-10 words maximum"));
    assert!(prompt.contains("title case"));
    assert!(prompt.contains("specific and descriptive"));
}

#[test]
fn task_title_service_build_prompt_contains_examples() {
    let service = TaskTitleService::new();
    let prompt = service.build_prompt("test", "Generate the title in English.");

    assert!(prompt.contains("Fix Login Bug"));
    assert!(prompt.contains("Create User Dashboard"));
    assert!(prompt.contains("Explain React Hooks"));
}

#[test]
fn build_prompt_uses_english_instruction() {
    let service = TaskTitleService::new();
    let prompt = service.build_prompt("test", "Generate the title in English.");

    assert!(prompt.contains("Generate the title in English."));
}

#[test]
fn build_prompt_uses_chinese_instruction() {
    let service = TaskTitleService::new();
    let prompt = service.build_prompt("test", "Generate the title in Chinese.");

    assert!(prompt.contains("Generate the title in Chinese."));
}

#[test]
fn generate_fails_with_empty_input() {
    let service = TaskTitleService::new();
    let request = TitleGenerationRequest {
        user_input: "   ".to_string(),
        language: None,
        model: None,
    };

    let result = service.generate_title(request);

    assert!(result.is_err());
    assert!(result.unwrap_err().contains("No user input"));
}

#[test]
fn generate_succeeds_with_valid_input() {
    let service = TaskTitleService::new();
    let request = TitleGenerationRequest {
        user_input: "How to implement authentication?".to_string(),
        language: Some("en".to_string()),
        model: None,
    };

    let result = service.generate_title(request);

    assert!(result.is_ok());
    // Result is empty string for now (no LLM call)
    assert_eq!(result.unwrap().title, "");
}

#[test]
fn generate_uses_chinese_when_specified() {
    let service = TaskTitleService::new();
    let request = TitleGenerationRequest {
        user_input: "如何实现登录功能？".to_string(),
        language: Some("zh".to_string()),
        model: None,
    };

    let result = service.generate_title(request);

    assert!(result.is_ok());
}

#[test]
fn preferred_model_type_returns_small() {
    assert_eq!(TaskTitleService::preferred_model_type(), "small");
}
