use llm_adapter::git_message_service::GitMessageService;
use llm_adapter::service_types::GitMessageContext;

#[test]
fn build_prompt_includes_diff() {
    let service = GitMessageService::new();
    let context = GitMessageContext {
        user_input: None,
        diff_text: "diff --git a/file.ts b/file.ts\n+console.log('hello');".to_string(),
    };

    let prompt = service.build_prompt(&context);

    assert!(prompt.contains("diff --git"));
    assert!(prompt.contains("conventional commit format"));
    assert!(!prompt.contains("User task description"));
}

#[test]
fn git_message_service_build_prompt_includes_user_input() {
    let service = GitMessageService::new();
    let context = GitMessageContext {
        user_input: Some("Fix the login bug".to_string()),
        diff_text: "diff --git a/login.ts b/login.ts\n+if (user) {".to_string(),
    };

    let prompt = service.build_prompt(&context);

    assert!(prompt.contains("Fix the login bug"));
    assert!(prompt.contains("User task description"));
    assert!(prompt.contains("diff --git"));
}

#[test]
fn git_message_service_build_prompt_contains_guidelines() {
    let service = GitMessageService::new();
    let context = GitMessageContext {
        user_input: None,
        diff_text: "some diff".to_string(),
    };

    let prompt = service.build_prompt(&context);

    assert!(prompt.contains("conventional commit format"));
    assert!(prompt.contains("type(scope): description"));
    assert!(prompt.contains("feat, fix, docs, style, refactor, test, chore"));
    assert!(prompt.contains("72 characters"));
}

#[test]
fn git_message_service_build_prompt_contains_examples() {
    let service = GitMessageService::new();
    let context = GitMessageContext {
        user_input: None,
        diff_text: "some diff".to_string(),
    };

    let prompt = service.build_prompt(&context);

    assert!(prompt.contains("feat(auth): add user authentication system"));
    assert!(prompt.contains("fix(api): resolve data validation error"));
}

#[test]
fn generate_fails_with_empty_diff() {
    let service = GitMessageService::new();
    let context = GitMessageContext {
        user_input: None,
        diff_text: "   ".to_string(),
    };

    let result = service.generate_commit_message(context);

    assert!(result.is_err());
    assert!(result.unwrap_err().contains("No diff text"));
}

#[test]
fn generate_succeeds_with_valid_diff() {
    let service = GitMessageService::new();
    let context = GitMessageContext {
        user_input: Some("Add new feature".to_string()),
        diff_text: "diff --git a/src/main.ts b/src/main.ts\n+export function newFeature() {}"
            .to_string(),
    };

    let result = service.generate_commit_message(context);

    assert!(result.is_ok());
    // Result is empty string for now (no LLM call)
    assert_eq!(result.unwrap().message, "");
}

#[test]
fn preferred_model_returns_gemini() {
    assert_eq!(
        GitMessageService::preferred_model(),
        "gemini-2.5-flash-lite"
    );
}
