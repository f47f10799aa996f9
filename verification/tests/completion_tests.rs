use llm_adapter::completion_service::CompletionService;
use llm_adapter::service_types::CompletionContext;

#[test]
fn extract_context_gets_correct_lines() {
    let _service = CompletionService::new();
    let content =
        "line1\nline2\nline3\nline4\nline5\nline6\nline7\nline8\nline9\nline10\nline11\nline12";

    // Cursor at the beginning of line12 (after "\n" at end of line11)
    let cursor_pos = content.find("line12").unwrap();

    let (prev, current, after) = CompletionService::extract_context(content, cursor_pos, 10, 5);

    // prev should contain lines 2-11 (10 lines before cursor)
    assert!(prev.contains("line2"));
    assert!(prev.contains("line10"));
    assert!(prev.contains("line11"));
    // current is empty because cursor is at start of a new line
    assert_eq!(current, "");
    assert_eq!(after, "line12");
}

#[test]
fn extract_context_handles_cursor_at_end() {
    let content = "line1\nline2";
    let cursor_pos = content.len();

    let (prev, current, after) = CompletionService::extract_context(content, cursor_pos, 10, 5);

    assert_eq!(prev, "line1");
    assert_eq!(current, "line2");
    assert_eq!(after, "");
}

#[test]
fn extract_context_handles_empty_after() {
    let content = "line1\nline2";
    let cursor_pos = content.len();

    let (_, _, after) = CompletionService::extract_context(content, cursor_pos, 10, 5);

    assert_eq!(after, "");
}

#[test]
fn build_prompt_contains_all_parts() {
    let service = CompletionService::new();
    let prompt = service.build_prompt(
        "test.ts",
        "typescript",
        "const x = 1;",
        "const y = ",
        "console.log(y);",
    );

    assert!(prompt.contains("test.ts"));
    assert!(prompt.contains("typescript"));
    assert!(prompt.contains("const x = 1;"));
    assert!(prompt.contains("const y = "));
    assert!(prompt.contains("console.log(y);"));
    assert!(prompt.contains("AI code completion assistant"));
}

#[test]
fn build_prompt_escapes_correctly() {
    let service = CompletionService::new();
    let prompt = service.build_prompt(
        "file.rs",
        "rust",
        "fn main() {",
        "    let x = \"test\";",
        "}",
    );

    assert!(prompt.contains("```rust"));
    assert!(prompt.contains("file.rs"));
}

#[test]
fn get_completion_returns_empty_completion() {
    let service = CompletionService::new();
    let context = CompletionContext {
        file_content: "let a = 1;\nlet b = ".to_string(),
        cursor_position: 19,
        file_name: "main.rs".to_string(),
        language: "rust".to_string(),
    };

    let result = service.get_completion(context);

    assert!(result.is_ok());
    let completion = result.unwrap();
    assert_eq!(completion.completion, "");
    assert!(completion.range.is_none());
}
