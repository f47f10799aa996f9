use llm_adapter::json::JsonValue;
use llm_adapter::model::{ContentPart, Message, MessageContent, StreamEvent, ToolDefinition};
use llm_adapter::protocol::OpenAiProtocol;
use llm_adapter::state::ProtocolStreamState;

fn jstr(s: &str) -> JsonValue {
    JsonValue::Str(s.to_string())
}

fn jobj(pairs: Vec<(&str, JsonValue)>) -> JsonValue {
    let mut out: Vec<(String, JsonValue)> = Vec::new();
    for (k, v) in pairs {
        out.push((k.to_string(), v));
    }
    JsonValue::Obj(out)
}

fn tool_call_message(provider_options: Option<JsonValue>) -> Vec<Message> {
    vec![Message::Assistant {
        content: MessageContent::Parts(vec![ContentPart::ToolCall {
            tool_call_id: "call_1".to_string(),
            tool_name: "webFetch".to_string(),
            input: jobj(vec![("url", jstr("https://example.com"))]),
        }]),
        provider_options,
    }]
}

#[test]
fn includes_reasoning_content_from_provider_options() {
    let protocol = OpenAiProtocol;
    let messages = tool_call_message(Some(jobj(vec![(
        "openaiCompatible",
        jobj(vec![("reasoning_content", jstr(""))]),
    )])));

    let built = protocol.build_messages(&messages);
    let assistant = built.first().expect("assistant message");
    assert_eq!(assistant.get("reasoning_content"), Some(&jstr("")));
}

#[test]
fn omits_reasoning_content_when_not_provided() {
    let protocol = OpenAiProtocol;
    let messages = tool_call_message(None);

    let built = protocol.build_messages(&messages);
    let assistant = built.first().expect("assistant message");
    assert!(assistant.get("reasoning_content").is_none());
}

#[test]
fn assistant_tool_call_arguments_are_rendered_json() {
    let protocol = OpenAiProtocol;
    let messages = tool_call_message(None);

    let built = protocol.build_messages(&messages);
    let assistant = built.first().expect("assistant message");
    let tool_calls = assistant
        .get("tool_calls")
        .and_then(|v| match v {
            JsonValue::Arr(xs) => xs.first(),
            _ => None,
        })
        .expect("tool call entry");
    let arguments = tool_calls
        .get("function")
        .and_then(|f| f.get("arguments"))
        .expect("arguments");
    assert_eq!(arguments, &jstr("{\"url\":\"https://example.com\"}"));
}

#[test]
fn build_request_merges_provider_options_and_extra_body() {
    let protocol = OpenAiProtocol;
    let messages = vec![Message::User {
        content: MessageContent::Text("hi".to_string()),
        provider_options: None,
    }];

    let temperature = JsonValue::Num("0.2".to_string());
    let provider_options = jobj(vec![
        ("openai", jobj(vec![("reasoningEffort", jstr("medium"))])),
        ("openrouter", jobj(vec![("effort", jstr("low"))])),
    ]);
    let extra_body = jobj(vec![("extra_param", JsonValue::Bool(true))]);
    let body = protocol
        .build_request(
            "gpt-4o",
            &messages,
            None,
            Some(&temperature),
            Some(120),
            None,
            None,
            Some(&provider_options),
            Some(&extra_body),
        )
        .expect("build request");

    assert_eq!(body.get("reasoning_effort"), Some(&jstr("medium")));
    assert_eq!(
        body.get("reasoning"),
        Some(&jobj(vec![("effort", jstr("low"))]))
    );
    assert_eq!(body.get("extra_param"), Some(&JsonValue::Bool(true)));
    assert_eq!(body.get("max_tokens"), Some(&JsonValue::Int(120)));
}

#[test]
fn build_request_extra_body_overrides_max_tokens() {
    let protocol = OpenAiProtocol;
    let messages = vec![Message::User {
        content: MessageContent::Text("hi".to_string()),
        provider_options: None,
    }];

    let extra_body = jobj(vec![("max_tokens", JsonValue::Int(999))]);
    let body = protocol
        .build_request(
            "gpt-4o",
            &messages,
            None,
            None,
            Some(120),
            None,
            None,
            None,
            Some(&extra_body),
        )
        .expect("build request");

    assert_eq!(body.get("max_tokens"), Some(&JsonValue::Int(999)));
}

#[test]
fn build_request_omits_empty_tools() {
    let protocol = OpenAiProtocol;
    let messages = vec![Message::User {
        content: MessageContent::Text("hi".to_string()),
        provider_options: None,
    }];

    let no_tools: Vec<ToolDefinition> = Vec::new();
    let body = protocol
        .build_request(
            "gpt-4o",
            &messages,
            Some(&no_tools),
            None,
            None,
            None,
            None,
            None,
            None,
        )
        .expect("build request");

    assert!(body.get("tools").is_none());
}

#[test]
fn build_request_includes_supplied_tools() {
    let protocol = OpenAiProtocol;
    let messages = vec![Message::User {
        content: MessageContent::Text("hi".to_string()),
        provider_options: None,
    }];

    let tools = vec![ToolDefinition {
        name: "readFile".to_string(),
        description: "Reads a file".to_string(),
        parameters: jobj(vec![("type", jstr("object"))]),
    }];
    let body = protocol
        .build_request("gpt-4o", &messages, Some(&tools), None, None, None, None, None, None)
        .expect("build request");

    let entries = match body.get("tools") {
        Some(JsonValue::Arr(xs)) => xs,
        other => panic!("unexpected tools value {:?}", other),
    };
    assert_eq!(entries.len(), 1);
    let name = entries[0]
        .get("function")
        .and_then(|f| f.get("name"))
        .expect("tool name");
    assert_eq!(name, &jstr("readFile"));
}

#[test]
fn parse_stream_emits_tool_call_from_accumulated_arguments() {
    let protocol = OpenAiProtocol;
    let mut state = ProtocolStreamState::new();

    let first = "{\"choices\":[{\"delta\":{\"tool_calls\":[{\"index\":0,\"id\":\"call_1\",\"function\":{\"name\":\"readFile\",\"arguments\":\"{\\\"path\\\":\\\"/tmp\"}}]}}]}";
    let second = "{\"choices\":[{\"delta\":{\"tool_calls\":[{\"index\":0,\"function\":{\"arguments\":\"\\\",\\\"pattern\\\":\\\"**/*.rs\\\"}\"}}]}}]}";
    let done = "{\"choices\":[{\"finish_reason\":\"tool_calls\",\"delta\":{}}]}";

    let _ = protocol
        .parse_stream_event(None, first, &mut state)
        .expect("parse first");
    let _ = protocol
        .parse_stream_event(None, second, &mut state)
        .expect("parse second");
    state.text_started = true;
    let event = protocol
        .parse_stream_event(None, done, &mut state)
        .expect("parse done")
        .expect("event");

    match event {
        StreamEvent::ToolCall {
            tool_call_id,
            tool_name,
            input,
        } => {
            assert_eq!(tool_call_id, "call_1");
            assert_eq!(tool_name, "readFile");
            assert_eq!(input.get("path"), Some(&jstr("/tmp")));
            assert_eq!(input.get("pattern"), Some(&jstr("**/*.rs")));
        }
        _ => panic!("Unexpected event"),
    }
}

#[test]
fn build_headers_prefers_oauth_token() {
    let protocol = OpenAiProtocol;
    let extra = vec![(String::from("X-Test"), String::from("1"))];
    let headers = protocol.build_headers(Some("api"), Some("oauth"), Some(&extra));
    assert_eq!(
        headers.get("Authorization"),
        Some(&"Bearer oauth".to_string())
    );
    assert_eq!(headers.get("X-Test"), Some(&"1".to_string()));
}

#[test]
fn build_headers_falls_back_to_api_key() {
    let protocol = OpenAiProtocol;
    let headers = protocol.build_headers(Some("api"), None, None);
    assert_eq!(headers.get("Authorization"), Some(&"Bearer api".to_string()));
    assert_eq!(
        headers.get("Content-Type"),
        Some(&"application/json".to_string())
    );
}

#[test]
fn build_headers_omits_authorization_without_credentials() {
    let protocol = OpenAiProtocol;
    let headers = protocol.build_headers(None, None, None);
    assert!(headers.get("Authorization").is_none());
    assert_eq!(headers.len(), 1);
}

#[test]
fn parse_stream_rejects_malformed_json() {
    let protocol = OpenAiProtocol;
    let mut state = ProtocolStreamState::new();
    let result = protocol.parse_stream_event(None, "{not json", &mut state);
    assert!(result.is_err());
    // The failed frame must not corrupt the state.
    assert!(state.pending_events.is_empty());
    assert!(!state.text_started);
}
