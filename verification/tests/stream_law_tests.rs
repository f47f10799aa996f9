use llm_adapter::json::JsonValue;
use llm_adapter::model::StreamEvent;
use llm_adapter::protocol::OpenAiProtocol;
use llm_adapter::service_types::AiServiceError;
use llm_adapter::state::ProtocolStreamState;

/// Feeds every frame in order and gathers every event the parser hands out,
/// draining the queue after each call as the driving caller would.
fn collect_events(frames: &[&str]) -> Vec<StreamEvent> {
    let protocol = OpenAiProtocol;
    let mut state = ProtocolStreamState::new();
    let mut events: Vec<StreamEvent> = Vec::new();
    for frame in frames {
        if let Some(event) = protocol
            .parse_stream_event(None, frame, &mut state)
            .expect("frame should parse")
        {
            events.push(event);
        }
        while !state.pending_events.is_empty() {
            events.push(state.pending_events.remove(0));
        }
    }
    events
}

fn tool_calls_in(events: &[StreamEvent]) -> Vec<(String, String, JsonValue)> {
    let mut out = Vec::new();
    for event in events {
        if let StreamEvent::ToolCall {
            tool_call_id,
            tool_name,
            input,
        } = event
        {
            out.push((
                tool_call_id.clone(),
                tool_name.clone(),
                input.dup(),
            ));
        }
    }
    out
}

/// Fragmented and whole argument delivery assemble the same tool call.
#[test]
fn fragmented_arguments_equal_whole_arguments() {
    let fragmented = collect_events(&[
        "{\"choices\":[{\"delta\":{\"tool_calls\":[{\"index\":0,\"id\":\"call_9\",\"function\":{\"name\":\"lookup\",\"arguments\":\"{\\\"city\\\":\"}}]}}]}",
        "{\"choices\":[{\"delta\":{\"tool_calls\":[{\"index\":0,\"function\":{\"arguments\":\"\\\"Oslo\\\"}\"}}]}}]}",
        "[DONE]",
    ]);
    let whole = collect_events(&[
        "{\"choices\":[{\"delta\":{\"tool_calls\":[{\"index\":0,\"id\":\"call_9\",\"function\":{\"name\":\"lookup\",\"arguments\":\"{\\\"city\\\":\\\"Oslo\\\"}\"}}]}}]}",
        "[DONE]",
    ]);

    let a = tool_calls_in(&fragmented);
    let b = tool_calls_in(&whole);
    assert_eq!(a.len(), 1);
    assert_eq!(b.len(), 1);
    assert_eq!(a[0].0, b[0].0);
    assert_eq!(a[0].1, b[0].1);
    assert_eq!(a[0].2, b[0].2);
    assert_eq!(a[0].2.get("city"), Some(&JsonValue::Str("Oslo".to_string())));
}

/// A tool call surfaces exactly once, however often flushing is triggered.
#[test]
fn tool_call_emitted_at_most_once() {
    let events = collect_events(&[
        "{\"choices\":[{\"delta\":{\"tool_calls\":[{\"index\":0,\"id\":\"call_1\",\"function\":{\"name\":\"ping\",\"arguments\":\"{}\"}}]}}]}",
        "{\"choices\":[{\"finish_reason\":\"tool_calls\",\"delta\":{}}]}",
        "{\"choices\":[{\"finish_reason\":\"tool_calls\",\"delta\":{}}]}",
        "[DONE]",
    ]);

    assert_eq!(tool_calls_in(&events).len(), 1);
}

/// A non-empty name wins; an empty later name never clears it.
#[test]
fn nonempty_name_wins_over_empty() {
    let events = collect_events(&[
        "{\"choices\":[{\"delta\":{\"tool_calls\":[{\"index\":0,\"id\":\"call_2\",\"function\":{\"name\":\"\",\"arguments\":\"{\\\"a\\\":\"}}]}}]}",
        "{\"choices\":[{\"delta\":{\"tool_calls\":[{\"index\":0,\"function\":{\"name\":\"writeFile\",\"arguments\":\"1}\"}}]}}]}",
        "{\"choices\":[{\"delta\":{\"tool_calls\":[{\"index\":0,\"function\":{\"name\":\"\"}}]}}]}",
        "[DONE]",
    ]);

    let calls = tool_calls_in(&events);
    assert_eq!(calls.len(), 1);
    assert_eq!(calls[0].1, "writeFile");
}

/// `finish_reason == "tool_calls"` flushes accumulators with non-empty
/// arguments at once; an accumulator whose arguments are still empty waits
/// for the forced flush at `[DONE]`.
#[test]
fn empty_arguments_flush_only_at_done() {
    let protocol = OpenAiProtocol;
    let mut state = ProtocolStreamState::new();
    state.text_started = true;

    let with_args = "{\"choices\":[{\"delta\":{\"tool_calls\":[{\"index\":0,\"id\":\"call_a\",\"function\":{\"name\":\"one\",\"arguments\":\"{}\"}}]}}]}";
    let without_args = "{\"choices\":[{\"delta\":{\"tool_calls\":[{\"index\":1,\"id\":\"call_b\",\"function\":{\"name\":\"two\"}}]}}]}";
    let finish = "{\"choices\":[{\"finish_reason\":\"tool_calls\",\"delta\":{}}]}";

    protocol.parse_stream_event(None, with_args, &mut state).unwrap();
    protocol.parse_stream_event(None, without_args, &mut state).unwrap();
    let flushed = protocol
        .parse_stream_event(None, finish, &mut state)
        .unwrap()
        .expect("flushed event");
    match &flushed {
        StreamEvent::ToolCall { tool_call_id, .. } => assert_eq!(tool_call_id, "call_a"),
        other => panic!("unexpected event {:?}", other),
    }
    assert!(state.pending_events.is_empty());

    let forced = protocol
        .parse_stream_event(None, "[DONE]", &mut state)
        .unwrap()
        .expect("forced event");
    match &forced {
        StreamEvent::ToolCall { tool_call_id, input, .. } => {
            assert_eq!(tool_call_id, "call_b");
            assert_eq!(input, &JsonValue::Obj(Vec::new()));
        }
        other => panic!("unexpected event {:?}", other),
    }
}

/// Exactly one `TextStart`, before the first `TextDelta`.
#[test]
fn one_text_start_before_first_delta() {
    let events = collect_events(&[
        "{\"choices\":[{\"delta\":{\"content\":\"Hel\"}}]}",
        "{\"choices\":[{\"delta\":{\"content\":\"lo\"}}]}",
        "[DONE]",
    ]);

    let starts: Vec<usize> = events
        .iter()
        .enumerate()
        .filter(|(_, e)| matches!(e, StreamEvent::TextStart))
        .map(|(i, _)| i)
        .collect();
    let first_delta = events
        .iter()
        .position(|e| matches!(e, StreamEvent::TextDelta { .. }))
        .expect("a delta");
    assert_eq!(starts.len(), 1);
    assert!(starts[0] < first_delta);
}

/// `[DONE]` is always terminal: with nothing queued it synthesizes `Done`
/// carrying the last captured finish reason, or none.
#[test]
fn done_sentinel_always_yields_event() {
    let protocol = OpenAiProtocol;

    let mut fresh = ProtocolStreamState::new();
    let event = protocol
        .parse_stream_event(None, "[DONE]", &mut fresh)
        .unwrap()
        .expect("terminal event");
    assert_eq!(event, StreamEvent::Done { finish_reason: None });

    let mut finished = ProtocolStreamState::new();
    protocol
        .parse_stream_event(
            None,
            "{\"choices\":[{\"finish_reason\":\"stop\"}]}",
            &mut finished,
        )
        .unwrap();
    let event = protocol
        .parse_stream_event(None, " [DONE] ", &mut finished)
        .unwrap()
        .expect("terminal event");
    assert_eq!(
        event,
        StreamEvent::Done { finish_reason: Some("stop".to_string()) }
    );
}

/// A delta without an id falls back to the decimal index as its key and id.
#[test]
fn index_fallback_key_is_decimal_index() {
    let events = collect_events(&[
        "{\"choices\":[{\"delta\":{\"tool_calls\":[{\"index\":12,\"function\":{\"name\":\"probe\",\"arguments\":\"{}\"}}]}}]}",
        "[DONE]",
    ]);

    let calls = tool_calls_in(&events);
    assert_eq!(calls.len(), 1);
    assert_eq!(calls[0].0, "12");
}

/// A non-string arguments value replaces an empty buffer with its rendered
/// JSON text.
#[test]
fn whole_json_arguments_replace_empty_buffer() {
    let events = collect_events(&[
        "{\"choices\":[{\"delta\":{\"tool_calls\":[{\"index\":0,\"id\":\"call_j\",\"function\":{\"name\":\"go\",\"arguments\":{\"n\":7}}}]}}]}",
        "[DONE]",
    ]);

    let calls = tool_calls_in(&events);
    assert_eq!(calls.len(), 1);
    assert_eq!(calls[0].2.get("n"), Some(&JsonValue::Int(7)));
}

/// Malformed accumulated arguments never abort the stream: the raw text is
/// wrapped as a JSON string.
#[test]
fn malformed_arguments_wrap_as_string() {
    let events = collect_events(&[
        "{\"choices\":[{\"delta\":{\"tool_calls\":[{\"index\":0,\"id\":\"call_m\",\"function\":{\"name\":\"go\",\"arguments\":\"{broken\"}}]}}]}",
        "[DONE]",
    ]);

    let calls = tool_calls_in(&events);
    assert_eq!(calls.len(), 1);
    assert_eq!(calls[0].2, JsonValue::Str("{broken".to_string()));
}

/// A usage object synthesizes a usage event with the token counts.
#[test]
fn usage_frame_yields_usage_event() {
    let events = collect_events(&[
        "{\"usage\":{\"prompt_tokens\":11,\"completion_tokens\":5,\"total_tokens\":16}}",
        "[DONE]",
    ]);

    assert!(events.contains(&StreamEvent::Usage {
        input_tokens: 11,
        output_tokens: 5,
        total_tokens: Some(16),
        cached_input_tokens: None,
        cache_creation_input_tokens: None,
    }));
}

#[test]
fn calculate_cost_request_carries_usage_and_configs() {
    let request = llm_adapter::service_types::CalculateCostRequest {
        model_id: "gpt-4o".to_string(),
        usage: llm_adapter::service_types::TokenUsage {
            input_tokens: 100,
            output_tokens: 40,
            cached_input_tokens: Some(10),
            cache_creation_input_tokens: None,
        },
        model_configs: vec![(
            "gpt-4o".to_string(),
            JsonValue::Obj(vec![(
                "contextLength".to_string(),
                JsonValue::Int(128000),
            )]),
        )],
    };

    assert_eq!(request.model_id, "gpt-4o");
    assert_eq!(request.usage.input_tokens, 100);
    assert_eq!(request.model_configs.len(), 1);
    assert_eq!(
        request.model_configs[0].1.get("contextLength"),
        Some(&JsonValue::Int(128000))
    );
}

#[test]
fn error_messages_render_each_variant() {
    assert_eq!(
        AiServiceError::EmptyConversationHistory.message(),
        "No conversation history provided"
    );
    assert_eq!(AiServiceError::EmptyDiffText.message(), "No diff text provided");
    assert_eq!(AiServiceError::EmptyUserInput.message(), "No user input provided");
    assert_eq!(
        AiServiceError::NoAvailableModel.message(),
        "No available model for the requested operation"
    );
    assert_eq!(
        AiServiceError::CompressionTimeout(5000).message(),
        "Compression timeout after 5000ms"
    );
    assert_eq!(
        AiServiceError::ModelPricingNotFound("m1".to_string()).message(),
        "Model pricing not found: m1"
    );
    assert_eq!(
        AiServiceError::StreamingError("boom".to_string()).message(),
        "Streaming error: boom"
    );
    assert_eq!(
        AiServiceError::InvalidModelIdentifier("x/y".to_string()).message(),
        "Invalid model identifier: x/y"
    );
    assert_eq!(AiServiceError::Other("other".to_string()).message(), "other");
}
