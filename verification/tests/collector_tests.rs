use llm_adapter::model::StreamEvent;
use llm_adapter::stream_collector::{CollectStep, StreamCollector, TextCollector};

fn delta(text: &str) -> StreamEvent {
    StreamEvent::TextDelta { text: text.to_string() }
}

/// Drives a collector over the events, reporting either the collected result
/// or the failure message, as a caller owning the transport would.
fn drive(events: Vec<StreamEvent>) -> Result<llm_adapter::stream_collector::CollectResult, String> {
    let mut collector = TextCollector::new();
    let mut now_ms: u64 = 0;
    for event in &events {
        now_ms += 1;
        match collector.step(event, now_ms) {
            CollectStep::Continue => {}
            CollectStep::Finished => return Ok(collector.finish(now_ms)),
            CollectStep::Failed(message) => return Err(message),
        }
    }
    Ok(collector.finish(now_ms))
}

/// Drives a collector over transport results: an `Err` item fails the stream
/// at once, as the transport-owning caller treats it.
fn drive_results(
    events: Vec<Result<StreamEvent, String>>,
) -> Result<llm_adapter::stream_collector::CollectResult, String> {
    let mut collector = TextCollector::new();
    let mut now_ms: u64 = 0;
    for item in events {
        now_ms += 1;
        match item {
            Ok(event) => match collector.step(&event, now_ms) {
                CollectStep::Continue => {}
                CollectStep::Finished => return Ok(collector.finish(now_ms)),
                CollectStep::Failed(message) => return Err(message),
            },
            Err(e) => return Err(e),
        }
    }
    Ok(collector.finish(now_ms))
}

#[test]
fn collect_text_handles_errors() {
    let events: Vec<Result<StreamEvent, String>> =
        vec![Err("Stream connection failed".to_string())];

    let result = drive_results(events);

    assert!(result.is_err());
    assert!(result.unwrap_err().contains("Stream connection failed"));
}

#[test]
fn collect_text_combines_deltas() {
    let events = vec![
        delta("Hello"),
        delta(" "),
        delta("World"),
        StreamEvent::Done { finish_reason: Some("stop".to_string()) },
    ];

    let result = drive(events).unwrap();

    assert_eq!(result.text, "Hello World");
    assert_eq!(result.delta_count, 3);
    // Time can be 0 in very fast tests, so we just check it's not unreasonably large
    assert!(result.total_time_ms < 10000); // Less than 10 seconds
    assert!(result.time_to_first_delta_ms.is_some());
}

#[test]
fn collect_text_trims_result() {
    let events = vec![
        delta("  spaced text  "),
        StreamEvent::Done { finish_reason: None },
    ];

    let result = drive(events).unwrap();

    assert_eq!(result.text, "spaced text");
}

#[test]
fn collect_text_handles_empty_stream() {
    let events = vec![StreamEvent::Done { finish_reason: None }];

    let result = drive(events).unwrap();

    assert_eq!(result.text, "");
    assert_eq!(result.delta_count, 0);
}

#[test]
fn collect_text_handles_stream_error_event() {
    let events = vec![
        delta("Partial"),
        StreamEvent::Error { message: "Something went wrong".to_string() },
    ];

    let result = drive(events);

    assert!(result.is_err());
    assert!(result.unwrap_err().contains("Something went wrong"));
}

#[test]
fn collect_text_records_first_delta_time() {
    let mut collector = TextCollector::new();
    assert_eq!(collector.step(&delta("a"), 7), CollectStep::Continue);
    assert_eq!(collector.step(&delta("b"), 9), CollectStep::Continue);
    let result = collector.finish(20);
    assert_eq!(result.time_to_first_delta_ms, Some(7));
    assert_eq!(result.total_time_ms, 20);
    assert_eq!(result.delta_count, 2);
}

#[test]
fn collect_text_ignores_other_events() {
    let mut collector = TextCollector::new();
    let usage = StreamEvent::Usage {
        input_tokens: 1,
        output_tokens: 2,
        total_tokens: Some(3),
        cached_input_tokens: None,
        cache_creation_input_tokens: None,
    };
    assert_eq!(collector.step(&usage, 1), CollectStep::Continue);
    assert_eq!(collector.step(&StreamEvent::TextStart, 2), CollectStep::Continue);
    let result = collector.finish(5);
    assert_eq!(result.delta_count, 0);
    assert_eq!(result.text, "");
    assert!(result.time_to_first_delta_ms.is_none());
}

#[test]
fn create_completion_request_builds_correct_structure() {
    let request = StreamCollector::create_completion_request(
        "gpt-4o".to_string(),
        "Generate a title".to_string(),
    );

    assert_eq!(request.model, "gpt-4o");
    assert_eq!(request.messages.len(), 1);
    assert!(request.stream.unwrap_or(false));
}
