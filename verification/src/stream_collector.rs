//! Collecting a text response out of a canonical event stream.
//!
//! The decisions live here, verified: `TextCollector` folds one event at a
//! time and `finish` produces the collected record. The caller that owns the
//! transport drives the loop, feeding each awaited event and its arrival time
//! and enforcing its own per-step timeout.

use vstd::prelude::*;

use crate::model::{Message, MessageContent, StreamEvent, StreamTextRequest};
use crate::text::trimmed;

verus! {

pub struct StreamCollector;

impl StreamCollector {
    /// A plain text-completion request: one user message, streaming on,
    /// nothing else set.
    pub fn create_completion_request(model: String, prompt: String) -> (r: StreamTextRequest)
        ensures
            r.model@ == model@,
            r.messages@.len() == 1,
            r.messages@[0] matches Message::User { content: MessageContent::Text(t), provider_options: None } && t@
                == prompt@,
            r.tools is None,
            r.stream == Some(true),
            r.temperature is None,
            r.max_tokens is None,
            r.top_p is None,
            r.top_k is None,
            r.provider_options is None,
            r.request_id is None,
            r.trace_context is None,
    {
        let mut messages: Vec<Message> = Vec::new();
        messages.push(
            Message::User { content: MessageContent::Text(prompt), provider_options: None },
        );
        StreamTextRequest {
            model,
            messages,
            tools: None,
            stream: Some(true),
            temperature: None,
            max_tokens: None,
            top_p: None,
            top_k: None,
            provider_options: None,
            request_id: None,
            trace_context: None,
        }
    }
}

/// What one collected stream amounts to.
#[derive(Debug, Clone)]
pub struct CollectResult {
    /// The concatenated text deltas, trimmed.
    pub text: String,
    pub total_time_ms: u64,
    /// Defined exactly when at least one delta arrived.
    pub time_to_first_delta_ms: Option<u64>,
    pub delta_count: u32,
}

/// What the driving loop should do after one folded event.
#[derive(Debug, PartialEq)]
pub enum CollectStep {
    /// Keep feeding events.
    Continue,
    /// The stream ended; call `finish`.
    Finished,
    /// The stream failed with this description; discard the collector.
    Failed(String),
}

/// The running fold over a stream's text deltas.
pub struct TextCollector {
    pub text: String,
    pub delta_count: u32,
    pub first_delta_ms: Option<u64>,
}

impl TextCollector {
    /// An empty collector for a fresh stream.
    pub fn new() -> (r: TextCollector)
        ensures
            r.text@ == Seq::<char>::empty(),
            r.delta_count == 0,
            r.first_delta_ms is None,
    {
        TextCollector { text: String::new(), delta_count: 0, first_delta_ms: None }
    }

    /// Folds one event: text deltas append and count (the first one fixes the
    /// first-delta time), `Done` finishes, a stream error fails with its
    /// message behind `Stream error: `, and every other event is ignored.
    pub fn step(&mut self, event: &StreamEvent, now_ms: u64) -> (r: CollectStep)
        requires
            old(self).delta_count < u32::MAX,
        ensures
            match event {
                StreamEvent::TextDelta { text } => {
                    &&& r == CollectStep::Continue
                    &&& final(self).text@ == old(self).text@ + text@
                    &&& final(self).delta_count == old(self).delta_count + 1
                    &&& final(self).first_delta_ms == (match old(self).first_delta_ms {
                        Some(t) => Some(t),
                        None => Some(now_ms),
                    })
                },
                StreamEvent::Done { .. } => r == CollectStep::Finished && *final(self) == *old(
                    self,
                ),
                StreamEvent::Error { message } => {
                    &&& r matches CollectStep::Failed(m) && m@ == "Stream error: "@ + message@
                    &&& *final(self) == *old(self)
                },
                _ => r == CollectStep::Continue && *final(self) == *old(self),
            },
    {
        match event {
            StreamEvent::TextDelta { text } => {
                if self.first_delta_ms.is_none() {
                    self.first_delta_ms = Some(now_ms);
                }
                self.delta_count = self.delta_count + 1;
                self.text.append(text.as_str());
                CollectStep::Continue
            },
            StreamEvent::Done { .. } => CollectStep::Finished,
            StreamEvent::Error { message } => {
                let mut m = String::from_str("Stream error: ");
                m.append(message.as_str());
                CollectStep::Failed(m)
            },
            _ => CollectStep::Continue,
        }
    }

    /// The collected record: the text trimmed, the caller-measured total
    /// time, and the recorded first-delta latency and delta count.
    pub fn finish(&self, total_time_ms: u64) -> (r: CollectResult)
        ensures
            r.text@ == trimmed(self.text@),
            r.total_time_ms == total_time_ms,
            r.time_to_first_delta_ms == self.first_delta_ms,
            r.delta_count == self.delta_count,
    {
        CollectResult {
            text: crate::text::str_trim(self.text.as_str()),
            total_time_ms,
            time_to_first_delta_ms: self.first_delta_ms,
            delta_count: self.delta_count,
        }
    }
}

} // verus!
