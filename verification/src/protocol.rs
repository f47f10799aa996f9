//! The adapter for the OpenAI-style chat-completion wire format: request
//! building, header construction, and the per-frame stream parser that folds
//! vendor deltas into canonical events through `ProtocolStreamState`.

use vstd::prelude::*;

use crate::headers::{hdr_put, hdr_put_all, Headers};
use crate::json::{
    deep_pairs, json_err_of, json_of, json_text_of, json_to_text, Jv, JsonValue, jv_get,
    obj_merge, obj_put, obj_put_pairs, parse_json,
};
use crate::model::{ContentPart, Ev, Message, MessageContent, StreamEvent, ToolDefinition};
use crate::state::{
    capture_finish, drain_front, emit_pass, emit_tool_calls, first_choice, frame_pre_flush,
    frame_step, parse_tool_delta, pop_front_event, apply_delta_text, push_usage,
    ProtocolStreamState, StateV, tool_delta,
};
use crate::text::{is_blank, join_with, str_is_blank, str_trim, string_eq_str, trimmed};

verus! {

/// The adapter targeting the OpenAI-style chat-completion wire format.
pub struct OpenAiProtocol;

/// The headers the adapter sends: JSON content type, a bearer token from the
/// OAuth token or else the API key, then caller extras applied last.
pub open spec fn spec_build_headers(
    api_key: Option<Seq<char>>,
    oauth: Option<Seq<char>>,
    extra: Option<Seq<(Seq<char>, Seq<char>)>>,
) -> Seq<(Seq<char>, Seq<char>)> {
    let base = hdr_put(Seq::empty(), "Content-Type"@, "application/json"@);
    let tok = if oauth is Some {
        oauth
    } else {
        api_key
    };
    let authed = match tok {
        Some(t) => hdr_put(base, "Authorization"@, "Bearer "@ + t),
        None => base,
    };
    match extra {
        Some(es) => hdr_put_all(authed, es),
        None => authed,
    }
}

/// A `{type: text, text}` wire entry.
pub open spec fn wire_text(t: Seq<char>) -> Jv {
    Jv::Obj(seq![("type"@, Jv::Str("text"@)), ("text"@, Jv::Str(t))])
}

/// A `{type: image_url, image_url: {url}}` wire entry carrying the image as a
/// PNG data URL.
pub open spec fn wire_image(img: Seq<char>) -> Jv {
    Jv::Obj(
        seq![
            ("type"@, Jv::Str("image_url"@)),
            (
                "image_url"@,
                Jv::Obj(seq![("url"@, Jv::Str("data:image/png;base64,"@ + img))]),
            ),
        ],
    )
}

/// The informational `{type: tool_call, ...}` entry used when an already-sent
/// tool call is replayed inside user content.
pub open spec fn wire_tool_call_ref(id: Seq<char>, name: Seq<char>, input: Jv) -> Jv {
    Jv::Obj(
        seq![
            ("type"@, Jv::Str("tool_call"@)),
            ("id"@, Jv::Str(id)),
            (
                "function"@,
                Jv::Obj(
                    seq![("name"@, Jv::Str(name)), ("arguments"@, Jv::Str(json_text_of(input)))],
                ),
            ),
        ],
    )
}

/// How one content part serializes inside user content: tool results are
/// dropped, blank reasoning is dropped, everything else maps to one entry.
pub open spec fn wire_user_part(part: ContentPart) -> Option<Jv> {
    match part {
        ContentPart::Text { text } => Some(wire_text(text@)),
        ContentPart::Image { image } => Some(wire_image(image@)),
        ContentPart::ToolCall { tool_call_id, tool_name, input } => Some(
            wire_tool_call_ref(tool_call_id@, tool_name@, input@),
        ),
        ContentPart::ToolResult { .. } => None,
        ContentPart::Reasoning { text } => if is_blank(text@) {
            None
        } else {
            Some(wire_text(text@))
        },
    }
}

/// User content parts serialized in order, drops included.
pub open spec fn wire_user_parts(parts: Seq<ContentPart>) -> Seq<Jv>
    decreases parts.len(),
{
    if parts.len() == 0 {
        Seq::empty()
    } else {
        wire_user_parts(parts.drop_last()) + (match wire_user_part(parts.last()) {
            Some(v) => seq![v],
            None => Seq::empty(),
        })
    }
}

/// How message content serializes in a user message: plain text as a bare
/// string, parts as an array of entries.
pub open spec fn spec_convert_content(content: MessageContent) -> Jv {
    match content {
        MessageContent::Text(t) => Jv::Str(t@),
        MessageContent::Parts(parts) => Jv::Arr(wire_user_parts(parts@)),
    }
}

/// The non-blank text and reasoning chunks of assistant parts, in order.
pub open spec fn assistant_chunks(parts: Seq<ContentPart>) -> Seq<Seq<char>>
    decreases parts.len(),
{
    if parts.len() == 0 {
        Seq::empty()
    } else {
        assistant_chunks(parts.drop_last()) + (match parts.last() {
            ContentPart::Text { text } => if is_blank(text@) {
                Seq::empty()
            } else {
                seq![text@]
            },
            ContentPart::Reasoning { text } => if is_blank(text@) {
                Seq::empty()
            } else {
                seq![text@]
            },
            _ => Seq::empty(),
        })
    }
}

/// The rich array entries of assistant parts: non-blank text and reasoning as
/// text entries, images as image entries.
pub open spec fn assistant_rich_parts(parts: Seq<ContentPart>) -> Seq<Jv>
    decreases parts.len(),
{
    if parts.len() == 0 {
        Seq::empty()
    } else {
        assistant_rich_parts(parts.drop_last()) + (match parts.last() {
            ContentPart::Text { text } => if is_blank(text@) {
                Seq::empty()
            } else {
                seq![wire_text(text@)]
            },
            ContentPart::Reasoning { text } => if is_blank(text@) {
                Seq::empty()
            } else {
                seq![wire_text(text@)]
            },
            ContentPart::Image { image } => seq![wire_image(image@)],
            _ => Seq::empty(),
        })
    }
}

/// Whether any assistant part is an image.
pub open spec fn assistant_has_image(parts: Seq<ContentPart>) -> bool
    decreases parts.len(),
{
    if parts.len() == 0 {
        false
    } else {
        assistant_has_image(parts.drop_last()) || parts.last() is Image
    }
}

/// The assistant message's `content` value: the full rich array when an image
/// is present, the chunks joined into one string when there is text, null
/// otherwise.
pub open spec fn assistant_content_value(content: MessageContent) -> Jv {
    match content {
        MessageContent::Text(t) => if is_blank(t@) {
            Jv::Null
        } else {
            Jv::Str(t@)
        },
        MessageContent::Parts(parts) => if assistant_has_image(parts@) {
            Jv::Arr(assistant_rich_parts(parts@))
        } else if assistant_chunks(parts@).len() > 0 {
            Jv::Str(join_with(assistant_chunks(parts@), Seq::empty()))
        } else {
            Jv::Null
        },
    }
}

/// One attached assistant tool call on the wire.
pub open spec fn wire_assistant_tool_call(id: Seq<char>, name: Seq<char>, input: Jv) -> Jv {
    Jv::Obj(
        seq![
            ("id"@, Jv::Str(id)),
            ("type"@, Jv::Str("function"@)),
            (
                "function"@,
                Jv::Obj(
                    seq![("name"@, Jv::Str(name)), ("arguments"@, Jv::Str(json_text_of(input)))],
                ),
            ),
        ],
    )
}

/// The tool calls attached to an assistant message: every `ToolCall` part
/// whose name is not blank, in order.
pub open spec fn assistant_tool_calls(parts: Seq<ContentPart>) -> Seq<Jv>
    decreases parts.len(),
{
    if parts.len() == 0 {
        Seq::empty()
    } else {
        assistant_tool_calls(parts.drop_last()) + (match parts.last() {
            ContentPart::ToolCall { tool_call_id, tool_name, input } => if is_blank(tool_name@) {
                Seq::empty()
            } else {
                seq![wire_assistant_tool_call(tool_call_id@, tool_name@, input@)]
            },
            _ => Seq::empty(),
        })
    }
}

/// The whole assistant wire message: content value, attached tool calls when
/// any, and a verbatim `reasoning_content` copied from the provider options'
/// `openaiCompatible` escape hatch.
pub open spec fn spec_assistant_message(content: MessageContent, options: Option<Jv>) -> Jv {
    let base = seq![("role"@, Jv::Str("assistant"@)), ("content"@, assistant_content_value(content))];
    let with_tools = match content {
        MessageContent::Parts(parts) => if assistant_tool_calls(parts@).len() > 0 {
            obj_put(base, "tool_calls"@, Jv::Arr(assistant_tool_calls(parts@)))
        } else {
            base
        },
        MessageContent::Text(_) => base,
    };
    let with_rc = match options {
        Some(o) => match jv_get(o, "openaiCompatible"@) {
            Some(oc) => match jv_get(oc, "reasoning_content"@) {
                Some(rc) => obj_put(with_tools, "reasoning_content"@, rc),
                None => with_tools,
            },
            None => with_tools,
        },
        None => with_tools,
    };
    Jv::Obj(with_rc)
}

/// What a tool result's output becomes as tool-message content: the `value`
/// string when the output is an object holding one, else the rendered JSON.
pub open spec fn spec_tool_output(output: Jv) -> Seq<char> {
    match jv_get(output, "value"@) {
        Some(Jv::Str(s)) => s,
        _ => json_text_of(output),
    }
}

/// The wire messages a tool message expands to: one per tool-result part.
pub open spec fn wire_tool_results(parts: Seq<ContentPart>) -> Seq<Jv>
    decreases parts.len(),
{
    if parts.len() == 0 {
        Seq::empty()
    } else {
        wire_tool_results(parts.drop_last()) + (match parts.last() {
            ContentPart::ToolResult { tool_call_id, tool_name, output } => seq![
                Jv::Obj(
                    seq![
                        ("tool_call_id"@, Jv::Str(tool_call_id@)),
                        ("role"@, Jv::Str("tool"@)),
                        ("content"@, Jv::Str(spec_tool_output(output@))),
                    ],
                ),
            ],
            _ => Seq::empty(),
        })
    }
}

/// The zero-or-more wire messages one canonical message maps to.
pub open spec fn spec_message_to_wire(msg: Message) -> Seq<Jv> {
    match msg {
        Message::System { content } => seq![
            Jv::Obj(seq![("role"@, Jv::Str("system"@)), ("content"@, Jv::Str(content@))]),
        ],
        Message::User { content, .. } => seq![
            Jv::Obj(seq![("role"@, Jv::Str("user"@)), ("content"@, spec_convert_content(content))]),
        ],
        Message::Assistant { content, provider_options } => seq![
            spec_assistant_message(
                content,
                match provider_options {
                    Some(o) => Some(o@),
                    None => None,
                },
            ),
        ],
        Message::Tool { content } => wire_tool_results(content@),
    }
}

/// Every canonical message serialized, in order.
pub open spec fn spec_build_messages(msgs: Seq<Message>) -> Seq<Jv>
    decreases msgs.len(),
{
    if msgs.len() == 0 {
        Seq::empty()
    } else {
        spec_build_messages(msgs.drop_last()) + spec_message_to_wire(msgs.last())
    }
}

/// One tool definition on the wire.
pub open spec fn wire_tool_def(t: ToolDefinition) -> Jv {
    Jv::Obj(
        seq![
            ("type"@, Jv::Str("function"@)),
            (
                "function"@,
                Jv::Obj(
                    seq![
                        ("name"@, Jv::Str(t.name@)),
                        ("description"@, Jv::Str(t.description@)),
                        ("parameters"@, t.parameters@),
                    ],
                ),
            ),
        ],
    )
}

/// The `tools` array. When there are no tools — none supplied, or an empty
/// list — the key is omitted entirely rather than sending an empty array.
pub open spec fn spec_build_tools(tools: Option<Seq<ToolDefinition>>) -> Option<Seq<Jv>> {
    match tools {
        None => None,
        Some(ts) => if ts.len() == 0 {
            None
        } else {
            Some(Seq::new(ts.len(), |i: int| wire_tool_def(ts[i])))
        },
    }
}

/// The whole request body: the fixed streaming scaffold, the optional fields
/// that were supplied, provider-specific reasoning overrides, and finally the
/// caller's `extra_body` keys, which override everything computed before.
pub open spec fn spec_build_request(
    model: Seq<char>,
    msgs: Seq<Message>,
    tools: Option<Seq<ToolDefinition>>,
    temperature: Option<Jv>,
    max_tokens: Option<i32>,
    top_p: Option<Jv>,
    top_k: Option<i32>,
    provider_options: Option<Jv>,
    extra_body: Option<Jv>,
) -> Jv {
    let base = seq![
        ("model"@, Jv::Str(model)),
        ("messages"@, Jv::Arr(spec_build_messages(msgs))),
        ("stream"@, Jv::Bool(true)),
        ("stream_options"@, Jv::Obj(seq![("include_usage"@, Jv::Bool(true))])),
    ];
    let b1 = match spec_build_tools(tools) {
        Some(ts) => obj_put(base, "tools"@, Jv::Arr(ts)),
        None => base,
    };
    let b2 = match temperature {
        Some(t) => obj_put(b1, "temperature"@, t),
        None => b1,
    };
    let b3 = match max_tokens {
        Some(mt) => obj_put(b2, "max_tokens"@, Jv::Int(mt as i64)),
        None => b2,
    };
    let b4 = match top_p {
        Some(t) => obj_put(b3, "top_p"@, t),
        None => b3,
    };
    let b5 = match top_k {
        Some(tk) => obj_put(b4, "top_k"@, Jv::Int(tk as i64)),
        None => b4,
    };
    let b6 = match provider_options {
        Some(o) => {
            let c1 = match jv_get(o, "openai"@) {
                Some(oo) => match jv_get(oo, "reasoningEffort"@) {
                    Some(re) => obj_put(b5, "reasoning_effort"@, re),
                    None => b5,
                },
                None => b5,
            };
            match jv_get(o, "openrouter"@) {
                Some(orr) => match jv_get(orr, "effort"@) {
                    Some(ef) => obj_put(c1, "reasoning"@, Jv::Obj(seq![("effort"@, ef)])),
                    None => c1,
                },
                None => c1,
            }
        },
        None => b5,
    };
    let b7 = match extra_body {
        Some(Jv::Obj(es)) => obj_merge(b6, es),
        _ => b6,
    };
    Jv::Obj(b7)
}

/// A JSON string value from a literal.
fn js(s: &str) -> (r: JsonValue)
    ensures
        r@ == Jv::Str(s@),
{
    JsonValue::Str(String::from_str(s))
}

/// A one-pair JSON object.
fn obj1(k1: &str, v1: JsonValue) -> (r: JsonValue)
    ensures
        r@ == Jv::Obj(seq![(k1@, v1@)]),
{
    let ghost g1 = v1@;
    let mut ps: Vec<(String, JsonValue)> = Vec::new();
    ps.push((String::from_str(k1), v1));
    proof {
        broadcast use crate::json::lemma_deep_pairs_len, crate::json::lemma_deep_pairs_index;

        assert(deep_pairs(ps@) =~= seq![(k1@, g1)]);
    }
    JsonValue::Obj(ps)
}

/// A two-pair JSON object.
fn obj2(k1: &str, v1: JsonValue, k2: &str, v2: JsonValue) -> (r: JsonValue)
    ensures
        r@ == Jv::Obj(seq![(k1@, v1@), (k2@, v2@)]),
{
    let ghost g1 = v1@;
    let ghost g2 = v2@;
    let mut ps: Vec<(String, JsonValue)> = Vec::new();
    ps.push((String::from_str(k1), v1));
    ps.push((String::from_str(k2), v2));
    proof {
        broadcast use crate::json::lemma_deep_pairs_len, crate::json::lemma_deep_pairs_index;

        assert(deep_pairs(ps@) =~= seq![(k1@, g1), (k2@, g2)]);
    }
    JsonValue::Obj(ps)
}

/// A three-pair JSON object.
fn obj3(k1: &str, v1: JsonValue, k2: &str, v2: JsonValue, k3: &str, v3: JsonValue) -> (r:
    JsonValue)
    ensures
        r@ == Jv::Obj(seq![(k1@, v1@), (k2@, v2@), (k3@, v3@)]),
{
    let ghost g1 = v1@;
    let ghost g2 = v2@;
    let ghost g3 = v3@;
    let mut ps: Vec<(String, JsonValue)> = Vec::new();
    ps.push((String::from_str(k1), v1));
    ps.push((String::from_str(k2), v2));
    ps.push((String::from_str(k3), v3));
    proof {
        broadcast use crate::json::lemma_deep_pairs_len, crate::json::lemma_deep_pairs_index;

        assert(deep_pairs(ps@) =~= seq![(k1@, g1), (k2@, g2), (k3@, g3)]);
    }
    JsonValue::Obj(ps)
}

fn make_text_entry(text: &String) -> (r: JsonValue)
    ensures
        r@ == wire_text(text@),
{
    obj2("type", js("text"), "text", JsonValue::Str(text.clone()))
}

fn make_image_entry(image: &String) -> (r: JsonValue)
    ensures
        r@ == wire_image(image@),
{
    let mut url = String::from_str("data:image/png;base64,");
    url.append(image.as_str());
    obj2("type", js("image_url"), "image_url", obj1("url", JsonValue::Str(url)))
}

fn make_tool_call_ref(id: &String, name: &String, input: &JsonValue) -> (r: JsonValue)
    ensures
        r@ == wire_tool_call_ref(id@, name@, input@),
{
    obj3(
        "type",
        js("tool_call"),
        "id",
        JsonValue::Str(id.clone()),
        "function",
        obj2("name", JsonValue::Str(name.clone()), "arguments", JsonValue::Str(json_to_text(input))),
    )
}

fn make_assistant_tool_call(id: &String, name: &String, input: &JsonValue) -> (r: JsonValue)
    ensures
        r@ == wire_assistant_tool_call(id@, name@, input@),
{
    obj3(
        "id",
        JsonValue::Str(id.clone()),
        "type",
        js("function"),
        "function",
        obj2("name", JsonValue::Str(name.clone()), "arguments", JsonValue::Str(json_to_text(input))),
    )
}

fn make_tool_def(t: &ToolDefinition) -> (r: JsonValue)
    ensures
        r@ == wire_tool_def(*t),
{
    obj2(
        "type",
        js("function"),
        "function",
        obj3(
            "name",
            JsonValue::Str(t.name.clone()),
            "description",
            JsonValue::Str(t.description.clone()),
            "parameters",
            t.parameters.dup(),
        ),
    )
}

/// What a tool result's output becomes as tool-message content.
fn tool_output_text(output: &JsonValue) -> (r: String)
    ensures
        r@ == spec_tool_output(output@),
{
    match output.get("value") {
        Some(v) => match v.as_str_ref() {
            Some(s) => s.clone(),
            None => json_to_text(output),
        },
        None => json_to_text(output),
    }
}

fn make_tool_result_msg(tool_call_id: &String, output: &JsonValue) -> (r: JsonValue)
    ensures
        r@ == Jv::Obj(
            seq![
                ("tool_call_id"@, Jv::Str(tool_call_id@)),
                ("role"@, Jv::Str("tool"@)),
                ("content"@, Jv::Str(spec_tool_output(output@))),
            ],
        ),
{
    obj3(
        "tool_call_id",
        JsonValue::Str(tool_call_id.clone()),
        "role",
        js("tool"),
        "content",
        JsonValue::Str(tool_output_text(output)),
    )
}

impl OpenAiProtocol {
    /// The protocol identifier adapters are selected by.
    pub fn name(&self) -> (r: &'static str)
        ensures
            r@ == "openai"@,
    {
        "openai"
    }

    /// The endpoint path requests are posted to.
    pub fn endpoint_path(&self) -> (r: &'static str)
        ensures
            r@ == "chat/completions"@,
    {
        "chat/completions"
    }

    /// Serializes message content for a user message, as
    /// `spec_convert_content` says.
    #[verifier::loop_isolation(false)]
    pub fn convert_content(&self, content: &MessageContent) -> (r: JsonValue)
        ensures
            r@ == spec_convert_content(*content),
    {
        match content {
            MessageContent::Text(t) => JsonValue::Str(t.clone()),
            MessageContent::Parts(parts) => {
                let mut mapped: Vec<JsonValue> = Vec::new();
                proof {
                    assert(parts@.subrange(0, 0) =~= Seq::<ContentPart>::empty());
                    assert(mapped.deep_view() =~= wire_user_parts(parts@.subrange(0, 0)));
                }
                let mut i: usize = 0;
                while i < parts.len()
                    invariant
                        0 <= i <= parts@.len(),
                        mapped.deep_view() == wire_user_parts(parts@.subrange(0, i as int)),
                    decreases parts@.len() - i,
                {
                    let ghost prefix = parts@.subrange(0, i as int);
                    let ghost now = parts@.subrange(0, i + 1);
                    proof {
                        assert(now.drop_last() =~= prefix);
                        assert(now.last() == parts@[i as int]);
                    }
                    match &parts[i] {
                        ContentPart::Text { text } => {
                            mapped.push(make_text_entry(text));
                        },
                        ContentPart::Image { image } => {
                            mapped.push(make_image_entry(image));
                        },
                        ContentPart::ToolCall { tool_call_id, tool_name, input } => {
                            mapped.push(make_tool_call_ref(tool_call_id, tool_name, input));
                        },
                        ContentPart::ToolResult { .. } => {},
                        ContentPart::Reasoning { text } => {
                            if !str_is_blank(text.as_str()) {
                                mapped.push(make_text_entry(text));
                            }
                        },
                    }
                    proof {
                        assert(mapped.deep_view() =~= wire_user_parts(now));
                    }
                    i += 1;
                }
                proof {
                    broadcast use crate::json::lemma_deep_elems_len, crate::json::lemma_deep_elems_index;

                    assert(parts@.subrange(0, parts@.len() as int) =~= parts@);
                    assert(crate::json::deep_elems(mapped@) =~= mapped.deep_view());
                }
                JsonValue::Arr(mapped)
            },
        }
    }

    /// Maps tool definitions to the wire `tools` array, absent when there
    /// are none.
    #[verifier::loop_isolation(false)]
    pub fn build_tools(&self, tools: Option<&[ToolDefinition]>) -> (r: Option<Vec<JsonValue>>)
        ensures
            ({
                let tv = match tools {
                    Some(ts) => Some(ts@),
                    None => None,
                };
                match r {
                    Some(v) => spec_build_tools(tv) == Some(v.deep_view()),
                    None => spec_build_tools(tv) is None,
                }
            }),
    {
        match tools {
            None => None,
            Some(ts) => {
                if ts.len() == 0 {
                    return None;
                }
                let mut out: Vec<JsonValue> = Vec::new();
                let mut i: usize = 0;
                while i < ts.len()
                    invariant
                        0 <= i <= ts@.len(),
                        out@.len() == i,
                        forall|j: int|
                            0 <= j < i ==> (#[trigger] out@[j])@ == wire_tool_def(ts@[j]),
                    decreases ts@.len() - i,
                {
                    out.push(make_tool_def(&ts[i]));
                    i += 1;
                }
                proof {
                    assert(out.deep_view() =~= Seq::new(ts@.len(), |j: int| wire_tool_def(ts@[j])));
                }
                Some(out)
            },
        }
    }

    /// Builds the one assistant wire message, as `spec_assistant_message`
    /// says.
    #[verifier::loop_isolation(false)]
    pub fn build_assistant_message(
        &self,
        content: &MessageContent,
        provider_options: Option<&JsonValue>,
    ) -> (r: JsonValue)
        ensures
            r@ == spec_assistant_message(
                *content,
                match provider_options {
                    Some(o) => Some(o@),
                    None => None,
                },
            ),
    {
        let content_value: JsonValue = match content {
            MessageContent::Text(t) => {
                if !str_is_blank(t.as_str()) {
                    JsonValue::Str(t.clone())
                } else {
                    JsonValue::Null
                }
            },
            MessageContent::Parts(parts) => {
                let mut chunks: Vec<String> = Vec::new();
                let mut rich: Vec<JsonValue> = Vec::new();
                let mut has_image: bool = false;
                proof {
                    assert(parts@.subrange(0, 0) =~= Seq::<ContentPart>::empty());
                    assert(chunks@.map_values(|p: String| p@) =~= assistant_chunks(
                        parts@.subrange(0, 0),
                    ));
                    assert(rich.deep_view() =~= assistant_rich_parts(parts@.subrange(0, 0)));
                }
                let mut i: usize = 0;
                while i < parts.len()
                    invariant
                        0 <= i <= parts@.len(),
                        chunks@.map_values(|p: String| p@) == assistant_chunks(
                            parts@.subrange(0, i as int),
                        ),
                        rich.deep_view() == assistant_rich_parts(parts@.subrange(0, i as int)),
                        has_image == assistant_has_image(parts@.subrange(0, i as int)),
                    decreases parts@.len() - i,
                {
                    let ghost prefix = parts@.subrange(0, i as int);
                    let ghost now = parts@.subrange(0, i + 1);
                    proof {
                        assert(now.drop_last() =~= prefix);
                        assert(now.last() == parts@[i as int]);
                    }
                    match &parts[i] {
                        ContentPart::Text { text } => {
                            if !str_is_blank(text.as_str()) {
                                chunks.push(text.clone());
                                rich.push(make_text_entry(text));
                            }
                        },
                        ContentPart::Reasoning { text } => {
                            if !str_is_blank(text.as_str()) {
                                chunks.push(text.clone());
                                rich.push(make_text_entry(text));
                            }
                        },
                        ContentPart::Image { image } => {
                            has_image = true;
                            rich.push(make_image_entry(image));
                        },
                        ContentPart::ToolCall { .. } => {},
                        ContentPart::ToolResult { .. } => {},
                    }
                    proof {
                        assert(chunks@.map_values(|p: String| p@) =~= assistant_chunks(now));
                        assert(rich.deep_view() =~= assistant_rich_parts(now));
                    }
                    i += 1;
                }
                proof {
                    assert(parts@.subrange(0, parts@.len() as int) =~= parts@);
                }
                if has_image {
                    proof {
                        broadcast use crate::json::lemma_deep_elems_len, crate::json::lemma_deep_elems_index;

                        assert(crate::json::deep_elems(rich@) =~= rich.deep_view());
                    }
                    JsonValue::Arr(rich)
                } else if chunks.len() > 0 {
                    let joined = crate::text::join_strings(&chunks, "");
                    proof {
                        reveal_strlit("");
                        assert(""@ =~= Seq::<char>::empty());
                    }
                    JsonValue::Str(joined)
                } else {
                    proof {
                        assert(assistant_chunks(parts@).len() == 0);
                    }
                    JsonValue::Null
                }
            },
        };
        proof {
            assert(content_value@ == assistant_content_value(*content));
        }
        let mut message: Vec<(String, JsonValue)> = Vec::new();
        message.push((String::from_str("role"), js("assistant")));
        message.push((String::from_str("content"), content_value));
        let ghost base = seq![
            ("role"@, Jv::Str("assistant"@)),
            ("content"@, assistant_content_value(*content)),
        ];
        proof {
            broadcast use crate::json::lemma_deep_pairs_len, crate::json::lemma_deep_pairs_index;

            assert(deep_pairs(message@) =~= base);
        }
        if let MessageContent::Parts(parts) = content {
            let mut tool_calls: Vec<JsonValue> = Vec::new();
            proof {
                assert(parts@.subrange(0, 0) =~= Seq::<ContentPart>::empty());
                assert(tool_calls.deep_view() =~= assistant_tool_calls(parts@.subrange(0, 0)));
            }
            let mut i: usize = 0;
            while i < parts.len()
                invariant
                    0 <= i <= parts@.len(),
                    deep_pairs(message@) == base,
                    tool_calls.deep_view() == assistant_tool_calls(parts@.subrange(0, i as int)),
                decreases parts@.len() - i,
            {
                let ghost prefix = parts@.subrange(0, i as int);
                let ghost now = parts@.subrange(0, i + 1);
                proof {
                    assert(now.drop_last() =~= prefix);
                    assert(now.last() == parts@[i as int]);
                }
                if let ContentPart::ToolCall { tool_call_id, tool_name, input } = &parts[i] {
                    if !str_is_blank(tool_name.as_str()) {
                        tool_calls.push(make_assistant_tool_call(tool_call_id, tool_name, input));
                    }
                }
                proof {
                    assert(tool_calls.deep_view() =~= assistant_tool_calls(now));
                }
                i += 1;
            }
            proof {
                assert(parts@.subrange(0, parts@.len() as int) =~= parts@);
            }
            if tool_calls.len() > 0 {
                proof {
                    broadcast use crate::json::lemma_deep_elems_len, crate::json::lemma_deep_elems_index;

                    assert(crate::json::deep_elems(tool_calls@) =~= tool_calls.deep_view());
                }
                obj_put_pairs(&mut message, "tool_calls", JsonValue::Arr(tool_calls));
            }
        }
        let ghost with_tools = match content {
            MessageContent::Parts(parts) => if assistant_tool_calls(parts@).len() > 0 {
                obj_put(base, "tool_calls"@, Jv::Arr(assistant_tool_calls(parts@)))
            } else {
                base
            },
            MessageContent::Text(_) => base,
        };
        proof {
            assert(deep_pairs(message@) == with_tools);
        }
        if let Some(options) = provider_options {
            match options.get("openaiCompatible") {
                Some(oc) => match oc.get("reasoning_content") {
                    Some(rc) => {
                        obj_put_pairs(&mut message, "reasoning_content", rc.dup());
                    },
                    None => {},
                },
                None => {},
            }
        }
        proof {
            assert(Jv::Obj(deep_pairs(message@)) == spec_assistant_message(
                *content,
                match provider_options {
                    Some(o) => Some(o@),
                    None => None,
                },
            ));
        }
        JsonValue::Obj(message)
    }

    /// Maps each canonical message to its wire messages, in order, as
    /// `spec_build_messages` says.
    #[verifier::loop_isolation(false)]
    pub fn build_messages(&self, messages: &[Message]) -> (r: Vec<JsonValue>)
        ensures
            r.deep_view() == spec_build_messages(messages@),
    {
        let mut result: Vec<JsonValue> = Vec::new();
        proof {
            assert(messages@.subrange(0, 0) =~= Seq::<Message>::empty());
            assert(result.deep_view() =~= spec_build_messages(messages@.subrange(0, 0)));
        }
        let mut i: usize = 0;
        while i < messages.len()
            invariant
                0 <= i <= messages@.len(),
                result.deep_view() == spec_build_messages(messages@.subrange(0, i as int)),
            decreases messages@.len() - i,
        {
            let ghost prefix = messages@.subrange(0, i as int);
            let ghost now = messages@.subrange(0, i + 1);
            proof {
                assert(now.drop_last() =~= prefix);
                assert(now.last() == messages@[i as int]);
            }
            match &messages[i] {
                Message::System { content } => {
                    result.push(
                        obj2("role", js("system"), "content", JsonValue::Str(content.clone())),
                    );
                },
                Message::User { content, .. } => {
                    let converted = self.convert_content(content);
                    result.push(obj2("role", js("user"), "content", converted));
                },
                Message::Assistant { content, provider_options } => {
                    let po: Option<&JsonValue> = match provider_options {
                        Some(o) => Some(o),
                        None => None,
                    };
                    result.push(self.build_assistant_message(content, po));
                },
                Message::Tool { content } => {
                    let ghost done = result.deep_view();
                    proof {
                        assert(content@.subrange(0, 0) =~= Seq::<ContentPart>::empty());
                        assert(result.deep_view() =~= done + wire_tool_results(
                            content@.subrange(0, 0),
                        ));
                    }
                    let mut j: usize = 0;
                    while j < content.len()
                        invariant
                            0 <= j <= content@.len(),
                            result.deep_view() == done + wire_tool_results(
                                content@.subrange(0, j as int),
                            ),
                        decreases content@.len() - j,
                    {
                        let ghost jprefix = content@.subrange(0, j as int);
                        let ghost jnow = content@.subrange(0, j + 1);
                        proof {
                            assert(jnow.drop_last() =~= jprefix);
                            assert(jnow.last() == content@[j as int]);
                        }
                        if let ContentPart::ToolResult { tool_call_id, tool_name: _, output } =
                            &content[j] {
                            let entry = make_tool_result_msg(tool_call_id, output);
                            let ghost entv = entry@;
                            let ghost olddv = result.deep_view();
                            result.push(entry);
                            proof {
                                assert(result.deep_view() =~~= olddv.push(entv));
                                assert(wire_tool_results(jnow) =~~= wire_tool_results(
                                    jprefix,
                                ).push(entv));
                                assert(result.deep_view() =~~= done + wire_tool_results(jnow));
                            }
                        } else {
                            proof {
                                assert(wire_tool_results(jnow) =~~= wire_tool_results(jprefix));
                                assert(result.deep_view() =~~= done + wire_tool_results(jnow));
                            }
                        }
                        j += 1;
                    }
                    proof {
                        assert(content@.subrange(0, content@.len() as int) =~= content@);
                    }
                },
            }
            proof {
                assert(result.deep_view() =~= spec_build_messages(now));
            }
            i += 1;
        }
        proof {
            assert(messages@.subrange(0, messages@.len() as int) =~= messages@);
        }
        result
    }

    /// Assembles the whole request body, as `spec_build_request` says; a
    /// well-typed request is never rejected.
    #[verifier::loop_isolation(false)]
    pub fn build_request(
        &self,
        model: &str,
        messages: &[Message],
        tools: Option<&[ToolDefinition]>,
        temperature: Option<&JsonValue>,
        max_tokens: Option<i32>,
        top_p: Option<&JsonValue>,
        top_k: Option<i32>,
        provider_options: Option<&JsonValue>,
        extra_body: Option<&JsonValue>,
    ) -> (r: Result<JsonValue, String>)
        ensures
            r matches Ok(v) && v@ == spec_build_request(
                model@,
                messages@,
                match tools {
                    Some(ts) => Some(ts@),
                    None => None,
                },
                match temperature {
                    Some(t) => Some(t@),
                    None => None,
                },
                max_tokens,
                match top_p {
                    Some(t) => Some(t@),
                    None => None,
                },
                top_k,
                match provider_options {
                    Some(o) => Some(o@),
                    None => None,
                },
                match extra_body {
                    Some(e) => Some(e@),
                    None => None,
                },
            ),
    {
        let built_messages = self.build_messages(messages);
        proof {
            broadcast use crate::json::lemma_deep_elems_len, crate::json::lemma_deep_elems_index;

            assert(crate::json::deep_elems(built_messages@) =~= built_messages.deep_view());
        }
        let mut body: Vec<(String, JsonValue)> = Vec::new();
        body.push((String::from_str("model"), js(model)));
        body.push((String::from_str("messages"), JsonValue::Arr(built_messages)));
        body.push((String::from_str("stream"), JsonValue::Bool(true)));
        body.push(
            (String::from_str("stream_options"), obj1("include_usage", JsonValue::Bool(true))),
        );
        let ghost base = seq![
            ("model"@, Jv::Str(model@)),
            ("messages"@, Jv::Arr(spec_build_messages(messages@))),
            ("stream"@, Jv::Bool(true)),
            ("stream_options"@, Jv::Obj(seq![("include_usage"@, Jv::Bool(true))])),
        ];
        proof {
            broadcast use crate::json::lemma_deep_pairs_len, crate::json::lemma_deep_pairs_index;

            assert(deep_pairs(body@) =~= base);
        }
        let ghost tv = match tools {
            Some(ts) => Some(ts@),
            None => None,
        };
        if let Some(ts) = self.build_tools(tools) {
            proof {
                broadcast use crate::json::lemma_deep_elems_len, crate::json::lemma_deep_elems_index;

                assert(crate::json::deep_elems(ts@) =~= ts.deep_view());
            }
            obj_put_pairs(&mut body, "tools", JsonValue::Arr(ts));
        }
        let ghost b1 = match spec_build_tools(tv) {
            Some(ts) => obj_put(base, "tools"@, Jv::Arr(ts)),
            None => base,
        };
        proof {
            assert(deep_pairs(body@) == b1);
        }
        if let Some(t) = temperature {
            obj_put_pairs(&mut body, "temperature", t.dup());
        }
        let ghost b2 = match temperature {
            Some(t) => obj_put(b1, "temperature"@, t@),
            None => b1,
        };
        proof {
            assert(deep_pairs(body@) == b2);
        }
        if let Some(mt) = max_tokens {
            obj_put_pairs(&mut body, "max_tokens", JsonValue::Int(mt as i64));
        }
        let ghost b3 = match max_tokens {
            Some(mt) => obj_put(b2, "max_tokens"@, Jv::Int(mt as i64)),
            None => b2,
        };
        proof {
            assert(deep_pairs(body@) == b3);
        }
        if let Some(tp) = top_p {
            obj_put_pairs(&mut body, "top_p", tp.dup());
        }
        let ghost b4 = match top_p {
            Some(t) => obj_put(b3, "top_p"@, t@),
            None => b3,
        };
        proof {
            assert(deep_pairs(body@) == b4);
        }
        if let Some(tk) = top_k {
            obj_put_pairs(&mut body, "top_k", JsonValue::Int(tk as i64));
        }
        let ghost b5 = match top_k {
            Some(tk) => obj_put(b4, "top_k"@, Jv::Int(tk as i64)),
            None => b4,
        };
        proof {
            assert(deep_pairs(body@) == b5);
        }
        if let Some(options) = provider_options {
            match options.get("openai") {
                Some(oo) => match oo.get("reasoningEffort") {
                    Some(re) => {
                        obj_put_pairs(&mut body, "reasoning_effort", re.dup());
                    },
                    None => {},
                },
                None => {},
            }
            match options.get("openrouter") {
                Some(orr) => match orr.get("effort") {
                    Some(ef) => {
                        obj_put_pairs(&mut body, "reasoning", obj1("effort", ef.dup()));
                    },
                    None => {},
                },
                None => {},
            }
        }
        let ghost b6 = match (match provider_options {
            Some(o) => Some(o@),
            None => None,
        }) {
            Some(o) => {
                let c1 = match jv_get(o, "openai"@) {
                    Some(oo) => match jv_get(oo, "reasoningEffort"@) {
                        Some(re) => obj_put(b5, "reasoning_effort"@, re),
                        None => b5,
                    },
                    None => b5,
                };
                match jv_get(o, "openrouter"@) {
                    Some(orr) => match jv_get(orr, "effort"@) {
                        Some(ef) => obj_put(c1, "reasoning"@, Jv::Obj(seq![("effort"@, ef)])),
                        None => c1,
                    },
                    None => c1,
                }
            },
            None => b5,
        };
        proof {
            assert(deep_pairs(body@) == b6);
        }
        if let Some(extra) = extra_body {
            match extra.as_object_ref() {
                Some(es) => {
                    let ghost esv = deep_pairs(es@);
                    proof {
                        broadcast use crate::json::lemma_deep_pairs_len, crate::json::lemma_deep_pairs_index;

                        assert(esv.subrange(0, 0) =~= Seq::<(Seq<char>, Jv)>::empty());
                        assert(deep_pairs(body@) =~= obj_merge(b6, esv.subrange(0, 0)));
                    }
                    let mut j: usize = 0;
                    while j < es.len()
                        invariant
                            0 <= j <= es@.len(),
                            esv.len() == es@.len(),
                            forall|k: int|
                                0 <= k < es@.len() ==> #[trigger] esv[k] == (
                                    es@[k].0@,
                                    es@[k].1@,
                                ),
                            deep_pairs(body@) == obj_merge(b6, esv.subrange(0, j as int)),
                        decreases es@.len() - j,
                    {
                        let val = es[j].1.dup();
                        obj_put_pairs(&mut body, es[j].0.as_str(), val);
                        proof {
                            let jnow = esv.subrange(0, j + 1);
                            assert(jnow.drop_last() =~= esv.subrange(0, j as int));
                            assert(jnow.last() == esv[j as int]);
                        }
                        j += 1;
                    }
                    proof {
                        assert(esv.subrange(0, esv.len() as int) =~= esv);
                    }
                },
                None => {},
            }
        }
        let ghost b7 = match (match extra_body {
            Some(e) => Some(e@),
            None => None,
        }) {
            Some(Jv::Obj(es)) => obj_merge(b6, es),
            _ => b6,
        };
        proof {
            assert(deep_pairs(body@) == b7);
        }
        Ok(JsonValue::Obj(body))
    }

    /// Builds the request headers, as `spec_build_headers` says.
    #[verifier::loop_isolation(false)]
    pub fn build_headers(
        &self,
        api_key: Option<&str>,
        oauth_token: Option<&str>,
        extra_headers: Option<&Vec<(String, String)>>,
    ) -> (r: Headers)
        ensures
            r@ == spec_build_headers(
                match api_key {
                    Some(s) => Some(s@),
                    None => None,
                },
                match oauth_token {
                    Some(s) => Some(s@),
                    None => None,
                },
                match extra_headers {
                    Some(v) => Some(v.deep_view()),
                    None => None,
                },
            ),
    {
        let mut headers = Headers::new();
        headers.insert("Content-Type", String::from_str("application/json"));
        let tok: Option<&str> = match oauth_token {
            Some(t) => Some(t),
            None => api_key,
        };
        if let Some(t) = tok {
            let mut auth = String::from_str("Bearer ");
            auth.append(t);
            headers.insert("Authorization", auth);
        }
        let ghost authed = headers@;
        if let Some(extra) = extra_headers {
            let ghost es = extra.deep_view();
            proof {
                assert(forall|j: int|
                    0 <= j < extra@.len() ==> #[trigger] es[j] == (extra@[j].0@, extra@[j].1@));
                assert(es.subrange(0, 0) =~= Seq::<(Seq<char>, Seq<char>)>::empty());
            }
            let mut i: usize = 0;
            while i < extra.len()
                invariant
                    0 <= i <= extra@.len(),
                    es.len() == extra@.len(),
                    headers@ == hdr_put_all(authed, es.subrange(0, i as int)),
                decreases extra@.len() - i,
            {
                headers.insert(extra[i].0.as_str(), extra[i].1.clone());
                proof {
                    let now = es.subrange(0, i + 1);
                    assert(now.drop_last() =~= es.subrange(0, i as int));
                    assert(now.last() == es[i as int]);
                }
                i += 1;
            }
            proof {
                assert(es.subrange(0, es.len() as int) =~= es);
            }
        }
        headers
    }

    /// Handles one raw SSE payload. The `[DONE]` sentinel force-flushes and
    /// always yields a terminal or queued event; any other payload must parse
    /// as JSON (else the state is untouched and an error is returned) and is
    /// folded into the state by `frame_step`; in either case the oldest queued
    /// event, if any, is handed out.
    pub fn parse_stream_event(
        &self,
        event_type: Option<&str>,
        data: &str,
        state: &mut ProtocolStreamState,
    ) -> (r: Result<Option<StreamEvent>, String>)
        ensures
            ({
                let m0 = old(state)@;
                if trimmed(data@) == "[DONE]"@ {
                    let m1 = emit_pass(m0, true);
                    &&& final(state)@ == drain_front(m1).0
                    &&& match drain_front(m1).1 {
                        Some(e0) => r matches Ok(Some(e)) && e@ == e0,
                        None => r matches Ok(Some(e)) && e@ == Ev::Done(m1.finish_reason),
                    }
                } else {
                    match json_of(data@) {
                        None => (r matches Err(e) && e@ == json_err_of(data@)) && final(state)@
                            == m0,
                        Some(p) => {
                            let m1 = frame_step(m0, p);
                            &&& final(state)@ == drain_front(m1).0
                            &&& match drain_front(m1).1 {
                                Some(e0) => r matches Ok(Some(e)) && e@ == e0,
                                None => r matches Ok(None),
                            }
                        },
                    }
                }
            }),
    {
        let ghost m0 = old(state)@;
        let trimmed_data = str_trim(data);
        if string_eq_str(&trimmed_data, "[DONE]") {
            emit_tool_calls(state, true);
            let popped = pop_front_event(state);
            match popped {
                Some(e) => Ok(Some(e)),
                None => {
                    let reason: Option<String> = match &state.finish_reason {
                        Some(s) => Some(s.clone()),
                        None => None,
                    };
                    Ok(Some(StreamEvent::Done { finish_reason: reason }))
                },
            }
        } else {
            match parse_json(data) {
                Err(e) => {
                    proof {
                        assert(state@ == m0);
                    }
                    Err(e)
                },
                Ok(payload) => {
                    let ghost p = payload@;
                    let ghost mu = push_usage(m0, p);
                    match payload.get("usage") {
                        Some(u) => {
                            let itok: i64 = match u.get("prompt_tokens") {
                                Some(v) => match v.as_i64() {
                                    Some(i) => i,
                                    None => 0,
                                },
                                None => 0,
                            };
                            let otok: i64 = match u.get("completion_tokens") {
                                Some(v) => match v.as_i64() {
                                    Some(i) => i,
                                    None => 0,
                                },
                                None => 0,
                            };
                            let ttok: Option<i32> = match u.get("total_tokens") {
                                Some(v) => match v.as_i64() {
                                    Some(i) => Some(#[verifier::truncate] (i as i32)),
                                    None => None,
                                },
                                None => None,
                            };
                            state.pending_events.push(StreamEvent::Usage {
                                input_tokens: #[verifier::truncate] (itok as i32),
                                output_tokens: #[verifier::truncate] (otok as i32),
                                total_tokens: ttok,
                                cached_input_tokens: None,
                                cache_creation_input_tokens: None,
                            });
                            proof {
                                assert(state@ =~~= mu);
                            }
                        },
                        None => {
                            proof {
                                assert(state@ =~~= mu);
                            }
                        },
                    }
                    let choices_opt: Option<&Vec<JsonValue>> = match payload.get("choices") {
                        Some(c) => c.as_array_ref(),
                        None => None,
                    };
                    let choice_opt: Option<&JsonValue> = match choices_opt {
                        Some(xs) => {
                            proof {
                                broadcast use crate::json::lemma_deep_elems_len,
                                    crate::json::lemma_deep_elems_index;

                            }
                            if xs.len() > 0 {
                                Some(&xs[0])
                            } else {
                                None
                            }
                        },
                        None => None,
                    };
                    proof {
                        match choice_opt {
                            Some(c) => {
                                assert(first_choice(p) == Some(c@));
                            },
                            None => {
                                assert(first_choice(p) is None);
                            },
                        }
                    }
                    match choice_opt {
                        Some(choice) => {
                            let ghost cv = choice@;
                            let ghost mf = capture_finish(mu, cv);
                            match choice.get("finish_reason") {
                                Some(v) => match v.as_str_ref() {
                                    Some(s) => {
                                        state.finish_reason = Some(s.clone());
                                        proof {
                                            assert(state@ =~~= mf);
                                        }
                                    },
                                    None => {
                                        proof {
                                            assert(state@ =~~= mf);
                                        }
                                    },
                                },
                                None => {
                                    proof {
                                        assert(state@ =~~= mf);
                                    }
                                },
                            }
                            match choice.get("delta") {
                                Some(d) => {
                                    let ghost dv = d@;
                                    if !state.text_started {
                                        state.text_started = true;
                                        state.pending_events.push(StreamEvent::TextStart);
                                    }
                                    match d.get("content") {
                                        Some(v) => match v.as_str_ref() {
                                            Some(s) => {
                                                state.pending_events.push(
                                                    StreamEvent::TextDelta { text: s.clone() },
                                                );
                                            },
                                            None => {},
                                        },
                                        None => {},
                                    }
                                    proof {
                                        assert(state@ =~~= apply_delta_text(mf, dv));
                                    }
                                    parse_tool_delta(state, d);
                                    proof {
                                        assert(state@ == tool_delta(apply_delta_text(mf, dv), dv));
                                        assert(state@ == frame_pre_flush(m0, p));
                                    }
                                },
                                None => {
                                    proof {
                                        assert(state@ == frame_pre_flush(m0, p));
                                    }
                                },
                            }
                        },
                        None => {
                            proof {
                                assert(state@ == frame_pre_flush(m0, p));
                            }
                        },
                    }
                    let is_tool_calls: bool = match &state.finish_reason {
                        Some(s) => string_eq_str(s, "tool_calls"),
                        None => false,
                    };
                    if is_tool_calls {
                        emit_tool_calls(state, false);
                    }
                    proof {
                        assert(state@ == frame_step(m0, p));
                    }
                    let popped = pop_front_event(state);
                    Ok(popped)
                },
            }
        }
    }
}

} // verus!
