//! Requests and answers out of their JSON bodies.
//!
//! A field of another type than the expected one counts as absent.
use crate::json::{dup_items, items_view, lemma_items_view, Json, JsonV};
use crate::text::views;
use crate::wire::body::{list_value, str_value, with};
use crate::wire::chat::{
    deltas_view, opt_items, opt_json, opt_str, ChatChoice, ChatDelta, ChatMessage, ChatMessageV,
    ChatResponse, ChatStreamChoice, ChatStreamChunk, ChatUsage, DeltaFunction, DeltaToolCall,
    DeltaV, ToolDeltaV,
};
use crate::wire::responses::{InputV, RequestV, ResponsesInput, ResponsesRequest};
use vstd::prelude::*;

verus! {

/// A field that is there and not null.
pub open spec fn present(v: JsonV, k: Seq<char>) -> Option<JsonV> {
    match v.get(k) {
        Some(JsonV::Null) => None,
        x => x,
    }
}

/// The items of a list field; none where there is no list.
pub open spec fn list_in(v: JsonV, k: Seq<char>) -> Seq<JsonV> {
    match v.get_arr(k) {
        Some(a) => a,
        None => Seq::empty(),
    }
}

/// The fields that a request has of its own; all others are extra.
pub open spec fn own_fields() -> Seq<Seq<char>> {
    Seq::empty().push("model"@).push("input"@).push("instructions"@).push("system"@).push(
        "tools"@,
    ).push("stream"@).push("temperature"@).push("max_output_tokens"@).push("top_p"@).push(
        "reasoning"@,
    )
}

/// The input of a request: a text, or items.
pub open spec fn input_in(v: JsonV) -> Option<InputV> {
    match v.get("input"@) {
        Some(JsonV::Str(t)) => Some(InputV::Text(t)),
        Some(JsonV::Arr(a)) => Some(InputV::Items(a)),
        _ => None,
    }
}

/// The request in a body; none where it has no model or no input.
pub open spec fn request_in(v: JsonV) -> Option<RequestV> {
    match (v.get_str("model"@), input_in(v)) {
        (Some(model), Some(input)) => Some(
            RequestV {
                model,
                input,
                instructions: v.get_str("instructions"@),
                system: v.get_str("system"@),
                tools: list_in(v, "tools"@),
                stream: v.at("stream"@).as_bool() == Some(true),
                temperature: v.at("temperature"@).as_double(),
                max_output_tokens: v.at("max_output_tokens"@).as_u64(),
                top_p: v.at("top_p"@).as_double(),
                reasoning: present(v, "reasoning"@),
                extra: v.without(own_fields()),
            },
        ),
        _ => None,
    }
}

/// A token count; none where it is missing or too large.
pub open spec fn count_in(v: JsonV, k: Seq<char>) -> Option<u32> {
    match v.at(k).as_u64() {
        Some(n) => if n <= u32::MAX {
            Some(n as u32)
        } else {
            None
        },
        None => None,
    }
}

/// The token counts of an answer; none where one is missing.
pub open spec fn usage_in(v: JsonV) -> Option<ChatUsage> {
    let u = v.at("usage"@);
    match (
        count_in(u, "prompt_tokens"@),
        count_in(u, "completion_tokens"@),
        count_in(u, "total_tokens"@),
    ) {
        (Some(prompt_tokens), Some(completion_tokens), Some(total_tokens)) => Some(
            ChatUsage { prompt_tokens, completion_tokens, total_tokens },
        ),
        _ => None,
    }
}

/// A message; one without a role is the assistant's.
pub open spec fn message_in(m: JsonV) -> ChatMessageV {
    ChatMessageV {
        role: match m.get_str("role"@) {
            Some(r) => r,
            None => "assistant"@,
        },
        content: present(m, "content"@),
        reasoning_content: m.get_str("reasoning_content"@),
        tool_calls: m.get_arr("tool_calls"@),
        tool_call_id: m.get_str("tool_call_id"@),
        name: m.get_str("name"@),
    }
}

/// A tool-call delta; one without an index is the first.
pub open spec fn tool_delta_in(c: JsonV) -> ToolDeltaV {
    ToolDeltaV {
        index: match c.at("index"@).as_u64() {
            Some(n) => n,
            None => 0,
        },
        id: c.get_str("id"@),
        name: c.at("function"@).get_str("name"@),
        arguments: c.at("function"@).get_str("arguments"@),
    }
}

/// What a streamed chunk adds to an answer.
pub open spec fn delta_in(d: JsonV) -> DeltaV {
    DeltaV {
        content: d.get_str("content"@),
        reasoning: d.get_str("reasoning_content"@),
        tool_calls: Seq::new(
            list_in(d, "tool_calls"@).len(),
            |i: int| tool_delta_in(list_in(d, "tool_calls"@)[i]),
        ),
    }
}

/// Whether a choice of a chunk is the one in a body.
pub open spec fn choice_of(c: ChatStreamChoice, v: JsonV) -> bool {
    &&& c.index == match v.at("index"@).as_u64() {
        Some(n) => n,
        None => 0,
    }
    &&& c.delta@ == delta_in(v.at("delta"@))
    &&& opt_str(c.finish_reason) == v.get_str("finish_reason"@)
}

fn text_field(v: &Json, k: &str) -> (r: Option<String>)
    ensures
        opt_str(r) == v@.get_str(k@),
{
    match v.get_str(k) {
        Some(s) => Some(s.to_owned()),
        None => None,
    }
}

fn present_field(v: &Json, k: &str) -> (r: Option<Json>)
    ensures
        opt_json(r) == present(v@, k@),
{
    match v.get(k) {
        Some(x) => match x {
            Json::Null => None,
            _ => Some(x.dup()),
        },
        None => None,
    }
}

fn uint_field(v: &Json, k: &str) -> (r: Option<u64>)
    ensures
        r == v@.at(k@).as_u64(),
{
    match v.get(k) {
        Some(x) => x.as_u64(),
        None => None,
    }
}

fn list_field(v: &Json, k: &str) -> (r: Option<Vec<Json>>)
    ensures
        opt_items(r) == v@.get_arr(k@),
{
    match v.get_array(k) {
        Some(a) => Some(dup_items(a)),
        None => None,
    }
}

fn count_field(v: &Json, k: &str) -> (r: Option<u32>)
    ensures
        r == count_in(v@, k@),
{
    match uint_field(v, k) {
        Some(n) => if n <= u32::MAX as u64 {
            Some(n as u32)
        } else {
            None
        },
        None => None,
    }
}

/// The field `k`, null where there is none.
fn field<'a>(v: &'a Json, k: &str, null: &'a Json) -> (r: &'a Json)
    requires
        null@ is Null,
    ensures
        r@ == v@.at(k@),
{
    match v.get(k) {
        Some(x) => x,
        None => null,
    }
}

fn read_usage(v: &Json) -> (r: Option<ChatUsage>)
    ensures
        r == usage_in(v@),
{
    let null = Json::Null;
    let u = field(v, "usage", &null);
    match (
        count_field(u, "prompt_tokens"),
        count_field(u, "completion_tokens"),
        count_field(u, "total_tokens"),
    ) {
        (Some(prompt_tokens), Some(completion_tokens), Some(total_tokens)) => Some(
            ChatUsage { prompt_tokens, completion_tokens, total_tokens },
        ),
        _ => None,
    }
}

fn own_field_names() -> (r: Vec<String>)
    ensures
        views(r@) == own_fields(),
{
    let mut out: Vec<String> = Vec::new();
    out.push("model".to_owned());
    out.push("input".to_owned());
    out.push("instructions".to_owned());
    out.push("system".to_owned());
    out.push("tools".to_owned());
    out.push("stream".to_owned());
    out.push("temperature".to_owned());
    out.push("max_output_tokens".to_owned());
    out.push("top_p".to_owned());
    out.push("reasoning".to_owned());
    assert(views(out@) =~= own_fields());
    out
}

impl ResponsesRequest {
    /// The request in a body; none where it has no model or no input.
    pub fn from_json(v: &Json) -> (r: Option<ResponsesRequest>)
        ensures
            match r {
                Some(q) => request_in(v@) == Some(q@),
                None => request_in(v@) is None,
            },
    {
        let null = Json::Null;
        let model = match text_field(v, "model") {
            Some(m) => m,
            None => {
                return None;
            },
        };
        let input = match field(v, "input", &null) {
            Json::Str(t) => ResponsesInput::Text(t.clone()),
            Json::Arr(a) => ResponsesInput::Items(dup_items(a)),
            _ => {
                return None;
            },
        };
        let tools = match list_field(v, "tools") {
            Some(t) => t,
            None => Vec::new(),
        };
        let stream = match field(v, "stream", &null).as_bool() {
            Some(b) => b,
            None => false,
        };
        Some(
            ResponsesRequest {
                model,
                input,
                instructions: text_field(v, "instructions"),
                system: text_field(v, "system"),
                tools,
                stream,
                temperature: field(v, "temperature", &null).as_double(),
                max_output_tokens: uint_field(v, "max_output_tokens"),
                top_p: field(v, "top_p", &null).as_double(),
                reasoning: present_field(v, "reasoning"),
                extra: v.without(&own_field_names()),
            },
        )
    }
}

impl ChatMessage {
    /// The message in a body.
    pub fn from_json(m: &Json) -> (r: ChatMessage)
        ensures
            r@ == message_in(m@),
    {
        let role = match text_field(m, "role") {
            Some(x) => x,
            None => "assistant".to_owned(),
        };
        ChatMessage {
            role,
            content: present_field(m, "content"),
            reasoning_content: text_field(m, "reasoning_content"),
            tool_calls: list_field(m, "tool_calls"),
            tool_call_id: text_field(m, "tool_call_id"),
            name: text_field(m, "name"),
        }
    }
}

impl ChatResponse {
    /// The blocking answer in a body.
    pub fn from_json(v: &Json) -> (r: ChatResponse)
        ensures
            r.choices@.len() == list_in(v@, "choices"@).len(),
            forall|i: int|
                0 <= i < r.choices@.len() ==> (#[trigger] r.choices@[i]).message@ == message_in(
                    list_in(v@, "choices"@)[i].at("message"@),
                ),
            r.usage == usage_in(v@),
    {
        let null = Json::Null;
        let mut choices: Vec<ChatChoice> = Vec::new();
        if let Some(l) = v.get_array("choices") {
            let ghost all = list_in(v@, "choices"@);
            proof {
                lemma_items_view(l@);
            }
            let mut i: usize = 0;
            while i < l.len()
                invariant
                    null@ is Null,
                    i <= l@.len(),
                    all == items_view(l@),
                    all.len() == l@.len(),
                    choices@.len() == i,
                    forall|k: int|
                        0 <= k < i ==> (#[trigger] choices@[k]).message@ == message_in(
                            all[k].at("message"@),
                        ),
                decreases l@.len() - i,
            {
                proof {
                    lemma_items_view(l@);
                }
                let message = ChatMessage::from_json(field(&l[i], "message", &null));
                choices.push(ChatChoice { message });
                i = i + 1;
            }
        }
        ChatResponse { choices, usage: read_usage(v) }
    }
}

impl DeltaToolCall {
    /// The tool-call delta in a body.
    pub fn from_json(c: &Json) -> (r: DeltaToolCall)
        ensures
            r@ == tool_delta_in(c@),
    {
        let index: u64 = match uint_field(c, "index") {
            Some(n) => n,
            None => 0,
        };
        let function = match c.get("function") {
            Some(f) => Some(
                DeltaFunction { name: text_field(f, "name"), arguments: text_field(f, "arguments") },
            ),
            None => None,
        };
        DeltaToolCall { index, id: text_field(c, "id"), function }
    }
}

impl ChatDelta {
    /// The delta in a body.
    pub fn from_json(d: &Json) -> (r: ChatDelta)
        ensures
            r@ == delta_in(d@),
    {
        let ghost all = list_in(d@, "tool_calls"@);
        let tool_calls = match d.get_array("tool_calls") {
            Some(l) => {
                proof {
                    lemma_items_view(l@);
                }
                let mut out: Vec<DeltaToolCall> = Vec::new();
                let mut i: usize = 0;
                while i < l.len()
                    invariant
                        i <= l@.len(),
                        all == items_view(l@),
                        all.len() == l@.len(),
                        out@.len() == i,
                        forall|k: int| 0 <= k < i ==> (#[trigger] out@[k])@ == tool_delta_in(all[k]),
                    decreases l@.len() - i,
                {
                    proof {
                        lemma_items_view(l@);
                    }
                    out.push(DeltaToolCall::from_json(&l[i]));
                    i = i + 1;
                }
                assert(deltas_view(out@) =~= delta_in(d@).tool_calls);
                Some(out)
            },
            None => {
                assert(delta_in(d@).tool_calls =~= Seq::<ToolDeltaV>::empty());
                None
            },
        };
        ChatDelta {
            content: text_field(d, "content"),
            reasoning_content: text_field(d, "reasoning_content"),
            tool_calls,
        }
    }
}

impl ChatStreamChunk {
    /// The chunk of a streamed answer in a body.
    pub fn from_json(v: &Json) -> (r: ChatStreamChunk)
        ensures
            r.choices@.len() == list_in(v@, "choices"@).len(),
            forall|i: int|
                0 <= i < r.choices@.len() ==> choice_of(
                    #[trigger] r.choices@[i],
                    list_in(v@, "choices"@)[i],
                ),
            r.usage == usage_in(v@),
    {
        let null = Json::Null;
        let mut choices: Vec<ChatStreamChoice> = Vec::new();
        if let Some(l) = v.get_array("choices") {
            let ghost all = list_in(v@, "choices"@);
            proof {
                lemma_items_view(l@);
            }
            let mut i: usize = 0;
            while i < l.len()
                invariant
                    null@ is Null,
                    i <= l@.len(),
                    all == items_view(l@),
                    all.len() == l@.len(),
                    choices@.len() == i,
                    forall|k: int|
                        0 <= k < i ==> choice_of(#[trigger] choices@[k], all[k]),
                decreases l@.len() - i,
            {
                proof {
                    lemma_items_view(l@);
                }
                let index: u64 = match uint_field(&l[i], "index") {
                    Some(n) => n,
                    None => 0,
                };
                let delta = ChatDelta::from_json(field(&l[i], "delta", &null));
                let finish_reason = text_field(&l[i], "finish_reason");
                choices.push(ChatStreamChoice { index, delta, finish_reason });
                i = i + 1;
            }
        }
        ChatStreamChunk { choices, usage: read_usage(v) }
    }
}

/// A message is read back from its body, unless its content is null.
pub proof fn message_body_is_read_back(m: ChatMessageV)
    requires
        m.content != Some(JsonV::Null),
    ensures
        message_in(m.body()) == m,
{
    reveal_strlit("role");
    reveal_strlit("content");
    reveal_strlit("reasoning_content");
    reveal_strlit("tool_calls");
    reveal_strlit("tool_call_id");
    reveal_strlit("name");
    assert("role"@ != "name"@) by {
        assert("role"@[0] != "name"@[0]);
    }
    assert("role"@.len() == 4 && "content"@.len() == 7 && "reasoning_content"@.len() == 17);
    assert("tool_calls"@.len() == 10 && "tool_call_id"@.len() == 12 && "name"@.len() == 4);
    let b0 = JsonV::object().set("role"@, JsonV::Str(m.role));
    let b1 = with(b0, "content"@, m.content);
    let b2 = with(b1, "reasoning_content"@, str_value(m.reasoning_content));
    let b3 = with(b2, "tool_calls"@, list_value(m.tool_calls));
    let b4 = with(b3, "tool_call_id"@, str_value(m.tool_call_id));
    let b5 = with(b4, "name"@, str_value(m.name));
    assert(b1.get("role"@) == Some(JsonV::Str(m.role)) && b1.get("content"@) == m.content);
    assert(b2.get("role"@) == b1.get("role"@) && b2.get("content"@) == m.content);
    assert(b2.get("reasoning_content"@) == str_value(m.reasoning_content));
    assert(b3.get("role"@) == b1.get("role"@) && b3.get("content"@) == m.content);
    assert(b3.get("reasoning_content"@) == str_value(m.reasoning_content));
    assert(b3.get("tool_calls"@) == list_value(m.tool_calls));
    assert(b5 == m.body());
}

} // verus!
