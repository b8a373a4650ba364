//! The JSON body of a Chat Completions request.
//!
//! What a request does not set is left out of its body.
use crate::json::{
    dup_items, items_view, lemma_items_push, lemma_items_view, Json, JsonNumber, JsonV, NumberV,
};
use crate::wire::chat::{
    messages_view, opt_json, opt_str, ChatMessage, ChatMessageV, ChatRequest, ChatRequestV,
    ChatThinking, StreamOptions,
};
use crate::wire::responses::{dup_opt_number, opt_number};
use vstd::prelude::*;

verus! {

/// The object with field `k` set where there is a value for it.
pub open spec fn with(body: JsonV, k: Seq<char>, v: Option<JsonV>) -> JsonV {
    match v {
        Some(x) => body.set(k, x),
        None => body,
    }
}

/// A string value, where there is one.
pub open spec fn str_value(s: Option<Seq<char>>) -> Option<JsonV> {
    match s {
        Some(x) => Some(JsonV::Str(x)),
        None => None,
    }
}

/// A list value, where there is one.
pub open spec fn list_value(l: Option<Seq<JsonV>>) -> Option<JsonV> {
    match l {
        Some(x) => Some(JsonV::Arr(x)),
        None => None,
    }
}

/// A number value, where there is one.
pub open spec fn number_value(n: Option<NumberV>) -> Option<JsonV> {
    match n {
        Some(x) => Some(JsonV::Number(x)),
        None => None,
    }
}

/// A count, where there is one.
pub open spec fn uint_value(n: Option<u64>) -> Option<JsonV> {
    match n {
        Some(x) => Some(JsonV::uint(x)),
        None => None,
    }
}

/// The thinking switch, where it is set.
pub open spec fn thinking_value(t: Option<ChatThinking>) -> Option<JsonV> {
    match t {
        Some(ChatThinking::Enabled) => Some(
            JsonV::object().set("type"@, JsonV::Str("enabled"@)),
        ),
        None => None,
    }
}

/// The stream options, where they are set.
pub open spec fn options_value(o: Option<StreamOptions>) -> Option<JsonV> {
    match o {
        Some(x) => Some(JsonV::object().set("include_usage"@, JsonV::Bool(x.include_usage))),
        None => None,
    }
}

impl ChatMessageV {
    /// The message as JSON.
    pub open spec fn body(self) -> JsonV {
        let b = JsonV::object().set("role"@, JsonV::Str(self.role));
        let b = with(b, "content"@, self.content);
        let b = with(b, "reasoning_content"@, str_value(self.reasoning_content));
        let b = with(b, "tool_calls"@, list_value(self.tool_calls));
        let b = with(b, "tool_call_id"@, str_value(self.tool_call_id));
        with(b, "name"@, str_value(self.name))
    }
}

/// The messages as JSON.
pub open spec fn bodies(messages: Seq<ChatMessageV>) -> Seq<JsonV> {
    Seq::new(messages.len(), |i: int| messages[i].body())
}

impl ChatRequestV {
    /// The request as JSON.
    pub open spec fn body(self) -> JsonV {
        let b = JsonV::object().set("model"@, JsonV::Str(self.model));
        let b = b.set("messages"@, JsonV::Arr(bodies(self.messages)));
        let b = with(
            b,
            "tools"@,
            if self.tools.len() == 0 {
                None
            } else {
                Some(JsonV::Arr(self.tools))
            },
        );
        let b = with(b, "tool_choice"@, self.tool_choice);
        let b = with(b, "temperature"@, number_value(self.temperature));
        let b = with(b, "max_tokens"@, uint_value(self.max_tokens));
        let b = with(b, "top_p"@, number_value(self.top_p));
        let b = with(b, "stop"@, self.stop);
        let b = with(b, "presence_penalty"@, number_value(self.presence_penalty));
        let b = with(b, "frequency_penalty"@, number_value(self.frequency_penalty));
        let b = with(b, "seed"@, uint_value(self.seed));
        let b = with(b, "user"@, str_value(self.user));
        let b = with(b, "reasoning_effort"@, str_value(self.reasoning_effort));
        let b = with(b, "thinking"@, thinking_value(self.thinking));
        let b = with(b, "stream_options"@, options_value(self.stream_options));
        b.set("stream"@, JsonV::Bool(self.stream))
    }
}

fn put(body: Json, k: &str, v: Option<Json>) -> (r: Json)
    ensures
        r@ == with(body@, k@, opt_json(v)),
{
    match v {
        Some(x) => body.set(k, x),
        None => body,
    }
}

fn str_json(s: &Option<String>) -> (r: Option<Json>)
    ensures
        opt_json(r) == str_value(opt_str(*s)),
{
    match s {
        Some(x) => Some(Json::str(x.as_str())),
        None => None,
    }
}

fn uint_json(n: Option<u64>) -> (r: Option<Json>)
    ensures
        opt_json(r) == uint_value(n),
{
    match n {
        Some(x) => Some(Json::uint(x)),
        None => None,
    }
}

fn number_json(n: &Option<JsonNumber>) -> (r: Option<Json>)
    ensures
        opt_json(r) == number_value(opt_number(*n)),
{
    match dup_opt_number(n) {
        Some(x) => Some(Json::Number(x)),
        None => None,
    }
}

fn value_json(v: &Option<Json>) -> (r: Option<Json>)
    ensures
        opt_json(r) == opt_json(*v),
{
    match v {
        Some(x) => Some(x.dup()),
        None => None,
    }
}

fn list_json(l: &Vec<Json>) -> (r: Json)
    ensures
        r@ == JsonV::Arr(items_view(l@)),
{
    Json::Arr(dup_items(l))
}

impl ChatMessage {
    /// The message as JSON.
    pub fn to_json(&self) -> (r: Json)
        ensures
            r@ == self@.body(),
    {
        let calls: Option<Json> = match &self.tool_calls {
            Some(l) => Some(list_json(l)),
            None => None,
        };
        let b = Json::object().set("role", Json::str(self.role.as_str()));
        let b = put(b, "content", value_json(&self.content));
        let b = put(b, "reasoning_content", str_json(&self.reasoning_content));
        let b = put(b, "tool_calls", calls);
        let b = put(b, "tool_call_id", str_json(&self.tool_call_id));
        put(b, "name", str_json(&self.name))
    }
}

impl ChatRequest {
    fn messages_json(&self) -> (r: Json)
        ensures
            r@ == JsonV::Arr(bodies(self@.messages)),
    {
        let mut out: Vec<Json> = Vec::new();
        let mut i: usize = 0;
        while i < self.messages.len()
            invariant
                i <= self.messages@.len(),
                items_view(out@) == bodies(messages_view(self.messages@.take(i as int))),
            decreases self.messages@.len() - i,
        {
            let m = self.messages[i].to_json();
            proof {
                lemma_items_push(out@, m);
                assert(bodies(messages_view(self.messages@.take(i + 1))) =~= bodies(
                    messages_view(self.messages@.take(i as int)),
                ).push(m@));
            }
            out.push(m);
            i = i + 1;
        }
        assert(self.messages@.take(i as int) =~= self.messages@);
        Json::Arr(out)
    }

    /// The request as JSON.
    pub fn to_json(&self) -> (r: Json)
        ensures
            r@ == self@.body(),
    {
        let tools: Option<Json> = if self.tools.len() == 0 {
            None
        } else {
            Some(list_json(&self.tools))
        };
        let thinking: Option<Json> = match self.thinking {
            Some(ChatThinking::Enabled) => Some(
                Json::object().set("type", Json::str("enabled")),
            ),
            None => None,
        };
        let options: Option<Json> = match self.stream_options {
            Some(o) => Some(Json::object().set("include_usage", Json::Bool(o.include_usage))),
            None => None,
        };
        proof {
            lemma_items_view(self.tools@);
        }
        let b = Json::object().set("model", Json::str(self.model.as_str()));
        let b = b.set("messages", self.messages_json());
        let b = put(b, "tools", tools);
        let b = put(b, "tool_choice", value_json(&self.tool_choice));
        let b = put(b, "temperature", number_json(&self.temperature));
        let b = put(b, "max_tokens", uint_json(self.max_tokens));
        let b = put(b, "top_p", number_json(&self.top_p));
        let b = put(b, "stop", value_json(&self.stop));
        let b = put(b, "presence_penalty", number_json(&self.presence_penalty));
        let b = put(b, "frequency_penalty", number_json(&self.frequency_penalty));
        let b = put(b, "seed", uint_json(self.seed));
        let b = put(b, "user", str_json(&self.user));
        let b = put(b, "reasoning_effort", str_json(&self.reasoning_effort));
        let b = put(b, "thinking", thinking);
        let b = put(b, "stream_options", options);
        b.set("stream", Json::Bool(self.stream))
    }
}

/// The fields that the body of a request can have.
pub open spec fn is_body_field(k: Seq<char>) -> bool {
    ||| k == "model"@
    ||| k == "messages"@
    ||| k == "tools"@
    ||| k == "tool_choice"@
    ||| k == "temperature"@
    ||| k == "max_tokens"@
    ||| k == "top_p"@
    ||| k == "stop"@
    ||| k == "presence_penalty"@
    ||| k == "frequency_penalty"@
    ||| k == "seed"@
    ||| k == "user"@
    ||| k == "reasoning_effort"@
    ||| k == "thinking"@
    ||| k == "stream_options"@
    ||| k == "stream"@
}

/// The body of a request has no field but the known ones.
pub proof fn body_has_known_fields_only(r: ChatRequestV, k: Seq<char>)
    requires
        r.body().get(k) is Some,
    ensures
        is_body_field(k),
{
}

} // verus!
