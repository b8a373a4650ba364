//! Chat Completions wire types.
use crate::json::{items_view, Json, JsonNumber, JsonV, NumberV};
use crate::wire::responses::opt_number;
use vstd::prelude::*;

verus! {

/// A message of a Chat Completions conversation.
#[derive(Debug)]
pub struct ChatMessage {
    pub role: String,
    pub content: Option<Json>,
    pub reasoning_content: Option<String>,
    pub tool_calls: Option<Vec<Json>>,
    pub tool_call_id: Option<String>,
    pub name: Option<String>,
}

/// What a [`ChatMessage`] denotes.
pub struct ChatMessageV {
    pub role: Seq<char>,
    pub content: Option<JsonV>,
    pub reasoning_content: Option<Seq<char>>,
    pub tool_calls: Option<Seq<JsonV>>,
    pub tool_call_id: Option<Seq<char>>,
    pub name: Option<Seq<char>>,
}

/// The characters of an optional string.
pub open spec fn opt_str(s: Option<String>) -> Option<Seq<char>> {
    match s {
        Some(x) => Some(x@),
        None => None,
    }
}

/// What an optional JSON value denotes.
pub open spec fn opt_json(j: Option<Json>) -> Option<JsonV> {
    match j {
        Some(x) => Some(x@),
        None => None,
    }
}

/// What an optional list of JSON values denotes.
pub open spec fn opt_items(j: Option<Vec<Json>>) -> Option<Seq<JsonV>> {
    match j {
        Some(x) => Some(items_view(x@)),
        None => None,
    }
}

impl View for ChatMessage {
    type V = ChatMessageV;

    open spec fn view(&self) -> ChatMessageV {
        ChatMessageV {
            role: self.role@,
            content: opt_json(self.content),
            reasoning_content: opt_str(self.reasoning_content),
            tool_calls: opt_items(self.tool_calls),
            tool_call_id: opt_str(self.tool_call_id),
            name: opt_str(self.name),
        }
    }
}

impl ChatMessageV {
    /// The text of a message whose content is a string; empty otherwise.
    pub open spec fn text(self) -> Seq<char> {
        match self.content {
            Some(JsonV::Str(s)) => s,
            _ => Seq::empty(),
        }
    }
}

impl ChatMessage {
    /// The text of a message whose content is a string; empty otherwise.
    pub fn text_content(&self) -> (r: &str)
        ensures
            r@ == self@.text(),
    {
        match &self.content {
            Some(Json::Str(s)) => s.as_str(),
            _ => {
                proof {
                    reveal_strlit("");
                }
                assert(""@ =~= Seq::<char>::empty());
                ""
            },
        }
    }
}

/// Token counts of an answer.
#[derive(Debug, Clone, Copy, PartialEq, Eq, Structural)]
pub struct ChatUsage {
    pub prompt_tokens: u32,
    pub completion_tokens: u32,
    pub total_tokens: u32,
}

/// One of the answers of a blocking response.
#[derive(Debug)]
pub struct ChatChoice {
    pub message: ChatMessage,
}

/// A blocking response.
#[derive(Debug)]
pub struct ChatResponse {
    pub choices: Vec<ChatChoice>,
    pub usage: Option<ChatUsage>,
}

/// The function part of a tool-call delta.
#[derive(Debug, Clone)]
pub struct DeltaFunction {
    pub name: Option<String>,
    pub arguments: Option<String>,
}

/// A tool-call delta.
#[derive(Debug, Clone)]
pub struct DeltaToolCall {
    pub index: u64,
    pub id: Option<String>,
    pub function: Option<DeltaFunction>,
}

impl Default for DeltaFunction {
    fn default() -> (r: DeltaFunction)
        ensures
            r.name is None,
            r.arguments is None,
    {
        DeltaFunction { name: None, arguments: None }
    }
}

impl Default for DeltaToolCall {
    fn default() -> (r: DeltaToolCall)
        ensures
            r@ == (ToolDeltaV { index: 0, id: None, name: None, arguments: None }),
    {
        DeltaToolCall { index: 0, id: None, function: None }
    }
}

/// What a [`DeltaToolCall`] denotes.
pub struct ToolDeltaV {
    pub index: u64,
    pub id: Option<Seq<char>>,
    pub name: Option<Seq<char>>,
    pub arguments: Option<Seq<char>>,
}

impl View for DeltaToolCall {
    type V = ToolDeltaV;

    open spec fn view(&self) -> ToolDeltaV {
        ToolDeltaV {
            index: self.index,
            id: opt_str(self.id),
            name: match self.function {
                Some(f) => opt_str(f.name),
                None => None,
            },
            arguments: match self.function {
                Some(f) => opt_str(f.arguments),
                None => None,
            },
        }
    }
}

/// What a streamed chunk adds to an answer.
#[derive(Debug, Clone)]
pub struct ChatDelta {
    pub content: Option<String>,
    pub reasoning_content: Option<String>,
    pub tool_calls: Option<Vec<DeltaToolCall>>,
}

impl Default for ChatDelta {
    fn default() -> (r: ChatDelta)
        ensures
            r@ == (DeltaV { content: None, reasoning: None, tool_calls: Seq::empty() }),
    {
        ChatDelta { content: None, reasoning_content: None, tool_calls: None }
    }
}

/// What a list of tool-call deltas denotes.
pub open spec fn deltas_view(s: Seq<DeltaToolCall>) -> Seq<ToolDeltaV> {
    Seq::new(s.len(), |i: int| s[i]@)
}

/// What a [`ChatDelta`] denotes.
pub struct DeltaV {
    pub content: Option<Seq<char>>,
    pub reasoning: Option<Seq<char>>,
    pub tool_calls: Seq<ToolDeltaV>,
}

impl View for ChatDelta {
    type V = DeltaV;

    open spec fn view(&self) -> DeltaV {
        DeltaV {
            content: opt_str(self.content),
            reasoning: opt_str(self.reasoning_content),
            tool_calls: match self.tool_calls {
                Some(t) => deltas_view(t@),
                None => Seq::empty(),
            },
        }
    }
}

/// One of the answers of a streamed chunk.
#[derive(Debug, Clone)]
pub struct ChatStreamChoice {
    pub index: u64,
    pub delta: ChatDelta,
    pub finish_reason: Option<String>,
}

/// A chunk of a streamed answer.
#[derive(Debug, Clone)]
pub struct ChatStreamChunk {
    pub choices: Vec<ChatStreamChoice>,
    pub usage: Option<ChatUsage>,
}

/// What a chunk says about the first answer, and the token counts.
pub struct ChunkV {
    pub delta: Option<DeltaV>,
    pub finish_reason: Option<Seq<char>>,
    pub usage: Option<ChatUsage>,
}

impl View for ChatStreamChunk {
    type V = ChunkV;

    open spec fn view(&self) -> ChunkV {
        if self.choices@.len() == 0 {
            ChunkV { delta: None, finish_reason: None, usage: self.usage }
        } else {
            ChunkV {
                delta: Some(self.choices@[0].delta@),
                finish_reason: opt_str(self.choices@[0].finish_reason),
                usage: self.usage,
            }
        }
    }
}

/// Options of a streamed request.
#[derive(Debug, Clone, Copy, PartialEq, Eq, Structural)]
pub struct StreamOptions {
    pub include_usage: bool,
}

/// The explicit thinking switch of GLM models.
#[derive(Debug, Clone, Copy, PartialEq, Eq, Structural)]
pub enum ChatThinking {
    Enabled,
}

impl ChatThinking {
    /// The switch that turns thinking on.
    pub fn enabled() -> (r: ChatThinking)
        ensures
            r == ChatThinking::Enabled,
    {
        ChatThinking::Enabled
    }
}

/// A Chat Completions request.
#[derive(Debug)]
pub struct ChatRequest {
    pub model: String,
    pub messages: Vec<ChatMessage>,
    pub tools: Vec<Json>,
    pub tool_choice: Option<Json>,
    pub temperature: Option<JsonNumber>,
    pub max_tokens: Option<u64>,
    pub top_p: Option<JsonNumber>,
    pub stop: Option<Json>,
    pub presence_penalty: Option<JsonNumber>,
    pub frequency_penalty: Option<JsonNumber>,
    pub seed: Option<u64>,
    pub user: Option<String>,
    pub reasoning_effort: Option<String>,
    pub thinking: Option<ChatThinking>,
    pub stream_options: Option<StreamOptions>,
    pub stream: bool,
}

/// What a list of messages denotes.
pub open spec fn messages_view(s: Seq<ChatMessage>) -> Seq<ChatMessageV> {
    Seq::new(s.len(), |i: int| s[i]@)
}

/// What a [`ChatRequest`] denotes.
pub struct ChatRequestV {
    pub model: Seq<char>,
    pub messages: Seq<ChatMessageV>,
    pub tools: Seq<JsonV>,
    pub tool_choice: Option<JsonV>,
    pub temperature: Option<NumberV>,
    pub max_tokens: Option<u64>,
    pub top_p: Option<NumberV>,
    pub stop: Option<JsonV>,
    pub presence_penalty: Option<NumberV>,
    pub frequency_penalty: Option<NumberV>,
    pub seed: Option<u64>,
    pub user: Option<Seq<char>>,
    pub reasoning_effort: Option<Seq<char>>,
    pub thinking: Option<ChatThinking>,
    pub stream_options: Option<StreamOptions>,
    pub stream: bool,
}

impl View for ChatRequest {
    type V = ChatRequestV;

    open spec fn view(&self) -> ChatRequestV {
        ChatRequestV {
            model: self.model@,
            messages: messages_view(self.messages@),
            tools: items_view(self.tools@),
            tool_choice: opt_json(self.tool_choice),
            temperature: opt_number(self.temperature),
            max_tokens: self.max_tokens,
            top_p: opt_number(self.top_p),
            stop: opt_json(self.stop),
            presence_penalty: opt_number(self.presence_penalty),
            frequency_penalty: opt_number(self.frequency_penalty),
            seed: self.seed,
            user: opt_str(self.user),
            reasoning_effort: opt_str(self.reasoning_effort),
            thinking: self.thinking,
            stream_options: self.stream_options,
            stream: self.stream,
        }
    }
}

} // verus!
