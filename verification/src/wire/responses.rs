//! Responses wire types.
use crate::json::{dup_number, items_view, number_view, Json, JsonNumber, JsonV, NumberV};
use crate::wire::chat::{opt_json, opt_str};
use vstd::prelude::*;

verus! {

/// The input of a request: a text, or items.
#[derive(Debug)]
pub enum ResponsesInput {
    Text(String),
    Items(Vec<Json>),
}

/// A Responses request.
#[derive(Debug)]
pub struct ResponsesRequest {
    pub model: String,
    pub input: ResponsesInput,
    pub instructions: Option<String>,
    pub system: Option<String>,
    pub tools: Vec<Json>,
    pub stream: bool,
    pub temperature: Option<JsonNumber>,
    pub max_output_tokens: Option<u64>,
    pub top_p: Option<JsonNumber>,
    pub reasoning: Option<Json>,
    /// All other fields, as an object.
    pub extra: Json,
}

/// What a [`ResponsesInput`] denotes.
pub enum InputV {
    Text(Seq<char>),
    Items(Seq<JsonV>),
}

impl View for ResponsesInput {
    type V = InputV;

    open spec fn view(&self) -> InputV {
        match self {
            ResponsesInput::Text(t) => InputV::Text(t@),
            ResponsesInput::Items(v) => InputV::Items(items_view(v@)),
        }
    }
}

impl InputV {
    /// The items of an input; a text has none.
    pub open spec fn items(self) -> Seq<JsonV> {
        match self {
            InputV::Text(_) => Seq::empty(),
            InputV::Items(v) => v,
        }
    }
}

/// What an optional number denotes.
pub open spec fn opt_number(n: Option<JsonNumber>) -> Option<NumberV> {
    match n {
        Some(x) => Some(number_view(x)),
        None => None,
    }
}

/// A copy that denotes the same number, where there is one.
pub fn dup_opt_number(n: &Option<JsonNumber>) -> (r: Option<JsonNumber>)
    ensures
        opt_number(r) == opt_number(*n),
{
    match n {
        Some(x) => Some(dup_number(x)),
        None => None,
    }
}

/// What a [`ResponsesRequest`] denotes.
pub struct RequestV {
    pub model: Seq<char>,
    pub input: InputV,
    pub instructions: Option<Seq<char>>,
    pub system: Option<Seq<char>>,
    pub tools: Seq<JsonV>,
    pub stream: bool,
    pub temperature: Option<NumberV>,
    pub max_output_tokens: Option<u64>,
    pub top_p: Option<NumberV>,
    pub reasoning: Option<JsonV>,
    pub extra: JsonV,
}

impl View for ResponsesRequest {
    type V = RequestV;

    open spec fn view(&self) -> RequestV {
        RequestV {
            model: self.model@,
            input: self.input@,
            instructions: opt_str(self.instructions),
            system: opt_str(self.system),
            tools: items_view(self.tools@),
            stream: self.stream,
            temperature: opt_number(self.temperature),
            max_output_tokens: self.max_output_tokens,
            top_p: opt_number(self.top_p),
            reasoning: opt_json(self.reasoning),
            extra: self.extra@,
        }
    }
}

} // verus!
