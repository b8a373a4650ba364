//! Responses requests as Chat Completions requests.
//!
//! The prior items of a conversation come first, then the new input. Reasoning
//! items are attached to the assistant message that follows them, so that
//! reasoning survives replay.
use crate::json::{items_view, lemma_items_push, lemma_items_view, Json, JsonNumber, JsonV};
use crate::normalize::{
    chat_function_name_for_namespace_tool, encoded_name, flat_tools, normalize_chat_tools,
    NamespaceToolMap,
};
use crate::text::{all_ws, concat3, find, holds, is_blank_str, lower_chars, lowered, same, to_chars};
use crate::wire::chat::{
    messages_view, opt_json, opt_str, ChatMessage, ChatMessageV, ChatRequest, ChatRequestV,
    ChatThinking, StreamOptions,
};
use crate::wire::responses::{
    dup_opt_number, opt_number, InputV, RequestV, ResponsesInput, ResponsesRequest,
};
use vstd::prelude::*;

verus! {

/// A string field, or a default where it is missing.
pub open spec fn field_or(v: JsonV, k: Seq<char>, default: Seq<char>) -> Seq<char> {
    match v.get_str(k) {
        Some(x) => x,
        None => default,
    }
}

/// A message of that role that carries nothing yet.
pub open spec fn bare_message(role: Seq<char>) -> ChatMessageV {
    ChatMessageV {
        role,
        content: None,
        reasoning_content: None,
        tool_calls: None,
        tool_call_id: None,
        name: None,
    }
}

/// The role of a message in Chat Completions.
pub open spec fn chat_role(role: Seq<char>) -> Seq<char> {
    if role == "developer"@ || role == "system"@ {
        "system"@
    } else if role == "assistant"@ {
        "assistant"@
    } else {
        "user"@
    }
}

/// A text part.
pub open spec fn chat_text_part(text: Seq<char>) -> JsonV {
    JsonV::object().set("type"@, JsonV::Str("text"@)).set("text"@, JsonV::Str(text))
}

/// An image part.
pub open spec fn chat_image_part(url: Seq<char>) -> JsonV {
    JsonV::object().set("type"@, JsonV::Str("image_url"@)).set(
        "image_url"@,
        JsonV::object().set("url"@, JsonV::Str(url)),
    )
}

/// A content part in Chat Completions; none where it has no such form.
pub open spec fn chat_part(part: JsonV) -> Option<JsonV> {
    let kind = part.get_str("type"@);
    if kind == Some("input_text"@) || kind == Some("output_text"@) {
        Some(chat_text_part(field_or(part, "text"@, Seq::empty())))
    } else if kind == Some("input_image"@) {
        match (part.get_str("image_url"@), part.get_str("image"@)) {
            (Some(u), _) => Some(chat_image_part(u)),
            (None, Some(u)) => Some(chat_image_part(u)),
            (None, None) => None,
        }
    } else {
        None
    }
}

/// The content parts in Chat Completions; those without such a form are left
/// out.
pub open spec fn chat_parts(parts: Seq<JsonV>) -> Seq<JsonV>
    decreases parts.len(),
{
    if parts.len() == 0 {
        Seq::empty()
    } else {
        match chat_part(parts.last()) {
            Some(p) => chat_parts(parts.drop_last()).push(p),
            None => chat_parts(parts.drop_last()),
        }
    }
}

/// The content of a message in Chat Completions: a string stays one, one text
/// part becomes one, other parts stay a list; none where nothing is left.
pub open spec fn chat_content(content: JsonV) -> Option<JsonV> {
    match content {
        JsonV::Str(_) => Some(content),
        JsonV::Arr(parts) => {
            let converted = chat_parts(parts);
            if converted.len() == 0 {
                None
            } else if converted.len() == 1 && converted[0].get_str("text"@) is Some {
                Some(JsonV::Str(converted[0].get_str("text"@)->0))
            } else {
                Some(JsonV::Arr(converted))
            }
        },
        _ => None,
    }
}

/// The content of an item in Chat Completions.
pub open spec fn item_content(item: JsonV) -> Option<JsonV> {
    match item.get("content"@) {
        Some(c) => chat_content(c),
        None => None,
    }
}

/// A function call item as a Chat Completions tool call; a namespaced name is
/// encoded.
pub open spec fn tool_call_of(fc: JsonV) -> JsonV {
    let namespace = field_or(fc, "namespace"@, Seq::empty());
    let name = field_or(fc, "name"@, Seq::empty());
    JsonV::object().set("id"@, JsonV::Str(field_or(fc, "call_id"@, Seq::empty()))).set(
        "type"@,
        JsonV::Str("function"@),
    ).set(
        "function"@,
        JsonV::object().set(
            "name"@,
            JsonV::Str(
                if namespace.len() == 0 {
                    name
                } else {
                    encoded_name(namespace, name)
                },
            ),
        ).set("arguments"@, JsonV::Str(field_or(fc, "arguments"@, "{}"@))),
    )
}

/// A single item as a Chat Completions message; none where it has no such form.
pub open spec fn chat_message(item: JsonV) -> Option<ChatMessageV> {
    let kind = item.get_str("type"@);
    if kind == Some("message"@) {
        Some(
            ChatMessageV {
                content: item_content(item),
                reasoning_content: item.get_str("reasoning_content"@),
                ..bare_message(chat_role(field_or(item, "role"@, "user"@)))
            },
        )
    } else if kind == Some("function_call"@) {
        Some(
            ChatMessageV {
                tool_calls: Some(seq![tool_call_of(item)]),
                ..bare_message("assistant"@)
            },
        )
    } else if kind == Some("function_call_output"@) {
        Some(
            ChatMessageV {
                content: Some(JsonV::Str(field_or(item, "output"@, Seq::empty()))),
                tool_call_id: Some(field_or(item, "call_id"@, Seq::empty())),
                ..bare_message("tool"@)
            },
        )
    } else {
        None
    }
}

/// Whether an item is a function call.
pub open spec fn is_call(item: JsonV) -> bool {
    item.get_str("type"@) == Some("function_call"@)
}

/// The first position at or after `i` that holds no function call.
pub open spec fn calls_end(items: Seq<JsonV>, i: int) -> int
    decreases items.len() - i,
{
    if 0 <= i < items.len() && is_call(items[i]) {
        calls_end(items, i + 1)
    } else {
        i
    }
}

/// The function calls `items[from..to]` as tool calls.
pub open spec fn tool_calls_of(items: Seq<JsonV>, from: int, to: int) -> Seq<JsonV> {
    Seq::new((to - from) as nat, |k: int| tool_call_of(items[from + k]))
}

/// The text of a reasoning item; none where it is empty or missing.
pub open spec fn reasoning_text(item: JsonV) -> Option<Seq<char>> {
    match item.get_arr("summary"@) {
        Some(parts) => if parts.len() == 0 {
            None
        } else {
            match parts[0].get_str("text"@) {
                Some(t) => if t.len() == 0 {
                    None
                } else {
                    Some(t)
                },
                None => None,
            }
        },
        None => None,
    }
}

/// The first of two options that is there.
pub open spec fn first_of(a: Option<Seq<char>>, b: Option<Seq<char>>) -> Option<Seq<char>> {
    match a {
        Some(x) => Some(x),
        None => b,
    }
}

/// The messages of the items from `i` on, where `pending` is reasoning that
/// waits for its assistant message. An assistant message takes in the function
/// calls that follow it, and so does a function call without one.
pub open spec fn item_messages(
    items: Seq<JsonV>,
    i: int,
    pending: Option<Seq<char>>,
) -> Seq<ChatMessageV>
    decreases items.len() - i,
{
    if i < 0 || i >= items.len() {
        Seq::empty()
    } else {
        let item = items[i];
        let kind = item.get_str("type"@);
        let end = calls_end(items, i + 1);
        proof {
            lemma_calls_end(items, i + 1);
        }
        if kind == Some("reasoning"@) {
            item_messages(items, i + 1, first_of(reasoning_text(item), pending))
        } else if kind == Some("message"@) && chat_role(field_or(item, "role"@, "user"@))
            == "assistant"@ {
            let m = ChatMessageV {
                content: item_content(item),
                reasoning_content: first_of(pending, item.get_str("reasoning_content"@)),
                tool_calls: if end > i + 1 {
                    Some(tool_calls_of(items, i + 1, end))
                } else {
                    None
                },
                ..bare_message("assistant"@)
            };
            seq![m] + item_messages(items, end, None)
        } else if kind == Some("function_call"@) {
            let m = ChatMessageV {
                reasoning_content: pending,
                tool_calls: Some(tool_calls_of(items, i, end)),
                ..bare_message("assistant"@)
            };
            seq![m] + item_messages(items, end, None)
        } else {
            match chat_message(item) {
                Some(m) => seq![m] + item_messages(items, i + 1, pending),
                None => item_messages(items, i + 1, pending),
            }
        }
    }
}

pub proof fn lemma_calls_end(items: Seq<JsonV>, i: int)
    ensures
        i <= calls_end(items, i),
        i <= items.len() ==> calls_end(items, i) <= items.len(),
        forall|k: int| i <= k < calls_end(items, i) ==> is_call(#[trigger] items[k]),
    decreases items.len() - i,
{
    if 0 <= i < items.len() && is_call(items[i]) {
        lemma_calls_end(items, i + 1);
    }
}

/// The parameters of a tool that takes free text.
pub open spec fn freeform_parameters() -> JsonV {
    JsonV::object().set("type"@, JsonV::Str("object"@)).set(
        "properties"@,
        JsonV::object().set("input"@, JsonV::object().set("type"@, JsonV::Str("string"@))),
    ).set("required"@, JsonV::one(JsonV::Str("input"@)))
}

/// A Chat Completions function tool.
pub open spec fn function_tool(
    name: Seq<char>,
    description: Seq<char>,
    parameters: JsonV,
) -> JsonV {
    JsonV::object().set("type"@, JsonV::Str("function"@)).set(
        "function"@,
        JsonV::object().set("name"@, JsonV::Str(name)).set(
            "description"@,
            JsonV::Str(description),
        ).set("parameters"@, parameters),
    )
}

/// A tool in Chat Completions; none where it has no such form. A tool that
/// takes free text gets one string parameter.
pub open spec fn chat_tool(tool: JsonV) -> Option<JsonV> {
    let kind = tool.get_str("type"@);
    match tool.get_str("name"@) {
        Some(name) => {
            let description = field_or(tool, "description"@, Seq::empty());
            if kind == Some("function"@) {
                Some(
                    function_tool(
                        name,
                        description,
                        match tool.get("parameters"@) {
                            Some(p) => p,
                            None => JsonV::object(),
                        },
                    ),
                )
            } else if kind == Some("custom"@) || kind == Some("freeform"@) {
                Some(function_tool(name, description, freeform_parameters()))
            } else {
                None
            }
        },
        None => None,
    }
}

/// The tools in Chat Completions; those without such a form are left out.
pub open spec fn chat_tools(tools: Seq<JsonV>) -> Seq<JsonV>
    decreases tools.len(),
{
    if tools.len() == 0 {
        Seq::empty()
    } else {
        match chat_tool(tools.last()) {
            Some(t) => chat_tools(tools.drop_last()).push(t),
            None => chat_tools(tools.drop_last()),
        }
    }
}

/// A text that is not all white space.
pub open spec fn filled(s: Option<Seq<char>>) -> Option<Seq<char>> {
    match s {
        Some(x) => if all_ws(x) {
            None
        } else {
            Some(x)
        },
        None => None,
    }
}

/// What stands between an earlier system text and the one that joins it.
pub open spec fn system_gap() -> Seq<char> {
    "\n\n"@
}

/// The content of a system message that another text joins.
pub open spec fn joined_content(content: Option<JsonV>, text: Seq<char>) -> JsonV {
    match content {
        Some(JsonV::Str(earlier)) => JsonV::Str(earlier + system_gap() + text),
        Some(JsonV::Arr(parts)) => JsonV::Arr(parts.push(chat_text_part(text))),
        _ => JsonV::Str(text),
    }
}

/// The messages with a system text put first: it joins the system message that
/// stands there already, or gets one of its own.
pub open spec fn with_system(
    messages: Seq<ChatMessageV>,
    system: Option<Seq<char>>,
) -> Seq<ChatMessageV> {
    match system {
        Some(text) => if messages.len() > 0 && messages[0].role == "system"@ {
            messages.update(
                0,
                ChatMessageV {
                    content: Some(joined_content(messages[0].content, text)),
                    ..messages[0]
                },
            )
        } else {
            messages.insert(
                0,
                ChatMessageV { content: Some(JsonV::Str(text)), ..bare_message("system"@) },
            )
        },
        None => messages,
    }
}

/// The messages of an input.
pub open spec fn input_messages(input: InputV) -> Seq<ChatMessageV> {
    match input {
        InputV::Text(text) => seq![
            ChatMessageV { content: Some(JsonV::Str(text)), ..bare_message("user"@) },
        ],
        InputV::Items(items) => item_messages(items, 0, None),
    }
}

/// Whether a model is one of the GLM family, by its name.
pub open spec fn is_glm_like(model: Seq<char>) -> bool {
    holds(lowered(model), "glm"@) || holds(lowered(model), "zhipu"@)
}

/// The Chat Completions request of a Responses request and its history.
pub open spec fn chat_request(
    req: RequestV,
    history: Seq<JsonV>,
    upstream_model: Seq<char>,
    glm_thinking: bool,
) -> ChatRequestV {
    ChatRequestV {
        model: upstream_model,
        messages: with_system(
            item_messages(history, 0, None),
            first_of(filled(req.instructions), filled(req.system)),
        ) + input_messages(req.input),
        tools: chat_tools(flat_tools(req.tools, history, req.input.items()).tools),
        tool_choice: req.extra.get("tool_choice"@),
        temperature: req.temperature,
        max_tokens: req.max_output_tokens,
        top_p: req.top_p,
        stop: req.extra.get("stop"@),
        presence_penalty: req.extra.at("presence_penalty"@).as_double(),
        frequency_penalty: req.extra.at("frequency_penalty"@).as_double(),
        seed: req.extra.at("seed"@).as_u64(),
        user: req.extra.get_str("user"@),
        reasoning_effort: match req.reasoning {
            Some(r) => r.get_str("effort"@),
            None => None,
        },
        thinking: if glm_thinking && is_glm_like(upstream_model) {
            Some(ChatThinking::Enabled)
        } else {
            None
        },
        stream_options: if req.stream {
            Some(StreamOptions { include_usage: true })
        } else {
            None
        },
        stream: req.stream,
    }
}

/// A string field, or a default where it is missing.
fn str_field(v: &Json, k: &str, default: &str) -> (r: String)
    ensures
        r@ == field_or(v@, k@, default@),
{
    match v.get_str(k) {
        Some(x) => x.to_owned(),
        None => default.to_owned(),
    }
}

/// An owned copy of an optional string field.
fn opt_field(v: &Json, k: &str) -> (r: Option<String>)
    ensures
        opt_str(r) == v@.get_str(k@),
{
    match v.get_str(k) {
        Some(x) => Some(x.to_owned()),
        None => None,
    }
}

fn new_message(role: &str) -> (r: ChatMessage)
    ensures
        r@ == bare_message(role@),
{
    ChatMessage {
        role: role.to_owned(),
        content: None,
        reasoning_content: None,
        tool_calls: None,
        tool_call_id: None,
        name: None,
    }
}

fn convert_part(part: &Json) -> (r: Option<Json>)
    ensures
        opt_json(r) == chat_part(part@),
{
    proof {
        reveal_strlit("");
        assert(""@ =~= Seq::<char>::empty());
    }
    if part.field_is("type", "input_text") || part.field_is("type", "output_text") {
        let text = str_field(part, "text", "");
        Some(Json::object().set("type", Json::str("text")).set("text", Json::Str(text)))
    } else if part.field_is("type", "input_image") {
        let url = match part.get_str("image_url") {
            Some(u) => Some(u),
            None => part.get_str("image"),
        };
        match url {
            Some(u) => Some(
                Json::object().set("type", Json::str("image_url")).set(
                    "image_url",
                    Json::object().set("url", Json::str(u)),
                ),
            ),
            None => None,
        }
    } else {
        None
    }
}

/// Convert Responses content to Chat content (string or parts array).
pub fn convert_content(content: &Json) -> (r: Option<Json>)
    ensures
        opt_json(r) == chat_content(content@),
{
    match content {
        Json::Str(s) => Some(Json::Str(s.clone())),
        Json::Arr(parts) => {
            let ghost all = items_view(parts@);
            proof {
                lemma_items_view(parts@);
            }
            let mut out: Vec<Json> = Vec::new();
            let mut i: usize = 0;
            assert(all.take(0) =~= Seq::<JsonV>::empty());
            while i < parts.len()
                invariant
                    i <= parts@.len(),
                    all == items_view(parts@),
                    all.len() == parts@.len(),
                    items_view(out@) == chat_parts(all.take(i as int)),
                decreases parts@.len() - i,
            {
                proof {
                    lemma_items_view(parts@);
                    assert(all.take(i + 1).drop_last() =~= all.take(i as int));
                    assert(all.take(i + 1).last() == parts@[i as int]@);
                }
                if let Some(p) = convert_part(&parts[i]) {
                    proof {
                        lemma_items_push(out@, p);
                    }
                    out.push(p);
                }
                i = i + 1;
            }
            assert(all.take(i as int) =~= all);
            proof {
                lemma_items_view(out@);
            }
            if out.len() == 0 {
                None
            } else {
                if out.len() == 1 {
                    if let Some(t) = out[0].get_str("text") {
                        return Some(Json::str(t));
                    }
                }
                Some(Json::Arr(out))
            }
        },
        _ => None,
    }
}

fn convert_item_content(item: &Json) -> (r: Option<Json>)
    ensures
        opt_json(r) == item_content(item@),
{
    match item.get("content") {
        Some(c) => convert_content(c),
        None => None,
    }
}

/// Whether an item is a function call.
fn is_function_call(item: &Json) -> (r: bool)
    ensures
        r == is_call(item@),
{
    item.field_is("type", "function_call")
}

/// A Chat tool call from a `function_call` item.
pub fn function_call_to_tool_call(fc: &Json) -> (r: Json)
    ensures
        r@ == tool_call_of(fc@),
{
    proof {
        reveal_strlit("");
        assert(""@ =~= Seq::<char>::empty());
    }
    let namespace = str_field(fc, "namespace", "");
    let name = str_field(fc, "name", "");
    let chat_name = if namespace.as_str().is_empty() {
        name
    } else {
        chat_function_name_for_namespace_tool(namespace.as_str(), name.as_str())
    };
    let function = Json::object().set("name", Json::Str(chat_name)).set(
        "arguments",
        Json::Str(str_field(fc, "arguments", "{}")),
    );
    Json::object().set("id", Json::Str(str_field(fc, "call_id", ""))).set(
        "type",
        Json::str("function"),
    ).set("function", function)
}

fn role_of(item: &Json) -> (r: &'static str)
    ensures
        r@ == chat_role(field_or(item@, "role"@, "user"@)),
{
    let role = str_field(item, "role", "user");
    if same(role.as_str(), "developer") || same(role.as_str(), "system") {
        "system"
    } else if same(role.as_str(), "assistant") {
        "assistant"
    } else {
        "user"
    }
}

/// Convert a single item to a Chat message; none where it has no such form.
pub fn convert_responses_item_to_chat(item: &Json) -> (r: Option<ChatMessage>)
    ensures
        match r {
            Some(m) => chat_message(item@) == Some(m@),
            None => chat_message(item@) is None,
        },
{
    proof {
        reveal_strlit("");
        assert(""@ =~= Seq::<char>::empty());
    }
    if item.field_is("type", "message") {
        let mut m = new_message(role_of(item));
        m.content = convert_item_content(item);
        m.reasoning_content = opt_field(item, "reasoning_content");
        Some(m)
    } else if is_function_call(item) {
        let mut m = new_message("assistant");
        let mut calls: Vec<Json> = Vec::new();
        let call = function_call_to_tool_call(item);
        proof {
            lemma_items_push(calls@, call);
            assert(Seq::<JsonV>::empty().push(call@) =~= seq![call@]);
        }
        calls.push(call);
        m.tool_calls = Some(calls);
        Some(m)
    } else if item.field_is("type", "function_call_output") {
        let mut m = new_message("tool");
        m.content = Some(Json::Str(str_field(item, "output", "")));
        m.tool_call_id = Some(str_field(item, "call_id", ""));
        Some(m)
    } else {
        None
    }
}

/// The text of a reasoning item; none where it is empty or missing.
fn summary_text(item: &Json) -> (r: Option<String>)
    ensures
        opt_str(r) == reasoning_text(item@),
{
    match item.get_array("summary") {
        Some(parts) => {
            proof {
                lemma_items_view(parts@);
            }
            if parts.len() == 0 {
                return None;
            }
            match parts[0].get_str("text") {
                Some(t) => if t.is_empty() {
                    None
                } else {
                    Some(t.to_owned())
                },
                None => None,
            }
        },
        None => None,
    }
}

/// The function calls from `from` on as tool calls, up to the first item that
/// is none; and where that item stands.
fn take_calls(items: &Vec<Json>, from: usize) -> (r: (Vec<Json>, usize))
    requires
        from <= items@.len(),
    ensures
        r.1 == calls_end(items_view(items@), from as int),
        from <= r.1 <= items@.len(),
        items_view(r.0@) == tool_calls_of(items_view(items@), from as int, r.1 as int),
        r.0@.len() == r.1 - from,
{
    let ghost all = items_view(items@);
    proof {
        lemma_items_view(items@);
    }
    let mut out: Vec<Json> = Vec::new();
    let mut i: usize = from;
    assert(tool_calls_of(all, from as int, from as int) =~= Seq::<JsonV>::empty());
    while i < items.len() && is_function_call(&items[i])
        invariant
            from <= i <= items@.len(),
            all == items_view(items@),
            all.len() == items@.len(),
            forall|k: int| 0 <= k < items@.len() ==> #[trigger] all[k] == items@[k]@,
            calls_end(all, from as int) == calls_end(all, i as int),
            items_view(out@) == tool_calls_of(all, from as int, i as int),
            out@.len() == i - from,
        decreases items@.len() - i,
    {
        let call = function_call_to_tool_call(&items[i]);
        proof {
            assert(all[i as int] == items@[i as int]@);
            lemma_items_push(out@, call);
            assert(tool_calls_of(all, from as int, i + 1) =~= tool_calls_of(
                all,
                from as int,
                i as int,
            ).push(call@));
        }
        out.push(call);
        i = i + 1;
    }
    assert(i < items@.len() ==> all[i as int] == items@[i as int]@);
    (out, i)
}

/// Convert items to Chat messages, appending to `messages`.
pub fn push_item_messages(messages: &mut Vec<ChatMessage>, items: &Vec<Json>)
    ensures
        messages_view(final(messages)@) == messages_view(old(messages)@) + item_messages(
            items_view(items@),
            0,
            None,
        ),
{
    let ghost all = items_view(items@);
    let ghost whole = messages_view(messages@) + item_messages(all, 0, None);
    proof {
        lemma_items_view(items@);
    }
    let mut pending: Option<String> = None;
    let mut i: usize = 0;
    while i < items.len()
        invariant
            i <= items@.len(),
            all == items_view(items@),
            all.len() == items@.len(),
            forall|k: int| 0 <= k < items@.len() ==> #[trigger] all[k] == items@[k]@,
            whole == messages_view(messages@) + item_messages(all, i as int, opt_str(pending)),
        decreases items@.len() - i,
    {
        let item = &items[i];
        let ghost before = messages@;
        let ghost waiting = opt_str(pending);
        assert(all[i as int] == item@);
        if item.field_is("type", "reasoning") {
            if let Some(text) = summary_text(item) {
                pending = Some(text);
            }
            i = i + 1;
        } else if item.field_is("type", "message") && same(role_of(item), "assistant") {
            let mut m = new_message("assistant");
            m.content = convert_item_content(item);
            m.reasoning_content = match pending.take() {
                Some(r) => Some(r),
                None => opt_field(item, "reasoning_content"),
            };
            let (calls, end) = take_calls(items, i + 1);
            if calls.len() > 0 {
                m.tool_calls = Some(calls);
            }
            let ghost mv = m@;
            messages.push(m);
            proof {
                lemma_push_message(before, m, item_messages(all, end as int, None));
                assert(whole == messages_view(before) + (seq![mv] + item_messages(
                    all,
                    end as int,
                    None,
                )));
            }
            i = end;
        } else if is_function_call(item) {
            let mut m = new_message("assistant");
            m.reasoning_content = pending.take();
            let (calls, end) = take_calls(items, i);
            m.tool_calls = Some(calls);
            let ghost mv = m@;
            messages.push(m);
            proof {
                lemma_push_message(before, m, item_messages(all, end as int, None));
                assert(calls_end(all, i as int) == calls_end(all, i + 1));
                lemma_calls_end(all, i + 1);
                assert(whole == messages_view(before) + (seq![mv] + item_messages(
                    all,
                    end as int,
                    None,
                )));
            }
            i = end;
        } else {
            if let Some(m) = convert_responses_item_to_chat(item) {
                let ghost mv = m@;
                messages.push(m);
                proof {
                    lemma_push_message(before, m, item_messages(all, i + 1, waiting));
                    assert(whole == messages_view(before) + (seq![mv] + item_messages(
                        all,
                        i + 1,
                        waiting,
                    )));
                }
            }
            i = i + 1;
        }
    }
    assert(whole =~= messages_view(messages@));
}

proof fn lemma_push_message(s: Seq<ChatMessage>, m: ChatMessage, rest: Seq<ChatMessageV>)
    ensures
        messages_view(s.push(m)) + rest == messages_view(s) + (seq![m@] + rest),
{
    assert(messages_view(s.push(m)) + rest =~= messages_view(s) + (seq![m@] + rest));
}

fn convert_tool(tool: &Json) -> (r: Option<Json>)
    ensures
        opt_json(r) == chat_tool(tool@),
{
    proof {
        reveal_strlit("");
        assert(""@ =~= Seq::<char>::empty());
    }
    let name = match tool.get_str("name") {
        Some(n) => n.to_owned(),
        None => {
            return None;
        },
    };
    let parameters = if tool.field_is("type", "function") {
        match tool.get("parameters") {
            Some(p) => p.dup(),
            None => Json::object(),
        }
    } else if tool.field_is("type", "custom") || tool.field_is("type", "freeform") {
        Json::object().set("type", Json::str("object")).set(
            "properties",
            Json::object().set("input", Json::object().set("type", Json::str("string"))),
        ).set("required", Json::one(Json::str("input")))
    } else {
        return None;
    };
    let function = Json::object().set("name", Json::Str(name)).set(
        "description",
        Json::Str(str_field(tool, "description", "")),
    ).set("parameters", parameters);
    Some(Json::object().set("type", Json::str("function")).set("function", function))
}

/// Convert Responses tools to Chat tools.
fn convert_tools(tools: &Vec<Json>) -> (r: Vec<Json>)
    ensures
        items_view(r@) == chat_tools(items_view(tools@)),
{
    let ghost all = items_view(tools@);
    proof {
        lemma_items_view(tools@);
    }
    let mut out: Vec<Json> = Vec::new();
    let mut i: usize = 0;
    assert(all.take(0) =~= Seq::<JsonV>::empty());
    while i < tools.len()
        invariant
            i <= tools@.len(),
            all == items_view(tools@),
            all.len() == tools@.len(),
            items_view(out@) == chat_tools(all.take(i as int)),
        decreases tools@.len() - i,
    {
        proof {
            lemma_items_view(tools@);
            assert(all.take(i + 1).drop_last() =~= all.take(i as int));
            assert(all.take(i + 1).last() == tools@[i as int]@);
        }
        if let Some(t) = convert_tool(&tools[i]) {
            proof {
                lemma_items_push(out@, t);
            }
            out.push(t);
        }
        i = i + 1;
    }
    assert(all.take(i as int) =~= all);
    out
}

/// Whether a model is one of the GLM family, by its name.
pub fn is_glm_like_model(model: &str) -> (r: bool)
    ensures
        r == is_glm_like(model@),
{
    let name = lower_chars(model);
    find(&name, 0, &to_chars("glm")).is_some() || find(&name, 0, &to_chars("zhipu")).is_some()
}

fn opt_value(v: &Json, k: &str) -> (r: Option<Json>)
    ensures
        opt_json(r) == v@.get(k@),
{
    match v.get(k) {
        Some(x) => Some(x.dup()),
        None => None,
    }
}

fn number_field(v: &Json, k: &str) -> (r: Option<JsonNumber>)
    ensures
        opt_number(r) == v@.at(k@).as_double(),
{
    match v.get(k) {
        Some(x) => x.as_double(),
        None => None,
    }
}

fn is_filled(s: &Option<String>) -> (r: bool)
    ensures
        r == (filled(opt_str(*s)) is Some),
{
    match s {
        Some(x) => !is_blank_str(x.as_str()),
        None => false,
    }
}

/// The system text of a request: its instructions, or else its system field.
fn system_text(req: &ResponsesRequest) -> (r: Option<String>)
    ensures
        opt_str(r) == first_of(filled(req@.instructions), filled(req@.system)),
{
    if is_filled(&req.instructions) {
        req.instructions.clone()
    } else if is_filled(&req.system) {
        req.system.clone()
    } else {
        None
    }
}

/// The content of a system message that another text joins.
fn join_content(content: Option<Json>, text: &str) -> (r: Json)
    ensures
        r@ == joined_content(opt_json(content), text@),
{
    match content {
        Some(Json::Str(earlier)) => Json::Str(concat3(earlier.as_str(), "\n\n", text)),
        Some(Json::Arr(parts)) => {
            let mut parts = parts;
            let part = Json::object().set("type", Json::str("text")).set("text", Json::str(text));
            proof {
                lemma_items_push(parts@, part);
            }
            parts.push(part);
            Json::Arr(parts)
        },
        _ => Json::str(text),
    }
}

/// The messages of a request and its history.
fn convert_messages(req: &ResponsesRequest, history: &Vec<Json>) -> (r: Vec<ChatMessage>)
    ensures
        messages_view(r@) == with_system(
            item_messages(items_view(history@), 0, None),
            first_of(filled(req@.instructions), filled(req@.system)),
        ) + input_messages(req@.input),
{
    let mut messages: Vec<ChatMessage> = Vec::new();
    assert(messages_view(messages@) =~= Seq::<ChatMessageV>::empty());
    push_item_messages(&mut messages, history);
    assert(messages_view(messages@) =~= item_messages(items_view(history@), 0, None));
    if let Some(text) = system_text(req) {
        let present = messages.len() > 0 && same(messages[0].role.as_str(), "system");
        if present {
            let ghost before = messages@;
            assert(messages_view(before)[0] == before[0]@);
            let mut m = messages.remove(0);
            m.content = Some(join_content(m.content.take(), text.as_str()));
            messages.insert(0, m);
            assert(messages_view(messages@) =~= messages_view(before).update(0, m@));
        } else {
            let mut m = new_message("system");
            m.content = Some(Json::Str(text));
            let ghost before = messages@;
            messages.insert(0, m);
            assert(messages_view(messages@) =~= messages_view(before).insert(0, m@));
        }
    }
    let ghost head = messages_view(messages@);
    match &req.input {
        ResponsesInput::Text(text) => {
            let mut m = new_message("user");
            m.content = Some(Json::Str(text.clone()));
            let ghost before = messages@;
            messages.push(m);
            assert(messages_view(messages@) =~= head + seq![m@]);
        },
        ResponsesInput::Items(items) => {
            push_item_messages(&mut messages, items);
        },
    }
    messages
}

/// Convert a Responses request to a Chat Completions request, leaving out the
/// decode map of namespaced tools.
pub fn to_chat_request(
    req: &ResponsesRequest,
    history: &Vec<Json>,
    upstream_model: &str,
    glm_thinking_quirk_on: bool,
) -> (r: ChatRequest)
    ensures
        r@ == chat_request(req@, items_view(history@), upstream_model@, glm_thinking_quirk_on),
{
    to_chat_request_with_ns_map(req, history, upstream_model, glm_thinking_quirk_on).0
}

/// Convert a Responses request to a Chat Completions request; the map decodes
/// the names of namespaced tools in the answer.
pub fn to_chat_request_with_ns_map(
    req: &ResponsesRequest,
    history: &Vec<Json>,
    upstream_model: &str,
    glm_thinking_quirk_on: bool,
) -> (r: (ChatRequest, NamespaceToolMap))
    ensures
        r.0@ == chat_request(req@, items_view(history@), upstream_model@, glm_thinking_quirk_on),
        r.1@ == flat_tools(req@.tools, items_view(history@), req@.input.items()).names,
{
    let messages = convert_messages(req, history);
    let none: Vec<Json> = Vec::new();
    let input = match &req.input {
        ResponsesInput::Text(_) => &none,
        ResponsesInput::Items(items) => items,
    };
    let (flat, names) = normalize_chat_tools(&req.tools, history, input);
    let tools = convert_tools(&flat);
    let seed = match req.extra.get("seed") {
        Some(v) => v.as_u64(),
        None => None,
    };
    let reasoning_effort = match &req.reasoning {
        Some(r) => opt_field(r, "effort"),
        None => None,
    };
    let thinking = if glm_thinking_quirk_on && is_glm_like_model(upstream_model) {
        Some(ChatThinking::enabled())
    } else {
        None
    };
    let stream_options = if req.stream {
        Some(StreamOptions { include_usage: true })
    } else {
        None
    };
    (
        ChatRequest {
            model: upstream_model.to_owned(),
            messages,
            tools,
            tool_choice: opt_value(&req.extra, "tool_choice"),
            temperature: dup_opt_number(&req.temperature),
            max_tokens: req.max_output_tokens,
            top_p: dup_opt_number(&req.top_p),
            stop: opt_value(&req.extra, "stop"),
            presence_penalty: number_field(&req.extra, "presence_penalty"),
            frequency_penalty: number_field(&req.extra, "frequency_penalty"),
            seed,
            user: opt_field(&req.extra, "user"),
            reasoning_effort,
            thinking,
            stream_options,
            stream: req.stream,
        },
        names,
    )
}

/// The further fields of a request that the conversion reads.
pub open spec fn is_mapped_field(k: Seq<char>) -> bool {
    ||| k == "tool_choice"@
    ||| k == "stop"@
    ||| k == "presence_penalty"@
    ||| k == "frequency_penalty"@
    ||| k == "seed"@
    ||| k == "user"@
}

/// A field that has no counterpart in Chat Completions is dropped: whatever it
/// holds, the converted request is the same.
pub proof fn unmapped_fields_are_dropped(
    req: RequestV,
    history: Seq<JsonV>,
    model: Seq<char>,
    glm_thinking: bool,
    k: Seq<char>,
    v: JsonV,
)
    requires
        req.extra is Obj,
        !is_mapped_field(k),
    ensures
        chat_request(
            RequestV { extra: req.extra.set(k, v), ..req },
            history,
            model,
            glm_thinking,
        ) == chat_request(req, history, model, glm_thinking),
{
}

/// A system text leads the conversation, behind the system text that led it
/// before, if one did: there is one system message in front, it holds both
/// texts, and all other messages stay.
pub proof fn system_text_leads(messages: Seq<ChatMessageV>, text: Seq<char>)
    ensures
        ({
            let r = with_system(messages, Some(text));
            let led = messages.len() > 0 && messages[0].role == "system"@;
            &&& r.len() > 0 && r[0].role == "system"@
            &&& led ==> r.skip(1) == messages.skip(1)
            &&& !led ==> r.skip(1) == messages && r[0].text() == text
            &&& led && messages[0].content is None ==> r[0].text() == text
            &&& led && messages[0].content is Some && messages[0].content->0 is Str ==> r[0].text()
                == messages[0].text() + system_gap() + text
        }),
{
    let r = with_system(messages, Some(text));
    if messages.len() > 0 && messages[0].role == "system"@ {
        assert(r.skip(1) =~= messages.skip(1));
    } else {
        assert(r.skip(1) =~= messages);
    }
}

} // verus!
