//! The live probe of the doctor: what its mock upstream answers, and what is
//! asserted of the requests that reach it.
//!
//! The mock streams one tool call on the first turn, made for a tool that the
//! request itself offers, and a closing text on later turns. The tool call
//! carries a command that touches a sentinel file.
use crate::catalog::{build_catalog_entry, opt_view, pinned, seed_of};
use crate::doctor::{checks_view, fail_v, has_fail, pass_v, Check, CheckStatus, CheckV};
use crate::json::{items_view, json_text, lemma_items_push, lemma_items_view, Json, JsonV};
use crate::normalize::{is_known_item_type, known_type};
use crate::sse::block_text;
use crate::text::{decimal, join, joined, same, slice_string, to_chars, to_decimal, views};
use vstd::prelude::*;

verus! {

/// The value made up for a required property: 1 for a number, false for a
/// boolean, the first value of an enumeration, and else the command.
pub open spec fn made_up(property: JsonV, command: Seq<char>) -> JsonV {
    let kind = property.get_str("type"@);
    if kind == Some("number"@) || kind == Some("integer"@) {
        JsonV::uint(1)
    } else if kind == Some("boolean"@) {
        JsonV::Bool(false)
    } else {
        match property.get_arr("enum"@) {
            Some(values) => if values.len() > 0 {
                values[0]
            } else {
                JsonV::Str(command)
            },
            None => JsonV::Str(command),
        }
    }
}

/// Arguments for the first `n` required properties; none where one is no
/// string or is not described.
pub open spec fn arguments_for(
    required: Seq<JsonV>,
    properties: JsonV,
    command: Seq<char>,
    n: int,
) -> Option<JsonV>
    decreases n,
{
    if n <= 0 {
        Some(JsonV::object())
    } else {
        match arguments_for(required, properties, command, n - 1) {
            None => None,
            Some(args) => match required[n - 1].as_str() {
                None => None,
                Some(key) => match properties.get(key) {
                    None => None,
                    Some(p) => Some(args.set(key, made_up(p, command))),
                },
            },
        }
    }
}

/// Arguments for the required properties of a schema; none where it requires
/// none, so that nothing could carry the command.
pub open spec fn synthesized(schema: JsonV, command: Seq<char>) -> Option<JsonV> {
    match (schema.get_arr("required"@), schema.get("properties"@)) {
        (Some(required), Some(properties)) => if properties is Obj && required.len() > 0 {
            arguments_for(required, properties, command, required.len() as int)
        } else {
            None
        },
        _ => None,
    }
}

/// The function that a tool describes: nested under `function`, or the tool
/// itself.
pub open spec fn function_of(tool: JsonV) -> JsonV {
    match tool.get("function"@) {
        Some(f) => f,
        None => tool,
    }
}

/// The call that a tool can carry: its name and the arguments as JSON text.
pub open spec fn call_of(tool: JsonV, command: Seq<char>) -> Option<(Seq<char>, Seq<char>)> {
    let f = function_of(tool);
    let schema = match f.get("parameters"@) {
        Some(p) => p,
        None => JsonV::object(),
    };
    match (f.get_str("name"@), synthesized(schema, command)) {
        (Some(name), Some(args)) => if tool.get_str("type"@) == Some("function"@) {
            Some((name, json_text(args)))
        } else {
            None
        },
        _ => None,
    }
}

/// The call for the first tool that can carry one, from position `i` on.
pub open spec fn picked(tools: Seq<JsonV>, command: Seq<char>, i: int) -> Option<
    (Seq<char>, Seq<char>),
>
    decreases tools.len() - i,
{
    if i < 0 || i >= tools.len() {
        None
    } else {
        match call_of(tools[i], command) {
            Some(c) => Some(c),
            None => picked(tools, command, i + 1),
        }
    }
}

/// What an optional call denotes.
pub open spec fn call_view(c: Option<(String, String)>) -> Option<(Seq<char>, Seq<char>)> {
    match c {
        Some((n, a)) => Some((n@, a@)),
        None => None,
    }
}

/// What an optional JSON value denotes.
pub open spec fn opt_value(j: Option<Json>) -> Option<JsonV> {
    match j {
        Some(x) => Some(x@),
        None => None,
    }
}

fn make_up(property: &Json, command: &str) -> (r: Json)
    ensures
        r@ == made_up(property@, command@),
{
    if property.field_is("type", "number") || property.field_is("type", "integer") {
        return Json::uint(1);
    }
    if property.field_is("type", "boolean") {
        return Json::Bool(false);
    }
    if let Some(values) = property.get_array("enum") {
        proof {
            lemma_items_view(values@);
        }
        if values.len() > 0 {
            assert(items_view(values@)[0] == values@[0]@);
            return values[0].dup();
        }
    }
    Json::str(command)
}

fn synth_args(schema: &Json, command: &str) -> (r: Option<Json>)
    ensures
        opt_value(r) == synthesized(schema@, command@),
{
    let required = match schema.get_array("required") {
        Some(a) => a,
        None => {
            return None;
        },
    };
    let properties = match schema.get("properties") {
        Some(p) => p,
        None => {
            return None;
        },
    };
    let described = match properties {
        Json::Obj(_) => true,
        _ => false,
    };
    proof {
        lemma_items_view(required@);
    }
    if !described || required.len() == 0 {
        return None;
    }
    let ghost all = items_view(required@);
    let mut args = Json::object();
    let mut i: usize = 0;
    while i < required.len()
        invariant
            i <= required@.len(),
            all == items_view(required@),
            all.len() == required@.len(),
            forall|k: int| 0 <= k < all.len() ==> #[trigger] all[k] == required@[k]@,
            schema@.get_arr("required"@) == Some(all),
            schema@.get("properties"@) == Some(properties@),
            arguments_for(all, properties@, command@, i as int) == Some(args@),
        decreases required@.len() - i,
    {
        assert(all[i as int] == required@[i as int]@);
        let key = match required[i].as_str() {
            Some(k) => k,
            None => {
                proof {
                    lemma_arguments_stop(all, properties@, command@, i + 1, all.len() as int);
                }
                return None;
            },
        };
        let property = match properties.get(key) {
            Some(p) => p,
            None => {
                proof {
                    lemma_arguments_stop(all, properties@, command@, i + 1, all.len() as int);
                }
                return None;
            },
        };
        args = args.set(key, make_up(property, command));
        i = i + 1;
    }
    Some(args)
}

proof fn lemma_arguments_stop(
    required: Seq<JsonV>,
    properties: JsonV,
    command: Seq<char>,
    n: int,
    m: int,
)
    requires
        0 <= n <= m,
        arguments_for(required, properties, command, n) is None,
    ensures
        arguments_for(required, properties, command, m) is None,
    decreases m - n,
{
    if n < m {
        lemma_arguments_stop(required, properties, command, n, m - 1);
    }
}

fn make_call(tool: &Json, command: &str) -> (r: Option<(String, String)>)
    ensures
        call_view(r) == call_of(tool@, command@),
{
    if !tool.field_is("type", "function") {
        return None;
    }
    let f = match tool.get("function") {
        Some(f) => f,
        None => tool,
    };
    let name = match f.get_str("name") {
        Some(n) => n.to_owned(),
        None => {
            return None;
        },
    };
    let args = match f.get("parameters") {
        Some(p) => synth_args(p, command),
        None => synth_args(&Json::object(), command),
    };
    match args {
        Some(a) => Some((name, a.to_text())),
        None => None,
    }
}

/// The call for the first function tool whose schema can carry the sentinel
/// command: its name, and arguments for the required properties.
pub fn pick_tool(tools: &Vec<Json>, sentinel_cmd: &str) -> (r: Option<(String, String)>)
    ensures
        call_view(r) == picked(items_view(tools@), sentinel_cmd@, 0),
{
    let ghost all = items_view(tools@);
    proof {
        lemma_items_view(tools@);
    }
    let mut i: usize = 0;
    while i < tools.len()
        invariant
            i <= tools@.len(),
            all == items_view(tools@),
            all.len() == tools@.len(),
            forall|k: int| 0 <= k < all.len() ==> #[trigger] all[k] == tools@[k]@,
            picked(all, sentinel_cmd@, 0) == picked(all, sentinel_cmd@, i as int),
        decreases tools@.len() - i,
    {
        assert(all[i as int] == tools@[i as int]@);
        let call = make_call(&tools[i], sentinel_cmd);
        if call.is_some() {
            return call;
        }
        i = i + 1;
    }
    None
}

/// An event block as text.
fn push_event(out: &mut String, event: &str, payload: &Json)
    ensures
        final(out)@ == old(out)@ + block_text(event@, payload@),
{
    let ghost before = out@;
    out.append("event: ");
    out.append(event);
    out.append("\ndata: ");
    out.append(payload.to_text().as_str());
    out.append("\n\n");
    assert(out@ =~= before + block_text(event@, payload@));
}

/// A response of the mock upstream.
pub open spec fn response_v(status: Seq<char>) -> JsonV {
    JsonV::object().set("id"@, JsonV::Str("resp_doctor_1"@)).set("status"@, JsonV::Str(status)).set(
        "model"@,
        JsonV::Str("doctor-upstream"@),
    )
}

/// The token counts of the mock upstream, in the Responses format.
pub open spec fn usage_v() -> JsonV {
    JsonV::object().set("input_tokens"@, JsonV::uint(1)).set("output_tokens"@, JsonV::uint(1)).set(
        "total_tokens"@,
        JsonV::uint(2),
    )
}

/// The event that opens a response.
pub open spec fn created_v() -> JsonV {
    JsonV::object().set("type"@, JsonV::Str("response.created"@)).set(
        "response"@,
        response_v("in_progress"@),
    )
}

/// An event about the first output item.
pub open spec fn item_event_v(event: Seq<char>, item: JsonV) -> JsonV {
    JsonV::object().set("type"@, JsonV::Str(event)).set("output_index"@, JsonV::uint(0)).set(
        "item"@,
        item,
    )
}

/// A piece of the first output item.
pub open spec fn delta_v(event: Seq<char>, id: Seq<char>, delta: Seq<char>) -> JsonV {
    JsonV::object().set("type"@, JsonV::Str(event)).set("item_id"@, JsonV::Str(id)).set(
        "output_index"@,
        JsonV::uint(0),
    ).set("delta"@, JsonV::Str(delta))
}

/// The event that closes a response of one item.
pub open spec fn completed_v(item: JsonV) -> JsonV {
    JsonV::object().set("type"@, JsonV::Str("response.completed"@)).set(
        "response"@,
        response_v("completed"@).set("output"@, JsonV::one(item)).set("usage"@, usage_v()),
    )
}

/// A response of one item: opened, announced, streamed in one piece, done and
/// closed.
pub open spec fn response_stream(
    announced: JsonV,
    delta_event: Seq<char>,
    id: Seq<char>,
    delta: Seq<char>,
    item: JsonV,
) -> Seq<char> {
    block_text("response.created"@, created_v()) + block_text(
        "response.output_item.added"@,
        item_event_v("response.output_item.added"@, announced),
    ) + block_text(delta_event, delta_v(delta_event, id, delta)) + block_text(
        "response.output_item.done"@,
        item_event_v("response.output_item.done"@, item),
    ) + block_text("response.completed"@, completed_v(item))
}

/// The function call of the mock upstream.
pub open spec fn call_item_v(name: Seq<char>, args: Seq<char>, status: Seq<char>) -> JsonV {
    JsonV::object().set("type"@, JsonV::Str("function_call"@)).set(
        "id"@,
        JsonV::Str("fc_doctor_1"@),
    ).set("call_id"@, JsonV::Str("call_doctor_1"@)).set("name"@, JsonV::Str(name)).set(
        "arguments"@,
        JsonV::Str(args),
    ).set("status"@, JsonV::Str(status))
}

/// The message of the mock upstream.
pub open spec fn message_item_v(content: Seq<JsonV>, status: Seq<char>) -> JsonV {
    JsonV::object().set("type"@, JsonV::Str("message"@)).set("id"@, JsonV::Str("msg_doctor_1"@)).set(
        "role"@,
        JsonV::Str("assistant"@),
    ).set("status"@, JsonV::Str(status)).set("content"@, JsonV::Arr(content))
}

/// A piece of visible text.
pub open spec fn output_text_v(text: Seq<char>) -> JsonV {
    JsonV::object().set("type"@, JsonV::Str("output_text"@)).set("text"@, JsonV::Str(text))
}

/// A Responses stream of one function call.
pub open spec fn call_stream(name: Seq<char>, args: Seq<char>) -> Seq<char> {
    response_stream(
        call_item_v(name, Seq::empty(), "in_progress"@),
        "response.function_call_arguments.delta"@,
        "fc_doctor_1"@,
        args,
        call_item_v(name, args, "completed"@),
    )
}

/// A Responses stream of one message.
pub open spec fn text_stream(text: Seq<char>) -> Seq<char> {
    response_stream(
        message_item_v(Seq::empty(), "in_progress"@),
        "response.output_text.delta"@,
        "msg_doctor_1"@,
        text,
        message_item_v(seq![output_text_v(text)], "completed"@),
    )
}

fn response_json(status: &str) -> (r: Json)
    ensures
        r@ == response_v(status@),
{
    Json::object().set("id", Json::str("resp_doctor_1")).set("status", Json::str(status)).set(
        "model",
        Json::str("doctor-upstream"),
    )
}

fn item_event(event: &str, item: Json) -> (r: Json)
    ensures
        r@ == item_event_v(event@, item@),
{
    Json::object().set("type", Json::str(event)).set("output_index", Json::uint(0)).set(
        "item",
        item,
    )
}

fn stream_response(
    announced: Json,
    delta_event: &str,
    id: &str,
    delta: &str,
    item: Json,
) -> (r: String)
    ensures
        r@ == response_stream(announced@, delta_event@, id@, delta@, item@),
{
    let mut out = String::new();
    let created = Json::object().set("type", Json::str("response.created")).set(
        "response",
        response_json("in_progress"),
    );
    push_event(&mut out, "response.created", &created);
    assert(out@ =~= block_text("response.created"@, created_v()));
    push_event(
        &mut out,
        "response.output_item.added",
        &item_event("response.output_item.added", announced),
    );
    let piece = Json::object().set("type", Json::str(delta_event)).set("item_id", Json::str(id)).set(
        "output_index",
        Json::uint(0),
    ).set("delta", Json::str(delta));
    push_event(&mut out, delta_event, &piece);
    push_event(
        &mut out,
        "response.output_item.done",
        &item_event("response.output_item.done", item.dup()),
    );
    let usage = Json::object().set("input_tokens", Json::uint(1)).set(
        "output_tokens",
        Json::uint(1),
    ).set("total_tokens", Json::uint(2));
    let completed = Json::object().set("type", Json::str("response.completed")).set(
        "response",
        response_json("completed").set("output", Json::one(item)).set("usage", usage),
    );
    push_event(&mut out, "response.completed", &completed);
    out
}

fn call_item(name: &str, args: &str, status: &str) -> (r: Json)
    ensures
        r@ == call_item_v(name@, args@, status@),
{
    Json::object().set("type", Json::str("function_call")).set("id", Json::str("fc_doctor_1")).set(
        "call_id",
        Json::str("call_doctor_1"),
    ).set("name", Json::str(name)).set("arguments", Json::str(args)).set(
        "status",
        Json::str(status),
    )
}

fn message_item(content: Vec<Json>, status: &str) -> (r: Json)
    ensures
        r@ == message_item_v(items_view(content@), status@),
{
    Json::object().set("type", Json::str("message")).set("id", Json::str("msg_doctor_1")).set(
        "role",
        Json::str("assistant"),
    ).set("status", Json::str(status)).set("content", Json::Arr(content))
}

/// A Responses stream of one complete function call.
pub fn responses_tool_call_sse(name: &str, args: &str) -> (r: String)
    ensures
        r@ == call_stream(name@, args@),
{
    proof {
        reveal_strlit("");
        assert(""@ =~= Seq::<char>::empty());
    }
    stream_response(
        call_item(name, "", "in_progress"),
        "response.function_call_arguments.delta",
        "fc_doctor_1",
        args,
        call_item(name, args, "completed"),
    )
}

/// A Responses stream of one message.
pub fn responses_text_sse(text: &str) -> (r: String)
    ensures
        r@ == text_stream(text@),
{
    let none: Vec<Json> = Vec::new();
    assert(items_view(none@) =~= Seq::<JsonV>::empty());
    let mut content: Vec<Json> = Vec::new();
    let part = Json::object().set("type", Json::str("output_text")).set("text", Json::str(text));
    proof {
        lemma_items_push(content@, part);
        assert(items_view(content@) =~= Seq::<JsonV>::empty());
    }
    content.push(part);
    assert(items_view(content@) =~= seq![output_text_v(text@)]);
    stream_response(
        message_item(none, "in_progress"),
        "response.output_text.delta",
        "msg_doctor_1",
        text,
        message_item(content, "completed"),
    )
}

/// A chunk of one choice.
pub open spec fn choice_v(delta: JsonV, finish: JsonV) -> JsonV {
    JsonV::object().set(
        "choices"@,
        JsonV::one(
            JsonV::object().set("index"@, JsonV::uint(0)).set("delta"@, delta).set(
                "finish_reason"@,
                finish,
            ),
        ),
    )
}

/// The chunk that closes a chat stream.
pub open spec fn closing_v(finish: Seq<char>) -> JsonV {
    choice_v(JsonV::object(), JsonV::Str(finish)).set(
        "usage"@,
        JsonV::object().set("prompt_tokens"@, JsonV::uint(1)).set(
            "completion_tokens"@,
            JsonV::uint(1),
        ).set("total_tokens"@, JsonV::uint(2)),
    )
}

/// A chat stream of two chunks and the end marker.
pub open spec fn chat_stream(first: JsonV, second: JsonV) -> Seq<char> {
    "data: "@ + json_text(first) + "\n\ndata: "@ + json_text(second) + "\n\ndata: [DONE]\n\n"@
}

/// The delta of one tool call.
pub open spec fn call_delta_v(name: Seq<char>, args: Seq<char>) -> JsonV {
    JsonV::object().set("role"@, JsonV::Str("assistant"@)).set(
        "tool_calls"@,
        JsonV::one(
            JsonV::object().set("index"@, JsonV::uint(0)).set(
                "id"@,
                JsonV::Str("call_doctor_1"@),
            ).set("type"@, JsonV::Str("function"@)).set(
                "function"@,
                JsonV::object().set("name"@, JsonV::Str(name)).set("arguments"@, JsonV::Str(args)),
            ),
        ),
    )
}

/// The delta of a text.
pub open spec fn text_delta_v(text: Seq<char>) -> JsonV {
    JsonV::object().set("role"@, JsonV::Str("assistant"@)).set("content"@, JsonV::Str(text))
}

fn choice(delta: Json, finish: Json) -> (r: Json)
    ensures
        r@ == choice_v(delta@, finish@),
{
    Json::object().set(
        "choices",
        Json::one(
            Json::object().set("index", Json::uint(0)).set("delta", delta).set(
                "finish_reason",
                finish,
            ),
        ),
    )
}

fn stream_chat(first: &Json, finish: &str) -> (r: String)
    ensures
        r@ == chat_stream(first@, closing_v(finish@)),
{
    let usage = Json::object().set("prompt_tokens", Json::uint(1)).set(
        "completion_tokens",
        Json::uint(1),
    ).set("total_tokens", Json::uint(2));
    let second = choice(Json::object(), Json::str(finish)).set("usage", usage);
    let mut out = "data: ".to_owned();
    out.append(first.to_text().as_str());
    out.append("\n\ndata: ");
    out.append(second.to_text().as_str());
    out.append("\n\ndata: [DONE]\n\n");
    out
}

/// A chat stream of one complete tool call.
pub fn chat_tool_call_sse(name: &str, args: &str) -> (r: String)
    ensures
        r@ == chat_stream(
            choice_v(call_delta_v(name@, args@), JsonV::Null),
            closing_v("tool_calls"@),
        ),
{
    let delta = Json::object().set("role", Json::str("assistant")).set(
        "tool_calls",
        Json::one(
            Json::object().set("index", Json::uint(0)).set("id", Json::str("call_doctor_1")).set(
                "type",
                Json::str("function"),
            ).set(
                "function",
                Json::object().set("name", Json::str(name)).set("arguments", Json::str(args)),
            ),
        ),
    );
    stream_chat(&choice(delta, Json::Null), "tool_calls")
}

/// A chat stream of one message.
pub fn chat_text_sse(text: &str) -> (r: String)
    ensures
        r@ == chat_stream(choice_v(text_delta_v(text@), JsonV::Null), closing_v("stop"@)),
{
    let delta = Json::object().set("role", Json::str("assistant")).set("content", Json::str(text));
    stream_chat(&choice(delta, Json::Null), "stop")
}

/// The tools of a request.
pub open spec fn tools_of(req: JsonV) -> Seq<JsonV> {
    match req.get_arr("tools"@) {
        Some(t) => t,
        None => Seq::empty(),
    }
}

/// What the mock upstream answers to the `round`-th Responses request.
pub open spec fn responses_answer(req: Option<JsonV>, round: int, command: Seq<char>) -> Seq<char> {
    match req {
        None => "event: response.failed\ndata: {}\n\n"@,
        Some(r) => if round == 1 {
            match picked(tools_of(r), command, 0) {
                Some((name, args)) => call_stream(name, args),
                None => "event: response.failed\ndata: {}\n\n"@,
            }
        } else {
            text_stream("doctor round-trip complete"@)
        },
    }
}

/// What the mock upstream answers to the `round`-th chat request.
pub open spec fn chat_answer(req: Option<JsonV>, round: int, command: Seq<char>) -> Seq<char> {
    let text = |t: Seq<char>| chat_stream(
        choice_v(text_delta_v(t), JsonV::Null),
        closing_v("stop"@),
    );
    match req {
        None => "data: [DONE]\n\n"@,
        Some(r) => if round == 1 {
            match picked(tools_of(r), command, 0) {
                Some((name, args)) => chat_stream(
                    choice_v(call_delta_v(name, args), JsonV::Null),
                    closing_v("tool_calls"@),
                ),
                None => text("no tools visible"@),
            }
        } else {
            text("doctor round-trip complete"@)
        },
    }
}

fn pick_from(req: &Json, command: &str) -> (r: Option<(String, String)>)
    ensures
        call_view(r) == picked(tools_of(req@), command@, 0),
{
    match req.get_array("tools") {
        Some(tools) => pick_tool(tools, command),
        None => None,
    }
}

/// What the mock upstream answers to the `round`-th Responses request; a
/// request that is no JSON is answered with a failure.
pub fn responses_reply(req: Option<&Json>, round: usize, sentinel_cmd: &str) -> (r: String)
    ensures
        r@ == responses_answer(opt_view(req), round as int, sentinel_cmd@),
{
    match req {
        None => "event: response.failed\ndata: {}\n\n".to_owned(),
        Some(req) => if round == 1 {
            match pick_from(req, sentinel_cmd) {
                Some((name, args)) => responses_tool_call_sse(name.as_str(), args.as_str()),
                None => "event: response.failed\ndata: {}\n\n".to_owned(),
            }
        } else {
            responses_text_sse("doctor round-trip complete")
        },
    }
}

/// What the mock upstream answers to the `round`-th chat request; a request
/// that is no JSON is answered with the end marker alone.
pub fn chat_reply(req: Option<&Json>, round: usize, sentinel_cmd: &str) -> (r: String)
    ensures
        r@ == chat_answer(opt_view(req), round as int, sentinel_cmd@),
{
    match req {
        None => "data: [DONE]\n\n".to_owned(),
        Some(req) => if round == 1 {
            match pick_from(req, sentinel_cmd) {
                Some((name, args)) => chat_tool_call_sse(name.as_str(), args.as_str()),
                None => chat_text_sse("no tools visible"),
            }
        } else {
            chat_text_sse("doctor round-trip complete")
        },
    }
}

/// The string fields `k` of a list of objects, of the first `n`.
pub open spec fn field_texts(items: Seq<JsonV>, k: Seq<char>, n: int) -> Seq<Seq<char>>
    decreases n,
{
    if n <= 0 {
        Seq::empty()
    } else {
        match items[n - 1].get_str(k) {
            Some(t) => field_texts(items, k, n - 1).push(t),
            None => field_texts(items, k, n - 1),
        }
    }
}

/// What a request consists of: the types of its input items, or the roles of
/// its messages.
pub open spec fn kinds_of(req: JsonV) -> Seq<Seq<char>> {
    match (req.get_arr("input"@), req.get_arr("messages"@)) {
        (Some(input), _) => field_texts(input, "type"@, input.len() as int),
        (None, Some(messages)) => field_texts(messages, "role"@, messages.len() as int),
        (None, None) => Seq::empty(),
    }
}

/// A request in one line.
pub open spec fn summary_of(req: JsonV) -> Seq<char> {
    "tools: "@ + decimal(tools_of(req).len()) + ", item types: ["@ + joined(kinds_of(req), ", "@)
        + "], model: "@ + match req.get_str("model"@) {
        Some(m) => m,
        None => "?"@,
    }
}

fn collect_texts(items: &Vec<Json>, k: &str) -> (r: Vec<String>)
    ensures
        views(r@) == field_texts(items_view(items@), k@, items@.len() as int),
{
    let ghost all = items_view(items@);
    proof {
        lemma_items_view(items@);
    }
    let mut out: Vec<String> = Vec::new();
    let mut i: usize = 0;
    assert(views(out@) =~= Seq::<Seq<char>>::empty());
    while i < items.len()
        invariant
            i <= items@.len(),
            all == items_view(items@),
            all.len() == items@.len(),
            forall|j: int| 0 <= j < all.len() ==> #[trigger] all[j] == items@[j]@,
            views(out@) == field_texts(all, k@, i as int),
        decreases items@.len() - i,
    {
        assert(all[i as int] == items@[i as int]@);
        if let Some(t) = items[i].get_str(k) {
            let ghost before = out@;
            let text = t.to_owned();
            out.push(text);
            assert(views(out@) =~= views(before).push(text@));
        }
        i = i + 1;
    }
    out
}

/// A request in one line: its tools, what it consists of, and its model.
pub fn request_summary(req: &Json) -> (r: String)
    ensures
        r@ == summary_of(req@),
{
    let mut n: u64 = 0;
    if let Some(tools) = req.get_array("tools") {
        proof {
            lemma_items_view(tools@);
        }
        n = tools.len() as u64;
    }
    let mut kinds: Vec<String> = Vec::new();
    if let Some(input) = req.get_array("input") {
        proof {
            lemma_items_view(input@);
        }
        kinds = collect_texts(input, "type");
    } else if let Some(messages) = req.get_array("messages") {
        proof {
            lemma_items_view(messages@);
        }
        kinds = collect_texts(messages, "role");
    } else {
        assert(views(kinds@) =~= Seq::<Seq<char>>::empty());
    }
    let mut out = "tools: ".to_owned();
    out.append(to_decimal(n).as_str());
    out.append(", item types: [");
    out.append(join(&kinds, ", ").as_str());
    out.append("], model: ");
    match req.get_str("model") {
        Some(m) => {
            out.append(m);
        },
        None => {
            out.append("?");
        },
    }
    out
}

/// Whether a tool is one in the shape of an endpoint's format.
pub open spec fn is_tool(tool: JsonV, responses: bool) -> bool {
    if responses {
        tool.get_str("type"@) == Some("function"@)
    } else {
        tool.get("function"@) is Some
    }
}

/// Whether a request offers a tool in the shape of the endpoint's format.
pub open spec fn offers_tool(req: JsonV, responses: bool) -> bool {
    exists|i: int| 0 <= i < tools_of(req).len() && is_tool(#[trigger] tools_of(req)[i], responses)
}

/// The input items of a request.
pub open spec fn input_of(req: JsonV) -> Seq<JsonV> {
    match req.get_arr("input"@) {
        Some(i) => i,
        None => Seq::empty(),
    }
}

/// Whether a request has an `additional_tools` item.
pub open spec fn has_additional(req: JsonV) -> bool {
    exists|i: int|
        0 <= i < input_of(req).len() && (#[trigger] input_of(req)[i]).get_str("type"@) == Some(
            "additional_tools"@,
        )
}

/// The types of the first `n` input items that are not known.
pub open spec fn unknown_types(input: Seq<JsonV>, n: int) -> Seq<Seq<char>>
    decreases n,
{
    if n <= 0 {
        Seq::empty()
    } else {
        match input[n - 1].get_str("type"@) {
            Some(t) => if known_type(t) {
                unknown_types(input, n - 1)
            } else {
                unknown_types(input, n - 1).push(t)
            },
            None => unknown_types(input, n - 1),
        }
    }
}

/// A check that passes or fails with a detail.
pub open spec fn verdict(ok: bool, name: Seq<char>, good: Seq<char>, bad: Seq<char>) -> CheckV {
    if ok {
        pass_v(name, good)
    } else {
        fail_v(name, bad)
    }
}

/// The checks of the input items of a Responses request.
pub open spec fn item_checks(endpoint: Seq<char>, req: JsonV) -> Seq<CheckV> {
    let unknown = unknown_types(input_of(req), input_of(req).len() as int);
    seq![
        verdict(
            !has_additional(req),
            endpoint + ": no additional_tools input items"@,
            Seq::empty(),
            "additional_tools item leaked through the router"@,
        ),
        verdict(
            unknown.len() == 0,
            endpoint + ": input item types known"@,
            Seq::empty(),
            "unknown item type(s): "@ + joined(unknown, ", "@) + " — review before allowing"@,
        ),
    ]
}

/// The checks of the requests that reached an endpoint of the mock upstream:
/// there is one; it offers tools in the endpoint's format; its items are known
/// and no dialect; its model is the upstream's.
pub open spec fn shape_report(
    requests: Seq<JsonV>,
    endpoint: Seq<char>,
    model: Seq<char>,
) -> Seq<CheckV> {
    let responses = endpoint == "responses"@;
    let label = if responses {
        "top-level tools"@
    } else {
        "chat function tools"@
    };
    if requests.len() == 0 {
        seq![
            fail_v(
                endpoint + ": upstream received a request"@,
                "mock upstream recorded nothing"@,
            ),
        ]
    } else {
        let req = requests[0];
        seq![
            pass_v(
                endpoint + ": upstream received a request"@,
                decimal(requests.len()) + " round(s) recorded"@,
            ),
            verdict(
                offers_tool(req, responses),
                endpoint + ": "@ + label + " non-empty"@,
                "at least one function tool"@,
                "no function tools reached the upstream — dialect delivery not normalized ("@
                    + summary_of(req) + ")"@,
            ),
        ] + (if responses {
            item_checks(endpoint, req)
        } else {
            Seq::empty()
        }) + seq![
            verdict(
                req.get_str("model"@) == Some(model),
                endpoint + ": model rewritten"@,
                Seq::empty(),
                "expected "@ + model + ", got "@ + json_text(
                    match req.get("model"@) {
                        Some(m) => m,
                        None => JsonV::Str("null"@),
                    },
                ),
            ),
        ]
    }
}

fn judge(ok: bool, endpoint: &str, what: &str, good: &str, bad: &str) -> (r: Check)
    ensures
        r@ == verdict(ok, endpoint@ + what@, good@, bad@),
{
    let mut name = endpoint.to_owned();
    name.append(what);
    if ok {
        Check::pass(name.as_str(), good)
    } else {
        Check::fail(name.as_str(), bad)
    }
}

fn find_tool(req: &Json, responses: bool) -> (r: bool)
    ensures
        r == offers_tool(req@, responses),
{
    let ghost all = tools_of(req@);
    if let Some(tools) = req.get_array("tools") {
        proof {
            lemma_items_view(tools@);
        }
        let mut i: usize = 0;
        while i < tools.len()
            invariant
                i <= tools@.len(),
                all == items_view(tools@),
                all == tools_of(req@),
                all.len() == tools@.len(),
                forall|j: int| 0 <= j < all.len() ==> #[trigger] all[j] == tools@[j]@,
                forall|j: int| 0 <= j < i ==> !is_tool(#[trigger] all[j], responses),
            decreases tools@.len() - i,
        {
            assert(all[i as int] == tools@[i as int]@);
            let found = if responses {
                tools[i].field_is("type", "function")
            } else {
                tools[i].get("function").is_some()
            };
            if found {
                assert(is_tool(tools_of(req@)[i as int], responses));
                return true;
            }
            i = i + 1;
        }
    }
    false
}

fn find_additional(req: &Json) -> (r: bool)
    ensures
        r == has_additional(req@),
{
    let ghost all = input_of(req@);
    if let Some(input) = req.get_array("input") {
        proof {
            lemma_items_view(input@);
        }
        let mut i: usize = 0;
        while i < input.len()
            invariant
                i <= input@.len(),
                all == items_view(input@),
                all == input_of(req@),
                all.len() == input@.len(),
                forall|j: int| 0 <= j < all.len() ==> #[trigger] all[j] == input@[j]@,
                forall|j: int|
                    0 <= j < i ==> (#[trigger] all[j]).get_str("type"@) != Some(
                        "additional_tools"@,
                    ),
            decreases input@.len() - i,
        {
            assert(all[i as int] == input@[i as int]@);
            if input[i].field_is("type", "additional_tools") {
                assert(input_of(req@)[i as int].get_str("type"@) == Some("additional_tools"@));
                return true;
            }
            i = i + 1;
        }
    }
    false
}

fn find_unknown(req: &Json) -> (r: Vec<String>)
    ensures
        views(r@) == unknown_types(input_of(req@), input_of(req@).len() as int),
{
    let ghost all = input_of(req@);
    let mut out: Vec<String> = Vec::new();
    assert(views(out@) =~= Seq::<Seq<char>>::empty());
    if let Some(input) = req.get_array("input") {
        proof {
            lemma_items_view(input@);
        }
        let mut i: usize = 0;
        while i < input.len()
            invariant
                i <= input@.len(),
                all == items_view(input@),
                all.len() == input@.len(),
                forall|j: int| 0 <= j < all.len() ==> #[trigger] all[j] == input@[j]@,
                views(out@) == unknown_types(all, i as int),
            decreases input@.len() - i,
        {
            assert(all[i as int] == input@[i as int]@);
            if let Some(t) = input[i].get_str("type") {
                if !is_known_item_type(t) {
                    let ghost before = out@;
                    let text = t.to_owned();
                    out.push(text);
                    assert(views(out@) =~= views(before).push(text@));
                }
            }
            i = i + 1;
        }
    }
    out
}

/// Checks the requests that reached an endpoint of the mock upstream.
pub fn shape_checks(requests: &Vec<Json>, endpoint: &str, upstream_model: &str) -> (r: Vec<Check>)
    ensures
        checks_view(r@) == shape_report(items_view(requests@), endpoint@, upstream_model@),
{
    let ghost all = items_view(requests@);
    proof {
        lemma_items_view(requests@);
        reveal_strlit("");
        assert(""@ =~= Seq::<char>::empty());
    }
    let responses = same(endpoint, "responses");
    let mut checks: Vec<Check> = Vec::new();
    if requests.len() == 0 {
        checks.push(
            judge(
                false,
                endpoint,
                ": upstream received a request",
                "",
                "mock upstream recorded nothing",
            ),
        );
        assert(checks_view(checks@) =~= shape_report(all, endpoint@, upstream_model@));
        return checks;
    }
    let req = &requests[0];
    assert(all[0] == req@);
    let mut rounds = to_decimal(requests.len() as u64);
    rounds.append(" round(s) recorded");
    checks.push(judge(true, endpoint, ": upstream received a request", rounds.as_str(), ""));
    let mut leak =
        "no function tools reached the upstream — dialect delivery not normalized (".to_owned();
    leak.append(request_summary(req).as_str());
    leak.append(")");
    let mut what = ": ".to_owned();
    what.append(
        if responses {
            "top-level tools"
        } else {
            "chat function tools"
        },
    );
    what.append(" non-empty");
    let tools_check = judge(
        find_tool(req, responses),
        endpoint,
        what.as_str(),
        "at least one function tool",
        leak.as_str(),
    );
    proof {
        let label = if responses {
            "top-level tools"@
        } else {
            "chat function tools"@
        };
        assert(endpoint@ + what@ =~= endpoint@ + ": "@ + label + " non-empty"@);
    }
    checks.push(tools_check);
    let ghost head = checks_view(checks@);
    if responses {
        checks.push(
            judge(
                !find_additional(req),
                endpoint,
                ": no additional_tools input items",
                "",
                "additional_tools item leaked through the router",
            ),
        );
        let unknown = find_unknown(req);
        assert(views(unknown@).len() == unknown@.len());
        let mut bad = "unknown item type(s): ".to_owned();
        bad.append(join(&unknown, ", ").as_str());
        bad.append(" — review before allowing");
        checks.push(
            judge(
                unknown.len() == 0,
                endpoint,
                ": input item types known",
                "",
                bad.as_str(),
            ),
        );
        assert(checks_view(checks@) =~= head + item_checks(endpoint@, req@));
    } else {
        assert(checks_view(checks@) =~= head + Seq::<CheckV>::empty());
    }
    let mut wrong = "expected ".to_owned();
    wrong.append(upstream_model);
    wrong.append(", got ");
    match req.get("model") {
        Some(m) => {
            wrong.append(m.to_text().as_str());
        },
        None => {
            wrong.append(Json::str("null").to_text().as_str());
        },
    }
    checks.push(
        judge(
            req.field_is("model", upstream_model),
            endpoint,
            ": model rewritten",
            "",
            wrong.as_str(),
        ),
    );
    assert(checks_view(checks@) =~= shape_report(all, endpoint@, upstream_model@));
    checks
}

/// The check that the sentinel file was touched.
pub open spec fn sentinel_report(path: Seq<char>, exists: bool) -> CheckV {
    verdict(
        exists,
        "tool round-trip executed"@,
        path,
        "sentinel "@ + path + " missing — codex did not execute the tool call"@,
    )
}

/// Checks that the sentinel file was touched.
pub fn sentinel_check(path: &str, touched: bool) -> (r: Check)
    ensures
        r@ == sentinel_report(path@, touched),
{
    if touched {
        Check::pass("tool round-trip executed", path)
    } else {
        let mut detail = "sentinel ".to_owned();
        detail.append(path);
        detail.append(" missing — codex did not execute the tool call");
        Check::fail("tool round-trip executed", detail.as_str())
    }
}

/// How a run of Codex ended.
#[derive(Debug, Clone)]
pub struct ProbeOutcome {
    pub success: bool,
    pub stderr_tail: String,
}

/// Checks that Codex exited cleanly.
pub fn exit_check(outcome: &ProbeOutcome) -> (r: Check)
    ensures
        r@ == verdict(
            outcome.success,
            "codex exited cleanly"@,
            Seq::empty(),
            outcome.stderr_tail@,
        ),
{
    proof {
        reveal_strlit("");
        assert(""@ =~= Seq::<char>::empty());
    }
    if outcome.success {
        Check::pass("codex exited cleanly", "")
    } else {
        Check::fail("codex exited cleanly", outcome.stderr_tail.as_str())
    }
}

/// The last `n` characters of a text.
pub fn tail(s: &str, n: usize) -> (r: String)
    ensures
        r@ == (if s@.len() <= n {
            s@
        } else {
            s@.skip(s@.len() - n)
        }),
{
    let chars = to_chars(s);
    let from: usize = if chars.len() <= n {
        0
    } else {
        chars.len() - n
    };
    proof {
        assert(chars@.subrange(from as int, chars@.len() as int) =~= s@.skip(from as int));
        assert(s@.skip(0) =~= s@);
    }
    slice_string(&chars, from, chars.len())
}

/// The catalog of the probe: one entry for each of its routes.
pub open spec fn probe_catalog_v() -> JsonV {
    JsonV::object().set(
        "models"@,
        JsonV::Arr(
            seq![
                pinned(seed_of(None), "doctor/resp"@, "responses"@, 131072, Some("low"@), None),
                pinned(seed_of(None), "doctorchat/chat"@, "chat"@, 131072, Some("low"@), None),
            ],
        ),
    )
}

/// The catalog of the probe.
pub fn probe_catalog() -> (r: Json)
    ensures
        r@ == probe_catalog_v(),
{
    let first = build_catalog_entry("doctor/resp", "responses", 131072, Some("low"));
    let second = build_catalog_entry("doctorchat/chat", "chat", 131072, Some("low"));
    let mut models: Vec<Json> = Vec::new();
    proof {
        assert(items_view(models@) =~= Seq::<JsonV>::empty());
        lemma_items_push(models@, first);
        lemma_items_push(models@.push(first), second);
    }
    models.push(first);
    models.push(second);
    assert(items_view(models@) =~= seq![first@, second@]);
    Json::object().set("models", Json::Arr(models))
}

/// The router's configuration for the probe: two providers at the mock
/// upstream, one of each format, and a route for each.
pub open spec fn probe_config_v(router_port: u16, mock_port: u16) -> Seq<char> {
    "\n[server]\nhost = \"127.0.0.1\"\nport = "@ + decimal(router_port as nat)
        + "\n\n[providers.doctor]\nbase_url = \"http://127.0.0.1:"@ + decimal(mock_port as nat)
        + "/v1\"\napi_key = \"test-key\"\nformat = \"responses\"\ntimeout_ms = 60000\n\n[providers.doctorchat]\nbase_url = \"http://127.0.0.1:"@
        + decimal(mock_port as nat)
        + "/v1\"\napi_key = \"test-key\"\nformat = \"chat\"\ntimeout_ms = 60000\n\n[routes]\n\"doctor/resp\" = { model = \"doctor-upstream\" }\n\"doctorchat/chat\" = { model = \"doctor-upstream\" }\n"@
}

/// The router's configuration for the probe.
pub fn probe_config(router_port: u16, mock_port: u16) -> (r: String)
    ensures
        r@ == probe_config_v(router_port, mock_port),
{
    let mut out = "\n[server]\nhost = \"127.0.0.1\"\nport = ".to_owned();
    out.append(to_decimal(router_port as u64).as_str());
    out.append("\n\n[providers.doctor]\nbase_url = \"http://127.0.0.1:");
    out.append(to_decimal(mock_port as u64).as_str());
    out.append(
        "/v1\"\napi_key = \"test-key\"\nformat = \"responses\"\ntimeout_ms = 60000\n\n[providers.doctorchat]\nbase_url = \"http://127.0.0.1:",
    );
    out.append(to_decimal(mock_port as u64).as_str());
    out.append(
        "/v1\"\napi_key = \"test-key\"\nformat = \"chat\"\ntimeout_ms = 60000\n\n[routes]\n\"doctor/resp\" = { model = \"doctor-upstream\" }\n\"doctorchat/chat\" = { model = \"doctor-upstream\" }\n",
    );
    out
}

/// A request without tools fails the probe, whatever else it holds.
pub proof fn toolless_request_fails(
    requests: Seq<JsonV>,
    endpoint: Seq<char>,
    model: Seq<char>,
)
    requires
        requests.len() > 0,
        tools_of(requests[0]).len() == 0,
    ensures
        has_fail(shape_report(requests, endpoint, model)),
{
    let r = shape_report(requests, endpoint, model);
    assert(r[1].status == CheckStatus::Fail);
}

/// A picked call is one for a function tool that the request offers.
pub proof fn picked_tool_is_offered(tools: Seq<JsonV>, command: Seq<char>, i: int)
    requires
        0 <= i <= tools.len(),
        picked(tools, command, i) is Some,
    ensures
        exists|k: int|
            i <= k < tools.len() && #[trigger] call_of(tools[k], command) == picked(
                tools,
                command,
                i,
            ),
    decreases tools.len() - i,
{
    if call_of(tools[i], command) is None {
        picked_tool_is_offered(tools, command, i + 1);
    }
}

} // verus!
