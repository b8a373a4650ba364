//! A scripted upstream: one scenario per process, with deterministic answers
//! for each turn.
use crate::json::{
    items_view, json_parse_bytes, json_text, lemma_items_push, lemma_items_view, Json, JsonV,
};
use crate::text::{decimal, same, to_decimal, views};
use vstd::prelude::*;

verus! {

pub fn usage_chunk() -> (r: &'static str)
    ensures
        r@
            == "{\"choices\":[],\"usage\":{\"prompt_tokens\":9,\"completion_tokens\":5,\"total_tokens\":14}}"@,
{
    "{\"choices\":[],\"usage\":{\"prompt_tokens\":9,\"completion_tokens\":5,\"total_tokens\":14}}"
}

/// A chunk of one choice.
pub open spec fn chunk_v(delta: JsonV) -> JsonV {
    JsonV::object().set(
        "choices"@,
        JsonV::one(
            JsonV::object().set("index"@, JsonV::uint(0)).set("delta"@, delta).set(
                "finish_reason"@,
                JsonV::Null,
            ),
        ),
    )
}

/// The delta of a text.
pub open spec fn text_delta(text: Seq<char>) -> JsonV {
    JsonV::object().set("role"@, JsonV::Str("assistant"@)).set("content"@, JsonV::Str(text))
}

/// A turn of plain text: the text, the end of the turn, the token counts, and
/// the end marker.
pub open spec fn basic_turn(text: Seq<char>) -> Seq<Seq<char>> {
    Seq::empty().push(json_text(chunk_v(text_delta(text)))).push(
        "{\"choices\":[{\"index\":0,\"delta\":{},\"finish_reason\":\"stop\"}]}"@,
    ).push(
        "{\"choices\":[],\"usage\":{\"prompt_tokens\":9,\"completion_tokens\":5,\"total_tokens\":14}}"@,
    ).push("[DONE]"@)
}

fn push_text(out: &mut Vec<String>, text: &str)
    ensures
        views(final(out)@) == views(old(out)@).push(text@),
{
    let ghost before = out@;
    let t = text.to_owned();
    out.push(t);
    assert(views(out@) =~= views(before).push(t@));
}

fn chunk(delta: Json) -> (r: Json)
    ensures
        r@ == chunk_v(delta@),
{
    Json::object().set(
        "choices",
        Json::one(
            Json::object().set("index", Json::uint(0)).set("delta", delta).set(
                "finish_reason",
                Json::Null,
            ),
        ),
    )
}

fn text_chunk(text: &str) -> (r: String)
    ensures
        r@ == json_text(chunk_v(text_delta(text@))),
{
    chunk(
        Json::object().set("role", Json::str("assistant")).set("content", Json::str(text)),
    ).to_text()
}

/// The chunks of a turn of plain text.
pub fn basic_chat_chunks(text: &str) -> (r: Vec<String>)
    ensures
        views(r@) == basic_turn(text@),
{
    let mut out: Vec<String> = Vec::new();
    assert(views(out@) =~= Seq::<Seq<char>>::empty());
    push_text(&mut out, text_chunk(text).as_str());
    push_text(&mut out, "{\"choices\":[{\"index\":0,\"delta\":{},\"finish_reason\":\"stop\"}]}");
    push_text(&mut out, usage_chunk());
    push_text(&mut out, "[DONE]");
    out
}

/// The text of a turn.
pub open spec fn marker(turn: int) -> Seq<char> {
    "E2E_TURN_"@ + decimal(turn as nat) + "_OK"@
}

/// The text of a turn.
pub fn multiturn_marker(turn: usize) -> (r: String)
    ensures
        r@ == marker(turn as int),
{
    let mut out = "E2E_TURN_".to_owned();
    out.append(to_decimal(turn as u64).as_str());
    out.append("_OK");
    out
}

/// The name of the tool that a turn calls: the request's own, in either shape.
pub open spec fn tool_name(tool: JsonV) -> Seq<char> {
    match tool.at("function"@).get_str("name"@) {
        Some(n) => n,
        None => match tool.get_str("name"@) {
            Some(n) => n,
            None => "exec_command"@,
        },
    }
}

/// The delta of the tool call.
pub open spec fn tool_delta(name: Seq<char>) -> JsonV {
    JsonV::object().set(
        "tool_calls"@,
        JsonV::one(
            JsonV::object().set("index"@, JsonV::uint(0)).set("id"@, JsonV::Str("call_e2e_1"@)).set(
                "type"@,
                JsonV::Str("function"@),
            ).set(
                "function"@,
                JsonV::object().set("name"@, JsonV::Str(name)).set(
                    "arguments"@,
                    JsonV::Str(
                        json_text(
                            JsonV::object().set("cmd"@, JsonV::Str("echo E2E_TOOL_OK"@)),
                        ),
                    ),
                ),
            ),
        ),
    )
}

/// A turn of one tool call.
pub open spec fn tool_turn(tool: JsonV) -> Seq<Seq<char>> {
    Seq::empty().push(json_text(chunk_v(text_delta(Seq::empty())))).push(
        json_text(chunk_v(tool_delta(tool_name(tool)))),
    ).push("{\"choices\":[{\"index\":0,\"delta\":{},\"finish_reason\":\"tool_calls\"}]}"@).push(
        "[DONE]"@,
    )
}

fn name_of_tool(tool: &Json) -> (r: &str)
    ensures
        r@ == tool_name(tool@),
{
    if let Some(f) = tool.get("function") {
        if let Some(n) = f.get_str("name") {
            return n;
        }
    }
    match tool.get_str("name") {
        Some(n) => n,
        None => "exec_command",
    }
}

/// The chunks of a turn that calls a tool of the request.
pub fn tools_turn1_chunks(tool: &Json) -> (r: Vec<String>)
    ensures
        views(r@) == tool_turn(tool@),
{
    proof {
        reveal_strlit("");
        assert(""@ =~= Seq::<char>::empty());
    }
    let args = Json::object().set("cmd", Json::str("echo E2E_TOOL_OK")).to_text();
    let delta = Json::object().set(
        "tool_calls",
        Json::one(
            Json::object().set("index", Json::uint(0)).set("id", Json::str("call_e2e_1")).set(
                "type",
                Json::str("function"),
            ).set(
                "function",
                Json::object().set("name", Json::str(name_of_tool(tool))).set(
                    "arguments",
                    Json::str(args.as_str()),
                ),
            ),
        ),
    );
    let mut out: Vec<String> = Vec::new();
    assert(views(out@) =~= Seq::<Seq<char>>::empty());
    push_text(&mut out, text_chunk("").as_str());
    push_text(&mut out, chunk(delta).to_text().as_str());
    push_text(
        &mut out,
        "{\"choices\":[{\"index\":0,\"delta\":{},\"finish_reason\":\"tool_calls\"}]}",
    );
    push_text(&mut out, "[DONE]");
    out
}

/// The first tool of a request; null where there is none.
pub open spec fn first_tool(body: Option<JsonV>) -> JsonV {
    match body {
        Some(b) => match b.get_arr("tools"@) {
            Some(tools) => if tools.len() > 0 {
                tools[0]
            } else {
                JsonV::Null
            },
            None => JsonV::Null,
        },
        None => JsonV::Null,
    }
}

/// The chunks that a scenario answers to the chat request of a turn, or why it
/// answers none.
pub open spec fn chat_script(scenario: Seq<char>, turn: int, body: Option<JsonV>) -> Result<
    Seq<Seq<char>>,
    Seq<char>,
> {
    if scenario == "basic"@ {
        Ok(basic_turn("E2E_BASIC_OK"@))
    } else if scenario == "multiturn"@ {
        Ok(basic_turn(marker(turn)))
    } else if scenario == "tools"@ {
        if turn == 1 {
            Ok(tool_turn(first_tool(body)))
        } else {
            Ok(basic_turn("E2E_TOOL_DONE"@))
        }
    } else {
        Err("scenario '"@ + scenario + "' does not serve the chat path"@)
    }
}

/// What a list of texts or a message denotes.
pub open spec fn script_view(r: Result<Vec<String>, String>) -> Result<Seq<Seq<char>>, Seq<char>> {
    match r {
        Ok(l) => Ok(views(l@)),
        Err(e) => Err(e@),
    }
}

fn refusal(scenario: &str, path: &str) -> (r: String)
    ensures
        r@ == "scenario '"@ + scenario@ + "' does not serve the "@ + path@ + " path"@,
{
    let mut out = "scenario '".to_owned();
    out.append(scenario);
    out.append("' does not serve the ");
    out.append(path);
    out.append(" path");
    out
}

/// The chunks of the first turn of the tools scenario.
fn tools_chunks(body: &[u8]) -> (r: Vec<String>)
    ensures
        views(r@) == tool_turn(first_tool(json_parse_bytes(body@))),
{
    if let Some(req) = Json::parse_bytes(body) {
        if let Some(tools) = req.get_array("tools") {
            proof {
                lemma_items_view(tools@);
            }
            if tools.len() > 0 {
                assert(items_view(tools@)[0] == tools@[0]@);
                return tools_turn1_chunks(&tools[0]);
            }
        }
    }
    tools_turn1_chunks(&Json::Null)
}

/// The chunks that a scenario answers to the chat request of a turn, or why it
/// answers none.
pub fn chat_turn(scenario: &str, turn: usize, body: &[u8]) -> (r: Result<Vec<String>, String>)
    ensures
        script_view(r) == chat_script(scenario@, turn as int, json_parse_bytes(body@)),
{
    if same(scenario, "basic") {
        Ok(basic_chat_chunks("E2E_BASIC_OK"))
    } else if same(scenario, "multiturn") {
        Ok(basic_chat_chunks(multiturn_marker(turn).as_str()))
    } else if same(scenario, "tools") {
        if turn == 1 {
            Ok(tools_chunks(body))
        } else {
            Ok(basic_chat_chunks("E2E_TOOL_DONE"))
        }
    } else {
        proof {
            reveal_strlit("' does not serve the ");
            reveal_strlit("chat");
            reveal_strlit(" path");
            reveal_strlit("' does not serve the chat path");
            assert("scenario '"@ + scenario@ + "' does not serve the "@ + "chat"@ + " path"@
                =~= "scenario '"@ + scenario@ + "' does not serve the chat path"@);
        }
        Err(refusal(scenario, "chat"))
    }
}

/// The message of the scripted response.
pub open spec fn message_v(status: Seq<char>, content: Seq<JsonV>) -> JsonV {
    JsonV::object().set("type"@, JsonV::Str("message"@)).set("id"@, JsonV::Str("msg_e2e_1"@)).set(
        "role"@,
        JsonV::Str("assistant"@),
    ).set("status"@, JsonV::Str(status)).set("content"@, JsonV::Arr(content))
}

/// The finished message.
pub open spec fn done_message_v(text: Seq<char>) -> JsonV {
    message_v(
        "completed"@,
        seq![
            JsonV::object().set("type"@, JsonV::Str("output_text"@)).set("text"@, JsonV::Str(text)),
        ],
    )
}

/// The scripted response.
pub open spec fn response_v(status: Seq<char>) -> JsonV {
    JsonV::object().set("id"@, JsonV::Str("resp_e2e_1"@)).set("status"@, JsonV::Str(status)).set(
        "model"@,
        JsonV::Str("e2e-model"@),
    )
}

/// The events of a scripted response, each with its payload.
pub open spec fn event_script(text: Seq<char>) -> Seq<(Seq<char>, JsonV)> {
    Seq::empty().push(
        (
            "response.created"@,
            JsonV::object().set("type"@, JsonV::Str("response.created"@)).set(
                "response"@,
                response_v("in_progress"@),
            ),
        ),
    ).push(
        (
            "response.output_item.added"@,
            JsonV::object().set("type"@, JsonV::Str("response.output_item.added"@)).set(
                "output_index"@,
                JsonV::uint(0),
            ).set("item"@, message_v("in_progress"@, Seq::empty())),
        ),
    ).push(
        (
            "response.output_text.delta"@,
            JsonV::object().set("type"@, JsonV::Str("response.output_text.delta"@)).set(
                "item_id"@,
                JsonV::Str("msg_e2e_1"@),
            ).set("output_index"@, JsonV::uint(0)).set("delta"@, JsonV::Str(text)),
        ),
    ).push(
        (
            "response.output_item.done"@,
            JsonV::object().set("type"@, JsonV::Str("response.output_item.done"@)).set(
                "output_index"@,
                JsonV::uint(0),
            ).set("item"@, done_message_v(text)),
        ),
    ).push(
        (
            "response.completed"@,
            JsonV::object().set("type"@, JsonV::Str("response.completed"@)).set(
                "response"@,
                response_v("completed"@).set("output"@, JsonV::one(done_message_v(text))).set(
                    "usage"@,
                    JsonV::object().set("input_tokens"@, JsonV::uint(4)).set(
                        "output_tokens"@,
                        JsonV::uint(3),
                    ).set("total_tokens"@, JsonV::uint(7)),
                ),
            ),
        ),
    )
}

/// What a list of named events denotes.
pub open spec fn events_view(s: Seq<(String, String)>) -> Seq<(Seq<char>, Seq<char>)> {
    Seq::new(s.len(), |i: int| (s[i].0@, s[i].1@))
}

/// The events of a script as text.
pub open spec fn script_text(s: Seq<(Seq<char>, JsonV)>) -> Seq<(Seq<char>, Seq<char>)> {
    Seq::new(s.len(), |i: int| (s[i].0, json_text(s[i].1)))
}

fn push_event(out: &mut Vec<(String, String)>, event: &str, payload: Json)
    ensures
        events_view(final(out)@) == events_view(old(out)@).push((event@, json_text(payload@))),
{
    let ghost before = out@;
    let e = (event.to_owned(), payload.to_text());
    out.push(e);
    assert(events_view(out@) =~= events_view(before).push((e.0@, e.1@)));
}

fn message(status: &str, content: Vec<Json>) -> (r: Json)
    ensures
        r@ == message_v(status@, items_view(content@)),
{
    Json::object().set("type", Json::str("message")).set("id", Json::str("msg_e2e_1")).set(
        "role",
        Json::str("assistant"),
    ).set("status", Json::str(status)).set("content", Json::Arr(content))
}

fn done_message(text: &str) -> (r: Json)
    ensures
        r@ == done_message_v(text@),
{
    let part = Json::object().set("type", Json::str("output_text")).set("text", Json::str(text));
    let mut content: Vec<Json> = Vec::new();
    proof {
        assert(items_view(content@) =~= Seq::<JsonV>::empty());
        lemma_items_push(content@, part);
    }
    content.push(part);
    assert(items_view(content@) =~= seq![part@]);
    message("completed", content)
}

fn response(status: &str) -> (r: Json)
    ensures
        r@ == response_v(status@),
{
    Json::object().set("id", Json::str("resp_e2e_1")).set("status", Json::str(status)).set(
        "model",
        Json::str("e2e-model"),
    )
}

/// The events of a scripted response: opened, announced, one piece of text,
/// done and closed.
pub fn responses_events(text: &str) -> (r: Vec<(String, String)>)
    ensures
        events_view(r@) == script_text(event_script(text@)),
{
    let none: Vec<Json> = Vec::new();
    assert(items_view(none@) =~= Seq::<JsonV>::empty());
    let mut out: Vec<(String, String)> = Vec::new();
    assert(events_view(out@) =~= Seq::<(Seq<char>, Seq<char>)>::empty());
    push_event(
        &mut out,
        "response.created",
        Json::object().set("type", Json::str("response.created")).set(
            "response",
            response("in_progress"),
        ),
    );
    push_event(
        &mut out,
        "response.output_item.added",
        Json::object().set("type", Json::str("response.output_item.added")).set(
            "output_index",
            Json::uint(0),
        ).set("item", message("in_progress", none)),
    );
    push_event(
        &mut out,
        "response.output_text.delta",
        Json::object().set("type", Json::str("response.output_text.delta")).set(
            "item_id",
            Json::str("msg_e2e_1"),
        ).set("output_index", Json::uint(0)).set("delta", Json::str(text)),
    );
    push_event(
        &mut out,
        "response.output_item.done",
        Json::object().set("type", Json::str("response.output_item.done")).set(
            "output_index",
            Json::uint(0),
        ).set("item", done_message(text)),
    );
    let usage = Json::object().set("input_tokens", Json::uint(4)).set(
        "output_tokens",
        Json::uint(3),
    ).set("total_tokens", Json::uint(7));
    push_event(
        &mut out,
        "response.completed",
        Json::object().set("type", Json::str("response.completed")).set(
            "response",
            response("completed").set("output", Json::one(done_message(text))).set("usage", usage),
        ),
    );
    assert(events_view(out@) =~= script_text(event_script(text@)));
    out
}

/// The events that a scenario answers to a Responses request, or why it
/// answers none.
pub fn responses_turn(scenario: &str) -> (r: Result<Vec<(String, String)>, String>)
    ensures
        match r {
            Ok(e) => (scenario@ == "basic"@ || scenario@ == "basic-responses"@) && events_view(e@)
                == script_text(event_script("E2E_RESP_OK"@)),
            Err(m) => scenario@ != "basic"@ && scenario@ != "basic-responses"@ && m@
                == "scenario '"@ + scenario@ + "' does not serve the "@ + "responses"@ + " path"@,
        },
{
    if same(scenario, "basic") || same(scenario, "basic-responses") {
        Ok(responses_events("E2E_RESP_OK"))
    } else {
        Err(refusal(scenario, "responses"))
    }
}

/// The record of a request: its path, its authorization and its body; a body
/// that is no JSON is recorded as null.
pub open spec fn record_v(path: Seq<char>, auth: Seq<char>, body: Option<JsonV>) -> JsonV {
    JsonV::object().set("path"@, JsonV::Str(path)).set("auth"@, JsonV::Str(auth)).set(
        "body"@,
        match body {
            Some(b) => b,
            None => JsonV::Null,
        },
    )
}

/// The record of a request, as a line of JSON.
pub fn record_line(path: &str, auth: &str, body: &[u8]) -> (r: String)
    ensures
        r@ == json_text(record_v(path@, auth@, json_parse_bytes(body@))),
{
    let parsed = match Json::parse_bytes(body) {
        Some(b) => b,
        None => Json::Null,
    };
    Json::object().set("path", Json::str(path)).set("auth", Json::str(auth)).set(
        "body",
        parsed,
    ).to_text()
}

} // verus!
