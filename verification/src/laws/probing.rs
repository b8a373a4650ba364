//! What the probe asks and answers: a call that the tool at hand can take, and
//! streams that a client can follow.

use crate::catalog::{pinned, seed_of};
use crate::doctor::{Check, CheckStatus};
use crate::doctor_live::{
    arguments_for, call_delta_v, call_item_v, call_of, call_stream, chat_answer, chat_stream,
    choice_v, closing_v, completed_v, created_v, delta_v, field_texts, has_additional, input_of,
    is_tool, item_checks, item_event_v, kinds_of, made_up, message_item_v, offers_tool,
    output_text_v, picked, probe_catalog_v, response_stream, responses_answer, sentinel_check,
    sentinel_report, shape_report, summary_of, synthesized, text_delta_v, text_stream, tools_of,
    unknown_types, verdict,
};
use crate::json::{json_text, JsonV};
use crate::laws::answers::is_message_of;
use crate::laws::healing::is_call;
use crate::mock::{
    basic_turn, chat_script, chunk_v, event_script, marker, record_v, text_delta, tool_delta,
    tool_name, tool_turn,
};
use crate::text::{decimal, joined};
use vstd::prelude::*;

verus! {

/// Whether a value fits a property: a number where one is asked for, a truth
/// value, one of the values that are listed, and else the command.
pub open spec fn fits(v: JsonV, property: JsonV, command: Seq<char>) -> bool {
    let kind = property.get_str("type"@);
    if kind == Some("number"@) || kind == Some("integer"@) {
        v.as_u64() == Some(1u64)
    } else if kind == Some("boolean"@) {
        v == JsonV::Bool(false)
    } else {
        match property.get("enum"@) {
            Some(JsonV::Arr(values)) => if values.len() > 0 {
                v == values[0]
            } else {
                v == JsonV::Str(command)
            },
            _ => v == JsonV::Str(command),
        }
    }
}

proof fn lemma_arguments(required: Seq<JsonV>, properties: JsonV, command: Seq<char>, n: int)
    requires
        0 <= n <= required.len(),
        arguments_for(required, properties, command, n) is Some,
    ensures
        ({
            let a = arguments_for(required, properties, command, n)->0;
            &&& a is Obj
            &&& forall|i: int|
                0 <= i < n ==> (#[trigger] required[i]) is Str && properties.get(
                    required[i]->Str_0,
                ) is Some && (a.get(required[i]->Str_0) matches Some(v) && fits(
                    v,
                    properties.at(required[i]->Str_0),
                    command,
                ))
            &&& forall|k: Seq<char>| #[trigger]
                a.get(k) is Some ==> required.contains(JsonV::Str(k))
        }),
    decreases n,
{
    if n > 0 {
        lemma_arguments(required, properties, command, n - 1);
        let before = arguments_for(required, properties, command, n - 1)->0;
        let key = required[n - 1]->Str_0;
        let p = properties.get(key)->0;
        assert(fits(made_up(p, command), p, command));
        let a = arguments_for(required, properties, command, n)->0;
        assert(required.contains(required[n - 1]));
        assert forall|i: int| 0 <= i < n implies (#[trigger] required[i]) is Str && properties.get(
            required[i]->Str_0,
        ) is Some && (a.get(required[i]->Str_0) matches Some(v) && fits(
            v,
            properties.at(required[i]->Str_0),
            command,
        )) by {
            if i < n - 1 && required[i]->Str_0 != key {
                assert(a.get(required[i]->Str_0) == before.get(required[i]->Str_0));
            }
        }
        assert forall|k: Seq<char>| #[trigger] a.get(k) is Some implies required.contains(
            JsonV::Str(k),
        ) by {
            if k == key {
                assert(required[n - 1] == JsonV::Str(k));
            } else {
                assert(before.get(k) == a.get(k));
            }
        }
    }
}

/// The arguments that are made up for a schema have every property that it
/// requires, each with a value that fits it, and no other. A schema that
/// requires nothing gets none.
pub proof fn made_up_arguments_fit_their_schema(schema: JsonV, command: Seq<char>)
    ensures
        synthesized(schema, command) matches Some(a) ==> ({
            let required = schema.get_arr("required"@)->0;
            let properties = schema.at("properties"@);
            &&& schema.get_arr("required"@) is Some && required.len() > 0
            &&& forall|i: int|
                0 <= i < required.len() ==> (#[trigger] required[i]) is Str && (a.get(
                    required[i]->Str_0,
                ) matches Some(v) && fits(v, properties.at(required[i]->Str_0), command))
            &&& forall|k: Seq<char>| #[trigger]
                a.get(k) is Some ==> required.contains(JsonV::Str(k))
        }),
        !(schema.get_arr("required"@) matches Some(r) && r.len() > 0) ==> synthesized(
            schema,
            command,
        ) is None,
{
    if synthesized(schema, command) is Some {
        let required = schema.get_arr("required"@)->0;
        lemma_arguments(
            required,
            schema.get("properties"@)->0,
            command,
            required.len() as int,
        );
    }
}

/// A call for a tool goes under the tool's own name, with arguments made up for
/// its own parameters; only a function can be called.
pub proof fn calls_fit_their_tool(tool: JsonV, command: Seq<char>)
    ensures
        call_of(tool, command) matches Some((name, args)) ==> ({
            let f = match tool.get("function"@) {
                Some(f) => f,
                None => tool,
            };
            &&& tool.get_str("type"@) == Some("function"@)
            &&& f.get_str("name"@) == Some(name)
            &&& f.get("parameters"@) is Some ==> (synthesized(
                f.at("parameters"@),
                command,
            ) matches Some(a) && args == json_text(a))
        }),
        tool.get_str("type"@) != Some("function"@) ==> call_of(tool, command) is None,
{
}

/// The first tool that can carry a call is the one that is called.
pub proof fn first_callable_tool_is_picked(tools: Seq<JsonV>, command: Seq<char>, k: int)
    requires
        0 <= k < tools.len(),
        call_of(tools[k], command) is Some,
        forall|i: int| 0 <= i < k ==> call_of(#[trigger] tools[i], command) is None,
    ensures
        picked(tools, command, 0) == call_of(tools[k], command),
{
    lemma_picked(tools, command, 0, k);
}

proof fn lemma_picked(tools: Seq<JsonV>, command: Seq<char>, i: int, k: int)
    requires
        0 <= i <= k < tools.len(),
        call_of(tools[k], command) is Some,
        forall|j: int| i <= j < k ==> call_of(#[trigger] tools[j], command) is None,
    ensures
        picked(tools, command, i) == call_of(tools[k], command),
    decreases k - i,
{
    if i < k {
        lemma_picked(tools, command, i + 1, k);
    }
}

/// The text of an event of that name whose data is `d`, printed.
pub open spec fn event_text(kind: Seq<char>, d: JsonV) -> Seq<char> {
    "event: "@ + kind + "\ndata: "@ + json_text(d) + "\n\n"@
}

/// Whether payloads tell a response of one item, from its beginning to its end.
pub open spec fn tells_one_item(
    created: JsonV,
    added: JsonV,
    delta: JsonV,
    done: JsonV,
    completed: JsonV,
    id: Seq<char>,
    piece: Seq<char>,
) -> bool {
    &&& created.get_str("type"@) == Some("response.created"@)
    &&& created.at("response"@).get_str("status"@) == Some("in_progress"@)
    &&& added.get_str("type"@) == Some("response.output_item.added"@)
    &&& added.at("item"@).get_str("id"@) == Some(id)
    &&& delta.get_str("item_id"@) == Some(id)
    &&& delta.get_str("delta"@) == Some(piece)
    &&& done.get_str("type"@) == Some("response.output_item.done"@)
    &&& completed.get_str("type"@) == Some("response.completed"@)
    &&& completed.at("response"@).get_str("status"@) == Some("completed"@)
    &&& completed.at("response"@).get_arr("output"@) == Some(seq![done.at("item"@)])
    &&& completed.at("response"@).get("id"@) == created.at("response"@).get("id"@)
    &&& added.at("output_index"@) == done.at("output_index"@)
    &&& delta.at("output_index"@) == done.at("output_index"@)
}

proof fn lemma_stream(
    announced: JsonV,
    kind: Seq<char>,
    id: Seq<char>,
    piece: Seq<char>,
    item: JsonV,
)
    requires
        announced.get_str("id"@) == Some(id),
    ensures
        ({
            let added = item_event_v("response.output_item.added"@, announced);
            let delta = delta_v(kind, id, piece);
            let done = item_event_v("response.output_item.done"@, item);
            &&& tells_one_item(created_v(), added, delta, done, completed_v(item), id, piece)
            &&& delta.get_str("type"@) == Some(kind)
            &&& done.at("item"@) == item
            &&& added.at("item"@) == announced
            &&& response_stream(announced, kind, id, piece, item) == event_text(
                "response.created"@,
                created_v(),
            ) + event_text("response.output_item.added"@, added) + event_text(kind, delta)
                + event_text("response.output_item.done"@, done) + event_text(
                "response.completed"@,
                completed_v(item),
            )
        }),
{
    reveal_strlit("type");
    reveal_strlit("response");
    reveal_strlit("id");
    reveal_strlit("status");
    reveal_strlit("model");
    reveal_strlit("output_index");
    reveal_strlit("item");
    reveal_strlit("item_id");
    reveal_strlit("delta");
    reveal_strlit("output");
    reveal_strlit("usage");
    assert("type"@.len() == 4);
    assert("response"@.len() == 8);
    assert("id"@.len() == 2);
    assert("status"@.len() == 6);
    assert("model"@.len() == 5);
    assert("output_index"@.len() == 12);
    assert("item"@.len() == 4);
    assert("item_id"@.len() == 7);
    assert("delta"@.len() == 5);
    assert("output"@.len() == 6);
    assert("usage"@.len() == 5);
    assert("type"@[0] != "item"@[0]);
    assert("status"@[0] != "output"@[0]);
    assert("model"@[0] != "delta"@[0]);
    assert("model"@[0] != "usage"@[0]);
    assert("delta"@[0] != "usage"@[0]);
}

/// The scripted tool call is a whole response: the call is announced, its
/// arguments come as one piece, it is done with them under the same ids, and the
/// response is completed with it.
pub proof fn scripted_calls_are_whole_responses(name: Seq<char>, args: Seq<char>)
    ensures
        exists|created: JsonV, added: JsonV, delta: JsonV, done: JsonV, completed: JsonV|
            is_call_stream(
                call_stream(name, args),
                name,
                args,
                created,
                added,
                delta,
                done,
                completed,
            ),
{
    reveal_strlit("type");
    reveal_strlit("id");
    reveal_strlit("call_id");
    reveal_strlit("name");
    reveal_strlit("arguments");
    reveal_strlit("status");
    assert("type"@.len() == 4);
    assert("id"@.len() == 2);
    assert("call_id"@.len() == 7);
    assert("name"@.len() == 4);
    assert("arguments"@.len() == 9);
    assert("status"@.len() == 6);
    assert("type"@[0] != "name"@[0]);
    let announced = call_item_v(name, Seq::empty(), "in_progress"@);
    let item = call_item_v(name, args, "completed"@);
    lemma_stream(
        announced,
        "response.function_call_arguments.delta"@,
        "fc_doctor_1"@,
        args,
        item,
    );
    assert(is_call_stream(
        call_stream(name, args),
        name,
        args,
        created_v(),
        item_event_v("response.output_item.added"@, announced),
        delta_v("response.function_call_arguments.delta"@, "fc_doctor_1"@, args),
        item_event_v("response.output_item.done"@, item),
        completed_v(item),
    ));
}

/// Whether a text is a response of one call, event by event.
pub open spec fn is_call_stream(
    t: Seq<char>,
    name: Seq<char>,
    args: Seq<char>,
    created: JsonV,
    added: JsonV,
    delta: JsonV,
    done: JsonV,
    completed: JsonV,
) -> bool {
    let id = added.at("item"@).get_str("id"@)->0;
    let call_id = added.at("item"@).get_str("call_id"@)->0;
    &&& t == event_text("response.created"@, created) + event_text(
        "response.output_item.added"@,
        added,
    ) + event_text("response.function_call_arguments.delta"@, delta) + event_text(
        "response.output_item.done"@,
        done,
    ) + event_text("response.completed"@, completed)
    &&& tells_one_item(created, added, delta, done, completed, id, args)
    &&& is_call(added.at("item"@), id, call_id, name, Seq::empty(), "in_progress"@)
    &&& is_call(done.at("item"@), id, call_id, name, args, "completed"@)
}

/// The scripted text is a whole response of one message that says it.
pub proof fn scripted_texts_are_whole_responses(text: Seq<char>)
    ensures
        exists|created: JsonV, added: JsonV, delta: JsonV, done: JsonV, completed: JsonV|
            is_text_stream(text_stream(text), text, created, added, delta, done, completed),
{
    reveal_strlit("type");
    reveal_strlit("id");
    reveal_strlit("role");
    reveal_strlit("status");
    reveal_strlit("content");
    reveal_strlit("text");
    assert("type"@.len() == 4);
    assert("id"@.len() == 2);
    assert("role"@.len() == 4);
    assert("status"@.len() == 6);
    assert("content"@.len() == 7);
    assert("text"@.len() == 4);
    assert("type"@[0] != "role"@[0]);
    assert("type"@[1] != "text"@[1]);
    assert("role"@[0] != "text"@[0]);
    let announced = message_item_v(Seq::empty(), "in_progress"@);
    let item = message_item_v(seq![output_text_v(text)], "completed"@);
    lemma_stream(announced, "response.output_text.delta"@, "msg_doctor_1"@, text, item);
    assert(is_message_of(item, text));
    assert(is_text_stream(
        text_stream(text),
        text,
        created_v(),
        item_event_v("response.output_item.added"@, announced),
        delta_v("response.output_text.delta"@, "msg_doctor_1"@, text),
        item_event_v("response.output_item.done"@, item),
        completed_v(item),
    ));
}

/// Whether a text is a response of one message, event by event.
pub open spec fn is_text_stream(
    t: Seq<char>,
    text: Seq<char>,
    created: JsonV,
    added: JsonV,
    delta: JsonV,
    done: JsonV,
    completed: JsonV,
) -> bool {
    let id = added.at("item"@).get_str("id"@)->0;
    &&& t == event_text("response.created"@, created) + event_text(
        "response.output_item.added"@,
        added,
    ) + event_text("response.output_text.delta"@, delta) + event_text(
        "response.output_item.done"@,
        done,
    ) + event_text("response.completed"@, completed)
    &&& tells_one_item(created, added, delta, done, completed, id, text)
    &&& is_message_of(done.at("item"@), text)
    &&& done.at("item"@).get_str("id"@) == Some(id)
    &&& done.at("item"@).get_str("status"@) == Some("completed"@)
    &&& added.at("item"@).get_str("status"@) == Some("in_progress"@)
}

/// The choice of a chunk.
pub open spec fn first_choice(chunk: JsonV) -> JsonV {
    match chunk.get_arr("choices"@) {
        Some(c) => if c.len() == 1 {
            c[0]
        } else {
            JsonV::Null
        },
        None => JsonV::Null,
    }
}

/// Whether a chunk calls a tool.
pub open spec fn calls_tool(chunk: JsonV, name: Seq<char>, args: Seq<char>) -> bool {
    first_choice(chunk).at("delta"@).get_arr("tool_calls"@) matches Some(t) && t.len() == 1
        && t[0].at("index"@).as_u64() == Some(0u64) && t[0].get_str("id"@) is Some && t[0].get_str(
        "type"@,
    ) == Some("function"@) && t[0].at("function"@).get_str("name"@) == Some(name) && t[0].at(
        "function"@,
    ).get_str("arguments"@) == Some(args) && first_choice(chunk).get("finish_reason"@) == Some(
        JsonV::Null,
    )
}

/// Whether a chunk says a text.
pub open spec fn says_text(chunk: JsonV, text: Seq<char>) -> bool {
    first_choice(chunk).at("delta"@).get_str("content"@) == Some(text) && first_choice(chunk).get(
        "finish_reason"@,
    ) == Some(JsonV::Null)
}

/// Whether a chunk ends a turn for a reason, and counts its tokens.
pub open spec fn ends_turn(chunk: JsonV, reason: Seq<char>) -> bool {
    &&& first_choice(chunk).get_str("finish_reason"@) == Some(reason)
    &&& first_choice(chunk).at("delta"@) == JsonV::Obj(Map::empty())
    &&& chunk.at("usage"@).at("prompt_tokens"@).as_u64() is Some
    &&& chunk.at("usage"@).at("completion_tokens"@).as_u64() is Some
    &&& chunk.at("usage"@).at("total_tokens"@).as_u64() is Some
}

proof fn lemma_chunks(name: Seq<char>, args: Seq<char>, text: Seq<char>, reason: Seq<char>)
    ensures
        calls_tool(choice_v(call_delta_v(name, args), JsonV::Null), name, args),
        says_text(choice_v(text_delta_v(text), JsonV::Null), text),
        ends_turn(closing_v(reason), reason),
{
    reveal_strlit("choices");
    reveal_strlit("index");
    reveal_strlit("delta");
    reveal_strlit("finish_reason");
    reveal_strlit("usage");
    reveal_strlit("prompt_tokens");
    reveal_strlit("completion_tokens");
    reveal_strlit("total_tokens");
    reveal_strlit("role");
    reveal_strlit("tool_calls");
    reveal_strlit("id");
    reveal_strlit("type");
    reveal_strlit("function");
    reveal_strlit("name");
    reveal_strlit("arguments");
    reveal_strlit("content");
    assert("choices"@.len() == 7);
    assert("index"@.len() == 5);
    assert("delta"@.len() == 5);
    assert("finish_reason"@.len() == 13);
    assert("usage"@.len() == 5);
    assert("prompt_tokens"@.len() == 13);
    assert("completion_tokens"@.len() == 17);
    assert("total_tokens"@.len() == 12);
    assert("role"@.len() == 4);
    assert("tool_calls"@.len() == 10);
    assert("id"@.len() == 2);
    assert("type"@.len() == 4);
    assert("function"@.len() == 8);
    assert("name"@.len() == 4);
    assert("arguments"@.len() == 9);
    assert("content"@.len() == 7);
    assert("choices"@[1] != "content"@[1]);
    assert("index"@[0] != "delta"@[0]);
    assert("index"@[0] != "usage"@[0]);
    assert("delta"@[0] != "usage"@[0]);
    assert("finish_reason"@[0] != "prompt_tokens"@[0]);
    assert("role"@[0] != "type"@[0]);
    assert("role"@[0] != "name"@[0]);
    assert("type"@[0] != "name"@[0]);
}

/// The probe's upstream calls the picked tool in the first round and says that it
/// is done afterwards; a request without a usable tool is told so. This holds of
/// both formats.
pub proof fn probes_call_then_finish(r: JsonV, round: int, command: Seq<char>)
    ensures
        round == 1 ==> (picked(tools_of(r), command, 0) matches Some((name, args))
            ==> responses_answer(Some(r), round, command) == call_stream(name, args)
            && exists|first: JsonV, second: JsonV|
            chat_answer(Some(r), round, command) == #[trigger] chat_stream(first, second)
                && calls_tool(first, name, args) && ends_turn(second, "tool_calls"@)),
        round != 1 ==> responses_answer(Some(r), round, command) == text_stream(
            "doctor round-trip complete"@,
        ) && exists|first: JsonV, second: JsonV|
            chat_answer(Some(r), round, command) == #[trigger] chat_stream(first, second)
                && says_text(first, "doctor round-trip complete"@) && ends_turn(second, "stop"@),
        round == 1 && picked(tools_of(r), command, 0) is None ==> responses_answer(
            Some(r),
            round,
            command,
        ) == "event: response.failed\ndata: {}\n\n"@ && exists|first: JsonV, second: JsonV|
            chat_answer(Some(r), round, command) == #[trigger] chat_stream(first, second)
                && says_text(first, "no tools visible"@) && ends_turn(second, "stop"@),
{
    if round == 1 {
        match picked(tools_of(r), command, 0) {
            Some((name, args)) => {
                lemma_chunks(name, args, Seq::empty(), "tool_calls"@);
                assert(chat_answer(Some(r), round, command) == chat_stream(
                    choice_v(call_delta_v(name, args), JsonV::Null),
                    closing_v("tool_calls"@),
                ));
            },
            None => {
                lemma_chunks(Seq::empty(), Seq::empty(), "no tools visible"@, "stop"@);
                assert(chat_answer(Some(r), round, command) == chat_stream(
                    choice_v(text_delta_v("no tools visible"@), JsonV::Null),
                    closing_v("stop"@),
                ));
            },
        }
    } else {
        lemma_chunks(Seq::empty(), Seq::empty(), "doctor round-trip complete"@, "stop"@);
        assert(chat_answer(Some(r), round, command) == chat_stream(
            choice_v(text_delta_v("doctor round-trip complete"@), JsonV::Null),
            closing_v("stop"@),
        ));
    }
}

/// A chat stream is its two chunks and the end marker, each an event of its own.
pub proof fn chat_streams_end_with_their_marker(first: JsonV, second: JsonV)
    ensures
        chat_stream(first, second) == "data: "@ + json_text(first) + "\n\ndata: "@ + json_text(
            second,
        ) + "\n\ndata: [DONE]\n\n"@,
{
}

/// A check passes exactly where what it checks holds, and says why.
pub proof fn verdicts_follow_what_holds(
    ok: bool,
    name: Seq<char>,
    good: Seq<char>,
    bad: Seq<char>,
)
    ensures
        verdict(ok, name, good, bad).name == name,
        ok ==> verdict(ok, name, good, bad).status == CheckStatus::Pass && verdict(
            ok,
            name,
            good,
            bad,
        ).detail == good,
        !ok ==> verdict(ok, name, good, bad).status == CheckStatus::Fail && verdict(
            ok,
            name,
            good,
            bad,
        ).detail == bad,
        sentinel_report(name, ok).status == (if ok {
            CheckStatus::Pass
        } else {
            CheckStatus::Fail
        }),
{
}

/// Whether a request offers a tool in the shape of its format.
pub open spec fn offers(req: JsonV, responses: bool) -> bool {
    req.get_arr("tools"@) matches Some(tools) && exists|i: int|
        0 <= i < tools.len() && (if responses {
            (#[trigger] tools[i]).get_str("type"@) == Some("function"@)
        } else {
            tools[i].get("function"@) is Some
        })
}

/// Whether an input item is one that should not have come through.
pub open spec fn is_foreign(item: JsonV) -> bool {
    item.get_str("type"@) matches Some(t) && t != "message"@ && t != "function_call"@ && t
        != "function_call_output"@ && t != "reasoning"@
}

proof fn lemma_unknown(input: Seq<JsonV>, n: int)
    requires
        0 <= n <= input.len(),
    ensures
        unknown_types(input, n).len() == 0 <==> forall|i: int|
            0 <= i < n ==> !is_foreign(#[trigger] input[i]),
    decreases n,
{
    if n > 0 {
        lemma_unknown(input, n - 1);
        if forall|i: int| 0 <= i < n ==> !is_foreign(#[trigger] input[i]) {
            assert(!is_foreign(input[n - 1]));
        }
    }
}

/// The probe of a Responses endpoint passes exactly where a request reached it
/// that offers a function tool, holds only known items and names the upstream's
/// model.
pub proof fn responses_probes_pass_where_the_request_is_right(
    requests: Seq<JsonV>,
    model: Seq<char>,
)
    ensures
        ({
            let r = shape_report(requests, "responses"@, model);
            &&& requests.len() == 0 ==> r.len() == 1 && r[0].status == CheckStatus::Fail
            &&& requests.len() > 0 ==> r.len() == 5 && r[0].status == CheckStatus::Pass && (
            r[1].status == CheckStatus::Pass <==> offers(requests[0], true)) && (r[3].status
                == CheckStatus::Pass <==> knows_all(requests[0])) && (r[2].status
                == CheckStatus::Pass <==> !carries_tools(requests[0])) && (r[4].status
                == CheckStatus::Pass <==> requests[0].get("model"@) == Some(JsonV::Str(model)))
            &&& forall|i: int|
                0 <= i < r.len() ==> (#[trigger] r[i]).status == CheckStatus::Pass || r[i].status
                    == CheckStatus::Fail
        }),
{
    let r = shape_report(requests, "responses"@, model);
    if requests.len() > 0 {
        let req = requests[0];
        lemma_unknown(input_of(req), input_of(req).len() as int);
        lemma_offers(req, true);
        let checks = item_checks("responses"@, req);
        assert(r[2] == checks[0]);
        assert(r[3] == checks[1]);
        assert(has_additional(req) <==> carries_tools(req));
    }
}

/// Whether every input item of a request is known.
pub open spec fn knows_all(req: JsonV) -> bool {
    req.get_arr("input"@) matches Some(input) ==> forall|i: int|
        0 <= i < input.len() ==> !is_foreign(#[trigger] input[i])
}

/// Whether a request carries an item of additional tools.
pub open spec fn carries_tools(req: JsonV) -> bool {
    req.get_arr("input"@) matches Some(input) && exists|i: int|
        0 <= i < input.len() && (#[trigger] input[i]).get_str("type"@) == Some(
            "additional_tools"@,
        )
}

proof fn lemma_offers(req: JsonV, responses: bool)
    ensures
        offers_tool(req, responses) <==> offers(req, responses),
{
    let tools = tools_of(req);
    if offers_tool(req, responses) {
        let i = choose|i: int| 0 <= i < tools.len() && is_tool(#[trigger] tools[i], responses);
        assert(is_tool(tools[i], responses));
    }
    if offers(req, responses) {
        let i = choose|i: int|
            0 <= i < tools.len() && (if responses {
                (#[trigger] tools[i]).get_str("type"@) == Some("function"@)
            } else {
                tools[i].get("function"@) is Some
            });
        assert(is_tool(tools[i], responses));
    }
}

/// The probe of a chat endpoint passes exactly where a request reached it that
/// offers a function tool and names the upstream's model.
pub proof fn chat_probes_pass_where_the_request_is_right(
    requests: Seq<JsonV>,
    endpoint: Seq<char>,
    model: Seq<char>,
)
    requires
        endpoint != "responses"@,
    ensures
        ({
            let r = shape_report(requests, endpoint, model);
            &&& requests.len() == 0 ==> r.len() == 1 && r[0].status == CheckStatus::Fail
            &&& requests.len() > 0 ==> r.len() == 3 && r[0].status == CheckStatus::Pass && (
            r[1].status == CheckStatus::Pass <==> offers(requests[0], false)) && (r[2].status
                == CheckStatus::Pass <==> requests[0].get("model"@) == Some(JsonV::Str(model)))
        }),
{
    if requests.len() > 0 {
        lemma_offers(requests[0], false);
    }
}

/// The probe's catalog lists its two routes, each with its window.
pub proof fn probe_catalogs_list_both_routes()
    ensures
        probe_catalog_v().get_arr("models"@) matches Some(m) && m.len() == 2 && m[0].get_str(
            "slug"@,
        ) == Some("doctor/resp"@) && m[1].get_str("slug"@) == Some("doctorchat/chat"@)
            && m[0].get_str("visibility"@) == Some("list"@) && m[1].get_str("visibility"@) == Some(
            "list"@,
        ) && m[0].at("context_window"@).as_u64() == Some(131072u64) && m[1].at(
            "context_window"@,
        ).as_u64() == Some(131072u64) && m[0].get_str("default_reasoning_level"@) == Some("low"@)
            && m[1].get_str("default_reasoning_level"@) == Some("low"@),
{
    reveal_strlit("slug");
    reveal_strlit("display_name");
    reveal_strlit("context_window");
    reveal_strlit("max_context_window");
    reveal_strlit("supported_in_api");
    reveal_strlit("visibility");
    reveal_strlit("prefer_websockets");
    reveal_strlit("use_responses_lite");
    reveal_strlit("shell_type");
    reveal_strlit("supports_parallel_tool_calls");
    reveal_strlit("description");
    reveal_strlit("priority");
    reveal_strlit("support_verbosity");
    reveal_strlit("truncation_policy");
    reveal_strlit("experimental_supported_tools");
    reveal_strlit("supported_reasoning_levels");
    reveal_strlit("default_reasoning_level");
    reveal_strlit("base_instructions");
    reveal_strlit("model_messages");
    assert("slug"@.len() == 4);
    assert("display_name"@.len() == 12);
    assert("context_window"@.len() == 14);
    assert("max_context_window"@.len() == 18);
    assert("supported_in_api"@.len() == 16);
    assert("visibility"@.len() == 10);
    assert("prefer_websockets"@.len() == 17);
    assert("use_responses_lite"@.len() == 18);
    assert("shell_type"@.len() == 10);
    assert("supports_parallel_tool_calls"@.len() == 28);
    assert("description"@.len() == 11);
    assert("priority"@.len() == 8);
    assert("support_verbosity"@.len() == 17);
    assert("truncation_policy"@.len() == 17);
    assert("experimental_supported_tools"@.len() == 28);
    assert("supported_reasoning_levels"@.len() == 26);
    assert("default_reasoning_level"@.len() == 23);
    assert("base_instructions"@.len() == 17);
    assert("model_messages"@.len() == 14);
    assert("context_window"@[0] != "model_messages"@[0]);
    assert("max_context_window"@[0] != "use_responses_lite"@[0]);
    assert("visibility"@[0] != "shell_type"@[0]);
    assert("prefer_websockets"@[0] != "support_verbosity"@[0]);
    assert("prefer_websockets"@[0] != "truncation_policy"@[0]);
    assert("prefer_websockets"@[0] != "base_instructions"@[0]);
    assert("supports_parallel_tool_calls"@[0] != "experimental_supported_tools"@[0]);
    assert("support_verbosity"@[0] != "truncation_policy"@[0]);
    assert("support_verbosity"@[0] != "base_instructions"@[0]);
    assert("truncation_policy"@[0] != "base_instructions"@[0]);
    reveal_strlit("low");
    reveal_strlit("ultra");
    assert("low"@.len() == 3 && "ultra"@.len() == 5);
    let m = probe_catalog_v().get_arr("models"@)->0;
    let a = pinned(seed_of(None), "doctor/resp"@, "responses"@, 131072, Some("low"@), None);
    let b = pinned(seed_of(None), "doctorchat/chat"@, "chat"@, 131072, Some("low"@), None);
    assert(m[0] == a);
    assert(m[1] == b);
}

/// A scripted turn of text says it, ends, counts its tokens and closes.
pub proof fn scripted_turns_say_their_text(text: Seq<char>)
    ensures
        basic_turn(text).len() == 4,
        exists|d: JsonV|
            basic_turn(text)[0] == #[trigger] json_text(d) && says_text(d, text) && first_choice(
                d,
            ).at("delta"@).get_str("role"@) == Some("assistant"@),
        basic_turn(text)[1]
            == "{\"choices\":[{\"index\":0,\"delta\":{},\"finish_reason\":\"stop\"}]}"@,
        basic_turn(text)[3] == "[DONE]"@,
{
    reveal_strlit("choices");
    reveal_strlit("index");
    reveal_strlit("delta");
    reveal_strlit("finish_reason");
    reveal_strlit("role");
    reveal_strlit("content");
    assert("choices"@.len() == 7);
    assert("index"@.len() == 5);
    assert("delta"@.len() == 5);
    assert("finish_reason"@.len() == 13);
    assert("role"@.len() == 4);
    assert("content"@.len() == 7);
    assert("choices"@[1] != "content"@[1]);
    assert("index"@[0] != "delta"@[0]);
    let d = chunk_v(text_delta(text));
    assert(says_text(d, text));
    assert(basic_turn(text)[0] == json_text(d));
}

/// A scripted turn that calls a tool calls the request's own first tool, in
/// either shape, and ends for that reason.
pub proof fn scripted_turns_call_the_tool(tool: JsonV)
    ensures
        tool_turn(tool).len() == 4,
        exists|d: JsonV, a: JsonV|
            tool_turn(tool)[1] == #[trigger] json_text(d) && calls_tool(
                d,
                tool_name(tool),
                #[trigger] json_text(a),
            ) && a.get_str("cmd"@) == Some("echo E2E_TOOL_OK"@),
        tool.at("function"@).get_str("name"@) is Some ==> tool.at("function"@).get_str("name"@)
            == Some(tool_name(tool)),
        tool.at("function"@).get_str("name"@) is None && tool.get_str("name"@) is Some
            ==> tool.get_str("name"@) == Some(tool_name(tool)),
        tool_turn(tool)[2]
            == "{\"choices\":[{\"index\":0,\"delta\":{},\"finish_reason\":\"tool_calls\"}]}"@,
        tool_turn(tool)[3] == "[DONE]"@,
{
    reveal_strlit("choices");
    reveal_strlit("index");
    reveal_strlit("delta");
    reveal_strlit("finish_reason");
    reveal_strlit("tool_calls");
    reveal_strlit("id");
    reveal_strlit("type");
    reveal_strlit("function");
    reveal_strlit("name");
    reveal_strlit("arguments");
    assert("choices"@.len() == 7);
    assert("index"@.len() == 5);
    assert("delta"@.len() == 5);
    assert("finish_reason"@.len() == 13);
    assert("tool_calls"@.len() == 10);
    assert("id"@.len() == 2);
    assert("type"@.len() == 4);
    assert("function"@.len() == 8);
    assert("name"@.len() == 4);
    assert("arguments"@.len() == 9);
    assert("index"@[0] != "delta"@[0]);
    assert("type"@[0] != "name"@[0]);
    let d = chunk_v(tool_delta(tool_name(tool)));
    let a = JsonV::object().set("cmd"@, JsonV::Str("echo E2E_TOOL_OK"@));
    assert(calls_tool(d, tool_name(tool), json_text(a)));
    assert(tool_turn(tool)[1] == json_text(d));
}

/// The scenarios answer what they are for: a fixed text, a text that counts its
/// turns, or a tool call followed by a text; any other is refused by name.
pub proof fn scenarios_answer_what_they_are_for(
    scenario: Seq<char>,
    turn: int,
    body: Option<JsonV>,
)
    requires
        turn >= 0,
    ensures
        scenario == "basic"@ ==> chat_script(scenario, turn, body) == Ok::<
            Seq<Seq<char>>,
            Seq<char>,
        >(basic_turn("E2E_BASIC_OK"@)),
        scenario == "multiturn"@ ==> chat_script(scenario, turn, body) == Ok::<
            Seq<Seq<char>>,
            Seq<char>,
        >(basic_turn("E2E_TURN_"@ + decimal(turn as nat) + "_OK"@)),
        scenario == "tools"@ && turn != 1 ==> chat_script(scenario, turn, body) == Ok::<
            Seq<Seq<char>>,
            Seq<char>,
        >(basic_turn("E2E_TOOL_DONE"@)),
        scenario == "tools"@ && turn == 1 && (body matches Some(b) && (b.get_arr(
            "tools"@,
        ) matches Some(t) && t.len() > 0)) ==> chat_script(scenario, turn, body) == Ok::<
            Seq<Seq<char>>,
            Seq<char>,
        >(tool_turn(body->0.get_arr("tools"@)->0[0])),
        scenario != "basic"@ && scenario != "multiturn"@ && scenario != "tools"@ ==> chat_script(
            scenario,
            turn,
            body,
        ) == Err::<Seq<Seq<char>>, Seq<char>>(
            "scenario '"@ + scenario + "' does not serve the chat path"@,
        ),
{
    reveal_strlit("basic");
    reveal_strlit("multiturn");
    reveal_strlit("tools");
    assert("basic"@.len() == 5);
    assert("multiturn"@.len() == 9);
    assert("tools"@.len() == 5);
    assert("basic"@[0] != "tools"@[0]);
}

/// The events of a scripted response tell one message from its beginning to its
/// end, each under the type that it says.
pub proof fn scripted_events_tell_their_message(text: Seq<char>)
    ensures
        ({
            let s = event_script(text);
            &&& s.len() == 5
            &&& forall|i: int|
                0 <= i < s.len() ==> (#[trigger] s[i]).1.get_str("type"@) == Some(s[i].0)
            &&& s[0].0 == "response.created"@ && s[1].0 == "response.output_item.added"@ && s[2].0
                == "response.output_text.delta"@ && s[3].0 == "response.output_item.done"@
                && s[4].0 == "response.completed"@
            &&& tells_one_item(
                s[0].1,
                s[1].1,
                s[2].1,
                s[3].1,
                s[4].1,
                s[1].1.at("item"@).get_str("id"@)->0,
                text,
            )
            &&& is_message_of(s[3].1.at("item"@), text)
            &&& s[3].1.at("item"@).get_str("id"@) == s[1].1.at("item"@).get_str("id"@)
        }),
{
    reveal_strlit("type");
    reveal_strlit("response");
    reveal_strlit("id");
    reveal_strlit("status");
    reveal_strlit("model");
    reveal_strlit("output");
    reveal_strlit("usage");
    reveal_strlit("output_index");
    reveal_strlit("item");
    reveal_strlit("item_id");
    reveal_strlit("delta");
    reveal_strlit("role");
    reveal_strlit("content");
    reveal_strlit("text");
    assert("type"@.len() == 4);
    assert("response"@.len() == 8);
    assert("id"@.len() == 2);
    assert("status"@.len() == 6);
    assert("model"@.len() == 5);
    assert("output"@.len() == 6);
    assert("usage"@.len() == 5);
    assert("output_index"@.len() == 12);
    assert("item"@.len() == 4);
    assert("item_id"@.len() == 7);
    assert("delta"@.len() == 5);
    assert("role"@.len() == 4);
    assert("content"@.len() == 7);
    assert("text"@.len() == 4);
    assert("type"@[0] != "item"@[0]);
    assert("type"@[0] != "role"@[0]);
    assert("type"@[1] != "text"@[1]);
    assert("status"@[0] != "output"@[0]);
    assert("model"@[0] != "usage"@[0]);
    assert("model"@[0] != "delta"@[0]);
    assert("usage"@[0] != "delta"@[0]);
    assert("item"@[0] != "role"@[0]);
    assert("item"@[0] != "text"@[0]);
    assert("item_id"@[0] != "content"@[0]);
    assert("role"@[0] != "text"@[0]);
    let s = event_script(text);
    assert(s[4].1.at("response"@).get_arr("output"@)->0 =~= seq![s[3].1.at("item"@)]);
}

/// A recorded request keeps its path, its authorization and its body.
pub proof fn records_keep_the_request(path: Seq<char>, auth: Seq<char>, body: Option<JsonV>)
    ensures
        record_v(path, auth, body).get_str("path"@) == Some(path),
        record_v(path, auth, body).get_str("auth"@) == Some(auth),
        body matches Some(b) ==> record_v(path, auth, body).get("body"@) == Some(b),
        body is None ==> record_v(path, auth, body).get("body"@) == Some(JsonV::Null),
{
    reveal_strlit("path");
    reveal_strlit("auth");
    reveal_strlit("body");
    assert("path"@.len() == 4);
    assert("auth"@.len() == 4);
    assert("body"@.len() == 4);
    assert("path"@[0] != "auth"@[0]);
    assert("path"@[0] != "body"@[0]);
    assert("auth"@[0] != "body"@[0]);
}

/// The summary of a request counts its tools, names the types of its items or the
/// roles of its messages, and its model.
pub proof fn summaries_tell_tools_items_and_model(req: JsonV)
    ensures
        summary_of(req) == "tools: "@ + decimal(tools_of(req).len()) + ", item types: ["@ + joined(
            kinds_of(req),
            ", "@,
        ) + "], model: "@ + (match req.get_str("model"@) {
            Some(m) => m,
            None => "?"@,
        }),
        req.get_arr("tools"@) matches Some(t) ==> tools_of(req) == t,
        req.get_arr("tools"@) is None ==> tools_of(req).len() == 0,
        req.get_arr("input"@) matches Some(i) ==> kinds_of(req) == field_texts(
            i,
            "type"@,
            i.len() as int,
        ),
        req.get_arr("input"@) is None && req.get_arr("messages"@) is Some ==> kinds_of(req)
            == field_texts(
            req.get_arr("messages"@)->0,
            "role"@,
            req.get_arr("messages"@)->0.len() as int,
        ),
{
}

/// The tool round trip passes where the sentinel was touched, and blames the
/// missing sentinel where it was not.
pub proof fn round_trips_pass_where_the_sentinel_is(path: &str, touched: bool, r: Check)
    requires
        call_ensures(sentinel_check, (path, touched), r),
    ensures
        r.name@ == "tool round-trip executed"@,
        touched ==> r.status == CheckStatus::Pass && r.detail@ == path@,
        !touched ==> r.status == CheckStatus::Fail && r.detail@ == "sentinel "@ + path@
            + " missing — codex did not execute the tool call"@,
{
}

/// What a probe finds wrong is named: a request without tools by its summary, an
/// item that leaked, types that are not known, and the model that was sent.
pub proof fn probes_name_what_is_wrong(requests: Seq<JsonV>, endpoint: Seq<char>, model: Seq<char>)
    requires
        requests.len() > 0,
    ensures
        ({
            let r = shape_report(requests, endpoint, model);
            let q = requests[0];
            &&& r[0].detail == decimal(requests.len()) + " round(s) recorded"@
            &&& r[1].status == CheckStatus::Fail ==> r[1].detail
                == "no function tools reached the upstream — dialect delivery not normalized ("@
                + summary_of(q) + ")"@
            &&& endpoint == "responses"@ && r[2].status == CheckStatus::Fail ==> r[2].detail
                == "additional_tools item leaked through the router"@
            &&& endpoint == "responses"@ && r[3].status == CheckStatus::Fail ==> r[3].detail
                == "unknown item type(s): "@ + joined(
                unknown_types(input_of(q), input_of(q).len() as int),
                ", "@,
            ) + " — review before allowing"@
            &&& r.last().status == CheckStatus::Fail && q.get("model"@) is Some ==> r.last().detail
                == "expected "@ + model + ", got "@ + json_text(q.get("model"@)->0)
            &&& r.last().status == CheckStatus::Fail && q.get("model"@) is None ==> r.last().detail
                == "expected "@ + model + ", got "@ + json_text(JsonV::Str("null"@))
        }),
{
}

} // verus!
