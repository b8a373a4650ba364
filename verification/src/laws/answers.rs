//! What a converted answer says: its calls, its text and its reasoning are the
//! same on the wire, in the completed response and in the session.

use crate::convert::response::{
    after_tool_delta, entry_at, entry_position, event, final_arguments, finished_calls, has_payload,
    message_items, ordered, output_item, with_calls, with_entry, CallsOut, ConverterV, EntryV,
    EventV, NameMap,
};
use crate::convert::runs::gates_closed;
use crate::heal::HealGates;
use crate::heal::dsml::CallV;
use crate::heal::responses::item_event;
use crate::json::{json_text, JsonV};
use crate::text::all_ws;
use crate::wire::chat::{ChatMessageV, ChatUsage, ChunkV, ToolDeltaV};
use vstd::prelude::*;

verus! {

/// Whether an item is the function call of that id: with the name that the
/// called one stands for, its namespace where it stands for one in a namespace,
/// and those arguments.
pub open spec fn is_call_of(
    item: JsonV,
    id: Seq<char>,
    called: Seq<char>,
    names: NameMap,
    arguments: Seq<char>,
) -> bool {
    &&& item.get_str("type"@) == Some("function_call"@)
    &&& item.get_str("call_id"@) == Some(id)
    &&& item.get_str("arguments"@) == Some(arguments)
    &&& names.dom().contains(called) ==> item.get_str("name"@) == Some(names[called].name)
        && item.get_str("namespace"@) == Some(names[called].namespace)
    &&& !names.dom().contains(called) ==> item.get_str("name"@) == Some(called) && item.get(
        "namespace"@,
    ) is None
}

/// Whether an event has that type, inside and out, and the payload `d`.
pub open spec fn says(e: EventV, kind: Seq<char>, d: JsonV) -> bool {
    e.0 == kind && e.1 == json_text(d) && d.get_str("type"@) == Some(kind)
}

/// The entries that have a name, in order.
pub open spec fn named(entries: Seq<EntryV>) -> Seq<EntryV>
    decreases entries.len(),
{
    if entries.len() == 0 {
        Seq::empty()
    } else if entries.last().name.len() == 0 {
        named(entries.drop_last())
    } else {
        named(entries.drop_last()).push(entries.last())
    }
}

/// The arguments that a call ends with: what was gathered, and an empty object
/// where that is blank.
pub open spec fn ends_with(gathered: Seq<char>, arguments: Seq<char>) -> bool {
    (all_ws(gathered) ==> arguments == "{}"@) && (!all_ws(gathered) ==> arguments == gathered)
}

/// Whether the `k`-th finished call is that of an entry, everywhere: the added
/// event announces it without arguments, the delta brings them, the done event
/// carries the item that the completed response has, and the session keeps a
/// call of the same id, name, namespace and arguments.
pub open spec fn tells_call(
    c: CallsOut,
    k: int,
    e: EntryV,
    names: NameMap,
    index: u64,
    added: JsonV,
    delta: JsonV,
    done: JsonV,
) -> bool {
    let args = c.items[k].get_str("arguments"@)->0;
    let id = c.output[k].get_str("id"@);
    &&& says(c.events[3 * k], "response.output_item.added"@, added)
    &&& says(c.events[3 * k + 1], "response.function_call_arguments.delta"@, delta)
    &&& says(c.events[3 * k + 2], "response.output_item.done"@, done)
    &&& ends_with(e.arguments, args)
    &&& is_call_of(added.at("item"@), e.id, e.name, names, Seq::empty())
    &&& added.at("item"@).get_str("status"@) == Some("in_progress"@)
    &&& is_call_of(c.output[k], e.id, e.name, names, args)
    &&& c.output[k].get_str("status"@) == Some("completed"@)
    &&& is_call_of(c.items[k], e.id, e.name, names, args)
    &&& done.at("item"@) == c.output[k]
    &&& delta.get_str("delta"@) == Some(args)
    &&& id is Some && id->0.len() >= 3 && id->0.take(3) == "fc_"@
    &&& added.at("item"@).get_str("id"@) == id
    &&& delta.get_str("item_id"@) == id
    &&& added.at("output_index"@).as_u64() == Some(index)
    &&& delta.at("output_index"@).as_u64() == Some(index)
    &&& done.at("output_index"@).as_u64() == Some(index)
}

/// Whether some payloads tell the `k`-th call.
pub open spec fn is_told(c: CallsOut, k: int, e: EntryV, names: NameMap, index: u64) -> bool {
    exists|added: JsonV, delta: JsonV, done: JsonV|
        tells_call(c, k, e, names, index, added, delta, done)
}

proof fn lemma_call_keys()
    ensures
        "type"@ != "id"@,
        "type"@ != "call_id"@,
        "type"@ != "name"@,
        "type"@ != "arguments"@,
        "type"@ != "status"@,
        "type"@ != "namespace"@,
        "type"@ != "output_index"@,
        "type"@ != "item"@,
        "type"@ != "item_id"@,
        "type"@ != "delta"@,
        "id"@ != "call_id"@,
        "id"@ != "name"@,
        "id"@ != "arguments"@,
        "id"@ != "status"@,
        "id"@ != "namespace"@,
        "call_id"@ != "name"@,
        "call_id"@ != "arguments"@,
        "call_id"@ != "status"@,
        "call_id"@ != "namespace"@,
        "name"@ != "arguments"@,
        "name"@ != "status"@,
        "name"@ != "namespace"@,
        "arguments"@ != "status"@,
        "arguments"@ != "namespace"@,
        "status"@ != "namespace"@,
        "output_index"@ != "item"@,
        "output_index"@ != "item_id"@,
        "output_index"@ != "delta"@,
        "item_id"@ != "delta"@,
{
    reveal_strlit("type");
    reveal_strlit("id");
    reveal_strlit("call_id");
    reveal_strlit("name");
    reveal_strlit("arguments");
    reveal_strlit("status");
    reveal_strlit("namespace");
    reveal_strlit("output_index");
    reveal_strlit("item");
    reveal_strlit("item_id");
    reveal_strlit("delta");
    assert("type"@.len() == 4);
    assert("id"@.len() == 2);
    assert("call_id"@.len() == 7);
    assert("name"@.len() == 4);
    assert("arguments"@.len() == 9);
    assert("status"@.len() == 6);
    assert("namespace"@.len() == 9);
    assert("output_index"@.len() == 12);
    assert("item"@.len() == 4);
    assert("item_id"@.len() == 7);
    assert("delta"@.len() == 5);
    assert("type"@[0] != "name"@[0]);
    assert("type"@[0] != "item"@[0]);
    assert("call_id"@[0] != "item_id"@[0]);
    assert("name"@[0] != "item"@[0]);
    assert("arguments"@[0] != "namespace"@[0]);
}

/// Every tool call that a stream gathered under a name is told in full: the
/// added item, the done item, the item of the completed output and the stored
/// item have its id, and the same name, namespace and final arguments. Calls
/// without a name are not told.
pub proof fn gathered_calls_are_told_alike(
    entries: Seq<EntryV>,
    names: NameMap,
    index: u64,
    uuids: Seq<Seq<char>>,
)
    requires
        index + entries.len() < u64::MAX,
    ensures
        ({
            let c = finished_calls(entries, names, index, uuids);
            let told = named(entries);
            &&& told.len() <= entries.len()
            &&& c.output.len() == told.len()
            &&& c.items.len() == told.len()
            &&& c.events.len() == 3 * told.len()
            &&& c.next_index == index + told.len()
            &&& forall|k: int|
                0 <= k < told.len() ==> is_told(
                    c,
                    k,
                    #[trigger] told[k],
                    names,
                    (index + k) as u64,
                )
        }),
    decreases entries.len(),
{
    let c = finished_calls(entries, names, index, uuids);
    let told = named(entries);
    if entries.len() > 0 {
        let front = entries.drop_last();
        gathered_calls_are_told_alike(front, names, index, uuids);
        let a = finished_calls(front, names, index, uuids);
        let e = entries.last();
        let before = named(front);
        if e.name.len() > 0 {
            let n = before.len() as int;
            lemma_call_keys();
            reveal_strlit("fc_");
            assert forall|k: int| 0 <= k < told.len() implies is_told(
                c,
                k,
                #[trigger] told[k],
                names,
                (index + k) as u64,
            ) by {
                if k < n {
                    assert(told[k] == before[k]);
                    let at = (index + k) as u64;
                    assert(is_told(a, k, before[k], names, at));
                    let (added, delta, done) = choose|added: JsonV, delta: JsonV, done: JsonV|
                        tells_call(a, k, before[k], names, at, added, delta, done);
                    assert(c.events[3 * k] == a.events[3 * k]);
                    assert(c.events[3 * k + 1] == a.events[3 * k + 1]);
                    assert(c.events[3 * k + 2] == a.events[3 * k + 2]);
                    assert(tells_call(c, k, told[k], names, at, added, delta, done));
                } else {
                    let item_id = "fc_"@ + uuids[entries.len() - 1];
                    let at = a.next_index;
                    let name = crate::convert::response::decoded(e.name, names);
                    let args = final_arguments(e.arguments);
                    let added = item_event(
                        "response.output_item.added"@,
                        at,
                        crate::convert::response::wire_call(
                            item_id,
                            e.id,
                            name,
                            Seq::empty(),
                            "in_progress"@,
                        ),
                    );
                    let delta = JsonV::object().set(
                        "type"@,
                        JsonV::Str("response.function_call_arguments.delta"@),
                    ).set("item_id"@, JsonV::Str(item_id)).set(
                        "output_index"@,
                        JsonV::uint(at),
                    ).set("delta"@, JsonV::Str(args));
                    let done = item_event("response.output_item.done"@, at, c.output[k]);
                    assert(item_id.take(3) =~= "fc_"@);
                    assert(c.events.len() == 3 * n + 3);
                    assert(c.events[3 * k] == event("response.output_item.added"@, added));
                    assert(c.events[3 * k + 1] == event(
                        "response.function_call_arguments.delta"@,
                        delta,
                    ));
                    assert(c.events[3 * k + 2] == event("response.output_item.done"@, done));
                    assert(tells_call(c, k, e, names, (index + k) as u64, added, delta, done));
                }
            }
        } else {
            assert forall|k: int| 0 <= k < told.len() implies is_told(
                c,
                k,
                #[trigger] told[k],
                names,
                (index + k) as u64,
            ) by {
                assert(told[k] == before[k]);
            }
        }
    }
}

/// Whether an item is a reasoning item with that text.
pub open spec fn is_reasoning_of(item: JsonV, text: Seq<char>) -> bool {
    &&& item.get_str("type"@) == Some("reasoning"@)
    &&& item.get_arr("summary"@) matches Some(s) && s.len() == 1 && s[0].get_str("type"@) == Some(
        "summary_text"@,
    ) && s[0].get_str("text"@) == Some(text)
}

/// Whether an item is an assistant's message with that text.
pub open spec fn is_message_of(item: JsonV, text: Seq<char>) -> bool {
    &&& item.get_str("type"@) == Some("message"@)
    &&& item.get_str("role"@) == Some("assistant"@)
    &&& item.get_arr("content"@) matches Some(s) && s.len() == 1 && s[0].get_str("type"@) == Some(
        "output_text"@,
    ) && s[0].get_str("text"@) == Some(text)
}

/// Whether token counts are told: those of the prompt as input, those of the
/// answer as output, and their sum.
pub open spec fn tells_usage(u: JsonV, usage: Option<ChatUsage>) -> bool {
    let input: u64 = match usage {
        Some(x) => x.prompt_tokens as u64,
        None => 0,
    };
    let output: u64 = match usage {
        Some(x) => x.completion_tokens as u64,
        None => 0,
    };
    &&& u.at("input_tokens"@).as_u64() == Some(input)
    &&& u.at("output_tokens"@).as_u64() == Some(output)
    &&& u.at("total_tokens"@).as_u64() == Some((input + output) as u64)
}

/// Whether a payload completes a response with an output.
pub open spec fn completes(
    d: JsonV,
    id: Seq<char>,
    model: Seq<char>,
    output: Seq<JsonV>,
    usage: Option<ChatUsage>,
) -> bool {
    &&& d.at("response"@).get_str("id"@) == Some(id)
    &&& d.at("response"@).get_str("status"@) == Some("completed"@)
    &&& d.at("response"@).get_str("model"@) == Some(model)
    &&& d.at("response"@).get_arr("output"@) == Some(output)
    &&& tells_usage(d.at("response"@).at("usage"@), usage)
}

/// Whether an event completes a response with an output.
pub open spec fn is_completion(e: EventV, st: ConverterV, output: Seq<JsonV>) -> bool {
    exists|d: JsonV|
        #![trigger json_text(d)]
        says(e, "response.completed"@, d) && completes(
            d,
            st.response_id,
            st.model,
            output,
            st.usage,
        )
}

/// The completed event ends the stream with the items that were told: the text
/// and the reasoning that were gathered, then the calls. It names the response
/// and the model, and counts the tokens.
pub proof fn completed_events_carry_the_answer(st: ConverterV, fcs: Seq<Seq<char>>)
    ensures
        ({
            let output = st.completed_output(fcs);
            let calls = finished_calls(st.tool_calls, st.names, st.next_output_index, fcs).output;
            let n = output.len() - calls.len();
            &&& is_completion(st.emit_finish(fcs).out.last(), st, output)
            &&& n == (if st.reasoning_output_index is Some {
                1int
            } else {
                0int
            }) + (if st.message_output_index is Some {
                1int
            } else {
                0int
            })
            &&& output.skip(n) == calls
            &&& st.reasoning_output_index is Some ==> exists|i: int|
                0 <= i < n && is_reasoning_of(#[trigger] output[i], st.reasoning)
                    && output[i].get_str("id"@) == Some(st.reasoning_item_id)
            &&& st.message_output_index is Some ==> exists|i: int|
                0 <= i < n && is_message_of(#[trigger] output[i], st.text) && output[i].get_str(
                    "id"@,
                ) == Some(st.msg_item_id) && output[i].get_str("status"@) == Some("completed"@)
        }),
{
    reveal_strlit("type");
    reveal_strlit("id");
    reveal_strlit("status");
    reveal_strlit("model");
    reveal_strlit("output");
    reveal_strlit("usage");
    reveal_strlit("response");
    reveal_strlit("summary");
    reveal_strlit("role");
    reveal_strlit("content");
    reveal_strlit("text");
    reveal_strlit("input_tokens");
    reveal_strlit("output_tokens");
    reveal_strlit("total_tokens");
    assert("type"@.len() == 4);
    assert("id"@.len() == 2);
    assert("status"@.len() == 6);
    assert("model"@.len() == 5);
    assert("output"@.len() == 6);
    assert("usage"@.len() == 5);
    assert("response"@.len() == 8);
    assert("summary"@.len() == 7);
    assert("role"@.len() == 4);
    assert("content"@.len() == 7);
    assert("text"@.len() == 4);
    assert("input_tokens"@.len() == 12);
    assert("output_tokens"@.len() == 13);
    assert("total_tokens"@.len() == 12);
    assert("type"@[0] != "role"@[0]);
    assert("type"@[1] != "text"@[1]);
    assert("status"@[0] != "output"@[0]);
    assert("model"@[0] != "usage"@[0]);
    assert("summary"@[0] != "content"@[0]);
    assert("role"@[0] != "text"@[0]);
    assert("input_tokens"@[0] != "total_tokens"@[0]);
    let output = st.completed_output(fcs);
    let calls = finished_calls(st.tool_calls, st.names, st.next_output_index, fcs).output;
    let n = output.len() - calls.len();
    let done = st.done_items();
    assert(output.skip(n) =~= calls);
    let d = JsonV::object().set("type"@, JsonV::Str("response.completed"@)).set(
        "response"@,
        JsonV::object().set("id"@, JsonV::Str(st.response_id)).set(
            "status"@,
            JsonV::Str("completed"@),
        ).set("model"@, JsonV::Str(st.model)).set("output"@, JsonV::Arr(output)).set(
            "usage"@,
            crate::convert::response::usage_json(st.usage),
        ),
    );
    assert(says(st.emit_finish(fcs).out.last(), "response.completed"@, d));
    assert(completes(d, st.response_id, st.model, output, st.usage));
    let r = st.reasoning_json(st.reasoning);
    let m = st.message_json(
        "completed"@,
        seq![crate::heal::merge::text_part("output_text"@, st.text)],
    );
    assert(is_reasoning_of(r, st.reasoning));
    assert(is_message_of(m, st.text));
    if st.reasoning_output_index is Some {
        let i: int = if done[0].1 == r {
            0
        } else {
            1
        };
        assert(output[i] == r);
    }
    if st.message_output_index is Some {
        let i: int = if done[0].1 == m {
            0
        } else {
            1
        };
        assert(output[i] == m);
    }
}

/// What the session keeps of a streamed answer is what was told: first the
/// reasoning, then the text, then every call that has a name, with the id, the
/// name and the arguments that the completed response has.
pub proof fn sessions_keep_what_was_told(st: ConverterV, fcs: Seq<Seq<char>>, k: int)
    requires
        st.next_output_index + st.tool_calls.len() < u64::MAX,
        0 <= k < named(st.tool_calls).len(),
    ensures
        ({
            let output = st.completed_output(fcs);
            let kept = st.emit_finish(fcs).st.items;
            let calls = named(st.tool_calls).len();
            let o = output[output.len() - calls + k];
            let s = kept[kept.len() - calls + k];
            &&& kept.len() - st.items.len() == output.len()
            &&& kept.take(st.items.len() as int) == st.items
            &&& o.get_str("call_id"@) == Some(named(st.tool_calls)[k].id)
            &&& s.get_str("type"@) == o.get_str("type"@)
            &&& s.get_str("call_id"@) == o.get_str("call_id"@)
            &&& s.get_str("name"@) == o.get_str("name"@)
            &&& s.get("namespace"@) == o.get("namespace"@)
            &&& s.get_str("arguments"@) == o.get_str("arguments"@)
            &&& st.reasoning_output_index is Some ==> is_reasoning_of(
                kept[st.items.len() as int],
                st.reasoning,
            )
        }),
{
    lemma_call_keys();
    gathered_calls_are_told_alike(st.tool_calls, st.names, st.next_output_index, fcs);
    let c = finished_calls(st.tool_calls, st.names, st.next_output_index, fcs);
    let e = named(st.tool_calls)[k];
    let index = (st.next_output_index + k) as u64;
    assert(is_told(c, k, e, st.names, index));
    let (added, delta, done) = choose|added: JsonV, delta: JsonV, done: JsonV|
        tells_call(c, k, e, st.names, index, added, delta, done);
    let output = st.completed_output(fcs);
    let kept = st.emit_finish(fcs).st.items;
    assert(kept.take(st.items.len() as int) =~= st.items);
    assert(output[output.len() - c.output.len() + k] == c.output[k]);
    assert(kept[kept.len() - c.items.len() + k] == c.items[k]);
    lemma_namespaces_agree(c.output[k], c.items[k], e, st.names);
    sessions_keep_text(st, fcs);
}

proof fn lemma_namespaces_agree(o: JsonV, s: JsonV, e: EntryV, names: NameMap)
    requires
        is_call_of(o, e.id, e.name, names, s.get_str("arguments"@)->0),
        is_call_of(s, e.id, e.name, names, s.get_str("arguments"@)->0),
    ensures
        o.get("namespace"@) == s.get("namespace"@),
{
}

/// The session keeps the reasoning and the text that were told, reasoning
/// first.
pub proof fn sessions_keep_text(st: ConverterV, fcs: Seq<Seq<char>>)
    ensures
        ({
            let kept = st.emit_finish(fcs).st.items;
            let n = st.items.len() as int;
            let m = n + if st.reasoning_output_index is Some {
                1int
            } else {
                0int
            };
            &&& st.reasoning_output_index is Some ==> kept.len() > n && is_reasoning_of(
                kept[n],
                st.reasoning,
            )
            &&& st.message_output_index is Some ==> kept.len() > m && is_message_of(
                kept[m],
                st.text,
            )
        }),
{
    reveal_strlit("type");
    reveal_strlit("summary");
    reveal_strlit("role");
    reveal_strlit("content");
    reveal_strlit("text");
    assert("type"@.len() == 4);
    assert("summary"@.len() == 7);
    assert("role"@.len() == 4);
    assert("content"@.len() == 7);
    assert("text"@.len() == 4);
    assert("type"@[0] != "role"@[0]);
    assert("type"@[1] != "text"@[1]);
    assert("summary"@[0] != "content"@[0]);
    assert("role"@[0] != "text"@[0]);
    let kept = st.emit_finish(fcs).st.items;
    let n = st.items.len() as int;
    let r = crate::convert::response::reasoning_item_v(st.reasoning);
    let m = crate::convert::response::message_item_v(st.text);
    assert(is_reasoning_of(r, st.reasoning));
    assert(is_message_of(m, st.text));
    if st.reasoning_output_index is Some {
        assert(kept[n] == r);
    }
}

/// Whether an event announces the message item, empty and in progress.
pub open spec fn announces_message(e: EventV, id: Seq<char>, index: u64) -> bool {
    exists|d: JsonV|
        #![trigger json_text(d)]
        says(e, "response.output_item.added"@, d) && d.at("output_index"@).as_u64() == Some(index)
            && d.at("item"@).get_str("type"@) == Some("message"@) && d.at("item"@).get_str("id"@)
            == Some(id) && d.at("item"@).get_str("role"@) == Some("assistant"@) && d.at(
            "item"@,
        ).get_str("status"@) == Some("in_progress"@) && d.at("item"@).get_arr("content"@) == Some(
            Seq::<JsonV>::empty(),
        )
}

/// Whether an event announces the reasoning item, without text.
pub open spec fn announces_reasoning(e: EventV, id: Seq<char>, index: u64) -> bool {
    exists|d: JsonV|
        #![trigger json_text(d)]
        says(e, "response.output_item.added"@, d) && d.at("output_index"@).as_u64() == Some(index)
            && is_reasoning_of(d.at("item"@), Seq::empty()) && d.at("item"@).get_str("id"@) == Some(
            id,
        )
}

/// Whether an event brings a piece of the item of that id and index.
pub open spec fn brings(
    e: EventV,
    kind: Seq<char>,
    id: Seq<char>,
    index: u64,
    piece: Seq<char>,
) -> bool {
    exists|d: JsonV|
        #![trigger json_text(d)]
        says(e, kind, d) && d.get_str("item_id"@) == Some(id) && d.at("output_index"@).as_u64()
            == Some(index) && d.get_str("delta"@) == Some(piece)
}

/// Text is told as it comes: as a delta of the message item, which is announced
/// first, once; and it is gathered behind the text before it. Nothing is told of
/// no text.
pub proof fn text_is_told_as_it_comes(st: ConverterV, text: Seq<char>)
    ensures
        ({
            let step = st.text_delta(text);
            let index = step.st.message_output_index;
            &&& step.st.text == st.text + text
            &&& text.len() == 0 ==> step.out.len() == 0 && step.st.message_output_index
                == st.message_output_index
            &&& text.len() > 0 ==> index is Some && brings(
                step.out.last(),
                "response.output_text.delta"@,
                st.msg_item_id,
                index->0,
                text,
            )
            &&& text.len() > 0 && st.message_output_index is Some ==> index
                == st.message_output_index && step.out.len() == 1
            &&& text.len() > 0 && st.message_output_index is None ==> index == Some(
                st.next_output_index,
            ) && step.out.len() == 2 && announces_message(
                step.out[0],
                st.msg_item_id,
                index->0,
            )
        }),
{
    reveal_strlit("type");
    reveal_strlit("id");
    reveal_strlit("role");
    reveal_strlit("status");
    reveal_strlit("content");
    reveal_strlit("item");
    reveal_strlit("item_id");
    reveal_strlit("output_index");
    reveal_strlit("delta");
    assert("type"@.len() == 4);
    assert("id"@.len() == 2);
    assert("role"@.len() == 4);
    assert("status"@.len() == 6);
    assert("content"@.len() == 7);
    assert("item"@.len() == 4);
    assert("item_id"@.len() == 7);
    assert("output_index"@.len() == 12);
    assert("delta"@.len() == 5);
    assert("type"@[0] != "role"@[0]);
    assert("type"@[0] != "item"@[0]);
    assert("role"@[0] != "item"@[0]);
    assert("content"@[0] != "item_id"@[0]);
    let step = st.text_delta(text);
    if text.len() == 0 {
        assert(st.text + text =~= st.text);
    } else {
        let index = step.st.message_output_index->0;
        let d = JsonV::object().set("type"@, JsonV::Str("response.output_text.delta"@)).set(
            "item_id"@,
            JsonV::Str(st.msg_item_id),
        ).set("output_index"@, JsonV::uint(index)).set("delta"@, JsonV::Str(text));
        assert(says(step.out.last(), "response.output_text.delta"@, d));
        let a = item_event(
            "response.output_item.added"@,
            index,
            st.message_json("in_progress"@, Seq::empty()),
        );
        assert(st.message_output_index is None ==> says(
            step.out[0],
            "response.output_item.added"@,
            a,
        ));
    }
}

/// Reasoning is told as it comes: as a delta of the reasoning item, which is
/// announced first, once; and it is gathered behind the reasoning before it.
pub proof fn reasoning_is_told_as_it_comes(st: ConverterV, text: Seq<char>)
    ensures
        ({
            let step = st.reasoning_delta(text);
            let index = step.st.reasoning_output_index;
            &&& step.st.reasoning == st.reasoning + text
            &&& text.len() == 0 ==> step.out.len() == 0 && step.st.reasoning_output_index
                == st.reasoning_output_index
            &&& text.len() > 0 ==> index is Some && brings(
                step.out.last(),
                "response.reasoning_summary_text.delta"@,
                st.reasoning_item_id,
                index->0,
                text,
            )
            &&& text.len() > 0 && st.reasoning_output_index is Some ==> index
                == st.reasoning_output_index && step.out.len() == 1
            &&& text.len() > 0 && st.reasoning_output_index is None ==> index == Some(
                st.next_output_index,
            ) && step.out.len() == 2 && announces_reasoning(
                step.out[0],
                st.reasoning_item_id,
                index->0,
            )
        }),
{
    reveal_strlit("type");
    reveal_strlit("id");
    reveal_strlit("summary");
    reveal_strlit("text");
    reveal_strlit("item");
    reveal_strlit("item_id");
    reveal_strlit("output_index");
    reveal_strlit("summary_index");
    reveal_strlit("delta");
    assert("type"@.len() == 4);
    assert("id"@.len() == 2);
    assert("summary"@.len() == 7);
    assert("text"@.len() == 4);
    assert("item"@.len() == 4);
    assert("item_id"@.len() == 7);
    assert("output_index"@.len() == 12);
    assert("summary_index"@.len() == 13);
    assert("delta"@.len() == 5);
    assert("type"@[1] != "text"@[1]);
    assert("type"@[0] != "item"@[0]);
    assert("summary"@[0] != "item_id"@[0]);
    assert("text"@[0] != "item"@[0]);
    let step = st.reasoning_delta(text);
    if text.len() == 0 {
        assert(st.reasoning + text =~= st.reasoning);
    } else {
        let index = step.st.reasoning_output_index->0;
        let d = JsonV::object().set(
            "type"@,
            JsonV::Str("response.reasoning_summary_text.delta"@),
        ).set("item_id"@, JsonV::Str(st.reasoning_item_id)).set(
            "output_index"@,
            JsonV::uint(index),
        ).set("summary_index"@, JsonV::uint(0)).set("delta"@, JsonV::Str(text));
        assert(says(step.out.last(), "response.reasoning_summary_text.delta"@, d));
        let a = item_event(
            "response.output_item.added"@,
            index,
            st.reasoning_json(Seq::empty()),
        );
        assert(is_reasoning_of(a.at("item"@), Seq::empty()));
        assert(st.reasoning_output_index is None ==> says(
            step.out[0],
            "response.output_item.added"@,
            a,
        ));
    }
}

/// Whether an event opens a response.
pub open spec fn opens(e: EventV, id: Seq<char>, model: Seq<char>) -> bool {
    exists|d: JsonV|
        #![trigger json_text(d)]
        says(e, "response.created"@, d) && d.at("response"@).get_str("id"@) == Some(id) && d.at(
            "response"@,
        ).get_str("status"@) == Some("in_progress"@) && d.at("response"@).get_str("model"@)
            == Some(model)
}

/// A response is opened under its id and model.
pub proof fn responses_are_opened_by_id(st: ConverterV)
    requires
        !st.started,
    ensures
        st.start().out.len() == 1,
        opens(st.start().out[0], st.response_id, st.model),
{
    reveal_strlit("type");
    reveal_strlit("id");
    reveal_strlit("status");
    reveal_strlit("model");
    reveal_strlit("response");
    assert("type"@.len() == 4);
    assert("id"@.len() == 2);
    assert("status"@.len() == 6);
    assert("model"@.len() == 5);
    assert("response"@.len() == 8);
    let d = JsonV::object().set("type"@, JsonV::Str("response.created"@)).set(
        "response"@,
        JsonV::object().set("id"@, JsonV::Str(st.response_id)).set(
            "status"@,
            JsonV::Str("in_progress"@),
        ).set("model"@, JsonV::Str(st.model)),
    );
    assert(says(st.start().out[0], "response.created"@, d));
}

/// Whether an event reports an error of a response.
pub open spec fn reports(e: EventV, message: Seq<char>, id: Seq<char>) -> bool {
    exists|d: JsonV|
        #![trigger json_text(d)]
        says(e, "error"@, d) && d.get_str("message"@) == Some(message) && d.get_str(
            "response_id"@,
        ) == Some(id)
}

/// Whether an event fails a response.
pub open spec fn fails(e: EventV, id: Seq<char>) -> bool {
    exists|d: JsonV|
        #![trigger json_text(d)]
        says(e, "response.failed"@, d) && d.at("response"@).get_str("id"@) == Some(id) && d.at(
            "response"@,
        ).get_str("status"@) == Some("failed"@)
}

/// An error is reported with its message, and then the response fails.
pub proof fn errors_fail_the_response(st: ConverterV, message: Seq<char>)
    ensures
        st.failed(message).len() == 2,
        reports(st.failed(message)[0], message, st.response_id),
        fails(st.failed(message)[1], st.response_id),
{
    reveal_strlit("type");
    reveal_strlit("id");
    reveal_strlit("status");
    reveal_strlit("message");
    reveal_strlit("response");
    reveal_strlit("response_id");
    assert("type"@.len() == 4);
    assert("id"@.len() == 2);
    assert("status"@.len() == 6);
    assert("message"@.len() == 7);
    assert("response"@.len() == 8);
    assert("response_id"@.len() == 11);
    let a = JsonV::object().set("type"@, JsonV::Str("error"@)).set(
        "message"@,
        JsonV::Str(message),
    ).set("response_id"@, JsonV::Str(st.response_id));
    let b = JsonV::object().set("type"@, JsonV::Str("response.failed"@)).set(
        "response"@,
        JsonV::object().set("id"@, JsonV::Str(st.response_id)).set(
            "status"@,
            JsonV::Str("failed"@),
        ),
    );
    assert(says(st.failed(message)[0], "error"@, a));
    assert(says(st.failed(message)[1], "response.failed"@, b));
}

/// A chunk adds what it brings and forgets nothing: its reasoning, its finish
/// reason and its counts, where it has them. With both gates closed its text is
/// added as it is.
pub proof fn chunks_add_what_they_bring(st: ConverterV, c: ChunkV, uuids: Seq<Seq<char>>)
    ensures
        ({
            let after = st.chunk(c, uuids).st;
            &&& after.response_id == st.response_id && after.model == st.model && after.names
                == st.names && after.msg_item_id == st.msg_item_id && after.reasoning_item_id
                == st.reasoning_item_id && after.items == st.items
            &&& after.usage == match c.usage {
                Some(u) => Some(u),
                None => st.usage,
            }
            &&& c.delta is None ==> after.finish_reason == st.finish_reason && after.text == st.text
                && after.reasoning == st.reasoning && after.tool_calls == st.tool_calls
            &&& c.delta is Some ==> after.finish_reason == match c.finish_reason {
                Some(r) => Some(r),
                None => st.finish_reason,
            }
            &&& c.delta matches Some(d) ==> (gates_closed(st) ==> after.reasoning == st.reasoning
                + (match d.reasoning {
                Some(r) => r,
                None => Seq::empty(),
            }) && after.text == st.text + (match d.content {
                Some(t) => t,
                None => Seq::empty(),
            }))
            &&& c.delta matches Some(d) ==> (d.tool_calls.len() == 0 ==> after.tool_calls
                == st.tool_calls)
            &&& c.delta matches Some(d) ==> (d.tool_calls.len() == 1 ==> after.tool_calls
                == after_tool_delta(st.tool_calls, d.tool_calls[0], uuids[0]))
        }),
{
    if let Some(d) = c.delta {
        let reasoning = match d.reasoning {
            Some(r) => r,
            None => Seq::empty(),
        };
        let text = match d.content {
            Some(t) => t,
            None => Seq::empty(),
        };
        assert(reasoning + Seq::<char>::empty() =~= reasoning);
        assert(st.reasoning + Seq::<char>::empty() =~= st.reasoning);
        assert(st.text + Seq::<char>::empty() =~= st.text);
        if d.tool_calls.len() == 1 {
            assert(d.tool_calls.drop_last() =~= Seq::<ToolDeltaV>::empty());
            reveal_with_fuel(crate::convert::response::after_tool_deltas, 2);
        }
    }
}

/// Whether entries are others with one more, or with one changed, under an
/// index.
pub open spec fn has_only(r: Seq<EntryV>, entries: Seq<EntryV>, e: EntryV) -> bool {
    &&& r.contains(e)
    &&& forall|k: int|
        0 <= k < entries.len() && (#[trigger] entries[k]).index != e.index ==> r.contains(
            entries[k],
        )
    &&& forall|k: int|
        0 <= k < r.len() && (#[trigger] r[k]).index != e.index ==> entries.contains(r[k])
    &&& forall|k: int| 0 <= k < r.len() && (#[trigger] r[k]).index == e.index ==> r[k] == e
}

proof fn lemma_position(entries: Seq<EntryV>, index: u64, k: int)
    requires
        0 <= k <= entries.len(),
    ensures
        k <= entry_position(entries, index, k) <= entries.len(),
        forall|i: int|
            k <= i < entry_position(entries, index, k) ==> (#[trigger] entries[i]).index < index,
        entry_position(entries, index, k) < entries.len() ==> entries[entry_position(
            entries,
            index,
            k,
        )].index >= index,
    decreases entries.len() - k,
{
    if k < entries.len() && entries[k].index < index {
        lemma_position(entries, index, k + 1);
    }
}

proof fn lemma_with_entry(entries: Seq<EntryV>, e: EntryV)
    requires
        ordered(entries),
    ensures
        ordered(with_entry(entries, e)),
        has_only(with_entry(entries, e), entries, e),
{
    crate::convert::response::tool_calls_stay_ordered(entries, e);
    lemma_position(entries, e.index, 0);
    let p = entry_position(entries, e.index, 0);
    let r = with_entry(entries, e);
    assert(r[p] == e);
    assert forall|k: int| 0 <= k < entries.len() && (#[trigger] entries[k]).index != e.index implies r.contains(
        entries[k],
    ) by {
        if p < entries.len() && entries[p].index == e.index {
            assert(r[k] == entries[k]);
        } else if k < p {
            assert(r[k] == entries[k]);
        } else {
            assert(r[k + 1] == entries[k]);
        }
    }
    assert forall|k: int| 0 <= k < r.len() && (#[trigger] r[k]).index != e.index implies entries.contains(
        r[k],
    ) by {
        if p < entries.len() && entries[p].index == e.index {
            assert(r[k] == entries[k]);
        } else if k < p {
            assert(r[k] == entries[k]);
        } else {
            assert(r[k] == entries[k - 1]);
        }
    }
    assert forall|k: int| 0 <= k < r.len() && (#[trigger] r[k]).index == e.index implies r[k]
        == e by {
        if k < p {
            assert(r[k].index < r[p].index);
        } else if k > p {
            assert(r[p].index < r[k].index);
        }
    }
}

/// The first delta of a call starts it: with the id that it brings, or one of
/// its own where it brings none, its name and its arguments. All other calls
/// stay.
pub proof fn first_deltas_start_a_call(entries: Seq<EntryV>, d: ToolDeltaV, uuid: Seq<char>)
    requires
        ordered(entries),
        forall|k: int| 0 <= k < entries.len() ==> (#[trigger] entries[k]).index != d.index,
        (d.id matches Some(x) && x.len() > 0) || (d.name matches Some(x) && x.len() > 0) || (
        d.arguments matches Some(x) && x.len() > 0),
    ensures
        ({
            let r = after_tool_delta(entries, d, uuid);
            let e = EntryV {
                index: d.index,
                id: match d.id {
                    Some(x) => if x.len() > 0 {
                        x
                    } else {
                        "call_"@ + uuid
                    },
                    None => "call_"@ + uuid,
                },
                name: match d.name {
                    Some(x) => x,
                    None => Seq::empty(),
                },
                arguments: match d.arguments {
                    Some(x) => x,
                    None => Seq::empty(),
                },
            };
            ordered(r) && has_only(r, entries, e)
        }),
{
    lemma_position(entries, d.index, 0);
    let name = match d.name {
        Some(x) => x,
        None => Seq::empty(),
    };
    let arguments = match d.arguments {
        Some(x) => x,
        None => Seq::empty(),
    };
    let empty = Seq::<char>::empty();
    assert(name.len() == 0 ==> name =~= empty);
    assert(name.subrange(0, 0) =~= empty);
    assert(empty + arguments =~= arguments);
    let e = EntryV {
        index: d.index,
        id: match d.id {
            Some(x) => if x.len() > 0 {
                x
            } else {
                "call_"@ + uuid
            },
            None => "call_"@ + uuid,
        },
        name,
        arguments,
    };
    assert(after_tool_delta(entries, d, uuid) == with_entry(entries, e));
    lemma_with_entry(entries, e);
}

/// A further delta of a call adds to it: its arguments come behind those before
/// them, an id that it brings is the call's, and a name that it brings replaces
/// the one that it repeats and else comes behind it. All other calls stay.
pub proof fn further_deltas_add_to_their_call(
    entries: Seq<EntryV>,
    k: int,
    d: ToolDeltaV,
    uuid: Seq<char>,
)
    requires
        ordered(entries),
        0 <= k < entries.len(),
        entries[k].index == d.index,
        has_payload(d),
    ensures
        ({
            let r = after_tool_delta(entries, d, uuid);
            let old = entries[k];
            exists|e: EntryV| #[trigger]
                has_only(r, entries, e) && e.index == d.index && e.id == (match d.id {
                    Some(x) => if x.len() > 0 {
                        x
                    } else {
                        old.id
                    },
                    None => old.id,
                }) && e.arguments == old.arguments + (match d.arguments {
                    Some(x) => x,
                    None => Seq::empty(),
                }) && (match d.name {
                    None => e.name == old.name,
                    Some(x) => (x.len() == 0 ==> e.name == old.name) && (x.len() > 0 && x.len()
                        >= old.name.len() && x.take(old.name.len() as int) == old.name ==> e.name
                        == x) && (x.len() > 0 && !(x.len() >= old.name.len() && x.take(
                        old.name.len() as int,
                    ) == old.name) ==> e.name == old.name + x),
                })
        }),
{
    lemma_position(entries, d.index, 0);
    let p = entry_position(entries, d.index, 0);
    if p < k {
        assert(entries[p].index < entries[k].index);
    } else if p > k {
        assert(entries[k].index < d.index);
    }
    let old = entries[k];
    assert(entry_at(entries, d.index) == Some(old));
    if let Some(x) = d.name {
        if x.len() >= old.name.len() {
            assert(x.take(old.name.len() as int) =~= x.subrange(0, old.name.len() as int));
        }
    }
    let e = EntryV {
        index: d.index,
        id: match d.id {
            Some(x) => if x.len() == 0 {
                old.id
            } else {
                x
            },
            None => old.id,
        },
        name: crate::convert::response::grown_name(old.name, d.name),
        arguments: old.arguments + (match d.arguments {
            Some(x) => x,
            None => Seq::empty(),
        }),
    };
    assert(after_tool_delta(entries, d, uuid) == with_entry(entries, e));
    lemma_with_entry(entries, e);
}

/// A delta that brings nothing changes nothing.
pub proof fn empty_deltas_change_nothing(entries: Seq<EntryV>, d: ToolDeltaV, uuid: Seq<char>)
    requires
        d.id matches Some(x) ==> x.len() == 0,
        d.name matches Some(x) ==> x.len() == 0,
        d.arguments matches Some(x) ==> x.len() == 0,
    ensures
        after_tool_delta(entries, d, uuid) == entries,
{
}

/// Healed calls come behind the streamed ones, in order, each with an id of its
/// own and with the name and the arguments that were read out of the text.
pub proof fn healed_calls_join_behind(
    entries: Seq<EntryV>,
    index: u64,
    calls: Seq<CallV>,
    uuids: Seq<Seq<char>>,
)
    requires
        ordered(entries),
        entries.len() > 0 ==> entries.last().index < index,
        index + calls.len() < u64::MAX,
    ensures
        ({
            let r = with_calls(entries, index, calls, uuids).0;
            let n = entries.len() as int;
            &&& r.len() == n + calls.len()
            &&& r.take(n) == entries
            &&& with_calls(entries, index, calls, uuids).1 == index + calls.len()
            &&& forall|i: int|
                0 <= i < calls.len() ==> ({
                    let e = #[trigger] r[n + i];
                    &&& e.name == calls[i].name
                    &&& e.arguments == calls[i].arguments
                    &&& e.id == "call_dsml_"@ + uuids[i]
                    &&& e.index == index + i
                })
        }),
    decreases calls.len(),
{
    let n = entries.len() as int;
    if calls.len() > 0 {
        let m = calls.len() - 1;
        healed_calls_join_behind(entries, index, calls.drop_last(), uuids);
        let (before, at) = with_calls(entries, index, calls.drop_last(), uuids);
        let r = with_calls(entries, index, calls, uuids).0;
        lemma_position(before, at, 0);
        let p = entry_position(before, at, 0);
        if p < before.len() {
            if p < n {
                assert(before.take(n)[p] == entries[p]);
                assert(entries[p].index <= entries.last().index);
            } else {
                assert(before[n + (p - n)].index == index + (p - n));
            }
        }
        assert(p == before.len());
        let e = EntryV {
            index: at,
            id: crate::heal::dsml::call_id_of(uuids[m]),
            name: calls.last().name,
            arguments: calls.last().arguments,
        };
        assert(r =~= before.push(e));
        assert forall|i: int| 0 <= i < calls.len() implies ({
            let e = #[trigger] r[n + i];
            &&& e.name == calls[i].name
            &&& e.arguments == calls[i].arguments
            &&& e.id == "call_dsml_"@ + uuids[i]
            &&& e.index == index + i
        }) by {
            if i < m {
                assert(r[n + i] == before[n + i]);
                assert(calls.drop_last()[i] == calls[i]);
            }
        }
        assert(r.take(n) =~= before.take(n));
    } else {
        assert(entries.take(n) =~= entries);
    }
}

/// The items of a blocking answer are its reasoning, its text and its tool
/// calls, each call under the id that the model gave it.
pub proof fn blocking_answers_keep_their_parts(
    m: ChatMessageV,
    names: NameMap,
    uuids: Seq<Seq<char>>,
    calls: Seq<JsonV>,
)
    requires
        m.tool_calls == Some(calls) || (m.tool_calls is None && calls.len() == 0),
    ensures
        ({
            let items = message_items(m, names, uuids);
            let r: int = if m.reasoning_content matches Some(x) && x.len() > 0 {
                1
            } else {
                0
            };
            let t: int = if m.content matches Some(JsonV::Str(x)) && x.len() > 0 {
                1
            } else {
                0
            };
            &&& items.len() == r + t + calls.len()
            &&& r == 1 ==> is_reasoning_of(items[0], m.reasoning_content->0)
            &&& t == 1 ==> is_message_of(items[r], m.content->0->Str_0)
            &&& forall|i: int|
                0 <= i < calls.len() ==> keeps_call(
                    items[r + t + i],
                    #[trigger] calls[i],
                    names,
                    uuids[i],
                )
        }),
{
    reveal_strlit("type");
    reveal_strlit("summary");
    reveal_strlit("role");
    reveal_strlit("content");
    reveal_strlit("text");
    reveal_strlit("call_id");
    reveal_strlit("name");
    reveal_strlit("arguments");
    reveal_strlit("namespace");
    assert("type"@.len() == 4);
    assert("summary"@.len() == 7);
    assert("role"@.len() == 4);
    assert("content"@.len() == 7);
    assert("text"@.len() == 4);
    assert("call_id"@.len() == 7);
    assert("name"@.len() == 4);
    assert("arguments"@.len() == 9);
    assert("namespace"@.len() == 9);
    assert("type"@[0] != "role"@[0]);
    assert("type"@[1] != "text"@[1]);
    assert("type"@[0] != "name"@[0]);
    assert("summary"@[0] != "content"@[0]);
    assert("summary"@[0] != "call_id"@[0]);
    assert("role"@[0] != "text"@[0]);
    assert("role"@[0] != "name"@[0]);
    assert("content"@[1] != "call_id"@[1]);
    assert("text"@[0] != "name"@[0]);
    assert("arguments"@[0] != "namespace"@[0]);
    let items = message_items(m, names, uuids);
    let r: int = if m.reasoning_content matches Some(x) && x.len() > 0 {
        1
    } else {
        0
    };
    let t: int = if m.content matches Some(JsonV::Str(x)) && x.len() > 0 {
        1
    } else {
        0
    };
    if r == 1 {
        let x = crate::convert::response::reasoning_item_v(m.reasoning_content->0);
        assert(is_reasoning_of(x, m.reasoning_content->0));
        assert(items[0] == x);
    }
    if t == 1 {
        let x = crate::convert::response::message_item_v(m.text());
        assert(is_message_of(x, m.text()));
        assert(items[r] == x);
    }
    if m.tool_calls is Some {
        assert forall|i: int| 0 <= i < calls.len() implies keeps_call(
            items[r + t + i],
            #[trigger] calls[i],
            names,
            uuids[i],
        ) by {
            assert(items[r + t + i] == crate::convert::response::tool_call_item(
                calls[i],
                names,
                uuids[i],
            ));
        }
    }
}

/// Whether an item keeps a tool call of Chat Completions: under its id, or one
/// made of `uuid` where it has none; a call without arguments has an empty
/// object of them.
pub open spec fn keeps_call(item: JsonV, tc: JsonV, names: NameMap, uuid: Seq<char>) -> bool {
    let f = tc.at("function"@);
    is_call_of(
        item,
        match tc.get_str("id"@) {
            Some(x) => if x.len() > 0 {
                x
            } else {
                "call_"@ + uuid
            },
            None => "call_"@ + uuid,
        },
        match f.get_str("name"@) {
            Some(x) => x,
            None => Seq::empty(),
        },
        names,
        match f.get_str("arguments"@) {
            Some(x) => x,
            None => "{}"@,
        },
    )
}

/// An output item has every field of the item that was stored. It gets an id of
/// its kind where it has none, and a message is completed.
pub proof fn output_items_keep_every_field(item: JsonV, uuid: Seq<char>, k: Seq<char>)
    requires
        item is Obj,
    ensures
        ({
            let o = output_item(item, uuid);
            let kind = item.get_str("type"@);
            &&& k != "id"@ && k != "status"@ ==> o.get(k) == item.get(k)
            &&& item.get("id"@) is Some ==> o.get("id"@) == item.get("id"@)
            &&& item.get("id"@) is None ==> o.get_str("id"@) is Some
            &&& item.get("id"@) is None && kind == Some("reasoning"@) ==> o.get_str("id"@) == Some(
                "rs_"@ + uuid,
            )
            &&& item.get("id"@) is None && kind == Some("message"@) ==> o.get_str("id"@) == Some(
                "msg_"@ + uuid,
            )
            &&& item.get("id"@) is None && kind == Some("function_call"@) ==> o.get_str("id"@)
                == Some("fc_"@ + uuid)
            &&& kind == Some("message"@) ==> o.get_str("status"@) == Some("completed"@)
            &&& kind != Some("message"@) ==> o.get("status"@) == item.get("status"@)
        }),
{
    reveal_strlit("id");
    reveal_strlit("status");
    reveal_strlit("type");
    reveal_strlit("reasoning");
    reveal_strlit("message");
    reveal_strlit("function_call");
    assert("id"@.len() == 2);
    assert("status"@.len() == 6);
    assert("type"@.len() == 4);
    assert("reasoning"@.len() == 9);
    assert("message"@.len() == 7);
    assert("function_call"@.len() == 13);
}

/// A blocking answer is completed with the output items of what was stored, one
/// for one.
pub proof fn blocking_responses_carry_their_items(
    r: JsonV,
    id: Seq<char>,
    model: Seq<char>,
    items: Seq<JsonV>,
    usage: Option<ChatUsage>,
    uuids: Seq<Seq<char>>,
)
    requires
        crate::convert::response::is_completed_response(r, id, model, items, usage, uuids),
    ensures
        r.get_str("id"@) == Some(id),
        r.get_str("object"@) == Some("response"@),
        r.get_str("status"@) == Some("completed"@),
        r.get_str("model"@) == Some(model),
        tells_usage(r.at("usage"@), usage),
        r.get_arr("output"@) matches Some(o) && o.len() == items.len() && forall|i: int|
            0 <= i < items.len() ==> #[trigger] o[i] == output_item(items[i], uuids[i]),
{
    reveal_strlit("id");
    reveal_strlit("object");
    reveal_strlit("status");
    reveal_strlit("model");
    reveal_strlit("output");
    reveal_strlit("usage");
    reveal_strlit("input_tokens");
    reveal_strlit("output_tokens");
    reveal_strlit("total_tokens");
    assert("id"@.len() == 2);
    assert("object"@.len() == 6);
    assert("status"@.len() == 6);
    assert("model"@.len() == 5);
    assert("output"@.len() == 6);
    assert("usage"@.len() == 5);
    assert("input_tokens"@.len() == 12);
    assert("output_tokens"@.len() == 13);
    assert("total_tokens"@.len() == 12);
    assert("object"@[0] != "status"@[0]);
    assert("object"@[1] != "output"@[1]);
    assert("status"@[0] != "output"@[0]);
    assert("model"@[0] != "usage"@[0]);
    assert("input_tokens"@[0] != "total_tokens"@[0]);
}

/// A converter starts empty, for its response and model, with the two gates as
/// they are given and item ids of their kinds.
pub proof fn converters_start_empty(
    response_id: Seq<char>,
    model: Seq<char>,
    heal: HealGates,
    names: NameMap,
    msg_uuid: Seq<char>,
    rs_uuid: Seq<char>,
)
    ensures
        ({
            let st = ConverterV::fresh(response_id, model, heal, names, msg_uuid, rs_uuid);
            &&& st.response_id == response_id && st.model == model && st.names == names
            &&& st.items.len() == 0 && st.text.len() == 0 && st.reasoning.len() == 0
            &&& st.tool_calls.len() == 0 && st.usage is None && st.finish_reason is None
            &&& st.msg_item_id == "msg_"@ + msg_uuid && st.reasoning_item_id == "rs_"@ + rs_uuid
            &&& !st.started && !st.finish_emitted && st.next_output_index == 0
            &&& st.dsml.enabled == heal.dsml && st.think.enabled == heal.think
        }),
{
}

/// Finishing flushes what the filters withhold before it tells the calls: with
/// both gates closed there is nothing to flush, and the calls are those that
/// were streamed.
pub proof fn finishing_tells_the_streamed_calls(
    st: ConverterV,
    cids: Seq<Seq<char>>,
    fcs: Seq<Seq<char>>,
)
    requires
        gates_closed(st),
        st.finish_reason is Some,
        !st.finish_emitted,
    ensures
        ({
            let f = st.finish(cids, fcs);
            let last = ConverterV {
                finish_emitted: true,
                dsml: crate::heal::dsml::DsmlState::fresh(true),
                think: crate::heal::think::ThinkState::fresh(true),
                ..st
            };
            f.out == last.emit_finish(fcs).out && f.st == last.emit_finish(fcs).st
                && last.tool_calls == st.tool_calls && f.st.finish_emitted
        }),
{
    let e = Seq::<char>::empty();
    let t = st.think;
    assert(t.emits(e).text =~= e);
    assert(st.tail_split().text =~= e);
    assert(st.tail_split().reasoning =~= e);
    let a = ConverterV { finish_emitted: true, ..st }.flush_heal(cids);
    assert(a.out =~= Seq::<EventV>::empty());
    let last = ConverterV {
        finish_emitted: true,
        dsml: crate::heal::dsml::DsmlState::fresh(true),
        think: crate::heal::think::ThinkState::fresh(true),
        ..st
    };
    assert(a.st == last);
    assert(Seq::<EventV>::empty() + last.emit_finish(fcs).out =~= last.emit_finish(fcs).out);
}

/// Whether an event ends the item `item` at an index.
pub open spec fn ends_item(e: EventV, item: JsonV, index: u64) -> bool {
    exists|d: JsonV|
        #![trigger json_text(d)]
        says(e, "response.output_item.done"@, d) && d.get("item"@) == Some(item) && d.at(
            "output_index"@,
        ).as_u64() == Some(index)
}

/// The text and the reasoning of an answer each end with a done event, at the
/// index where they began: the item under its id, with all that was told of it.
pub proof fn text_and_reasoning_are_ended(st: ConverterV, fcs: Seq<Seq<char>>)
    ensures
        st.message_output_index matches Some(j) ==> exists|i: int, item: JsonV|
            0 <= i < 2 && i < st.emit_finish(fcs).out.len() && #[trigger] ends_item(
                st.emit_finish(fcs).out[i],
                item,
                j,
            ) && is_message_of(item, st.text) && item.get_str("id"@) == Some(st.msg_item_id),
        st.reasoning_output_index matches Some(j) ==> exists|i: int, item: JsonV|
            0 <= i < 2 && i < st.emit_finish(fcs).out.len() && #[trigger] ends_item(
                st.emit_finish(fcs).out[i],
                item,
                j,
            ) && is_reasoning_of(item, st.reasoning) && item.get_str("id"@) == Some(
                st.reasoning_item_id,
            ),
{
    reveal_strlit("type");
    reveal_strlit("id");
    reveal_strlit("status");
    reveal_strlit("summary");
    reveal_strlit("role");
    reveal_strlit("content");
    reveal_strlit("text");
    reveal_strlit("output_index");
    reveal_strlit("item");
    assert("type"@.len() == 4);
    assert("id"@.len() == 2);
    assert("status"@.len() == 6);
    assert("summary"@.len() == 7);
    assert("role"@.len() == 4);
    assert("content"@.len() == 7);
    assert("text"@.len() == 4);
    assert("output_index"@.len() == 12);
    assert("item"@.len() == 4);
    assert("type"@[0] != "role"@[0]);
    assert("type"@[1] != "text"@[1]);
    assert("type"@[0] != "item"@[0]);
    assert("summary"@[0] != "content"@[0]);
    assert("role"@[0] != "text"@[0]);
    assert("role"@[0] != "item"@[0]);
    assert("text"@[0] != "item"@[0]);
    let done = st.done_items();
    let out = st.emit_finish(fcs).out;
    let r = st.reasoning_json(st.reasoning);
    let m = st.message_json(
        "completed"@,
        seq![crate::heal::merge::text_part("output_text"@, st.text)],
    );
    assert(is_reasoning_of(r, st.reasoning));
    assert(is_message_of(m, st.text));
    if let Some(j) = st.message_output_index {
        let i: int = if done[0] == (j, m) {
            0
        } else {
            1
        };
        lemma_ends_item(j, m);
        assert(done[i] == (j, m));
        assert(ends_item(out[i], m, j));
    }
    if let Some(j) = st.reasoning_output_index {
        let i: int = if done[0] == (j, r) {
            0
        } else {
            1
        };
        lemma_ends_item(j, r);
        assert(done[i] == (j, r));
        assert(ends_item(out[i], r, j));
    }
}

proof fn lemma_ends_item(index: u64, item: JsonV)
    ensures
        ends_item(
            crate::convert::response::event(
                "response.output_item.done"@,
                crate::heal::responses::item_event("response.output_item.done"@, index, item),
            ),
            item,
            index,
        ),
{
    reveal_strlit("type");
    reveal_strlit("output_index");
    reveal_strlit("item");
    assert("type"@.len() == 4);
    assert("output_index"@.len() == 12);
    assert("item"@.len() == 4);
    assert("type"@[0] != "item"@[0]);
    let d = crate::heal::responses::item_event("response.output_item.done"@, index, item);
    assert(says(
        crate::convert::response::event("response.output_item.done"@, d),
        "response.output_item.done"@,
        d,
    ));
}

} // verus!
