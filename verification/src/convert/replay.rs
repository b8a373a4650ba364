//! A stored turn survives replay: the session items of an answer become the
//! assistant message that the answer was.
use crate::convert::request::{
    bare_message, calls_end, chat_parts, chat_text_part, first_of, is_call, item_content,
    item_messages, lemma_calls_end, reasoning_text, tool_call_of, tool_calls_of,
};
use crate::convert::response::{
    decoded, final_arguments, finished_calls, function_call_item_v, message_item_v, message_items,
    reasoning_item_v, str_or, synthesized_call_id_of, tool_call_item, ConverterV, EntryV, NameMap,
};
use crate::heal::merge::text_part;
use crate::json::JsonV;
use crate::normalize::{encoded_name, faithful};
use crate::wire::chat::ChatMessageV;
use vstd::prelude::*;

verus! {

/// A function call of a turn.
pub struct TurnCall {
    pub id: Seq<char>,
    pub namespace: Option<Seq<char>>,
    pub name: Seq<char>,
    pub arguments: Seq<char>,
}

/// The session items of function calls.
pub open spec fn call_items(calls: Seq<TurnCall>) -> Seq<JsonV> {
    Seq::new(
        calls.len(),
        |i: int|
            function_call_item_v(
                calls[i].id,
                calls[i].namespace,
                calls[i].name,
                calls[i].arguments,
            ),
    )
}

/// The session items of a turn: reasoning, text, function calls.
pub open spec fn turn_items(
    reasoning: Option<Seq<char>>,
    text: Option<Seq<char>>,
    calls: Seq<TurnCall>,
) -> Seq<JsonV> {
    let r: Seq<JsonV> = match reasoning {
        Some(x) => seq![reasoning_item_v(x)],
        None => Seq::empty(),
    };
    let m: Seq<JsonV> = match text {
        Some(x) => seq![message_item_v(x)],
        None => Seq::empty(),
    };
    r + m + call_items(calls)
}

/// The Chat Completions name of a function.
pub open spec fn chat_name(namespace: Option<Seq<char>>, name: Seq<char>) -> Seq<char> {
    match namespace {
        Some(ns) => if ns.len() == 0 {
            name
        } else {
            encoded_name(ns, name)
        },
        None => name,
    }
}

/// A tool call of Chat Completions.
pub open spec fn chat_call(id: Seq<char>, name: Seq<char>, arguments: Seq<char>) -> JsonV {
    JsonV::object().set("id"@, JsonV::Str(id)).set("type"@, JsonV::Str("function"@)).set(
        "function"@,
        JsonV::object().set("name"@, JsonV::Str(name)).set("arguments"@, JsonV::Str(arguments)),
    )
}

/// The text, unless it is empty.
pub open spec fn unless_empty(t: Option<Seq<char>>) -> Option<Seq<char>> {
    match t {
        Some(x) => if x.len() == 0 {
            None
        } else {
            Some(x)
        },
        None => None,
    }
}

/// The assistant message of a turn.
pub open spec fn turn_message(
    reasoning: Option<Seq<char>>,
    text: Option<Seq<char>>,
    calls: Seq<TurnCall>,
) -> ChatMessageV {
    ChatMessageV {
        content: match text {
            Some(x) => Some(JsonV::Str(x)),
            None => None,
        },
        reasoning_content: unless_empty(reasoning),
        tool_calls: if calls.len() == 0 {
            None
        } else {
            Some(
                Seq::new(
                    calls.len(),
                    |i: int|
                        chat_call(
                            calls[i].id,
                            chat_name(calls[i].namespace, calls[i].name),
                            calls[i].arguments,
                        ),
                ),
            )
        },
        ..bare_message("assistant"@)
    }
}

proof fn lemma_keys_differ()
    ensures
        "type"@ != "summary"@,
        "type"@ != "role"@,
        "type"@ != "content"@,
        "type"@ != "call_id"@,
        "type"@ != "name"@,
        "type"@ != "arguments"@,
        "type"@ != "namespace"@,
        "type"@ != "text"@,
        "role"@ != "content"@,
        "call_id"@ != "name"@,
        "call_id"@ != "arguments"@,
        "call_id"@ != "namespace"@,
        "name"@ != "arguments"@,
        "name"@ != "namespace"@,
        "arguments"@ != "namespace"@,
        "reasoning_content"@ != "type"@,
        "reasoning_content"@ != "role"@,
        "reasoning_content"@ != "content"@,
        "reasoning"@ != "message"@,
        "reasoning"@ != "function_call"@,
        "message"@ != "function_call"@,
        "assistant"@ != "developer"@,
        "assistant"@ != "system"@,
{
    reveal_strlit("type");
    reveal_strlit("summary");
    reveal_strlit("role");
    reveal_strlit("content");
    reveal_strlit("call_id");
    reveal_strlit("name");
    reveal_strlit("arguments");
    reveal_strlit("namespace");
    reveal_strlit("text");
    reveal_strlit("reasoning_content");
    reveal_strlit("reasoning");
    reveal_strlit("message");
    reveal_strlit("function_call");
    reveal_strlit("assistant");
    reveal_strlit("developer");
    reveal_strlit("system");
    assert("type"@.len() == 4 && "type"@[0] == 't' && "type"@[1] == 'y');
    assert("summary"@.len() == 7);
    assert("role"@.len() == 4 && "role"@[0] == 'r');
    assert("content"@.len() == 7 && "content"@[1] == 'o');
    assert("call_id"@.len() == 7);
    assert("name"@.len() == 4 && "name"@[0] == 'n');
    assert("arguments"@.len() == 9 && "arguments"@[0] == 'a');
    assert("namespace"@.len() == 9 && "namespace"@[0] == 'n');
    assert("text"@.len() == 4 && "text"@[1] == 'e');
    assert("reasoning_content"@.len() == 17);
    assert("reasoning"@.len() == 9);
    assert("message"@.len() == 7);
    assert("function_call"@.len() == 13);
    assert("assistant"@.len() == 9 && "assistant"@[0] == 'a');
    assert("developer"@.len() == 9 && "developer"@[0] == 'd');
    assert("system"@.len() == 6);
}

proof fn lemma_call_item(c: TurnCall)
    ensures
        ({
            let item = function_call_item_v(c.id, c.namespace, c.name, c.arguments);
            &&& is_call(item)
            &&& tool_call_of(item) == chat_call(
                c.id,
                chat_name(c.namespace, c.name),
                c.arguments,
            )
        }),
{
    lemma_keys_differ();
}

proof fn lemma_reasoning_item(text: Seq<char>)
    ensures
        reasoning_item_v(text).get_str("type"@) == Some("reasoning"@),
        reasoning_text(reasoning_item_v(text)) == unless_empty(Some(text)),
{
    lemma_keys_differ();
    let item = reasoning_item_v(text);
    assert(item.get_arr("summary"@) == Some(seq![text_part("summary_text"@, text)]));
    assert(text_part("summary_text"@, text).get_str("text"@) == Some(text));
}

proof fn lemma_message_item(text: Seq<char>)
    ensures
        ({
            let item = message_item_v(text);
            &&& item.get_str("type"@) == Some("message"@)
            &&& item.get_str("role"@) == Some("assistant"@)
            &&& item.get_str("reasoning_content"@) is None
            &&& item_content(item) == Some(JsonV::Str(text))
        }),
{
    lemma_keys_differ();
    let item = message_item_v(text);
    let part = text_part("output_text"@, text);
    let parts = seq![part];
    assert(item.get("content"@) == Some(JsonV::Arr(parts)));
    assert(part.get_str("type"@) == Some("output_text"@));
    assert(part.get_str("text"@) == Some(text));
    assert(parts.drop_last() =~= Seq::<JsonV>::empty());
    assert(chat_parts(parts.drop_last()) =~= Seq::<JsonV>::empty());
    let p = chat_text_part(text);
    assert(chat_parts(parts) == Seq::<JsonV>::empty().push(p));
    assert(p.get_str("text"@) == Some(text));
}

proof fn lemma_calls_end_shift(a: Seq<JsonV>, b: Seq<JsonV>, i: int)
    requires
        0 <= i,
    ensures
        calls_end(a + b, a.len() + i) == a.len() + calls_end(b, i),
    decreases b.len() - i,
{
    if i < b.len() {
        assert((a + b)[a.len() + i] == b[i]);
        lemma_calls_end_shift(a, b, i + 1);
    }
}

/// What stands before an item does not change what it and the items behind it
/// become.
proof fn lemma_messages_shift(a: Seq<JsonV>, b: Seq<JsonV>, i: int, pending: Option<Seq<char>>)
    requires
        0 <= i,
    ensures
        item_messages(a + b, a.len() + i, pending) == item_messages(b, i, pending),
    decreases b.len() - i,
{
    let s = a + b;
    let n = a.len() as int;
    if i < b.len() {
        assert(s[n + i] == b[i]);
        lemma_calls_end(b, i + 1);
        lemma_calls_end_shift(a, b, i + 1);
        let end = calls_end(b, i + 1);
        assert(tool_calls_of(s, n + i + 1, n + end) =~= tool_calls_of(b, i + 1, end));
        assert(tool_calls_of(s, n + i, n + end) =~= tool_calls_of(b, i, end));
        lemma_messages_shift(
            a,
            b,
            i + 1,
            first_of(reasoning_text(b[i]), pending),
        );
        lemma_messages_shift(a, b, i + 1, pending);
        lemma_messages_shift(a, b, end, None);
    }
}

proof fn lemma_calls_run(items: Seq<JsonV>, i: int, end: int)
    requires
        0 <= i <= end <= items.len(),
        forall|k: int| i <= k < end ==> is_call(#[trigger] items[k]),
        end < items.len() ==> !is_call(items[end]),
    ensures
        calls_end(items, i) == end,
    decreases end - i,
{
    if i < end {
        lemma_calls_run(items, i + 1, end);
    }
}

/// A stored turn that has text or function calls replays as the one assistant
/// message that it was, with its reasoning, its text and its calls; what
/// follows it replays as it would alone.
pub proof fn stored_turn_replays(
    reasoning: Option<Seq<char>>,
    text: Option<Seq<char>>,
    calls: Seq<TurnCall>,
    rest: Seq<JsonV>,
)
    requires
        text is Some || calls.len() > 0,
        rest.len() > 0 ==> !is_call(rest[0]),
    ensures
        item_messages(turn_items(reasoning, text, calls) + rest, 0, None) == seq![
            turn_message(reasoning, text, calls),
        ] + item_messages(rest, 0, None),
{
    lemma_keys_differ();
    let turn = turn_items(reasoning, text, calls);
    let items = turn + rest;
    let r: int = if reasoning is Some {
        1
    } else {
        0
    };
    let m: int = if text is Some {
        1
    } else {
        0
    };
    let first = r + m;
    let end = first + calls.len();
    assert(turn.len() == end);
    assert forall|k: int| first <= k < end implies is_call(#[trigger] items[k]) && tool_call_of(
        items[k],
    ) == chat_call(
        calls[k - first].id,
        chat_name(calls[k - first].namespace, calls[k - first].name),
        calls[k - first].arguments,
    ) by {
        lemma_call_item(calls[k - first]);
        assert(items[k] == call_items(calls)[k - first]);
    }
    if end < items.len() {
        assert(items[end] == rest[0]);
    }
    lemma_calls_run(items, first, end);
    let want = turn_message(reasoning, text, calls);
    if calls.len() > 0 {
        assert(tool_calls_of(items, first, end) =~= want.tool_calls->0);
    }
    let pending = unless_empty(reasoning);
    if let Some(x) = reasoning {
        assert(items[0] == reasoning_item_v(x));
        lemma_reasoning_item(x);
        assert(item_messages(items, 0, None) == item_messages(items, 1, pending));
    }
    assert(item_messages(items, 0, None) == item_messages(items, r, pending));
    lemma_messages_shift(turn, rest, 0, None);
    if let Some(x) = text {
        assert(items[r] == message_item_v(x));
        lemma_message_item(x);
        assert(calls_end(items, r + 1) == end);
    } else {
        assert(is_call(items[r]));
        lemma_calls_run(items, first + 1, end);
    }
}

/// The function calls of a blocking answer.
pub open spec fn message_calls(
    m: ChatMessageV,
    names: NameMap,
    uuids: Seq<Seq<char>>,
) -> Seq<TurnCall> {
    match m.tool_calls {
        None => Seq::empty(),
        Some(t) => Seq::new(
            t.len(),
            |i: int|
                {
                    let id = str_or(t[i].get_str("id"@), Seq::empty());
                    let f = t[i].at("function"@);
                    let n = decoded(str_or(f.get_str("name"@), Seq::empty()), names);
                    TurnCall {
                        id: if id.len() == 0 {
                            synthesized_call_id_of(uuids[i])
                        } else {
                            id
                        },
                        namespace: n.0,
                        name: n.1,
                        arguments: str_or(f.get_str("arguments"@), "{}"@),
                    }
                },
        ),
    }
}

/// The session items of a blocking answer are those of a turn.
pub proof fn blocking_items_are_a_turn(m: ChatMessageV, names: NameMap, uuids: Seq<Seq<char>>)
    ensures
        message_items(m, names, uuids) == turn_items(
            unless_empty(m.reasoning_content),
            unless_empty(Some(m.text())),
            message_calls(m, names, uuids),
        ),
{
    let calls = message_calls(m, names, uuids);
    if let Some(t) = m.tool_calls {
        assert(call_items(calls) =~= Seq::new(
            t.len(),
            |i: int| tool_call_item(t[i], names, uuids[i]),
        ));
    } else {
        assert(call_items(calls) =~= Seq::<JsonV>::empty());
    }
}

/// The function calls of a streamed answer: those with a name.
pub open spec fn streamed_calls(entries: Seq<EntryV>, names: NameMap) -> Seq<TurnCall>
    decreases entries.len(),
{
    if entries.len() == 0 {
        Seq::empty()
    } else {
        let rest = streamed_calls(entries.drop_last(), names);
        let e = entries.last();
        if e.name.len() == 0 {
            rest
        } else {
            rest.push(
                TurnCall {
                    id: e.id,
                    namespace: decoded(e.name, names).0,
                    name: decoded(e.name, names).1,
                    arguments: final_arguments(e.arguments),
                },
            )
        }
    }
}

proof fn lemma_streamed_calls(
    entries: Seq<EntryV>,
    names: NameMap,
    index: u64,
    uuids: Seq<Seq<char>>,
)
    ensures
        finished_calls(entries, names, index, uuids).items == call_items(
            streamed_calls(entries, names),
        ),
    decreases entries.len(),
{
    if entries.len() == 0 {
        assert(call_items(streamed_calls(entries, names)) =~= Seq::<JsonV>::empty());
    } else {
        lemma_streamed_calls(entries.drop_last(), names, index, uuids);
        let rest = streamed_calls(entries.drop_last(), names);
        let all = streamed_calls(entries, names);
        if entries.last().name.len() > 0 {
            let c = all.last();
            assert(call_items(all) =~= call_items(rest).push(
                function_call_item_v(c.id, c.namespace, c.name, c.arguments),
            ));
        }
    }
}

/// The session items that a finished stream leaves behind are those of a turn.
pub proof fn streamed_items_are_a_turn(st: ConverterV, fcs: Seq<Seq<char>>)
    requires
        st.items.len() == 0,
    ensures
        st.emit_finish(fcs).st.items == turn_items(
            if st.reasoning_output_index is Some {
                Some(st.reasoning)
            } else {
                None
            },
            if st.message_output_index is Some {
                Some(st.text)
            } else {
                None
            },
            streamed_calls(st.tool_calls, st.names),
        ),
{
    lemma_streamed_calls(st.tool_calls, st.names, st.next_output_index, fcs);
    assert(st.items =~= Seq::<JsonV>::empty());
    assert(Seq::<JsonV>::empty() + st.text_items() =~= st.text_items());
}

/// A function is called again under the name that the model used: decoding a
/// name into namespace and name and encoding them gives the name back.
pub proof fn replayed_name_is_the_called_one(name: Seq<char>, names: NameMap)
    requires
        faithful(names),
        names.dom().contains(name) ==> names[name].namespace.len() > 0,
    ensures
        chat_name(decoded(name, names).0, decoded(name, names).1) == name,
{
}

/// Whether a value is a tool call of Chat Completions with an id.
pub open spec fn is_chat_call(tc: JsonV) -> bool {
    let f = tc.at("function"@);
    match (tc.get_str("id"@), f.get_str("name"@), f.get_str("arguments"@)) {
        (Some(id), Some(name), Some(arguments)) => id.len() > 0 && tc == chat_call(
            id,
            name,
            arguments,
        ),
        _ => false,
    }
}

/// Whether a tool call goes by a name that replays as it is.
pub open spec fn has_faithful_name(tc: JsonV, names: NameMap) -> bool {
    let name = str_or(tc.at("function"@).get_str("name"@), Seq::empty());
    names.dom().contains(name) ==> names[name].namespace.len() > 0
}

/// The session items of a blocking answer that has text or tool calls replay as
/// one assistant message with its text, its reasoning and its tool calls in
/// order.
pub proof fn blocking_answer_replays(m: ChatMessageV, names: NameMap, uuids: Seq<Seq<char>>)
    requires
        faithful(names),
        m.reasoning_content matches Some(r) ==> r.len() > 0,
        m.tool_calls matches Some(t) ==> forall|i: int|
            0 <= i < t.len() ==> is_chat_call(#[trigger] t[i]) && has_faithful_name(t[i], names),
        m.text().len() > 0 || (m.tool_calls matches Some(t) && t.len() > 0),
    ensures
        ({
            let replayed = item_messages(message_items(m, names, uuids), 0, None);
            &&& replayed.len() == 1
            &&& replayed[0].role == "assistant"@
            &&& replayed[0].text() == m.text()
            &&& replayed[0].reasoning_content == m.reasoning_content
            &&& replayed[0].tool_calls == (match m.tool_calls {
                Some(t) => if t.len() == 0 {
                    None
                } else {
                    Some(t)
                },
                None => None,
            })
        }),
{
    let items = message_items(m, names, uuids);
    let reasoning = unless_empty(m.reasoning_content);
    let text = unless_empty(Some(m.text()));
    let calls = message_calls(m, names, uuids);
    let none = Seq::<JsonV>::empty();
    blocking_items_are_a_turn(m, names, uuids);
    stored_turn_replays(reasoning, text, calls, none);
    assert(items + none =~= items);
    assert(item_messages(none, 0, None) =~= Seq::<ChatMessageV>::empty());
    let replayed = item_messages(items, 0, None);
    assert(replayed =~= seq![turn_message(reasoning, text, calls)]);
    assert(replayed[0].text() =~= m.text());
    if let Some(t) = m.tool_calls {
        if t.len() > 0 {
            let again = replayed[0].tool_calls->0;
            assert forall|i: int| 0 <= i < t.len() implies again[i] == #[trigger] t[i] by {
                assert(is_chat_call(t[i]) && has_faithful_name(t[i], names));
                replayed_name_is_the_called_one(
                    t[i].at("function"@).get_str("name"@)->0,
                    names,
                );
            }
            assert(again =~= t);
        }
    }
}

} // verus!
