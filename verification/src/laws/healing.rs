//! What healing puts back: the calls and the reasoning that leaked into a text
//! stand where a client looks for them, and nothing else changes.

use crate::heal::dsml::{dsml_healed, leaked, tool_call_json, CallV};
use crate::heal::responses::{
    call_items, call_json, first_message, injected_items, item_event, part_with_text,
    reasoning_json, with_text, HealerV, InjectedV,
};
use crate::heal::think::SplitV;
use crate::json::{json_text, JsonV};
use crate::laws::answers::is_reasoning_of;
use crate::wire::chat::ChatMessageV;
use vstd::prelude::*;
use vstd::utf8::encode_utf8;

verus! {

/// Whether a tool call of Chat Completions is a call that was read out of a
/// text: under an id of its own, with its name and all its arguments.
pub open spec fn is_tool_call(t: JsonV, call: CallV, id: Seq<char>) -> bool {
    &&& t.get_str("id"@) == Some(id)
    &&& t.get_str("type"@) == Some("function"@)
    &&& t.at("function"@).get_str("name"@) == Some(call.name)
    &&& t.at("function"@).get_str("arguments"@) == Some(call.arguments)
}

/// A healed message has, behind the tool calls that it had, a tool call for each
/// call that leaked into its text: with its name and its arguments, in order.
/// Its text is what is left of it, and everything else stays.
pub proof fn healed_messages_call_what_leaked(
    before: ChatMessageV,
    after: ChatMessageV,
    uuids: Seq<Seq<char>>,
    cleaned: Seq<char>,
    calls: Seq<CallV>,
)
    requires
        dsml_healed(before, after, uuids),
        leaked(before.text()) == Some((cleaned, calls)),
    ensures
        ({
            let had = match before.tool_calls {
                Some(t) => t,
                None => Seq::empty(),
            };
            let n = had.len() as int;
            &&& after.tool_calls is Some && after.tool_calls->0.len() == n + calls.len()
            &&& after.tool_calls->0.take(n) == had
            &&& forall|i: int|
                0 <= i < calls.len() ==> is_tool_call(
                    after.tool_calls->0[n + i],
                    #[trigger] calls[i],
                    "call_dsml_"@ + uuids[i],
                )
            &&& cleaned.len() > 0 ==> after.content == Some(JsonV::Str(cleaned))
            &&& cleaned.len() == 0 ==> after.content is None
            &&& after.role == before.role
            &&& after.reasoning_content == before.reasoning_content
            &&& after.tool_call_id == before.tool_call_id
            &&& after.name == before.name
        }),
{
    reveal_strlit("id");
    reveal_strlit("type");
    reveal_strlit("function");
    reveal_strlit("name");
    reveal_strlit("arguments");
    assert("id"@.len() == 2);
    assert("type"@.len() == 4);
    assert("function"@.len() == 8);
    assert("name"@.len() == 4);
    assert("arguments"@.len() == 9);
    assert("type"@[0] != "name"@[0]);
    let had = match before.tool_calls {
        Some(t) => t,
        None => Seq::empty(),
    };
    let n = had.len() as int;
    assert(after.tool_calls->0.take(n) =~= had);
    assert forall|i: int| 0 <= i < calls.len() implies is_tool_call(
        after.tool_calls->0[n + i],
        #[trigger] calls[i],
        "call_dsml_"@ + uuids[i],
    ) by {
        assert(after.tool_calls->0[n + i] == tool_call_json("call_dsml_"@ + uuids[i], calls[i]));
    }
}

/// A message without leaked calls stays as it is.
pub proof fn clean_messages_stay(
    before: ChatMessageV,
    after: ChatMessageV,
    uuids: Seq<Seq<char>>,
)
    requires
        dsml_healed(before, after, uuids),
        leaked(before.text()) is None,
    ensures
        after == before,
{
}

/// Whether bytes are the event of that name whose data is `d`, printed.
pub open spec fn is_block(b: Seq<u8>, kind: Seq<char>, d: JsonV) -> bool {
    b == encode_utf8("event: "@ + kind + "\ndata: "@ + json_text(d) + "\n\n"@)
}

/// Whether bytes are the event of that type, inside and out.
pub open spec fn tells(b: Seq<u8>, kind: Seq<char>, d: JsonV) -> bool {
    is_block(b, kind, d) && d.get_str("type"@) == Some(kind)
}

/// Whether an item is a function call of those ids, name and arguments.
pub open spec fn is_call(
    item: JsonV,
    id: Seq<char>,
    call_id: Seq<char>,
    name: Seq<char>,
    arguments: Seq<char>,
    status: Seq<char>,
) -> bool {
    &&& item.get_str("type"@) == Some("function_call"@)
    &&& item.get_str("id"@) == Some(id)
    &&& item.get_str("call_id"@) == Some(call_id)
    &&& item.get_str("name"@) == Some(name)
    &&& item.get_str("arguments"@) == Some(arguments)
    &&& item.get_str("status"@) == Some(status)
}

proof fn lemma_call_json(
    id: Seq<char>,
    call_id: Seq<char>,
    name: Seq<char>,
    arguments: Seq<char>,
    status: Seq<char>,
)
    ensures
        is_call(call_json(id, call_id, name, arguments, status), id, call_id, name, arguments, status),
{
    reveal_strlit("type");
    reveal_strlit("id");
    reveal_strlit("call_id");
    reveal_strlit("name");
    reveal_strlit("arguments");
    reveal_strlit("status");
    assert("type"@.len() == 4);
    assert("id"@.len() == 2);
    assert("call_id"@.len() == 7);
    assert("name"@.len() == 4);
    assert("arguments"@.len() == 9);
    assert("status"@.len() == 6);
    assert("type"@[0] != "name"@[0]);
}

/// Whether three blocks tell an injected call: it is announced without
/// arguments, they come as one delta, and it is done with them.
pub open spec fn tells_injected(
    out: Seq<Seq<u8>>,
    at: int,
    j: InjectedV,
    index: u64,
    added: JsonV,
    delta: JsonV,
    done: JsonV,
) -> bool {
    &&& tells(out[at], "response.output_item.added"@, added)
    &&& tells(out[at + 1], "response.function_call_arguments.delta"@, delta)
    &&& tells(out[at + 2], "response.output_item.done"@, done)
    &&& is_call(
        added.at("item"@),
        j.item_id,
        j.call_id,
        j.call.name,
        Seq::empty(),
        "in_progress"@,
    )
    &&& is_call(
        done.at("item"@),
        j.item_id,
        j.call_id,
        j.call.name,
        j.call.arguments,
        "completed"@,
    )
    &&& delta.get_str("item_id"@) == Some(j.item_id)
    &&& delta.get_str("delta"@) == Some(j.call.arguments)
    &&& added.at("output_index"@).as_u64() == Some(index)
    &&& delta.at("output_index"@).as_u64() == Some(index)
    &&& done.at("output_index"@).as_u64() == Some(index)
}

/// Whether three blocks tell an injected call.
pub open spec fn is_injected(out: Seq<Seq<u8>>, at: int, j: InjectedV, index: u64) -> bool {
    exists|added: JsonV, delta: JsonV, done: JsonV|
        tells_injected(out, at, j, index, added, delta, done)
}

/// Every call that leaked into a stream is injected into it, in order, with its
/// name and its arguments and ids of its own, at the indexes behind those that
/// were injected before; and it is remembered as it was told.
pub proof fn leaked_calls_are_injected(
    st: HealerV,
    calls: Seq<CallV>,
    fcs: Seq<Seq<char>>,
    cids: Seq<Seq<char>>,
)
    requires
        st.next_index + calls.len() < u64::MAX,
    ensures
        ({
            let s = st.inject(calls, fcs, cids);
            let n = st.injected.len() as int;
            &&& s.out.len() == 3 * calls.len()
            &&& s.st.injected.len() == n + calls.len()
            &&& s.st.injected.take(n) == st.injected
            &&& s.st.next_index == st.next_index + calls.len()
            &&& s.st.healed_text == st.healed_text && s.st.reasoning == st.reasoning
                && s.st.reasoning_text == st.reasoning_text && s.st.message_id == st.message_id
                && s.st.finished == st.finished
            &&& forall|i: int|
                0 <= i < calls.len() ==> (#[trigger] s.st.injected[n + i]).call == calls[i]
                    && s.st.injected[n + i].item_id == "fc_"@ + fcs[i] && s.st.injected[n
                    + i].call_id == "call_dsml_"@ + cids[i] && is_injected(
                    s.out,
                    3 * i,
                    s.st.injected[n + i],
                    (st.next_index + i) as u64,
                )
        }),
    decreases calls.len(),
{
    let s = st.inject(calls, fcs, cids);
    let n = st.injected.len() as int;
    if calls.len() == 0 {
        assert(st.injected.take(n) =~= st.injected);
    } else {
        let m = calls.len() - 1;
        let front = calls.drop_last();
        leaked_calls_are_injected(st, front, fcs, cids);
        let a = st.inject(front, fcs, cids);
        assert(s.st.injected.take(n) =~= a.st.injected.take(n));
        assert forall|i: int| 0 <= i < calls.len() implies (#[trigger] s.st.injected[n + i]).call
            == calls[i] && s.st.injected[n + i].item_id == "fc_"@ + fcs[i] && s.st.injected[n
            + i].call_id == "call_dsml_"@ + cids[i] && is_injected(
            s.out,
            3 * i,
            s.st.injected[n + i],
            (st.next_index + i) as u64,
        ) by {
            let index = (st.next_index + i) as u64;
            if i < m {
                assert(s.st.injected[n + i] == a.st.injected[n + i]);
                assert(front[i] == calls[i]);
                let j = a.st.injected[n + i];
                let at = 3 * i;
                assert(is_injected(a.out, at, j, index));
                let (added, delta, done) = choose|added: JsonV, delta: JsonV, done: JsonV|
                    tells_injected(a.out, at, j, index, added, delta, done);
                assert(s.out[at] == a.out[at]);
                assert(s.out[at + 1] == a.out[at + 1]);
                assert(s.out[at + 2] == a.out[at + 2]);
                assert(tells_injected(s.out, at, j, index, added, delta, done));
            } else {
                let j = s.st.injected[n + i];
                let call = calls[i];
                lemma_injected(s.out, 3 * i, j, index);
            }
        }
    }
}

proof fn lemma_injected(out: Seq<Seq<u8>>, at: int, j: InjectedV, index: u64)
    requires
        0 <= at,
        at + 3 <= out.len(),
        out[at] == crate::sse::block(
            "response.output_item.added"@,
            item_event(
                "response.output_item.added"@,
                index,
                call_json(j.item_id, j.call_id, j.call.name, Seq::empty(), "in_progress"@),
            ),
        ),
        out[at + 1] == crate::sse::block(
            "response.function_call_arguments.delta"@,
            JsonV::object().set(
                "type"@,
                JsonV::Str("response.function_call_arguments.delta"@),
            ).set("item_id"@, JsonV::Str(j.item_id)).set("output_index"@, JsonV::uint(index)).set(
                "delta"@,
                JsonV::Str(j.call.arguments),
            ),
        ),
        out[at + 2] == crate::sse::block(
            "response.output_item.done"@,
            item_event(
                "response.output_item.done"@,
                index,
                call_json(j.item_id, j.call_id, j.call.name, j.call.arguments, "completed"@),
            ),
        ),
    ensures
        is_injected(out, at, j, index),
{
    reveal_strlit("type");
    reveal_strlit("output_index");
    reveal_strlit("item");
    reveal_strlit("item_id");
    reveal_strlit("delta");
    assert("type"@.len() == 4);
    assert("output_index"@.len() == 12);
    assert("item"@.len() == 4);
    assert("item_id"@.len() == 7);
    assert("delta"@.len() == 5);
    assert("type"@[0] != "item"@[0]);
    lemma_call_json(j.item_id, j.call_id, j.call.name, Seq::empty(), "in_progress"@);
    lemma_call_json(j.item_id, j.call_id, j.call.name, j.call.arguments, "completed"@);
    let added = item_event(
        "response.output_item.added"@,
        index,
        call_json(j.item_id, j.call_id, j.call.name, Seq::empty(), "in_progress"@),
    );
    let delta = JsonV::object().set(
        "type"@,
        JsonV::Str("response.function_call_arguments.delta"@),
    ).set("item_id"@, JsonV::Str(j.item_id)).set("output_index"@, JsonV::uint(index)).set(
        "delta"@,
        JsonV::Str(j.call.arguments),
    );
    let done = item_event(
        "response.output_item.done"@,
        index,
        call_json(j.item_id, j.call_id, j.call.name, j.call.arguments, "completed"@),
    );
    assert(tells_injected(out, at, j, index, added, delta, done));
}

/// Whether bytes announce a reasoning item without text.
pub open spec fn announces_reasoning(b: Seq<u8>, id: Seq<char>, index: u64) -> bool {
    exists|d: JsonV|
        #![trigger json_text(d)]
        tells(b, "response.output_item.added"@, d) && d.at("output_index"@).as_u64() == Some(index)
            && is_reasoning_of(d.at("item"@), Seq::empty()) && d.at("item"@).get_str("id"@) == Some(
            id,
        )
}

/// Whether bytes bring a piece of an item.
pub open spec fn brings(
    b: Seq<u8>,
    kind: Seq<char>,
    id: Seq<char>,
    index: u64,
    piece: Seq<char>,
) -> bool {
    exists|d: JsonV|
        #![trigger json_text(d)]
        tells(b, kind, d) && d.get_str("item_id"@) == Some(id) && d.at("output_index"@).as_u64()
            == Some(index) && d.get_str("delta"@) == Some(piece)
}

/// Reasoning that was found in the text of a stream is told on its own item,
/// which is announced first, once; and it is gathered in order.
pub proof fn found_reasoning_is_told(st: HealerV, chunk: Seq<char>, uuid: Seq<char>)
    ensures
        ({
            let s = st.emit_reasoning(chunk, uuid);
            let (id, index) = s.st.reasoning->0;
            &&& s.st.reasoning is Some
            &&& s.st.reasoning_text == st.reasoning_text + chunk
            &&& st.reasoning matches Some(r) ==> s.st.reasoning == Some(r) && s.out.len() == 1
            &&& st.reasoning is None ==> id == "rs_"@ + uuid && index == st.next_index
                && s.out.len() == 2 && announces_reasoning(s.out[0], id, index)
            &&& brings(
                s.out.last(),
                "response.reasoning_summary_text.delta"@,
                id,
                index,
                chunk,
            )
            &&& s.st.healed_text == st.healed_text && s.st.injected == st.injected
        }),
{
    reveal_strlit("type");
    reveal_strlit("id");
    reveal_strlit("summary");
    reveal_strlit("text");
    reveal_strlit("output_index");
    reveal_strlit("item");
    reveal_strlit("item_id");
    reveal_strlit("delta");
    reveal_strlit("summary_index");
    assert("type"@.len() == 4);
    assert("id"@.len() == 2);
    assert("summary"@.len() == 7);
    assert("text"@.len() == 4);
    assert("output_index"@.len() == 12);
    assert("item"@.len() == 4);
    assert("item_id"@.len() == 7);
    assert("delta"@.len() == 5);
    assert("summary_index"@.len() == 13);
    assert("type"@[1] != "text"@[1]);
    assert("type"@[0] != "item"@[0]);
    assert("summary"@[0] != "item_id"@[0]);
    assert("text"@[0] != "item"@[0]);
    let s = st.emit_reasoning(chunk, uuid);
    let (id, index) = s.st.reasoning->0;
    let a = item_event("response.output_item.added"@, index, reasoning_json(id, Seq::empty()));
    let d = JsonV::object().set("type"@, JsonV::Str("response.reasoning_summary_text.delta"@)).set(
        "item_id"@,
        JsonV::Str(id),
    ).set("output_index"@, JsonV::uint(index)).set("summary_index"@, JsonV::uint(0)).set(
        "delta"@,
        JsonV::Str(chunk),
    );
    assert(tells(s.out.last(), "response.reasoning_summary_text.delta"@, d));
    assert(is_reasoning_of(a.at("item"@), Seq::empty()));
    assert(st.reasoning is None ==> tells(s.out[0], "response.output_item.added"@, a));
}

/// What the filters release is told: reasoning on its own item, and text as a
/// delta of the streamed message.
pub proof fn released_text_is_told(st: HealerV, split: SplitV, uuid: Seq<char>)
    ensures
        ({
            let s = st.flush(split, uuid);
            &&& s.st.healed_text == st.healed_text + split.text
            &&& s.st.reasoning_text == st.reasoning_text + split.reasoning
            &&& split.text.len() == 0 && split.reasoning.len() == 0 ==> s.out.len() == 0
            &&& split.reasoning.len() > 0 ==> s.st.healing_fired && s.st.reasoning is Some
            &&& split.reasoning.len() == 0 ==> s.st.healing_fired == st.healing_fired
                && s.st.reasoning == st.reasoning
            &&& split.text.len() > 0 ==> s.out.len() > 0 && brings(
                s.out.last(),
                "response.output_text.delta"@,
                match st.message_id {
                    Some(id) => id,
                    None => Seq::empty(),
                },
                match st.message_index {
                    Some(n) => n,
                    None => 0,
                },
                split.text,
            )
        }),
{
    reveal_strlit("type");
    reveal_strlit("item_id");
    reveal_strlit("output_index");
    reveal_strlit("delta");
    assert("type"@.len() == 4);
    assert("item_id"@.len() == 7);
    assert("output_index"@.len() == 12);
    assert("delta"@.len() == 5);
    let s = st.flush(split, uuid);
    assert(split.text.len() == 0 ==> st.healed_text + split.text =~= st.healed_text);
    assert(split.reasoning.len() == 0 ==> st.reasoning_text + split.reasoning
        =~= st.reasoning_text);
    if split.text.len() > 0 {
        let d = JsonV::object().set("type"@, JsonV::Str("response.output_text.delta"@)).set(
            "item_id"@,
            JsonV::Str(
                match st.message_id {
                    Some(id) => id,
                    None => Seq::empty(),
                },
            ),
        ).set(
            "output_index"@,
            JsonV::uint(
                match st.message_index {
                    Some(n) => n,
                    None => 0,
                },
            ),
        ).set("delta"@, JsonV::Str(split.text));
        assert(tells(s.out.last(), "response.output_text.delta"@, d));
    }
}

/// A text delta that a filter changes is forwarded with the text that is left of
/// it and all its other fields; of a delta that holds only markup nothing is
/// forwarded as text.
pub proof fn changed_deltas_keep_their_other_fields(
    st: HealerV,
    raw: Seq<u8>,
    v: JsonV,
    uuid: Seq<char>,
    delta: Seq<char>,
    k: Seq<char>,
)
    requires
        v.get_str("delta"@) == Some(delta),
    ensures
        ({
            let text = st.dsml.emits(delta);
            let split = st.think.emits(text);
            let s = st.text_delta(raw, Some(v), uuid);
            &&& s.st.healed_text == st.healed_text + split.text
            &&& s.st.reasoning_text == st.reasoning_text + split.reasoning
            &&& s.st.dsml == st.dsml.after(delta)
            &&& s.st.think == st.think.after(text)
            &&& split.text == delta && split.reasoning.len() == 0 && s.st.dsml.fired
                == st.dsml.fired && s.st.think.fired == st.think.fired ==> s.out == seq![raw]
            &&& split.text.len() > 0 && split.text != delta ==> s.out.len() > 0 && exists|d: JsonV|
                #![trigger json_text(d)]
                is_block(s.out.last(), "response.output_text.delta"@, d) && d.get_str("delta"@)
                    == Some(split.text) && (k != "delta"@ ==> d.get(k) == v.get(k))
            &&& split.reasoning.len() > 0 || s.st.dsml.fired != st.dsml.fired || s.st.think.fired
                != st.think.fired ==> s.st.healing_fired
        }),
{
    let text = st.dsml.emits(delta);
    let split = st.think.emits(text);
    let s = st.text_delta(raw, Some(v), uuid);
    assert(split.reasoning.len() == 0 ==> st.reasoning_text + split.reasoning
        =~= st.reasoning_text);
    if split.text.len() > 0 && split.text != delta {
        let d = v.set("delta"@, JsonV::Str(split.text));
        assert(is_block(s.out.last(), "response.output_text.delta"@, d));
    }
}

/// Whether a message is another with the text of its output-text parts
/// replaced.
pub open spec fn is_retold(r: JsonV, item: JsonV, text: Seq<char>) -> bool {
    &&& forall|k: Seq<char>| k != "content"@ ==> #[trigger] r.get(k) == item.get(k)
    &&& match item.get_arr("content"@) {
        None => r.get("content"@) == item.get("content"@),
        Some(parts) => r.get_arr("content"@) matches Some(p) && p.len() == parts.len()
            && forall|i: int|
            0 <= i < p.len() ==> retells_part(#[trigger] p[i], parts[i], text),
    }
}

/// Whether a part is another with its text replaced, where that is output text.
pub open spec fn retells_part(p: JsonV, part: JsonV, text: Seq<char>) -> bool {
    if part.get_str("type"@) == Some("output_text"@) {
        p.get_str("text"@) == Some(text) && forall|k: Seq<char>|
            k != "text"@ ==> #[trigger] p.get(k) == part.get(k)
    } else {
        p == part
    }
}

proof fn lemma_with_text(item: JsonV, text: Seq<char>)
    ensures
        is_retold(with_text(item, text), item, text),
{
    if let Some(parts) = item.get_arr("content"@) {
        let p = with_text(item, text).get_arr("content"@)->0;
        assert forall|i: int| 0 <= i < p.len() implies retells_part(
            #[trigger] p[i],
            parts[i],
            text,
        ) by {
            assert(p[i] == part_with_text(parts[i], text));
        }
    }
}

/// Whether an item is the streamed message.
pub open spec fn is_streamed(st: HealerV, item: JsonV) -> bool {
    item.get_str("type"@) == Some("message"@) && (st.message_id matches Some(id)
        ==> item.get_str("id"@) == Some(id))
}

/// The output of a healed response is the one that came, with the text of the
/// streamed message healed: the reasoning that was found stands before the first
/// message, and the injected calls stand at the end, as they were told.
pub proof fn healed_outputs_hold_what_was_told(st: HealerV, items: Seq<JsonV>)
    ensures
        ({
            let out = st.healed_output(items);
            let c = st.injected.len();
            let at = first_message(items, 0);
            let r: int = if st.reasoning is Some {
                1
            } else {
                0
            };
            &&& 0 <= at <= items.len()
            &&& out.len() == items.len() + r + c
            &&& forall|i: int|
                0 <= i < items.len() ==> keeps_item(
                    st,
                    out[if i < at {
                        i
                    } else {
                        i + r
                    }],
                    #[trigger] items[i],
                )
            &&& st.reasoning matches Some((id, _)) ==> is_reasoning_of(
                out[at],
                st.reasoning_text,
            ) && out[at].get_str("id"@) == Some(id)
            &&& forall|i: int|
                0 <= i < c ==> is_call(
                    #[trigger] out[items.len() + r + i],
                    st.injected[i].item_id,
                    st.injected[i].call_id,
                    st.injected[i].call.name,
                    st.injected[i].call.arguments,
                    "completed"@,
                )
        }),
{
    reveal_strlit("type");
    reveal_strlit("id");
    reveal_strlit("summary");
    reveal_strlit("text");
    reveal_strlit("content");
    assert("type"@.len() == 4);
    assert("id"@.len() == 2);
    assert("summary"@.len() == 7);
    assert("text"@.len() == 4);
    assert("content"@.len() == 7);
    assert("type"@[1] != "text"@[1]);
    assert("summary"@[0] != "content"@[0]);
    let out = st.healed_output(items);
    let healed = Seq::new(items.len(), |i: int| st.healed_item(items[i]));
    let at = first_message(items, 0);
    let r: int = if st.reasoning is Some {
        1
    } else {
        0
    };
    assert forall|i: int| 0 <= i < items.len() implies (#[trigger] healed[i]).get_str("type"@)
        == items[i].get_str("type"@) && keeps_item(st, healed[i], items[i]) by {
        lemma_with_text(items[i], st.healed_text);
    }
    lemma_same_first(items, healed, 0);
    assert forall|i: int| 0 <= i < items.len() implies keeps_item(
        st,
        out[if i < at {
            i
        } else {
            i + r
        }],
        #[trigger] items[i],
    ) by {
        assert(keeps_item(st, healed[i], items[i]));
        assert(out[if i < at {
            i
        } else {
            i + r
        }] == healed[i]);
    }
    if let Some((id, _)) = st.reasoning {
        let x = reasoning_json(id, st.reasoning_text);
        assert(out[at] == x);
        assert(is_reasoning_of(x, st.reasoning_text));
    }
    assert forall|i: int| 0 <= i < st.injected.len() implies is_call(
        #[trigger] out[items.len() + r + i],
        st.injected[i].item_id,
        st.injected[i].call_id,
        st.injected[i].call.name,
        st.injected[i].call.arguments,
        "completed"@,
    ) by {
        let j = st.injected[i];
        lemma_call_json(j.item_id, j.call_id, j.call.name, j.call.arguments, "completed"@);
        assert(out[items.len() + r + i] == injected_items(st.injected)[i]);
    }
}

/// Whether an item is kept: the streamed message with its text healed, any other
/// as it is.
pub open spec fn keeps_item(st: HealerV, o: JsonV, item: JsonV) -> bool {
    if is_streamed(st, item) {
        is_retold(o, item, st.healed_text)
    } else {
        o == item
    }
}

proof fn lemma_same_first(a: Seq<JsonV>, b: Seq<JsonV>, i: int)
    requires
        0 <= i <= a.len(),
        a.len() == b.len(),
        forall|k: int|
            0 <= k < a.len() ==> (#[trigger] b[k]).get_str("type"@) == a[k].get_str("type"@),
    ensures
        first_message(a, i) == first_message(b, i),
        i <= first_message(a, i) <= a.len(),
    decreases a.len() - i,
{
    if i < a.len() {
        assert(b[i].get_str("type"@) == a[i].get_str("type"@));
        lemma_same_first(a, b, i + 1);
    }
}

/// The reasoning of a healed response goes before its first message.
pub proof fn reasoning_goes_before_the_first_message(items: Seq<JsonV>, i: int)
    requires
        0 <= i < items.len(),
    ensures
        i < first_message(items, 0) ==> items[i].get_str("type"@) != Some("message"@),
        first_message(items, 0) < items.len() ==> items[first_message(items, 0)].get_str("type"@)
            == Some("message"@),
{
    lemma_first_message(items, 0);
}

proof fn lemma_first_message(items: Seq<JsonV>, k: int)
    requires
        0 <= k <= items.len(),
    ensures
        k <= first_message(items, k) <= items.len(),
        forall|i: int|
            k <= i < first_message(items, k) ==> (#[trigger] items[i]).get_str("type"@) != Some(
                "message"@,
            ),
        first_message(items, k) < items.len() ==> items[first_message(items, k)].get_str("type"@)
            == Some("message"@),
    decreases items.len() - k,
{
    if k < items.len() {
        lemma_first_message(items, k + 1);
    }
}

/// A healed payload differs from the one that came in its output alone.
pub proof fn healed_payloads_keep_their_other_fields(st: HealerV, v: JsonV, k: Seq<char>)
    ensures
        v.get("response"@) matches Some(r) ==> ({
            let h = st.healed_payload(v);
            &&& k != "response"@ ==> h.get(k) == v.get(k)
            &&& k != "output"@ ==> h.at("response"@).get(k) == r.get(k)
            &&& r.get_arr("output"@) matches Some(o) ==> h.at("response"@).get_arr("output"@)
                == Some(st.healed_output(o))
        }),
        v.get("response"@) is None ==> ({
            let h = st.healed_payload(v);
            &&& k != "output"@ ==> h.get(k) == v.get(k)
            &&& v.get_arr("output"@) matches Some(o) ==> h.get_arr("output"@) == Some(
                st.healed_output(o),
            )
        }),
{
}

/// A full-text echo of a healed message carries the healed text, and else what
/// it had.
pub proof fn echoes_carry_the_healed_text(st: HealerV, v: JsonV, k: Seq<char>)
    ensures
        ({
            let h = st.healed_echo(v);
            &&& v.get("text"@) is Some ==> h.get_str("text"@) == Some(st.healed_text)
            &&& v.get("text"@) is None ==> h.get("text"@) is None
            &&& v.at("part"@).get("text"@) is Some ==> h.at("part"@).get_str("text"@) == Some(
                st.healed_text,
            )
            &&& k != "text"@ && k != "part"@ ==> h.get(k) == v.get(k)
            &&& k != "text"@ ==> h.at("part"@).get(k) == v.at("part"@).get(k)
        }),
{
    reveal_strlit("text");
    reveal_strlit("part");
    assert("text"@.len() == 4);
    assert("part"@.len() == 4);
    assert("text"@[0] != "part"@[0]);
}

/// Once healing has fired, the done event of the streamed message carries the
/// healed text; any other done event is forwarded as it came.
pub proof fn done_events_carry_the_healed_text(st: HealerV, raw: Seq<u8>, v: JsonV)
    ensures
        st.healing_fired && is_streamed(st, v.at("item"@)) ==> exists|d: JsonV|
            #![trigger json_text(d)]
            is_block(st.item_done(raw, Some(v)), "response.output_item.done"@, d) && is_retold(
                d.at("item"@),
                v.at("item"@),
                st.healed_text,
            ) && forall|k: Seq<char>| k != "item"@ ==> #[trigger] d.get(k) == v.get(k),
        !(st.healing_fired && is_streamed(st, v.at("item"@))) ==> st.item_done(raw, Some(v)) == raw,
{
    if st.healing_fired && is_streamed(st, v.at("item"@)) {
        lemma_with_text(v.at("item"@), st.healed_text);
        let d = v.set("item"@, with_text(v.at("item"@), st.healed_text));
        assert(v.get("item"@) is Some);
        assert(is_block(st.item_done(raw, Some(v)), "response.output_item.done"@, d));
    }
}

/// An added message is the one that is streamed from then on; any other item
/// changes nothing. Either way its event is forwarded as it came.
pub proof fn added_messages_are_tracked(st: HealerV, raw: Seq<u8>, v: JsonV)
    ensures
        st.added(raw, Some(v)).out == seq![raw],
        v.at("item"@).get_str("type"@) == Some("message"@) ==> st.added(raw, Some(v)).st.message_id
            == v.at("item"@).get_str("id"@) && st.added(raw, Some(v)).st.message_index == v.at(
            "output_index"@,
        ).as_u64(),
        v.at("item"@).get_str("type"@) != Some("message"@) ==> st.added(raw, Some(v)).st == st,
{
}

/// The calls that leaked into a body are completed items with their names and
/// arguments, in order, under ids of their own.
pub proof fn body_calls_keep_their_arguments(
    calls: Seq<CallV>,
    fcs: Seq<Seq<char>>,
    cids: Seq<Seq<char>>,
)
    ensures
        call_items(calls, fcs, cids).len() == calls.len(),
        forall|i: int|
            0 <= i < calls.len() ==> is_call(
                #[trigger] call_items(calls, fcs, cids)[i],
                "fc_"@ + fcs[i],
                "call_dsml_"@ + cids[i],
                calls[i].name,
                calls[i].arguments,
                "completed"@,
            ),
{
    assert forall|i: int| 0 <= i < calls.len() implies is_call(
        #[trigger] call_items(calls, fcs, cids)[i],
        "fc_"@ + fcs[i],
        "call_dsml_"@ + cids[i],
        calls[i].name,
        calls[i].arguments,
        "completed"@,
    ) by {
        lemma_call_json(
            "fc_"@ + fcs[i],
            "call_dsml_"@ + cids[i],
            calls[i].name,
            calls[i].arguments,
            "completed"@,
        );
    }
}

/// A healer changes only the events that carry the text: any other event passes
/// as it came. The two events that repeat the text are treated alike, each under
/// its own name.
pub proof fn events_are_healed_by_name(
    st: HealerV,
    raw: Seq<u8>,
    n: Seq<char>,
    v: JsonV,
    uuid: Seq<char>,
    fcs: Seq<Seq<char>>,
    cids: Seq<Seq<char>>,
)
    ensures
        n != "response.output_text.delta"@ && n != "response.output_text.done"@ && n
            != "response.content_part.done"@ && n != "response.output_item.done"@ && n
            != "response.completed"@ ==> st.push(raw, Some(n), Some(v), uuid, fcs, cids).out == seq![
            raw,
        ],
        n != "response.output_text.delta"@ && n != "response.output_text.done"@ && n
            != "response.content_part.done"@ && n != "response.output_item.done"@ && n
            != "response.completed"@ && n != "response.output_item.added"@ ==> st.push(
            raw,
            Some(n),
            Some(v),
            uuid,
            fcs,
            cids,
        ).st == st,
        (n == "response.output_text.done"@ || n == "response.content_part.done"@) ==> ({
            let p = st.push(raw, Some(n), Some(v), uuid, fcs, cids);
            &&& p.st == st.release(uuid).st
            &&& p.out == st.release(uuid).out.push(p.st.echo(raw, n, Some(v)))
        }),
        n == "response.output_text.delta"@ ==> st.push(raw, Some(n), Some(v), uuid, fcs, cids)
            == st.text_delta(raw, Some(v), uuid),
        n == "response.output_item.done"@ ==> st.push(
            raw,
            Some(n),
            Some(v),
            uuid,
            fcs,
            cids,
        ).out.last() == st.release(uuid).st.item_done(raw, Some(v)),
        n == "response.completed"@ && st.healing_fired ==> st.push(
            raw,
            Some(n),
            Some(v),
            uuid,
            fcs,
            cids,
        ).st == st.end(uuid, fcs, cids).st,
{
    reveal_strlit("response.output_item.added");
    reveal_strlit("response.output_text.delta");
    reveal_strlit("response.output_text.done");
    reveal_strlit("response.content_part.done");
    reveal_strlit("response.output_item.done");
    reveal_strlit("response.completed");
    assert("response.output_item.added"@.len() == 26);
    assert("response.output_text.delta"@.len() == 26);
    assert("response.output_text.done"@.len() == 25);
    assert("response.content_part.done"@.len() == 26);
    assert("response.output_item.done"@.len() == 25);
    assert("response.completed"@.len() == 18);
    assert("response.output_item.added"@[16] != "response.output_text.delta"@[16]);
    assert("response.output_item.added"@[9] != "response.content_part.done"@[9]);
    assert("response.output_text.delta"@[9] != "response.content_part.done"@[9]);
    assert("response.output_text.done"@[16] != "response.output_item.done"@[16]);
}

} // verus!
