//! What a merged run says: one item under the id of its first fragment, with all
//! that its fragments brought.

use crate::heal::merge::{
    collapsed_payload, merged_item, run_end, ItemType, MergeStep, MergerV, RecordV, RunV,
};
use crate::json::{json_text, JsonV};
use crate::laws::answers::{is_message_of, is_reasoning_of};
use crate::laws::healing::{is_block, is_call, tells};
use vstd::prelude::*;

verus! {

/// The item of a merged run is one of its type, under the id of its first
/// fragment, with all the text that its deltas brought. A function call keeps
/// its call id and its name.
pub proof fn merged_items_hold_the_whole_run(run: RunV)
    ensures
        ({
            let m = merged_item(run);
            &&& m.get_str("id"@) == Some(run.start_id)
            &&& run.item_type is Message ==> is_message_of(m, run.merged) && m.get_str("status"@)
                == Some("completed"@)
            &&& run.item_type is Reasoning ==> is_reasoning_of(m, run.merged)
            &&& run.item_type is FunctionCall ==> is_call(
                m,
                run.start_id,
                match run.call_id {
                    Some(c) => c,
                    None => Seq::empty(),
                },
                match run.start_name {
                    Some(n) => n,
                    None => "<merged>"@,
                },
                run.merged,
                "completed"@,
            )
        }),
{
    reveal_strlit("type");
    reveal_strlit("id");
    reveal_strlit("role");
    reveal_strlit("status");
    reveal_strlit("content");
    reveal_strlit("summary");
    reveal_strlit("text");
    reveal_strlit("call_id");
    reveal_strlit("name");
    reveal_strlit("arguments");
    assert("type"@.len() == 4);
    assert("id"@.len() == 2);
    assert("role"@.len() == 4);
    assert("status"@.len() == 6);
    assert("content"@.len() == 7);
    assert("summary"@.len() == 7);
    assert("text"@.len() == 4);
    assert("call_id"@.len() == 7);
    assert("name"@.len() == 4);
    assert("arguments"@.len() == 9);
    assert("type"@[0] != "role"@[0]);
    assert("type"@[1] != "text"@[1]);
    assert("type"@[0] != "name"@[0]);
    assert("role"@[0] != "text"@[0]);
    assert("role"@[0] != "name"@[0]);
    assert("content"@[0] != "summary"@[0]);
    assert("content"@[1] != "call_id"@[1]);
    assert("summary"@[0] != "call_id"@[0]);
    assert("text"@[0] != "name"@[0]);
}

/// Whether a block says that a content part of a message is done, with its text.
pub open spec fn ends_part(b: Seq<u8>, run: RunV) -> bool {
    exists|d: JsonV|
        #![trigger json_text(d)]
        tells(b, "response.content_part.done"@, d) && d.get_str("item_id"@) == Some(run.start_id)
            && d.at("output_index"@).as_u64() == Some(run.start_idx) && d.at("part"@).get_str(
            "type"@,
        ) == Some("output_text"@) && d.at("part"@).get_str("text"@) == Some(run.merged)
}

/// Whether a block says that the item of a run is done.
pub open spec fn ends_item(b: Seq<u8>, run: RunV) -> bool {
    exists|d: JsonV|
        #![trigger json_text(d)]
        tells(b, "response.output_item.done"@, d) && d.at("output_index"@).as_u64() == Some(
            run.start_idx,
        ) && d.at("item"@) == merged_item(run)
}

/// A merged run ends with its item, at the index of its first fragment; the part
/// of a message ends before it, with the whole text.
pub proof fn merged_runs_end_with_their_item(run: RunV)
    ensures
        run_end(run).len() == (if run.item_type is Message {
            2int
        } else {
            1int
        }),
        run.item_type is Message ==> ends_part(run_end(run)[0], run),
        ends_item(run_end(run).last(), run),
{
    reveal_strlit("type");
    reveal_strlit("item_id");
    reveal_strlit("output_index");
    reveal_strlit("part");
    reveal_strlit("text");
    reveal_strlit("item");
    assert("type"@.len() == 4);
    assert("item_id"@.len() == 7);
    assert("output_index"@.len() == 12);
    assert("part"@.len() == 4);
    assert("text"@.len() == 4);
    assert("item"@.len() == 4);
    assert("type"@[0] != "part"@[0]);
    assert("type"@[1] != "text"@[1]);
    assert("type"@[0] != "item"@[0]);
    assert("part"@[0] != "text"@[0]);
    assert("part"@[0] != "item"@[0]);
    assert("text"@[0] != "item"@[0]);
    let done = JsonV::object().set("type"@, JsonV::Str("response.output_item.done"@)).set(
        "output_index"@,
        JsonV::uint(run.start_idx),
    ).set("item"@, merged_item(run));
    let part = JsonV::object().set("type"@, JsonV::Str("response.content_part.done"@)).set(
        "item_id"@,
        JsonV::Str(run.start_id),
    ).set("output_index"@, JsonV::uint(run.start_idx)).set(
        "part"@,
        crate::heal::merge::text_part("output_text"@, run.merged),
    );
    assert(tells(run_end(run).last(), "response.output_item.done"@, done));
    assert(run.item_type is Message ==> tells(
        run_end(run)[0],
        "response.content_part.done"@,
        part,
    ));
}

/// The type of an item that can be merged.
pub open spec fn type_of(item: JsonV) -> Option<ItemType> {
    let t = item.get_str("type"@);
    if t == Some("message"@) {
        Some(ItemType::Message)
    } else if t == Some("reasoning"@) {
        Some(ItemType::Reasoning)
    } else if t == Some("function_call"@) {
        Some(ItemType::FunctionCall)
    } else {
        None
    }
}

/// An added item starts a run of its type, with its id, index, call id and name,
/// unless it continues the open one: then it joins it, and its event is held
/// back. An item of an unknown type ends the run and is forwarded.
pub proof fn added_items_start_or_join_a_run(st: MergerV, raw: Seq<u8>, v: JsonV, id: Seq<char>)
    requires
        v.at("item"@).get_str("id"@) == Some(id),
    ensures
        ({
            let item = v.at("item"@);
            let s = st.added(raw, Some(v));
            let call_id = item.get_str("call_id"@);
            let joins = st.run matches Some(run) && type_of(item) == Some(run.item_type)
                && run.call_id == call_id;
            &&& type_of(item) is None ==> s.st.run is None && s.out.len() > 0 && s.out.last() == raw
            &&& joins ==> s.out.len() == 0 && s.st.run is Some && s.st.run->0.fragment_ids
                == st.run->0.fragment_ids.push(id) && s.st.run->0.merged == st.run->0.merged
                && s.st.run->0.start_id == st.run->0.start_id && s.st.records == st.records
            &&& type_of(item) is Some && !joins ==> s.out.len() > 0 && s.out.last() == raw
                && s.st.run is Some && ({
                let run = s.st.run->0;
                &&& Some(run.item_type) == type_of(item)
                &&& run.start_id == id
                &&& run.fragment_ids == seq![id]
                &&& run.call_id == call_id
                &&& run.start_name == item.get_str("name"@)
                &&& run.start_idx == (match v.at("output_index"@).as_u64() {
                    Some(n) => n,
                    None => 0,
                })
                &&& run.merged.len() == 0
                &&& !run.part_added
            })
        }),
{
    reveal_strlit("message");
    reveal_strlit("reasoning");
    reveal_strlit("function_call");
    assert("message"@.len() == 7);
    assert("reasoning"@.len() == 9);
    assert("function_call"@.len() == 13);
}

/// A delta of an open run is gathered. While the run has one fragment it is
/// forwarded as it came; once it merges, it names the first fragment and keeps
/// all its other fields.
pub proof fn run_deltas_name_the_first_fragment(
    st: MergerV,
    run: RunV,
    raw: Seq<u8>,
    v: JsonV,
    d: Seq<char>,
    name: Seq<char>,
)
    requires
        st.run == Some(run),
        v.get_str("delta"@) == Some(d),
        run.item_type is Message ==> name == "response.output_text.delta"@,
        run.item_type is Reasoning ==> name == "response.reasoning_summary_text.delta"@,
        run.item_type is FunctionCall ==> name == "response.function_call_arguments.delta"@,
    ensures
        ({
            let s = st.delta(raw, name, Some(v));
            &&& s.st.run matches Some(after) && after.merged == run.merged + d
                && after.fragment_ids == run.fragment_ids
            &&& run.fragment_ids.len() < 2 ==> s.out == seq![raw]
            &&& run.fragment_ids.len() >= 2 ==> s.out.len() == 1 && exists|w: JsonV|
                #![trigger json_text(w)]
                is_block(s.out[0], name, w) && w.get_str("item_id"@) == Some(run.start_id)
                    && w.at("output_index"@).as_u64() == Some(run.start_idx) && w.get_str("delta"@)
                    == Some(d) && forall|k: Seq<char>|
                    k != "item_id"@ && k != "output_index"@ ==> #[trigger] w.get(k) == v.get(k)
        }),
{
    reveal_strlit("item_id");
    reveal_strlit("output_index");
    reveal_strlit("delta");
    assert("item_id"@.len() == 7);
    assert("output_index"@.len() == 12);
    assert("delta"@.len() == 5);
    let s = st.delta(raw, name, Some(v));
    let w = v.set("item_id"@, JsonV::Str(run.start_id)).set(
        "output_index"@,
        JsonV::uint(run.start_idx),
    );
    if run.fragment_ids.len() >= 2 {
        assert(is_block(s.out[0], name, w));
    }
}

/// A delta of another type than the open run's is forwarded as it came, and not
/// gathered.
pub proof fn foreign_deltas_pass(st: MergerV, run: RunV, raw: Seq<u8>, v: JsonV, name: Seq<char>)
    requires
        st.run == Some(run),
        run.item_type is Message ==> name != "response.output_text.delta"@,
        run.item_type is Reasoning ==> name != "response.reasoning_summary_text.delta"@,
        run.item_type is FunctionCall ==> name != "response.function_call_arguments.delta"@,
    ensures
        st.delta(raw, name, Some(v)) == (MergeStep { st, out: seq![raw] }),
{
}

/// The done events of a merging run are held back, where they are about one of
/// its fragments or name none; those of a run of one fragment are forwarded.
pub proof fn done_events_of_fragments_are_held_back(
    st: MergerV,
    run: RunV,
    raw: Seq<u8>,
    v: JsonV,
)
    requires
        st.run == Some(run),
    ensures
        ({
            let id = match v.get_str("item_id"@) {
                Some(x) => Some(x),
                None => v.at("item"@).get_str("id"@),
            };
            let held = run.fragment_ids.len() >= 2 && (id is None || run.fragment_ids.contains(
                id->0,
            ));
            &&& st.done(raw, Some(v)).st == st
            &&& held ==> st.done(raw, Some(v)).out.len() == 0
            &&& !held ==> st.done(raw, Some(v)).out == seq![raw]
        }),
{
}

/// The payload of a completed response is kept but for its output.
pub proof fn collapsed_payloads_keep_their_other_fields(
    v: JsonV,
    records: Seq<RecordV>,
    k: Seq<char>,
)
    ensures
        collapsed_payload(Some(v), records) is Some <==> v.at("response"@).get_arr(
            "output"@,
        ) is Some,
        collapsed_payload(Some(v), records) matches Some(w) ==> (k != "response"@ ==> w.get(k)
            == v.get(k)) && (k != "output"@ ==> w.at("response"@).get(k) == v.at("response"@).get(
            k,
        )),
{
}

/// A merger that is on gathers the three kinds of deltas, holds the done events of
/// fragments against the open run, and lets every event of another name pass.
pub proof fn events_are_merged_by_name(st: MergerV, raw: Seq<u8>, n: Seq<char>, v: JsonV)
    requires
        st.enabled,
    ensures
        (n == "response.output_text.delta"@ || n == "response.reasoning_summary_text.delta"@ || n
            == "response.function_call_arguments.delta"@) ==> st.push(raw, Some(n), Some(v))
            == st.hears().delta(raw, n, Some(v)),
        (n == "response.output_text.done"@ || n == "response.content_part.done"@ || n
            == "response.output_item.done"@) ==> st.push(raw, Some(n), Some(v)) == st.hears().done(
            raw,
            Some(v),
        ),
        n == "response.output_item.added"@ ==> st.push(raw, Some(n), Some(v)) == st.added(
            raw,
            Some(v),
        ),
        n == "response.content_part.added"@ ==> st.push(raw, Some(n), Some(v)) == st.hears().part(
            raw,
            Some(v),
        ),
        n == "response.completed"@ ==> st.push(raw, Some(n), Some(v)) == st.hears().completed(
            raw,
            Some(v),
        ),
        n == "response.created"@ || n == "response.in_progress"@ ==> st.push(
            raw,
            Some(n),
            Some(v),
        ).out == seq![raw],
{
    reveal_strlit("response.output_item.added");
    reveal_strlit("response.output_text.delta");
    reveal_strlit("response.reasoning_summary_text.delta");
    reveal_strlit("response.function_call_arguments.delta");
    reveal_strlit("response.content_part.added");
    reveal_strlit("response.output_text.done");
    reveal_strlit("response.content_part.done");
    reveal_strlit("response.output_item.done");
    reveal_strlit("response.completed");
    reveal_strlit("response.created");
    reveal_strlit("response.in_progress");
    assert("response.output_item.added"@.len() == 26);
    assert("response.output_text.delta"@.len() == 26);
    assert("response.reasoning_summary_text.delta"@.len() == 37);
    assert("response.function_call_arguments.delta"@.len() == 38);
    assert("response.content_part.added"@.len() == 27);
    assert("response.output_text.done"@.len() == 25);
    assert("response.content_part.done"@.len() == 26);
    assert("response.output_item.done"@.len() == 25);
    assert("response.completed"@.len() == 18);
    assert("response.created"@.len() == 16);
    assert("response.in_progress"@.len() == 20);
    assert("response.output_item.added"@[16] != "response.output_text.delta"@[16]);
    assert("response.output_item.added"@[9] != "response.content_part.done"@[9]);
    assert("response.output_text.delta"@[9] != "response.content_part.done"@[9]);
    assert("response.output_text.done"@[16] != "response.output_item.done"@[16]);
}

} // verus!
