//! Laws of whole merged streams: what a run gathers, what is kept of it when it
//! ends, and what the completed response holds.
use crate::heal::merge::{
    collapse, merged_item, record_of, run_end, ItemType, MergeStep, MergerV, RecordV, RunV,
};
use crate::json::JsonV;
use crate::sse::block;
use vstd::prelude::*;

verus! {

/// An event of a stream: its bytes, its name, and its payload as JSON.
pub struct StreamEventV {
    pub raw: Seq<u8>,
    pub name: Option<Seq<char>>,
    pub event: Option<JsonV>,
}

/// A run of events: the state behind them, and all that is forwarded.
pub open spec fn after_events(st: MergerV, evs: Seq<StreamEventV>) -> MergeStep
    decreases evs.len(),
{
    if evs.len() == 0 {
        MergeStep { st, out: Seq::empty() }
    } else {
        let a = after_events(st, evs.drop_last());
        let e = evs.last();
        let b = a.st.push(e.raw, e.name, e.event);
        MergeStep { st: b.st, out: a.out + b.out }
    }
}

/// The done event of an item.
pub open spec fn done_block(index: u64, item: JsonV) -> Seq<u8> {
    block(
        "response.output_item.done"@,
        JsonV::object().set("type"@, JsonV::Str("response.output_item.done"@)).set(
            "output_index"@,
            JsonV::uint(index),
        ).set("item"@, item),
    )
}

proof fn lemma_names()
    ensures
        "response.output_item.added"@ != "response.output_text.delta"@,
        "response.output_item.added"@ != "response.reasoning_summary_text.delta"@,
        "response.output_item.added"@ != "response.function_call_arguments.delta"@,
        "response.output_item.added"@ != "response.completed"@,
        "response.completed"@ != "response.output_text.delta"@,
        "response.completed"@ != "response.reasoning_summary_text.delta"@,
        "response.completed"@ != "response.function_call_arguments.delta"@,
        "response.completed"@ != "response.content_part.added"@,
        "response.completed"@ != "response.output_text.done"@,
        "response.completed"@ != "response.content_part.done"@,
        "response.completed"@ != "response.output_item.done"@,
{
    reveal_strlit("response.output_item.added");
    reveal_strlit("response.output_text.delta");
    reveal_strlit("response.reasoning_summary_text.delta");
    reveal_strlit("response.function_call_arguments.delta");
    reveal_strlit("response.completed");
    reveal_strlit("response.content_part.added");
    reveal_strlit("response.output_text.done");
    reveal_strlit("response.content_part.done");
    reveal_strlit("response.output_item.done");
    assert("response.output_item.added"@.len() == 26);
    assert("response.output_text.delta"@.len() == 26);
    assert("response.reasoning_summary_text.delta"@.len() == 37);
    assert("response.function_call_arguments.delta"@.len() == 38);
    assert("response.completed"@.len() == 18);
    assert("response.content_part.added"@.len() == 27);
    assert("response.output_text.done"@.len() == 25);
    assert("response.content_part.done"@.len() == 26);
    assert("response.output_item.done"@.len() == 25);
    assert("response.output_item.added"@[16] != "response.output_text.delta"@[16]);
}

/// The type of the item that an event is about, where it is one that can be
/// merged.
pub open spec fn type_in(v: JsonV) -> Option<ItemType> {
    match v.at("item"@).get_str("type"@) {
        Some(s) => ItemType::named(s),
        None => None,
    }
}

/// Whether an event ends a run: the completed event, or an added item that does
/// not continue it.
pub open spec fn ends_run(run: RunV, e: StreamEventV) -> bool {
    ||| e.name == Some("response.completed"@)
    ||| e.name == Some("response.output_item.added"@) && (e.event matches Some(v) && match type_in(
        v,
    ) {
        None => true,
        Some(ty) => v.at("item"@).get_str("id"@) is Some && !(ty == run.item_type && v.at(
            "item"@,
        ).get_str("call_id"@) == run.call_id),
    })
}

/// The deltas of a type among events, one behind the other.
pub open spec fn joined_deltas(ty: ItemType, evs: Seq<StreamEventV>) -> Seq<char>
    decreases evs.len(),
{
    if evs.len() == 0 {
        Seq::empty()
    } else {
        let e = evs.last();
        let front = joined_deltas(ty, evs.drop_last());
        match e.event {
            Some(v) => match v.get_str("delta"@) {
                Some(d) => if e.name == Some(ty.delta_name()) {
                    front + d
                } else {
                    front
                },
                None => front,
            },
            None => front,
        }
    }
}

/// The ids of the items that can be merged and are added among events.
pub open spec fn added_ids(evs: Seq<StreamEventV>) -> Seq<Seq<char>>
    decreases evs.len(),
{
    if evs.len() == 0 {
        Seq::empty()
    } else {
        let e = evs.last();
        let front = added_ids(evs.drop_last());
        match e.event {
            Some(v) => match v.at("item"@).get_str("id"@) {
                Some(id) => if e.name == Some("response.output_item.added"@) && type_in(
                    v,
                ) is Some {
                    front.push(id)
                } else {
                    front
                },
                None => front,
            },
            None => front,
        }
    }
}

/// Whether a run is an earlier state of another: the first item is the same.
pub open spec fn same_start(a: RunV, b: RunV) -> bool {
    &&& a.item_type == b.item_type
    &&& a.start_idx == b.start_idx
    &&& a.start_id == b.start_id
    &&& a.call_id == b.call_id
    &&& a.start_name == b.start_name
}

/// As long as no event ends a run, it gathers: the deltas of its type one
/// behind the other, and the ids of the added items in order. Its first item
/// stays the same, and no other run is recorded.
pub proof fn runs_gather_their_fragments(st: MergerV, run: RunV, evs: Seq<StreamEventV>)
    requires
        st.enabled,
        st.run == Some(run),
        forall|i: int| 0 <= i < evs.len() ==> !ends_run(run, #[trigger] evs[i]),
    ensures
        ({
            let after = after_events(st, evs).st;
            &&& after.enabled
            &&& after.records == st.records
            &&& after.run matches Some(later) && same_start(run, later) && later.merged
                == run.merged + joined_deltas(run.item_type, evs) && later.fragment_ids
                == run.fragment_ids + added_ids(evs)
        }),
    decreases evs.len(),
{
    lemma_names();
    let after = after_events(st, evs).st;
    if evs.len() == 0 {
        assert(run.merged + joined_deltas(run.item_type, evs) =~= run.merged);
        assert(run.fragment_ids + added_ids(evs) =~= run.fragment_ids);
    } else {
        let front = evs.drop_last();
        assert forall|i: int| 0 <= i < front.len() implies !ends_run(run, #[trigger] front[i]) by {
            assert(front[i] == evs[i]);
        }
        runs_gather_their_fragments(st, run, front);
        let e = evs[evs.len() - 1];
        assert(!ends_run(run, e));
        let before = after_events(st, front).st;
        let earlier = before.run->0;
        assert(after == before.push(e.raw, e.name, e.event).st);
        assert(after.run is Some);
        let later = after.run->0;
        assert(later.merged =~= run.merged + joined_deltas(run.item_type, evs));
        assert(later.fragment_ids =~= run.fragment_ids + added_ids(evs));
    }
}

/// A run of two or more items that an event ends is recorded, with the item
/// that it is merged into.
pub proof fn ended_runs_are_recorded(st: MergerV, run: RunV, e: StreamEventV)
    requires
        st.enabled,
        st.run == Some(run),
        run.merges(),
        ends_run(run, e),
    ensures
        st.push(e.raw, e.name, e.event).st.records == st.records.push(
            RecordV { fragment_ids: run.fragment_ids, item: merged_item(run) },
        ),
{
    lemma_names();
}

/// Whether a record keeps a run: its items, and the item that it was merged
/// into, under the id of the first. A done event that carries the merged item is
/// among the chunks, except of a message without any text.
pub open spec fn keeps(rec: RecordV, run: RunV, out: Seq<Seq<u8>>) -> bool {
    &&& run.merges()
    &&& run.start_id == run.fragment_ids[0]
    &&& rec.fragment_ids == run.fragment_ids
    &&& rec.item == merged_item(run)
    &&& rec.item.get_str("id"@) == Some(run.fragment_ids[0])
    &&& (run.item_type is Message && run.merged.len() == 0) || out.contains(
        done_block(run.start_idx, rec.item),
    )
}

/// Whether a record keeps some run.
pub open spec fn keeps_a_run(rec: RecordV, out: Seq<Seq<u8>>) -> bool {
    exists|run: RunV| keeps(rec, run, out)
}

proof fn lemma_item_id(run: RunV)
    ensures
        merged_item(run).get_str("id"@) == Some(run.start_id),
{
    reveal_strlit("id");
    reveal_strlit("type");
    reveal_strlit("role");
    reveal_strlit("status");
    reveal_strlit("content");
    reveal_strlit("summary");
    reveal_strlit("call_id");
    reveal_strlit("name");
    reveal_strlit("arguments");
    assert("id"@.len() == 2 && "role"@.len() == 4 && "status"@.len() == 6);
    assert("content"@.len() == 7 && "summary"@.len() == 7 && "call_id"@.len() == 7);
    assert("name"@.len() == 4 && "arguments"@.len() == 9 && "type"@.len() == 4);
}

proof fn lemma_run_end(run: RunV)
    ensures
        run_end(run).contains(done_block(run.start_idx, merged_item(run))),
{
    let end = run_end(run);
    assert(end[end.len() - 1] == done_block(run.start_idx, merged_item(run)));
}

/// Whether every record keeps a run, and the open run starts with its first
/// item and has text only where a delta came.
spec fn all_kept(st: MergerV, out: Seq<Seq<u8>>) -> bool {
    &&& forall|k: int| 0 <= k < st.records.len() ==> keeps_a_run(#[trigger] st.records[k], out)
    &&& st.run matches Some(run) ==> run.fragment_ids.len() > 0 && run.start_id
        == run.fragment_ids[0] && (run.merged.len() > 0 ==> run.heard)
}

proof fn lemma_step_keeps(st: MergerV, e: StreamEventV, out: Seq<Seq<u8>>)
    requires
        all_kept(st, out),
    ensures
        all_kept(
            st.push(e.raw, e.name, e.event).st,
            out + st.push(e.raw, e.name, e.event).out,
        ),
{
    let step = st.push(e.raw, e.name, e.event);
    let whole = out + step.out;
    if let Some(run) = st.run {
        lemma_item_id(run);
        lemma_run_end(run);
    }
    assert forall|k: int| 0 <= k < step.st.records.len() implies keeps_a_run(
        #[trigger] step.st.records[k],
        whole,
    ) by {
        if k < st.records.len() {
            assert(keeps_a_run(st.records[k], out));
            assert(step.st.records[k] == st.records[k]);
            let run = choose|run: RunV| keeps(st.records[k], run, out);
            if !(run.item_type is Message && run.merged.len() == 0) {
                let b = done_block(run.start_idx, st.records[k].item);
                let i = choose|i: int| 0 <= i < out.len() && out[i] == b;
                assert(whole[i] == b);
            }
            assert(keeps(step.st.records[k], run, whole));
        } else {
            let run = st.run->0;
            let rec = step.st.records[k];
            assert(rec.item == merged_item(run) && rec.fragment_ids == run.fragment_ids);
            if run.owes_close() {
                let b = done_block(run.start_idx, rec.item);
                let end = run_end(run);
                let i = choose|i: int| 0 <= i < end.len() && end[i] == b;
                assert(step.out[i] == end[i]);
                assert(whole[out.len() + i] == b);
            }
            assert(keeps(rec, run, whole));
        }
    }
}

proof fn lemma_events_keep(evs: Seq<StreamEventV>)
    ensures
        all_kept(
            after_events(MergerV::fresh(true), evs).st,
            after_events(MergerV::fresh(true), evs).out,
        ),
    decreases evs.len(),
{
    if evs.len() > 0 {
        lemma_events_keep(evs.drop_last());
        let a = after_events(MergerV::fresh(true), evs.drop_last());
        lemma_step_keeps(a.st, evs.last(), a.out);
    }
}

/// The record that the item at a position is a fragment of.
pub open spec fn record_at(items: Seq<JsonV>, records: Seq<RecordV>, p: int) -> Option<int> {
    match items[p].get_str("id"@) {
        Some(id) => record_of(records, id, 0),
        None => None,
    }
}

/// Whether the item at a position keeps its place: it is no fragment, or the
/// first one of its record.
pub open spec fn keeps_place(items: Seq<JsonV>, records: Seq<RecordV>, p: int) -> bool {
    match record_at(items, records, p) {
        Some(k) => forall|q: int|
            0 <= q < p ==> #[trigger] record_at(items, records, q) != Some(k),
        None => true,
    }
}

/// What stands in place of the item at a position.
pub open spec fn replaced(items: Seq<JsonV>, records: Seq<RecordV>, p: int) -> JsonV {
    match record_at(items, records, p) {
        Some(k) => records[k].item,
        None => items[p],
    }
}

/// The positions that are kept, in order.
pub open spec fn kept_places(items: Seq<JsonV>, records: Seq<RecordV>, n: int) -> Seq<int>
    decreases n,
{
    if n <= 0 {
        Seq::empty()
    } else if keeps_place(items, records, n - 1) {
        kept_places(items, records, n - 1).push(n - 1)
    } else {
        kept_places(items, records, n - 1)
    }
}

/// Whether a list is an output with the fragments of every record collapsed
/// into one item where the first of them stood, and all other items kept in
/// order.
pub open spec fn collapsed_in_place(
    items: Seq<JsonV>,
    records: Seq<RecordV>,
    out: Seq<JsonV>,
) -> bool {
    let at = kept_places(items, records, items.len() as int);
    &&& out.len() == at.len()
    &&& forall|j: int| 0 <= j < at.len() ==> #[trigger] out[j] == replaced(items, records, at[j])
    &&& forall|i: int, j: int| 0 <= i < j < at.len() ==> #[trigger] at[i] < #[trigger] at[j]
    &&& forall|p: int|
        0 <= p < items.len() ==> (at.contains(p) <==> #[trigger] keeps_place(items, records, p))
}

proof fn lemma_record_of(records: Seq<RecordV>, id: Seq<char>, k: int)
    requires
        0 <= k,
    ensures
        record_of(records, id, k) matches Some(r) ==> k <= r < records.len(),
    decreases records.len() - k,
{
    if k < records.len() && !records[k].fragment_ids.contains(id) {
        lemma_record_of(records, id, k + 1);
    }
}

proof fn lemma_kept_places(items: Seq<JsonV>, records: Seq<RecordV>, n: int)
    requires
        0 <= n <= items.len(),
    ensures
        ({
            let at = kept_places(items, records, n);
            &&& forall|i: int, j: int| 0 <= i < j < at.len() ==> #[trigger] at[i] < #[trigger] at[j]
            &&& forall|i: int| 0 <= i < at.len() ==> 0 <= #[trigger] at[i] < n
            &&& forall|p: int|
                0 <= p < n ==> (at.contains(p) <==> #[trigger] keeps_place(items, records, p))
        }),
    decreases n,
{
    if n > 0 {
        lemma_kept_places(items, records, n - 1);
        let front = kept_places(items, records, n - 1);
        let at = kept_places(items, records, n);
        assert forall|p: int| 0 <= p < n implies (at.contains(p) <==> #[trigger] keeps_place(
            items,
            records,
            p,
        )) by {
            if p < n - 1 {
                if front.contains(p) {
                    let i = choose|i: int| 0 <= i < front.len() && front[i] == p;
                    assert(at[i] == p);
                }
                if at.contains(p) {
                    let i = choose|i: int| 0 <= i < at.len() && at[i] == p;
                    assert(front[i] == p);
                }
            } else if keeps_place(items, records, p) {
                assert(at[front.len() as int] == p);
            }
        }
    }
}

proof fn lemma_collapse(items: Seq<JsonV>, records: Seq<RecordV>, n: int)
    requires
        0 <= n <= items.len(),
    ensures
        ({
            let (out, met) = collapse(items.take(n), records);
            let at = kept_places(items, records, n);
            &&& out.len() == at.len()
            &&& met.len() == records.len()
            &&& forall|j: int|
                0 <= j < at.len() ==> #[trigger] out[j] == replaced(items, records, at[j])
            &&& forall|k: int|
                0 <= k < records.len() ==> (#[trigger] met[k] <==> exists|q: int|
                    0 <= q < n && #[trigger] record_at(items, records, q) == Some(k))
        }),
    decreases n,
{
    let t = items.take(n);
    if n > 0 {
        lemma_collapse(items, records, n - 1);
        assert(t.drop_last() =~= items.take(n - 1));
        assert(t.last() == items[n - 1]);
        if let Some(id) = items[n - 1].get_str("id"@) {
            lemma_record_of(records, id, 0);
        }
        let (out0, met0) = collapse(items.take(n - 1), records);
        let (out, met) = collapse(t, records);
        let front = kept_places(items, records, n - 1);
        let at = kept_places(items, records, n);
        let here = record_at(items, records, n - 1);
        if let Some(k) = here {
            assert(met0[k] <==> !keeps_place(items, records, n - 1));
        }
        assert forall|j: int| 0 <= j < at.len() implies #[trigger] out[j] == replaced(
            items,
            records,
            at[j],
        ) by {
            if j < front.len() {
                assert(out[j] == out0[j]);
            }
        }
        assert forall|k: int| 0 <= k < records.len() implies (#[trigger] met[k] <==> exists|q: int|
            0 <= q < n && #[trigger] record_at(items, records, q) == Some(k)) by {
            if met0[k] {
                let q = choose|q: int|
                    0 <= q < n - 1 && #[trigger] record_at(items, records, q) == Some(k);
                assert(record_at(items, records, q) == Some(k));
            }
            if here == Some(k) {
                assert(record_at(items, records, n - 1) == Some(k));
            }
        }
    }
}

/// Collapsing an output puts one item where the first fragment of each record
/// stood and keeps all other items in order.
pub proof fn fragments_collapse_in_place(items: Seq<JsonV>, records: Seq<RecordV>)
    ensures
        collapsed_in_place(items, records, collapse(items, records).0),
{
    lemma_collapse(items, records, items.len() as int);
    lemma_kept_places(items, records, items.len() as int);
    assert(items.take(items.len() as int) =~= items);
}

/// A stream that is completed: where no run merged, the completed event is
/// forwarded verbatim and alone. Where one did, the completed event comes last
/// and holds the output with the fragments of every merged run collapsed into
/// one item in place. Each merged run was recorded under the id of its first
/// item, and where the wire owed it a close, a done event carried the very item
/// that the completed output holds. A run that is open at the end gets its done
/// event in any case.
pub proof fn merged_streams_complete_whole(
    evs: Seq<StreamEventV>,
    raw: Seq<u8>,
    v: JsonV,
    items: Seq<JsonV>,
)
    requires
        v.at("response"@).get_arr("output"@) == Some(items),
    ensures
        ({
            let before = after_events(MergerV::fresh(true), evs);
            let step = before.st.push(raw, Some("response.completed"@), Some(v));
            let records = step.st.records;
            let output = collapse(items, records).0;
            &&& records.len() == 0 ==> step.out == seq![raw]
            &&& records.len() > 0 ==> step.out.last() == block(
                "response.completed"@,
                v.set("response"@, v.at("response"@).set("output"@, JsonV::Arr(output))),
            )
            &&& collapsed_in_place(items, records, output)
            &&& forall|k: int|
                0 <= k < records.len() ==> keeps_a_run(
                    #[trigger] records[k],
                    before.out + step.out,
                )
            &&& before.st.run matches Some(run) ==> (run.merges() ==> records.len() > 0
                && records.last().item == merged_item(run) && step.out.contains(
                done_block(run.start_idx, merged_item(run)),
            ))
        }),
{
    lemma_names();
    let before = after_events(MergerV::fresh(true), evs);
    let e = StreamEventV { raw, name: Some("response.completed"@), event: Some(v) };
    let step = before.st.push(raw, e.name, e.event);
    lemma_enabled(evs);
    lemma_events_keep(evs);
    lemma_step_keeps(before.st, e, before.out);
    fragments_collapse_in_place(items, step.st.records);
    if step.st.records.len() == 0 {
        assert(step.out =~= seq![raw]);
    }
    if let Some(run) = before.st.run {
        if run.merges() {
            lemma_run_end(run);
            let b = done_block(run.start_idx, merged_item(run));
            let end = run_end(run);
            let i = choose|i: int| 0 <= i < end.len() && end[i] == b;
            assert(step.out[i] == b);
        }
    }
}

proof fn lemma_enabled(evs: Seq<StreamEventV>)
    ensures
        after_events(MergerV::fresh(true), evs).st.enabled,
    decreases evs.len(),
{
    if evs.len() > 0 {
        lemma_enabled(evs.drop_last());
    }
}

} // verus!
