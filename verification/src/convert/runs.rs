//! Laws of whole converted streams: what a run of chunks emits, and how it
//! ends.
use crate::convert::response::{
    event, finished_calls, str_or, ConvStep, ConverterV, EntryV, EventV, NameMap,
};
use crate::heal::dsml::DsmlState;
use crate::heal::responses::item_event;
use crate::heal::think::{SplitV, ThinkState};
use crate::heal::HealGates;
use crate::json::JsonV;
use crate::wire::chat::ChunkV;
use vstd::prelude::*;

verus! {

/// The events of a type, in order.
pub open spec fn of_kind(out: Seq<EventV>, kind: Seq<char>) -> Seq<EventV>
    decreases out.len(),
{
    if out.len() == 0 {
        Seq::empty()
    } else if out.last().0 == kind {
        of_kind(out.drop_last(), kind).push(out.last())
    } else {
        of_kind(out.drop_last(), kind)
    }
}

proof fn lemma_kind_push(a: Seq<EventV>, e: EventV, kind: Seq<char>)
    ensures
        of_kind(a.push(e), kind) == (if e.0 == kind {
            of_kind(a, kind).push(e)
        } else {
            of_kind(a, kind)
        }),
{
    assert(a.push(e).drop_last() =~= a);
}

proof fn lemma_kind_add(a: Seq<EventV>, b: Seq<EventV>, kind: Seq<char>)
    ensures
        of_kind(a + b, kind) == of_kind(a, kind) + of_kind(b, kind),
    decreases b.len(),
{
    if b.len() == 0 {
        assert(a + b =~= a);
        assert(of_kind(a, kind) + of_kind(b, kind) =~= of_kind(a, kind));
    } else {
        lemma_kind_add(a, b.drop_last(), kind);
        assert((a + b).drop_last() =~= a + b.drop_last());
        assert(of_kind(a + b, kind) =~= of_kind(a, kind) + of_kind(b, kind));
    }
}

proof fn lemma_kind_none(a: Seq<EventV>, kind: Seq<char>)
    requires
        forall|i: int| 0 <= i < a.len() ==> (#[trigger] a[i]).0 != kind,
    ensures
        of_kind(a, kind) == Seq::<EventV>::empty(),
    decreases a.len(),
{
    if a.len() > 0 {
        lemma_kind_none(a.drop_last(), kind);
    }
}

proof fn lemma_kind_all(a: Seq<EventV>, kind: Seq<char>)
    requires
        forall|i: int| 0 <= i < a.len() ==> (#[trigger] a[i]).0 == kind,
    ensures
        of_kind(a, kind) == a,
    decreases a.len(),
{
    if a.len() > 0 {
        lemma_kind_all(a.drop_last(), kind);
        assert(a.drop_last().push(a.last()) =~= a);
    }
}

proof fn lemma_kinds()
    ensures
        "response.output_item.added"@ != "response.output_item.done"@,
        "response.output_item.added"@ != "response.completed"@,
        "response.output_item.added"@ != "response.created"@,
        "response.output_item.added"@ != "response.output_text.delta"@,
        "response.output_item.added"@ != "response.function_call_arguments.delta"@,
        "response.output_item.done"@ != "response.completed"@,
        "response.output_item.done"@ != "response.created"@,
        "response.output_item.done"@ != "response.output_text.delta"@,
        "response.function_call_arguments.delta"@ != "response.output_item.done"@,
        "response.function_call_arguments.delta"@ != "response.completed"@,
        "response.function_call_arguments.delta"@ != "response.created"@,
        "response.function_call_arguments.delta"@ != "response.output_text.delta"@,
        "response.reasoning_summary_text.delta"@ != "response.output_item.done"@,
        "response.reasoning_summary_text.delta"@ != "response.completed"@,
        "response.reasoning_summary_text.delta"@ != "response.created"@,
        "response.reasoning_summary_text.delta"@ != "response.output_text.delta"@,
        "response.reasoning_summary_text.delta"@ != "response.function_call_arguments.delta"@,
        "response.output_text.delta"@ != "response.completed"@,
        "response.output_text.delta"@ != "response.created"@,
        "response.created"@ != "response.completed"@,
{
    reveal_strlit("response.output_item.added");
    reveal_strlit("response.output_item.done");
    reveal_strlit("response.completed");
    reveal_strlit("response.created");
    reveal_strlit("response.output_text.delta");
    reveal_strlit("response.function_call_arguments.delta");
    reveal_strlit("response.reasoning_summary_text.delta");
    assert("response.output_item.added"@.len() == 26);
    assert("response.output_item.done"@.len() == 25);
    assert("response.completed"@.len() == 18);
    assert("response.created"@.len() == 16);
    assert("response.output_text.delta"@.len() == 26);
    assert("response.function_call_arguments.delta"@.len() == 38);
    assert("response.reasoning_summary_text.delta"@.len() == 37);
    assert("response.output_item.added"@[16] != "response.output_text.delta"@[16]);
}

/// A run of chunks: the state behind them, and all their events. The `i`-th
/// chunk draws the `i`-th list of UUIDs.
pub open spec fn after_chunks(st: ConverterV, ks: Seq<ChunkV>, us: Seq<Seq<Seq<char>>>) -> ConvStep
    decreases ks.len(),
{
    if ks.len() == 0 {
        ConvStep { st, out: Seq::empty() }
    } else {
        let a = after_chunks(st, ks.drop_last(), us);
        let b = a.st.chunk(ks.last(), us[ks.len() - 1]);
        ConvStep { st: b.st, out: a.out + b.out }
    }
}

/// The done event of an item.
pub open spec fn done_event(index: u64, item: JsonV) -> EventV {
    event(
        "response.output_item.done"@,
        item_event("response.output_item.done"@, index, item),
    )
}

/// The done events of items whose indexes run from `from` on.
pub open spec fn done_events(items: Seq<JsonV>, from: int) -> Seq<EventV> {
    Seq::new(items.len(), |i: int| done_event((from + i) as u64, items[i]))
}

/// Whether the items that were added have the indexes from zero on.
pub open spec fn well_indexed(st: ConverterV) -> bool {
    match (st.reasoning_output_index, st.message_output_index) {
        (None, None) => st.next_output_index == 0,
        (Some(i), None) => i == 0 && st.next_output_index == 1,
        (None, Some(j)) => j == 0 && st.next_output_index == 1,
        (Some(i), Some(j)) => i + j == 1 && st.next_output_index == 2,
    }
}

proof fn lemma_indexed_split(st: ConverterV, split: SplitV)
    requires
        well_indexed(st),
    ensures
        well_indexed(st.split_delta(split).st),
{
}

proof fn lemma_indexed_chunks(st: ConverterV, ks: Seq<ChunkV>, us: Seq<Seq<Seq<char>>>)
    requires
        well_indexed(st),
    ensures
        well_indexed(after_chunks(st, ks, us).st),
    decreases ks.len(),
{
    if ks.len() > 0 {
        lemma_indexed_chunks(st, ks.drop_last(), us);
    }
}

proof fn lemma_calls_done(
    entries: Seq<EntryV>,
    names: NameMap,
    index: u64,
    uuids: Seq<Seq<char>>,
)
    requires
        index + entries.len() < u64::MAX,
    ensures
        ({
            let c = finished_calls(entries, names, index, uuids);
            &&& c.output.len() <= entries.len()
            &&& c.next_index == index + c.output.len()
            &&& of_kind(c.events, "response.output_item.done"@) == done_events(
                c.output,
                index as int,
            )
            &&& of_kind(c.events, "response.completed"@) == Seq::<EventV>::empty()
        }),
    decreases entries.len(),
{
    lemma_kinds();
    let done = "response.output_item.done"@;
    let completed = "response.completed"@;
    let c = finished_calls(entries, names, index, uuids);
    if entries.len() == 0 {
        assert(done_events(c.output, index as int) =~= Seq::<EventV>::empty());
    } else {
        lemma_calls_done(entries.drop_last(), names, index, uuids);
        let a = finished_calls(entries.drop_last(), names, index, uuids);
        if entries.last().name.len() > 0 {
            let n = c.events.len();
            let e1 = c.events[n - 3];
            let e2 = c.events[n - 2];
            let e3 = c.events[n - 1];
            assert(c.events =~= a.events.push(e1).push(e2).push(e3));
            lemma_kind_push(a.events, e1, done);
            lemma_kind_push(a.events.push(e1), e2, done);
            lemma_kind_push(a.events.push(e1).push(e2), e3, done);
            lemma_kind_push(a.events, e1, completed);
            lemma_kind_push(a.events.push(e1), e2, completed);
            lemma_kind_push(a.events.push(e1).push(e2), e3, completed);
            assert(done_events(c.output, index as int) =~= done_events(
                a.output,
                index as int,
            ).push(e3));
        }
    }
}

/// At its end a converted answer is completed once and last, and the items of
/// its done events are, one by one, the output of the completed response, under
/// the indexes from zero on.
pub proof fn done_items_are_the_output(st: ConverterV, fcs: Seq<Seq<char>>)
    requires
        well_indexed(st),
        st.tool_calls.len() + 2 < u64::MAX,
    ensures
        st.emit_finish(fcs).out.last() == st.completed(fcs),
        of_kind(st.emit_finish(fcs).out, "response.completed"@) == seq![st.completed(fcs)],
        of_kind(st.emit_finish(fcs).out, "response.output_item.done"@) == done_events(
            st.completed_output(fcs),
            0,
        ),
{
    lemma_kinds();
    let done = "response.output_item.done"@;
    let completed = "response.completed"@;
    let items = st.done_items();
    let calls = st.calls_out(fcs);
    let first = Seq::new(items.len(), |i: int| done_event(items[i].0, items[i].1));
    let end = st.completed(fcs);
    let out = st.emit_finish(fcs).out;
    assert(out =~= (first + calls.events).push(end));
    lemma_calls_done(st.tool_calls, st.names, st.next_output_index, fcs);
    lemma_kind_push(first + calls.events, end, done);
    lemma_kind_push(first + calls.events, end, completed);
    lemma_kind_add(first, calls.events, done);
    lemma_kind_add(first, calls.events, completed);
    lemma_kind_all(first, done);
    lemma_kind_none(first, completed);
    assert(of_kind(out, completed) =~= seq![end]);
    assert(items.len() == st.next_output_index);
    assert(of_kind(out, done) =~= done_events(st.completed_output(fcs), 0));
}

/// The converter behind a run of chunks, with its filters flushed, as it is
/// when it emits its end.
pub open spec fn flushed(st: ConverterV, cids: Seq<Seq<char>>) -> ConverterV {
    ConverterV { finish_emitted: true, ..st }.flush_heal(cids).st
}

/// Whatever chunks a fresh converter took in: what its end emits is completed
/// once and last, and its done events carry the output of the completed
/// response in order, under the indexes from zero on.
pub proof fn streams_end_with_their_output(
    response_id: Seq<char>,
    model: Seq<char>,
    heal: HealGates,
    names: NameMap,
    msg_uuid: Seq<char>,
    rs_uuid: Seq<char>,
    ks: Seq<ChunkV>,
    us: Seq<Seq<Seq<char>>>,
    cids: Seq<Seq<char>>,
    fcs: Seq<Seq<char>>,
)
    requires
        ({
            let fresh = ConverterV::fresh(response_id, model, heal, names, msg_uuid, rs_uuid);
            let st = after_chunks(fresh, ks, us).st;
            st.can_finish() && flushed(st, cids).tool_calls.len() + 2 < u64::MAX
        }),
    ensures
        ({
            let fresh = ConverterV::fresh(response_id, model, heal, names, msg_uuid, rs_uuid);
            let st = after_chunks(fresh, ks, us).st;
            let last = flushed(st, cids);
            let out = st.finish(cids, fcs).out;
            &&& out.last() == last.completed(fcs)
            &&& of_kind(out, "response.completed"@) == seq![last.completed(fcs)]
            &&& of_kind(out, "response.output_item.done"@) == done_events(
                last.completed_output(fcs),
                0,
            )
        }),
{
    let fresh = ConverterV::fresh(response_id, model, heal, names, msg_uuid, rs_uuid);
    let st = after_chunks(fresh, ks, us).st;
    let last = flushed(st, cids);
    lemma_indexed_chunks(fresh, ks, us);
    let empty = ConverterV {
        dsml: DsmlState::fresh(true),
        think: ThinkState::fresh(true),
        finish_emitted: true,
        ..st
    };
    lemma_indexed_split(empty, st.tail_split());
    done_items_are_the_output(last, fcs);
    let a = ConverterV { finish_emitted: true, ..st }.flush_heal(cids).out;
    let b = last.emit_finish(fcs).out;
    let done = "response.output_item.done"@;
    let completed = "response.completed"@;
    lemma_kinds();
    lemma_kind_none(a, done);
    lemma_kind_none(a, completed);
    lemma_kind_add(a, b, done);
    lemma_kind_add(a, b, completed);
    assert(of_kind(a + b, done) =~= of_kind(b, done));
    assert(of_kind(a + b, completed) =~= of_kind(b, completed));
}

/// The text that a chunk brings.
pub open spec fn content_of(c: ChunkV) -> Seq<char> {
    match c.delta {
        Some(d) => str_or(d.content, Seq::empty()),
        None => Seq::empty(),
    }
}

/// The texts that chunks bring, those that are not empty.
pub open spec fn contents(ks: Seq<ChunkV>) -> Seq<Seq<char>>
    decreases ks.len(),
{
    if ks.len() == 0 {
        Seq::empty()
    } else if content_of(ks.last()).len() == 0 {
        contents(ks.drop_last())
    } else {
        contents(ks.drop_last()).push(content_of(ks.last()))
    }
}

/// Texts one behind the other.
pub open spec fn concatenated(l: Seq<Seq<char>>) -> Seq<char>
    decreases l.len(),
{
    if l.len() == 0 {
        Seq::empty()
    } else {
        concatenated(l.drop_last()) + l.last()
    }
}

/// The delta event of a message's text.
pub open spec fn text_event(st: ConverterV, text: Seq<char>) -> EventV {
    event(
        "response.output_text.delta"@,
        JsonV::object().set("type"@, JsonV::Str("response.output_text.delta"@)).set(
            "item_id"@,
            JsonV::Str(st.msg_item_id),
        ).set("output_index"@, JsonV::uint(st.message_output_index->0)).set(
            "delta"@,
            JsonV::Str(text),
        ),
    )
}

/// The delta events of texts.
pub open spec fn text_events(st: ConverterV, texts: Seq<Seq<char>>) -> Seq<EventV> {
    Seq::new(texts.len(), |i: int| text_event(st, texts[i]))
}

/// Whether both filters of a converter are closed.
pub open spec fn gates_closed(st: ConverterV) -> bool {
    st.dsml == DsmlState::fresh(false) && st.think == ThinkState::fresh(false)
}

/// Whether events hold none that ends an item or the response.
pub open spec fn ends_nothing(out: Seq<EventV>) -> bool {
    forall|i: int|
        0 <= i < out.len() ==> (#[trigger] out[i]).0 != "response.output_item.done"@ && out[i].0
            != "response.function_call_arguments.delta"@ && out[i].0 != "response.completed"@
}

proof fn lemma_chunk_open(st: ConverterV, c: ChunkV, us: Seq<Seq<char>>)
    ensures
        ends_nothing(st.chunk(c, us).out),
{
    lemma_kinds();
}

proof fn lemma_chunk_closed(st: ConverterV, c: ChunkV, us: Seq<Seq<char>>)
    requires
        gates_closed(st),
    ensures
        ({
            let step = st.chunk(c, us);
            let text = content_of(c);
            &&& gates_closed(step.st)
            &&& step.st.started
            &&& step.st.msg_item_id == st.msg_item_id
            &&& step.st.text == st.text + text
            &&& text.len() == 0 ==> step.st.message_output_index == st.message_output_index
            &&& st.message_output_index is Some ==> step.st.message_output_index
                == st.message_output_index
            &&& text.len() > 0 ==> step.st.message_output_index is Some
            &&& of_kind(step.out, "response.output_text.delta"@) == (if text.len() == 0 {
                Seq::empty()
            } else {
                seq![text_event(step.st, text)]
            })
            &&& of_kind(step.out, "response.created"@) == (if st.started {
                Seq::empty()
            } else {
                seq![st.created()]
            })
            &&& !st.started ==> step.out.len() > 0 && step.out[0] == st.created()
        }),
{
    lemma_kinds();
    let delta = "response.output_text.delta"@;
    let created = "response.created"@;
    let step = st.chunk(c, us);
    let text = content_of(c);
    let a = st.start();
    assert(a.out == (if st.started { Seq::empty() } else { seq![st.created()] }));
    match c.delta {
        Some(d) => {
            let split = SplitV {
                reasoning: str_or(d.reasoning, Seq::empty()) + Seq::<char>::empty(),
                text,
            };
            let b = a.st.split_delta(split);
            let r = a.st.reasoning_delta(split.reasoning);
            let m = r.st.text_delta(text);
            assert(step.out == a.out + (r.out + m.out));
            lemma_kind_none(r.out, delta);
            lemma_kind_none(r.out, created);
            lemma_kind_none(m.out, created);
            if text.len() == 0 {
                lemma_kind_none(m.out, delta);
                assert(step.st.text =~= st.text + text);
            } else {
                let e = text_event(step.st, text);
                if r.st.message_output_index is Some {
                    assert(m.out =~= Seq::<EventV>::empty().push(e));
                    lemma_kind_push(Seq::empty(), e, delta);
                } else {
                    let first = m.out[0];
                    assert(m.out =~= Seq::<EventV>::empty().push(first).push(e));
                    lemma_kind_push(Seq::empty(), first, delta);
                    lemma_kind_push(Seq::<EventV>::empty().push(first), e, delta);
                }
                assert(of_kind(m.out, delta) =~= seq![e]);
            }
            lemma_kind_add(r.out, m.out, delta);
            lemma_kind_add(r.out, m.out, created);
            lemma_kind_add(a.out, r.out + m.out, delta);
            lemma_kind_add(a.out, r.out + m.out, created);
        },
        None => {
            assert(step.out =~= a.out + Seq::<EventV>::empty());
            lemma_kind_add(a.out, Seq::empty(), delta);
            lemma_kind_add(a.out, Seq::empty(), created);
            assert(step.st.text =~= st.text + text);
        },
    }
    lemma_kind_none(a.out, delta);
    if st.started {
        lemma_kind_none(a.out, created);
    } else {
        lemma_kind_all(a.out, created);
    }
    assert(of_kind(step.out, created) =~= a.out);
    assert(of_kind(step.out, delta) =~= (if text.len() == 0 {
        Seq::empty()
    } else {
        seq![text_event(step.st, text)]
    }));
}

/// With both gates closed a run of chunks streams its text as it came: the text
/// deltas carry the contents of the chunks one by one, and what was gathered is
/// the contents one behind the other. The response is created by the first
/// event and no other. Nothing is done and nothing completed, whatever tool
/// calls or finish reasons the chunks carry.
pub proof fn plain_chunks_stream_their_text(
    response_id: Seq<char>,
    model: Seq<char>,
    heal: HealGates,
    names: NameMap,
    msg_uuid: Seq<char>,
    rs_uuid: Seq<char>,
    ks: Seq<ChunkV>,
    us: Seq<Seq<Seq<char>>>,
)
    requires
        !heal.dsml && !heal.think,
    ensures
        ({
            let fresh = ConverterV::fresh(response_id, model, heal, names, msg_uuid, rs_uuid);
            let run = after_chunks(fresh, ks, us);
            &&& of_kind(run.out, "response.output_text.delta"@) == text_events(
                run.st,
                contents(ks),
            )
            &&& run.st.text == concatenated(contents(ks))
            &&& run.st.text == concatenated(Seq::new(ks.len(), |i: int| content_of(ks[i])))
            &&& ks.len() > 0 ==> run.out.len() > 0 && run.out[0] == fresh.created() && of_kind(
                run.out,
                "response.created"@,
            ) == seq![fresh.created()]
            &&& ends_nothing(run.out)
        }),
{
    let fresh = ConverterV::fresh(response_id, model, heal, names, msg_uuid, rs_uuid);
    lemma_plain_chunks(fresh, ks, us);
}

proof fn lemma_plain_chunks(fresh: ConverterV, ks: Seq<ChunkV>, us: Seq<Seq<Seq<char>>>)
    requires
        gates_closed(fresh),
        !fresh.started,
        fresh.text.len() == 0,
    ensures
        ({
            let run = after_chunks(fresh, ks, us);
            &&& gates_closed(run.st)
            &&& run.st.started == (ks.len() > 0)
            &&& contents(ks).len() > 0 ==> run.st.message_output_index is Some
            &&& of_kind(run.out, "response.output_text.delta"@) == text_events(
                run.st,
                contents(ks),
            )
            &&& run.st.text == concatenated(contents(ks))
            &&& run.st.text == concatenated(Seq::new(ks.len(), |i: int| content_of(ks[i])))
            &&& ks.len() == 0 ==> run.st == fresh
            &&& ks.len() > 0 ==> run.out.len() > 0 && run.out[0] == fresh.created() && of_kind(
                run.out,
                "response.created"@,
            ) == seq![fresh.created()]
            &&& ends_nothing(run.out)
        }),
    decreases ks.len(),
{
    let delta = "response.output_text.delta"@;
    let created = "response.created"@;
    let run = after_chunks(fresh, ks, us);
    let all = Seq::new(ks.len(), |i: int| content_of(ks[i]));
    if ks.len() == 0 {
        assert(fresh.text =~= Seq::<char>::empty());
        assert(text_events(run.st, contents(ks)) =~= Seq::<EventV>::empty());
    } else {
        let front = ks.drop_last();
        lemma_plain_chunks(fresh, front, us);
        let a = after_chunks(fresh, front, us);
        let b = a.st.chunk(ks.last(), us[ks.len() - 1]);
        lemma_chunk_closed(a.st, ks.last(), us[ks.len() - 1]);
        lemma_chunk_open(a.st, ks.last(), us[ks.len() - 1]);
        lemma_kind_add(a.out, b.out, delta);
        lemma_kind_add(a.out, b.out, created);
        assert(all.drop_last() =~= Seq::new(front.len(), |i: int| content_of(front[i])));
        let text = content_of(ks.last());
        if text.len() == 0 {
            assert(a.st.text + text =~= a.st.text);
        } else {
            assert(contents(ks).drop_last() =~= contents(front));
        }
        assert(of_kind(run.out, delta) =~= text_events(run.st, contents(ks)));
        if front.len() == 0 {
            assert(run.out =~= b.out);
        } else {
            assert(of_kind(a.out, created) + Seq::<EventV>::empty() =~= of_kind(a.out, created));
        }
        assert forall|i: int| 0 <= i < run.out.len() implies (#[trigger] run.out[i]).0
            != "response.output_item.done"@ && run.out[i].0
            != "response.function_call_arguments.delta"@ && run.out[i].0
            != "response.completed"@ by {
            if i < a.out.len() {
                assert(run.out[i] == a.out[i]);
            } else {
                assert(run.out[i] == b.out[i - a.out.len()]);
            }
        }
    }
}

} // verus!
