//! What becomes of a call that leaks into a stream: it is told as a call, and
//! none of its markup is told as text.

use crate::convert::response::{ordered, ConverterV};
use crate::heal::dsml::{dsml_markers, lemma_dsml_markers, safe_len, CallV, DsmlDialect, DsmlState};
use crate::heal::markers::{
    differs, first_marker, lemma_first_marker_is, lemma_starts_at_chars, lemma_tag_at, opens_tag,
    tag_at,
};
use crate::heal::responses::HealerV;
use crate::heal::think::{SplitV, ThinkState};
use crate::json::{json_text, JsonV};
use crate::laws::answers::healed_calls_join_behind;
use crate::laws::healing::leaked_calls_are_injected;
use crate::laws::markup::{
    are_arguments, can_be_written, is_bare, is_free, written_call, written_calls_are_read_back,
};
use crate::laws::thinking::{is_plain, plain_text_is_text};
use crate::text::starts_at;
use crate::wire::chat::{ChunkV, DeltaV};
use vstd::prelude::*;

verus! {

proof fn lemma_marker_found(a: Seq<char>, d: DsmlDialect, rest: Seq<char>)
    requires
        is_plain(a),
    ensures
        first_marker(a + d.marker() + rest, 0, dsml_markers()) == Some(
            (a.len() as int, d.marker().len() as int),
        ),
{
    lemma_dsml_markers();
    let ts = dsml_markers();
    let m = d.marker();
    let t = a + m + rest;
    let n = a.len() as int;
    let k: int = match d {
        DsmlDialect::DoubleBar => 0,
        DsmlDialect::SingleBar => 1,
    };
    assert(ts[k] == m);
    assert(ts[k].len() > 1);
    assert(t.subrange(n, n + m.len()) =~= m);
    assert(starts_at(t, n, ts[k]));
    lemma_tag_at(t, n, ts);
    let l = choose|l: int|
        0 <= l < ts.len() && starts_at(t, n, #[trigger] ts[l]) && ts[l].len() == tag_at(t, n, ts);
    if l != k {
        assert(differs(ts[k], ts[l]));
        lemma_starts_at_chars(t, n, ts[k]);
        lemma_starts_at_chars(t, n, ts[l]);
        let j = choose|j: int|
            0 <= j < ts[k].len() && j < ts[l].len() && #[trigger] ts[k][j] != ts[l][j];
        assert(t[n + j] == ts[k][j]);
        assert(t[n + j] == ts[l][j]);
    }
    assert forall|j: int| 0 <= j < n implies tag_at(t, j, ts) <= 0 by {
        assert(t[j] == a[j]);
        lemma_tag_at(t, j, ts);
        if tag_at(t, j, ts) > 0 {
            let x = choose|x: int|
                0 <= x < ts.len() && starts_at(t, j, #[trigger] ts[x]) && ts[x].len() == tag_at(
                    t,
                    j,
                    ts,
                );
            lemma_starts_at_chars(t, j, ts[x]);
            assert(opens_tag(ts[x][0]));
            assert(t[j + 0] == ts[x][0]);
        }
    }
    lemma_first_marker_is(t, 0, ts, n);
}

/// Whether a call holds exactly those parameters, under that name.
pub open spec fn is_call_with(
    c: CallV,
    name: Seq<char>,
    ps: Seq<(Seq<char>, Seq<char>)>,
) -> bool {
    c.name == name && exists|m: Map<Seq<char>, JsonV>|
        are_arguments(m, ps) && c.arguments == #[trigger] json_text(JsonV::Obj(m))
}

/// A filter that meets a call emits what stands before it, and at the end
/// releases what stands behind it, and the call.
pub proof fn filters_hold_back_calls(
    d: DsmlDialect,
    a: Seq<char>,
    name: Seq<char>,
    ps: Seq<(Seq<char>, Seq<char>)>,
    b: Seq<char>,
)
    requires
        is_plain(a),
        is_plain(b),
        name.len() > 0,
        is_bare(name),
        can_be_written(ps),
    ensures
        ({
            let st = DsmlState::fresh(true);
            let t = a + written_call(d, name, ps) + b;
            let rest = st.after(t).rest();
            &&& st.emits(t) == a
            &&& st.after(t).fired
            &&& rest.0 == b
            &&& rest.1.len() == 1
            &&& is_call_with(rest.1[0], name, ps)
        }),
{
    let w = written_call(d, name, ps);
    let t = a + w + b;
    let st = DsmlState::fresh(true);
    let tail = written_call(d, name, ps).skip(d.marker().len() as int);
    assert(w =~= d.marker() + tail);
    assert(t =~= a + d.marker() + (tail + b));
    lemma_marker_found(a, d, tail + b);
    assert(st.pending + t =~= t);
    assert(safe_len(t) == a.len());
    assert(t.take(a.len() as int) =~= a);
    assert(t.skip(a.len() as int) =~= w + b);
    let e = Seq::<char>::empty();
    assert(w + b =~= e + w + b);
    assert(is_free(b));
    written_calls_are_read_back(d, e, name, ps, b);
    assert(e + b =~= b);
}

proof fn lemma_plain_think(on: bool, t: Seq<char>)
    requires
        is_plain(t),
    ensures
        ThinkState::fresh(on).emits(t).then_split(ThinkState::fresh(on).after(t).rest()) == (
        SplitV { reasoning: Seq::empty(), text: t }),
        ThinkState::fresh(on).emits(t) == (SplitV { reasoning: Seq::empty(), text: t }),
        ThinkState::fresh(on).after(t) == ThinkState::fresh(on),
{
    let e = Seq::<char>::empty();
    let st = ThinkState::fresh(on);
    if on {
        plain_text_is_text(t);
        assert(st.pending + t =~= t);
        crate::laws::thinking::lemma_plain_scan(t, false);
    }
    assert(t + e =~= t);
    assert(e + e =~= e);
    assert(st.emits(t).then_split(st.after(t).rest()).text =~= t);
    assert(st.emits(t).then_split(st.after(t).rest()).reasoning =~= e);
}

/// A call that leaks into a streamed answer is told as one of its calls, behind
/// those that were streamed, with its name and exactly its arguments; the text
/// around it is told as text, and none of its markup.
pub proof fn streamed_answers_call_what_leaked(
    st: ConverterV,
    c: ChunkV,
    delta: DeltaV,
    uuids: Seq<Seq<char>>,
    cids: Seq<Seq<char>>,
    on: bool,
    d: DsmlDialect,
    a: Seq<char>,
    name: Seq<char>,
    ps: Seq<(Seq<char>, Seq<char>)>,
    b: Seq<char>,
)
    requires
        is_plain(a),
        is_plain(b),
        name.len() > 0,
        is_bare(name),
        can_be_written(ps),
        st.dsml == DsmlState::fresh(true),
        st.think == ThinkState::fresh(on),
        ordered(st.tool_calls),
        st.tool_calls.len() > 0 ==> st.tool_calls.last().index < u64::MAX - 3,
        c.delta == Some(delta),
        delta.content == Some(a + written_call(d, name, ps) + b),
        delta.tool_calls.len() == 0,
    ensures
        ({
            let after = st.chunk(c, uuids).st;
            let f = ConverterV { finish_emitted: true, ..after }.flush_heal(cids).st;
            let n = st.tool_calls.len() as int;
            &&& after.text == st.text + a
            &&& f.text == st.text + a + b
            &&& f.tool_calls.len() == n + 1
            &&& f.tool_calls.take(n) == st.tool_calls
            &&& is_call_with(
                CallV { name: f.tool_calls[n].name, arguments: f.tool_calls[n].arguments },
                name,
                ps,
            )
            &&& f.tool_calls[n].id == "call_dsml_"@ + cids[0]
        }),
{
    filters_hold_back_calls(d, a, name, ps, b);
    lemma_plain_think(on, a);
    lemma_plain_think(on, b);
    let after = st.chunk(c, uuids).st;
    let e = Seq::<char>::empty();
    let x = ConverterV { finish_emitted: true, ..after };
    let f = x.flush_heal(cids).st;
    assert(a.len() == 0 ==> st.text + a =~= st.text);
    assert(b.len() == 0 ==> (st.text + a) + b =~= st.text + a);
    assert(after.tool_calls == st.tool_calls);
    let calls = x.tail_calls();
    let base = x.calls_base();
    healed_calls_join_behind(st.tool_calls, base, calls, cids);
    let n = st.tool_calls.len() as int;
    assert(f.tool_calls[n + 0].name == calls[0].name);
}

/// A call that leaks into the text of a Responses stream is injected at its end
/// as a call, with its name and exactly its arguments; the healed text is what
/// stood around it.
pub proof fn healed_streams_inject_what_leaked(
    st: HealerV,
    raw: Seq<u8>,
    v: JsonV,
    uuid: Seq<char>,
    fcs: Seq<Seq<char>>,
    cids: Seq<Seq<char>>,
    on: bool,
    d: DsmlDialect,
    a: Seq<char>,
    name: Seq<char>,
    ps: Seq<(Seq<char>, Seq<char>)>,
    b: Seq<char>,
)
    requires
        is_plain(a),
        is_plain(b),
        name.len() > 0,
        is_bare(name),
        can_be_written(ps),
        st.dsml == DsmlState::fresh(true),
        st.think == ThinkState::fresh(on),
        !st.finished,
        st.next_index < u64::MAX - 3,
        v.get_str("delta"@) == Some(a + written_call(d, name, ps) + b),
    ensures
        ({
            let after = st.text_delta(raw, Some(v), uuid).st;
            let end = after.end(uuid, fcs, cids).st;
            let n = st.injected.len() as int;
            &&& after.healed_text == st.healed_text + a
            &&& after.healing_fired
            &&& end.healed_text == st.healed_text + a + b
            &&& end.injected.len() == n + 1
            &&& is_call_with(end.injected[n].call, name, ps)
            &&& end.injected[n].call_id == "call_dsml_"@ + cids[0]
            &&& end.injected[n].item_id == "fc_"@ + fcs[0]
        }),
{
    filters_hold_back_calls(d, a, name, ps, b);
    lemma_plain_think(on, a);
    lemma_plain_think(on, b);
    let after = st.text_delta(raw, Some(v), uuid).st;
    let n = st.injected.len() as int;
    let flushed = HealerV { finished: true, ..after.drained() }.flush(after.tail_split(), uuid);
    assert(b.len() == 0 ==> (st.healed_text + a) + b =~= st.healed_text + a);
    let calls = after.tail_calls();
    leaked_calls_are_injected(flushed.st, calls, fcs, cids);
    let end = after.end(uuid, fcs, cids).st;
    assert(flushed.st.injected == st.injected);
    assert(end.injected[n + 0].call == calls[0]);
}

} // verus!
