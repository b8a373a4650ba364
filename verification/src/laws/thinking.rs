//! Where leaked thinking goes: what stands between the markers is reasoning, and
//! what stands around them is text.

use crate::convert::response::ConverterV;
use crate::heal::dsml::DsmlState;
use crate::heal::markers::{
    could_grow, differs, ends_in_prefix, first_marker, lemma_first_marker_is, lemma_longest_growing,
    lemma_no_marker, lemma_starts_at_chars, lemma_tag_at, opens_tag, tag_at, withheld,
};
use crate::heal::think::{
    lemma_tags_well_marked, on_channel, scan, split_whole, tags, think_healed, SplitV, ThinkState,
};
use crate::json::JsonV;
use crate::text::starts_at;
use crate::wire::chat::{ChatMessageV, ChunkV, DeltaV};
use vstd::prelude::*;

verus! {

/// Whether a text holds no character that could start a marker.
pub open spec fn is_plain(t: Seq<char>) -> bool {
    forall|i: int| 0 <= i < t.len() ==> #[trigger] t[i] != '<' && t[i] != '◁'
}

/// The three opening markers.
pub open spec fn opens(m: Seq<char>) -> bool {
    m == "<think>"@ || m == "<thinking>"@ || m == "◁think▷"@
}

/// The three closing markers.
pub open spec fn closes(m: Seq<char>) -> bool {
    m == "</think>"@ || m == "</thinking>"@ || m == "◁/think▷"@
}

proof fn lemma_is_tag(m: Seq<char>, close: bool) -> (k: int)
    requires
        if close {
            closes(m)
        } else {
            opens(m)
        },
    ensures
        0 <= k < tags(close).len(),
        tags(close)[k] == m,
{
    let ts = tags(close);
    if m == ts[0] {
        0
    } else if m == ts[1] {
        1
    } else {
        2
    }
}

proof fn lemma_plain_position(t: Seq<char>, i: int, close: bool)
    requires
        0 <= i < t.len(),
        t[i] != '<' && t[i] != '◁',
    ensures
        tag_at(t, i, tags(close)) <= 0,
{
    lemma_tags_well_marked(close);
    let ts = tags(close);
    lemma_tag_at(t, i, ts);
    if tag_at(t, i, ts) > 0 {
        let k = choose|k: int|
            0 <= k < ts.len() && starts_at(t, i, #[trigger] ts[k]) && ts[k].len() == tag_at(
                t,
                i,
                ts,
            );
        lemma_starts_at_chars(t, i, ts[k]);
        assert(opens_tag(ts[k][0]));
        assert(t[i + 0] == ts[k][0]);
    }
}

proof fn lemma_marker_behind(a: Seq<char>, m: Seq<char>, rest: Seq<char>, close: bool)
    requires
        is_plain(a),
        if close {
            closes(m)
        } else {
            opens(m)
        },
    ensures
        first_marker(a + m + rest, 0, tags(close)) == Some((a.len() as int, m.len() as int)),
{
    let t = a + m + rest;
    let ts = tags(close);
    lemma_tags_well_marked(close);
    let k = lemma_is_tag(m, close);
    let n = a.len() as int;
    assert(ts[k].len() > 1);
    assert(t.subrange(n, n + m.len()) =~= m);
    assert(starts_at(t, n, ts[k]));
    lemma_tag_at(t, n, ts);
    let l = choose|l: int|
        0 <= l < ts.len() && starts_at(t, n, #[trigger] ts[l]) && ts[l].len() == tag_at(t, n, ts);
    if l != k {
        assert(differs(ts[k], ts[l]));
        lemma_starts_at_chars(t, n, ts[k]);
        lemma_starts_at_chars(t, n, ts[l]);
        let j = choose|j: int| 0 <= j < ts[k].len() && j < ts[l].len() && #[trigger] ts[k][j] != ts[l][j];
        assert(t[n + j] == ts[k][j]);
        assert(t[n + j] == ts[l][j]);
    }
    assert forall|j: int| 0 <= j < n implies tag_at(t, j, ts) <= 0 by {
        assert(t[j] == a[j]);
        lemma_plain_position(t, j, close);
    }
    lemma_first_marker_is(t, 0, ts, n);
}

pub proof fn lemma_plain_scan(b: Seq<char>, in_think: bool)
    requires
        is_plain(b),
    ensures
        first_marker(b, 0, tags(in_think)) is None,
        scan(b, in_think).out == on_channel(in_think, b),
        scan(b, in_think).pending == Seq::<char>::empty(),
        scan(b, in_think).in_think == in_think,
        !scan(b, in_think).opened,
{
    let ts = tags(in_think);
    lemma_tags_well_marked(in_think);
    assert forall|j: int| 0 <= j < b.len() implies tag_at(b, j, ts) <= 0 by {
        lemma_plain_position(b, j, in_think);
    }
    lemma_no_marker(b, 0, ts);
    lemma_longest_growing(b, ts, b.len() as int);
    let w = withheld(b, ts);
    if w > 0 {
        assert(could_grow(b, ts, w));
        let k = choose|k: int| 0 <= k < ts.len() && ends_in_prefix(b, #[trigger] ts[k], w);
        assert(b.subrange(b.len() - w, b.len() as int)[0] == ts[k].take(w)[0]);
        assert(opens_tag(ts[k][0]));
        assert(b[b.len() - w] == ts[k][0]);
    }
    assert(b.take(b.len() as int) =~= b);
    assert(b.skip(b.len() as int) =~= Seq::<char>::empty());
}

/// A text with a block of thinking in it: what the block holds is reasoning, and
/// what stands before and behind it is text. The markers themselves are gone.
pub proof fn thinking_is_split_off(
    a: Seq<char>,
    open: Seq<char>,
    r: Seq<char>,
    close: Seq<char>,
    b: Seq<char>,
)
    requires
        is_plain(a),
        is_plain(r),
        is_plain(b),
        opens(open),
        closes(close),
    ensures
        split_whole(a + open + r + close + b).reasoning == r,
        split_whole(a + open + r + close + b).text == a + b,
        ThinkState::fresh(true).after(a + open + r + close + b).fired,
        ThinkState::fresh(true).emits(a + open + r + close + b) == (SplitV {
            reasoning: r,
            text: a + b,
        }),
        ThinkState::fresh(true).after(a + open + r + close + b).rest() == SplitV::empty(),
{
    let t = a + open + r + close + b;
    let behind = r + close + b;
    assert(t =~= a + open + behind);
    lemma_marker_behind(a, open, behind, false);
    lemma_marker_behind(r, close, b, true);
    lemma_plain_scan(b, false);
    assert(t.skip((a.len() + open.len()) as int) =~= behind);
    assert(t.take(a.len() as int) =~= a);
    assert(behind.skip((r.len() + close.len()) as int) =~= b);
    assert(behind.take(r.len() as int) =~= r);
    let inner = scan(behind, true);
    let e = Seq::<char>::empty();
    assert(inner.out.reasoning =~= r);
    assert(inner.out.text =~= b);
    let whole = scan(t, false);
    assert(whole.out.reasoning =~= r);
    assert(whole.out.text =~= a + b);
    let st = ThinkState::fresh(true);
    assert(st.pending + t =~= t);
    assert(st.after(t).rest().reasoning =~= e);
    assert(st.after(t).rest().text =~= e);
    assert(r + e =~= r);
    assert(a + b + e =~= a + b);
}

/// A block of thinking that is never closed is reasoning to its end.
pub proof fn open_thinking_is_reasoning(a: Seq<char>, open: Seq<char>, r: Seq<char>)
    requires
        is_plain(a),
        is_plain(r),
        opens(open),
    ensures
        split_whole(a + open + r).reasoning == r,
        split_whole(a + open + r).text == a,
{
    let t = a + open + r;
    lemma_marker_behind(a, open, r, false);
    lemma_plain_scan(r, true);
    assert(t.skip((a.len() + open.len()) as int) =~= r);
    assert(t.take(a.len() as int) =~= a);
    let e = Seq::<char>::empty();
    let whole = scan(t, false);
    assert(whole.out.reasoning =~= r);
    assert(whole.out.text =~= a);
    let st = ThinkState::fresh(true);
    assert(st.pending + t =~= t);
    assert(r + e =~= r);
    assert(a + e =~= a);
}

/// A plain text is all text, and nothing of it is withheld.
pub proof fn plain_text_is_text(b: Seq<char>)
    requires
        is_plain(b),
    ensures
        split_whole(b) == (SplitV { reasoning: Seq::empty(), text: b }),
{
    lemma_plain_scan(b, false);
    let st = ThinkState::fresh(true);
    let e = Seq::<char>::empty();
    assert(st.pending + b =~= b);
    assert(b + e =~= b);
    assert(e + e =~= e);
    assert(split_whole(b).text =~= b);
    assert(split_whole(b).reasoning =~= e);
}

/// A message with a block of thinking in its text: the block joins its
/// reasoning, behind what was there, and the rest is its text. Everything else
/// stays.
pub proof fn messages_move_their_thinking(
    m: ChatMessageV,
    a: Seq<char>,
    open: Seq<char>,
    r: Seq<char>,
    close: Seq<char>,
    b: Seq<char>,
)
    requires
        is_plain(a),
        is_plain(r),
        is_plain(b),
        opens(open),
        closes(close),
        m.content == Some(JsonV::Str(a + open + r + close + b)),
    ensures
        ({
            let h = think_healed(m);
            &&& (a + b).len() > 0 ==> h.content == Some(JsonV::Str(a + b))
            &&& (a + b).len() == 0 ==> h.content is None
            &&& r.len() == 0 ==> h.reasoning_content == m.reasoning_content
            &&& r.len() > 0 && m.reasoning_content is None ==> h.reasoning_content == Some(r)
            &&& r.len() > 0 && m.reasoning_content is Some ==> h.reasoning_content == Some(
                m.reasoning_content->0 + r,
            )
            &&& h.role == m.role && h.tool_calls == m.tool_calls && h.tool_call_id
                == m.tool_call_id && h.name == m.name
        }),
{
    let t = a + open + r + close + b;
    assert(t =~= a + open + (r + close + b));
    lemma_marker_behind(a, open, r + close + b, false);
    thinking_is_split_off(a, open, r, close, b);
}

/// A message without an opening marker stays as it is.
pub proof fn messages_without_thinking_stay(m: ChatMessageV, t: Seq<char>)
    requires
        m.content == Some(JsonV::Str(t)),
        is_plain(t),
    ensures
        think_healed(m) == m,
{
    lemma_plain_scan(t, false);
}

/// A streamed chunk with a block of thinking in its text: the block is told as
/// reasoning, behind the reasoning that the chunk carries, and the rest as text.
pub proof fn streams_tell_thinking_as_reasoning(
    st: ConverterV,
    c: ChunkV,
    d: DeltaV,
    uuids: Seq<Seq<char>>,
    a: Seq<char>,
    open: Seq<char>,
    r: Seq<char>,
    close: Seq<char>,
    b: Seq<char>,
)
    requires
        is_plain(a),
        is_plain(r),
        is_plain(b),
        opens(open),
        closes(close),
        st.dsml == DsmlState::fresh(false),
        st.think == ThinkState::fresh(true),
        c.delta == Some(d),
        d.content == Some(a + open + r + close + b),
    ensures
        st.chunk(c, uuids).st.text == st.text + (a + b),
        st.chunk(c, uuids).st.reasoning == st.reasoning + ((match d.reasoning {
            Some(x) => x,
            None => Seq::empty(),
        }) + r),
{
    thinking_is_split_off(a, open, r, close, b);
    let e = Seq::<char>::empty();
    assert(st.text + e =~= st.text);
    assert(st.reasoning + e =~= st.reasoning);
    let carried = match d.reasoning {
        Some(x) => x,
        None => e,
    };
    let told = carried + r;
    assert(told.len() == 0 ==> told =~= e);
    assert((a + b).len() == 0 ==> a + b =~= e);
}

} // verus!
