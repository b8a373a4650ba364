//! What passes through the filters, the framing and the wire types, stated over
//! the values that their functions take and return.

use crate::heal::dsml::{DsmlDialect, DsmlStreamFilter, DsmlToolCall};
use crate::heal::merge::FragmentedItemMerger;
use crate::heal::responses::{ended_by, healed_by, HealStep, HealerV, ResponsesStreamHealer};
use crate::heal::think::{heal_think_chat_message, ThinkSplit, ThinkState, ThinkStreamFilter};
use crate::json::{json_parse, json_text, lemma_items_view, Json, JsonV};
use crate::laws::healing::leaked_calls_are_injected;
use crate::laws::markup::{can_be_written, is_bare, written_call};
use crate::laws::streams::{
    filters_hold_back_calls, healed_streams_inject_what_leaked, is_call_with,
};
use crate::laws::thinking::{
    closes, is_plain, messages_move_their_thinking, opens, thinking_is_split_off,
};
use crate::sse::{block, chunks, frame, sse_block};
use crate::wire::chat::{
    ChatDelta, ChatMessage, ChatRequest, ChatResponse, ChatStreamChunk, DeltaToolCall,
};
use crate::wire::responses::ResponsesRequest;
use vstd::prelude::*;
use vstd::utf8::encode_utf8;

verus! {

/// A thinking filter that takes a text with a block of thinking in it splits the
/// two, and has nothing left to tell at the end.
pub proof fn thinking_filters_split_blocks_off(
    fresh: ThinkStreamFilter,
    f: &mut ThinkStreamFilter,
    delta: &str,
    out: ThinkSplit,
    last: ThinkSplit,
    a: Seq<char>,
    open: Seq<char>,
    r: Seq<char>,
    close: Seq<char>,
    b: Seq<char>,
)
    requires
        call_ensures(ThinkStreamFilter::new, (true,), fresh),
        *old(f) == fresh,
        call_ensures(ThinkStreamFilter::push, (f, delta), out),
        call_ensures(ThinkStreamFilter::finish, (*final(f),), last),
        is_plain(a),
        is_plain(r),
        is_plain(b),
        opens(open),
        closes(close),
        delta@ == a + open + r + close + b,
    ensures
        out.reasoning@ == r,
        out.text@ == a + b,
        last.reasoning@.len() == 0,
        last.text@.len() == 0,
{
    thinking_is_split_off(a, open, r, close, b);
}

/// A thinking filter that is off hands every text through.
pub proof fn thinking_filters_can_be_off(
    fresh: ThinkStreamFilter,
    f: &mut ThinkStreamFilter,
    delta: &str,
    out: ThinkSplit,
)
    requires
        call_ensures(ThinkStreamFilter::new, (false,), fresh),
        *old(f) == fresh,
        call_ensures(ThinkStreamFilter::push, (f, delta), out),
    ensures
        out.text@ == delta@,
        out.reasoning@.len() == 0,
{
    assert(Seq::<char>::empty() + delta@ =~= delta@);
}

/// A tool-call filter that takes a text with a call in it tells what stands before
/// the call, and at the end what stands behind it, and the call: under its name,
/// with exactly its arguments.
pub proof fn call_filters_hand_calls_out(
    fresh: DsmlStreamFilter,
    f: &mut DsmlStreamFilter,
    delta: &str,
    out: String,
    last: (String, Vec<DsmlToolCall>),
    d: DsmlDialect,
    a: Seq<char>,
    name: Seq<char>,
    ps: Seq<(Seq<char>, Seq<char>)>,
    b: Seq<char>,
)
    requires
        call_ensures(DsmlStreamFilter::new, (true,), fresh),
        *old(f) == fresh,
        call_ensures(DsmlStreamFilter::push, (f, delta), out),
        call_ensures(DsmlStreamFilter::finish, (*final(f),), last),
        is_plain(a),
        is_plain(b),
        name.len() > 0,
        is_bare(name),
        can_be_written(ps),
        delta@ == a + written_call(d, name, ps) + b,
    ensures
        out@ == a,
        last.0@ == b,
        last.1@.len() == 1,
        is_call_with(last.1@[0]@, name, ps),
{
    filters_hold_back_calls(d, a, name, ps, b);
    let v = crate::heal::dsml::calls_view(last.1@);
    assert(v.len() == last.1@.len());
    assert(v[0] == last.1@[0]@);
}

/// Healing a message moves a block of thinking out of its text, behind the
/// reasoning that it had, and touches nothing else.
pub proof fn healed_messages_think_apart(
    m: &mut ChatMessage,
    a: Seq<char>,
    open: Seq<char>,
    r: Seq<char>,
    close: Seq<char>,
    b: Seq<char>,
)
    requires
        call_ensures(heal_think_chat_message, (m,), ()),
        is_plain(a),
        is_plain(r),
        is_plain(b),
        opens(open),
        closes(close),
        old(m)@.content == Some(JsonV::Str(a + open + r + close + b)),
    ensures
        (a + b).len() > 0 ==> final(m).content is Some && final(m).content->0@ == JsonV::Str(a + b),
        r.len() > 0 && old(m).reasoning_content is None ==> final(m).reasoning_content is Some
            && final(m).reasoning_content->0@ == r,
        r.len() > 0 && old(m).reasoning_content is Some ==> final(m).reasoning_content is Some
            && final(m).reasoning_content->0@ == old(m).reasoning_content->0@ + r,
        final(m).role@ == old(m).role@,
{
    messages_move_their_thinking(old(m)@, a, open, r, close, b);
}

/// A healer that takes a delta with a call in its text keeps the text before the
/// call and none of its markup.
pub proof fn healers_keep_markup_out(
    h: &mut ResponsesStreamHealer,
    raw: &[u8],
    data: &str,
    out: Vec<Vec<u8>>,
    v: JsonV,
    on: bool,
    d: DsmlDialect,
    a: Seq<char>,
    name: Seq<char>,
    ps: Seq<(Seq<char>, Seq<char>)>,
    b: Seq<char>,
    event: &str,
)
    requires
        call_ensures(ResponsesStreamHealer::push_event, (h, raw, Some(event), data), out),
        event@ == "response.output_text.delta"@,
        json_parse(data@) == Some(v),
        is_plain(a),
        is_plain(b),
        name.len() > 0,
        is_bare(name),
        can_be_written(ps),
        old(h)@.dsml == crate::heal::dsml::DsmlState::fresh(true),
        old(h)@.think == ThinkState::fresh(on),
        !old(h)@.finished,
        old(h)@.next_index < u64::MAX - 3,
        v.get_str("delta"@) == Some(a + written_call(d, name, ps) + b),
    ensures
        final(h)@.healed_text == old(h)@.healed_text + a,
        final(h)@.healing_fired,
{
    reveal_strlit("response.output_text.delta");
    reveal_strlit("response.output_item.added");
    assert("response.output_text.delta"@.len() == 26);
    assert("response.output_item.added"@.len() == 26);
    assert("response.output_text.delta"@[16] != "response.output_item.added"@[16]);
    let st = old(h)@;
    let after = HealStep { st: final(h)@, out: chunks(out@) };
    let (uuid, fcs, cids) = choose|uuid: Seq<char>, fcs: Seq<Seq<char>>, cids: Seq<Seq<char>>|
        #[trigger]
        healed_by(st, after, raw@, Some(event@), Some(v), uuid, fcs, cids);
    healed_streams_inject_what_leaked(st, raw@, v, uuid, fcs, cids, on, d, a, name, ps, b);
    assert(after.st == st.text_delta(raw@, Some(v), uuid).st);
}

/// An event without a name passes a healer as it came.
pub proof fn unnamed_events_pass(
    h: &mut ResponsesStreamHealer,
    raw: &[u8],
    data: &str,
    out: Vec<Vec<u8>>,
)
    requires
        call_ensures(ResponsesStreamHealer::push_event, (h, raw, None::<&str>, data), out),
    ensures
        out@.len() == 1,
        out@[0]@ == raw@,
        final(h)@ == old(h)@,
{
    let st = old(h)@;
    let after = HealStep { st: final(h)@, out: chunks(out@) };
    let (uuid, fcs, cids) = choose|uuid: Seq<char>, fcs: Seq<Seq<char>>, cids: Seq<Seq<char>>|
        #[trigger]
        healed_by(st, after, raw@, None::<Seq<char>>, json_parse(data@), uuid, fcs, cids);
    assert(chunks(out@).len() == out@.len());
    assert(chunks(out@)[0] == out@[0]@);
}

/// A merger that is off hands every event through.
pub proof fn mergers_can_be_off(
    m: &mut FragmentedItemMerger,
    raw: &[u8],
    event: Option<&str>,
    data: &str,
    out: Vec<Vec<u8>>,
)
    requires
        call_ensures(FragmentedItemMerger::push_event, (m, raw, event, data), out),
        !old(m)@.enabled,
    ensures
        out@.len() == 1,
        out@[0]@ == raw@,
        final(m)@ == old(m)@,
{
    assert(chunks(out@).len() == out@.len());
    assert(chunks(out@)[0] == out@[0]@);
}

/// An event is framed by its name and its data, each on a line, and an empty line.
pub proof fn frames_name_their_event(event: &str, data: &str, payload: &Json, r: Vec<u8>, b: Vec<u8>)
    requires
        call_ensures(frame, (event, data), r),
        call_ensures(sse_block, (event, payload), b),
    ensures
        r@ == encode_utf8("event: "@ + event@ + "\ndata: "@ + data@ + "\n\n"@),
        data@ == json_text(payload@) ==> b@ == r@,
{
}

/// A field that is set is read back as the value that it was set to; every other
/// field is read as before.
pub proof fn objects_keep_their_fields(
    o: Json,
    k: &str,
    v: Json,
    r: Json,
    j: &str,
    got: Option<&Json>,
)
    requires
        call_ensures(Json::set, (o, k, v), r),
        call_ensures(Json::get, (&r, j), got),
        o@ is Obj,
    ensures
        j@ == k@ ==> got is Some && got->0@ == v@,
        j@ != k@ ==> (got is Some <==> o@.get(j@) is Some),
        j@ != k@ && got is Some ==> Some(got->0@) == o@.get(j@),
{
}

/// A message is read by the names of its fields.
pub proof fn messages_are_decoded_by_name(v: &Json, r: ChatMessage)
    requires
        call_ensures(ChatMessage::from_json, (v,), r),
    ensures
        v@.get_str("role"@) matches Some(x) ==> r.role@ == x,
        v@.get_str("content"@) matches Some(x) ==> r.content is Some && r.content->0@ == JsonV::Str(
            x,
        ),
        v@.get_str("reasoning_content"@) matches Some(x) ==> r.reasoning_content is Some
            && r.reasoning_content->0@ == x,
        v@.get_str("tool_call_id"@) matches Some(x) ==> r.tool_call_id is Some
            && r.tool_call_id->0@ == x,
        v@.get_arr("tool_calls"@) matches Some(x) ==> r.tool_calls is Some && crate::json::items_view(
            r.tool_calls->0@,
        ) == x,
{
    crate::laws::reading::messages_are_read_by_name(v@);
}

/// The delta of a tool call is read by the names of its fields.
pub proof fn tool_deltas_are_decoded_by_name(v: &Json, r: DeltaToolCall)
    requires
        call_ensures(DeltaToolCall::from_json, (v,), r),
    ensures
        v@.get_str("id"@) matches Some(x) ==> r.id is Some && r.id->0@ == x,
        v@.get_str("id"@) is None ==> r.id is None,
        v@.at("function"@).get_str("arguments"@) matches Some(x) ==> r@.arguments == Some(x),
        v@.at("function"@).get_str("name"@) matches Some(x) ==> r@.name == Some(x),
{
    crate::laws::reading::tool_deltas_are_read_by_name(v@);
}

/// The delta of a chunk is read by the names of its fields.
pub proof fn chunk_deltas_are_decoded_by_name(v: &Json, r: ChatDelta)
    requires
        call_ensures(ChatDelta::from_json, (v,), r),
    ensures
        v@.get_str("content"@) matches Some(x) ==> r.content is Some && r.content->0@ == x,
        v@.get_str("content"@) is None ==> r.content is None,
        v@.get_str("reasoning_content"@) matches Some(x) ==> r.reasoning_content is Some
            && r.reasoning_content->0@ == x,
{
    crate::laws::reading::chunk_deltas_are_read_by_name(v@);
}

/// A message tells its role, its content and its calls.
pub proof fn messages_are_encoded_by_name(m: &ChatMessage, r: Json)
    requires
        call_ensures(ChatMessage::to_json, (m,), r),
    ensures
        r@.get_str("role"@) == Some(m.role@),
        m.content matches Some(c) ==> r@.get("content"@) == Some(c@),
        m.reasoning_content matches Some(t) ==> r@.get_str("reasoning_content"@) == Some(t@),
        m.tool_call_id matches Some(t) ==> r@.get_str("tool_call_id"@) == Some(t@),
{
    crate::laws::requests::message_bodies_carry_every_field(m@);
}

/// A request tells its model, its messages, its tools and whether it streams.
pub proof fn requests_are_encoded_by_name(q: &ChatRequest, r: Json)
    requires
        call_ensures(ChatRequest::to_json, (q,), r),
    ensures
        r@.get_str("model"@) == Some(q.model@),
        r@.get_arr("messages"@) is Some && r@.get_arr("messages"@)->0.len() == q.messages@.len(),
        q.tools@.len() > 0 ==> r@.get_arr("tools"@) == Some(crate::json::items_view(q.tools@)),
        r@.at("stream"@).as_bool() == Some(q.stream),
{
    crate::laws::requests::bodies_carry_every_field(q@);
    lemma_items_view(q.tools@);
}

/// The choices of a chunk are read by the names of their fields, in order, and the
/// counts with them.
pub proof fn chunks_are_decoded_by_name(v: &Json, r: ChatStreamChunk, a: Seq<JsonV>, i: int)
    requires
        call_ensures(ChatStreamChunk::from_json, (v,), r),
        v@.get("choices"@) == Some(JsonV::Arr(a)),
        0 <= i < a.len(),
    ensures
        r.choices@.len() == a.len(),
        a[i].at("delta"@).get_str("content"@) matches Some(t) ==> r.choices@[i].delta@.content == Some(
            t,
        ),
        a[i].get_str("finish_reason"@) matches Some(f) ==> r.choices@[i].finish_reason is Some
            && r.choices@[i].finish_reason->0@ == f,
        a[i].get_str("finish_reason"@) is None ==> r.choices@[i].finish_reason is None,
        a[i].at("index"@).as_u64() matches Some(n) ==> r.choices@[i].index == n,
        r.usage == crate::wire::decode::usage_in(v@),
{
    crate::laws::reading::lists_are_read_where_they_are(v@, "choices"@, a);
    assert(crate::wire::decode::choice_of(r.choices@[i], a[i]));
    crate::laws::reading::chunk_deltas_are_read_by_name(a[i].at("delta"@));
}

/// The answers of a response are read in order, each with its message.
pub proof fn responses_are_decoded_by_name(v: &Json, r: ChatResponse, a: Seq<JsonV>, i: int)
    requires
        call_ensures(ChatResponse::from_json, (v,), r),
        v@.get("choices"@) == Some(JsonV::Arr(a)),
        0 <= i < a.len(),
    ensures
        r.choices@.len() == a.len(),
        a[i].at("message"@).get_str("content"@) matches Some(t) ==> r.choices@[i].message@.content
            == Some(JsonV::Str(t)),
        r.choices@[i].message@.tool_calls == a[i].at("message"@).get_arr("tool_calls"@),
        r.choices@[i].message@.reasoning_content == a[i].at("message"@).get_str(
            "reasoning_content"@,
        ),
{
    crate::laws::reading::lists_are_read_where_they_are(v@, "choices"@, a);
    crate::laws::reading::messages_are_read_by_name(a[i].at("message"@));
}

/// A request is read by the names of its fields.
pub proof fn requests_are_decoded_by_name(v: &Json, r: Option<ResponsesRequest>)
    requires
        call_ensures(ResponsesRequest::from_json, (v,), r),
    ensures
        r is Some <==> v@.get_str("model"@) is Some && (v@.get("input"@) matches Some(i) && (i is Str
            || i is Arr)),
        r matches Some(q) ==> v@.get_str("model"@) == Some(q.model@) && (v@.get_str(
            "instructions"@,
        ) matches Some(t) ==> q.instructions is Some && q.instructions->0@ == t) && (v@.get_arr(
            "tools"@,
        ) matches Some(t) ==> crate::json::items_view(q.tools@) == t) && (q.stream <==> v@.get(
            "stream"@,
        ) == Some(JsonV::Bool(true))),
{
    crate::laws::requests::requests_are_read_by_name(v@, "model"@);
}

/// The fields of an object are listed each once, with its value.
pub proof fn fields_are_listed_once(o: &Json, r: Vec<(String, Json)>, k: Seq<char>)
    requires
        call_ensures(Json::entries, (o,), r),
        o@ is Obj,
    ensures
        o@.get(k) is Some <==> exists|i: int| 0 <= i < r@.len() && (#[trigger] r@[i]).0@ == k,
        forall|i: int| 0 <= i < r@.len() ==> o@.get((#[trigger] r@[i]).0@) == Some(r@[i].1@),
        forall|i: int, j: int|
            0 <= i < j < r@.len() ==> (#[trigger] r@[i]).0@ != (#[trigger] r@[j]).0@,
{
    let v = crate::json::entries_view(r@);
    assert forall|i: int| 0 <= i < r@.len() implies v[i] == ((#[trigger] r@[i]).0@, r@[i].1@) by {
    }
    if o@.get(k) is Some {
        let i = choose|i: int| 0 <= i < v.len() && (#[trigger] v[i]).0 == k;
        assert(r@[i].0@ == k);
    }
}

/// Ending a healed stream injects every call that leaked into it and is not yet
/// told, with its name and its arguments; a stream ends once.
pub proof fn ended_streams_tell_what_leaked(
    h: &mut ResponsesStreamHealer,
    out: Vec<Vec<u8>>,
    i: int,
)
    requires
        call_ensures(ResponsesStreamHealer::finish, (h,), out),
        0 <= i < old(h)@.tail_calls().len(),
        old(h)@.next_index + old(h)@.tail_calls().len() < u64::MAX - 3,
    ensures
        old(h)@.finished ==> out@.len() == 0 && final(h)@ == old(h)@,
        !old(h)@.finished ==> final(h)@.finished && final(h)@.injected.len() == old(
            h,
        )@.injected.len() + old(h)@.tail_calls().len() && final(h)@.injected[old(
            h,
        )@.injected.len() + i].call == old(h)@.tail_calls()[i],
{
    let st = old(h)@;
    let after = HealStep { st: final(h)@, out: chunks(out@) };
    let (uuid, fcs, cids) = choose|uuid: Seq<char>, fcs: Seq<Seq<char>>, cids: Seq<Seq<char>>|
        #[trigger]
        ended_by(st, after, uuid, fcs, cids);
    assert(chunks(out@).len() == out@.len());
    if !st.finished {
        let a = HealerV { finished: true, ..st.drained() }.flush(st.tail_split(), uuid);
        leaked_calls_are_injected(a.st, st.tail_calls(), fcs, cids);
        let at = st.injected.len() + i;
        assert(after.st.injected[at].call == st.tail_calls()[i]);
    }
}

} // verus!
