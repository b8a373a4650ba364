//! What healing makes of a whole body: every part of it that leaked stands where
//! a client looks for it, and everything else stays.

use crate::heal::HealGates;
use crate::heal::dsml::{leaked, CallV};
use crate::heal::responses::{
    assembled, body_healed, body_scan, call_items, reasoning_json, response_of, scan_output,
    scan_part, scan_parts, with_output, with_reasonings, ListScan,
};
use crate::heal::think::{has_think_markup, split_whole};
use crate::json::{json_text, JsonV};
use crate::laws::answers::is_reasoning_of;
use crate::laws::healing::{body_calls_keep_their_arguments, is_call};
use vstd::prelude::*;
use vstd::utf8::encode_utf8;

verus! {

/// The text that a part shows, where it is output text.
pub open spec fn shown(part: JsonV) -> Option<Seq<char>> {
    if part.get_str("type"@) == Some("output_text"@) {
        part.get_str("text"@)
    } else {
        None
    }
}

/// The calls that leaked into a part.
pub open spec fn leaked_in(part: JsonV) -> Seq<CallV> {
    match shown(part) {
        Some(t) => match leaked(t) {
            Some((_, calls)) => calls,
            None => Seq::empty(),
        },
        None => Seq::empty(),
    }
}

/// What is left of a text without the calls that leaked into it.
pub open spec fn cleaned_of(t: Seq<char>) -> Seq<char> {
    match leaked(t) {
        Some((c, _)) => c,
        None => t,
    }
}

/// A part of output text loses the calls that leaked into it and the thinking
/// that leaked into what is left, as far as their gates are open; all its other
/// fields stay, and so does any other part.
pub proof fn parts_lose_only_what_leaked(part: JsonV, gates: HealGates, k: Seq<char>)
    ensures
        ({
            let s = scan_part(part, gates);
            &&& k != "text"@ ==> s.part.get(k) == part.get(k)
            &&& shown(part) is None ==> s.part == part && s.calls.len() == 0 && s.reasoning.len()
                == 0 && !s.fired
            &&& gates.dsml ==> s.calls == leaked_in(part)
            &&& !gates.dsml ==> s.calls.len() == 0
            &&& !gates.think ==> s.reasoning.len() == 0
            &&& s.calls.len() > 0 ==> s.fired
            &&& shown(part) matches Some(t) ==> ({
                let left = if gates.dsml {
                    cleaned_of(t)
                } else {
                    t
                };
                &&& !(gates.think && has_think_markup(left)) ==> s.part.get_str("text"@) == Some(
                    left,
                ) && s.reasoning.len() == 0
                &&& gates.think && has_think_markup(left) ==> s.part.get_str("text"@) == Some(
                    split_whole(left).text,
                ) && s.reasoning == split_whole(left).reasoning
            })
        }),
{
    reveal_strlit("text");
    reveal_strlit("type");
    assert("text"@.len() == 4);
    assert("type"@.len() == 4);
    assert("text"@[1] != "type"@[1]);
}

/// The calls that leaked into parts, in order.
pub open spec fn leaked_in_all(parts: Seq<JsonV>) -> Seq<CallV>
    decreases parts.len(),
{
    if parts.len() == 0 {
        Seq::empty()
    } else {
        leaked_in_all(parts.drop_last()) + leaked_in(parts.last())
    }
}

/// The parts of a message are healed one by one, and their calls gathered in
/// order; the reasoning found in them is that of the message's position.
pub proof fn parts_are_healed_one_by_one(parts: Seq<JsonV>, gates: HealGates, at: int)
    ensures
        ({
            let s = scan_parts(parts, gates, at);
            &&& s.items.len() == parts.len()
            &&& forall|i: int|
                0 <= i < parts.len() ==> #[trigger] s.items[i] == scan_part(parts[i], gates).part
            &&& gates.dsml ==> s.calls == leaked_in_all(parts)
            &&& !gates.dsml ==> s.calls.len() == 0
            &&& !gates.think ==> s.reasonings.len() == 0
            &&& forall|i: int|
                0 <= i < s.reasonings.len() ==> (#[trigger] s.reasonings[i]).0 == at
                    && s.reasonings[i].1.len() > 0
            &&& s.fired <==> exists|i: int|
                0 <= i < parts.len() && scan_part(#[trigger] parts[i], gates).fired
        }),
    decreases parts.len(),
{
    let s = scan_parts(parts, gates, at);
    if parts.len() > 0 {
        let front = parts.drop_last();
        parts_are_healed_one_by_one(front, gates, at);
        parts_lose_only_what_leaked(parts.last(), gates, Seq::empty());
        let a = scan_parts(front, gates, at);
        assert forall|i: int| 0 <= i < parts.len() implies #[trigger] s.items[i] == scan_part(
            parts[i],
            gates,
        ).part by {
            if i < front.len() {
                assert(s.items[i] == a.items[i]);
                assert(front[i] == parts[i]);
            }
        }
        if a.fired {
            let i = choose|i: int| 0 <= i < front.len() && scan_part(#[trigger] front[i], gates).fired;
            assert(scan_part(parts[i], gates).fired);
        }
        if exists|i: int| 0 <= i < parts.len() && scan_part(#[trigger] parts[i], gates).fired {
            let i = choose|i: int| 0 <= i < parts.len() && scan_part(#[trigger] parts[i], gates).fired;
            if i < front.len() {
                assert(scan_part(front[i], gates).fired);
            }
        }
    }
}

/// Whether an item is a message with content parts.
pub open spec fn has_parts(item: JsonV) -> bool {
    item.get_str("type"@) == Some("message"@) && item.get_arr("content"@) is Some
}

/// Whether an item is another with its parts healed, where it is a message.
pub open spec fn is_healed(h: JsonV, item: JsonV, gates: HealGates) -> bool {
    if has_parts(item) {
        &&& forall|k: Seq<char>| k != "content"@ ==> #[trigger] h.get(k) == item.get(k)
        &&& h.get_arr("content"@) matches Some(p) && p.len() == item.get_arr("content"@)->0.len()
            && forall|i: int|
            0 <= i < p.len() ==> #[trigger] p[i] == scan_part(
                item.get_arr("content"@)->0[i],
                gates,
            ).part
    } else {
        h == item
    }
}

/// The calls that leaked into the messages of an output, in order.
pub open spec fn leaked_in_output(items: Seq<JsonV>) -> Seq<CallV>
    decreases items.len(),
{
    if items.len() == 0 {
        Seq::empty()
    } else {
        leaked_in_output(items.drop_last()) + (if has_parts(items.last()) {
            leaked_in_all(items.last().get_arr("content"@)->0)
        } else {
            Seq::empty()
        })
    }
}

/// Whether positions ascend and stay below `n`.
pub open spec fn in_order(rs: Seq<(int, Seq<char>)>, n: int) -> bool {
    &&& forall|i: int| 0 <= i < rs.len() ==> 0 <= (#[trigger] rs[i]).0 < n
    &&& forall|i: int, j: int|
        0 <= i <= j < rs.len() ==> (#[trigger] rs[i]).0 <= (#[trigger] rs[j]).0
}

/// The items of an output are healed one by one, and the calls of all of them
/// gathered in order; each reasoning stands for the position of its message.
pub proof fn outputs_are_healed_one_by_one(items: Seq<JsonV>, gates: HealGates)
    ensures
        ({
            let s = scan_output(items, gates);
            &&& s.items.len() == items.len()
            &&& forall|i: int|
                0 <= i < items.len() ==> is_healed(#[trigger] s.items[i], items[i], gates)
            &&& gates.dsml ==> s.calls == leaked_in_output(items)
            &&& !gates.dsml ==> s.calls.len() == 0
            &&& !gates.think ==> s.reasonings.len() == 0
            &&& in_order(s.reasonings, items.len() as int)
            &&& forall|i: int|
                0 <= i < s.reasonings.len() ==> has_parts(
                    items[(#[trigger] s.reasonings[i]).0],
                )
        }),
    decreases items.len(),
{
    let s = scan_output(items, gates);
    if items.len() > 0 {
        let front = items.drop_last();
        let n = front.len() as int;
        outputs_are_healed_one_by_one(front, gates);
        let a = scan_output(front, gates);
        let item = items.last();
        if has_parts(item) {
            let parts = item.get_arr("content"@)->0;
            parts_are_healed_one_by_one(parts, gates, n);
            let p = scan_parts(parts, gates, n);
            assert(s.reasonings == a.reasonings + p.reasonings);
            assert forall|i: int| 0 <= i < s.reasonings.len() implies 0 <= (
            #[trigger] s.reasonings[i]).0 < items.len() && has_parts(items[s.reasonings[i].0]) by {
                if i < a.reasonings.len() {
                    assert(s.reasonings[i] == a.reasonings[i]);
                    assert(front[a.reasonings[i].0] == items[a.reasonings[i].0]);
                } else {
                    assert(s.reasonings[i] == p.reasonings[i - a.reasonings.len()]);
                }
            }
            assert forall|i: int, j: int| 0 <= i <= j < s.reasonings.len() implies (
            #[trigger] s.reasonings[i]).0 <= (#[trigger] s.reasonings[j]).0 by {
                if i < a.reasonings.len() {
                    assert(s.reasonings[i] == a.reasonings[i]);
                } else {
                    assert(s.reasonings[i] == p.reasonings[i - a.reasonings.len()]);
                }
                if j < a.reasonings.len() {
                    assert(s.reasonings[j] == a.reasonings[j]);
                } else {
                    assert(s.reasonings[j] == p.reasonings[j - a.reasonings.len()]);
                }
            }
        } else {
            assert(leaked_in_output(items) =~= leaked_in_output(front));
            assert forall|i: int| 0 <= i < s.reasonings.len() implies has_parts(
                items[(#[trigger] s.reasonings[i]).0],
            ) by {
                assert(front[a.reasonings[i].0] == items[a.reasonings[i].0]);
            }
        }
        assert forall|i: int| 0 <= i < items.len() implies is_healed(
            #[trigger] s.items[i],
            items[i],
            gates,
        ) by {
            if i < n {
                assert(s.items[i] == a.items[i]);
                assert(front[i] == items[i]);
            }
        }
    }
}

proof fn lemma_moved(
    items: Seq<JsonV>,
    rs: Seq<(int, Seq<char>)>,
    uuids: Seq<Seq<char>>,
    n: int,
    p: int,
)
    requires
        0 <= n <= rs.len(),
        0 <= p < items.len(),
        forall|i: int| 0 <= i < n ==> 0 <= (#[trigger] rs[i]).0 <= p,
    ensures
        with_reasonings(items, rs, uuids, n).len() == items.len() + n,
        with_reasonings(items, rs, uuids, n)[p + n] == items[p],
    decreases n,
{
    if n > 0 {
        let (at, text) = rs[n - 1];
        let more = items.insert(at, reasoning_json("rs_"@ + uuids[n - 1], text));
        assert(more[p + 1] == items[p]);
        lemma_moved(more, rs, uuids, n - 1, p + 1);
    }
}

/// Each reasoning stands in front of its message, as an item of its own: the
/// `i`-th is moved on by the `i` before it, and an item by those that stand
/// before it.
pub proof fn reasoning_stands_before_its_message(
    items: Seq<JsonV>,
    rs: Seq<(int, Seq<char>)>,
    uuids: Seq<Seq<char>>,
    n: int,
)
    requires
        0 <= n <= rs.len(),
        in_order(rs, items.len() as int),
    ensures
        ({
            let r = with_reasonings(items, rs, uuids, n);
            &&& r.len() == items.len() + n
            &&& forall|i: int|
                0 <= i < n ==> is_reasoning_of(r[(#[trigger] rs[i]).0 + i], rs[i].1) && r[rs[i].0
                    + i].get_str("id"@) == Some("rs_"@ + uuids[i])
            &&& n > 0 ==> r[rs[n - 1].0 + n] == items[rs[n - 1].0]
        }),
    decreases n,
{
    reveal_strlit("type");
    reveal_strlit("id");
    reveal_strlit("summary");
    reveal_strlit("text");
    assert("type"@.len() == 4);
    assert("id"@.len() == 2);
    assert("summary"@.len() == 7);
    assert("text"@.len() == 4);
    assert("type"@[1] != "text"@[1]);
    let r = with_reasonings(items, rs, uuids, n);
    if n > 0 {
        let (at, text) = rs[n - 1];
        let x = reasoning_json("rs_"@ + uuids[n - 1], text);
        let more = items.insert(at, x);
        assert(is_reasoning_of(x, text));
        reasoning_stands_before_its_message(more, rs, uuids, n - 1);
        assert(more[at] == x);
        lemma_moved(more, rs, uuids, n - 1, at);
        assert(more[at + 1] == items[at]);
        lemma_moved(more, rs, uuids, n - 1, at + 1);
        assert forall|i: int| 0 <= i < n implies is_reasoning_of(
            r[(#[trigger] rs[i]).0 + i],
            rs[i].1,
        ) && r[rs[i].0 + i].get_str("id"@) == Some("rs_"@ + uuids[i]) by {
            if i == n - 1 {
                assert(r[rs[i].0 + i] == x);
            }
        }
    }
}

/// A healed body is the body that came with its output healed: every item of it
/// stays in order with its parts healed, and the calls that leaked stand behind
/// them with their names and arguments. A body in which nothing leaked stays as
/// it was, byte for byte.
pub proof fn healed_bodies_keep_everything_else(
    before: Seq<u8>,
    v: JsonV,
    gates: HealGates,
    after: Seq<u8>,
    rss: Seq<Seq<char>>,
    fcs: Seq<Seq<char>>,
    cids: Seq<Seq<char>>,
)
    requires
        body_healed(before, Some(v), gates, after, rss, fcs, cids),
    ensures
        body_scan(Some(v), gates) is None ==> after == before,
        body_scan(Some(v), gates) matches Some(s) ==> exists|w: JsonV|
            #![trigger json_text(w)]
            after == encode_utf8(json_text(w)) && is_body_healed(v, w, s, fcs, cids),
{
    if let Some(s) = body_scan(Some(v), gates) {
        let w = with_output(v, assembled(s, rss, fcs, cids));
        body_calls_keep_their_arguments(s.calls, fcs, cids);
        let items = response_of(v).get_arr("output"@)->0;
        outputs_are_healed_one_by_one(items, gates);
        reasoning_stands_before_its_message(s.items, s.reasonings, rss, s.reasonings.len() as int);
        let o = assembled(s, rss, fcs, cids);
        let n = o.len() - s.calls.len();
        assert forall|i: int| 0 <= i < s.calls.len() implies is_call(
            #[trigger] o[n + i],
            "fc_"@ + fcs[i],
            "call_dsml_"@ + cids[i],
            s.calls[i].name,
            s.calls[i].arguments,
            "completed"@,
        ) by {
            assert(o[n + i] == call_items(s.calls, fcs, cids)[i]);
        }
        assert(after == encode_utf8(json_text(w)));
        assert(is_body_healed(v, w, s, fcs, cids));
    }
}

/// Whether a body is another with its output replaced by a healed one: longer by
/// the reasoning and the calls that were found, with the calls at its end.
pub open spec fn is_body_healed(
    v: JsonV,
    w: JsonV,
    s: ListScan,
    fcs: Seq<Seq<char>>,
    cids: Seq<Seq<char>>,
) -> bool {
    let nested = v.get("response"@) is Some;
    let before = if nested {
        v.at("response"@)
    } else {
        v
    };
    let after = if nested {
        w.at("response"@)
    } else {
        w
    };
    &&& nested ==> forall|k: Seq<char>| k != "response"@ ==> #[trigger] w.get(k) == v.get(k)
    &&& forall|k: Seq<char>| k != "output"@ ==> #[trigger] after.get(k) == before.get(k)
    &&& before.get_arr("output"@) is Some
    &&& after.get_arr("output"@) matches Some(o) && o.len() == before.get_arr("output"@)->0.len()
        + s.reasonings.len() + s.calls.len() && forall|i: int|
        0 <= i < s.calls.len() ==> is_call(
            #[trigger] o[o.len() - s.calls.len() + i],
            "fc_"@ + fcs[i],
            "call_dsml_"@ + cids[i],
            s.calls[i].name,
            s.calls[i].arguments,
            "completed"@,
        )
}

} // verus!
