//! What is read out of bodies and texts, and what numbers and labels are written
//! as.

use crate::json::{JsonV, NumberV};
use crate::metrics::{class_of, label_of, ErrorClass};
use crate::sse::{after_line, after_lines, block_end, event_in, field_value, line_text, EventLines};
use crate::text::{all_ws, decimal, digit, is_ws, joined, lower, lowered, starts_at, trimmed};
use crate::version::{
    has_digit, is_digit, lemma_word_end, lemma_word_start, version_from, version_in, word_end,
    word_start,
};
use crate::wire::chat::ChatStreamChoice;
use crate::wire::decode::{choice_of, delta_in, list_in, message_in, tool_delta_in, usage_in};
use vstd::prelude::*;

verus! {

/// A tool-call delta is read by the names of its fields; one without an index is
/// the first.
pub proof fn tool_deltas_are_read_by_name(c: JsonV)
    ensures
        ({
            let d = tool_delta_in(c);
            &&& d.id == c.get_str("id"@)
            &&& d.name == c.at("function"@).get_str("name"@)
            &&& d.arguments == c.at("function"@).get_str("arguments"@)
            &&& c.get("index"@) matches Some(JsonV::Number(NumberV::Unsigned(n))) ==> d.index == n
            &&& c.get("index"@) is None ==> d.index == 0
        }),
{
}

/// What a chunk adds is read by the names of its fields, its tool-call deltas one
/// by one.
pub proof fn chunk_deltas_are_read_by_name(d: JsonV)
    ensures
        delta_in(d).content == d.get_str("content"@),
        delta_in(d).reasoning == d.get_str("reasoning_content"@),
        d.get("tool_calls"@) is None ==> delta_in(d).tool_calls.len() == 0,
        d.get("tool_calls"@) matches Some(JsonV::Arr(t)) ==> delta_in(d).tool_calls.len()
            == t.len() && forall|i: int|
            0 <= i < t.len() ==> #[trigger] delta_in(d).tool_calls[i] == tool_delta_in(t[i]),
{
}

/// A choice of a chunk is read by the names of its fields.
pub proof fn choices_are_read_by_name(c: ChatStreamChoice, v: JsonV)
    requires
        choice_of(c, v),
    ensures
        c.delta@ == delta_in(v.at("delta"@)),
        crate::wire::chat::opt_str(c.finish_reason) == v.get_str("finish_reason"@),
{
}

/// A list is read where there is one.
pub proof fn lists_are_read_where_they_are(v: JsonV, k: Seq<char>, a: Seq<JsonV>)
    ensures
        v.get(k) == Some(JsonV::Arr(a)) ==> list_in(v, k) == a,
        v.get(k) is None ==> list_in(v, k).len() == 0,
{
}

/// Token counts are read where all three are there and fit, each by its name.
pub proof fn counts_are_read_by_name(v: JsonV)
    ensures
        usage_in(v) matches Some(u) ==> ({
            let o = v.at("usage"@);
            &&& o.get("prompt_tokens"@) == Some(JsonV::uint(u.prompt_tokens as u64))
            &&& o.get("completion_tokens"@) == Some(JsonV::uint(u.completion_tokens as u64))
            &&& o.get("total_tokens"@) == Some(JsonV::uint(u.total_tokens as u64))
        }),
        ({
            let o = v.at("usage"@);
            &&& o.at("prompt_tokens"@).as_u64() matches Some(a) && a <= u32::MAX
            &&& o.at("completion_tokens"@).as_u64() matches Some(b) && b <= u32::MAX
            &&& o.at("total_tokens"@).as_u64() matches Some(c) && c <= u32::MAX
        }) ==> usage_in(v) is Some,
{
}

/// A message is read by the names of its fields; one without a role is the
/// assistant's, and null content is none.
pub proof fn messages_are_read_by_name(m: JsonV)
    ensures
        ({
            let r = message_in(m);
            &&& r.role == (match m.get_str("role"@) {
                Some(x) => x,
                None => "assistant"@,
            })
            &&& m.get("content"@) != Some(JsonV::Null) ==> r.content == m.get("content"@)
            &&& m.get("content"@) == Some(JsonV::Null) ==> r.content is None
            &&& r.reasoning_content == m.get_str("reasoning_content"@)
            &&& r.tool_calls == m.get_arr("tool_calls"@)
            &&& r.tool_call_id == m.get_str("tool_call_id"@)
            &&& r.name == m.get_str("name"@)
        }),
{
}

/// Trimming takes white space off both ends and nothing else.
pub proof fn trimming_takes_only_white_space(t: Seq<char>) -> (r: (Seq<char>, Seq<char>))
    ensures
        all_ws(r.0),
        all_ws(r.1),
        t == r.0 + trimmed(t) + r.1,
        trimmed(t).len() > 0 ==> !is_ws(trimmed(t)[0]) && !is_ws(trimmed(t).last()),
    decreases t.len(),
{
    if t.len() > 0 && is_ws(t[0]) {
        let u = t.drop_first();
        let (a, b) = trimming_takes_only_white_space(u);
        let more = seq![t[0]] + a;
        let m = trimmed(t);
        assert(u == a + m + b);
        assert(t =~= seq![t[0]] + u);
        assert(seq![t[0]] + (a + m + b) =~= more + m + b);
        (more, b)
    } else if t.len() > 0 && is_ws(t.last()) {
        let u = t.drop_last();
        let (a, b) = trimming_takes_only_white_space(u);
        let more = b.push(t.last());
        let m = trimmed(t);
        assert(u == a + m + b);
        assert(t =~= u.push(t.last()));
        assert((a + m + b).push(t.last()) =~= a + m + more);
        (a, more)
    } else {
        let e = Seq::<char>::empty();
        assert(t =~= e + t + e);
        (e, e)
    }
}

/// Texts are joined with the separator between each two of them.
pub proof fn joining_separates_each_two(l: Seq<Seq<char>>, x: Seq<char>, sep: Seq<char>)
    ensures
        joined(Seq::empty(), sep) == Seq::<char>::empty(),
        joined(seq![x], sep) == x,
        l.len() > 0 ==> joined(l.push(x), sep) == joined(l, sep) + sep + x,
{
    assert(l.push(x).drop_last() =~= l);
}

/// The number that digits stand for.
pub open spec fn value(t: Seq<char>) -> int
    decreases t.len(),
{
    if t.len() == 0 {
        0
    } else {
        10 * value(t.drop_last()) + (t.last() as int - '0' as int)
    }
}

/// A number is written in decimal digits that stand for it, without a leading
/// zero.
pub proof fn decimals_stand_for_their_number(n: nat)
    ensures
        value(decimal(n)) == n,
        decimal(n).len() > 0,
        forall|i: int| 0 <= i < decimal(n).len() ==> '0' <= #[trigger] decimal(n)[i] <= '9',
        n > 0 ==> decimal(n)[0] != '0',
    decreases n,
{
    if n < 10 {
        assert(decimal(n).drop_last() =~= Seq::<char>::empty());
        assert(value(Seq::<char>::empty()) == 0);
        assert(decimal(n).last() == digit(n));
    } else {
        decimals_stand_for_their_number(n / 10);
        assert(decimal(n).drop_last() =~= decimal(n / 10));
        assert(decimal(n).last() == digit(n % 10));
        assert(decimal(n)[0] == decimal(n / 10)[0]);
        assert(n == 10 * (n / 10) + n % 10);
    }
}

/// Only the upper-case letters of ASCII have a lower-case form of their own; a
/// text keeps its length.
pub proof fn lower_case_changes_letters_only(t: Seq<char>, i: int)
    requires
        0 <= i < t.len(),
    ensures
        lowered(t).len() == t.len(),
        !('A' <= t[i] && t[i] <= 'Z') ==> lowered(t)[i] == t[i],
        'A' <= t[i] && t[i] <= 'Z' ==> lowered(t)[i] as int == t[i] as int + 32,
{
    let c = t[i];
    if 'A' <= c && c <= 'Z' {
        assert((c as u8) as int == c as int);
        assert(lower(c) as int == (c as u8 + 32) as int);
    }
}

/// Of the characters of ASCII the space and the five controls from tab to
/// carriage return are white space.
pub proof fn ascii_white_space(c: char)
    requires
        (c as int) < 128,
    ensures
        is_ws(c) <==> c == ' ' || 9 <= c as int <= 13,
{
}

/// A block ends behind the first empty line.
pub proof fn blocks_end_behind_an_empty_line(b: Seq<u8>)
    ensures
        match block_end(b, 0) {
            Some(n) => 2 <= n <= b.len() && b[n - 1] == 10 && b[n - 2] == 10 && forall|i: int|
                0 <= i < n - 2 ==> !(#[trigger] b[i] == 10 && b[i + 1] == 10),
            None => forall|i: int|
                0 <= i < b.len() - 1 ==> !(#[trigger] b[i] == 10 && b[i + 1] == 10),
        },
{
    lemma_block_end(b, 0);
}

proof fn lemma_block_end(b: Seq<u8>, k: int)
    requires
        0 <= k,
    ensures
        match block_end(b, k) {
            Some(n) => k + 2 <= n <= b.len() && b[n - 1] == 10 && b[n - 2] == 10 && forall|i: int|
                k <= i < n - 2 ==> !(#[trigger] b[i] == 10 && b[i + 1] == 10),
            None => forall|i: int|
                k <= i < b.len() - 1 ==> !(#[trigger] b[i] == 10 && b[i + 1] == 10),
        },
    decreases b.len() - k,
{
    if k + 1 < b.len() && !(b[k] == 10 && b[k + 1] == 10) {
        lemma_block_end(b, k + 1);
    }
}

/// What stands behind a field's name is its value, without one leading space.
pub proof fn fields_are_read_behind_their_name(name: Seq<char>, x: Seq<char>)
    ensures
        field_value(name + seq![' '] + x, name) == Some(x),
        !(x.len() > 0 && x[0] == ' ') ==> field_value(name + x, name) == Some(x),
{
    let n = name.len() as int;
    let a = name + seq![' '] + x;
    assert(a.subrange(0, n) =~= name);
    assert(a.skip(n).skip(1) =~= x);
    let b = name + x;
    assert(b.subrange(0, n) =~= name);
    assert(b.skip(n) =~= x);
}

/// A line is read without the carriage return at its end.
pub proof fn lines_lose_their_carriage_return(line: Seq<char>)
    ensures
        line_text(line.push('\r')) == line,
        !(line.len() > 0 && line.last() == '\r') ==> line_text(line) == line,
{
    assert(line.push('\r').drop_last() =~= line);
}

/// Success has the empty class; the three statuses that are told apart have
/// their own, and every other one that of its hundred.
pub proof fn statuses_have_their_class(status: u16)
    ensures
        class_of(status) == ErrorClass::Empty <==> 200 <= status <= 299,
        class_of(status) == ErrorClass::Http429 <==> status == 429,
        class_of(status) == ErrorClass::Http500 <==> status == 500,
        class_of(status) == ErrorClass::Http503 <==> status == 503,
        class_of(status) == ErrorClass::Http4xx <==> 400 <= status <= 499 && status != 429,
        class_of(status) == ErrorClass::Http5xx <==> 500 <= status <= 599 && status != 500
            && status != 503,
        class_of(status) == ErrorClass::Network <==> !(200 <= status <= 299) && !(400 <= status
            <= 599),
        class_of(status) != ErrorClass::Timeout && class_of(status)
            != ErrorClass::StreamTruncated,
{
}

/// Each class has its label; success has none.
pub proof fn classes_have_their_label()
    ensures
        label_of(ErrorClass::Empty).len() == 0,
        label_of(ErrorClass::Http429) == "http_429"@,
        label_of(ErrorClass::Http500) == "http_500"@,
        label_of(ErrorClass::Http503) == "http_503"@,
        label_of(ErrorClass::Http4xx) == "http_4xx"@,
        label_of(ErrorClass::Http5xx) == "http_5xx"@,
        label_of(ErrorClass::Timeout) == "timeout"@,
        label_of(ErrorClass::Network) == "network"@,
        label_of(ErrorClass::StreamTruncated) == "stream_truncated"@,
{
    reveal_strlit("");
}

/// Whether a text is one word: it has characters, and none of them is white
/// space.
pub open spec fn is_word(t: Seq<char>) -> bool {
    t.len() > 0 && forall|i: int| 0 <= i < t.len() ==> !is_ws(#[trigger] t[i])
}

proof fn lemma_word_end_at(t: Seq<char>, i: int)
    requires
        0 <= i <= t.len(),
    ensures
        forall|j: int| i <= j < word_end(t, i) ==> !is_ws(#[trigger] t[j]),
        word_end(t, i) < t.len() ==> is_ws(t[word_end(t, i)]),
    decreases t.len() - i,
{
    if i < t.len() && !is_ws(t[i]) {
        lemma_word_end_at(t, i + 1);
    }
}

proof fn lemma_word_start_at(t: Seq<char>, i: int)
    requires
        0 <= i <= t.len(),
    ensures
        forall|j: int| i <= j < word_start(t, i) ==> is_ws(#[trigger] t[j]),
        word_start(t, i) < t.len() ==> !is_ws(t[word_start(t, i)]),
    decreases t.len() - i,
{
    if i < t.len() && is_ws(t[i]) {
        lemma_word_start_at(t, i + 1);
    }
}

/// Whether a word stands in a text from `a` to `b`, with white space or an end
/// of the text around it.
pub open spec fn stands_at(t: Seq<char>, a: int, b: int) -> bool {
    &&& 0 <= a < b <= t.len()
    &&& is_word(t.subrange(a, b))
    &&& a > 0 ==> is_ws(t[a - 1])
    &&& b < t.len() ==> is_ws(t[b])
}

proof fn lemma_version(t: Seq<char>, i: int)
    requires
        0 <= i <= t.len(),
        i > 0 && i < t.len() ==> is_ws(t[i - 1]) || is_ws(t[i]),
    ensures
        match version_from(t, i) {
            Some(v) => has_digit(v) && exists|a: int, b: int|
                i <= a && #[trigger] stands_at(t, a, b) && t.subrange(a, b) == v && forall|j: int|
                    i <= j < a ==> !is_digit(#[trigger] t[j]),
            None => forall|j: int| i <= j < t.len() ==> !is_digit(#[trigger] t[j]),
        },
    decreases t.len() - i,
{
    lemma_word_start(t, i);
    lemma_word_start_at(t, i);
    let a = word_start(t, i);
    if a < t.len() {
        lemma_word_end(t, a);
        lemma_word_end_at(t, a);
        let b = word_end(t, a);
        assert(b > a);
        let w = t.subrange(a, b);
        assert forall|k: int| 0 <= k < w.len() implies !is_ws(#[trigger] w[k]) by {
            assert(w[k] == t[a + k]);
        }
        assert(a > 0 ==> is_ws(t[a - 1]));
        assert(stands_at(t, a, b));
        if has_digit(w) {
            assert forall|j: int| i <= j < a implies !is_digit(#[trigger] t[j]) by {
                assert(is_ws(t[j]));
            }
        } else {
            assert forall|j: int| i <= j < b implies !is_digit(#[trigger] t[j]) by {
                if j < a {
                    assert(is_ws(t[j]));
                } else {
                    assert(w[j - a] == t[j]);
                }
            }
            lemma_version(t, b);
            if let Some(v) = version_from(t, b) {
                let (p, q) = choose|p: int, q: int|
                    b <= p && #[trigger] stands_at(t, p, q) && t.subrange(p, q) == v && forall|j: int|
                        b <= j < p ==> !is_digit(#[trigger] t[j]);
                assert(stands_at(t, p, q));
            }
        }
    } else {
        assert forall|j: int| i <= j < t.len() implies !is_digit(#[trigger] t[j]) by {
            assert(is_ws(t[j]));
        }
    }
}

/// The version in a text is the first whole word of it that has a digit; a text
/// without digits has none.
pub proof fn versions_are_the_first_word_with_a_digit(t: Seq<char>)
    ensures
        match version_in(t) {
            Some(v) => has_digit(v) && is_word(v) && exists|a: int, b: int|
                0 <= a && #[trigger] stands_at(t, a, b) && t.subrange(a, b) == v && forall|j: int|
                    0 <= j < a ==> !is_digit(#[trigger] t[j]),
            None => forall|j: int| 0 <= j < t.len() ==> !is_digit(#[trigger] t[j]),
        },
{
    lemma_version(t, 0);
}

/// A version is its own version: reading it again gives it back.
pub proof fn versions_are_read_once(t: Seq<char>)
    ensures
        version_in(t) matches Some(v) ==> version_in(v) == Some(v),
{
    lemma_version(t, 0);
    if let Some(v) = version_in(t) {
        lemma_version(v, 0);
        lemma_word_start_at(v, 0);
        assert(word_start(v, 0) == 0);
        lemma_word_end(v, 0);
        lemma_word_end_at(v, 0);
        let e = word_end(v, 0);
        if e < v.len() {
            assert(is_ws(v[e]));
        }
        assert(v.subrange(0, e) =~= v);
    }
}

/// A field that is set is the value that it was set to, and every other field
/// stays.
pub proof fn set_fields_are_read_back(o: JsonV, k: Seq<char>, v: JsonV, j: Seq<char>)
    requires
        o is Obj || o is Null,
    ensures
        o.set(k, v) is Obj,
        o.set(k, v).get(k) == Some(v),
        j != k ==> o.set(k, v).get(j) == o.get(j),
        JsonV::object().get(j) is None,
{
}

/// Fields that are taken out are gone, and every other field stays.
pub proof fn taken_out_fields_are_gone(o: JsonV, names: Seq<Seq<char>>, k: Seq<char>)
    ensures
        names.contains(k) ==> o.without(names).get(k) is None,
        !names.contains(k) ==> o.without(names).get(k) == o.get(k),
{
    assert(names.to_set().contains(k) == names.contains(k));
}

/// A value is read as what it is, and as nothing else.
pub proof fn values_are_read_as_they_are(s: Seq<char>, n: u64, b: bool, a: Seq<JsonV>)
    ensures
        JsonV::Str(s).as_str() == Some(s) && JsonV::Str(s).as_u64() is None && JsonV::Str(
            s,
        ).as_bool() is None && JsonV::Str(s).as_arr() is None,
        JsonV::uint(n).as_u64() == Some(n) && JsonV::uint(n).as_str() is None,
        JsonV::Bool(b).as_bool() == Some(b) && JsonV::Bool(b).as_str() is None,
        JsonV::Arr(a).as_arr() == Some(a) && JsonV::Arr(a).as_str() is None,
        JsonV::Null.as_str() is None && JsonV::Null.as_u64() is None && JsonV::Null.as_arr() is None,
{
}

/// A line names the event or adds a line of data; any other line counts for
/// nothing. The data of an event is its lines of data, one below the other.
pub proof fn events_are_read_line_by_line(e: EventLines, x: Seq<char>)
    ensures
        after_line(e, "event: "@ + x) == (EventLines { event: Some(x), data: e.data }),
        after_line(e, "data: "@ + x) == (EventLines { event: e.event, data: e.data.push(x) }),
        x.len() > 0 && x[0] != 'e' && x[0] != 'd' ==> after_line(e, x) == e,
        event_in(x).1 == joined(
            after_lines(EventLines { event: None, data: Seq::empty() }, x, 0).data,
            "\n"@,
        ),
{
    reveal_strlit("event: ");
    reveal_strlit("event:");
    reveal_strlit("data: ");
    reveal_strlit("data:");
    let n = "event: "@ + x;
    let d = "data: "@ + x;
    assert("event:"@.len() == 6 && "event: "@.len() == 7);
    assert("data:"@.len() == 5 && "data: "@.len() == 6);
    assert(n.subrange(0, 6) =~= "event:"@);
    assert(n.skip(6).skip(1) =~= x);
    assert(n.skip(6)[0] == ' ');
    assert(d.subrange(0, 5) =~= "data:"@);
    assert(d.skip(5).skip(1) =~= x);
    assert(d.skip(5)[0] == ' ');
    assert("event:"@[0] == 'e' && "data:"@[0] == 'd');
    assert(d[0] == 'd');
    assert forall|m: Seq<char>, t: Seq<char>|
        m.len() > 0 && t.len() > 0 && t[0] != m[0] implies !#[trigger] starts_at(t, 0, m) by {
        if starts_at(t, 0, m) {
            assert(t.subrange(0, m.len() as int)[0] == t[0]);
        }
    }
    assert(starts_at(n, 0, "event:"@));
    assert(starts_at(d, 0, "data:"@));
}

} // verus!
