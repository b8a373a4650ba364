//! Server-sent event blocks.
use crate::json::{json_text, Json, JsonV};
use crate::text::{join, joined, occurs_at, slice_chars, slice_string, starts_at, to_chars, views};
use crate::wire::chat::opt_str;
use vstd::prelude::*;
use vstd::slice::slice_to_vec;
use vstd::utf8::encode_utf8;

verus! {

/// The text of a block with an event name and data.
pub open spec fn framed(event: Seq<char>, data: Seq<char>) -> Seq<char> {
    "event: "@ + event + "\ndata: "@ + data + "\n\n"@
}

/// The text of an event block: the event name and the payload as compact JSON.
pub open spec fn block_text(event: Seq<char>, payload: JsonV) -> Seq<char> {
    framed(event, json_text(payload))
}

/// The bytes of an event block.
pub open spec fn block(event: Seq<char>, payload: JsonV) -> Seq<u8> {
    encode_utf8(block_text(event, payload))
}

/// Renders an event block.
pub fn sse_block(event: &str, payload: &Json) -> (r: Vec<u8>)
    ensures
        r@ == block(event@, payload@),
{
    frame(event, payload.to_text().as_str())
}

/// Renders a block of an event whose data is a text already.
pub fn frame(event: &str, data: &str) -> (r: Vec<u8>)
    ensures
        r@ == encode_utf8(framed(event@, data@)),
{
    let mut text = "event: ".to_owned();
    text.append(event);
    text.append("\ndata: ");
    text.append(data);
    text.append("\n\n");
    text.as_str().as_bytes_vec()
}

/// The bytes of a list of chunks.
pub open spec fn chunks(out: Seq<Vec<u8>>) -> Seq<Seq<u8>> {
    Seq::new(out.len(), |i: int| out[i]@)
}

pub broadcast proof fn lemma_chunks_push(out: Seq<Vec<u8>>, c: Vec<u8>)
    ensures
        #[trigger] chunks(out.push(c)) == chunks(out).push(c@),
{
    assert(chunks(out.push(c)) =~= chunks(out).push(c@));
}

/// The list of one chunk that holds `raw`.
pub fn verbatim(raw: &[u8]) -> (r: Vec<Vec<u8>>)
    ensures
        chunks(r@) == seq![raw@],
{
    let mut out: Vec<Vec<u8>> = Vec::new();
    out.push(slice_to_vec(raw));
    assert(chunks(out@) =~= seq![raw@]);
    out
}

/// Appends a chunk that holds `raw`.
pub fn push_verbatim(out: &mut Vec<Vec<u8>>, raw: &[u8])
    ensures
        chunks(final(out)@) == chunks(old(out)@).push(raw@),
{
    let c = slice_to_vec(raw);
    proof {
        lemma_chunks_push(out@, c);
    }
    out.push(c);
}

/// Appends an event block.
pub fn push_block(out: &mut Vec<Vec<u8>>, event: &str, payload: &Json)
    ensures
        chunks(final(out)@) == chunks(old(out)@).push(block(event@, payload@)),
{
    let c = sse_block(event, payload);
    proof {
        lemma_chunks_push(out@, c);
    }
    out.push(c);
}

/// Where the first block ends that begins at or after `i`: behind an empty
/// line. None where no block is complete.
pub open spec fn block_end(b: Seq<u8>, i: int) -> Option<int>
    decreases b.len() - i,
{
    if i < 0 || i + 1 >= b.len() {
        None
    } else if b[i] == 10 && b[i + 1] == 10 {
        Some(i + 2)
    } else {
        block_end(b, i + 1)
    }
}

/// Where the first block in the bytes ends; none where it is not complete.
pub fn first_block(b: &Vec<u8>) -> (r: Option<usize>)
    ensures
        match r {
            Some(n) => block_end(b@, 0) == Some(n as int) && n <= b@.len(),
            None => block_end(b@, 0) is None,
        },
{
    let mut i: usize = 0;
    while i < b.len() && b.len() - i > 1
        invariant
            i <= b@.len(),
            block_end(b@, 0) == block_end(b@, i as int),
        decreases b@.len() - i,
    {
        if b[i] == 10 && b[i + 1] == 10 {
            return Some(i + 2);
        }
        i = i + 1;
    }
    None
}

/// Where the line ends that `i` is in.
pub open spec fn line_end(t: Seq<char>, i: int) -> int
    decreases t.len() - i,
{
    if i < 0 || i >= t.len() || t[i] == '\n' {
        i
    } else {
        line_end(t, i + 1)
    }
}

pub proof fn lemma_line_end(t: Seq<char>, i: int)
    requires
        0 <= i <= t.len(),
    ensures
        i <= line_end(t, i) <= t.len(),
    decreases t.len() - i,
{
    if i < t.len() && t[i] != '\n' {
        lemma_line_end(t, i + 1);
    }
}

/// The text of a line, without a carriage return at its end.
pub open spec fn line_text(line: Seq<char>) -> Seq<char> {
    if line.len() > 0 && line.last() == '\r' {
        line.drop_last()
    } else {
        line
    }
}

/// What stands behind a field name in a line, without one leading space.
pub open spec fn field_value(line: Seq<char>, name: Seq<char>) -> Option<Seq<char>> {
    if !starts_at(line, 0, name) {
        None
    } else {
        let rest = line.skip(name.len() as int);
        if rest.len() > 0 && rest[0] == ' ' {
            Some(rest.skip(1))
        } else {
            Some(rest)
        }
    }
}

/// An event name, and the lines of its data.
pub struct EventLines {
    pub event: Option<Seq<char>>,
    pub data: Seq<Seq<char>>,
}

/// An event after one more line: a later name replaces an earlier one, data
/// lines are gathered, any other line says nothing.
pub open spec fn after_line(e: EventLines, line: Seq<char>) -> EventLines {
    match (field_value(line, "event:"@), field_value(line, "data:"@)) {
        (Some(name), _) => EventLines { event: Some(name), ..e },
        (None, Some(d)) => EventLines { data: e.data.push(d), ..e },
        (None, None) => e,
    }
}

/// An event after the lines from `i` on.
pub open spec fn after_lines(e: EventLines, t: Seq<char>, i: int) -> EventLines
    decreases t.len() + 1 - i,
{
    if i < 0 || i >= t.len() {
        e
    } else {
        let end = line_end(t, i);
        proof {
            lemma_line_end(t, i);
        }
        after_lines(after_line(e, line_text(t.subrange(i, end))), t, end + 1)
    }
}

/// The event name and the data of a block.
pub open spec fn event_in(t: Seq<char>) -> (Option<Seq<char>>, Seq<char>) {
    let e = after_lines(EventLines { event: None, data: Seq::empty() }, t, 0);
    (e.event, joined(e.data, "\n"@))
}

fn value_in_line(line: &Vec<char>, name: &str) -> (r: Option<String>)
    ensures
        opt_str(r) == field_value(line@, name@),
{
    let prefix = to_chars(name);
    if !occurs_at(line, 0, &prefix) {
        return None;
    }
    let n = prefix.len();
    let from = if n < line.len() && line[n] == ' ' {
        n + 1
    } else {
        n
    };
    proof {
        let rest = line@.skip(n as int);
        assert(rest.len() > 0 ==> rest[0] == line@[n as int]);
        assert(line@.subrange(from as int, line@.len() as int) =~= (if from == n {
            rest
        } else {
            rest.skip(1)
        }));
    }
    Some(slice_string(line, from, line.len()))
}

/// The event name and the data of a block.
pub fn read_event(block: &str) -> (r: (Option<String>, String))
    ensures
        (opt_str(r.0), r.1@) == event_in(block@),
{
    let t = to_chars(block);
    let mut event: Option<String> = None;
    let mut data: Vec<String> = Vec::new();
    let ghost none = EventLines { event: None, data: Seq::empty() };
    let mut i: usize = 0;
    assert(views(data@) =~= Seq::<Seq<char>>::empty());
    while i < t.len()
        invariant
            t@ == block@,
            i <= t@.len(),
            none == (EventLines { event: None, data: Seq::empty() }),
            after_lines(none, t@, 0) == after_lines(
                EventLines { event: opt_str(event), data: views(data@) },
                t@,
                i as int,
            ),
        decreases t@.len() - i,
    {
        let mut end: usize = i;
        while end < t.len() && t[end] != '\n'
            invariant
                i <= end <= t@.len(),
                line_end(t@, i as int) == line_end(t@, end as int),
            decreases t@.len() - end,
        {
            end = end + 1;
        }
        let cut = if end > i && t[end - 1] == '\r' {
            end - 1
        } else {
            end
        };
        let line = slice_chars(&t, i, cut);
        proof {
            assert(line@ =~= line_text(t@.subrange(i as int, end as int)));
        }
        match value_in_line(&line, "event:") {
            Some(name) => {
                event = Some(name);
            },
            None => {
                if let Some(d) = value_in_line(&line, "data:") {
                    let ghost before = views(data@);
                    data.push(d);
                    assert(views(data@) =~= before.push(d@));
                }
            },
        }
        if end == t.len() {
            i = end;
        } else {
            i = end + 1;
        }
    }
    (event, join(&data, "\n"))
}

proof fn lemma_line_end_at(t: Seq<char>, i: int, j: int)
    requires
        0 <= i <= j < t.len(),
        t[j] == '\n',
        forall|k: int| i <= k < j ==> t[k] != '\n',
    ensures
        line_end(t, i) == j,
    decreases j - i,
{
    if i < j {
        lemma_line_end_at(t, i + 1, j);
    }
}

/// Whether a text is one line, with no carriage return at its end.
pub open spec fn is_line(t: Seq<char>) -> bool {
    &&& forall|i: int| 0 <= i < t.len() ==> #[trigger] t[i] != '\n'
    &&& t.len() > 0 ==> t.last() != '\r'
}

/// A block is read as the event name and the data that it was framed from,
/// where each of them is one line.
pub proof fn framed_event_is_read(event: Seq<char>, data: Seq<char>)
    requires
        is_line(event),
        is_line(data),
    ensures
        event_in(framed(event, data)) == (Some(event), data),
{
    reveal_strlit("event: ");
    reveal_strlit("event:");
    reveal_strlit("\ndata: ");
    reveal_strlit("data:");
    reveal_strlit("\n\n");
    let t = framed(event, data);
    let a = 7 + event.len() as int;
    let b = a + 7 + data.len();
    let none = EventLines { event: None, data: Seq::empty() };
    let named = EventLines { event: Some(event), data: Seq::empty() };
    let whole = EventLines { event: Some(event), data: seq![data] };
    assert(t.len() == b + 2);
    assert(t[a] == '\n' && t[b] == '\n' && t[b + 1] == '\n');
    assert forall|k: int| 0 <= k < a implies t[k] != '\n' by {
        if k >= 7 {
            assert(t[k] == event[k - 7]);
        }
    }
    assert forall|k: int| a + 1 <= k < b implies t[k] != '\n' by {
        if k >= a + 7 {
            assert(t[k] == data[k - a - 7]);
        }
    }
    lemma_line_end_at(t, 0, a);
    lemma_line_end_at(t, a + 1, b);
    lemma_line_end_at(t, b + 1, b + 1);
    let first = t.subrange(0, a);
    let second = t.subrange(a + 1, b);
    let third = t.subrange(b + 1, b + 1);
    assert(first =~= "event: "@ + event);
    assert(second =~= "data: "@ + data) by {
        reveal_strlit("data: ");
    }
    assert(line_text(first) == first) by {
        if event.len() > 0 {
            assert(first.last() == event.last());
        }
    }
    assert(line_text(second) == second) by {
        reveal_strlit("data: ");
        if data.len() > 0 {
            assert(second.last() == data.last());
        }
    }
    assert(field_value(first, "event:"@) == Some(event)) by {
        assert(first.subrange(0, 6) =~= "event:"@);
        assert(first.skip(6).skip(1) =~= event);
    }
    assert(field_value(second, "event:"@) is None) by {
        reveal_strlit("data: ");
        if starts_at(second, 0, "event:"@) {
            assert(second.subrange(0, 6)[0] == 'd');
        }
    }
    assert(field_value(second, "data:"@) == Some(data)) by {
        reveal_strlit("data: ");
        assert(second.subrange(0, 5) =~= "data:"@);
        assert(second.skip(5).skip(1) =~= data);
    }
    assert(none.data.push(data) =~= whole.data);
    assert(after_line(none, line_text(first)) == named);
    assert(after_line(named, line_text(second)) == whole);
    assert(after_line(whole, line_text(third)) == whole);
    assert(after_lines(whole, t, b + 2) == whole);
    assert(after_lines(whole, t, b + 1) == whole);
    assert(after_lines(named, t, a + 1) == whole);
    assert(after_lines(none, t, 0) == whole);
}

} // verus!
