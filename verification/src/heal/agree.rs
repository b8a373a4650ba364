//! Healing a stream of text gives what healing the whole text gives.
//!
//! Everything that is read out of markup lies behind the markup's start, so
//! text in front of it only shifts positions.
use crate::heal::dsml::{
    attribute, attributes, balanced_end, dsml_markers, empty_envelope, extract, extract_all, invoke,
    invoke_at, key_end, leaked, lemma_attribute, lemma_dialect, lemma_dsml_markers,
    lemma_empty_envelope, lemma_invoke, lemma_key_end, lemma_malformed_end, lemma_next_invoke,
    lemma_open_tag, lemma_parameter, lemma_safe_len, lemma_scanned_tag, lemma_skip_ws,
    lemma_tag_end, lemma_tag_name_end, malformed_end, next_invoke, open_tag, parameter, parameters,
    quoted, safe_len, scanned_tag, skip_ws, slash_before, stripped, tag_end, tag_name_end, without,
    CallV, DsmlDialect, DsmlState, Extracted, TagV,
};
use crate::heal::markers::{
    could_grow, ends_in_prefix, first_marker, lemma_first_marker, lemma_longest_growing,
    lemma_tag_at, tag_at, withheld,
};
use crate::json::JsonV;
use crate::text::{find_from, is_ws, lemma_find_from, starts_at};
use vstd::prelude::*;

verus! {

/// An optional position, `n` further on.
pub open spec fn moved(x: Option<int>, n: int) -> Option<int> {
    match x {
        Some(i) => Some(n + i),
        None => None,
    }
}

/// A tag, `n` further on.
pub open spec fn moved_tag(x: Option<TagV>, n: int) -> Option<TagV> {
    match x {
        Some(tag) => Some(TagV { end: n + tag.end, ..tag }),
        None => None,
    }
}

proof fn shift_starts_at(p: Seq<char>, c: Seq<char>, i: int, q: Seq<char>)
    requires
        i >= 0,
    ensures
        starts_at(p + c, p.len() + i, q) == starts_at(c, i, q),
{
    let n = p.len() as int;
    if i + q.len() <= c.len() {
        assert((p + c).subrange(n + i, n + i + q.len()) =~= c.subrange(i, i + q.len()));
    }
}

proof fn shift_find_from(p: Seq<char>, c: Seq<char>, i: int, q: Seq<char>)
    requires
        i >= 0,
    ensures
        find_from(p + c, p.len() + i, q) == moved(find_from(c, i, q), p.len() as int),
    decreases c.len() + 1 - i,
{
    shift_starts_at(p, c, i, q);
    if i <= c.len() {
        shift_find_from(p, c, i + 1, q);
    }
}

proof fn shift_skip_ws(p: Seq<char>, c: Seq<char>, i: int)
    requires
        i >= 0,
    ensures
        skip_ws(p + c, p.len() + i) == p.len() + skip_ws(c, i),
    decreases c.len() - i,
{
    if i < c.len() {
        assert((p + c)[p.len() + i] == c[i]);
        shift_skip_ws(p, c, i + 1);
    }
}

proof fn shift_tag_name_end(p: Seq<char>, c: Seq<char>, i: int)
    requires
        i >= 0,
    ensures
        tag_name_end(p + c, p.len() + i) == p.len() + tag_name_end(c, i),
    decreases c.len() - i,
{
    if i < c.len() {
        assert((p + c)[p.len() + i] == c[i]);
        shift_tag_name_end(p, c, i + 1);
    }
}

proof fn shift_key_end(p: Seq<char>, c: Seq<char>, i: int)
    requires
        i >= 0,
    ensures
        key_end(p + c, p.len() + i) == moved(key_end(c, i), p.len() as int),
    decreases c.len() - i,
{
    if i < c.len() {
        assert((p + c)[p.len() + i] == c[i]);
        shift_key_end(p, c, i + 1);
    }
}

proof fn shift_quoted(p: Seq<char>, c: Seq<char>, i: int, read: Seq<char>)
    requires
        i >= 0,
    ensures
        quoted(p + c, p.len() + i, read) == (match quoted(c, i, read) {
            Some((v, end)) => Some((v, p.len() + end)),
            None => None,
        }),
    decreases c.len() - i,
{
    if i < c.len() {
        let t = p + c;
        assert(t[p.len() + i] == c[i]);
        if c[i] == '"' {
        } else if c[i] != '\\' {
            shift_quoted(p, c, i + 1, read.push(c[i]));
        } else if i + 1 < c.len() {
            assert(t[p.len() + i + 1] == c[i + 1]);
            if c[i + 1] == '"' || c[i + 1] == '\\' {
                shift_quoted(p, c, i + 2, read.push(c[i + 1]));
            } else {
                shift_quoted(p, c, i + 1, read.push('\\'));
            }
        }
    }
}

proof fn shift_attribute(p: Seq<char>, c: Seq<char>, k: int)
    requires
        k >= 0,
    ensures
        attribute(p + c, p.len() + k) == (match attribute(c, k) {
            Some((key, v, end)) => Some((key, v, p.len() + end)),
            None => None,
        }),
{
    let t = p + c;
    let n = p.len() as int;
    shift_key_end(p, c, k);
    lemma_key_end(c, k);
    if let Some(ke) = key_end(c, k) {
        if ke > k {
            lemma_skip_ws(c, ke);
            shift_skip_ws(p, c, ke);
            let e = skip_ws(c, ke);
            lemma_skip_ws(c, e + 1);
            shift_skip_ws(p, c, e + 1);
            let q = skip_ws(c, e + 1);
            if e < c.len() && q < c.len() {
                assert(t[n + e] == c[e]);
                assert(t[n + q] == c[q]);
                shift_quoted(p, c, q + 1, Seq::empty());
                assert(t.subrange(n + k, n + ke) =~= c.subrange(k, ke));
            }
        }
    }
}

proof fn shift_attributes(
    p: Seq<char>,
    c: Seq<char>,
    i: int,
    name: Seq<char>,
    attrs: Map<Seq<char>, Seq<char>>,
)
    requires
        i >= 0,
    ensures
        attributes(p + c, p.len() + i, name, attrs) == moved_tag(
            attributes(c, i, name, attrs),
            p.len() as int,
        ),
    decreases c.len() - i,
{
    let t = p + c;
    let n = p.len() as int;
    lemma_skip_ws(c, i);
    shift_skip_ws(p, c, i);
    let k = skip_ws(c, i);
    if k < c.len() {
        assert(t[n + k] == c[k]);
        lemma_skip_ws(c, k + 1);
        shift_skip_ws(p, c, k + 1);
        let g = skip_ws(c, k + 1);
        if g < c.len() {
            assert(t[n + g] == c[g]);
        }
        shift_attribute(p, c, k);
        lemma_attribute(c, k);
        if let Some((key, value, end)) = attribute(c, k) {
            if end < c.len() {
                assert(t[n + end] == c[end]);
            }
            shift_attributes(p, c, end, name, attrs.insert(key, value));
        }
    }
}

proof fn shift_open_tag(p: Seq<char>, c: Seq<char>, start: int, d: DsmlDialect)
    requires
        start >= 0,
    ensures
        open_tag(p + c, p.len() + start, d) == moved_tag(open_tag(c, start, d), p.len() as int),
{
    let t = p + c;
    let n = p.len() as int;
    shift_starts_at(p, c, start, d.marker());
    let ns = start + d.marker().len();
    shift_tag_name_end(p, c, ns);
    lemma_tag_name_end(c, ns);
    let ne = tag_name_end(c, ns);
    if starts_at(c, start, d.marker()) {
        assert(t.subrange(n + ns, n + ne) =~= c.subrange(ns, ne));
        shift_attributes(p, c, ne, c.subrange(ns, ne), Map::empty());
    }
}

proof fn shift_tag_end(p: Seq<char>, c: Seq<char>, i: int, in_quotes: bool, escaped: bool)
    requires
        i >= 0,
    ensures
        tag_end(p + c, p.len() + i, in_quotes, escaped) == moved(
            tag_end(c, i, in_quotes, escaped),
            p.len() as int,
        ),
    decreases c.len() - i,
{
    if i < c.len() {
        assert((p + c)[p.len() + i] == c[i]);
        if in_quotes {
            if escaped {
                shift_tag_end(p, c, i + 1, true, false);
            } else {
                shift_tag_end(p, c, i + 1, c[i] != '"', c[i] == '\\');
            }
        } else if c[i] != '>' {
            shift_tag_end(p, c, i + 1, c[i] == '"', false);
        }
    }
}

proof fn shift_slash_before(p: Seq<char>, c: Seq<char>, i: int, at: int)
    requires
        0 <= at < i <= c.len(),
        !is_ws(c[at]),
    ensures
        slash_before(p + c, p.len() + i) == slash_before(c, i),
    decreases i,
{
    assert((p + c)[p.len() + i - 1] == c[i - 1]);
    if is_ws(c[i - 1]) {
        shift_slash_before(p, c, i - 1, at);
    }
}

proof fn shift_scanned_tag(p: Seq<char>, c: Seq<char>, start: int, d: DsmlDialect)
    requires
        start >= 0,
    ensures
        scanned_tag(p + c, p.len() + start, d) == moved_tag(
            scanned_tag(c, start, d),
            p.len() as int,
        ),
{
    let t = p + c;
    let n = p.len() as int;
    shift_starts_at(p, c, start, d.marker());
    lemma_dialect(d);
    let ns = start + d.marker().len();
    shift_tag_name_end(p, c, ns);
    lemma_tag_name_end(c, ns);
    let ne = tag_name_end(c, ns);
    if starts_at(c, start, d.marker()) && ne > ns {
        assert(t.subrange(n + ns, n + ne) =~= c.subrange(ns, ne));
        shift_tag_end(p, c, ne, false, false);
        lemma_tag_end(c, ne, false, false);
        if let Some(end) = tag_end(c, ne, false, false) {
            lemma_name_is_no_space(c, ns);
            shift_slash_before(p, c, end - 1, ns);
        }
    }
}

proof fn lemma_name_is_no_space(c: Seq<char>, i: int)
    requires
        0 <= i,
        tag_name_end(c, i) > i,
    ensures
        i < c.len(),
        !is_ws(c[i]),
{
}

proof fn shift_parameter(p: Seq<char>, c: Seq<char>, tag: TagV, d: DsmlDialect)
    requires
        0 <= tag.end <= c.len(),
    ensures
        parameter(p + c, TagV { end: p.len() + tag.end, ..tag }, d) == (match parameter(c, tag, d) {
            Some((v, next)) => Some((v, p.len() + next)),
            None => None,
        }),
{
    let t = p + c;
    let n = p.len() as int;
    shift_find_from(p, c, tag.end, d.parameter_close());
    shift_find_from(p, c, tag.end, d.marker());
    shift_find_from(p, c, tag.end, d.invoke_close());
    lemma_find_from(c, tag.end, d.parameter_close());
    if let Some(close) = find_from(c, tag.end, d.parameter_close()) {
        assert(t.subrange(n + tag.end, n + close) =~= c.subrange(tag.end, close));
    }
    let moved_one = TagV { end: n + tag.end, ..tag };
    assert(moved_one.attr("string"@) == tag.attr("string"@));
}

proof fn shift_parameters(
    p: Seq<char>,
    c: Seq<char>,
    i: int,
    d: DsmlDialect,
    args: Map<Seq<char>, JsonV>,
)
    requires
        i >= 0,
    ensures
        parameters(p + c, p.len() + i, d, args) == (match parameters(c, i, d, args) {
            Some((end, a)) => Some((p.len() + end, a)),
            None => None,
        }),
    decreases c.len() - i,
{
    let n = p.len() as int;
    lemma_skip_ws(c, i);
    shift_skip_ws(p, c, i);
    let k = skip_ws(c, i);
    shift_starts_at(p, c, k, d.invoke_close());
    if !starts_at(c, k, d.invoke_close()) {
        shift_open_tag(p, c, k, d);
        lemma_open_tag(c, k, d);
        if let Some(tag) = open_tag(c, k, d) {
            let moved_one = TagV { end: n + tag.end, ..tag };
            assert(moved_one.attr("name"@) == tag.attr("name"@));
            shift_parameter(p, c, tag, d);
            lemma_parameter(c, tag, d);
            if let (Some(name), Some((value, next))) = (tag.attr("name"@), parameter(c, tag, d)) {
                shift_parameters(p, c, next, d, args.insert(name, value));
            }
        }
    }
}

proof fn shift_invoke(p: Seq<char>, c: Seq<char>, start: int, d: DsmlDialect)
    requires
        start >= 0,
    ensures
        invoke(p + c, p.len() + start, d) == (match invoke(c, start, d) {
            Some((end, call)) => Some((p.len() + end, call)),
            None => None,
        }),
{
    let n = p.len() as int;
    shift_open_tag(p, c, start, d);
    lemma_open_tag(c, start, d);
    if let Some(tag) = open_tag(c, start, d) {
        let moved_one = TagV { end: n + tag.end, ..tag };
        assert(moved_one.attr("name"@) == tag.attr("name"@));
        shift_parameters(p, c, tag.end, d, Map::empty());
    }
}

proof fn shift_balanced_end(p: Seq<char>, c: Seq<char>, i: int, d: DsmlDialect, depth: int)
    requires
        i >= 0,
    ensures
        balanced_end(p + c, p.len() + i, d, depth) == moved(
            balanced_end(c, i, d, depth),
            p.len() as int,
        ),
    decreases c.len() - i,
{
    if i < c.len() {
        shift_find_from(p, c, i, d.other().marker());
        shift_find_from(p, c, i, d.marker());
        shift_find_from(p, c, i, d.invoke_close());
        lemma_find_from(c, i, d.other().marker());
        lemma_find_from(c, i, d.marker());
        lemma_find_from(c, i, d.invoke_close());
        lemma_dialect(d);
        if let Some(e) = find_from(c, i, d.invoke_close()) {
            shift_balanced_end(p, c, e + d.invoke_close().len(), d, depth - 1);
        }
        if let Some(o) = find_from(c, i, d.marker()) {
            shift_scanned_tag(p, c, o, d);
            lemma_scanned_tag(c, o, d);
            if let Some(tag) = scanned_tag(c, o, d) {
                shift_balanced_end(p, c, tag.end, d, depth + 1);
                shift_balanced_end(p, c, tag.end, d, depth);
                shift_find_from(p, c, tag.end, d.parameter_close());
                lemma_find_from(c, tag.end, d.parameter_close());
                shift_find_from(p, c, tag.end, d.marker());
                if let Some(e) = find_from(c, tag.end, d.parameter_close()) {
                    shift_balanced_end(p, c, e + d.parameter_close().len(), d, depth);
                }
            }
        }
    }
}

proof fn shift_malformed_end(p: Seq<char>, c: Seq<char>, start: int, d: DsmlDialect)
    requires
        start >= 0,
    ensures
        malformed_end(p + c, p.len() + start, d) == moved(
            malformed_end(c, start, d),
            p.len() as int,
        ),
{
    shift_scanned_tag(p, c, start, d);
    lemma_scanned_tag(c, start, d);
    if let Some(tag) = scanned_tag(c, start, d) {
        shift_balanced_end(p, c, tag.end, d, 1);
    }
}

proof fn shift_invoke_at(p: Seq<char>, c: Seq<char>, j: int, d: DsmlDialect)
    requires
        j >= 0,
    ensures
        invoke_at(p + c, p.len() + j, d) == invoke_at(c, j, d),
{
    shift_starts_at(p, c, j, d.invoke_open());
    let after = j + d.invoke_open().len();
    if after < c.len() {
        assert((p + c)[p.len() + after] == c[after]);
    }
}

proof fn shift_next_invoke(p: Seq<char>, c: Seq<char>, i: int)
    requires
        i >= 0,
    ensures
        next_invoke(p + c, p.len() + i) == (match next_invoke(c, i) {
            Some((d, at)) => Some((d, p.len() + at)),
            None => None,
        }),
    decreases c.len() - i,
{
    if i < c.len() {
        shift_invoke_at(p, c, i, DsmlDialect::DoubleBar);
        shift_invoke_at(p, c, i, DsmlDialect::SingleBar);
        shift_next_invoke(p, c, i + 1);
    }
}

proof fn shift_extract(p: Seq<char>, c: Seq<char>, from: int, copied: int, done: Extracted)
    requires
        0 <= copied <= from <= c.len(),
    ensures
        extract(p + c, p.len() + from, p.len() + copied, done) == extract(c, from, copied, done),
    decreases c.len() - from,
{
    let t = p + c;
    let n = p.len() as int;
    assert(t.subrange(n + copied, t.len() as int) =~= c.subrange(copied, c.len() as int));
    shift_next_invoke(p, c, from);
    lemma_next_invoke(c, from);
    if let Some((d, start)) = next_invoke(c, from) {
        shift_invoke(p, c, start, d);
        lemma_invoke(c, start, d);
        shift_malformed_end(p, c, start, d);
        lemma_malformed_end(c, start, d);
        assert(t.subrange(n + copied, n + start) =~= c.subrange(copied, start));
        match invoke(c, start, d) {
            Some((end, call)) => {
                shift_extract(
                    p,
                    c,
                    end,
                    end,
                    Extracted {
                        text: done.text + c.subrange(copied, start),
                        calls: done.calls.push(call),
                    },
                );
            },
            None => {
                if let Some(end) = malformed_end(c, start, d) {
                    shift_extract(p, c, end, copied, done);
                }
            },
        }
    }
}

/// Copying text before a call is met or when it is met is the same.
proof fn lemma_copy_early(t: Seq<char>, from: int, a: int, b: int, done: Extracted)
    requires
        0 <= a <= b <= from <= t.len(),
    ensures
        extract(t, from, a, done) == extract(
            t,
            from,
            b,
            Extracted { text: done.text + t.subrange(a, b), ..done },
        ),
    decreases t.len() - from,
{
    let early = Extracted { text: done.text + t.subrange(a, b), ..done };
    let len = t.len() as int;
    assert(done.text + t.subrange(a, len) =~= early.text + t.subrange(b, len));
    lemma_next_invoke(t, from);
    if let Some((d, start)) = next_invoke(t, from) {
        lemma_invoke(t, start, d);
        lemma_malformed_end(t, start, d);
        assert(done.text + t.subrange(a, start) =~= early.text + t.subrange(b, start));
        if invoke(t, start, d) is None {
            if let Some(end) = malformed_end(t, start, d) {
                lemma_copy_early(t, end, a, b, done);
            }
        }
    }
}

/// Text that is already done stays in front.
proof fn lemma_done_in_front(
    p: Seq<char>,
    t: Seq<char>,
    from: int,
    copied: int,
    done: Extracted,
)
    requires
        0 <= copied <= from <= t.len(),
    ensures
        extract(t, from, copied, Extracted { text: p + done.text, ..done }) == (Extracted {
            text: p + extract(t, from, copied, done).text,
            ..extract(t, from, copied, done)
        }),
    decreases t.len() - from,
{
    let front = Extracted { text: p + done.text, ..done };
    let rest = t.subrange(copied, t.len() as int);
    assert(front.text + rest =~= p + (done.text + rest));
    lemma_next_invoke(t, from);
    if let Some((d, start)) = next_invoke(t, from) {
        lemma_invoke(t, start, d);
        lemma_malformed_end(t, start, d);
        let piece = t.subrange(copied, start);
        assert(front.text + piece =~= p + (done.text + piece));
        match invoke(t, start, d) {
            Some((end, call)) => {
                lemma_done_in_front(
                    p,
                    t,
                    end,
                    end,
                    Extracted { text: done.text + piece, calls: done.calls.push(call) },
                );
            },
            None => {
                if let Some(end) = malformed_end(t, start, d) {
                    lemma_done_in_front(p, t, end, copied, done);
                }
            },
        }
    }
}

proof fn lemma_no_marker_no_tag(t: Seq<char>, i: int, d: DsmlDialect)
    requires
        0 <= i,
        first_marker(t, 0, dsml_markers()) matches Some((at, _)) ==> i < at,
    ensures
        !starts_at(t, i, d.marker()),
{
    lemma_dsml_markers();
    lemma_first_marker(t, 0, dsml_markers());
    let ts = dsml_markers();
    if starts_at(t, i, d.marker()) {
        lemma_tag_at(t, i, ts);
        assert(ts[0] == DsmlDialect::DoubleBar.marker());
        assert(ts[1] == DsmlDialect::SingleBar.marker());
        lemma_dialect(d);
        assert(i < t.len());
        assert(tag_at(t, i, ts) == 0);
        assert(starts_at(t, i, ts[0]) || starts_at(t, i, ts[1]));
    }
}

proof fn lemma_tags_start_with_marker(t: Seq<char>, i: int, d: DsmlDialect)
    ensures
        starts_at(t, i, d.invoke_open()) ==> starts_at(t, i, d.marker()),
        starts_at(t, i, d.calls_open()) ==> starts_at(t, i, d.marker()),
{
    reveal_strlit("<｜｜DSML｜｜");
    reveal_strlit("<｜DSML｜");
    reveal_strlit("<｜｜DSML｜｜invoke");
    reveal_strlit("<｜DSML｜invoke");
    reveal_strlit("<｜｜DSML｜｜tool_calls>");
    reveal_strlit("<｜DSML｜tool_calls>");
    let m = d.marker();
    assert(d.invoke_open().take(m.len() as int) =~= m);
    assert(d.calls_open().take(m.len() as int) =~= m);
    if starts_at(t, i, d.invoke_open()) {
        let q = d.invoke_open();
        assert(t.subrange(i, i + m.len()) =~= t.subrange(i, i + q.len()).take(m.len() as int));
    }
    if starts_at(t, i, d.calls_open()) {
        let q = d.calls_open();
        assert(t.subrange(i, i + m.len()) =~= t.subrange(i, i + q.len()).take(m.len() as int));
    }
}

/// No call starts before the first marker.
proof fn lemma_no_call_before_marker(t: Seq<char>, i: int, n: int)
    requires
        0 <= i <= n <= t.len(),
        match first_marker(t, 0, dsml_markers()) {
            Some((at, _)) => n <= at,
            None => true,
        },
    ensures
        next_invoke(t, i) == next_invoke(t, n),
    decreases n - i,
{
    if i < n {
        lemma_no_marker_no_tag(t, i, DsmlDialect::DoubleBar);
        lemma_no_marker_no_tag(t, i, DsmlDialect::SingleBar);
        lemma_tags_start_with_marker(t, i, DsmlDialect::DoubleBar);
        lemma_tags_start_with_marker(t, i, DsmlDialect::SingleBar);
        lemma_no_call_before_marker(t, i + 1, n);
    }
}

proof fn lemma_extract_from(t: Seq<char>, a: int, b: int, copied: int, done: Extracted)
    requires
        0 <= copied <= a <= b,
        next_invoke(t, a) == next_invoke(t, b),
    ensures
        extract(t, a, copied, done) == extract(t, b, copied, done),
{
}

/// Calls are read out of a text as they are read out of its part from the
/// first marker on; what stands before the marker stays in front.
pub proof fn calls_start_at_the_marker(t: Seq<char>, n: int)
    requires
        0 <= n <= t.len(),
        match first_marker(t, 0, dsml_markers()) {
            Some((at, _)) => n <= at,
            None => true,
        },
    ensures
        extract_all(t).calls == extract_all(t.skip(n)).calls,
        extract_all(t).text == t.take(n) + extract_all(t.skip(n)).text,
{
    let p = t.take(n);
    let c = t.skip(n);
    let none = Extracted { text: Seq::empty(), calls: Seq::empty() };
    assert(p + c =~= t);
    lemma_no_call_before_marker(t, 0, n);
    lemma_extract_from(t, 0, n, 0, none);
    lemma_copy_early(t, n, 0, n, none);
    assert(none.text + t.subrange(0, n) =~= p + none.text);
    let front = Extracted { text: p + none.text, calls: none.calls };
    shift_extract(p, c, 0, 0, front);
    lemma_done_in_front(p, c, 0, 0, none);
}

/// An envelope, `n` further on.
pub open spec fn moved_span(x: Option<(int, int)>, n: int) -> Option<(int, int)> {
    match x {
        Some((a, b)) => Some((n + a, n + b)),
        None => None,
    }
}

/// Whether putting `p` in front of `x` makes no new markup: as empty envelopes
/// are taken out of `x` one by one, the next one found in `x` is always the
/// next one found in `p + x`.
pub open spec fn unjoined(p: Seq<char>, x: Seq<char>) -> bool
    decreases x.len(),
{
    let n = p.len() as int;
    let twice = empty_envelope(x, 0, DsmlDialect::DoubleBar);
    let once = empty_envelope(x, 0, DsmlDialect::SingleBar);
    proof {
        lemma_empty_envelope(x, 0, DsmlDialect::DoubleBar);
        lemma_empty_envelope(x, 0, DsmlDialect::SingleBar);
    }
    &&& empty_envelope(p + x, 0, DsmlDialect::DoubleBar) == moved_span(twice, n)
    &&& match twice {
        Some((a, b)) => unjoined(p, without(x, a, b)),
        None => empty_envelope(p + x, 0, DsmlDialect::SingleBar) == moved_span(once, n) && match once {
            Some((a, b)) => unjoined(p, without(x, a, b)),
            None => true,
        },
    }
}

proof fn lemma_stripped_behind(p: Seq<char>, x: Seq<char>)
    requires
        unjoined(p, x),
    ensures
        stripped(p + x) == p + stripped(x),
    decreases x.len(),
{
    let n = p.len() as int;
    lemma_empty_envelope(x, 0, DsmlDialect::DoubleBar);
    lemma_empty_envelope(x, 0, DsmlDialect::SingleBar);
    match empty_envelope(x, 0, DsmlDialect::DoubleBar) {
        Some((a, b)) => {
            assert(without(p + x, n + a, n + b) =~= p + without(x, a, b));
            lemma_stripped_behind(p, without(x, a, b));
        },
        None => {
            if let Some((a, b)) = empty_envelope(x, 0, DsmlDialect::SingleBar) {
                assert(without(p + x, n + a, n + b) =~= p + without(x, a, b));
                lemma_stripped_behind(p, without(x, a, b));
            }
        },
    }
}

/// What is visible of a text after healing it as a whole, and its calls.
pub open spec fn healed_whole(t: Seq<char>) -> (Seq<char>, Seq<CallV>) {
    match leaked(t) {
        Some((visible, calls)) => (visible, calls),
        None => (t, Seq::empty()),
    }
}

/// What is visible of a text after healing it as a stream, and its calls.
pub open spec fn healed_stream(t: Seq<char>) -> (Seq<char>, Seq<CallV>) {
    let st = DsmlState::fresh(true);
    (st.emits(t) + st.after(t).rest().0, st.after(t).rest().1)
}

/// Healing a stream gives the visible text and the calls that healing the
/// whole text gives, unless taking out markup joins what stands around it to
/// new markup. How the stream is cut does not matter: see
/// [`crate::heal::dsml::chunk_boundaries_do_not_matter`].
pub proof fn streaming_matches_blocking(t: Seq<char>)
    requires
        first_marker(t, 0, dsml_markers()) matches Some((at, _)) ==> unjoined(
            t.take(at),
            extract_all(t.skip(at)).text,
        ),
    ensures
        healed_stream(t) == healed_whole(t),
{
    let st = DsmlState::fresh(true);
    assert(st.pending + t =~= t);
    lemma_safe_len(t);
    let n = safe_len(t);
    assert(t.take(n) + t.skip(n) =~= t);
    match first_marker(t, 0, dsml_markers()) {
        Some((at, _)) => {
            calls_start_at_the_marker(t, at);
            lemma_stripped_behind(t.take(at), extract_all(t.skip(at)).text);
        },
        None => {
            calls_start_at_the_marker(t, t.len() as int);
            let none = Seq::<char>::empty();
            assert(t.skip(t.len() as int) =~= none);
            assert(next_invoke(none, 0) is None);
        },
    }
}

proof fn lemma_no_tag_before(p: Seq<char>, x: Seq<char>, i: int, d: DsmlDialect)
    requires
        0 <= i < p.len(),
        first_marker(p, 0, dsml_markers()) is None,
        withheld(p, dsml_markers()) == 0,
    ensures
        !starts_at(p + x, i, d.marker()),
{
    let m = d.marker();
    let t = p + x;
    let ts = dsml_markers();
    if starts_at(t, i, m) {
        assert(ts[0] == DsmlDialect::DoubleBar.marker());
        assert(ts[1] == DsmlDialect::SingleBar.marker());
        if i + m.len() <= p.len() {
            assert(p.subrange(i, i + m.len()) =~= t.subrange(i, i + m.len()));
            lemma_no_marker_no_tag(p, i, d);
        } else {
            let k = p.len() - i;
            assert(p.subrange(p.len() - k, p.len() as int) =~= m.take(k)) by {
                assert(t.subrange(i, i + m.len()) == m);
                assert forall|j: int| 0 <= j < k implies p[i + j] == m[j] by {
                    assert(t.subrange(i, i + m.len())[j] == t[i + j]);
                }
            }
            assert(ends_in_prefix(p, m, k));
            assert(ends_in_prefix(p, ts[0], k) || ends_in_prefix(p, ts[1], k));
            assert(could_grow(p, ts, k));
            lemma_longest_growing(p, ts, p.len() as int);
        }
    }
}

proof fn shift_find_all(p: Seq<char>, x: Seq<char>, i: int, d: DsmlDialect)
    requires
        0 <= i <= p.len(),
        first_marker(p, 0, dsml_markers()) is None,
        withheld(p, dsml_markers()) == 0,
    ensures
        find_from(p + x, i, d.calls_open()) == moved(
            find_from(x, 0, d.calls_open()),
            p.len() as int,
        ),
    decreases p.len() - i,
{
    if i < p.len() {
        lemma_no_tag_before(p, x, i, d);
        lemma_tags_start_with_marker(p + x, i, d);
        shift_find_all(p, x, i + 1, d);
    } else {
        shift_find_from(p, x, 0, d.calls_open());
    }
}

proof fn shift_empty_envelope(p: Seq<char>, x: Seq<char>, i: int, d: DsmlDialect)
    requires
        0 <= i,
    ensures
        empty_envelope(p + x, p.len() + i, d) == moved_span(
            empty_envelope(x, i, d),
            p.len() as int,
        ),
    decreases x.len() - i,
{
    let t = p + x;
    let n = p.len() as int;
    if i <= x.len() {
        lemma_dialect(d);
        shift_find_from(p, x, i, d.calls_open());
        lemma_find_from(x, i, d.calls_open());
        if let Some(open) = find_from(x, i, d.calls_open()) {
            let inner = open + d.calls_open().len();
            shift_find_from(p, x, inner, d.calls_close());
            lemma_find_from(x, inner, d.calls_close());
            if let Some(close) = find_from(x, inner, d.calls_close()) {
                assert(t.subrange(n + inner, n + close) =~= x.subrange(inner, close));
                shift_empty_envelope(p, x, close + d.calls_close().len(), d);
            }
        }
    }
}

proof fn lemma_same_envelope(p: Seq<char>, x: Seq<char>, d: DsmlDialect)
    requires
        first_marker(p, 0, dsml_markers()) is None,
        withheld(p, dsml_markers()) == 0,
    ensures
        empty_envelope(p + x, 0, d) == moved_span(empty_envelope(x, 0, d), p.len() as int),
{
    shift_find_all(p, x, 0, d);
    shift_empty_envelope(p, x, 0, d);
    shift_find_from(p, x, 0, d.calls_open());
}

/// Text that holds no marker and does not end in the beginning of one joins
/// nothing to markup, whatever follows it.
pub proof fn plain_text_joins_nothing(p: Seq<char>, x: Seq<char>)
    requires
        first_marker(p, 0, dsml_markers()) is None,
        withheld(p, dsml_markers()) == 0,
    ensures
        unjoined(p, x),
    decreases x.len(),
{
    lemma_same_envelope(p, x, DsmlDialect::DoubleBar);
    lemma_same_envelope(p, x, DsmlDialect::SingleBar);
    lemma_empty_envelope(x, 0, DsmlDialect::DoubleBar);
    lemma_empty_envelope(x, 0, DsmlDialect::SingleBar);
    match empty_envelope(x, 0, DsmlDialect::DoubleBar) {
        Some((a, b)) => {
            plain_text_joins_nothing(p, without(x, a, b));
        },
        None => {
            if let Some((a, b)) = empty_envelope(x, 0, DsmlDialect::SingleBar) {
                plain_text_joins_nothing(p, without(x, a, b));
            }
        },
    }
}

} // verus!
