//! What tool-call markup means: a call that is written out is read back with its
//! name and every one of its arguments.

use crate::heal::dsml::{
    attribute, attributes, dsml_healed, empty_envelope, extract, extract_all, found_before, invoke,
    invoke_at, key_end, leaked, next_invoke, open_tag, parameter, parameter_value_of, parameters,
    quoted, skip_ws, stripped, tag_name_end, CallV, DsmlDialect, Extracted, TagV,
};
use crate::heal::markers::lemma_starts_at_chars;
use crate::json::{json_text, JsonV};
use crate::laws::healing::{healed_messages_call_what_leaked, is_tool_call};
use crate::text::{find_from, is_ws, lemma_find_from, starts_at};
use crate::wire::chat::ChatMessageV;
use vstd::prelude::*;

verus! {

/// An attribute, written out.
pub open spec fn written_attribute(key: Seq<char>, value: Seq<char>) -> Seq<char> {
    key + "=\""@ + value + "\""@
}

/// A parameter that is a text, written out.
pub open spec fn written_parameter(d: DsmlDialect, key: Seq<char>, value: Seq<char>) -> Seq<char> {
    d.marker() + "parameter"@ + " "@ + written_attribute("name"@, key) + " "@ + written_attribute(
        "string"@,
        "true"@,
    ) + ">"@ + value + d.parameter_close()
}

/// Parameters that are texts, written out one behind the other.
pub open spec fn written_parameters(
    d: DsmlDialect,
    ps: Seq<(Seq<char>, Seq<char>)>,
) -> Seq<char>
    decreases ps.len(),
{
    if ps.len() == 0 {
        Seq::empty()
    } else {
        written_parameter(d, ps[0].0, ps[0].1) + written_parameters(d, ps.drop_first())
    }
}

/// A call, written out.
pub open spec fn written_call(
    d: DsmlDialect,
    name: Seq<char>,
    ps: Seq<(Seq<char>, Seq<char>)>,
) -> Seq<char> {
    d.marker() + "invoke"@ + " "@ + written_attribute("name"@, name) + ">"@ + written_parameters(
        d,
        ps,
    ) + d.invoke_close()
}

/// Whether a text can stand in quotes as it is.
pub open spec fn is_bare(t: Seq<char>) -> bool {
    forall|i: int| 0 <= i < t.len() ==> #[trigger] t[i] != '"' && t[i] != '\\'
}

/// Whether a text holds no `<`.
pub open spec fn is_free(t: Seq<char>) -> bool {
    forall|i: int| 0 <= i < t.len() ==> #[trigger] t[i] != '<'
}

/// Whether parameters can be written out: their names are distinct, not empty
/// and bare, and their values hold no markup.
pub open spec fn can_be_written(ps: Seq<(Seq<char>, Seq<char>)>) -> bool {
    &&& forall|i: int|
        0 <= i < ps.len() ==> (#[trigger] ps[i]).0.len() > 0 && is_bare(ps[i].0) && is_free(ps[i].1)
    &&& forall|i: int, j: int|
        0 <= i < j < ps.len() ==> (#[trigger] ps[i]).0 != (#[trigger] ps[j]).0
}

proof fn lemma_split(t: Seq<char>, i: int, x: Seq<char>, y: Seq<char>)
    requires
        starts_at(t, i, x + y),
    ensures
        starts_at(t, i, x),
        starts_at(t, i + x.len(), y),
{
    let w = t.subrange(i, i + (x + y).len());
    assert(t.subrange(i, i + x.len()) =~= w.subrange(0, x.len() as int));
    assert((x + y).subrange(0, x.len() as int) =~= x);
    assert(t.subrange(i + x.len(), i + x.len() + y.len()) =~= w.subrange(
        x.len() as int,
        (x + y).len() as int,
    ));
    assert((x + y).subrange(x.len() as int, (x + y).len() as int) =~= y);
}

proof fn lemma_key_at(t: Seq<char>, i: int, e: int)
    requires
        0 <= i <= e < t.len(),
        t[e] == '=',
        forall|j: int|
            i <= j < e ==> !is_ws(#[trigger] t[j]) && t[j] != '=' && t[j] != '/' && t[j] != '>',
    ensures
        key_end(t, i) == Some(e),
    decreases e - i,
{
    if i < e {
        lemma_key_at(t, i + 1, e);
    }
}

proof fn lemma_quoted_at(t: Seq<char>, i: int, e: int, read: Seq<char>)
    requires
        0 <= i <= e < t.len(),
        t[e] == '"',
        forall|j: int| i <= j < e ==> #[trigger] t[j] != '"' && t[j] != '\\',
    ensures
        quoted(t, i, read) == Some((read + t.subrange(i, e), e + 1)),
    decreases e - i,
{
    if i < e {
        lemma_quoted_at(t, i + 1, e, read.push(t[i]));
        assert(read.push(t[i]) + t.subrange(i + 1, e) =~= read + t.subrange(i, e));
    } else {
        assert(read + t.subrange(i, e) =~= read);
    }
}

proof fn lemma_name_at(t: Seq<char>, i: int, e: int)
    requires
        0 <= i <= e < t.len(),
        t[e] == ' ',
        forall|j: int| i <= j < e ==> !is_ws(#[trigger] t[j]) && t[j] != '/' && t[j] != '>',
    ensures
        tag_name_end(t, i) == e,
    decreases e - i,
{
    if i < e {
        lemma_name_at(t, i + 1, e);
    }
}

/// Whether a text can be a key: it is not empty and holds nothing that ends one.
spec fn is_key(key: Seq<char>) -> bool {
    key.len() > 0 && forall|j: int|
        0 <= j < key.len() ==> !is_ws(#[trigger] key[j]) && key[j] != '=' && key[j] != '/' && key[j]
            != '>'
}

proof fn lemma_attribute_at(t: Seq<char>, k: int, key: Seq<char>, value: Seq<char>)
    requires
        starts_at(t, k, written_attribute(key, value)),
        is_key(key),
        is_bare(value),
    ensures
        attribute(t, k) == Some((key, value, k + written_attribute(key, value).len())),
        t[k] == key[0],
{
    reveal_strlit("=\"");
    reveal_strlit("\"");
    let eq = "=\""@;
    let q = "\""@;
    assert(eq.len() == 2 && eq[0] == '=' && eq[1] == '"');
    assert(q.len() == 1 && q[0] == '"');
    lemma_split(t, k, key + eq + value, q);
    lemma_split(t, k, key + eq, value);
    lemma_split(t, k, key, eq);
    let e = k + key.len();
    lemma_starts_at_chars(t, k, key);
    lemma_starts_at_chars(t, e, eq);
    lemma_starts_at_chars(t, e + 2, value);
    lemma_starts_at_chars(t, e + 2 + value.len(), q);
    assert(t[e + 0] == eq[0] && t[e + 1] == eq[1]);
    assert(t[k + 0] == key[0]);
    assert(t[e + 2 + value.len() + 0] == q[0]);
    assert forall|j: int| k <= j < e implies !is_ws(#[trigger] t[j]) && t[j] != '=' && t[j] != '/'
        && t[j] != '>' by {
        assert(t[k + (j - k)] == key[j - k]);
    }
    lemma_key_at(t, k, e);
    assert forall|j: int| e + 2 <= j < e + 2 + value.len() implies #[trigger] t[j] != '"' && t[j]
        != '\\' by {
        assert(t[e + 2 + (j - e - 2)] == value[j - e - 2]);
    }
    lemma_quoted_at(t, e + 2, e + 2 + value.len(), Seq::empty());
    assert(t.subrange(e + 2, e + 2 + value.len()) =~= value);
    assert(Seq::<char>::empty() + value =~= value);
    assert(t.subrange(k, e) =~= key);
    assert(skip_ws(t, e) == e);
    assert(skip_ws(t, e + 1) == e + 1);
}

proof fn lemma_tag_start(t: Seq<char>, s: int, d: DsmlDialect, tag: Seq<char>, rest: Seq<char>)
    requires
        starts_at(t, s, d.marker() + tag + " "@ + rest),
        is_key(tag),
        rest.len() > 0,
        !is_ws(rest[0]),
    ensures
        starts_at(t, s, d.marker()),
        tag_name_end(t, s + d.marker().len()) == s + d.marker().len() + tag.len(),
        t.subrange(s + d.marker().len(), s + d.marker().len() + tag.len()) == tag,
        skip_ws(t, s + d.marker().len() + tag.len()) == s + d.marker().len() + tag.len() + 1,
        starts_at(t, s + d.marker().len() + tag.len() + 1, rest),
{
    reveal_strlit(" ");
    let m = d.marker();
    let sp = " "@;
    assert(sp.len() == 1 && sp[0] == ' ');
    lemma_split(t, s, m + tag + sp, rest);
    lemma_split(t, s, m + tag, sp);
    lemma_split(t, s, m, tag);
    let ns = s + m.len();
    let ne = ns + tag.len();
    lemma_starts_at_chars(t, ns, tag);
    lemma_starts_at_chars(t, ne, sp);
    lemma_starts_at_chars(t, ne + 1, rest);
    assert(t[ne + 0] == sp[0]);
    assert(t[ne + 1 + 0] == rest[0]);
    assert forall|j: int| ns <= j < ne implies !is_ws(#[trigger] t[j]) && t[j] != '/' && t[j]
        != '>' by {
        assert(t[ns + (j - ns)] == tag[j - ns]);
    }
    lemma_name_at(t, ns, ne);
    assert(t.subrange(ns, ne) =~= tag);
    assert(skip_ws(t, ne + 1) == ne + 1);
}

proof fn lemma_call_tag(t: Seq<char>, s: int, d: DsmlDialect, name: Seq<char>)
    requires
        starts_at(
            t,
            s,
            d.marker() + "invoke"@ + " "@ + (written_attribute("name"@, name) + ">"@),
        ),
        is_bare(name),
    ensures
        open_tag(t, s, d) == Some(
            TagV {
                name: "invoke"@,
                attrs: Map::empty().insert("name"@, name),
                self_closing: false,
                end: s + d.marker().len() + 7 + written_attribute("name"@, name).len() + 1,
            },
        ),
{
    reveal_strlit("invoke");
    reveal_strlit("name");
    reveal_strlit(">");
    let tag = "invoke"@;
    let key = "name"@;
    let gt = ">"@;
    assert(tag.len() == 6 && key.len() == 4 && gt.len() == 1 && gt[0] == '>');
    assert(is_key(tag));
    assert(is_key(key));
    let w = written_attribute(key, name);
    assert(w[0] == key[0]);
    lemma_tag_start(t, s, d, tag, w + gt);
    let k = s + d.marker().len() + 7;
    lemma_split(t, k, w, gt);
    lemma_attribute_at(t, k, key, name);
    let end = k + w.len();
    lemma_starts_at_chars(t, end, gt);
    assert(t[end + 0] == gt[0]);
    assert(skip_ws(t, end) == end);
    let empty = Map::<Seq<char>, Seq<char>>::empty();
    assert(attributes(t, end, tag, empty.insert(key, name)) == Some(
        TagV { name: tag, attrs: empty.insert(key, name), self_closing: false, end: end + 1 },
    ));
    assert(attributes(t, k - 1, tag, empty) == attributes(t, end, tag, empty.insert(key, name)));
}

proof fn lemma_parameter_tag(t: Seq<char>, s: int, d: DsmlDialect, key: Seq<char>)
    requires
        starts_at(
            t,
            s,
            d.marker() + "parameter"@ + " "@ + (written_attribute("name"@, key) + " "@
                + written_attribute("string"@, "true"@) + ">"@),
        ),
        is_bare(key),
    ensures
        open_tag(t, s, d) == Some(
            TagV {
                name: "parameter"@,
                attrs: Map::empty().insert("name"@, key).insert("string"@, "true"@),
                self_closing: false,
                end: s + d.marker().len() + 10 + written_attribute("name"@, key).len() + 1
                    + written_attribute("string"@, "true"@).len() + 1,
            },
        ),
{
    reveal_strlit("parameter");
    reveal_strlit("name");
    reveal_strlit("string");
    reveal_strlit("true");
    reveal_strlit(" ");
    reveal_strlit(">");
    let tag = "parameter"@;
    let name = "name"@;
    let string = "string"@;
    let yes = "true"@;
    let gt = ">"@;
    let sp = " "@;
    assert(tag.len() == 9 && name.len() == 4 && string.len() == 6 && yes.len() == 4);
    assert(gt.len() == 1 && gt[0] == '>' && sp.len() == 1 && sp[0] == ' ');
    assert(is_key(tag));
    assert(is_key(name));
    assert(is_key(string));
    assert(is_bare(yes));
    let w = written_attribute(name, key);
    let u = written_attribute(string, yes);
    assert(w[0] == name[0]);
    assert(u[0] == string[0]);
    lemma_tag_start(t, s, d, tag, w + sp + u + gt);
    let k = s + d.marker().len() + 10;
    lemma_split(t, k, w + sp + u, gt);
    lemma_split(t, k, w + sp, u);
    lemma_split(t, k, w, sp);
    lemma_attribute_at(t, k, name, key);
    let a = k + w.len();
    lemma_starts_at_chars(t, a, sp);
    assert(t[a + 0] == sp[0]);
    lemma_attribute_at(t, a + 1, string, yes);
    let end = a + 1 + u.len();
    lemma_starts_at_chars(t, end, gt);
    assert(t[end + 0] == gt[0]);
    assert(skip_ws(t, a + 1) == a + 1);
    assert(skip_ws(t, a) == a + 1);
    assert(skip_ws(t, end) == end);
    let empty = Map::<Seq<char>, Seq<char>>::empty();
    let one = empty.insert(name, key);
    let two = one.insert(string, yes);
    assert(!one.dom().contains(string));
    assert(attributes(t, end, tag, two) == Some(
        TagV { name: tag, attrs: two, self_closing: false, end: end + 1 },
    ));
    assert(attributes(t, a, tag, one) == attributes(t, end, tag, two));
    assert(attributes(t, k - 1, tag, empty) == attributes(t, a, tag, one));
}

proof fn lemma_marks(d: DsmlDialect)
    ensures
        d.marker().len() >= 7,
        d.marker()[0] == '<',
        d.marker()[1] == '｜',
        d.parameter_close().len() > 2,
        d.parameter_close()[0] == '<',
        d.invoke_close().len() > 2,
        d.invoke_close()[0] == '<',
        d.invoke_close()[1] == '/',
        d.invoke_open() == d.marker() + "invoke"@,
        d is SingleBar ==> d.marker()[2] == 'D',
        d is DoubleBar ==> d.marker()[2] == '｜',
        DsmlDialect::DoubleBar.invoke_open().len() > 2,
        DsmlDialect::DoubleBar.invoke_open()[2] == '｜',
        DsmlDialect::DoubleBar.invoke_open()[0] == '<',
        DsmlDialect::SingleBar.invoke_open().len() > 2,
        DsmlDialect::SingleBar.invoke_open()[0] == '<',
        d.calls_open().len() > 1,
        d.calls_open()[0] == '<',
{
    reveal_strlit("<｜｜DSML｜｜");
    reveal_strlit("<｜DSML｜");
    reveal_strlit("<｜｜DSML｜｜invoke");
    reveal_strlit("<｜DSML｜invoke");
    reveal_strlit("</｜｜DSML｜｜invoke>");
    reveal_strlit("</｜DSML｜invoke>");
    reveal_strlit("</｜｜DSML｜｜parameter>");
    reveal_strlit("</｜DSML｜parameter>");
    reveal_strlit("<｜｜DSML｜｜tool_calls>");
    reveal_strlit("<｜DSML｜tool_calls>");
    reveal_strlit("invoke");
    assert("<｜｜DSML｜｜invoke"@ =~= "<｜｜DSML｜｜"@ + "invoke"@);
    assert("<｜DSML｜invoke"@ =~= "<｜DSML｜"@ + "invoke"@);
}

proof fn lemma_find_behind(t: Seq<char>, i: int, value: Seq<char>, p: Seq<char>)
    requires
        0 <= i,
        starts_at(t, i, value + p),
        is_free(value),
        p.len() > 0,
        p[0] == '<',
    ensures
        find_from(t, i, p) == Some(i + value.len()),
{
    lemma_split(t, i, value, p);
    lemma_starts_at_chars(t, i, value);
    lemma_find_from(t, i, p);
    let at = i + value.len();
    assert forall|j: int| i <= j < at implies !starts_at(t, j, p) by {
        if starts_at(t, j, p) {
            lemma_starts_at_chars(t, j, p);
            assert(t[j + 0] == p[0]);
            assert(t[i + (j - i)] == value[j - i]);
        }
    }
}

proof fn lemma_none_before(t: Seq<char>, i: int, value: Seq<char>, p: Seq<char>)
    requires
        0 <= i,
        starts_at(t, i, value),
        is_free(value),
        p.len() > 0,
        p[0] == '<',
    ensures
        !found_before(find_from(t, i, p), i + value.len()),
{
    lemma_find_from(t, i, p);
    lemma_starts_at_chars(t, i, value);
    if let Some(at) = find_from(t, i, p) {
        if at < i + value.len() {
            lemma_starts_at_chars(t, at, p);
            assert(t[at + 0] == p[0]);
            assert(t[i + (at - i)] == value[at - i]);
        }
    }
}

/// A parameter that is written out is read back: its name, and its value as the
/// text that it is.
proof fn lemma_parameter_at(
    t: Seq<char>,
    s: int,
    d: DsmlDialect,
    key: Seq<char>,
    value: Seq<char>,
)
    requires
        0 <= s,
        starts_at(t, s, written_parameter(d, key, value)),
        is_bare(key),
        is_free(value),
    ensures
        open_tag(t, s, d) matches Some(tag) && tag.attr("name"@) == Some(key) && parameter(
            t,
            tag,
            d,
        ) == Some((JsonV::Str(value), s + written_parameter(d, key, value).len())),
{
    lemma_marks(d);
    let w = written_attribute("name"@, key) + " "@ + written_attribute("string"@, "true"@) + ">"@;
    let head = d.marker() + "parameter"@ + " "@ + w;
    let tail = value + d.parameter_close();
    assert(written_parameter(d, key, value) =~= head + tail);
    lemma_split(t, s, head, tail);
    lemma_parameter_tag(t, s, d, key);
    let tag = open_tag(t, s, d)->0;
    reveal_strlit("name");
    reveal_strlit("string");
    reveal_strlit("parameter");
    reveal_strlit("invoke");
    reveal_strlit(" ");
    reveal_strlit(">");
    assert("name"@.len() == 4 && "string"@.len() == 6);
    assert("parameter"@.len() == 9 && "invoke"@.len() == 6 && " "@.len() == 1 && ">"@.len() == 1);
    assert(tag.end == s + head.len());
    lemma_split(t, tag.end, value, d.parameter_close());
    lemma_find_behind(t, tag.end, value, d.parameter_close());
    lemma_none_before(t, tag.end, value, d.marker());
    lemma_none_before(t, tag.end, value, d.invoke_close());
    assert(t.subrange(tag.end, tag.end + value.len()) =~= value);
    assert(tag.attr("string"@) == Some("true"@));
}

/// Arguments with parameters put in one by one.
pub open spec fn with_arguments(
    args: Map<Seq<char>, JsonV>,
    ps: Seq<(Seq<char>, Seq<char>)>,
) -> Map<Seq<char>, JsonV>
    decreases ps.len(),
{
    if ps.len() == 0 {
        args
    } else {
        with_arguments(args.insert(ps[0].0, JsonV::Str(ps[0].1)), ps.drop_first())
    }
}

proof fn lemma_parameters_at(
    t: Seq<char>,
    i: int,
    d: DsmlDialect,
    args: Map<Seq<char>, JsonV>,
    ps: Seq<(Seq<char>, Seq<char>)>,
)
    requires
        0 <= i,
        starts_at(t, i, written_parameters(d, ps) + d.invoke_close()),
        can_be_written(ps),
        forall|k: int| 0 <= k < ps.len() ==> !args.dom().contains((#[trigger] ps[k]).0),
    ensures
        parameters(t, i, d, args) == Some(
            (
                i + written_parameters(d, ps).len() + d.invoke_close().len(),
                with_arguments(args, ps),
            ),
        ),
    decreases ps.len(),
{
    lemma_marks(d);
    let close = d.invoke_close();
    if ps.len() == 0 {
        assert(written_parameters(d, ps) + close =~= close);
        lemma_starts_at_chars(t, i, close);
        assert(t[i + 0] == close[0]);
        assert(skip_ws(t, i) == i);
    } else {
        let (key, value) = ps[0];
        let rest = ps.drop_first();
        let w = written_parameter(d, key, value);
        assert(written_parameters(d, ps) + close =~= w + (written_parameters(d, rest) + close));
        lemma_split(t, i, w, written_parameters(d, rest) + close);
        lemma_parameter_at(t, i, d, key, value);
        lemma_starts_at_chars(t, i, w);
        assert(w[0] == d.marker()[0] && w[1] == d.marker()[1]);
        assert(t[i + 0] == w[0] && t[i + 1] == w[1]);
        assert(skip_ws(t, i) == i);
        if starts_at(t, i, close) {
            lemma_starts_at_chars(t, i, close);
            assert(t[i + 1] == close[1]);
        }
        let more = args.insert(key, JsonV::Str(value));
        assert forall|k: int| 0 <= k < rest.len() implies (#[trigger] rest[k]).0.len() > 0
            && is_bare(rest[k].0) && is_free(rest[k].1) && !more.dom().contains(rest[k].0) by {
            assert(rest[k] == ps[k + 1]);
            assert(ps[0].0 != ps[k + 1].0);
        }
        assert forall|a: int, b: int| 0 <= a < b < rest.len() implies (#[trigger] rest[a]).0 != (
        #[trigger] rest[b]).0 by {
            assert(rest[a] == ps[a + 1] && rest[b] == ps[b + 1]);
        }
        lemma_parameters_at(t, i + w.len(), d, more, rest);
    }
}

proof fn lemma_arguments(args: Map<Seq<char>, JsonV>, ps: Seq<(Seq<char>, Seq<char>)>)
    requires
        can_be_written(ps),
    ensures
        forall|k: int|
            0 <= k < ps.len() ==> with_arguments(args, ps).dom().contains((#[trigger] ps[k]).0)
                && with_arguments(args, ps)[ps[k].0] == JsonV::Str(ps[k].1),
        forall|x: Seq<char>|
            !#[trigger] is_named(ps, x) ==> (with_arguments(args, ps).dom().contains(x)
                <==> args.dom().contains(x)) && (args.dom().contains(x) ==> with_arguments(
                args,
                ps,
            )[x] == args[x]),
    decreases ps.len(),
{
    if ps.len() > 0 {
        let rest = ps.drop_first();
        let more = args.insert(ps[0].0, JsonV::Str(ps[0].1));
        assert forall|k: int| 0 <= k < rest.len() implies (#[trigger] rest[k]).0.len() > 0
            && is_bare(rest[k].0) && is_free(rest[k].1) && rest[k].0 != ps[0].0 by {
            assert(rest[k] == ps[k + 1]);
        }
        assert forall|a: int, b: int| 0 <= a < b < rest.len() implies (#[trigger] rest[a]).0 != (
        #[trigger] rest[b]).0 by {
            assert(rest[a] == ps[a + 1] && rest[b] == ps[b + 1]);
        }
        lemma_arguments(more, rest);
        let all = with_arguments(args, ps);
        assert forall|k: int| 0 <= k < ps.len() implies all.dom().contains((#[trigger] ps[k]).0)
            && all[ps[k].0] == JsonV::Str(ps[k].1) by {
            if k > 0 {
                assert(rest[k - 1] == ps[k]);
            } else {
                assert(!is_named(rest, ps[0].0));
            }
        }
        assert forall|x: Seq<char>| !#[trigger] is_named(ps, x) implies (all.dom().contains(x)
            <==> args.dom().contains(x)) && (args.dom().contains(x) ==> all[x] == args[x]) by {
            if is_named(rest, x) {
                let k = choose|k: int| 0 <= k < rest.len() && (#[trigger] rest[k]).0 == x;
                assert(ps[k + 1] == rest[k]);
            }
            assert(ps[0].0 != x);
        }
    }
}

/// Whether one of the parameters has that name.
pub open spec fn is_named(ps: Seq<(Seq<char>, Seq<char>)>, x: Seq<char>) -> bool {
    exists|k: int| 0 <= k < ps.len() && (#[trigger] ps[k]).0 == x
}

/// Whether arguments are exactly the given parameters, each under its name.
pub open spec fn are_arguments(m: Map<Seq<char>, JsonV>, ps: Seq<(Seq<char>, Seq<char>)>) -> bool {
    &&& forall|k: int|
        0 <= k < ps.len() ==> m.dom().contains((#[trigger] ps[k]).0) && m[ps[k].0] == JsonV::Str(
            ps[k].1,
        )
    &&& forall|x: Seq<char>| #[trigger]
        m.dom().contains(x) ==> is_named(ps, x)
}

proof fn lemma_invoke_at(
    t: Seq<char>,
    s: int,
    d: DsmlDialect,
    name: Seq<char>,
    ps: Seq<(Seq<char>, Seq<char>)>,
)
    requires
        0 <= s,
        starts_at(t, s, written_call(d, name, ps)),
        name.len() > 0,
        is_bare(name),
        can_be_written(ps),
    ensures
        invoke(t, s, d) == Some(
            (
                s + written_call(d, name, ps).len(),
                CallV {
                    name,
                    arguments: json_text(JsonV::Obj(with_arguments(Map::empty(), ps))),
                },
            ),
        ),
        invoke_at(t, s, d),
        t[s] == '<',
        t[s + 2] == d.marker()[2],
{
    lemma_marks(d);
    reveal_strlit("name");
    reveal_strlit("invoke");
    reveal_strlit(" ");
    reveal_strlit(">");
    assert("name"@.len() == 4 && "invoke"@.len() == 6 && " "@.len() == 1 && ">"@.len() == 1);
    assert(" "@[0] == ' ');
    let head = d.marker() + "invoke"@ + " "@ + (written_attribute("name"@, name) + ">"@);
    let tail = written_parameters(d, ps) + d.invoke_close();
    assert(written_call(d, name, ps) =~= head + tail);
    lemma_split(t, s, head, tail);
    lemma_call_tag(t, s, d, name);
    let tag = open_tag(t, s, d)->0;
    assert(tag.end == s + head.len());
    lemma_parameters_at(t, tag.end, d, Map::empty(), ps);
    assert(tag.attr("name"@) == Some(name));
    let rest = " "@ + (written_attribute("name"@, name) + ">"@);
    assert(head =~= d.marker() + "invoke"@ + rest);
    lemma_split(t, s, d.marker() + "invoke"@, rest);
    let after = s + d.invoke_open().len();
    lemma_starts_at_chars(t, after, rest);
    assert(rest[0] == ' ');
    assert(t[after + 0] == rest[0]);
    lemma_starts_at_chars(t, s, d.invoke_open());
    assert(d.invoke_open()[0] == d.marker()[0] && d.invoke_open()[2] == d.marker()[2]);
    assert(t[s + 0] == d.invoke_open()[0] && t[s + 2] == d.invoke_open()[2]);
    assert(is_ws(' '));
}

proof fn lemma_no_invoke(t: Seq<char>, i: int, end: int)
    requires
        0 <= i <= end <= t.len(),
        forall|j: int| i <= j < end ==> #[trigger] t[j] != '<',
    ensures
        next_invoke(t, i) == next_invoke(t, end),
    decreases end - i,
{
    if i < end {
        lemma_marks(DsmlDialect::DoubleBar);
        lemma_marks(DsmlDialect::SingleBar);
        if invoke_at(t, i, DsmlDialect::DoubleBar) {
            lemma_starts_at_chars(t, i, DsmlDialect::DoubleBar.invoke_open());
            assert(t[i + 0] == DsmlDialect::DoubleBar.invoke_open()[0]);
        }
        if invoke_at(t, i, DsmlDialect::SingleBar) {
            lemma_starts_at_chars(t, i, DsmlDialect::SingleBar.invoke_open());
            assert(t[i + 0] == DsmlDialect::SingleBar.invoke_open()[0]);
        }
        lemma_no_invoke(t, i + 1, end);
    }
}

proof fn lemma_free_stays(t: Seq<char>)
    requires
        is_free(t),
    ensures
        stripped(t) == t,
{
    lemma_no_envelope(t, DsmlDialect::DoubleBar);
    lemma_no_envelope(t, DsmlDialect::SingleBar);
}

proof fn lemma_no_envelope(t: Seq<char>, d: DsmlDialect)
    requires
        is_free(t),
    ensures
        empty_envelope(t, 0, d) is None,
{
    lemma_marks(d);
    lemma_find_from(t, 0, d.calls_open());
    if let Some(at) = find_from(t, 0, d.calls_open()) {
        lemma_starts_at_chars(t, at, d.calls_open());
        assert(t[at + 0] == d.calls_open()[0]);
    }
}

proof fn lemma_extract(t: Seq<char>, s: int, end: int, d: DsmlDialect, call: CallV)
    requires
        0 <= s < end <= t.len(),
        next_invoke(t, 0) == Some((d, s)),
        invoke(t, s, d) == Some((end, call)),
        next_invoke(t, end) is None,
    ensures
        extract_all(t) == (Extracted { text: t.take(s) + t.skip(end), calls: seq![call] }),
{
    let e = Seq::<char>::empty();
    let none = Extracted { text: e, calls: Seq::empty() };
    let one = Extracted { text: e + t.subrange(0, s), calls: none.calls.push(call) };
    assert(extract(t, 0, 0, none) == extract(t, end, end, one));
    let rest = t.subrange(end, t.len() as int);
    assert(extract(t, end, end, one) == (Extracted { text: one.text + rest, calls: one.calls }));
    assert(one.text + rest =~= t.take(s) + t.skip(end));
    assert(one.calls =~= seq![call]);
}

/// A call that leaked into a text is read out of it: under its name, with each
/// of its parameters under that parameter's name, and no other. What stands
/// before and behind it is the text that is left.
pub proof fn written_calls_are_read_back(
    d: DsmlDialect,
    before: Seq<char>,
    name: Seq<char>,
    ps: Seq<(Seq<char>, Seq<char>)>,
    behind: Seq<char>,
)
    requires
        is_free(before),
        is_free(behind),
        name.len() > 0,
        is_bare(name),
        can_be_written(ps),
    ensures
        ({
            let r = leaked(before + written_call(d, name, ps) + behind);
            &&& r is Some && (r->0).0 == before + behind && (r->0).1.len() == 1
            &&& (r->0).1[0].name == name
            &&& exists|m: Map<Seq<char>, JsonV>|
                are_arguments(m, ps) && (r->0).1[0].arguments == #[trigger] json_text(JsonV::Obj(m))
        }),
{
    let w = written_call(d, name, ps);
    let t = before + w + behind;
    let s = before.len() as int;
    let end = s + w.len();
    assert(t.subrange(s, end) =~= w);
    assert(starts_at(t, s, w));
    lemma_invoke_at(t, s, d, name, ps);
    lemma_marks(d);
    lemma_marks(DsmlDialect::DoubleBar);
    assert forall|j: int| 0 <= j < s implies #[trigger] t[j] != '<' by {
        assert(t[j] == before[j]);
    }
    lemma_no_invoke(t, 0, s);
    if d is SingleBar && invoke_at(t, s, DsmlDialect::DoubleBar) {
        lemma_starts_at_chars(t, s, DsmlDialect::DoubleBar.invoke_open());
        assert(t[s + 2] == DsmlDialect::DoubleBar.invoke_open()[2]);
    }
    assert(next_invoke(t, 0) == Some((d, s)));
    assert forall|j: int| end <= j < t.len() implies #[trigger] t[j] != '<' by {
        assert(t[j] == behind[j - end]);
    }
    lemma_no_invoke(t, end, t.len() as int);
    let call = CallV {
        name,
        arguments: json_text(JsonV::Obj(with_arguments(Map::empty(), ps))),
    };
    lemma_extract(t, s, end, d, call);
    assert(t.take(s) + t.skip(end) =~= before + behind);
    lemma_free_stays(before + behind);
    let m = with_arguments(Map::empty(), ps);
    lemma_arguments(Map::empty(), ps);
    assert forall|x: Seq<char>| #[trigger] m.dom().contains(x) implies is_named(ps, x) by {
        assert(!Map::<Seq<char>, JsonV>::empty().dom().contains(x));
    }
    assert(are_arguments(m, ps));
    let r = leaked(t);
    assert((r->0).1[0].arguments == json_text(JsonV::Obj(m)));
}

/// A message into whose text a call leaked gets that call as a tool call, with
/// its name and exactly the arguments that were written, and keeps the rest of
/// its text.
pub proof fn leaked_calls_become_tool_calls(
    before: ChatMessageV,
    after: ChatMessageV,
    uuids: Seq<Seq<char>>,
    d: DsmlDialect,
    a: Seq<char>,
    name: Seq<char>,
    ps: Seq<(Seq<char>, Seq<char>)>,
    b: Seq<char>,
)
    requires
        is_free(a),
        is_free(b),
        name.len() > 0,
        is_bare(name),
        can_be_written(ps),
        before.content == Some(JsonV::Str(a + written_call(d, name, ps) + b)),
        dsml_healed(before, after, uuids),
    ensures
        after.tool_calls is Some && after.tool_calls->0.len() > 0,
        ({
            let f = after.tool_calls->0.last().at("function"@);
            &&& f.get_str("name"@) == Some(name)
            &&& exists|m: Map<Seq<char>, JsonV>|
                are_arguments(m, ps) && f.get_str("arguments"@) == Some(
                    #[trigger] json_text(JsonV::Obj(m)),
                )
        }),
        (a + b).len() > 0 ==> after.content == Some(JsonV::Str(a + b)),
{
    written_calls_are_read_back(d, a, name, ps, b);
    let (cleaned, calls) = leaked(before.text())->0;
    healed_messages_call_what_leaked(before, after, uuids, cleaned, calls);
    let n = (match before.tool_calls {
        Some(t) => t,
        None => Seq::empty(),
    }).len() as int;
    assert(is_tool_call(after.tool_calls->0[n + 0], calls[0], "call_dsml_"@ + uuids[0]));
    let m = choose|m: Map<Seq<char>, JsonV>|
        are_arguments(m, ps) && calls[0].arguments == #[trigger] json_text(JsonV::Obj(m));
    assert(are_arguments(m, ps));
}

/// A parameter that says it is a string is its text as it stands, one that says
/// it is not is the JSON that its text holds; any other is none.
pub proof fn parameters_are_read_as_they_say(raw: Seq<char>, parsed: Option<JsonV>, k: Seq<char>)
    ensures
        parameter_value_of("true"@, raw, parsed) == Some(JsonV::Str(raw)),
        parameter_value_of("false"@, raw, parsed) == parsed,
        k != "true"@ && k != "false"@ ==> parameter_value_of(k, raw, parsed) is None,
{
    reveal_strlit("true");
    reveal_strlit("false");
    assert("true"@.len() == 4);
    assert("false"@.len() == 5);
}

} // verus!
