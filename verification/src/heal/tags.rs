//! Laws of the DSML grammar: the strict and the lenient reading of a tag, and
//! the removal of empty envelopes.
use crate::heal::dsml::{
    attribute, attributes, empty_envelope, key_end, lemma_attribute, lemma_attributes,
    lemma_dialect, lemma_empty_envelope, lemma_key_end, lemma_quoted, lemma_skip_ws,
    lemma_tag_name_end, open_tag, quoted, scanned_tag, skip_ws, slash_before, stripped, tag_end,
    tag_name_end, without, DsmlDialect, TagV,
};
use crate::text::is_ws;
use vstd::prelude::*;

verus! {

proof fn lemma_tag_end_skips_ws(t: Seq<char>, i: int)
    requires
        0 <= i,
    ensures
        tag_end(t, i, false, false) == tag_end(t, skip_ws(t, i), false, false),
        slash_before(t, skip_ws(t, i)) == slash_before(t, i),
    decreases t.len() - i,
{
    if i < t.len() && is_ws(t[i]) {
        lemma_tag_end_skips_ws(t, i + 1);
    }
}

proof fn lemma_tag_end_skips_key(t: Seq<char>, k: int)
    requires
        0 <= k,
        key_end(t, k) is Some,
        forall|j: int| k <= j < key_end(t, k)->0 && j < t.len() ==> t[j] != '"',
    ensures
        tag_end(t, k, false, false) == tag_end(t, key_end(t, k)->0, false, false),
    decreases t.len() - k,
{
    lemma_key_end(t, k);
    if k < t.len() && !is_ws(t[k]) && t[k] != '=' {
        lemma_key_end(t, k + 1);
        assert(t[k] != '"');
        lemma_tag_end_skips_key(t, k + 1);
    }
}

proof fn lemma_tag_end_skips_value(t: Seq<char>, i: int, read: Seq<char>)
    requires
        quoted(t, i, read) is Some,
    ensures
        tag_end(t, i, true, false) == tag_end(t, (quoted(t, i, read)->0).1, false, false),
        t[(quoted(t, i, read)->0).1 - 1] == '"',
        0 < (quoted(t, i, read)->0).1 <= t.len(),
    decreases t.len() - i,
{
    lemma_quoted(t, i, read);
    if t[i] == '"' {
    } else if t[i] != '\\' {
        lemma_tag_end_skips_value(t, i + 1, read.push(t[i]));
    } else if t[i + 1] == '"' || t[i + 1] == '\\' {
        lemma_tag_end_skips_value(t, i + 2, read.push(t[i + 1]));
        assert(tag_end(t, i + 1, true, true) == tag_end(t, i + 2, true, false));
    } else {
        let next = read.push('\\');
        assert(quoted(t, i + 1, next) == quoted(t, i + 2, next.push(t[i + 1])));
        lemma_tag_end_skips_value(t, i + 2, next.push(t[i + 1]));
        assert(tag_end(t, i + 1, true, true) == tag_end(t, i + 2, true, false));
    }
}

/// Whether a key holds no quote.
pub open spec fn is_plain(key: Seq<char>) -> bool {
    forall|j: int| 0 <= j < key.len() ==> #[trigger] key[j] != '"'
}

proof fn lemma_attributes_grow(
    t: Seq<char>,
    i: int,
    name: Seq<char>,
    attrs: Map<Seq<char>, Seq<char>>,
)
    ensures
        attributes(t, i, name, attrs) matches Some(tag) ==> tag.name == name && attrs.dom().subset_of(
            tag.attrs.dom(),
        ),
    decreases t.len() - i,
{
    if i >= 0 {
        lemma_skip_ws(t, i);
        let k = skip_ws(t, i);
        lemma_attribute(t, k);
        if let Some((key, value, end)) = attribute(t, k) {
            if k < t.len() {
                lemma_attributes_grow(t, end, name, attrs.insert(key, value));
            }
        }
    }
}

proof fn lemma_attributes_scanned(
    t: Seq<char>,
    i: int,
    name: Seq<char>,
    attrs: Map<Seq<char>, Seq<char>>,
)
    requires
        0 < i <= t.len(),
        !is_ws(t[i - 1]),
        t[i - 1] != '/',
        attributes(t, i, name, attrs) is Some,
        forall|key: Seq<char>| #[trigger]
            attributes(t, i, name, attrs)->0.attrs.dom().contains(key) ==> is_plain(key),
    ensures
        tag_end(t, i, false, false) == Some(attributes(t, i, name, attrs)->0.end),
        slash_before(t, attributes(t, i, name, attrs)->0.end - 1) == attributes(
            t,
            i,
            name,
            attrs,
        )->0.self_closing,
    decreases t.len() - i,
{
    let tag = attributes(t, i, name, attrs)->0;
    let k = skip_ws(t, i);
    lemma_skip_ws(t, i);
    lemma_tag_end_skips_ws(t, i);
    assert(!slash_before(t, i));
    if t[k] == '>' {
    } else if t[k] == '/' {
        let g = skip_ws(t, k + 1);
        lemma_skip_ws(t, k + 1);
        lemma_tag_end_skips_ws(t, k + 1);
        assert(!is_ws('/'));
        assert(slash_before(t, k + 1));
        assert(tag_end(t, k, false, false) == tag_end(t, k + 1, false, false));
    } else {
        let (key, value, end) = attribute(t, k)->0;
        let ke = key_end(t, k)->0;
        let e = skip_ws(t, ke);
        let q = skip_ws(t, e + 1);
        lemma_attribute(t, k);
        lemma_key_end(t, k);
        lemma_attributes_grow(t, end, name, attrs.insert(key, value));
        assert(tag.attrs.dom().contains(key));
        assert(is_plain(key));
        assert forall|j: int| k <= j < ke && j < t.len() implies t[j] != '"' by {
            assert(key[j - k] == t[j]);
        }
        lemma_tag_end_skips_key(t, k);
        lemma_skip_ws(t, ke);
        lemma_tag_end_skips_ws(t, ke);
        assert(tag_end(t, e, false, false) == tag_end(t, e + 1, false, false));
        lemma_skip_ws(t, e + 1);
        lemma_tag_end_skips_ws(t, e + 1);
        assert(tag_end(t, q, false, false) == tag_end(t, q + 1, true, false));
        lemma_tag_end_skips_value(t, q + 1, Seq::empty());
        lemma_attributes_scanned(t, end, name, attrs.insert(key, value));
    }
}

proof fn lemma_name_char(t: Seq<char>, i: int)
    requires
        0 <= i <= t.len(),
    ensures
        tag_name_end(t, i) > i ==> !is_ws(t[tag_name_end(t, i) - 1]) && t[tag_name_end(t, i) - 1]
            != '/',
    decreases t.len() - i,
{
    if i < t.len() && !is_ws(t[i]) && t[i] != '/' && t[i] != '>' {
        lemma_tag_name_end(t, i + 1);
        lemma_name_char(t, i + 1);
    }
}

/// On a well-formed tag without quotes in its keys the lenient reading finds
/// the same name, the same end and the same self-closing mark as the strict
/// one, and reads no attributes.
pub proof fn scan_agrees_with_parser(t: Seq<char>, start: int, d: DsmlDialect, tag: TagV)
    requires
        open_tag(t, start, d) == Some(tag),
        forall|key: Seq<char>| #[trigger] tag.attrs.dom().contains(key) ==> is_plain(key),
    ensures
        scanned_tag(t, start, d) == Some(TagV { attrs: Map::empty(), ..tag }),
{
    lemma_dialect(d);
    let ns = start + d.marker().len();
    let ne = tag_name_end(t, ns);
    lemma_tag_name_end(t, ns);
    lemma_name_char(t, ns);
    let name = t.subrange(ns, ne);
    lemma_attributes(t, ne, name, Map::empty());
    lemma_attributes_grow(t, ne, name, Map::empty());
    lemma_attributes_scanned(t, ne, name, Map::empty());
}

/// No empty envelope is left in a text that was stripped.
pub proof fn stripped_holds_no_empty_envelope(t: Seq<char>, d: DsmlDialect)
    ensures
        empty_envelope(stripped(t), 0, d) is None,
    decreases t.len(),
{
    lemma_empty_envelope(t, 0, DsmlDialect::DoubleBar);
    lemma_empty_envelope(t, 0, DsmlDialect::SingleBar);
    if let Some((a, b)) = empty_envelope(t, 0, DsmlDialect::DoubleBar) {
        stripped_holds_no_empty_envelope(without(t, a, b), d);
    } else if let Some((a, b)) = empty_envelope(t, 0, DsmlDialect::SingleBar) {
        stripped_holds_no_empty_envelope(without(t, a, b), d);
    }
}

/// Stripping empty envelopes twice is stripping them once.
pub proof fn stripping_is_idempotent(t: Seq<char>)
    ensures
        stripped(stripped(t)) == stripped(t),
{
    stripped_holds_no_empty_envelope(t, DsmlDialect::DoubleBar);
    stripped_holds_no_empty_envelope(t, DsmlDialect::SingleBar);
}

} // verus!
