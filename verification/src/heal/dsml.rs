//! DSML healing: tool calls that a model wrote out as markup in its text are
//! parsed back into structured calls.
use crate::heal::markers::{
    differs, find_marker, first_marker, lemma_first_marker, lemma_longest_growing,
    lemma_marker_kept, lemma_withheld_enough, longest_prefix_suffix, texts, well_marked, withheld,
};
use crate::ids::{are_uuids, fresh_ids};
use crate::json::{items_view, json_parse, json_text, lemma_items_push, Json, JsonV};
use crate::text::{
    all_ws, concat2, find, find_from, is_blank, is_whitespace, is_ws, lemma_find_from,
    lemma_pairs_push, occurs_at, pairs_get, pairs_map, same, slice_chars, slice_string, starts_at,
    to_chars, trim_slice, trimmed, views,
};
use crate::wire::chat::{opt_json, ChatMessage, ChatMessageV};
use vstd::prelude::*;

verus! {

/// A spelling of the markup: the delimiters are doubled or single bars.
#[derive(Debug, Clone, Copy, PartialEq, Eq, Structural)]
pub enum DsmlDialect {
    /// `<｜｜DSML｜｜…>`
    DoubleBar,
    /// `<｜DSML｜…>`
    SingleBar,
}

impl DsmlDialect {
    /// What every opening tag starts with.
    pub open spec fn marker(self) -> Seq<char> {
        match self {
            DsmlDialect::DoubleBar => "<｜｜DSML｜｜"@,
            DsmlDialect::SingleBar => "<｜DSML｜"@,
        }
    }

    /// What the opening tag of a call starts with.
    pub open spec fn invoke_open(self) -> Seq<char> {
        match self {
            DsmlDialect::DoubleBar => "<｜｜DSML｜｜invoke"@,
            DsmlDialect::SingleBar => "<｜DSML｜invoke"@,
        }
    }

    /// The closing tag of a call.
    pub open spec fn invoke_close(self) -> Seq<char> {
        match self {
            DsmlDialect::DoubleBar => "</｜｜DSML｜｜invoke>"@,
            DsmlDialect::SingleBar => "</｜DSML｜invoke>"@,
        }
    }

    /// The closing tag of a parameter.
    pub open spec fn parameter_close(self) -> Seq<char> {
        match self {
            DsmlDialect::DoubleBar => "</｜｜DSML｜｜parameter>"@,
            DsmlDialect::SingleBar => "</｜DSML｜parameter>"@,
        }
    }

    /// The opening tag of an envelope of calls.
    pub open spec fn calls_open(self) -> Seq<char> {
        match self {
            DsmlDialect::DoubleBar => "<｜｜DSML｜｜tool_calls>"@,
            DsmlDialect::SingleBar => "<｜DSML｜tool_calls>"@,
        }
    }

    /// The closing tag of an envelope of calls.
    pub open spec fn calls_close(self) -> Seq<char> {
        match self {
            DsmlDialect::DoubleBar => "</｜｜DSML｜｜tool_calls>"@,
            DsmlDialect::SingleBar => "</｜DSML｜tool_calls>"@,
        }
    }

    /// The other dialect.
    pub open spec fn other(self) -> DsmlDialect {
        match self {
            DsmlDialect::DoubleBar => DsmlDialect::SingleBar,
            DsmlDialect::SingleBar => DsmlDialect::DoubleBar,
        }
    }
}

/// The first position at or after `i` that holds no white space.
pub open spec fn skip_ws(t: Seq<char>, i: int) -> int
    decreases t.len() - i,
{
    if 0 <= i < t.len() && is_ws(t[i]) {
        skip_ws(t, i + 1)
    } else {
        i
    }
}

/// Where a tag name that starts at or before `i` ends: at white space, `/`,
/// `>` or the end of the text.
pub open spec fn tag_name_end(t: Seq<char>, i: int) -> int
    decreases t.len() - i,
{
    if 0 <= i < t.len() && !is_ws(t[i]) && t[i] != '/' && t[i] != '>' {
        tag_name_end(t, i + 1)
    } else {
        i
    }
}

/// Where an attribute key that starts at or before `i` ends: at white space,
/// `=` or the end of the text; none where `/` or `>` comes first.
pub open spec fn key_end(t: Seq<char>, i: int) -> Option<int>
    decreases t.len() - i,
{
    if 0 <= i < t.len() && !is_ws(t[i]) && t[i] != '=' {
        if t[i] == '/' || t[i] == '>' {
            None
        } else {
            key_end(t, i + 1)
        }
    } else {
        Some(i)
    }
}

/// Reads a quoted value whose opening quote stands before `i`, after `read`:
/// the value, and the position behind its closing quote. A backslash escapes a
/// quote or a backslash and stands for itself before anything else.
pub open spec fn quoted(t: Seq<char>, i: int, read: Seq<char>) -> Option<(Seq<char>, int)>
    decreases t.len() - i,
{
    if i < 0 || i >= t.len() {
        None
    } else if t[i] == '"' {
        Some((read, i + 1))
    } else if t[i] != '\\' {
        quoted(t, i + 1, read.push(t[i]))
    } else if i + 1 >= t.len() {
        None
    } else if t[i + 1] == '"' || t[i + 1] == '\\' {
        quoted(t, i + 2, read.push(t[i + 1]))
    } else {
        quoted(t, i + 1, read.push('\\'))
    }
}

/// An opening tag.
pub struct TagV {
    pub name: Seq<char>,
    pub attrs: Map<Seq<char>, Seq<char>>,
    pub self_closing: bool,
    /// The position behind the tag.
    pub end: int,
}

impl TagV {
    /// The attribute `k`.
    pub open spec fn attr(self, k: Seq<char>) -> Option<Seq<char>> {
        if self.attrs.dom().contains(k) {
            Some(self.attrs[k])
        } else {
            None
        }
    }
}

/// Reads the rest of an opening tag of name `name` from `i`, after the
/// attributes `attrs`: key-value pairs, each key once, with white space between
/// them, up to `>` or `/>`.
pub open spec fn attributes(
    t: Seq<char>,
    i: int,
    name: Seq<char>,
    attrs: Map<Seq<char>, Seq<char>>,
) -> Option<TagV>
    decreases t.len() - i,
{
    let k = skip_ws(t, i);
    if i < 0 || k >= t.len() {
        None
    } else if t[k] == '>' {
        Some(TagV { name, attrs, self_closing: false, end: k + 1 })
    } else if t[k] == '/' {
        let g = skip_ws(t, k + 1);
        if g < t.len() && t[g] == '>' {
            Some(TagV { name, attrs, self_closing: true, end: g + 1 })
        } else {
            None
        }
    } else {
        match attribute(t, k) {
            Some((key, value, end)) => {
                proof {
                    lemma_skip_ws(t, i);
                    lemma_attribute(t, k);
                }
                if attrs.dom().contains(key) {
                    None
                } else if end < t.len() && !is_ws(t[end]) && t[end] != '/' && t[end] != '>' {
                    None
                } else {
                    attributes(t, end, name, attrs.insert(key, value))
                }
            },
            None => None,
        }
    }
}

/// Reads `key="value"` at `k`, with optional white space around `=`: the key,
/// the value and the position behind.
pub open spec fn attribute(t: Seq<char>, k: int) -> Option<(Seq<char>, Seq<char>, int)> {
    match key_end(t, k) {
        Some(ke) if ke > k => {
            let e = skip_ws(t, ke);
            let q = skip_ws(t, e + 1);
            if e < t.len() && t[e] == '=' && q < t.len() && t[q] == '"' {
                match quoted(t, q + 1, Seq::empty()) {
                    Some((value, end)) => Some((t.subrange(k, ke), value, end)),
                    None => None,
                }
            } else {
                None
            }
        },
        _ => None,
    }
}

/// Reads the opening tag of dialect `d` at `start`.
pub open spec fn open_tag(t: Seq<char>, start: int, d: DsmlDialect) -> Option<TagV> {
    let ns = start + d.marker().len();
    let ne = tag_name_end(t, ns);
    if !starts_at(t, start, d.marker()) || ne == ns {
        None
    } else {
        attributes(t, ne, t.subrange(ns, ne), Map::empty())
    }
}

/// The position behind the first `>` at or after `i` that stands outside
/// quotes.
pub open spec fn tag_end(t: Seq<char>, i: int, in_quotes: bool, escaped: bool) -> Option<int>
    decreases t.len() - i,
{
    if i < 0 || i >= t.len() {
        None
    } else if in_quotes {
        if escaped {
            tag_end(t, i + 1, true, false)
        } else {
            tag_end(t, i + 1, t[i] != '"', t[i] == '\\')
        }
    } else if t[i] == '>' {
        Some(i + 1)
    } else {
        tag_end(t, i + 1, t[i] == '"', false)
    }
}

/// Whether the last character before `i` that is no white space is `/`.
pub open spec fn slash_before(t: Seq<char>, i: int) -> bool
    decreases i,
{
    if i <= 0 || i > t.len() {
        false
    } else if is_ws(t[i - 1]) {
        slash_before(t, i - 1)
    } else {
        t[i - 1] == '/'
    }
}

/// Finds the end of the tag of dialect `d` at `start` without reading its
/// attributes.
pub open spec fn scanned_tag(t: Seq<char>, start: int, d: DsmlDialect) -> Option<TagV> {
    let ns = start + d.marker().len();
    let ne = tag_name_end(t, ns);
    if !starts_at(t, start, d.marker()) || ne == ns {
        None
    } else {
        match tag_end(t, ne, false, false) {
            Some(end) => Some(
                TagV {
                    name: t.subrange(ns, ne),
                    attrs: Map::empty(),
                    self_closing: slash_before(t, end - 1),
                    end,
                },
            ),
            None => None,
        }
    }
}

/// Whether a found position lies before `limit`.
pub open spec fn found_before(found: Option<int>, limit: int) -> bool {
    match found {
        Some(at) => at < limit,
        None => false,
    }
}

/// The value of a parameter whose tag is `tag`, and the position behind the
/// parameter. A parameter has a body that is text (`string="true"`) or JSON
/// (`string="false"`) and holds no other markup; with double bars it may also
/// be a self-closing `invoke` that carries its text in `string`.
pub open spec fn parameter(t: Seq<char>, tag: TagV, d: DsmlDialect) -> Option<(JsonV, int)> {
    if d is DoubleBar && tag.name == "invoke"@ && tag.self_closing {
        match tag.attr("string"@) {
            Some(v) => Some((JsonV::Str(v), tag.end)),
            None => None,
        }
    } else if tag.name == "parameter"@ && !tag.self_closing {
        match (tag.attr("string"@), find_from(t, tag.end, d.parameter_close())) {
            (Some(kind), Some(close)) => {
                if found_before(find_from(t, tag.end, d.marker()), close) || found_before(
                    find_from(t, tag.end, d.invoke_close()),
                    close,
                ) {
                    None
                } else {
                    let raw = t.subrange(tag.end, close);
                    match parameter_value_of(kind, raw, json_parse(trimmed(raw))) {
                        Some(v) => Some((v, close + d.parameter_close().len())),
                        None => None,
                    }
                }
            },
            _ => None,
        }
    } else {
        None
    }
}

/// The value of a parameter body: the text itself for kind `true`, the JSON
/// value that was read out of it for kind `false`.
pub open spec fn parameter_value_of(
    kind: Seq<char>,
    raw: Seq<char>,
    parsed: Option<JsonV>,
) -> Option<JsonV> {
    if kind == "true"@ {
        Some(JsonV::Str(raw))
    } else if kind == "false"@ {
        parsed
    } else {
        None
    }
}

/// Reads parameters of distinct, non-empty names from `i`, after `args`, up to
/// the closing tag of the call: the position behind it and all arguments.
pub open spec fn parameters(
    t: Seq<char>,
    i: int,
    d: DsmlDialect,
    args: Map<Seq<char>, JsonV>,
) -> Option<(int, Map<Seq<char>, JsonV>)>
    decreases t.len() - i,
{
    let k = skip_ws(t, i);
    if i < 0 {
        None
    } else if starts_at(t, k, d.invoke_close()) {
        Some((k + d.invoke_close().len(), args))
    } else {
        match open_tag(t, k, d) {
            Some(tag) => match (tag.attr("name"@), parameter(t, tag, d)) {
                (Some(name), Some((value, next))) => {
                    proof {
                        lemma_skip_ws(t, i);
                        lemma_open_tag(t, k, d);
                        lemma_parameter(t, tag, d);
                    }
                    if name.len() == 0 || args.dom().contains(name) {
                        None
                    } else {
                        parameters(t, next, d, args.insert(name, value))
                    }
                },
                _ => None,
            },
            None => None,
        }
    }
}

/// A call that was read out of markup.
pub struct CallV {
    pub name: Seq<char>,
    /// The arguments object as JSON text.
    pub arguments: Seq<char>,
}

/// Reads the call of dialect `d` at `start`: the position behind it and the
/// call.
pub open spec fn invoke(t: Seq<char>, start: int, d: DsmlDialect) -> Option<(int, CallV)> {
    match open_tag(t, start, d) {
        Some(tag) => if tag.name != "invoke"@ || tag.self_closing {
            None
        } else {
            match (tag.attr("name"@), parameters(t, tag.end, d, Map::empty())) {
                (Some(name), Some((end, args))) => if name.len() == 0 {
                    None
                } else {
                    Some((end, CallV { name, arguments: json_text(JsonV::Obj(args)) }))
                },
                _ => None,
            }
        },
        None => None,
    }
}

/// Where a malformed call that is open `depth` times at `i` ends; none where
/// its tags do not balance, or markup makes the end ambiguous.
pub open spec fn balanced_end(t: Seq<char>, i: int, d: DsmlDialect, depth: int) -> Option<int>
    decreases t.len() - i,
{
    let foreign = find_from(t, i, d.other().marker());
    let open = find_from(t, i, d.marker());
    let close = find_from(t, i, d.invoke_close());
    if i < 0 || i >= t.len() {
        None
    } else {
        proof {
            lemma_find_from(t, i, d.other().marker());
            lemma_find_from(t, i, d.marker());
            lemma_find_from(t, i, d.invoke_close());
            lemma_dialect(d);
        }
        let closing = match (open, close) {
            (None, Some(c)) => Some(c),
            (Some(o), Some(c)) if c < o => Some(c),
            _ => None,
        };
        match (closing, open) {
            (Some(c), _) => if found_before(foreign, c) {
                None
            } else if depth <= 1 {
                Some(c + d.invoke_close().len())
            } else {
                balanced_end(t, c + d.invoke_close().len(), d, depth - 1)
            },
            (None, Some(o)) => if found_before(foreign, o) {
                None
            } else {
                match scanned_tag(t, o, d) {
                    Some(tag) => {
                        proof {
                            lemma_scanned_tag(t, o, d);
                            lemma_find_from(t, tag.end, d.parameter_close());
                        }
                        if tag.name == "invoke"@ && !tag.self_closing {
                            balanced_end(t, tag.end, d, depth + 1)
                        } else if tag.name == "parameter"@ && !tag.self_closing {
                            match find_from(t, tag.end, d.parameter_close()) {
                                Some(c) => if found_before(
                                    find_from(t, tag.end, d.marker()),
                                    c,
                                ) {
                                    None
                                } else {
                                    balanced_end(t, c + d.parameter_close().len(), d, depth)
                                },
                                None => None,
                            }
                        } else {
                            balanced_end(t, tag.end, d, depth)
                        }
                    },
                    None => None,
                }
            },
            (None, None) => None,
        }
    }
}

/// Where the malformed call of dialect `d` at `start` ends.
pub open spec fn malformed_end(t: Seq<char>, start: int, d: DsmlDialect) -> Option<int> {
    match scanned_tag(t, start, d) {
        Some(tag) => if tag.name != "invoke"@ || tag.self_closing {
            Some(tag.end)
        } else {
            balanced_end(t, tag.end, d, 1)
        },
        None => None,
    }
}

pub proof fn lemma_dialect(d: DsmlDialect)
    ensures
        d.marker().len() > 0,
        d.invoke_open().len() > 0,
        d.invoke_close().len() > 0,
        d.parameter_close().len() > 0,
        d.calls_open().len() > 0,
        d.calls_close().len() > 0,
{
    reveal_strlit("<｜｜DSML｜｜");
    reveal_strlit("<｜DSML｜");
    reveal_strlit("<｜｜DSML｜｜invoke");
    reveal_strlit("<｜DSML｜invoke");
    reveal_strlit("</｜｜DSML｜｜invoke>");
    reveal_strlit("</｜DSML｜invoke>");
    reveal_strlit("</｜｜DSML｜｜parameter>");
    reveal_strlit("</｜DSML｜parameter>");
    reveal_strlit("<｜｜DSML｜｜tool_calls>");
    reveal_strlit("<｜DSML｜tool_calls>");
    reveal_strlit("</｜｜DSML｜｜tool_calls>");
    reveal_strlit("</｜DSML｜tool_calls>");
}

pub proof fn lemma_skip_ws(t: Seq<char>, i: int)
    ensures
        i <= skip_ws(t, i),
        i <= t.len() ==> skip_ws(t, i) <= t.len(),
    decreases t.len() - i,
{
    if 0 <= i < t.len() && is_ws(t[i]) {
        lemma_skip_ws(t, i + 1);
    }
}

pub proof fn lemma_tag_name_end(t: Seq<char>, i: int)
    ensures
        i <= tag_name_end(t, i),
        i <= t.len() ==> tag_name_end(t, i) <= t.len(),
    decreases t.len() - i,
{
    if 0 <= i < t.len() && !is_ws(t[i]) && t[i] != '/' && t[i] != '>' {
        lemma_tag_name_end(t, i + 1);
    }
}

pub proof fn lemma_key_end(t: Seq<char>, i: int)
    ensures
        key_end(t, i) matches Some(e) ==> i <= e && (i <= t.len() ==> e <= t.len()),
    decreases t.len() - i,
{
    if 0 <= i < t.len() && !is_ws(t[i]) && t[i] != '=' && t[i] != '/' && t[i] != '>' {
        lemma_key_end(t, i + 1);
    }
}

pub proof fn lemma_quoted(t: Seq<char>, i: int, read: Seq<char>)
    ensures
        quoted(t, i, read) matches Some((_, end)) ==> i < end <= t.len(),
    decreases t.len() - i,
{
    if 0 <= i < t.len() && t[i] != '"' {
        if t[i] != '\\' {
            lemma_quoted(t, i + 1, read.push(t[i]));
        } else if i + 1 < t.len() {
            lemma_quoted(t, i + 2, read.push(t[i + 1]));
            lemma_quoted(t, i + 1, read.push('\\'));
        }
    }
}

pub proof fn lemma_attribute(t: Seq<char>, k: int)
    ensures
        attribute(t, k) matches Some((_, _, end)) ==> k < end <= t.len(),
{
    lemma_key_end(t, k);
    if let Some(ke) = key_end(t, k) {
        lemma_skip_ws(t, ke);
        let e = skip_ws(t, ke);
        lemma_skip_ws(t, e + 1);
        lemma_quoted(t, skip_ws(t, e + 1) + 1, Seq::empty());
    }
}

pub proof fn lemma_attributes(
    t: Seq<char>,
    i: int,
    name: Seq<char>,
    attrs: Map<Seq<char>, Seq<char>>,
)
    ensures
        attributes(t, i, name, attrs) matches Some(tag) ==> i < tag.end <= t.len(),
    decreases t.len() - i,
{
    if i >= 0 {
        lemma_skip_ws(t, i);
        let k = skip_ws(t, i);
        lemma_skip_ws(t, k + 1);
        lemma_attribute(t, k);
        if let Some((key, value, end)) = attribute(t, k) {
            if k < t.len() {
                lemma_attributes(t, end, name, attrs.insert(key, value));
            }
        }
    }
}

pub proof fn lemma_open_tag(t: Seq<char>, start: int, d: DsmlDialect)
    ensures
        open_tag(t, start, d) matches Some(tag) ==> start < tag.end <= t.len(),
{
    lemma_dialect(d);
    let ns = start + d.marker().len();
    lemma_tag_name_end(t, ns);
    lemma_attributes(t, tag_name_end(t, ns), t.subrange(ns, tag_name_end(t, ns)), Map::empty());
}

pub proof fn lemma_tag_end(t: Seq<char>, i: int, in_quotes: bool, escaped: bool)
    ensures
        tag_end(t, i, in_quotes, escaped) matches Some(end) ==> i < end <= t.len(),
    decreases t.len() - i,
{
    if 0 <= i < t.len() {
        lemma_tag_end(t, i + 1, true, false);
        lemma_tag_end(t, i + 1, true, true);
        lemma_tag_end(t, i + 1, false, false);
        lemma_tag_end(t, i + 1, false, true);
    }
}

pub proof fn lemma_scanned_tag(t: Seq<char>, start: int, d: DsmlDialect)
    ensures
        scanned_tag(t, start, d) matches Some(tag) ==> start < tag.end <= t.len(),
{
    lemma_dialect(d);
    let ns = start + d.marker().len();
    lemma_tag_name_end(t, ns);
    lemma_tag_end(t, tag_name_end(t, ns), false, false);
}

pub proof fn lemma_parameter(t: Seq<char>, tag: TagV, d: DsmlDialect)
    requires
        0 <= tag.end <= t.len(),
    ensures
        parameter(t, tag, d) matches Some((_, next)) ==> tag.end <= next <= t.len(),
{
    lemma_find_from(t, tag.end, d.parameter_close());
}

/// Whether a call of dialect `d` may start in `t` at `j`.
pub open spec fn invoke_at(t: Seq<char>, j: int, d: DsmlDialect) -> bool {
    let after = j + d.invoke_open().len();
    &&& starts_at(t, j, d.invoke_open())
    &&& after < t.len()
    &&& is_ws(t[after]) || t[after] == '>'
}

/// The first place at or after `i` where a call may start.
pub open spec fn next_invoke(t: Seq<char>, i: int) -> Option<(DsmlDialect, int)>
    decreases t.len() - i,
{
    if i < 0 || i >= t.len() {
        None
    } else if invoke_at(t, i, DsmlDialect::DoubleBar) {
        Some((DsmlDialect::DoubleBar, i))
    } else if invoke_at(t, i, DsmlDialect::SingleBar) {
        Some((DsmlDialect::SingleBar, i))
    } else {
        next_invoke(t, i + 1)
    }
}

pub proof fn lemma_next_invoke(t: Seq<char>, i: int)
    requires
        0 <= i,
    ensures
        next_invoke(t, i) matches Some((d, at)) ==> i <= at < t.len() && invoke_at(t, at, d),
    decreases t.len() - i,
{
    if i < t.len() && !invoke_at(t, i, DsmlDialect::DoubleBar) && !invoke_at(
        t,
        i,
        DsmlDialect::SingleBar,
    ) {
        lemma_next_invoke(t, i + 1);
    }
}

pub proof fn lemma_parameters(
    t: Seq<char>,
    i: int,
    d: DsmlDialect,
    args: Map<Seq<char>, JsonV>,
)
    ensures
        parameters(t, i, d, args) matches Some((end, _)) ==> i < end <= t.len(),
    decreases t.len() - i,
{
    if i >= 0 {
        lemma_dialect(d);
        lemma_skip_ws(t, i);
        let k = skip_ws(t, i);
        if !starts_at(t, k, d.invoke_close()) {
            lemma_open_tag(t, k, d);
            if let Some(tag) = open_tag(t, k, d) {
                lemma_parameter(t, tag, d);
                if let (Some(name), Some((value, next))) = (tag.attr("name"@), parameter(t, tag, d)) {
                    lemma_parameters(t, next, d, args.insert(name, value));
                }
            }
        }
    }
}

pub proof fn lemma_invoke(t: Seq<char>, start: int, d: DsmlDialect)
    ensures
        invoke(t, start, d) matches Some((end, _)) ==> start < end <= t.len(),
{
    lemma_open_tag(t, start, d);
    if let Some(tag) = open_tag(t, start, d) {
        lemma_parameters(t, tag.end, d, Map::empty());
    }
}

pub proof fn lemma_balanced_end(t: Seq<char>, i: int, d: DsmlDialect, depth: int)
    ensures
        balanced_end(t, i, d, depth) matches Some(end) ==> i < end <= t.len(),
    decreases t.len() - i,
{
    if 0 <= i < t.len() {
        lemma_find_from(t, i, d.other().marker());
        lemma_find_from(t, i, d.marker());
        lemma_find_from(t, i, d.invoke_close());
        lemma_dialect(d);
        if let Some(c) = find_from(t, i, d.invoke_close()) {
            lemma_balanced_end(t, c + d.invoke_close().len(), d, depth - 1);
        }
        if let Some(o) = find_from(t, i, d.marker()) {
            lemma_scanned_tag(t, o, d);
            if let Some(tag) = scanned_tag(t, o, d) {
                lemma_balanced_end(t, tag.end, d, depth + 1);
                lemma_balanced_end(t, tag.end, d, depth);
                lemma_find_from(t, tag.end, d.parameter_close());
                if let Some(c) = find_from(t, tag.end, d.parameter_close()) {
                    lemma_balanced_end(t, c + d.parameter_close().len(), d, depth);
                }
            }
        }
    }
}

pub proof fn lemma_malformed_end(t: Seq<char>, start: int, d: DsmlDialect)
    ensures
        malformed_end(t, start, d) matches Some(end) ==> start < end <= t.len(),
{
    lemma_scanned_tag(t, start, d);
    if let Some(tag) = scanned_tag(t, start, d) {
        lemma_balanced_end(t, tag.end, d, 1);
    }
}

/// The text without the calls that were read out of it, and the calls.
pub struct Extracted {
    pub text: Seq<char>,
    pub calls: Seq<CallV>,
}

/// Takes the calls at or after `from` out of `t`, where `t[copied..]` is not
/// yet part of `done`. A malformed call stays in the text and is skipped as a
/// whole; where its end is unknown, nothing behind it is taken out.
pub open spec fn extract(t: Seq<char>, from: int, copied: int, done: Extracted) -> Extracted
    decreases t.len() - from,
{
    let rest = Extracted { text: done.text + t.subrange(copied, t.len() as int), calls: done.calls };
    match next_invoke(t, from) {
        Some((d, start)) => if from < 0 {
            rest
        } else {
            proof {
                lemma_next_invoke(t, from);
                lemma_invoke(t, start, d);
                lemma_malformed_end(t, start, d);
            }
            match invoke(t, start, d) {
                Some((end, call)) => extract(
                    t,
                    end,
                    end,
                    Extracted {
                        text: done.text + t.subrange(copied, start),
                        calls: done.calls.push(call),
                    },
                ),
                None => match malformed_end(t, start, d) {
                    Some(end) => extract(t, end, copied, done),
                    None => rest,
                },
            }
        },
        None => rest,
    }
}

/// Where the first envelope of dialect `d` at or after `i` that holds nothing
/// but white space starts and ends.
pub open spec fn empty_envelope(t: Seq<char>, i: int, d: DsmlDialect) -> Option<(int, int)>
    decreases t.len() - i,
{
    if i < 0 || i > t.len() {
        None
    } else {
        match find_from(t, i, d.calls_open()) {
            Some(open) => {
                let inner = open + d.calls_open().len();
                match find_from(t, inner, d.calls_close()) {
                    Some(close) => {
                        let end = close + d.calls_close().len();
                        proof {
                            lemma_dialect(d);
                            lemma_find_from(t, i, d.calls_open());
                            lemma_find_from(t, inner, d.calls_close());
                        }
                        if all_ws(t.subrange(inner, close)) {
                            Some((open, end))
                        } else {
                            empty_envelope(t, end, d)
                        }
                    },
                    None => None,
                }
            },
            None => None,
        }
    }
}

pub proof fn lemma_empty_envelope(t: Seq<char>, i: int, d: DsmlDialect)
    ensures
        empty_envelope(t, i, d) matches Some((a, b)) ==> 0 <= a < b <= t.len(),
    decreases t.len() - i,
{
    if 0 <= i <= t.len() {
        lemma_dialect(d);
        lemma_find_from(t, i, d.calls_open());
        if let Some(open) = find_from(t, i, d.calls_open()) {
            let inner = open + d.calls_open().len();
            lemma_find_from(t, inner, d.calls_close());
            if let Some(close) = find_from(t, inner, d.calls_close()) {
                lemma_empty_envelope(t, close + d.calls_close().len(), d);
            }
        }
    }
}

/// The text without `t[a..b]`.
pub open spec fn without(t: Seq<char>, a: int, b: int) -> Seq<char> {
    t.take(a) + t.skip(b)
}

/// The text without its empty envelopes, taken out one by one until none is
/// left.
pub open spec fn stripped(t: Seq<char>) -> Seq<char>
    decreases t.len(),
{
    proof {
        lemma_empty_envelope(t, 0, DsmlDialect::DoubleBar);
        lemma_empty_envelope(t, 0, DsmlDialect::SingleBar);
    }
    match empty_envelope(t, 0, DsmlDialect::DoubleBar) {
        Some((a, b)) => stripped(without(t, a, b)),
        None => match empty_envelope(t, 0, DsmlDialect::SingleBar) {
            Some((a, b)) => stripped(without(t, a, b)),
            None => t,
        },
    }
}

/// Everything of a text that no call has been taken out of yet.
pub open spec fn extract_all(t: Seq<char>) -> Extracted {
    extract(t, 0, 0, Extracted { text: Seq::empty(), calls: Seq::empty() })
}

/// The visible text and the calls of a text with leaked calls; none where no
/// call could be read.
pub open spec fn leaked(t: Seq<char>) -> Option<(Seq<char>, Seq<CallV>)> {
    let e = extract_all(t);
    if e.calls.len() == 0 {
        None
    } else {
        Some((stripped(e.text), e.calls))
    }
}

impl DsmlDialect {
    fn marker_chars(self) -> (r: Vec<char>)
        ensures
            r@ == self.marker(),
    {
        match self {
            DsmlDialect::DoubleBar => to_chars("<｜｜DSML｜｜"),
            DsmlDialect::SingleBar => to_chars("<｜DSML｜"),
        }
    }

    fn invoke_open_chars(self) -> (r: Vec<char>)
        ensures
            r@ == self.invoke_open(),
    {
        match self {
            DsmlDialect::DoubleBar => to_chars("<｜｜DSML｜｜invoke"),
            DsmlDialect::SingleBar => to_chars("<｜DSML｜invoke"),
        }
    }

    fn invoke_close_chars(self) -> (r: Vec<char>)
        ensures
            r@ == self.invoke_close(),
    {
        match self {
            DsmlDialect::DoubleBar => to_chars("</｜｜DSML｜｜invoke>"),
            DsmlDialect::SingleBar => to_chars("</｜DSML｜invoke>"),
        }
    }

    fn parameter_close_chars(self) -> (r: Vec<char>)
        ensures
            r@ == self.parameter_close(),
    {
        match self {
            DsmlDialect::DoubleBar => to_chars("</｜｜DSML｜｜parameter>"),
            DsmlDialect::SingleBar => to_chars("</｜DSML｜parameter>"),
        }
    }

    fn calls_open_chars(self) -> (r: Vec<char>)
        ensures
            r@ == self.calls_open(),
    {
        match self {
            DsmlDialect::DoubleBar => to_chars("<｜｜DSML｜｜tool_calls>"),
            DsmlDialect::SingleBar => to_chars("<｜DSML｜tool_calls>"),
        }
    }

    fn calls_close_chars(self) -> (r: Vec<char>)
        ensures
            r@ == self.calls_close(),
    {
        match self {
            DsmlDialect::DoubleBar => to_chars("</｜｜DSML｜｜tool_calls>"),
            DsmlDialect::SingleBar => to_chars("</｜DSML｜tool_calls>"),
        }
    }

    fn other_dialect(self) -> (r: DsmlDialect)
        ensures
            r == self.other(),
    {
        match self {
            DsmlDialect::DoubleBar => DsmlDialect::SingleBar,
            DsmlDialect::SingleBar => DsmlDialect::DoubleBar,
        }
    }
}

/// A tool call that was read out of markup.
#[derive(Debug, Clone, PartialEq, Eq)]
pub struct DsmlToolCall {
    pub name: String,
    /// JSON-encoded arguments object, ready for Chat Completions `function.arguments`.
    pub arguments: String,
}

impl View for DsmlToolCall {
    type V = CallV;

    open spec fn view(&self) -> CallV {
        CallV { name: self.name@, arguments: self.arguments@ }
    }
}

/// What a list of calls denotes.
pub open spec fn calls_view(s: Seq<DsmlToolCall>) -> Seq<CallV> {
    Seq::new(s.len(), |i: int| s[i]@)
}

/// An opening tag that was read.
#[derive(Debug)]
pub struct ParsedTag {
    pub name: String,
    pub attrs: Vec<(String, String)>,
    pub self_closing: bool,
    /// The position behind the tag.
    pub end: usize,
}

impl View for ParsedTag {
    type V = TagV;

    open spec fn view(&self) -> TagV {
        TagV {
            name: self.name@,
            attrs: pairs_map(self.attrs@),
            self_closing: self.self_closing,
            end: self.end as int,
        }
    }
}

fn skip_whitespace(text: &Vec<char>, from: usize) -> (r: usize)
    requires
        from <= text@.len(),
    ensures
        r == skip_ws(text@, from as int),
        from <= r <= text@.len(),
{
    let mut cursor: usize = from;
    while cursor < text.len() && is_whitespace(text[cursor])
        invariant
            from <= cursor <= text@.len(),
            skip_ws(text@, from as int) == skip_ws(text@, cursor as int),
        decreases text@.len() - cursor,
    {
        cursor = cursor + 1;
    }
    cursor
}

fn scan_tag_name(text: &Vec<char>, from: usize) -> (r: usize)
    requires
        from <= text@.len(),
    ensures
        r == tag_name_end(text@, from as int),
        from <= r <= text@.len(),
{
    let mut cursor: usize = from;
    while cursor < text.len() && !is_whitespace(text[cursor]) && text[cursor] != '/' && text[cursor]
        != '>'
        invariant
            from <= cursor <= text@.len(),
            tag_name_end(text@, from as int) == tag_name_end(text@, cursor as int),
        decreases text@.len() - cursor,
    {
        cursor = cursor + 1;
    }
    cursor
}

fn scan_key(text: &Vec<char>, from: usize) -> (r: Option<usize>)
    requires
        from <= text@.len(),
    ensures
        match r {
            Some(e) => key_end(text@, from as int) == Some(e as int) && from <= e <= text@.len(),
            None => key_end(text@, from as int) is None,
        },
{
    let mut cursor: usize = from;
    while cursor < text.len() && !is_whitespace(text[cursor]) && text[cursor] != '='
        invariant
            from <= cursor <= text@.len(),
            key_end(text@, from as int) == key_end(text@, cursor as int),
        decreases text@.len() - cursor,
    {
        if text[cursor] == '/' || text[cursor] == '>' {
            return None;
        }
        cursor = cursor + 1;
    }
    Some(cursor)
}

fn parse_quoted_value(text: &Vec<char>, from: usize) -> (r: Option<(String, usize)>)
    ensures
        match r {
            Some((value, end)) => quoted(text@, from as int, Seq::empty()) == Some(
                (value@, end as int),
            ) && from < end <= text@.len(),
            None => quoted(text@, from as int, Seq::empty()) is None,
        },
{
    let mut value = String::new();
    let mut cursor: usize = from;
    proof {
        lemma_quoted(text@, from as int, Seq::empty());
    }
    while cursor < text.len()
        invariant
            from <= cursor,
            cursor <= text@.len() || cursor == from,
            quoted(text@, from as int, Seq::empty()) == quoted(text@, cursor as int, value@),
        decreases text@.len() - cursor,
    {
        let ch = text[cursor];
        if ch == '"' {
            return Some((value, cursor + 1));
        }
        cursor = cursor + 1;
        if ch == '\\' {
            if cursor >= text.len() {
                return None;
            }
            let escaped = text[cursor];
            if escaped == '"' || escaped == '\\' {
                value.push(escaped);
                cursor = cursor + 1;
            } else {
                value.push('\\');
            }
        } else {
            value.push(ch);
        }
    }
    None
}

/// Reads `key="value"` at `from`.
fn parse_attribute(text: &Vec<char>, from: usize) -> (r: Option<(String, String, usize)>)
    requires
        from <= text@.len(),
    ensures
        match r {
            Some((key, value, end)) => attribute(text@, from as int) == Some(
                (key@, value@, end as int),
            ) && from < end <= text@.len(),
            None => attribute(text@, from as int) is None,
        },
{
    let stop = match scan_key(text, from) {
        Some(e) => e,
        None => {
            return None;
        },
    };
    if stop == from {
        return None;
    }
    let equals = skip_whitespace(text, stop);
    if equals >= text.len() || text[equals] != '=' {
        return None;
    }
    let quote = skip_whitespace(text, equals + 1);
    if quote >= text.len() || text[quote] != '"' {
        return None;
    }
    match parse_quoted_value(text, quote + 1) {
        Some((value, end)) => Some((slice_string(text, from, stop), value, end)),
        None => None,
    }
}

/// Reads the opening tag at `start`.
pub fn parse_open_tag(text: &Vec<char>, start: usize, dialect: DsmlDialect) -> (r: Option<
    ParsedTag,
>)
    ensures
        match r {
            Some(tag) => open_tag(text@, start as int, dialect) == Some(tag@) && start < tag.end
                <= text@.len(),
            None => open_tag(text@, start as int, dialect) is None,
        },
{
    let marker = dialect.marker_chars();
    if !occurs_at(text, start, &marker) {
        return None;
    }
    let total: usize = text.len();
    let name_start: usize = start + marker.len();
    let name_end = scan_tag_name(text, name_start);
    if name_end == name_start {
        return None;
    }
    let name = slice_string(text, name_start, name_end);
    let mut attrs: Vec<(String, String)> = Vec::new();
    let mut cursor: usize = name_end;
    proof {
        lemma_open_tag(text@, start as int, dialect);
    }
    loop
        invariant
            cursor <= total == text@.len(),
            open_tag(text@, start as int, dialect) == attributes(
                text@,
                cursor as int,
                name@,
                pairs_map(attrs@),
            ),
            open_tag(text@, start as int, dialect) matches Some(tag) ==> start < tag.end
                <= text@.len(),
        decreases text@.len() - cursor,
    {
        let ghost before = cursor as int;
        cursor = skip_whitespace(text, cursor);
        if cursor >= text.len() {
            return None;
        }
        if text[cursor] == '>' {
            return Some(ParsedTag { name, attrs, self_closing: false, end: cursor + 1 });
        }
        if text[cursor] == '/' {
            let gt = skip_whitespace(text, cursor + 1);
            if gt >= text.len() || text[gt] != '>' {
                return None;
            }
            return Some(ParsedTag { name, attrs, self_closing: true, end: gt + 1 });
        }
        match parse_attribute(text, cursor) {
            Some((key, value, end)) => {
                if pairs_get(&attrs, key.as_str()).is_some() {
                    return None;
                }
                if end < text.len() && !is_whitespace(text[end]) && text[end] != '/' && text[end]
                    != '>' {
                    return None;
                }
                proof {
                    lemma_pairs_push(attrs@, (key, value));
                }
                attrs.push((key, value));
                cursor = end;
            },
            None => {
                return None;
            },
        }
    }
}

/// Whether the last character before `end` that is no white space is `/`.
fn ends_in_slash(text: &Vec<char>, end: usize) -> (r: bool)
    requires
        end <= text@.len(),
    ensures
        r == slash_before(text@, end as int),
{
    let mut i: usize = end;
    while i > 0 && is_whitespace(text[i - 1])
        invariant
            i <= end <= text@.len(),
            slash_before(text@, end as int) == slash_before(text@, i as int),
        decreases i,
    {
        i = i - 1;
    }
    i > 0 && text[i - 1] == '/'
}

/// Locate a tag boundary without accepting its attributes. Recovery needs to
/// skip a malformed candidate before looking for a later sibling. Unclosed
/// quotes remain unbounded and therefore fail closed.
pub fn scan_open_tag(text: &Vec<char>, start: usize, dialect: DsmlDialect) -> (r: Option<
    ParsedTag,
>)
    ensures
        match r {
            Some(tag) => scanned_tag(text@, start as int, dialect) == Some(tag@) && start < tag.end
                <= text@.len(),
            None => scanned_tag(text@, start as int, dialect) is None,
        },
{
    let marker = dialect.marker_chars();
    if !occurs_at(text, start, &marker) {
        return None;
    }
    let total: usize = text.len();
    let name_start: usize = start + marker.len();
    let name_end = scan_tag_name(text, name_start);
    if name_end == name_start {
        return None;
    }
    let name = slice_string(text, name_start, name_end);
    let mut in_quotes = false;
    let mut escaped = false;
    let mut cursor: usize = name_end;
    proof {
        lemma_scanned_tag(text@, start as int, dialect);
    }
    while cursor < text.len()
        invariant
            name_end <= cursor <= text@.len(),
            start <= name_start < name_end,
            tag_end(text@, name_end as int, false, false) == tag_end(
                text@,
                cursor as int,
                in_quotes,
                escaped,
            ),
            !in_quotes ==> !escaped,
            name@ == text@.subrange(name_start as int, name_end as int),
            scanned_tag(text@, start as int, dialect) == (match tag_end(
                text@,
                name_end as int,
                false,
                false,
            ) {
                Some(end) => Some(
                    TagV {
                        name: name@,
                        attrs: Map::empty(),
                        self_closing: slash_before(text@, end - 1),
                        end,
                    },
                ),
                None => None,
            }),
        decreases text@.len() - cursor,
    {
        let ch = text[cursor];
        cursor = cursor + 1;
        if in_quotes {
            if escaped {
                escaped = false;
            } else if ch == '\\' {
                escaped = true;
            } else if ch == '"' {
                in_quotes = false;
            }
        } else if ch == '"' {
            in_quotes = true;
        } else if ch == '>' {
            let self_closing = ends_in_slash(text, cursor - 1);
            return Some(ParsedTag { name, attrs: Vec::new(), self_closing, end: cursor });
        }
    }
    None
}

/// The value of a parameter body of the given kind: the raw text for `true`,
/// the JSON value that was read out of it for `false`.
pub fn parameter_value(kind: &str, raw: String, parsed: Option<Json>) -> (r: Option<Json>)
    ensures
        opt_json(r) == parameter_value_of(
            kind@,
            raw@,
            opt_json(parsed),
        ),
{
    if same(kind, "true") {
        Some(Json::Str(raw))
    } else if same(kind, "false") {
        parsed
    } else {
        None
    }
}

/// Whether a found position lies before `limit`.
fn is_before(found: Option<usize>, limit: usize) -> (r: bool)
    ensures
        r == (found matches Some(at) && at < limit),
{
    match found {
        Some(at) => at < limit,
        None => false,
    }
}

/// The value of the parameter whose tag was read, and the position behind it.
fn parse_parameter(text: &Vec<char>, tag: &ParsedTag, dialect: DsmlDialect) -> (r: Option<
    (Json, usize),
>)
    requires
        tag.end <= text@.len(),
    ensures
        match r {
            Some((value, next)) => parameter(text@, tag@, dialect) == Some((value@, next as int))
                && tag.end <= next <= text@.len(),
            None => parameter(text@, tag@, dialect) is None,
        },
{
    proof {
        lemma_parameter(text@, tag@, dialect);
    }
    let string = pairs_get(&tag.attrs, "string");
    if dialect == DsmlDialect::DoubleBar && same(tag.name.as_str(), "invoke") && tag.self_closing {
        return match string {
            Some(v) => Some((Json::Str(v.clone()), tag.end)),
            None => None,
        };
    }
    if !same(tag.name.as_str(), "parameter") || tag.self_closing {
        return None;
    }
    let kind = match string {
        Some(v) => v,
        None => {
            return None;
        },
    };
    let closing = dialect.parameter_close_chars();
    let close = match find(text, tag.end, &closing) {
        Some(c) => c,
        None => {
            return None;
        },
    };
    proof {
        lemma_find_from(text@, tag.end as int, closing@);
    }
    if is_before(find(text, tag.end, &dialect.marker_chars()), close) || is_before(
        find(text, tag.end, &dialect.invoke_close_chars()),
        close,
    ) {
        return None;
    }
    let total: usize = text.len();
    let raw = slice_string(text, tag.end, close);
    let trimmed_raw = trim_slice(text, tag.end, close);
    let parsed = Json::parse(trimmed_raw.as_str());
    match parameter_value(kind.as_str(), raw, parsed) {
        Some(v) => Some((v, close + closing.len())),
        None => None,
    }
}

fn parse_invoke(text: &Vec<char>, start: usize, dialect: DsmlDialect) -> (r: Option<
    (usize, DsmlToolCall),
>)
    ensures
        match r {
            Some((end, call)) => invoke(text@, start as int, dialect) == Some((end as int, call@))
                && start < end <= text@.len(),
            None => invoke(text@, start as int, dialect) is None,
        },
{
    proof {
        lemma_invoke(text@, start as int, dialect);
    }
    let tag = match parse_open_tag(text, start, dialect) {
        Some(tag) => tag,
        None => {
            return None;
        },
    };
    if !same(tag.name.as_str(), "invoke") || tag.self_closing {
        return None;
    }
    let name = match pairs_get(&tag.attrs, "name") {
        Some(n) => n.clone(),
        None => {
            return None;
        },
    };
    if name.as_str().is_empty() {
        return None;
    }
    let total: usize = text.len();
    let closing = dialect.invoke_close_chars();
    let mut arguments = Json::object();
    let mut cursor: usize = tag.end;
    loop
        invariant
            cursor <= total == text@.len(),
            closing@ == dialect.invoke_close(),
            arguments@ is Obj,
            parameters(text@, tag.end as int, dialect, Map::empty()) == parameters(
                text@,
                cursor as int,
                dialect,
                arguments@->Obj_0,
            ),
            name@.len() > 0,
            invoke(text@, start as int, dialect) == (match parameters(
                text@,
                tag.end as int,
                dialect,
                Map::empty(),
            ) {
                Some((end, args)) => Some(
                    (end, CallV { name: name@, arguments: json_text(JsonV::Obj(args)) }),
                ),
                None => None,
            }),
            invoke(text@, start as int, dialect) matches Some((end, _)) ==> start < end
                <= text@.len(),
        decreases text@.len() - cursor,
    {
        cursor = skip_whitespace(text, cursor);
        if occurs_at(text, cursor, &closing) {
            let call = DsmlToolCall { name, arguments: arguments.to_text() };
            return Some((cursor + closing.len(), call));
        }
        let parameter_tag = match parse_open_tag(text, cursor, dialect) {
            Some(t) => t,
            None => {
                return None;
            },
        };
        let parameter_name = match pairs_get(&parameter_tag.attrs, "name") {
            Some(n) => n.clone(),
            None => {
                return None;
            },
        };
        let (value, next) = match parse_parameter(text, &parameter_tag, dialect) {
            Some(p) => p,
            None => {
                return None;
            },
        };
        if parameter_name.as_str().is_empty() || arguments.get(
            parameter_name.as_str(),
        ).is_some() {
            return None;
        }
        arguments = arguments.set(parameter_name.as_str(), value);
        cursor = next;
    }
}

/// Find the balanced end of a malformed invoke so recovery never descends
/// into a nested, valid-looking call and executes it out of context.
fn malformed_invoke_end(text: &Vec<char>, start: usize, dialect: DsmlDialect) -> (r: Option<usize>)
    ensures
        match r {
            Some(end) => malformed_end(text@, start as int, dialect) == Some(end as int) && start
                < end <= text@.len(),
            None => malformed_end(text@, start as int, dialect) is None,
        },
{
    proof {
        lemma_malformed_end(text@, start as int, dialect);
        lemma_dialect(dialect);
    }
    let outer = match scan_open_tag(text, start, dialect) {
        Some(tag) => tag,
        None => {
            return None;
        },
    };
    if !same(outer.name.as_str(), "invoke") || outer.self_closing {
        return Some(outer.end);
    }
    let marker = dialect.marker_chars();
    let foreign_marker = dialect.other_dialect().marker_chars();
    let closing = dialect.invoke_close_chars();
    let parameter_closing = dialect.parameter_close_chars();
    let total: usize = text.len();
    let mut depth: usize = 1;
    let mut cursor: usize = outer.end;
    while cursor < text.len()
        invariant
            cursor <= total == text@.len(),
            1 <= depth <= cursor,
            marker@ == dialect.marker(),
            foreign_marker@ == dialect.other().marker(),
            closing@ == dialect.invoke_close(),
            parameter_closing@ == dialect.parameter_close(),
            closing@.len() > 0,
            parameter_closing@.len() > 0,
            malformed_end(text@, start as int, dialect) == balanced_end(
                text@,
                cursor as int,
                dialect,
                depth as int,
            ),
            malformed_end(text@, start as int, dialect) matches Some(end) ==> start < end
                <= text@.len(),
        decreases text@.len() - cursor,
    {
        let foreign = find(text, cursor, &foreign_marker);
        let open = find(text, cursor, &marker);
        let close = find(text, cursor, &closing);
        proof {
            lemma_find_from(text@, cursor as int, foreign_marker@);
            lemma_find_from(text@, cursor as int, marker@);
            lemma_find_from(text@, cursor as int, closing@);
        }
        let closes = match (open, close) {
            (None, Some(c)) => Some(c),
            (Some(o), Some(c)) => if c < o {
                Some(c)
            } else {
                None
            },
            _ => None,
        };
        if let Some(c) = closes {
            if is_before(foreign, c) {
                return None;
            }
            cursor = c + closing.len();
            if depth == 1 {
                return Some(cursor);
            }
            depth = depth - 1;
        } else if let Some(o) = open {
            if is_before(foreign, o) {
                return None;
            }
            let tag = match scan_open_tag(text, o, dialect) {
                Some(tag) => tag,
                None => {
                    return None;
                },
            };
            if same(tag.name.as_str(), "invoke") && !tag.self_closing {
                depth = depth + 1;
                cursor = tag.end;
            } else if same(tag.name.as_str(), "parameter") && !tag.self_closing {
                let c = match find(text, tag.end, &parameter_closing) {
                    Some(c) => c,
                    None => {
                        return None;
                    },
                };
                proof {
                    lemma_find_from(text@, tag.end as int, parameter_closing@);
                }
                if is_before(find(text, tag.end, &marker), c) {
                    return None;
                }
                cursor = c + parameter_closing.len();
            } else {
                cursor = tag.end;
            }
        } else {
            return None;
        }
    }
    None
}

/// Whether a call of the dialect may start at `at`.
fn may_start_invoke(text: &Vec<char>, at: usize, dialect: DsmlDialect) -> (r: bool)
    ensures
        r == invoke_at(text@, at as int, dialect),
{
    let opening = dialect.invoke_open_chars();
    if !occurs_at(text, at, &opening) {
        return false;
    }
    let total: usize = text.len();
    let after: usize = at + opening.len();
    after < text.len() && (is_whitespace(text[after]) || text[after] == '>')
}

/// The first place at or after `from` where a call may start.
fn find_next_invoke(text: &Vec<char>, from: usize) -> (r: Option<(DsmlDialect, usize)>)
    ensures
        match r {
            Some((d, start)) => next_invoke(text@, from as int) == Some((d, start as int)) && from
                <= start < text@.len(),
            None => next_invoke(text@, from as int) is None,
        },
{
    let mut i: usize = from;
    while i < text.len()
        invariant
            from <= i,
            i <= text@.len() || i == from,
            next_invoke(text@, from as int) == next_invoke(text@, i as int),
        decreases text@.len() - i,
    {
        if may_start_invoke(text, i, DsmlDialect::DoubleBar) {
            return Some((DsmlDialect::DoubleBar, i));
        }
        if may_start_invoke(text, i, DsmlDialect::SingleBar) {
            return Some((DsmlDialect::SingleBar, i));
        }
        i = i + 1;
    }
    None
}

/// The first envelope of the dialect that holds nothing but white space.
fn find_empty_envelope(text: &Vec<char>, dialect: DsmlDialect) -> (r: Option<(usize, usize)>)
    ensures
        match r {
            Some((a, b)) => empty_envelope(text@, 0, dialect) == Some((a as int, b as int)) && a < b
                <= text@.len(),
            None => empty_envelope(text@, 0, dialect) is None,
        },
{
    let opening = dialect.calls_open_chars();
    let closing = dialect.calls_close_chars();
    let total: usize = text.len();
    let mut search_from: usize = 0;
    proof {
        lemma_dialect(dialect);
        lemma_empty_envelope(text@, 0, dialect);
    }
    loop
        invariant
            search_from <= total == text@.len(),
            opening@ == dialect.calls_open(),
            closing@ == dialect.calls_close(),
            opening@.len() > 0,
            closing@.len() > 0,
            empty_envelope(text@, 0, dialect) == empty_envelope(
                text@,
                search_from as int,
                dialect,
            ),
            empty_envelope(text@, 0, dialect) matches Some((a, b)) ==> 0 <= a < b <= text@.len(),
        decreases text@.len() - search_from,
    {
        let open = match find(text, search_from, &opening) {
            Some(o) => o,
            None => {
                return None;
            },
        };
        proof {
            lemma_find_from(text@, search_from as int, opening@);
        }
        let inner: usize = open + opening.len();
        let close = match find(text, inner, &closing) {
            Some(c) => c,
            None => {
                return None;
            },
        };
        proof {
            lemma_find_from(text@, inner as int, closing@);
        }
        let end: usize = close + closing.len();
        if is_blank(text, inner, close) {
            return Some((open, end));
        }
        search_from = end;
    }
}

/// Remove only matched envelope pairs whose contents became empty after all
/// successfully parsed invokes were removed. If malformed markup remains,
/// both wrappers stay intact rather than deleting only one side.
pub fn strip_empty_envelopes(text: Vec<char>) -> (r: Vec<char>)
    ensures
        r@ == stripped(text@),
{
    let mut cur = text;
    loop
        invariant
            stripped(text@) == stripped(cur@),
        decreases cur@.len(),
    {
        let found = match find_empty_envelope(&cur, DsmlDialect::DoubleBar) {
            Some(p) => Some(p),
            None => find_empty_envelope(&cur, DsmlDialect::SingleBar),
        };
        match found {
            Some((a, b)) => {
                let mut next = slice_chars(&cur, 0, a);
                let mut tail = slice_chars(&cur, b, cur.len());
                next.append(&mut tail);
                assert(next@ =~= without(cur@, a as int, b as int));
                cur = next;
            },
            None => {
                return cur;
            },
        }
    }
}

/// Parse leaked DSML tool-call markup out of `text`.
///
/// Returns the cleaned visible text plus the parsed calls, or `None` when no
/// complete call could be parsed (the text is then left untouched so nothing
/// is lost).
pub fn parse_leaked_tool_calls(text: &str) -> (r: Option<(String, Vec<DsmlToolCall>)>)
    ensures
        match r {
            Some((cleaned, calls)) => leaked(text@) == Some((cleaned@, calls_view(calls@))),
            None => leaked(text@) is None,
        },
{
    let chars = to_chars(text);
    parse_leaked(&chars)
}

fn parse_leaked(text: &Vec<char>) -> (r: Option<(String, Vec<DsmlToolCall>)>)
    ensures
        match r {
            Some((cleaned, calls)) => leaked(text@) == Some((cleaned@, calls_view(calls@))),
            None => leaked(text@) is None,
        },
{
    let mut calls: Vec<DsmlToolCall> = Vec::new();
    let mut cleaned: Vec<char> = Vec::new();
    let mut copied: usize = 0;
    let mut search_from: usize = 0;
    let ghost whole = extract_all(text@);
    assert(calls_view(calls@) =~= Seq::<CallV>::empty());
    loop
        invariant_except_break
            copied <= search_from <= text@.len(),
            whole == extract_all(text@),
            whole == extract(
                text@,
                search_from as int,
                copied as int,
                Extracted { text: cleaned@, calls: calls_view(calls@) },
            ),
        ensures
            copied <= text@.len(),
            whole == (Extracted {
                text: cleaned@ + text@.subrange(copied as int, text@.len() as int),
                calls: calls_view(calls@),
            }),
        decreases text@.len() - search_from,
    {
        match find_next_invoke(text, search_from) {
            Some((dialect, start)) => {
                match parse_invoke(text, start, dialect) {
                    Some((end, call)) => {
                        let mut piece = slice_chars(text, copied, start);
                        cleaned.append(&mut piece);
                        let ghost before = calls@;
                        calls.push(call);
                        assert(calls_view(calls@) =~= calls_view(before).push(call@));
                        copied = end;
                        search_from = end;
                    },
                    None => {
                        match malformed_invoke_end(text, start, dialect) {
                            Some(end) => {
                                search_from = end;
                            },
                            None => {
                                break ;
                            },
                        }
                    },
                }
            },
            None => {
                break ;
            },
        }
    }
    if calls.is_empty() {
        return None;
    }
    let mut tail = slice_chars(text, copied, text.len());
    cleaned.append(&mut tail);
    let visible = strip_empty_envelopes(cleaned);
    assert(visible@.subrange(0, visible@.len() as int) =~= visible@);
    Some((slice_string(&visible, 0, visible.len()), calls))
}

/// The markers of the two dialects.
pub open spec fn dsml_markers() -> Seq<Seq<char>> {
    seq![DsmlDialect::DoubleBar.marker(), DsmlDialect::SingleBar.marker()]
}

pub proof fn lemma_dsml_markers()
    ensures
        well_marked(dsml_markers()),
{
    reveal_strlit("<｜｜DSML｜｜");
    reveal_strlit("<｜DSML｜");
    let ts = dsml_markers();
    assert forall|k: int, l: int| 0 <= k < 2 && 0 <= l < 2 && k != l implies differs(
        #[trigger] ts[k],
        #[trigger] ts[l],
    ) by {
        assert(ts[k][2] != ts[l][2]);
    }
}

/// The markers as character vectors.
fn marker_list() -> (r: Vec<Vec<char>>)
    ensures
        texts(r@) == dsml_markers(),
{
    let mut out: Vec<Vec<char>> = Vec::new();
    out.push(DsmlDialect::DoubleBar.marker_chars());
    out.push(DsmlDialect::SingleBar.marker_chars());
    assert(texts(out@) =~= dsml_markers());
    out
}

/// Where the first marker of any dialect stands in `text`.
fn detect_dialect(text: &Vec<char>) -> (r: Option<usize>)
    ensures
        match r {
            Some(at) => first_marker(text@, 0, dsml_markers()) matches Some((a, _)) && a == at && at
                < text@.len(),
            None => first_marker(text@, 0, dsml_markers()) is None,
        },
{
    let list = marker_list();
    proof {
        lemma_first_marker(text@, 0, dsml_markers());
    }
    match find_marker(text, &list) {
        Some((at, _)) => Some(at),
        None => None,
    }
}

/// The length of the longest end of `text` that is a proper prefix of a
/// dialect's marker.
fn longest_marker_prefix_suffix(text: &Vec<char>) -> (r: usize)
    ensures
        r == withheld(text@, dsml_markers()),
        r <= text@.len(),
{
    let list = marker_list();
    longest_prefix_suffix(text, &list)
}

/// The state of a [`DsmlStreamFilter`].
pub struct DsmlState {
    /// What is withheld.
    pub pending: Seq<char>,
    pub in_dsml: bool,
    pub enabled: bool,
    pub fired: bool,
}

/// How much of `p` is safe to emit: what stands before a marker, or before an
/// end that could grow into one.
pub open spec fn safe_len(p: Seq<char>) -> int {
    match first_marker(p, 0, dsml_markers()) {
        Some((at, _)) => at,
        None => p.len() - withheld(p, dsml_markers()),
    }
}

impl DsmlState {
    /// The state of a fresh filter.
    pub open spec fn fresh(enabled: bool) -> DsmlState {
        DsmlState { pending: Seq::empty(), in_dsml: false, enabled, fired: false }
    }

    /// What a delta makes the filter emit.
    pub open spec fn emits(self, delta: Seq<char>) -> Seq<char> {
        if !self.enabled {
            delta
        } else if self.in_dsml {
            Seq::empty()
        } else {
            let p = self.pending + delta;
            p.take(safe_len(p))
        }
    }

    /// The state after a delta.
    pub open spec fn after(self, delta: Seq<char>) -> DsmlState {
        let p = self.pending + delta;
        if !self.enabled {
            self
        } else if self.in_dsml {
            DsmlState { pending: p, ..self }
        } else {
            let found = first_marker(p, 0, dsml_markers()) is Some;
            DsmlState {
                pending: p.skip(safe_len(p)),
                in_dsml: found,
                enabled: true,
                fired: self.fired || found,
            }
        }
    }

    /// The visible text and the calls that the end of the stream releases.
    pub open spec fn rest(self) -> (Seq<char>, Seq<CallV>) {
        if !self.in_dsml {
            (self.pending, Seq::empty())
        } else {
            match leaked(self.pending) {
                Some((cleaned, calls)) => (cleaned, calls),
                None => (self.pending, Seq::empty()),
            }
        }
    }
}

pub proof fn lemma_safe_len(p: Seq<char>)
    ensures
        0 <= safe_len(p) <= p.len(),
{
    lemma_first_marker(p, 0, dsml_markers());
    lemma_longest_growing(p, dsml_markers(), p.len() as int);
}

/// Feeding `a`, then `b`, emits what feeding `a + b` emits and leaves the same
/// state: where the deltas are cut does not matter.
pub proof fn chunk_boundaries_do_not_matter(st: DsmlState, a: Seq<char>, b: Seq<char>)
    ensures
        st.emits(a + b) == st.emits(a) + st.after(a).emits(b),
        st.after(a + b) == st.after(a).after(b),
{
    let ts = dsml_markers();
    let x = st.pending + a;
    assert(st.pending + (a + b) =~= x + b);
    if st.enabled && !st.in_dsml {
        lemma_dsml_markers();
        lemma_safe_len(x);
        let keep = safe_len(x);
        if first_marker(x, 0, ts) is Some {
            lemma_marker_kept(x, b, ts);
            assert((x + b).take(keep) =~= x.take(keep) + Seq::<char>::empty());
            assert((x + b).skip(keep) =~= x.skip(keep) + b);
        } else {
            lemma_withheld_enough(x, b, ts);
            let z = x.skip(keep) + b;
            lemma_safe_len(z);
            lemma_safe_len(x + b);
            assert(safe_len(x + b) == keep + safe_len(z));
            assert((x + b).take(keep + safe_len(z)) =~= x.take(keep) + z.take(safe_len(z)));
            assert((x + b).skip(keep + safe_len(z)) =~= z.skip(safe_len(z)));
        }
    } else {
        assert(Seq::<char>::empty() =~= Seq::<char>::empty() + Seq::<char>::empty());
    }
}

/// As long as no marker is complete, the text that is emitted followed by the
/// text that is withheld is the text that came in.
pub proof fn text_without_markup_is_kept(st: DsmlState, delta: Seq<char>)
    requires
        !st.in_dsml,
        st.enabled,
    ensures
        st.emits(delta) + st.after(delta).pending == st.pending + delta,
        first_marker(st.pending + delta, 0, dsml_markers()) is None ==> !st.after(delta).in_dsml
            && st.after(delta).fired == st.fired,
{
    let p = st.pending + delta;
    lemma_safe_len(p);
    assert(p.take(safe_len(p)) + p.skip(safe_len(p)) =~= p);
}

/// Incremental DSML filter for streamed text content.
///
/// Feed content deltas through [`DsmlStreamFilter::push`]; it returns the text
/// that is safe to emit downstream. Text that could be (part of) a DSML marker
/// is withheld. Once a marker is confirmed the rest of the stream is buffered
/// and [`DsmlStreamFilter::finish`] returns the cleaned leftover text plus the
/// healed tool calls.
#[derive(Debug)]
pub struct DsmlStreamFilter {
    pending: Vec<char>,
    in_dsml: bool,
    enabled: bool,
    fired: bool,
}

impl View for DsmlStreamFilter {
    type V = DsmlState;

    closed spec fn view(&self) -> DsmlState {
        DsmlState {
            pending: self.pending@,
            in_dsml: self.in_dsml,
            enabled: self.enabled,
            fired: self.fired,
        }
    }
}

impl Default for DsmlStreamFilter {
    fn default() -> (r: DsmlStreamFilter)
        ensures
            r@ == DsmlState::fresh(true),
    {
        DsmlStreamFilter::new(true)
    }
}

impl DsmlStreamFilter {
    /// A filter that heals when `enabled`, or passes all text through
    /// untouched.
    pub fn new(enabled: bool) -> (r: DsmlStreamFilter)
        ensures
            r@ == DsmlState::fresh(enabled),
    {
        DsmlStreamFilter { pending: Vec::new(), in_dsml: false, enabled, fired: false }
    }

    /// Append a content delta; returns the portion that is safe to emit now.
    pub fn push(&mut self, delta: &str) -> (out: String)
        ensures
            out@ == old(self)@.emits(delta@),
            final(self)@ == old(self)@.after(delta@),
    {
        if !self.enabled {
            return delta.to_owned();
        }
        let mut more = to_chars(delta);
        self.pending.append(&mut more);
        if self.in_dsml {
            return String::new();
        }
        proof {
            lemma_safe_len(self.pending@);
        }
        let safe = match detect_dialect(&self.pending) {
            Some(start) => {
                self.in_dsml = true;
                self.fired = true;
                start
            },
            None => self.pending.len() - longest_marker_prefix_suffix(&self.pending),
        };
        let emit = slice_string(&self.pending, 0, safe);
        assert(self.pending@.subrange(0, safe as int) =~= self.pending@.take(safe as int));
        assert(self.pending@.subrange(safe as int, self.pending@.len() as int)
            =~= self.pending@.skip(safe as int));
        self.pending = slice_chars(&self.pending, safe, self.pending.len());
        emit
    }

    /// Whether the filter actually detected DSML markup (a marker
    /// confirmed), as opposed to just withholding a marker-prefix tail.
    pub fn fired(&self) -> (r: bool)
        ensures
            r == self@.fired,
    {
        self.fired
    }

    /// Consume the filter at end of stream. Returns any remaining visible text
    /// and the tool calls healed from buffered DSML markup.
    pub fn finish(self) -> (r: (String, Vec<DsmlToolCall>))
        ensures
            (r.0@, calls_view(r.1@)) == self@.rest(),
    {
        let raw = slice_string(&self.pending, 0, self.pending.len());
        assert(self.pending@.subrange(0, self.pending@.len() as int) =~= self.pending@);
        let none: Vec<DsmlToolCall> = Vec::new();
        assert(calls_view(none@) =~= Seq::<CallV>::empty());
        if !self.in_dsml {
            return (raw, none);
        }
        match parse_leaked(&self.pending) {
            Some((cleaned, calls)) => (cleaned, calls),
            None => (raw, none),
        }
    }

    /// Like [`Self::finish`], but leaves a fresh filter behind, enabled as
    /// this one is.
    pub(crate) fn take(&mut self) -> (r: (String, Vec<DsmlToolCall>))
        ensures
            (r.0@, calls_view(r.1@)) == old(self)@.rest(),
            final(self)@ == DsmlState::fresh(old(self)@.enabled),
    {
        let mut taken = DsmlStreamFilter::new(self.enabled);
        std::mem::swap(self, &mut taken);
        taken.finish()
    }
}

/// The id of a healed call that was drawn as `uuid`.
pub open spec fn call_id_of(uuid: Seq<char>) -> Seq<char> {
    "call_dsml_"@ + uuid
}

/// The Chat Completions form of a call.
pub open spec fn tool_call_json(id: Seq<char>, call: CallV) -> JsonV {
    JsonV::object().set("id"@, JsonV::Str(id)).set("type"@, JsonV::Str("function"@)).set(
        "function"@,
        JsonV::object().set("name"@, JsonV::Str(call.name)).set(
            "arguments"@,
            JsonV::Str(call.arguments),
        ),
    )
}

/// The Chat Completions forms of the calls, the `i`-th with the `i`-th UUID.
pub open spec fn tool_calls_json(calls: Seq<CallV>, uuids: Seq<Seq<char>>) -> Seq<JsonV> {
    Seq::new(calls.len(), |i: int| tool_call_json(call_id_of(uuids[i]), calls[i]))
}

/// The message whose text is `cleaned`, with the calls appended to its tool
/// calls.
pub open spec fn with_calls(
    m: ChatMessageV,
    cleaned: Seq<char>,
    calls: Seq<CallV>,
    uuids: Seq<Seq<char>>,
) -> ChatMessageV {
    let before = match m.tool_calls {
        Some(t) => t,
        None => Seq::empty(),
    };
    ChatMessageV {
        content: if cleaned.len() == 0 {
            None
        } else {
            Some(JsonV::Str(cleaned))
        },
        tool_calls: Some(before + tool_calls_json(calls, uuids)),
        ..m
    }
}

/// Puts healed calls into a message: its text becomes `cleaned`, and the calls
/// are appended to its tool calls, the `i`-th with the `i`-th UUID in its id.
pub fn apply_healed_calls(
    message: &mut ChatMessage,
    cleaned: String,
    calls: Vec<DsmlToolCall>,
    uuids: Vec<String>,
)
    requires
        uuids@.len() == calls@.len(),
    ensures
        final(message)@ == with_calls(old(message)@, cleaned@, calls_view(calls@), views(uuids@)),
{
    message.content = if cleaned.as_str().is_empty() {
        None
    } else {
        Some(Json::Str(cleaned))
    };
    let mut tool_calls: Vec<Json> = match message.tool_calls.take() {
        Some(t) => t,
        None => Vec::new(),
    };
    let ghost before = items_view(tool_calls@);
    let ghost all = tool_calls_json(calls_view(calls@), views(uuids@));
    let mut i: usize = 0;
    assert(before + all.take(0) =~= before);
    while i < calls.len()
        invariant
            i <= calls@.len() == uuids@.len(),
            all == tool_calls_json(calls_view(calls@), views(uuids@)),
            items_view(tool_calls@) == before + all.take(i as int),
        decreases calls@.len() - i,
    {
        let id = concat2("call_dsml_", uuids[i].as_str());
        let function = Json::object().set("name", Json::Str(calls[i].name.clone())).set(
            "arguments",
            Json::Str(calls[i].arguments.clone()),
        );
        let item = Json::object().set("id", Json::Str(id)).set("type", Json::str("function")).set(
            "function",
            function,
        );
        proof {
            lemma_items_push(tool_calls@, item);
            assert(item@ == all[i as int]);
            assert(before + all.take(i + 1) =~= (before + all.take(i as int)).push(all[i as int]));
        }
        tool_calls.push(item);
        i = i + 1;
    }
    assert(all.take(i as int) =~= all);
    message.tool_calls = Some(tool_calls);
}

/// Whether `after` is the message `before` with its leaked calls healed, their
/// ids made of `uuids`; a message without leaked calls stays as it is.
pub open spec fn dsml_healed(
    before: ChatMessageV,
    after: ChatMessageV,
    uuids: Seq<Seq<char>>,
) -> bool {
    match leaked(before.text()) {
        None => after == before,
        Some((cleaned, calls)) => {
            &&& are_uuids(uuids, calls.len())
            &&& after == with_calls(before, cleaned, calls, uuids)
        },
    }
}

/// Heal a blocking Chat Completions assistant message in place: parse leaked
/// DSML markup in its text content into structured `tool_calls` entries and
/// strip the markup from the visible text.
pub fn heal_dsml_chat_message(message: &mut ChatMessage)
    ensures
        exists|uuids: Seq<Seq<char>>| #[trigger]
            dsml_healed(old(message)@, final(message)@, uuids),
{
    let text = message.text_content().to_owned();
    match parse_leaked_tool_calls(text.as_str()) {
        Some((cleaned, calls)) => {
            let uuids = fresh_ids(calls.len());
            let ghost ids = views(uuids@);
            apply_healed_calls(message, cleaned, calls, uuids);
            assert(dsml_healed(old(message)@, message@, ids));
        },
        None => {
            assert(dsml_healed(old(message)@, message@, Seq::empty()));
        },
    }
}

} // verus!
