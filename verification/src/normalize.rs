//! Names of namespaced tools: Chat Completions has no namespaces, so a tool is
//! bound there under an encoded name that is decoded again in answers.
use crate::json::{
    items_view, json_text, json_view, lemma_items_push, lemma_items_view, Json, JsonV,
};
use crate::text::{concat3, same, views};
use crate::wire::chat::opt_str;
use vstd::prelude::*;

verus! {

/// A tool name and the namespace that it belongs to.
#[derive(Debug, Clone, PartialEq, Eq)]
pub struct NamespaceToolName {
    pub namespace: String,
    pub name: String,
}

/// What a [`NamespaceToolName`] denotes.
pub struct ToolNameV {
    pub namespace: Seq<char>,
    pub name: Seq<char>,
}

impl View for NamespaceToolName {
    type V = ToolNameV;

    open spec fn view(&self) -> ToolNameV {
        ToolNameV { namespace: self.namespace@, name: self.name@ }
    }
}

/// Encoded tool names, and the namespaced names that they stand for.
#[derive(Debug)]
pub struct NamespaceToolMap {
    entries: Vec<(String, NamespaceToolName)>,
}

/// The map that a list of entries denotes; a later entry shadows an earlier
/// one.
pub open spec fn names_map(s: Seq<(String, NamespaceToolName)>) -> Map<Seq<char>, ToolNameV>
    decreases s.len(),
{
    if s.len() == 0 {
        Map::empty()
    } else {
        names_map(s.drop_last()).insert(s.last().0@, s.last().1@)
    }
}

impl View for NamespaceToolMap {
    type V = Map<Seq<char>, ToolNameV>;

    closed spec fn view(&self) -> Map<Seq<char>, ToolNameV> {
        names_map(self.entries@)
    }
}

impl Default for NamespaceToolMap {
    fn default() -> (r: NamespaceToolMap)
        ensures
            r@ == Map::<Seq<char>, ToolNameV>::empty(),
    {
        NamespaceToolMap::new()
    }
}

impl NamespaceToolMap {
    /// The map without entries.
    pub fn new() -> (r: NamespaceToolMap)
        ensures
            r@ == Map::<Seq<char>, ToolNameV>::empty(),
    {
        NamespaceToolMap { entries: Vec::new() }
    }

    /// Sets the name that `key` stands for.
    pub fn insert(&mut self, key: String, name: NamespaceToolName)
        ensures
            final(self)@ == old(self)@.insert(key@, name@),
    {
        let entry = (key, name);
        assert(self.entries@.push(entry).drop_last() =~= self.entries@);
        self.entries.push(entry);
    }

    /// The name that `key` stands for.
    pub fn get(&self, key: &str) -> (r: Option<&NamespaceToolName>)
        ensures
            match r {
                Some(n) => self@.dom().contains(key@) && self@[key@] == n@,
                None => !self@.dom().contains(key@),
            },
    {
        let mut i: usize = self.entries.len();
        assert(self.entries@.take(i as int) =~= self.entries@);
        while i > 0
            invariant
                i <= self.entries@.len(),
                names_map(self.entries@.take(i as int)).dom().contains(key@) == self@.dom().contains(
                    key@,
                ),
                names_map(self.entries@.take(i as int)).dom().contains(key@) ==> names_map(
                    self.entries@.take(i as int),
                )[key@] == self@[key@],
            decreases i,
        {
            i = i - 1;
            assert(self.entries@.take(i + 1).drop_last() =~= self.entries@.take(i as int));
            assert(self.entries@.take(i + 1).last() == self.entries@[i as int]);
            if same(self.entries[i].0.as_str(), key) {
                return Some(&self.entries[i].1);
            }
        }
        None
    }
}

impl NamespaceToolMap {
    /// Sets the name that `key` stands for, unless it stands for one already.
    pub fn insert_if_absent(&mut self, key: String, name: NamespaceToolName)
        ensures
            final(self)@ == first_kept(old(self)@, key@, name@),
    {
        if self.get(key.as_str()).is_none() {
            self.insert(key, name);
        }
    }
}

/// The map with `key` standing for `name`, unless it stands for one already.
pub open spec fn first_kept(
    names: Map<Seq<char>, ToolNameV>,
    key: Seq<char>,
    name: ToolNameV,
) -> Map<Seq<char>, ToolNameV> {
    if names.dom().contains(key) {
        names
    } else {
        names.insert(key, name)
    }
}

/// The Chat Completions name of a namespaced tool.
pub open spec fn encoded_name(namespace: Seq<char>, name: Seq<char>) -> Seq<char> {
    namespace + "-"@ + name
}

/// The Chat Completions name of a namespaced tool.
pub fn chat_function_name_for_namespace_tool(namespace: &str, name: &str) -> (r: String)
    ensures
        r@ == encoded_name(namespace@, name@),
{
    concat3(namespace, "-", name)
}

/// Whether a tool has a type that Chat Completions can bind, and a name.
pub open spec fn mappable(tool: JsonV) -> bool {
    let kind = tool.get_str("type"@);
    &&& kind == Some("function"@) || kind == Some("custom"@) || kind == Some("freeform"@)
    &&& tool.get_str("name"@) is Some
}

fn is_mappable(tool: &Json) -> (r: bool)
    ensures
        r == mappable(tool@),
{
    (tool.field_is("type", "function") || tool.field_is("type", "custom") || tool.field_is(
        "type",
        "freeform",
    )) && tool.get_str("name").is_some()
}

/// Flat tools, and the namespaced names that they stand for.
pub struct FlatV {
    pub tools: Seq<JsonV>,
    pub names: Map<Seq<char>, ToolNameV>,
}

/// Whether a tool of that name is in the list.
pub open spec fn has_tool(tools: Seq<JsonV>, name: Seq<char>) -> bool {
    exists|i: int| 0 <= i < tools.len() && (#[trigger] tools[i]).get_str("name"@) == Some(name)
}

/// The tools with `tool` appended, unless one of its name is there already.
pub open spec fn with_tool(tools: Seq<JsonV>, tool: JsonV) -> Seq<JsonV> {
    if !mappable(tool) || has_tool(tools, tool.get_str("name"@)->0) {
        tools
    } else {
        tools.push(tool)
    }
}

/// The flat tools after the first `n` tools of a namespace: each tool that can
/// be bound gets its encoded name.
pub open spec fn with_namespace_tools(
    flat: FlatV,
    namespace: Seq<char>,
    inner: Seq<JsonV>,
    n: int,
) -> FlatV
    decreases n,
{
    if n <= 0 {
        flat
    } else {
        let before = with_namespace_tools(flat, namespace, inner, n - 1);
        let tool = inner[n - 1];
        if !mappable(tool) {
            before
        } else {
            let name = tool.get_str("name"@)->0;
            let encoded = encoded_name(namespace, name);
            FlatV {
                tools: with_tool(before.tools, tool.set("name"@, JsonV::Str(encoded))),
                names: first_kept(before.names, encoded, ToolNameV { namespace, name }),
            }
        }
    }
}

/// The flat tools after one tool: a namespace is flattened, a tool that cannot
/// be bound is dropped.
pub open spec fn with_any_tool(flat: FlatV, tool: JsonV) -> FlatV {
    if tool.get_str("type"@) == Some("namespace"@) {
        match (tool.get_str("name"@), tool.get_arr("tools"@)) {
            (Some(namespace), Some(inner)) => with_namespace_tools(
                flat,
                namespace,
                inner,
                inner.len() as int,
            ),
            _ => flat,
        }
    } else {
        FlatV { tools: with_tool(flat.tools, tool), names: flat.names }
    }
}

/// The flat tools after the first `n` tools.
pub open spec fn with_tools(flat: FlatV, tools: Seq<JsonV>, n: int) -> FlatV
    decreases n,
{
    if n <= 0 {
        flat
    } else {
        with_any_tool(with_tools(flat, tools, n - 1), tools[n - 1])
    }
}

/// The flat tools after the first `n` items: the tools of `additional_tools`
/// items are hoisted.
pub open spec fn with_hoisted(flat: FlatV, items: Seq<JsonV>, n: int) -> FlatV
    decreases n,
{
    if n <= 0 {
        flat
    } else {
        let before = with_hoisted(flat, items, n - 1);
        let item = items[n - 1];
        match item.get_arr("tools"@) {
            Some(tools) => if item.get_str("type"@) == Some("additional_tools"@) {
                with_tools(before, tools, tools.len() as int)
            } else {
                before
            },
            None => before,
        }
    }
}

/// The tools of a request that Chat Completions can bind, each name once: its
/// own tools, then those that its history and its input carry.
pub open spec fn flat_tools(
    tools: Seq<JsonV>,
    history: Seq<JsonV>,
    input: Seq<JsonV>,
) -> FlatV {
    let empty = FlatV { tools: Seq::empty(), names: Map::empty() };
    let own = with_tools(empty, tools, tools.len() as int);
    let replayed = with_hoisted(own, history, history.len() as int);
    with_hoisted(replayed, input, input.len() as int)
}

/// Whether a tool of that name is in the list.
fn find_tool(tools: &Vec<Json>, name: &str) -> (r: bool)
    ensures
        r == has_tool(items_view(tools@), name@),
{
    proof {
        lemma_items_view(tools@);
    }
    let mut i: usize = 0;
    while i < tools.len()
        invariant
            i <= tools@.len(),
            items_view(tools@).len() == tools@.len(),
            forall|k: int|
                0 <= k < i ==> (#[trigger] items_view(tools@)[k]).get_str("name"@) != Some(name@),
        decreases tools@.len() - i,
    {
        proof {
            lemma_items_view(tools@);
        }
        if tools[i].field_is("name", name) {
            assert(items_view(tools@)[i as int].get_str("name"@) == Some(name@));
            return true;
        }
        i = i + 1;
    }
    false
}

/// Appends a tool, unless it cannot be bound or one of its name is there.
fn add_tool(tools: &mut Vec<Json>, tool: Json)
    ensures
        items_view(final(tools)@) == with_tool(items_view(old(tools)@), tool@),
{
    if !is_mappable(&tool) {
        return;
    }
    let found = match tool.get_str("name") {
        Some(name) => find_tool(tools, name),
        None => true,
    };
    if !found {
        proof {
            lemma_items_push(tools@, tool);
        }
        tools.push(tool);
    }
}

fn add_namespace_tools(
    tools: &mut Vec<Json>,
    names: &mut NamespaceToolMap,
    namespace: &str,
    inner: &Vec<Json>,
)
    ensures
        (FlatV { tools: items_view(final(tools)@), names: final(names)@ }) == with_namespace_tools(
            FlatV { tools: items_view(old(tools)@), names: old(names)@ },
            namespace@,
            items_view(inner@),
            inner@.len() as int,
        ),
{
    let ghost start = FlatV { tools: items_view(tools@), names: names@ };
    let ghost all = items_view(inner@);
    proof {
        lemma_items_view(inner@);
    }
    let mut i: usize = 0;
    while i < inner.len()
        invariant
            i <= inner@.len(),
            all == items_view(inner@),
            all.len() == inner@.len(),
            (FlatV { tools: items_view(tools@), names: names@ }) == with_namespace_tools(
                start,
                namespace@,
                all,
                i as int,
            ),
        decreases inner@.len() - i,
    {
        proof {
            lemma_items_view(inner@);
            assert(all[i as int] == inner@[i as int]@);
        }
        if is_mappable(&inner[i]) {
            if let Some(name) = inner[i].get_str("name") {
                let encoded = chat_function_name_for_namespace_tool(namespace, name);
                add_tool(tools, inner[i].dup().set("name", Json::Str(encoded.clone())));
                names.insert_if_absent(
                    encoded,
                    NamespaceToolName { namespace: namespace.to_owned(), name: name.to_owned() },
                );
            }
        }
        i = i + 1;
    }
}

fn add_any_tool(tools: &mut Vec<Json>, names: &mut NamespaceToolMap, tool: &Json)
    ensures
        (FlatV { tools: items_view(final(tools)@), names: final(names)@ }) == with_any_tool(
            FlatV { tools: items_view(old(tools)@), names: old(names)@ },
            tool@,
        ),
{
    if tool.field_is("type", "namespace") {
        if let Some(namespace) = tool.get_str("name") {
            if let Some(inner) = tool.get_array("tools") {
                proof {
                    lemma_items_view(inner@);
                }
                add_namespace_tools(tools, names, namespace, inner);
            }
        }
    } else {
        add_tool(tools, tool.dup());
    }
}

fn add_tools(tools: &mut Vec<Json>, names: &mut NamespaceToolMap, more: &Vec<Json>)
    ensures
        (FlatV { tools: items_view(final(tools)@), names: final(names)@ }) == with_tools(
            FlatV { tools: items_view(old(tools)@), names: old(names)@ },
            items_view(more@),
            more@.len() as int,
        ),
{
    let ghost start = FlatV { tools: items_view(tools@), names: names@ };
    let ghost all = items_view(more@);
    proof {
        lemma_items_view(more@);
    }
    let mut i: usize = 0;
    while i < more.len()
        invariant
            i <= more@.len(),
            all == items_view(more@),
            all.len() == more@.len(),
            (FlatV { tools: items_view(tools@), names: names@ }) == with_tools(
                start,
                all,
                i as int,
            ),
        decreases more@.len() - i,
    {
        proof {
            lemma_items_view(more@);
            assert(all[i as int] == more@[i as int]@);
        }
        add_any_tool(tools, names, &more[i]);
        i = i + 1;
    }
}

fn add_hoisted(tools: &mut Vec<Json>, names: &mut NamespaceToolMap, items: &Vec<Json>)
    ensures
        (FlatV { tools: items_view(final(tools)@), names: final(names)@ }) == with_hoisted(
            FlatV { tools: items_view(old(tools)@), names: old(names)@ },
            items_view(items@),
            items@.len() as int,
        ),
{
    let ghost start = FlatV { tools: items_view(tools@), names: names@ };
    let ghost all = items_view(items@);
    proof {
        lemma_items_view(items@);
    }
    let mut i: usize = 0;
    while i < items.len()
        invariant
            i <= items@.len(),
            all == items_view(items@),
            all.len() == items@.len(),
            (FlatV { tools: items_view(tools@), names: names@ }) == with_hoisted(
                start,
                all,
                i as int,
            ),
        decreases items@.len() - i,
    {
        proof {
            lemma_items_view(items@);
            assert(all[i as int] == items@[i as int]@);
        }
        if items[i].field_is("type", "additional_tools") {
            if let Some(more) = items[i].get_array("tools") {
                proof {
                    lemma_items_view(more@);
                }
                add_tools(tools, names, more);
            }
        }
        i = i + 1;
    }
}

/// The tools of a request that Chat Completions can bind, and the namespaced
/// names that they stand for.
pub fn normalize_chat_tools(tools: &Vec<Json>, history: &Vec<Json>, input: &Vec<Json>) -> (r: (
    Vec<Json>,
    NamespaceToolMap,
))
    ensures
        (FlatV { tools: items_view(r.0@), names: r.1@ }) == flat_tools(
            items_view(tools@),
            items_view(history@),
            items_view(input@),
        ),
{
    proof {
        lemma_items_view(tools@);
        lemma_items_view(history@);
        lemma_items_view(input@);
    }
    let mut flat: Vec<Json> = Vec::new();
    let mut names = NamespaceToolMap::new();
    add_tools(&mut flat, &mut names, tools);
    add_hoisted(&mut flat, &mut names, history);
    add_hoisted(&mut flat, &mut names, input);
    (flat, names)
}

/// Whether every encoded name decodes to a namespaced name that encodes to it.
pub open spec fn faithful(names: Map<Seq<char>, ToolNameV>) -> bool {
    forall|k: Seq<char>| #[trigger]
        names.dom().contains(k) ==> k == encoded_name(names[k].namespace, names[k].name)
}

proof fn lemma_namespace_tools_faithful(
    flat: FlatV,
    namespace: Seq<char>,
    inner: Seq<JsonV>,
    n: int,
)
    requires
        faithful(flat.names),
    ensures
        faithful(with_namespace_tools(flat, namespace, inner, n).names),
    decreases n,
{
    if n > 0 {
        lemma_namespace_tools_faithful(flat, namespace, inner, n - 1);
    }
}

proof fn lemma_tools_faithful(flat: FlatV, tools: Seq<JsonV>, n: int)
    requires
        faithful(flat.names),
    ensures
        faithful(with_tools(flat, tools, n).names),
    decreases n,
{
    if n > 0 {
        lemma_tools_faithful(flat, tools, n - 1);
        let before = with_tools(flat, tools, n - 1);
        let tool = tools[n - 1];
        if let (Some(namespace), Some(inner)) = (tool.get_str("name"@), tool.get_arr("tools"@)) {
            lemma_namespace_tools_faithful(before, namespace, inner, inner.len() as int);
        }
    }
}

proof fn lemma_hoisted_faithful(flat: FlatV, items: Seq<JsonV>, n: int)
    requires
        faithful(flat.names),
    ensures
        faithful(with_hoisted(flat, items, n).names),
    decreases n,
{
    if n > 0 {
        lemma_hoisted_faithful(flat, items, n - 1);
        if let Some(tools) = items[n - 1].get_arr("tools"@) {
            lemma_tools_faithful(
                with_hoisted(flat, items, n - 1),
                tools,
                tools.len() as int,
            );
        }
    }
}

/// Decoding a tool name and encoding it again gives the name back: whatever
/// the tools of a request are, each encoded name stands for the namespaced name
/// that it was made of.
pub proof fn encoded_names_round_trip(
    tools: Seq<JsonV>,
    history: Seq<JsonV>,
    input: Seq<JsonV>,
)
    ensures
        faithful(flat_tools(tools, history, input).names),
{
    let empty = FlatV { tools: Seq::empty(), names: Map::empty() };
    lemma_tools_faithful(empty, tools, tools.len() as int);
    let own = with_tools(empty, tools, tools.len() as int);
    lemma_hoisted_faithful(own, history, history.len() as int);
    let replayed = with_hoisted(own, history, history.len() as int);
    lemma_hoisted_faithful(replayed, input, input.len() as int);
}

/// Whether every tool can be bound, and no two have the same name.
pub open spec fn bound_once(tools: Seq<JsonV>) -> bool {
    &&& forall|i: int| 0 <= i < tools.len() ==> mappable(#[trigger] tools[i])
    &&& forall|i: int, j: int|
        0 <= i < j < tools.len() ==> (#[trigger] tools[i]).get_str("name"@) != (
        #[trigger] tools[j]).get_str("name"@)
}

proof fn lemma_with_tool_once(tools: Seq<JsonV>, tool: JsonV)
    requires
        bound_once(tools),
    ensures
        bound_once(with_tool(tools, tool)),
{
    let r = with_tool(tools, tool);
    if mappable(tool) && !has_tool(tools, tool.get_str("name"@)->0) {
        assert forall|i: int, j: int| 0 <= i < j < r.len() implies (#[trigger] r[i]).get_str(
            "name"@,
        ) != (#[trigger] r[j]).get_str("name"@) by {
            assert(r[i] == tools[i]);
        }
    }
}

proof fn lemma_namespace_tools_once(
    flat: FlatV,
    namespace: Seq<char>,
    inner: Seq<JsonV>,
    n: int,
)
    requires
        bound_once(flat.tools),
    ensures
        bound_once(with_namespace_tools(flat, namespace, inner, n).tools),
    decreases n,
{
    if n > 0 {
        lemma_namespace_tools_once(flat, namespace, inner, n - 1);
        let before = with_namespace_tools(flat, namespace, inner, n - 1);
        let tool = inner[n - 1];
        if mappable(tool) {
            let encoded = encoded_name(namespace, tool.get_str("name"@)->0);
            lemma_with_tool_once(before.tools, tool.set("name"@, JsonV::Str(encoded)));
        }
    }
}

proof fn lemma_tools_once(flat: FlatV, tools: Seq<JsonV>, n: int)
    requires
        bound_once(flat.tools),
    ensures
        bound_once(with_tools(flat, tools, n).tools),
    decreases n,
{
    if n > 0 {
        lemma_tools_once(flat, tools, n - 1);
        let before = with_tools(flat, tools, n - 1);
        let tool = tools[n - 1];
        lemma_with_tool_once(before.tools, tool);
        if let (Some(namespace), Some(inner)) = (tool.get_str("name"@), tool.get_arr("tools"@)) {
            lemma_namespace_tools_once(before, namespace, inner, inner.len() as int);
        }
    }
}

proof fn lemma_hoisted_once(flat: FlatV, items: Seq<JsonV>, n: int)
    requires
        bound_once(flat.tools),
    ensures
        bound_once(with_hoisted(flat, items, n).tools),
    decreases n,
{
    if n > 0 {
        lemma_hoisted_once(flat, items, n - 1);
        if let Some(tools) = items[n - 1].get_arr("tools"@) {
            lemma_tools_once(with_hoisted(flat, items, n - 1), tools, tools.len() as int);
        }
    }
}

/// Every tool of a request is bound at most once, however often the request,
/// its history and its input carry it.
pub proof fn tools_are_bound_once(
    tools: Seq<JsonV>,
    history: Seq<JsonV>,
    input: Seq<JsonV>,
)
    ensures
        bound_once(flat_tools(tools, history, input).tools),
{
    let empty = FlatV { tools: Seq::empty(), names: Map::empty() };
    lemma_tools_once(empty, tools, tools.len() as int);
    let own = with_tools(empty, tools, tools.len() as int);
    lemma_hoisted_once(own, history, history.len() as int);
    let replayed = with_hoisted(own, history, history.len() as int);
    lemma_hoisted_once(replayed, input, input.len() as int);
}

/// The types of input items that the conversion knows.
pub open spec fn known_type(t: Seq<char>) -> bool {
    t == "message"@ || t == "function_call"@ || t == "function_call_output"@ || t == "reasoning"@
}

/// Whether the conversion knows a type of input items.
pub fn is_known_item_type(t: &str) -> (r: bool)
    ensures
        r == known_type(t@),
{
    same(t, "message") || same(t, "function_call") || same(t, "function_call_output") || same(
        t,
        "reasoning",
    )
}

/// The unknown types among the first `n` items, in order. Items of
/// `additional_tools` are consumed by the hoist, so they are not unknown.
pub open spec fn unknown_types(items: Seq<JsonV>, n: int) -> Seq<Seq<char>>
    decreases n,
{
    if n <= 0 {
        Seq::empty()
    } else {
        let before = unknown_types(items, n - 1);
        match items[n - 1].get_str("type"@) {
            Some(t) => if known_type(t) || t == "additional_tools"@ {
                before
            } else {
                before.push(t)
            },
            None => before,
        }
    }
}

/// The unknown types among items, in order: the conversion skips these items.
pub fn unknown_item_types(items: &Vec<Json>) -> (r: Vec<String>)
    ensures
        views(r@) == unknown_types(items_view(items@), items@.len() as int),
{
    proof {
        lemma_items_view(items@);
    }
    let ghost all = items_view(items@);
    let mut out: Vec<String> = Vec::new();
    let mut i: usize = 0;
    assert(views(out@) =~= unknown_types(all, 0));
    while i < items.len()
        invariant
            i <= items@.len(),
            all == items_view(items@),
            all.len() == items@.len(),
            forall|k: int| 0 <= k < items@.len() ==> #[trigger] all[k] == json_view(items@[k]),
            views(out@) == unknown_types(all, i as int),
        decreases items@.len() - i,
    {
        assert(all[i as int] == items@[i as int]@);
        let ghost before = views(out@);
        if let Some(t) = items[i].get_str("type") {
            if !is_known_item_type(t) && !same(t, "additional_tools") {
                out.push(t.to_owned());
                assert(views(out@) =~= before.push(t@));
            }
        }
        i = i + 1;
    }
    out
}

/// The types of the tools that cannot be bound among the first `n`, in order;
/// those inside a namespace count where `nested` holds.
pub open spec fn unmappable_in(tools: Seq<JsonV>, n: int, nested: bool) -> Seq<Seq<char>>
    decreases (if nested {
        1int
    } else {
        0int
    }), n,
{
    if n <= 0 {
        Seq::empty()
    } else {
        let before = unmappable_in(tools, n - 1, nested);
        let tool = tools[n - 1];
        if nested && tool.get_str("type"@) == Some("namespace"@) {
            match tool.get_arr("tools"@) {
                Some(inner) => before + unmappable_in(inner, inner.len() as int, false),
                None => before,
            }
        } else if mappable(tool) {
            before
        } else {
            match tool.get_str("type"@) {
                Some(t) => before.push(t),
                None => before,
            }
        }
    }
}

/// The types of the tools of `additional_tools` items that cannot be bound,
/// among the first `n` items, in order.
pub open spec fn unmappable_hoisted(items: Seq<JsonV>, n: int) -> Seq<Seq<char>>
    decreases n,
{
    if n <= 0 {
        Seq::empty()
    } else {
        let before = unmappable_hoisted(items, n - 1);
        let item = items[n - 1];
        match item.get_arr("tools"@) {
            Some(tools) => if item.get_str("type"@) == Some("additional_tools"@) {
                before + unmappable_in(tools, tools.len() as int, true)
            } else {
                before
            },
            None => before,
        }
    }
}

fn push_unmappable(out: &mut Vec<String>, tools: &Vec<Json>, nested: bool)
    ensures
        views(final(out)@) == views(old(out)@) + unmappable_in(
            items_view(tools@),
            tools@.len() as int,
            nested,
        ),
    decreases (if nested {
        1int
    } else {
        0int
    }),
{
    proof {
        lemma_items_view(tools@);
    }
    let ghost all = items_view(tools@);
    let ghost start = views(out@);
    let mut i: usize = 0;
    assert(views(out@) =~= start + unmappable_in(all, 0, nested));
    while i < tools.len()
        invariant
            i <= tools@.len(),
            all == items_view(tools@),
            all.len() == tools@.len(),
            forall|k: int| 0 <= k < tools@.len() ==> #[trigger] all[k] == json_view(tools@[k]),
            views(out@) == start + unmappable_in(all, i as int, nested),
        decreases tools@.len() - i,
    {
        assert(all[i as int] == tools@[i as int]@);
        let ghost before = views(out@);
        let ghost so_far = unmappable_in(all, i as int, nested);
        let tool = &tools[i];
        if nested && tool.field_is("type", "namespace") {
            if let Some(inner) = tool.get_array("tools") {
                proof {
                    lemma_items_view(inner@);
                }
                push_unmappable(out, inner, false);
                assert(views(out@) =~= start + unmappable_in(all, i + 1, nested));
            }
        } else if !is_mappable(tool) {
            if let Some(t) = tool.get_str("type") {
                out.push(t.to_owned());
                assert(views(out@) =~= before.push(t@));
                assert(start + so_far.push(t@) =~= (start + so_far).push(t@));
            }
        }
        i = i + 1;
    }
}

/// The types of the tools of `additional_tools` items that cannot be bound, in
/// order: the hoist drops these tools.
pub fn unmappable_tool_types(items: &Vec<Json>) -> (r: Vec<String>)
    ensures
        views(r@) == unmappable_hoisted(items_view(items@), items@.len() as int),
{
    proof {
        lemma_items_view(items@);
    }
    let ghost all = items_view(items@);
    let mut out: Vec<String> = Vec::new();
    let mut i: usize = 0;
    assert(views(out@) =~= unmappable_hoisted(all, 0));
    while i < items.len()
        invariant
            i <= items@.len(),
            all == items_view(items@),
            all.len() == items@.len(),
            forall|k: int| 0 <= k < items@.len() ==> #[trigger] all[k] == json_view(items@[k]),
            views(out@) == unmappable_hoisted(all, i as int),
        decreases items@.len() - i,
    {
        assert(all[i as int] == items@[i as int]@);
        if let Some(tools) = items[i].get_array("tools") {
            proof {
                lemma_items_view(tools@);
            }
            if items[i].field_is("type", "additional_tools") {
                push_unmappable(&mut out, tools, true);
            }
        }
        i = i + 1;
    }
    out
}

/// The definitions of the first `n` tools of a namespace, under their encoded
/// names.
pub open spec fn namespace_definitions(
    namespace: Seq<char>,
    inner: Seq<JsonV>,
    n: int,
) -> Seq<JsonV>
    decreases n,
{
    if n <= 0 {
        Seq::empty()
    } else {
        let before = namespace_definitions(namespace, inner, n - 1);
        let tool = inner[n - 1];
        if mappable(tool) {
            before.push(
                tool.set(
                    "name"@,
                    JsonV::Str(encoded_name(namespace, tool.get_str("name"@)->0)),
                ),
            )
        } else {
            before
        }
    }
}

/// The definitions among the first `n` tools that can be bound; a namespace is
/// flattened.
pub open spec fn definitions(tools: Seq<JsonV>, n: int) -> Seq<JsonV>
    decreases n,
{
    if n <= 0 {
        Seq::empty()
    } else {
        let before = definitions(tools, n - 1);
        let tool = tools[n - 1];
        if tool.get_str("type"@) == Some("namespace"@) {
            match (tool.get_str("name"@), tool.get_arr("tools"@)) {
                (Some(namespace), Some(inner)) => before + namespace_definitions(
                    namespace,
                    inner,
                    inner.len() as int,
                ),
                _ => before,
            }
        } else if mappable(tool) {
            before.push(tool)
        } else {
            before
        }
    }
}

/// The definitions that the `additional_tools` items among the first `n` items
/// carry.
pub open spec fn hoisted_definitions(items: Seq<JsonV>, n: int) -> Seq<JsonV>
    decreases n,
{
    if n <= 0 {
        Seq::empty()
    } else {
        let before = hoisted_definitions(items, n - 1);
        let item = items[n - 1];
        match item.get_arr("tools"@) {
            Some(tools) => if item.get_str("type"@) == Some("additional_tools"@) {
                before + definitions(tools, tools.len() as int)
            } else {
                before
            },
            None => before,
        }
    }
}

/// The schema of a tool's parameters, printed.
pub open spec fn schema_text(tool: JsonV) -> Option<Seq<char>> {
    match tool.get("parameters"@) {
        Some(p) => Some(json_text(p)),
        None => None,
    }
}

/// The first tool of that name in a list, at or after `i`.
pub open spec fn tool_named(tools: Seq<JsonV>, name: Seq<char>, i: int) -> Option<JsonV>
    decreases tools.len() - i,
{
    if i < 0 || i >= tools.len() {
        None
    } else if tools[i].get_str("name"@) == Some(name) {
        Some(tools[i])
    } else {
        tool_named(tools, name, i + 1)
    }
}

/// Whether a definition is not the one that is bound under its name: the
/// schemas differ.
pub open spec fn conflicts(definition: JsonV, bound: Seq<JsonV>) -> bool {
    match definition.get_str("name"@) {
        Some(name) => match tool_named(bound, name, 0) {
            Some(tool) => schema_text(tool) != schema_text(definition),
            None => false,
        },
        None => false,
    }
}

/// The names of the first `n` definitions that conflict with a bound tool.
pub open spec fn conflicting_names(
    definitions: Seq<JsonV>,
    bound: Seq<JsonV>,
    n: int,
) -> Seq<Seq<char>>
    decreases n,
{
    if n <= 0 {
        Seq::empty()
    } else if conflicts(definitions[n - 1], bound) {
        conflicting_names(definitions, bound, n - 1).push(
            definitions[n - 1].get_str("name"@)->0,
        )
    } else {
        conflicting_names(definitions, bound, n - 1)
    }
}

fn push_namespace_definitions(out: &mut Vec<Json>, namespace: &str, inner: &Vec<Json>)
    ensures
        items_view(final(out)@) == items_view(old(out)@) + namespace_definitions(
            namespace@,
            items_view(inner@),
            inner@.len() as int,
        ),
{
    proof {
        lemma_items_view(inner@);
    }
    let ghost all = items_view(inner@);
    let ghost start = items_view(out@);
    let mut i: usize = 0;
    assert(items_view(out@) =~= start + namespace_definitions(namespace@, all, 0));
    while i < inner.len()
        invariant
            i <= inner@.len(),
            all == items_view(inner@),
            all.len() == inner@.len(),
            forall|k: int| 0 <= k < inner@.len() ==> #[trigger] all[k] == json_view(inner@[k]),
            items_view(out@) == start + namespace_definitions(namespace@, all, i as int),
        decreases inner@.len() - i,
    {
        assert(all[i as int] == inner@[i as int]@);
        let ghost so_far = namespace_definitions(namespace@, all, i as int);
        if is_mappable(&inner[i]) {
            if let Some(name) = inner[i].get_str("name") {
                let encoded = chat_function_name_for_namespace_tool(namespace, name);
                let tool = inner[i].dup().set("name", Json::Str(encoded));
                proof {
                    lemma_items_push(out@, tool);
                    assert(start + so_far.push(tool@) =~= (start + so_far).push(tool@));
                }
                out.push(tool);
            }
        }
        i = i + 1;
    }
}

fn push_definitions(out: &mut Vec<Json>, tools: &Vec<Json>)
    ensures
        items_view(final(out)@) == items_view(old(out)@) + definitions(
            items_view(tools@),
            tools@.len() as int,
        ),
{
    proof {
        lemma_items_view(tools@);
    }
    let ghost all = items_view(tools@);
    let ghost start = items_view(out@);
    let mut i: usize = 0;
    assert(items_view(out@) =~= start + definitions(all, 0));
    while i < tools.len()
        invariant
            i <= tools@.len(),
            all == items_view(tools@),
            all.len() == tools@.len(),
            forall|k: int| 0 <= k < tools@.len() ==> #[trigger] all[k] == json_view(tools@[k]),
            items_view(out@) == start + definitions(all, i as int),
        decreases tools@.len() - i,
    {
        assert(all[i as int] == tools@[i as int]@);
        let ghost so_far = definitions(all, i as int);
        let tool = &tools[i];
        if tool.field_is("type", "namespace") {
            if let Some(namespace) = tool.get_str("name") {
                if let Some(inner) = tool.get_array("tools") {
                    proof {
                        lemma_items_view(inner@);
                    }
                    push_namespace_definitions(out, namespace, inner);
                    assert(items_view(out@) =~= start + definitions(all, i + 1));
                }
            }
        } else if is_mappable(tool) {
            let copy = tool.dup();
            proof {
                lemma_items_push(out@, copy);
                assert(start + so_far.push(copy@) =~= (start + so_far).push(copy@));
            }
            out.push(copy);
        }
        i = i + 1;
    }
}

fn push_hoisted_definitions(out: &mut Vec<Json>, items: &Vec<Json>)
    ensures
        items_view(final(out)@) == items_view(old(out)@) + hoisted_definitions(
            items_view(items@),
            items@.len() as int,
        ),
{
    proof {
        lemma_items_view(items@);
    }
    let ghost all = items_view(items@);
    let ghost start = items_view(out@);
    let mut i: usize = 0;
    assert(items_view(out@) =~= start + hoisted_definitions(all, 0));
    while i < items.len()
        invariant
            i <= items@.len(),
            all == items_view(items@),
            all.len() == items@.len(),
            forall|k: int| 0 <= k < items@.len() ==> #[trigger] all[k] == json_view(items@[k]),
            items_view(out@) == start + hoisted_definitions(all, i as int),
        decreases items@.len() - i,
    {
        assert(all[i as int] == items@[i as int]@);
        if let Some(tools) = items[i].get_array("tools") {
            proof {
                lemma_items_view(tools@);
            }
            if items[i].field_is("type", "additional_tools") {
                push_definitions(out, tools);
                assert(items_view(out@) =~= start + hoisted_definitions(all, i + 1));
            }
        }
        i = i + 1;
    }
}

fn has_schema(tool: &Json, schema: &Option<String>) -> (r: bool)
    ensures
        r == (schema_text(tool@) == opt_str(*schema)),
{
    match (tool.get("parameters"), schema) {
        (Some(p), Some(s)) => same(p.to_text().as_str(), s.as_str()),
        (None, None) => true,
        _ => false,
    }
}

fn is_conflict(definition: &Json, bound: &Vec<Json>) -> (r: bool)
    ensures
        r == conflicts(definition@, items_view(bound@)),
{
    let name = match definition.get_str("name") {
        Some(n) => n,
        None => {
            return false;
        },
    };
    let schema = match definition.get("parameters") {
        Some(p) => Some(p.to_text()),
        None => None,
    };
    proof {
        lemma_items_view(bound@);
    }
    let ghost all = items_view(bound@);
    let mut i: usize = 0;
    while i < bound.len()
        invariant
            i <= bound@.len(),
            all == items_view(bound@),
            all.len() == bound@.len(),
            forall|k: int| 0 <= k < bound@.len() ==> #[trigger] all[k] == json_view(bound@[k]),
            tool_named(all, name@, 0) == tool_named(all, name@, i as int),
            definition@.get_str("name"@) == Some(name@),
            schema_text(definition@) == opt_str(schema),
        decreases bound@.len() - i,
    {
        assert(all[i as int] == bound@[i as int]@);
        if bound[i].field_is("name", name) {
            return !has_schema(&bound[i], &schema);
        }
        i = i + 1;
    }
    false
}

/// The names of the tools that `additional_tools` items define with another
/// schema than the definition that is bound under the name, in order: the hoist
/// drops these definitions.
pub fn schema_conflicts(tools: &Vec<Json>, history: &Vec<Json>, input: &Vec<Json>) -> (r: Vec<
    String,
>)
    ensures
        ({
            let h = items_view(history@);
            let i = items_view(input@);
            let hoisted = hoisted_definitions(h, h.len() as int) + hoisted_definitions(
                i,
                i.len() as int,
            );
            views(r@) == conflicting_names(
                hoisted,
                flat_tools(items_view(tools@), h, i).tools,
                hoisted.len() as int,
            )
        }),
{
    proof {
        lemma_items_view(history@);
        lemma_items_view(input@);
    }
    let (bound, _) = normalize_chat_tools(tools, history, input);
    let mut hoisted: Vec<Json> = Vec::new();
    push_hoisted_definitions(&mut hoisted, history);
    push_hoisted_definitions(&mut hoisted, input);
    let ghost all = items_view(hoisted@);
    let ghost flat = items_view(bound@);
    proof {
        lemma_items_view(hoisted@);
        let h = items_view(history@);
        let i = items_view(input@);
        assert(all =~= hoisted_definitions(h, h.len() as int) + hoisted_definitions(
            i,
            i.len() as int,
        ));
    }
    let mut out: Vec<String> = Vec::new();
    let mut k: usize = 0;
    assert(views(out@) =~= conflicting_names(all, flat, 0));
    while k < hoisted.len()
        invariant
            k <= hoisted@.len(),
            all == items_view(hoisted@),
            flat == items_view(bound@),
            all.len() == hoisted@.len(),
            forall|j: int| 0 <= j < hoisted@.len() ==> #[trigger] all[j] == json_view(hoisted@[j]),
            views(out@) == conflicting_names(all, flat, k as int),
        decreases hoisted@.len() - k,
    {
        assert(all[k as int] == hoisted@[k as int]@);
        let ghost before = views(out@);
        if is_conflict(&hoisted[k], &bound) {
            if let Some(name) = hoisted[k].get_str("name") {
                out.push(name.to_owned());
                assert(views(out@) =~= before.push(name@));
            }
        }
        k = k + 1;
    }
    out
}

} // verus!
