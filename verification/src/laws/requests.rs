//! What a converted request says: its tools, its messages and its parameters
//! are those of the request that came.

use crate::convert::request::{
    chat_content, chat_message, chat_part, chat_parts, chat_request, chat_role, chat_tool,
    chat_tools, input_messages, is_glm_like, item_messages, reasoning_text, tool_call_of,
    with_system,
};
use crate::json::{json_text, JsonV, NumberV};
use crate::normalize::{
    conflicting_names, conflicts, definitions, flat_tools, has_tool, hoisted_definitions, mappable,
    namespace_definitions, tool_named, tools_are_bound_once, unknown_types, unmappable_hoisted,
    unmappable_in, with_any_tool, with_hoisted, with_namespace_tools, with_tool, with_tools, FlatV,
};
use crate::text::{all_ws, holds, lowered};
use crate::wire::body::with;
use crate::wire::chat::{ChatMessageV, ChatRequestV};
use crate::wire::decode::{own_fields, request_in};
use crate::wire::responses::{InputV, RequestV};
use vstd::prelude::*;

verus! {

/// Whether a tool of Chat Completions is a function of that name.
pub open spec fn is_function(t: JsonV, name: Seq<char>) -> bool {
    t.get_str("type"@) == Some("function"@) && t.at("function"@).get_str("name"@) == Some(name)
}

/// Whether a schema takes one string, the input.
pub open spec fn takes_input(schema: JsonV) -> bool {
    &&& schema.get_str("type"@) == Some("object"@)
    &&& schema.at("properties"@).at("input"@).get_str("type"@) == Some("string"@)
    &&& schema.get_arr("required"@) == Some(seq![JsonV::Str("input"@)])
}

/// Whether a tool of Chat Completions stands for a tool of a request: under its
/// name, with its description; a function with its own parameters, a tool that
/// takes free text with one string.
pub open spec fn stands_for(t: JsonV, tool: JsonV) -> bool {
    let kind = tool.get_str("type"@);
    let f = t.at("function"@);
    &&& tool.get_str("name"@) is Some
    &&& is_function(t, tool.get_str("name"@)->0)
    &&& f.get_str("description"@) == (match tool.get_str("description"@) {
        Some(d) => Some(d),
        None => Some(Seq::empty()),
    })
    &&& kind == Some("function"@) ==> f.get("parameters"@) == (match tool.get("parameters"@) {
        Some(p) => Some(p),
        None => Some(JsonV::Obj(Map::empty())),
    })
    &&& kind != Some("function"@) ==> takes_input(f.at("parameters"@))
}

/// A function tool is told with its name, its description and its parameters; a
/// tool that takes free text is told as a function of one string. Anything else
/// has no form in Chat Completions.
pub proof fn tools_are_told_in_full(tool: JsonV)
    ensures
        ({
            let kind = tool.get_str("type"@);
            let told = (kind == Some("function"@) || kind == Some("custom"@) || kind == Some(
                "freeform"@,
            )) && tool.get_str("name"@) is Some;
            &&& chat_tool(tool) is Some <==> told
            &&& chat_tool(tool) matches Some(t) ==> stands_for(t, tool)
        }),
{
    reveal_strlit("type");
    reveal_strlit("function");
    reveal_strlit("name");
    reveal_strlit("description");
    reveal_strlit("parameters");
    reveal_strlit("properties");
    reveal_strlit("required");
    reveal_strlit("input");
    reveal_strlit("custom");
    reveal_strlit("freeform");
    assert("type"@.len() == 4);
    assert("function"@.len() == 8);
    assert("name"@.len() == 4);
    assert("description"@.len() == 11);
    assert("parameters"@.len() == 10);
    assert("properties"@.len() == 10);
    assert("required"@.len() == 8);
    assert("input"@.len() == 5);
    assert("custom"@.len() == 6);
    assert("freeform"@.len() == 8);
    assert("type"@[0] != "name"@[0]);
    assert("function"@[0] != "required"@[0]);
    assert("function"@[1] != "freeform"@[1]);
    assert("parameters"@[1] != "properties"@[1]);
    assert("required"@[0] != "freeform"@[0]);
    if let Some(t) = chat_tool(tool) {
        assert(t.at("function"@).get("parameters"@) is Some);
    }
}

proof fn lemma_bound_tools(tools: Seq<JsonV>)
    requires
        forall|i: int| 0 <= i < tools.len() ==> mappable(#[trigger] tools[i]),
    ensures
        chat_tools(tools).len() == tools.len(),
        forall|i: int| 0 <= i < tools.len() ==> stands_for(#[trigger] chat_tools(tools)[i], tools[i]),
    decreases tools.len(),
{
    if tools.len() > 0 {
        let front = tools.drop_last();
        assert forall|i: int| 0 <= i < front.len() implies mappable(#[trigger] front[i]) by {
            assert(front[i] == tools[i]);
        }
        lemma_bound_tools(front);
        tools_are_told_in_full(tools.last());
        assert(mappable(tools[tools.len() - 1]));
        assert forall|i: int| 0 <= i < tools.len() implies stands_for(
            #[trigger] chat_tools(tools)[i],
            tools[i],
        ) by {
            if i < front.len() {
                assert(chat_tools(tools)[i] == chat_tools(front)[i]);
                assert(front[i] == tools[i]);
            }
        }
    }
}

/// Every tool that a request binds is told, one for one and in order.
pub proof fn bound_tools_are_all_told(
    req: RequestV,
    history: Seq<JsonV>,
    model: Seq<char>,
    glm_thinking: bool,
)
    ensures
        ({
            let bound = flat_tools(req.tools, history, req.input.items()).tools;
            let told = chat_request(req, history, model, glm_thinking).tools;
            &&& told.len() == bound.len()
            &&& forall|i: int|
                0 <= i < bound.len() ==> stands_for(#[trigger] told[i], bound[i])
        }),
{
    let bound = flat_tools(req.tools, history, req.input.items()).tools;
    tools_are_bound_once(req.tools, history, req.input.items());
    lemma_bound_tools(bound);
}

/// Whether a list is another with more behind it.
pub open spec fn extends(long: Seq<JsonV>, short: Seq<JsonV>) -> bool {
    short.len() <= long.len() && long.take(short.len() as int) == short
}

/// Whether a bound tool is a tool of a namespace under the name of both, with
/// all its other fields.
pub open spec fn is_renamed(t: JsonV, tool: JsonV, namespace: Seq<char>) -> bool {
    &&& tool.get_str("name"@) is Some
    &&& t.get_str("name"@) == Some(namespace + "-"@ + tool.get_str("name"@)->0)
    &&& forall|k: Seq<char>| k != "name"@ ==> #[trigger] t.get(k) == tool.get(k)
}

/// Whether a bound tool is one of a list: a tool as it is, or a tool of a
/// namespace, renamed.
pub open spec fn is_from(t: JsonV, tools: Seq<JsonV>) -> bool {
    exists|i: int| 0 <= i < tools.len() && is_from_tool(t, #[trigger] tools[i])
}

/// Whether a bound tool is that tool, or a tool of that namespace.
pub open spec fn is_from_tool(t: JsonV, tool: JsonV) -> bool {
    if tool.get_str("type"@) == Some("namespace"@) {
        tool.get_str("name"@) is Some && tool.get_arr("tools"@) is Some && exists|k: int|
            0 <= k < tool.get_arr("tools"@)->0.len() && is_renamed(
                t,
                #[trigger] tool.get_arr("tools"@)->0[k],
                tool.get_str("name"@)->0,
            )
    } else {
        t == tool
    }
}

/// Whether a bound tool is one that an `additional_tools` item carries.
pub open spec fn is_from_items(t: JsonV, items: Seq<JsonV>) -> bool {
    exists|i: int|
        0 <= i < items.len() && (#[trigger] items[i]).get_str("type"@) == Some("additional_tools"@)
            && items[i].get_arr("tools"@) is Some && is_from(t, items[i].get_arr("tools"@)->0)
}

proof fn lemma_with_tool(tools: Seq<JsonV>, tool: JsonV)
    ensures
        extends(with_tool(tools, tool), tools),
        mappable(tool) ==> has_tool(with_tool(tools, tool), tool.get_str("name"@)->0),
        forall|j: int|
            tools.len() <= j < with_tool(tools, tool).len() ==> #[trigger] with_tool(tools, tool)[j]
                == tool,
        forall|name: Seq<char>|
            has_tool(tools, name) ==> #[trigger] has_tool(with_tool(tools, tool), name),
{
    let r = with_tool(tools, tool);
    assert(r.take(tools.len() as int) =~= tools);
    if mappable(tool) && !has_tool(tools, tool.get_str("name"@)->0) {
        assert(r[tools.len() as int] == tool);
    }
    assert forall|name: Seq<char>| has_tool(tools, name) implies #[trigger] has_tool(r, name) by {
        let i = choose|i: int|
            0 <= i < tools.len() && (#[trigger] tools[i]).get_str("name"@) == Some(name);
        assert(r[i] == tools[i]);
    }
}

proof fn lemma_has_tool(long: Seq<JsonV>, short: Seq<JsonV>, name: Seq<char>)
    requires
        extends(long, short),
        has_tool(short, name),
    ensures
        has_tool(long, name),
{
    let i = choose|i: int|
        0 <= i < short.len() && (#[trigger] short[i]).get_str("name"@) == Some(name);
    assert(long.take(short.len() as int)[i] == long[i]);
}

proof fn lemma_extends_trans(a: Seq<JsonV>, b: Seq<JsonV>, c: Seq<JsonV>)
    requires
        extends(a, b),
        extends(b, c),
    ensures
        extends(a, c),
        forall|j: int| 0 <= j < b.len() ==> a[j] == #[trigger] b[j],
{
    assert forall|j: int| 0 <= j < b.len() implies a[j] == #[trigger] b[j] by {
        assert(a.take(b.len() as int)[j] == a[j]);
    }
    assert(a.take(c.len() as int) =~= b.take(c.len() as int));
}

proof fn lemma_namespace_source(
    flat: FlatV,
    namespace: Seq<char>,
    inner: Seq<JsonV>,
    n: int,
)
    requires
        0 <= n <= inner.len(),
    ensures
        ({
            let r = with_namespace_tools(flat, namespace, inner, n);
            &&& extends(r.tools, flat.tools)
            &&& forall|j: int|
                flat.tools.len() <= j < r.tools.len() ==> is_renamed_one(
                    #[trigger] r.tools[j],
                    inner,
                    namespace,
                )
            &&& forall|k: int|
                0 <= k < n && mappable(#[trigger] inner[k]) ==> has_tool(
                    r.tools,
                    namespace + "-"@ + inner[k].get_str("name"@)->0,
                ) && r.names.dom().contains(namespace + "-"@ + inner[k].get_str("name"@)->0)
            &&& forall|x: Seq<char>| #[trigger]
                flat.names.dom().contains(x) ==> r.names.dom().contains(x) && r.names[x]
                    == flat.names[x]
        }),
    decreases n,
{
    let r = with_namespace_tools(flat, namespace, inner, n);
    if n <= 0 {
        assert(flat.tools.take(flat.tools.len() as int) =~= flat.tools);
    } else {
        lemma_namespace_source(flat, namespace, inner, n - 1);
        let before = with_namespace_tools(flat, namespace, inner, n - 1);
        let tool = inner[n - 1];
        if mappable(tool) {
            let name = tool.get_str("name"@)->0;
            let encoded = namespace + "-"@ + name;
            let renamed = tool.set("name"@, JsonV::Str(encoded));
            reveal_strlit("name");
            reveal_strlit("type");
            assert("name"@[0] != "type"@[0]);
            assert(mappable(renamed));
            assert(is_renamed(renamed, tool, namespace));
            lemma_with_tool(before.tools, renamed);
            lemma_extends_trans(r.tools, before.tools, flat.tools);
            assert forall|j: int| flat.tools.len() <= j < r.tools.len() implies is_renamed_one(
                #[trigger] r.tools[j],
                inner,
                namespace,
            ) by {
                if j < before.tools.len() {
                    assert(r.tools[j] == before.tools[j]);
                } else {
                    assert(r.tools[j] == renamed);
                    assert(is_renamed(r.tools[j], inner[n - 1], namespace));
                }
            }
            assert forall|k: int| 0 <= k < n && mappable(#[trigger] inner[k]) implies has_tool(
                r.tools,
                namespace + "-"@ + inner[k].get_str("name"@)->0,
            ) && r.names.dom().contains(namespace + "-"@ + inner[k].get_str("name"@)->0) by {
                if k < n - 1 {
                    lemma_has_tool(
                        r.tools,
                        before.tools,
                        namespace + "-"@ + inner[k].get_str("name"@)->0,
                    );
                }
            }
        }
    }
}

/// Whether a bound tool is one of a namespace's tools, renamed.
pub open spec fn is_renamed_one(t: JsonV, inner: Seq<JsonV>, namespace: Seq<char>) -> bool {
    exists|k: int| 0 <= k < inner.len() && is_renamed(t, #[trigger] inner[k], namespace)
}

/// Whether a tool of a list is bound: a tool under its name, every tool of a
/// namespace under the name of both, which stands for the namespaced name.
pub open spec fn is_bound(r: FlatV, tool: JsonV) -> bool {
    if tool.get_str("type"@) == Some("namespace"@) {
        tool.get_str("name"@) is Some && tool.get_arr("tools"@) is Some ==> forall|k: int|
            0 <= k < tool.get_arr("tools"@)->0.len() && mappable(
                #[trigger] tool.get_arr("tools"@)->0[k],
            ) ==> binds_inner(
                r,
                tool.get_str("name"@)->0,
                tool.get_arr("tools"@)->0[k].get_str("name"@)->0,
            )
    } else {
        mappable(tool) ==> has_tool(r.tools, tool.get_str("name"@)->0)
    }
}

/// Whether a name of a namespace is bound, and can be told apart again.
pub open spec fn binds_inner(r: FlatV, namespace: Seq<char>, name: Seq<char>) -> bool {
    has_tool(r.tools, namespace + "-"@ + name) && r.names.dom().contains(namespace + "-"@ + name)
}

/// Whether what is bound stays bound.
pub open spec fn grows(r: FlatV, flat: FlatV) -> bool {
    &&& extends(r.tools, flat.tools)
    &&& forall|x: Seq<char>| #[trigger]
        flat.names.dom().contains(x) ==> r.names.dom().contains(x) && r.names[x] == flat.names[x]
}

proof fn lemma_stays_bound(r: FlatV, flat: FlatV, tool: JsonV)
    requires
        grows(r, flat),
        is_bound(flat, tool),
    ensures
        is_bound(r, tool),
{
    if tool.get_str("type"@) == Some("namespace"@) {
        if tool.get_str("name"@) is Some && tool.get_arr("tools"@) is Some {
            let inner = tool.get_arr("tools"@)->0;
            let ns = tool.get_str("name"@)->0;
            assert forall|k: int| 0 <= k < inner.len() && mappable(#[trigger] inner[k]) implies binds_inner(
                r,
                ns,
                inner[k].get_str("name"@)->0,
            ) by {
                assert(binds_inner(flat, ns, inner[k].get_str("name"@)->0));
                lemma_has_tool(
                    r.tools,
                    flat.tools,
                    ns + "-"@ + inner[k].get_str("name"@)->0,
                );
            }
        }
    } else if mappable(tool) {
        lemma_has_tool(r.tools, flat.tools, tool.get_str("name"@)->0);
    }
}

proof fn lemma_any_source(flat: FlatV, tool: JsonV)
    ensures
        ({
            let r = with_any_tool(flat, tool);
            &&& grows(r, flat)
            &&& is_bound(r, tool)
            &&& forall|j: int|
                flat.tools.len() <= j < r.tools.len() ==> is_from_tool(#[trigger] r.tools[j], tool)
        }),
{
    let r = with_any_tool(flat, tool);
    if tool.get_str("type"@) == Some("namespace"@) {
        match (tool.get_str("name"@), tool.get_arr("tools"@)) {
            (Some(ns), Some(inner)) => {
                lemma_namespace_source(flat, ns, inner, inner.len() as int);
                assert forall|j: int| flat.tools.len() <= j < r.tools.len() implies is_from_tool(
                    #[trigger] r.tools[j],
                    tool,
                ) by {
                    assert(is_renamed_one(r.tools[j], inner, ns));
                    let k = choose|k: int|
                        0 <= k < inner.len() && is_renamed(r.tools[j], #[trigger] inner[k], ns);
                    assert(is_renamed(r.tools[j], tool.get_arr("tools"@)->0[k], ns));
                }
            },
            _ => {
                assert(flat.tools.take(flat.tools.len() as int) =~= flat.tools);
            },
        }
    } else {
        lemma_with_tool(flat.tools, tool);
    }
}

proof fn lemma_tools_source(flat: FlatV, tools: Seq<JsonV>, n: int)
    requires
        0 <= n <= tools.len(),
    ensures
        ({
            let r = with_tools(flat, tools, n);
            &&& grows(r, flat)
            &&& forall|i: int| 0 <= i < n ==> is_bound(r, #[trigger] tools[i])
            &&& forall|j: int|
                flat.tools.len() <= j < r.tools.len() ==> is_from(#[trigger] r.tools[j], tools)
        }),
    decreases n,
{
    let r = with_tools(flat, tools, n);
    if n <= 0 {
        assert(flat.tools.take(flat.tools.len() as int) =~= flat.tools);
    } else {
        lemma_tools_source(flat, tools, n - 1);
        let before = with_tools(flat, tools, n - 1);
        lemma_any_source(before, tools[n - 1]);
        lemma_extends_trans(r.tools, before.tools, flat.tools);
        assert forall|i: int| 0 <= i < n implies is_bound(r, #[trigger] tools[i]) by {
            if i < n - 1 {
                lemma_stays_bound(r, before, tools[i]);
            }
        }
        assert forall|j: int| flat.tools.len() <= j < r.tools.len() implies is_from(
            #[trigger] r.tools[j],
            tools,
        ) by {
            if j < before.tools.len() {
                assert(r.tools[j] == before.tools[j]);
            } else {
                assert(is_from_tool(r.tools[j], tools[n - 1]));
            }
        }
    }
}

/// Whether every tool that the items carry is bound.
pub open spec fn binds_items(r: FlatV, items: Seq<JsonV>, n: int) -> bool {
    forall|i: int, k: int|
        #![trigger items[i].get_arr("tools"@)->0[k]]
        0 <= i < n && items[i].get_str("type"@) == Some("additional_tools"@) && items[i].get_arr(
            "tools"@,
        ) is Some && 0 <= k < items[i].get_arr("tools"@)->0.len() ==> is_bound(
            r,
            items[i].get_arr("tools"@)->0[k],
        )
}

proof fn lemma_hoisted_source(flat: FlatV, items: Seq<JsonV>, n: int)
    requires
        0 <= n <= items.len(),
    ensures
        ({
            let r = with_hoisted(flat, items, n);
            &&& grows(r, flat)
            &&& binds_items(r, items, n)
            &&& forall|j: int|
                flat.tools.len() <= j < r.tools.len() ==> is_from_items(#[trigger] r.tools[j], items)
        }),
    decreases n,
{
    let r = with_hoisted(flat, items, n);
    if n <= 0 {
        assert(flat.tools.take(flat.tools.len() as int) =~= flat.tools);
    } else {
        lemma_hoisted_source(flat, items, n - 1);
        let before = with_hoisted(flat, items, n - 1);
        let item = items[n - 1];
        let carries = item.get_arr("tools"@) is Some && item.get_str("type"@) == Some(
            "additional_tools"@,
        );
        if carries {
            let tools = item.get_arr("tools"@)->0;
            lemma_tools_source(before, tools, tools.len() as int);
        } else {
            assert(before.tools.take(before.tools.len() as int) =~= before.tools);
        }
        lemma_extends_trans(r.tools, before.tools, flat.tools);
        assert forall|i: int, k: int|
            #![trigger items[i].get_arr("tools"@)->0[k]]
            0 <= i < n && items[i].get_str("type"@) == Some("additional_tools"@)
                && items[i].get_arr("tools"@) is Some && 0 <= k < items[i].get_arr(
                "tools"@,
            )->0.len() implies is_bound(r, items[i].get_arr("tools"@)->0[k]) by {
            if i < n - 1 {
                lemma_stays_bound(r, before, items[i].get_arr("tools"@)->0[k]);
            }
        }
        assert forall|j: int| flat.tools.len() <= j < r.tools.len() implies is_from_items(
            #[trigger] r.tools[j],
            items,
        ) by {
            if j < before.tools.len() {
                assert(r.tools[j] == before.tools[j]);
            } else {
                assert(is_from(r.tools[j], items[n - 1].get_arr("tools"@)->0));
            }
        }
    }
}

/// The tools of a request are bound, and so are those that its history and its
/// input carry: each under its name, the tools of a namespace under the name of
/// both, which stands for the namespaced name. The request's own come first, and
/// a name that is bound stays bound to its first tool.
pub proof fn tools_are_bound_where_they_stand(
    tools: Seq<JsonV>,
    history: Seq<JsonV>,
    input: Seq<JsonV>,
)
    ensures
        ({
            let r = flat_tools(tools, history, input);
            &&& forall|i: int| 0 <= i < tools.len() ==> is_bound(r, #[trigger] tools[i])
            &&& binds_items(r, history, history.len() as int)
            &&& binds_items(r, input, input.len() as int)
            &&& forall|j: int|
                0 <= j < r.tools.len() ==> is_from(#[trigger] r.tools[j], tools) || is_from_items(
                    r.tools[j],
                    history,
                ) || is_from_items(r.tools[j], input)
            &&& extends(
                r.tools,
                flat_tools(tools, Seq::empty(), Seq::empty()).tools,
            )
        }),
{
    let empty = FlatV { tools: Seq::empty(), names: Map::empty() };
    let own = with_tools(empty, tools, tools.len() as int);
    let replayed = with_hoisted(own, history, history.len() as int);
    let r = flat_tools(tools, history, input);
    lemma_tools_source(empty, tools, tools.len() as int);
    lemma_hoisted_source(own, history, history.len() as int);
    lemma_hoisted_source(replayed, input, input.len() as int);
    lemma_extends_trans(r.tools, replayed.tools, own.tools);
    lemma_extends_trans(replayed.tools, own.tools, empty.tools);
    assert(grows(r, own));
    assert(flat_tools(tools, Seq::empty(), Seq::empty()).tools == own.tools);
    assert forall|i: int| 0 <= i < tools.len() implies is_bound(r, #[trigger] tools[i]) by {
        lemma_stays_bound(r, own, tools[i]);
    }
    assert forall|i: int, k: int|
        #![trigger history[i].get_arr("tools"@)->0[k]]
        0 <= i < history.len() && history[i].get_str("type"@) == Some("additional_tools"@)
            && history[i].get_arr("tools"@) is Some && 0 <= k < history[i].get_arr(
            "tools"@,
        )->0.len() implies is_bound(r, history[i].get_arr("tools"@)->0[k]) by {
        lemma_stays_bound(r, replayed, history[i].get_arr("tools"@)->0[k]);
    }
    assert forall|j: int| 0 <= j < r.tools.len() implies is_from(#[trigger] r.tools[j], tools)
        || is_from_items(r.tools[j], history) || is_from_items(r.tools[j], input) by {
        if j < own.tools.len() {
            assert(replayed.tools[j] == own.tools[j]);
            assert(r.tools[j] == replayed.tools[j]);
        } else if j < replayed.tools.len() {
            assert(r.tools[j] == replayed.tools[j]);
        }
    }
}

/// A name that is bound for a namespace stands for that namespace and the name
/// in it.
pub proof fn bound_names_tell_their_namespace(
    tools: Seq<JsonV>,
    history: Seq<JsonV>,
    input: Seq<JsonV>,
    x: Seq<char>,
)
    requires
        flat_tools(tools, history, input).names.dom().contains(x),
    ensures
        ({
            let n = flat_tools(tools, history, input).names[x];
            x == n.namespace + "-"@ + n.name
        }),
{
    crate::normalize::encoded_names_round_trip(tools, history, input);
}

/// A message of the developer speaks as the system, an assistant's as the
/// assistant, any other as the user.
pub proof fn roles_keep_their_side(role: Seq<char>)
    ensures
        role == "developer"@ || role == "system"@ ==> chat_role(role) == "system"@,
        role == "assistant"@ ==> chat_role(role) == "assistant"@,
        role != "developer"@ && role != "system"@ && role != "assistant"@ ==> chat_role(role)
            == "user"@,
{
    reveal_strlit("developer");
    reveal_strlit("system");
    reveal_strlit("assistant");
    assert("developer"@.len() == 9);
    assert("system"@.len() == 6);
    assert("assistant"@.len() == 9);
    assert("developer"@[0] != "assistant"@[0]);
}

/// Text parts become text parts of the same text, images become images of the
/// same address; anything else has no form.
pub proof fn parts_keep_what_they_show(part: JsonV)
    ensures
        ({
            let kind = part.get_str("type"@);
            let text = kind == Some("input_text"@) || kind == Some("output_text"@);
            let image = kind == Some("input_image"@);
            let url = match part.get_str("image_url"@) {
                Some(u) => Some(u),
                None => part.get_str("image"@),
            };
            &&& chat_part(part) is Some <==> text || image && url is Some
            &&& text ==> chat_part(part)->0.get_str("type"@) == Some("text"@)
                && chat_part(part)->0.get_str("text"@) == (match part.get_str("text"@) {
                Some(t) => Some(t),
                None => Some(Seq::empty()),
            })
            &&& image && url is Some ==> chat_part(part)->0.get_str("type"@) == Some("image_url"@)
                && chat_part(part)->0.at("image_url"@).get_str("url"@) == url
                && chat_part(part)->0.get("text"@) is None
        }),
{
    reveal_strlit("type");
    reveal_strlit("text");
    reveal_strlit("image_url");
    reveal_strlit("url");
    reveal_strlit("input_text");
    reveal_strlit("output_text");
    reveal_strlit("input_image");
    assert("type"@.len() == 4);
    assert("text"@.len() == 4);
    assert("image_url"@.len() == 9);
    assert("url"@.len() == 3);
    assert("input_text"@.len() == 10);
    assert("output_text"@.len() == 11);
    assert("input_image"@.len() == 11);
    assert("type"@[1] != "text"@[1]);
    assert("output_text"@[0] != "input_image"@[0]);
}

/// The parts that have a form, in order.
pub open spec fn formed(parts: Seq<JsonV>) -> Seq<JsonV>
    decreases parts.len(),
{
    if parts.len() == 0 {
        Seq::empty()
    } else if chat_part(parts.last()) is Some {
        formed(parts.drop_last()).push(parts.last())
    } else {
        formed(parts.drop_last())
    }
}

/// The parts of a message become parts one for one and in order; those without a
/// form are left out.
pub proof fn parts_stay_in_order(parts: Seq<JsonV>)
    ensures
        chat_parts(parts).len() == formed(parts).len(),
        forall|i: int|
            0 <= i < formed(parts).len() ==> Some(#[trigger] chat_parts(parts)[i]) == chat_part(
                formed(parts)[i],
            ),
    decreases parts.len(),
{
    if parts.len() > 0 {
        parts_stay_in_order(parts.drop_last());
    }
}

/// The content of a message keeps what it says: a text stays that text, a single
/// text part becomes its text, more parts stay parts, and nothing stays nothing.
pub proof fn contents_keep_what_they_say(content: JsonV, t: Seq<char>)
    ensures
        content == JsonV::Str(t) ==> chat_content(content) == Some(JsonV::Str(t)),
        (content matches JsonV::Arr(p) && p.len() == 1 && (p[0].get_str("type"@) == Some(
            "input_text"@,
        ) || p[0].get_str("type"@) == Some("output_text"@)) && p[0].get_str("text"@) == Some(t))
            ==> chat_content(content) == Some(JsonV::Str(t)),
        (content matches JsonV::Arr(p) && chat_parts(p).len() == 0) ==> chat_content(content) is None,
        (content matches JsonV::Arr(p) && chat_parts(p).len() > 1) ==> chat_content(content)
            == Some(JsonV::Arr(chat_parts(content->Arr_0))),
        !(content is Str) && !(content is Arr) ==> chat_content(content) is None,
{
    if let JsonV::Arr(p) = content {
        if p.len() == 1 {
            parts_keep_what_they_show(p[0]);
            assert(p.drop_last() =~= Seq::<JsonV>::empty());
            reveal_with_fuel(chat_parts, 2);
        }
    }
}

/// A text field, or a default where there is none.
pub open spec fn text_or(v: JsonV, k: Seq<char>, d: Seq<char>) -> Seq<char> {
    match v.get_str(k) {
        Some(x) => x,
        None => d,
    }
}

/// A function call item becomes a tool call under its call id, with its
/// arguments, under its name, or that of its namespace and its name.
pub proof fn calls_keep_their_id_and_arguments(fc: JsonV)
    ensures
        ({
            let t = tool_call_of(fc);
            let f = t.at("function"@);
            let name = text_or(fc, "name"@, Seq::empty());
            let ns = text_or(fc, "namespace"@, Seq::empty());
            &&& t.get_str("id"@) == Some(text_or(fc, "call_id"@, Seq::empty()))
            &&& t.get_str("type"@) == Some("function"@)
            &&& f.get_str("arguments"@) == Some(text_or(fc, "arguments"@, "{}"@))
            &&& ns.len() == 0 ==> f.get_str("name"@) == Some(name)
            &&& ns.len() > 0 ==> f.get_str("name"@) == Some(ns + "-"@ + name)
        }),
{
    reveal_strlit("id");
    reveal_strlit("type");
    reveal_strlit("function");
    reveal_strlit("name");
    reveal_strlit("arguments");
    assert("id"@.len() == 2);
    assert("type"@.len() == 4);
    assert("function"@.len() == 8);
    assert("name"@.len() == 4);
    assert("arguments"@.len() == 9);
    assert("type"@[0] != "name"@[0]);
}

/// A single item becomes the message that it is: a message under its role, a
/// function call as the assistant's, and an output of one as the answer to its
/// call id.
pub proof fn items_become_the_messages_they_are(item: JsonV)
    ensures
        ({
            let kind = item.get_str("type"@);
            let m = chat_message(item);
            &&& kind == Some("message"@) ==> m is Some && m->0.role == chat_role(
                text_or(item, "role"@, "user"@),
            ) && m->0.content == (match item.get("content"@) {
                Some(c) => chat_content(c),
                None => None,
            }) && m->0.reasoning_content == item.get_str("reasoning_content"@)
                && m->0.tool_calls is None && m->0.tool_call_id is None
            &&& kind == Some("function_call"@) ==> m is Some && m->0.role == "assistant"@
                && m->0.tool_calls == Some(seq![tool_call_of(item)]) && m->0.content is None
            &&& kind == Some("function_call_output"@) ==> m is Some && m->0.role == "tool"@
                && m->0.content == Some(JsonV::Str(text_or(item, "output"@, Seq::empty())))
                && m->0.tool_call_id == Some(text_or(item, "call_id"@, Seq::empty()))
                && m->0.tool_calls is None
            &&& kind != Some("message"@) && kind != Some("function_call"@) && kind != Some(
                "function_call_output"@,
            ) ==> m is None
        }),
{
    reveal_strlit("message");
    reveal_strlit("function_call");
    reveal_strlit("function_call_output");
    assert("message"@.len() == 7);
    assert("function_call"@.len() == 13);
    assert("function_call_output"@.len() == 20);
}

/// An item that neither speaks for the assistant nor carries reasoning becomes
/// its own message, and what follows becomes what it would; an item without a
/// form is left out.
pub proof fn items_become_messages_one_by_one(
    items: Seq<JsonV>,
    i: int,
    pending: Option<Seq<char>>,
)
    requires
        0 <= i < items.len(),
    ensures
        ({
            let item = items[i];
            let kind = item.get_str("type"@);
            let speaks = kind == Some("message"@) && item.get_str("role"@) == Some("assistant"@);
            let r = item_messages(items, i, pending);
            let rest = item_messages(items, i + 1, pending);
            &&& !speaks && (kind == Some("message"@) || kind == Some("function_call_output"@))
                ==> r.len() == rest.len() + 1 && Some(r[0]) == chat_message(item) && r.skip(1)
                == rest
            &&& kind != Some("message"@) && kind != Some("function_call"@) && kind != Some(
                "function_call_output"@,
            ) && kind != Some("reasoning"@) ==> r == rest
            &&& kind == Some("reasoning"@) && reasoning_text(item) is Some ==> r == item_messages(
                items,
                i + 1,
                reasoning_text(item),
            )
            &&& kind == Some("reasoning"@) && reasoning_text(item) is None ==> r == rest
        }),
{
    reveal_strlit("message");
    reveal_strlit("function_call");
    reveal_strlit("function_call_output");
    reveal_strlit("reasoning");
    reveal_strlit("assistant");
    reveal_strlit("developer");
    reveal_strlit("system");
    reveal_strlit("user");
    assert("message"@.len() == 7);
    assert("function_call"@.len() == 13);
    assert("function_call_output"@.len() == 20);
    assert("reasoning"@.len() == 9);
    assert("assistant"@.len() == 9);
    assert("developer"@.len() == 9);
    assert("system"@.len() == 6);
    assert("user"@.len() == 4);
    assert("reasoning"@[0] != "assistant"@[0]);
    assert("reasoning"@[0] != "developer"@[0]);
    assert("assistant"@[0] != "developer"@[0]);
    let r = item_messages(items, i, pending);
    let rest = item_messages(items, i + 1, pending);
    if let Some(m) = chat_message(items[i]) {
        assert((seq![m] + rest).skip(1) =~= rest);
    }
    if items[i].get_str("role"@) is None {
        assert(chat_role("user"@) == "user"@);
    }
}

/// An assistant's message takes the reasoning that waits for it, and the
/// function calls that follow it; so does a run of calls without a message.
pub proof fn assistants_gather_reasoning_and_calls(
    items: Seq<JsonV>,
    i: int,
    end: int,
    pending: Option<Seq<char>>,
)
    requires
        0 <= i < end <= items.len(),
        forall|k: int|
            i < k < end ==> (#[trigger] items[k]).get_str("type"@) == Some("function_call"@),
        end < items.len() ==> items[end].get_str("type"@) != Some("function_call"@),
        items[i].get_str("type"@) == Some("function_call"@) || items[i].get_str("type"@) == Some(
            "message"@,
        ) && items[i].get_str("role"@) == Some("assistant"@),
    ensures
        ({
            let r = item_messages(items, i, pending);
            let m = r[0];
            let called = items[i].get_str("type"@) == Some("function_call"@);
            let first = if called {
                i
            } else {
                i + 1
            };
            &&& r.len() > 0 && m.role == "assistant"@
            &&& r.skip(1) == item_messages(items, end, None)
            &&& called ==> m.content is None && m.reasoning_content == pending
            &&& !called ==> m.content == (match items[i].get("content"@) {
                Some(c) => chat_content(c),
                None => None,
            })
            &&& !called ==> m.reasoning_content == (match pending {
                Some(p) => Some(p),
                None => items[i].get_str("reasoning_content"@),
            })
            &&& first == end ==> m.tool_calls is None
            &&& first < end ==> m.tool_calls is Some && m.tool_calls->0.len() == end - first
                && forall|k: int|
                0 <= k < end - first ==> #[trigger] m.tool_calls->0[k] == tool_call_of(
                    items[first + k],
                )
        }),
{
    reveal_strlit("message");
    reveal_strlit("function_call");
    reveal_strlit("reasoning");
    reveal_strlit("assistant");
    reveal_strlit("developer");
    reveal_strlit("system");
    assert("message"@.len() == 7);
    assert("function_call"@.len() == 13);
    assert("reasoning"@.len() == 9);
    assert("assistant"@.len() == 9);
    assert("developer"@.len() == 9);
    assert("system"@.len() == 6);
    assert("reasoning"@[0] != "assistant"@[0]);
    assert("reasoning"@[0] != "developer"@[0]);
    assert("assistant"@[0] != "developer"@[0]);
    lemma_run_end(items, i + 1, end);
    let r = item_messages(items, i, pending);
    assert((seq![r[0]] + item_messages(items, end, None)).skip(1) =~= item_messages(
        items,
        end,
        None,
    ));
}

proof fn lemma_run_end(items: Seq<JsonV>, i: int, end: int)
    requires
        0 <= i <= end <= items.len(),
        forall|k: int|
            i <= k < end ==> (#[trigger] items[k]).get_str("type"@) == Some("function_call"@),
        end < items.len() ==> items[end].get_str("type"@) != Some("function_call"@),
    ensures
        crate::convert::request::calls_end(items, i) == end,
    decreases end - i,
{
    if i < end {
        lemma_run_end(items, i + 1, end);
    }
}

/// The text of a reasoning item is that of its first summary part, where that is
/// not empty.
pub proof fn reasoning_is_read_from_its_summary(item: JsonV, parts: Seq<JsonV>)
    requires
        item.get_arr("summary"@) == Some(parts),
    ensures
        reasoning_text(item) matches Some(t) ==> parts.len() > 0 && t.len() > 0
            && parts[0].get_str("text"@) == Some(t),
        parts.len() > 0 && (parts[0].get_str("text"@) matches Some(t) && t.len() > 0)
            ==> reasoning_text(item) is Some,
{
}

/// A model is taken for one of the GLM family by its name, in any case.
pub proof fn glm_models_are_told_by_name(model: Seq<char>)
    ensures
        is_glm_like(model) <==> holds(lowered(model), "glm"@) || holds(lowered(model), "zhipu"@),
{
}

/// Whether an optional text has more than white space.
pub open spec fn speaks(t: Option<Seq<char>>) -> bool {
    t matches Some(x) && !all_ws(x)
}

/// The messages of a converted request are the stored ones, with the system text
/// in front, and then those of the input: a text input is the user's.
pub proof fn conversations_keep_their_order(
    req: RequestV,
    history: Seq<JsonV>,
    model: Seq<char>,
    glm_thinking: bool,
)
    ensures
        ({
            let r = chat_request(req, history, model, glm_thinking).messages;
            let stored = item_messages(history, 0, None);
            let input = match req.input {
                InputV::Items(items) => item_messages(items, 0, None),
                InputV::Text(_) => input_messages(req.input),
            };
            let system = if speaks(req.instructions) {
                req.instructions
            } else if speaks(req.system) {
                req.system
            } else {
                None
            };
            let n = r.len() - input.len();
            &&& n >= 0 && r.skip(n) == input
            &&& system is None ==> r.take(n) == stored
            &&& system matches Some(t) ==> r.take(n) == with_system(stored, Some(t))
            &&& (req.input matches InputV::Text(t) ==> input.len() == 1 && input[0].role == "user"@
                && input[0].content == Some(JsonV::Str(t)) && input[0].tool_calls is None)
        }),
{
    let r = chat_request(req, history, model, glm_thinking).messages;
    let input = input_messages(req.input);
    let n = r.len() - input.len();
    assert(r.skip(n) =~= input);
    let stored = item_messages(history, 0, None);
    if speaks(req.instructions) {
        assert(r.take(n) =~= with_system(stored, req.instructions));
    } else if speaks(req.system) {
        assert(r.take(n) =~= with_system(stored, req.system));
    } else {
        assert(r.take(n) =~= stored);
    }
}

/// What a system message without text of its own says is that text; what a
/// system message made of parts says gets it as one more text part.
pub proof fn system_text_joins_parts(messages: Seq<ChatMessageV>, text: Seq<char>)
    requires
        messages.len() > 0,
        messages[0].role == "system"@,
        messages[0].content matches Some(JsonV::Arr(_)),
    ensures
        ({
            let r = with_system(messages, Some(text));
            let parts = messages[0].content->0->Arr_0;
            &&& r.len() == messages.len()
            &&& r[0].content matches Some(JsonV::Arr(p)) && p.len() == parts.len() + 1 && p.take(
                parts.len() as int,
            ) == parts && p.last().get_str("type"@) == Some("text"@) && p.last().get_str("text"@)
                == Some(text)
        }),
{
    reveal_strlit("type");
    reveal_strlit("text");
    assert("type"@.len() == 4);
    assert("text"@.len() == 4);
    assert("type"@[1] != "text"@[1]);
    let parts = messages[0].content->0->Arr_0;
    let p = crate::convert::request::chat_text_part(text);
    assert(parts.push(p).take(parts.len() as int) =~= parts);
}

/// A number as a double, where a field holds one.
pub open spec fn double_in(v: JsonV, k: Seq<char>) -> Option<JsonV> {
    match v.at(k).as_double() {
        Some(n) => Some(JsonV::Number(n)),
        None => None,
    }
}

/// A count, where a field holds one.
pub open spec fn count_of(v: JsonV, k: Seq<char>) -> Option<JsonV> {
    match v.get(k) {
        Some(JsonV::Number(NumberV::Unsigned(n))) => Some(JsonV::Number(NumberV::Unsigned(n))),
        _ => None,
    }
}

/// A text, where a field holds one.
pub open spec fn text_of(v: JsonV, k: Seq<char>) -> Option<JsonV> {
    match v.get_str(k) {
        Some(t) => Some(JsonV::Str(t)),
        None => None,
    }
}

proof fn lemma_extra(v: JsonV, k: Seq<char>)
    requires
        k != "model"@ && k != "input"@ && k != "instructions"@ && k != "system"@ && k != "tools"@
            && k != "stream"@ && k != "temperature"@ && k != "max_output_tokens"@ && k != "top_p"@
            && k != "reasoning"@,
    ensures
        v.without(own_fields()).get(k) == v.get(k),
{
    let names = own_fields();
    assert forall|i: int| 0 <= i < names.len() implies names[i] != k by {
        assert(names[0] == "model"@ && names[1] == "input"@ && names[2] == "instructions"@);
        assert(names[3] == "system"@ && names[4] == "tools"@ && names[5] == "stream"@);
        assert(names[6] == "temperature"@ && names[7] == "max_output_tokens"@);
        assert(names[8] == "top_p"@ && names[9] == "reasoning"@);
    }
    assert(!names.contains(k));
    assert(!names.to_set().contains(k));
}

/// A body that asks for an answer is sent with the parameters that it came with:
/// whatever field of it has a counterpart, the body that is sent has that, and
/// no other value in it. The model is the upstream's, and a stream asks for its
/// token counts.
pub proof fn parameters_reach_the_upstream(
    v: JsonV,
    history: Seq<JsonV>,
    model: Seq<char>,
    glm_thinking: bool,
)
    requires
        request_in(v) is Some,
    ensures
        ({
            let b = chat_request(request_in(v)->0, history, model, glm_thinking).body();
            let streams = v.get("stream"@) == Some(JsonV::Bool(true));
            &&& b.get_str("model"@) == Some(model)
            &&& b.get("temperature"@) == double_in(v, "temperature"@)
            &&& b.get("top_p"@) == double_in(v, "top_p"@)
            &&& b.get("presence_penalty"@) == double_in(v, "presence_penalty"@)
            &&& b.get("frequency_penalty"@) == double_in(v, "frequency_penalty"@)
            &&& b.get("max_tokens"@) == count_of(v, "max_output_tokens"@)
            &&& b.get("seed"@) == count_of(v, "seed"@)
            &&& b.get("tool_choice"@) == v.get("tool_choice"@)
            &&& b.get("stop"@) == v.get("stop"@)
            &&& b.get("user"@) == text_of(v, "user"@)
            &&& b.get("reasoning_effort"@) == text_of(v.at("reasoning"@), "effort"@)
            &&& b.get("stream"@) == Some(JsonV::Bool(streams))
            &&& streams ==> b.at("stream_options"@).get("include_usage"@) == Some(
                JsonV::Bool(true),
            )
            &&& !streams ==> b.get("stream_options"@) is None
            &&& glm_thinking && is_glm_like(model) ==> b.at("thinking"@).get_str("type"@) == Some(
                "enabled"@,
            )
            &&& !(glm_thinking && is_glm_like(model)) ==> b.get("thinking"@) is None
        }),
{
    reveal_strlit("model");
    reveal_strlit("messages");
    reveal_strlit("tools");
    reveal_strlit("tool_choice");
    reveal_strlit("temperature");
    reveal_strlit("max_tokens");
    reveal_strlit("top_p");
    reveal_strlit("stop");
    reveal_strlit("presence_penalty");
    reveal_strlit("frequency_penalty");
    reveal_strlit("seed");
    reveal_strlit("user");
    reveal_strlit("reasoning_effort");
    reveal_strlit("thinking");
    reveal_strlit("stream_options");
    reveal_strlit("stream");
    reveal_strlit("input");
    reveal_strlit("instructions");
    reveal_strlit("system");
    reveal_strlit("max_output_tokens");
    reveal_strlit("reasoning");
    assert("model"@.len() == 5);
    assert("messages"@.len() == 8);
    assert("tools"@.len() == 5);
    assert("tool_choice"@.len() == 11);
    assert("temperature"@.len() == 11);
    assert("max_tokens"@.len() == 10);
    assert("top_p"@.len() == 5);
    assert("stop"@.len() == 4);
    assert("presence_penalty"@.len() == 16);
    assert("frequency_penalty"@.len() == 17);
    assert("seed"@.len() == 4);
    assert("user"@.len() == 4);
    assert("reasoning_effort"@.len() == 16);
    assert("thinking"@.len() == 8);
    assert("stream_options"@.len() == 14);
    assert("stream"@.len() == 6);
    assert("input"@.len() == 5);
    assert("instructions"@.len() == 12);
    assert("system"@.len() == 6);
    assert("max_output_tokens"@.len() == 17);
    assert("reasoning"@.len() == 9);
    assert("model"@[0] != "tools"@[0]);
    assert("model"@[0] != "top_p"@[0]);
    assert("model"@[0] != "input"@[0]);
    assert("messages"@[0] != "thinking"@[0]);
    assert("tools"@[2] != "top_p"@[2]);
    assert("tools"@[0] != "input"@[0]);
    assert("tool_choice"@[1] != "temperature"@[1]);
    assert("top_p"@[0] != "input"@[0]);
    assert("stop"@[1] != "seed"@[1]);
    assert("stop"@[0] != "user"@[0]);
    assert("presence_penalty"@[0] != "reasoning_effort"@[0]);
    assert("frequency_penalty"@[0] != "max_output_tokens"@[0]);
    assert("seed"@[0] != "user"@[0]);
    assert("stream"@[1] != "system"@[1]);
    lemma_extra(v, "tool_choice"@);
    lemma_extra(v, "stop"@);
    lemma_extra(v, "presence_penalty"@);
    lemma_extra(v, "frequency_penalty"@);
    lemma_extra(v, "seed"@);
    lemma_extra(v, "user"@);
    let r = chat_request(request_in(v)->0, history, model, glm_thinking);
    bodies_carry_every_field(r);
}

/// The body of a request carries each of its fields under its name.
#[verifier::rlimit(100)]
#[verifier::spinoff_prover]
pub proof fn bodies_carry_every_field(r: ChatRequestV)
    ensures
        ({
            let b = r.body();
            &&& b.get("model"@) == Some(JsonV::Str(r.model))
            &&& b.get_arr("messages"@) matches Some(m) && m.len() == r.messages.len()
                && forall|i: int|
                0 <= i < m.len() ==> #[trigger] m[i] == r.messages[i].body()
            &&& r.tools.len() == 0 ==> b.get("tools"@) is None
            &&& r.tools.len() > 0 ==> b.get("tools"@) == Some(JsonV::Arr(r.tools))
            &&& b.get("tool_choice"@) == r.tool_choice
            &&& b.get("temperature"@) == number_of(r.temperature)
            &&& b.get("max_tokens"@) == uint_of(r.max_tokens)
            &&& b.get("top_p"@) == number_of(r.top_p)
            &&& b.get("stop"@) == r.stop
            &&& b.get("presence_penalty"@) == number_of(r.presence_penalty)
            &&& b.get("frequency_penalty"@) == number_of(r.frequency_penalty)
            &&& b.get("seed"@) == uint_of(r.seed)
            &&& b.get("user"@) == string_of(r.user)
            &&& b.get("reasoning_effort"@) == string_of(r.reasoning_effort)
            &&& b.get("thinking"@) is Some <==> r.thinking is Some
            &&& r.thinking is Some ==> b.at("thinking"@).get_str("type"@) == Some("enabled"@)
            &&& b.get("stream_options"@) is Some <==> r.stream_options is Some
            &&& r.stream_options matches Some(o) ==> b.at("stream_options"@).get("include_usage"@)
                == Some(JsonV::Bool(o.include_usage))
            &&& b.get("stream"@) == Some(JsonV::Bool(r.stream))
        }),
{
    reveal_strlit("model");
    reveal_strlit("messages");
    reveal_strlit("tools");
    reveal_strlit("tool_choice");
    reveal_strlit("temperature");
    reveal_strlit("max_tokens");
    reveal_strlit("top_p");
    reveal_strlit("stop");
    reveal_strlit("presence_penalty");
    reveal_strlit("frequency_penalty");
    reveal_strlit("seed");
    reveal_strlit("user");
    reveal_strlit("reasoning_effort");
    reveal_strlit("thinking");
    reveal_strlit("stream_options");
    reveal_strlit("stream");
    assert("model"@.len() == 5);
    assert("messages"@.len() == 8);
    assert("tools"@.len() == 5);
    assert("tool_choice"@.len() == 11);
    assert("temperature"@.len() == 11);
    assert("max_tokens"@.len() == 10);
    assert("top_p"@.len() == 5);
    assert("stop"@.len() == 4);
    assert("presence_penalty"@.len() == 16);
    assert("frequency_penalty"@.len() == 17);
    assert("seed"@.len() == 4);
    assert("user"@.len() == 4);
    assert("reasoning_effort"@.len() == 16);
    assert("thinking"@.len() == 8);
    assert("stream_options"@.len() == 14);
    assert("stream"@.len() == 6);
    assert("model"@[0] != "tools"@[0]);
    assert("model"@[0] != "top_p"@[0]);
    assert("messages"@[0] != "thinking"@[0]);
    assert("tools"@[2] != "top_p"@[2]);
    assert("tool_choice"@[1] != "temperature"@[1]);
    assert("stop"@[1] != "seed"@[1]);
    assert("stop"@[0] != "user"@[0]);
    assert("presence_penalty"@[0] != "reasoning_effort"@[0]);
    assert("seed"@[0] != "user"@[0]);
    let b2 = JsonV::object().set("model"@, JsonV::Str(r.model)).set(
        "messages"@,
        JsonV::Arr(crate::wire::body::bodies(r.messages)),
    );
    let tools = if r.tools.len() == 0 {
        None
    } else {
        Some(JsonV::Arr(r.tools))
    };
    let b3 = with(b2, "tools"@, tools);
    let b4 = with(b3, "tool_choice"@, r.tool_choice);
    let b5 = with(b4, "temperature"@, number_of(r.temperature));
    let b6 = with(b5, "max_tokens"@, uint_of(r.max_tokens));
    let b7 = with(b6, "top_p"@, number_of(r.top_p));
    let b8 = with(b7, "stop"@, r.stop);
    let b9 = with(b8, "presence_penalty"@, number_of(r.presence_penalty));
    let b10 = with(b9, "frequency_penalty"@, number_of(r.frequency_penalty));
    let b11 = with(b10, "seed"@, uint_of(r.seed));
    let b12 = with(b11, "user"@, string_of(r.user));
    let b13 = with(b12, "reasoning_effort"@, string_of(r.reasoning_effort));
    let b14 = with(b13, "thinking"@, crate::wire::body::thinking_value(r.thinking));
    let b15 = with(b14, "stream_options"@, crate::wire::body::options_value(r.stream_options));
    let b = b15.set("stream"@, JsonV::Bool(r.stream));
    assert(r.body() == b);
    lemma_with(b2, "tools"@, tools);
    lemma_with(b3, "tool_choice"@, r.tool_choice);
    lemma_with(b4, "temperature"@, number_of(r.temperature));
    lemma_with(b5, "max_tokens"@, uint_of(r.max_tokens));
    lemma_with(b6, "top_p"@, number_of(r.top_p));
    lemma_with(b7, "stop"@, r.stop);
    lemma_with(b8, "presence_penalty"@, number_of(r.presence_penalty));
    lemma_with(b9, "frequency_penalty"@, number_of(r.frequency_penalty));
    lemma_with(b10, "seed"@, uint_of(r.seed));
    lemma_with(b11, "user"@, string_of(r.user));
    lemma_with(b12, "reasoning_effort"@, string_of(r.reasoning_effort));
    lemma_with(b13, "thinking"@, crate::wire::body::thinking_value(r.thinking));
    lemma_with(b14, "stream_options"@, crate::wire::body::options_value(r.stream_options));
    lemma_with(b15, "stream"@, Some(JsonV::Bool(r.stream)));
    assert(b == with(b15, "stream"@, Some(JsonV::Bool(r.stream))));
    assert(b2.get("model"@) == Some(JsonV::Str(r.model)));
    assert(b.get("messages"@) == b2.get("messages"@));
    assert(b.get_arr("messages"@) == Some(crate::wire::body::bodies(r.messages)));
}

proof fn lemma_with(b: JsonV, k: Seq<char>, v: Option<JsonV>)
    requires
        b is Obj,
    ensures
        with(b, k, v) is Obj,
        with(b, k, v).get(k) == (match v {
            Some(x) => Some(x),
            None => b.get(k),
        }),
        forall|j: Seq<char>| j != k ==> #[trigger] with(b, k, v).get(j) == b.get(j),
{
}

/// A number value, where there is one.
pub open spec fn number_of(n: Option<NumberV>) -> Option<JsonV> {
    match n {
        Some(x) => Some(JsonV::Number(x)),
        None => None,
    }
}

/// A count value, where there is one.
pub open spec fn uint_of(n: Option<u64>) -> Option<JsonV> {
    match n {
        Some(x) => Some(JsonV::Number(NumberV::Unsigned(x))),
        None => None,
    }
}

/// A string value, where there is one.
pub open spec fn string_of(s: Option<Seq<char>>) -> Option<JsonV> {
    match s {
        Some(x) => Some(JsonV::Str(x)),
        None => None,
    }
}

/// The body of a message carries each of its fields under its name, and none
/// that it does not have.
pub proof fn message_bodies_carry_every_field(m: ChatMessageV)
    ensures
        ({
            let b = m.body();
            &&& b.get("role"@) == Some(JsonV::Str(m.role))
            &&& b.get("content"@) == m.content
            &&& b.get("reasoning_content"@) == string_of(m.reasoning_content)
            &&& b.get("tool_calls"@) == (match m.tool_calls {
                Some(c) => Some(JsonV::Arr(c)),
                None => None,
            })
            &&& b.get("tool_call_id"@) == string_of(m.tool_call_id)
            &&& b.get("name"@) == string_of(m.name)
        }),
{
    reveal_strlit("role");
    reveal_strlit("content");
    reveal_strlit("reasoning_content");
    reveal_strlit("tool_calls");
    reveal_strlit("tool_call_id");
    reveal_strlit("name");
    assert("role"@.len() == 4);
    assert("content"@.len() == 7);
    assert("reasoning_content"@.len() == 17);
    assert("tool_calls"@.len() == 10);
    assert("tool_call_id"@.len() == 12);
    assert("name"@.len() == 4);
    assert("role"@[0] != "name"@[0]);
}

/// A request is read by the names of its fields: it needs a model and an input
/// that is a text or items, and what it has besides is kept.
pub proof fn requests_are_read_by_name(v: JsonV, k: Seq<char>)
    ensures
        request_in(v) is Some <==> v.get_str("model"@) is Some && (v.get("input"@) matches Some(i)
            && (i is Str || i is Arr)),
        request_in(v) matches Some(r) ==> ({
            &&& v.get("model"@) == Some(JsonV::Str(r.model))
            &&& r.input matches InputV::Text(t) ==> v.get("input"@) == Some(JsonV::Str(t))
            &&& r.input matches InputV::Items(a) ==> v.get("input"@) == Some(JsonV::Arr(a))
            &&& r.instructions == v.get_str("instructions"@)
            &&& r.system == v.get_str("system"@)
            &&& v.get("tools"@) matches Some(JsonV::Arr(a)) ==> r.tools == a
            &&& !(v.get("tools"@) matches Some(JsonV::Arr(_))) ==> r.tools.len() == 0
            &&& r.stream <==> v.get("stream"@) == Some(JsonV::Bool(true))
            &&& r.reasoning == (if v.get("reasoning"@) == Some(JsonV::Null) {
                None
            } else {
                v.get("reasoning"@)
            })
            &&& r.max_output_tokens == v.at("max_output_tokens"@).as_u64()
            &&& (k == "model"@ || k == "input"@ || k == "tools"@ || k == "instructions"@)
                ==> r.extra.get(k) is None
            &&& (k != "model"@ && k != "input"@ && k != "instructions"@ && k != "system"@ && k
                != "tools"@ && k != "stream"@ && k != "temperature"@ && k != "max_output_tokens"@
                && k != "top_p"@ && k != "reasoning"@) ==> r.extra.get(k) == v.get(k)
        }),
{
    if k != "model"@ && k != "input"@ && k != "instructions"@ && k != "system"@ && k != "tools"@
        && k != "stream"@ && k != "temperature"@ && k != "max_output_tokens"@ && k != "top_p"@ && k
        != "reasoning"@ {
        lemma_extra(v, k);
    }
    let names = own_fields();
    assert(names[0] == "model"@ && names[1] == "input"@ && names[2] == "instructions"@ && names[4]
        == "tools"@);
    assert(names.to_set().contains(names[0]) && names.to_set().contains(names[1]));
    assert(names.to_set().contains(names[2]) && names.to_set().contains(names[4]));
}

/// Whether an item's type is one that no conversion handles.
pub open spec fn is_unknown(item: JsonV, t: Seq<char>) -> bool {
    &&& item.get_str("type"@) == Some(t)
    &&& t != "message"@ && t != "function_call"@ && t != "function_call_output"@ && t
        != "reasoning"@ && t != "additional_tools"@
}

/// The types that are reported as unknown are those of the items that no
/// conversion handles.
pub proof fn unknown_types_are_reported(items: Seq<JsonV>, n: int, t: Seq<char>)
    requires
        0 <= n <= items.len(),
    ensures
        unknown_types(items, n).contains(t) <==> exists|i: int|
            0 <= i < n && is_unknown(#[trigger] items[i], t),
    decreases n,
{
    let r = unknown_types(items, n);
    if n > 0 {
        unknown_types_are_reported(items, n - 1, t);
        let before = unknown_types(items, n - 1);
        if before.contains(t) {
            let j = choose|j: int| 0 <= j < before.len() && before[j] == t;
            assert(r[j] == t);
        }
        if is_unknown(items[n - 1], t) {
            assert(r[r.len() - 1] == t);
        }
        if r.contains(t) && !before.contains(t) {
            let j = choose|j: int| 0 <= j < r.len() && r[j] == t;
            assert(j == before.len());
            assert(is_unknown(items[n - 1], t));
        }
    }
}

/// Whether a tool is one that cannot be bound, of that type.
pub open spec fn is_unbound(tool: JsonV, t: Seq<char>) -> bool {
    tool.get_str("type"@) == Some(t) && !((t == "function"@ || t == "custom"@ || t == "freeform"@)
        && tool.get_str("name"@) is Some)
}

/// The types that are reported as unbound are those of the tools that cannot be
/// bound.
pub proof fn unbound_tools_are_reported(tools: Seq<JsonV>, n: int, t: Seq<char>)
    requires
        0 <= n <= tools.len(),
    ensures
        unmappable_in(tools, n, false).contains(t) <==> exists|i: int|
            0 <= i < n && is_unbound(#[trigger] tools[i], t),
    decreases n,
{
    let r = unmappable_in(tools, n, false);
    if n > 0 {
        unbound_tools_are_reported(tools, n - 1, t);
        let before = unmappable_in(tools, n - 1, false);
        if before.contains(t) {
            let j = choose|j: int| 0 <= j < before.len() && before[j] == t;
            assert(r[j] == t);
        }
        if is_unbound(tools[n - 1], t) {
            assert(r[r.len() - 1] == t);
        }
        if r.contains(t) && !before.contains(t) {
            let j = choose|j: int| 0 <= j < r.len() && r[j] == t;
            assert(j == before.len());
            assert(is_unbound(tools[n - 1], t));
        }
    }
}

/// A definition conflicts with what is bound under its name exactly where the
/// two print different parameters; a name that is not bound has no conflict.
pub proof fn conflicts_are_different_parameters(
    definition: JsonV,
    bound: Seq<JsonV>,
    k: int,
    name: Seq<char>,
)
    requires
        definition.get_str("name"@) == Some(name),
        0 <= k < bound.len(),
        bound[k].get_str("name"@) == Some(name),
        forall|i: int| 0 <= i < k ==> (#[trigger] bound[i]).get_str("name"@) != Some(name),
    ensures
        definition.get("parameters"@) == bound[k].get("parameters"@) ==> !conflicts(
            definition,
            bound,
        ),
        (definition.get("parameters"@) matches Some(p) && (bound[k].get(
            "parameters"@,
        ) matches Some(q) && json_text(p) != json_text(q))) ==> conflicts(definition, bound),
        definition.get("parameters"@) is Some != bound[k].get("parameters"@) is Some ==> conflicts(
            definition,
            bound,
        ),
{
    lemma_tool_named(bound, name, 0, k);
}

proof fn lemma_tool_named(tools: Seq<JsonV>, name: Seq<char>, i: int, k: int)
    requires
        0 <= i <= k < tools.len(),
        tools[k].get_str("name"@) == Some(name),
        forall|j: int| i <= j < k ==> (#[trigger] tools[j]).get_str("name"@) != Some(name),
    ensures
        tool_named(tools, name, i) == Some(tools[k]),
    decreases k - i,
{
    if i < k {
        lemma_tool_named(tools, name, i + 1, k);
    }
}

/// Whether an item brings a tool that cannot be bound, of that type, by itself or
/// in a namespace.
pub open spec fn brings_unbound(item: JsonV, t: Seq<char>) -> bool {
    item.get_str("type"@) == Some("additional_tools"@) && (item.get_arr("tools"@) matches Some(tools)
        && lists_unbound(tools, tools.len() as int, t))
}

/// Whether one of the first `n` tools cannot be bound, or one of its namespace.
pub open spec fn lists_unbound(tools: Seq<JsonV>, n: int, t: Seq<char>) -> bool {
    exists|i: int| 0 <= i < n && is_unbound_below(#[trigger] tools[i], t)
}

/// Whether a tool cannot be bound, or one of its namespace cannot.
pub open spec fn is_unbound_below(tool: JsonV, t: Seq<char>) -> bool {
    if tool.get_str("type"@) == Some("namespace"@) {
        tool.get_arr("tools"@) matches Some(inner) && exists|j: int|
            0 <= j < inner.len() && is_unbound(#[trigger] inner[j], t)
    } else {
        is_unbound(tool, t)
    }
}

proof fn lemma_joined_contains(a: Seq<Seq<char>>, b: Seq<Seq<char>>, t: Seq<char>)
    ensures
        (a + b).contains(t) <==> a.contains(t) || b.contains(t),
        forall|x: Seq<char>| #[trigger] a.push(x).contains(t) <==> a.contains(t) || x == t,
{
    if a.contains(t) {
        let j = choose|j: int| 0 <= j < a.len() && a[j] == t;
        assert((a + b)[j] == t);
    }
    if b.contains(t) {
        let j = choose|j: int| 0 <= j < b.len() && b[j] == t;
        let at = a.len() + j;
        assert((a + b)[at] == t);
    }
    assert forall|x: Seq<char>| #[trigger] a.push(x).contains(t) <==> a.contains(t) || x == t by {
        if a.contains(t) {
            let j = choose|j: int| 0 <= j < a.len() && a[j] == t;
            assert(a.push(x)[j] == t);
        }
        if x == t {
            let last = a.len() as int;
            assert(a.push(x)[last] == t);
        }
    }
}

proof fn lemma_unbound_below(tools: Seq<JsonV>, n: int, t: Seq<char>)
    requires
        0 <= n <= tools.len(),
    ensures
        unmappable_in(tools, n, true).contains(t) <==> lists_unbound(tools, n, t),
    decreases n,
{
    if n > 0 {
        let before = unmappable_in(tools, n - 1, true);
        let tool = tools[n - 1];
        lemma_unbound_below(tools, n - 1, t);
        let inner = match tool.get_arr("tools"@) {
            Some(i) => i,
            None => Seq::empty(),
        };
        unbound_tools_are_reported(inner, inner.len() as int, t);
        lemma_joined_contains(before, unmappable_in(inner, inner.len() as int, false), t);
        if lists_unbound(tools, n, t) {
            let i = choose|i: int| 0 <= i < n && is_unbound_below(#[trigger] tools[i], t);
            assert(i == n - 1 || lists_unbound(tools, n - 1, t));
        }
    }
}

/// The types that are reported of a conversation are those of the tools that its
/// items bring and that cannot be bound, also inside a namespace.
pub proof fn brought_tools_are_reported(items: Seq<JsonV>, n: int, t: Seq<char>)
    requires
        0 <= n <= items.len(),
    ensures
        unmappable_hoisted(items, n).contains(t) <==> exists|i: int|
            0 <= i < n && brings_unbound(#[trigger] items[i], t),
    decreases n,
{
    if n > 0 {
        let item = items[n - 1];
        let before = unmappable_hoisted(items, n - 1);
        brought_tools_are_reported(items, n - 1, t);
        let tools = match item.get_arr("tools"@) {
            Some(x) => x,
            None => Seq::empty(),
        };
        lemma_unbound_below(tools, tools.len() as int, t);
        lemma_joined_contains(before, unmappable_in(tools, tools.len() as int, true), t);
        if exists|i: int| 0 <= i < n && brings_unbound(#[trigger] items[i], t) {
            let i = choose|i: int| 0 <= i < n && brings_unbound(#[trigger] items[i], t);
            assert(i < n - 1 || i == n - 1);
        }
    }
}

/// The names that are reported as conflicting are those of the definitions that
/// conflict with what is bound.
pub proof fn conflicts_are_reported(
    definitions: Seq<JsonV>,
    bound: Seq<JsonV>,
    n: int,
    name: Seq<char>,
)
    requires
        0 <= n <= definitions.len(),
    ensures
        conflicting_names(definitions, bound, n).contains(name) <==> exists|i: int|
            0 <= i < n && conflicts(#[trigger] definitions[i], bound) && definitions[i].get_str(
                "name"@,
            ) == Some(name),
    decreases n,
{
    if n > 0 {
        let before = conflicting_names(definitions, bound, n - 1);
        conflicts_are_reported(definitions, bound, n - 1, name);
        lemma_joined_contains(before, Seq::empty(), name);
        let d = definitions[n - 1];
        assert(conflicts(d, bound) ==> d.get_str("name"@) is Some);
    }
}

/// Whether a tool defines another: as it stands, where it can be bound.
pub open spec fn defines(tool: JsonV, d: JsonV) -> bool {
    if tool.get_str("type"@) == Some("namespace"@) {
        tool.get_str("name"@) is Some && (tool.get_arr("tools"@) matches Some(inner) && exists|j: int|
            0 <= j < inner.len() && mappable(#[trigger] inner[j]) && is_member(
                tool.get_str("name"@)->0,
                inner[j],
                d,
            ))
    } else {
        mappable(tool) && d == tool
    }
}

/// Whether a definition is a tool of a namespace: the tool under both names, and
/// otherwise as it stands.
pub open spec fn is_member(namespace: Seq<char>, tool: JsonV, d: JsonV) -> bool {
    &&& d.get_str("name"@) == Some(namespace + "-"@ + tool.get_str("name"@)->0)
    &&& forall|k: Seq<char>| k != "name"@ ==> #[trigger] d.get(k) == tool.get(k)
}

proof fn lemma_members(namespace: Seq<char>, inner: Seq<JsonV>, n: int, i: int)
    requires
        0 <= n <= inner.len(),
        0 <= i < namespace_definitions(namespace, inner, n).len(),
    ensures
        exists|j: int|
            0 <= j < n && mappable(#[trigger] inner[j]) && is_member(
                namespace,
                inner[j],
                namespace_definitions(namespace, inner, n)[i],
            ),
    decreases n,
{
    if n > 0 {
        let before = namespace_definitions(namespace, inner, n - 1);
        if i < before.len() {
            lemma_members(namespace, inner, n - 1, i);
        } else {
            let j = n - 1;
            assert(mappable(inner[j]));
            assert(is_member(
                namespace,
                inner[j],
                namespace_definitions(namespace, inner, n)[i],
            ));
        }
    }
}

/// Every definition that is taken from tools is one that a tool gives: a tool that
/// can be bound gives itself, and a namespace its tools under both names.
pub proof fn definitions_are_given_by_tools(tools: Seq<JsonV>, n: int, i: int)
    requires
        0 <= n <= tools.len(),
        0 <= i < definitions(tools, n).len(),
    ensures
        exists|j: int| 0 <= j < n && defines(#[trigger] tools[j], definitions(tools, n)[i]),
    decreases n,
{
    if n > 0 {
        let before = definitions(tools, n - 1);
        let d = definitions(tools, n)[i];
        let tool = tools[n - 1];
        if i < before.len() {
            definitions_are_given_by_tools(tools, n - 1, i);
            assert(before[i] == d);
        } else {
            if tool.get_str("type"@) == Some("namespace"@) {
                let inner = tool.get_arr("tools"@)->0;
                lemma_members(
                    tool.get_str("name"@)->0,
                    inner,
                    inner.len() as int,
                    i - before.len(),
                );
            }
            assert(defines(tool, d));
        }
    }
}

/// Whether an item brings a definition.
pub open spec fn brings(item: JsonV, d: JsonV) -> bool {
    item.get_str("type"@) == Some("additional_tools"@) && (item.get_arr("tools"@) matches Some(tools)
        && exists|j: int| 0 <= j < tools.len() && defines(#[trigger] tools[j], d))
}

/// Every definition that is taken from a conversation is one that an item brings.
pub proof fn definitions_are_brought_by_items(items: Seq<JsonV>, n: int, i: int)
    requires
        0 <= n <= items.len(),
        0 <= i < hoisted_definitions(items, n).len(),
    ensures
        exists|j: int| 0 <= j < n && brings(#[trigger] items[j], hoisted_definitions(items, n)[i]),
    decreases n,
{
    if n > 0 {
        let before = hoisted_definitions(items, n - 1);
        let d = hoisted_definitions(items, n)[i];
        let item = items[n - 1];
        if i < before.len() {
            definitions_are_brought_by_items(items, n - 1, i);
            assert(before[i] == d);
        } else {
            let tools = item.get_arr("tools"@)->0;
            definitions_are_given_by_tools(tools, tools.len() as int, i - before.len());
            assert(brings(item, d));
        }
    }
}

/// An item that brings tools which can be bound brings at least one definition for
/// each of those that stand by themselves.
pub proof fn brought_tools_are_defined(items: Seq<JsonV>, n: int, tools: Seq<JsonV>, j: int, k: int)
    requires
        0 <= k < n <= items.len(),
        items[k].get_str("type"@) == Some("additional_tools"@),
        items[k].get_arr("tools"@) == Some(tools),
        0 <= j < tools.len(),
        mappable(tools[j]),
        tools[j].get_str("type"@) != Some("namespace"@),
    ensures
        hoisted_definitions(items, n).contains(tools[j]),
    decreases n,
{
    lemma_defined(tools, tools.len() as int, j);
    let before = hoisted_definitions(items, n - 1);
    let all = hoisted_definitions(items, n);
    if k == n - 1 {
        let own = definitions(tools, tools.len() as int);
        let x = choose|x: int| 0 <= x < own.len() && own[x] == tools[j];
        let at = before.len() + x;
        assert(all[at] == tools[j]);
    } else {
        brought_tools_are_defined(items, n - 1, tools, j, k);
        let x = choose|x: int| 0 <= x < before.len() && before[x] == tools[j];
        assert(all[x] == tools[j]);
    }
}

proof fn lemma_defined(tools: Seq<JsonV>, n: int, j: int)
    requires
        0 <= j < n <= tools.len(),
        mappable(tools[j]),
        tools[j].get_str("type"@) != Some("namespace"@),
    ensures
        definitions(tools, n).contains(tools[j]),
    decreases n,
{
    let before = definitions(tools, n - 1);
    let all = definitions(tools, n);
    if j == n - 1 {
        let last = before.len() as int;
        assert(all[last] == tools[j]);
    } else {
        lemma_defined(tools, n - 1, j);
        let x = choose|x: int| 0 <= x < before.len() && before[x] == tools[j];
        assert(all[x] == tools[j]);
    }
}

} // verus!
