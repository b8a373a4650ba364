//! Chat Completions answers as Responses items and events.
use crate::heal::HealGates;
use crate::heal::dsml::{call_id_of, calls_view, CallV, DsmlState, DsmlStreamFilter, DsmlToolCall};
use crate::heal::merge::text_part;
use crate::heal::responses::{item_event, next_after};
use crate::heal::think::{SplitV, ThinkSplit, ThinkState, ThinkStreamFilter};
use crate::ids::{are_uuids, fresh_ids, is_uuid, new_uuid};
use crate::json::{items_view, json_text, lemma_items_push, lemma_items_view, Json, JsonV};
use crate::normalize::{NamespaceToolMap, ToolNameV};
use crate::text::{all_ws, concat2, is_blank, occurs_at, opt_text, starts_at, to_chars, views};
use crate::wire::chat::{
    deltas_view, opt_str, ChatMessage, ChatMessageV, ChatResponse, ChatStreamChunk, ChatUsage,
    ChunkV, DeltaToolCall, ToolDeltaV,
};
use vstd::prelude::*;

verus! {

/// Encoded tool names, and the namespaced names that they stand for.
pub type NameMap = Map<Seq<char>, ToolNameV>;

/// A reasoning item as sessions store it.
pub open spec fn reasoning_item_v(text: Seq<char>) -> JsonV {
    JsonV::object().set("type"@, JsonV::Str("reasoning"@)).set(
        "summary"@,
        JsonV::one(text_part("summary_text"@, text)),
    )
}

/// A message item as sessions store it.
pub open spec fn message_item_v(text: Seq<char>) -> JsonV {
    JsonV::object().set("type"@, JsonV::Str("message"@)).set(
        "role"@,
        JsonV::Str("assistant"@),
    ).set("content"@, JsonV::one(text_part("output_text"@, text)))
}

/// The namespace of a tool name, if it was encoded, and the name itself.
pub open spec fn decoded(name: Seq<char>, names: NameMap) -> (Option<Seq<char>>, Seq<char>) {
    if names.dom().contains(name) {
        (Some(names[name].namespace), names[name].name)
    } else {
        (None, name)
    }
}

/// The item with its namespace, where there is one.
pub open spec fn with_namespace(item: JsonV, namespace: Option<Seq<char>>) -> JsonV {
    match namespace {
        Some(ns) => item.set("namespace"@, JsonV::Str(ns)),
        None => item,
    }
}

/// A function call item as sessions store it.
pub open spec fn function_call_item_v(
    call_id: Seq<char>,
    namespace: Option<Seq<char>>,
    name: Seq<char>,
    arguments: Seq<char>,
) -> JsonV {
    with_namespace(
        JsonV::object().set("type"@, JsonV::Str("function_call"@)).set(
            "call_id"@,
            JsonV::Str(call_id),
        ).set("name"@, JsonV::Str(name)).set("arguments"@, JsonV::Str(arguments)),
        namespace,
    )
}

fn text_part_value(kind: &str, text: &str) -> (r: Json)
    ensures
        r@ == text_part(kind@, text@),
{
    Json::object().set("type", Json::str(kind)).set("text", Json::str(text))
}

fn reasoning_item(text: &str) -> (r: Json)
    ensures
        r@ == reasoning_item_v(text@),
{
    Json::object().set("type", Json::str("reasoning")).set(
        "summary",
        Json::one(text_part_value("summary_text", text)),
    )
}

fn message_item(text: &str) -> (r: Json)
    ensures
        r@ == message_item_v(text@),
{
    Json::object().set("type", Json::str("message")).set("role", Json::str("assistant")).set(
        "content",
        Json::one(text_part_value("output_text", text)),
    )
}

fn add_namespace(item: Json, namespace: &Option<String>) -> (r: Json)
    ensures
        r@ == with_namespace(item@, opt_str(*namespace)),
{
    match namespace {
        Some(ns) => item.set("namespace", Json::str(ns.as_str())),
        None => item,
    }
}

fn function_call_item(
    call_id: &str,
    namespace: &Option<String>,
    name: &str,
    arguments: &str,
) -> (r: Json)
    ensures
        r@ == function_call_item_v(call_id@, opt_str(*namespace), name@, arguments@),
{
    let item = Json::object().set("type", Json::str("function_call")).set(
        "call_id",
        Json::str(call_id),
    ).set("name", Json::str(name)).set("arguments", Json::str(arguments));
    add_namespace(item, namespace)
}

/// The namespace of a tool name, if it was encoded, and the name itself.
pub fn decode_tool_call_name(name: &str, ns_map: &NamespaceToolMap) -> (r: (Option<String>, String))
    ensures
        (opt_str(r.0), r.1@) == decoded(name@, ns_map@),
{
    match ns_map.get(name) {
        Some(n) => (Some(n.namespace.clone()), n.name.clone()),
        None => (None, name.to_owned()),
    }
}

/// The id of a call that came without one, drawn as `uuid`.
pub open spec fn synthesized_call_id_of(uuid: Seq<char>) -> Seq<char> {
    "call_"@ + uuid
}

/// A string field, or a default where it is missing.
pub open spec fn str_or(s: Option<Seq<char>>, default: Seq<char>) -> Seq<char> {
    match s {
        Some(x) => x,
        None => default,
    }
}

/// A tool call of a message as a session item; without an id it gets one made
/// of `uuid`.
pub open spec fn tool_call_item(tc: JsonV, names: NameMap, uuid: Seq<char>) -> JsonV {
    let id = str_or(tc.get_str("id"@), Seq::empty());
    let f = tc.at("function"@);
    let (namespace, name) = decoded(str_or(f.get_str("name"@), Seq::empty()), names);
    function_call_item_v(
        if id.len() == 0 {
            synthesized_call_id_of(uuid)
        } else {
            id
        },
        namespace,
        name,
        str_or(f.get_str("arguments"@), "{}"@),
    )
}

/// The session items of a message: reasoning, then text, then tool calls, the
/// `i`-th with the `i`-th UUID.
pub open spec fn message_items(
    m: ChatMessageV,
    names: NameMap,
    uuids: Seq<Seq<char>>,
) -> Seq<JsonV> {
    let reasoning: Seq<JsonV> = match m.reasoning_content {
        Some(r) => if r.len() == 0 {
            Seq::empty()
        } else {
            seq![reasoning_item_v(r)]
        },
        None => Seq::empty(),
    };
    let text: Seq<JsonV> = if m.text().len() == 0 {
        Seq::empty()
    } else {
        seq![message_item_v(m.text())]
    };
    let calls: Seq<JsonV> = match m.tool_calls {
        Some(t) => Seq::new(t.len(), |i: int| tool_call_item(t[i], names, uuids[i])),
        None => Seq::empty(),
    };
    reasoning + text + calls
}

/// How many tool calls a message has.
pub open spec fn call_count(m: ChatMessageV) -> nat {
    match m.tool_calls {
        Some(t) => t.len(),
        None => 0,
    }
}

/// Whether `items` are the session items of the first answer of a response,
/// for the UUIDs that were drawn.
pub open spec fn response_items(
    resp: ChatResponse,
    names: NameMap,
    items: Seq<JsonV>,
    uuids: Seq<Seq<char>>,
) -> bool {
    if resp.choices@.len() == 0 {
        items == Seq::<JsonV>::empty()
    } else {
        let m = resp.choices@[0].message@;
        are_uuids(uuids, call_count(m)) && items == message_items(m, names, uuids)
    }
}

/// The session items of the first answer of a blocking response.
pub fn chat_response_to_items(resp: &ChatResponse, ns_map: &NamespaceToolMap) -> (r: Vec<Json>)
    ensures
        exists|uuids: Seq<Seq<char>>| #[trigger]
            response_items(*resp, ns_map@, items_view(r@), uuids),
{
    if resp.choices.len() == 0 {
        let out: Vec<Json> = Vec::new();
        assert(response_items(*resp, ns_map@, items_view(out@), Seq::empty()));
        return out;
    }
    let message = &resp.choices[0].message;
    let count: usize = match &message.tool_calls {
        Some(t) => t.len(),
        None => 0,
    };
    let uuids = fresh_ids(count);
    proof {
        if let Some(t) = &message.tool_calls {
            lemma_items_view(t@);
        }
    }
    let out = chat_message_to_items(message, ns_map, &uuids);
    assert(response_items(*resp, ns_map@, items_view(out@), views(uuids@)));
    out
}

/// The session items of a message, with ids for calls without one made of
/// `uuids`.
pub fn chat_message_to_items(
    message: &ChatMessage,
    ns_map: &NamespaceToolMap,
    uuids: &Vec<String>,
) -> (r: Vec<Json>)
    requires
        uuids@.len() == call_count(message@),
    ensures
        items_view(r@) == message_items(message@, ns_map@, views(uuids@)),
{
    proof {
        reveal_strlit("");
        assert(""@ =~= Seq::<char>::empty());
    }
    let mut items: Vec<Json> = Vec::new();
    if let Some(rc) = &message.reasoning_content {
        if !rc.as_str().is_empty() {
            let item = reasoning_item(rc.as_str());
            proof {
                lemma_items_push(items@, item);
            }
            items.push(item);
        }
    }
    let text = message.text_content();
    if !text.is_empty() {
        let item = message_item(text);
        proof {
            lemma_items_push(items@, item);
        }
        items.push(item);
    }
    let ghost head = items_view(items@);
    if let Some(tool_calls) = &message.tool_calls {
        let ghost all = items_view(tool_calls@);
        let ghost target = Seq::new(
            all.len(),
            |i: int| tool_call_item(all[i], ns_map@, views(uuids@)[i]),
        );
        proof {
            lemma_items_view(tool_calls@);
        }
        let mut i: usize = 0;
        assert(head + target.take(0) =~= head);
        while i < tool_calls.len()
            invariant
                ""@ == Seq::<char>::empty(),
                i <= tool_calls@.len() == uuids@.len(),
                all == items_view(tool_calls@),
                all.len() == tool_calls@.len(),
                target == Seq::new(
                    all.len(),
                    |i: int| tool_call_item(all[i], ns_map@, views(uuids@)[i]),
                ),
                items_view(items@) == head + target.take(i as int),
            decreases tool_calls@.len() - i,
        {
            proof {
                lemma_items_view(tool_calls@);
            }
            let tc = &tool_calls[i];
            let null = Json::Null;
            let id = match tc.get_str("id") {
                Some(id) => id,
                None => "",
            };
            let call_id = if id.is_empty() {
                concat2("call_", uuids[i].as_str())
            } else {
                id.to_owned()
            };
            let function = match tc.get("function") {
                Some(f) => f,
                None => &null,
            };
            let name = match function.get_str("name") {
                Some(n) => n,
                None => "",
            };
            let (namespace, decoded_name) = decode_tool_call_name(name, ns_map);
            let args = match function.get_str("arguments") {
                Some(a) => a,
                None => "{}",
            };
            let item = function_call_item(
                call_id.as_str(),
                &namespace,
                decoded_name.as_str(),
                args,
            );
            proof {
                lemma_items_push(items@, item);
                assert(item@ == target[i as int]);
                assert(head + target.take(i + 1) =~= (head + target.take(i as int)).push(
                    target[i as int],
                ));
            }
            items.push(item);
            i = i + 1;
        }
        assert(target.take(i as int) =~= target);
    }
    assert(items_view(items@) =~= message_items(message@, ns_map@, views(uuids@)));
    items
}

/// What the id of an item without one starts with.
pub open spec fn id_prefix(item: JsonV) -> Seq<char> {
    let kind = item.get_str("type"@);
    if kind == Some("reasoning"@) {
        "rs_"@
    } else if kind == Some("message"@) {
        "msg_"@
    } else if kind == Some("function_call"@) {
        "fc_"@
    } else {
        "item_"@
    }
}

/// A session item as an output item: without an id it gets one made of `uuid`,
/// and a message is completed.
pub open spec fn output_item(item: JsonV, uuid: Seq<char>) -> JsonV {
    match item {
        JsonV::Obj(_) => {
            let with_id = if item.get("id"@) is Some {
                item
            } else {
                item.set("id"@, JsonV::Str(id_prefix(item) + uuid))
            };
            if item.get_str("type"@) == Some("message"@) {
                with_id.set("status"@, JsonV::Str("completed"@))
            } else {
                with_id
            }
        },
        _ => item,
    }
}

/// Token counts in the Responses form; zero where there are none.
pub open spec fn usage_json(usage: Option<ChatUsage>) -> JsonV {
    let (input, output) = match usage {
        Some(u) => (u.prompt_tokens, u.completion_tokens),
        None => (0u32, 0u32),
    };
    JsonV::object().set("input_tokens"@, JsonV::uint(input as u64)).set(
        "output_tokens"@,
        JsonV::uint(output as u64),
    ).set("total_tokens"@, JsonV::uint((input + output) as u64))
}

/// A completed response whose output is `output`.
pub open spec fn completed_response(
    response_id: Seq<char>,
    model: Seq<char>,
    output: Seq<JsonV>,
    usage: Option<ChatUsage>,
) -> JsonV {
    JsonV::object().set("id"@, JsonV::Str(response_id)).set("object"@, JsonV::Str("response"@)).set(
        "status"@,
        JsonV::Str("completed"@),
    ).set("model"@, JsonV::Str(model)).set("output"@, JsonV::Arr(output)).set(
        "usage"@,
        usage_json(usage),
    )
}

/// The output items of session items, the `i`-th with the `i`-th UUID.
pub open spec fn output_items(items: Seq<JsonV>, uuids: Seq<Seq<char>>) -> Seq<JsonV> {
    Seq::new(items.len(), |i: int| output_item(items[i], uuids[i]))
}

/// Whether `r` is the completed response of session items, for the UUIDs that
/// were drawn.
pub open spec fn is_completed_response(
    r: JsonV,
    response_id: Seq<char>,
    model: Seq<char>,
    items: Seq<JsonV>,
    usage: Option<ChatUsage>,
    uuids: Seq<Seq<char>>,
) -> bool {
    are_uuids(uuids, items.len()) && r == completed_response(
        response_id,
        model,
        output_items(items, uuids),
        usage,
    )
}

fn usage_value(usage: Option<ChatUsage>) -> (r: Json)
    ensures
        r@ == usage_json(usage),
{
    let (input, output): (u32, u32) = match usage {
        Some(u) => (u.prompt_tokens, u.completion_tokens),
        None => (0, 0),
    };
    let total: u64 = input as u64 + output as u64;
    Json::object().set("input_tokens", Json::uint(input as u64)).set(
        "output_tokens",
        Json::uint(output as u64),
    ).set("total_tokens", Json::uint(total))
}

fn output_value(item: &Json, uuid: &str) -> (r: Json)
    ensures
        r@ == output_item(item@, uuid@),
{
    let copy = item.dup();
    match item {
        Json::Obj(_) => {
            let prefix = if item.field_is("type", "reasoning") {
                "rs_"
            } else if item.field_is("type", "message") {
                "msg_"
            } else if item.field_is("type", "function_call") {
                "fc_"
            } else {
                "item_"
            };
            let with_id = if item.get("id").is_some() {
                copy
            } else {
                copy.set("id", Json::Str(concat2(prefix, uuid)))
            };
            if item.field_is("type", "message") {
                with_id.set("status", Json::str("completed"))
            } else {
                with_id
            }
        },
        _ => copy,
    }
}

/// The completed response of session items; items without an id get one.
pub fn build_completed_response(
    response_id: &str,
    model: &str,
    items: &Vec<Json>,
    usage: Option<ChatUsage>,
) -> (r: Json)
    ensures
        exists|uuids: Seq<Seq<char>>| #[trigger]
            is_completed_response(
                r@,
                response_id@,
                model@,
                items_view(items@),
                usage,
                uuids,
            ),
{
    let uuids = fresh_ids(items.len());
    proof {
        lemma_items_view(items@);
    }
    let r = completed_response_with_ids(response_id, model, items, usage, &uuids);
    assert(is_completed_response(
        r@,
        response_id@,
        model@,
        items_view(items@),
        usage,
        views(uuids@),
    ));
    r
}

/// [`build_completed_response`] with the given UUIDs.
pub fn completed_response_with_ids(
    response_id: &str,
    model: &str,
    items: &Vec<Json>,
    usage: Option<ChatUsage>,
    uuids: &Vec<String>,
) -> (r: Json)
    requires
        uuids@.len() == items@.len(),
    ensures
        r@ == completed_response(
            response_id@,
            model@,
            output_items(items_view(items@), views(uuids@)),
            usage,
        ),
{
    let ghost all = items_view(items@);
    let ghost target = output_items(all, views(uuids@));
    proof {
        lemma_items_view(items@);
    }
    let mut output: Vec<Json> = Vec::new();
    let mut i: usize = 0;
    assert(target.take(0) =~= Seq::<JsonV>::empty());
    while i < items.len()
        invariant
            i <= items@.len() == uuids@.len(),
            all == items_view(items@),
            all.len() == items@.len(),
            target == output_items(all, views(uuids@)),
            items_view(output@) == target.take(i as int),
        decreases items@.len() - i,
    {
        proof {
            lemma_items_view(items@);
        }
        let item = output_value(&items[i], uuids[i].as_str());
        proof {
            lemma_items_push(output@, item);
            assert(item@ == target[i as int]);
            assert(target.take(i + 1) =~= target.take(i as int).push(target[i as int]));
        }
        output.push(item);
        i = i + 1;
    }
    assert(target.take(i as int) =~= target);
    Json::object().set("id", Json::str(response_id)).set("object", Json::str("response")).set(
        "status",
        Json::str("completed"),
    ).set("model", Json::str(model)).set("output", Json::Arr(output)).set(
        "usage",
        usage_value(usage),
    )
}

/// What was gathered from a streamed answer.
#[derive(Debug)]
pub struct OutputAccumulator {
    /// The session items, once the answer is finished.
    pub items: Vec<Json>,
    /// The visible text so far.
    pub text: String,
    /// The reasoning so far.
    pub reasoning: String,
    /// The last token counts.
    pub usage: Option<ChatUsage>,
}

impl Default for OutputAccumulator {
    fn default() -> (r: OutputAccumulator)
        ensures
            items_view(r.items@) == Seq::<JsonV>::empty(),
            r.text@ == Seq::<char>::empty(),
            r.reasoning@ == Seq::<char>::empty(),
            r.usage is None,
    {
        OutputAccumulator {
            items: Vec::new(),
            text: String::new(),
            reasoning: String::new(),
            usage: None,
        }
    }
}

impl OutputAccumulator {
    /// Nothing gathered yet.
    pub fn new() -> (r: OutputAccumulator)
        ensures
            items_view(r.items@) == Seq::<JsonV>::empty(),
            r.text@ == Seq::<char>::empty(),
            r.reasoning@ == Seq::<char>::empty(),
            r.usage is None,
    {
        OutputAccumulator::default()
    }
}

/// A tool call that is being streamed.
pub struct EntryV {
    pub index: u64,
    pub id: Seq<char>,
    pub name: Seq<char>,
    pub arguments: Seq<char>,
}

/// An event: its type and its data as JSON text.
pub type EventV = (Seq<char>, Seq<char>);

/// The event of that type and data.
pub open spec fn event(kind: Seq<char>, data: JsonV) -> EventV {
    (kind, json_text(data))
}

/// The state of a [`StreamConverter`].
pub struct ConverterV {
    pub response_id: Seq<char>,
    pub model: Seq<char>,
    pub items: Seq<JsonV>,
    pub text: Seq<char>,
    pub reasoning: Seq<char>,
    pub usage: Option<ChatUsage>,
    /// The tool calls so far, by index.
    pub tool_calls: Seq<EntryV>,
    pub names: NameMap,
    pub msg_item_id: Seq<char>,
    pub reasoning_item_id: Seq<char>,
    pub next_output_index: u64,
    pub reasoning_output_index: Option<u64>,
    pub message_output_index: Option<u64>,
    pub started: bool,
    pub finish_reason: Option<Seq<char>>,
    pub finish_emitted: bool,
    pub dsml: DsmlState,
    pub think: ThinkState,
}

/// A state, and the events to emit.
pub struct ConvStep {
    pub st: ConverterV,
    pub out: Seq<EventV>,
}

/// The first position at or after `k` whose entry has an index of at least
/// `index`.
pub open spec fn entry_position(entries: Seq<EntryV>, index: u64, k: int) -> int
    decreases entries.len() - k,
{
    if k < 0 || k >= entries.len() || entries[k].index >= index {
        k
    } else {
        entry_position(entries, index, k + 1)
    }
}

/// The entry of that index, in entries that are ordered by index.
pub open spec fn entry_at(entries: Seq<EntryV>, index: u64) -> Option<EntryV> {
    let p = entry_position(entries, index, 0);
    if p < entries.len() && entries[p].index == index {
        Some(entries[p])
    } else {
        None
    }
}

/// The entries with `e` in place of the entry of its index, or put in where
/// there is none.
pub open spec fn with_entry(entries: Seq<EntryV>, e: EntryV) -> Seq<EntryV> {
    let p = entry_position(entries, e.index, 0);
    if p < entries.len() && entries[p].index == e.index {
        entries.update(p, e)
    } else {
        entries.insert(p, e)
    }
}

/// Whether a delta carries an id, a name or arguments.
pub open spec fn has_payload(d: ToolDeltaV) -> bool {
    ||| d.id matches Some(x) && x.len() > 0
    ||| d.name matches Some(x) && x.len() > 0
    ||| d.arguments matches Some(x) && x.len() > 0
}

/// The name after a name delta: a delta that repeats the name so far replaces
/// it, any other is appended.
pub open spec fn grown_name(name: Seq<char>, delta: Option<Seq<char>>) -> Seq<char> {
    match delta {
        Some(d) => if d.len() == 0 {
            name
        } else if starts_at(d, 0, name) {
            d
        } else {
            name + d
        },
        None => name,
    }
}

/// The entries after a tool-call delta; a new entry without an id gets one made
/// of `uuid`.
pub open spec fn after_tool_delta(
    entries: Seq<EntryV>,
    d: ToolDeltaV,
    uuid: Seq<char>,
) -> Seq<EntryV> {
    if !has_payload(d) {
        entries
    } else {
        let e = match entry_at(entries, d.index) {
            Some(e) => e,
            None => EntryV {
                index: d.index,
                id: synthesized_call_id_of(uuid),
                name: Seq::empty(),
                arguments: Seq::empty(),
            },
        };
        with_entry(
            entries,
            EntryV {
                index: d.index,
                id: match d.id {
                    Some(id) => if id.len() == 0 {
                        e.id
                    } else {
                        id
                    },
                    None => e.id,
                },
                name: grown_name(e.name, d.name),
                arguments: e.arguments + str_or(d.arguments, Seq::empty()),
            },
        )
    }
}

/// The entries after tool-call deltas, the `i`-th with the `i`-th UUID.
pub open spec fn after_tool_deltas(
    entries: Seq<EntryV>,
    ds: Seq<ToolDeltaV>,
    uuids: Seq<Seq<char>>,
) -> Seq<EntryV>
    decreases ds.len(),
{
    if ds.len() == 0 {
        entries
    } else {
        after_tool_delta(
            after_tool_deltas(entries, ds.drop_last(), uuids),
            ds.last(),
            uuids[ds.len() - 1],
        )
    }
}

/// The entries with healed calls put in from `index` on, the `i`-th with the
/// `i`-th UUID.
pub open spec fn with_calls(
    entries: Seq<EntryV>,
    index: u64,
    calls: Seq<CallV>,
    uuids: Seq<Seq<char>>,
) -> (Seq<EntryV>, u64)
    decreases calls.len(),
{
    if calls.len() == 0 {
        (entries, index)
    } else {
        let (before, at) = with_calls(entries, index, calls.drop_last(), uuids);
        (
            with_entry(
                before,
                EntryV {
                    index: at,
                    id: call_id_of(uuids[calls.len() - 1]),
                    name: calls.last().name,
                    arguments: calls.last().arguments,
                },
            ),
            next_after(at),
        )
    }
}

/// What the finished tool calls emit and leave behind.
pub struct CallsOut {
    pub events: Seq<EventV>,
    /// The items of the completed response.
    pub output: Seq<JsonV>,
    /// The session items.
    pub items: Seq<JsonV>,
    pub next_index: u64,
}

/// A function call item on the wire.
pub open spec fn wire_call(
    item_id: Seq<char>,
    call_id: Seq<char>,
    name: (Option<Seq<char>>, Seq<char>),
    arguments: Seq<char>,
    status: Seq<char>,
) -> JsonV {
    with_namespace(
        JsonV::object().set("type"@, JsonV::Str("function_call"@)).set(
            "id"@,
            JsonV::Str(item_id),
        ).set("call_id"@, JsonV::Str(call_id)).set("name"@, JsonV::Str(name.1)).set(
            "arguments"@,
            JsonV::Str(arguments),
        ).set("status"@, JsonV::Str(status)),
        name.0,
    )
}

/// The arguments of a finished call; an empty object where they are blank.
pub open spec fn final_arguments(arguments: Seq<char>) -> Seq<char> {
    if all_ws(arguments) {
        "{}"@
    } else {
        arguments
    }
}

/// The finished tool calls: each one that has a name is added, given its
/// arguments and done, the `i`-th with an id made of the `i`-th UUID.
pub open spec fn finished_calls(
    entries: Seq<EntryV>,
    names: NameMap,
    index: u64,
    uuids: Seq<Seq<char>>,
) -> CallsOut
    decreases entries.len(),
{
    if entries.len() == 0 {
        CallsOut {
            events: Seq::empty(),
            output: Seq::empty(),
            items: Seq::empty(),
            next_index: index,
        }
    } else {
        let a = finished_calls(entries.drop_last(), names, index, uuids);
        let e = entries.last();
        if e.name.len() == 0 {
            a
        } else {
            let item_id = "fc_"@ + uuids[entries.len() - 1];
            let name = decoded(e.name, names);
            let arguments = final_arguments(e.arguments);
            let done = wire_call(item_id, e.id, name, arguments, "completed"@);
            CallsOut {
                events: a.events.push(
                    event(
                        "response.output_item.added"@,
                        item_event(
                            "response.output_item.added"@,
                            a.next_index,
                            wire_call(item_id, e.id, name, Seq::empty(), "in_progress"@),
                        ),
                    ),
                ).push(
                    event(
                        "response.function_call_arguments.delta"@,
                        JsonV::object().set(
                            "type"@,
                            JsonV::Str("response.function_call_arguments.delta"@),
                        ).set("item_id"@, JsonV::Str(item_id)).set(
                            "output_index"@,
                            JsonV::uint(a.next_index),
                        ).set("delta"@, JsonV::Str(arguments)),
                    ),
                ).push(
                    event(
                        "response.output_item.done"@,
                        item_event("response.output_item.done"@, a.next_index, done),
                    ),
                ),
                output: a.output.push(done),
                items: a.items.push(function_call_item_v(e.id, name.0, name.1, arguments)),
                next_index: next_after(a.next_index),
            }
        }
    }
}

impl ConverterV {
    /// The state of a fresh converter whose item ids are made of two UUIDs.
    pub open spec fn fresh(
        response_id: Seq<char>,
        model: Seq<char>,
        heal: HealGates,
        names: NameMap,
        msg_uuid: Seq<char>,
        rs_uuid: Seq<char>,
    ) -> ConverterV {
        ConverterV {
            response_id,
            model,
            items: Seq::empty(),
            text: Seq::empty(),
            reasoning: Seq::empty(),
            usage: None,
            tool_calls: Seq::empty(),
            names,
            msg_item_id: "msg_"@ + msg_uuid,
            reasoning_item_id: "rs_"@ + rs_uuid,
            next_output_index: 0,
            reasoning_output_index: None,
            message_output_index: None,
            started: false,
            finish_reason: None,
            finish_emitted: false,
            dsml: DsmlState::fresh(heal.dsml),
            think: ThinkState::fresh(heal.think),
        }
    }

    /// The event that opens the response.
    pub open spec fn created(self) -> EventV {
        event(
            "response.created"@,
            JsonV::object().set("type"@, JsonV::Str("response.created"@)).set(
                "response"@,
                JsonV::object().set("id"@, JsonV::Str(self.response_id)).set(
                    "status"@,
                    JsonV::Str("in_progress"@),
                ).set("model"@, JsonV::Str(self.model)),
            ),
        )
    }

    /// Opens the response, once.
    pub open spec fn start(self) -> ConvStep {
        ConvStep {
            st: ConverterV { started: true, ..self },
            out: if self.started {
                Seq::empty()
            } else {
                seq![self.created()]
            },
        }
    }

    /// The reasoning item with the given text.
    pub open spec fn reasoning_json(self, text: Seq<char>) -> JsonV {
        JsonV::object().set("type"@, JsonV::Str("reasoning"@)).set(
            "id"@,
            JsonV::Str(self.reasoning_item_id),
        ).set("summary"@, JsonV::one(text_part("summary_text"@, text)))
    }

    /// The message item with the given status and content.
    pub open spec fn message_json(self, status: Seq<char>, content: Seq<JsonV>) -> JsonV {
        JsonV::object().set("type"@, JsonV::Str("message"@)).set(
            "id"@,
            JsonV::Str(self.msg_item_id),
        ).set("role"@, JsonV::Str("assistant"@)).set("status"@, JsonV::Str(status)).set(
            "content"@,
            JsonV::Arr(content),
        )
    }

    /// Emits reasoning, if there is any; the reasoning item is added first
    /// where there is none yet.
    pub open spec fn reasoning_delta(self, text: Seq<char>) -> ConvStep {
        if text.len() == 0 {
            ConvStep { st: self, out: Seq::empty() }
        } else {
            let index = match self.reasoning_output_index {
                Some(i) => i,
                None => self.next_output_index,
            };
            let added = event(
                "response.output_item.added"@,
                item_event(
                    "response.output_item.added"@,
                    index,
                    self.reasoning_json(Seq::empty()),
                ),
            );
            let delta = event(
                "response.reasoning_summary_text.delta"@,
                JsonV::object().set(
                    "type"@,
                    JsonV::Str("response.reasoning_summary_text.delta"@),
                ).set("item_id"@, JsonV::Str(self.reasoning_item_id)).set(
                    "output_index"@,
                    JsonV::uint(index),
                ).set("summary_index"@, JsonV::uint(0)).set("delta"@, JsonV::Str(text)),
            );
            ConvStep {
                st: ConverterV {
                    reasoning: self.reasoning + text,
                    reasoning_output_index: Some(index),
                    next_output_index: if self.reasoning_output_index is Some {
                        self.next_output_index
                    } else {
                        next_after(self.next_output_index)
                    },
                    ..self
                },
                out: if self.reasoning_output_index is Some {
                    seq![delta]
                } else {
                    seq![added, delta]
                },
            }
        }
    }

    /// Emits text, if there is any; the message item is added first where there
    /// is none yet.
    pub open spec fn text_delta(self, text: Seq<char>) -> ConvStep {
        if text.len() == 0 {
            ConvStep { st: self, out: Seq::empty() }
        } else {
            let index = match self.message_output_index {
                Some(i) => i,
                None => self.next_output_index,
            };
            let added = event(
                "response.output_item.added"@,
                item_event(
                    "response.output_item.added"@,
                    index,
                    self.message_json("in_progress"@, Seq::empty()),
                ),
            );
            let delta = event(
                "response.output_text.delta"@,
                JsonV::object().set("type"@, JsonV::Str("response.output_text.delta"@)).set(
                    "item_id"@,
                    JsonV::Str(self.msg_item_id),
                ).set("output_index"@, JsonV::uint(index)).set("delta"@, JsonV::Str(text)),
            );
            ConvStep {
                st: ConverterV {
                    text: self.text + text,
                    message_output_index: Some(index),
                    next_output_index: if self.message_output_index is Some {
                        self.next_output_index
                    } else {
                        next_after(self.next_output_index)
                    },
                    ..self
                },
                out: if self.message_output_index is Some {
                    seq![delta]
                } else {
                    seq![added, delta]
                },
            }
        }
    }

    /// Emits reasoning, then text.
    pub open spec fn split_delta(self, split: SplitV) -> ConvStep {
        let a = self.reasoning_delta(split.reasoning);
        let b = a.st.text_delta(split.text);
        ConvStep { st: b.st, out: a.out + b.out }
    }

    /// Takes in a chunk: its text goes through both filters, the reasoning that
    /// it carries comes before the reasoning found in its text, tool-call
    /// deltas are gathered, and a finish reason and token counts are kept.
    pub open spec fn chunk(self, c: ChunkV, uuids: Seq<Seq<char>>) -> ConvStep {
        let a = self.start();
        let b = match c.delta {
            Some(d) => {
                let content = str_or(d.content, Seq::empty());
                let text = a.st.dsml.emits(content);
                let healed = a.st.think.emits(text);
                let split = SplitV {
                    reasoning: str_or(d.reasoning, Seq::empty()) + healed.reasoning,
                    text: healed.text,
                };
                let step = ConverterV {
                    dsml: a.st.dsml.after(content),
                    think: a.st.think.after(text),
                    ..a.st
                }.split_delta(split);
                ConvStep {
                    st: ConverterV {
                        tool_calls: after_tool_deltas(step.st.tool_calls, d.tool_calls, uuids),
                        finish_reason: match c.finish_reason {
                            Some(r) => Some(r),
                            None => step.st.finish_reason,
                        },
                        ..step.st
                    },
                    out: step.out,
                }
            },
            None => ConvStep { st: a.st, out: Seq::empty() },
        };
        ConvStep {
            st: ConverterV {
                usage: match c.usage {
                    Some(u) => Some(u),
                    None => b.st.usage,
                },
                ..b.st
            },
            out: a.out + b.out,
        }
    }

    /// How many tool-call deltas a chunk carries.
    pub open spec fn chunk_calls(c: ChunkV) -> nat {
        match c.delta {
            Some(d) => d.tool_calls.len(),
            None => 0,
        }
    }

    /// What the two filters still withhold, split.
    pub open spec fn tail_split(self) -> SplitV {
        let text = self.dsml.rest().0;
        self.think.emits(text).then_split(self.think.after(text).rest())
    }

    /// The calls that the tool-call filter still withholds.
    pub open spec fn tail_calls(self) -> Seq<CallV> {
        self.dsml.rest().1
    }

    /// The index of the first healed call: behind all streamed calls.
    pub open spec fn calls_base(self) -> u64 {
        if self.tool_calls.len() == 0 {
            0
        } else {
            next_after(self.tool_calls.last().index)
        }
    }

    /// Flushes the filters: what they withhold is emitted, healed calls join
    /// the streamed ones.
    pub open spec fn flush_heal(self, cids: Seq<Seq<char>>) -> ConvStep {
        let a = ConverterV {
            dsml: DsmlState::fresh(true),
            think: ThinkState::fresh(true),
            ..self
        }.split_delta(self.tail_split());
        ConvStep {
            st: ConverterV {
                tool_calls: with_calls(
                    a.st.tool_calls,
                    self.calls_base(),
                    self.tail_calls(),
                    cids,
                ).0,
                ..a.st
            },
            out: a.out,
        }
    }

    /// The reasoning and the message item that are done, in the order of their
    /// output indexes.
    pub open spec fn done_items(self) -> Seq<(u64, JsonV)> {
        let r = self.reasoning_json(self.reasoning);
        let m = self.message_json("completed"@, seq![text_part("output_text"@, self.text)]);
        match (self.reasoning_output_index, self.message_output_index) {
            (Some(i), Some(j)) => if i <= j {
                seq![(i, r), (j, m)]
            } else {
                seq![(j, m), (i, r)]
            },
            (Some(i), None) => seq![(i, r)],
            (None, Some(j)) => seq![(j, m)],
            (None, None) => Seq::empty(),
        }
    }

    /// The session items of reasoning and text: reasoning first.
    pub open spec fn text_items(self) -> Seq<JsonV> {
        let r: Seq<JsonV> = if self.reasoning_output_index is Some {
            seq![reasoning_item_v(self.reasoning)]
        } else {
            Seq::empty()
        };
        let m: Seq<JsonV> = if self.message_output_index is Some {
            seq![message_item_v(self.text)]
        } else {
            Seq::empty()
        };
        r + m
    }

    /// The finished tool calls.
    pub open spec fn calls_out(self, fcs: Seq<Seq<char>>) -> CallsOut {
        finished_calls(self.tool_calls, self.names, self.next_output_index, fcs)
    }

    /// The items of the completed response: the items that were done, in the
    /// order in which they were.
    pub open spec fn completed_output(self, fcs: Seq<Seq<char>>) -> Seq<JsonV> {
        let done = self.done_items();
        Seq::new(done.len(), |i: int| done[i].1) + self.calls_out(fcs).output
    }

    /// The event that completes the response.
    pub open spec fn completed(self, fcs: Seq<Seq<char>>) -> EventV {
        event(
            "response.completed"@,
            JsonV::object().set("type"@, JsonV::Str("response.completed"@)).set(
                "response"@,
                JsonV::object().set("id"@, JsonV::Str(self.response_id)).set(
                    "status"@,
                    JsonV::Str("completed"@),
                ).set("model"@, JsonV::Str(self.model)).set(
                    "output"@,
                    JsonV::Arr(self.completed_output(fcs)),
                ).set("usage"@, usage_json(self.usage)),
            ),
        )
    }

    /// Emits the done events and the completed event, and leaves the session
    /// items behind.
    pub open spec fn emit_finish(self, fcs: Seq<Seq<char>>) -> ConvStep {
        let done = self.done_items();
        let calls = self.calls_out(fcs);
        ConvStep {
            st: ConverterV { items: self.items + self.text_items() + calls.items, ..self },
            out: (Seq::new(
                done.len(),
                |i: int|
                    event(
                        "response.output_item.done"@,
                        item_event("response.output_item.done"@, done[i].0, done[i].1),
                    ),
            ) + calls.events).push(self.completed(fcs)),
        }
    }

    /// Whether the end of the stream finishes the answer: a finish reason came,
    /// and it was not finished before.
    pub open spec fn can_finish(self) -> bool {
        self.finish_reason is Some && !self.finish_emitted
    }

    /// How many UUIDs finishing draws for healed calls.
    pub open spec fn healed_count(self) -> nat {
        if self.can_finish() {
            self.tail_calls().len()
        } else {
            0
        }
    }

    /// How many UUIDs finishing draws for tool calls.
    pub open spec fn finished_count(self, cids: Seq<Seq<char>>) -> nat {
        if self.can_finish() {
            ConverterV { finish_emitted: true, ..self }.flush_heal(cids).st.tool_calls.len()
        } else {
            0
        }
    }

    /// Finishes the answer, once, and only after a finish reason.
    pub open spec fn finish(self, cids: Seq<Seq<char>>, fcs: Seq<Seq<char>>) -> ConvStep {
        if !self.can_finish() {
            ConvStep { st: self, out: Seq::empty() }
        } else {
            let a = ConverterV { finish_emitted: true, ..self }.flush_heal(cids);
            let b = a.st.emit_finish(fcs);
            ConvStep { st: b.st, out: a.out + b.out }
        }
    }

    /// The events that report an error.
    pub open spec fn failed(self, message: Seq<char>) -> Seq<EventV> {
        seq![
            event(
                "error"@,
                JsonV::object().set("type"@, JsonV::Str("error"@)).set(
                    "message"@,
                    JsonV::Str(message),
                ).set("response_id"@, JsonV::Str(self.response_id)),
            ),
            event(
                "response.failed"@,
                JsonV::object().set("type"@, JsonV::Str("response.failed"@)).set(
                    "response"@,
                    JsonV::object().set("id"@, JsonV::Str(self.response_id)).set(
                        "status"@,
                        JsonV::Str("failed"@),
                    ),
                ),
            ),
        ]
    }
}

/// Whether a fresh converter is in state `st`, for the UUIDs that were drawn.
pub open spec fn is_fresh(
    st: ConverterV,
    response_id: Seq<char>,
    model: Seq<char>,
    heal: HealGates,
    names: NameMap,
    msg_uuid: Seq<char>,
    rs_uuid: Seq<char>,
) -> bool {
    is_uuid(msg_uuid) && is_uuid(rs_uuid) && st == ConverterV::fresh(
        response_id,
        model,
        heal,
        names,
        msg_uuid,
        rs_uuid,
    )
}

/// Whether a chunk takes `before` to `after`, for the UUIDs that were drawn.
pub open spec fn takes_chunk(
    before: ConverterV,
    after: ConvStep,
    c: ChunkV,
    uuids: Seq<Seq<char>>,
) -> bool {
    are_uuids(uuids, ConverterV::chunk_calls(c)) && after == before.chunk(c, uuids)
}

/// Whether finishing takes `before` to `after`, for the UUIDs that were drawn.
pub open spec fn finishes(
    before: ConverterV,
    after: ConvStep,
    cids: Seq<Seq<char>>,
    fcs: Seq<Seq<char>>,
) -> bool {
    &&& are_uuids(cids, before.healed_count())
    &&& are_uuids(fcs, before.finished_count(cids))
    &&& after == before.finish(cids, fcs)
}

/// What a list of events denotes.
pub open spec fn events_view(s: Seq<(String, String)>) -> Seq<EventV> {
    Seq::new(s.len(), |i: int| (s[i].0@, s[i].1@))
}

struct ToolEntry {
    index: u64,
    id: String,
    name: String,
    arguments: String,
}

impl View for ToolEntry {
    type V = EntryV;

    closed spec fn view(&self) -> EntryV {
        EntryV {
            index: self.index,
            id: self.id@,
            name: self.name@,
            arguments: self.arguments@,
        }
    }
}

spec fn entries_view(s: Seq<ToolEntry>) -> Seq<EntryV> {
    Seq::new(s.len(), |i: int| s[i]@)
}

/// Where a streamed answer stands.
pub struct StreamState {
    tool_calls: Vec<ToolEntry>,
    namespace_tools: NamespaceToolMap,
    msg_item_id: String,
    reasoning_item_id: String,
    next_output_index: u64,
    reasoning_output_index: Option<u64>,
    message_output_index: Option<u64>,
    started: bool,
    finish_reason: Option<String>,
    finish_emitted: bool,
    dsml_filter: DsmlStreamFilter,
    think_filter: ThinkStreamFilter,
}

/// What a [`StreamState`] denotes.
pub struct StateV {
    pub tool_calls: Seq<EntryV>,
    pub names: NameMap,
    pub msg_item_id: Seq<char>,
    pub reasoning_item_id: Seq<char>,
    pub next_output_index: u64,
    pub reasoning_output_index: Option<u64>,
    pub message_output_index: Option<u64>,
    pub started: bool,
    pub finish_reason: Option<Seq<char>>,
    pub finish_emitted: bool,
    pub dsml: DsmlState,
    pub think: ThinkState,
}

impl View for StreamState {
    type V = StateV;

    closed spec fn view(&self) -> StateV {
        StateV {
            tool_calls: entries_view(self.tool_calls@),
            names: self.namespace_tools@,
            msg_item_id: self.msg_item_id@,
            reasoning_item_id: self.reasoning_item_id@,
            next_output_index: self.next_output_index,
            reasoning_output_index: self.reasoning_output_index,
            message_output_index: self.message_output_index,
            started: self.started,
            finish_reason: opt_str(self.finish_reason),
            finish_emitted: self.finish_emitted,
            dsml: self.dsml_filter@,
            think: self.think_filter@,
        }
    }
}

/// Converts a streamed Chat Completions answer to Responses events.
pub struct StreamConverter {
    pub response_id: String,
    pub model: String,
    pub acc: OutputAccumulator,
    pub state: StreamState,
}

impl View for StreamConverter {
    type V = ConverterV;

    open spec fn view(&self) -> ConverterV {
        ConverterV {
            response_id: self.response_id@,
            model: self.model@,
            items: items_view(self.acc.items@),
            text: self.acc.text@,
            reasoning: self.acc.reasoning@,
            usage: self.acc.usage,
            tool_calls: self.state@.tool_calls,
            names: self.state@.names,
            msg_item_id: self.state@.msg_item_id,
            reasoning_item_id: self.state@.reasoning_item_id,
            next_output_index: self.state@.next_output_index,
            reasoning_output_index: self.state@.reasoning_output_index,
            message_output_index: self.state@.message_output_index,
            started: self.state@.started,
            finish_reason: self.state@.finish_reason,
            finish_emitted: self.state@.finish_emitted,
            dsml: self.state@.dsml,
            think: self.state@.think,
        }
    }
}

fn index_after(n: u64) -> (r: u64)
    ensures
        r == next_after(n),
{
    if n == u64::MAX {
        0
    } else {
        n + 1
    }
}

fn sse_event(kind: &str, data: &Json) -> (r: (String, String))
    ensures
        (r.0@, r.1@) == event(kind@, data@),
{
    (kind.to_owned(), data.to_text())
}

/// Appends an event.
fn push_event(events: &mut Vec<(String, String)>, kind: &str, data: &Json)
    ensures
        events_view(final(events)@) == events_view(old(events)@).push(event(kind@, data@)),
{
    let e = sse_event(kind, data);
    let ghost before = events@;
    events.push(e);
    assert(events_view(events@) =~= events_view(before).push((e.0@, e.1@)));
}

fn item_event_value(kind: &str, index: u64, item: Json) -> (r: Json)
    ensures
        r@ == item_event(kind@, index, item@),
{
    Json::object().set("type", Json::str(kind)).set("output_index", Json::uint(index)).set(
        "item",
        item,
    )
}

fn wire_call_value(
    item_id: &str,
    call_id: &str,
    namespace: &Option<String>,
    name: &str,
    arguments: &str,
    status: &str,
) -> (r: Json)
    ensures
        r@ == wire_call(item_id@, call_id@, (opt_str(*namespace), name@), arguments@, status@),
{
    let item = Json::object().set("type", Json::str("function_call")).set(
        "id",
        Json::str(item_id),
    ).set("call_id", Json::str(call_id)).set("name", Json::str(name)).set(
        "arguments",
        Json::str(arguments),
    ).set("status", Json::str(status));
    add_namespace(item, namespace)
}

/// The first position whose entry has an index of at least `index`.
fn find_entry(entries: &Vec<ToolEntry>, index: u64) -> (r: usize)
    ensures
        r == entry_position(entries_view(entries@), index, 0),
        r <= entries@.len(),
{
    let mut k: usize = 0;
    while k < entries.len() && entries[k].index < index
        invariant
            k <= entries@.len(),
            entry_position(entries_view(entries@), index, 0) == entry_position(
                entries_view(entries@),
                index,
                k as int,
            ),
        decreases entries@.len() - k,
    {
        assert(entries_view(entries@)[k as int].index == entries@[k as int].index);
        k = k + 1;
    }
    assert(k < entries@.len() ==> entries_view(entries@)[k as int].index
        == entries@[k as int].index);
    k
}

/// Puts an entry in the place of its index.
fn put_entry(entries: &mut Vec<ToolEntry>, e: ToolEntry)
    ensures
        entries_view(final(entries)@) == with_entry(entries_view(old(entries)@), e@),
{
    let p = find_entry(entries, e.index);
    let ghost before = entries@;
    if p < entries.len() && entries[p].index == e.index {
        entries.set(p, e);
        assert(entries_view(entries@) =~= entries_view(before).update(p as int, e@));
    } else {
        entries.insert(p, e);
        assert(entries_view(entries@) =~= entries_view(before).insert(p as int, e@));
    }
}

/// Whether an optional string holds a character.
fn is_filled(s: &Option<String>) -> (r: bool)
    ensures
        r == (opt_str(*s) matches Some(x) && x.len() > 0),
{
    match s {
        Some(x) => !x.as_str().is_empty(),
        None => false,
    }
}

/// Takes in a tool-call delta; a new entry without an id gets one made of
/// `uuid`.
fn take_tool_delta(entries: &mut Vec<ToolEntry>, tc: &DeltaToolCall, uuid: &str)
    ensures
        entries_view(final(entries)@) == after_tool_delta(
            entries_view(old(entries)@),
            tc@,
            uuid@,
        ),
{
    let (filled_name, filled_arguments) = match &tc.function {
        Some(f) => (is_filled(&f.name), is_filled(&f.arguments)),
        None => (false, false),
    };
    if !is_filled(&tc.id) && !filled_name && !filled_arguments {
        return;
    }
    let p = find_entry(entries, tc.index);
    let found = p < entries.len() && entries[p].index == tc.index;
    let (mut id, mut name, mut arguments) = if found {
        (entries[p].id.clone(), entries[p].name.clone(), entries[p].arguments.clone())
    } else {
        (concat2("call_", uuid), String::new(), String::new())
    };
    if let Some(new_id) = &tc.id {
        if !new_id.as_str().is_empty() {
            id = new_id.clone();
        }
    }
    let ghost args_before = arguments@;
    if let Some(f) = &tc.function {
        if let Some(n) = &f.name {
            if !n.as_str().is_empty() {
                let whole = to_chars(n.as_str());
                let so_far = to_chars(name.as_str());
                if occurs_at(&whole, 0, &so_far) {
                    name = n.clone();
                } else {
                    name.append(n.as_str());
                }
            }
        }
        if let Some(a) = &f.arguments {
            arguments.append(a.as_str());
        }
    }
    assert(arguments@ =~= args_before + str_or(tc@.arguments, Seq::empty()));
    put_entry(entries, ToolEntry { index: tc.index, id, name, arguments });
}

impl StreamConverter {
    /// A converter for one streamed answer.
    pub fn new(
        response_id: String,
        model: String,
        heal: HealGates,
        namespace_tools: NamespaceToolMap,
    ) -> (r: StreamConverter)
        ensures
            exists|msg_uuid: Seq<char>, rs_uuid: Seq<char>| #[trigger]
                is_fresh(
                    r@,
                    response_id@,
                    model@,
                    heal,
                    namespace_tools@,
                    msg_uuid,
                    rs_uuid,
                ),
    {
        let msg_uuid = new_uuid();
        let rs_uuid = new_uuid();
        let r = StreamConverter::with_ids(
            response_id,
            model,
            heal,
            namespace_tools,
            msg_uuid.as_str(),
            rs_uuid.as_str(),
        );
        assert(is_fresh(
            r@,
            response_id@,
            model@,
            heal,
            namespace_tools@,
            msg_uuid@,
            rs_uuid@,
        ));
        r
    }

    /// [`Self::new`] with the given UUIDs.
    pub fn with_ids(
        response_id: String,
        model: String,
        heal: HealGates,
        namespace_tools: NamespaceToolMap,
        msg_uuid: &str,
        rs_uuid: &str,
    ) -> (r: StreamConverter)
        ensures
            r@ == ConverterV::fresh(
                response_id@,
                model@,
                heal,
                namespace_tools@,
                msg_uuid@,
                rs_uuid@,
            ),
    {
        let r = StreamConverter {
            response_id,
            model,
            acc: OutputAccumulator::new(),
            state: StreamState {
                tool_calls: Vec::new(),
                namespace_tools,
                msg_item_id: concat2("msg_", msg_uuid),
                reasoning_item_id: concat2("rs_", rs_uuid),
                next_output_index: 0,
                reasoning_output_index: None,
                message_output_index: None,
                started: false,
                finish_reason: None,
                finish_emitted: false,
                dsml_filter: DsmlStreamFilter::new(heal.dsml),
                think_filter: ThinkStreamFilter::new(heal.think),
            },
        };
        assert(entries_view(r.state.tool_calls@) =~= Seq::<EntryV>::empty());
        r
    }

    /// Opens the response: the created event, the first time.
    pub fn start(&mut self) -> (r: Option<(String, String)>)
        ensures
            final(self)@ == old(self)@.start().st,
            match r {
                Some(e) => old(self)@.start().out == seq![(e.0@, e.1@)],
                None => old(self)@.start().out == Seq::<EventV>::empty(),
            },
    {
        if self.state.started {
            return None;
        }
        self.state.started = true;
        let response = Json::object().set("id", Json::str(self.response_id.as_str())).set(
            "status",
            Json::str("in_progress"),
        ).set("model", Json::str(self.model.as_str()));
        let data = Json::object().set("type", Json::str("response.created")).set(
            "response",
            response,
        );
        Some(sse_event("response.created", &data))
    }

    fn reasoning_value(&self, text: &str) -> (r: Json)
        ensures
            r@ == self@.reasoning_json(text@),
    {
        Json::object().set("type", Json::str("reasoning")).set(
            "id",
            Json::str(self.state.reasoning_item_id.as_str()),
        ).set("summary", Json::one(text_part_value("summary_text", text)))
    }

    fn message_value(&self, status: &str, content: Json) -> (r: Json)
        requires
            content@ is Arr,
        ensures
            r@ == self@.message_json(status@, content@->Arr_0),
    {
        Json::object().set("type", Json::str("message")).set(
            "id",
            Json::str(self.state.msg_item_id.as_str()),
        ).set("role", Json::str("assistant")).set("status", Json::str(status)).set(
            "content",
            content,
        )
    }

    fn reasoning_delta_events(&mut self, reasoning: &str, events: &mut Vec<(String, String)>)
        ensures
            final(self)@ == old(self)@.reasoning_delta(reasoning@).st,
            events_view(final(events)@) == events_view(old(events)@) + old(self)@.reasoning_delta(
                reasoning@,
            ).out,
    {
        let ghost before = events_view(events@);
        if reasoning.is_empty() {
            assert(before =~= before + Seq::<EventV>::empty());
            return;
        }
        proof {
            reveal_strlit("");
            assert(""@ =~= Seq::<char>::empty());
        }
        let index = match self.state.reasoning_output_index {
            Some(i) => i,
            None => {
                let i = self.state.next_output_index;
                let added = item_event_value(
                    "response.output_item.added",
                    i,
                    self.reasoning_value(""),
                );
                push_event(events, "response.output_item.added", &added);
                self.state.next_output_index = index_after(i);
                self.state.reasoning_output_index = Some(i);
                i
            },
        };
        self.acc.reasoning.append(reasoning);
        let delta = Json::object().set(
            "type",
            Json::str("response.reasoning_summary_text.delta"),
        ).set("item_id", Json::str(self.state.reasoning_item_id.as_str())).set(
            "output_index",
            Json::uint(index),
        ).set("summary_index", Json::uint(0)).set("delta", Json::str(reasoning));
        push_event(events, "response.reasoning_summary_text.delta", &delta);
        assert(events_view(events@) =~= before + old(self)@.reasoning_delta(reasoning@).out);
    }

    fn text_delta_events(&mut self, text: &str, events: &mut Vec<(String, String)>)
        ensures
            final(self)@ == old(self)@.text_delta(text@).st,
            events_view(final(events)@) == events_view(old(events)@) + old(self)@.text_delta(
                text@,
            ).out,
    {
        let ghost before = events_view(events@);
        if text.is_empty() {
            assert(before =~= before + Seq::<EventV>::empty());
            return;
        }
        let index = match self.state.message_output_index {
            Some(i) => i,
            None => {
                let i = self.state.next_output_index;
                let added = item_event_value(
                    "response.output_item.added",
                    i,
                    self.message_value("in_progress", Json::Arr(Vec::new())),
                );
                push_event(events, "response.output_item.added", &added);
                self.state.next_output_index = index_after(i);
                self.state.message_output_index = Some(i);
                i
            },
        };
        self.acc.text.append(text);
        let delta = Json::object().set("type", Json::str("response.output_text.delta")).set(
            "item_id",
            Json::str(self.state.msg_item_id.as_str()),
        ).set("output_index", Json::uint(index)).set("delta", Json::str(text));
        push_event(events, "response.output_text.delta", &delta);
        assert(events_view(events@) =~= before + old(self)@.text_delta(text@).out);
    }

    fn split_delta_events(&mut self, split: &ThinkSplit, events: &mut Vec<(String, String)>)
        ensures
            final(self)@ == old(self)@.split_delta(split@).st,
            events_view(final(events)@) == events_view(old(events)@) + old(self)@.split_delta(
                split@,
            ).out,
    {
        let ghost before = events_view(events@);
        self.reasoning_delta_events(split.reasoning.as_str(), events);
        self.text_delta_events(split.text.as_str(), events);
        assert(events_view(events@) =~= before + old(self)@.split_delta(split@).out);
    }

    /// Takes in the tool-call deltas of a chunk.
    fn take_tool_deltas(&mut self, tool_calls: &Vec<DeltaToolCall>, uuids: &Vec<String>)
        requires
            uuids@.len() == tool_calls@.len(),
        ensures
            final(self)@ == (ConverterV {
                tool_calls: after_tool_deltas(
                    old(self)@.tool_calls,
                    deltas_view(tool_calls@),
                    views(uuids@),
                ),
                ..old(self)@
            }),
    {
        let ghost start = self@;
        let ghost all = deltas_view(tool_calls@);
        let mut i: usize = 0;
        assert(all.take(0) =~= Seq::<ToolDeltaV>::empty());
        while i < tool_calls.len()
            invariant
                i <= tool_calls@.len() == uuids@.len(),
                all == deltas_view(tool_calls@),
                self@ == (ConverterV {
                    tool_calls: after_tool_deltas(
                        start.tool_calls,
                        all.take(i as int),
                        views(uuids@),
                    ),
                    ..start
                }),
            decreases tool_calls@.len() - i,
        {
            proof {
                assert(all.take(i + 1).drop_last() =~= all.take(i as int));
                assert(all.take(i + 1).last() == tool_calls@[i as int]@);
            }
            take_tool_delta(&mut self.state.tool_calls, &tool_calls[i], uuids[i].as_str());
            i = i + 1;
        }
        assert(all.take(i as int) =~= all);
    }

    /// Takes in a chunk; returns the events to emit.
    pub fn on_chunk(&mut self, chunk: &ChatStreamChunk) -> (events: Vec<(String, String)>)
        ensures
            exists|uuids: Seq<Seq<char>>| #[trigger]
                takes_chunk(
                    old(self)@,
                    ConvStep { st: final(self)@, out: events_view(events@) },
                    chunk@,
                    uuids,
                ),
    {
        let count: usize = if chunk.choices.len() == 0 {
            0
        } else {
            match &chunk.choices[0].delta.tool_calls {
                Some(t) => t.len(),
                None => 0,
            }
        };
        let uuids = fresh_ids(count);
        let events = self.on_chunk_with_ids(chunk, &uuids);
        assert(takes_chunk(
            old(self)@,
            ConvStep { st: self@, out: events_view(events@) },
            chunk@,
            views(uuids@),
        ));
        events
    }

    /// [`Self::on_chunk`] with the given UUIDs.
    pub fn on_chunk_with_ids(&mut self, chunk: &ChatStreamChunk, uuids: &Vec<String>) -> (events:
        Vec<(String, String)>)
        requires
            uuids@.len() == ConverterV::chunk_calls(chunk@),
        ensures
            (ConvStep { st: final(self)@, out: events_view(events@) }) == old(self)@.chunk(
                chunk@,
                views(uuids@),
            ),
    {
        let mut events: Vec<(String, String)> = Vec::new();
        if let Some(e) = self.start() {
            events.push(e);
        }
        assert(events_view(events@) =~= old(self)@.start().out);
        if chunk.choices.len() > 0 {
            let choice = &chunk.choices[0];
            let content = match &choice.delta.content {
                Some(c) => c.clone(),
                None => String::new(),
            };
            let dsml_text = self.state.dsml_filter.push(content.as_str());
            let healed = self.state.think_filter.push(dsml_text.as_str());
            let mut reasoning = match &choice.delta.reasoning_content {
                Some(r) => r.clone(),
                None => String::new(),
            };
            reasoning.append(healed.reasoning.as_str());
            let split = ThinkSplit { reasoning, text: healed.text };
            self.split_delta_events(&split, &mut events);
            match &choice.delta.tool_calls {
                Some(tool_calls) => {
                    self.take_tool_deltas(tool_calls, uuids);
                },
                None => {},
            }
            if let Some(reason) = &choice.finish_reason {
                self.state.finish_reason = Some(reason.clone());
            }
        }
        if let Some(usage) = chunk.usage {
            self.acc.usage = Some(usage);
        }
        assert(events_view(events@) =~= old(self)@.chunk(chunk@, views(uuids@)).out);
        events
    }

    /// The last finish reason.
    pub fn finish_reason(&self) -> (r: Option<&str>)
        ensures
            opt_text(r) == self@.finish_reason,
    {
        match &self.state.finish_reason {
            Some(r) => Some(r.as_str()),
            None => None,
        }
    }

    /// Finishes the answer, once, and only after a finish reason came; returns
    /// the events to emit.
    pub fn finish(&mut self) -> (events: Vec<(String, String)>)
        ensures
            exists|cids: Seq<Seq<char>>, fcs: Seq<Seq<char>>| #[trigger]
                finishes(
                    old(self)@,
                    ConvStep { st: final(self)@, out: events_view(events@) },
                    cids,
                    fcs,
                ),
    {
        if self.state.finish_reason.is_none() || self.state.finish_emitted {
            let events: Vec<(String, String)> = Vec::new();
            assert(events_view(events@) =~= Seq::<EventV>::empty());
            assert(finishes(
                old(self)@,
                ConvStep { st: self@, out: events_view(events@) },
                Seq::empty(),
                Seq::empty(),
            ));
            return events;
        }
        self.state.finish_emitted = true;
        let ghost mid = self@;
        let (calls, mut events) = self.flush_filters();
        let cids = fresh_ids(calls.len());
        self.join_calls(&calls, &cids);
        assert(self@ == mid.flush_heal(views(cids@)).st);
        let fcs = fresh_ids(self.state.tool_calls.len());
        let ghost flushed = events_view(events@);
        let mut last = self.emit_finish(&fcs);
        let ghost e1 = events@;
        let ghost l1 = last@;
        events.append(&mut last);
        assert(events_view(events@) =~= events_view(e1) + events_view(l1));
        assert(finishes(
            old(self)@,
            ConvStep { st: self@, out: events_view(events@) },
            views(cids@),
            views(fcs@),
        ));
        events
    }

    /// Takes what the filters withhold; returns the healed calls and the events
    /// to emit.
    fn flush_filters(&mut self) -> (r: (Vec<DsmlToolCall>, Vec<(String, String)>))
        ensures
            calls_view(r.0@) == old(self)@.tail_calls(),
            ({
                let step = ConverterV {
                    dsml: DsmlState::fresh(true),
                    think: ThinkState::fresh(true),
                    ..old(self)@
                }.split_delta(old(self)@.tail_split());
                final(self)@ == step.st && events_view(r.1@) == step.out
            }),
    {
        let (dsml_tail, calls) = self.state.dsml_filter.take();
        let mut split = self.state.think_filter.push(dsml_tail.as_str());
        let tail = self.state.think_filter.take();
        split.reasoning.append(tail.reasoning.as_str());
        split.text.append(tail.text.as_str());
        self.state.dsml_filter = DsmlStreamFilter::default();
        self.state.think_filter = ThinkStreamFilter::default();
        let mut events: Vec<(String, String)> = Vec::new();
        let ghost mid = self@;
        self.split_delta_events(&split, &mut events);
        assert(events_view(events@) =~= mid.split_delta(split@).out);
        (calls, events)
    }

    /// Puts healed calls behind the streamed ones.
    fn join_calls(&mut self, calls: &Vec<DsmlToolCall>, cids: &Vec<String>)
        requires
            cids@.len() == calls@.len(),
        ensures
            final(self)@ == (ConverterV {
                tool_calls: with_calls(
                    old(self)@.tool_calls,
                    old(self)@.calls_base(),
                    calls_view(calls@),
                    views(cids@),
                ).0,
                ..old(self)@
            }),
    {
        let ghost start = self@;
        let ghost all = calls_view(calls@);
        let ghost base = self@.calls_base();
        let mut index: u64 = if self.state.tool_calls.len() == 0 {
            0
        } else {
            index_after(self.state.tool_calls[self.state.tool_calls.len() - 1].index)
        };
        let mut i: usize = 0;
        assert(all.take(0) =~= Seq::<CallV>::empty());
        while i < calls.len()
            invariant
                i <= calls@.len() == cids@.len(),
                all == calls_view(calls@),
                (self@.tool_calls, index) == with_calls(
                    start.tool_calls,
                    base,
                    all.take(i as int),
                    views(cids@),
                ),
                self@ == (ConverterV { tool_calls: self@.tool_calls, ..start }),
            decreases calls@.len() - i,
        {
            proof {
                assert(all.take(i + 1).drop_last() =~= all.take(i as int));
                assert(all.take(i + 1).last() == calls@[i as int]@);
            }
            let e = ToolEntry {
                index,
                id: concat2("call_dsml_", cids[i].as_str()),
                name: calls[i].name.clone(),
                arguments: calls[i].arguments.clone(),
            };
            put_entry(&mut self.state.tool_calls, e);
            index = index_after(index);
            i = i + 1;
        }
        assert(all.take(i as int) =~= all);
    }

    /// Emits the done events of reasoning and message; returns the items that
    /// were done.
    fn emit_done(&mut self, events: &mut Vec<(String, String)>) -> (output: Vec<Json>)
        ensures
            final(self)@ == (ConverterV {
                items: old(self)@.items + old(self)@.text_items(),
                ..old(self)@
            }),
            items_view(output@) == Seq::new(
                old(self)@.done_items().len(),
                |i: int| old(self)@.done_items()[i].1,
            ),
            events_view(final(events)@) == events_view(old(events)@) + Seq::new(
                old(self)@.done_items().len(),
                |i: int|
                    event(
                        "response.output_item.done"@,
                        item_event(
                            "response.output_item.done"@,
                            old(self)@.done_items()[i].0,
                            old(self)@.done_items()[i].1,
                        ),
                    ),
            ),
    {
        let ghost st = self@;
        let ghost done = st.done_items();
        let ghost before = events_view(events@);
        let ghost done_events = Seq::new(
            done.len(),
            |i: int|
                event(
                    "response.output_item.done"@,
                    item_event("response.output_item.done"@, done[i].0, done[i].1),
                ),
        );
        let mut output: Vec<Json> = Vec::new();
        let reasoning = self.reasoning_value(self.acc.reasoning.as_str());
        let message = self.message_value(
            "completed",
            Json::one(text_part_value("output_text", self.acc.text.as_str())),
        );
        match (self.state.reasoning_output_index, self.state.message_output_index) {
            (Some(i), Some(j)) => {
                if i <= j {
                    emit_done_item(i, reasoning, events, &mut output);
                    emit_done_item(j, message, events, &mut output);
                } else {
                    emit_done_item(j, message, events, &mut output);
                    emit_done_item(i, reasoning, events, &mut output);
                }
            },
            (Some(i), None) => {
                emit_done_item(i, reasoning, events, &mut output);
            },
            (None, Some(j)) => {
                emit_done_item(j, message, events, &mut output);
            },
            (None, None) => {},
        }
        assert(items_view(output@) =~= Seq::new(done.len(), |i: int| done[i].1));
        assert(events_view(events@) =~= before + done_events);
        if self.state.reasoning_output_index.is_some() {
            let item = reasoning_item(self.acc.reasoning.as_str());
            proof {
                lemma_items_push(self.acc.items@, item);
            }
            self.acc.items.push(item);
        }
        if self.state.message_output_index.is_some() {
            let item = message_item(self.acc.text.as_str());
            proof {
                lemma_items_push(self.acc.items@, item);
            }
            self.acc.items.push(item);
        }
        assert(self@.items =~= st.items + st.text_items());
        output
    }

    /// Emits the finished tool calls, the `i`-th with an id made of the `i`-th
    /// UUID; their items are appended to `output`.
    fn emit_calls(
        &mut self,
        fcs: &Vec<String>,
        events: &mut Vec<(String, String)>,
        output: &mut Vec<Json>,
    )
        requires
            fcs@.len() == old(self)@.tool_calls.len(),
        ensures
            final(self)@ == (ConverterV {
                items: old(self)@.items + old(self)@.calls_out(views(fcs@)).items,
                ..old(self)@
            }),
            items_view(final(output)@) == items_view(old(output)@) + old(self)@.calls_out(
                views(fcs@),
            ).output,
            events_view(final(events)@) == events_view(old(events)@) + old(self)@.calls_out(
                views(fcs@),
            ).events,
    {
        let ghost st = self@;
        let ghost uuids = views(fcs@);
        let ghost all = st.tool_calls;
        let ghost out0 = items_view(output@);
        let ghost ev0 = events_view(events@);
        let mut index: u64 = self.state.next_output_index;
        let mut i: usize = 0;
        proof {
            reveal_strlit("");
            assert(""@ =~= Seq::<char>::empty());
        }
        assert(all.take(0) =~= Seq::<EntryV>::empty());
        assert(out0 + Seq::<JsonV>::empty() =~= out0);
        assert(ev0 + Seq::<EventV>::empty() =~= ev0);
        assert(st.items + Seq::<JsonV>::empty() =~= st.items);
        while i < self.state.tool_calls.len()
            invariant
                ""@ == Seq::<char>::empty(),
                i <= self.state.tool_calls@.len() == fcs@.len(),
                uuids == views(fcs@),
                all == st.tool_calls,
                self@ == (ConverterV { items: self@.items, ..st }),
                ({
                    let done = finished_calls(
                        all.take(i as int),
                        st.names,
                        st.next_output_index,
                        uuids,
                    );
                    &&& index == done.next_index
                    &&& self@.items == st.items + done.items
                    &&& items_view(output@) == out0 + done.output
                    &&& events_view(events@) == ev0 + done.events
                }),
            decreases self.state.tool_calls@.len() - i,
        {
            let ghost prefix = all.take(i + 1);
            let ghost done = finished_calls(
                all.take(i as int),
                st.names,
                st.next_output_index,
                uuids,
            );
            let ghost next = finished_calls(prefix, st.names, st.next_output_index, uuids);
            proof {
                assert(prefix.drop_last() =~= all.take(i as int));
                assert(prefix.last() == self.state.tool_calls@[i as int]@);
            }
            if !self.state.tool_calls[i].name.as_str().is_empty() {
                let e = &self.state.tool_calls[i];
                let item_id = concat2("fc_", fcs[i].as_str());
                let (namespace, name) = decode_tool_call_name(
                    e.name.as_str(),
                    &self.state.namespace_tools,
                );
                let chars = to_chars(e.arguments.as_str());
                assert(chars@.subrange(0, chars@.len() as int) =~= chars@);
                let arguments = if is_blank(&chars, 0, chars.len()) {
                    "{}".to_owned()
                } else {
                    e.arguments.clone()
                };
                let added = item_event_value(
                    "response.output_item.added",
                    index,
                    wire_call_value(
                        item_id.as_str(),
                        e.id.as_str(),
                        &namespace,
                        name.as_str(),
                        "",
                        "in_progress",
                    ),
                );
                push_event(events, "response.output_item.added", &added);
                let delta = Json::object().set(
                    "type",
                    Json::str("response.function_call_arguments.delta"),
                ).set("item_id", Json::str(item_id.as_str())).set(
                    "output_index",
                    Json::uint(index),
                ).set("delta", Json::str(arguments.as_str()));
                push_event(events, "response.function_call_arguments.delta", &delta);
                let item = wire_call_value(
                    item_id.as_str(),
                    e.id.as_str(),
                    &namespace,
                    name.as_str(),
                    arguments.as_str(),
                    "completed",
                );
                let stored = function_call_item(
                    e.id.as_str(),
                    &namespace,
                    name.as_str(),
                    arguments.as_str(),
                );
                let event_data = item_event_value("response.output_item.done", index, item.dup());
                push_event(events, "response.output_item.done", &event_data);
                proof {
                    lemma_items_push(output@, item);
                    lemma_items_push(self.acc.items@, stored);
                }
                output.push(item);
                self.acc.items.push(stored);
                index = index_after(index);
                proof {
                    assert(events_view(events@) =~= ev0 + next.events);
                    assert(items_view(output@) =~= out0 + next.output);
                    assert(self@.items =~= st.items + next.items);
                }
            }
            i = i + 1;
        }
        assert(all.take(i as int) =~= all);
    }

    /// Emits the done events and the completed event, and keeps the session
    /// items.
    fn emit_finish(&mut self, fcs: &Vec<String>) -> (events: Vec<(String, String)>)
        requires
            fcs@.len() == old(self)@.tool_calls.len(),
        ensures
            (ConvStep { st: final(self)@, out: events_view(events@) }) == old(self)@.emit_finish(
                views(fcs@),
            ),
    {
        let ghost st = self@;
        let mut events: Vec<(String, String)> = Vec::new();
        let mut output = self.emit_done(&mut events);
        let ghost mid = self@;
        assert(mid.calls_out(views(fcs@)) == st.calls_out(views(fcs@)));
        self.emit_calls(fcs, &mut events, &mut output);
        assert(items_view(output@) =~= st.completed_output(views(fcs@)));
        let response = Json::object().set("id", Json::str(self.response_id.as_str())).set(
            "status",
            Json::str("completed"),
        ).set("model", Json::str(self.model.as_str())).set("output", Json::Arr(output)).set(
            "usage",
            usage_value(self.acc.usage),
        );
        let data = Json::object().set("type", Json::str("response.completed")).set(
            "response",
            response,
        );
        push_event(&mut events, "response.completed", &data);
        assert(events_view(events@) =~= st.emit_finish(views(fcs@)).out);
        assert(self@.items =~= st.emit_finish(views(fcs@)).st.items);
        events
    }

    /// The events that report an error.
    pub fn on_error(&self, message: &str) -> (events: Vec<(String, String)>)
        ensures
            events_view(events@) == self@.failed(message@),
    {
        let mut events: Vec<(String, String)> = Vec::new();
        let error = Json::object().set("type", Json::str("error")).set(
            "message",
            Json::str(message),
        ).set("response_id", Json::str(self.response_id.as_str()));
        push_event(&mut events, "error", &error);
        let response = Json::object().set("id", Json::str(self.response_id.as_str())).set(
            "status",
            Json::str("failed"),
        );
        let failed = Json::object().set("type", Json::str("response.failed")).set(
            "response",
            response,
        );
        push_event(&mut events, "response.failed", &failed);
        assert(events_view(events@) =~= self@.failed(message@));
        events
    }
}

/// Emits the done event of an item and appends the item to `output`.
fn emit_done_item(
    index: u64,
    item: Json,
    events: &mut Vec<(String, String)>,
    output: &mut Vec<Json>,
)
    ensures
        items_view(final(output)@) == items_view(old(output)@).push(item@),
        events_view(final(events)@) == events_view(old(events)@).push(
            event(
                "response.output_item.done"@,
                item_event("response.output_item.done"@, index, item@),
            ),
        ),
{
    let data = item_event_value("response.output_item.done", index, item.dup());
    push_event(events, "response.output_item.done", &data);
    proof {
        lemma_items_push(output@, item);
    }
    output.push(item);
}

/// Once the answer was finished, finishing again emits nothing and changes
/// nothing.
pub proof fn finish_happens_once(
    st: ConverterV,
    cids: Seq<Seq<char>>,
    fcs: Seq<Seq<char>>,
    cids2: Seq<Seq<char>>,
    fcs2: Seq<Seq<char>>,
)
    requires
        st.can_finish(),
    ensures
        st.finish(cids, fcs).st.finish(cids2, fcs2) == (ConvStep {
            st: st.finish(cids, fcs).st,
            out: Seq::empty(),
        }),
{
}

/// Without a finish reason the answer is not finished: a truncated stream never
/// completes.
pub proof fn truncated_stream_never_completes(
    st: ConverterV,
    cids: Seq<Seq<char>>,
    fcs: Seq<Seq<char>>,
)
    requires
        st.finish_reason is None,
    ensures
        st.finish(cids, fcs) == (ConvStep { st, out: Seq::empty() }),
{
}

/// The created event is emitted with the first chunk or by an earlier start,
/// never twice.
pub proof fn created_once(st: ConverterV, c: ChunkV, uuids: Seq<Seq<char>>)
    ensures
        st.chunk(c, uuids).st.started,
        st.started ==> st.start().out == Seq::<EventV>::empty(),
        st.start().st.start().out == Seq::<EventV>::empty(),
{
}

/// The session items keep reasoning before text, whichever came first on the
/// wire.
pub proof fn session_items_are_reasoning_first(st: ConverterV, fcs: Seq<Seq<char>>)
    requires
        st.reasoning_output_index is Some,
        st.message_output_index is Some,
        st.items.len() == 0,
    ensures
        st.emit_finish(fcs).st.items.len() >= 2,
        st.emit_finish(fcs).st.items[0] == reasoning_item_v(st.reasoning),
        st.emit_finish(fcs).st.items[1] == message_item_v(st.text),
{
}

/// Whether entries are strictly ordered by index.
pub open spec fn ordered(entries: Seq<EntryV>) -> bool {
    forall|i: int, j: int|
        0 <= i < j < entries.len() ==> (#[trigger] entries[i]).index < (#[trigger] entries[j]).index
}

proof fn lemma_entry_position(entries: Seq<EntryV>, index: u64, k: int)
    requires
        0 <= k <= entries.len(),
    ensures
        k <= entry_position(entries, index, k) <= entries.len(),
        forall|i: int|
            k <= i < entry_position(entries, index, k) ==> (#[trigger] entries[i]).index < index,
        entry_position(entries, index, k) < entries.len() ==> entries[entry_position(
            entries,
            index,
            k,
        )].index >= index,
    decreases entries.len() - k,
{
    if k < entries.len() && entries[k].index < index {
        lemma_entry_position(entries, index, k + 1);
    }
}

/// Tool calls stay ordered by index, each index once, whatever order their
/// deltas come in.
pub proof fn tool_calls_stay_ordered(entries: Seq<EntryV>, e: EntryV)
    requires
        ordered(entries),
    ensures
        ordered(with_entry(entries, e)),
{
    lemma_entry_position(entries, e.index, 0);
    let p = entry_position(entries, e.index, 0);
    let r = with_entry(entries, e);
    assert forall|i: int, j: int| 0 <= i < j < r.len() implies (#[trigger] r[i]).index < (
    #[trigger] r[j]).index by {
        if p < entries.len() && entries[p].index == e.index {
            assert(r[i].index == entries[i].index);
            assert(r[j].index == entries[j].index);
        } else {
            if i < p {
                assert(r[i] == entries[i]);
            } else if i > p {
                assert(r[i] == entries[i - 1]);
            }
            if j < p {
                assert(r[j] == entries[j]);
            } else if j > p {
                assert(r[j] == entries[j - 1]);
                if i == p && j - 1 > p {
                    assert(entries[p].index < entries[j - 1].index);
                }
            }
        }
    }
}

/// What an entry holds is what a lookup of its index finds.
pub proof fn entry_is_found(entries: Seq<EntryV>, e: EntryV)
    requires
        ordered(entries),
    ensures
        entry_at(with_entry(entries, e), e.index) == Some(e),
{
    lemma_entry_position(entries, e.index, 0);
    let p = entry_position(entries, e.index, 0);
    let r = with_entry(entries, e);
    lemma_entry_position(r, e.index, 0);
    let q = entry_position(r, e.index, 0);
    assert(r[p] == e);
    if q < p {
        assert(r[q] == entries[q]);
    } else if q > p {
        assert(r[p].index < e.index);
    }
}

} // verus!
