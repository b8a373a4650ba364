//! What a caller of the public functions gets, stated over the values that they
//! take and return.

use crate::config::{resolve_default_config, Config, ConfigError};
use crate::convert::request::{function_call_to_tool_call, to_chat_request};
use crate::convert::response::{
    chat_response_to_items, finished_calls, finishes, is_fresh, response_items, takes_chunk,
    ConvStep, ConverterV, EntryV, NameMap, StreamConverter,
};
use crate::convert::runs::gates_closed;
use crate::doctor::{live_requested, Check, CheckStatus};
use crate::doctor_live::{exit_check, tail, ProbeOutcome};
use crate::heal::HealGates;
use crate::heal::dsml::{apply_healed_calls, heal_dsml_chat_message, leaked, CallV, DsmlToolCall};
use crate::json::{json_text, lemma_items_view, toml_parse, Json, JsonV};
use crate::laws::answers::{
    blocking_answers_keep_their_parts, chunks_add_what_they_bring,
    completed_events_carry_the_answer, completes, converters_start_empty, ends_with,
    errors_fail_the_response, fails, finishing_tells_the_streamed_calls,
    gathered_calls_are_told_alike, is_call_of, is_told, keeps_call, named, opens, reports,
    responses_are_opened_by_id, says,
};
use crate::laws::configs::{providers_are_read_by_name, routes_are_read_by_name};
use crate::laws::healing::{healed_messages_call_what_leaked, is_tool_call};
use crate::laws::requests::{
    bound_tools_are_all_told, calls_keep_their_id_and_arguments, stands_for,
};
use crate::metrics::{ErrorClass, ErrorLabels, GaugeLabels, LatencyLabels, TokenLabels};
use crate::mode::{detect_mode, mode_of, Mode};
use crate::normalize::{flat_tools, NamespaceToolMap};
use crate::wire::chat::{ChatMessage, ChatRequest, ChatResponse, ChatStreamChunk};
use crate::wire::responses::ResponsesRequest;
use vstd::prelude::*;

verus! {

/// A configuration that was read from text has, under each provider's name, the
/// address, the format and the limits that the table of that name gives, and
/// under each route's key its model.
pub proof fn parsed_configurations_say_what_the_text_says(
    text: &str,
    doc: JsonV,
    r: Result<Config, ConfigError>,
    i: int,
)
    requires
        call_ensures(Config::parse_str, (text,), r),
        toml_parse(text@) == Ok::<JsonV, Seq<char>>(doc),
        r is Ok,
        0 <= i,
    ensures
        i < r->Ok_0.providers@.len() && doc.at("providers"@) is Obj ==> ({
            let p = r->Ok_0.providers@[i].1;
            let o = doc.at("providers"@).at(r->Ok_0.providers@[i].0@);
            o is Obj ==> o.get_str("base_url"@) == Some(p.base_url@) && o.get_str("format"@) == Some(
                p.format@,
            ) && (o.at("timeout_ms"@).as_u64() matches Some(n) ==> p.timeout_ms == n) && (o.get_str(
                "api_key"@,
            ) matches Some(k) ==> p.api_key is Some && p.api_key->0@ == k) && (o.get_str(
                "api_key_env"@,
            ) matches Some(k) ==> p.api_key_env is Some && p.api_key_env->0@ == k)
        }),
        i < r->Ok_0.routes@.len() && doc.at("routes"@) is Obj ==> ({
            let p = r->Ok_0.routes@[i].1;
            let o = doc.at("routes"@).at(r->Ok_0.routes@[i].0@);
            o is Obj ==> o.get_str("model"@) == Some(p.model@) && (o.at(
                "context_window"@,
            ).as_u64() matches Some(n) ==> p.context_window == n)
        }),
{
    let c = r->Ok_0;
    if i < c.providers@.len() {
        assert(c@.providers[i] == (c.providers@[i].0@, c.providers@[i].1@));
        let o = doc.at("providers"@).at(c.providers@[i].0@);
        if o is Obj && doc.at("providers"@) is Obj {
            providers_are_read_by_name(o);
        }
    }
    if i < c.routes@.len() {
        assert(c@.routes[i] == (c.routes@[i].0@, c.routes@[i].1@));
        let o = doc.at("routes"@).at(c.routes@[i].0@);
        if o is Obj && doc.at("routes"@) is Obj {
            routes_are_read_by_name(o);
        }
    }
}

/// A function call is told to the upstream under its id, with its arguments.
pub proof fn replayed_calls_keep_their_id_and_arguments(fc: &Json, r: Json)
    requires
        call_ensures(function_call_to_tool_call, (fc,), r),
    ensures
        fc@.get_str("call_id"@) matches Some(id) ==> r@.get_str("id"@) == Some(id),
        fc@.get_str("arguments"@) matches Some(a) ==> r@.at("function"@).get_str("arguments"@)
            == Some(a),
        fc@.get_str("name"@) is Some && fc@.get("namespace"@) is None ==> r@.at(
            "function"@,
        ).get_str("name"@) == fc@.get_str("name"@),
{
    calls_keep_their_id_and_arguments(fc@);
}

/// A request tells the upstream every tool that it binds, with the tool's own
/// name, description and parameters, under the upstream's model.
pub proof fn requests_tell_every_tool(
    req: &ResponsesRequest,
    history: &Vec<Json>,
    model: &str,
    glm: bool,
    r: ChatRequest,
)
    requires
        call_ensures(to_chat_request, (req, history, model, glm), r),
    ensures
        ({
            let bound = flat_tools(
                req@.tools,
                crate::json::items_view(history@),
                req@.input.items(),
            ).tools;
            &&& r.model@ == model@
            &&& r.tools@.len() == bound.len()
            &&& forall|i: int| 0 <= i < bound.len() ==> stands_for((#[trigger] r.tools@[i])@, bound[i])
        }),
{
    let h = crate::json::items_view(history@);
    lemma_items_view(r.tools@);
    bound_tools_are_all_told(req@, h, model@, glm);
    let bound = flat_tools(req@.tools, h, req@.input.items()).tools;
    assert forall|i: int| 0 <= i < bound.len() implies stands_for((#[trigger] r.tools@[i])@, bound[i]) by {
        assert(r@.tools[i] == r.tools@[i]@);
    }
}

/// Healed calls are appended to a message one for one, each with its own name and
/// its own arguments; what the message called before stays.
pub proof fn applied_calls_keep_their_arguments(
    m: &mut ChatMessage,
    cleaned: String,
    calls: Vec<DsmlToolCall>,
    uuids: Vec<String>,
    i: int,
)
    requires
        call_ensures(apply_healed_calls, (m, cleaned, calls, uuids), ()),
        uuids@.len() == calls@.len(),
        0 <= i < calls@.len(),
    ensures
        ({
            let had: int = match old(m).tool_calls {
                Some(t) => t@.len() as int,
                None => 0,
            };
            &&& final(m).tool_calls is Some
            &&& final(m).tool_calls->0@.len() == had + calls@.len()
            &&& is_tool_call(
                final(m).tool_calls->0@[had + i]@,
                CallV { name: calls@[i].name@, arguments: calls@[i].arguments@ },
                "call_dsml_"@ + uuids@[i]@,
            )
        }),
{
    lemma_tool_calls(calls@, uuids@, i);
    let had: int = match m.tool_calls {
        Some(t) => t@.len() as int,
        None => 0,
    };
    let told = final(m).tool_calls->0@;
    lemma_items_view(told);
    if let Some(t) = m.tool_calls {
        lemma_items_view(t@);
    }
    assert(final(m)@.tool_calls->0.len() == told.len());
    assert(final(m)@.tool_calls->0[had + i] == told[had + i]@);
}

proof fn lemma_tool_calls(calls: Seq<DsmlToolCall>, uuids: Seq<String>, i: int)
    requires
        calls.len() == uuids.len(),
        0 <= i < calls.len(),
    ensures
        ({
            let t = crate::heal::dsml::tool_calls_json(
                crate::heal::dsml::calls_view(calls),
                crate::text::views(uuids),
            );
            t.len() == calls.len() && is_tool_call(t[i], calls[i]@, "call_dsml_"@ + uuids[i]@)
        }),
{
    reveal_strlit("id");
    reveal_strlit("type");
    reveal_strlit("function");
    reveal_strlit("name");
    reveal_strlit("arguments");
    assert("id"@.len() == 2);
    assert("type"@.len() == 4);
    assert("function"@.len() == 8);
    assert("name"@.len() == 4);
    assert("arguments"@.len() == 9);
    assert("type"@[0] != "name"@[0]);
    assert(crate::heal::dsml::calls_view(calls)[i] == calls[i]@);
    assert(crate::text::views(uuids)[i] == uuids[i]@);
}

/// Healing a message turns each call that leaked into its text into a tool call
/// with that name and those arguments, behind those that it had; a message into
/// whose text nothing leaked stays.
pub proof fn healing_a_message_calls_what_leaked(
    m: &mut ChatMessage,
    cleaned: Seq<char>,
    calls: Seq<CallV>,
    i: int,
)
    requires
        call_ensures(heal_dsml_chat_message, (m,), ()),
        leaked(old(m)@.text()) == Some((cleaned, calls)),
        0 <= i < calls.len(),
    ensures
        ({
            let had: int = match old(m).tool_calls {
                Some(t) => t@.len() as int,
                None => 0,
            };
            let t = final(m).tool_calls->0@[had + i]@;
            &&& final(m).tool_calls is Some
            &&& final(m).tool_calls->0@.len() == had + calls.len()
            &&& t.at("function"@).get_str("name"@) == Some(calls[i].name)
            &&& t.at("function"@).get_str("arguments"@) == Some(calls[i].arguments)
        }),
{
    let uuids = choose|uuids: Seq<Seq<char>>| #[trigger]
        crate::heal::dsml::dsml_healed(old(m)@, final(m)@, uuids);
    healed_messages_call_what_leaked(old(m)@, final(m)@, uuids, cleaned, calls);
    let had: int = match m.tool_calls {
        Some(t) => t@.len() as int,
        None => 0,
    };
    let told = final(m).tool_calls->0@;
    lemma_items_view(told);
    if let Some(t) = m.tool_calls {
        lemma_items_view(t@);
    }
    assert(final(m)@.tool_calls->0.len() == told.len());
    assert(final(m)@.tool_calls->0[had + i] == told[had + i]@);
    assert(is_tool_call(final(m)@.tool_calls->0[had + i], calls[i], "call_dsml_"@ + uuids[i]));
}

/// The live probe runs where it is asked for; where it is not, it runs with Codex
/// at hand, unless the run is to stay offline.
pub proof fn live_probes_run_where_they_can(live: bool, offline: bool, codex: bool, r: bool)
    requires
        call_ensures(live_requested, (live, offline, codex), r),
    ensures
        live ==> r,
        !live && offline ==> !r,
        !live && !codex ==> !r,
        !offline && codex ==> r,
{
}

/// The tail of a text ends it and is as long as it may be.
pub proof fn tails_end_their_text(s: &str, n: usize, r: String)
    requires
        call_ensures(tail, (s, n), r),
    ensures
        r@.len() <= n,
        r@.len() == n || r@ == s@,
        r@.len() <= s@.len(),
        r@ == s@.skip(s@.len() - r@.len()),
{
}

/// The configuration is the one that the environment names; without one, the
/// current place is taken, and the old place only where it alone is there. Only
/// the old place is reported as old.
pub proof fn configurations_are_found_in_their_place(
    env: Option<&str>,
    current: &str,
    current_exists: bool,
    legacy: &str,
    legacy_exists: bool,
    r: (String, bool),
)
    requires
        call_ensures(
            resolve_default_config,
            (env, current, current_exists, legacy, legacy_exists),
            r,
        ),
    ensures
        env matches Some(e) ==> r.0@ == e@,
        env is None && current_exists ==> r.0@ == current@,
        env is None && !legacy_exists ==> r.0@ == current@,
        env is None && !current_exists && legacy_exists ==> r.0@ == legacy@,
        r.1 <==> env is None && !current_exists && legacy_exists,
{
}

/// The mode is that of the configuration; without one that can be read it is the
/// fallback.
pub proof fn unreadable_configurations_fall_back(
    text: Option<&str>,
    provider: &str,
    doc: JsonV,
    r: Mode,
)
    requires
        call_ensures(detect_mode, (text, provider), r),
    ensures
        text is None ==> r == Mode::Fallback,
        text matches Some(t) ==> (toml_parse(t@) is Err ==> r == Mode::Fallback),
        text matches Some(t) ==> (toml_parse(t@) == Ok::<JsonV, Seq<char>>(doc) ==> r == mode_of(
            doc,
            provider@,
        )),
{
}

/// A run of Codex passes exactly where it succeeded; where it did not, what it
/// printed last is told.
pub proof fn exits_are_judged_by_success(outcome: &ProbeOutcome, r: Check)
    requires
        call_ensures(exit_check, (outcome,), r),
    ensures
        r@.status == CheckStatus::Pass <==> outcome.success,
        r@.status == CheckStatus::Fail <==> !outcome.success,
        !outcome.success ==> r@.detail == outcome.stderr_tail@,
{
}

/// Labels name the provider, the route and the model that they are made for.
pub proof fn labels_name_what_they_count(
    provider: &str,
    route: &str,
    model: &str,
    class: ErrorClass,
    e: ErrorLabels,
    t: TokenLabels,
    l: LatencyLabels,
    g: GaugeLabels,
)
    requires
        call_ensures(ErrorLabels::new, (provider, route, model, class), e),
        call_ensures(TokenLabels::new, (provider, route, model), t),
        call_ensures(LatencyLabels::new, (provider, route, model), l),
        call_ensures(GaugeLabels::new, (provider, route), g),
    ensures
        e.provider@ == provider@ && e.route@ == route@ && e.model@ == model@ && e.error_class == class,
        t.provider@ == provider@ && t.route@ == route@ && t.model@ == model@,
        l.provider@ == provider@ && l.route@ == route@ && l.model@ == model@,
        g.provider@ == provider@ && g.route@ == route@,
{
}

/// Whether the last items of a completed response are the calls of a stream, each
/// under its own id, with its name and the arguments that were gathered for it.
pub open spec fn ends_with_calls(d: JsonV, told: Seq<EntryV>, names: NameMap) -> bool {
    &&& d.at("response"@).get_arr("output"@) is Some
    &&& d.at("response"@).get_arr("output"@)->0.len() >= told.len()
    &&& forall|k: int|
        0 <= k < told.len() ==> calls_as_gathered(
            d.at("response"@).get_arr("output"@)->0,
            #[trigger] told[k],
            k - told.len(),
            names,
        )
}

/// Whether the item at an offset from the end of an output is the call that was
/// gathered.
pub open spec fn calls_as_gathered(
    output: Seq<JsonV>,
    e: EntryV,
    offset: int,
    names: NameMap,
) -> bool {
    let item = output[output.len() + offset];
    let arguments = item.get_str("arguments"@)->0;
    is_call_of(item, e.id, e.name, names, arguments) && ends_with(e.arguments, arguments)
}

/// Finishing a stream tells, as its last event, the completed response: under its
/// id and model, with every call that was gathered under a name.
pub proof fn finished_streams_complete_their_calls(
    c: &mut StreamConverter,
    events: Vec<(String, String)>,
)
    requires
        call_ensures(StreamConverter::finish, (c,), events),
        gates_closed(old(c)@),
        old(c)@.finish_reason is Some,
        !old(c)@.finish_emitted,
        old(c)@.next_output_index + old(c)@.tool_calls.len() < u64::MAX,
    ensures
        events@.len() > 0,
        exists|d: JsonV|
            #![trigger json_text(d)]
            says((events@.last().0@, events@.last().1@), "response.completed"@, d)
                && ends_with_calls(d, named(old(c)@.tool_calls), old(c)@.names) && d.at(
                "response"@,
            ).get_str("id"@) == Some(old(c).response_id@) && d.at("response"@).get_str("model"@)
                == Some(old(c).model@),
{
    let before = old(c)@;
    let after = ConvStep { st: final(c)@, out: crate::convert::response::events_view(events@) };
    let (cids, fcs) = choose|cids: Seq<Seq<char>>, fcs: Seq<Seq<char>>| #[trigger]
        finishes(before, after, cids, fcs);
    finishing_tells_the_streamed_calls(before, cids, fcs);
    let last = ConverterV {
        finish_emitted: true,
        dsml: crate::heal::dsml::DsmlState::fresh(true),
        think: crate::heal::think::ThinkState::fresh(true),
        ..before
    };
    completed_events_carry_the_answer(last, fcs);
    gathered_calls_are_told_alike(last.tool_calls, last.names, last.next_output_index, fcs);
    let output = last.completed_output(fcs);
    let calls = finished_calls(last.tool_calls, last.names, last.next_output_index, fcs);
    let told = named(before.tool_calls);
    let e = after.out.last();
    assert(e == (events@.last().0@, events@.last().1@));
    let d = choose|d: JsonV|
        #![trigger json_text(d)]
        says(e, "response.completed"@, d) && completes(
            d,
            last.response_id,
            last.model,
            output,
            last.usage,
        );
    assert(json_text(d) == e.1);
    assert forall|k: int| 0 <= k < told.len() implies calls_as_gathered(
        output,
        #[trigger] told[k],
        k - told.len(),
        before.names,
    ) by {
        assert(is_told(calls, k, told[k], last.names, (last.next_output_index + k) as u64));
        let n = output.len() - calls.output.len();
        assert(output.skip(n)[k] == output[n + k]);
        assert(calls.output[k] == output[n + k]);
    }
    assert(ends_with_calls(d, told, before.names));
}

/// An error is told with its message and fails the response.
pub proof fn errors_are_told(c: &StreamConverter, message: &str, events: Vec<(String, String)>)
    requires
        call_ensures(StreamConverter::on_error, (c, message), events),
    ensures
        events@.len() == 2,
        reports((events@[0].0@, events@[0].1@), message@, c.response_id@),
        fails((events@[1].0@, events@[1].1@), c.response_id@),
{
    errors_fail_the_response(c@, message@);
    let v = crate::convert::response::events_view(events@);
    assert(v.len() == events@.len());
    assert(v[0] == (events@[0].0@, events@[0].1@));
    assert(v[1] == (events@[1].0@, events@[1].1@));
}

/// A converter opens its response once.
pub proof fn responses_are_opened_once(c: &mut StreamConverter, r: Option<(String, String)>)
    requires
        call_ensures(StreamConverter::start, (c,), r),
    ensures
        r is Some <==> !old(c)@.started,
        r matches Some(e) ==> opens((e.0@, e.1@), old(c).response_id@, old(c).model@),
        final(c)@.started,
{
    if !c@.started {
        responses_are_opened_by_id(c@);
    }
    if let Some(e) = r {
        let one = seq![(e.0@, e.1@)];
        assert(one.len() == 1 && one[0] == (e.0@, e.1@));
    }
}

/// A chunk adds its text, its reasoning, its counts and its finish reason to the
/// answer, and what was gathered stays.
pub proof fn chunks_are_gathered(
    c: &mut StreamConverter,
    chunk: &ChatStreamChunk,
    events: Vec<(String, String)>,
)
    requires
        call_ensures(StreamConverter::on_chunk, (c, chunk), events),
    ensures
        final(c).response_id@ == old(c).response_id@ && final(c).model@ == old(c).model@,
        chunk.usage matches Some(u) ==> final(c).acc.usage == Some(u),
        chunk.usage is None ==> final(c).acc.usage == old(c).acc.usage,
        gates_closed(old(c)@) && chunk.choices@.len() > 0 ==> ({
            let d = chunk.choices@[0].delta;
            &&& final(c).acc.text@ == old(c).acc.text@ + (match d.content {
                Some(t) => t@,
                None => Seq::empty(),
            })
            &&& final(c).acc.reasoning@ == old(c).acc.reasoning@ + (match d.reasoning_content {
                Some(t) => t@,
                None => Seq::empty(),
            })
            &&& chunk.choices@[0].finish_reason matches Some(f) ==> final(c)@.finish_reason == Some(
                f@,
            )
        }),
{
    let before = old(c)@;
    let after = ConvStep { st: final(c)@, out: crate::convert::response::events_view(events@) };
    let uuids = choose|uuids: Seq<Seq<char>>| #[trigger] takes_chunk(before, after, chunk@, uuids);
    chunks_add_what_they_bring(before, chunk@, uuids);
}

/// A new converter is for its response and model; nothing is told yet, and its
/// gates are as they are given.
pub proof fn new_converters_are_empty(
    id: String,
    model: String,
    heal: HealGates,
    names: NamespaceToolMap,
    r: StreamConverter,
)
    requires
        call_ensures(StreamConverter::new, (id, model, heal, names), r),
    ensures
        r.response_id@ == id@ && r.model@ == model@ && r@.names == names@,
        r.acc.text@.len() == 0 && r.acc.reasoning@.len() == 0 && r.acc.usage is None,
        r.acc.items@.len() == 0 && r@.tool_calls.len() == 0 && r@.finish_reason is None,
        r@.dsml.enabled == heal.dsml && r@.think.enabled == heal.think,
        !r@.started && !r@.finish_emitted,
{
    let (m, s) = choose|m: Seq<char>, s: Seq<char>| #[trigger]
        is_fresh(r@, id@, model@, heal, names@, m, s);
    converters_start_empty(id@, model@, heal, names@, m, s);
    lemma_items_view(r.acc.items@);
}

/// Whether an item is the call that a message makes: with the name and the
/// arguments of that call, and with its id, where it has one.
pub open spec fn is_called_in(item: JsonV, tc: JsonV, names: NameMap) -> bool {
    let f = tc.at("function"@);
    &&& item.get_str("type"@) == Some("function_call"@)
    &&& tc.get_str("id"@) matches Some(id) ==> (id.len() > 0 ==> item.get_str("call_id"@) == Some(
        id,
    ))
    &&& f.get_str("arguments"@) matches Some(a) ==> item.get_str("arguments"@) == Some(a)
    &&& f.get_str("name"@) matches Some(n) ==> (!names.dom().contains(n) ==> item.get_str("name"@)
        == Some(n))
}

/// The items of a blocking response are those of its first answer, and end with
/// its tool calls.
pub proof fn blocking_responses_keep_their_calls(
    resp: &ChatResponse,
    names: &NamespaceToolMap,
    r: Vec<Json>,
    calls: Vec<Json>,
    i: int,
)
    requires
        call_ensures(chat_response_to_items, (resp, names), r),
        resp.choices@.len() > 0,
        resp.choices@[0].message.tool_calls == Some(calls),
        0 <= i < calls@.len(),
    ensures
        r@.len() >= calls@.len(),
        is_called_in(r@[r@.len() - calls@.len() + i]@, calls@[i]@, names@),
{
    let m = resp.choices@[0].message@;
    let items = crate::json::items_view(r@);
    let uuids = choose|uuids: Seq<Seq<char>>| #[trigger]
        response_items(*resp, names@, items, uuids);
    lemma_items_view(r@);
    lemma_items_view(calls@);
    let told = crate::json::items_view(calls@);
    assert(m.tool_calls == Some(told));
    blocking_answers_keep_their_parts(m, names@, uuids, told);
    assert(told[i] == calls@[i]@);
    let at = r@.len() - calls@.len() + i;
    assert(keeps_call(items[at], told[i], names@, uuids[i]));
    assert(items[at] == r@[at]@);
}

/// A response without an answer has no items.
pub proof fn empty_responses_have_no_items(
    resp: &ChatResponse,
    names: &NamespaceToolMap,
    r: Vec<Json>,
)
    requires
        call_ensures(chat_response_to_items, (resp, names), r),
        resp.choices@.len() == 0,
    ensures
        r@.len() == 0,
{
    let items = crate::json::items_view(r@);
    let uuids = choose|uuids: Seq<Seq<char>>| #[trigger]
        response_items(*resp, names@, items, uuids);
    lemma_items_view(r@);
}

/// A configuration that was read from text leaves nothing out: every provider and
/// every route that the text has a table for, and the server's host and port.
pub proof fn parsed_configurations_leave_nothing_out(
    text: &str,
    doc: JsonV,
    r: Result<Config, ConfigError>,
    k: Seq<char>,
)
    requires
        call_ensures(Config::parse_str, (text,), r),
        toml_parse(text@) == Ok::<JsonV, Seq<char>>(doc),
        r is Ok,
    ensures
        doc.at("providers"@) is Obj && doc.at("providers"@).get(k) is Some ==> exists|i: int|
            0 <= i < r->Ok_0.providers@.len() && (#[trigger] r->Ok_0.providers@[i]).0@ == k,
        doc.at("routes"@) is Obj && doc.at("routes"@).get(k) is Some ==> exists|i: int|
            0 <= i < r->Ok_0.routes@.len() && (#[trigger] r->Ok_0.routes@[i]).0@ == k,
        doc.at("server"@) is Obj ==> (doc.at("server"@).get_str("host"@) matches Some(h)
            ==> r->Ok_0.server.host@ == h),
        doc.at("server"@) is Obj ==> (doc.at("server"@).at("port"@).as_u64() matches Some(p)
            ==> r->Ok_0.server.port == p),
        doc.get("server"@) is None ==> r->Ok_0.server.host@ == "127.0.0.1"@ && r->Ok_0.server.port
            == 8787,
{
    let c = r->Ok_0;
    crate::laws::configs::sections_are_read_by_name(doc, c@);
    if doc.at("providers"@) is Obj && doc.at("providers"@).get(k) is Some {
        let i = choose|i: int| 0 <= i < c@.providers.len() && (#[trigger] c@.providers[i]).0 == k;
        assert(c.providers@[i].0@ == k);
    }
    if doc.at("routes"@) is Obj && doc.at("routes"@).get(k) is Some {
        let i = choose|i: int| 0 <= i < c@.routes.len() && (#[trigger] c@.routes[i]).0 == k;
        assert(c.routes@[i].0@ == k);
    }
}

/// A text that is no TOML, or whose document has a fault, is no configuration; the
/// reason is the error. Any other text is one.
pub proof fn faulty_texts_are_rejected(text: &str, r: Result<Config, ConfigError>)
    requires
        call_ensures(Config::parse_str, (text,), r),
    ensures
        toml_parse(text@) matches Err(m) ==> r is Err && r->Err_0@ == crate::config::ErrorV::Parse(m),
        toml_parse(text@) matches Ok(doc) ==> (r is Ok <==> crate::config::document_fault(doc) is None),
        toml_parse(text@) matches Ok(doc) ==> (crate::config::document_fault(doc) matches Some(m)
            ==> r is Err && r->Err_0@ == crate::config::ErrorV::Parse(m)),
{
}

} // verus!
