//! What the catalog, the doctor, the probe and the scripted upstream give their
//! callers, stated over the values that their functions take and return.

use crate::catalog::{
    build_catalog_entry, build_catalog_value, build_hide_entries, GeneratedCatalog,
};
use crate::config::{
    validated, Config, ConfigError, ProviderConfig, ProviderV, RouteV, ValidatedConfig,
    ValidatedRoute, ValidatedRouteV,
};
use crate::convert::response::decode_tool_call_name;
use crate::doctor::{
    active_provider, fetch_view, models_endpoint_reachable, pin_covers_router, pin_matches_router,
    report_has_fail, report_lines, Check, CheckStatus, ModelsFetch,
};
use crate::doctor_live::{call_of, pick_tool, probe_config};
use crate::json::{json_parse_bytes, json_text, lemma_items_view, toml_parse, Json, JsonV};
use crate::laws::catalogs::{
    catalogs_offer_every_route, entries_offer_their_route, is_hidden_in, offers_one, only_hidden,
    overrides_hide_what_no_route_serves,
};
use crate::laws::configs::{
    bodies_keep_what_no_parameter_touches, keys_come_from_the_first_source,
    quirks_are_off_where_listed, routes_are_found_by_their_key,
};
use crate::laws::doctoring::{
    active_providers_are_selected, endpoints_pass_where_they_answer, lines_tell_their_check, pins,
    pins_cover_where_no_route_is_missing, pins_match_where_no_slug_is_orphaned,
    reports_fail_where_a_check_fails, routes_to,
};
use crate::laws::probing::{first_callable_tool_is_picked, records_keep_the_request};
use crate::mock::{record_line, responses_turn};
use crate::normalize::{chat_function_name_for_namespace_tool, NamespaceToolMap, NamespaceToolName};
use crate::text::{decimal, trimmed};
use vstd::prelude::*;

verus! {

/// A catalog entry lists its route: under the route's key, with its window.
pub proof fn built_entries_list_their_route(
    key: &str,
    format: &str,
    window: u64,
    effort: Option<&str>,
    r: Json,
)
    requires
        call_ensures(build_catalog_entry, (key, format, window, effort), r),
    ensures
        r@.get_str("slug"@) == Some(key@),
        r@.get_str("display_name"@) == Some(key@),
        r@.get_str("visibility"@) == Some("list"@),
        r@.at("context_window"@).as_u64() == Some(window),
        r@.at("max_context_window"@).as_u64() == Some(window),
        r@.get_str("description"@) == Some("CodexFerry "@ + format@ + " to "@ + key@),
{
    let v = ValidatedRouteV {
        provider_name: Seq::empty(),
        provider: ProviderV {
            base_url: Seq::empty(),
            api_key: None,
            api_key_env: None,
            api_key_file: None,
            format: format@,
            timeout_ms: 0,
            extra_headers: None,
            extra_params: None,
            drop_params: None,
        },
        route: RouteV {
            model: Seq::empty(),
            context_window: window,
            effort: crate::text::opt_text(effort),
            description: None,
        },
    };
    entries_offer_their_route(None, key@, v);
    assert(r@ == crate::catalog::route_entry(crate::catalog::seed_of(None), key@, v));
}

/// A generated catalog lists as many models as there are routes; each of them is
/// offered to pickers and stands for a route.
pub proof fn built_catalogs_list_every_route(
    v: &ValidatedConfig,
    template: Option<&Json>,
    r: GeneratedCatalog,
    i: int,
)
    requires
        call_ensures(build_catalog_value, (v, template), r),
        0 <= i < v.routes@.len(),
    ensures
        r.catalog@.get_arr("models"@) is Some,
        r.catalog@.get_arr("models"@)->0.len() == v.routes@.len(),
        r.catalog@.get_arr("models"@)->0[i].get_str("visibility"@) == Some("list"@),
        offers_one(r.catalog@.get_arr("models"@)->0[i], v@.routes),
{
    catalogs_offer_every_route(v@, crate::catalog::opt_view(template));
    assert(v@.routes.len() == v.routes@.len());
}

/// Every override hides a model that no route stands for.
pub proof fn built_overrides_hide(bundled: &Vec<Json>, keys: &Vec<String>, r: Vec<Json>, i: int, k: int)
    requires
        call_ensures(build_hide_entries, (bundled, keys), r),
        0 <= i < r@.len(),
        0 <= k < keys@.len(),
    ensures
        r@[i]@.get_str("visibility"@) == Some("hide"@),
        r@[i]@.get_str("slug"@) is Some && r@[i]@.get_str("slug"@) != Some(keys@[k]@),
{
    let b = crate::json::items_view(bundled@);
    let names = crate::text::views(keys@);
    overrides_hide_what_no_route_serves(b, names);
    lemma_items_view(r@);
    assert(crate::json::items_view(r@)[i] == r@[i]@);
    assert(names[k] == keys@[k]@);
    assert(names.contains(keys@[k]@));
}

/// A route is found under its key.
pub proof fn routes_are_served_by_their_key(v: &ValidatedConfig, key: &str, r: Option<&ValidatedRoute>)
    requires
        call_ensures(ValidatedConfig::route, (v, key), r),
    ensures
        r matches Some(x) ==> exists|i: int|
            0 <= i < v.routes@.len() && (#[trigger] v.routes@[i]).0@ == key@ && v.routes@[i].1@ == x@,
        r is None ==> forall|i: int|
            0 <= i < v.routes@.len() ==> (#[trigger] v.routes@[i]).0@ != key@,
{
    routes_are_found_by_their_key(v@.routes, key@);
    assert forall|i: int| 0 <= i < v.routes@.len() implies v@.routes[i] == (
        (#[trigger] v.routes@[i]).0@,
        v.routes@[i].1@,
    ) by {
    }
    if let Some(x) = r {
        let p = crate::config::route_at(v@.routes, key@, 0)->0;
        assert(v.routes@[p].0@ == key@);
    }
}

/// A quirk is on unless it is listed as disabled.
pub proof fn quirks_are_on_by_default(v: &ValidatedConfig, name: &str, r: bool)
    requires
        call_ensures(ValidatedConfig::quirk_enabled, (v, name), r),
    ensures
        v.quirks.disabled@.len() == 0 ==> r,
        (exists|i: int| 0 <= i < v.quirks.disabled@.len() && (#[trigger] v.quirks.disabled@[i])@
            == name@) ==> !r,
{
    quirks_are_off_where_listed(v@.disabled, name@);
    if exists|i: int| 0 <= i < v.quirks.disabled@.len() && (#[trigger] v.quirks.disabled@[i])@
        == name@ {
        let i = choose|i: int| 0 <= i < v.quirks.disabled@.len() && (
        #[trigger] v.quirks.disabled@[i])@ == name@;
        assert(v@.disabled[i] == name@);
    }
}

/// A key that is written down is used as it is; without one the environment is
/// asked, and then the file, without the white space around it.
pub proof fn keys_are_resolved_in_order(
    p: &ProviderConfig,
    env: Option<&str>,
    file: Option<&str>,
    r: Option<String>,
)
    requires
        call_ensures(ProviderConfig::resolve_api_key, (p, env, file), r),
    ensures
        p.api_key matches Some(k) ==> r is Some && r->0@ == k@,
        p.api_key is None && p.api_key_env is Some ==> (env matches Some(e) ==> r is Some && r->0@
            == e@),
        p.api_key is None && p.api_key_env is None && p.api_key_file is Some ==> (
        file matches Some(f) ==> r is Some && r->0@ == trimmed(f@)),
        p.api_key is None && p.api_key_env is None && p.api_key_file is None ==> r is None,
{
    keys_come_from_the_first_source(p@, crate::text::opt_text(env), crate::text::opt_text(file));
}

/// A body is sent with the provider's parameters on top, and otherwise as it is.
pub proof fn bodies_are_sent_with_parameters(p: &ProviderConfig, body: Json, r: Json, k: Seq<char>)
    requires
        call_ensures(ProviderConfig::apply_params, (p, body), r),
        body@ is Obj,
        p.drop_params is None,
    ensures
        p.extra_params is None ==> r@.get(k) == body@.get(k),
        p.extra_params matches Some(e) ==> (e@.get(k) matches Some(v) ==> r@.get(k) == Some(v)),
        p.extra_params matches Some(e) ==> (e@.get(k) is None ==> r@.get(k) == body@.get(k)),
{
    bodies_keep_what_no_parameter_touches(p@, body@, k);
}

/// A validated configuration keeps the server, the session and the providers.
pub proof fn validation_keeps_the_configuration(
    c: Config,
    r: Result<ValidatedConfig, ConfigError>,
)
    requires
        call_ensures(Config::validate, (c,), r),
    ensures
        r matches Ok(v) ==> v.server.host@ == c.server.host@ && v.server.port == c.server.port
            && v.session == c.session && v@.providers == c@.providers,
        r is Ok <==> validated(c@) is Ok,
{
}

/// The checks that are made say whether they passed, under their name.
pub proof fn checks_are_made_by_kind(name: &str, detail: &str, p: Check, f: Check, w: Check, i: Check)
    requires
        call_ensures(Check::pass, (name, detail), p),
        call_ensures(Check::fail, (name, detail), f),
        call_ensures(Check::warn, (name, detail), w),
        call_ensures(Check::info, (name, detail), i),
    ensures
        p.status == CheckStatus::Pass && p.name@ == name@ && p.detail@ == detail@,
        f.status == CheckStatus::Fail && f.name@ == name@ && f.detail@ == detail@,
        w.status == CheckStatus::Warn && w.name@ == name@ && w.detail@ == detail@,
        i.status == CheckStatus::Info && i.name@ == name@ && i.detail@ == detail@,
{
}

/// A report fails exactly where one of its checks does.
pub proof fn reports_are_judged_by_their_checks(checks: &[Check], r: bool)
    requires
        call_ensures(report_has_fail, (checks,), r),
    ensures
        r <==> exists|i: int| 0 <= i < checks@.len() && (#[trigger] checks@[i]).status
            == CheckStatus::Fail,
{
    let v = crate::doctor::checks_view(checks@);
    reports_fail_where_a_check_fails(v);
    assert forall|i: int| 0 <= i < checks@.len() implies v[i].status == (
    #[trigger] checks@[i]).status by {
    }
    if exists|i: int| 0 <= i < v.len() && (#[trigger] v[i]).status == CheckStatus::Fail {
        let i = choose|i: int| 0 <= i < v.len() && (#[trigger] v[i]).status == CheckStatus::Fail;
        assert(checks@[i].status == CheckStatus::Fail);
    }
    if exists|i: int| 0 <= i < checks@.len() && (#[trigger] checks@[i]).status
        == CheckStatus::Fail {
        let i = choose|i: int| 0 <= i < checks@.len() && (#[trigger] checks@[i]).status
            == CheckStatus::Fail;
        assert(v[i].status == CheckStatus::Fail);
    }
}

/// The lines of a report tell its checks in order, each numbered.
pub proof fn reports_are_numbered(checks: &[Check], r: Vec<String>, i: int)
    requires
        call_ensures(report_lines, (checks,), r),
        0 <= i < checks@.len(),
        checks@[i].status == CheckStatus::Fail,
    ensures
        r@.len() == checks@.len(),
        r@[i]@ == "["@ + decimal((i + 1) as nat) + "/"@ + decimal(checks@.len()) + "] "@ + "FAIL"@
            + ": "@ + checks@[i].name@ + " — "@ + checks@[i].detail@,
{
    lines_tell_their_check(checks@[i]@, i, checks@.len() as int);
}

/// A pin passes where it has every route and nothing else.
pub proof fn pins_are_held_against_the_router(v: &ValidatedConfig, pin: &Json, c: Check, m: Check)
    requires
        call_ensures(pin_covers_router, (v, pin), c),
        call_ensures(pin_matches_router, (v, pin), m),
    ensures
        c.status == CheckStatus::Pass <==> forall|k: Seq<char>|
            routes_to(v@, k) ==> #[trigger] pins(pin@, k),
        m.status == CheckStatus::Pass <==> forall|k: Seq<char>|
            pins(pin@, k) ==> #[trigger] routes_to(v@, k),
{
    pins_cover_where_no_route_is_missing(v@, pin@);
    pins_match_where_no_slug_is_orphaned(v@, pin@);
}

/// The models endpoint is reachable exactly where it answers with success.
pub proof fn endpoints_are_reachable_where_they_answer(fetch: &ModelsFetch, r: Check)
    requires
        call_ensures(models_endpoint_reachable, (fetch,), r),
    ensures
        r.status == CheckStatus::Pass <==> (fetch_view(*fetch) matches Ok((s, _)) && 200 <= s <= 299),
        r.status == CheckStatus::Pass || r.status == CheckStatus::Fail,
{
    endpoints_pass_where_they_answer(fetch_view(*fetch));
}

/// The active provider is the one that the configuration selects.
pub proof fn providers_are_active_where_selected(text: Option<&str>, doc: JsonV, r: String)
    requires
        call_ensures(active_provider, (text,), r),
    ensures
        text is None ==> r@ == "codexferry"@,
        text matches Some(t) ==> (toml_parse(t@) == Ok::<JsonV, Seq<char>>(doc) ==> (doc.get_str(
            "model_provider"@,
        ) matches Some(p) ==> r@ == p)),
{
    if let Some(t) = text {
        active_providers_are_selected(t@);
    } else {
        active_providers_are_selected(Seq::empty());
    }
}

/// The probe calls the first tool that it can call, with the arguments made up for
/// it.
pub proof fn probes_pick_the_first_tool(
    tools: &Vec<Json>,
    command: &str,
    r: Option<(String, String)>,
    k: int,
    name: Seq<char>,
    args: Seq<char>,
)
    requires
        call_ensures(pick_tool, (tools, command), r),
        0 <= k < tools@.len(),
        call_of(tools@[k]@, command@) == Some((name, args)),
        forall|i: int| 0 <= i < k ==> call_of((#[trigger] tools@[i])@, command@) is None,
    ensures
        r is Some && (r->0).0@ == name && (r->0).1@ == args,
{
    lemma_items_view(tools@);
    let v = crate::json::items_view(tools@);
    assert forall|i: int| 0 <= i < k implies call_of(#[trigger] v[i], command@) is None by {
        assert(v[i] == tools@[i]@);
    }
    first_callable_tool_is_picked(v, command@, k);
}

/// The configuration of the probe has the router listen on its port, and both of
/// its providers call the scripted upstream on the other.
pub proof fn probes_are_configured_by_port(router: u16, upstream: u16, r: String)
    requires
        call_ensures(probe_config, (router, upstream), r),
    ensures
        exists|a: Seq<char>, b: Seq<char>, c: Seq<char>, d: Seq<char>|
            r@ == #[trigger] ports_between(a, router, b, upstream, c, upstream, d) && ends_as(
                a,
                "port = "@,
            ) && ends_as(b, "base_url = \"http://127.0.0.1:"@) && ends_as(
                c,
                "base_url = \"http://127.0.0.1:"@,
            ),
{
    let a = "\n[server]\nhost = \"127.0.0.1\"\nport = "@;
    let b = "\n\n[providers.doctor]\nbase_url = \"http://127.0.0.1:"@;
    let c = "/v1\"\napi_key = \"test-key\"\nformat = \"responses\"\ntimeout_ms = 60000\n\n[providers.doctorchat]\nbase_url = \"http://127.0.0.1:"@;
    let d = "/v1\"\napi_key = \"test-key\"\nformat = \"chat\"\ntimeout_ms = 60000\n\n[routes]\n\"doctor/resp\" = { model = \"doctor-upstream\" }\n\"doctorchat/chat\" = { model = \"doctor-upstream\" }\n"@;
    reveal_strlit("\n[server]\nhost = \"127.0.0.1\"\nport = ");
    reveal_strlit("\n\n[providers.doctor]\nbase_url = \"http://127.0.0.1:");
    reveal_strlit("/v1\"\napi_key = \"test-key\"\nformat = \"responses\"\ntimeout_ms = 60000\n\n[providers.doctorchat]\nbase_url = \"http://127.0.0.1:");
    reveal_strlit("port = ");
    reveal_strlit("base_url = \"http://127.0.0.1:");
    assert(a.len() == 36 && "port = "@.len() == 7);
    assert(a.skip(29) =~= "port = "@);
    assert(b.len() == 50 && "base_url = \"http://127.0.0.1:"@.len() == 29);
    assert(b.skip(21) =~= "base_url = \"http://127.0.0.1:"@);
    assert(c.len() == 119 && "base_url = \"http://127.0.0.1:"@.len() == 29);
    assert(c.skip(90) =~= "base_url = \"http://127.0.0.1:"@);
    assert(r@ == ports_between(a, router, b, upstream, c, upstream, d));
}

/// A text with three port numbers between its parts.
pub open spec fn ports_between(
    a: Seq<char>,
    p: u16,
    b: Seq<char>,
    q: u16,
    c: Seq<char>,
    s: u16,
    d: Seq<char>,
) -> Seq<char> {
    a + decimal(p as nat) + b + decimal(q as nat) + c + decimal(s as nat) + d
}

/// Whether a text ends with another.
pub open spec fn ends_as(t: Seq<char>, e: Seq<char>) -> bool {
    t.len() >= e.len() && t.skip(t.len() - e.len()) == e
}

/// The scripted upstream answers a Responses request in the two scenarios that
/// have one, and says of any other that it has none.
pub proof fn scenarios_serve_their_path(scenario: &str, r: Result<Vec<(String, String)>, String>)
    requires
        call_ensures(responses_turn, (scenario,), r),
    ensures
        r is Ok <==> scenario@ == "basic"@ || scenario@ == "basic-responses"@,
        r matches Ok(e) ==> e@.len() == 5 && e@[0].0@ == "response.created"@ && e@[4].0@
            == "response.completed"@ && exists|d: JsonV|
            e@[2].1@ == #[trigger] json_text(d) && d.get_str("delta"@) == Some("E2E_RESP_OK"@),
        r matches Err(m) ==> m@ == "scenario '"@ + scenario@
            + "' does not serve the responses path"@,
{
    reveal_strlit("type");
    reveal_strlit("item_id");
    reveal_strlit("output_index");
    reveal_strlit("delta");
    assert("type"@.len() == 4);
    assert("item_id"@.len() == 7);
    assert("output_index"@.len() == 12);
    assert("delta"@.len() == 5);
    reveal_strlit("' does not serve the ");
    reveal_strlit("responses");
    reveal_strlit(" path");
    reveal_strlit("' does not serve the responses path");
    if let Ok(e) = r {
        let s = crate::mock::event_script("E2E_RESP_OK"@);
        let v = crate::mock::events_view(e@);
        assert(v.len() == e@.len() && s.len() == 5);
        assert(v[0] == (e@[0].0@, e@[0].1@));
        assert(v[2] == (e@[2].0@, e@[2].1@));
        assert(v[4] == (e@[4].0@, e@[4].1@));
        assert(s[2].1.get_str("delta"@) == Some("E2E_RESP_OK"@));
        assert(e@[2].1@ == json_text(s[2].1));
    }
    if let Err(m) = r {
        assert("' does not serve the "@ + "responses"@ + " path"@
            =~= "' does not serve the responses path"@);
        assert(m@ =~= "scenario '"@ + scenario@ + "' does not serve the responses path"@);
    }
}

/// A recorded request keeps its path and its authorization.
pub proof fn requests_are_recorded(path: &str, auth: &str, body: &[u8], r: String)
    requires
        call_ensures(record_line, (path, auth, body), r),
    ensures
        exists|d: JsonV|
            r@ == #[trigger] json_text(d) && d.get_str("path"@) == Some(path@) && d.get_str(
                "auth"@,
            ) == Some(auth@) && (json_parse_bytes(body@) matches Some(b) ==> d.get("body"@) == Some(
                b,
            )),
{
    records_keep_the_request(path@, auth@, json_parse_bytes(body@));
    let d = crate::mock::record_v(path@, auth@, json_parse_bytes(body@));
    assert(r@ == json_text(d));
}

/// A name that was encoded for a namespace is read back as the namespace and the
/// name; any other name stands for itself.
pub proof fn encoded_names_are_read_back(
    name: &str,
    names: &NamespaceToolMap,
    r: (Option<String>, String),
)
    requires
        call_ensures(decode_tool_call_name, (name, names), r),
    ensures
        names@.dom().contains(name@) ==> r.0 is Some && r.0->0@ == names@[name@].namespace && r.1@
            == names@[name@].name,
        !names@.dom().contains(name@) ==> r.0 is None && r.1@ == name@,
{
}

/// A tool of a namespace is called by both names, with a hyphen between them.
pub proof fn namespace_tools_are_called_by_both_names(ns: &str, name: &str, r: String)
    requires
        call_ensures(chat_function_name_for_namespace_tool, (ns, name), r),
    ensures
        r@ == ns@ + "-"@ + name@,
{
}

/// A name that was inserted into a map is found under its key, and no other entry
/// changes.
pub proof fn inserted_names_are_found(
    m: &mut NamespaceToolMap,
    key: String,
    name: NamespaceToolName,
    k: Seq<char>,
)
    requires
        call_ensures(NamespaceToolMap::insert, (m, key, name), ()),
    ensures
        final(m)@.dom().contains(key@),
        final(m)@[key@].name == name.name@ && final(m)@[key@].namespace == name.namespace@,
        k != key@ ==> (final(m)@.dom().contains(k) <==> old(m)@.dom().contains(k)) && (
        old(m)@.dom().contains(k) ==> final(m)@[k] == old(m)@[k]),
{
}

/// Every bundled model that is listed and that no route stands for is hidden by an
/// override.
pub proof fn listed_models_are_overridden(
    bundled: &Vec<Json>,
    keys: &Vec<String>,
    r: Vec<Json>,
    p: int,
    slug: Seq<char>,
)
    requires
        call_ensures(build_hide_entries, (bundled, keys), r),
        0 <= p < bundled@.len(),
        bundled@[p]@.get_str("visibility"@) == Some("list"@),
        bundled@[p]@.get_str("slug"@) == Some(slug),
        forall|k: int| 0 <= k < keys@.len() ==> (#[trigger] keys@[k])@ != slug,
    ensures
        exists|i: int| 0 <= i < r@.len() && only_hidden((#[trigger] r@[i])@, bundled@[p]@),
{
    let b = crate::json::items_view(bundled@);
    let names = crate::text::views(keys@);
    overrides_hide_what_no_route_serves(b, names);
    lemma_items_view(r@);
    lemma_items_view(bundled@);
    assert(b[p] == bundled@[p]@);
    if names.contains(slug) {
        let k = choose|k: int| 0 <= k < names.len() && names[k] == slug;
        assert(keys@[k]@ == slug);
    }
    let out = crate::json::items_view(r@);
    assert(is_hidden_in(out, b[p]));
    let i = choose|i: int| 0 <= i < out.len() && only_hidden(#[trigger] out[i], b[p]);
    assert(only_hidden(r@[i]@, bundled@[p]@));
}

} // verus!
