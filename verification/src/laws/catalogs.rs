//! What a generated catalog says of every route, field by field.

use crate::catalog::{
    catalog_models, catalog_of, dropped_set, generated, generated_from, hidden, hide_entries,
    is_overridden, ladder, models_of, overrides_spare_routes, route_entry, rung, seed_of,
    step_after, template_entry, FALLBACK_BASE_INSTRUCTIONS, GeneratedCatalog, TemplateOutcome,
    TemplateStep,
};
use crate::config::{
    describes, is_effort, validated, ConfigError, ConfigV, ValidatedRouteV, ValidatedV,
};
use crate::json::{json_parse_bytes, json_read, toml_parse, JsonV};
use crate::order::{ascending, ascending_is_sorted};
use vstd::prelude::*;

verus! {

/// Whether an entry offers a route: pickers list it under the route's key, and
/// both windows are the route's.
pub open spec fn offers(e: JsonV, key: Seq<char>, r: ValidatedRouteV) -> bool {
    &&& e.get_str("slug"@) == Some(key)
    &&& e.get_str("display_name"@) == Some(key)
    &&& e.get_str("visibility"@) == Some("list"@)
    &&& e.at("context_window"@).as_u64() == Some(r.route.context_window)
    &&& e.at("max_context_window"@).as_u64() == Some(r.route.context_window)
    &&& e.at("supported_in_api"@).as_bool() == Some(true)
    &&& e.at("supports_parallel_tool_calls"@).as_bool() == Some(true)
}

/// Whether an entry asks Codex for nothing that the router cannot carry.
pub open spec fn stays_plain(e: JsonV) -> bool {
    &&& e.at("prefer_websockets"@).as_bool() == Some(false)
    &&& e.at("use_responses_lite"@).as_bool() == Some(false)
    &&& e.at("support_verbosity"@).as_bool() == Some(false)
    &&& e.get_str("shell_type"@) == Some("default"@)
    &&& e.at("priority"@).as_u64() == Some(99u64)
    &&& e.at("truncation_policy"@).get_str("mode"@) == Some("tokens"@)
    &&& e.at("truncation_policy"@).at("limit"@).as_u64() == Some(10000u64)
    &&& e.get_arr("experimental_supported_tools"@) == Some(Seq::<JsonV>::empty())
}

/// Whether an entry offers the efforts of a route: every effort that may be a
/// default is on the ladder, and the route's own is the default, where it has
/// one. Codex sends `max` for `ultra`.
pub open spec fn offers_efforts(e: JsonV, r: ValidatedRouteV) -> bool {
    &&& e.get_arr("supported_reasoning_levels"@) matches Some(levels) && forall|x: Seq<char>|
        is_effort(x) <==> exists|k: int|
            0 <= k < levels.len() && (#[trigger] levels[k]).get_str("effort"@) == Some(x)
    &&& match r.route.effort {
        None => e.get("default_reasoning_level"@) is None,
        Some(x) => e.get_str("default_reasoning_level"@) == Some(
            if x == "ultra"@ {
                "max"@
            } else {
                x
            },
        ),
    }
}

/// Whether an entry describes a route: by its wire format, its key, and its own
/// description behind them.
pub open spec fn tells_of(e: JsonV, key: Seq<char>, r: ValidatedRouteV) -> bool {
    match (e.get_str("description"@), r.route.description) {
        (Some(t), None) => t == "CodexFerry "@ + r.provider.format + " to "@ + key,
        (Some(t), Some(d)) => t == "CodexFerry "@ + r.provider.format + " to "@ + key + " - "@ + d,
        (None, _) => false,
    }
}

/// Every effort that may be a default has its place on the ladder, from none to
/// the deepest, each with a wording of its own depth.
pub proof fn ladder_holds_every_effort(x: Seq<char>)
    ensures
        ({
            let l = ladder()->Arr_0;
            &&& ladder() is Arr && l.len() == 8
            &&& l[0].get_str("effort"@) == Some("none"@)
            &&& l[1].get_str("effort"@) == Some("minimal"@)
            &&& l[2].get_str("effort"@) == Some("low"@)
            &&& l[3].get_str("effort"@) == Some("medium"@)
            &&& l[4].get_str("effort"@) == Some("high"@)
            &&& l[5].get_str("effort"@) == Some("xhigh"@)
            &&& l[6].get_str("effort"@) == Some("max"@)
            &&& l[7].get_str("effort"@) == Some("ultra"@)
            &&& is_effort(x) <==> exists|k: int|
                0 <= k < l.len() && (#[trigger] l[k]).get_str("effort"@) == Some(x)
        }),
{
    reveal_strlit("effort");
    reveal_strlit("description");
    assert("effort"@.len() == 6);
    assert("description"@.len() == 11);
    let l = ladder()->Arr_0;
    assert(l[0] == rung("none"@));
    assert(l[1] == rung("minimal"@));
    assert(l[2] == rung("low"@));
    assert(l[3] == rung("medium"@));
    assert(l[4] == rung("high"@));
    assert(l[5] == rung("xhigh"@));
    assert(l[6] == rung("max"@));
    assert(l[7] == rung("ultra"@));
}

/// The wording of a rung tells how deep the reasoning goes.
pub proof fn rungs_tell_their_depth()
    ensures
        rung("none"@).get_str("description"@) == Some("No reasoning; direct responses"@),
        rung("minimal"@).get_str("description"@) == Some(
            "Fastest responses with the lightest reasoning"@,
        ),
        rung("low"@).get_str("description"@) == Some("Fast responses with lighter reasoning"@),
        rung("medium"@).get_str("description"@) == Some(
            "Balances speed and reasoning depth for everyday tasks"@,
        ),
        rung("high"@).get_str("description"@) == Some(
            "Greater reasoning depth for complex problems"@,
        ),
        rung("xhigh"@).get_str("description"@) == Some(
            "Extra high reasoning depth for complex problems"@,
        ),
        rung("max"@).get_str("description"@) == Some(
            "Maximum reasoning depth for the hardest problems"@,
        ),
        rung("ultra"@).get_str("description"@) == rung("max"@).get_str("description"@),
{
    reveal_strlit("effort");
    reveal_strlit("description");
    reveal_strlit("none");
    reveal_strlit("minimal");
    reveal_strlit("low");
    reveal_strlit("medium");
    reveal_strlit("high");
    reveal_strlit("xhigh");
    reveal_strlit("max");
    reveal_strlit("ultra");
    assert("effort"@.len() == 6);
    assert("description"@.len() == 11);
    assert("none"@.len() == 4);
    assert("minimal"@.len() == 7);
    assert("low"@.len() == 3);
    assert("medium"@.len() == 6);
    assert("high"@.len() == 4);
    assert("xhigh"@.len() == 5);
    assert("max"@.len() == 3);
    assert("ultra"@.len() == 5);
    assert("effort"@[0] != "medium"@[0]);
    assert("none"@[0] != "high"@[0]);
    assert("low"@[0] != "max"@[0]);
    assert("xhigh"@[0] != "ultra"@[0]);
}

/// The entry of a route offers it to pickers, with its windows and efforts, and
/// describes it.
pub proof fn entries_offer_their_route(t: Option<JsonV>, key: Seq<char>, r: ValidatedRouteV)
    ensures
        offers(route_entry(seed_of(t), key, r), key, r),
        stays_plain(route_entry(seed_of(t), key, r)),
        offers_efforts(route_entry(seed_of(t), key, r), r),
        tells_of(route_entry(seed_of(t), key, r), key, r),
{
    reveal_strlit("slug");
    reveal_strlit("display_name");
    reveal_strlit("context_window");
    reveal_strlit("max_context_window");
    reveal_strlit("supported_in_api");
    reveal_strlit("visibility");
    reveal_strlit("prefer_websockets");
    reveal_strlit("use_responses_lite");
    reveal_strlit("shell_type");
    reveal_strlit("supports_parallel_tool_calls");
    reveal_strlit("description");
    reveal_strlit("priority");
    reveal_strlit("support_verbosity");
    reveal_strlit("truncation_policy");
    reveal_strlit("experimental_supported_tools");
    reveal_strlit("supported_reasoning_levels");
    reveal_strlit("default_reasoning_level");
    reveal_strlit("base_instructions");
    reveal_strlit("model_messages");
    reveal_strlit("mode");
    reveal_strlit("limit");
    assert("slug"@.len() == 4);
    assert("display_name"@.len() == 12);
    assert("context_window"@.len() == 14);
    assert("max_context_window"@.len() == 18);
    assert("supported_in_api"@.len() == 16);
    assert("visibility"@.len() == 10);
    assert("prefer_websockets"@.len() == 17);
    assert("use_responses_lite"@.len() == 18);
    assert("shell_type"@.len() == 10);
    assert("supports_parallel_tool_calls"@.len() == 28);
    assert("description"@.len() == 11);
    assert("priority"@.len() == 8);
    assert("support_verbosity"@.len() == 17);
    assert("truncation_policy"@.len() == 17);
    assert("experimental_supported_tools"@.len() == 28);
    assert("supported_reasoning_levels"@.len() == 26);
    assert("default_reasoning_level"@.len() == 23);
    assert("base_instructions"@.len() == 17);
    assert("model_messages"@.len() == 14);
    assert("mode"@.len() == 4);
    assert("limit"@.len() == 5);
    assert("slug"@[0] != "mode"@[0]);
    assert("context_window"@[0] != "model_messages"@[0]);
    assert("max_context_window"@[0] != "use_responses_lite"@[0]);
    assert("visibility"@[0] != "shell_type"@[0]);
    assert("prefer_websockets"@[0] != "support_verbosity"@[0]);
    assert("prefer_websockets"@[0] != "truncation_policy"@[0]);
    assert("prefer_websockets"@[0] != "base_instructions"@[0]);
    assert("supports_parallel_tool_calls"@[0] != "experimental_supported_tools"@[0]);
    assert("support_verbosity"@[0] != "truncation_policy"@[0]);
    assert("support_verbosity"@[0] != "base_instructions"@[0]);
    assert("truncation_policy"@[0] != "base_instructions"@[0]);
    let e = route_entry(seed_of(t), key, r);
    assert(e.get_arr("supported_reasoning_levels"@) == Some(ladder()->Arr_0));
    assert forall|x: Seq<char>| is_effort(x) <==> exists|k: int|
        0 <= k < ladder()->Arr_0.len() && (#[trigger] ladder()->Arr_0[k]).get_str("effort"@) == Some(
            x,
        ) by {
        ladder_holds_every_effort(x);
    }
}

/// Whether an entry says of a route all that an entry says.
pub open spec fn offers_all(e: JsonV, key: Seq<char>, r: ValidatedRouteV) -> bool {
    offers(e, key, r) && stays_plain(e) && offers_efforts(e, r) && tells_of(e, key, r)
}

/// Whether an entry offers one of the routes.
pub open spec fn offers_one(e: JsonV, routes: Seq<(Seq<char>, ValidatedRouteV)>) -> bool {
    exists|p: int| 0 <= p < routes.len() && offers_all(e, (#[trigger] routes[p]).0, routes[p].1)
}

/// Whether one of the entries offers a route.
pub open spec fn is_offered(models: Seq<JsonV>, key: Seq<char>, r: ValidatedRouteV) -> bool {
    exists|i: int| 0 <= i < models.len() && offers_all(#[trigger] models[i], key, r)
}

/// A catalog has an entry for every route that offers it, and every entry
/// offers a route: none is hidden.
pub proof fn catalogs_offer_every_route(v: ValidatedV, t: Option<JsonV>)
    ensures
        ({
            let models = catalog_of(v, t).get_arr("models"@);
            &&& models is Some && models->0.len() == v.routes.len()
            &&& forall|i: int|
                0 <= i < models->0.len() ==> offers_one(#[trigger] models->0[i], v.routes)
            &&& forall|i: int|
                0 <= i < models->0.len() ==> (#[trigger] models->0[i]).get_str("visibility"@)
                    == Some("list"@)
            &&& forall|p: int|
                0 <= p < v.routes.len() ==> is_offered(
                    models->0,
                    (#[trigger] v.routes[p]).0,
                    v.routes[p].1,
                )
        }),
{
    let keys = Seq::new(v.routes.len(), |i: int| v.routes[i].0);
    assert(keys =~= crate::catalog::keys_of(v.routes));
    let n = v.routes.len() as int;
    let order = ascending(keys, n);
    ascending_is_sorted(keys, n);
    let models = catalog_models(v.routes, seed_of(t));
    assert(catalog_of(v, t).get_arr("models"@) == Some(models));
    assert forall|i: int| 0 <= i < models.len() implies offers_one(#[trigger] models[i], v.routes)
        && models[i].get_str("visibility"@) == Some("list"@) by {
        let p = order[i];
        entries_offer_their_route(t, v.routes[p].0, v.routes[p].1);
        assert(offers_all(models[i], v.routes[p].0, v.routes[p].1));
    }
    assert forall|p: int| 0 <= p < v.routes.len() implies is_offered(
        models,
        (#[trigger] v.routes[p]).0,
        v.routes[p].1,
    ) by {
        assert(order.contains(p));
        let i = choose|i: int| 0 <= i < order.len() && order[i] == p;
        entries_offer_their_route(t, v.routes[p].0, v.routes[p].1);
        assert(offers_all(models[i], v.routes[p].0, v.routes[p].1));
    }
}

/// Whatever configuration and template a catalog was generated from, pickers
/// list every entry of it, under its own key, with one window.
pub proof fn generated_catalogs_are_listed(
    text: Seq<char>,
    t: Option<JsonV>,
    r: Result<GeneratedCatalog, ConfigError>,
)
    requires
        generated(text, t, r),
        r is Ok,
    ensures
        r->Ok_0.catalog@.get_arr("models"@) is Some,
        forall|i: int|
            0 <= i < r->Ok_0.catalog@.get_arr("models"@)->0.len() ==> ({
                let e = #[trigger] r->Ok_0.catalog@.get_arr("models"@)->0[i];
                &&& e.get_str("visibility"@) == Some("list"@)
                &&& e.get_str("slug"@) is Some
                &&& e.get_str("display_name"@) == e.get_str("slug"@)
                &&& e.get("max_context_window"@) == e.get("context_window"@)
            }),
{
    let doc = toml_parse(text)->Ok_0;
    let c = choose|c: ConfigV| #[trigger] describes(doc, c) && generated_from(c, t, r);
    let v = validated(c)->Ok_0;
    catalogs_offer_every_route(v, t);
    let models = catalog_of(v, t).get_arr("models"@)->0;
    assert forall|i: int| 0 <= i < models.len() implies ({
        let e = #[trigger] models[i];
        &&& e.get_str("visibility"@) == Some("list"@)
        &&& e.get_str("slug"@) is Some
        &&& e.get_str("display_name"@) == e.get_str("slug"@)
        &&& e.get("max_context_window"@) == e.get("context_window"@)
    }) by {
        assert(offers_one(models[i], v.routes));
    }
}

/// The prompt of an entry is that of the first model that pickers list in the
/// template, and so are its messages; a template that lists none brings those of
/// its first model.
pub proof fn prompts_come_from_the_listed_model(
    t: JsonV,
    models: Seq<JsonV>,
    i: int,
    key: Seq<char>,
    r: ValidatedRouteV,
)
    requires
        t.get_arr("models"@) == Some(models),
        0 <= i < models.len(),
        models[i] is Obj,
        models[i].get_str("visibility"@) == Some("list"@) || i == 0 && forall|j: int|
            0 <= j < models.len() ==> (#[trigger] models[j]).get_str("visibility"@) != Some(
                "list"@,
            ),
        forall|j: int|
            0 <= j < i ==> (#[trigger] models[j]).get_str("visibility"@) != Some("list"@),
    ensures
        ({
            let e = route_entry(seed_of(Some(t)), key, r);
            &&& e.get("model_messages"@) == models[i].get("model_messages"@)
            &&& e.get("base_instructions"@) == match models[i].get("base_instructions"@) {
                Some(p) => Some(p),
                None => Some(JsonV::Str(FALLBACK_BASE_INSTRUCTIONS@)),
            }
        }),
{
    reveal_strlit("slug");
    reveal_strlit("display_name");
    reveal_strlit("context_window");
    reveal_strlit("max_context_window");
    reveal_strlit("supported_in_api");
    reveal_strlit("visibility");
    reveal_strlit("prefer_websockets");
    reveal_strlit("use_responses_lite");
    reveal_strlit("shell_type");
    reveal_strlit("supports_parallel_tool_calls");
    reveal_strlit("description");
    reveal_strlit("priority");
    reveal_strlit("support_verbosity");
    reveal_strlit("truncation_policy");
    reveal_strlit("experimental_supported_tools");
    reveal_strlit("supported_reasoning_levels");
    reveal_strlit("default_reasoning_level");
    reveal_strlit("base_instructions");
    reveal_strlit("model_messages");
    assert("slug"@.len() == 4);
    assert("display_name"@.len() == 12);
    assert("context_window"@.len() == 14);
    assert("max_context_window"@.len() == 18);
    assert("supported_in_api"@.len() == 16);
    assert("visibility"@.len() == 10);
    assert("prefer_websockets"@.len() == 17);
    assert("use_responses_lite"@.len() == 18);
    assert("shell_type"@.len() == 10);
    assert("supports_parallel_tool_calls"@.len() == 28);
    assert("description"@.len() == 11);
    assert("priority"@.len() == 8);
    assert("support_verbosity"@.len() == 17);
    assert("truncation_policy"@.len() == 17);
    assert("experimental_supported_tools"@.len() == 28);
    assert("supported_reasoning_levels"@.len() == 26);
    assert("default_reasoning_level"@.len() == 23);
    assert("base_instructions"@.len() == 17);
    assert("model_messages"@.len() == 14);
    assert("context_window"@[0] != "model_messages"@[0]);
    assert("max_context_window"@[0] != "use_responses_lite"@[0]);
    assert("visibility"@[0] != "shell_type"@[0]);
    assert("prefer_websockets"@[0] != "support_verbosity"@[0]);
    assert("prefer_websockets"@[0] != "truncation_policy"@[0]);
    assert("prefer_websockets"@[0] != "base_instructions"@[0]);
    assert("supports_parallel_tool_calls"@[0] != "experimental_supported_tools"@[0]);
    assert("support_verbosity"@[0] != "truncation_policy"@[0]);
    assert("support_verbosity"@[0] != "base_instructions"@[0]);
    assert("truncation_policy"@[0] != "base_instructions"@[0]);
    lemma_listed(models, 0, i);
    assert(template_entry(t) == models[i]);
}

proof fn lemma_listed(models: Seq<JsonV>, k: int, i: int)
    requires
        0 <= k,
        0 <= i < models.len(),
        forall|j: int|
            k <= j < i ==> (#[trigger] models[j]).get_str("visibility"@) != Some("list"@),
        k <= i || forall|j: int|
            k <= j < models.len() ==> (#[trigger] models[j]).get_str("visibility"@) != Some(
                "list"@,
            ),
        models[i].get_str("visibility"@) == Some("list"@) || forall|j: int|
            k <= j < models.len() ==> (#[trigger] models[j]).get_str("visibility"@) != Some(
                "list"@,
            ),
    ensures
        crate::catalog::listed_at(models, k) == (if k <= i && models[i].get_str("visibility"@)
            == Some("list"@) {
            Some(i)
        } else {
            None
        }),
    decreases models.len() - k,
{
    if k < models.len() && !(k == i && models[i].get_str("visibility"@) == Some("list"@)) {
        lemma_listed(models, k + 1, i);
    }
}

/// Without a template an entry has the neutral prompt and no messages.
pub proof fn neutral_prompt_without_template(key: Seq<char>, r: ValidatedRouteV)
    ensures
        route_entry(seed_of(None), key, r).get_str("base_instructions"@) == Some(
            "You are a helpful assistant."@,
        ),
        route_entry(seed_of(None), key, r).get("model_messages"@) is None,
{
    reveal_strlit("slug");
    reveal_strlit("display_name");
    reveal_strlit("context_window");
    reveal_strlit("max_context_window");
    reveal_strlit("supported_in_api");
    reveal_strlit("visibility");
    reveal_strlit("prefer_websockets");
    reveal_strlit("use_responses_lite");
    reveal_strlit("shell_type");
    reveal_strlit("supports_parallel_tool_calls");
    reveal_strlit("description");
    reveal_strlit("priority");
    reveal_strlit("support_verbosity");
    reveal_strlit("truncation_policy");
    reveal_strlit("experimental_supported_tools");
    reveal_strlit("supported_reasoning_levels");
    reveal_strlit("default_reasoning_level");
    reveal_strlit("base_instructions");
    reveal_strlit("model_messages");
    assert("slug"@.len() == 4);
    assert("display_name"@.len() == 12);
    assert("context_window"@.len() == 14);
    assert("max_context_window"@.len() == 18);
    assert("supported_in_api"@.len() == 16);
    assert("visibility"@.len() == 10);
    assert("prefer_websockets"@.len() == 17);
    assert("use_responses_lite"@.len() == 18);
    assert("shell_type"@.len() == 10);
    assert("supports_parallel_tool_calls"@.len() == 28);
    assert("description"@.len() == 11);
    assert("priority"@.len() == 8);
    assert("support_verbosity"@.len() == 17);
    assert("truncation_policy"@.len() == 17);
    assert("experimental_supported_tools"@.len() == 28);
    assert("supported_reasoning_levels"@.len() == 26);
    assert("default_reasoning_level"@.len() == 23);
    assert("base_instructions"@.len() == 17);
    assert("model_messages"@.len() == 14);
    assert("context_window"@[0] != "model_messages"@[0]);
    assert("max_context_window"@[0] != "use_responses_lite"@[0]);
    assert("visibility"@[0] != "shell_type"@[0]);
    assert("prefer_websockets"@[0] != "support_verbosity"@[0]);
    assert("prefer_websockets"@[0] != "truncation_policy"@[0]);
    assert("prefer_websockets"@[0] != "base_instructions"@[0]);
    assert("supports_parallel_tool_calls"@[0] != "experimental_supported_tools"@[0]);
    assert("support_verbosity"@[0] != "truncation_policy"@[0]);
    assert("support_verbosity"@[0] != "base_instructions"@[0]);
    assert("truncation_policy"@[0] != "base_instructions"@[0]);
}

/// The overrides hide from pickers exactly the bundled models that they list and
/// that no route stands for, and change nothing else of them.
pub proof fn overrides_hide_what_no_route_serves(bundled: Seq<JsonV>, keys: Seq<Seq<char>>)
    ensures
        ({
            let r = hide_entries(bundled, keys);
            &&& forall|i: int|
                0 <= i < r.len() ==> (#[trigger] r[i]).get_str("visibility"@) == Some("hide"@)
                    && r[i].get_str("slug"@) is Some && !keys.contains(r[i].get_str("slug"@)->0)
            &&& forall|p: int|
                0 <= p < bundled.len() && (#[trigger] bundled[p]).get_str("visibility"@) == Some(
                    "list"@,
                ) && bundled[p].get_str("slug"@) is Some && !keys.contains(
                    bundled[p].get_str("slug"@)->0,
                ) ==> is_hidden_in(r, bundled[p])
            &&& forall|i: int|
                0 <= i < r.len() ==> hides_one(#[trigger] r[i], bundled)
        }),
{
    reveal_strlit("visibility");
    reveal_strlit("slug");
    assert("visibility"@.len() == 10);
    assert("slug"@.len() == 4);
    let r = hide_entries(bundled, keys);
    overrides_spare_routes(bundled, keys);
    assert forall|i: int| 0 <= i < r.len() implies hides_one(#[trigger] r[i], bundled) by {
        let p = choose|p: int|
            0 <= p < bundled.len() && is_overridden(#[trigger] bundled[p], keys) && r[i] == hidden(
                bundled[p],
            );
        assert(only_hidden(r[i], bundled[p]));
    }
    assert forall|i: int| 0 <= i < r.len() implies (#[trigger] r[i]).get_str("visibility"@)
        == Some("hide"@) && r[i].get_str("slug"@) is Some && !keys.contains(
        r[i].get_str("slug"@)->0,
    ) by {
        let p = choose|p: int|
            0 <= p < bundled.len() && is_overridden(#[trigger] bundled[p], keys) && r[i] == hidden(
                bundled[p],
            );
    }
    assert forall|p: int|
        0 <= p < bundled.len() && (#[trigger] bundled[p]).get_str("visibility"@) == Some("list"@)
            && bundled[p].get_str("slug"@) is Some && !keys.contains(
            bundled[p].get_str("slug"@)->0,
        ) implies is_hidden_in(r, bundled[p]) by {
        assert(is_overridden(bundled[p], keys));
        let i = choose|i: int| 0 <= i < r.len() && r[i] == hidden(bundled[p]);
        assert(only_hidden(r[i], bundled[p]));
    }
}

/// Whether `h` is `m` with nothing but its visibility changed, to hidden.
pub open spec fn only_hidden(h: JsonV, m: JsonV) -> bool {
    &&& h.get_str("visibility"@) == Some("hide"@)
    &&& forall|k: Seq<char>| k != "visibility"@ ==> #[trigger] h.get(k) == m.get(k)
}

/// Whether one of the entries is a model with its visibility changed.
pub open spec fn is_hidden_in(r: Seq<JsonV>, m: JsonV) -> bool {
    exists|i: int| 0 <= i < r.len() && only_hidden(#[trigger] r[i], m)
}

/// Whether an entry is one of the listed models with its visibility changed.
pub open spec fn hides_one(h: JsonV, bundled: Seq<JsonV>) -> bool {
    exists|p: int|
        0 <= p < bundled.len() && only_hidden(h, #[trigger] bundled[p]) && bundled[p].get_str(
            "visibility"@,
        ) == Some("list"@)
}

/// The template fields that a catalog leaves behind are all that the template's
/// entry has but the two prompts; a configuration without routes takes nothing
/// from a template.
pub proof fn left_behind_is_all_but_the_prompts(v: ValidatedV, t: JsonV, k: Seq<char>)
    ensures
        dropped_set(v, Some(t)).contains(k) <==> v.routes.len() > 0 && template_entry(t).get(
            k,
        ) is Some && k != "base_instructions"@ && k != "model_messages"@,
        !dropped_set(v, None).contains(k),
{
}

/// A place that holds JSON brings the template; a missing place is passed over;
/// a place that the user named has to be readable.
pub proof fn templates_come_from_the_first_place(
    named: bool,
    outcome: TemplateOutcome,
    r: TemplateStep,
)
    requires
        step_after(named, outcome, r),
    ensures
        outcome is Missing ==> r is Next,
        outcome matches TemplateOutcome::Text(t) ==> (json_read(t@) matches Ok(v) ==> (
        r matches TemplateStep::Found(j) && j@ == v)),
        outcome matches TemplateOutcome::Printed(b) ==> (json_parse_bytes(b@) matches Some(v) ==> (
        r matches TemplateStep::Found(j) && j@ == v)),
        r is Fail ==> named,
        named && outcome is Unreadable ==> r is Fail,
        !named && outcome is Unreadable ==> r is Next,
        named && (outcome matches TemplateOutcome::Text(t) && json_read(t@) is Err) ==> r is Fail,
{
}

/// The models of a document are its list of models, and none where it has no
/// such list.
pub proof fn models_are_those_of_the_document(doc: Option<JsonV>, a: Seq<JsonV>)
    ensures
        (doc matches Some(d) && d.get("models"@) == Some(JsonV::Arr(a))) ==> models_of(doc) == a,
        doc is None ==> models_of(doc).len() == 0,
        (doc matches Some(d) && d.get("models"@) is None) ==> models_of(doc).len() == 0,
{
}

} // verus!
