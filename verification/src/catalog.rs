//! The model catalog that Codex reads.
//!
//! A catalog is `{"models": [...]}` with one entry per route, in ascending
//! order of the route keys. An entry inherits two prompt fields of a Codex
//! template, where there is one; everything else in it is set here.
use crate::config::{
    describes, document_fault, validated, Config, ConfigError, ConfigV, ErrorV, ValidatedConfig,
    ValidatedRouteV, ValidatedV,
};
use crate::json::{
    dup_items, entries_view, items_view, json_parse_bytes, json_read, lemma_items_push,
    lemma_items_view, toml_parse, Json, JsonV,
};
use crate::order::{
    ascending, ascending_is_sorted, less, listing, listing_is_unique, lists_set, positions,
    sorted_positions, sorted_unique,
};
use crate::text::{opt_text, same, views};
use crate::wire::chat::opt_str;
use vstd::prelude::*;

verus! {

/// A catalog, and the names of the template fields that it does not carry on.
pub struct GeneratedCatalog {
    pub catalog: Json,
    pub dropped_template_fields: Vec<String>,
}

/// The prompt of an entry that inherits none.
pub const FALLBACK_BASE_INSTRUCTIONS: &'static str = "You are a helpful assistant.";

/// The template fields that an entry inherits.
pub open spec fn is_inherited(k: Seq<char>) -> bool {
    k == "base_instructions"@ || k == "model_messages"@
}

/// The wording for an effort.
pub open spec fn effort_text(effort: Seq<char>) -> Seq<char> {
    if effort == "none"@ {
        "No reasoning; direct responses"@
    } else if effort == "minimal"@ {
        "Fastest responses with the lightest reasoning"@
    } else if effort == "low"@ {
        "Fast responses with lighter reasoning"@
    } else if effort == "medium"@ {
        "Balances speed and reasoning depth for everyday tasks"@
    } else if effort == "xhigh"@ {
        "Extra high reasoning depth for complex problems"@
    } else if effort == "max"@ || effort == "ultra"@ {
        "Maximum reasoning depth for the hardest problems"@
    } else {
        "Greater reasoning depth for complex problems"@
    }
}

/// A step of the effort ladder.
pub open spec fn rung(effort: Seq<char>) -> JsonV {
    JsonV::object().set("effort"@, JsonV::Str(effort)).set(
        "description"@,
        JsonV::Str(effort_text(effort)),
    )
}

/// Every effort that Codex accepts, from none to the deepest.
pub open spec fn ladder() -> JsonV {
    JsonV::Arr(
        Seq::empty().push(rung("none"@)).push(rung("minimal"@)).push(rung("low"@)).push(
            rung("medium"@),
        ).push(rung("high"@)).push(rung("xhigh"@)).push(rung("max"@)).push(rung("ultra"@)),
    )
}

/// The effort that Codex sends for a configured one.
pub open spec fn sent_effort(effort: Seq<char>) -> Seq<char> {
    if effort == "ultra"@ {
        "max"@
    } else {
        effort
    }
}

/// The description of an entry: wire format, route key, and the route's own
/// description where it has one.
pub open spec fn description_of(
    key: Seq<char>,
    format: Seq<char>,
    description: Option<Seq<char>>,
) -> Seq<char> {
    let base = "CodexFerry "@ + format + " to "@ + key;
    match description {
        Some(d) => base + " - "@ + d,
        None => base,
    }
}

/// An entry with the fields of a route set over a seed.
pub open spec fn pinned(
    seed: JsonV,
    key: Seq<char>,
    format: Seq<char>,
    window: u64,
    effort: Option<Seq<char>>,
    description: Option<Seq<char>>,
) -> JsonV {
    let entry = seed.set("slug"@, JsonV::Str(key)).set("display_name"@, JsonV::Str(key)).set(
        "context_window"@,
        JsonV::uint(window),
    ).set("max_context_window"@, JsonV::uint(window)).set("supported_in_api"@, JsonV::Bool(true)).set(
        "visibility"@,
        JsonV::Str("list"@),
    ).set("prefer_websockets"@, JsonV::Bool(false)).set(
        "use_responses_lite"@,
        JsonV::Bool(false),
    ).set("shell_type"@, JsonV::Str("default"@)).set(
        "supports_parallel_tool_calls"@,
        JsonV::Bool(true),
    ).set("description"@, JsonV::Str(description_of(key, format, description))).set(
        "priority"@,
        JsonV::uint(99),
    ).set("support_verbosity"@, JsonV::Bool(false)).set(
        "truncation_policy"@,
        JsonV::object().set("mode"@, JsonV::Str("tokens"@)).set("limit"@, JsonV::uint(10000)),
    ).set("experimental_supported_tools"@, JsonV::Arr(Seq::empty())).set(
        "supported_reasoning_levels"@,
        ladder(),
    );
    match effort {
        Some(e) => entry.set("default_reasoning_level"@, JsonV::Str(sent_effort(e))),
        None => entry,
    }
}

/// The first model of a template that pickers list, at or after `i`.
pub open spec fn listed_at(models: Seq<JsonV>, i: int) -> Option<int>
    decreases models.len() - i,
{
    if i < 0 || i >= models.len() {
        None
    } else if models[i].get_str("visibility"@) == Some("list"@) {
        Some(i)
    } else {
        listed_at(models, i + 1)
    }
}

/// The entry of a template that seeds the catalog: its first listed model,
/// else its first one; an empty object where there is none.
pub open spec fn template_entry(template: JsonV) -> JsonV {
    let entry = match template.get_arr("models"@) {
        None => JsonV::object(),
        Some(models) => match listed_at(models, 0) {
            Some(i) => models[i],
            None => if models.len() > 0 {
                models[0]
            } else {
                JsonV::object()
            },
        },
    };
    if entry is Obj {
        entry
    } else {
        JsonV::object()
    }
}

/// An object with a field set where there is a value for it.
pub open spec fn set_opt(o: JsonV, k: Seq<char>, v: Option<JsonV>) -> JsonV {
    match v {
        Some(x) => o.set(k, x),
        None => o,
    }
}

/// The seed of an entry: the two prompt fields of the template's entry, and
/// the neutral prompt where that brings none.
pub open spec fn seed_of(template: Option<JsonV>) -> JsonV {
    let entry = match template {
        Some(t) => template_entry(t),
        None => JsonV::object(),
    };
    let prompt = match entry.get("base_instructions"@) {
        Some(p) => p,
        None => JsonV::Str(FALLBACK_BASE_INSTRUCTIONS@),
    };
    set_opt(
        JsonV::object().set("base_instructions"@, prompt),
        "model_messages"@,
        entry.get("model_messages"@),
    )
}

/// The catalog entry of a route.
pub open spec fn route_entry(seed: JsonV, key: Seq<char>, r: ValidatedRouteV) -> JsonV {
    pinned(
        seed,
        key,
        r.provider.format,
        r.route.context_window,
        r.route.effort,
        r.route.description,
    )
}

/// The keys of a list of routes.
pub open spec fn keys_of(routes: Seq<(Seq<char>, ValidatedRouteV)>) -> Seq<Seq<char>> {
    Seq::new(routes.len(), |i: int| routes[i].0)
}

/// The entries of a catalog, in ascending order of the route keys.
pub open spec fn catalog_models(
    routes: Seq<(Seq<char>, ValidatedRouteV)>,
    seed: JsonV,
) -> Seq<JsonV> {
    let order = ascending(keys_of(routes), routes.len() as int);
    Seq::new(order.len(), |i: int| route_entry(seed, routes[order[i]].0, routes[order[i]].1))
}

/// The catalog of a configuration.
pub open spec fn catalog_of(v: ValidatedV, template: Option<JsonV>) -> JsonV {
    JsonV::object().set("models"@, JsonV::Arr(catalog_models(v.routes, seed_of(template))))
}

/// Whether a template field is left behind.
pub open spec fn is_dropped(v: ValidatedV, template: Option<JsonV>, k: Seq<char>) -> bool {
    v.routes.len() > 0 && (template matches Some(t) && template_entry(t).get(k) is Some)
        && !is_inherited(k)
}

/// The names of the fields that are left behind.
pub open spec fn dropped_set(v: ValidatedV, template: Option<JsonV>) -> Set<Seq<char>> {
    Set::new(|k: Seq<char>| is_dropped(v, template, k))
}

/// The names of the fields that are left behind, in ascending order.
pub open spec fn dropped_fields(v: ValidatedV, template: Option<JsonV>) -> Seq<Seq<char>> {
    listing(dropped_set(v, template))
}

/// What an optional JSON value denotes.
pub open spec fn opt_view(j: Option<&Json>) -> Option<JsonV> {
    match j {
        Some(x) => Some(x@),
        None => None,
    }
}

fn effort_description(effort: &str) -> (r: &'static str)
    ensures
        r@ == effort_text(effort@),
{
    if same(effort, "none") {
        "No reasoning; direct responses"
    } else if same(effort, "minimal") {
        "Fastest responses with the lightest reasoning"
    } else if same(effort, "low") {
        "Fast responses with lighter reasoning"
    } else if same(effort, "medium") {
        "Balances speed and reasoning depth for everyday tasks"
    } else if same(effort, "xhigh") {
        "Extra high reasoning depth for complex problems"
    } else if same(effort, "max") || same(effort, "ultra") {
        "Maximum reasoning depth for the hardest problems"
    } else {
        "Greater reasoning depth for complex problems"
    }
}

fn push_rung(rungs: &mut Vec<Json>, effort: &str)
    ensures
        items_view(final(rungs)@) == items_view(old(rungs)@).push(rung(effort@)),
{
    let r = Json::object().set("effort", Json::str(effort)).set(
        "description",
        Json::str(effort_description(effort)),
    );
    proof {
        lemma_items_push(rungs@, r);
    }
    rungs.push(r);
}

fn full_effort_ladder() -> (r: Json)
    ensures
        r@ == ladder(),
{
    let mut rungs: Vec<Json> = Vec::new();
    push_rung(&mut rungs, "none");
    push_rung(&mut rungs, "minimal");
    push_rung(&mut rungs, "low");
    push_rung(&mut rungs, "medium");
    push_rung(&mut rungs, "high");
    push_rung(&mut rungs, "xhigh");
    push_rung(&mut rungs, "max");
    push_rung(&mut rungs, "ultra");
    Json::Arr(rungs)
}

fn describe(key: &str, format: &str, description: Option<&str>) -> (r: String)
    ensures
        r@ == description_of(key@, format@, opt_text(description)),
{
    let mut out = "CodexFerry ".to_owned();
    out.append(format);
    out.append(" to ");
    out.append(key);
    if let Some(d) = description {
        out.append(" - ");
        out.append(d);
    }
    out
}

/// Sets the fields of a route over a seed.
fn set_catalog_fields(
    seed: Json,
    route_key: &str,
    provider_format: &str,
    context_window: u64,
    default_reasoning_effort: Option<&str>,
    description: Option<&str>,
) -> (r: Json)
    ensures
        r@ == pinned(
            seed@,
            route_key@,
            provider_format@,
            context_window,
            opt_text(default_reasoning_effort),
            opt_text(description),
        ),
{
    let tools: Vec<Json> = Vec::new();
    assert(items_view(tools@) =~= Seq::<JsonV>::empty());
    let text = describe(route_key, provider_format, description);
    let entry = seed.set("slug", Json::str(route_key)).set("display_name", Json::str(route_key)).set(
        "context_window",
        Json::uint(context_window),
    ).set("max_context_window", Json::uint(context_window)).set(
        "supported_in_api",
        Json::Bool(true),
    ).set("visibility", Json::str("list")).set("prefer_websockets", Json::Bool(false)).set(
        "use_responses_lite",
        Json::Bool(false),
    ).set("shell_type", Json::str("default")).set(
        "supports_parallel_tool_calls",
        Json::Bool(true),
    ).set("description", Json::str(text.as_str())).set("priority", Json::uint(99)).set(
        "support_verbosity",
        Json::Bool(false),
    ).set(
        "truncation_policy",
        Json::object().set("mode", Json::str("tokens")).set("limit", Json::uint(10000)),
    ).set("experimental_supported_tools", Json::Arr(tools)).set(
        "supported_reasoning_levels",
        full_effort_ladder(),
    );
    match default_reasoning_effort {
        Some(e) => {
            let sent = if same(e, "ultra") {
                "max"
            } else {
                e
            };
            entry.set("default_reasoning_level", Json::str(sent))
        },
        None => entry,
    }
}

/// The entry of a route without a template and without a description.
pub fn build_catalog_entry(
    route_key: &str,
    provider_format: &str,
    context_window: u64,
    effort: Option<&str>,
) -> (r: Json)
    ensures
        r@ == pinned(
            seed_of(None),
            route_key@,
            provider_format@,
            context_window,
            opt_text(effort),
            None,
        ),
{
    let seed = Json::object().set("base_instructions", Json::str(FALLBACK_BASE_INSTRUCTIONS));
    set_catalog_fields(seed, route_key, provider_format, context_window, effort, None)
}

fn find_listed(models: &Vec<Json>) -> (r: Option<usize>)
    ensures
        match r {
            Some(i) => listed_at(items_view(models@), 0) == Some(i as int) && i < models@.len(),
            None => listed_at(items_view(models@), 0) is None,
        },
{
    let ghost all = items_view(models@);
    proof {
        lemma_items_view(models@);
    }
    let mut i: usize = 0;
    while i < models.len()
        invariant
            i <= models@.len(),
            all == items_view(models@),
            all.len() == models@.len(),
            forall|k: int| 0 <= k < all.len() ==> #[trigger] all[k] == models@[k]@,
            listed_at(all, 0) == listed_at(all, i as int),
        decreases models@.len() - i,
    {
        assert(all[i as int] == models@[i as int]@);
        if models[i].field_is("visibility", "list") {
            return Some(i);
        }
        i = i + 1;
    }
    None
}

/// The entry of a template that seeds the catalog.
fn pick_template_entry(template: &Json) -> (r: Json)
    ensures
        r@ == template_entry(template@),
{
    if let Some(models) = template.get_array("models") {
        proof {
            lemma_items_view(models@);
        }
        let at: usize = match find_listed(models) {
            Some(i) => i,
            None => 0,
        };
        if at < models.len() {
            assert(items_view(models@)[at as int] == models@[at as int]@);
            if let Json::Obj(_) = &models[at] {
                return models[at].dup();
            }
        }
    }
    Json::object()
}

fn seed_from(entry: Option<&Json>) -> (r: Json)
    ensures
        r@ == set_opt(
            JsonV::object().set(
                "base_instructions"@,
                match entry {
                    Some(e) => match e@.get("base_instructions"@) {
                        Some(p) => p,
                        None => JsonV::Str(FALLBACK_BASE_INSTRUCTIONS@),
                    },
                    None => JsonV::Str(FALLBACK_BASE_INSTRUCTIONS@),
                },
            ),
            "model_messages"@,
            match entry {
                Some(e) => e@.get("model_messages"@),
                None => None,
            },
        ),
{
    let mut prompt = Json::str(FALLBACK_BASE_INSTRUCTIONS);
    if let Some(e) = entry {
        if let Some(p) = e.get("base_instructions") {
            prompt = p.dup();
        }
    }
    let seed = Json::object().set("base_instructions", prompt);
    if let Some(e) = entry {
        if let Some(m) = e.get("model_messages") {
            return seed.set("model_messages", m.dup());
        }
    }
    seed
}

/// The names of an object's fields that are not inherited, in ascending order.
fn dropped_names(entry: &Json) -> (r: Vec<String>)
    ensures
        views(r@) == listing(
            Set::new(|k: Seq<char>| entry@.get(k) is Some && !is_inherited(k)),
        ),
        lists_set(
            views(r@),
            Set::new(|k: Seq<char>| entry@.get(k) is Some && !is_inherited(k)),
        ),
{
    let entries = entry.entries();
    let ghost e = entries_view(entries@);
    let mut names: Vec<String> = Vec::new();
    let mut i: usize = 0;
    while i < entries.len()
        invariant
            i <= entries@.len(),
            e == entries_view(entries@),
            forall|a: int|
                0 <= a < names@.len() ==> !is_inherited((#[trigger] names@[a])@) && exists|k: int|
                    0 <= k < i && (#[trigger] e[k]).0 == names@[a]@,
            forall|k: int|
                0 <= k < i && !is_inherited((#[trigger] e[k]).0) ==> views(names@).contains(
                    e[k].0,
                ),
        decreases entries@.len() - i,
    {
        let name = entries[i].0.as_str();
        assert(e[i as int].0 == name@);
        let ghost before = names@;
        if !same(name, "base_instructions") && !same(name, "model_messages") {
            names.push(entries[i].0.clone());
        }
        proof {
            assert forall|k: int|
                0 <= k < i + 1 && !is_inherited((#[trigger] e[k]).0) implies views(
                names@,
            ).contains(e[k].0) by {
                if k < i {
                    let a = choose|a: int|
                        0 <= a < views(before).len() && views(before)[a] == e[k].0;
                    assert(views(names@)[a] == e[k].0);
                } else {
                    assert(views(names@)[names@.len() - 1] == e[k].0);
                }
            }
        }
        i = i + 1;
    }
    proof {
        let want = Set::new(|k: Seq<char>| entry@.get(k) is Some && !is_inherited(k));
        let have = views(names@).to_set();
        assert forall|k: Seq<char>| want.contains(k) <==> have.contains(k) by {
            if want.contains(k) {
                let j = choose|j: int| 0 <= j < e.len() && (#[trigger] e[j]).0 == k;
                assert(views(names@).contains(e[j].0));
            }
            if have.contains(k) {
                let a = choose|a: int| 0 <= a < views(names@).len() && views(names@)[a] == k;
                assert(names@[a]@ == k);
                let j = choose|j: int| 0 <= j < e.len() && (#[trigger] e[j]).0 == k;
                assert(e[j].0 == k);
            }
        }
        assert(want =~= have);
    }
    sorted_unique(&names)
}

fn route_keys(validated: &ValidatedConfig) -> (r: Vec<String>)
    ensures
        views(r@) == keys_of(validated@.routes),
        r@.len() == validated.routes@.len(),
{
    let mut keys: Vec<String> = Vec::new();
    let mut i: usize = 0;
    while i < validated.routes.len()
        invariant
            i <= validated.routes@.len(),
            keys@.len() == i,
            forall|k: int| 0 <= k < i ==> (#[trigger] keys@[k])@ == validated.routes@[k].0@,
        decreases validated.routes@.len() - i,
    {
        keys.push(validated.routes[i].0.clone());
        i = i + 1;
    }
    assert(views(keys@) =~= keys_of(validated@.routes));
    keys
}

fn as_deref(s: &Option<String>) -> (r: Option<&str>)
    ensures
        opt_text(r) == opt_str(*s),
{
    match s {
        Some(x) => Some(x.as_str()),
        None => None,
    }
}

fn build_models(validated: &ValidatedConfig, seed: &Json) -> (r: Vec<Json>)
    ensures
        items_view(r@) == catalog_models(validated@.routes, seed@),
{
    let keys = route_keys(validated);
    let order = sorted_positions(&keys);
    let ghost routes = validated@.routes;
    let ghost o = ascending(keys_of(routes), routes.len() as int);
    let ghost all = catalog_models(routes, seed@);
    let mut models: Vec<Json> = Vec::new();
    let mut n: usize = 0;
    assert(items_view(models@) =~= all.take(0));
    while n < order.len()
        invariant
            n <= order@.len(),
            routes == validated@.routes,
            o == positions(order@),
            o == ascending(keys_of(routes), routes.len() as int),
            all == catalog_models(routes, seed@),
            order@.len() == validated.routes@.len(),
            forall|k: int| 0 <= k < order@.len() ==> #[trigger] order@[k] < validated.routes@.len(),
            items_view(models@) == all.take(n as int),
        decreases order@.len() - n,
    {
        let at = order[n];
        assert(o[n as int] == at);
        let route = &validated.routes[at];
        let entry = set_catalog_fields(
            seed.dup(),
            route.0.as_str(),
            route.1.provider.format.as_str(),
            route.1.context_window,
            as_deref(&route.1.default_reasoning_effort),
            as_deref(&route.1.description),
        );
        proof {
            assert(routes[at as int] == (route.0@, route.1@));
            assert(all[n as int] == entry@);
            lemma_items_push(models@, entry);
            assert(all.take(n + 1) =~= all.take(n as int).push(all[n as int]));
        }
        models.push(entry);
        n = n + 1;
    }
    assert(all.take(all.len() as int) =~= all);
    models
}

/// The catalog of a validated configuration, seeded by a template.
pub fn build_catalog_value(validated: &ValidatedConfig, template: Option<&Json>) -> (r:
    GeneratedCatalog)
    ensures
        r.catalog@ == catalog_of(validated@, opt_view(template)),
        views(r.dropped_template_fields@) == dropped_fields(validated@, opt_view(template)),
        lists_set(
            views(r.dropped_template_fields@),
            dropped_set(validated@, opt_view(template)),
        ),
{
    match template {
        Some(t) => {
            let entry = pick_template_entry(t);
            let seed = seed_from(Some(&entry));
            let models = build_models(validated, &seed);
            let ghost dropped = dropped_set(validated@, opt_view(template));
            let dropped_template_fields = if validated.routes.len() > 0 {
                assert(dropped =~= Set::new(
                    |k: Seq<char>| entry@.get(k) is Some && !is_inherited(k),
                ));
                dropped_names(&entry)
            } else {
                let none: Vec<String> = Vec::new();
                proof {
                    assert(views(none@) =~= Seq::<Seq<char>>::empty());
                    assert(lists_set(views(none@), dropped));
                    listing_is_unique(views(none@), views(none@), dropped);
                }
                none
            };
            GeneratedCatalog {
                catalog: Json::object().set("models", Json::Arr(models)),
                dropped_template_fields,
            }
        },
        None => {
            let seed = seed_from(None);
            proof {
                assert(JsonV::object().get("base_instructions"@) is None);
                assert(JsonV::object().get("model_messages"@) is None);
            }
            let models = build_models(validated, &seed);
            let none: Vec<String> = Vec::new();
            proof {
                let dropped = dropped_set(validated@, opt_view(template));
                assert(views(none@) =~= Seq::<Seq<char>>::empty());
                assert(lists_set(views(none@), dropped));
                listing_is_unique(views(none@), views(none@), dropped);
            }
            GeneratedCatalog {
                catalog: Json::object().set("models", Json::Arr(models)),
                dropped_template_fields: none,
            }
        },
    }
}

/// Whether `r` is what a configuration text and a template give: the catalog
/// of the configuration that the text describes, or the first fault.
pub open spec fn generated(
    text: Seq<char>,
    template: Option<JsonV>,
    r: Result<GeneratedCatalog, ConfigError>,
) -> bool {
    match toml_parse(text) {
        Err(m) => r matches Err(e) && e@ == ErrorV::Parse(m),
        Ok(doc) => match document_fault(doc) {
            Some(m) => r matches Err(e) && e@ == ErrorV::Parse(m),
            None => exists|c: ConfigV| #[trigger] describes(doc, c) && generated_from(c, template, r),
        },
    }
}

/// Whether `r` is what a configuration and a template give.
pub open spec fn generated_from(
    c: ConfigV,
    template: Option<JsonV>,
    r: Result<GeneratedCatalog, ConfigError>,
) -> bool {
    match validated(c) {
        Ok(v) => r matches Ok(g) && g.catalog@ == catalog_of(v, template) && views(
            g.dropped_template_fields@,
        ) == dropped_fields(v, template) && lists_set(
            views(g.dropped_template_fields@),
            dropped_set(v, template),
        ),
        Err(f) => r matches Err(e) && e@ == f,
    }
}

/// The catalog of the configuration that a TOML text describes.
pub fn generate_catalog(config_text: &str, template: Option<&Json>) -> (r: Result<
    GeneratedCatalog,
    ConfigError,
>)
    ensures
        generated(config_text@, opt_view(template), r),
{
    match Config::parse_str(config_text) {
        Err(e) => Err(e),
        Ok(config) => {
            let ghost c = config@;
            let r = match config.validate() {
                Err(e) => Err(e),
                Ok(v) => Ok(build_catalog_value(&v, template)),
            };
            assert(generated_from(c, opt_view(template), r));
            r
        },
    }
}

/// What became of a place that may hold a template.
pub enum TemplateOutcome {
    /// There is nothing.
    Missing,
    /// It could not be read, and why.
    Unreadable(String),
    /// What the file holds.
    Text(String),
    /// What the command printed.
    Printed(Vec<u8>),
}

/// What to do after looking at a place.
pub enum TemplateStep {
    /// Use this template.
    Found(Json),
    /// Look at the next place.
    Next,
    /// Give up, for this reason: the place was named by the user.
    Fail(String),
}

/// Whether a step gives up on a named place for a reason, and goes on from any
/// other.
pub open spec fn gives_up(named: bool, reason: Seq<char>, r: TemplateStep) -> bool {
    if named {
        r matches TemplateStep::Fail(m) && m@ == reason
    } else {
        r is Next
    }
}

/// Whether a step is right: a file named by the user may be missing but not
/// unreadable or no JSON; of the other places the first readable JSON is used.
pub open spec fn step_after(named: bool, outcome: TemplateOutcome, r: TemplateStep) -> bool {
    match outcome {
        TemplateOutcome::Missing => r is Next,
        TemplateOutcome::Unreadable(reason) => gives_up(named, reason@, r),
        TemplateOutcome::Text(t) => match json_read(t@) {
            Ok(v) => r matches TemplateStep::Found(j) && j@ == v,
            Err(reason) => gives_up(named, reason, r),
        },
        TemplateOutcome::Printed(b) => match json_parse_bytes(b@) {
            Some(v) => r matches TemplateStep::Found(j) && j@ == v,
            None => r is Next,
        },
    }
}

fn give_up(named: bool, reason: String) -> (r: TemplateStep)
    ensures
        gives_up(named, reason@, r),
{
    if named {
        TemplateStep::Fail(reason)
    } else {
        TemplateStep::Next
    }
}

/// Decides what to do after looking at a place that may hold a template.
pub fn template_step(named: bool, outcome: TemplateOutcome) -> (r: TemplateStep)
    ensures
        step_after(named, outcome, r),
{
    match outcome {
        TemplateOutcome::Missing => TemplateStep::Next,
        TemplateOutcome::Unreadable(reason) => give_up(named, reason),
        TemplateOutcome::Text(t) => match Json::read(t.as_str()) {
            Ok(v) => TemplateStep::Found(v),
            Err(reason) => give_up(named, reason),
        },
        TemplateOutcome::Printed(b) => match Json::parse_bytes(b.as_slice()) {
            Some(v) => TemplateStep::Found(v),
            None => TemplateStep::Next,
        },
    }
}

/// The models of a `{"models": [...]}` document; none where it is anything
/// else.
pub open spec fn models_of(doc: Option<JsonV>) -> Seq<JsonV> {
    match doc {
        Some(d) => match d.get_arr("models"@) {
            Some(a) => a,
            None => Seq::empty(),
        },
        None => Seq::empty(),
    }
}

/// The models that `codex debug models --bundled` printed; none where the
/// output is no such document.
pub fn parse_bundled_output(stdout: &[u8]) -> (r: Vec<Json>)
    ensures
        items_view(r@) == models_of(json_parse_bytes(stdout@)),
{
    if let Some(doc) = Json::parse_bytes(stdout) {
        if let Some(models) = doc.get_array("models") {
            return dup_items(models);
        }
    }
    let none: Vec<Json> = Vec::new();
    assert(items_view(none@) =~= Seq::<JsonV>::empty());
    none
}

/// Whether a bundled model needs an override: pickers list it, it has a slug,
/// and no route has that slug for its key.
pub open spec fn is_overridden(m: JsonV, route_keys: Seq<Seq<char>>) -> bool {
    m.get_str("visibility"@) == Some("list"@) && m.get_str("slug"@) is Some && !route_keys.contains(
        m.get_str("slug"@)->0,
    )
}

/// The first `n` bundled models that need an override.
pub open spec fn overridden(bundled: Seq<JsonV>, route_keys: Seq<Seq<char>>, n: int) -> Seq<JsonV>
    decreases n,
{
    if n <= 0 {
        Seq::empty()
    } else {
        let rest = overridden(bundled, route_keys, n - 1);
        if is_overridden(bundled[n - 1], route_keys) {
            rest.push(bundled[n - 1])
        } else {
            rest
        }
    }
}

/// The slugs of a list of models.
pub open spec fn slugs(models: Seq<JsonV>) -> Seq<Seq<char>> {
    Seq::new(models.len(), |i: int| models[i].get_str("slug"@)->0)
}

/// A model hidden from pickers.
pub open spec fn hidden(m: JsonV) -> JsonV {
    m.set("visibility"@, JsonV::Str("hide"@))
}

/// The overrides that hide the bundled models, in ascending order of the
/// slugs.
pub open spec fn hide_entries(bundled: Seq<JsonV>, route_keys: Seq<Seq<char>>) -> Seq<JsonV> {
    let picked = overridden(bundled, route_keys, bundled.len() as int);
    let order = ascending(slugs(picked), picked.len() as int);
    Seq::new(order.len(), |i: int| hidden(picked[order[i]]))
}

fn holds_text(list: &Vec<String>, t: &str) -> (r: bool)
    ensures
        r == views(list@).contains(t@),
{
    let ghost all = views(list@);
    let mut i: usize = 0;
    while i < list.len()
        invariant
            i <= list@.len(),
            all == views(list@),
            forall|k: int| 0 <= k < i ==> #[trigger] all[k] != t@,
        decreases list@.len() - i,
    {
        if same(list[i].as_str(), t) {
            assert(all[i as int] == t@);
            return true;
        }
        i = i + 1;
    }
    false
}

/// The overrides that hide the bundled models from the picker: each listed
/// model as it is, but hidden, unless a route has its slug.
pub fn build_hide_entries(bundled: &Vec<Json>, route_keys: &Vec<String>) -> (r: Vec<Json>)
    ensures
        items_view(r@) == hide_entries(items_view(bundled@), views(route_keys@)),
{
    let ghost all = items_view(bundled@);
    let ghost keys = views(route_keys@);
    proof {
        lemma_items_view(bundled@);
    }
    let mut picked: Vec<Json> = Vec::new();
    let mut names: Vec<String> = Vec::new();
    let mut i: usize = 0;
    assert(items_view(picked@) =~= Seq::<JsonV>::empty());
    assert(views(names@) =~= slugs(items_view(picked@)));
    while i < bundled.len()
        invariant
            i <= bundled@.len(),
            all == items_view(bundled@),
            all.len() == bundled@.len(),
            keys == views(route_keys@),
            forall|k: int| 0 <= k < all.len() ==> #[trigger] all[k] == bundled@[k]@,
            items_view(picked@) == overridden(all, keys, i as int),
            views(names@) == slugs(items_view(picked@)),
        decreases bundled@.len() - i,
    {
        let m = &bundled[i];
        assert(all[i as int] == m@);
        if m.field_is("visibility", "list") {
            if let Some(slug) = m.get_str("slug") {
                if !holds_text(route_keys, slug) {
                    let copy = m.dup();
                    proof {
                        lemma_items_push(picked@, copy);
                        assert(slugs(items_view(picked@).push(copy@)) =~= slugs(
                            items_view(picked@),
                        ).push(slug@));
                    }
                    let ghost before = names@;
                    let name = slug.to_owned();
                    names.push(name);
                    assert(views(names@) =~= views(before).push(name@));
                    picked.push(copy);
                }
            }
        }
        i = i + 1;
    }
    let order = sorted_positions(&names);
    let ghost sel = items_view(picked@);
    let ghost o = ascending(slugs(sel), sel.len() as int);
    let ghost want = hide_entries(all, keys);
    proof {
        lemma_items_view(picked@);
        assert(views(names@).len() == slugs(sel).len());
    }
    let mut out: Vec<Json> = Vec::new();
    let mut n: usize = 0;
    assert(items_view(out@) =~= want.take(0));
    while n < order.len()
        invariant
            n <= order@.len(),
            sel == items_view(picked@),
            sel.len() == picked@.len(),
            forall|k: int| 0 <= k < sel.len() ==> #[trigger] sel[k] == picked@[k]@,
            o == positions(order@),
            want == Seq::new(o.len(), |i: int| hidden(sel[o[i]])),
            forall|k: int| 0 <= k < order@.len() ==> #[trigger] order@[k] < picked@.len(),
            items_view(out@) == want.take(n as int),
        decreases order@.len() - n,
    {
        let at = order[n];
        assert(o[n as int] == at);
        assert(sel[at as int] == picked@[at as int]@);
        let entry = picked[at].dup().set("visibility", Json::str("hide"));
        proof {
            assert(want[n as int] == entry@);
            lemma_items_push(out@, entry);
            assert(want.take(n + 1) =~= want.take(n as int).push(want[n as int]));
        }
        out.push(entry);
        n = n + 1;
    }
    assert(want.take(want.len() as int) =~= want);
    out
}

/// The fields that every entry has.
pub open spec fn is_pinned(k: Seq<char>) -> bool {
    k == "slug"@ || k == "display_name"@ || k == "context_window"@ || k == "max_context_window"@
        || k == "supported_in_api"@ || k == "visibility"@ || k == "prefer_websockets"@ || k
        == "use_responses_lite"@ || k == "shell_type"@ || k == "supports_parallel_tool_calls"@ || k
        == "description"@ || k == "priority"@ || k == "support_verbosity"@ || k
        == "truncation_policy"@ || k == "experimental_supported_tools"@ || k
        == "supported_reasoning_levels"@
}

/// A template brings nothing into an entry but the two prompt fields: whatever
/// the template, every other field is the same, and every field is one of the
/// pinned ones, the default effort or a prompt field.
pub proof fn template_brings_prompts_only(
    t: Option<JsonV>,
    u: Option<JsonV>,
    key: Seq<char>,
    r: ValidatedRouteV,
    k: Seq<char>,
)
    ensures
        !is_inherited(k) ==> route_entry(seed_of(t), key, r).get(k) == route_entry(
            seed_of(u),
            key,
            r,
        ).get(k),
        route_entry(seed_of(t), key, r).get(k) is Some ==> is_pinned(k) || is_inherited(k) || k
            == "default_reasoning_level"@ && r.route.effort is Some,
{
}

/// Every entry has all the pinned fields and a prompt.
pub proof fn entries_are_complete(
    t: Option<JsonV>,
    key: Seq<char>,
    r: ValidatedRouteV,
    k: Seq<char>,
)
    requires
        is_pinned(k) || k == "base_instructions"@,
    ensures
        route_entry(seed_of(t), key, r).get(k) is Some,
{
}

/// The slug of an entry is the route's key.
pub proof fn lemma_slug(seed: JsonV, key: Seq<char>, r: ValidatedRouteV)
    requires
        seed is Obj,
    ensures
        route_entry(seed, key, r).get_str("slug"@) == Some(key),
{
    reveal_strlit("slug");
    reveal_strlit("display_name");
    reveal_strlit("context_window");
    reveal_strlit("max_context_window");
    reveal_strlit("supported_in_api");
    reveal_strlit("visibility");
    reveal_strlit("prefer_websockets");
    reveal_strlit("use_responses_lite");
    reveal_strlit("shell_type");
    reveal_strlit("supports_parallel_tool_calls");
    reveal_strlit("description");
    reveal_strlit("priority");
    reveal_strlit("support_verbosity");
    reveal_strlit("truncation_policy");
    reveal_strlit("experimental_supported_tools");
    reveal_strlit("supported_reasoning_levels");
    reveal_strlit("default_reasoning_level");
    assert("slug"@.len() == 4);
    assert("display_name"@.len() > 4);
    assert("context_window"@.len() > 4);
    assert("max_context_window"@.len() > 4);
    assert("supported_in_api"@.len() > 4);
    assert("visibility"@.len() > 4);
    assert("prefer_websockets"@.len() > 4);
    assert("use_responses_lite"@.len() > 4);
    assert("shell_type"@.len() > 4);
    assert("supports_parallel_tool_calls"@.len() > 4);
    assert("description"@.len() > 4);
    assert("priority"@.len() > 4);
    assert("support_verbosity"@.len() > 4);
    assert("truncation_policy"@.len() > 4);
    assert("experimental_supported_tools"@.len() > 4);
    assert("supported_reasoning_levels"@.len() > 4);
    assert("default_reasoning_level"@.len() > 4);
}

/// The catalog has one entry for every route, under the route's key, and the
/// keys ascend.
pub proof fn catalog_lists_every_route(v: ValidatedV, template: Option<JsonV>)
    ensures
        ({
            let models = catalog_models(v.routes, seed_of(template));
            &&& models.len() == v.routes.len()
            &&& forall|p: int|
                0 <= p < v.routes.len() ==> exists|i: int|
                    0 <= i < models.len() && #[trigger] models[i] == route_entry(
                        seed_of(template),
                        (#[trigger] v.routes[p]).0,
                        v.routes[p].1,
                    ) && models[i].get_str("slug"@) == Some(v.routes[p].0)
            &&& forall|i: int, j: int|
                0 <= i < j < models.len() ==> !less(
                    (#[trigger] models[j]).get_str("slug"@)->0,
                    (#[trigger] models[i]).get_str("slug"@)->0,
                )
        }),
{
    let keys = keys_of(v.routes);
    let n = v.routes.len() as int;
    let order = ascending(keys, n);
    let seed = seed_of(template);
    let models = catalog_models(v.routes, seed);
    ascending_is_sorted(keys, n);
    assert forall|p: int| 0 <= p < v.routes.len() implies exists|i: int|
        0 <= i < models.len() && #[trigger] models[i] == route_entry(
            seed,
            (#[trigger] v.routes[p]).0,
            v.routes[p].1,
        ) && models[i].get_str("slug"@) == Some(v.routes[p].0) by {
        assert(order.contains(p));
        let i = choose|i: int| 0 <= i < order.len() && order[i] == p;
        lemma_slug(seed, v.routes[p].0, v.routes[p].1);
        assert(models[i] == route_entry(seed, v.routes[p].0, v.routes[p].1));
    }
    assert forall|i: int, j: int| 0 <= i < j < models.len() implies !less(
        (#[trigger] models[j]).get_str("slug"@)->0,
        (#[trigger] models[i]).get_str("slug"@)->0,
    ) by {
        let a = order[i];
        let b = order[j];
        lemma_slug(seed, v.routes[a].0, v.routes[a].1);
        lemma_slug(seed, v.routes[b].0, v.routes[b].1);
        assert(keys[a] == v.routes[a].0);
        assert(keys[b] == v.routes[b].0);
    }
}

proof fn lemma_overridden(bundled: Seq<JsonV>, route_keys: Seq<Seq<char>>, n: int)
    requires
        0 <= n <= bundled.len(),
    ensures
        forall|i: int|
            0 <= i < overridden(bundled, route_keys, n).len() ==> bundled.contains(
                #[trigger] overridden(bundled, route_keys, n)[i],
            ) && is_overridden(overridden(bundled, route_keys, n)[i], route_keys),
        forall|p: int|
            0 <= p < n && is_overridden(#[trigger] bundled[p], route_keys) ==> overridden(
                bundled,
                route_keys,
                n,
            ).contains(bundled[p]),
    decreases n,
{
    if n > 0 {
        lemma_overridden(bundled, route_keys, n - 1);
        let rest = overridden(bundled, route_keys, n - 1);
        let r = overridden(bundled, route_keys, n);
        assert(bundled.contains(bundled[n - 1]));
        assert forall|p: int|
            0 <= p < n && is_overridden(#[trigger] bundled[p], route_keys) implies r.contains(
            bundled[p],
        ) by {
            if p == n - 1 {
                assert(r[r.len() - 1] == bundled[p]);
            } else {
                let k = choose|k: int| 0 <= k < rest.len() && rest[k] == bundled[p];
                assert(r[k] == bundled[p]);
            }
        }
    }
}

/// A hidden model differs from the bundled one in its visibility alone, and it
/// keeps its slug.
pub proof fn hiding_keeps_other_fields(m: JsonV, k: Seq<char>)
    requires
        m is Obj,
    ensures
        hidden(m).get_str("visibility"@) == Some("hide"@),
        k != "visibility"@ ==> hidden(m).get(k) == m.get(k),
        hidden(m).get_str("slug"@) == m.get_str("slug"@),
{
    reveal_strlit("visibility");
    reveal_strlit("slug");
    assert("visibility"@.len() > "slug"@.len());
}

/// No override hides a route, every listed model without a route is hidden,
/// and nothing else is; the slugs ascend.
pub proof fn overrides_spare_routes(bundled: Seq<JsonV>, route_keys: Seq<Seq<char>>)
    ensures
        ({
            let r = hide_entries(bundled, route_keys);
            &&& forall|i: int|
                0 <= i < r.len() ==> exists|p: int|
                    0 <= p < bundled.len() && is_overridden(#[trigger] bundled[p], route_keys)
                        && #[trigger] r[i] == hidden(bundled[p])
            &&& forall|p: int|
                0 <= p < bundled.len() && is_overridden(#[trigger] bundled[p], route_keys)
                    ==> r.contains(hidden(bundled[p]))
            &&& forall|i: int, j: int|
                0 <= i < j < r.len() ==> !less(
                    (#[trigger] r[j]).get_str("slug"@)->0,
                    (#[trigger] r[i]).get_str("slug"@)->0,
                )
        }),
{
    let n = bundled.len() as int;
    let picked = overridden(bundled, route_keys, n);
    let keys = slugs(picked);
    let order = ascending(keys, picked.len() as int);
    let r = hide_entries(bundled, route_keys);
    lemma_overridden(bundled, route_keys, n);
    ascending_is_sorted(keys, picked.len() as int);
    assert forall|i: int| 0 <= i < r.len() implies exists|p: int|
        0 <= p < bundled.len() && is_overridden(#[trigger] bundled[p], route_keys) && #[trigger] r[i]
            == hidden(bundled[p]) by {
        let m = picked[order[i]];
        assert(bundled.contains(m));
        let p = choose|p: int| 0 <= p < bundled.len() && bundled[p] == m;
        assert(is_overridden(bundled[p], route_keys));
    }
    assert forall|p: int|
        0 <= p < bundled.len() && is_overridden(#[trigger] bundled[p], route_keys) implies r.contains(
        hidden(bundled[p]),
    ) by {
        let k = choose|k: int| 0 <= k < picked.len() && picked[k] == bundled[p];
        assert(order.contains(k));
        let i = choose|i: int| 0 <= i < order.len() && order[i] == k;
        assert(r[i] == hidden(bundled[p]));
    }
    assert forall|i: int, j: int| 0 <= i < j < r.len() implies !less(
        (#[trigger] r[j]).get_str("slug"@)->0,
        (#[trigger] r[i]).get_str("slug"@)->0,
    ) by {
        let a = order[i];
        let b = order[j];
        assert(is_overridden(picked[a], route_keys) && is_overridden(picked[b], route_keys));
        hiding_keeps_other_fields(picked[a], "slug"@);
        hiding_keeps_other_fields(picked[b], "slug"@);
        assert(keys[a] == picked[a].get_str("slug"@)->0);
        assert(keys[b] == picked[b].get_str("slug"@)->0);
    }
}

} // verus!
