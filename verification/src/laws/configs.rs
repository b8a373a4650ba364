//! What a configuration says of its routes, read back from the document that
//! describes it.

use crate::config::{
    as_table, describes, document_fault, error_text, fielded, forbidden_name, is_effort,
    provider_at, provider_fault, provider_of, provider_prefix, providers_fault, quirk_on, quirks_of,
    route_at, route_of, route_result, routes_result, section, server_of, session_of, stands_before,
    validated, ConfigV, ErrorV, ProviderV, RouteV, ValidatedRouteV,
};
use crate::json::{JsonV, NumberV};
use crate::text::{find_from, lemma_find_from, lowered, starts_at};
use crate::upstream::{key_of, sent_body};
use vstd::prelude::*;

verus! {

/// Whether a list of texts stands in a field as an array of strings; none
/// stands there where there is no field.
pub open spec fn holds_texts(v: Option<JsonV>, l: Option<Seq<Seq<char>>>) -> bool {
    match (v, l) {
        (None, None) => true,
        (Some(JsonV::Arr(a)), Some(t)) => a.len() == t.len() && forall|i: int|
            0 <= i < a.len() ==> #[trigger] a[i] == JsonV::Str(t[i]),
        _ => false,
    }
}

/// Whether an optional text is the string in a field, and none where there is
/// no field.
pub open spec fn holds_text(v: Option<JsonV>, t: Option<Seq<char>>) -> bool {
    match (v, t) {
        (None, None) => true,
        (Some(JsonV::Str(s)), Some(x)) => s == x,
        _ => false,
    }
}

/// Whether a number is the one in a field, and the default where there is no
/// field.
pub open spec fn holds_number(v: Option<JsonV>, n: u64, default: u64) -> bool {
    match v {
        None => n == default,
        Some(x) => x == JsonV::Number(NumberV::Unsigned(n)),
    }
}

/// Whether a provider is the one that a table describes: each of its fields is
/// the field of that name.
pub open spec fn is_provider_in(o: JsonV, p: ProviderV) -> bool {
    &&& o.get("base_url"@) == Some(JsonV::Str(p.base_url))
    &&& o.get("format"@) == Some(JsonV::Str(p.format))
    &&& holds_text(o.get("api_key"@), p.api_key)
    &&& holds_text(o.get("api_key_env"@), p.api_key_env)
    &&& holds_text(o.get("api_key_file"@), p.api_key_file)
    &&& holds_number(o.get("timeout_ms"@), p.timeout_ms, 120_000)
    &&& o.get("extra_headers"@) == p.extra_headers
    &&& o.get("extra_params"@) == p.extra_params
    &&& holds_texts(o.get("drop_params"@), p.drop_params)
}

/// Whether a route is the one that a table describes.
pub open spec fn is_route_in(o: JsonV, r: RouteV) -> bool {
    &&& o.get("model"@) == Some(JsonV::Str(r.model))
    &&& holds_number(o.get("context_window"@), r.context_window, 1_048_576)
    &&& holds_text(o.get("default_reasoning_effort"@), r.effort)
    &&& holds_text(o.get("description"@), r.description)
}

/// A table that describes a provider gives each of its fields the field of that
/// name.
pub proof fn providers_are_read_by_name(o: JsonV)
    requires
        o is Obj,
        provider_of(o) is Some,
    ensures
        is_provider_in(o, provider_of(o)->0),
{
    let p = provider_of(o)->0;
    if let Some(d) = o.get("drop_params"@) {
        assert(p.drop_params is Some);
        let a = d->Arr_0;
        assert forall|i: int| 0 <= i < a.len() implies #[trigger] a[i] == JsonV::Str(
            p.drop_params->0[i],
        ) by {
            assert(a[i] is Str);
        }
    }
}

/// A table that describes a route gives each of its fields the field of that
/// name.
pub proof fn routes_are_read_by_name(o: JsonV)
    requires
        o is Obj,
        route_of(o) is Some,
    ensures
        is_route_in(o, route_of(o)->0),
{
}

/// Whether the names of fields differ from each other.
pub open spec fn distinct(names: Seq<Seq<char>>) -> bool {
    forall|i: int, j: int| 0 <= i < j < names.len() ==> #[trigger] names[i] != #[trigger] names[j]
}

proof fn lemma_fielded(names: Seq<Seq<char>>, values: Seq<JsonV>, n: int)
    requires
        0 <= n <= names.len(),
        n <= values.len(),
        distinct(names),
    ensures
        fielded(names, values, n) is Obj,
        forall|k: int|
            0 <= k < n ==> fielded(names, values, n).get(#[trigger] names[k]) == Some(values[k]),
        forall|k: int|
            n <= k < names.len() ==> fielded(names, values, n).get(#[trigger] names[k]) is None,
    decreases n,
{
    if n > 0 {
        lemma_fielded(names, values, n - 1);
    }
}

/// An array stands for a table: its values are the fields of those names, in
/// order, and a field that it does not reach is absent.
pub proof fn arrays_stand_for_tables(names: Seq<Seq<char>>, values: Seq<JsonV>, k: int)
    requires
        distinct(names),
        0 <= k < names.len(),
    ensures
        as_table(JsonV::Arr(values), names) is Obj,
        k < values.len() ==> as_table(JsonV::Arr(values), names).get(names[k]) == Some(values[k]),
        k >= values.len() ==> as_table(JsonV::Arr(values), names).get(names[k]) is None,
{
    lemma_fielded(
        names,
        values,
        if values.len() < names.len() {
            values.len() as int
        } else {
            names.len() as int
        },
    );
}

/// The `i`-th value of an array, where it has one.
pub open spec fn nth(values: Seq<JsonV>, i: int) -> Option<JsonV> {
    if 0 <= i < values.len() {
        Some(values[i])
    } else {
        None
    }
}

/// An array describes a provider by the order of its fields.
pub proof fn provider_arrays_are_read_in_order(values: Seq<JsonV>)
    requires
        provider_of(JsonV::Arr(values)) is Some,
    ensures
        ({
            let p = provider_of(JsonV::Arr(values))->0;
            &&& nth(values, 0) == Some(JsonV::Str(p.base_url))
            &&& holds_text(nth(values, 1), p.api_key)
            &&& holds_text(nth(values, 2), p.api_key_env)
            &&& holds_text(nth(values, 3), p.api_key_file)
            &&& nth(values, 4) == Some(JsonV::Str(p.format))
            &&& holds_number(nth(values, 5), p.timeout_ms, 120_000)
            &&& nth(values, 6) == p.extra_headers
            &&& nth(values, 7) == p.extra_params
            &&& holds_texts(nth(values, 8), p.drop_params)
        }),
{
    reveal_strlit("base_url");
    reveal_strlit("api_key");
    reveal_strlit("api_key_env");
    reveal_strlit("api_key_file");
    reveal_strlit("format");
    reveal_strlit("timeout_ms");
    reveal_strlit("extra_headers");
    reveal_strlit("extra_params");
    reveal_strlit("drop_params");
    assert("base_url"@.len() == 8);
    assert("api_key"@.len() == 7);
    assert("api_key_env"@.len() == 11);
    assert("api_key_file"@.len() == 12);
    assert("format"@.len() == 6);
    assert("timeout_ms"@.len() == 10);
    assert("extra_headers"@.len() == 13);
    assert("extra_params"@.len() == 12);
    assert("drop_params"@.len() == 11);
    assert("api_key_env"@[0] != "drop_params"@[0]);
    assert("api_key_file"@[0] != "extra_params"@[0]);
    let names = crate::config::provider_fields();
    assert(distinct(names));
    let o = as_table(JsonV::Arr(values), names);
    arrays_stand_for_tables(names, values, 0);
    arrays_stand_for_tables(names, values, 1);
    arrays_stand_for_tables(names, values, 2);
    arrays_stand_for_tables(names, values, 3);
    arrays_stand_for_tables(names, values, 4);
    arrays_stand_for_tables(names, values, 5);
    arrays_stand_for_tables(names, values, 6);
    arrays_stand_for_tables(names, values, 7);
    arrays_stand_for_tables(names, values, 8);
    assert(as_table(o, names) == o);
    providers_are_read_by_name(o);
}

/// An array describes a route by the order of its fields.
pub proof fn route_arrays_are_read_in_order(values: Seq<JsonV>)
    requires
        route_of(JsonV::Arr(values)) is Some,
    ensures
        ({
            let r = route_of(JsonV::Arr(values))->0;
            &&& nth(values, 0) == Some(JsonV::Str(r.model))
            &&& holds_number(nth(values, 1), r.context_window, 1_048_576)
            &&& holds_text(nth(values, 2), r.effort)
            &&& holds_text(nth(values, 3), r.description)
        }),
{
    reveal_strlit("model");
    reveal_strlit("context_window");
    reveal_strlit("default_reasoning_effort");
    reveal_strlit("description");
    assert("model"@.len() == 5);
    assert("context_window"@.len() == 14);
    assert("default_reasoning_effort"@.len() == 24);
    assert("description"@.len() == 11);
    let names = crate::config::route_fields();
    assert(distinct(names));
    arrays_stand_for_tables(names, values, 0);
    arrays_stand_for_tables(names, values, 1);
    arrays_stand_for_tables(names, values, 2);
    arrays_stand_for_tables(names, values, 3);
    routes_are_read_by_name(as_table(JsonV::Arr(values), names));
}

/// Whether a document gives a configuration its server address: each field of
/// the section that is there, and the default of each that is not.
pub open spec fn is_server_in(o: JsonV, host: Seq<char>, port: u16) -> bool {
    &&& match o.get("host"@) {
        None => host == "127.0.0.1"@,
        Some(v) => v == JsonV::Str(host),
    }
    &&& holds_number(o.get("port"@), port as u64, 8787)
}

/// The sections of a document that are tables, or absent, are read by the names
/// of their fields; what they leave out has its default.
pub proof fn sections_are_read_by_name(doc: JsonV, c: ConfigV)
    requires
        describes(doc, c),
    ensures
        !(doc.at("server"@) is Arr) ==> is_server_in(doc.at("server"@), c.host, c.port),
        !(doc.at("session"@) is Arr) ==> ({
            let o = doc.at("session"@);
            &&& holds_number(o.get("ttl_hours"@), c.session.ttl_hours, 168)
            &&& holds_number(o.get("max_sessions"@), c.session.max_sessions as u64, 256)
            &&& holds_number(o.get("max_memory_mb"@), c.session.max_memory_mb as u64, 512)
        }),
        !(doc.at("quirks"@) is Arr) ==> match doc.at("quirks"@).get("disabled"@) {
            None => c.disabled.len() == 0,
            Some(v) => holds_texts(Some(v), Some(c.disabled)),
        },
{
    if let Some(d) = doc.at("quirks"@).get("disabled"@) {
        let a = d->Arr_0;
        if !(doc.at("quirks"@) is Arr) {
            assert forall|i: int| 0 <= i < a.len() implies #[trigger] a[i] == JsonV::Str(
                c.disabled[i],
            ) by {
                assert(a[i] is Str);
            }
        }
    }
}

/// Sections that are arrays are read by the order of their fields.
pub proof fn section_arrays_are_read_in_order(doc: JsonV, c: ConfigV, values: Seq<JsonV>)
    requires
        describes(doc, c),
    ensures
        doc.get("server"@) == Some(JsonV::Arr(values)) ==> holds_number(
            nth(values, 1),
            c.port as u64,
            8787,
        ) && match nth(values, 0) {
            None => c.host == "127.0.0.1"@,
            Some(v) => v == JsonV::Str(c.host),
        },
        doc.get("session"@) == Some(JsonV::Arr(values)) ==> holds_number(
            nth(values, 0),
            c.session.ttl_hours,
            168,
        ) && holds_number(nth(values, 1), c.session.max_sessions as u64, 256) && holds_number(
            nth(values, 2),
            c.session.max_memory_mb as u64,
            512,
        ),
        doc.get("quirks"@) == Some(JsonV::Arr(values)) ==> match nth(values, 0) {
            None => c.disabled.len() == 0,
            Some(v) => holds_texts(Some(v), Some(c.disabled)),
        },
{
    reveal_strlit("host");
    reveal_strlit("port");
    reveal_strlit("ttl_hours");
    reveal_strlit("max_sessions");
    reveal_strlit("max_memory_mb");
    reveal_strlit("disabled");
    assert("host"@.len() == 4);
    assert("port"@.len() == 4);
    assert("ttl_hours"@.len() == 9);
    assert("max_sessions"@.len() == 12);
    assert("max_memory_mb"@.len() == 13);
    assert("disabled"@.len() == 8);
    assert("host"@[0] != "port"@[0]);
    let server = crate::config::server_fields();
    let session = crate::config::session_fields();
    let quirks = crate::config::quirks_fields();
    assert(distinct(server) && distinct(session) && distinct(quirks));
    arrays_stand_for_tables(server, values, 0);
    arrays_stand_for_tables(server, values, 1);
    arrays_stand_for_tables(session, values, 0);
    arrays_stand_for_tables(session, values, 1);
    arrays_stand_for_tables(session, values, 2);
    arrays_stand_for_tables(quirks, values, 0);
    if doc.get("quirks"@) == Some(JsonV::Arr(values)) && values.len() > 0 {
        let a = values[0]->Arr_0;
        assert forall|i: int| 0 <= i < a.len() implies #[trigger] a[i] == JsonV::Str(
            c.disabled[i],
        ) by {
            assert(a[i] is Str);
        }
    }
}

proof fn lemma_provider_at(providers: Seq<(Seq<char>, ProviderV)>, name: Seq<char>, i: int)
    requires
        0 <= i,
    ensures
        match provider_at(providers, name, i) {
            Some(p) => i <= p < providers.len() && providers[p].0 == name,
            None => forall|k: int| i <= k < providers.len() ==> (#[trigger] providers[k]).0 != name,
        },
    decreases providers.len() - i,
{
    if i < providers.len() && providers[i].0 != name {
        lemma_provider_at(providers, name, i + 1);
    }
}

/// Whether a route key consists of a provider's name, a slash and an alias; the
/// first slash is the one that counts.
pub open spec fn names_provider(key: Seq<char>, name: Seq<char>) -> bool {
    &&& name.len() < key.len()
    &&& key.take(name.len() as int) == name
    &&& key[name.len() as int] == '/'
    &&& !name.contains('/')
}

proof fn lemma_prefix(key: Seq<char>)
    ensures
        match provider_prefix(key) {
            Some(name) => names_provider(key, name),
            None => !key.contains('/'),
        },
{
    reveal_strlit("/");
    lemma_find_from(key, 0, "/"@);
    let slash = "/"@;
    match find_from(key, 0, slash) {
        Some(at) => {
            assert(key.subrange(at, at + 1)[0] == slash[0]);
            let name = key.take(at);
            if name.contains('/') {
                let k = choose|k: int| 0 <= k < name.len() && name[k] == '/';
                assert(key.subrange(k, k + 1) =~= slash);
                assert(starts_at(key, k, slash));
            }
        },
        None => {
            if key.contains('/') {
                let k = choose|k: int| 0 <= k < key.len() && key[k] == '/';
                assert(key.subrange(k, k + 1) =~= slash);
                assert(starts_at(key, k, slash));
            }
        },
    }
}

proof fn lemma_route_at_position(c: ConfigV, i: int, j: int)
    requires
        0 <= i <= j < c.routes.len(),
        routes_result(c, i) is Ok,
    ensures
        routes_result(c, i)->Ok_0.len() == c.routes.len() - i,
        routes_result(c, i)->Ok_0[j - i].0 == c.routes[j].0,
        route_result(c, j) == Ok::<ValidatedRouteV, ErrorV>(routes_result(c, i)->Ok_0[j - i].1),
    decreases c.routes.len() - i,
{
    lemma_routes_len(c, i);
    if i < j {
        lemma_route_at_position(c, i + 1, j);
    }
}

proof fn lemma_routes_len(c: ConfigV, i: int)
    requires
        0 <= i <= c.routes.len(),
        routes_result(c, i) is Ok,
    ensures
        routes_result(c, i)->Ok_0.len() == c.routes.len() - i,
    decreases c.routes.len() - i,
{
    if i < c.routes.len() {
        lemma_routes_len(c, i + 1);
    }
}

/// The provider of a validated route is the one that its key names: whatever
/// the document says under that name, the provider has, field by field; and the
/// route has what the document says under its key.
pub proof fn routes_reach_the_provider_of_their_key(doc: JsonV, c: ConfigV, i: int)
    requires
        describes(doc, c),
        validated(c) is Ok,
        0 <= i < validated(c)->Ok_0.routes.len(),
    ensures
        ({
            let (key, r) = validated(c)->Ok_0.routes[i];
            let p = doc.at("providers"@).at(r.provider_name);
            let o = doc.at("routes"@).at(key);
            &&& names_provider(key, r.provider_name)
            &&& doc.at("providers"@).get(r.provider_name) is Some
            &&& doc.at("routes"@).get(key) is Some
            &&& p is Obj ==> is_provider_in(p, r.provider)
            &&& o is Obj ==> is_route_in(o, r.route)
            &&& p is Obj || p is Arr
            &&& o is Obj || o is Arr
        }),
{
    let (key, r) = validated(c)->Ok_0.routes[i];
    lemma_routes_len(c, 0);
    lemma_route_at_position(c, 0, i);
    lemma_prefix(key);
    lemma_provider_at(c.providers, r.provider_name, 0);
    let p = provider_at(c.providers, r.provider_name, 0)->0;
    let providers = section(doc, "providers"@);
    let routes = section(doc, "routes"@);
    assert(providers.get(c.providers[p].0) is Some);
    assert(provider_of(providers.at(c.providers[p].0)) == Some(c.providers[p].1));
    assert(routes.get(c.routes[i].0) is Some);
    assert(route_of(routes.at(c.routes[i].0)) == Some(c.routes[i].1));
    let o = doc.at("providers"@).at(r.provider_name);
    if o is Obj {
        providers_are_read_by_name(o);
    }
    let q = doc.at("routes"@).at(key);
    if q is Obj {
        routes_are_read_by_name(q);
    }
}

/// A document describes a route for each of its route keys, and no other: a
/// validated configuration has them all, and the rest of it is what was read.
pub proof fn validated_configurations_keep_everything(doc: JsonV, c: ConfigV, key: Seq<char>)
    requires
        describes(doc, c),
        validated(c) is Ok,
    ensures
        ({
            let v = validated(c)->Ok_0;
            &&& v.host == c.host && v.port == c.port && v.session == c.session
            &&& v.disabled == c.disabled && v.providers == c.providers
            &&& doc.at("routes"@).get(key) is Some <==> exists|i: int|
                0 <= i < v.routes.len() && (#[trigger] v.routes[i]).0 == key
        }),
{
    let v = validated(c)->Ok_0;
    let routes = section(doc, "routes"@);
    lemma_routes_len(c, 0);
    if doc.at("routes"@).get(key) is Some {
        assert(routes.get(key) is Some);
        let i = choose|i: int| 0 <= i < c.routes.len() && (#[trigger] c.routes[i]).0 == key;
        lemma_route_at_position(c, 0, i);
        assert(v.routes[i].0 == key);
    }
    if exists|i: int| 0 <= i < v.routes.len() && (#[trigger] v.routes[i]).0 == key {
        let i = choose|i: int| 0 <= i < v.routes.len() && (#[trigger] v.routes[i]).0 == key;
        lemma_route_at_position(c, 0, i);
        assert(routes.get(c.routes[i].0) is Some);
    }
}

/// Looking a route up by its key finds the route of that key, and none where no
/// route has it.
pub proof fn routes_are_found_by_their_key(
    routes: Seq<(Seq<char>, ValidatedRouteV)>,
    key: Seq<char>,
)
    ensures
        match route_at(routes, key, 0) {
            Some(i) => 0 <= i < routes.len() && routes[i].0 == key,
            None => forall|i: int| 0 <= i < routes.len() ==> (#[trigger] routes[i]).0 != key,
        },
{
    lemma_route_at(routes, key, 0);
}

proof fn lemma_route_at(routes: Seq<(Seq<char>, ValidatedRouteV)>, key: Seq<char>, k: int)
    requires
        0 <= k,
    ensures
        match route_at(routes, key, k) {
            Some(i) => k <= i < routes.len() && routes[i].0 == key,
            None => forall|i: int| k <= i < routes.len() ==> (#[trigger] routes[i]).0 != key,
        },
    decreases routes.len() - k,
{
    if k < routes.len() && routes[k].0 != key {
        lemma_route_at(routes, key, k + 1);
    }
}

/// Whether a key is one that a provider may neither add nor drop.
pub open spec fn is_off_limits(k: Seq<char>) -> bool {
    k == Seq::<char>::empty() || k == "model"@ || k == "messages"@ || k == "tools"@ || k
        == "stream"@
}

/// Whether a provider leaves alone what the router manages.
pub open spec fn spares_managed(p: ProviderV) -> bool {
    forall|k: Seq<char>| #[trigger]
        is_off_limits(k) ==> (p.extra_params matches Some(e) ==> e.get(k) is None) && (
        p.drop_params matches Some(d) ==> !d.contains(k))
}

/// Whether a route can be served: its key names a provider of the
/// configuration, by the first provider of that name, that speaks one of the two
/// formats and has a key source; and its effort is one that Codex knows.
pub open spec fn can_serve(c: ConfigV, key: Seq<char>, route: RouteV) -> bool {
    &&& key.contains('/')
    &&& exists|p: int|
        0 <= p < c.providers.len() && names_provider(key, (#[trigger] c.providers[p]).0) && (
        forall|q: int| 0 <= q < p ==> (#[trigger] c.providers[q]).0 != c.providers[p].0) && (
        c.providers[p].1.format == "chat"@ || c.providers[p].1.format == "responses"@) && (
        c.providers[p].1.api_key is Some || c.providers[p].1.api_key_env is Some
            || c.providers[p].1.api_key_file is Some)
    &&& route.effort matches Some(e) ==> (e == "none"@ || e == "minimal"@ || e == "low"@ || e
        == "medium"@ || e == "high"@ || e == "xhigh"@ || e == "max"@ || e == "ultra"@)
}

proof fn lemma_first_provider(providers: Seq<(Seq<char>, ProviderV)>, name: Seq<char>, i: int)
    requires
        0 <= i,
        provider_at(providers, name, i) is Some,
    ensures
        forall|k: int|
            i <= k < provider_at(providers, name, i)->0 ==> (#[trigger] providers[k]).0 != name,
    decreases providers.len() - i,
{
    if i < providers.len() && providers[i].0 != name {
        lemma_first_provider(providers, name, i + 1);
    }
}

proof fn lemma_forbidden_name(names: Seq<Seq<char>>, i: int)
    requires
        0 <= i,
    ensures
        match forbidden_name(names, i) {
            Some(k) => is_off_limits(k) && names.contains(k),
            None => forall|j: int| i <= j < names.len() ==> !is_off_limits(#[trigger] names[j]),
        },
    decreases names.len() - i,
{
    if i < names.len() {
        assert(names[i].len() == 0 ==> names[i] =~= Seq::<char>::empty());
        assert(names.contains(names[i]));
        lemma_forbidden_name(names, i + 1);
    }
}

proof fn lemma_provider_spares(name: Seq<char>, p: ProviderV)
    ensures
        provider_fault(name, p) is None <==> spares_managed(p),
        provider_fault(name, p) matches Some(e) ==> blames_params(e, name, p),
{
    if let Some(d) = p.drop_params {
        lemma_forbidden_name(d, 0);
        assert(forall|k: Seq<char>|
            is_off_limits(k) && d.contains(k) ==> exists|j: int|
                0 <= j < d.len() && is_off_limits(#[trigger] d[j]));
    }
    assert(is_off_limits(Seq::<char>::empty()));
    assert(is_off_limits("model"@));
    assert(is_off_limits("messages"@));
    assert(is_off_limits("tools"@));
    assert(is_off_limits("stream"@));
    if provider_fault(name, p) is None {
        assert(spares_managed(p));
    }
}

/// Whether a fault blames a parameter that a provider must not have, in the list
/// that has it.
pub open spec fn blames_params(e: ErrorV, name: Seq<char>, p: ProviderV) -> bool {
    e matches ErrorV::ManagedParamViolation { provider, field, key } && provider == name
        && is_off_limits(key) && (field == "extra_params"@ && (p.extra_params matches Some(x)
        && x.get(key) is Some) || field == "drop_params"@ && (p.drop_params matches Some(d)
        && d.contains(key)))
}

proof fn lemma_providers_fault(providers: Seq<(Seq<char>, ProviderV)>, i: int)
    requires
        0 <= i,
    ensures
        match providers_fault(providers, i) {
            Some(e) => exists|k: int|
                0 <= k < providers.len() && blames_params(
                    e,
                    (#[trigger] providers[k]).0,
                    providers[k].1,
                ),
            None => forall|k: int|
                i <= k < providers.len() ==> spares_managed((#[trigger] providers[k]).1),
        },
    decreases providers.len() - i,
{
    if i < providers.len() {
        lemma_provider_spares(providers[i].0, providers[i].1);
        lemma_providers_fault(providers, i + 1);
    }
}

proof fn lemma_can_serve(c: ConfigV, i: int)
    requires
        0 <= i < c.routes.len(),
    ensures
        route_result(c, i) is Ok <==> can_serve(c, c.routes[i].0, c.routes[i].1) && forall|j: int|
            0 <= j < i ==> (#[trigger] c.routes[j]).0 != c.routes[i].0,
{
    let (key, route) = c.routes[i];
    lemma_prefix(key);
    match provider_prefix(key) {
        Some(name) => {
            lemma_provider_at(c.providers, name, 0);
            assert(key[name.len() as int] == '/');
            match provider_at(c.providers, name, 0) {
                Some(p) => {
                    lemma_first_provider(c.providers, name, 0);
                    assert(names_provider(key, c.providers[p].0));
                    assert forall|q: int|
                        0 <= q < c.providers.len() && names_provider(
                            key,
                            (#[trigger] c.providers[q]).0,
                        ) implies c.providers[q].0 == name by {
                        lemma_one_prefix(key, name, c.providers[q].0);
                    }
                },
                None => {
                    assert forall|q: int| 0 <= q < c.providers.len() implies !names_provider(
                        key,
                        (#[trigger] c.providers[q]).0,
                    ) by {
                        if names_provider(key, c.providers[q].0) {
                            lemma_one_prefix(key, name, c.providers[q].0);
                        }
                    }
                },
            }
            assert(stands_before(c.routes, key, i) <==> exists|j: int|
                0 <= j < i && (#[trigger] c.routes[j]).0 == key);
        },
        None => {},
    }
}

proof fn lemma_one_prefix(key: Seq<char>, a: Seq<char>, b: Seq<char>)
    requires
        names_provider(key, a),
        names_provider(key, b),
    ensures
        a == b,
{
    if a.len() < b.len() {
        assert(b[a.len() as int] == '/');
        assert(b.contains('/'));
    } else if b.len() < a.len() {
        assert(a[b.len() as int] == '/');
        assert(a.contains('/'));
    }
}

proof fn lemma_routes_ok(c: ConfigV, i: int)
    requires
        0 <= i <= c.routes.len(),
    ensures
        routes_result(c, i) is Ok <==> forall|k: int|
            i <= k < c.routes.len() ==> route_result(c, k) is Ok,
        routes_result(c, i) is Err ==> exists|k: int|
            i <= k < c.routes.len() && #[trigger] route_result(c, k) is Err && route_result(
                c,
                k,
            )->Err_0 == routes_result(c, i)->Err_0,
    decreases c.routes.len() - i,
{
    if i < c.routes.len() {
        lemma_routes_ok(c, i + 1);
        if routes_result(c, i) is Ok {
            assert forall|k: int| i <= k < c.routes.len() implies route_result(c, k) is Ok by {}
        } else if route_result(c, i) is Err {
            assert(route_result(c, i)->Err_0 == routes_result(c, i)->Err_0);
        }
    }
}

/// A configuration is valid exactly where its providers spare what the router
/// manages, every route can be served, and no route key stands twice.
pub proof fn valid_means_every_route_can_be_served(c: ConfigV)
    ensures
        validated(c) is Ok <==> (forall|k: int|
            0 <= k < c.providers.len() ==> spares_managed((#[trigger] c.providers[k]).1)) && (
        forall|i: int|
            0 <= i < c.routes.len() ==> can_serve(
                c,
                (#[trigger] c.routes[i]).0,
                c.routes[i].1,
            )) && (forall|i: int, j: int|
            0 <= i < j < c.routes.len() ==> (#[trigger] c.routes[i]).0 != (
            #[trigger] c.routes[j]).0),
{
    lemma_providers_fault(c.providers, 0);
    lemma_routes_ok(c, 0);
    assert forall|i: int| 0 <= i < c.routes.len() implies (#[trigger] route_result(c, i) is Ok
        <==> can_serve(c, c.routes[i].0, c.routes[i].1) && forall|j: int|
        0 <= j < i ==> (#[trigger] c.routes[j]).0 != c.routes[i].0) by {
        lemma_can_serve(c, i);
    }
    if exists|k: int|
        0 <= k < c.providers.len() && !spares_managed((#[trigger] c.providers[k]).1) {
        let k = choose|k: int|
            0 <= k < c.providers.len() && !spares_managed((#[trigger] c.providers[k]).1);
        assert(providers_fault(c.providers, 0) is Some);
    } else if providers_fault(c.providers, 0) is Some {
        let e = providers_fault(c.providers, 0)->0;
        let k = choose|k: int|
            0 <= k < c.providers.len() && blames_params(
                e,
                (#[trigger] c.providers[k]).0,
                c.providers[k].1,
            );
        assert(spares_managed(c.providers[k].1));
        assert(false);
    }
    if forall|i: int| 0 <= i < c.routes.len() ==> route_result(c, i) is Ok {
        assert forall|i: int| 0 <= i < c.routes.len() implies can_serve(
            c,
            (#[trigger] c.routes[i]).0,
            c.routes[i].1,
        ) by {
            assert(route_result(c, i) is Ok);
        }
        assert forall|i: int, j: int| 0 <= i < j < c.routes.len() implies (
        #[trigger] c.routes[i]).0 != (#[trigger] c.routes[j]).0 by {
            assert(route_result(c, j) is Ok);
        }
    }
}

/// Whether a fault is there: what it blames is wrong in the configuration.
pub open spec fn is_fault_of(e: ErrorV, c: ConfigV) -> bool {
    match e {
        ErrorV::MissingSlash(key) => !key.contains('/') && has_route(c, key),
        ErrorV::UnknownProvider { key, provider, available } => has_route(c, key)
            && names_provider(key, provider) && forall|p: int|
            0 <= p < c.providers.len() ==> (#[trigger] c.providers[p]).0 != provider,
        ErrorV::DuplicateRoute(key) => exists|i: int, j: int|
            0 <= i < j < c.routes.len() && (#[trigger] c.routes[i]).0 == key && (
            #[trigger] c.routes[j]).0 == key,
        ErrorV::MissingApiKey(name) => exists|p: int|
            0 <= p < c.providers.len() && (#[trigger] c.providers[p]).0 == name
                && c.providers[p].1.api_key is None && c.providers[p].1.api_key_env is None
                && c.providers[p].1.api_key_file is None,
        ErrorV::InvalidFormat(name, format) => format != "chat"@ && format != "responses"@
            && exists|p: int|
            0 <= p < c.providers.len() && (#[trigger] c.providers[p]).0 == name
                && c.providers[p].1.format == format,
        ErrorV::ManagedParamViolation { provider, field, key } => exists|p: int|
            0 <= p < c.providers.len() && blames_params(
                e,
                (#[trigger] c.providers[p]).0,
                c.providers[p].1,
            ),
        ErrorV::InvalidReasoningEffort { key, effort } => !is_effort(effort) && exists|i: int|
            0 <= i < c.routes.len() && (#[trigger] c.routes[i]).0 == key && c.routes[i].1.effort
                == Some(effort),
        ErrorV::Parse(_) => false,
    }
}

/// Whether a configuration has a route of that key.
pub open spec fn has_route(c: ConfigV, key: Seq<char>) -> bool {
    exists|i: int| 0 <= i < c.routes.len() && (#[trigger] c.routes[i]).0 == key
}

/// The fault that an invalid configuration is rejected for is one that it has.
pub proof fn rejections_name_a_real_fault(c: ConfigV)
    requires
        validated(c) is Err,
    ensures
        is_fault_of(validated(c)->Err_0, c),
{
    lemma_providers_fault(c.providers, 0);
    if providers_fault(c.providers, 0) is None {
        lemma_routes_ok(c, 0);
        let e = routes_result(c, 0)->Err_0;
        let k = choose|k: int|
            0 <= k < c.routes.len() && #[trigger] route_result(c, k) is Err && route_result(
                c,
                k,
            )->Err_0 == e;
        let (key, route) = c.routes[k];
        assert(has_route(c, key));
        lemma_prefix(key);
        if let Some(name) = provider_prefix(key) {
            lemma_provider_at(c.providers, name, 0);
        }
    } else {
        let e = providers_fault(c.providers, 0)->0;
        let k = choose|k: int|
            0 <= k < c.providers.len() && blames_params(
                e,
                (#[trigger] c.providers[k]).0,
                c.providers[k].1,
            );
        assert(e is ManagedParamViolation);
    }
}

/// A quirk is off exactly where its name is listed as disabled, in any case.
pub proof fn quirks_are_off_where_listed(disabled: Seq<Seq<char>>, name: Seq<char>)
    ensures
        disabled.contains(name) ==> !quirk_on(disabled, name),
        disabled.len() == 0 ==> quirk_on(disabled, name),
        !quirk_on(disabled, name) <==> exists|i: int|
            0 <= i < disabled.len() && lowered(#[trigger] disabled[i]) == lowered(name),
{
    if disabled.contains(name) {
        let i = choose|i: int| 0 <= i < disabled.len() && disabled[i] == name;
        assert(lowered(disabled[i]) == lowered(name));
    }
}

/// A provider's own key goes before the one of its environment variable, which
/// goes before the one of its file; a source that it does not name is not used.
pub proof fn keys_come_from_the_first_source(
    p: ProviderV,
    env: Option<Seq<char>>,
    file: Option<Seq<char>>,
)
    ensures
        p.api_key is Some ==> key_of(p, env, file) == p.api_key,
        p.api_key is None && p.api_key_env is Some && env is Some ==> key_of(p, env, file) == env,
        p.api_key is None && (p.api_key_env is None || env is None) && p.api_key_file is Some
            && file is Some ==> key_of(p, env, file) == Some(crate::text::trimmed(file->0)),
        p.api_key is None && (p.api_key_env is None || env is None) && (p.api_key_file is None
            || file is None) ==> key_of(p, env, file) is None,
{
}

/// What a provider gets is the body with its additions set over it and its
/// exclusions taken out; every other field is the body's.
pub proof fn bodies_keep_what_no_parameter_touches(p: ProviderV, body: JsonV, k: Seq<char>)
    requires
        body is Obj,
    ensures
        (p.drop_params matches Some(d) && d.contains(k)) ==> sent_body(p, body).get(k) is None,
        !(p.drop_params matches Some(d) && d.contains(k)) ==> sent_body(p, body).get(k) == (
        match p.extra_params {
            Some(e) => if e.get(k) is Some {
                e.get(k)
            } else {
                body.get(k)
            },
            None => body.get(k),
        }),
{
    if let Some(d) = p.drop_params {
        assert(d.to_set().contains(k) == d.contains(k));
    }
}

/// The message of a fault quotes what it blames.
pub proof fn messages_quote_what_they_blame(a: Seq<char>, b: Seq<char>, x: Seq<char>)
    ensures
        error_text(ErrorV::MissingSlash(a)) == "route key '"@ + a
            + "' must contain '/' (format: provider/alias)"@,
        error_text(ErrorV::UnknownProvider { key: a, provider: b, available: x })
            == "route key '"@ + a + "': provider '"@ + b
            + "' not found in [providers] (available: "@ + x + ")"@,
        error_text(ErrorV::DuplicateRoute(a)) == "duplicate route key '"@ + a + "'"@,
        error_text(ErrorV::MissingApiKey(a)) == "provider '"@ + a
            + "' has no API key (set api_key, api_key_env, or api_key_file)"@,
        error_text(ErrorV::InvalidFormat(a, b)) == "provider '"@ + a
            + "': format must be 'chat' or 'responses', got '"@ + b + "'"@,
        error_text(ErrorV::ManagedParamViolation { provider: a, field: b, key: x })
            == "provider '"@ + a + "': "@ + b + " key '"@ + x
            + "' must not be empty or name a router-managed field (model|messages|tools|stream)"@,
        error_text(ErrorV::InvalidReasoningEffort { key: a, effort: b }) == "route '"@ + a
            + "': default_reasoning_effort must be one of none|minimal|low|medium|high|xhigh|max|ultra, got '"@
            + b + "'"@,
        error_text(ErrorV::Parse(a)) == a,
{
}

/// Whether a field is absent or a string.
pub open spec fn may_be_text(o: JsonV, k: Seq<char>) -> bool {
    o.get(k) is None || o.at(k) is Str
}

/// Whether a field is absent or an integer from zero to `max`.
pub open spec fn may_be_number(o: JsonV, k: Seq<char>, max: u64) -> bool {
    o.get(k) is None || (o.at(k).as_u64() matches Some(n) && n <= max)
}

/// Whether a field is absent or a list of strings.
pub open spec fn may_be_texts(o: JsonV, k: Seq<char>) -> bool {
    o.get(k) is None || (o.at(k) matches JsonV::Arr(a) && forall|i: int|
        0 <= i < a.len() ==> (#[trigger] a[i]) is Str)
}

/// A table describes a provider exactly where it has an address and a format,
/// and whatever else it has is of its kind; fields that are not known do not
/// matter.
pub proof fn tables_describe_providers(o: JsonV)
    requires
        o is Obj,
    ensures
        provider_of(o) is Some <==> o.get_str("base_url"@) is Some && o.get_str("format"@) is Some
            && may_be_text(o, "api_key"@) && may_be_text(o, "api_key_env"@) && may_be_text(
            o,
            "api_key_file"@,
        ) && may_be_number(o, "timeout_ms"@, u64::MAX) && (o.get("extra_headers"@) is None || (
        o.at("extra_headers"@) matches JsonV::Obj(m) && forall|k: Seq<char>| #[trigger]
            m.dom().contains(k) ==> m[k] is Str)) && (o.get("extra_params"@) is None || o.at(
            "extra_params"@,
        ) is Obj) && may_be_texts(o, "drop_params"@),
{
}

/// A table describes a route exactly where it has a model, and whatever else it
/// has is of its kind.
pub proof fn tables_describe_routes(o: JsonV)
    requires
        o is Obj,
    ensures
        route_of(o) is Some <==> o.get_str("model"@) is Some && may_be_number(
            o,
            "context_window"@,
            u64::MAX,
        ) && may_be_text(o, "default_reasoning_effort"@) && may_be_text(o, "description"@),
{
}

/// The other sections describe their part exactly where whatever they have is of
/// its kind; a port fits sixteen bits.
pub proof fn tables_describe_the_other_sections(o: JsonV)
    requires
        o is Obj,
    ensures
        server_of(o) is Some <==> may_be_text(o, "host"@) && may_be_number(o, "port"@, 65535),
        session_of(o) is Some <==> may_be_number(o, "ttl_hours"@, u64::MAX) && may_be_number(
            o,
            "max_sessions"@,
            usize::MAX as u64,
        ) && may_be_number(o, "max_memory_mb"@, usize::MAX as u64),
        quirks_of(o) is Some <==> may_be_texts(o, "disabled"@),
{
    if let Some(d) = o.get("disabled"@) {
        if let JsonV::Arr(a) = d {
            assert(crate::config::all_strs(a) <==> forall|i: int|
                0 <= i < a.len() ==> (#[trigger] a[i]) is Str);
        }
    }
}

/// A document is a configuration exactly where each of its sections is absent or
/// describes its part; an empty document is one.
pub proof fn documents_are_read_section_by_section(doc: JsonV)
    ensures
        document_fault(doc) is None <==> server_of(or_empty(doc, "server"@)) is Some && session_of(
            or_empty(doc, "session"@),
        ) is Some && quirks_of(or_empty(doc, "quirks"@)) is Some && (or_empty(
            doc,
            "providers"@,
        ) matches JsonV::Obj(m) && forall|k: Seq<char>| #[trigger]
            m.dom().contains(k) ==> provider_of(m[k]) is Some) && (or_empty(
            doc,
            "routes"@,
        ) matches JsonV::Obj(m) && forall|k: Seq<char>| #[trigger]
            m.dom().contains(k) ==> route_of(m[k]) is Some),
        document_fault(JsonV::Obj(Map::empty())) is None,
{
    let none = JsonV::Obj(Map::empty());
    tables_describe_the_other_sections(none);
    assert(section(none, "server"@) == none);
    assert(section(none, "session"@) == none);
    assert(section(none, "quirks"@) == none);
}

/// A section of a document, and an empty table where there is none.
pub open spec fn or_empty(doc: JsonV, k: Seq<char>) -> JsonV {
    if doc.get(k) is None {
        JsonV::Obj(Map::empty())
    } else {
        doc.at(k)
    }
}

/// The fault of a document names the section that is at fault.
pub proof fn document_faults_name_their_section(doc: JsonV)
    ensures
        document_fault(doc) == Some("invalid [server] section"@) ==> server_of(
            or_empty(doc, "server"@),
        ) is None,
        server_of(or_empty(doc, "server"@)) is None ==> document_fault(doc) == Some(
            "invalid [server] section"@,
        ),
        server_of(or_empty(doc, "server"@)) is Some && document_fault(doc) is Some && session_of(
            or_empty(doc, "session"@),
        ) is Some && quirks_of(or_empty(doc, "quirks"@)) is Some ==> document_fault(doc) == Some(
            "invalid [providers] section"@,
        ) || document_fault(doc) == Some("invalid [routes] section"@),
{
    reveal_strlit("invalid [server] section");
    reveal_strlit("invalid [providers] section");
    reveal_strlit("invalid [routes] section");
    reveal_strlit("invalid [session] section");
    reveal_strlit("invalid [quirks] section");
    assert("invalid [server] section"@.len() == 24);
    assert("invalid [providers] section"@.len() == 27);
    assert("invalid [routes] section"@.len() == 24);
    assert("invalid [session] section"@.len() == 25);
    assert("invalid [quirks] section"@.len() == 24);
    assert("invalid [server] section"@[9] != "invalid [routes] section"@[9]);
    assert("invalid [server] section"@[9] != "invalid [quirks] section"@[9]);
    assert("invalid [routes] section"@[9] != "invalid [quirks] section"@[9]);
}

} // verus!
