//! What the doctor says: which state of an installation each check passes and
//! which it fails.

use crate::config::ValidatedV;
use crate::doctor::{
    age, answer_shape, base_of, codex_providers, common_checks, covers, document_in, entry_fault,
    entry_faults, has_auth_command, has_fail, lacking, line_of, list_shape, matches_router,
    missing_fields, missing_set, mode_in, mode_keyed, mode_name, offence, offences, offline_report,
    orphan_set, pin_file_path, pin_models, pin_read, pin_shadow, pin_shape, pinned_file,
    pointing_set, reachable, recorded, reports, required_fields, selected_provider, slug_label,
    status_of, tag_of, wiring, wiring_report, CheckStatus, CheckV, EnvV,
};
use crate::json::{json_read, toml_parse, JsonV};
use crate::laws::reading::versions_are_read_once;
use crate::mode::{mode_of, Mode};
use crate::order::{finite_sets_are_listed, listing, listing_of_nothing};
use crate::text::decimal;
use crate::version::{version_in_opt, DoctorState};
use crate::wire::chat::opt_str;
use vstd::prelude::*;

verus! {

/// Whether a list of models has an entry of that slug.
pub open spec fn pins(pin: JsonV, k: Seq<char>) -> bool {
    pin.get_arr("models"@) matches Some(models) && exists|i: int|
        0 <= i < models.len() && (#[trigger] models[i]).get_str("slug"@) == Some(k)
}

/// Whether a configuration has a route of that key.
pub open spec fn routes_to(v: ValidatedV, k: Seq<char>) -> bool {
    exists|i: int| 0 <= i < v.routes.len() && (#[trigger] v.routes[i]).0 == k
}

proof fn lemma_listed_finite(l: Seq<Seq<char>>, s: Set<Seq<char>>)
    requires
        forall|k: Seq<char>| #[trigger] s.contains(k) ==> l.contains(k),
    ensures
        s.finite(),
{
    vstd::seq_lib::seq_to_set_is_finite(l);
    assert(l.to_set().intersect(s) =~= s);
}

proof fn lemma_missing_finite(v: ValidatedV, pin: JsonV)
    ensures
        missing_set(v, pin).finite(),
        orphan_set(v, pin).finite(),
{
    let keys = Seq::new(v.routes.len(), |i: int| v.routes[i].0);
    assert forall|k: Seq<char>| #[trigger] missing_set(v, pin).contains(k) implies keys.contains(
        k,
    ) by {
        let i = choose|i: int| 0 <= i < v.routes.len() && (#[trigger] v.routes[i]).0 == k;
        assert(keys[i] == k);
    }
    lemma_listed_finite(keys, missing_set(v, pin));
    let models = pin_models(pin);
    let slugs = Seq::new(models.len(), |i: int| models[i].get_str("slug"@)->0);
    assert forall|k: Seq<char>| #[trigger] orphan_set(v, pin).contains(k) implies slugs.contains(
        k,
    ) by {
        let i = choose|i: int|
            0 <= i < models.len() && (#[trigger] models[i]).get_str("slug"@) == Some(k);
        assert(slugs[i] == k);
    }
    lemma_listed_finite(slugs, orphan_set(v, pin));
}

proof fn lemma_listing_empty(s: Set<Seq<char>>)
    requires
        s.finite(),
    ensures
        listing(s).len() == 0 <==> forall|k: Seq<char>| !#[trigger] s.contains(k),
        forall|k: Seq<char>| #[trigger] listing(s).contains(k) <==> s.contains(k),
{
    finite_sets_are_listed(s);
    let l = listing(s);
    if l.len() == 0 {
        assert forall|k: Seq<char>| !#[trigger] s.contains(k) by {
            if s.contains(k) {
                assert(l.contains(k));
            }
        }
    }
    if forall|k: Seq<char>| !#[trigger] s.contains(k) {
        listing_of_nothing(s);
    }
    assert forall|k: Seq<char>| #[trigger] l.contains(k) implies s.contains(k) by {
        let i = choose|i: int| 0 <= i < l.len() && l[i] == k;
        assert(s.contains(l[i]));
    }
}

/// A pin covers the router exactly where it has an entry for every route; else
/// the check fails.
pub proof fn pins_cover_where_no_route_is_missing(v: ValidatedV, pin: JsonV)
    ensures
        covers(v, pin).name == "pin covers router"@,
        covers(v, pin).status == CheckStatus::Pass || covers(v, pin).status == CheckStatus::Fail,
        covers(v, pin).status == CheckStatus::Pass <==> forall|k: Seq<char>|
            routes_to(v, k) ==> #[trigger] pins(pin, k),
{
    let s = missing_set(v, pin);
    lemma_missing_finite(v, pin);
    lemma_listing_empty(s);
    assert forall|k: Seq<char>| #[trigger] s.contains(k) <==> routes_to(v, k) && !pins(pin, k) by {
        lemma_pins(v, pin, k);
    }
    if forall|k: Seq<char>| !#[trigger] s.contains(k) {
        assert forall|k: Seq<char>| routes_to(v, k) implies #[trigger] pins(pin, k) by {
            assert(!s.contains(k));
        }
    }
    if forall|k: Seq<char>| routes_to(v, k) ==> #[trigger] pins(pin, k) {
        assert forall|k: Seq<char>| !#[trigger] s.contains(k) by {
            assert(routes_to(v, k) ==> pins(pin, k));
        }
    }
}

proof fn lemma_pins(v: ValidatedV, pin: JsonV, k: Seq<char>)
    ensures
        crate::doctor::has_slug(pin_models(pin), k) == pins(pin, k),
        crate::doctor::has_route(v.routes, k) == routes_to(v, k),
{
}

/// A pin matches the router exactly where each of its slugs is a route; else the
/// check fails.
pub proof fn pins_match_where_no_slug_is_orphaned(v: ValidatedV, pin: JsonV)
    ensures
        matches_router(v, pin).name == "pin matches router"@,
        matches_router(v, pin).status == CheckStatus::Pass || matches_router(v, pin).status
            == CheckStatus::Fail,
        matches_router(v, pin).status == CheckStatus::Pass <==> forall|k: Seq<char>|
            pins(pin, k) ==> #[trigger] routes_to(v, k),
{
    let s = orphan_set(v, pin);
    lemma_missing_finite(v, pin);
    lemma_listing_empty(s);
    assert forall|k: Seq<char>| #[trigger] s.contains(k) <==> pins(pin, k) && !routes_to(v, k) by {
        lemma_pins(v, pin, k);
    }
    if forall|k: Seq<char>| !#[trigger] s.contains(k) {
        assert forall|k: Seq<char>| pins(pin, k) implies #[trigger] routes_to(v, k) by {
            assert(!s.contains(k));
        }
    }
    if forall|k: Seq<char>| pins(pin, k) ==> #[trigger] routes_to(v, k) {
        assert forall|k: Seq<char>| !#[trigger] s.contains(k) by {
            assert(pins(pin, k) ==> routes_to(v, k));
        }
    }
}

/// Whether an entry has every field that Codex requires; its slug is a string.
pub open spec fn is_complete(e: JsonV) -> bool {
    &&& e is Obj
    &&& e.get_str("slug"@) is Some
    &&& e.get("display_name"@) is Some
    &&& e.get("supported_reasoning_levels"@) is Some
    &&& e.get("shell_type"@) is Some
    &&& e.get("visibility"@) is Some
    &&& e.get("supported_in_api"@) is Some
    &&& e.get("priority"@) is Some
    &&& e.get("support_verbosity"@) is Some
    &&& e.get("truncation_policy"@) is Some
    &&& e.get("experimental_supported_tools"@) is Some
}

proof fn lemma_complete(e: JsonV)
    requires
        e is Obj,
    ensures
        missing_fields(e).len() == 0 <==> is_complete(e),
{
    reveal_strlit("slug");
    reveal_strlit("display_name");
    reveal_strlit("supported_reasoning_levels");
    reveal_strlit("shell_type");
    reveal_strlit("visibility");
    reveal_strlit("supported_in_api");
    reveal_strlit("priority");
    reveal_strlit("support_verbosity");
    reveal_strlit("truncation_policy");
    reveal_strlit("experimental_supported_tools");
    assert("slug"@.len() == 4);
    assert("display_name"@.len() == 12);
    assert("supported_reasoning_levels"@.len() == 26);
    assert("shell_type"@.len() == 10);
    assert("visibility"@.len() == 10);
    assert("supported_in_api"@.len() == 16);
    assert("priority"@.len() == 8);
    assert("support_verbosity"@.len() == 17);
    assert("truncation_policy"@.len() == 17);
    assert("experimental_supported_tools"@.len() == 28);
    assert("shell_type"@[0] != "visibility"@[0]);
    assert("support_verbosity"@[0] != "truncation_policy"@[0]);
    reveal_with_fuel(lacking, 11);
    let f = required_fields();
    assert(f[0] == "slug"@ && f[1] == "display_name"@ && f[2] == "supported_reasoning_levels"@);
    assert(f[3] == "shell_type"@ && f[4] == "visibility"@ && f[5] == "supported_in_api"@);
    assert(f[6] == "priority"@ && f[7] == "support_verbosity"@ && f[8] == "truncation_policy"@);
    assert(f[9] == "experimental_supported_tools"@ && f.len() == 10);
}

/// An entry is faulted exactly where it is no object or lacks a field that Codex
/// requires; its fault is a failure.
pub proof fn entries_are_faulted_where_incomplete(e: JsonV, i: int)
    ensures
        entry_fault(e) is None <==> is_complete(e),
        entry_fault(e) matches Some(c) ==> c.status == CheckStatus::Fail && c.name
            == "pin entry shape"@,
        offence(e, i) is None <==> is_complete(e),
{
    if e is Obj {
        lemma_complete(e);
    }
}

proof fn lemma_faults(models: Seq<JsonV>, n: int)
    requires
        0 <= n <= models.len(),
    ensures
        entry_faults(models, n).len() == 0 <==> forall|i: int|
            0 <= i < n ==> is_complete(#[trigger] models[i]),
        forall|j: int|
            0 <= j < entry_faults(models, n).len() ==> (#[trigger] entry_faults(
                models,
                n,
            )[j]).status == CheckStatus::Fail,
        offences(models, n).len() == 0 <==> forall|i: int|
            0 <= i < n ==> is_complete(#[trigger] models[i]),
    decreases n,
{
    if n > 0 {
        lemma_faults(models, n - 1);
        entries_are_faulted_where_incomplete(models[n - 1], n - 1);
        if forall|i: int| 0 <= i < n - 1 ==> is_complete(#[trigger] models[i]) {
            if is_complete(models[n - 1]) {
                assert forall|i: int| 0 <= i < n implies is_complete(#[trigger] models[i]) by {}
            }
        }
        if forall|i: int| 0 <= i < n ==> is_complete(#[trigger] models[i]) {
            assert(is_complete(models[n - 1]));
        }
    }
}

/// The shape of a pin fails exactly where one of its entries is incomplete; a
/// pin whose entries are all complete passes, in one line.
pub proof fn pins_pass_where_every_entry_is_complete(pin: JsonV, models: Seq<JsonV>)
    requires
        pin.get_arr("models"@) == Some(models),
    ensures
        has_fail(pin_shape(pin)) <==> exists|i: int|
            0 <= i < models.len() && !is_complete(#[trigger] models[i]),
        !has_fail(pin_shape(pin)) ==> pin_shape(pin).len() == 1 && pin_shape(pin)[0].status
            == CheckStatus::Pass,
        list_shape(models).status == CheckStatus::Pass <==> forall|i: int|
            0 <= i < models.len() ==> is_complete(#[trigger] models[i]),
        list_shape(models).status == CheckStatus::Pass || list_shape(models).status
            == CheckStatus::Fail,
{
    let n = models.len() as int;
    lemma_faults(models, n);
    let faults = entry_faults(models, n);
    if faults.len() > 0 {
        assert(pin_shape(pin)[0].status == CheckStatus::Fail);
        assert(has_fail(pin_shape(pin)));
    }
}

/// The model list endpoint passes exactly where it answers with success.
pub proof fn endpoints_pass_where_they_answer(f: Result<(u16, Seq<char>), Seq<char>>)
    ensures
        reachable(f).status == CheckStatus::Pass <==> (f matches Ok((s, _)) && 200 <= s <= 299),
        reachable(f).status == CheckStatus::Pass || reachable(f).status == CheckStatus::Fail,
        reachable(f).name == "models endpoint reachable"@,
        answer_shape(f).name == "models endpoint shape"@,
        answer_shape(f).status == CheckStatus::Pass || answer_shape(f).status == CheckStatus::Fail,
        answer_shape(f).status == CheckStatus::Pass <==> (f matches Ok((s, body)) && 200 <= s
            <= 299 && json_read(body) is Ok && (json_read(body)->Ok_0.get_arr("models"@) matches Some(
            models,
        ) && forall|i: int| 0 <= i < models.len() ==> is_complete(#[trigger] models[i]))),
{
    if let Ok((s, body)) = f {
        if let Ok(v) = json_read(body) {
            if let Some(models) = v.get_arr("models"@) {
                lemma_faults(models, models.len() as int);
            }
        }
    }
}

/// Codex is wired exactly where one of its providers points at the router; else
/// the check only says what to add.
pub proof fn wired_where_a_provider_points_at_the_router(doc: JsonV, base: Seq<char>)
    requires
        doc.at("model_providers"@) matches JsonV::Obj(m) ==> m.dom().finite(),
    ensures
        wiring(doc, base).name == "codex wiring"@,
        wiring(doc, base).status == CheckStatus::Pass <==> exists|k: Seq<char>|
            is_at(doc, base, k),
        wiring(doc, base).status == CheckStatus::Pass || wiring(doc, base).status
            == CheckStatus::Info,
{
    let s = pointing_set(doc, base);
    match doc.at("model_providers"@) {
        JsonV::Obj(m) => {
            assert(m.dom().intersect(s) =~= s);
        },
        _ => {
            assert(s =~= Set::<Seq<char>>::empty());
        },
    }
    lemma_listing_empty(s);
    assert forall|k: Seq<char>| #[trigger] s.contains(k) <==> is_at(doc, base, k) by {}
    if exists|k: Seq<char>| is_at(doc, base, k) {
        let k = choose|k: Seq<char>| is_at(doc, base, k);
        assert(s.contains(k));
    }
    if listing(s).len() > 0 {
        let k = listing(s)[0];
        assert(listing(s).contains(k));
        assert(is_at(doc, base, k));
    }
}

/// Whether a provider of Codex's configuration has that base URL.
pub open spec fn is_at(doc: JsonV, base: Seq<char>, k: Seq<char>) -> bool {
    doc.at("model_providers"@).at(k).get_str("base_url"@) == Some(base)
}

/// Codex looks for the router at its host and port, below `/v1`.
pub proof fn routers_are_found_below_v1(host: Seq<char>, port: u16)
    ensures
        base_of(host, port) == "http://"@ + host + ":"@ + decimal(port as nat) + "/v1"@,
{
}

/// A missing pin is worth a warning only where nothing else brings metadata; a
/// pin is told where Codex reads it.
pub proof fn pins_are_told_by_mode(doc: JsonV)
    ensures
        mode_keyed(doc, Mode::Dynamic) is None,
        doc.get("model_catalog_json"@) is None ==> mode_keyed(doc, Mode::Pinned) is None && (
        mode_keyed(doc, Mode::Fallback) matches Some(c) && c.status == CheckStatus::Warn && c.name
            == "fallback wiring"@),
        doc.get("model_catalog_json"@) is Some ==> (mode_keyed(doc, Mode::Pinned) matches Some(c)
            && c.status == CheckStatus::Info && c.name == "static catalog pin"@) && (mode_keyed(
            doc,
            Mode::Fallback,
        ) matches Some(c) && c.status == CheckStatus::Info && c.name == "static catalog pin"@),
{
}

/// A pin that shadows a live fetch is warned of: there is a pin, and a provider
/// has a command for its key.
pub proof fn shadowing_pins_are_warned_of(doc: JsonV)
    ensures
        pin_shadow(doc) is Some <==> doc.get("model_catalog_json"@) is Some && exists|k: Seq<char>|
            has_command(doc, k),
        pin_shadow(doc) matches Some(c) ==> c.status == CheckStatus::Warn && c.name
            == "pin shadows live fetch"@,
{
    if has_auth_command(doc) {
        let k = choose|k: Seq<char>|
            #![trigger codex_providers(doc).get(k)]
            codex_providers(doc).get(k) is Some && codex_providers(doc).at(k).at("auth"@).get_str(
                "command"@,
            ) is Some;
        assert(has_command(doc, k));
    }
    if exists|k: Seq<char>| has_command(doc, k) {
        let k = choose|k: Seq<char>| has_command(doc, k);
        assert(codex_providers(doc).get(k) is Some);
        assert(has_auth_command(doc));
    }
}

/// Whether a provider of Codex's configuration has a command for its key.
pub open spec fn has_command(doc: JsonV, k: Seq<char>) -> bool {
    doc.at("model_providers"@).at(k).at("auth"@).get_str("command"@) is Some
}

/// A pin comes first, then a command of the active provider; with neither Codex
/// falls back.
pub proof fn modes_follow_the_configuration(doc: JsonV, provider: Seq<char>)
    ensures
        mode_of(doc, provider) == Mode::Pinned <==> doc.get("model_catalog_json"@) is Some,
        mode_of(doc, provider) == Mode::Dynamic <==> doc.get("model_catalog_json"@) is None
            && has_command(doc, provider),
        mode_of(doc, provider) == Mode::Fallback <==> doc.get("model_catalog_json"@) is None
            && !has_command(doc, provider),
        mode_name(Mode::Pinned) == "Pinned"@,
        mode_name(Mode::Dynamic) == "Dynamic"@,
        mode_name(Mode::Fallback) == "Fallback"@,
{
}

/// The active provider is the one that Codex's configuration selects, and the
/// router's own where it selects none or cannot be read.
pub proof fn active_providers_are_selected(text: Seq<char>)
    ensures
        selected_provider(None) == "codexferry"@,
        toml_parse(text) is Err ==> selected_provider(Some(text)) == "codexferry"@ && mode_in(
            Some(text),
        ) == Mode::Fallback,
        toml_parse(text) matches Ok(doc) ==> selected_provider(Some(text)) == (match doc.get_str(
            "model_provider"@,
        ) {
            Some(p) => p,
            None => "codexferry"@,
        }),
        toml_parse(text) matches Ok(doc) ==> mode_in(Some(text)) == mode_of(
            doc,
            selected_provider(Some(text)),
        ),
        mode_in(None) == Mode::Fallback,
{
}

/// An absolute pin is the file that it names; another one is looked for below
/// `.codex` in the home directory.
pub proof fn pins_are_looked_for_below_home(raw: Seq<char>, home: Seq<char>)
    ensures
        raw.len() > 0 && raw[0] == '/' ==> pin_file_path(raw, Some(home)) == raw && pin_file_path(
            raw,
            None,
        ) == raw,
        !(raw.len() > 0 && raw[0] == '/') ==> pin_file_path(raw, None) == raw,
        !(raw.len() > 0 && raw[0] == '/') && home.len() > 0 && home.last() != '/' ==> pin_file_path(
            raw,
            Some(home),
        ) == home + "/"@ + ".codex"@ + "/"@ + raw,
{
    reveal_strlit(".codex");
    reveal_strlit("/");
    let d = home + "/"@ + ".codex"@;
    assert(".codex"@.len() == 6 && ".codex"@[5] == 'x');
    assert(d.last() == ".codex"@[5]);
}

/// A pin is read from the file that Codex's configuration names: it has to be
/// JSON with a list of models, and is handed on with its path.
pub proof fn pins_are_read_from_their_file(
    toml: Option<Seq<char>>,
    home: Option<Seq<char>>,
    content: Result<Seq<char>, Seq<char>>,
)
    ensures
        pin_read(toml, home, content) is Ok <==> pinned_file(toml, home) is Some && (content matches Ok(
            t,
        ) && json_read(t) is Ok && json_read(t)->Ok_0.get_arr("models"@) is Some),
        pin_read(toml, home, content) matches Ok((path, v)) ==> pinned_file(toml, home) == Some(
            path,
        ) && json_read(content->Ok_0) == Ok::<JsonV, Seq<char>>(v),
        pinned_file(toml, home) is Some <==> (document_in(toml) matches Some(doc) && doc.get_str(
            "model_catalog_json"@,
        ) is Some),
        (document_in(toml) matches Some(doc) && doc.get_str("model_catalog_json"@) is Some)
            ==> pinned_file(toml, home) == Some(
            pin_file_path(document_in(toml)->0.get_str("model_catalog_json"@)->0, home),
        ),
{
}

/// A run is remembered as it was; only a green run of a version that can be read
/// makes that version the verified one.
pub proof fn green_runs_verify_their_version(
    green: bool,
    version: Option<Seq<char>>,
    state: DoctorState,
    at: u64,
    r: DoctorState,
)
    requires
        recorded(green, version, state, at, r),
    ensures
        r.last_run matches Some(run) && run.green == green && run.at_unix == at && opt_str(
            run.codex_version,
        ) == version,
        green ==> r.last_run->0.summary@ == "all checks passed"@,
        !green ==> r.last_run->0.summary@ == "some checks failed"@,
        !green ==> opt_str(r.last_green) == opt_str(state.last_green),
        green && version_in_opt(version) is Some ==> opt_str(r.last_green) == version_in_opt(
            version,
        ),
        green && version_in_opt(version) is None ==> opt_str(r.last_green) == opt_str(
            state.last_green,
        ),
{
}

/// The version that a green run verified is verified in the next run.
pub proof fn verified_versions_stay_verified(
    version: Option<Seq<char>>,
    state: DoctorState,
    at: u64,
    r: DoctorState,
)
    requires
        recorded(true, version, state, at, r),
        version_in_opt(version) is Some,
    ensures
        status_of(version, opt_str(r.last_green)).status == CheckStatus::Pass,
{
    versions_are_read_once(version->0);
}

/// A report fails exactly where one of its checks does.
pub proof fn reports_fail_where_a_check_fails(checks: Seq<CheckV>)
    ensures
        has_fail(checks) <==> exists|i: int|
            0 <= i < checks.len() && (#[trigger] checks[i]).status == CheckStatus::Fail,
{
}

/// The status of a version says which it is, and what was last verified; a
/// version that has not been read is told as such.
pub proof fn version_checks_tell_the_version(
    version: Option<Seq<char>>,
    last_green: Option<Seq<char>>,
)
    ensures
        age(version) is Some <==> version_in_opt(version) is Some,
        age(version) matches Some(c) ==> c.status == CheckStatus::Info && c.name
            == "codex version age"@ && c.detail.take(version_in_opt(version)->0.len() as int)
            == version_in_opt(version)->0,
        status_of(version, last_green).name == "codex version status"@,
        version_in_opt(version) matches Some(v) ==> status_of(
            version,
            last_green,
        ).detail.take(v.len() as int) == v,
{
    if let Some(v) = version_in_opt(version) {
        assert(age(version)->0.detail.take(v.len() as int) =~= v);
        assert(status_of(version, last_green).detail.take(v.len() as int) =~= v);
    }
}

/// A line of a report counts the checks from one on, and says how the check
/// went, what it is and why.
pub proof fn lines_tell_their_check(c: CheckV, i: int, n: int)
    ensures
        line_of(c, i, n) == "["@ + decimal((i + 1) as nat) + "/"@ + decimal(n as nat) + "] "@
            + tag_of(c.status) + ": "@ + c.name + " — "@ + c.detail,
        tag_of(CheckStatus::Pass) == "PASS"@,
        tag_of(CheckStatus::Fail) == "FAIL"@,
        tag_of(CheckStatus::Warn) == "WARN"@,
        tag_of(CheckStatus::Info) == "INFO"@,
{
}

/// A report begins with what every wiring has, in order: the configuration
/// loads, it has routes, what the template lost, the mode, and the wiring.
pub proof fn reports_begin_with_the_common_checks(
    v: ValidatedV,
    template: Option<JsonV>,
    mode: Mode,
    provider: Seq<char>,
    env: EnvV,
)
    ensures
        ({
            let r = offline_report(v, template, mode, provider, env);
            &&& r.len() >= 6
            &&& r[0].name == "config loads"@ && r[0].status == CheckStatus::Pass
            &&& r[1].name == "router has routes"@ && (r[1].status == CheckStatus::Fail
                <==> v.routes.len() == 0) && (r[1].status == CheckStatus::Pass <==> v.routes.len()
                > 0)
            &&& r[2].name == "template fields dropped"@ && r[2].status == CheckStatus::Info
            &&& r[3].name == "detected mode"@ && r[3].status == CheckStatus::Info && r[3].detail
                == mode_name(mode) + " (active provider: "@ + provider + ")"@
            &&& r[4] == wiring_report(env.codex_toml, base_of(v.host, v.port))
            &&& r.last() == status_of(env.codex_version, env.last_green)
        }),
{
    let c = common_checks(v, template, mode, provider, env.codex_toml);
    let r = offline_report(v, template, mode, provider, env);
    assert(c.len() == 5);
    assert(r[0] == c[0] && r[1] == c[1] && r[2] == c[2] && r[3] == c[3] && r[4] == c[4]);
}

/// A configuration that cannot be read is the only check, and it fails with the
/// reason.
pub proof fn unreadable_configurations_are_reported(
    text: Result<Seq<char>, Seq<char>>,
    template: Result<Option<JsonV>, Seq<char>>,
    mode: Mode,
    provider: Seq<char>,
    env: EnvV,
    r: Seq<CheckV>,
)
    requires
        reports(text, template, mode, provider, env, r),
    ensures
        text matches Err(e) ==> r.len() == 1 && r[0].status == CheckStatus::Fail && r[0].name
            == "config loads"@ && r[0].detail == e,
        text matches Ok(t) ==> (toml_parse(t) matches Err(e) ==> r.len() == 1 && r[0].status
            == CheckStatus::Fail && r[0].name == "config loads"@ && r[0].detail == e),
{
}

/// An entry is told by its slug, where it has one.
pub proof fn entries_are_told_by_their_slug(e: JsonV)
    ensures
        e.get_str("slug"@) matches Some(s) ==> slug_label(e) == s,
        e.get("slug"@) is None ==> slug_label(e) == "<missing slug>"@,
        e.get("slug"@) is Some && e.get_str("slug"@) is None ==> slug_label(e)
            == "<non-string slug>"@,
{
}

} // verus!
