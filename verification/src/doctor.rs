//! The doctor: checks of the contract between the router and Codex.
//!
//! The offline checks read texts that the caller has collected: the router's
//! configuration, Codex's configuration, its version, the pinned catalog and
//! the answer of the model list endpoint.
use crate::catalog::{
    build_catalog_value, catalog_lists_every_route, catalog_models, catalog_of, dropped_fields,
    entries_are_complete, is_pinned, keys_of, lemma_slug, opt_view, route_entry, seed_of,
};
use crate::config::{
    describes, document_fault, error_text, validated, validated_view, Config, ConfigV, ServerConfig,
    ValidatedConfig, ValidatedRouteV, ValidatedV,
};
use crate::json::{
    dup_items, entries_view, items_view, json_read, lemma_items_view, lists, toml_parse, Json,
    JsonV,
};
use crate::mode::{detect_mode, mode_of, Mode, DEFAULT_ACTIVE_PROVIDER};
use crate::order::{
    ascending, ascending_is_sorted, listing, listing_of_nothing, lists_set, sorted_unique,
};
use crate::text::{debug_text, decimal, join, joined, opt_text, quoted, same, to_decimal, views};
use crate::version::{normalize_version, version_in, version_in_opt, DoctorState, LastRun};
use crate::wire::chat::{opt_json, opt_str};
use vstd::prelude::*;

verus! {

/// The status of a check.
#[derive(Debug, Clone, Copy, PartialEq, Eq, Structural)]
pub enum CheckStatus {
    /// The check passed.
    Pass,
    /// The check failed, and with it the run.
    Fail,
    /// A supported but degraded wiring; never fails the run.
    Warn,
    /// A detail; never fails the run.
    Info,
}

/// One line of the report.
#[derive(Debug, Clone, PartialEq, Eq)]
pub struct Check {
    pub name: String,
    pub status: CheckStatus,
    pub detail: String,
}

/// What a [`Check`] denotes.
pub struct CheckV {
    pub name: Seq<char>,
    pub status: CheckStatus,
    pub detail: Seq<char>,
}

impl View for Check {
    type V = CheckV;

    open spec fn view(&self) -> CheckV {
        CheckV { name: self.name@, status: self.status, detail: self.detail@ }
    }
}

/// What a list of checks denotes.
pub open spec fn checks_view(s: Seq<Check>) -> Seq<CheckV> {
    Seq::new(s.len(), |i: int| s[i]@)
}

/// What an optional check denotes.
pub open spec fn opt_check(c: Option<Check>) -> Option<CheckV> {
    match c {
        Some(x) => Some(x@),
        None => None,
    }
}

/// The list of an optional check.
pub open spec fn at_most_one(c: Option<CheckV>) -> Seq<CheckV> {
    match c {
        Some(x) => seq![x],
        None => Seq::empty(),
    }
}

pub open spec fn pass_v(name: Seq<char>, detail: Seq<char>) -> CheckV {
    CheckV { name, status: CheckStatus::Pass, detail }
}

pub open spec fn fail_v(name: Seq<char>, detail: Seq<char>) -> CheckV {
    CheckV { name, status: CheckStatus::Fail, detail }
}

pub open spec fn warn_v(name: Seq<char>, detail: Seq<char>) -> CheckV {
    CheckV { name, status: CheckStatus::Warn, detail }
}

pub open spec fn info_v(name: Seq<char>, detail: Seq<char>) -> CheckV {
    CheckV { name, status: CheckStatus::Info, detail }
}

impl Check {
    pub fn pass(name: &str, detail: &str) -> (r: Check)
        ensures
            r@ == pass_v(name@, detail@),
    {
        Check { name: name.to_owned(), status: CheckStatus::Pass, detail: detail.to_owned() }
    }

    pub fn fail(name: &str, detail: &str) -> (r: Check)
        ensures
            r@ == fail_v(name@, detail@),
    {
        Check { name: name.to_owned(), status: CheckStatus::Fail, detail: detail.to_owned() }
    }

    pub fn warn(name: &str, detail: &str) -> (r: Check)
        ensures
            r@ == warn_v(name@, detail@),
    {
        Check { name: name.to_owned(), status: CheckStatus::Warn, detail: detail.to_owned() }
    }

    pub fn info(name: &str, detail: &str) -> (r: Check)
        ensures
            r@ == info_v(name@, detail@),
    {
        Check { name: name.to_owned(), status: CheckStatus::Info, detail: detail.to_owned() }
    }

}

fn push_check(checks: &mut Vec<Check>, c: Check)
    ensures
        checks_view(final(checks)@) == checks_view(old(checks)@).push(c@),
{
    let ghost before = checks@;
    checks.push(c);
    assert(checks_view(checks@) =~= checks_view(before).push(c@));
}

fn push_opt(checks: &mut Vec<Check>, c: Option<Check>)
    ensures
        checks_view(final(checks)@) == checks_view(old(checks)@) + at_most_one(opt_check(c)),
{
    let ghost before = checks@;
    if let Some(x) = c {
        checks.push(x);
    }
    assert(checks_view(checks@) =~= checks_view(before) + at_most_one(opt_check(c)));
}

fn push_all(checks: &mut Vec<Check>, more: Vec<Check>)
    ensures
        checks_view(final(checks)@) == checks_view(old(checks)@) + checks_view(more@),
{
    let ghost before = checks@;
    let mut rest = more;
    checks.append(&mut rest);
    assert(checks_view(checks@) =~= checks_view(before) + checks_view(more@));
}

/// Whether any check failed. Warnings and details never fail a report.
pub fn report_has_fail(checks: &[Check]) -> (r: bool)
    ensures
        r == has_fail(checks_view(checks@)),
{
    let ghost all = checks_view(checks@);
    let mut i: usize = 0;
    while i < checks.len()
        invariant
            i <= checks@.len(),
            all == checks_view(checks@),
            forall|k: int| 0 <= k < i ==> (#[trigger] all[k]).status != CheckStatus::Fail,
        decreases checks@.len() - i,
    {
        assert(all[i as int] == checks@[i as int]@);
        if checks[i].status == CheckStatus::Fail {
            return true;
        }
        i = i + 1;
    }
    false
}

/// Whether any check failed.
pub open spec fn has_fail(checks: Seq<CheckV>) -> bool {
    exists|i: int| 0 <= i < checks.len() && (#[trigger] checks[i]).status == CheckStatus::Fail
}

/// The word for a status.
pub open spec fn tag_of(s: CheckStatus) -> Seq<char> {
    match s {
        CheckStatus::Pass => "PASS"@,
        CheckStatus::Fail => "FAIL"@,
        CheckStatus::Warn => "WARN"@,
        CheckStatus::Info => "INFO"@,
    }
}

/// The line of the `i`-th check of `n`.
pub open spec fn line_of(c: CheckV, i: int, n: int) -> Seq<char> {
    "["@ + decimal((i + 1) as nat) + "/"@ + decimal(n as nat) + "] "@ + tag_of(c.status) + ": "@
        + c.name + " — "@ + c.detail
}

/// The numbered lines of a report.
pub fn report_lines(checks: &[Check]) -> (r: Vec<String>)
    ensures
        r@.len() == checks@.len(),
        forall|i: int|
            0 <= i < r@.len() ==> (#[trigger] r@[i])@ == line_of(
                checks@[i]@,
                i,
                checks@.len() as int,
            ),
{
    let mut out: Vec<String> = Vec::new();
    let mut i: usize = 0;
    while i < checks.len()
        invariant
            i <= checks@.len(),
            out@.len() == i,
            forall|k: int|
                0 <= k < i ==> (#[trigger] out@[k])@ == line_of(
                    checks@[k]@,
                    k,
                    checks@.len() as int,
                ),
        decreases checks@.len() - i,
    {
        let c = &checks[i];
        let tag = match c.status {
            CheckStatus::Pass => "PASS",
            CheckStatus::Fail => "FAIL",
            CheckStatus::Warn => "WARN",
            CheckStatus::Info => "INFO",
        };
        let mut line = "[".to_owned();
        line.append(to_decimal((i + 1) as u64).as_str());
        line.append("/");
        line.append(to_decimal(checks.len() as u64).as_str());
        line.append("] ");
        line.append(tag);
        line.append(": ");
        line.append(c.name.as_str());
        line.append(" — ");
        line.append(c.detail.as_str());
        out.push(line);
        i = i + 1;
    }
    out
}

/// Whether the live probes run: always where they were asked for; else where
/// Codex is available and the run is not offline.
pub fn live_requested(live: bool, offline: bool, codex_available: bool) -> (r: bool)
    ensures
        r == (live || (codex_available && !offline)),
{
    live || (codex_available && !offline)
}

/// Whether `r` is the state after a run: the run is recorded, and the version
/// counts as verified where the run was green and the version could be read.
pub open spec fn recorded(
    green: bool,
    version: Option<Seq<char>>,
    state: DoctorState,
    at_unix: u64,
    r: DoctorState,
) -> bool {
    &&& r.last_run matches Some(run) && run.green == green && opt_str(run.codex_version) == version
        && run.at_unix == at_unix && run.summary@ == (if green {
        "all checks passed"@
    } else {
        "some checks failed"@
    })
    &&& opt_str(r.last_green) == (if green && version_in_opt(version) is Some {
        version_in_opt(version)
    } else {
        opt_str(state.last_green)
    })
}

/// The state after a run that drove Codex, at a given time.
pub fn apply_record_at(
    green: bool,
    codex_version_output: Option<&str>,
    state: DoctorState,
    at_unix: u64,
) -> (r: DoctorState)
    ensures
        recorded(green, opt_text(codex_version_output), state, at_unix, r),
{
    let mut last_green = state.last_green;
    let mut codex_version: Option<String> = None;
    if let Some(v) = codex_version_output {
        codex_version = Some(v.to_owned());
        if green {
            if let Some(n) = normalize_version(v) {
                last_green = Some(n);
            }
        }
    }
    let summary = if green {
        "all checks passed".to_owned()
    } else {
        "some checks failed".to_owned()
    };
    DoctorState { last_green, last_run: Some(LastRun { green, codex_version, at_unix, summary }) }
}

/// The clock of the machine.
#[verifier::external_type_specification]
#[verifier::external_body]
pub struct ExSystemTime(std::time::SystemTime);

/// Calls `std::time::SystemTime::now`; nothing is claimed of the time.
#[verifier::external_body]
fn read_clock() -> (r: std::time::SystemTime)
{
    std::time::SystemTime::now()
}

/// Calls `std::time::SystemTime::duration_since` with the Unix epoch, and gives
/// the whole seconds; none where the time is before the epoch. Nothing is
/// claimed of the number.
#[verifier::external_body]
fn seconds_since_epoch(t: &std::time::SystemTime) -> (r: Option<u64>)
{
    t.duration_since(std::time::UNIX_EPOCH).ok().map(|d| d.as_secs())
}

/// The state after a run that drove Codex, now.
pub fn apply_record(green: bool, codex_version_output: Option<&str>, state: DoctorState) -> (r:
    DoctorState)
    ensures
        exists|at_unix: u64| #[trigger]
            recorded(green, opt_text(codex_version_output), state, at_unix, r),
{
    let now = read_clock();
    let at_unix: u64 = match seconds_since_epoch(&now) {
        Some(s) => s,
        None => 0,
    };
    let r = apply_record_at(green, codex_version_output, state, at_unix);
    assert(recorded(green, opt_text(codex_version_output), state, at_unix, r));
    r
}

/// The providers of Codex's configuration.
pub open spec fn codex_providers(doc: JsonV) -> JsonV {
    doc.at("model_providers"@)
}

/// Whether a provider points at a base URL.
pub open spec fn points_at(doc: JsonV, base: Seq<char>, k: Seq<char>) -> bool {
    codex_providers(doc).get(k) is Some && codex_providers(doc).at(k).get_str("base_url"@) == Some(
        base,
    )
}

/// The providers that point at a base URL.
pub open spec fn pointing_set(doc: JsonV, base: Seq<char>) -> Set<Seq<char>> {
    Set::new(|k: Seq<char>| points_at(doc, base, k))
}

/// The check of Codex's wiring: a pass that names the providers which point at
/// the router, or the lines to add.
pub open spec fn wiring(doc: JsonV, base: Seq<char>) -> CheckV {
    let names = listing(pointing_set(doc, base));
    if names.len() == 0 {
        info_v(
            "codex wiring"@,
            "no model_providers entry points at "@ + base
                + " — add:\n[model_providers.codexferry]\nbase_url = \""@ + base
                + "\"\nwire_api = \"responses\""@,
        )
    } else {
        pass_v(
            "codex wiring"@,
            "provider(s) "@ + joined(names, ", "@) + " point at "@ + base,
        )
    }
}

/// The check of Codex's wiring, for its configuration.
pub fn wiring_of_document(doc: &Json, expected_base: &str) -> (r: Check)
    ensures
        r@ == wiring(doc@, expected_base@),
        lists_set(listing(pointing_set(doc@, expected_base@)), pointing_set(doc@, expected_base@)),
{
    let mut names: Vec<String> = Vec::new();
    let ghost want = pointing_set(doc@, expected_base@);
    if let Some(providers) = doc.get("model_providers") {
        let entries = providers.entries();
        let ghost e = entries_view(entries@);
        let ghost ps = codex_providers(doc@);
        let mut i: usize = 0;
        while i < entries.len()
            invariant
                i <= entries@.len(),
                e == entries_view(entries@),
                ps == codex_providers(doc@),
                match ps {
                    JsonV::Obj(m) => lists(e, m),
                    _ => e.len() == 0,
                },
                forall|a: int|
                    0 <= a < names@.len() ==> points_at(
                        doc@,
                        expected_base@,
                        (#[trigger] names@[a])@,
                    ),
                forall|k: int|
                    0 <= k < i && points_at(doc@, expected_base@, (#[trigger] e[k]).0) ==> views(
                        names@,
                    ).contains(e[k].0),
            decreases entries@.len() - i,
        {
            let ghost before = names@;
            assert(e[i as int].0 == entries@[i as int].0@);
            assert(e[i as int].1 == entries@[i as int].1@);
            assert(ps.get(e[i as int].0) == Some(e[i as int].1));
            if entries[i].1.field_is("base_url", expected_base) {
                names.push(entries[i].0.clone());
            }
            proof {
                assert forall|k: int|
                    0 <= k < i + 1 && points_at(
                        doc@,
                        expected_base@,
                        (#[trigger] e[k]).0,
                    ) implies views(names@).contains(e[k].0) by {
                    if k < i {
                        let a = choose|a: int|
                            0 <= a < views(before).len() && views(before)[a] == e[k].0;
                        assert(views(names@)[a] == e[k].0);
                    } else {
                        assert(views(names@)[names@.len() - 1] == e[k].0);
                    }
                }
            }
            i = i + 1;
        }
        proof {
            assert forall|k: Seq<char>| want.contains(k) implies views(names@).contains(k) by {
                let j = choose|j: int| 0 <= j < e.len() && (#[trigger] e[j]).0 == k;
                assert(views(names@).contains(e[j].0));
            }
        }
    }
    proof {
        let have = views(names@).to_set();
        assert forall|k: Seq<char>| have.contains(k) implies want.contains(k) by {
            let a = choose|a: int| 0 <= a < views(names@).len() && views(names@)[a] == k;
            assert(names@[a]@ == k);
        }
        assert(have =~= want);
    }
    let found = sorted_unique(&names);
    if found.len() == 0 {
        let mut detail = "no model_providers entry points at ".to_owned();
        detail.append(expected_base);
        detail.append(" — add:\n[model_providers.codexferry]\nbase_url = \"");
        detail.append(expected_base);
        detail.append("\"\nwire_api = \"responses\"");
        Check::info("codex wiring", detail.as_str())
    } else {
        let mut detail = "provider(s) ".to_owned();
        detail.append(join(&found, ", ").as_str());
        detail.append(" point at ");
        detail.append(expected_base);
        Check::pass("codex wiring", detail.as_str())
    }
}

/// What the check of the wiring says of the text of Codex's configuration.
pub open spec fn wiring_report(text: Option<Seq<char>>, base: Seq<char>) -> CheckV {
    match text {
        None => info_v("codex wiring"@, "~/.codex/config.toml not found (skipped)"@),
        Some(t) => match toml_parse(t) {
            Err(_) => info_v(
                "codex wiring"@,
                "~/.codex/config.toml not valid TOML (skipped)"@,
            ),
            Ok(doc) => wiring(doc, base),
        },
    }
}

/// Checks that a provider of Codex's configuration points at the router. It
/// never fails: the configuration is the user's.
pub fn wiring_check(codex_toml: Option<&str>, expected_base: &str) -> (r: Check)
    ensures
        r@ == wiring_report(opt_text(codex_toml), expected_base@),
{
    match codex_toml {
        None => Check::info("codex wiring", "~/.codex/config.toml not found (skipped)"),
        Some(text) => match Json::parse_toml(text) {
            Err(_) => Check::info("codex wiring", "~/.codex/config.toml not valid TOML (skipped)"),
            Ok(doc) => wiring_of_document(&doc, expected_base),
        },
    }
}

/// How a pin is shown: the path, or that it is none.
pub open spec fn pin_shown(pin: JsonV) -> Seq<char> {
    match pin.as_str() {
        Some(s) => debug_text(s),
        None => debug_text("<not a string>"@),
    }
}

fn show_pin(pin: &Json) -> (r: String)
    ensures
        r@ == pin_shown(pin@),
{
    match pin.as_str() {
        Some(s) => quoted(s),
        None => quoted("<not a string>"),
    }
}

/// The check of a pin against the wiring: a pin is confirmed, and a missing one
/// is a warning where nothing else brings metadata.
pub open spec fn mode_keyed(doc: JsonV, mode: Mode) -> Option<CheckV> {
    match (doc.get("model_catalog_json"@), mode) {
        (None, Mode::Fallback) => Some(
            warn_v(
                "fallback wiring"@,
                "no `model_catalog_json` and no `auth.command`: codex resolves routes with fallback metadata, which is degraded — generate a pin (static mode) or switch to `auth.command` (dynamic mode). See `scripts/codex-config-static.toml.example` and `scripts/codex-config-dynamic.toml.example`"@,
            ),
        ),
        (Some(pin), Mode::Pinned) => Some(
            info_v(
                "static catalog pin"@,
                "model_catalog_json = "@ + pin_shown(pin)
                    + " — codex reads this pin in pinned mode; re-run `codexferry gen-catalog` after adding routes or upgrading codex"@,
            ),
        ),
        (Some(pin), Mode::Fallback) => Some(
            info_v(
                "static catalog pin"@,
                "model_catalog_json = "@ + pin_shown(pin)
                    + " — fallback wiring: codex cannot fetch `/v1/models`, so this pin is the only real source of model metadata; keep it"@,
            ),
        ),
        _ => None,
    }
}

/// The check of a pin against the wiring, for Codex's configuration.
pub fn mode_keyed_of_document(doc: &Json, mode: Mode) -> (r: Option<Check>)
    ensures
        opt_check(r) == mode_keyed(doc@, mode),
{
    match doc.get("model_catalog_json") {
        None => match mode {
            Mode::Fallback => Some(
                Check::warn(
                    "fallback wiring",
                    "no `model_catalog_json` and no `auth.command`: codex resolves routes with fallback metadata, which is degraded — generate a pin (static mode) or switch to `auth.command` (dynamic mode). See `scripts/codex-config-static.toml.example` and `scripts/codex-config-dynamic.toml.example`",
                ),
            ),
            _ => None,
        },
        Some(pin) => {
            let mut detail = "model_catalog_json = ".to_owned();
            detail.append(show_pin(pin).as_str());
            match mode {
                Mode::Pinned => {
                    detail.append(
                        " — codex reads this pin in pinned mode; re-run `codexferry gen-catalog` after adding routes or upgrading codex",
                    );
                    Some(Check::info("static catalog pin", detail.as_str()))
                },
                Mode::Fallback => {
                    detail.append(
                        " — fallback wiring: codex cannot fetch `/v1/models`, so this pin is the only real source of model metadata; keep it",
                    );
                    Some(Check::info("static catalog pin", detail.as_str()))
                },
                Mode::Dynamic => None,
            }
        },
    }
}

/// The document in an optional TOML text; none where there is none.
pub open spec fn document_in(text: Option<Seq<char>>) -> Option<JsonV> {
    match text {
        Some(t) => match toml_parse(t) {
            Ok(doc) => Some(doc),
            Err(_) => None,
        },
        None => None,
    }
}

fn parse_codex_toml(codex_toml: Option<&str>) -> (r: Option<Json>)
    ensures
        opt_json(r) == document_in(opt_text(codex_toml)),
{
    match codex_toml {
        Some(text) => match Json::parse_toml(text) {
            Ok(doc) => Some(doc),
            Err(_) => None,
        },
        None => None,
    }
}

/// What the check of the pin says of the text of Codex's configuration.
pub open spec fn mode_keyed_report(text: Option<Seq<char>>, mode: Mode) -> Option<CheckV> {
    match document_in(text) {
        Some(doc) => mode_keyed(doc, mode),
        None => None,
    }
}

/// Checks the pin of Codex's configuration against the wiring. It never fails.
pub fn mode_keyed_check(codex_toml: Option<&str>, mode: Mode) -> (r: Option<Check>)
    ensures
        opt_check(r) == mode_keyed_report(opt_text(codex_toml), mode),
{
    match parse_codex_toml(codex_toml) {
        Some(doc) => mode_keyed_of_document(&doc, mode),
        None => None,
    }
}

/// Whether a provider of Codex's configuration has an `auth` command.
pub open spec fn has_auth_command(doc: JsonV) -> bool {
    exists|k: Seq<char>|
        #![trigger codex_providers(doc).get(k)]
        codex_providers(doc).get(k) is Some && codex_providers(doc).at(k).at("auth"@).get_str(
            "command"@,
        ) is Some
}

/// The warning that a pin shadows the live model list.
pub open spec fn pin_shadow(doc: JsonV) -> Option<CheckV> {
    match doc.get("model_catalog_json"@) {
        Some(pin) => if has_auth_command(doc) {
            Some(
                warn_v(
                    "pin shadows live fetch"@,
                    "model_catalog_json = "@ + pin_shown(pin)
                        + " — this pin shadows the live `/v1/models` fetch enabled by `auth.command` (pin forces StaticModelsManager, so that fetch never runs); remove the pin OR remove `auth.command` — pick one mode"@,
                ),
            )
        } else {
            None
        },
        None => None,
    }
}

fn find_auth_command(doc: &Json) -> (r: bool)
    ensures
        r == has_auth_command(doc@),
{
    let ghost ps = codex_providers(doc@);
    match doc.get("model_providers") {
        None => false,
        Some(providers) => {
            let entries = providers.entries();
            let ghost e = entries_view(entries@);
            let mut i: usize = 0;
            while i < entries.len()
                invariant
                    i <= entries@.len(),
                    e == entries_view(entries@),
                    ps == codex_providers(doc@),
                    match ps {
                        JsonV::Obj(m) => lists(e, m),
                        _ => e.len() == 0,
                    },
                    forall|k: int|
                        0 <= k < i ==> (#[trigger] e[k]).1.at("auth"@).get_str("command"@) is None,
                decreases entries@.len() - i,
            {
                assert(e[i as int].1 == entries@[i as int].1@);
                assert(ps.get(e[i as int].0) == Some(e[i as int].1));
                if let Some(auth) = entries[i].1.get("auth") {
                    if auth.get_str("command").is_some() {
                        return true;
                    }
                }
                i = i + 1;
            }
            proof {
                if has_auth_command(doc@) {
                    let k = choose|k: Seq<char>|
                        #![trigger codex_providers(doc@).get(k)]
                        codex_providers(doc@).get(k) is Some && codex_providers(doc@).at(k).at(
                            "auth"@,
                        ).get_str("command"@) is Some;
                    let j = choose|j: int| 0 <= j < e.len() && (#[trigger] e[j]).0 == k;
                    assert(e[j].1 == ps.at(k));
                }
            }
            false
        },
    }
}

/// The warning that a pin shadows the live model list, for Codex's
/// configuration.
pub fn pin_shadow_of_document(doc: &Json) -> (r: Option<Check>)
    ensures
        opt_check(r) == pin_shadow(doc@),
{
    match doc.get("model_catalog_json") {
        None => None,
        Some(pin) => if find_auth_command(doc) {
            let mut detail = "model_catalog_json = ".to_owned();
            detail.append(show_pin(pin).as_str());
            detail.append(
                " — this pin shadows the live `/v1/models` fetch enabled by `auth.command` (pin forces StaticModelsManager, so that fetch never runs); remove the pin OR remove `auth.command` — pick one mode",
            );
            Some(Check::warn("pin shadows live fetch", detail.as_str()))
        } else {
            None
        },
    }
}

/// What the check for a shadowing pin says of the text of Codex's
/// configuration.
pub open spec fn pin_shadow_report(text: Option<Seq<char>>) -> Option<CheckV> {
    match document_in(text) {
        Some(doc) => pin_shadow(doc),
        None => None,
    }
}

/// Warns where Codex's configuration has both a pin and an `auth` command. It
/// never fails.
pub fn pin_shadow_warn(codex_toml: Option<&str>) -> (r: Option<Check>)
    ensures
        opt_check(r) == pin_shadow_report(opt_text(codex_toml)),
{
    match parse_codex_toml(codex_toml) {
        Some(doc) => pin_shadow_of_document(&doc),
        None => None,
    }
}

/// A path below a directory, with `/` for the separator.
pub open spec fn path_join(dir: Seq<char>, path: Seq<char>) -> Seq<char> {
    if dir.len() == 0 || dir.last() == '/' {
        dir + path
    } else {
        dir + "/"@ + path
    }
}

/// The file that a pin names: an absolute path as it is, another one below
/// `.codex` in the home directory, where there is one.
pub open spec fn pin_file_path(raw: Seq<char>, home: Option<Seq<char>>) -> Seq<char> {
    if raw.len() > 0 && raw[0] == '/' {
        raw
    } else {
        match home {
            Some(h) => path_join(path_join(h, ".codex"@), raw),
            None => raw,
        }
    }
}

fn join_path(dir: &str, path: &str) -> (r: String)
    ensures
        r@ == path_join(dir@, path@),
{
    let n = dir.unicode_len();
    let mut out = dir.to_owned();
    if n > 0 && dir.get_char(n - 1) != '/' {
        out.append("/");
    }
    out.append(path);
    out
}

/// The file that a pin names.
pub fn resolve_pin_path(raw: &str, home: Option<&str>) -> (r: String)
    ensures
        r@ == pin_file_path(raw@, opt_text(home)),
{
    if raw.unicode_len() > 0 && raw.get_char(0) == '/' {
        return raw.to_owned();
    }
    match home {
        Some(h) => join_path(join_path(h, ".codex").as_str(), raw),
        None => raw.to_owned(),
    }
}

/// The file of the pin in Codex's configuration.
pub open spec fn pinned_file(text: Option<Seq<char>>, home: Option<Seq<char>>) -> Option<Seq<char>> {
    match document_in(text) {
        Some(doc) => match doc.get_str("model_catalog_json"@) {
            Some(raw) => Some(pin_file_path(raw, home)),
            None => None,
        },
        None => None,
    }
}

/// The file of the pin in Codex's configuration.
pub fn pin_path(codex_toml: Option<&str>, home: Option<&str>) -> (r: Option<String>)
    ensures
        opt_str(r) == pinned_file(opt_text(codex_toml), opt_text(home)),
{
    match parse_codex_toml(codex_toml) {
        Some(doc) => match doc.get_str("model_catalog_json") {
            Some(raw) => Some(resolve_pin_path(raw, home)),
            None => None,
        },
        None => None,
    }
}

/// The pin in a text, or what is wrong with the text.
pub open spec fn pin_in(text: Seq<char>) -> Result<JsonV, Seq<char>> {
    match json_read(text) {
        Err(e) => Err("pin is not valid JSON: "@ + e),
        Ok(v) => if v.get_arr("models"@) is Some {
            Ok(v)
        } else {
            Err("pin has no `models` array"@)
        },
    }
}

/// What a result with a message denotes.
pub open spec fn result_view(r: Result<Json, String>) -> Result<JsonV, Seq<char>> {
    match r {
        Ok(j) => Ok(j@),
        Err(e) => Err(e@),
    }
}

/// Reads a pin: a document with a `models` array.
pub fn pin_file_check(text: &str) -> (r: Result<Json, String>)
    ensures
        result_view(r) == pin_in(text@),
{
    match Json::read(text) {
        Err(e) => {
            let mut m = "pin is not valid JSON: ".to_owned();
            m.append(e.as_str());
            Err(m)
        },
        Ok(v) => if v.get_array("models").is_some() {
            Ok(v)
        } else {
            Err("pin has no `models` array".to_owned())
        },
    }
}

/// What a text that was read denotes, or why it could not be read.
pub open spec fn content_view(r: Result<String, String>) -> Result<Seq<char>, Seq<char>> {
    match r {
        Ok(t) => Ok(t@),
        Err(e) => Err(e@),
    }
}

/// The pin of Codex's configuration with its path, or why there is none.
pub open spec fn pin_read(
    toml: Option<Seq<char>>,
    home: Option<Seq<char>>,
    content: Result<Seq<char>, Seq<char>>,
) -> Result<(Seq<char>, JsonV), Seq<char>> {
    match pinned_file(toml, home) {
        None => Err(
            "~/.codex/config.toml has no string `model_catalog_json` — run `codexferry gen-catalog --config cxf.toml --out ~/.codex/codexferry-catalog.json` and set `model_catalog_json` to that path"@,
        ),
        Some(path) => {
            let pin = match content {
                Ok(t) => pin_in(t),
                Err(e) => Err(e),
            };
            match pin {
                Ok(v) => Ok((path, v)),
                Err(e) => Err(path + ": "@ + e + " — rerun `codexferry gen-catalog`"@),
            }
        },
    }
}

/// The pin of Codex's configuration with its path, or why there is none;
/// `content` is what the file at [`pin_path`] holds.
pub fn read_pin(
    codex_toml: Option<&str>,
    home: Option<&str>,
    content: &Result<String, String>,
) -> (r: Result<(String, Json), String>)
    ensures
        match r {
            Ok(p) => pin_read(opt_text(codex_toml), opt_text(home), content_view(*content)) == Ok::<
                (Seq<char>, JsonV),
                Seq<char>,
            >((p.0@, p.1@)),
            Err(e) => pin_read(opt_text(codex_toml), opt_text(home), content_view(*content))
                == Err::<(Seq<char>, JsonV), Seq<char>>(e@),
        },
{
    let path = match pin_path(codex_toml, home) {
        Some(p) => p,
        None => {
            return Err(
                "~/.codex/config.toml has no string `model_catalog_json` — run `codexferry gen-catalog --config cxf.toml --out ~/.codex/codexferry-catalog.json` and set `model_catalog_json` to that path".to_owned(),
            );
        },
    };
    let pin = match content {
        Ok(t) => pin_file_check(t.as_str()),
        Err(e) => Err(e.clone()),
    };
    match pin {
        Ok(v) => Ok((path, v)),
        Err(e) => {
            let mut m = path;
            m.append(": ");
            m.append(e.as_str());
            m.append(" — rerun `codexferry gen-catalog`");
            Err(m)
        },
    }
}

/// Whether a list of models has a slug.
pub open spec fn has_slug(models: Seq<JsonV>, k: Seq<char>) -> bool {
    exists|i: int| 0 <= i < models.len() && (#[trigger] models[i]).get_str("slug"@) == Some(k)
}

/// Whether a list of routes has a key.
pub open spec fn has_route(routes: Seq<(Seq<char>, ValidatedRouteV)>, k: Seq<char>) -> bool {
    exists|i: int| 0 <= i < routes.len() && (#[trigger] routes[i]).0 == k
}

/// The models of a pin.
pub open spec fn pin_models(pin: JsonV) -> Seq<JsonV> {
    match pin.get_arr("models"@) {
        Some(a) => a,
        None => Seq::empty(),
    }
}

/// The routes that a pin lacks.
pub open spec fn missing_set(v: ValidatedV, pin: JsonV) -> Set<Seq<char>> {
    Set::new(|k: Seq<char>| has_route(v.routes, k) && !has_slug(pin_models(pin), k))
}

/// The routes that a pin lacks, in ascending order.
pub open spec fn missing_routes(v: ValidatedV, pin: JsonV) -> Seq<Seq<char>> {
    listing(missing_set(v, pin))
}

/// The slugs of a pin that are no routes.
pub open spec fn orphan_set(v: ValidatedV, pin: JsonV) -> Set<Seq<char>> {
    Set::new(|k: Seq<char>| has_slug(pin_models(pin), k) && !has_route(v.routes, k))
}

/// The slugs of a pin that are no routes, in ascending order.
pub open spec fn orphan_slugs(v: ValidatedV, pin: JsonV) -> Seq<Seq<char>> {
    listing(orphan_set(v, pin))
}

/// The check that a pin has every route.
pub open spec fn covers(v: ValidatedV, pin: JsonV) -> CheckV {
    let missing = missing_routes(v, pin);
    if missing.len() == 0 {
        pass_v("pin covers router"@, "every router route is in the pin"@)
    } else {
        fail_v(
            "pin covers router"@,
            "pin is missing "@ + decimal(missing.len()) + " router route(s): "@ + joined(
                missing,
                ", "@,
            ) + " — rerun `codexferry gen-catalog`"@,
        )
    }
}

/// The check that a pin has nothing but routes.
pub open spec fn matches_router(v: ValidatedV, pin: JsonV) -> CheckV {
    let orphans = orphan_slugs(v, pin);
    if orphans.len() == 0 {
        pass_v("pin matches router"@, "every pin slug is a router route"@)
    } else {
        fail_v(
            "pin matches router"@,
            "pin has "@ + decimal(orphans.len()) + " orphan slug(s) not in the router: "@ + joined(
                orphans,
                ", "@,
            ) + " — rerun `codexferry gen-catalog`"@,
        )
    }
}

fn holds_slug(models: &Vec<Json>, k: &str) -> (r: bool)
    ensures
        r == has_slug(items_view(models@), k@),
{
    let ghost all = items_view(models@);
    proof {
        lemma_items_view(models@);
    }
    let mut i: usize = 0;
    while i < models.len()
        invariant
            i <= models@.len(),
            all == items_view(models@),
            all.len() == models@.len(),
            forall|j: int| 0 <= j < all.len() ==> #[trigger] all[j] == models@[j]@,
            forall|j: int| 0 <= j < i ==> (#[trigger] all[j]).get_str("slug"@) != Some(k@),
        decreases models@.len() - i,
    {
        assert(all[i as int] == models@[i as int]@);
        if models[i].field_is("slug", k) {
            return true;
        }
        i = i + 1;
    }
    false
}

fn holds_route(router: &ValidatedConfig, k: &str) -> (r: bool)
    ensures
        r == has_route(router@.routes, k@),
{
    let ghost all = router@.routes;
    let mut i: usize = 0;
    while i < router.routes.len()
        invariant
            i <= router.routes@.len(),
            all == validated_view(router.routes@),
            forall|j: int| 0 <= j < i ==> (#[trigger] all[j]).0 != k@,
        decreases router.routes@.len() - i,
    {
        if same(router.routes[i].0.as_str(), k) {
            assert(all[i as int].0 == k@);
            return true;
        }
        i = i + 1;
    }
    false
}

fn models_in(pin: &Json) -> (r: Vec<Json>)
    ensures
        items_view(r@) == pin_models(pin@),
{
    match pin.get_array("models") {
        Some(models) => dup_items(models),
        None => Vec::new(),
    }
}

fn find_missing(router: &ValidatedConfig, pin: &Json) -> (r: Vec<String>)
    ensures
        views(r@) == missing_routes(router@, pin@),
        lists_set(views(r@), missing_set(router@, pin@)),
{
    let models = models_in(pin);
    let ghost ms = pin_models(pin@);
    let ghost routes = router@.routes;
    let mut names: Vec<String> = Vec::new();
    let mut i: usize = 0;
    while i < router.routes.len()
        invariant
            i <= router.routes@.len(),
            routes == validated_view(router.routes@),
            ms == items_view(models@),
            forall|a: int|
                0 <= a < names@.len() ==> has_route(routes, (#[trigger] names@[a])@) && !has_slug(
                    ms,
                    names@[a]@,
                ),
            forall|k: int|
                0 <= k < i && !has_slug(ms, (#[trigger] routes[k]).0) ==> views(names@).contains(
                    routes[k].0,
                ),
        decreases router.routes@.len() - i,
    {
        let ghost before = names@;
        let key = router.routes[i].0.as_str();
        assert(routes[i as int].0 == key@);
        if !holds_slug(&models, key) {
            names.push(router.routes[i].0.clone());
        }
        proof {
            assert forall|k: int|
                0 <= k < i + 1 && !has_slug(ms, (#[trigger] routes[k]).0) implies views(
                names@,
            ).contains(routes[k].0) by {
                if k < i {
                    let a = choose|a: int|
                        0 <= a < views(before).len() && views(before)[a] == routes[k].0;
                    assert(views(names@)[a] == routes[k].0);
                } else {
                    assert(views(names@)[names@.len() - 1] == routes[k].0);
                }
            }
        }
        i = i + 1;
    }
    proof {
        let want = missing_set(router@, pin@);
        let have = views(names@).to_set();
        assert forall|k: Seq<char>| want.contains(k) implies have.contains(k) by {
            let j = choose|j: int| 0 <= j < routes.len() && (#[trigger] routes[j]).0 == k;
            assert(views(names@).contains(routes[j].0));
        }
        assert forall|k: Seq<char>| have.contains(k) implies want.contains(k) by {
            let a = choose|a: int| 0 <= a < views(names@).len() && views(names@)[a] == k;
            assert(names@[a]@ == k);
        }
        assert(have =~= want);
    }
    sorted_unique(&names)
}

/// The slugs of a pin, in ascending order.
fn pin_slugs(pin: &Json) -> (r: Vec<String>)
    ensures
        views(r@) == listing(Set::new(|k: Seq<char>| has_slug(pin_models(pin@), k))),
        lists_set(views(r@), Set::new(|k: Seq<char>| has_slug(pin_models(pin@), k))),
{
    let models = models_in(pin);
    let ghost ms = pin_models(pin@);
    proof {
        lemma_items_view(models@);
    }
    let mut names: Vec<String> = Vec::new();
    let mut i: usize = 0;
    while i < models.len()
        invariant
            i <= models@.len(),
            ms == items_view(models@),
            ms.len() == models@.len(),
            forall|j: int| 0 <= j < ms.len() ==> #[trigger] ms[j] == models@[j]@,
            forall|a: int| 0 <= a < names@.len() ==> has_slug(ms, (#[trigger] names@[a])@),
            forall|k: int|
                0 <= k < i && (#[trigger] ms[k]).get_str("slug"@) is Some ==> views(
                    names@,
                ).contains(ms[k].get_str("slug"@)->0),
        decreases models@.len() - i,
    {
        let ghost before = names@;
        assert(ms[i as int] == models@[i as int]@);
        if let Some(slug) = models[i].get_str("slug") {
            assert(has_slug(ms, slug@));
            names.push(slug.to_owned());
        }
        proof {
            assert forall|k: int|
                0 <= k < i + 1 && (#[trigger] ms[k]).get_str("slug"@) is Some implies views(
                names@,
            ).contains(ms[k].get_str("slug"@)->0) by {
                let slug = ms[k].get_str("slug"@)->0;
                if k < i {
                    let a = choose|a: int| 0 <= a < views(before).len() && views(before)[a] == slug;
                    assert(views(names@)[a] == slug);
                } else {
                    assert(views(names@)[names@.len() - 1] == slug);
                }
            }
        }
        i = i + 1;
    }
    proof {
        let want = Set::new(|k: Seq<char>| has_slug(ms, k));
        let have = views(names@).to_set();
        assert forall|k: Seq<char>| want.contains(k) implies have.contains(k) by {
            let j = choose|j: int| 0 <= j < ms.len() && (#[trigger] ms[j]).get_str("slug"@) == Some(k);
            assert(views(names@).contains(ms[j].get_str("slug"@)->0));
        }
        assert forall|k: Seq<char>| have.contains(k) implies want.contains(k) by {
            let a = choose|a: int| 0 <= a < views(names@).len() && views(names@)[a] == k;
            assert(names@[a]@ == k);
        }
        assert(have =~= want);
    }
    sorted_unique(&names)
}

fn find_orphans(router: &ValidatedConfig, pin: &Json) -> (r: Vec<String>)
    ensures
        views(r@) == orphan_slugs(router@, pin@),
        lists_set(views(r@), orphan_set(router@, pin@)),
{
    let slugs = pin_slugs(pin);
    let ghost ms = pin_models(pin@);
    let ghost routes = router@.routes;
    let ghost all = views(slugs@);
    let ghost every = Set::new(|k: Seq<char>| has_slug(ms, k));
    let mut names: Vec<String> = Vec::new();
    let mut i: usize = 0;
    while i < slugs.len()
        invariant
            i <= slugs@.len(),
            all == views(slugs@),
            routes == router@.routes,
            lists_set(all, every),
            forall|a: int|
                0 <= a < names@.len() ==> every.contains((#[trigger] names@[a])@) && !has_route(
                    routes,
                    names@[a]@,
                ),
            forall|k: int|
                0 <= k < i && !has_route(routes, #[trigger] all[k]) ==> views(names@).contains(all[k]),
        decreases slugs@.len() - i,
    {
        let ghost before = names@;
        let slug = slugs[i].as_str();
        assert(all[i as int] == slug@);
        if !holds_route(router, slug) {
            names.push(slugs[i].clone());
        }
        proof {
            assert forall|k: int|
                0 <= k < i + 1 && !has_route(routes, #[trigger] all[k]) implies views(
                names@,
            ).contains(all[k]) by {
                if k < i {
                    let a = choose|a: int| 0 <= a < views(before).len() && views(before)[a] == all[k];
                    assert(views(names@)[a] == all[k]);
                } else {
                    assert(views(names@)[names@.len() - 1] == all[k]);
                }
            }
        }
        i = i + 1;
    }
    proof {
        let want = orphan_set(router@, pin@);
        let have = views(names@).to_set();
        assert forall|k: Seq<char>| want.contains(k) implies have.contains(k) by {
            assert(every.contains(k));
            assert(all.contains(k));
            let j = choose|j: int| 0 <= j < all.len() && all[j] == k;
            assert(views(names@).contains(all[j]));
        }
        assert forall|k: Seq<char>| have.contains(k) implies want.contains(k) by {
            let a = choose|a: int| 0 <= a < views(names@).len() && views(names@)[a] == k;
            assert(names@[a]@ == k);
        }
        assert(have =~= want);
    }
    sorted_unique(&names)
}

/// Checks that every route is in the pin.
pub fn pin_covers_router(router: &ValidatedConfig, pin: &Json) -> (r: Check)
    ensures
        r@ == covers(router@, pin@),
        lists_set(missing_routes(router@, pin@), missing_set(router@, pin@)),
{
    let missing = find_missing(router, pin);
    assert(views(missing@).len() == missing@.len());
    if missing.len() == 0 {
        Check::pass("pin covers router", "every router route is in the pin")
    } else {
        let mut detail = "pin is missing ".to_owned();
        detail.append(to_decimal(missing.len() as u64).as_str());
        detail.append(" router route(s): ");
        detail.append(join(&missing, ", ").as_str());
        detail.append(" — rerun `codexferry gen-catalog`");
        Check::fail("pin covers router", detail.as_str())
    }
}

/// Checks that every slug of the pin is a route.
pub fn pin_matches_router(router: &ValidatedConfig, pin: &Json) -> (r: Check)
    ensures
        r@ == matches_router(router@, pin@),
        lists_set(orphan_slugs(router@, pin@), orphan_set(router@, pin@)),
{
    let orphans = find_orphans(router, pin);
    assert(views(orphans@).len() == orphans@.len());
    if orphans.len() == 0 {
        Check::pass("pin matches router", "every pin slug is a router route")
    } else {
        let mut detail = "pin has ".to_owned();
        detail.append(to_decimal(orphans.len() as u64).as_str());
        detail.append(" orphan slug(s) not in the router: ");
        detail.append(join(&orphans, ", ").as_str());
        detail.append(" — rerun `codexferry gen-catalog`");
        Check::fail("pin matches router", detail.as_str())
    }
}

/// The fields that Codex requires of a catalog entry.
pub open spec fn required_fields() -> Seq<Seq<char>> {
    seq![
        "slug"@,
        "display_name"@,
        "supported_reasoning_levels"@,
        "shell_type"@,
        "visibility"@,
        "supported_in_api"@,
        "priority"@,
        "support_verbosity"@,
        "truncation_policy"@,
        "experimental_supported_tools"@,
    ]
}

/// Whether an entry lacks a required field; a slug has to be a string.
pub open spec fn lacks(entry: JsonV, field: Seq<char>) -> bool {
    if field == "slug"@ {
        entry.get_str(field) is None
    } else {
        entry.get(field) is None
    }
}

/// The required fields that an entry lacks, of the first `n`.
pub open spec fn lacking(entry: JsonV, n: int) -> Seq<Seq<char>>
    decreases n,
{
    if n <= 0 {
        Seq::empty()
    } else {
        let rest = lacking(entry, n - 1);
        if lacks(entry, required_fields()[n - 1]) {
            rest.push(required_fields()[n - 1])
        } else {
            rest
        }
    }
}

/// The required fields that an entry lacks.
pub open spec fn missing_fields(entry: JsonV) -> Seq<Seq<char>> {
    lacking(entry, required_fields().len() as int)
}

/// The name of an entry in a report.
pub open spec fn slug_label(entry: JsonV) -> Seq<char> {
    match entry.get("slug"@) {
        Some(v) => match v.as_str() {
            Some(s) => s,
            None => "<non-string slug>"@,
        },
        None => "<missing slug>"@,
    }
}

/// The fields that Codex requires of a catalog entry.
pub fn required_field_names() -> (r: Vec<&'static str>)
    ensures
        r@.len() == required_fields().len(),
        forall|i: int| 0 <= i < r@.len() ==> (#[trigger] r@[i])@ == required_fields()[i],
{
    let mut out: Vec<&'static str> = Vec::new();
    out.push("slug");
    out.push("display_name");
    out.push("supported_reasoning_levels");
    out.push("shell_type");
    out.push("visibility");
    out.push("supported_in_api");
    out.push("priority");
    out.push("support_verbosity");
    out.push("truncation_policy");
    out.push("experimental_supported_tools");
    out
}

fn entry_missing_fields(entry: &Json) -> (r: Vec<String>)
    ensures
        views(r@) == missing_fields(entry@),
{
    let fields = required_field_names();
    let mut out: Vec<String> = Vec::new();
    let mut i: usize = 0;
    assert(views(out@) =~= Seq::<Seq<char>>::empty());
    while i < fields.len()
        invariant
            i <= fields@.len(),
            fields@.len() == required_fields().len(),
            forall|k: int| 0 <= k < fields@.len() ==> (#[trigger] fields@[k])@ == required_fields()[k],
            views(out@) == lacking(entry@, i as int),
        decreases fields@.len() - i,
    {
        let field = fields[i];
        assert(field@ == required_fields()[i as int]);
        let missing = if same(field, "slug") {
            entry.get_str(field).is_none()
        } else {
            entry.get(field).is_none()
        };
        if missing {
            let ghost before = out@;
            let name = field.to_owned();
            out.push(name);
            assert(views(out@) =~= views(before).push(name@));
        }
        i = i + 1;
    }
    out
}

fn entry_slug_label(entry: &Json) -> (r: &str)
    ensures
        r@ == slug_label(entry@),
{
    match entry.get("slug") {
        Some(v) => match v.as_str() {
            Some(s) => s,
            None => "<non-string slug>",
        },
        None => "<missing slug>",
    }
}

/// What is wrong with an entry of a pin.
pub open spec fn entry_fault(entry: JsonV) -> Option<CheckV> {
    if !(entry is Obj) {
        Some(
            fail_v(
                "pin entry shape"@,
                "pin entry <non-object entry> has missing or malformed required field(s)"@,
            ),
        )
    } else if missing_fields(entry).len() > 0 {
        Some(
            fail_v(
                "pin entry shape"@,
                "pin entry "@ + debug_text(slug_label(entry))
                    + " has missing or malformed required field(s): "@ + joined(
                    missing_fields(entry),
                    ", "@,
                ),
            ),
        )
    } else {
        None
    }
}

/// The faults of the first `n` entries.
pub open spec fn entry_faults(models: Seq<JsonV>, n: int) -> Seq<CheckV>
    decreases n,
{
    if n <= 0 {
        Seq::empty()
    } else {
        entry_faults(models, n - 1) + at_most_one(entry_fault(models[n - 1]))
    }
}

/// The check of the entries of a pin: one failure for each entry that lacks a
/// required field, or one pass; nothing where there are no models at all.
pub open spec fn pin_shape(pin: JsonV) -> Seq<CheckV> {
    match pin.get_arr("models"@) {
        None => Seq::empty(),
        Some(models) => {
            let faults = entry_faults(models, models.len() as int);
            if faults.len() == 0 {
                seq![
                    pass_v(
                        "pin entry shape"@,
                        "all "@ + decimal(models.len()) + " pin entries have the required fields"@,
                    ),
                ]
            } else {
                faults
            }
        },
    }
}

fn is_object(v: &Json) -> (r: bool)
    ensures
        r == v@ is Obj,
{
    match v {
        Json::Obj(_) => true,
        _ => false,
    }
}

fn check_entry(entry: &Json) -> (r: Option<Check>)
    ensures
        opt_check(r) == entry_fault(entry@),
{
    if !is_object(entry) {
        return Some(
            Check::fail(
                "pin entry shape",
                "pin entry <non-object entry> has missing or malformed required field(s)",
            ),
        );
    }
    let missing = entry_missing_fields(entry);
    assert(views(missing@).len() == missing@.len());
    if missing.len() > 0 {
        let mut detail = "pin entry ".to_owned();
        detail.append(quoted(entry_slug_label(entry)).as_str());
        detail.append(" has missing or malformed required field(s): ");
        detail.append(join(&missing, ", ").as_str());
        return Some(Check::fail("pin entry shape", detail.as_str()));
    }
    None
}

/// Checks that every entry of a pin has the fields that Codex requires.
pub fn pin_field_shape(pin: &Json) -> (r: Vec<Check>)
    ensures
        checks_view(r@) == pin_shape(pin@),
{
    let mut checks: Vec<Check> = Vec::new();
    assert(checks_view(checks@) =~= Seq::<CheckV>::empty());
    let models = match pin.get_array("models") {
        Some(m) => m,
        None => {
            return checks;
        },
    };
    let ghost all = items_view(models@);
    proof {
        lemma_items_view(models@);
    }
    let mut i: usize = 0;
    while i < models.len()
        invariant
            i <= models@.len(),
            all == items_view(models@),
            all.len() == models@.len(),
            forall|j: int| 0 <= j < all.len() ==> #[trigger] all[j] == models@[j]@,
            checks_view(checks@) == entry_faults(all, i as int),
        decreases models@.len() - i,
    {
        assert(all[i as int] == models@[i as int]@);
        push_opt(&mut checks, check_entry(&models[i]));
        i = i + 1;
    }
    assert(checks_view(checks@).len() == checks@.len());
    if checks.len() == 0 {
        let mut detail = "all ".to_owned();
        detail.append(to_decimal(models.len() as u64).as_str());
        detail.append(" pin entries have the required fields");
        push_check(&mut checks, Check::pass("pin entry shape", detail.as_str()));
        proof {
            lemma_no_faults(all, all.len() as int);
        }
        assert(checks_view(checks@) =~= pin_shape(pin@));
    }
    checks
}

proof fn lemma_no_faults(models: Seq<JsonV>, n: int)
    ensures
        entry_faults(models, n).len() == 0 ==> entry_faults(models, n) == Seq::<CheckV>::empty(),
{
    if entry_faults(models, n).len() == 0 {
        assert(entry_faults(models, n) =~= Seq::<CheckV>::empty());
    }
}

/// The answer of the model list endpoint: its status and body, or why there is
/// none.
pub type ModelsFetch = Result<(u16, String), String>;

/// What an answer of the endpoint denotes.
pub open spec fn fetch_view(f: ModelsFetch) -> Result<(u16, Seq<char>), Seq<char>> {
    match f {
        Ok((s, b)) => Ok((s, b@)),
        Err(e) => Err(e@),
    }
}

/// The check that the endpoint answers.
pub open spec fn reachable(f: Result<(u16, Seq<char>), Seq<char>>) -> CheckV {
    match f {
        Ok((s, _)) => if 200 <= s < 300 {
            pass_v(
                "models endpoint reachable"@,
                "GET /v1/models returned HTTP "@ + decimal(s as nat),
            )
        } else {
            fail_v(
                "models endpoint reachable"@,
                "GET /v1/models returned HTTP "@ + decimal(s as nat)
                    + " — the dynamic-mode catalog endpoint is down; start the daemon / check `models_cache.rs::CatalogCache::get` (the server-side catalog path)"@,
            )
        },
        Err(e) => fail_v(
            "models endpoint reachable"@,
            "GET /v1/models failed: "@ + e
                + " — the dynamic-mode catalog endpoint is down; start the daemon / check `models_cache.rs::CatalogCache::get` (the server-side catalog path)"@,
        ),
    }
}

/// Checks that the model list endpoint answers.
pub fn models_endpoint_reachable(fetch: &ModelsFetch) -> (r: Check)
    ensures
        r@ == reachable(fetch_view(*fetch)),
{
    match fetch {
        Ok((status, _)) => {
            let mut detail = "GET /v1/models returned HTTP ".to_owned();
            detail.append(to_decimal(*status as u64).as_str());
            if 200 <= *status && *status < 300 {
                Check::pass("models endpoint reachable", detail.as_str())
            } else {
                detail.append(
                    " — the dynamic-mode catalog endpoint is down; start the daemon / check `models_cache.rs::CatalogCache::get` (the server-side catalog path)",
                );
                Check::fail("models endpoint reachable", detail.as_str())
            }
        },
        Err(e) => {
            let mut detail = "GET /v1/models failed: ".to_owned();
            detail.append(e.as_str());
            detail.append(
                " — the dynamic-mode catalog endpoint is down; start the daemon / check `models_cache.rs::CatalogCache::get` (the server-side catalog path)",
            );
            Check::fail("models endpoint reachable", detail.as_str())
        },
    }
}

/// What is wrong with the `i`-th entry of a model list.
pub open spec fn offence(entry: JsonV, i: int) -> Option<Seq<char>> {
    if !(entry is Obj) {
        Some("models["@ + decimal(i as nat) + "] is not an object"@)
    } else if missing_fields(entry).len() > 0 {
        Some(
            debug_text(slug_label(entry)) + " missing "@ + joined(missing_fields(entry), ", "@),
        )
    } else {
        None
    }
}

/// What is wrong with the first `n` entries of a model list.
pub open spec fn offences(models: Seq<JsonV>, n: int) -> Seq<Seq<char>>
    decreases n,
{
    if n <= 0 {
        Seq::empty()
    } else {
        match offence(models[n - 1], n - 1) {
            Some(o) => offences(models, n - 1).push(o),
            None => offences(models, n - 1),
        }
    }
}

/// The check that a model list has entries with the required fields.
pub open spec fn list_shape(models: Seq<JsonV>) -> CheckV {
    let bad = offences(models, models.len() as int);
    if bad.len() == 0 {
        pass_v(
            "models endpoint shape"@,
            "all "@ + decimal(models.len()) + " entries have the required fields"@,
        )
    } else {
        fail_v(
            "models endpoint shape"@,
            decimal(bad.len()) + " entry(ies) missing required fields: "@ + joined(bad, "; "@),
        )
    }
}

/// The check that the endpoint answers with a catalog.
pub open spec fn answer_shape(f: Result<(u16, Seq<char>), Seq<char>>) -> CheckV {
    match f {
        Err(e) => fail_v(
            "models endpoint shape"@,
            "GET /v1/models failed: "@ + e + " — cannot verify the catalog shape"@,
        ),
        Ok((s, body)) => if !(200 <= s < 300) {
            fail_v(
                "models endpoint shape"@,
                "GET /v1/models returned HTTP "@ + decimal(s as nat)
                    + "; cannot verify the catalog shape"@,
            )
        } else {
            match json_read(body) {
                Err(e) => fail_v("models endpoint shape"@, "response is not valid JSON: "@ + e),
                Ok(v) => match v.get_arr("models"@) {
                    None => fail_v(
                        "models endpoint shape"@,
                        "response has no `models` array (not a catalog response)"@,
                    ),
                    Some(models) => list_shape(models),
                },
            }
        },
    }
}

fn find_offence(entry: &Json, i: usize) -> (r: Option<String>)
    ensures
        opt_str(r) == offence(entry@, i as int),
{
    if !is_object(entry) {
        let mut out = "models[".to_owned();
        out.append(to_decimal(i as u64).as_str());
        out.append("] is not an object");
        return Some(out);
    }
    let missing = entry_missing_fields(entry);
    assert(views(missing@).len() == missing@.len());
    if missing.len() > 0 {
        let mut out = quoted(entry_slug_label(entry));
        out.append(" missing ");
        out.append(join(&missing, ", ").as_str());
        return Some(out);
    }
    None
}

/// Checks that the entries of a model list have the required fields.
pub fn model_list_shape(models: &Vec<Json>) -> (r: Check)
    ensures
        r@ == list_shape(items_view(models@)),
{
    let ghost all = items_view(models@);
    proof {
        lemma_items_view(models@);
    }
    let mut bad: Vec<String> = Vec::new();
    let mut i: usize = 0;
    assert(views(bad@) =~= Seq::<Seq<char>>::empty());
    while i < models.len()
        invariant
            i <= models@.len(),
            all == items_view(models@),
            all.len() == models@.len(),
            forall|j: int| 0 <= j < all.len() ==> #[trigger] all[j] == models@[j]@,
            views(bad@) == offences(all, i as int),
        decreases models@.len() - i,
    {
        assert(all[i as int] == models@[i as int]@);
        if let Some(o) = find_offence(&models[i], i) {
            let ghost before = bad@;
            bad.push(o);
            assert(views(bad@) =~= views(before).push(o@));
        }
        i = i + 1;
    }
    assert(views(bad@).len() == bad@.len());
    if bad.len() == 0 {
        let mut detail = "all ".to_owned();
        detail.append(to_decimal(models.len() as u64).as_str());
        detail.append(" entries have the required fields");
        Check::pass("models endpoint shape", detail.as_str())
    } else {
        let mut detail = to_decimal(bad.len() as u64);
        detail.append(" entry(ies) missing required fields: ");
        detail.append(join(&bad, "; ").as_str());
        Check::fail("models endpoint shape", detail.as_str())
    }
}

/// Checks that the model list endpoint answers with a catalog.
pub fn models_endpoint_shape(fetch: &ModelsFetch) -> (r: Check)
    ensures
        r@ == answer_shape(fetch_view(*fetch)),
{
    match fetch {
        Err(e) => {
            let mut detail = "GET /v1/models failed: ".to_owned();
            detail.append(e.as_str());
            detail.append(" — cannot verify the catalog shape");
            Check::fail("models endpoint shape", detail.as_str())
        },
        Ok((status, body)) => if *status < 200 || *status >= 300 {
            let mut detail = "GET /v1/models returned HTTP ".to_owned();
            detail.append(to_decimal(*status as u64).as_str());
            detail.append("; cannot verify the catalog shape");
            Check::fail("models endpoint shape", detail.as_str())
        } else {
            match Json::read(body.as_str()) {
                Err(e) => {
                    let mut detail = "response is not valid JSON: ".to_owned();
                    detail.append(e.as_str());
                    Check::fail("models endpoint shape", detail.as_str())
                },
                Ok(v) => match v.get_array("models") {
                    None => Check::fail(
                        "models endpoint shape",
                        "response has no `models` array (not a catalog response)",
                    ),
                    Some(models) => model_list_shape(models),
                },
            }
        },
    }
}

/// The reminder that an installed version has not been verified; none where no
/// version can be read.
pub open spec fn age(version: Option<Seq<char>>) -> Option<CheckV> {
    match version_in_opt(version) {
        Some(v) => Some(
            info_v(
                "codex version age"@,
                v
                    + " has not been verified by codexferry doctor yet; run `codexferry doctor --live` to establish a baseline"@,
            ),
        ),
        None => None,
    }
}

/// Reminds of an installed version that has not been verified. No version has
/// been yet.
pub fn version_age(codex_version: Option<&str>) -> (r: Option<Check>)
    ensures
        opt_check(r) == age(opt_text(codex_version)),
{
    match codex_version {
        Some(raw) => match normalize_version(raw) {
            Some(cur) => {
                let mut detail = cur;
                detail.append(
                    " has not been verified by codexferry doctor yet; run `codexferry doctor --live` to establish a baseline",
                );
                Some(Check::info("codex version age", detail.as_str()))
            },
            None => None,
        },
        None => None,
    }
}

/// The check of the installed version against the last one that passed: a
/// pass only where both can be read and are the same.
pub open spec fn status_of(version: Option<Seq<char>>, last_green: Option<Seq<char>>) -> CheckV {
    match version {
        None => info_v("codex version status"@, "codex not found — skipped"@),
        Some(out) => match version_in(out) {
            None => info_v(
                "codex version status"@,
                "could not parse `codex --version` output"@,
            ),
            Some(c) => match version_in_opt(last_green) {
                Some(g) => if c == g {
                    pass_v("codex version status"@, c + " (verified by doctor)"@)
                } else {
                    info_v(
                        "codex version status"@,
                        c + " not verified (last green: "@ + g + ") — rerun `codexferry doctor`"@,
                    )
                },
                None => info_v(
                    "codex version status"@,
                    c + " not verified (last green: "@ + "none"@ + ") — rerun `codexferry doctor`"@,
                ),
            },
        },
    }
}

/// Checks the installed version against the last one that passed. It never
/// fails.
pub fn version_status(codex_version_output: Option<String>, state: &DoctorState) -> (r: Check)
    ensures
        r@ == status_of(opt_str(codex_version_output), opt_str(state.last_green)),
{
    let out = match codex_version_output {
        Some(o) => o,
        None => {
            return Check::info("codex version status", "codex not found — skipped");
        },
    };
    let cur = match normalize_version(out.as_str()) {
        Some(c) => c,
        None => {
            return Check::info(
                "codex version status",
                "could not parse `codex --version` output",
            );
        },
    };
    let green = match &state.last_green {
        Some(g) => normalize_version(g.as_str()),
        None => None,
    };
    if let Some(g) = &green {
        if same(cur.as_str(), g.as_str()) {
            let mut detail = cur;
            detail.append(" (verified by doctor)");
            return Check::pass("codex version status", detail.as_str());
        }
    }
    let mut detail = cur;
    detail.append(" not verified (last green: ");
    match &green {
        Some(g) => {
            detail.append(g.as_str());
        },
        None => {
            detail.append("none");
        },
    }
    detail.append(") — rerun `codexferry doctor`");
    Check::info("codex version status", detail.as_str())
}

/// The address at which Codex should find the router.
pub open spec fn base_of(host: Seq<char>, port: u16) -> Seq<char> {
    "http://"@ + host + ":"@ + decimal(port as nat) + "/v1"@
}

/// The address at which Codex should find the router.
pub fn expected_base(server: &ServerConfig) -> (r: String)
    ensures
        r@ == base_of(server.host@, server.port),
{
    let mut out = "http://".to_owned();
    out.append(server.host.as_str());
    out.append(":");
    out.append(to_decimal(server.port as u64).as_str());
    out.append("/v1");
    out
}

/// The provider that Codex's configuration selects.
pub open spec fn selected_provider(text: Option<Seq<char>>) -> Seq<char> {
    match document_in(text) {
        Some(doc) => match doc.get_str("model_provider"@) {
            Some(p) => p,
            None => DEFAULT_ACTIVE_PROVIDER@,
        },
        None => DEFAULT_ACTIVE_PROVIDER@,
    }
}

/// The provider that Codex's configuration selects.
pub fn active_provider(codex_toml: Option<&str>) -> (r: String)
    ensures
        r@ == selected_provider(opt_text(codex_toml)),
{
    if let Some(doc) = parse_codex_toml(codex_toml) {
        if let Some(p) = doc.get_str("model_provider") {
            return p.to_owned();
        }
    }
    DEFAULT_ACTIVE_PROVIDER.to_owned()
}

/// What the offline checks go by.
#[derive(Debug)]
pub struct OfflineInputs {
    /// The router's configuration, or why it could not be read.
    pub config_text: Result<String, String>,
    /// The catalog template, or why it could not be read.
    pub template: Result<Option<Json>, String>,
    /// Codex's configuration.
    pub codex_toml: Option<String>,
    /// What `codex --version` printed.
    pub codex_version: Option<String>,
    pub state: DoctorState,
    /// The home directory.
    pub home: Option<String>,
    /// What the file at [`pin_path`] holds, or why it could not be read.
    pub pin_content: Result<String, String>,
    /// The answer of the model list endpoint.
    pub fetch: ModelsFetch,
}

/// What [`OfflineInputs`] denote, but for the configuration and the template.
pub struct EnvV {
    pub codex_toml: Option<Seq<char>>,
    pub codex_version: Option<Seq<char>>,
    pub last_green: Option<Seq<char>>,
    pub home: Option<Seq<char>>,
    pub pin: Result<Seq<char>, Seq<char>>,
    pub fetch: Result<(u16, Seq<char>), Seq<char>>,
}

impl OfflineInputs {
    /// The environment of the checks.
    pub open spec fn env(self) -> EnvV {
        EnvV {
            codex_toml: opt_str(self.codex_toml),
            codex_version: opt_str(self.codex_version),
            last_green: opt_str(self.state.last_green),
            home: opt_str(self.home),
            pin: content_view(self.pin_content),
            fetch: fetch_view(self.fetch),
        }
    }
}

/// The name of a wiring.
pub open spec fn mode_name(m: Mode) -> Seq<char> {
    match m {
        Mode::Pinned => "Pinned"@,
        Mode::Dynamic => "Dynamic"@,
        Mode::Fallback => "Fallback"@,
    }
}

/// The checks that every wiring has, of a configuration that loads.
pub open spec fn common_checks(
    v: ValidatedV,
    template: Option<JsonV>,
    mode: Mode,
    provider: Seq<char>,
    toml: Option<Seq<char>>,
) -> Seq<CheckV> {
    let n = v.routes.len();
    let dropped = dropped_fields(v, template);
    Seq::empty().push(pass_v("config loads"@, decimal(n) + " route(s)"@)).push(
        if n == 0 {
            fail_v(
                "router has routes"@,
                "no routes in config — add at least one [routes] entry"@,
            )
        } else {
            pass_v("router has routes"@, decimal(n))
        },
    ).push(
        info_v(
            "template fields dropped"@,
            if dropped.len() == 0 {
                "none"@
            } else {
                joined(dropped, ", "@)
            },
        ),
    ).push(
        info_v(
            "detected mode"@,
            mode_name(mode) + " (active provider: "@ + provider + ")"@,
        ),
    ).push(wiring_report(toml, base_of(v.host, v.port)))
}

/// The checks of a pinned catalog.
pub open spec fn pinned_checks(v: ValidatedV, env: EnvV) -> Seq<CheckV> {
    at_most_one(pin_shadow_report(env.codex_toml)) + match pin_read(
        env.codex_toml,
        env.home,
        env.pin,
    ) {
        Err(e) => seq![fail_v("pin unreadable"@, e)],
        Ok((path, pin)) => seq![pass_v("pin exists and parses"@, path), covers(v, pin), matches_router(v, pin)]
            + pin_shape(pin),
    }
}

/// The checks of the model list endpoint.
pub open spec fn dynamic_checks(env: EnvV) -> Seq<CheckV> {
    at_most_one(pin_shadow_report(env.codex_toml)) + seq![
        reachable(env.fetch),
        answer_shape(env.fetch),
    ]
}

/// The report of a configuration that loads.
pub open spec fn offline_report(
    v: ValidatedV,
    template: Option<JsonV>,
    mode: Mode,
    provider: Seq<char>,
    env: EnvV,
) -> Seq<CheckV> {
    common_checks(v, template, mode, provider, env.codex_toml) + at_most_one(
        mode_keyed_report(env.codex_toml, mode),
    ) + match mode {
        Mode::Pinned => pinned_checks(v, env),
        Mode::Dynamic => dynamic_checks(env),
        Mode::Fallback => Seq::empty(),
    } + at_most_one(age(env.codex_version)) + seq![status_of(env.codex_version, env.last_green)]
}

/// The report of a configuration that does not load.
pub open spec fn load_failure(message: Seq<char>) -> Seq<CheckV> {
    seq![fail_v("config loads"@, message)]
}

/// What a template that was read denotes, or why it could not be read.
pub open spec fn template_view(t: Result<Option<Json>, String>) -> Result<
    Option<JsonV>,
    Seq<char>,
> {
    match t {
        Ok(j) => Ok(opt_json(j)),
        Err(e) => Err(e@),
    }
}

/// Whether `r` is the report on a configuration.
pub open spec fn reports_on(
    c: ConfigV,
    template: Result<Option<JsonV>, Seq<char>>,
    mode: Mode,
    provider: Seq<char>,
    env: EnvV,
    r: Seq<CheckV>,
) -> bool {
    match validated(c) {
        Err(e) => r == load_failure(error_text(e)),
        Ok(v) => match template {
            Err(e) => r == load_failure(e),
            Ok(t) => r == offline_report(v, t, mode, provider, env),
        },
    }
}

/// Whether `r` is the report on a configuration text: the configuration is one
/// that the text describes, and where it or the template does not load there
/// is a single failure.
pub open spec fn reports(
    text: Result<Seq<char>, Seq<char>>,
    template: Result<Option<JsonV>, Seq<char>>,
    mode: Mode,
    provider: Seq<char>,
    env: EnvV,
    r: Seq<CheckV>,
) -> bool {
    match text {
        Err(e) => r == load_failure(e),
        Ok(t) => match toml_parse(t) {
            Err(e) => r == load_failure(e),
            Ok(doc) => match document_fault(doc) {
                Some(m) => r == load_failure(m),
                None => exists|c: ConfigV|
                    #[trigger] describes(doc, c) && reports_on(c, template, mode, provider, env, r),
            },
        },
    }
}

fn as_text(s: &Option<String>) -> (r: Option<&str>)
    ensures
        opt_text(r) == opt_str(*s),
{
    match s {
        Some(x) => Some(x.as_str()),
        None => None,
    }
}

fn as_template(t: &Option<Json>) -> (r: Option<&Json>)
    ensures
        opt_view(r) == opt_json(*t),
{
    match t {
        Some(x) => Some(x),
        None => None,
    }
}

fn single_failure(message: &str) -> (r: Vec<Check>)
    ensures
        checks_view(r@) == load_failure(message@),
{
    let mut checks: Vec<Check> = Vec::new();
    push_check(&mut checks, Check::fail("config loads", message));
    assert(checks_view(checks@) =~= load_failure(message@));
    checks
}

fn build_common(
    v: &ValidatedConfig,
    template: Option<&Json>,
    mode: Mode,
    provider: &str,
    toml: Option<&str>,
) -> (r: Vec<Check>)
    ensures
        checks_view(r@) == common_checks(v@, opt_view(template), mode, provider@, opt_text(toml)),
{
    let generated = build_catalog_value(v, template);
    let n: u64 = v.routes.len() as u64;
    let mut checks: Vec<Check> = Vec::new();
    assert(checks_view(checks@) =~= Seq::<CheckV>::empty());
    let mut loads = to_decimal(n);
    loads.append(" route(s)");
    push_check(&mut checks, Check::pass("config loads", loads.as_str()));
    if n == 0 {
        push_check(
            &mut checks,
            Check::fail(
                "router has routes",
                "no routes in config — add at least one [routes] entry",
            ),
        );
    } else {
        push_check(&mut checks, Check::pass("router has routes", to_decimal(n).as_str()));
    }
    let dropped = &generated.dropped_template_fields;
    assert(views(dropped@).len() == dropped@.len());
    if dropped.len() == 0 {
        push_check(&mut checks, Check::info("template fields dropped", "none"));
    } else {
        push_check(
            &mut checks,
            Check::info("template fields dropped", join(dropped, ", ").as_str()),
        );
    }
    let mut wired = match mode {
        Mode::Pinned => "Pinned".to_owned(),
        Mode::Dynamic => "Dynamic".to_owned(),
        Mode::Fallback => "Fallback".to_owned(),
    };
    wired.append(" (active provider: ");
    wired.append(provider);
    wired.append(")");
    push_check(&mut checks, Check::info("detected mode", wired.as_str()));
    push_check(&mut checks, wiring_check(toml, expected_base(&v.server).as_str()));
    checks
}

fn build_pinned(v: &ValidatedConfig, inputs: &OfflineInputs) -> (r: Vec<Check>)
    ensures
        checks_view(r@) == pinned_checks(v@, inputs.env()),
{
    let toml = as_text(&inputs.codex_toml);
    let mut checks: Vec<Check> = Vec::new();
    push_opt(&mut checks, pin_shadow_warn(toml));
    let ghost head = checks_view(checks@);
    assert(head =~= at_most_one(pin_shadow_report(inputs.env().codex_toml)));
    match read_pin(toml, as_text(&inputs.home), &inputs.pin_content) {
        Err(e) => {
            push_check(&mut checks, Check::fail("pin unreadable", e.as_str()));
            assert(checks_view(checks@) =~= head + seq![fail_v("pin unreadable"@, e@)]);
        },
        Ok((path, pin)) => {
            push_check(&mut checks, Check::pass("pin exists and parses", path.as_str()));
            push_check(&mut checks, pin_covers_router(v, &pin));
            push_check(&mut checks, pin_matches_router(v, &pin));
            push_all(&mut checks, pin_field_shape(&pin));
            assert(checks_view(checks@) =~= head + (seq![
                pass_v("pin exists and parses"@, path@),
                covers(v@, pin@),
                matches_router(v@, pin@),
            ] + pin_shape(pin@)));
        },
    }
    checks
}

fn build_dynamic(inputs: &OfflineInputs) -> (r: Vec<Check>)
    ensures
        checks_view(r@) == dynamic_checks(inputs.env()),
{
    let mut checks: Vec<Check> = Vec::new();
    push_opt(&mut checks, pin_shadow_warn(as_text(&inputs.codex_toml)));
    push_check(&mut checks, models_endpoint_reachable(&inputs.fetch));
    push_check(&mut checks, models_endpoint_shape(&inputs.fetch));
    assert(checks_view(checks@) =~= dynamic_checks(inputs.env()));
    checks
}

/// The report on a validated configuration.
pub fn report_on_config(
    v: &ValidatedConfig,
    template: Option<&Json>,
    mode: Mode,
    active_provider: &str,
    inputs: &OfflineInputs,
) -> (r: Vec<Check>)
    ensures
        checks_view(r@) == offline_report(
            v@,
            opt_view(template),
            mode,
            active_provider@,
            inputs.env(),
        ),
{
    let toml = as_text(&inputs.codex_toml);
    let mut checks = build_common(v, template, mode, active_provider, toml);
    push_opt(&mut checks, mode_keyed_check(toml, mode));
    let ghost head = checks_view(checks@);
    match mode {
        Mode::Pinned => {
            push_all(&mut checks, build_pinned(v, inputs));
        },
        Mode::Dynamic => {
            push_all(&mut checks, build_dynamic(inputs));
        },
        Mode::Fallback => {
            assert(checks_view(checks@) =~= head + Seq::<CheckV>::empty());
        },
    }
    push_opt(&mut checks, version_age(as_text(&inputs.codex_version)));
    let ghost before = checks_view(checks@);
    let version = match &inputs.codex_version {
        Some(x) => Some(x.clone()),
        None => None,
    };
    let status = version_status(version, &inputs.state);
    push_check(&mut checks, status);
    assert(before.push(status@) =~= before + seq![status@]);
    checks
}

/// The offline checks, for a given wiring: the report on the configuration, or
/// the single failure to load it or the template.
pub fn offline_checks_with_mode(inputs: &OfflineInputs, mode: Mode, active_provider: &str) -> (r:
    Vec<Check>)
    ensures
        reports(
            content_view(inputs.config_text),
            template_view(inputs.template),
            mode,
            active_provider@,
            inputs.env(),
            checks_view(r@),
        ),
{
    let text = match &inputs.config_text {
        Ok(t) => t,
        Err(e) => {
            return single_failure(e.as_str());
        },
    };
    let config = match Config::parse_str(text.as_str()) {
        Ok(c) => c,
        Err(e) => {
            return single_failure(e.message().as_str());
        },
    };
    let ghost c = config@;
    let checks = match config.validate() {
        Err(e) => single_failure(e.message().as_str()),
        Ok(v) => match &inputs.template {
            Err(e) => single_failure(e.as_str()),
            Ok(t) => report_on_config(&v, as_template(t), mode, active_provider, inputs),
        },
    };
    assert(reports_on(
        c,
        template_view(inputs.template),
        mode,
        active_provider@,
        inputs.env(),
        checks_view(checks@),
    ));
    checks
}

/// The wiring that the text of Codex's configuration describes.
pub open spec fn mode_in(text: Option<Seq<char>>) -> Mode {
    match document_in(text) {
        Some(doc) => mode_of(doc, selected_provider(text)),
        None => Mode::Fallback,
    }
}

/// The offline checks, for the wiring of Codex's configuration.
pub fn offline_checks_with_env(inputs: &OfflineInputs) -> (r: Vec<Check>)
    ensures
        reports(
            content_view(inputs.config_text),
            template_view(inputs.template),
            mode_in(inputs.env().codex_toml),
            selected_provider(inputs.env().codex_toml),
            inputs.env(),
            checks_view(r@),
        ),
{
    let toml = as_text(&inputs.codex_toml);
    let provider = active_provider(toml);
    let mode = detect_mode(toml, provider.as_str());
    offline_checks_with_mode(inputs, mode, provider.as_str())
}

proof fn lemma_complete_entry(
    template: Option<JsonV>,
    key: Seq<char>,
    route: ValidatedRouteV,
    n: int,
)
    requires
        0 <= n <= required_fields().len(),
    ensures
        lacking(route_entry(seed_of(template), key, route), n) == Seq::<Seq<char>>::empty(),
    decreases n,
{
    let entry = route_entry(seed_of(template), key, route);
    if n > 0 {
        lemma_complete_entry(template, key, route, n - 1);
        let field = required_fields()[n - 1];
        assert(is_pinned(field));
        entries_are_complete(template, key, route, field);
        lemma_slug(seed_of(template), key, route);
    }
}

proof fn lemma_no_entry_faults(v: ValidatedV, template: Option<JsonV>, n: int)
    requires
        0 <= n <= catalog_models(v.routes, seed_of(template)).len(),
    ensures
        entry_faults(catalog_models(v.routes, seed_of(template)), n) == Seq::<CheckV>::empty(),
        offences(catalog_models(v.routes, seed_of(template)), n) == Seq::<Seq<char>>::empty(),
    decreases n,
{
    if n > 0 {
        lemma_no_entry_faults(v, template, n - 1);
        let models = catalog_models(v.routes, seed_of(template));
        let p = ascending(keys_of(v.routes), v.routes.len() as int)[n - 1];
        let entry = route_entry(seed_of(template), v.routes[p].0, v.routes[p].1);
        assert(models[n - 1] == entry);
        lemma_complete_entry(
            template,
            v.routes[p].0,
            v.routes[p].1,
            required_fields().len() as int,
        );
        assert(entry is Obj);
    }
}

/// A freshly generated catalog passes the checks of a pin, whatever the
/// template: it has every route, nothing but routes, and every required field.
/// The same holds of the check of the model list endpoint.
pub proof fn fresh_catalog_passes(v: ValidatedV, template: Option<JsonV>)
    ensures
        covers(v, catalog_of(v, template)).status == CheckStatus::Pass,
        matches_router(v, catalog_of(v, template)).status == CheckStatus::Pass,
        !has_fail(pin_shape(catalog_of(v, template))),
        pin_shape(catalog_of(v, template)).len() == 1,
        list_shape(catalog_models(v.routes, seed_of(template))).status == CheckStatus::Pass,
{
    let seed = seed_of(template);
    let models = catalog_models(v.routes, seed);
    let keys = keys_of(v.routes);
    let order = ascending(keys, v.routes.len() as int);
    let pin = catalog_of(v, template);
    assert(pin.get_arr("models"@) == Some(models));
    catalog_lists_every_route(v, template);
    ascending_is_sorted(keys, v.routes.len() as int);
    let missing = Set::new(|k: Seq<char>| has_route(v.routes, k) && !has_slug(models, k));
    assert forall|k: Seq<char>| !#[trigger] missing.contains(k) by {
        if has_route(v.routes, k) {
            let p = choose|p: int| 0 <= p < v.routes.len() && (#[trigger] v.routes[p]).0 == k;
            let i = choose|i: int|
                0 <= i < models.len() && #[trigger] models[i] == route_entry(
                    seed,
                    v.routes[p].0,
                    v.routes[p].1,
                ) && models[i].get_str("slug"@) == Some(v.routes[p].0);
            assert(has_slug(models, k));
        }
    }
    listing_of_nothing(missing);
    assert(missing =~= Set::new(
        |k: Seq<char>| has_route(v.routes, k) && !has_slug(pin_models(pin), k),
    ));
    let orphans = Set::new(|k: Seq<char>| has_slug(models, k) && !has_route(v.routes, k));
    assert forall|k: Seq<char>| !#[trigger] orphans.contains(k) by {
        if has_slug(models, k) {
            let i = choose|i: int|
                0 <= i < models.len() && (#[trigger] models[i]).get_str("slug"@) == Some(k);
            let p = order[i];
            lemma_slug(seed, v.routes[p].0, v.routes[p].1);
            assert(v.routes[p].0 == k);
        }
    }
    listing_of_nothing(orphans);
    assert(orphans =~= Set::new(
        |k: Seq<char>| has_slug(pin_models(pin), k) && !has_route(v.routes, k),
    ));
    lemma_no_entry_faults(v, template, models.len() as int);
}

/// No check of the user's side ever fails: not the wiring, not the pin against
/// it, not a shadowing pin, not the version.
pub proof fn advice_never_fails(
    toml: Option<Seq<char>>,
    base: Seq<char>,
    mode: Mode,
    version: Option<Seq<char>>,
    last_green: Option<Seq<char>>,
)
    ensures
        wiring_report(toml, base).status != CheckStatus::Fail,
        mode_keyed_report(toml, mode) matches Some(c) ==> c.status != CheckStatus::Fail,
        pin_shadow_report(toml) matches Some(c) ==> c.status != CheckStatus::Fail,
        age(version) matches Some(c) ==> c.status != CheckStatus::Fail,
        status_of(version, last_green).status != CheckStatus::Fail,
{
}

/// A version counts as verified only where it and the last green one can be
/// read and are the same: two that cannot be read never match.
pub proof fn unreadable_versions_never_match(
    version: Option<Seq<char>>,
    last_green: Option<Seq<char>>,
)
    ensures
        status_of(version, last_green).status == CheckStatus::Pass <==> (version_in_opt(
            version,
        ) is Some && version_in_opt(version) == version_in_opt(last_green)),
{
}

/// The report on a configuration fails exactly where it has no routes, where a
/// pin is unreadable, incomplete, stale or malformed, or where the model list
/// endpoint does not answer with a catalog.
pub proof fn failures_of_a_report(
    v: ValidatedV,
    template: Option<JsonV>,
    mode: Mode,
    provider: Seq<char>,
    env: EnvV,
)
    ensures
        has_fail(offline_report(v, template, mode, provider, env)) <==> (v.routes.len() == 0
            || match mode {
            Mode::Pinned => match pin_read(env.codex_toml, env.home, env.pin) {
                Err(_) => true,
                Ok((_, pin)) => covers(v, pin).status == CheckStatus::Fail || matches_router(
                    v,
                    pin,
                ).status == CheckStatus::Fail || has_fail(pin_shape(pin)),
            },
            Mode::Dynamic => reachable(env.fetch).status == CheckStatus::Fail || answer_shape(
                env.fetch,
            ).status == CheckStatus::Fail,
            Mode::Fallback => false,
        }),
{
    advice_never_fails(
        env.codex_toml,
        base_of(v.host, v.port),
        mode,
        env.codex_version,
        env.last_green,
    );
    let common = common_checks(v, template, mode, provider, env.codex_toml);
    let keyed = at_most_one(mode_keyed_report(env.codex_toml, mode));
    let wired = match mode {
        Mode::Pinned => pinned_checks(v, env),
        Mode::Dynamic => dynamic_checks(env),
        Mode::Fallback => Seq::empty(),
    };
    let aged = at_most_one(age(env.codex_version));
    let status = seq![status_of(env.codex_version, env.last_green)];
    let shadow = at_most_one(pin_shadow_report(env.codex_toml));
    assert(common[1].status == CheckStatus::Fail <==> v.routes.len() == 0);
    assert(has_fail(common) <==> v.routes.len() == 0);
    assert(!has_fail(keyed) && !has_fail(aged) && !has_fail(status) && !has_fail(shadow));
    match mode {
        Mode::Pinned => match pin_read(env.codex_toml, env.home, env.pin) {
            Err(e) => {
                let t = seq![fail_v("pin unreadable"@, e)];
                assert(t[0].status == CheckStatus::Fail);
                assert(has_fail(t));
                lemma_fail_in_either(shadow, t);
            },
            Ok((path, pin)) => {
                let t = seq![
                    pass_v("pin exists and parses"@, path),
                    covers(v, pin),
                    matches_router(v, pin),
                ];
                assert(t[0].status == CheckStatus::Pass);
                assert(t[1] == covers(v, pin));
                assert(t[2] == matches_router(v, pin));
                assert(has_fail(t) <==> covers(v, pin).status == CheckStatus::Fail
                    || matches_router(v, pin).status == CheckStatus::Fail);
                lemma_fail_in_either(t, pin_shape(pin));
                lemma_fail_in_either(shadow, t + pin_shape(pin));
            },
        },
        Mode::Dynamic => {
            let t = seq![reachable(env.fetch), answer_shape(env.fetch)];
            assert(t[0] == reachable(env.fetch));
            assert(t[1] == answer_shape(env.fetch));
            assert(has_fail(t) <==> reachable(env.fetch).status == CheckStatus::Fail
                || answer_shape(env.fetch).status == CheckStatus::Fail);
            lemma_fail_in_either(shadow, t);
        },
        Mode::Fallback => {},
    }
    lemma_fail_in_either(common, keyed);
    lemma_fail_in_either(common + keyed, wired);
    lemma_fail_in_either(common + keyed + wired, aged);
    lemma_fail_in_either(common + keyed + wired + aged, status);
}

proof fn lemma_fail_in_either(a: Seq<CheckV>, b: Seq<CheckV>)
    ensures
        has_fail(a + b) <==> has_fail(a) || has_fail(b),
{
    let s = a + b;
    if has_fail(s) {
        let i = choose|i: int| 0 <= i < s.len() && (#[trigger] s[i]).status == CheckStatus::Fail;
        if i < a.len() {
            assert(a[i] == s[i]);
        } else {
            assert(b[i - a.len()] == s[i]);
        }
    }
    if has_fail(a) {
        let i = choose|i: int| 0 <= i < a.len() && (#[trigger] a[i]).status == CheckStatus::Fail;
        assert(s[i] == a[i]);
    }
    if has_fail(b) {
        let i = choose|i: int| 0 <= i < b.len() && (#[trigger] b[i]).status == CheckStatus::Fail;
        assert(s[a.len() + i] == b[i]);
    }
}

} // verus!
