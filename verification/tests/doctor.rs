use codexferry::catalog::generate_catalog;
use codexferry::config::{Config, ValidatedConfig};
use codexferry::doctor::{
    apply_record, live_requested, mode_keyed_check, models_endpoint_reachable,
    models_endpoint_shape, offline_checks_with_env, offline_checks_with_mode, pin_covers_router,
    pin_field_shape, pin_file_check, pin_matches_router, pin_shadow_warn, report_has_fail,
    required_field_names, version_age, version_status, wiring_check, Check, CheckStatus,
    ModelsFetch, OfflineInputs,
};
use codexferry::json::Json;
use codexferry::mode::Mode;
use codexferry::version::{DoctorState, LastRun};
use serde_json::Value;

fn js(text: &str) -> Value {
    serde_json::from_str(text).unwrap()
}

fn json(v: &Value) -> Json {
    Json::parse(&v.to_string()).unwrap()
}

fn val(j: &Json) -> Value {
    js(&j.to_text())
}

/// What an endpoint that answers hands out.
fn answer(status: u16, body: &str) -> ModelsFetch {
    Ok((status, body.to_string()))
}

/// What comes of a fetch when nothing listens.
fn refused() -> ModelsFetch {
    Err("error sending request: connection refused".to_string())
}

fn config_on_port(port: u16) -> String {
    format!("[server]\nport = {port}\n\n{CONFIG}")
}

/// A machine without Codex, a pin, a doctor state or a running router.
fn inputs(config: &str) -> OfflineInputs {
    OfflineInputs {
        config_text: Ok(config.to_string()),
        template: Ok(None),
        codex_toml: None,
        codex_version: None,
        state: DoctorState::default(),
        home: None,
        pin_content: Err("No such file or directory (os error 2)".to_string()),
        fetch: refused(),
    }
}


const CONFIG: &str = r#"
[providers.x]
base_url = "https://x.com/v1"
api_key = "k"
format = "chat"
[routes]
"x/model-a" = { model = "a", context_window = 131072 }
"#;

const DYNAMIC_CODEX_TOML: &str = r#"
model_provider = "codexferry"

[model_providers.codexferry]
base_url = "http://127.0.0.1:8787/v1"
wire_api = "responses"
[model_providers.codexferry.auth]
command = "echo"
args = ["dummy"]
"#;

fn dynamic_codex_toml(base_url: &str) -> String {
    format!(
        "model_provider = \"codexferry\"\n\
         \n\
         [model_providers.codexferry]\n\
         base_url = \"{base_url}\"\n\
         wire_api = \"responses\"\n\
         [model_providers.codexferry.auth]\n\
         command = \"echo\"\n\
         args = [\"dummy\"]\n"
    )
}

#[test]
fn live_requested_live_flag_forces_live_even_when_offline_or_codex_missing() {
    assert!(live_requested(true, true, false));
    assert!(live_requested(true, true, true));
    assert!(live_requested(true, false, false));
}

#[test]
fn live_requested_offline_skips_live_without_live_flag() {
    assert!(!live_requested(false, true, true));
    assert!(!live_requested(false, true, false));
}

#[test]
fn live_requested_default_runs_live_when_codex_is_available() {
    assert!(live_requested(false, false, true));
}

#[test]
fn live_requested_default_skips_live_without_codex() {
    assert!(!live_requested(false, false, false));
}

fn epoch_now() -> u64 {
    std::time::SystemTime::now()
        .duration_since(std::time::UNIX_EPOCH)
        .unwrap_or_default()
        .as_secs()
}

#[test]
fn apply_record_green_with_parseable_version_sets_last_green_and_records_run() {
    let before = epoch_now();
    let state = apply_record(true, Some("codex-cli 0.147.0"), DoctorState::default());
    let after = epoch_now();
    assert_eq!(state.last_green.as_deref(), Some("0.147.0"));
    let run = state.last_run.expect("green run must record last_run");
    assert!(run.green);
    assert_eq!(run.codex_version.as_deref(), Some("codex-cli 0.147.0"));
    assert!(
        (before..=after).contains(&run.at_unix),
        "at_unix {at} not in [{before}, {after}]",
        at = run.at_unix
    );
    assert!(run.summary.contains("passed"), "summary: {}", run.summary);
}

#[test]
fn apply_record_green_with_unparseable_or_missing_version_preserves_last_green() {
    let before = epoch_now();
    let mut stamps = Vec::new();
    for raw in [Some("no digits"), None] {
        let prior = DoctorState {
            last_green: Some("0.158.0".into()),
            last_run: None,
        };
        let state = apply_record(true, raw, prior);
        assert_eq!(
            state.last_green.as_deref(),
            Some("0.158.0"),
            "last_green must survive a green run with unparseable version"
        );
        let run = state.last_run.expect("green run must record last_run");
        assert!(run.green);
        stamps.push(run.at_unix);
    }
    let after = epoch_now();
    assert!(
        stamps.iter().all(|&at| (before..=after).contains(&at)),
        "stamps {stamps:?} outside [{before}, {after}]"
    );
}

#[test]
fn apply_record_red_records_run_and_preserves_last_green() {
    let before = epoch_now();
    let prior = DoctorState {
        last_green: Some("0.158.0".into()),
        last_run: Some(LastRun {
            green: true,
            codex_version: Some("codex-cli 0.158.0".into()),
            at_unix: 1,
            summary: "all checks passed".into(),
        }),
    };
    let state = apply_record(false, Some("codex-cli 0.160.0"), prior);
    let after = epoch_now();
    assert_eq!(state.last_green.as_deref(), Some("0.158.0"));
    let run = state.last_run.expect("red run must record last_run");
    assert!(!run.green);
    assert_eq!(run.codex_version.as_deref(), Some("codex-cli 0.160.0"));
    assert!((before..=after).contains(&run.at_unix));
    assert!(run.summary.contains("failed"), "summary: {}", run.summary);
}

#[test]
fn apply_record_handles_default_empty_state() {
    let state = apply_record(false, None, DoctorState::default());
    assert_eq!(state.last_green, None);
    let run = state.last_run.expect("red run must record last_run");
    assert!(!run.green);
    assert_eq!(run.codex_version, None);
    assert!(run.at_unix > 0);
}

#[test]
fn quick_checks_never_fail_on_a_good_dynamic_config() {
    let base = "http://127.0.0.1:8788/v1";
    let fetch = answer(200, &catalog_body(&["x/model-a"]));
    let config = config_on_port(8788);
    let checks = offline_checks_with_env(&OfflineInputs {
            codex_toml: Some(dynamic_codex_toml(base)),
            fetch: fetch.clone(),
            ..inputs(&config)
        });
    assert!(!report_has_fail(&checks), "{checks:?}");
    let cfg = checks.iter().find(|c| c.name == "config loads").unwrap();
    assert!(matches!(cfg.status, CheckStatus::Pass), "{cfg:?}");
    let mode = checks.iter().find(|c| c.name == "detected mode").unwrap();
    assert!(mode.detail.contains("Dynamic"), "{mode:?}");
}

#[test]
fn broken_config_fails_config_load_check() {
    let checks = offline_checks_with_env(&OfflineInputs {
            ..inputs("not toml [")
        });
    assert!(report_has_fail(&checks));
    let cfg = checks.iter().find(|c| c.name == "config loads").unwrap();
    assert!(matches!(cfg.status, CheckStatus::Fail), "{cfg:?}");
}

#[test]
fn empty_router_fails_router_has_routes() {
    let config = r#"
[providers.x]
base_url = "https://x.com/v1"
api_key = "k"
format = "chat"
"#;
    let checks = offline_checks_with_env(&OfflineInputs {
            ..inputs(config)
        });
    let routes = checks
        .iter()
        .find(|c| c.name == "router has routes")
        .unwrap();
    assert!(matches!(routes.status, CheckStatus::Fail), "{routes:?}");
    assert!(report_has_fail(&checks), "{checks:?}");
}

#[test]
fn detected_mode_names_mode_and_active_provider() {
    let toml = r#"
model = "x/y"
model_provider = "alt"
model_catalog_json = "/tmp/pinned.json"

[model_providers.codexferry]
base_url = "http://127.0.0.1:8787/v1"
env_key = "DUMMY"
[model_providers.alt]
base_url = "http://127.0.0.1:8787/v1"
[model_providers.alt.auth]
command = "echo"
args = ["dummy"]
"#;
    let checks = offline_checks_with_env(&OfflineInputs {
            codex_toml: Some(toml.to_string()),
            ..inputs(CONFIG)
        });
    let mode = checks.iter().find(|c| c.name == "detected mode").unwrap();
    assert_eq!(mode.status, CheckStatus::Info, "{mode:?}");
    assert!(mode.detail.contains("Pinned"), "{mode:?}");
    assert!(mode.detail.contains("active provider: alt"), "{mode:?}");
}

#[test]
fn detected_mode_uses_active_provider_auth() {
    let toml = r#"
model = "x/y"
model_provider = "alt"

[model_providers.codexferry]
base_url = "http://127.0.0.1:8787/v1"
env_key = "DUMMY"
[model_providers.alt]
base_url = "http://127.0.0.1:8787/v1"
[model_providers.alt.auth]
command = "echo"
args = ["dummy"]
"#;
    let checks = offline_checks_with_env(&OfflineInputs {
            codex_toml: Some(toml.to_string()),
            ..inputs(CONFIG)
        });
    let mode = checks.iter().find(|c| c.name == "detected mode").unwrap();
    assert!(mode.detail.contains("Dynamic"), "{mode:?}");
    assert!(mode.detail.contains("active provider: alt"), "{mode:?}");
}

const PIN_TOML: &str = r#"
model_catalog_json = "/tmp/pinned.json"

[model_providers.codexferry]
base_url = "http://127.0.0.1:8787/v1"
"#;

const MIXED_PIN_TOML: &str = r#"
model_catalog_json = "/tmp/pinned.json"

[model_providers.codexferry]
base_url = "http://127.0.0.1:8787/v1"
[model_providers.codexferry.auth]
command = "echo"
args = ["dummy"]
"#;

#[test]
fn pinned_pin_confirms_static_catalog() {
    let c = mode_keyed_check(Some(PIN_TOML), Mode::Pinned).unwrap();
    assert!(matches!(c.status, CheckStatus::Info), "{c:?}");
    assert_eq!(c.name, "static catalog pin");
    assert!(c.detail.contains("/tmp/pinned.json"), "{c:?}");
    assert!(c.detail.contains("gen-catalog"), "{c:?}");

    assert!(!c.detail.contains("remove"), "{c:?}");
}

#[test]
fn fallback_pin_confirms_only_metadata_source() {
    let c = mode_keyed_check(Some(PIN_TOML), Mode::Fallback).unwrap();
    assert!(matches!(c.status, CheckStatus::Info), "{c:?}");
    assert_eq!(c.name, "static catalog pin");
    assert!(c.detail.contains("fallback"), "{c:?}");
}

#[test]
fn fallback_without_pin_warns_degraded_wiring() {
    let toml = r#"
[model_providers.codexferry]
base_url = "http://127.0.0.1:8787/v1"
env_key = "DUMMY"
"#;
    let c = mode_keyed_check(Some(toml), Mode::Fallback).unwrap();
    assert!(matches!(c.status, CheckStatus::Warn), "{c:?}");
    assert_eq!(c.name, "fallback wiring");
    assert!(c.detail.contains("fallback"), "{c:?}");
    assert!(!report_has_fail(&[c]));
}

#[test]
fn dynamic_without_pin_emits_nothing() {
    assert!(mode_keyed_check(Some(DYNAMIC_CODEX_TOML), Mode::Dynamic).is_none());
}

#[test]
fn mode_keyed_check_never_emits_the_dynamic_pin_warn() {
    assert!(mode_keyed_check(Some(PIN_TOML), Mode::Dynamic).is_none());
}

#[test]
fn pinned_without_pin_emits_nothing() {
    let toml = r#"
[model_providers.codexferry]
base_url = "http://127.0.0.1:8787/v1"
"#;
    assert!(mode_keyed_check(Some(toml), Mode::Pinned).is_none());
}

#[test]
fn mode_keyed_check_skips_absent_or_unparseable_toml() {
    assert!(mode_keyed_check(None, Mode::Dynamic).is_none());
    assert!(mode_keyed_check(None, Mode::Fallback).is_none());
    assert!(mode_keyed_check(Some("not toml [[["), Mode::Fallback).is_none());
}

#[test]
fn dynamic_pin_warns_pin_shadows_live_fetch() {
    let c = pin_shadow_warn(Some(MIXED_PIN_TOML)).unwrap();
    assert!(matches!(c.status, CheckStatus::Warn), "{c:?}");
    assert_eq!(c.name, "pin shadows live fetch");
    assert!(c.detail.contains("shadows"), "{c:?}");
    assert!(c.detail.contains("/tmp/pinned.json"), "{c:?}");
    assert!(c.detail.contains("remove the pin"), "{c:?}");

    assert!(!report_has_fail(&[c]));
}

#[test]
fn pin_shadow_warn_emits_nothing_with_pin_but_no_auth_command() {
    assert!(pin_shadow_warn(Some(PIN_TOML)).is_none());
}

#[test]
fn pin_shadow_warn_emits_nothing_without_a_pin() {
    assert!(pin_shadow_warn(Some(DYNAMIC_CODEX_TOML)).is_none());
}

#[test]
fn pin_shadow_warn_skips_absent_or_unparseable_toml() {
    assert!(pin_shadow_warn(None).is_none());
    assert!(pin_shadow_warn(Some("not toml [[[")).is_none());
}

#[test]
fn non_string_pin_is_still_a_pin() {
    let c = pin_shadow_warn(Some(
        "model_catalog_json = 123\n\
         [model_providers.codexferry]\n\
         base_url = \"http://127.0.0.1:8787/v1\"\n\
         [model_providers.codexferry.auth]\n\
         command = \"echo\"\n",
    ))
    .unwrap();
    assert!(matches!(c.status, CheckStatus::Warn), "{c:?}");
    assert!(c.detail.contains("<not a string>"), "{c:?}");
}

#[test]
fn wiring_check_passes_on_matching_provider() {
    let toml = r#"
[model_providers.codexferry]
base_url = "http://127.0.0.1:8787/v1"
"#;
    let c = wiring_check(Some(toml), "http://127.0.0.1:8787/v1");
    assert!(matches!(c.status, CheckStatus::Pass), "{c:?}");
}

#[test]
fn wiring_check_infos_snippet_when_no_provider_matches() {
    let toml = r#"
[model_providers.other]
base_url = "https://api.openai.com/v1"
"#;
    let c = wiring_check(Some(toml), "http://127.0.0.1:8787/v1");
    assert!(matches!(c.status, CheckStatus::Info), "{c:?}");
    assert!(c.detail.contains("[model_providers.codexferry]"), "{c:?}");
    assert!(c.detail.contains("http://127.0.0.1:8787/v1"), "{c:?}");
}

#[test]
fn wiring_check_skips_when_file_or_table_absent() {
    assert!(matches!(wiring_check(None, "x").status, CheckStatus::Info));
    let c = wiring_check(Some("model = \"gpt-5.6\"\n"), "x");
    assert!(matches!(c.status, CheckStatus::Info));
}

#[test]
fn wiring_check_does_not_match_a_different_port() {
    let toml = r#"
[model_providers.codexferry]
base_url = "http://127.0.0.1:9999/v1"
"#;
    let c = wiring_check(Some(toml), "http://127.0.0.1:8787/v1");
    assert!(matches!(c.status, CheckStatus::Info), "{c:?}");
}

#[test]
fn version_age_skips_when_no_codex_version() {
    assert!(version_age(None).is_none());
}

#[test]
fn version_age_infos_when_version_has_not_been_verified() {
    let c = version_age(Some("codex-cli 0.147.0")).expect("a check");
    assert_eq!(c.name, "codex version age");
    assert!(matches!(c.status, CheckStatus::Info), "{c:?}");
    assert!(c.detail.contains("0.147.0"), "{c:?}");
    assert!(c.detail.contains("not been verified"), "{c:?}");
    assert!(c.detail.contains("doctor --live"), "{c:?}");
}

#[test]
fn version_age_skips_when_version_is_unparseable() {
    assert!(version_age(Some("no digits here")).is_none());
    assert!(version_age(Some("   ")).is_none());
}

#[test]
fn version_age_presence_follows_the_codex_version_only() {
    let base = "http://127.0.0.1:8788/v1";
    let fetch = answer(200, &catalog_body(&["x/model-a"]));
    let config = config_on_port(8788);
    let codex_toml = dynamic_codex_toml(base);
    let without = offline_checks_with_mode(
        &OfflineInputs {
            codex_toml: Some(codex_toml.clone()),
            fetch: fetch.clone(),
            ..inputs(&config)
        },
        Mode::Dynamic,
        "codexferry",
    );
    assert!(
        without.iter().all(|c| c.name != "codex version age"),
        "{without:?}"
    );
    let status = without
        .iter()
        .find(|c| c.name == "codex version status")
        .expect("version status always present");
    assert!(matches!(status.status, CheckStatus::Info), "{status:?}");

    let with = offline_checks_with_mode(
        &OfflineInputs {
            codex_toml: Some(codex_toml.clone()),
            codex_version: Some("codex-cli 0.147.0".into()),
            fetch: fetch.clone(),
            ..inputs(&config)
        },
        Mode::Dynamic,
        "codexferry",
    );
    assert_eq!(with.len(), without.len() + 1, "{without:?} {with:?}");
    let age = with
        .iter()
        .find(|c| c.name == "codex version age")
        .expect("version age present with a codex version");
    assert!(matches!(age.status, CheckStatus::Info), "{age:?}");
    let age_pos = with.iter().position(|c| c.name == "codex version age");
    let status_pos = with.iter().position(|c| c.name == "codex version status");
    assert!(age_pos < status_pos, "age must precede status in {with:?}");

    for c in &without {
        if c.name == "codex version status" {
            continue;
        }
        let w = with
            .iter()
            .find(|o| o.name == c.name)
            .unwrap_or_else(|| panic!("check {:?} missing in {with:?}", c.name));
        assert_eq!(w.status, c.status, "check {:?}", c.name);
    }
}

#[test]
fn version_status_passes_only_on_green_match() {
    let green = DoctorState {
        last_green: Some("0.158.0".into()),
        last_run: None,
    };
    let pass = version_status(Some("codex-cli 0.158.0".into()), &green);
    assert!(matches!(pass.status, CheckStatus::Pass), "{pass:?}");
    let unverified = version_status(Some("codex-cli 0.160.0".into()), &green);
    assert!(
        matches!(unverified.status, CheckStatus::Info),
        "{unverified:?}"
    );
    let never = DoctorState::default();
    assert!(matches!(
        version_status(Some("0.160.0".into()), &never).status,
        CheckStatus::Info
    ));
    assert!(matches!(
        version_status(None, &never).status,
        CheckStatus::Info
    ));
    assert!(matches!(
        version_status(Some("no digits".into()), &never).status,
        CheckStatus::Info
    ));
}

#[test]
fn unparseable_on_both_sides_is_never_a_pass() {
    let state = DoctorState {
        last_green: Some("no digits".into()),
        last_run: None,
    };
    let c = version_status(Some("also no digits".into()), &state);
    assert!(matches!(c.status, CheckStatus::Info), "{c:?}");
}

#[test]
fn version_status_normalizes_both_sides() {
    let state = DoctorState {
        last_green: Some("codex-cli 0.158.0".into()),
        last_run: None,
    };
    let c = version_status(Some("codex-cli 0.158.0".into()), &state);
    assert!(matches!(c.status, CheckStatus::Pass), "{c:?}");
}

#[test]
fn quick_checks_report_all_common_checks_in_a_wired_dynamic_environment() {
    let base = "http://127.0.0.1:8788/v1";
    let fetch = answer(200, &catalog_body(&["x/model-a"]));
    let config = config_on_port(8788);
    let state = DoctorState {
        last_green: Some("0.158.0".into()),
        last_run: None,
    };
    let checks = offline_checks_with_env(&OfflineInputs {
            codex_toml: Some(dynamic_codex_toml(base)),
            codex_version: Some("codex-cli 0.158.0".into()),
            state,
            fetch: fetch.clone(),
            ..inputs(&config)
        });
    assert!(!report_has_fail(&checks), "{checks:?}");
    assert_eq!(checks.len(), 9, "{checks:?}");
    for (name, want) in [
        ("config loads", CheckStatus::Pass),
        ("router has routes", CheckStatus::Pass),
        ("template fields dropped", CheckStatus::Info),
        ("detected mode", CheckStatus::Info),
        ("codex wiring", CheckStatus::Pass),
        ("models endpoint reachable", CheckStatus::Pass),
        ("models endpoint shape", CheckStatus::Pass),
        ("codex version age", CheckStatus::Info),
        ("codex version status", CheckStatus::Pass),
    ] {
        let c = checks
            .iter()
            .find(|c| c.name == name)
            .unwrap_or_else(|| panic!("check {name:?} missing from {checks:?}"));
        assert_eq!(c.status, want, "check {name:?} in {checks:?}");
    }
}

fn catalog_body(slugs: &[&str]) -> String {
    serde_json::to_string(&good_pin(slugs)).unwrap()
}

#[test]
fn models_endpoint_reachable_passes_on_200() {
    let c = models_endpoint_reachable(&answer(200, &catalog_body(&["x/a"])));
    assert_eq!(c.name, "models endpoint reachable");
    assert_eq!(c.status, CheckStatus::Pass, "{c:?}");
    assert!(c.detail.contains("200"), "{c:?}");
}

#[test]
fn models_endpoint_reachable_fails_on_500() {
    let c = models_endpoint_reachable(&answer(500, "unavailable"));
    assert_eq!(c.status, CheckStatus::Fail, "{c:?}");
    assert!(c.detail.contains("500"), "{c:?}");
    assert!(
        c.detail.contains("CatalogCache::get"),
        "FAIL must carry the remediation: {c:?}"
    );
}

#[test]
fn models_endpoint_reachable_fails_when_nothing_is_listening() {
    let c = models_endpoint_reachable(&refused());
    assert_eq!(c.status, CheckStatus::Fail, "{c:?}");
}

#[test]
fn models_endpoint_shape_passes_on_a_valid_catalog() {
    let c = models_endpoint_shape(&answer(200, &catalog_body(&["x/a", "x/b"])));
    assert_eq!(c.name, "models endpoint shape");
    assert_eq!(c.status, CheckStatus::Pass, "{c:?}");
    assert!(c.detail.contains("all 2 entries"), "{c:?}");
}

#[test]
fn models_endpoint_shape_fails_on_a_missing_required_field() {
    let mut pin = good_pin(&["x/a"]);
    pin["models"][0]
        .as_object_mut()
        .unwrap()
        .remove("visibility");
    let c = models_endpoint_shape(&answer(200, &serde_json::to_string(&pin).unwrap()));
    assert_eq!(c.status, CheckStatus::Fail, "{c:?}");
    assert!(c.detail.contains("visibility"), "{c:?}");
}

#[test]
fn models_endpoint_shape_fails_when_body_is_not_catalog_json() {
    for body in ["not json", r#"{"foo":"bar"}"#, r#"{"models":"nope"}"#] {
        let c = models_endpoint_shape(&answer(200, body));
        assert_eq!(c.status, CheckStatus::Fail, "body {body:?}: {c:?}");
    }

    let c = models_endpoint_shape(&answer(200, "not json"));
    assert!(c.detail.contains("not valid JSON:"), "{c:?}");
}

#[test]
fn models_endpoint_shape_fails_when_the_endpoint_is_down() {
    let c = models_endpoint_shape(&refused());
    assert_eq!(c.status, CheckStatus::Fail, "{c:?}");
}

#[test]
fn dynamic_mode_reports_pin_shadow_warn_and_passes_endpoints() {
    let base = "http://127.0.0.1:8788/v1";
    let fetch = answer(200, &catalog_body(&["x/model-a"]));
    let config = config_on_port(8788);
    let codex_toml = format!(
        "model_catalog_json = \"/tmp/pinned.json\"\n{}",
        dynamic_codex_toml(base)
    );
    let checks = offline_checks_with_mode(
        &OfflineInputs {
            codex_toml: Some(codex_toml.clone()),
            fetch: fetch.clone(),
            ..inputs(&config)
        },
        Mode::Dynamic,
        "codexferry",
    );
    assert!(!report_has_fail(&checks), "{checks:?}");

    let shadows: Vec<&Check> = checks
        .iter()
        .filter(|c| c.name == "pin shadows live fetch")
        .collect();
    assert_eq!(shadows.len(), 1, "{checks:?}");
    assert!(matches!(shadows[0].status, CheckStatus::Warn), "{checks:?}");
    assert!(shadows[0].detail.contains("remove the pin"), "{checks:?}");
    for name in ["models endpoint reachable", "models endpoint shape"] {
        let c = checks
            .iter()
            .find(|c| c.name == name)
            .unwrap_or_else(|| panic!("missing {name:?} in {checks:?}"));
        assert_eq!(c.status, CheckStatus::Pass, "check {name:?}: {c:?}");
    }
}

#[test]
fn dynamic_mode_offline_run_fails_when_endpoint_returns_500() {
    let base = "http://127.0.0.1:8788/v1";
    let fetch = answer(500, "boom");
    let config = config_on_port(8788);
    let codex_toml = dynamic_codex_toml(base);
    let checks = offline_checks_with_mode(
        &OfflineInputs {
            codex_toml: Some(codex_toml.clone()),
            fetch: fetch.clone(),
            ..inputs(&config)
        },
        Mode::Dynamic,
        "codexferry",
    );
    let reachable = checks
        .iter()
        .find(|c| c.name == "models endpoint reachable")
        .unwrap_or_else(|| panic!("missing reachable check in {checks:?}"));
    assert_eq!(reachable.status, CheckStatus::Fail, "{reachable:?}");
    assert!(report_has_fail(&checks), "{checks:?}");
}

#[test]
fn pinned_mode_with_a_mixed_pin_and_auth_warns_shadow_while_pinned_checks_pass() {
    let pin_path = "/pins/catalog.json";
    let codex_toml = format!(
        "model_catalog_json = \"{}\"\n{}",
        pin_path,
        dynamic_codex_toml("http://127.0.0.1:8787/v1")
    );
    let checks = offline_checks_with_mode(
        &OfflineInputs {
            codex_toml: Some(codex_toml.clone()),
            pin_content: Ok(serde_json::to_string_pretty(&good_pin(&["x/model-a"])).unwrap()),
            ..inputs(CONFIG)
        },
        Mode::Pinned,
        "codexferry",
    );
    assert!(!report_has_fail(&checks), "{checks:?}");

    let shadows: Vec<&Check> = checks
        .iter()
        .filter(|c| c.name == "pin shadows live fetch")
        .collect();
    assert_eq!(shadows.len(), 1, "{checks:?}");
    assert!(matches!(shadows[0].status, CheckStatus::Warn), "{checks:?}");
    assert!(shadows[0].detail.contains("remove the pin"), "{checks:?}");

    for name in [
        "pin exists and parses",
        "pin covers router",
        "pin matches router",
        "pin entry shape",
    ] {
        let c = checks
            .iter()
            .find(|c| c.name == name)
            .unwrap_or_else(|| panic!("check {name:?} missing from {checks:?}"));
        assert_eq!(c.status, CheckStatus::Pass, "check {name:?}: {c:?}");
    }
}

fn validated_router_with(slugs: &[&str]) -> ValidatedConfig {
    let routes = slugs
        .iter()
        .map(|slug| format!("{slug:?} = {{ model = {slug:?}, context_window = 131072 }}"))
        .collect::<Vec<_>>()
        .join("\n");
    let config = format!(
        "[providers.x]\nbase_url = \"https://x.com/v1\"\napi_key = \"k\"\nformat = \"chat\"\n[routes]\n{routes}"
    );
    Config::parse_str(&config)
        .unwrap()
        .validate()
        .unwrap()
}

fn pin_entry(slug: &str) -> Value {
    let mut entry = js(
        r#"{
        "supported_reasoning_levels": ["minimal", "low", "medium", "high", "max"],
        "shell_type": "default",
        "visibility": "list",
        "supported_in_api": true,
        "priority": 99,
        "support_verbosity": false,
        "truncation_policy": { "mode": "tokens", "limit": 10000 },
        "experimental_supported_tools": []
    }"#,
    );
    entry["slug"] = Value::from(slug);
    entry["display_name"] = Value::from(slug);
    entry
}

fn good_pin(slugs: &[&str]) -> Value {
    let mut pin = js("{}");
    pin["models"] = slugs.iter().map(|s| pin_entry(s)).collect();
    pin
}

#[test]
fn pin_file_check_parses_a_valid_pin() {
    let pin = pin_file_check(r#"{"models":[{"slug":"x/a"}]}"#).unwrap();
    assert_eq!(val(&pin)["models"][0]["slug"], "x/a");
}

#[test]
fn pin_file_check_rejects_malformed_json() {
    assert!(pin_file_check("not json").is_err());
}

#[test]
fn pin_file_check_rejects_a_missing_or_non_array_models_key() {
    assert!(pin_file_check("{}").is_err());
    assert!(pin_file_check(r#"{"models": "nope"}"#).is_err());
}

#[test]
fn pin_covers_router_passes_when_every_route_is_pinned() {
    let router = validated_router_with(&["x/a", "x/b"]);
    let pin = good_pin(&["x/a", "x/b"]);
    let c = pin_covers_router(&router, &json(&pin));
    assert_eq!(c.name, "pin covers router");
    assert_eq!(c.status, CheckStatus::Pass, "{c:?}");
}

#[test]
fn pin_covers_router_fails_listing_routes_missing_from_the_pin() {
    let router = validated_router_with(&["x/a", "x/b"]);
    let pin = good_pin(&["x/a"]);
    let c = pin_covers_router(&router, &json(&pin));
    assert_eq!(c.status, CheckStatus::Fail, "{c:?}");
    assert!(c.detail.contains("x/b"), "{c:?}");
    assert!(c.detail.contains("gen-catalog"), "{c:?}");
}

#[test]
fn pin_matches_router_passes_when_every_pin_slug_is_a_route() {
    let router = validated_router_with(&["x/a", "x/b"]);
    let pin = good_pin(&["x/a", "x/b"]);
    let c = pin_matches_router(&router, &json(&pin));
    assert_eq!(c.name, "pin matches router");
    assert_eq!(c.status, CheckStatus::Pass, "{c:?}");
}

#[test]
fn pin_matches_router_fails_listing_orphan_slugs() {
    let router = validated_router_with(&["x/a"]);
    let pin = good_pin(&["x/a", "x/c"]);
    let c = pin_matches_router(&router, &json(&pin));
    assert_eq!(c.status, CheckStatus::Fail, "{c:?}");
    assert!(c.detail.contains("x/c"), "{c:?}");
    assert!(c.detail.contains("gen-catalog"), "{c:?}");
}

#[test]
fn empty_router_and_empty_pin_reconcile_cleanly() {
    let router = validated_router_with(&[]);
    let pin = good_pin(&[]);
    let covers = pin_covers_router(&router, &json(&pin));
    let matches = pin_matches_router(&router, &json(&pin));
    assert_eq!(covers.status, CheckStatus::Pass, "{covers:?}");
    assert_eq!(matches.status, CheckStatus::Pass, "{matches:?}");
}

#[test]
fn pin_field_shape_passes_when_every_entry_is_complete() {
    let checks = pin_field_shape(&json(&good_pin(&["x/a", "x/b"])));
    assert_eq!(checks.len(), 1, "{checks:?}");
    assert_eq!(checks[0].name, "pin entry shape");
    assert_eq!(checks[0].status, CheckStatus::Pass, "{checks:?}");
}

#[test]
fn pin_field_shape_fails_naming_each_missing_required_field() {
    for field in required_field_names() {
        let mut pin = good_pin(&["x/a"]);
        pin["models"][0].as_object_mut().unwrap().remove(field);
        let checks = pin_field_shape(&json(&pin));
        assert_eq!(checks.len(), 1, "field {field:?}: {checks:?}");
        let c = &checks[0];
        assert_eq!(c.name, "pin entry shape", "field {field:?}: {c:?}");
        assert_eq!(c.status, CheckStatus::Fail, "field {field:?}: {c:?}");
        assert!(c.detail.contains(field), "field {field:?}: {c:?}");
        if field == "slug" {
            assert!(
                c.detail.contains("<missing slug>"),
                "field {field:?}: {c:?}"
            );
        } else {
            assert!(c.detail.contains("x/a"), "field {field:?}: {c:?}");
        }
    }
}

#[test]
fn pin_field_shape_names_every_missing_field_of_an_entry() {
    let mut pin = good_pin(&["x/a"]);
    let entry = pin["models"][0].as_object_mut().unwrap();
    entry.remove("display_name");
    entry.remove("priority");
    let checks = pin_field_shape(&json(&pin));
    assert_eq!(checks.len(), 1, "{checks:?}");
    assert!(checks[0].detail.contains("display_name"), "{checks:?}");
    assert!(checks[0].detail.contains("priority"), "{checks:?}");
    assert!(checks[0].detail.contains("x/a"), "{checks:?}");
}

#[test]
fn pin_field_shape_emits_one_fail_per_offending_entry() {
    let mut pin = good_pin(&["x/a", "x/b", "x/c"]);
    pin["models"][1]
        .as_object_mut()
        .unwrap()
        .remove("visibility");
    pin["models"][2].as_object_mut().unwrap().remove("priority");
    let checks = pin_field_shape(&json(&pin));
    assert_eq!(checks.len(), 2, "{checks:?}");
    assert!(
        checks.iter().all(|c| c.status == CheckStatus::Fail),
        "{checks:?}"
    );
}

#[test]
fn pin_field_shape_flags_a_non_string_slug_instead_of_false_passing() {
    let mut pin = good_pin(&["x/a"]);
    pin["models"][0]
        .as_object_mut()
        .unwrap()
        .insert("slug".into(), js("123"));
    let checks = pin_field_shape(&json(&pin));
    assert_eq!(checks.len(), 1, "{checks:?}");
    let c = &checks[0];
    assert_eq!(c.name, "pin entry shape");
    assert_eq!(c.status, CheckStatus::Fail, "{c:?}");
    assert!(c.detail.contains("slug"), "{c:?}");
    assert!(c.detail.contains("<non-string slug>"), "{c:?}");
    assert!(report_has_fail(&checks), "{checks:?}");
}

#[test]
fn pin_field_shape_flags_a_non_object_entry() {
    let mut pin = good_pin(&["x/a"]);
    pin["models"]
        .as_array_mut()
        .unwrap()
        .push(js("42"));
    let checks = pin_field_shape(&json(&pin));
    assert_eq!(checks.len(), 1, "{checks:?}");
    let c = &checks[0];
    assert_eq!(c.name, "pin entry shape");
    assert_eq!(c.status, CheckStatus::Fail, "{c:?}");
    assert!(c.detail.contains("<non-object entry>"), "{c:?}");
    assert!(report_has_fail(&checks), "{checks:?}");
}

#[test]
fn generated_catalog_always_satisfies_pin_field_shape() {
    let template = json(&js("{}"));
    let generated = generate_catalog(CONFIG, Some(&template)).unwrap();
    let checks = pin_field_shape(&generated.catalog);
    assert!(!checks.is_empty(), "shape check emitted nothing");
    assert!(
        checks.iter().all(|c| c.status == CheckStatus::Pass),
        "{checks:?}"
    );
}

#[test]
fn pinned_mode_with_a_matching_pin_passes_the_pinned_checks() {
    let pin_path = "/pins/catalog.json";
    let codex_toml = format!(r#"model_catalog_json = "{}""#, pin_path);
    let checks = offline_checks_with_mode(
        &OfflineInputs {
            codex_toml: Some(codex_toml.clone()),
            pin_content: Ok(serde_json::to_string_pretty(&good_pin(&["x/model-a"])).unwrap()),
            ..inputs(CONFIG)
        },
        Mode::Pinned,
        "codexferry",
    );
    assert!(!report_has_fail(&checks), "{checks:?}");
    for name in [
        "pin exists and parses",
        "pin covers router",
        "pin matches router",
        "pin entry shape",
    ] {
        let c = checks
            .iter()
            .find(|c| c.name == name)
            .unwrap_or_else(|| panic!("check {name:?} missing from {checks:?}"));
        assert_eq!(c.status, CheckStatus::Pass, "check {name:?}: {c:?}");
    }
}

#[test]
fn pinned_mode_with_a_stale_pin_fails_pin_covers_router() {
    let pin_path = "/pins/catalog.json";
    let codex_toml = format!(r#"model_catalog_json = "{}""#, pin_path);
    let checks = offline_checks_with_mode(
        &OfflineInputs {
            codex_toml: Some(codex_toml.clone()),
            pin_content: Ok(serde_json::to_string_pretty(&good_pin(&["x/other"])).unwrap()),
            ..inputs(CONFIG)
        },
        Mode::Pinned,
        "codexferry",
    );
    let covers = checks
        .iter()
        .find(|c| c.name == "pin covers router")
        .unwrap();
    assert_eq!(covers.status, CheckStatus::Fail, "{covers:?}");
    assert!(covers.detail.contains("x/model-a"), "{covers:?}");
    assert!(report_has_fail(&checks), "{checks:?}");
}

#[test]
fn pinned_mode_with_an_unreadable_pin_fails_pin_unreadable() {
    let pin_path = "/pins/missing.json";
    let codex_toml = format!(r#"model_catalog_json = "{}""#, pin_path);
    let checks = offline_checks_with_mode(
        &OfflineInputs {
            codex_toml: Some(codex_toml.clone()),
            ..inputs(CONFIG)
        },
        Mode::Pinned,
        "codexferry",
    );
    let unreadable = checks.iter().find(|c| c.name == "pin unreadable").unwrap();
    assert_eq!(unreadable.status, CheckStatus::Fail, "{unreadable:?}");
    assert!(unreadable.detail.contains("gen-catalog"), "{unreadable:?}");
    assert!(report_has_fail(&checks), "{checks:?}");
}

#[test]
fn pinned_mode_with_a_malformed_pin_fails_pin_unreadable() {
    let pin_path = "/pins/catalog.json";
    let codex_toml = format!(r#"model_catalog_json = "{}""#, pin_path);
    let checks = offline_checks_with_mode(
        &OfflineInputs {
            codex_toml: Some(codex_toml.clone()),
            pin_content: Ok("not json".to_string()),
            ..inputs(CONFIG)
        },
        Mode::Pinned,
        "codexferry",
    );
    let unreadable = checks.iter().find(|c| c.name == "pin unreadable").unwrap();
    assert_eq!(unreadable.status, CheckStatus::Fail, "{unreadable:?}");
    assert!(unreadable.detail.contains("JSON"), "{unreadable:?}");
    assert!(report_has_fail(&checks), "{checks:?}");
}

#[test]
fn pinned_mode_without_a_string_pin_key_fails_pin_unreadable() {
    for codex_toml in [
        None,
        Some("model_provider = \"codexferry\"\n"),
        Some("model_catalog_json = 123\n"),
    ] {
        let checks = offline_checks_with_mode(
            &OfflineInputs {
                codex_toml: codex_toml.map(String::from),
                ..inputs(CONFIG)
            },
            Mode::Pinned,
            "codexferry",
        );
        let unreadable = checks
            .iter()
            .find(|c| c.name == "pin unreadable")
            .unwrap_or_else(|| panic!("missing \"pin unreadable\" in {checks:?}"));
        assert_eq!(unreadable.status, CheckStatus::Fail, "{unreadable:?}");
        assert!(
            unreadable.detail.contains("model_catalog_json"),
            "{unreadable:?}"
        );
        assert!(unreadable.detail.contains("gen-catalog"), "{unreadable:?}");
        assert!(report_has_fail(&checks), "{checks:?}");
    }
}
