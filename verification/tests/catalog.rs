use codexferry::catalog::{
    build_catalog_value, build_hide_entries, generate_catalog, parse_bundled_output,
    GeneratedCatalog,
};
use codexferry::config::Config;
use codexferry::json::Json;
use serde_json::Value;

fn js(text: &str) -> Value {
    serde_json::from_str(text).unwrap()
}

fn json(text: &str) -> Json {
    Json::parse(text).unwrap()
}

fn val(j: &Json) -> Value {
    js(&j.to_text())
}

#[test]
fn route_reasoning_effort_overrides_template_defaults() {
    let template_text = r#"
{
  "models": [
{
  "slug": "gpt-5.6-sol",
  "visibility": "list",
  "tool_mode": "code_mode_only",
  "default_reasoning_level": "low",
  "supported_reasoning_levels": [
    { "effort": "low" }, { "effort": "medium" }, { "effort": "high" }
  ]
}
  ]
}
"#;

    let config_text = r#"
[providers.x]
base_url = "https://x.com/v1"
api_key = "k"
format = "responses"
[routes]
"x/model-a" = { model = "a", context_window = 131072, default_reasoning_effort = "high" }
"x/model-b" = { model = "b", context_window = 131072 }
"#;

    let template = json(template_text);
    let generated = generate_catalog(config_text, Some(&template)).unwrap();

    let catalog = val(&generated.catalog);
    let models = catalog["models"].as_array().unwrap();
    let a = models
        .iter()
        .find(|m| m["slug"] == "x/model-a")
        .expect("route x/model-a in catalog");
    assert_eq!(a["default_reasoning_level"], "high");

    assert_eq!(
        a["supported_reasoning_levels"],
        js(r#"[ { "effort": "none", "description": "No reasoning; direct responses" }, { "effort": "minimal", "description": "Fastest responses with the lightest reasoning" }, { "effort": "low", "description": "Fast responses with lighter reasoning" }, { "effort": "medium", "description": "Balances speed and reasoning depth for everyday tasks" }, { "effort": "high", "description": "Greater reasoning depth for complex problems" }, { "effort": "xhigh", "description": "Extra high reasoning depth for complex problems" }, { "effort": "max", "description": "Maximum reasoning depth for the hardest problems" }, { "effort": "ultra", "description": "Maximum reasoning depth for the hardest problems" }]"#)
    );
    let b = models
        .iter()
        .find(|m| m["slug"] == "x/model-b")
        .expect("route x/model-b in catalog");

    assert!(b.get("default_reasoning_level").is_none());
    assert!(b.get("supported_reasoning_levels").is_some());
    assert_eq!(b["supported_reasoning_levels"][0]["effort"], "none");
}

#[test]
fn template_models_are_not_seeded_into_output() {
    let template_text = r#"
{
  "models": [
{ "slug": "gpt-5.6-sol", "visibility": "list", "tool_mode": "code_mode_only" },
{ "slug": "gpt-5.6-luna", "visibility": "list", "tool_mode": "code_mode_only" }
  ]
}
"#;

    let config_text = r#"
[providers.x]
base_url = "https://x.com/v1"
api_key = "k"
format = "chat"
[routes]
"x/model-a" = { model = "a", context_window = 131072 }
"#;

    let template = json(template_text);
    let generated = generate_catalog(config_text, Some(&template)).unwrap();

    let catalog = val(&generated.catalog);
    let models = catalog["models"].as_array().unwrap();
    let slugs: Vec<&str> = models.iter().map(|m| m["slug"].as_str().unwrap()).collect();
    assert_eq!(slugs, vec!["x/model-a"]);
}

#[test]
fn template_tool_mode_does_not_leak_into_routes() {
    let template_text = r#"
{
  "models": [
{
  "slug": "gpt-5.6-sol",
  "visibility": "list",
  "tool_mode": "code_mode_only"
}
  ]
}
"#;

    let config_text = r#"
[providers.x]
base_url = "https://x.com/v1"
api_key = "k"
format = "chat"
[routes]
"x/model-a" = { model = "a", context_window = 131072 }
"#;

    let template = json(template_text);
    let generated = generate_catalog(config_text, Some(&template)).unwrap();

    let catalog = val(&generated.catalog);
    let models = catalog["models"].as_array().unwrap();
    let a = models
        .iter()
        .find(|m| m["slug"] == "x/model-a")
        .expect("route x/model-a in catalog");
    assert!(
        a.get("tool_mode").is_none(),
        "route entries must not carry a tool_mode: absent selects the classic \
         top-level `tools` delivery that third-party upstreams understand, while \
         `direct` makes Codex send its unified-exec toolset via a non-standard \
         `additional_tools` input item"
    );
    assert_eq!(
        a["use_responses_lite"], false,
        "the template's responses-lite mode makes Codex deliver tools via \
         `additional_tools` input items, which third-party upstreams cannot bind"
    );
}

#[test]
fn routes_always_present_in_catalog() {
    let config_text = r#"
[providers.x]
base_url = "https://x.com/v1"
api_key = "k"
format = "chat"
[routes]
"x/model-a" = { model = "a", context_window = 131072 }
"x/model-b" = { model = "b" }
"#;

    let generated = generate_catalog(config_text, None).unwrap();

    let catalog = val(&generated.catalog);
    let models = catalog["models"].as_array().unwrap();

    assert!(models.len() >= 2);
    let a = models
        .iter()
        .find(|m| m["slug"] == "x/model-a")
        .expect("route x/model-a in catalog");
    assert_eq!(a["context_window"], 131072);
    let b = models
        .iter()
        .find(|m| m["slug"] == "x/model-b")
        .expect("route x/model-b in catalog");
    assert_eq!(b["context_window"], 1048576);
}

fn dialect_template() -> String {
    r#"{
  "models": [
{
  "slug": "gpt-5.6-sol",
  "visibility": "list",
  "tool_mode": "code_mode_only",
  "use_responses_lite": true,
  "shell_type": "shell_command",
  "apply_patch_tool_type": "freeform",
  "web_search_tool_type": "text_and_image",
  "supports_search_tool": true,
  "include_apps_usage_instructions": true,
  "include_plugin_usage_instructions": true,
  "service_tiers": [{"id": "priority"}],
  "upgrade": null,
  "availability_nux": {"message": "nudge"},
  "multi_agent_version": "v2",
  "input_modalities": ["text", "image"],
  "comp_hash": "3000",
  "effective_context_window_percent": 95,
  "truncation_policy": {"mode": "tokens", "limit": 10000},
  "base_instructions": "You are Codex.",
  "model_messages": {"instructions_template": "You are Codex."}
}
  ]
}"#
    .to_string()
}

const ROUTE_CONFIG: &str = r#"
[providers.x]
base_url = "https://x.com/v1"
api_key = "k"
format = "chat"
[routes]
"x/model-a" = { model = "a", context_window = 131072 }
"#;

const ROUTE_CONFIG_WITH_DESC: &str = r#"
[providers.x]
base_url = "https://x.com/v1"
api_key = "k"
format = "chat"
[routes]
"x/model-a" = { model = "a", context_window = 131072, description = "fast coding model" }
"#;

fn gen_with(template: Option<&str>) -> GeneratedCatalog {
    generate_catalog(ROUTE_CONFIG, template.map(json).as_ref()).unwrap()
}

fn gen_with_desc(template: Option<&str>) -> GeneratedCatalog {
    generate_catalog(ROUTE_CONFIG_WITH_DESC, template.map(json).as_ref()).unwrap()
}

#[test]
fn description_fallback_names_the_wire_format() {
    let generated = gen_with(None);
    let entry = &val(&generated.catalog)["models"][0];
    assert_eq!(
        entry["description"], "CodexFerry chat to x/model-a",
        "fallback description must name the wire format and the route"
    );
}

#[test]
fn configurable_description_appends_after_route_key() {
    let generated = gen_with_desc(None);
    let entry = &val(&generated.catalog)["models"][0];
    assert_eq!(
        entry["description"], "CodexFerry chat to x/model-a - fast coding model",
        "custom description must be appended after the wire format + route with a dash separator"
    );
}

#[test]
fn allowlist_keeps_only_prompt_fields_and_reports_dropped() {
    let template = dialect_template();
    let generated = gen_with(Some(&template));

    let entry = &val(&generated.catalog)["models"][0];
    let keys: Vec<&str> = entry
        .as_object()
        .unwrap()
        .keys()
        .map(|k| k.as_str())
        .collect();

    assert!(keys.contains(&"base_instructions"));
    assert!(keys.contains(&"model_messages"));

    for banned in [
        "tool_mode",
        "apply_patch_tool_type",
        "web_search_tool_type",
        "supports_search_tool",
        "include_apps_usage_instructions",
        "include_plugin_usage_instructions",
        "service_tiers",
        "upgrade",
        "availability_nux",
        "multi_agent_version",
        "input_modalities",
        "comp_hash",
        "effective_context_window_percent",
    ] {
        assert!(
            !keys.contains(&banned),
            "{banned} must not survive the allowlist"
        );
    }

    assert!(generated
        .dropped_template_fields
        .contains(&"use_responses_lite".to_string()));
    assert!(generated
        .dropped_template_fields
        .contains(&"tool_mode".to_string()));
}

#[test]
fn pinned_fields_are_written_regardless_of_template() {
    let template = dialect_template();
    let generated = gen_with(Some(&template));
    let entry = &val(&generated.catalog)["models"][0];

    assert_eq!(entry["use_responses_lite"], false);
    assert_eq!(entry["shell_type"], "default");
    assert_eq!(entry["supports_parallel_tool_calls"], true);
    assert_eq!(entry["prefer_websockets"], false);
    assert_eq!(entry["description"], "CodexFerry chat to x/model-a");
    assert_eq!(entry["slug"], "x/model-a");
    assert_eq!(entry["context_window"], 131072);

    assert_eq!(entry["priority"], 99);
    assert_eq!(entry["support_verbosity"], false);
    assert_eq!(
        entry["truncation_policy"],
        js(r#"{"mode": "tokens", "limit": 10000}"#)
    );
    assert_eq!(entry["experimental_supported_tools"], js(r#"[]"#));

    assert_eq!(entry["supported_reasoning_levels"][0]["effort"], "none");
}

#[test]
fn template_and_scratch_entries_emit_identical_field_sets() {
    let template = dialect_template();
    let with = gen_with(Some(&template));
    let without = gen_with(Some(r#"{"models": []}"#));
    let with = val(&with.catalog);
    let without = val(&without.catalog);
    let a = with["models"][0].as_object().unwrap();
    let b = without["models"][0].as_object().unwrap();
    let ka: std::collections::BTreeSet<&str> = a.keys().map(|k| k.as_str()).collect();
    let kb: std::collections::BTreeSet<&str> = b.keys().map(|k| k.as_str()).collect();

    let extra: Vec<&str> = ka.difference(&kb).copied().collect();
    assert_eq!(extra, vec!["model_messages"]);

    assert!(kb.is_subset(&ka));

    assert_eq!(
        without["models"][0]["base_instructions"],
        "You are a helpful assistant."
    );

    assert_eq!(
        with["models"][0]["base_instructions"],
        "You are Codex."
    );
}

#[test]
fn build_catalog_value_matches_generate_catalog() {
    let config = "[providers.ds]\nbase_url=\"http://x\"\napi_key=\"k\"\nformat=\"chat\"\n[routes.\"ds/chat\"]\nmodel=\"m\"\ncontext_window=1000\n";
    let template = json(r#"{"models": []}"#);
    let raw = Config::parse_str(config).unwrap();
    let validated = raw.validate().unwrap();
    let a = build_catalog_value(&validated, None);
    let b = generate_catalog(config, Some(&template)).unwrap();
    assert_eq!(val(&a.catalog), val(&b.catalog));
    assert!(a.dropped_template_fields.is_empty());
}

#[test]
fn parse_bundled_output_extracts_models_array() {
    let out = br#"{"models": [{"slug": "gpt-x", "visibility": "list"}]}"#;
    let models = parse_bundled_output(out);
    assert_eq!(models.len(), 1);
    assert_eq!(val(&models[0])["slug"], "gpt-x");
}

#[test]
fn parse_bundled_output_degrades_on_garbage() {
    assert!(parse_bundled_output(b"not json").is_empty());
    assert!(parse_bundled_output(br#"{"no_models": []}"#).is_empty());
    assert!(parse_bundled_output(br#"{"models": "not-an-array"}"#).is_empty());
}

#[test]
fn build_hide_entries_clones_and_flips_only_list_entries() {
    let bundled = vec![
        json(r#"{ "slug": "gpt-a", "visibility": "list", "priority": 1, "base_instructions": "You are Codex." }"#),
        json(r#"{"slug": "gpt-b", "visibility": "hide", "priority": 2}"#),
        json(r#"{"slug": "gpt-c", "visibility": "none", "priority": 3}"#),
    ];
    let entries: Vec<Value> = build_hide_entries(&bundled, &vec![]).iter().map(val).collect();
    assert_eq!(entries.len(), 1, "only list-visible entries get overrides");
    assert_eq!(entries[0]["slug"], "gpt-a");
    assert_eq!(entries[0]["visibility"], "hide");

    assert_eq!(entries[0]["priority"], 1);
    assert_eq!(entries[0]["base_instructions"], "You are Codex.");
}

#[test]
fn build_hide_entries_skips_route_collisions_and_sorts_by_slug() {
    let bundled = vec![
        json(r#"{"slug": "zeta", "visibility": "list"}"#),
        json(r#"{"slug": "alpha", "visibility": "list"}"#),
        json(r#"{"slug": "ds/claim", "visibility": "list"}"#),
    ];
    let route_keys = vec!["ds/claim".to_string()];
    let entries: Vec<Value> =
        build_hide_entries(&bundled, &route_keys).iter().map(val).collect();
    let slugs: Vec<&str> = entries.iter().filter_map(|m| m["slug"].as_str()).collect();
    assert_eq!(
        slugs,
        vec!["alpha", "zeta"],
        "route collision skipped, output sorted by slug"
    );
}
