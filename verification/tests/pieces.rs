use codexferry::config::{Config, ConfigError, RouteConfig, ServerConfig};
use codexferry::convert::request::is_glm_like_model;
use codexferry::convert::response::StreamConverter;
use codexferry::doctor::{
    apply_record_at, expected_base, mode_keyed_check, pin_file_check, report_lines,
    resolve_pin_path, Check,
};
use codexferry::doctor_live::{
    chat_reply, exit_check, probe_catalog, probe_config, request_summary, responses_reply,
    sentinel_check, shape_checks, tail, ProbeOutcome,
};
use codexferry::heal::think::contains_think_markup;
use codexferry::heal::HealGates;
use codexferry::json::Json;
use codexferry::metrics::{ErrorClass, ErrorLabels, GaugeLabels, LatencyLabels, TokenLabels};
use codexferry::mock::{chat_turn, record_line, responses_turn, usage_chunk};
use codexferry::mode::Mode;
use codexferry::normalize::{is_known_item_type, NamespaceToolMap};
use codexferry::text::{join, same_ignoring_case, to_decimal};
use codexferry::version::{normalize_version, DoctorState};
use codexferry::wire::chat::{ChatDelta, ChatStreamChoice, ChatStreamChunk};
use serde_json::Value;

fn json(text: &str) -> Json {
    Json::parse(text).unwrap()
}

fn config(provider: &str, routes: &str) -> String {
    format!("[providers.p]\nbase_url = \"http://p\"\n{provider}\n[routes]\n{routes}\n")
}

fn fault(provider: &str, routes: &str) -> ConfigError {
    Config::parse_str(&config(provider, routes)).unwrap().validate().unwrap_err()
}

#[test]
fn json_texts_keep_numbers_and_escapes() {
    for text in [
        "-7",
        "18446744073709551615",
        "-9223372036854775808",
        "0.1",
        "1e300",
        "[null,true,\"\\\"é\\n\"]",
        "{\"a\":{\"b\":[]}}",
    ] {
        let printed = json(text).to_text();
        let read: Value = serde_json::from_str(&printed).unwrap();
        assert_eq!(read, serde_json::from_str::<Value>(text).unwrap(), "{text}");
    }
    assert_eq!(json("{\"b\":1,\"a\":2}").set("b", Json::uint(3)).to_text(), "{\"a\":2,\"b\":3}");
}

#[test]
fn json_errors_name_their_place() {
    assert_eq!(Json::read("{").unwrap_err(), "EOF while parsing an object at line 1 column 1");
    assert!(Json::parse("nope").is_none());
    assert!(Json::parse_bytes(b"\xff").is_none());
    assert_eq!(Json::parse_bytes(b"[1]").unwrap().to_text(), "[1]");
}

#[test]
fn toml_reads_as_json() {
    let doc = Json::parse_toml("a = 1\n[t]\nb = [\"x\", 2.5]\n").unwrap();
    assert_eq!(doc.to_text(), "{\"a\":1,\"t\":{\"b\":[\"x\",2.5]}}");
    assert!(Json::parse_toml("a = = 1").unwrap_err().contains("line 1"));
}

#[test]
fn every_configuration_fault_has_its_message() {
    let key = "api_key = \"k\"\nformat = \"chat\"";
    let faults = [
        (
            fault(key, "\"noslash\" = { model = \"m\" }"),
            "route key 'noslash' must contain '/' (format: provider/alias)",
        ),
        (
            fault(key, "\"q/a\" = { model = \"m\" }"),
            "route key 'q/a': provider 'q' not found in [providers] (available: p)",
        ),
        (
            fault("format = \"chat\"", "\"p/a\" = { model = \"m\" }"),
            "provider 'p' has no API key (set api_key, api_key_env, or api_key_file)",
        ),
        (
            fault("api_key = \"k\"\nformat = \"xml\"", "\"p/a\" = { model = \"m\" }"),
            "provider 'p': format must be 'chat' or 'responses', got 'xml'",
        ),
        (
            fault(&format!("{key}\ndrop_params = [\"model\"]"), ""),
            "provider 'p': drop_params key 'model' must not be empty or name a router-managed field (model|messages|tools|stream)",
        ),
        (
            fault(key, "\"p/a\" = { model = \"m\", default_reasoning_effort = \"x\" }"),
            "route 'p/a': default_reasoning_effort must be one of none|minimal|low|medium|high|xhigh|max|ultra, got 'x'",
        ),
    ];
    for (e, message) in faults {
        assert_eq!(e.message(), message);
    }
    let broken = Config::parse_str("[").unwrap_err();
    assert!(matches!(broken, ConfigError::Parse(_)));
    assert!(!broken.message().is_empty());
}

#[test]
fn a_route_that_stands_twice_is_refused() {
    let route = || RouteConfig {
        model: "m".to_string(),
        context_window: 1,
        default_reasoning_effort: None,
        description: None,
    };
    let mut c = Config::parse_str(&config("api_key = \"k\"\nformat = \"chat\"", "")).unwrap();
    c.routes = vec![("p/a".to_string(), route()), ("p/a".to_string(), route())];
    let e = c.validate().unwrap_err();
    assert!(matches!(&e, ConfigError::DuplicateRoute(k) if k == "p/a"));
    assert_eq!(e.message(), "duplicate route key 'p/a'");
}

#[test]
fn item_ids_are_drawn_anew() {
    let id = || {
        let mut conv = StreamConverter::new(
            "r".into(),
            "m".into(),
            HealGates::default(),
            NamespaceToolMap::new(),
        );
        let events = conv.on_chunk(&ChatStreamChunk {
            choices: vec![ChatStreamChoice {
                index: 0,
                delta: ChatDelta {
                    content: Some("x".into()),
                    ..Default::default()
                },
                finish_reason: None,
            }],
            usage: None,
        });
        let added: Value = serde_json::from_str(&events[1].1).unwrap();
        added["item"]["id"].as_str().unwrap().to_string()
    };
    let (a, b) = (id(), id());
    assert_ne!(a, b);
    let uuid = a.strip_prefix("msg_").unwrap();
    assert_eq!(uuid.len(), 32);
    assert!(uuid.chars().all(|c| c.is_ascii_digit() || ('a'..='f').contains(&c)));
}

#[test]
fn pin_paths_are_quoted_in_details() {
    let c = mode_keyed_check(Some("model_catalog_json = 'a\"b'"), Mode::Pinned).unwrap();
    assert!(c.detail.contains(r#""a\"b""#), "{c:?}");
}

#[test]
fn versions_are_the_first_word_with_a_digit() {
    assert_eq!(normalize_version("codex-cli 0.147.0").as_deref(), Some("0.147.0"));
    assert_eq!(normalize_version("  v2\n").as_deref(), Some("v2"));
    assert_eq!(normalize_version("no digits"), None);
}

#[test]
fn a_run_is_recorded_at_its_time() {
    let s = apply_record_at(true, Some("codex-cli 1.2.3"), DoctorState::default(), 42);
    assert_eq!(s.last_green.as_deref(), Some("1.2.3"));
    let run = s.last_run.unwrap();
    assert_eq!((run.at_unix, run.summary.as_str()), (42, "all checks passed"));
}

#[test]
fn report_lines_are_numbered() {
    let lines = report_lines(&[Check::pass("a", "b"), Check::warn("c", "d")]);
    assert_eq!(lines, ["[1/2] PASS: a — b", "[2/2] WARN: c — d"]);
}

#[test]
fn relative_pins_lie_under_the_home_directory() {
    assert_eq!(resolve_pin_path("/p.json", Some("/h")), "/p.json");
    assert_eq!(resolve_pin_path("p.json", Some("/h")), "/h/.codex/p.json");
    assert_eq!(resolve_pin_path("p.json", None), "p.json");
    assert!(pin_file_check("{").unwrap_err().starts_with("pin is not valid JSON: EOF"));
}

#[test]
fn the_base_address_names_host_and_port() {
    let server = ServerConfig {
        host: "0.0.0.0".to_string(),
        port: 80,
    };
    assert_eq!(expected_base(&server), "http://0.0.0.0:80/v1");
}

#[test]
fn scripted_turns_follow_the_scenario() {
    assert!(chat_turn("basic", 1, b"").unwrap()[0].contains("E2E_BASIC_OK"));
    assert!(chat_turn("multiturn", 3, b"").unwrap()[0].contains("E2E_TURN_3_OK"));
    let body = br#"{"tools":[{"type":"function","function":{"name":"sh"}}]}"#;
    assert!(chat_turn("tools", 1, body).unwrap().iter().any(|c| c.contains("\"name\":\"sh\"")));
    assert!(chat_turn("tools", 2, body).unwrap()[0].contains("E2E_TOOL_DONE"));
    assert_eq!(
        chat_turn("other", 1, b"").unwrap_err(),
        "scenario 'other' does not serve the chat path"
    );
    assert_eq!(responses_turn("basic").unwrap().len(), 5);
    assert_eq!(
        responses_turn("tools").unwrap_err(),
        "scenario 'tools' does not serve the responses path"
    );
    assert!(usage_chunk().contains("\"usage\""));
}

#[test]
fn recorded_requests_are_lines_of_json() {
    assert_eq!(
        record_line("/v1/responses", "Bearer t", b"{\"a\":1}"),
        r#"{"auth":"Bearer t","body":{"a":1},"path":"/v1/responses"}"#
    );
    assert_eq!(record_line("/", "", b"{"), r#"{"auth":"","body":null,"path":"/"}"#);
}

#[test]
fn probe_replies_call_a_tool_then_close() {
    let req = json(
        r#"{"tools":[{"type":"function","name":"sh","parameters":{"properties":{"cmd":{"type":"string"}},"required":["cmd"]}}]}"#,
    );
    let first = responses_reply(Some(&req), 1, "touch f");
    assert!(first.starts_with("event: response.created\ndata: "));
    assert!(first.contains(r#""arguments":"{\"cmd\":\"touch f\"}""#));
    assert!(responses_reply(Some(&req), 2, "touch f").contains("doctor round-trip complete"));
    assert_eq!(responses_reply(None, 1, ""), "event: response.failed\ndata: {}\n\n");
    assert!(chat_reply(Some(&req), 1, "touch f").contains("\"tool_calls\""));
    assert!(chat_reply(Some(&json("{}")), 1, "").contains("no tools visible"));
    assert_eq!(chat_reply(None, 1, ""), "data: [DONE]\n\n");
}

#[test]
fn probe_checks_tell_what_is_missing() {
    let none = shape_checks(&vec![], "chat", "m");
    assert_eq!(none.len(), 1);
    assert_eq!(none[0].detail, "mock upstream recorded nothing");
    let req = json(r#"{"model":"m","messages":[{"role":"user"}],"tools":[{"function":{}}]}"#);
    assert!(shape_checks(&vec![req], "chat", "m").iter().all(|c| format!("{:?}", c.status) == "Pass"));
    assert!(sentinel_check("/s", false).detail.contains("sentinel /s missing"));
    let outcome = ProbeOutcome {
        success: false,
        stderr_tail: "boom".to_string(),
    };
    assert_eq!(exit_check(&outcome).detail, "boom");
    assert_eq!(tail("abcdé", 2), "dé");
    assert_eq!(tail("ab", 5), "ab");
}

#[test]
fn the_probe_configuration_is_valid() {
    let cfg = Config::parse_str(&probe_config(1, 2)).unwrap().validate().unwrap();
    assert_eq!(cfg.server.port, 1);
    assert_eq!(cfg.routes.len(), 2);
    assert_eq!(cfg.route("doctor/resp").unwrap().model, "doctor-upstream");
    let catalog: Value = serde_json::from_str(&probe_catalog().to_text()).unwrap();
    assert_eq!(catalog["models"][1]["slug"], "doctorchat/chat");
    assert_eq!(catalog["models"][0]["default_reasoning_level"], "low");
}

#[test]
fn requests_are_summed_up_in_a_line() {
    let req = json(r#"{"model":"m","tools":[{}],"input":[{"type":"message"}]}"#);
    let line = request_summary(&req);
    assert!(line.starts_with("tools: 1"), "{line}");
    assert!(line.contains("message") && line.contains("m"), "{line}");
}

#[test]
fn labels_hold_what_they_are_made_of() {
    let e = ErrorLabels::new("p", "r", "m", ErrorClass::from_status(429));
    assert_eq!((e.provider.as_str(), e.error_class.label()), ("p", "http_429"));
    assert_eq!(TokenLabels::new("p", "r", "m").model, "m");
    assert_eq!(LatencyLabels::new("p", "r", "m").route, "r");
    assert_eq!(GaugeLabels::new("p", "r").provider, "p");
}

#[test]
fn small_texts() {
    assert_eq!(to_decimal(0), "0");
    assert_eq!(to_decimal(18446744073709551615), "18446744073709551615");
    assert_eq!(join(&vec!["a".to_string(), "b".to_string()], ", "), "a, b");
    assert!(same_ignoring_case("GLM_Thinking", "glm_thinking"));
    assert!(is_glm_like_model("zai-org/GLM-5") && !is_glm_like_model("deepseek"));
    assert!(contains_think_markup("a<think>b") && !contains_think_markup("a < b"));
    assert!(is_known_item_type("reasoning") && !is_known_item_type("additional_tools"));
}

#[test]
fn sections_may_be_arrays_of_their_fields() {
    let config = Config::parse_str(
        "server = [\"0.0.0.0\"]\nsession = [1, 2]\nquirks = [[\"think_tags\"]]\n\
         [providers]\np = [\"http://p\", \"k\", \"E\", \"f\", \"chat\", 5]\n\
         [routes]\n\"p/m\" = [\"m\", 10, \"low\"]\n",
    )
    .unwrap();
    assert_eq!((config.server.host.as_str(), config.server.port), ("0.0.0.0", 8787));
    assert_eq!((config.session.ttl_hours, config.session.max_sessions), (1, 2));
    let validated = config.validate().unwrap();
    assert!(!validated.quirk_enabled("think_tags"));
    let route = validated.route("p/m").unwrap();
    assert_eq!((route.model.as_str(), route.context_window), ("m", 10));
    assert_eq!(route.default_reasoning_effort.as_deref(), Some("low"));
    assert_eq!(route.provider.timeout_ms, 5);
    assert!(Config::parse_str("[routes]\n\"p/m\" = []\n").is_err());
}
