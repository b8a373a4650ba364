use codexferry::config::{
    resolve_default_config, Config, ConfigError, ProviderConfig, ValidatedConfig,
};

#[test]
fn default_path_env_var_wins_over_both_filenames() {
    let (path, legacy) = resolve_default_config(
        Some("/explicit/cxf.toml"),
        "/dir/cxf.toml",
        true,
        "/dir/config.toml",
        true,
    );
    assert_eq!(path, "/explicit/cxf.toml");
    assert!(!legacy);
}

#[test]
fn default_path_prefers_cxf_toml_when_both_exist() {
    let (path, legacy) =
        resolve_default_config(None, "/dir/cxf.toml", true, "/dir/config.toml", true);
    assert_eq!(path, "/dir/cxf.toml");
    assert!(!legacy);
}

#[test]
fn default_path_falls_back_to_legacy_config_toml_with_flag() {
    let (path, legacy) =
        resolve_default_config(None, "/dir/cxf.toml", false, "/dir/config.toml", true);
    assert_eq!(path, "/dir/config.toml");
    assert!(legacy);
}

#[test]
fn default_path_names_cxf_toml_when_nothing_exists() {
    let (path, legacy) =
        resolve_default_config(None, "/dir/cxf.toml", false, "/dir/config.toml", false);
    assert_eq!(path, "/dir/cxf.toml");
    assert!(!legacy);
}

fn make_config(toml_str: &str) -> ValidatedConfig {
    Config::parse_str(toml_str).unwrap().validate().unwrap()
}

const VALID_CONFIG: &str = r#"
[server]
port = 9999

[providers.deepseek]
base_url = "https://api.deepseek.com/v1"
api_key_env = "DEEPSEEK_API_KEY"
format = "chat"

[providers.ark]
base_url = "https://ark.cn-beijing.volces.com/api/v3"
api_key = "sk-test"
format = "chat"

[routes]
"deepseek/flash" = { model = "deepseek-chat" }
"ark/glm-5" = { model = "glm-5", context_window = 131072 }
"#;

#[test]
fn valid_config_parses() {
    let cfg = make_config(VALID_CONFIG);
    assert_eq!(cfg.server.port, 9999);
    assert_eq!(cfg.routes.len(), 2);
    let route = cfg.route("deepseek/flash").unwrap();
    assert_eq!(route.provider_name, "deepseek");
    assert_eq!(route.model, "deepseek-chat");
    assert_eq!(route.context_window, 1_048_576);
}

#[test]
fn route_without_slash_fails() {
    let toml_str = r#"
[providers.x]
base_url = "https://x.com/v1"
api_key = "k"
format = "chat"
[routes]
"noflash" = { model = "m" }
"#;
    let err = Config::parse_str(toml_str).unwrap().validate().unwrap_err();
    assert!(matches!(err, ConfigError::MissingSlash(_)));
}

#[test]
fn unknown_provider_fails() {
    let toml_str = r#"
[providers.x]
base_url = "https://x.com/v1"
api_key = "k"
format = "chat"
[routes]
"y/flash" = { model = "m" }
"#;
    let err = Config::parse_str(toml_str).unwrap().validate().unwrap_err();
    assert!(matches!(err, ConfigError::UnknownProvider { .. }));
}

#[test]
fn missing_api_key_fails() {
    let toml_str = r#"
[providers.x]
base_url = "https://x.com/v1"
format = "chat"
[routes]
"x/flash" = { model = "m" }
"#;
    let err = Config::parse_str(toml_str).unwrap().validate().unwrap_err();
    assert!(matches!(err, ConfigError::MissingApiKey(_)));
}

#[test]
fn invalid_format_fails() {
    let toml_str = r#"
[providers.x]
base_url = "https://x.com/v1"
api_key = "k"
format = "xml"
[routes]
"x/flash" = { model = "m" }
"#;
    let err = Config::parse_str(toml_str).unwrap().validate().unwrap_err();
    assert!(matches!(err, ConfigError::InvalidFormat(_, _)));
}

#[test]
fn session_defaults() {
    let cfg = make_config(VALID_CONFIG);
    assert_eq!(cfg.session.ttl_hours, 168);
    assert_eq!(cfg.session.max_sessions, 256);
    assert_eq!(cfg.session.max_memory_mb, 512);
}

fn parse(text: &str) -> Result<ValidatedConfig, ConfigError> {
    Config::parse_str(text).unwrap().validate()
}

fn provider<'a>(cfg: &'a ValidatedConfig, name: &str) -> &'a ProviderConfig {
    &cfg.providers.iter().find(|p| p.0 == name).unwrap().1
}

#[test]
fn valid_efforts_pass_validation() {
    for effort in [
        "none", "minimal", "low", "medium", "high", "xhigh", "max", "ultra",
    ] {
        let cfg = parse(&format!(
            r#"
[providers.x]
base_url = "https://x.com/v1"
api_key = "k"
format = "responses"
[routes]
"x/m" = {{ model = "m", default_reasoning_effort = "{effort}" }}
"#
        ))
        .unwrap_or_else(|e| panic!("{effort} should validate: {e:?}"));
        assert_eq!(
            cfg.route("x/m").unwrap().default_reasoning_effort.as_deref(),
            Some(effort)
        );
    }
}

#[test]
fn unknown_effort_is_rejected() {
    let err = parse(
        r#"
[providers.x]
base_url = "https://x.com/v1"
api_key = "k"
format = "responses"
[routes]
"x/m" = { model = "m", default_reasoning_effort = "extreme" }
"#,
    )
    .unwrap_err();
    assert!(matches!(
        err,
        ConfigError::InvalidReasoningEffort { key, effort }
            if key == "x/m" && effort == "extreme"
    ));
}

#[test]
fn extra_and_drop_params_parse() {
    let cfg = parse(
        r#"
[providers.x]
base_url = "https://x.com/v1"
api_key = "k"
format = "chat"
extra_params = { top_k = 50 }
drop_params = ["reasoning_effort"]
[routes]
"x/m" = { model = "m" }
"#,
    )
    .unwrap();
    assert_eq!(
        provider(&cfg, "x").extra_params.as_ref().unwrap().get("top_k").unwrap().to_text(),
        "50"
    );
    assert_eq!(
        provider(&cfg, "x").drop_params.as_ref().unwrap(),
        &vec!["reasoning_effort".to_string()]
    );
}

#[test]
fn managed_fields_are_rejected() {
    let cases = [
        (
            "extra_params",
            r#"{ top_k = 50, model = "other" }"#,
            "model",
        ),
        ("extra_params", r#"{ top_k = 50, tools = [] }"#, "tools"),
        ("extra_params", r#"{ top_k = 50, stream = true }"#, "stream"),
        (
            "drop_params",
            r#"["reasoning_effort", "messages"]"#,
            "messages",
        ),
        ("drop_params", r#"["stream"]"#, "stream"),
    ];
    for (field, body, expected) in cases {
        let err = parse(&format!(
            r#"
[providers.x]
base_url = "https://x.com/v1"
api_key = "k"
format = "chat"
{field} = {body}
[routes]
"x/m" = {{ model = "m" }}
"#
        ))
        .unwrap_err();
        assert!(
            matches!(&err, ConfigError::ManagedParamViolation { key, .. } if key == expected),
            "field {field} with key {expected}: got {err:?}"
        );
    }
}

#[test]
fn empty_keys_are_rejected() {
    let err = parse(
        r#"
[providers.x]
base_url = "https://x.com/v1"
api_key = "k"
format = "chat"
drop_params = [""]
[routes]
"x/m" = { model = "m" }
"#,
    )
    .unwrap_err();
    assert!(matches!(
        err,
        ConfigError::ManagedParamViolation { key, .. } if key.is_empty()
    ));
}

const BASE: &str = r#"
[providers.x]
base_url = "https://x.com/v1"
api_key = "k"
format = "chat"
[routes]
"x/m" = { model = "m" }
"#;

#[test]
fn quirks_default_to_all_enabled() {
    let cfg = parse(BASE).unwrap();
    assert!(cfg.quirk_enabled("glm_thinking"));
    assert!(cfg.quirk_enabled("missing_done"));
}

#[test]
fn disabled_quirks_match_case_insensitively() {
    let cfg = parse(&format!(
        "{BASE}\n[quirks]\ndisabled = [\"GLM_Thinking\"]\n"
    ))
    .unwrap();
    assert!(!cfg.quirk_enabled("glm_thinking"));
    assert!(cfg.quirk_enabled("missing_done"));
}
