use codexferry::mode::{detect_mode, Mode, DEFAULT_ACTIVE_PROVIDER};

#[test]
fn pin_present_is_pinned() {
    let toml = r#"
        model = "x/y"
        model_provider = "codexferry"
        model_catalog_json = "catalog.json"

        [model_providers.codexferry]
        base_url = "http://127.0.0.1:8787/v1"
        wire_api = "responses"
        [model_providers.codexferry.auth]
        command = "echo"
        args = ["dummy"]
    "#;
    assert_eq!(detect_mode(Some(toml), DEFAULT_ACTIVE_PROVIDER), Mode::Pinned);
}

#[test]
fn no_pin_with_auth_command_is_dynamic() {
    let toml = r#"
        model = "x/y"
        [model_providers.codexferry]
        base_url = "http://127.0.0.1:8787/v1"
        wire_api = "responses"
        [model_providers.codexferry.auth]
        command = "echo"
        args = ["dummy"]
    "#;
    assert_eq!(detect_mode(Some(toml), DEFAULT_ACTIVE_PROVIDER), Mode::Dynamic);
}

#[test]
fn no_pin_and_no_auth_is_fallback() {
    let toml = r#"
        model = "x/y"
        [model_providers.codexferry]
        base_url = "http://127.0.0.1:8787/v1"
        env_key = "DUMMY"
    "#;
    assert_eq!(detect_mode(Some(toml), DEFAULT_ACTIVE_PROVIDER), Mode::Fallback);
}

#[test]
fn missing_text_is_fallback() {
    assert_eq!(detect_mode(None, DEFAULT_ACTIVE_PROVIDER), Mode::Fallback);
}

#[test]
fn unparseable_text_is_fallback() {
    assert_eq!(detect_mode(Some("not valid toml [[["), DEFAULT_ACTIVE_PROVIDER), Mode::Fallback);
}

#[test]
fn uses_active_provider_argument() {
    let toml = r#"
        model = "x/y"
        model_provider = "alt"
        [model_providers.codexferry]
        base_url = "x"
        env_key = "DUMMY"
        [model_providers.alt]
        base_url = "x"
        [model_providers.alt.auth]
        command = "echo"
        args = ["d"]
    "#;

    assert_eq!(detect_mode(Some(toml), "alt"), Mode::Dynamic);

    assert_eq!(detect_mode(Some(toml), "codexferry"), Mode::Fallback);
}
