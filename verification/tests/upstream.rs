use codexferry::config::{Config, ProviderConfig};
use codexferry::json::Json;
use codexferry::sse::{first_block, frame, read_event, sse_block};

fn json(text: &str) -> Json {
    Json::parse(text).unwrap()
}

fn provider(fields: &str) -> ProviderConfig {
    let text = format!(
        "[providers.p]\nbase_url = \"http://p\"\nformat = \"chat\"\n{fields}\n\
         [routes]\n\"p/m\" = {{ model = \"m\" }}\n"
    );
    let validated = Config::parse_str(&text).unwrap().validate().unwrap();
    validated.route("p/m").unwrap().provider.dup()
}

#[test]
fn params_are_merged_then_dropped() {
    let p = provider(
        "api_key = \"k\"\nextra_params = { top_k = 50, seed = 2, user = \"u\" }\n\
         drop_params = [\"reasoning_effort\", \"user\"]",
    );
    let body = json("{\"model\":\"m\",\"seed\":1,\"reasoning_effort\":\"low\",\"stream\":true}");
    assert_eq!(
        p.apply_params(body).to_text(),
        "{\"model\":\"m\",\"seed\":2,\"stream\":true,\"top_k\":50}"
    );
}

#[test]
fn params_of_a_plain_provider_change_nothing() {
    let body = "{\"model\":\"m\",\"stream\":false}";
    assert_eq!(provider("api_key = \"k\"").apply_params(json(body)).to_text(), body);
    let p = provider("api_key = \"k\"\nextra_params = { top_k = 50 }");
    assert_eq!(p.apply_params(json("[1]")).to_text(), "[1]");
}

#[test]
fn managed_fields_reach_the_provider() {
    let p = provider(
        "api_key = \"k\"\nextra_params = { stop = [\"x\"] }\ndrop_params = [\"tool_choice\"]",
    );
    let body = "{\"messages\":[],\"model\":\"m\",\"stream\":true,\"tool_choice\":\"auto\",\"tools\":[1]}";
    let sent = p.apply_params(json(body));
    for (field, text) in [
        ("messages", "[]"),
        ("model", "\"m\""),
        ("stream", "true"),
        ("tools", "[1]"),
    ] {
        assert_eq!(sent.get(field).unwrap().to_text(), text);
    }
    assert!(sent.get("tool_choice").is_none());
}

#[test]
fn keys_are_looked_up_in_order() {
    let all = provider("api_key = \"a\"\napi_key_env = \"E\"\napi_key_file = \"f\"");
    assert_eq!(all.resolve_api_key(Some("b"), Some("c")).as_deref(), Some("a"));
    let env = provider("api_key_env = \"E\"\napi_key_file = \"f\"");
    assert_eq!(env.resolve_api_key(Some("b"), Some("c")).as_deref(), Some("b"));
    assert_eq!(env.resolve_api_key(None, Some(" c\n")).as_deref(), Some("c"));
    assert_eq!(env.resolve_api_key(None, None), None);
    let file = provider("api_key_file = \"f\"");
    assert_eq!(file.resolve_api_key(Some("b"), Some("\tc d\r\n")).as_deref(), Some("c d"));
}

#[test]
fn blocks_are_cut_behind_an_empty_line() {
    assert_eq!(first_block(&b"data: a\n\ndata: b\n\n".to_vec()), Some(9));
    assert_eq!(first_block(&b"\n\n".to_vec()), Some(2));
    assert_eq!(first_block(&b"data: a\n".to_vec()), None);
    assert_eq!(first_block(&Vec::new()), None);
}

#[test]
fn framed_events_are_read_back() {
    let raw = sse_block("response.created", &json("{\"a\":\"x\\ny\"}"));
    let text = String::from_utf8(raw).unwrap();
    assert_eq!(text, "event: response.created\ndata: {\"a\":\"x\\ny\"}\n\n");
    let (event, data) = read_event(&text);
    assert_eq!(event.as_deref(), Some("response.created"));
    assert_eq!(data, "{\"a\":\"x\\ny\"}");
    assert_eq!(frame("", ""), b"event: \ndata: \n\n".to_vec());
}

#[test]
fn events_are_read_line_by_line() {
    assert_eq!(read_event(""), (None, String::new()));
    assert_eq!(
        read_event(": note\r\nevent:a\r\nevent:  b\r\ndata:1\r\ndata: 2\r\nid: 3"),
        (Some(" b".to_string()), "1\n2".to_string())
    );
    assert_eq!(read_event("data: [DONE]\n\n"), (None, "[DONE]".to_string()));
}
