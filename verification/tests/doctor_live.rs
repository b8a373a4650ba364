use codexferry::doctor_live::pick_tool;
use codexferry::json::Json;
use serde_json::Value;

fn js(text: &str) -> Value {
    serde_json::from_str(text).unwrap()
}

fn json(text: &str) -> Json {
    Json::parse(text).unwrap()
}

#[test]
fn picks_first_function_tool_with_required_string() {
    let tools = vec![
        json(r#"{"type": "namespace", "name": "functions", "tools": []}"#),
        json(r#"{ "type": "function", "name": "exec_command", "parameters": { "type": "object", "properties": { "cmd": {"type": "string"}, "timeout_ms": {"type": "number"}, "tty": {"type": "boolean"}, "mode": {"type": "string", "enum": ["a", "b"]}}, "required": ["cmd"] } }"#),
    ];
    let (name, args) = pick_tool(&tools, "touch /tmp/x").expect("usable tool");
    assert_eq!(name, "exec_command");
    let args: Value = serde_json::from_str(&args).unwrap();

    assert_eq!(args, js(r#"{"cmd": "touch /tmp/x"}"#));
}

#[test]
fn picks_chat_shaped_function_tool() {
    let tools = vec![json(r#"{ "type": "function", "function": { "name": "exec_command", "parameters": { "type": "object", "properties": {"cmd": {"type": "string"}}, "required": ["cmd"] } } }"#)];
    let (name, _) = pick_tool(&tools, "touch /tmp/x").expect("usable tool");
    assert_eq!(name, "exec_command");
}

#[test]
fn no_function_tools_yields_none() {
    let tools = vec![
        json(r#"{"type": "namespace", "name": "functions", "tools": []}"#),
        json(r#"{"type": "web_search"}"#),
    ];
    assert!(pick_tool(&tools, "touch /tmp/x").is_none());
}

#[test]
fn no_required_properties_yields_none() {
    let tools = vec![json(r#"{ "type": "function", "name": "noop", "parameters": {"type": "object", "properties": {"x": {"type": "string"}}, "required": []} }"#)];
    assert!(pick_tool(&tools, "touch /tmp/x").is_none());
}

#[test]
fn synthesizes_number_boolean_and_enum_required_properties() {
    let tools = vec![json(r#"{ "type": "function", "name": "exec_command", "parameters": { "type": "object", "properties": { "cmd": {"type": "string"}, "num": {"type": "number"}, "flag": {"type": "boolean"}, "mode": {"type": "string", "enum": ["a", "b"]}}, "required": ["cmd", "num", "flag", "mode"] } }"#)];
    let (_, args) = pick_tool(&tools, "touch /tmp/x").expect("usable tool");
    let args: Value = serde_json::from_str(&args).unwrap();

    assert_eq!(
        args,
        js(r#"{ "cmd": "touch /tmp/x", "num": 1, "flag": false, "mode": "a" }"#)
    );
}

#[test]
fn malformed_function_tool_is_skipped_not_poisoning() {
    let tools = vec![
        json(r#"{"type": "function", "parameters": { "type": "object", "properties": {}, "required": []}}"#),
        json(r#"{ "type": "function", "name": "exec_command", "parameters": { "type": "object", "properties": {"cmd": {"type": "string"}}, "required": ["cmd"] } }"#),
    ];
    let (name, _) = pick_tool(&tools, "touch /tmp/x").expect("usable tool");
    assert_eq!(name, "exec_command");
}
