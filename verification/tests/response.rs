use codexferry::convert::response::{build_completed_response, chat_response_to_items};
use codexferry::json::Json;
use codexferry::normalize::{NamespaceToolMap, NamespaceToolName};
use codexferry::wire::chat::{ChatChoice, ChatMessage, ChatResponse, ChatUsage};
use serde_json::Value;

fn json(text: &str) -> Json {
    Json::parse(text).unwrap()
}

fn val(j: &Json) -> Value {
    serde_json::from_str(&j.to_text()).unwrap()
}

fn items(resp: &ChatResponse, names: &NamespaceToolMap) -> Vec<Value> {
    chat_response_to_items(resp, names).iter().map(val).collect()
}

fn completed(id: &str, model: &str, items: &Vec<Json>, usage: Option<ChatUsage>) -> Value {
    val(&build_completed_response(id, model, items, usage))
}

#[test]
fn converts_text_response() {
    let resp = ChatResponse {
        choices: vec![ChatChoice {
            message: ChatMessage {
                role: "assistant".into(),
                content: Some(Json::str("hello world")),
                reasoning_content: None,
                tool_calls: None,
                tool_call_id: None,
                name: None,
            },
        }],
        usage: Some(ChatUsage {
            prompt_tokens: 10,
            completion_tokens: 5,
            total_tokens: 15,
        }),
    };
    let items = items(&resp, &NamespaceToolMap::new());
    assert_eq!(items.len(), 1);
    assert_eq!(items[0]["type"], "message");
    assert_eq!(items[0]["content"][0]["text"], "hello world");
}

#[test]
fn converts_reasoning_and_text() {
    let resp = ChatResponse {
        choices: vec![ChatChoice {
            message: ChatMessage {
                role: "assistant".into(),
                content: Some(Json::str("answer")),
                reasoning_content: Some("thinking...".into()),
                tool_calls: None,
                tool_call_id: None,
                name: None,
            },
        }],
        usage: None,
    };
    let items = items(&resp, &NamespaceToolMap::new());
    assert_eq!(items.len(), 2);
    assert_eq!(items[0]["type"], "reasoning");
    assert_eq!(items[1]["type"], "message");
}

#[test]
fn converts_tool_calls() {
    let resp = ChatResponse {
        choices: vec![ChatChoice {
            message: ChatMessage {
                role: "assistant".into(),
                content: None,
                reasoning_content: None,
                tool_calls: Some(vec![json(r#"{ "id": "call_1", "type": "function", "function": { "name": "exec", "arguments": "{\"cmd\":\"ls\"}" } }"#)]),
                tool_call_id: None,
                name: None,
            },
        }],
        usage: None,
    };
    let items = items(&resp, &NamespaceToolMap::new());
    assert_eq!(items.len(), 1);
    assert_eq!(items[0]["type"], "function_call");
    assert_eq!(items[0]["call_id"], "call_1");
    assert_eq!(items[0]["name"], "exec");
}

#[test]
fn empty_content_produces_no_message_item() {
    let resp = ChatResponse {
        choices: vec![ChatChoice {
            message: ChatMessage {
                role: "assistant".into(),
                content: None,
                reasoning_content: None,
                tool_calls: None,
                tool_call_id: None,
                name: None,
            },
        }],
        usage: None,
    };
    let items = items(&resp, &NamespaceToolMap::new());
    assert!(items.is_empty());
}

#[test]
fn tool_call_missing_fields_uses_fallbacks() {
    let resp = ChatResponse {
        choices: vec![ChatChoice {
            message: ChatMessage {
                role: "assistant".into(),
                content: None,
                reasoning_content: None,
                tool_calls: Some(vec![json(r#"{}"#)]),
                tool_call_id: None,
                name: None,
            },
        }],
        usage: None,
    };
    let items = items(&resp, &NamespaceToolMap::new());
    assert_eq!(items.len(), 1);

    assert!(items[0]["call_id"].as_str().unwrap().starts_with("call_"));
    assert_eq!(items[0]["name"], "");
    assert_eq!(items[0]["arguments"], "{}");
}

#[test]
fn chat_response_to_items_decodes_namespace_tool_call() {
    let mut map = NamespaceToolMap::new();
    map.insert(
        "multi_agent_v1-spawn_agent".to_string(),
        NamespaceToolName {
            namespace: "multi_agent_v1".to_string(),
            name: "spawn_agent".to_string(),
        },
    );
    let resp = ChatResponse::from_json(&json(r#"{ "id": "x", "object": "chat.completion", "created": 0, "model": "m", "choices": [{ "index": 0, "message": { "role": "assistant", "content": null, "tool_calls": [{ "id": "call_1", "type": "function", "function": {"name": "multi_agent_v1-spawn_agent", "arguments": "{}"} }] }, "finish_reason": "tool_calls" }], "usage": {"prompt_tokens": 1, "completion_tokens": 1, "total_tokens": 2} }"#));
    let items = items(&resp, &map);
    let fc = items
        .iter()
        .find(|i| i["type"] == "function_call")
        .expect("function_call item");
    assert_eq!(fc["name"], "spawn_agent");
    assert_eq!(fc["namespace"], "multi_agent_v1");
}

#[test]
fn chat_response_to_items_keeps_flat_name_when_not_in_map() {
    let resp = ChatResponse::from_json(&json(r#"{ "id": "x", "object": "chat.completion", "created": 0, "model": "m", "choices": [{ "index": 0, "message": { "role": "assistant", "content": null, "tool_calls": [{ "id": "call_1", "type": "function", "function": {"name": "exec_command", "arguments": "{\"cmd\":\"ls\"}"} }] }, "finish_reason": "tool_calls" }], "usage": {"prompt_tokens": 1, "completion_tokens": 1, "total_tokens": 2} }"#));
    let items = items(&resp, &NamespaceToolMap::new());
    let fc = items
        .iter()
        .find(|i| i["type"] == "function_call")
        .expect("function_call item");
    assert_eq!(fc["name"], "exec_command");
    assert!(fc.get("namespace").is_none());
}

#[test]
fn completed_response_maps_usage() {
    let usage = ChatUsage {
        prompt_tokens: 7,
        completion_tokens: 3,
        total_tokens: 10,
    };
    let out = completed("resp_1", "m", &vec![json(r#"{"type": "message"}"#)], Some(usage));
    assert_eq!(out["id"], "resp_1");
    assert_eq!(out["object"], "response");
    assert_eq!(out["status"], "completed");
    assert_eq!(out["model"], "m");
    assert_eq!(out["output"][0]["type"], "message");
    assert!(out["output"][0]["id"].as_str().unwrap().starts_with("msg_"));
    assert_eq!(out["usage"]["input_tokens"], 7);
    assert_eq!(out["usage"]["output_tokens"], 3);
    assert_eq!(out["usage"]["total_tokens"], 10);
}

#[test]
fn completed_response_without_usage_zeros() {
    let out = completed("resp_1", "m", &vec![], None);
    assert_eq!(out["usage"]["input_tokens"], 0);
    assert_eq!(out["usage"]["output_tokens"], 0);
    assert_eq!(out["usage"]["total_tokens"], 0);
}
