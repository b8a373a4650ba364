use codexferry::convert::request::{
    convert_content, convert_responses_item_to_chat, function_call_to_tool_call, to_chat_request,
};
use codexferry::convert::response::StreamConverter;
use codexferry::heal::HealGates;
use codexferry::json::{Json, JsonNumber};
use codexferry::normalize::{unknown_item_types, unmappable_tool_types, NamespaceToolMap};
use codexferry::wire::chat::{ChatDelta, ChatStreamChoice, ChatStreamChunk};
use codexferry::wire::responses::{ResponsesInput, ResponsesRequest};
use serde_json::Value;

fn json(text: &str) -> Json {
    Json::parse(text).unwrap()
}

fn val(j: &Json) -> Value {
    serde_json::from_str(&j.to_text()).unwrap()
}

fn number(n: Option<JsonNumber>) -> Option<f64> {
    n.and_then(|n| val(&Json::Number(n)).as_f64())
}

fn make_request(input: &str) -> ResponsesRequest {
    ResponsesRequest::from_json(&json(input)).unwrap()
}

fn items_of(req: &ResponsesRequest) -> Vec<Json> {
    match &req.input {
        ResponsesInput::Text(_) => Vec::new(),
        ResponsesInput::Items(items) => items.iter().map(|x| x.dup()).collect(),
    }
}

fn chunk(delta: ChatDelta, finish: Option<&str>) -> ChatStreamChunk {
    ChatStreamChunk {
        choices: vec![ChatStreamChoice {
            index: 0,
            delta,
            finish_reason: finish.map(String::from),
        }],
        usage: None,
    }
}

fn base_req() -> ResponsesRequest {
    make_request(r#"{"model":"x","input":"hello"}"#)
}

#[test]
fn reasoning_effort_forwarded_verbatim() {
    let mut req = base_req();
    req.reasoning = Some(json(r#"{ "effort": "xhigh" }"#));
    let chat = to_chat_request(&req, &vec![], "deepseek-v4-pro", false);
    assert_eq!(chat.reasoning_effort.as_deref(), Some("xhigh"));

    let body = val(&chat.to_json());
    assert_eq!(body["reasoning_effort"], val(&json(r#""xhigh""#)));
}

#[test]
fn absent_reasoning_omits_the_field() {
    let chat = to_chat_request(&base_req(), &vec![], "deepseek-v4-pro", false);
    assert!(chat.reasoning_effort.is_none());
    let body = val(&chat.to_json());
    assert!(body.get("reasoning_effort").is_none());
}

#[test]
fn glm_models_get_thinking_switch_when_quirk_on() {
    let mut req = base_req();
    req.reasoning = None;
    let chat = to_chat_request(&req, &vec![], "zai-org/GLM-5", true);
    let body = val(&chat.to_json());
    assert_eq!(body["thinking"], val(&json(r#"{ "type": "enabled" }"#)));

    let chat = to_chat_request(&req, &vec![], "zai-org/GLM-5", false);
    let body = val(&chat.to_json());
    assert!(body.get("thinking").is_none());
}

#[test]
fn non_glm_models_never_get_thinking_switch() {
    let chat = to_chat_request(&base_req(), &vec![], "deepseek-v4-flash", true);
    let body = val(&chat.to_json());
    assert!(body.get("thinking").is_none());
}

#[test]
fn reasoning_effort_and_thinking_compose() {
    let mut req = base_req();
    req.reasoning = Some(json(r#"{ "effort": "high" }"#));
    let chat = to_chat_request(&req, &vec![], "glm-4.6", true);
    let body = val(&chat.to_json());

    assert_eq!(body["reasoning_effort"], val(&json(r#""high""#)));
    assert_eq!(body["thinking"], val(&json(r#"{ "type": "enabled" }"#)));
}

#[test]
fn converts_string_input() {
    let req = make_request(r#"{"model":"x","input":"hello"}"#);
    let chat = to_chat_request(&req, &vec![], "upstream-model", false);
    assert_eq!(chat.model, "upstream-model");
    assert_eq!(chat.messages.len(), 1);
    assert_eq!(chat.messages[0].role, "user");
    assert_eq!(chat.messages[0].text_content(), "hello");
}

#[test]
fn converts_instructions_to_system() {
    let req = make_request(r#"{"model":"x","input":"hi","instructions":"be helpful"}"#);
    let chat = to_chat_request(&req, &vec![], "m", false);
    assert_eq!(chat.messages[0].role, "system");
    assert_eq!(chat.messages[0].text_content(), "be helpful");
    assert_eq!(chat.messages[1].role, "user");
}

#[test]
fn converts_function_call_output() {
    let req = make_request(
        r#"{"model":"x","input":[{"type":"function_call_output","call_id":"c1","output":"result"}]}"#,
    );
    let chat = to_chat_request(&req, &vec![], "m", false);
    assert_eq!(chat.messages[0].role, "tool");
    assert_eq!(chat.messages[0].tool_call_id.as_deref(), Some("c1"));
    assert_eq!(chat.messages[0].text_content(), "result");
}

#[test]
fn converts_function_tool() {
    let req = make_request(
        r#"{"model":"x","input":"hi","tools":[{"type":"function","name":"exec","description":"run","parameters":{"type":"object","properties":{}}}]}"#,
    );
    let chat = to_chat_request(&req, &vec![], "m", false);
    assert_eq!(chat.tools.len(), 1);
    assert_eq!(val(&chat.tools[0])["function"]["name"], "exec");
}

#[test]
fn converts_freeform_tool_to_function() {
    let req = make_request(
        r#"{"model":"x","input":"hi","tools":[{"type":"freeform","name":"apply_patch","description":"patch","input_schema":{}}]}"#,
    );
    let chat = to_chat_request(&req, &vec![], "m", false);
    assert_eq!(chat.tools.len(), 1);
    let tool = val(&chat.tools[0]);
    let params = &tool["function"]["parameters"];
    assert_eq!(params["properties"]["input"]["type"], "string");
    assert_eq!(params["required"][0], "input");
}

#[test]
fn maps_max_output_tokens_to_max_tokens() {
    let req = make_request(r#"{"model":"x","input":"hi","max_output_tokens":4096}"#);
    let chat = to_chat_request(&req, &vec![], "m", false);
    assert_eq!(chat.max_tokens, Some(4096));
}

#[test]
fn drops_unknown_fields() {
    let req = make_request(
        r#"{"model":"x","input":"hi","store":true,"metadata":{"k":"v"},"previous_response_id":"r1"}"#,
    );
    let chat = to_chat_request(&req, &vec![], "m", false);
    let text = chat.to_json().to_text();
    assert!(!text.contains("store"));
    assert!(!text.contains("metadata"));
    assert!(!text.contains("previous_response_id"));
}

#[test]
fn merges_history_items() {
    let history = vec![
        json(r#"{"type":"message","role":"user","content":[{"type":"input_text","text":"hello"}]}"#),
        json(r#"{"type":"message","role":"assistant","content":[{"type":"output_text","text":"hi there"}]}"#),
    ];
    let req = make_request(r#"{"model":"x","input":"next question"}"#);
    let chat = to_chat_request(&req, &history, "m", false);
    assert_eq!(chat.messages.len(), 3);
    assert_eq!(chat.messages[0].role, "user");
    assert_eq!(chat.messages[0].text_content(), "hello");
    assert_eq!(chat.messages[1].role, "assistant");
    assert_eq!(chat.messages[2].role, "user");
    assert_eq!(chat.messages[2].text_content(), "next question");
}

#[test]
fn merges_text_and_tool_call_from_history() {
    let history = vec![
        json(r#"{"type":"message","role":"assistant","content":[{"type":"output_text","text":"let me check"}]}"#),
        json(r#"{"type":"function_call","call_id":"c1","name":"exec","arguments":"{\"cmd\":\"ls\"}"}"#),
    ];
    let req = make_request(r#"{"model":"x","input":"next"}"#);
    let chat = to_chat_request(&req, &history, "m", false);
    assert_eq!(chat.messages.len(), 2);
    assert_eq!(chat.messages[0].role, "assistant");
    assert_eq!(chat.messages[0].text_content(), "let me check");
    assert!(chat.messages[0].tool_calls.is_some());
    assert_eq!(chat.messages[0].tool_calls.as_ref().unwrap().len(), 1);
    assert_eq!(chat.messages[1].role, "user");
}

#[test]
fn merges_inline_transcript_in_input_items() {
    let req = make_request(
        r#"{"model":"x","input":[
                {"type":"message","role":"user","content":[{"type":"input_text","text":"ls please"}]},
                {"type":"message","role":"assistant","content":[{"type":"output_text","text":"let me check"}]},
                {"type":"function_call","call_id":"c1","name":"exec","arguments":"{\"cmd\":\"ls\"}"},
                {"type":"function_call_output","call_id":"c1","output":"file_a\nfile_b"},
                {"type":"message","role":"user","content":[{"type":"input_text","text":"thanks"}]}
            ]}"#,
    );
    let chat = to_chat_request(&req, &vec![], "m", false);
    let roles: Vec<&str> = chat.messages.iter().map(|m| m.role.as_str()).collect();
    assert_eq!(roles, vec!["user", "assistant", "tool", "user"]);

    assert_eq!(chat.messages[1].text_content(), "let me check");
    assert_eq!(chat.messages[1].tool_calls.as_ref().unwrap().len(), 1);

    assert_eq!(chat.messages[2].tool_call_id.as_deref(), Some("c1"));
    assert_eq!(chat.messages[2].text_content(), "file_a\nfile_b");
}

#[test]
fn merges_multiple_tool_calls_with_text() {
    let history = vec![
        json(r#"{"type":"message","role":"assistant","content":[{"type":"output_text","text":"ok"}]}"#),
        json(r#"{"type":"function_call","call_id":"c1","name":"a","arguments":"{}"}"#),
        json(r#"{"type":"function_call","call_id":"c2","name":"b","arguments":"{}"}"#),
    ];
    let req = make_request(r#"{"model":"x","input":"next"}"#);
    let chat = to_chat_request(&req, &history, "m", false);
    assert_eq!(chat.messages.len(), 2);
    assert_eq!(chat.messages[0].role, "assistant");
    assert_eq!(chat.messages[0].tool_calls.as_ref().unwrap().len(), 2);
}

#[test]
fn merges_reasoning_text_and_tool_call() {
    let history = vec![
        json(r#"{"type":"reasoning","summary":[{"type":"summary_text","text":"thinking..."}]}"#),
        json(r#"{"type":"message","role":"assistant","content":[{"type":"output_text","text":"answer"}]}"#),
        json(r#"{"type":"function_call","call_id":"c1","name":"exec","arguments":"{}"}"#),
    ];
    let req = make_request(r#"{"model":"x","input":"next"}"#);
    let chat = to_chat_request(&req, &history, "m", false);
    assert_eq!(chat.messages.len(), 2);
    assert_eq!(chat.messages[0].role, "assistant");
    assert_eq!(chat.messages[0].text_content(), "answer");
    assert_eq!(
        chat.messages[0].reasoning_content.as_deref(),
        Some("thinking...")
    );
    assert!(chat.messages[0].tool_calls.is_some());
}

#[test]
fn standalone_tool_call_without_message_merges() {
    let history =
        vec![json(r#"{"type":"function_call","call_id":"c1","name":"exec","arguments":"{}"}"#)];
    let req = make_request(r#"{"model":"x","input":"next"}"#);
    let chat = to_chat_request(&req, &history, "m", false);
    assert_eq!(chat.messages.len(), 2);
    assert_eq!(chat.messages[0].role, "assistant");
    assert!(chat.messages[0].tool_calls.is_some());
    assert_eq!(chat.messages[0].tool_calls.as_ref().unwrap().len(), 1);
}

#[test]
fn assistant_item_reasoning_content_survives_replay() {
    let history = vec![json(r#"{ "type": "message", "role": "assistant", "content": [{"type": "output_text", "text": "answer"}], "reasoning_content": "inline thinking" }"#)];
    let req = make_request(r#"{"model":"x","input":"next"}"#);
    let chat = to_chat_request(&req, &history, "m", false);
    assert_eq!(chat.messages.len(), 2);
    assert_eq!(chat.messages[0].role, "assistant");
    assert_eq!(
        chat.messages[0].reasoning_content.as_deref(),
        Some("inline thinking")
    );
}

#[test]
fn empty_reasoning_summary_does_not_shadow_item_reasoning() {
    let history = vec![
        json(r#"{"type":"reasoning","summary":[{"type":"summary_text","text":""}]}"#),
        json(r#"{ "type": "message", "role": "assistant", "content": [{"type": "output_text", "text": "answer"}], "reasoning_content": "inline thinking" }"#),
    ];
    let req = make_request(r#"{"model":"x","input":"next"}"#);
    let chat = to_chat_request(&req, &history, "m", false);
    assert_eq!(
        chat.messages[0].reasoning_content.as_deref(),
        Some("inline thinking")
    );
}

#[test]
fn empty_reasoning_summary_does_not_clear_buffered_reasoning() {
    let history = vec![
        json(r#"{"type":"reasoning","summary":[{"type":"summary_text","text":"part1"}]}"#),
        json(r#"{"type":"reasoning","summary":[{"type":"summary_text","text":""}]}"#),
        json(r#"{"type":"message","role":"assistant","content":[{"type":"output_text","text":"answer"}]}"#),
    ];
    let req = make_request(r#"{"model":"x","input":"next"}"#);
    let chat = to_chat_request(&req, &history, "m", false);
    assert_eq!(chat.messages[0].reasoning_content.as_deref(), Some("part1"));
}

#[test]
fn preceding_reasoning_item_wins_over_item_reasoning_content() {
    let history = vec![
        json(r#"{"type":"reasoning","summary":[{"type":"summary_text","text":"buffered"}]}"#),
        json(r#"{ "type": "message", "role": "assistant", "content": [{"type": "output_text", "text": "answer"}], "reasoning_content": "inline thinking" }"#),
    ];
    let req = make_request(r#"{"model":"x","input":"next"}"#);
    let chat = to_chat_request(&req, &history, "m", false);
    assert_eq!(chat.messages[0].role, "assistant");
    assert_eq!(
        chat.messages[0].reasoning_content.as_deref(),
        Some("buffered")
    );
}

#[test]
fn round_trip_text_before_reasoning_attaches_reasoning_on_replay() {

    let mut conv = StreamConverter::new(
        "resp_rt".into(),
        "m".into(),
        HealGates::default(),
        NamespaceToolMap::new(),
    );
    conv.on_chunk(&chunk(
        ChatDelta {
            content: Some("answer".into()),
            ..Default::default()
        },
        None,
    ));
    conv.on_chunk(&chunk(
        ChatDelta {
            reasoning_content: Some("thinking".into()),
            ..Default::default()
        },
        None,
    ));
    conv.on_chunk(&chunk(ChatDelta::default(), Some("stop")));
    conv.finish();

    let history = conv.acc.items;
    let req = make_request(r#"{"model":"x","input":"next"}"#);
    let chat = to_chat_request(&req, &history, "m", false);
    assert_eq!(chat.messages.len(), 2);
    assert_eq!(chat.messages[0].role, "assistant");
    assert_eq!(chat.messages[0].text_content(), "answer");
    assert_eq!(
        chat.messages[0].reasoning_content.as_deref(),
        Some("thinking")
    );
    assert_eq!(chat.messages[1].role, "user");
}

#[test]
fn converts_image_input() {
    let req = make_request(
        r#"{"model":"x","input":[{"type":"message","role":"user","content":[{"type":"input_text","text":"what is this"},{"type":"input_image","image_url":"data:image/png;base64,abc"}]}]}"#,
    );
    let chat = to_chat_request(&req, &vec![], "m", false);
    let content = val(chat.messages[0].content.as_ref().unwrap());
    assert!(content.is_array());
    let parts = content.as_array().unwrap();
    assert_eq!(parts[0]["type"], "text");
    assert_eq!(parts[1]["type"], "image_url");
}

#[test]
fn converts_single_text_part_to_string() {
    let item =
        json(r#"{"type":"message","role":"user","content":[{"type":"input_text","text":"hello"}]}"#);
    let msg = convert_responses_item_to_chat(&item).unwrap();
    assert_eq!(msg.content.as_ref().unwrap().as_str(), Some("hello"));
}

#[test]
fn single_image_part_stays_array() {
    let item = json(r#"{"type":"message","role":"user","content":[{"type":"input_image","image_url":"data:image/png;base64,abc"}]}"#);
    let msg = convert_responses_item_to_chat(&item).unwrap();
    let content = val(msg.content.as_ref().unwrap());
    assert!(content.is_array());
    assert_eq!(content.as_array().unwrap()[0]["type"], "image_url");
}

#[test]
fn empty_or_unknown_parts_yield_none() {
    assert!(convert_content(&json(r#"[]"#)).is_none());
    assert!(convert_content(&json(r#"[{"type":"weird","x":1}]"#)).is_none());
}

#[test]
fn replays_function_call_item() {
    let item =
        json(r#"{"type":"function_call","call_id":"c1","name":"exec","arguments":"{\"cmd\":\"ls\"}"}"#);
    let msg = convert_responses_item_to_chat(&item).unwrap();
    assert_eq!(msg.role, "assistant");
    let tc = val(&msg.tool_calls.as_ref().unwrap()[0]);
    assert_eq!(tc["id"], "c1");
    assert_eq!(tc["function"]["name"], "exec");
}

#[test]
fn converts_custom_tool_to_function() {
    let req = make_request(
        r#"{"model":"x","input":"hi","tools":[{"type":"custom","name":"apply_patch","description":"patch"}]}"#,
    );
    let chat = to_chat_request(&req, &vec![], "m", false);
    assert_eq!(chat.tools.len(), 1);
    assert_eq!(val(&chat.tools[0])["function"]["name"], "apply_patch");
}

#[test]
fn system_field_becomes_system_message() {
    let req = make_request(r#"{"model":"x","input":"hi","system":"be terse"}"#);
    let chat = to_chat_request(&req, &vec![], "m", false);
    assert_eq!(chat.messages[0].role, "system");
    assert_eq!(chat.messages[0].text_content(), "be terse");
}

#[test]
fn preserves_reasoning_across_history_replay() {
    let history = vec![
        json(r#"{"type":"reasoning","summary":[{"type":"summary_text","text":"thinking..."}]}"#),
        json(r#"{"type":"message","role":"assistant","content":[{"type":"output_text","text":"the answer"}]}"#),
    ];
    let req = make_request(r#"{"model":"x","input":"next"}"#);
    let chat = to_chat_request(&req, &history, "m", false);
    assert_eq!(chat.messages.len(), 2);
    assert_eq!(chat.messages[0].role, "assistant");
    assert_eq!(chat.messages[0].text_content(), "the answer");
    assert_eq!(
        chat.messages[0].reasoning_content.as_deref(),
        Some("thinking...")
    );
    assert_eq!(chat.messages[1].role, "user");
}

#[test]
fn trailing_reasoning_without_assistant_is_dropped() {
    let history =
        vec![json(r#"{"type":"reasoning","summary":[{"type":"summary_text","text":"thinking..."}]}"#)];
    let req = make_request(r#"{"model":"x","input":"next"}"#);
    let chat = to_chat_request(&req, &history, "m", false);
    assert_eq!(chat.messages.len(), 1);
    assert_eq!(chat.messages[0].role, "user");
    assert_eq!(chat.messages[0].text_content(), "next");
    assert!(chat.messages[0].reasoning_content.is_none());
}

#[test]
fn passes_through_presence_and_frequency_penalty() {
    let req = make_request(
        r#"{"model":"x","input":"hi","presence_penalty":0.5,"frequency_penalty":1.2}"#,
    );
    let chat = to_chat_request(&req, &vec![], "m", false);
    assert_eq!(number(chat.presence_penalty), Some(0.5));
    assert_eq!(number(chat.frequency_penalty), Some(1.2));
}

#[test]
fn passes_through_tool_choice() {
    let req = make_request(r#"{"model":"x","input":"hi","tool_choice":"auto"}"#);
    let chat = to_chat_request(&req, &vec![], "m", false);
    assert_eq!(chat.tool_choice.as_ref().map(val), Some(val(&json(r#""auto""#))));
}

#[test]
fn tool_choice_none_when_absent() {
    let req = make_request(r#"{"model":"x","input":"hi"}"#);
    let chat = to_chat_request(&req, &vec![], "m", false);
    assert!(chat.tool_choice.is_none());
}

#[test]
fn presence_and_frequency_penalty_absent_when_not_set() {
    let req = make_request(r#"{"model":"x","input":"hi"}"#);
    let chat = to_chat_request(&req, &vec![], "m", false);
    assert!(chat.presence_penalty.is_none());
    assert!(chat.frequency_penalty.is_none());

    let text = chat.to_json().to_text();
    assert!(!text.contains("presence_penalty"));
    assert!(!text.contains("frequency_penalty"));
}

#[test]
fn namespace_tools_flatten_into_chat_request() {
    let req = make_request(
        r#"{"model":"x","input":"hi","tools":[
                {"type":"namespace","name":"multi_agent_v1","tools":[
                    {"type":"function","name":"get_goal","description":"g","parameters":{"type":"object"}}
                ]}
            ]}"#,
    );
    let chat = to_chat_request(&req, &vec![], "m", false);
    let body = val(&chat.to_json());
    let tools = body["tools"].as_array().unwrap();
    assert_eq!(tools.len(), 1);

    assert_eq!(tools[0]["function"]["name"], "multi_agent_v1-get_goal");
    assert_eq!(tools[0]["function"]["description"], "g");
}

#[test]
fn additional_tools_not_flagged_unknown_but_unknowns_are() {
    let probe = "normalize_test_chat_warn_e";
    let req = make_request(
        r#"{"model":"x","input":[
                {"type":"additional_tools","tools":[{"type":"function","name":"exec_command"}]},
                {"type":"message","role":"user","content":[{"type":"input_text","text":"hi"}]},
                {"type":"normalize_test_chat_warn_e"}
            ]}"#,
    );
    let unknown = unknown_item_types(&items_of(&req));
    assert!(!unknown.iter().any(|t| t == "additional_tools"));
    assert_eq!(unknown.iter().filter(|t| t.as_str() == probe).count(), 1);
    assert_eq!(to_chat_request(&req, &vec![], "m", false).messages.len(), 1);
}

#[test]
fn chat_path_warns_unmappable_tool_dropped_from_additional_tools_namespace() {
    let probe = "normalize_test_chat_tool_warn_j";
    let req = make_request(
        r#"{"model":"x","input":[
                {"type":"additional_tools","tools":[
                    {"type":"namespace","name":"functions","tools":[
                        {"type":"function","name":"exec_command"},
                        {"type":"normalize_test_chat_tool_warn_j"}
                    ]}
                ]},
                {"type":"message","role":"user","content":[{"type":"input_text","text":"hi"}]}
            ]}"#,
    );
    let dropped = unmappable_tool_types(&items_of(&req));
    assert_eq!(dropped.iter().filter(|t| t.as_str() == probe).count(), 1);
    assert_eq!(to_chat_request(&req, &vec![], "m", false).tools.len(), 1);
}

#[test]
fn chat_tools_dedup_across_top_level_and_additional_tools() {
    let req = make_request(
        r#"{"model":"x","input":[
                {"type":"additional_tools","tools":[
                    {"type":"function","name":"get_goal"}
                ]}
            ],"tools":[
                {"type":"function","name":"get_goal","description":"g","parameters":{"type":"object"}}
            ]}"#,
    );
    let chat = to_chat_request(&req, &vec![], "m", false);
    let body = val(&chat.to_json());
    let tools = body["tools"].as_array().unwrap();
    assert_eq!(tools.len(), 1);
    assert_eq!(tools[0]["function"]["name"], "get_goal");
    assert_eq!(tools[0]["function"]["description"], "g");
}

#[test]
fn function_call_with_namespace_replays_encoded_chat_name() {
    let fc = json(r#"{ "type": "function_call", "call_id": "c1", "namespace": "multi_agent_v1", "name": "spawn_agent", "arguments": "{}"}"#);
    let tc = val(&function_call_to_tool_call(&fc));
    assert_eq!(tc["function"]["name"], "multi_agent_v1-spawn_agent");
}

#[test]
fn function_call_without_namespace_replays_flat_name() {
    let fc = json(r#"{ "type": "function_call", "call_id": "c1", "name": "exec_command", "arguments": "{\"cmd\":\"ls\"}"}"#);
    let tc = val(&function_call_to_tool_call(&fc));
    assert_eq!(tc["function"]["name"], "exec_command");
}
