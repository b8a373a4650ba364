use codexferry::json::Json;
use codexferry::wire::chat::{ChatMessage, ChatResponse, ChatStreamChunk, ChatUsage};
use codexferry::wire::responses::{ResponsesInput, ResponsesRequest};

fn json(text: &str) -> Json {
    Json::parse(text).unwrap()
}

#[test]
fn a_request_body_is_read() {
    let body = json(
        r#"{"model":"p/m","input":[{"type":"message"}],"instructions":"i","tools":[1,2],
            "stream":true,"temperature":0.5,"max_output_tokens":7,"reasoning":null,
            "store":false,"seed":3}"#,
    );
    let req = ResponsesRequest::from_json(&body).unwrap();
    assert_eq!(req.model, "p/m");
    match &req.input {
        ResponsesInput::Items(items) => assert_eq!(items[0].to_text(), r#"{"type":"message"}"#),
        ResponsesInput::Text(text) => panic!("{text}"),
    }
    assert_eq!(req.instructions.as_deref(), Some("i"));
    assert!(req.system.is_none());
    assert_eq!(req.tools.len(), 2);
    assert!(req.stream);
    assert_eq!(Json::Number(req.temperature.unwrap()).to_text(), "0.5");
    assert_eq!(req.max_output_tokens, Some(7));
    assert!(req.top_p.is_none());
    assert!(req.reasoning.is_none());
    assert_eq!(req.extra.to_text(), r#"{"seed":3,"store":false}"#);
}

#[test]
fn a_request_needs_a_model_and_an_input() {
    assert!(ResponsesRequest::from_json(&json(r#"{"input":"x"}"#)).is_none());
    assert!(ResponsesRequest::from_json(&json(r#"{"model":"m"}"#)).is_none());
    assert!(ResponsesRequest::from_json(&json(r#"{"model":"m","input":1}"#)).is_none());
    let text = ResponsesRequest::from_json(&json(r#"{"model":"m","input":"x"}"#)).unwrap();
    assert!(matches!(text.input, ResponsesInput::Text(t) if t == "x"));
    assert!(!text.stream);
}

#[test]
fn an_answer_body_is_read() {
    let answer = ChatResponse::from_json(&json(
        r#"{"choices":[{"message":{"content":"a","tool_calls":[{"id":"c"}]}},{}],
            "usage":{"prompt_tokens":1,"completion_tokens":2,"total_tokens":3}}"#,
    ));
    assert_eq!(answer.choices.len(), 2);
    assert_eq!(answer.choices[0].message.role, "assistant");
    assert_eq!(answer.choices[0].message.text_content(), "a");
    assert_eq!(answer.choices[0].message.tool_calls.as_ref().unwrap().len(), 1);
    assert!(answer.choices[1].message.content.is_none());
    let usage = ChatUsage { prompt_tokens: 1, completion_tokens: 2, total_tokens: 3 };
    assert_eq!(answer.usage, Some(usage));
    let huge = r#"{"usage":{"prompt_tokens":4294967296,"completion_tokens":2,"total_tokens":3}}"#;
    assert_eq!(ChatResponse::from_json(&json(huge)).usage, None);
}

#[test]
fn a_chunk_body_is_read() {
    let chunk = ChatStreamChunk::from_json(&json(
        r#"{"choices":[{"index":1,"delta":{"content":"a","reasoning_content":"r",
            "tool_calls":[{"index":2,"id":"c","function":{"name":"f","arguments":"{"}},{}]},
            "finish_reason":"stop"}]}"#,
    ));
    let choice = &chunk.choices[0];
    assert_eq!(choice.index, 1);
    assert_eq!(choice.delta.content.as_deref(), Some("a"));
    assert_eq!(choice.delta.reasoning_content.as_deref(), Some("r"));
    assert_eq!(choice.finish_reason.as_deref(), Some("stop"));
    let calls = choice.delta.tool_calls.as_ref().unwrap();
    assert_eq!((calls[0].index, calls[0].id.as_deref()), (2, Some("c")));
    let function = calls[0].function.as_ref().unwrap();
    assert_eq!(function.name.as_deref(), Some("f"));
    assert_eq!(function.arguments.as_deref(), Some("{"));
    assert_eq!(calls[1].index, 0);
    assert!(calls[1].function.is_none());
    assert!(ChatStreamChunk::from_json(&json("{}")).choices.is_empty());
}

#[test]
fn message_bodies_are_read_back() {
    let body = r#"{"content":"a","name":"n","reasoning_content":"r","role":"tool","tool_call_id":"c","tool_calls":[{"id":"x"}]}"#;
    assert_eq!(ChatMessage::from_json(&json(body)).to_json().to_text(), body);
    let null = ChatMessage::from_json(&json(r#"{"role":"user","content":null}"#));
    assert_eq!(null.to_json().to_text(), r#"{"role":"user"}"#);
}

#[test]
fn values_print_compactly_and_indented() {
    let v = json(r#"{"b":[1,{"c":"x"}],"a":{},"d":[]}"#);
    assert_eq!(v.to_text(), r#"{"a":{},"b":[1,{"c":"x"}],"d":[]}"#);
    assert_eq!(
        v.to_pretty_text(),
        "{\n  \"a\": {},\n  \"b\": [\n    1,\n    {\n      \"c\": \"x\"\n    }\n  ],\n  \"d\": []\n}"
    );
}
