use codexferry::json::Json;
use codexferry::mock::{basic_chat_chunks, multiturn_marker, responses_events, tools_turn1_chunks};

fn json(text: &str) -> Json {
    Json::parse(text).unwrap()
}

#[test]
fn basic_chunks_carry_marker_usage_done() {
    let chunks = basic_chat_chunks("E2E_BASIC_OK");
    assert!(chunks[0].contains("E2E_BASIC_OK"));
    assert!(chunks
        .iter()
        .any(|c| c.contains("\"finish_reason\":\"stop\"")));
    assert!(chunks.iter().any(|c| c.contains("\"usage\"")));
    assert_eq!(*chunks.last().unwrap(), "[DONE]".to_string());
}

#[test]
fn multiturn_marker_embeds_turn_number() {
    assert!(basic_chat_chunks(&multiturn_marker(2))[0].contains("E2E_TURN_2_OK"));
}

#[test]
fn responses_events_have_real_event_names() {
    let events = responses_events("E2E_RESP_OK");
    let names: Vec<&str> = events.iter().map(|(name, _)| name.as_str()).collect();
    assert_eq!(
        names,
        [
            "response.created",
            "response.output_item.added",
            "response.output_text.delta",
            "response.output_item.done",
            "response.completed"
        ]
    );
    assert!(events.iter().any(
        |(name, data)| name == "response.output_text.delta" && data.contains("E2E_RESP_OK")
    ));
    assert!(events.last().unwrap().1.contains("E2E_RESP_OK"));
    assert!(events.last().unwrap().1.contains("\"usage\""));
}

#[test]
fn tools_turn1_echoes_request_tool_name_with_shell_args() {
    let req = json(r#"{"tools":[{"type":"function","function":{"name":"shell","description":"d"}}], "messages":[]}"#);
    let chunks = tools_turn1_chunks(&req.get_array("tools").unwrap()[0]);
    assert!(chunks.iter().any(|c| c.contains("\"name\":\"shell\"")));

    assert!(chunks
        .iter()
        .any(|c| c.contains("\\\"cmd\\\":\\\"echo E2E_TOOL_OK\\\"")));
    assert!(chunks.iter().any(|c| c.contains("E2E_TOOL_OK")));
    assert!(chunks
        .iter()
        .any(|c| c.contains("\"finish_reason\":\"tool_calls\"")));
}

#[test]
fn tools_turn2_converges_with_done_marker() {
    let chunks = basic_chat_chunks("E2E_TOOL_DONE");
    assert!(chunks[0].contains("E2E_TOOL_DONE"));
}
