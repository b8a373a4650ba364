use codexferry::convert::request::{push_item_messages, to_chat_request};
use codexferry::convert::response::{chat_response_to_items, StreamConverter};
use codexferry::heal::dsml::{parse_open_tag, scan_open_tag, strip_empty_envelopes, DsmlDialect};
use codexferry::heal::merge::FragmentedItemMerger;
use codexferry::heal::responses::heal_responses_body;
use codexferry::heal::HealGates;
use codexferry::json::Json;
use codexferry::normalize::{schema_conflicts, NamespaceToolMap};
use codexferry::wire::chat::{ChatResponse, ChatStreamChunk};
use codexferry::wire::responses::ResponsesRequest;
use serde_json::Value;

const OPEN: &str = "<｜DSML｜tool_calls>";
const CLOSE: &str = "</｜DSML｜tool_calls>";

fn json(text: &str) -> Json {
    Json::parse(text).unwrap()
}

fn val(text: &str) -> Value {
    serde_json::from_str(text).unwrap()
}

fn request(text: &str) -> ResponsesRequest {
    ResponsesRequest::from_json(&json(text)).unwrap()
}

fn converter(gates: HealGates) -> StreamConverter {
    StreamConverter::new("resp".to_string(), "m".to_string(), gates, NamespaceToolMap::new())
}

fn closed() -> HealGates {
    HealGates { dsml: false, think: false, merge_fragmented: false }
}

fn feed(conv: &mut StreamConverter, chunks: &[&str]) -> Vec<(String, Value)> {
    let mut out = Vec::new();
    for c in chunks {
        for (kind, data) in conv.on_chunk(&ChatStreamChunk::from_json(&json(c))) {
            out.push((kind, val(&data)));
        }
    }
    out
}

fn strip(text: &str) -> String {
    strip_empty_envelopes(text.chars().collect()).into_iter().collect()
}

#[test]
fn instructions_join_a_leading_system_message() {
    let req = request(r#"{"model":"x","input":"hi","instructions":"B"}"#);
    let history = vec![json(r#"{"type":"message","role":"system","content":"A"}"#)];
    let messages = to_chat_request(&req, &history, "m", false).messages;
    let roles: Vec<&str> = messages.iter().map(|m| m.role.as_str()).collect();
    assert_eq!(roles, ["system", "user"]);
    assert_eq!(messages[0].text_content(), "A\n\nB");
}

#[test]
fn instructions_join_a_system_message_of_parts() {
    let req = request(r#"{"model":"x","input":"hi","system":"B"}"#);
    let parts = r#"{"type":"message","role":"developer","content":[
        {"type":"input_text","text":"A"},{"type":"input_image","image_url":"u"}]}"#;
    let messages = to_chat_request(&req, &vec![json(parts)], "m", false).messages;
    let content = messages[0].content.as_ref().unwrap().as_array().unwrap();
    assert_eq!(content.len(), 3);
    assert_eq!(content[0].get_str("text"), Some("A"));
    assert_eq!(content[2].to_text(), r#"{"text":"B","type":"text"}"#);
    let bare = vec![json(r#"{"type":"message","role":"system"}"#)];
    assert_eq!(to_chat_request(&req, &bare, "m", false).messages[0].text_content(), "B");
}

#[test]
fn an_empty_think_block_is_stripped_from_a_body() {
    let body = r#"{"output":[{"type":"message","content":[{"type":"output_text","text":"<think></think>Hi"}]}]}"#;
    let healed = heal_responses_body(body.as_bytes(), HealGates::default());
    let expected = body.replace("<think></think>", "");
    assert_eq!(val(std::str::from_utf8(&healed).unwrap()), val(&expected));
    let shut = HealGates { think: false, ..HealGates::default() };
    assert_eq!(heal_responses_body(body.as_bytes(), shut), body.as_bytes());
}

#[test]
fn a_stray_closing_think_tag_fires_nothing() {
    let body = r#"{ "output":[{"type":"message","content":[{"type":"output_text","text":"a</think>b"}]}]}"#;
    assert_eq!(heal_responses_body(body.as_bytes(), HealGates::default()), body.as_bytes());
}

#[test]
fn integers_are_sent_as_doubles() {
    let req = request(
        r#"{"model":"x","input":"hi","temperature":1,"top_p":0.25,"presence_penalty":-2,
            "frequency_penalty":0.5}"#,
    );
    let body = to_chat_request(&req, &vec![], "m", false).to_json();
    assert_eq!(body.get("temperature").unwrap().to_text(), "1.0");
    assert_eq!(body.get("top_p").unwrap().to_text(), "0.25");
    assert_eq!(body.get("presence_penalty").unwrap().to_text(), "-2.0");
    assert_eq!(body.get("frequency_penalty").unwrap().to_text(), "0.5");
}

#[test]
fn hoisted_tools_with_another_schema_are_reported() {
    let tools = vec![json(r#"{"type":"function","name":"f","parameters":{"a":1,"b":2}}"#)];
    let history = vec![json(
        r#"{"type":"additional_tools","tools":[
            {"type":"function","name":"f","parameters":{"b":2,"a":1}},
            {"type":"namespace","name":"n","tools":[{"type":"function","name":"g","parameters":{}}]},
            {"type":"web_search","name":"f"}]}"#,
    )];
    let input = vec![json(
        r#"{"type":"additional_tools","tools":[
            {"type":"function","name":"f"},
            {"type":"function","name":"n-g","parameters":{"c":3}},
            {"type":"function","name":"h","parameters":{}}]}"#,
    )];
    assert_eq!(schema_conflicts(&tools, &history, &input), ["f", "n-g"]);
    assert!(schema_conflicts(&tools, &history, &vec![]).is_empty());
}

#[test]
fn plain_chunks_stream_as_they_came() {
    let mut conv = converter(closed());
    let events = feed(
        &mut conv,
        &[
            r#"{"choices":[{"delta":{"content":"<think>a"}}]}"#,
            r#"{"choices":[{"delta":{"reasoning_content":"r"}}]}"#,
            r#"{"choices":[{"delta":{"content":"b","tool_calls":[{"index":0,"id":"c","function":{"name":"f"}}]}}]}"#,
            r#"{"choices":[{"delta":{},"finish_reason":"stop"}]}"#,
        ],
    );
    let deltas: Vec<&str> = events
        .iter()
        .filter(|(kind, _)| kind == "response.output_text.delta")
        .map(|(_, data)| data["delta"].as_str().unwrap())
        .collect();
    assert_eq!(deltas, ["<think>a", "b"]);
    assert_eq!(conv.acc.text, "<think>ab");
    assert_eq!(events[0].0, "response.created");
    assert_eq!(events.iter().filter(|(kind, _)| kind == "response.created").count(), 1);
    for ended in [
        "response.output_item.done",
        "response.function_call_arguments.delta",
        "response.completed",
    ] {
        assert!(events.iter().all(|(kind, _)| kind != ended));
    }
}

#[test]
fn done_items_are_the_completed_output() {
    let mut conv = converter(HealGates::default());
    feed(
        &mut conv,
        &[
            r#"{"choices":[{"delta":{"content":"text"}}]}"#,
            r#"{"choices":[{"delta":{"reasoning_content":"r"}}]}"#,
            r#"{"choices":[{"delta":{"tool_calls":[{"index":3,"id":"c","function":{"name":"f"}}]}}]}"#,
            r#"{"choices":[{"delta":{"tool_calls":[{"index":1,"id":"d","function":{"name":"g","arguments":"{}"}}]},"finish_reason":"tool_calls"}]}"#,
        ],
    );
    let events: Vec<(String, Value)> =
        conv.finish().into_iter().map(|(kind, data)| (kind, val(&data))).collect();
    let done: Vec<&Value> = events
        .iter()
        .filter(|(kind, _)| kind == "response.output_item.done")
        .map(|(_, data)| data)
        .collect();
    assert_eq!(done.len(), 4);
    let (kind, last) = events.last().unwrap();
    assert_eq!(kind, "response.completed");
    for (i, data) in done.iter().enumerate() {
        assert_eq!(data["output_index"].as_u64(), Some(i as u64));
        assert_eq!(data["item"], last["response"]["output"][i]);
    }
    assert_eq!(last["response"]["output"].as_array().unwrap().len(), 4);
}

#[test]
fn a_blocking_answer_replays_as_one_message() {
    let answer = ChatResponse::from_json(&json(
        r#"{"choices":[{"message":{"role":"assistant","content":"t","reasoning_content":"r",
            "tool_calls":[{"id":"1","type":"function","function":{"name":"f","arguments":"{}"}},
                {"id":"2","type":"function","function":{"name":"g","arguments":"{\"a\":1}"}}]}}]}"#,
    ));
    let items = chat_response_to_items(&answer, &NamespaceToolMap::new());
    let mut replayed = Vec::new();
    push_item_messages(&mut replayed, &items);
    assert_eq!(replayed.len(), 1);
    let before = &answer.choices[0].message;
    assert_eq!(replayed[0].to_json().to_text(), before.to_json().to_text());
}

#[test]
fn the_lenient_scan_finds_the_end_of_a_tag() {
    for (text, closing) in [
        ("<｜DSML｜invoke name=\"a>b\\\"\" x = \"/\" >rest", false),
        ("<｜DSML｜invoke name=\"a\" / >rest", true),
        ("<｜DSML｜invoke>rest", false),
    ] {
        let chars: Vec<char> = text.chars().collect();
        let strict = parse_open_tag(&chars, 0, DsmlDialect::SingleBar).unwrap();
        let lenient = scan_open_tag(&chars, 0, DsmlDialect::SingleBar).unwrap();
        assert_eq!(strict.name, "invoke");
        assert_eq!(strict.self_closing, closing);
        assert_eq!(lenient.name, strict.name);
        assert_eq!(lenient.end, strict.end);
        assert_eq!(lenient.self_closing, strict.self_closing);
        assert!(lenient.attrs.is_empty());
        assert_eq!(chars[strict.end..].iter().collect::<String>(), "rest");
    }
}

#[test]
fn stripping_twice_is_stripping_once() {
    let text = format!("a{OPEN} \n{CLOSE}b{OPEN}x{CLOSE}");
    let once = strip(&text);
    assert_eq!(once, format!("ab{OPEN}x{CLOSE}"));
    assert_eq!(strip(&once), once);
    let nested = format!("{OPEN}{OPEN}{CLOSE}{CLOSE}");
    assert_eq!(strip(&strip(&nested)), strip(&nested));
}

#[test]
fn a_merged_run_is_one_item_in_the_completed_output() {
    let mut merger = FragmentedItemMerger::new(true);
    let mut out = Vec::new();
    let mut push = |name: &str, data: &str| {
        let raw = format!("event: {name}\ndata: {data}\n\n");
        out.extend(merger.push_event(raw.as_bytes(), Some(name), data));
    };
    let added = "response.output_item.added";
    let delta = "response.output_text.delta";
    push(added, r#"{"output_index":0,"item":{"type":"message","id":"a"}}"#);
    push(delta, r#"{"item_id":"a","delta":"x"}"#);
    push(added, r#"{"output_index":1,"item":{"type":"message","id":"b"}}"#);
    push(delta, r#"{"item_id":"b","delta":"y"}"#);
    push(added, r#"{"output_index":2,"item":{"type":"reasoning","id":"c"}}"#);
    push(
        "response.completed",
        r#"{"response":{"output":[{"id":"z"},{"type":"message","id":"a"},{"type":"message","id":"b"},{"type":"reasoning","id":"c"}]}}"#,
    );
    let events: Vec<(String, Value)> = out
        .iter()
        .map(|raw| {
            let text = std::str::from_utf8(raw).unwrap();
            let (event, data) = codexferry::sse::read_event(text);
            (event.unwrap(), val(&data))
        })
        .collect();
    let done = events.iter().find(|(name, _)| name == "response.output_item.done").unwrap();
    let (name, last) = events.last().unwrap();
    assert_eq!(name, "response.completed");
    let output = last["response"]["output"].as_array().unwrap();
    assert_eq!(output.len(), 3);
    assert_eq!(output[0]["id"], "z");
    assert_eq!(output[1], done.1["item"]);
    assert_eq!(output[1]["id"], "a");
    assert_eq!(output[1]["content"][0]["text"], "xy");
    assert_eq!(output[2]["id"], "c");
}
