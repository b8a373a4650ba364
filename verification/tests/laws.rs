use codexferry::catalog::{
    build_catalog_value, build_hide_entries, generate_catalog, template_step, TemplateOutcome,
    TemplateStep,
};
use codexferry::config::Config;
use codexferry::convert::request::to_chat_request;
use codexferry::convert::response::{chat_response_to_items, StreamConverter};
use codexferry::doctor::{
    models_endpoint_shape, pin_covers_router, pin_field_shape, pin_matches_router,
    report_has_fail, CheckStatus,
};
use codexferry::doctor_live::{pick_tool, shape_checks};
use codexferry::heal::dsml::{parse_leaked_tool_calls, DsmlStreamFilter};
use codexferry::heal::merge::FragmentedItemMerger;
use codexferry::heal::responses::ResponsesStreamHealer;
use codexferry::heal::think::ThinkStreamFilter;
use codexferry::heal::HealGates;
use codexferry::json::Json;
use codexferry::metrics::ErrorClass;
use codexferry::mode::{detect_mode, Mode};
use codexferry::normalize::{normalize_chat_tools, NamespaceToolMap};
use codexferry::order::{is_less, sorted_positions, sorted_unique};
use codexferry::wire::chat::{
    ChatChoice, ChatDelta, ChatMessage, ChatResponse, ChatStreamChoice, ChatStreamChunk,
    DeltaFunction, DeltaToolCall,
};
use codexferry::wire::responses::{ResponsesInput, ResponsesRequest};
use serde_json::Value;

const CALL: &str = "<｜DSML｜invoke name=\"x\"></｜DSML｜invoke>";

const CONFIG: &str = r#"
[providers.x]
base_url = "https://x.com/v1"
api_key = "k"
format = "chat"
[routes]
"x/b" = { model = "b" }
"x/a" = { model = "a" }
"#;

fn json(text: &str) -> Json {
    Json::parse(text).unwrap()
}

fn val(j: &Json) -> Value {
    serde_json::from_str(&j.to_text()).unwrap()
}

fn chunk(delta: ChatDelta, finish: Option<&str>) -> ChatStreamChunk {
    ChatStreamChunk {
        choices: vec![ChatStreamChoice {
            index: 0,
            delta,
            finish_reason: finish.map(String::from),
        }],
        usage: None,
    }
}

fn text(content: &str) -> ChatDelta {
    ChatDelta {
        content: Some(content.to_string()),
        ..Default::default()
    }
}

fn reasoning(content: &str) -> ChatDelta {
    ChatDelta {
        reasoning_content: Some(content.to_string()),
        ..Default::default()
    }
}

fn call(index: u64, id: &str, name: &str, arguments: &str) -> ChatDelta {
    ChatDelta {
        tool_calls: Some(vec![DeltaToolCall {
            index,
            id: Some(id.to_string()),
            function: Some(DeltaFunction {
                name: Some(name.to_string()),
                arguments: Some(arguments.to_string()),
            }),
        }]),
        ..Default::default()
    }
}

fn request(extra: Json) -> ResponsesRequest {
    ResponsesRequest {
        model: "x/a".to_string(),
        input: ResponsesInput::Text("next".to_string()),
        instructions: None,
        system: None,
        tools: vec![],
        stream: false,
        temperature: None,
        max_output_tokens: None,
        top_p: None,
        reasoning: None,
        extra,
    }
}

fn dsml_stream(deltas: &[&str]) -> (String, usize) {
    let mut filter = DsmlStreamFilter::new(true);
    let mut out = String::new();
    for d in deltas {
        out.push_str(&filter.push(d));
    }
    let (rest, calls) = filter.finish();
    out.push_str(&rest);
    (out, calls.len())
}

#[test]
fn cuts_of_a_tool_call_stream_do_not_matter() {
    let whole = format!("a {CALL} b");
    assert_eq!(dsml_stream(&[&whole]), ("a  b".to_string(), 1));
    assert_eq!(dsml_stream(&["a ", CALL, " b"]), ("a  b".to_string(), 1));
    assert_eq!(dsml_stream(&["no markup", " < here"]), ("no markup < here".to_string(), 0));
}

#[test]
fn streamed_and_whole_text_heal_alike() {
    let whole = format!("text\n{CALL}");
    let (cleaned, calls) = parse_leaked_tool_calls(&whole).unwrap();
    assert_eq!(dsml_stream(&[&whole]), (cleaned, calls.len()));
}

#[test]
fn joined_leftovers_are_where_stream_and_whole_text_differ() {
    let whole = format!("<{CALL}｜DSML｜tool_calls></｜DSML｜tool_calls>");
    let (cleaned, calls) = parse_leaked_tool_calls(&whole).unwrap();
    assert_eq!(calls.len(), 1);
    assert_ne!(dsml_stream(&[&whole]).0, cleaned);
}

#[test]
fn cuts_of_a_thinking_stream_do_not_matter() {
    let run = |deltas: &[&str]| {
        let mut f = ThinkStreamFilter::new(true);
        let mut r = String::new();
        let mut t = String::new();
        for d in deltas {
            let split = f.push(d);
            r.push_str(&split.reasoning);
            t.push_str(&split.text);
        }
        let split = f.finish();
        (r + &split.reasoning, t + &split.text)
    };
    let expected = ("b".to_string(), "a c".to_string());
    assert_eq!(run(&["a <think>b</think>c"]), expected);
    assert_eq!(run(&["a <th", "ink>b</", "think>c"]), expected);
    assert_eq!(run(&["a < b"]), (String::new(), "a < b".to_string()));
}

#[test]
fn a_merging_run_without_deltas_is_closed_where_its_done_was_withheld() {
    let block = |event: &str, data: &str| format!("event: {event}\ndata: {data}\n\n");
    let added = |id: &str, kind: &str| {
        format!(r#"{{"output_index":0,"item":{{"type":"{kind}","id":"{id}"}}}}"#)
    };
    let mut m = FragmentedItemMerger::new(true);
    let push = |m: &mut FragmentedItemMerger, event: &str, data: &str| {
        let raw = block(event, data);
        let out = m.push_event(raw.as_bytes(), Some(event), data);
        (raw.into_bytes(), out)
    };
    push(&mut m, "response.output_item.added", &added("m0", "message"));
    push(&mut m, "response.output_item.added", &added("m1", "message"));
    let (_, held) = push(&mut m, "response.output_item.done", r#"{"item":{"id":"m1"}}"#);
    assert!(held.is_empty());
    let (raw, out) = push(&mut m, "response.output_item.added", &added("r0", "reasoning"));
    assert_eq!(out.len(), 3);
    assert!(String::from_utf8_lossy(&out[0]).contains("response.content_part.done"));
    assert!(String::from_utf8_lossy(&out[1]).contains("response.output_item.done"));
    assert_eq!(out[2], raw);
}

#[test]
fn closed_gates_forward_every_event() {
    let gates = HealGates {
        dsml: false,
        think: false,
        merge_fragmented: false,
    };
    let mut h = ResponsesStreamHealer::new(gates);
    let data = r#"{"item_id":"m","delta":"<think>x</think>"}"#;
    let raw = format!("event: response.output_text.delta\ndata: {data}\n\n").into_bytes();
    assert_eq!(h.push_event(&raw, Some("response.output_text.delta"), data), vec![raw]);
    assert!(h.finish().is_empty());
    assert!(h.finish().is_empty());
}

#[test]
fn nothing_follows_a_completed_event() {
    let mut h = ResponsesStreamHealer::new(HealGates::default());
    let data = r#"{"item_id":"m","output_index":0,"delta":"<think>x"}"#;
    h.push_event(b"raw", Some("response.output_text.delta"), data);
    let done = r#"{"type":"response.completed","response":{"output":[]}}"#;
    assert!(!h.push_event(b"raw", Some("response.completed"), done).is_empty());
    assert!(h.finish().is_empty());
}

#[test]
fn a_finished_turn_replays_as_one_message() {
    let mut conv = StreamConverter::new(
        "r".into(),
        "m".into(),
        HealGates::default(),
        NamespaceToolMap::new(),
    );
    conv.on_chunk(&chunk(text("answer"), None));
    conv.on_chunk(&chunk(reasoning("thought"), None));
    conv.on_chunk(&chunk(call(1, "c1", "b", "{}"), None));
    conv.on_chunk(&chunk(call(0, "c0", "a", "{}"), Some("tool_calls")));
    let events = conv.finish();
    assert!(conv.finish().is_empty());
    let done: Vec<Value> = events
        .iter()
        .filter(|(t, _)| t == "response.output_item.done")
        .map(|(_, d)| serde_json::from_str::<Value>(d).unwrap()["item"].clone())
        .collect();
    let completed: Value = serde_json::from_str(&events.last().unwrap().1).unwrap();
    assert_eq!(completed["response"]["output"].as_array().unwrap(), &done);

    let chat = to_chat_request(&request(Json::object()), &conv.acc.items, "m", false);
    assert_eq!(chat.messages.len(), 2);
    let m = &chat.messages[0];
    assert_eq!(m.role, "assistant");
    assert_eq!(m.text_content(), "answer");
    assert_eq!(m.reasoning_content.as_deref(), Some("thought"));
    let names: Vec<Value> = m
        .tool_calls
        .as_ref()
        .unwrap()
        .iter()
        .map(|c| val(c)["function"]["name"].clone())
        .collect();
    assert_eq!(names, ["a", "b"]);
}

#[test]
fn a_blocking_turn_replays_as_one_message() {
    let tools = vec![json(
        r#"{"type":"namespace","name":"ns","tools":[{"type":"function","name":"f"}]}"#,
    )];
    let (flat, names) = normalize_chat_tools(&tools, &vec![], &vec![]);
    assert_eq!(flat.len(), 1);
    assert_eq!(val(&flat[0])["name"], "ns-f");
    let resp = ChatResponse {
        choices: vec![ChatChoice {
            message: ChatMessage {
                role: "assistant".into(),
                content: Some(Json::str("answer")),
                reasoning_content: Some("thought".into()),
                tool_calls: Some(vec![json(
                    r#"{"id":"c","type":"function","function":{"name":"ns-f","arguments":"{}"}}"#,
                )]),
                tool_call_id: None,
                name: None,
            },
        }],
        usage: None,
    };
    let items = chat_response_to_items(&resp, &names);
    let chat = to_chat_request(&request(Json::object()), &items, "m", false);
    assert_eq!(chat.messages.len(), 2);
    let m = &chat.messages[0];
    assert_eq!(m.text_content(), "answer");
    assert_eq!(m.reasoning_content.as_deref(), Some("thought"));
    assert_eq!(val(&m.tool_calls.as_ref().unwrap()[0])["function"]["name"], "ns-f");
}

#[test]
fn a_truncated_stream_never_completes() {
    let mut conv = StreamConverter::new(
        "r".into(),
        "m".into(),
        HealGates::default(),
        NamespaceToolMap::new(),
    );
    conv.on_chunk(&chunk(text("half"), None));
    assert!(conv.finish().is_empty());
    assert!(conv.acc.items.is_empty());
}

#[test]
fn fields_without_a_counterpart_change_nothing() {
    let plain = to_chat_request(&request(Json::object()), &vec![], "m", false);
    let extra = json(r#"{"store":true,"metadata":{"k":"v"}}"#);
    let chat = to_chat_request(&request(extra), &vec![], "m", false);
    assert_eq!(chat.to_json().to_text(), plain.to_json().to_text());
    assert_eq!(
        val(&chat.to_json()),
        val(&json(
            r#"{"model":"m","messages":[{"role":"user","content":"next"}],"stream":false}"#
        ))
    );
}

#[test]
fn a_tool_is_bound_once() {
    let tool = r#"{"type":"function","name":"f"}"#;
    let item = format!(r#"{{"type":"additional_tools","tools":[{tool}]}}"#);
    let (flat, _) =
        normalize_chat_tools(&vec![json(tool), json(tool)], &vec![json(&item)], &vec![json(&item)]);
    assert_eq!(flat.len(), 1);
}

#[test]
fn a_pin_wins_over_a_live_provider() {
    let toml = "model_catalog_json = 1\n[model_providers.p.auth]\ncommand = \"echo\"\n";
    assert_eq!(detect_mode(Some(toml), "p"), Mode::Pinned);
}

#[test]
fn labels_tell_error_classes_apart() {
    let all = [
        ErrorClass::from_status(200),
        ErrorClass::from_status(400),
        ErrorClass::from_status(429),
        ErrorClass::from_status(500),
        ErrorClass::from_status(502),
        ErrorClass::from_status(503),
    ];
    for (i, a) in all.iter().enumerate() {
        for b in &all[i + 1..] {
            assert_ne!(a.label(), b.label());
        }
    }
}

#[test]
fn texts_are_ordered_by_their_characters() {
    assert!(is_less("a", "ab") && is_less("ab", "b") && is_less("B", "a"));
    assert!(!is_less("a", "a"));
    let keys: Vec<String> = ["b", "a", "b", "c"].iter().map(|s| s.to_string()).collect();
    assert_eq!(sorted_positions(&keys), [1, 0, 2, 3]);
    assert_eq!(sorted_unique(&keys), ["a", "b", "c"]);
    assert!(sorted_unique(&vec![]).is_empty());
}

#[test]
fn the_catalog_lists_every_route_in_order() {
    let generated = generate_catalog(CONFIG, None).unwrap();
    let catalog = val(&generated.catalog);
    let slugs: Vec<&str> = catalog["models"]
        .as_array()
        .unwrap()
        .iter()
        .map(|m| m["slug"].as_str().unwrap())
        .collect();
    assert_eq!(slugs, ["x/a", "x/b"]);
}

#[test]
fn a_fresh_catalog_passes_the_checks_of_a_pin() {
    let router = Config::parse_str(CONFIG).unwrap().validate().unwrap();
    let template = json(r#"{"models":[{"slug":"t","visibility":"list","tool_mode":"x"}]}"#);
    let pin = build_catalog_value(&router, Some(&template)).catalog;
    assert_eq!(pin_covers_router(&router, &pin).status, CheckStatus::Pass);
    assert_eq!(pin_matches_router(&router, &pin).status, CheckStatus::Pass);
    assert!(!report_has_fail(&pin_field_shape(&pin)));
    let served = Ok((200, pin.to_text()));
    assert_eq!(models_endpoint_shape(&served).status, CheckStatus::Pass);
}

#[test]
fn hiding_changes_the_visibility_alone() {
    let bundled = vec![json(r#"{"slug":"s","visibility":"list","x":[1,-2,0.5]}"#)];
    let hidden = build_hide_entries(&bundled, &vec![]);
    assert_eq!(
        val(&hidden[0]),
        val(&json(r#"{"slug":"s","visibility":"hide","x":[1,-2,0.5]}"#))
    );
    assert!(build_hide_entries(&bundled, &vec!["s".to_string()]).is_empty());
}

#[test]
fn a_named_template_must_be_readable() {
    let text = |t: &str| TemplateOutcome::Text(t.to_string());
    let unreadable = || TemplateOutcome::Unreadable("denied".to_string());
    let printed = |t: &str| TemplateOutcome::Printed(t.as_bytes().to_vec());
    assert!(matches!(template_step(true, TemplateOutcome::Missing), TemplateStep::Next));
    assert!(matches!(template_step(true, unreadable()), TemplateStep::Fail(m) if m == "denied"));
    assert!(matches!(template_step(false, unreadable()), TemplateStep::Next));
    assert!(matches!(
        template_step(true, text("{")),
        TemplateStep::Fail(m) if m == "EOF while parsing an object at line 1 column 1"
    ));
    assert!(matches!(template_step(false, text("{")), TemplateStep::Next));
    assert!(matches!(template_step(true, text("{}")), TemplateStep::Found(_)));
    assert!(matches!(template_step(false, printed("{}")), TemplateStep::Found(_)));
    assert!(matches!(template_step(false, printed("{")), TemplateStep::Next));
}

#[test]
fn a_request_without_tools_fails_the_probe() {
    let req = json(r#"{"model":"doctor-upstream","input":[],"tools":[]}"#);
    let checks = shape_checks(&vec![req], "responses", "doctor-upstream");
    assert_eq!(checks.len(), 5);
    assert_eq!(checks[1].name, "responses: top-level tools non-empty");
    assert_eq!(checks[1].status, CheckStatus::Fail);
    assert!(report_has_fail(&checks));
}

#[test]
fn a_picked_call_names_an_offered_tool() {
    let tool = json(
        r#"{"type":"function","name":"sh","parameters":{"properties":{"cmd":{"type":"string"}},"required":["cmd"]}}"#,
    );
    let (name, args) = pick_tool(&vec![tool], "touch f").unwrap();
    assert_eq!((name.as_str(), args.as_str()), ("sh", r#"{"cmd":"touch f"}"#));
}
