use codexferry::heal::merge::FragmentedItemMerger;

fn sse(event: &str, data: &str) -> Vec<u8> {
    format!("event: {event}\ndata: {data}\n\n").into_bytes()
}

fn push_raw(merger: &mut FragmentedItemMerger, event_block: &[u8]) -> Vec<Vec<u8>> {
    let text = std::str::from_utf8(event_block).unwrap();
    let event_name = text
        .lines()
        .find_map(|l| l.strip_prefix("event: ").map(str::to_string));
    let data = text
        .lines()
        .find_map(|l| l.strip_prefix("data: ").map(str::to_string))
        .unwrap_or_default();
    merger.push_event(event_block, event_name.as_deref(), &data)
}

fn concat(out: Vec<Vec<u8>>) -> Vec<u8> {
    out.into_iter().flat_map(|b| b).collect()
}

#[test]
fn m1_single_message_passthrough() {
    let mut m = FragmentedItemMerger::new(true);
    let raw = sse(
        "response.output_item.added",
        r#"{"type":"response.output_item.added","output_index":0,"item":{"type":"message","id":"msg_0","role":"assistant","status":"in_progress","content":[]}}"#,
    );
    let out = push_raw(&mut m, &raw);
    assert_eq!(concat(out), raw);
}

#[test]
fn m3_single_reasoning_passthrough() {
    let mut m = FragmentedItemMerger::new(true);
    let raw = sse(
        "response.output_item.added",
        r#"{"type":"response.output_item.added","output_index":0,"item":{"type":"reasoning","id":"rs_0","summary":[{"type":"summary_text","text":""}]}}"#,
    );
    let out = push_raw(&mut m, &raw);
    assert_eq!(concat(out), raw);
}

#[test]
fn m5_single_function_call_passthrough() {
    let mut m = FragmentedItemMerger::new(true);
    let raw = sse(
        "response.output_item.added",
        r#"{"type":"response.output_item.added","output_index":0,"item":{"type":"function_call","id":"fc_0","call_id":"call_0","name":"shell","arguments":"","status":"in_progress"}}"#,
    );
    let out = push_raw(&mut m, &raw);
    assert_eq!(concat(out), raw);
}

#[test]
fn k1_disabled_passes_through_verbatim() {
    let mut m = FragmentedItemMerger::new(false);
    let raw = sse(
        "response.output_item.added",
        r#"{"type":"response.output_item.added","output_index":0,"item":{"type":"message","id":"msg_0","role":"assistant","status":"in_progress","content":[]}}"#,
    );
    let out = push_raw(&mut m, &raw);
    assert_eq!(
        concat(out),
        raw,
        "disabled merger must pass through verbatim"
    );
}

#[test]
fn m2_message_run_suppresses_subsequent_added() {
    let mut m = FragmentedItemMerger::new(true);
    let added = |id: &str, idx: u64| {
        sse(
            "response.output_item.added",
            &format!(
                r#"{{"type":"response.output_item.added","output_index":{idx},"item":{{"type":"message","id":"{id}","role":"assistant","status":"in_progress","content":[]}}}}"#
            ),
        )
    };
    let a0 = added("msg_0", 0);
    let a1 = added("msg_9", 1);
    let a2 = added("msg_10", 2);
    let out0 = push_raw(&mut m, &a0);
    let out1 = push_raw(&mut m, &a1);
    let out2 = push_raw(&mut m, &a2);
    assert_eq!(concat(out0), a0, "first fragment passes through");
    assert!(out1.is_empty(), "second fragment suppressed");
    assert!(out2.is_empty(), "third fragment suppressed");
}

#[test]
fn m4_reasoning_run_suppresses_subsequent_added() {
    let mut m = FragmentedItemMerger::new(true);
    let added = |id: &str, idx: u64| {
        sse(
            "response.output_item.added",
            &format!(
                r#"{{"type":"response.output_item.added","output_index":{idx},"item":{{"type":"reasoning","id":"{id}","summary":[{{"type":"summary_text","text":""}}]}}}}"#
            ),
        )
    };
    let a0 = added("rs_0", 0);
    let a1 = added("rs_1", 1);
    let out0 = push_raw(&mut m, &a0);
    let out1 = push_raw(&mut m, &a1);
    assert_eq!(concat(out0), a0);
    assert!(out1.is_empty());
}

#[test]
fn m6_function_call_same_call_id_merges() {
    let mut m = FragmentedItemMerger::new(true);
    let added = |idx: u64| {
        sse(
            "response.output_item.added",
            &format!(
                r#"{{"type":"response.output_item.added","output_index":{idx},"item":{{"type":"function_call","id":"fc_{idx}","call_id":"call_shared","name":"shell","arguments":"","status":"in_progress"}}}}"#
            ),
        )
    };
    let out0 = push_raw(&mut m, &added(0));
    let out1 = push_raw(&mut m, &added(1));
    assert_eq!(concat(out0), added(0));
    assert!(
        out1.is_empty(),
        "same call_id → merge (suppress second added)"
    );
}

#[test]
fn m7_function_call_different_call_ids_dont_merge() {
    let mut m = FragmentedItemMerger::new(true);
    let added = |idx: u64, cid: &str| {
        sse(
            "response.output_item.added",
            &format!(
                r#"{{"type":"response.output_item.added","output_index":{idx},"item":{{"type":"function_call","id":"fc_{idx}","call_id":"{cid}","name":"shell","arguments":"","status":"in_progress"}}}}"#
            ),
        )
    };
    let out0 = push_raw(&mut m, &added(0, "call_a"));
    let out1 = push_raw(&mut m, &added(1, "call_b"));
    assert_eq!(concat(out0), added(0, "call_a"));

    assert_eq!(concat(out1), added(1, "call_b"));
}

#[test]
fn m8_type_switches_each_pass_through() {
    let mut m = FragmentedItemMerger::new(true);
    let msg_added = || {
        sse(
            "response.output_item.added",
            r#"{"type":"response.output_item.added","output_index":0,"item":{"type":"message","id":"msg_0","role":"assistant","status":"in_progress","content":[]}}"#,
        )
    };
    let rs_added = || {
        sse(
            "response.output_item.added",
            r#"{"type":"response.output_item.added","output_index":1,"item":{"type":"reasoning","id":"rs_0","summary":[{"type":"summary_text","text":""}]}}"#,
        )
    };
    let fc_added = || {
        sse(
            "response.output_item.added",
            r#"{"type":"response.output_item.added","output_index":2,"item":{"type":"function_call","id":"fc_0","call_id":"c0","name":"shell","arguments":"","status":"in_progress"}}"#,
        )
    };
    let a = push_raw(&mut m, &msg_added());
    let b = push_raw(&mut m, &rs_added());
    let c = push_raw(&mut m, &fc_added());
    assert_eq!(concat(a), msg_added());
    assert_eq!(concat(b), rs_added());
    assert_eq!(concat(c), fc_added());
}

#[test]
fn m9_interleaved_runs_each_merge_independently() {
    let mut m = FragmentedItemMerger::new(true);
    let msg = |idx: u64| {
        sse(
            "response.output_item.added",
            &format!(
                r#"{{"type":"response.output_item.added","output_index":{idx},"item":{{"type":"message","id":"msg_{idx}","role":"assistant","status":"in_progress","content":[]}}}}"#
            ),
        )
    };
    let rs = sse(
        "response.output_item.added",
        r#"{"type":"response.output_item.added","output_index":2,"item":{"type":"reasoning","id":"rs_0","summary":[{"type":"summary_text","text":""}]}}"#,
    );

    let out0 = push_raw(&mut m, &msg(0));
    let out1 = push_raw(&mut m, &msg(1));

    let out_rs = push_raw(&mut m, &rs);
    let out3 = push_raw(&mut m, &msg(3));
    let out4 = push_raw(&mut m, &msg(4));
    assert_eq!(concat(out0), msg(0));
    assert!(
        out1.is_empty(),
        "second msg fragment suppressed (run in progress)"
    );
    assert_eq!(
        concat(out_rs),
        rs,
        "reasoning item unaffected by type switch"
    );
    assert_eq!(
        concat(out3),
        msg(3),
        "second msg run starts fresh (passes through)"
    );
    assert!(out4.is_empty(), "second msg run's 2nd fragment suppressed");
}

#[test]
fn w1_subsequent_deltas_rewritten_to_first_fragment() {
    let mut m = FragmentedItemMerger::new(true);
    let msg = |idx: u64, id: &str| {
        sse(
            "response.output_item.added",
            &format!(
                r#"{{"type":"response.output_item.added","output_index":{idx},"item":{{"type":"message","id":"{id}","role":"assistant","status":"in_progress","content":[]}}}}"#
            ),
        )
    };
    let delta = |item_id: &str, idx: u64, text: &str| {
        sse(
            "response.output_text.delta",
            &format!(
                r#"{{"type":"response.output_text.delta","item_id":"{item_id}","output_index":{idx},"delta":"{text}"}}"#
            ),
        )
    };
    let _ = push_raw(&mut m, &msg(0, "msg_0"));
    let _ = push_raw(&mut m, &msg(1, "msg_9"));
    let _d1 = push_raw(&mut m, &delta("msg_0", 0, "Hello "));
    let d2 = push_raw(&mut m, &delta("msg_9", 1, "world"));

    let d2_bytes = concat(d2);
    let d2_str = std::str::from_utf8(&d2_bytes).unwrap();
    assert!(
        d2_str.contains(r#""item_id":"msg_0""#),
        "d2 item_id rewritten: {d2_str}"
    );
    assert!(
        d2_str.contains(r#""output_index":0"#),
        "d2 output_index rewritten: {d2_str}"
    );
    assert!(
        d2_str.contains(r#""delta":"world""#),
        "d2 text unchanged: {d2_str}"
    );
}

#[test]
fn w2_subsequent_content_part_added_suppressed() {
    let mut m = FragmentedItemMerger::new(true);
    let msg = |id: &str| {
        sse(
            "response.output_item.added",
            &format!(
                r#"{{"type":"response.output_item.added","output_index":0,"item":{{"type":"message","id":"{id}","role":"assistant","status":"in_progress","content":[]}}}}"#
            ),
        )
    };
    let part = |item_id: &str| {
        sse(
            "response.content_part.added",
            &format!(
                r#"{{"type":"response.content_part.added","item_id":"{item_id}","output_index":0,"part":{{"type":"output_text","text":""}}}}"#
            ),
        )
    };
    let _ = push_raw(&mut m, &msg("msg_0"));
    let _ = push_raw(&mut m, &msg("msg_1"));
    let p0 = push_raw(&mut m, &part("msg_0"));
    let p1 = push_raw(&mut m, &part("msg_1"));
    assert!(!p0.is_empty());
    assert!(p1.is_empty(), "subsequent content_part.added suppressed");
}

#[test]
fn w3_subsequent_dones_suppressed() {
    let mut m = FragmentedItemMerger::new(true);
    let msg = |id: &str| {
        sse(
            "response.output_item.added",
            &format!(
                r#"{{"type":"response.output_item.added","output_index":0,"item":{{"type":"message","id":"{id}","role":"assistant","status":"in_progress","content":[]}}}}"#
            ),
        )
    };
    let delta = |text: &str| {
        sse(
            "response.output_text.delta",
            &format!(
                r#"{{"type":"response.output_text.delta","item_id":"msg_0","output_index":0,"delta":"{}"}}"#,
                text
            ),
        )
    };
    let cpd = |item_id: &str| {
        sse(
            "response.content_part.done",
            &format!(
                r#"{{"type":"response.content_part.done","item_id":"{item_id}","output_index":0}}"#
            ),
        )
    };
    let oid = |item_id: &str| {
        sse(
            "response.output_item.done",
            &format!(
                r#"{{"type":"response.output_item.done","item_id":"{item_id}","output_index":0,"item":{{"type":"message","id":"{item_id}","status":"completed"}}}}"#
            ),
        )
    };
    let _ = push_raw(&mut m, &msg("msg_0"));
    let _ = push_raw(&mut m, &msg("msg_1"));

    let _ = push_raw(&mut m, &delta("hello"));
    let _ = push_raw(&mut m, &delta("world"));
    let cpd_out = push_raw(&mut m, &cpd("msg_1"));
    let oid_out = push_raw(&mut m, &oid("msg_1"));
    assert!(
        cpd_out.is_empty(),
        "msg_1's content_part.done suppressed (merged)"
    );
    assert!(
        oid_out.is_empty(),
        "msg_1's output_item.done suppressed (merged)"
    );
}

#[test]
fn w4_synthesized_content_part_done_carries_merged_text() {
    let mut m = FragmentedItemMerger::new(true);
    let msg = |id: &str| {
        sse(
            "response.output_item.added",
            &format!(
                r#"{{"type":"response.output_item.added","output_index":0,"item":{{"type":"message","id":"{id}","role":"assistant","status":"in_progress","content":[]}}}}"#
            ),
        )
    };
    let delta = |item_id: &str, text: &str| {
        sse(
            "response.output_text.delta",
            &format!(
                r#"{{"type":"response.output_text.delta","item_id":"{item_id}","output_index":0,"delta":"{text}"}}"#
            ),
        )
    };
    let rs = sse(
        "response.output_item.added",
        r#"{"type":"response.output_item.added","output_index":1,"item":{"type":"reasoning","id":"rs_0","summary":[{"type":"summary_text","text":""}]}}"#,
    );
    let _ = push_raw(&mut m, &msg("msg_0"));
    let _ = push_raw(&mut m, &msg("msg_1"));
    let _ = push_raw(&mut m, &delta("msg_0", "Hi "));
    let _ = push_raw(&mut m, &delta("msg_1", "there"));

    let rs_out = push_raw(&mut m, &rs);
    let all: Vec<u8> = rs_out.into_iter().flat_map(|b| b).collect();
    let all_str = std::str::from_utf8(&all).unwrap();
    assert!(
        all_str.contains("response.content_part.done"),
        "synthesized cpd present: {all_str}"
    );
    assert!(
        all_str.contains(r#""text":"Hi there""#),
        "merged text 'Hi there' present: {all_str}"
    );
}

#[test]
fn w5_synthesized_output_item_done_has_merged_content() {
    let mut m = FragmentedItemMerger::new(true);
    let msg = |id: &str| {
        sse(
            "response.output_item.added",
            &format!(
                r#"{{"type":"response.output_item.added","output_index":0,"item":{{"type":"message","id":"{id}","role":"assistant","status":"in_progress","content":[]}}}}"#
            ),
        )
    };
    let delta = |item_id: &str, text: &str| {
        sse(
            "response.output_text.delta",
            &format!(
                r#"{{"type":"response.output_text.delta","item_id":"{item_id}","output_index":0,"delta":"{text}"}}"#
            ),
        )
    };
    let rs = sse(
        "response.output_item.added",
        r#"{"type":"response.output_item.added","output_index":1,"item":{"type":"reasoning","id":"rs_0","summary":[{"type":"summary_text","text":""}]}}"#,
    );
    let _ = push_raw(&mut m, &msg("msg_0"));
    let _ = push_raw(&mut m, &msg("msg_1"));
    let _ = push_raw(&mut m, &delta("msg_0", "abc"));
    let _ = push_raw(&mut m, &delta("msg_1", "def"));
    let rs_out = push_raw(&mut m, &rs);
    let all: Vec<u8> = rs_out.into_iter().flat_map(|b| b).collect();
    let all_str = std::str::from_utf8(&all).unwrap();
    assert!(
        all_str.contains("response.output_item.done"),
        "synthesized oid present: {all_str}"
    );
    assert!(
        all_str.contains(r#""text":"abcdef""#),
        "merged content 'abcdef' present: {all_str}"
    );
}

#[test]
fn e1_fourteen_fragment_run_merges() {
    let mut m = FragmentedItemMerger::new(true);
    let msg = |idx: u64| {
        sse(
            "response.output_item.added",
            &format!(
                "{{\"type\":\"response.output_item.added\",\"output_index\":{},\"item\":{{\"type\":\"message\",\"id\":\"msg_{}\",\"role\":\"assistant\",\"status\":\"in_progress\",\"content\":[]}}}}",
                idx, idx
            ),
        )
    };
    let mut emitted = 0;
    for i in 0..14 {
        let out = push_raw(&mut m, &msg(i));
        if !out.is_empty() {
            emitted += 1;
        }
    }
    assert_eq!(
        emitted, 1,
        "only the first fragment passes through, 13 suppressed"
    );
}

#[test]
fn e2_run_flushes_done_before_type_switch() {
    let mut m = FragmentedItemMerger::new(true);

    let msg = |idx: u64, id: &str| {
        sse(
            "response.output_item.added",
            &format!(
                "{{\"type\":\"response.output_item.added\",\"output_index\":{},\"item\":{{\"type\":\"message\",\"id\":\"{}\",\"role\":\"assistant\",\"status\":\"in_progress\",\"content\":[]}}}}",
                idx, id
            ),
        )
    };
    let fc = sse(
        "response.output_item.added",
        r#"{"type":"response.output_item.added","output_index":2,"item":{"type":"function_call","id":"fc_0","call_id":"c0","name":"shell","arguments":"","status":"in_progress"}}"#,
    );
    let delta = |text: &str| {
        sse(
            "response.output_text.delta",
            &format!(
                "{{\"type\":\"response.output_text.delta\",\"item_id\":\"msg_0\",\"output_index\":0,\"delta\":\"{}\"}}",
                text
            ),
        )
    };
    let _ = push_raw(&mut m, &msg(0, "msg_0"));
    let _ = push_raw(&mut m, &msg(1, "msg_1"));
    let _ = push_raw(&mut m, &delta("hello"));
    let _ = push_raw(&mut m, &delta("world"));
    let fc_out = push_raw(&mut m, &fc);
    let all: Vec<u8> = fc_out.into_iter().flat_map(|b| b).collect();
    let s = std::str::from_utf8(&all).unwrap();

    let done_pos = s.find("response.output_item.done").unwrap_or(usize::MAX);
    let fc_pos = s.find(r#""type":"function_call""#).unwrap_or(usize::MAX);
    assert!(
        done_pos < fc_pos,
        "synthesized done must precede function_call: {s}"
    );
}

#[test]
fn e3_truncated_run_no_synthesized_done_in_finish() {
    let mut m = FragmentedItemMerger::new(true);
    let msg = |id: &str| {
        sse(
            "response.output_item.added",
            &format!(
                "{{\"type\":\"response.output_item.added\",\"output_index\":0,\"item\":{{\"type\":\"message\",\"id\":\"{}\",\"role\":\"assistant\",\"status\":\"in_progress\",\"content\":[]}}}}",
                id
            ),
        )
    };
    let delta = |text: &str| {
        sse(
            "response.output_text.delta",
            &format!(
                "{{\"type\":\"response.output_text.delta\",\"item_id\":\"msg_0\",\"output_index\":0,\"delta\":\"{}\"}}",
                text
            ),
        )
    };
    let _ = push_raw(&mut m, &msg("msg_0"));
    let _ = push_raw(&mut m, &msg("msg_1"));
    let _ = push_raw(&mut m, &delta("half"));

    let finish_out = m.finish();
    assert!(
        finish_out.is_empty(),
        "finish() must not synthesize done (gamma-1)"
    );
}

#[test]
fn e4_empty_item_id_tolerated() {
    let mut m = FragmentedItemMerger::new(true);
    let raw = sse(
        "response.output_item.added",
        r#"{"type":"response.output_item.added","output_index":0,"item":{"type":"message","id":"","role":"assistant","status":"in_progress","content":[]}}"#,
    );
    let out = push_raw(&mut m, &raw);
    assert_eq!(concat(out), raw);
}

#[test]
fn w6_synthesized_response_completed_has_merged_output() {
    let mut m = FragmentedItemMerger::new(true);
    let msg = |id: &str| {
        sse(
            "response.output_item.added",
            &format!(
                r#"{{"type":"response.output_item.added","output_index":0,"item":{{"type":"message","id":"{id}","role":"assistant","status":"in_progress","content":[]}}}}"#
            ),
        )
    };
    let delta = |item_id: &str, text: &str| {
        sse(
            "response.output_text.delta",
            &format!(
                r#"{{"type":"response.output_text.delta","item_id":"{item_id}","output_index":0,"delta":"{text}"}}"#
            ),
        )
    };
    let _ = push_raw(&mut m, &msg("msg_0"));
    let _ = push_raw(&mut m, &msg("msg_1"));
    let _ = push_raw(&mut m, &delta("msg_0", "Hello "));
    let _ = push_raw(&mut m, &delta("msg_1", "world"));

    let completed_data = r#"{"type":"response.completed","response":{"id":"resp_1","status":"completed","output":[{"type":"message","id":"msg_0","content":[{"type":"output_text","text":"Hello "}]},{"type":"message","id":"msg_1","content":[{"type":"output_text","text":"world"}]}]}}"#;
    let raw = sse("response.completed", completed_data);
    let out = push_raw(&mut m, &raw);
    let all: Vec<u8> = out.into_iter().flat_map(|b| b).collect();
    let all_str = std::str::from_utf8(&all).unwrap();

    let last_completed = all_str
        .match_indices("event: response.completed\ndata: ")
        .last()
        .map(|(pos, m)| &all_str[pos + m.len()..])
        .expect("response.completed must be present");
    let last_data = last_completed
        .split("\n\n")
        .next()
        .unwrap_or_default()
        .trim();
    let parsed: serde_json::Value =
        serde_json::from_str(last_data).expect("completed data must be valid JSON");
    let output = parsed
        .get("response")
        .and_then(|r| r.get("output"))
        .and_then(|o| o.as_array())
        .expect("response.output must be an array");

    assert_eq!(
        output.len(),
        1,
        "merged output array must contain exactly 1 item, got: {output:?}"
    );
    let merged_msg = &output[0];
    assert_eq!(
        merged_msg.get("id").and_then(|v| v.as_str()),
        Some("msg_0"),
        "merged item keeps first-fragment id: {merged_msg:?}"
    );
    let merged_text = merged_msg
        .get("content")
        .and_then(|c| c.get(0))
        .and_then(|p| p.get("text"))
        .and_then(|t| t.as_str())
        .unwrap_or_default();
    assert_eq!(
        merged_text, "Hello world",
        "merged text in completed.output: {merged_msg:?}"
    );

    assert!(
        !last_data.contains("\"id\":\"msg_1\""),
        "fragment id msg_1 must not appear in the rewritten completed: {last_data}"
    );
}

#[test]
fn w7_synthesized_function_call_preserves_first_fragment_name() {
    let mut m = FragmentedItemMerger::new(true);

    let r0 = sse(
        "response.output_item.added",
        r#"{"type":"response.output_item.added","output_index":0,"item":{"type":"function_call","id":"fc_0","call_id":"call_shared","name":"get_weather","arguments":"","status":"in_progress"}}"#,
    );
    let r1 = sse(
        "response.output_item.added",
        r#"{"type":"response.output_item.added","output_index":1,"item":{"type":"function_call","id":"fc_1","call_id":"call_shared","name":"get_weather","arguments":"","status":"in_progress"}}"#,
    );
    let _ = push_raw(&mut m, &r0);
    let _ = push_raw(&mut m, &r1);
    let d0 = sse(
        "response.function_call_arguments.delta",
        r#"{"type":"response.function_call_arguments.delta","item_id":"fc_0","output_index":0,"delta":"{\"city\":"}"#,
    );
    let d1 = sse(
        "response.function_call_arguments.delta",
        r#"{"type":"response.function_call_arguments.delta","item_id":"fc_1","output_index":0,"delta":"\"SF\"}"}"#,
    );
    let _ = push_raw(&mut m, &d0);
    let _ = push_raw(&mut m, &d1);

    let rs = sse(
        "response.output_item.added",
        r#"{"type":"response.output_item.added","output_index":2,"item":{"type":"reasoning","id":"rs_0","summary":[{"type":"summary_text","text":""}]}}"#,
    );
    let rs_out = push_raw(&mut m, &rs);
    let all: Vec<u8> = rs_out.into_iter().flat_map(|b| b).collect();
    let all_str = std::str::from_utf8(&all).unwrap();

    assert!(
        all_str.contains(r#""name":"get_weather""#),
        "first-fragment name 'get_weather' must be preserved in synthesis: {all_str}"
    );
    assert!(
        !all_str.contains(r#""name":"<merged>""#),
        "placeholder name '<merged>' must not appear in synthesis: {all_str}"
    );

    assert!(
        all_str.contains(r#""arguments":"{\"city\":\"SF\"}""#),
        "merged arguments present in synthesis: {all_str}"
    );
}


fn added(idx: u64, kind: &str, id: &str, more: &str) -> Vec<u8> {
    sse(
        "response.output_item.added",
        &format!(
            r#"{{"type":"response.output_item.added","output_index":{idx},"item":{{"type":"{kind}","id":"{id}"{more}}}}}"#
        ),
    )
}

/// What is forwarded of an event that ends a run, as text.
fn boundary(events: &[Vec<u8>], last: &[u8]) -> String {
    let mut m = FragmentedItemMerger::new(true);
    for e in events {
        push_raw(&mut m, e);
    }
    String::from_utf8(concat(push_raw(&mut m, last))).unwrap()
}

fn empty_message_end() -> String {
    String::from_utf8(
        [
            sse(
                "response.content_part.done",
                r#"{"item_id":"msg_0","output_index":0,"part":{"text":"","type":"output_text"},"type":"response.content_part.done"}"#,
            ),
            sse(
                "response.output_item.done",
                r#"{"item":{"content":[{"text":"","type":"output_text"}],"id":"msg_0","role":"assistant","status":"completed","type":"message"},"output_index":0,"type":"response.output_item.done"}"#,
            ),
        ]
        .concat(),
    )
    .unwrap()
}

#[test]
fn a_merged_message_is_closed_once_any_other_event_came() {
    let first = added(0, "message", "msg_0", "");
    let second = added(1, "message", "msg_1", "");
    let rs = added(2, "reasoning", "rs_0", "");
    let closed = empty_message_end() + std::str::from_utf8(&rs).unwrap();
    let others = [
        sse("response.content_part.added", r#"{"item_id":"msg_0","output_index":0,"part":{}}"#),
        sse("response.output_text.delta", r#"{"item_id":"msg_0","delta":""}"#),
        sse("response.output_item.done", r#"{"item":{"id":"msg_0"}}"#),
        sse("response.in_progress", "{}"),
        sse("response.output_item.added", r#"{"item":{"type":"message"}}"#),
        sse("response.output_item.added", "no payload"),
        b"data: {}\n\n".to_vec(),
    ];
    for other in others {
        let early = [first.clone(), other.clone(), second.clone()];
        assert_eq!(boundary(&early, &rs), closed);
        let late = [first.clone(), second.clone(), other];
        assert_eq!(boundary(&late, &rs), closed);
    }
}

#[test]
fn a_bare_merged_message_is_closed_unless_the_type_switches() {
    let bare = [added(0, "message", "msg_0", ""), added(1, "message", "msg_1", "")];
    for next in [added(2, "reasoning", "r", ""), added(2, "function_call", "f", ""), added(2, "image", "i", "")] {
        assert_eq!(boundary(&bare, &next).as_bytes(), next);
    }
    let same = added(2, "message", "msg_2", r#","call_id":"c""#);
    assert_eq!(boundary(&bare, &same), empty_message_end() + std::str::from_utf8(&same).unwrap());
    let done = sse("response.completed", "{}");
    assert_eq!(boundary(&bare, &done), empty_message_end() + std::str::from_utf8(&done).unwrap());
}

#[test]
fn merged_runs_of_other_types_are_always_closed() {
    let msg = added(2, "message", "msg_0", "");
    let reasoning = [added(0, "reasoning", "rs_0", ""), added(1, "reasoning", "rs_1", "")];
    let end = sse(
        "response.output_item.done",
        r#"{"item":{"id":"rs_0","summary":[{"text":"","type":"summary_text"}],"type":"reasoning"},"output_index":0,"type":"response.output_item.done"}"#,
    );
    assert_eq!(boundary(&reasoning, &msg).as_bytes(), [end, msg.clone()].concat());
    let call = r#","call_id":"c","name":"f""#;
    let calls = [added(0, "function_call", "fc_0", call), added(1, "function_call", "fc_1", call)];
    let end = sse(
        "response.output_item.done",
        r#"{"item":{"arguments":"","call_id":"c","id":"fc_0","name":"f","status":"completed","type":"function_call"},"output_index":0,"type":"response.output_item.done"}"#,
    );
    assert_eq!(boundary(&calls, &msg).as_bytes(), [end, msg].concat());
}

#[test]
fn a_completed_event_is_handled_by_its_own_method() {
    let mut m = FragmentedItemMerger::new(true);
    push_raw(&mut m, &added(0, "message", "msg_0", ""));
    push_raw(&mut m, &added(1, "message", "msg_1", ""));
    let payload = r#"{"response":{"output":[{"id":"msg_0"},{"id":"x"},{"id":"msg_1"}]}}"#;
    let out = m.on_completed(b"raw", codexferry::json::Json::parse(payload));
    let last = sse(
        "response.completed",
        r#"{"response":{"output":[{"content":[{"text":"","type":"output_text"}],"id":"msg_0","role":"assistant","status":"completed","type":"message"},{"id":"x"}]}}"#,
    );
    assert_eq!(concat(out), [empty_message_end().into_bytes(), last].concat());
}
