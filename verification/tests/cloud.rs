use cybion::accounts::{admin_decision, bearer, user_file_name, user_of_file};
use cybion::agent::{
    TurnStep, audit_failure_status, checkpoint_reaches_tail, checkpoint_still_latest,
    checkpoint_summary, compact_and_retry, completed_response_check, response_failure,
    check_cancellation, overflow_retry, settle_stream_error, tail_after_output, tail_after_tool, turn_step,
};
use cybion::context::{context_protocol_item, replayable_context_items};
use cybion::error::{ApiError, ApiErrorKind};
use cybion::inputs::{
    generated_thread_title, input_text, insight_range_at, label, model_id, optional_title,
    parse_api_key, reasoning_effort, user_id,
};
use cybion::json::Json;
use cybion::protocol::{
    context_tool_output, split_utf8_by_bytes, sse_blocks, sse_event_data, truncate,
    validate_checkpoint_text,
};
use cybion::responses::{
    context_overflow_found, context_overflow_value, output_text, response_text, response_usage,
    upstream_error_detail,
};
use cybion::tools::{
    WorkerSnapshot, answered_to_model, prepare_worker_arguments, responses_payload,
    responses_payload_with_prefix, responses_tools, tool_output_type, worker_developer_prefix,
    worker_tools,
};

fn conv(v: &serde_json::Value) -> Json {
    match v {
        serde_json::Value::Null => Json::Null,
        serde_json::Value::Bool(b) => Json::Bool(*b),
        serde_json::Value::Number(n) => match n.as_i64() {
            Some(i) => Json::Int(i),
            None => Json::Number(n.to_string()),
        },
        serde_json::Value::String(s) => Json::Str(s.clone()),
        serde_json::Value::Array(a) => Json::Array(a.iter().map(conv).collect()),
        serde_json::Value::Object(o) => {
            Json::Object(o.iter().map(|(k, v)| (k.clone(), conv(v))).collect())
        }
    }
}

fn back(j: &Json) -> serde_json::Value {
    match j {
        Json::Null => serde_json::Value::Null,
        Json::Bool(b) => serde_json::Value::Bool(*b),
        Json::Int(i) => serde_json::Value::from(*i),
        Json::Number(t) => serde_json::from_str(t).unwrap(),
        Json::Str(s) => serde_json::Value::String(s.clone()),
        Json::Array(a) => serde_json::Value::Array(a.iter().map(back).collect()),
        Json::Object(m) => {
            serde_json::Value::Object(m.iter().map(|(k, v)| (k.clone(), back(v))).collect())
        }
    }
}

fn j(text: &str) -> Json {
    conv(&serde_json::from_str(text).unwrap())
}

fn v(text: &str) -> serde_json::Value {
    serde_json::from_str(text).unwrap()
}

const CHECKPOINT: &str = "# Durable working context\n## Concepts and terminology\n## Resources and authoritative locations\n## Chronicle timeline\n## Active decisions and constraints\n## Current objective and next step\n## Open work and evidence routes\n";

#[test]
fn generated_thread_title_accepts_a_single_clean_line() {
    assert_eq!(
        generated_thread_title("\"Fix the order history\"\nExtra detail"),
        Some("Fix the order history".to_owned())
    );
    assert!(generated_thread_title("Untitled thread").is_none());
    assert!(generated_thread_title("\n\n").is_none());
}

#[test]
fn user_ids_are_direct_and_safe_for_database_paths() {
    let id = user_id("auth-user-123").unwrap();
    assert_eq!(id, "auth-user-123");
    assert!(format!("users/{}", user_file_name(&id)).ends_with("users/auth-user-123.sqlite3"));
    assert!(user_id("../escape").is_err());
}

#[test]
fn sanitization_preserves_raw_payload_and_requires_one_to_one_calls() {
    let original = j(r#"[
        {"type":"function_call","call_id":"orphan","name":"bash","arguments":"{}"},
        {"type":"function_call_output","call_id":"missing-output","output":"ignored"},
        {"type":"function_call","call_id":"duplicate","name":"bash","arguments":"{}"},
        {"type":"function_call","call_id":"duplicate","name":"bash","arguments":"{}"},
        {"type":"function_call_output","call_id":"duplicate","output":"ignored"},
        {"type":"function_call","call_id":"paired","name":"bash","arguments":"{}"},
        {"type":"function_call_output","call_id":"paired","output":"kept"},
        {"type":"web_search_call","action":{"query":"secret"}},
        {"type":"image_generation_call","action":{"x":1},"size":"1024x1024"}
    ]"#);
    let payload = back(&responses_payload("test-model", original.copy(), false, None));
    let input = payload["input"].as_array().unwrap();
    assert_eq!(
        input.iter().filter(|item| item["call_id"] == "paired").count(),
        2
    );
    assert!(!input.iter().any(|item| item["call_id"] == "orphan"));
    assert!(!input.iter().any(|item| item["call_id"] == "duplicate"));
    assert!(
        input
            .iter()
            .find(|item| item["type"] == "web_search_call")
            .unwrap()
            .get("action")
            .is_none()
    );
    assert_eq!(back(&original)[7]["action"]["query"], "secret");
}

#[test]
fn worker_tools_require_an_exact_worker_id() {
    for tool in back(&worker_tools()).as_array().unwrap() {
        assert!(
            tool["parameters"]["required"]
                .as_array()
                .unwrap()
                .iter()
                .any(|value| value == "worker_id")
        );
    }
}

#[test]
fn worker_tool_names_match_the_declared_tools() {
    let input = r#"{"worker_id": "worker", "action": "inspect"}"#;
    for name in ["bash", "browser_control", "computer_use"] {
        assert!(
            prepare_worker_arguments(name, None, Ok("worker".to_owned()), Ok(j(input))).is_ok(),
            "{name}"
        );
    }
    assert!(
        prepare_worker_arguments("browser", None, Ok("worker".to_owned()), Ok(j(input))).is_err()
    );
}

#[test]
fn responses_tools_include_native_tools_without_workers() {
    let tools = back(&responses_tools(false, true));
    assert_eq!(tools, v(r#"[{"type":"web_search"},{"type":"image_generation"}]"#));
    let worker_and_native = back(&responses_tools(true, true));
    assert_eq!(worker_and_native.as_array().unwrap().len(), 5);
    assert_eq!(worker_and_native[3]["type"], "web_search");
    assert_eq!(worker_and_native[4]["type"], "image_generation");
}

#[test]
fn worker_developer_prefix_uses_markdown_ids_and_names_only() {
    let prefix = back(&worker_developer_prefix(&[WorkerSnapshot {
        id: "4b9aa3ae-f5a3-483b-975a-3fdcd148d680".to_owned(),
        label: "MBA".to_owned(),
        status: "online".to_owned(),
        last_seen_at: Some(1_789_259_826),
        resource: Some(j(r#"{"logical_cpus": 8}"#)),
    }]));
    assert_eq!(
        prefix["content"].as_str().unwrap(),
        "Cybion Workers:\n- worker_id: 4b9aa3ae-f5a3-483b-975a-3fdcd148d680 (MBA)\n\nEvery Worker tool call must include the exact worker_id from this list; never choose a Worker implicitly."
    );
}

#[test]
fn completed_response_with_null_error_is_not_rejected() {
    let response = j(r#"{"status":"completed","error":null,"output":[{"type":"message"}]}"#);
    assert!(completed_response_check(&response, r#"{"status":"completed"}"#).is_ok());
}

#[test]
fn oversized_tool_output_is_bounded_only_in_replay() {
    let output = format!("{}终", "文".repeat(65_536));
    let item = Json::Object(vec![
        ("type".to_owned(), Json::Str("function_call_output".to_owned())),
        ("call_id".to_owned(), Json::Str("call-1".to_owned())),
        ("output".to_owned(), Json::Str(output)),
    ]);
    let replayed = back(&context_protocol_item(&item));
    assert_eq!(
        back(&item)["output"].as_str().unwrap().chars().count(),
        65_536 + 1
    );
    assert_eq!(
        replayed["output"].as_str().unwrap(),
        format!("{}{}", "文".repeat(65_536), "\n内容过长已经截断")
    );
}

#[test]
fn worker_prefix_lists_every_worker_on_its_own_line() {
    let workers = [
        WorkerSnapshot {
            id: "a".to_owned(),
            label: "One".to_owned(),
            status: "online".to_owned(),
            last_seen_at: None,
            resource: None,
        },
        WorkerSnapshot {
            id: "b".to_owned(),
            label: "Two".to_owned(),
            status: "online".to_owned(),
            last_seen_at: None,
            resource: None,
        },
    ];
    let prefix = back(&worker_developer_prefix(&workers));
    assert_eq!(prefix["role"], "developer");
    assert!(
        prefix["content"]
            .as_str()
            .unwrap()
            .starts_with("Cybion Workers:\n- worker_id: a (One)\n- worker_id: b (Two)\n\n")
    );
}

#[test]
fn payload_carries_reasoning_tier_tools_and_budget() {
    let prefix = j(r#"{"role":"developer","content":"workers"}"#);
    let payload = back(&responses_payload_with_prefix(
        "gpt",
        Some("high"),
        true,
        j(r#"[{"role":"user","content":"hi"}]"#),
        true,
        false,
        Some(4096),
        Some(prefix),
    ));
    assert_eq!(payload["model"], "gpt");
    assert_eq!(payload["store"], false);
    assert_eq!(payload["stream"], true);
    assert_eq!(payload["reasoning"], v(r#"{"effort":"high","summary":"auto"}"#));
    assert_eq!(payload["include"], v(r#"["reasoning.encrypted_content"]"#));
    assert_eq!(payload["service_tier"], "priority");
    assert_eq!(payload["tool_choice"], "auto");
    assert_eq!(payload["tools"].as_array().unwrap().len(), 3);
    assert_eq!(payload["max_output_tokens"], 4096);
    assert_eq!(payload["input"][0]["content"], "workers");
    assert_eq!(payload["input"][1]["content"], "hi");
    let plain = back(&responses_payload("gpt", j(r#"{"role":"user","content":"x"}"#), false, None));
    assert_eq!(plain["tool_choice"], "none");
    assert!(plain.get("tools").is_none());
    assert!(plain.get("reasoning").is_none());
}

#[test]
fn replay_drops_unpaired_calls() {
    let items = [
        j(r#"{"type":"function_call","call_id":"a","name":"bash","arguments":"{}"}"#),
        j(r#"{"type":"message","role":"assistant","content":[]}"#),
        j(r#"{"type":"function_call_output","call_id":"a","output":"ok"}"#),
        j(r#"{"type":"function_call_output","call_id":"b","output":"late"}"#),
    ];
    let kept = replayable_context_items(&items);
    assert_eq!(kept.len(), 3);
    assert_eq!(back(&kept[2])["call_id"], "a");
}

#[test]
fn labels_models_and_efforts_are_validated() {
    assert_eq!(label("  Build  ", "title", 80).unwrap(), "Build");
    let error = label("", "title", 80).unwrap_err();
    assert_eq!(error.status, 400);
    assert_eq!(error.message, "title must contain 1-80 visible characters");
    assert_eq!(optional_title(None).unwrap(), "Untitled thread");
    assert!(model_id("gpt-5.6-terra".to_owned()).is_ok());
    assert!(model_id("bad model".to_owned()).is_err());
    assert!(reasoning_effort("medium".to_owned()).is_ok());
    assert!(reasoning_effort("extreme".to_owned()).is_err());
    assert!(input_text("   ".to_owned()).is_err());
    assert_eq!(input_text(" hi ".to_owned()).unwrap(), "hi");
}

#[test]
fn api_keys_split_into_user_and_secret() {
    let (user, secret) = parse_api_key("cyb_alice_s3cr3t_with_underscore").unwrap();
    assert_eq!(user, "alice");
    assert_eq!(secret, "s3cr3t_with_underscore");
    assert!(parse_api_key("nope").is_err());
}

#[test]
fn insight_ranges_start_at_their_window() {
    assert_eq!(insight_range_at(None, 1_000_000).unwrap(), ("7d".to_owned(), Some(1_000_000 - 604_800)));
    assert_eq!(insight_range_at(Some("all"), 5).unwrap(), ("all".to_owned(), None));
    assert_eq!(insight_range_at(Some("24h"), 100_000).unwrap(), ("24h".to_owned(), Some(100_000 - 86_400)));
    assert!(insight_range_at(Some("1y"), 5).is_err());
}

#[test]
fn truncation_keeps_whole_characters() {
    assert_eq!(truncate("héllo", 1), "hé");
    assert_eq!(truncate("abc", 10), "abc");
    assert_eq!(context_tool_output("short"), "short");
    let parts = split_utf8_by_bytes("aé文b", 3);
    assert_eq!(parts, vec!["aé".to_owned(), "文".to_owned(), "b".to_owned()]);
    assert_eq!(parts.concat(), "aé文b");
}

#[test]
fn checkpoint_text_must_follow_the_contract() {
    assert!(validate_checkpoint_text(CHECKPOINT).is_ok());
    assert!(validate_checkpoint_text("## Concepts and terminology").is_err());
    let response = Json::Object(vec![("output_text".to_owned(), Json::Str(CHECKPOINT.to_owned()))]);
    assert_eq!(checkpoint_summary(&response).unwrap(), CHECKPOINT);
    let blank = Json::Object(vec![("output_text".to_owned(), Json::Str("  ".to_owned()))]);
    assert_eq!(
        checkpoint_summary(&blank).unwrap_err().message,
        "checkpoint response has no text"
    );
    let wrong = Json::Object(vec![("output_text".to_owned(), Json::Str("notes".to_owned()))]);
    let error = checkpoint_summary(&wrong).unwrap_err();
    assert_eq!(error.status, 503);
    assert_eq!(
        error.message,
        "checkpoint output does not satisfy the durable working-context contract"
    );
}

#[test]
fn response_text_and_usage_are_read_from_the_response() {
    let response = j(r#"{"output":[{"type":"message","content":[{"type":"output_text","text":"Hello"}]},{"type":"function_call"}],"usage":{"input_tokens":10,"output_tokens":4,"input_tokens_details":{"cached_tokens":3}}}"#);
    assert_eq!(response_text(&response), Some("Hello".to_owned()));
    assert_eq!(response_usage(&response), (Some(10), Some(4), Some(3)));
    assert_eq!(output_text(&[j(r#"{"type":"reasoning"}"#)]), "");
}

#[test]
fn failures_are_classified_by_status_and_body() {
    let overflow_body = j(r#"{"error":{"code":"context_length_exceeded","message":"too long"}}"#);
    assert!(context_overflow_value(&overflow_body));
    assert!(context_overflow_found(None, &[overflow_body.copy()]));
    assert_eq!(upstream_error_detail("raw", Some(&overflow_body)), "too long");
    assert_eq!(upstream_error_detail("  raw  ", None), "raw");
    let e = response_failure(413, "413 Payload Too Large", "big", false, None);
    assert!(e.is_context_overflow());
    assert_eq!(e.message, "upstream Responses request failed with HTTP 413 Payload Too Large: big");
    let e = response_failure(429, "429 Too Many Requests", "slow down", false, Some(2000));
    assert_eq!(e.kind, ApiErrorKind::Transient { retry_after_ms: Some(2000) });
    let e = response_failure(502, "502 Bad Gateway", "", false, None);
    assert!(e.is_transient());
    let e = response_failure(401, "401 Unauthorized", "no", false, None);
    assert_eq!(e.kind, ApiErrorKind::Ordinary);
    let e = response_failure(400, "400 Bad Request", "x", true, None);
    assert!(e.is_context_overflow());
}

#[test]
fn completed_responses_with_errors_are_rejected() {
    let overflow = j(r#"{"status":"incomplete","incomplete_details":{"reason":"context_window_exceeded"},"response":{"incomplete_details":{"reason":"context_window_exceeded"}}}"#);
    let error = completed_response_check(&overflow, "{}").unwrap_err();
    assert!(error.is_context_overflow());
    assert!(error.message.starts_with("upstream Responses request exceeded the context window: "));
    let failed = j(r#"{"status":"failed","error":{"message":"boom"}}"#);
    let error = completed_response_check(&failed, "{}").unwrap_err();
    assert_eq!(error.message, "upstream Responses request returned an error: boom");
    assert_eq!(error.kind, ApiErrorKind::Ordinary);
}

#[test]
fn dispatched_tools_make_overflow_ordinary() {
    let settled = settle_stream_error(ApiError::context_overflow("full".to_owned()), true);
    assert_eq!(settled.kind, ApiErrorKind::Ordinary);
    assert_eq!(settled.message, "full");
    let kept = settle_stream_error(ApiError::context_overflow("full".to_owned()), false);
    assert!(kept.is_context_overflow());
    assert_eq!(audit_failure_status(&ApiError::cancelled()), "cancelled");
    assert_eq!(audit_failure_status(&kept), "failed");
}

#[test]
fn turns_compact_twice_then_stop() {
    let overflow = ApiError::context_overflow("x".to_owned());
    assert!(compact_and_retry(&overflow, 0));
    assert!(compact_and_retry(&overflow, 1));
    assert!(!compact_and_retry(&overflow, 2));
    assert!(!compact_and_retry(&ApiError::unavailable("x".to_owned()), 0));
}

#[test]
fn turn_steps_follow_the_response() {
    assert_eq!(
        turn_step(false, false, 0, None).unwrap_err().message,
        "model response has no output"
    );
    assert!(turn_step(true, true, 0, None).unwrap_err().is_cancelled());
    assert_eq!(turn_step(true, false, 0, Some(false)).unwrap(), TurnStep::Continue);
    assert_eq!(turn_step(true, false, 0, None).unwrap(), TurnStep::Finish);
    assert_eq!(turn_step(true, false, 2, Some(false)).unwrap(), TurnStep::RunTools);
    assert_eq!(tail_after_output(5, &[7, 9]), 9);
    assert_eq!(tail_after_output(5, &[]), 5);
    assert_eq!(tail_after_tool(9, 4), 9);
    assert_eq!(tail_after_tool(9, 12), 12);
    assert!(checkpoint_reaches_tail(&[1, 2, 3], 3).is_ok());
    assert_eq!(checkpoint_reaches_tail(&[], 3).unwrap_err().status, 409);
    assert!(checkpoint_still_latest(Some(3), 3).is_ok());
    assert!(checkpoint_still_latest(Some(4), 3).is_err());
}

#[test]
fn tool_calls_are_answered_by_type() {
    assert_eq!(tool_output_type("function_call"), Some("function_call_output".to_owned()));
    assert_eq!(tool_output_type("custom_tool_call"), Some("custom_tool_call_output".to_owned()));
    assert_eq!(tool_output_type("message"), None);
    assert!(answered_to_model(&ApiError::conflict("offline".to_owned())));
    assert!(!answered_to_model(&ApiError::cancelled()));
    assert!(!answered_to_model(&ApiError::internal()));
    assert_eq!(
        prepare_worker_arguments("bash", Some("tools"), Ok("w".to_owned()), Ok(Json::Null)).unwrap_err(),
        "unsupported Worker tool: bash"
    );
    assert_eq!(
        prepare_worker_arguments("bash", Some(""), Ok(" ".to_owned()), Ok(Json::Null)).unwrap_err(),
        "Worker tool arguments must include worker_id"
    );
    assert_eq!(
        prepare_worker_arguments("bash", None, Err("missing field".to_owned()), Ok(Json::Null)).unwrap_err(),
        "Worker tool arguments must contain an explicit worker_id: missing field"
    );
}

#[test]
fn sse_blocks_yield_event_and_data() {
    assert_eq!(
        sse_event_data("event: response.completed\ndata: {\"a\":1}\n: comment"),
        Some((Some("response.completed".to_owned()), "{\"a\":1}".to_owned()))
    );
    assert_eq!(sse_event_data("data:x\r\ndata: y"), Some((None, "x\ny".to_owned())));
    assert_eq!(sse_event_data("event: ping"), None);
}

#[test]
fn bearer_tokens_and_the_administrator() {
    assert_eq!(bearer(Some("Bearer abc")).unwrap(), "abc");
    assert_eq!(bearer(Some("Bearer ")).unwrap_err().status, 401);
    assert!(bearer(Some("Basic abc")).is_err());
    assert!(bearer(None).is_err());
    assert_eq!(admin_decision(None, "root", true), (true, true));
    assert_eq!(admin_decision(Some("root"), "other", true), (false, false));
    assert_eq!(admin_decision(Some("root"), "root", false), (true, false));
    assert_eq!(admin_decision(None, "x", false), (false, false));
    assert_eq!(user_of_file("alice.sqlite3"), Some("alice".to_owned()));
    assert_eq!(user_of_file("pairings.db"), None);
    assert_eq!(user_of_file("..sqlite3"), Some(".".to_owned()));
    assert_eq!(user_of_file(".sqlite3"), None);
}

#[test]
fn bodies_split_into_event_blocks_at_blank_lines() {
    assert_eq!(
        sse_blocks("event: a\r\ndata: 1\r\n\r\ndata: 2\n\n"),
        vec!["event: a\ndata: 1".to_owned(), "data: 2".to_owned(), String::new()]
    );
    assert_eq!(sse_blocks(""), vec![String::new()]);
    assert_eq!(sse_blocks("\n\n\n"), vec![String::new(), "\n".to_owned()]);
    let body = "data: {\"error\":{\"code\":\"context_length_exceeded\"}}\n\n";
    let events: Vec<Json> = sse_blocks(body)
        .iter()
        .filter_map(|block| sse_event_data(block))
        .filter_map(|(_, data)| serde_json::from_str::<serde_json::Value>(&data).ok())
        .map(|value| conv(&value))
        .collect();
    assert!(context_overflow_found(None, &events));
}

#[test]
fn a_cancelled_turn_stops_before_its_next_step() {
    assert!(check_cancellation(false).is_ok());
    let e = check_cancellation(true).unwrap_err();
    assert_eq!(e.status, 408);
    assert_eq!(e.kind, ApiErrorKind::Cancelled);
    assert_eq!(e.message, "request superseded by a newer input");
}

#[test]
fn fragments_are_filled_greedily() {
    let text = "ab文cdé文文x";
    for limit in 1..8 {
        let parts = split_utf8_by_bytes(text, limit);
        assert_eq!(parts.concat(), text);
        for pair in parts.windows(2) {
            assert!(pair[0].len() + pair[1].chars().next().unwrap().len_utf8() > limit);
        }
        for part in &parts {
            assert!(!part.is_empty() && (part.len() <= limit || part.chars().count() == 1));
        }
    }
    assert!(split_utf8_by_bytes("", 4).is_empty());
}

#[test]
fn an_sse_block_is_an_event_only_with_data() {
    assert!(sse_event_data(": keepalive\nevent: ping").is_none());
    assert!(sse_event_data("event: ping\r\nid: 3").is_none());
    let (event, data) = sse_event_data("event: delta\ndata: a\n:note\ndata:b").unwrap();
    assert_eq!(event.as_deref(), Some("delta"));
    assert_eq!(data, "a\nb");
}

#[test]
fn a_turn_compacts_at_most_twice() {
    let overflow = || ApiError::context_overflow("context_length_exceeded".to_owned());
    assert_eq!(overflow_retry(overflow(), 0).unwrap(), 1);
    assert_eq!(overflow_retry(overflow(), 1).unwrap(), 2);
    let past = overflow_retry(overflow(), 2).unwrap_err();
    assert_eq!(past.kind, ApiErrorKind::ContextOverflow);
    assert_eq!(past.message, "context_length_exceeded");
    let other = overflow_retry(ApiError::bad_request("bad input".to_owned()), 0).unwrap_err();
    assert_eq!(other.status, 400);
    assert_eq!(other.message, "bad input");
}
