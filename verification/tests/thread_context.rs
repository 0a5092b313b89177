use cybion::compaction::{compacted_checkpoint_item, compaction_input};
use cybion::protocol::{checkpoint_developer_prompt, checkpoint_developer_prompt_with_metadata};
use cybion::thread_context::ProtocolRecordMetadata;
use cybion::json::Json;
use cybion::thread_context::{
    StoredRecord, compile_thread_context, context_idx_head, latest_request_record_id,
    request_context_tail, response_output_kind, validate_protocol_record,
};
use cybion::thread_context::{
    current_context, latest_protocol_record_id, pending_tool_calls, running_request,
};
use cybion::error::ApiErrorKind;
use cybion::requests::RequestOperation;

fn message(role: &str, content: &str) -> Json {
    Json::Object(vec![
        ("role".to_owned(), Json::Str(role.to_owned())),
        ("content".to_owned(), Json::Str(content.to_owned())),
    ])
}

fn record(id: i64, kind: &str, content: &str) -> StoredRecord {
    StoredRecord {
        id,
        created_at: 1000 + id,
        kind: kind.to_owned(),
        request_input_id: None,
        payload: Some(message("user", content)),
    }
}

fn output(id: i64, input: i64, content: &str) -> StoredRecord {
    StoredRecord {
        id,
        created_at: 1000 + id,
        kind: "response_output".to_owned(),
        request_input_id: Some(input),
        payload: Some(message("assistant", content)),
    }
}

fn mentions(items: &[Json], text: &str) -> bool {
    items.iter().any(|item| match item {
        Json::Object(members) => {
            members.iter().any(|(_, v)| matches!(v, Json::Str(s) if s == text))
        }
        _ => false,
    })
}

#[test]
fn context_replays_only_same_thread_from_latest_checkpoint() {
    // The thread's own records; the sibling thread's input is never among them.
    let records = vec![
        record(1, "input", "old"),
        record(3, "checkpoint", "old state"),
        record(4, "activity", "not context"),
        record(5, "input", "new"),
        record(6, "input", "future"),
    ];
    let context = compile_thread_context(&records, 5).unwrap();
    assert_eq!(context.idx_head, 3);
    assert_eq!(context.idx_tail, 5);
    assert_eq!(context.record_ids, vec![3, 5]);
    assert_eq!(context.items.len(), 2);
    assert_eq!(context.protocol_items.len(), 2);
    assert!(!mentions(&context.items, "old"));
    assert!(!mentions(&context.items, "future"));
    assert!(!mentions(&context.items, "not context"));
    assert_eq!(context.record_metadata[0].kind, "checkpoint");
    assert_eq!(context.record_metadata[1].created_at, 1005);
    assert!(compile_thread_context(&records, 6).is_ok());
}

#[test]
fn context_tail_must_be_a_same_thread_protocol_record() {
    let records = vec![record(10, "input", "input"), record(11, "activity", "activity")];
    assert_eq!(
        compile_thread_context(&records, 11).unwrap_err().message,
        "idx_tail must be a protocol record"
    );
    // Record 12 belongs to another thread, so this thread has no such record.
    let error = compile_thread_context(&records, 12).unwrap_err();
    assert_eq!(error.status, 409);
    assert_eq!(error.message, "idx_tail is not a record in this thread");
    let context = compile_thread_context(&records, 10).unwrap();
    assert_eq!(context.idx_head, 10);
    assert_eq!(context.idx_tail, 10);
    assert!(validate_protocol_record(&records, 10).is_ok());
}

#[test]
fn superseded_outputs_are_retained_but_never_replayed() {
    let mut records = vec![record(1, "input", "first"), record(2, "input", "second")];
    // The late output answers the first input after the second arrived.
    assert_eq!(response_output_kind(&records, 1), "activity");
    assert_eq!(response_output_kind(&records, 2), "response_output");
    let mut late = output(3, 1, "late");
    late.kind = response_output_kind(&records, 1);
    records.push(late);
    records.push(record(4, "input", "third"));
    let context = compile_thread_context(&records, 4).unwrap();
    assert_eq!(context.idx_tail, 4);
    assert!(!mentions(&context.items, "late"));
    assert_eq!(context.record_ids, vec![1, 2, 4]);
}

#[test]
fn outputs_stored_before_a_newer_input_are_still_skipped() {
    // Even if stored as a protocol output, an answer to an input that a newer
    // input preceded is not replayed.
    let records = vec![
        record(1, "input", "first"),
        record(2, "input", "second"),
        output(3, 1, "stale"),
        output(4, 2, "fresh"),
    ];
    let context = compile_thread_context(&records, 4).unwrap();
    assert_eq!(context.record_ids, vec![1, 2, 4]);
    assert!(mentions(&context.items, "fresh"));
    assert!(!mentions(&context.items, "stale"));
}

#[test]
fn context_head_prefers_the_latest_checkpoint() {
    let records = vec![
        record(1, "input", "a"),
        record(2, "checkpoint", "b"),
        record(3, "input", "c"),
        record(4, "checkpoint", "d"),
        record(5, "input", "e"),
    ];
    assert_eq!(context_idx_head(&records, 5).unwrap(), 4);
    assert_eq!(context_idx_head(&records, 3).unwrap(), 2);
    assert_eq!(context_idx_head(&records, 1).unwrap(), 1);
    let error = context_idx_head(&records[..0], 1).unwrap_err();
    assert_eq!(error.message, "thread has no context head");
}

#[test]
fn unreadable_payload_in_the_context_is_an_internal_error() {
    let mut broken = record(2, "input", "x");
    broken.payload = None;
    let records = vec![record(1, "input", "a"), broken, record(3, "input", "b")];
    let error = compile_thread_context(&records, 3).unwrap_err();
    assert_eq!(error.status, 500);
    assert_eq!(error.message, "Cybion could not complete the request");
    // A broken record outside the context does not matter.
    let context = compile_thread_context(&records[..1], 1).unwrap();
    assert_eq!(context.record_ids, vec![1]);
}

#[test]
fn a_superseded_tail_still_replays_its_inputs() {
    let records = vec![
        record(1, "checkpoint", "s"),
        record(2, "input", "a"),
        record(3, "input", "b"),
        output(4, 2, "late"),
    ];
    let context = compile_thread_context(&records, 4).unwrap();
    assert_eq!(context.idx_head, 1);
    assert_eq!(context.record_ids, vec![1, 2, 3]);
    let without_checkpoint = &records[1..];
    let context = compile_thread_context(without_checkpoint, 4).unwrap();
    assert_eq!(context.idx_head, 2);
    assert_eq!(context.record_ids, vec![2, 3]);
}

fn control(id: i64, action: &str) -> StoredRecord {
    StoredRecord {
        id,
        created_at: 1000 + id,
        kind: "activity".to_owned(),
        request_input_id: None,
        payload: Some(Json::Object(vec![
            ("type".to_owned(), Json::Str("thread_control".to_owned())),
            ("action".to_owned(), Json::Str(action.to_owned())),
        ])),
    }
}

#[test]
fn latest_request_counts_inputs_and_thread_controls_only() {
    let mut records = vec![record(1, "input", "a"), output(2, 1, "b")];
    assert_eq!(latest_request_record_id(&records), Some(1));
    records.push(record(3, "activity", "note"));
    assert_eq!(latest_request_record_id(&records), Some(1));
    records.push(control(4, "continue"));
    assert_eq!(latest_request_record_id(&records), Some(4));
    assert_eq!(latest_request_record_id(&[]), None);
    let mut unreadable = control(5, "cancel");
    unreadable.payload = None;
    records.push(unreadable);
    assert_eq!(latest_request_record_id(&records), Some(4));
}

#[test]
fn request_tail_is_the_latest_protocol_record_before_the_request() {
    let records = vec![
        record(1, "input", "a"),
        output(2, 1, "b"),
        record(3, "activity", "note"),
        control(4, "compact"),
    ];
    assert_eq!(request_context_tail(&records, 4).unwrap(), 2);
    assert_eq!(request_context_tail(&records, 1).unwrap(), 1);
    let error = request_context_tail(&records, 0).unwrap_err();
    assert_eq!(error.status, 409);
    assert_eq!(error.message, "thread has no protocol history");
}

fn call(id: i64, input: i64, kind: &str, call_id: &str) -> StoredRecord {
    StoredRecord {
        id,
        created_at: 1000 + id,
        kind: "response_output".to_owned(),
        request_input_id: Some(input),
        payload: Some(Json::Object(vec![
            ("type".to_owned(), Json::Str(kind.to_owned())),
            ("call_id".to_owned(), Json::Str(call_id.to_owned())),
        ])),
    }
}

fn tool_output(id: i64, input: i64, call_id: &str) -> StoredRecord {
    StoredRecord {
        id,
        created_at: 1000 + id,
        kind: "tool_output".to_owned(),
        request_input_id: Some(input),
        payload: Some(Json::Object(vec![
            ("type".to_owned(), Json::Str("function_call_output".to_owned())),
            ("call_id".to_owned(), Json::Str(call_id.to_owned())),
            ("output".to_owned(), Json::Str("done".to_owned())),
        ])),
    }
}

fn call_id_of(item: &Json) -> String {
    match item {
        Json::Object(members) => members
            .iter()
            .find(|(k, _)| k == "call_id")
            .and_then(|(_, v)| match v {
                Json::Str(s) => Some(s.clone()),
                _ => None,
            })
            .unwrap(),
        _ => panic!("not an object"),
    }
}

#[test]
fn restart_resumes_only_unanswered_tool_calls_of_the_request() {
    let records = vec![
        call(1, 0, "function_call", "before"),
        record(2, "input", "go"),
        call(3, 2, "function_call", "a"),
        call(4, 2, "custom_tool_call", "b"),
        tool_output(5, 2, "a"),
        call(6, 2, "tool_search_call", "c"),
        output(7, 2, "text"),
    ];
    let pending = pending_tool_calls(&records, 2);
    let ids: Vec<String> = pending.iter().map(call_id_of).collect();
    assert_eq!(ids, vec!["b".to_owned(), "c".to_owned()]);
    // An output recorded before the call does not answer it.
    let early = vec![record(2, "input", "go"), tool_output(3, 2, "x"), call(4, 2, "function_call", "x")];
    assert_eq!(pending_tool_calls(&early, 2).len(), 1);
    assert!(pending_tool_calls(&records, 7).is_empty());
}

#[test]
fn a_running_thread_resumes_its_latest_request() {
    let records = vec![record(1, "input", "a"), output(2, 1, "b"), control(3, "compact")];
    assert_eq!(running_request(&records, "idle").unwrap(), None);
    assert_eq!(running_request(&records, "running").unwrap(), Some((3, RequestOperation::Compact)));
    let records = vec![record(1, "input", "a"), control(2, "continue")];
    assert_eq!(running_request(&records, "running").unwrap(), Some((2, RequestOperation::Inference)));
    assert_eq!(running_request(&records[..1], "running").unwrap(), Some((1, RequestOperation::Inference)));
    assert_eq!(running_request(&[], "running").unwrap_err().status, 500);
}

#[test]
fn only_the_latest_running_request_gets_a_context() {
    let records = vec![
        record(1, "input", "a"),
        output(2, 1, "b"),
        record(3, "input", "c"),
        record(4, "activity", "note"),
    ];
    assert_eq!(latest_protocol_record_id(&records).unwrap(), 3);
    assert_eq!(latest_protocol_record_id(&[]).unwrap_err().message, "thread has no protocol history");
    let context = current_context(&records, "running", 3).unwrap();
    assert_eq!(context.idx_tail, 3);
    assert_eq!(context.record_ids, vec![1, 2, 3]);
    assert_eq!(current_context(&records, "running", 1).unwrap_err().kind, ApiErrorKind::Cancelled);
    assert_eq!(current_context(&records, "idle", 3).unwrap_err().kind, ApiErrorKind::Cancelled);
}

#[test]
fn compaction_requests_carry_the_metadata_prefix_and_items() {
    let metadata = vec![
        ProtocolRecordMetadata { record_id: 1, created_at: 5, kind: "input".to_owned() },
        ProtocolRecordMetadata { record_id: 2, created_at: 6, kind: "tool_output".to_owned() },
    ];
    let prompt = checkpoint_developer_prompt_with_metadata(&metadata);
    assert!(prompt.starts_with(&checkpoint_developer_prompt()));
    assert!(prompt.ends_with(
        "\n\nSource record metadata (evidence only):\n```json\n[{\"created_at\":5,\"kind\":\"input\",\"record_id\":1},{\"created_at\":6,\"kind\":\"tool_output\",\"record_id\":2}]\n```"
    ));
    let prefix = message("developer", "summary so far");
    let items = vec![message("user", "a"), message("assistant", "b")];
    let input = compaction_input(Some(&prefix), &items, &metadata);
    assert_eq!(input.len(), 4);
    let same = |a: &Json, b: &Json| format!("{a:?}") == format!("{b:?}");
    assert!(same(&input[0], &message("developer", &prompt)));
    assert!(same(&input[1], &prefix));
    assert!(same(&input[3], &items[1]));
    assert_eq!(compaction_input(None, &items, &metadata).len(), 3);
    assert!(same(
        &compacted_checkpoint_item("# Durable working context"),
        &message("developer", "# Durable working context")
    ));
}
