use cybion::browser::{
    BrowserApproval, BrowserManager, BrowserRunScope, BrowserSession, BrowserToolCall,
    action_summary, actions_require_approval, approval_outcome, browser_tool_call,
    click_approval_text, computer_approval_text, computer_use_check, key_code,
    keypress_needs_approval, normalize_key, required_string, snapshot_rows,
    typing_approval_text,
};
use cybion::ids::is_web_url;
use cybion::json::Json;

fn conv(v: &serde_json::Value) -> Json {
    match v {
        serde_json::Value::Null => Json::Null,
        serde_json::Value::Bool(b) => Json::Bool(*b),
        serde_json::Value::Number(n) => match n.as_i64() {
            Some(i) => Json::Int(i),
            None => Json::Number(n.to_string()),
        },
        serde_json::Value::String(s) => Json::Str(s.clone()),
        serde_json::Value::Array(a) => Json::Array(a.iter().map(conv).collect()),
        serde_json::Value::Object(o) => {
            Json::Object(o.iter().map(|(k, v)| (k.clone(), conv(v))).collect())
        }
    }
}

fn j(text: &str) -> Json {
    conv(&serde_json::from_str(text).unwrap())
}

fn session(id: &str) -> BrowserSession {
    BrowserSession {
        id: id.to_owned(),
        computer_use_enabled: true,
        created_at: "2026-01-01T00:00:00+00:00".to_owned(),
        url: "about:blank".to_owned(),
        pending_approval: None,
        refs: Vec::new(),
        next_ref: 0,
    }
}

#[test]
fn computer_clicks_and_typing_need_approval() {
    assert!(!actions_require_approval(&[j(r#"{"type":"screenshot"}"#)]));
    assert!(!actions_require_approval(&[j(r#"{"type":"scroll","scroll_y":400}"#)]));
    assert!(actions_require_approval(&[j(r#"{"type":"click","x":3,"y":4}"#)]));
    assert!(actions_require_approval(&[j(r#"{"type":"type","text":"secret"}"#)]));
}

#[test]
fn key_normalization_is_explicit() {
    assert_eq!(normalize_key("enter").unwrap(), "Enter");
    assert_eq!(normalize_key("x").unwrap(), "X");
    assert!(normalize_key("CTRL").is_err());
}

#[test]
fn browser_navigation_accepts_any_web_host() {
    assert!(is_web_url("https://example.com/path"));
    assert!(is_web_url("https://another.example/path"));
    assert!(is_web_url("http://127.0.0.1:1858/health"));
    assert!(!is_web_url("file:///tmp/private"));
    assert!(!is_web_url("about:blank"));
}

#[test]
fn named_keys_have_their_codes() {
    assert_eq!(normalize_key("Esc").unwrap(), "Escape");
    assert_eq!(normalize_key("space").unwrap(), " ");
    assert_eq!(normalize_key("up").unwrap(), "ArrowUp");
    assert_eq!(key_code("Enter"), 13);
    assert_eq!(key_code("ArrowLeft"), 37);
    assert_eq!(key_code("a"), 97);
}

#[test]
fn action_summary_lists_types_and_hides_typed_text() {
    let actions = [
        j(r#"{"type":"click","x":1,"y":2}"#),
        j(r#"{"type":"type","text":"hunter2"}"#),
    ];
    let summary = action_summary(&actions);
    assert_eq!(summary, "click, type");
    assert_eq!(
        computer_approval_text(&actions),
        format!("Allow the computer to execute: {summary}")
    );
}

#[test]
fn approval_is_taken_once_and_close_declines_it() {
    let mut manager = BrowserManager::new();
    manager.insert(session("s1"));
    manager.insert(session("s2"));
    assert_eq!(manager.list().len(), 2);
    let approval = BrowserApproval {
        id: "a1".to_owned(),
        description: click_approval_text("r3"),
    };
    manager.begin_approval("s1", approval).unwrap();
    let second = BrowserApproval {
        id: "a2".to_owned(),
        description: "again".to_owned(),
    };
    assert_eq!(
        manager.begin_approval("s1", second).unwrap_err(),
        "browser session is already waiting for approval"
    );
    let taken = manager.approve("s1").unwrap();
    assert_eq!(taken.id, "a1");
    assert_eq!(taken.description, "Allow the agent to activate browser element r3");
    assert_eq!(
        manager.approve("s1").unwrap_err(),
        "browser session has no action awaiting approval"
    );
    manager
        .begin_approval(
            "s2",
            BrowserApproval {
                id: "a3".to_owned(),
                description: typing_approval_text("r1"),
            },
        )
        .unwrap();
    let declined = manager.close("s2").unwrap().unwrap();
    assert_eq!(declined.id, "a3");
    assert_eq!(manager.close("s2").unwrap_err(), "browser session does not exist");
    assert_eq!(manager.list().len(), 1);
}

#[test]
fn scope_and_url_follow_the_session() {
    let mut manager = BrowserManager::new();
    assert!(manager.scope("missing").is_err());
    manager.insert(session("s1"));
    let scope = manager.scope("s1").unwrap();
    assert!(scope.computer_use_enabled);
    manager.set_url("s1", "https://example.com/".to_owned()).unwrap();
    assert_eq!(manager.list()[0].url, "https://example.com/");
    assert!(computer_use_check(&scope).is_ok());
    let disabled = BrowserRunScope {
        id: "s1".to_owned(),
        computer_use_enabled: false,
    };
    assert_eq!(
        computer_use_check(&disabled).unwrap_err(),
        "Computer Use is disabled for this browser session"
    );
}

#[test]
fn browser_tool_calls_are_checked_before_they_run() {
    let args = j(r#"{"session_id":"s1","url":"https://example.com","ref":"r2","text":"hi","key":"Tab","delta_y":120}"#);
    assert!(matches!(
        browser_tool_call("browser_snapshot", &args),
        Ok(BrowserToolCall::Snapshot { .. })
    ));
    match browser_tool_call("browser_navigate", &args).unwrap() {
        BrowserToolCall::Navigate { session_id, url } => {
            assert_eq!(session_id, "s1");
            assert_eq!(url, "https://example.com");
        }
        _ => panic!("expected navigation"),
    }
    assert!(matches!(
        browser_tool_call("browser_type", &args),
        Ok(BrowserToolCall::Type { .. })
    ));
    assert!(matches!(
        browser_tool_call("browser_scroll", &args),
        Ok(BrowserToolCall::Scroll { .. })
    ));
    let file = j(r#"{"session_id":"s1","url":"file:///etc/passwd"}"#);
    assert_eq!(
        browser_tool_call("browser_navigate", &file).err().unwrap(),
        "browser navigation requires an HTTP(S) URL"
    );
    let no_session = j(r#"{"url":"https://example.com"}"#);
    assert_eq!(
        browser_tool_call("browser_navigate", &no_session).err().unwrap(),
        "browser action requires session_id"
    );
    let no_delta = j(r#"{"session_id":"s1","delta_y":"far"}"#);
    assert_eq!(
        browser_tool_call("browser_scroll", &no_delta).err().unwrap(),
        "browser_scroll requires a numeric delta_y"
    );
    assert_eq!(
        browser_tool_call("browser_print", &args).err().unwrap(),
        "unknown browser tool"
    );
    assert_eq!(
        required_string(&j(r#"{"ref":""}"#), "ref").unwrap_err(),
        "browser action requires ref"
    );
}

#[test]
fn enter_needs_approval_in_any_case() {
    assert!(keypress_needs_approval("enter"));
    assert!(keypress_needs_approval("Return"));
    assert!(!keypress_needs_approval("Tab"));
    assert!(approval_outcome(Some(true)).is_ok());
    assert_eq!(approval_outcome(Some(false)).unwrap_err(), "browser action was declined");
    assert_eq!(approval_outcome(None).unwrap_err(), "browser action approval expired");
}

#[test]
fn snapshot_elements_get_fresh_references() {
    let mut manager = BrowserManager::new();
    manager.insert(session("s1"));
    let items = vec![
        j(r#"{"role":"button","name":"Buy","token":"t-1"}"#),
        j(r#"{"role":"link","name":"Home","token":"t-2","ref":"stale"}"#),
    ];
    let names = manager.snapshot_refs("s1", &items).unwrap();
    assert_eq!(names, vec!["r1".to_owned(), "r2".to_owned()]);
    let rows = snapshot_rows(&items, &names);
    match &rows[1] {
        Json::Object(m) => {
            assert!(!m.iter().any(|(k, _)| k == "token"));
            assert_eq!(m.iter().filter(|(k, _)| k == "ref").count(), 1);
            assert!(matches!(m.last(), Some((k, Json::Str(v))) if k == "ref" && v == "r2"));
        }
        _ => panic!("expected an object"),
    }
    let more = manager.snapshot_refs("s1", &[j(r#"{"token":"t-3"}"#)]).unwrap();
    assert_eq!(more, vec!["r3".to_owned()]);
    assert_eq!(manager.element_token("s1", "r2").unwrap(), "t-2");
    assert_eq!(manager.element_token("s1", "r3").unwrap(), "t-3");
    assert_eq!(
        manager.element_token("s1", "r9").unwrap_err(),
        "unknown browser element reference; take a fresh snapshot"
    );
    assert_eq!(manager.element_token("s9", "r1").unwrap_err(), "browser session does not exist");
    assert_eq!(manager.snapshot_refs("s9", &[]).unwrap_err(), "browser session does not exist");
}

#[test]
fn an_element_without_a_token_ends_the_snapshot_after_counting_it() {
    let mut manager = BrowserManager::new();
    manager.insert(session("s1"));
    let items = vec![
        j(r#"{"role":"button","token":"t-1"}"#),
        j(r#"{"role":"button"}"#),
        j(r#"{"role":"link","token":"t-3"}"#),
    ];
    assert_eq!(
        manager.snapshot_refs("s1", &items).unwrap_err(),
        "browser returned an invalid element snapshot"
    );
    // The first element keeps its reference and the second was counted.
    assert_eq!(manager.element_token("s1", "r1").unwrap(), "t-1");
    assert!(manager.element_token("s1", "r2").is_err());
    let next = manager.snapshot_refs("s1", &[j(r#"{"token":"t-4"}"#)]).unwrap();
    assert_eq!(next, vec!["r3".to_owned()]);
}
