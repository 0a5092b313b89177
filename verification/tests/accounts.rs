use cybion::accounts::{admin_decision, api_credentials, issue_api_key};
use cybion::audits::{audit_page, reasoning_audit_query, worker_call_audit_query};
use cybion::ids::hash_secret;
use cybion::inputs::parse_api_key;
use cybion::threads::{
    ThreadDefaults, ThreadSettings, checked_defaults, checked_update, default_thread_defaults,
    new_thread,
};

fn settings() -> ThreadSettings {
    ThreadSettings {
        title: None,
        model: None,
        reasoning_effort: None,
        service_tier_fast: None,
    }
}

#[test]
fn issued_keys_authenticate_their_owner() {
    let issued = issue_api_key("alice", " laptop ").unwrap();
    assert_eq!(issued.label, "laptop");
    assert_eq!(issued.prefix.len(), 10);
    let (user, secret) = parse_api_key(&issued.key).unwrap();
    assert_eq!(user, "alice");
    assert_eq!(hash_secret(&secret), issued.secret_hash);
    assert!(secret.starts_with(&issued.prefix));
    assert_eq!(secret.len(), 32);
    assert!(secret.chars().all(|c| matches!(c, '0'..='9' | 'a'..='f')));
    let header = format!("Bearer {}", issued.key);
    let (user, hash) = api_credentials(Some(&header)).unwrap();
    assert_eq!(user, "alice");
    assert_eq!(hash, issued.secret_hash);
    assert!(issue_api_key("alice", "   ").is_err());
}

#[test]
fn credentials_need_a_well_formed_key() {
    assert_eq!(api_credentials(None).unwrap_err().status, 401);
    assert_eq!(api_credentials(Some("Bearer nope")).unwrap_err().message, "invalid API key");
    assert_eq!(api_credentials(Some("Bearer cyb_../x_secret")).unwrap_err().message, "invalid user id");
    let (user, _) = api_credentials(Some("Bearer cyb_ bob _s")).unwrap();
    assert_eq!(user, "bob");
}

#[test]
fn audit_queries_are_bounded_and_checked() {
    let q = reasoning_audit_query(Some(0), Some(500), Some(" ".to_owned()), None, Some("gpt".to_owned())).unwrap();
    assert_eq!((q.page, q.page_size), (1, 100));
    assert_eq!(q.status, None);
    assert_eq!(q.second, Some("gpt".to_owned()));
    assert_eq!(
        reasoning_audit_query(None, None, Some("queued".to_owned()), None, None).err().unwrap().message,
        "invalid reasoning audit status"
    );
    let q = worker_call_audit_query(None, Some(0), Some("queued".to_owned()), None, None).unwrap();
    assert_eq!((q.page, q.page_size), (1, 1));
    assert_eq!(
        worker_call_audit_query(None, None, Some("cancelled".to_owned()), None, None).err().unwrap().message,
        "invalid Worker call status"
    );
}

#[test]
fn audit_pages_filter_then_slice() {
    let rows: Vec<(String, String, String)> = (0..7)
        .map(|i| {
            (
                if i % 2 == 0 { "completed" } else { "failed" }.to_owned(),
                format!("t{}", i % 3),
                "gpt".to_owned(),
            )
        })
        .collect();
    let q = reasoning_audit_query(Some(2), Some(2), Some("completed".to_owned()), None, None).unwrap();
    let (page, total) = audit_page(&rows, &q);
    assert_eq!(total, 4);
    assert_eq!(page, vec![4, 6]);
    let q = reasoning_audit_query(Some(9), Some(2), None, Some("t0".to_owned()), None).unwrap();
    let (page, total) = audit_page(&rows, &q);
    assert_eq!(total, 3);
    assert!(page.is_empty());
    let q = reasoning_audit_query(Some(usize::MAX), Some(100), None, None, None).unwrap();
    assert!(audit_page(&rows, &q).0.is_empty());
}

#[test]
fn threads_take_settings_over_defaults() {
    let defaults = default_thread_defaults();
    assert_eq!(defaults.model, "gpt-5.6-terra");
    assert_eq!(defaults.reasoning_effort, "medium");
    let thread = new_thread("id-1".to_owned(), settings(), default_thread_defaults(), 50).unwrap();
    assert_eq!(thread.title, "Untitled thread");
    assert_eq!(thread.model, "gpt-5.6-terra");
    assert_eq!(thread.status, "idle");
    assert_eq!((thread.created_at, thread.updated_at), (50, 50));
    let mut s = settings();
    s.title = Some("  Plan ".to_owned());
    s.model = Some(" gpt-x ".to_owned());
    s.reasoning_effort = Some("high".to_owned());
    s.service_tier_fast = Some(true);
    let thread = new_thread("id-2".to_owned(), s, default_thread_defaults(), 1).unwrap();
    assert_eq!((thread.title.as_str(), thread.model.as_str()), ("Plan", "gpt-x"));
    assert_eq!(thread.reasoning_effort, "high");
    assert!(thread.service_tier_fast);
    let mut bad = settings();
    bad.reasoning_effort = Some("extreme".to_owned());
    assert_eq!(
        new_thread("id-3".to_owned(), bad, default_thread_defaults(), 1).err().unwrap().message,
        "invalid reasoning effort"
    );
}

#[test]
fn updates_must_change_something_valid() {
    assert_eq!(checked_update(settings()).err().unwrap().message, "thread update is empty");
    let mut s = settings();
    s.service_tier_fast = Some(false);
    assert!(checked_update(s).is_ok());
    let mut s = settings();
    s.title = Some(String::new());
    assert_eq!(
        checked_update(s).err().unwrap().message,
        "title must contain 1-160 visible characters"
    );
    let saved = checked_defaults(ThreadDefaults {
        model: " m1 ".to_owned(),
        reasoning_effort: "low".to_owned(),
        service_tier_fast: true,
    })
    .unwrap();
    assert_eq!(saved.model, "m1");
    assert!(checked_defaults(ThreadDefaults {
        model: "m1".to_owned(),
        reasoning_effort: "LOW".to_owned(),
        service_tier_fast: true,
    })
    .is_err());
}

/// One administrator check against the `app_meta` table, as the service runs
/// it inside a transaction.
fn admin_user_sync(connection: &rusqlite::Connection, user_id: &str, bootstrap: bool) -> bool {
    let root: Option<String> = connection
        .query_row(
            "SELECT value FROM app_meta WHERE key='root_user_id' AND trim(value) <> ''",
            [],
            |row| row.get(0),
        )
        .ok();
    let (is_admin, store) = admin_decision(root.as_deref(), user_id, bootstrap);
    if store {
        connection
            .execute("INSERT INTO app_meta(key,value) VALUES('root_user_id',?)", [user_id])
            .unwrap();
    }
    is_admin
}

#[test]
fn administrator_root_user_is_bootstrapped_once_in_app_meta() {
    let connection = rusqlite::Connection::open_in_memory().unwrap();
    connection
        .execute_batch("CREATE TABLE app_meta (key TEXT PRIMARY KEY, value TEXT NOT NULL);")
        .unwrap();
    assert!(!admin_user_sync(&connection, "second-user", false));
    assert!(admin_user_sync(&connection, "root-user", true));
    assert!(!admin_user_sync(&connection, "second-user", true));
    assert!(admin_user_sync(&connection, "root-user", false));
    assert_eq!(
        connection
            .query_row("SELECT value FROM app_meta WHERE key='root_user_id'", [], |row| {
                row.get::<_, String>(0)
            })
            .unwrap(),
        "root-user"
    );
}
