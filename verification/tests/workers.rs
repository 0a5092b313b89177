use cybion::ids::{boot_header, record_id, thread_id, upstream_id};
use cybion::threads::{ThreadSettings, create_thread, default_thread_defaults};
use cybion::requests::next_retry;
use cybion::inputs::{code, hex_secret, semver, supports_checks};
use cybion::json::Json;
use cybion::workers::{
    CallPoll, Registration, allow_report, approve_plan, attempts, cancel_outcome, check_running,
    check_status, diagnostic_size, enqueue_check, liveness_report_is_current, lookup_owner,
    lost_call_kind, new_pairing_code, pairing_expiry, pairing_status, poll_check,
    poll_worker_call, rate_limit, register_plan, upgrade_decision, upgrade_report_status,
    upgrade_status, worker_call_timed_out, worker_result_plan,
};

const BOOT: &str = "4b9aa3ae-f5a3-483b-975a-3fdcd148d680";
const OTHER: &str = "0e6f6a4c-8f0b-4c8e-9d53-2a3c1b9e7d11";

#[test]
fn code_and_version_validation() {
    assert_eq!(code(" abcd 1234-ef56 ").unwrap(), "ABCD-1234-EF56");
    assert!(code("../../secret").is_err());
    assert!(hex_secret("abcd").is_err());
    assert!(!supports_checks("0.1.3"));
    assert!(supports_checks("0.1.4"));
    assert!(supports_checks("0.2.0"));
    assert!(!supports_checks("garbage"));
}

#[test]
fn versions_parse_with_any_leading_v() {
    assert_eq!(semver("v0.2.0"), Some((0, 2, 0)));
    assert_eq!(semver("vv1.2.3"), Some((1, 2, 3)));
    assert_eq!(semver("1.2"), None);
    assert_eq!(semver("1.2.x"), None);
    assert_eq!(semver("+1.2.3"), Some((1, 2, 3)));
}

#[test]
fn ids_are_canonical_uuids() {
    assert_eq!(
        thread_id("4B9AA3AEF5A3483B975A3FDCD148D680").unwrap(),
        BOOT
    );
    assert_eq!(thread_id("nope").unwrap_err().message, "thread not found");
    assert_eq!(record_id("nope").unwrap_err().status, 404);
    assert_eq!(upstream_id("nope").unwrap_err().message, "upstream not found");
}

#[test]
fn created_threads_get_fresh_ids_and_the_current_time() {
    let settings = || ThreadSettings {
        title: Some(" Plan ".to_owned()),
        model: None,
        reasoning_effort: None,
        service_tier_fast: None,
    };
    let a = create_thread(settings(), default_thread_defaults()).unwrap();
    let b = create_thread(settings(), default_thread_defaults()).unwrap();
    assert_eq!(a.id.len(), 36);
    assert_ne!(a.id, b.id);
    assert_eq!(thread_id(&a.id).unwrap(), a.id);
    assert_eq!(a.title, "Plan");
    assert_eq!(a.model, "gpt-5.6-terra");
    assert_eq!(a.status, "idle");
    assert!(a.created_at > 1_600_000_000);
    assert_eq!(a.created_at, a.updated_at);
    let bad = ThreadSettings {
        title: None,
        model: Some("bad model".to_owned()),
        reasoning_effort: None,
        service_tier_fast: None,
    };
    assert_eq!(create_thread(bad, default_thread_defaults()).unwrap_err().status, 400);
}

#[test]
fn a_fresh_retry_counts_the_failure_and_waits_from_now() {
    let first = next_retry(0, None);
    assert_eq!(first.failures, 1);
    assert!(first.retry);
    assert!(first.next_retry_at > 1_600_000_000);
    let last = next_retry(4, Some(2500));
    assert_eq!(last.failures, 5);
    assert!(!last.retry);
}

#[test]
fn boot_ids_must_be_uuids_when_present() {
    assert_eq!(boot_header(None).unwrap(), None);
    assert_eq!(boot_header(Some("")).unwrap(), None);
    assert_eq!(boot_header(Some(BOOT)).unwrap(), Some(BOOT.to_owned()));
    assert_eq!(
        boot_header(Some("not-a-uuid")).unwrap_err().message,
        "invalid Worker boot ID"
    );
}

#[test]
fn reports_from_obsolete_processes_are_rejected() {
    assert!(allow_report(None, None).is_ok());
    assert!(allow_report(Some(BOOT), Some(BOOT)).is_ok());
    let error = allow_report(Some(BOOT), Some(OTHER)).unwrap_err();
    assert_eq!(error.status, 409);
    assert_eq!(error.message, "report from an obsolete Worker process");
    assert!(allow_report(Some(BOOT), None).is_err());
    assert_eq!(liveness_report_is_current(Some(BOOT), None).unwrap(), false);
    assert_eq!(liveness_report_is_current(Some(BOOT), Some(BOOT)).unwrap(), true);
    assert!(liveness_report_is_current(Some(BOOT), Some(OTHER)).is_err());
    assert_eq!(liveness_report_is_current(None, None).unwrap(), true);
}

#[test]
fn registration_distinguishes_legacy_resumed_and_restarted() {
    assert_eq!(register_plan(None, None, Some("0.1.9")).unwrap(), Registration::Legacy);
    assert_eq!(
        register_plan(Some(BOOT), None, None).unwrap_err().message,
        "install Worker 0.2.0 or newer"
    );
    assert_eq!(register_plan(Some(BOOT), Some(BOOT), Some("0.2.0")).unwrap(), Registration::Resumed);
    assert_eq!(register_plan(Some(BOOT), Some(OTHER), None).unwrap(), Registration::Restarted);
    assert_eq!(register_plan(None, Some(OTHER), None).unwrap(), Registration::Restarted);
    let error = register_plan(Some(BOOT), Some(BOOT), Some("latest")).unwrap_err();
    assert_eq!(error.status, 400);
    assert_eq!(error.message, "invalid Worker version");
    assert_eq!(lost_call_kind(Some(false)), "tool_output");
    assert_eq!(lost_call_kind(Some(true)), "activity");
    assert_eq!(lost_call_kind(None), "activity");
}

#[test]
fn upgrades_need_an_online_capable_outdated_worker() {
    let now = 1_000_000;
    assert_eq!(
        upgrade_decision(Some("0.2.0"), None, None, Some(now), now, "v0.3.0").unwrap_err().message,
        "Install Worker 0.2.0 manually once before using remote upgrades"
    );
    assert_eq!(
        upgrade_decision(Some("0.2.0"), Some(BOOT), None, Some(now - 46), now, "v0.3.0")
            .unwrap_err()
            .message,
        "Worker must be online to request an upgrade"
    );
    assert_eq!(
        upgrade_decision(None, Some(BOOT), None, Some(now), now, "v0.3.0").unwrap_err().message,
        "Worker has not reported a valid version"
    );
    assert_eq!(
        upgrade_decision(Some("0.3.0"), Some(BOOT), None, Some(now), now, "v0.3.0")
            .unwrap_err()
            .message,
        "Worker is already at or above the recommended version"
    );
    assert_eq!(
        upgrade_decision(Some("0.2.0"), Some(BOOT), Some("queued"), Some(now - 45), now, "v0.3.0").unwrap(),
        false
    );
    assert_eq!(
        upgrade_decision(Some("0.2.0"), Some(BOOT), Some("failed"), Some(now), now, "v0.3.0").unwrap(),
        true
    );
    assert_eq!(upgrade_status(None), "queued");
    assert_eq!(upgrade_status(Some("installing".to_owned())), "installing");
    assert!(upgrade_report_status("installing").is_ok());
    assert_eq!(upgrade_report_status("completed").unwrap_err().message, "invalid upgrade status");
}

#[test]
fn pairings_expire_unless_approved() {
    assert_eq!(pairing_status("pending".to_owned(), 100, 100), "expired");
    assert_eq!(pairing_status("approved".to_owned(), 100, 200), "approved");
    assert_eq!(pairing_status("pending".to_owned(), 101, 100), "pending");
    assert_eq!(pairing_expiry(1_000), 1_600);
    let code = new_pairing_code().unwrap();
    assert_eq!(code.len(), 14);
    assert_eq!(code.matches('-').count(), 2);
    assert!(code
        .chars()
        .enumerate()
        .all(|(i, c)| if i == 4 || i == 9 { c == '-' } else { matches!(c, '0'..='9' | 'A'..='F') }));
    assert_ne!(new_pairing_code().unwrap(), code);
}

#[test]
fn approval_ownership_and_state_are_enforced() {
    assert_eq!(lookup_owner(Some("other"), "me").unwrap_err().status, 404);
    assert!(lookup_owner(None, "me").is_ok());
    assert_eq!(
        approve_plan("pending", Some("other"), "me").unwrap_err().message,
        "Pairing belongs to another account"
    );
    assert_eq!(
        approve_plan("expired", None, "me").unwrap_err().message,
        "Pairing expired or cancelled; restart the Worker"
    );
    assert_eq!(approve_plan("pending", None, "me").unwrap(), true);
    assert_eq!(approve_plan("approving", Some("me"), "me").unwrap(), true);
    assert_eq!(approve_plan("approved", Some("me"), "me").unwrap(), false);
    assert_eq!(cancel_outcome(0).unwrap_err().status, 409);
    assert!(cancel_outcome(1).is_ok());
}

#[test]
fn polling_and_attempts_are_throttled() {
    assert_eq!(poll_check(100, 0, 100).unwrap_err().status, 410);
    assert_eq!(poll_check(200, 99, 100).unwrap_err().status, 429);
    assert!(poll_check(200, 98, 100).is_ok());
    assert_eq!(attempts(None, 7), 1);
    assert_eq!(attempts(Some((7, 3)), 7), 4);
    assert_eq!(attempts(Some((6, 30)), 7), 1);
    assert!(rate_limit(120, 120).is_ok());
    let error = rate_limit(121, 120).unwrap_err();
    assert_eq!(error.status, 429);
    assert_eq!(error.message, "Too many pairing attempts; retry in one minute");
}

#[test]
fn checks_time_out_after_thirty_seconds() {
    assert_eq!(check_status(Some(5), 0, None, 100), "completed");
    assert_eq!(check_status(None, 0, Some(1), 30), "timed_out");
    assert_eq!(check_status(None, 0, Some(1), 29), "delivered");
    assert_eq!(check_status(None, 0, None, 29), "queued");
    assert!(check_running(0, 29));
    assert!(!check_running(0, 30));
    assert!(diagnostic_size(16_384).is_ok());
    assert_eq!(diagnostic_size(16_385).unwrap_err().message, "diagnostic result too large");
}

#[test]
fn calls_go_only_to_online_workers_of_current_requests() {
    let now = 1_000;
    assert!(enqueue_check(true, Some(("online", Some(now))), now).unwrap_err().is_cancelled());
    assert_eq!(enqueue_check(false, None, now).unwrap_err().status, 404);
    assert_eq!(
        enqueue_check(false, Some(("offline", Some(now))), now).unwrap_err().message,
        "selected Worker is offline"
    );
    assert!(enqueue_check(false, Some(("online", Some(now - 46))), now).is_err());
    assert!(enqueue_check(false, Some(("online", Some(now - 45))), now).is_ok());
}

#[test]
fn worker_calls_settle_by_status() {
    match poll_worker_call("completed", Some(Json::Int(1)), Some(9), None) {
        CallPoll::Done(Json::Int(1), Some(9)) => {}
        _ => panic!("expected a result"),
    }
    match poll_worker_call("completed", None, None, None) {
        CallPoll::Failed(e) => assert_eq!(e.message, "Worker returned invalid output"),
        _ => panic!("expected a failure"),
    }
    match poll_worker_call("failed", None, None, Some("disk full".to_owned())) {
        CallPoll::Failed(e) => assert_eq!(e.message, "disk full"),
        _ => panic!("expected a failure"),
    }
    match poll_worker_call("failed", None, None, None) {
        CallPoll::Failed(e) => assert_eq!(e.message, "Worker tool call failed"),
        _ => panic!("expected a failure"),
    }
    assert!(matches!(poll_worker_call("delivered", None, None, None), CallPoll::Wait));
    assert_eq!(worker_call_timed_out().message, "Worker tool call timed out");
}

#[test]
fn worker_results_are_stored_once_with_their_call() {
    let plan = worker_result_plan(true, None, "{\"x\":1}", "delivered", "", "call-1", Some(false));
    assert_eq!(plan.status, "failed");
    assert_eq!(plan.error, Some("{\"x\":1}".to_owned()));
    assert_eq!(plan.call_id, "call-1");
    assert!(plan.accepted);
    assert_eq!(plan.kind, "tool_output");
    let late = worker_result_plan(false, None, "{}", "failed", "resp-1", "call-1", Some(true));
    assert_eq!(late.status, "completed");
    assert_eq!(late.error, None);
    assert_eq!(late.call_id, "resp-1");
    assert!(!late.accepted);
    assert_eq!(late.kind, "activity");
}

#[test]
fn normalized_pairing_codes_normalize_to_themselves() {
    for typed in [" ab12-cd34 ef56 ", "AB12CD34EF56", "0a-1b-2c-3d-4e-5f"] {
        let c = code(typed).unwrap();
        assert_eq!(code(&c).unwrap(), c);
        assert_eq!(c.len(), 14);
    }
    assert_eq!(code("ab12-cd34-ef5").unwrap_err().status, 400);
}

#[test]
fn pairing_codes_typed_with_ligatures_normalize_once() {
    let c = code("abcd-\u{fb00}01-2345").unwrap();
    assert_eq!(c, "ABCD-FF01-2345");
    assert_eq!(code(&c).unwrap(), c);
}
