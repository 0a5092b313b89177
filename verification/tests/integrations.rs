use cybion::error::ApiError;
use cybion::ids::{hash_secret, name_from_base_url, upstream_key, validate_base_url};
use cybion::integrations::{
    DeliveryReceipt, IntegrationSettings, Upstream, bound_upstream, catalog_view,
    conversation_check, default_integration_settings, delivery_precheck, delivery_record,
    integration_status_view, integrations_ready, linkit_checked, configured,
    notification_body, receipt_check, request_key, test_message, token_invalid, token_matches,
    unique_name, upstream_view,
};
use cybion::inputs::validate_api_key;
use cybion::integrations::{
    ConsumerVerification, NotificationRow, status, accept_bot_grant, accept_consumer_grant, bot_owned,
    bot_rotation_check, consumer_needs_reenable, consumer_needs_rotation, consumer_ready,
    consumer_rotation_check, notification_recipient, verification_check,
};

fn full() -> IntegrationSettings {
    IntegrationSettings {
        openai_consumer_id: "consumer".to_owned(),
        openai_consumer_secret: "secret".to_owned(),
        openai_base_url: "https://openai.ntnl.io/v1".to_owned(),
        linkit_bot_id: "bot".to_owned(),
        linkit_bot_token: "token".to_owned(),
        linkit_username: "alice".to_owned(),
    }
}

#[test]
fn secrets_are_stored_as_sha256_hex() {
    assert_eq!(
        hash_secret("abc"),
        "ba7816bf8f01cfea414140de5dae2223b00361a396177a9cb410ff61f20015ad"
    );
    assert_eq!(hash_secret(""), "e3b0c44298fc1c149afbf4c8996fb92427ae41e4649b934ca495991b7852b855");
    assert_eq!(
        upstream_key("https://api.example/v1//", "k"),
        hash_secret("https://api.example/v1\nk")
    );
    assert_ne!(upstream_key("https://a/v1", "k"), upstream_key("https://a/v1", "j"));
}

#[test]
fn base_urls_are_http_with_a_host() {
    assert_eq!(
        validate_base_url("  https://api.example.com/v1/ ".to_owned()).unwrap(),
        "https://api.example.com/v1"
    );
    assert_eq!(
        validate_base_url("ftp://example.com".to_owned()).unwrap_err().message,
        "base_url must be a valid HTTP or HTTPS URL"
    );
    assert!(validate_base_url("not a url".to_owned()).is_err());
    let long = format!("https://example.com/{}", "a".repeat(2100));
    assert_eq!(
        validate_base_url(long).unwrap_err().message,
        "base_url must contain at most 2048 visible characters"
    );
    assert_eq!(name_from_base_url("https://api.example.com/v1"), "api.example.com");
    assert_eq!(name_from_base_url("garbage"), "default");
    assert_eq!(validate_api_key("  sk-1 ".to_owned()).unwrap(), "sk-1");
    assert!(validate_api_key("a\u{7}".to_owned()).is_err());
}

#[test]
fn status_view_hides_secrets() {
    let view = integration_status_view(&full());
    assert!(view.openai_configured);
    assert_eq!(view.openai_consumer_id, Some("consumer".to_owned()));
    assert!(view.linkit_configured);
    assert_eq!(view.linkit_username, Some("alice".to_owned()));
    let empty = default_integration_settings();
    assert_eq!(empty.openai_base_url, "https://openai.ntnl.io/v1");
    let view = integration_status_view(&empty);
    assert!(!view.openai_configured);
    assert_eq!(view.openai_consumer_id, None);
    assert!(!view.linkit_configured);
    assert!(integrations_ready(&full()));
    assert!(!integrations_ready(&empty));
    assert!(configured(&full()));
}

#[test]
fn notifications_check_bot_recipient_and_receipt() {
    assert_eq!(
        delivery_precheck(&default_integration_settings()).unwrap_err().message,
        "Configure Linkit notifications before sending a test message"
    );
    assert!(delivery_precheck(&full()).is_ok());
    assert_eq!(token_matches(401, "", "bot").unwrap(), false);
    assert_eq!(token_matches(200, "bot", "bot").unwrap(), true);
    assert_eq!(token_matches(200, "other", "bot").unwrap(), false);
    assert_eq!(
        token_matches(500, "bot", "bot").unwrap_err().message,
        "Linkit Bot authentication failed (HTTP 500). Configure or repair notifications and send a test message."
    );
    assert_eq!(token_invalid().status, 503);
    assert!(linkit_checked(204, "send message").is_ok());
    assert!(conversation_check("c1", "direct", Some("user-1"), "user-1").is_ok());
    assert_eq!(
        conversation_check("c1", "direct", Some("user-2"), "user-1").unwrap_err().status,
        403
    );
    assert!(conversation_check("", "direct", Some("user-1"), "user-1").is_err());
    assert!(conversation_check("c1", "group", Some("user-1"), "user-1").is_err());
    let receipt = DeliveryReceipt {
        id: "m1".to_owned(),
        conversation_id: "c1".to_owned(),
        sender_id: "bot".to_owned(),
        sender_kind: "bot".to_owned(),
    };
    assert!(receipt_check(&receipt, "c1", "bot").is_ok());
    assert_eq!(
        receipt_check(&receipt, "c2", "bot").unwrap_err().message,
        "Linkit returned an invalid notification receipt"
    );
    let recorded = delivery_record(&Ok(receipt));
    assert_eq!(recorded, (None, Some("c1".to_owned()), Some("m1".to_owned())));
    let failed = delivery_record(&Err(ApiError::unavailable("down".to_owned())));
    assert_eq!(failed, (Some("down".to_owned()), None, None));
    assert!(test_message().starts_with("Cybion notification test"));
}

#[test]
fn notification_body_bounds_title_and_detail() {
    let body = notification_body("Title", "t-1", true, "All done");
    assert_eq!(
        body,
        "Cybion completed / 已完成 · Title\n\nAll done\n\nhttps://cybion.ntnl.io/#/threads/t-1"
    );
    let long = "x".repeat(3000);
    let body = notification_body(&long, "t-2", false, &long);
    assert!(body.starts_with("Cybion failed / 失败 · "));
    assert!(body.ends_with("\n\nhttps://cybion.ntnl.io/#/threads/t-2"));
    assert!(body.len() < 3000 + 301 + 100);
}

#[test]
fn upstream_views_never_show_keys() {
    let upstream = Upstream {
        id: "u1".to_owned(),
        name: "Main".to_owned(),
        base_url: "https://api.example/v1".to_owned(),
        api_key: "sk".to_owned(),
    };
    let view = upstream_view(&upstream);
    assert!(view.api_key_configured);
    assert_eq!(view.base_url, "https://api.example/v1");
    let catalog = catalog_view(&upstream, Ok(vec!["m1".to_owned()]));
    assert_eq!(catalog.models, vec!["m1".to_owned()]);
    let broken = catalog_view(&upstream, Err(ApiError::unavailable("timeout".to_owned())));
    assert!(broken.models.is_empty());
    assert_eq!(broken.error, Some("timeout".to_owned()));
    assert_eq!(bound_upstream(Some("")), None);
    assert_eq!(bound_upstream(Some("u1")), Some("u1"));
    assert_eq!(unique_name(true).unwrap_err().message, "an upstream with this name already exists");
    assert_eq!(request_key("alice", "t1"), "alice:t1");
}

#[test]
fn grants_are_checked_before_they_are_stored() {
    let mut settings = default_integration_settings();
    settings.openai_base_url = "https://elsewhere/v1".to_owned();
    assert_eq!(
        accept_consumer_grant(&mut settings, "c1".to_owned(), "pk-1".to_owned()).unwrap_err().message,
        "OpenAI-LB returned an invalid Consumer credential"
    );
    assert_eq!(settings.openai_base_url, "https://elsewhere/v1");
    accept_consumer_grant(&mut settings, "c1".to_owned(), "sk-1".to_owned()).unwrap();
    assert_eq!(settings.openai_consumer_id, "c1");
    assert_eq!(settings.openai_base_url, "https://openai.ntnl.io/v1");
    assert!(accept_bot_grant(&mut settings, String::new(), "sk-2".to_owned()).is_err());
    accept_bot_grant(&mut settings, "b1".to_owned(), "sk-2".to_owned()).unwrap();
    assert_eq!((settings.linkit_bot_id.as_str(), settings.linkit_bot_token.as_str()), ("b1", "sk-2"));
    assert_eq!(settings.openai_consumer_secret, "sk-1");
    let v = ConsumerVerification {
        id: "c1".to_owned(),
        credential_matches: false,
        is_disabled: true,
        request_archive: true,
    };
    assert!(verification_check(&v, "c1").is_ok());
    assert!(verification_check(&v, "c2").is_err());
    assert!(consumer_needs_reenable(&v));
    assert!(consumer_needs_rotation(&v));
    assert!(consumer_ready(Some(&v)).is_err());
    assert!(consumer_ready(None).is_err());
    let good = ConsumerVerification {
        id: "c1".to_owned(),
        credential_matches: true,
        is_disabled: false,
        request_archive: true,
    };
    assert!(consumer_ready(Some(&good)).is_ok());
    assert!(consumer_rotation_check("c1", "c1").is_ok());
    assert!(consumer_rotation_check("c9", "c1").is_err());
    let bots = vec![("b1".to_owned(), "u1".to_owned()), ("b2".to_owned(), "u2".to_owned())];
    assert!(bot_owned(&bots, "b2", "u2"));
    assert!(!bot_owned(&bots, "b2", "u1"));
    assert_eq!(bot_rotation_check("b3", "b1").unwrap_err().message, "Linkit rotated a different Bot");
    assert_eq!(notification_recipient("u1", "u1", Some("alice".to_owned())).unwrap(), "alice");
    assert_eq!(notification_recipient("u2", "u1", Some("alice".to_owned())).unwrap_err().status, 403);
    assert_eq!(
        notification_recipient("u1", "u1", Some("  ".to_owned())).unwrap_err().message,
        "Set your Linkit username before enabling notifications"
    );
}

#[test]
fn notification_status_shows_ids_but_no_token() {
    let row = NotificationRow {
        enabled: true,
        last_attempt_at: Some(10),
        last_success_at: None,
        last_error: Some("Linkit send failed".to_owned()),
        conversation_id: Some("c1".to_owned()),
        message_id: None,
    };
    let s = status(&full(), row);
    assert!(s.enabled);
    assert!(s.configured);
    assert_eq!(s.bot_id, Some("bot".to_owned()));
    assert_eq!(s.recipient_username, Some("alice".to_owned()));
    assert_eq!(s.last_attempt_at, Some(10));
    assert_eq!(s.last_error, Some("Linkit send failed".to_owned()));
    assert_eq!(s.conversation_id, Some("c1".to_owned()));
    let mut partial = full();
    partial.linkit_bot_token = String::new();
    partial.linkit_username = String::new();
    let s = status(
        &partial,
        NotificationRow {
            enabled: false,
            last_attempt_at: None,
            last_success_at: None,
            last_error: None,
            conversation_id: None,
            message_id: None,
        },
    );
    assert!(!s.configured);
    assert_eq!(s.bot_id, Some("bot".to_owned()));
    assert_eq!(s.recipient_username, None);
}

#[test]
fn upstreams_differing_only_in_keys_are_shown_alike() {
    let make = |key: &str| Upstream {
        id: "u2".to_owned(),
        name: "Backup".to_owned(),
        base_url: "https://backup.example/v1".to_owned(),
        api_key: key.to_owned(),
    };
    let a = upstream_view(&make("sk-first"));
    let b = upstream_view(&make("sk-second"));
    assert_eq!((a.id.as_str(), a.name.as_str(), a.base_url.as_str(), a.api_key_configured), ("u2", "Backup", "https://backup.example/v1", true));
    assert_eq!((b.id.as_str(), b.name.as_str(), b.base_url.as_str(), b.api_key_configured), ("u2", "Backup", "https://backup.example/v1", true));
    assert!(!upstream_view(&make("")).api_key_configured);
}
