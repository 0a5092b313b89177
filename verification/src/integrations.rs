//! The integration settings of a user (OpenAI consumer, Linkit bot), what the
//! browser is shown of them, the checks that guard a Linkit notification and
//! the views of configured upstreams.
use vstd::prelude::*;
use crate::error::{ApiError, ordinary};
use crate::protocol::{truncate, truncation_point};
use crate::text::{
    chars_of, decimal, decimal_chars, extend_chars, extend_str, str_equals, string_of,
    string_of_range, trim, trimmed_chars,
};

verus! {

pub struct IntegrationSettings {
    pub openai_consumer_id: String,
    pub openai_consumer_secret: String,
    pub openai_base_url: String,
    pub linkit_bot_id: String,
    pub linkit_bot_token: String,
    pub linkit_username: String,
}

/// The settings of a user who configured nothing yet.
pub fn default_integration_settings() -> (s: IntegrationSettings)
    ensures
        s.openai_consumer_id@.len() == 0,
        s.openai_consumer_secret@.len() == 0,
        s.openai_base_url@ == "https://openai.ntnl.io/v1"@,
        s.linkit_bot_id@.len() == 0,
        s.linkit_bot_token@.len() == 0,
        s.linkit_username@.len() == 0,
{
    IntegrationSettings {
        openai_consumer_id: String::new(),
        openai_consumer_secret: String::new(),
        openai_base_url: "https://openai.ntnl.io/v1".to_owned(),
        linkit_bot_id: String::new(),
        linkit_bot_token: String::new(),
        linkit_username: String::new(),
    }
}

/// What the browser is shown of the integrations; secrets never appear.
pub struct IntegrationStatusView {
    pub openai_configured: bool,
    pub openai_consumer_id: Option<String>,
    pub openai_base_url: String,
    pub linkit_configured: bool,
    pub linkit_bot_id: Option<String>,
    pub linkit_username: Option<String>,
}

/// A value when it is not empty.
pub open spec fn non_empty(s: Seq<char>) -> Option<Seq<char>> {
    if s.len() > 0 {
        Some(s)
    } else {
        None
    }
}

pub open spec fn opt_view(o: Option<String>) -> Option<Seq<char>> {
    match o {
        Some(s) => Some(s@),
        None => None,
    }
}

fn non_empty_copy(s: &String) -> (r: Option<String>)
    ensures
        opt_view(r) == non_empty(s@),
{
    if s.as_str().unicode_len() > 0 {
        Some(s.clone())
    } else {
        None
    }
}

pub fn integration_status_view(settings: &IntegrationSettings) -> (v: IntegrationStatusView)
    ensures
        v.openai_configured == (settings.openai_consumer_secret@.len() > 0),
        opt_view(v.openai_consumer_id) == non_empty(settings.openai_consumer_id@),
        v.openai_base_url@ == settings.openai_base_url@,
        v.linkit_configured == (settings.linkit_bot_token@.len() > 0
            && settings.linkit_username@.len() > 0),
        opt_view(v.linkit_bot_id) == non_empty(settings.linkit_bot_id@),
        opt_view(v.linkit_username) == non_empty(settings.linkit_username@),
{
    IntegrationStatusView {
        openai_configured: settings.openai_consumer_secret.as_str().unicode_len() > 0,
        openai_consumer_id: non_empty_copy(&settings.openai_consumer_id),
        openai_base_url: settings.openai_base_url.clone(),
        linkit_configured: settings.linkit_bot_token.as_str().unicode_len() > 0
            && settings.linkit_username.as_str().unicode_len() > 0,
        linkit_bot_id: non_empty_copy(&settings.linkit_bot_id),
        linkit_username: non_empty_copy(&settings.linkit_username),
    }
}

/// Every credential the service needs is present.
pub open spec fn ready_spec(s: IntegrationSettings) -> bool {
    s.openai_consumer_secret@.len() > 0 && s.openai_base_url@.len() > 0 && s.linkit_bot_id@.len()
        > 0 && s.linkit_bot_token@.len() > 0 && s.linkit_username@.len() > 0
}

pub fn integrations_ready(settings: &IntegrationSettings) -> (r: bool)
    ensures
        r == ready_spec(*settings),
{
    settings.openai_consumer_secret.as_str().unicode_len() > 0
        && settings.openai_base_url.as_str().unicode_len() > 0
        && settings.linkit_bot_id.as_str().unicode_len() > 0
        && settings.linkit_bot_token.as_str().unicode_len() > 0
        && settings.linkit_username.as_str().unicode_len() > 0
}

/// Linkit notifications have a bot, its token and a recipient.
pub open spec fn linkit_configured_spec(s: IntegrationSettings) -> bool {
    s.linkit_bot_id@.len() > 0 && s.linkit_bot_token@.len() > 0 && s.linkit_username@.len() > 0
}

pub fn configured(settings: &IntegrationSettings) -> (r: bool)
    ensures
        r == linkit_configured_spec(*settings),
{
    settings.linkit_bot_id.as_str().unicode_len() > 0
        && settings.linkit_bot_token.as_str().unicode_len() > 0
        && settings.linkit_username.as_str().unicode_len() > 0
}

/// The stored notification state of a user.
pub struct NotificationRow {
    pub enabled: bool,
    pub last_attempt_at: Option<i64>,
    pub last_success_at: Option<i64>,
    pub last_error: Option<String>,
    pub conversation_id: Option<String>,
    pub message_id: Option<String>,
}

/// What the browser is shown of the notification settings: never the bot
/// token.
pub struct NotificationStatus {
    pub enabled: bool,
    pub configured: bool,
    pub bot_id: Option<String>,
    pub recipient_username: Option<String>,
    pub last_attempt_at: Option<i64>,
    pub last_success_at: Option<i64>,
    pub last_error: Option<String>,
    pub conversation_id: Option<String>,
    pub message_id: Option<String>,
}

pub fn status(settings: &IntegrationSettings, row: NotificationRow) -> (s: NotificationStatus)
    ensures
        s.enabled == row.enabled,
        s.configured == linkit_configured_spec(*settings),
        opt_view(s.bot_id) == non_empty(settings.linkit_bot_id@),
        opt_view(s.recipient_username) == non_empty(settings.linkit_username@),
        s.last_attempt_at == row.last_attempt_at,
        s.last_success_at == row.last_success_at,
        s.last_error == row.last_error,
        s.conversation_id == row.conversation_id,
        s.message_id == row.message_id,
{
    NotificationStatus {
        enabled: row.enabled,
        configured: configured(settings),
        bot_id: non_empty_copy(&settings.linkit_bot_id),
        recipient_username: non_empty_copy(&settings.linkit_username),
        last_attempt_at: row.last_attempt_at,
        last_success_at: row.last_success_at,
        last_error: row.last_error,
        conversation_id: row.conversation_id,
        message_id: row.message_id,
    }
}

/// A notification is only attempted with complete Linkit settings.
pub fn delivery_precheck(settings: &IntegrationSettings) -> (r: Result<(), ApiError>)
    ensures
        r is Ok <==> linkit_configured_spec(*settings),
        r matches Err(e) ==> ordinary(
            e,
            409,
            "Configure Linkit notifications before sending a test message"@,
        ),
{
    if !configured(settings) {
        return Err(
            ApiError::conflict(
                "Configure Linkit notifications before sending a test message".to_owned(),
            ),
        );
    }
    Ok(())
}

pub open spec fn linkit_failure_message(operation: Seq<char>, status: u16) -> Seq<char> {
    "Linkit "@ + operation + " failed (HTTP "@ + decimal(status as nat)
        + "). Configure or repair notifications and send a test message."@
}

/// A Linkit answer must have a success (2xx) status.
pub fn linkit_checked(status: u16, operation: &str) -> (r: Result<(), ApiError>)
    ensures
        r is Ok <==> (200 <= status <= 299),
        r matches Err(e) ==> ordinary(e, 503, linkit_failure_message(operation@, status)),
{
    if 200 <= status && status <= 299 {
        return Ok(());
    }
    let mut v = chars_of("Linkit ");
    extend_str(&mut v, operation);
    extend_str(&mut v, " failed (HTTP ");
    extend_chars(&mut v, decimal_chars(status as usize).as_slice());
    extend_str(&mut v, "). Configure or repair notifications and send a test message.");
    Err(ApiError::unavailable(string_of(v.as_slice())))
}

/// Whether the stored bot token still belongs to the stored bot, from the
/// answer to `GET /api/me`: a rejected token does not, a failure is an
/// error, otherwise the identity must be the bot's.
pub fn token_matches(status: u16, identity_id: &str, bot_id: &str) -> (r: Result<bool, ApiError>)
    ensures
        status == 401 ==> r == Ok::<bool, ApiError>(false),
        status != 401 && 200 <= status <= 299 ==> r == Ok::<bool, ApiError>(identity_id@ == bot_id@),
        status != 401 && !(200 <= status <= 299) ==> (r matches Err(e) && ordinary(
            e,
            503,
            linkit_failure_message("Bot authentication"@, status),
        )),
{
    if status == 401 {
        return Ok(false);
    }
    linkit_checked(status, "Bot authentication")?;
    Ok(str_equals(identity_id, bot_id))
}

pub fn token_invalid() -> (e: ApiError)
    ensures
        ordinary(e, 503, "Linkit Bot token is invalid; configure or repair notifications"@),
{
    ApiError::unavailable("Linkit Bot token is invalid; configure or repair notifications".to_owned())
}

/// Thread content is disclosed only in the direct conversation with the
/// user's own account.
pub fn conversation_check(id: &str, kind: &str, counterpart: Option<&str>, user_id: &str) -> (r:
    Result<(), ApiError>)
    ensures
        r is Ok <==> (id@.len() > 0 && kind@ == "direct"@ && (counterpart matches Some(c) && c@
            == user_id@)),
        r matches Err(e) ==> ordinary(
            e,
            403,
            "Linkit notification recipient changed; repair notifications before sending"@,
        ),
{
    let own = match counterpart {
        Some(c) => str_equals(c, user_id),
        None => false,
    };
    if id.unicode_len() == 0 || !str_equals(kind, "direct") || !own {
        return Err(
            ApiError::forbidden(
                "Linkit notification recipient changed; repair notifications before sending".to_owned(),
            ),
        );
    }
    Ok(())
}

pub struct DeliveryReceipt {
    pub id: String,
    pub conversation_id: String,
    pub sender_id: String,
    pub sender_kind: String,
}

/// A receipt counts only for a message the bot posted in that conversation.
pub open spec fn receipt_valid(r: DeliveryReceipt, conversation_id: Seq<char>, bot_id: Seq<char>) -> bool {
    r.id@.len() > 0 && r.conversation_id@ == conversation_id && r.sender_id@ == bot_id
        && r.sender_kind@ == "bot"@
}

pub fn receipt_check(receipt: &DeliveryReceipt, conversation_id: &str, bot_id: &str) -> (r: Result<
    (),
    ApiError,
>)
    ensures
        r is Ok <==> receipt_valid(*receipt, conversation_id@, bot_id@),
        r matches Err(e) ==> ordinary(e, 503, "Linkit returned an invalid notification receipt"@),
{
    if receipt.id.as_str().unicode_len() == 0 || !str_equals(
        receipt.conversation_id.as_str(),
        conversation_id,
    ) || !str_equals(receipt.sender_id.as_str(), bot_id) || !str_equals(
        receipt.sender_kind.as_str(),
        "bot",
    ) {
        return Err(ApiError::unavailable("Linkit returned an invalid notification receipt".to_owned()));
    }
    Ok(())
}

/// What a delivery attempt records: the error, or the conversation and
/// message of the receipt.
pub fn delivery_record(result: &Result<DeliveryReceipt, ApiError>) -> (r: (
    Option<String>,
    Option<String>,
    Option<String>,
))
    ensures
        (match result {
            Ok(receipt) => r.0 is None && opt_view(r.1) == Some(receipt.conversation_id@) && opt_view(
                r.2,
            ) == Some(receipt.id@),
            Err(e) => opt_view(r.0) == Some(e.message@) && r.1 is None && r.2 is None,
        }),
{
    match result {
        Ok(receipt) => (None, Some(receipt.conversation_id.clone()), Some(receipt.id.clone())),
        Err(e) => (Some(e.message.clone()), None, None),
    }
}

/// The text of the test message.
pub fn test_message() -> (r: String)
    ensures
        r@ == "Cybion notification test / 通知测试\n\nThis verifies delivery to your Linkit conversation, not device push or read status.\n这条消息用于验证 Linkit 会话投递，不代表设备推送或已读。"@,
{
    "Cybion notification test / 通知测试\n\nThis verifies delivery to your Linkit conversation, not device push or read status.\n这条消息用于验证 Linkit 会话投递，不代表设备推送或已读。".to_owned()
}

pub open spec fn outcome_text(completed: bool) -> Seq<char> {
    if completed {
        "completed / 已完成"@
    } else {
        "failed / 失败"@
    }
}

/// The notification of a finished thread: its outcome, its title (cut after
/// 300 bytes), the detail (cut after 2500 bytes) and the link to the thread.
pub open spec fn notification_body_spec(
    title_cut: Seq<char>,
    detail_cut: Seq<char>,
    thread_id: Seq<char>,
    completed: bool,
) -> Seq<char> {
    "Cybion "@ + outcome_text(completed) + " · "@ + title_cut + "\n\n"@ + detail_cut
        + "\n\nhttps://cybion.ntnl.io/#/threads/"@ + thread_id
}

pub fn notification_body(title: &str, thread_id: &str, completed: bool, detail: &str) -> (r: String)
    ensures
        exists|a: int, b: int|
            truncation_point(title@, 300, a) && truncation_point(detail@, 2500, b) && r@
                == notification_body_spec(title@.take(a), detail@.take(b), thread_id@, completed),
{
    let t = truncate(title, 300);
    let d = truncate(detail, 2500);
    let mut v = chars_of("Cybion ");
    if completed {
        extend_str(&mut v, "completed / 已完成");
    } else {
        extend_str(&mut v, "failed / 失败");
    }
    extend_str(&mut v, " · ");
    extend_str(&mut v, t.as_str());
    extend_str(&mut v, "\n\n");
    extend_str(&mut v, d.as_str());
    extend_str(&mut v, "\n\nhttps://cybion.ntnl.io/#/threads/");
    extend_str(&mut v, thread_id);
    proof {
        let a = choose|m: int| truncation_point(title@, 300, m) && t@ == title@.take(m);
        let b = choose|m: int| truncation_point(detail@, 2500, m) && d@ == detail@.take(m);
        reveal_strlit("completed / 已完成");
        reveal_strlit("failed / 失败");
        assert(v@ =~= notification_body_spec(title@.take(a), detail@.take(b), thread_id@, completed));
    }
    string_of(v.as_slice())
}

/// One configured Responses-compatible endpoint.
pub struct Upstream {
    pub id: String,
    pub name: String,
    pub base_url: String,
    pub api_key: String,
}

/// What the browser is shown of an upstream: never its key.
pub struct UpstreamView {
    pub id: String,
    pub name: String,
    pub base_url: String,
    pub api_key_configured: bool,
}

/// The fields of the view of `u`: its id, name and base URL, and whether a
/// key is configured.
pub open spec fn shown(u: Upstream) -> (Seq<char>, Seq<char>, Seq<char>, bool) {
    (u.id@, u.name@, u.base_url@, u.api_key@.len() > 0)
}

pub fn upstream_view(upstream: &Upstream) -> (v: UpstreamView)
    ensures
        (v.id@, v.name@, v.base_url@, v.api_key_configured) == shown(*upstream),
{
    UpstreamView {
        id: upstream.id.clone(),
        name: upstream.name.clone(),
        base_url: upstream.base_url.clone(),
        api_key_configured: upstream.api_key.as_str().unicode_len() > 0,
    }
}

/// The key never leaves the server: two upstreams that differ only in their
/// keys, both configured or both empty, are shown alike.
pub proof fn lemma_view_hides_key(a: Upstream, b: Upstream)
    requires
        a.id@ == b.id@,
        a.name@ == b.name@,
        a.base_url@ == b.base_url@,
        (a.api_key@.len() > 0) == (b.api_key@.len() > 0),
    ensures
        shown(a) == shown(b),
{
}

/// The model catalog of one upstream; a failing upstream shows its error
/// and no models, without affecting the others.
pub struct UpstreamCatalogView {
    pub id: String,
    pub name: String,
    pub models: Vec<String>,
    pub error: Option<String>,
}

pub fn catalog_view(upstream: &Upstream, fetched: Result<Vec<String>, ApiError>) -> (v:
    UpstreamCatalogView)
    ensures
        v.id@ == upstream.id@,
        v.name@ == upstream.name@,
        (match fetched {
            Ok(models) => v.models@ == models@ && v.error is None,
            Err(e) => v.models@.len() == 0 && opt_view(v.error) == Some(e.message@),
        }),
{
    match fetched {
        Ok(models) => UpstreamCatalogView {
            id: upstream.id.clone(),
            name: upstream.name.clone(),
            models,
            error: None,
        },
        Err(e) => UpstreamCatalogView {
            id: upstream.id.clone(),
            name: upstream.name.clone(),
            models: Vec::new(),
            error: Some(e.message),
        },
    }
}

/// The upstream a thread is bound to; an empty id binds none.
pub fn bound_upstream(id: Option<&str>) -> (r: Option<&str>)
    ensures
        (match id {
            Some(s) => if s@.len() > 0 {
                r == Some(s)
            } else {
                r is None
            },
            None => r is None,
        }),
{
    match id {
        Some(s) => if s.unicode_len() > 0 {
            Some(s)
        } else {
            None
        },
        None => None,
    }
}

/// Upstream names are unique per user.
pub fn unique_name(taken: bool) -> (r: Result<(), ApiError>)
    ensures
        r is Ok <==> !taken,
        r matches Err(e) ==> ordinary(e, 409, "an upstream with this name already exists"@),
{
    if taken {
        return Err(ApiError::conflict("an upstream with this name already exists".to_owned()));
    }
    Ok(())
}

/// The key under which the running request of a user's thread is tracked.
pub fn request_key(user_id: &str, thread_id: &str) -> (r: String)
    ensures
        r@ == user_id@ + ":"@ + thread_id@,
{
    let mut v = chars_of(user_id);
    extend_str(&mut v, ":");
    extend_str(&mut v, thread_id);
    string_of(v.as_slice())
}

/// A credential as the services issue them: `sk-` followed by the secret.
pub open spec fn secret_shaped(s: Seq<char>) -> bool {
    s.len() >= 3 && s.take(3) == "sk-"@
}

fn starts_with_sk(s: &str) -> (r: bool)
    ensures
        r == secret_shaped(s@),
{
    let c = chars_of(s);
    if c.len() < 3 {
        return false;
    }
    let head = string_of_range(c.as_slice(), 0, 3);
    proof {
        assert(c@.subrange(0, 3) =~= s@.take(3));
    }
    str_equals(head.as_str(), "sk-")
}

/// What OpenAI-LB reports of a Consumer when its credential is verified.
pub struct ConsumerVerification {
    pub id: String,
    pub credential_matches: bool,
    pub is_disabled: bool,
    pub request_archive: bool,
}

/// A verification must be about the stored Consumer.
pub fn verification_check(v: &ConsumerVerification, consumer_id: &str) -> (r: Result<(), ApiError>)
    ensures
        r is Ok <==> v.id@ == consumer_id@,
        r matches Err(e) ==> ordinary(
            e,
            503,
            "OpenAI-LB returned a different Consumer during credential verification"@,
        ),
{
    if !str_equals(v.id.as_str(), consumer_id) {
        return Err(
            ApiError::unavailable(
                "OpenAI-LB returned a different Consumer during credential verification".to_owned(),
            ),
        );
    }
    Ok(())
}

/// A disabled Consumer, or one that does not archive requests, is
/// re-enabled with archiving.
pub fn consumer_needs_reenable(v: &ConsumerVerification) -> (r: bool)
    ensures
        r == (v.is_disabled || !v.request_archive),
{
    v.is_disabled || !v.request_archive
}

/// A Consumer whose stored secret no longer matches gets a rotated one.
pub fn consumer_needs_rotation(v: &ConsumerVerification) -> (r: bool)
    ensures
        r == !v.credential_matches,
{
    !v.credential_matches
}

/// A rotation must answer for the stored Consumer.
pub fn consumer_rotation_check(grant_id: &str, consumer_id: &str) -> (r: Result<(), ApiError>)
    ensures
        r is Ok <==> grant_id@ == consumer_id@,
        r matches Err(e) ==> ordinary(
            e,
            503,
            "OpenAI-LB returned a different Consumer during credential rotation"@,
        ),
{
    if !str_equals(grant_id, consumer_id) {
        return Err(
            ApiError::unavailable(
                "OpenAI-LB returned a different Consumer during credential rotation".to_owned(),
            ),
        );
    }
    Ok(())
}

/// Stores a Consumer credential from OpenAI-LB: it must name a Consumer and
/// a secret key; the base URL becomes the service's own. Nothing changes
/// when the grant is refused.
pub fn accept_consumer_grant(settings: &mut IntegrationSettings, id: String, secret: String) -> (r:
    Result<(), ApiError>)
    ensures
        r is Ok <==> (id@.len() > 0 && secret_shaped(secret@)),
        r matches Err(e) ==> ordinary(e, 503, "OpenAI-LB returned an invalid Consumer credential"@),
        r is Ok ==> final(settings).openai_consumer_id@ == id@
            && final(settings).openai_consumer_secret@ == secret@
            && final(settings).openai_base_url@ == "https://openai.ntnl.io/v1"@
            && final(settings).linkit_bot_id@ == old(settings).linkit_bot_id@
            && final(settings).linkit_bot_token@ == old(settings).linkit_bot_token@
            && final(settings).linkit_username@ == old(settings).linkit_username@,
        r is Err ==> *final(settings) == *old(settings),
{
    if id.as_str().unicode_len() == 0 || !starts_with_sk(secret.as_str()) {
        return Err(ApiError::unavailable("OpenAI-LB returned an invalid Consumer credential".to_owned()));
    }
    settings.openai_consumer_id = id;
    settings.openai_consumer_secret = secret;
    settings.openai_base_url = "https://openai.ntnl.io/v1".to_owned();
    Ok(())
}

/// After a refresh the Consumer must be verified, matching, enabled and
/// archiving.
pub fn consumer_ready(v: Option<&ConsumerVerification>) -> (r: Result<(), ApiError>)
    ensures
        r is Ok <==> (v matches Some(c) && c.credential_matches && !c.is_disabled
            && c.request_archive),
        r matches Err(e) ==> ordinary(
            e,
            503,
            "OpenAI-LB Consumer changed during refresh; refresh integrations again before retrying the Thread"@,
        ),
{
    let ok = match v {
        Some(c) => c.credential_matches && !c.is_disabled && c.request_archive,
        None => false,
    };
    if !ok {
        return Err(
            ApiError::unavailable(
                "OpenAI-LB Consumer changed during refresh; refresh integrations again before retrying the Thread".to_owned(),
            ),
        );
    }
    Ok(())
}

/// Stores a Bot credential from Linkit: it must name a Bot and a secret
/// token. Nothing changes when the grant is refused.
pub fn accept_bot_grant(settings: &mut IntegrationSettings, id: String, token: String) -> (r: Result<
    (),
    ApiError,
>)
    ensures
        r is Ok <==> (id@.len() > 0 && secret_shaped(token@)),
        r matches Err(e) ==> ordinary(e, 503, "Linkit returned an invalid Bot credential"@),
        r is Ok ==> final(settings).linkit_bot_id@ == id@ && final(settings).linkit_bot_token@
            == token@ && final(settings).linkit_username@ == old(settings).linkit_username@
            && final(settings).openai_consumer_id@ == old(settings).openai_consumer_id@
            && final(settings).openai_consumer_secret@ == old(settings).openai_consumer_secret@
            && final(settings).openai_base_url@ == old(settings).openai_base_url@,
        r is Err ==> *final(settings) == *old(settings),
{
    if id.as_str().unicode_len() == 0 || !starts_with_sk(token.as_str()) {
        return Err(ApiError::unavailable("Linkit returned an invalid Bot credential".to_owned()));
    }
    settings.linkit_bot_id = id;
    settings.linkit_bot_token = token;
    Ok(())
}

/// Whether the stored Bot is among the Bots that the user owns; each Bot
/// is given as its id and its owner.
pub fn bot_owned(bots: &[(String, String)], bot_id: &str, user_id: &str) -> (r: bool)
    ensures
        r == exists|i: int|
            0 <= i < bots@.len() && (#[trigger] bots@[i]).0@ == bot_id@ && bots@[i].1@ == user_id@,
{
    let mut i: usize = 0;
    while i < bots.len()
        invariant
            i <= bots@.len(),
            forall|j: int|
                0 <= j < i ==> !((#[trigger] bots@[j]).0@ == bot_id@ && bots@[j].1@ == user_id@),
        decreases bots@.len() - i,
    {
        if str_equals(bots[i].0.as_str(), bot_id) && str_equals(bots[i].1.as_str(), user_id) {
            return true;
        }
        i += 1;
    }
    false
}

/// A token rotation must answer for the stored Bot.
pub fn bot_rotation_check(grant_id: &str, bot_id: &str) -> (r: Result<(), ApiError>)
    ensures
        r is Ok <==> grant_id@ == bot_id@,
        r matches Err(e) ==> ordinary(e, 503, "Linkit rotated a different Bot"@),
{
    if !str_equals(grant_id, bot_id) {
        return Err(ApiError::unavailable("Linkit rotated a different Bot".to_owned()));
    }
    Ok(())
}

/// The recipient of notifications: the Linkit owner must be the signed-in
/// user and must have set a username.
pub fn notification_recipient(owner_id: &str, user_id: &str, username: Option<String>) -> (r: Result<
    String,
    ApiError,
>)
    ensures
        owner_id@ != user_id@ ==> (r matches Err(e) && ordinary(
            e,
            403,
            "Linkit returned a different notification owner"@,
        )),
        owner_id@ == user_id@ ==> (match opt_view(username) {
            Some(u) => if trim(u).len() > 0 {
                r matches Ok(n) && n@ == u
            } else {
                r matches Err(e) && ordinary(
                    e,
                    409,
                    "Set your Linkit username before enabling notifications"@,
                )
            },
            None => r matches Err(e) && ordinary(
                e,
                409,
                "Set your Linkit username before enabling notifications"@,
            ),
        }),
{
    if !str_equals(owner_id, user_id) {
        return Err(ApiError::forbidden("Linkit returned a different notification owner".to_owned()));
    }
    match username {
        Some(u) => {
            if trimmed_chars(u.as_str()).len() > 0 {
                Ok(u)
            } else {
                Err(
                    ApiError::conflict(
                        "Set your Linkit username before enabling notifications".to_owned(),
                    ),
                )
            }
        },
        None => Err(
            ApiError::conflict("Set your Linkit username before enabling notifications".to_owned()),
        ),
    }
}

} // verus!
