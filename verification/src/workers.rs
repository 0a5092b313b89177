//! Decisions of the Worker protocol and of device pairing: which reports are
//! accepted, how a Worker registers after a restart, when an upgrade may be
//! queued, what a pairing or a diagnostic check shows, and the rate limits.
use vstd::prelude::*;
use crate::error::{ApiError, ordinary};
use crate::inputs::{
    code, grouped_code, lemma_no_separators, semver, semver_spec, upper_hex_digit, uppercased,
    valid_pairing_digits,
    lemma_version_order, version_at_least, version_ge, version_rank, without_separators,
};
use crate::ids::{lower_hex_digit, new_uuid_simple};
use crate::json::Json;
use crate::text::{
    ascii_upper, chars_of, in_class, str_equals, string_of_range, trim, trim_end_in, trim_start_in,
    upper_seq, CharClass,
};

verus! {

pub open spec fn opt_str(o: Option<&str>) -> Option<Seq<char>> {
    match o {
        Some(s) => Some(s@),
        None => None,
    }
}

fn same(a: Option<&str>, b: Option<&str>) -> (r: bool)
    ensures
        r == (opt_str(a) == opt_str(b)),
{
    match (a, b) {
        (Some(x), Some(y)) => str_equals(x, y),
        (None, None) => true,
        _ => false,
    }
}

/// A report is accepted unless the Worker has registered a boot id and the
/// report comes from another process (or names none).
pub open spec fn report_allowed(current: Option<Seq<char>>, boot: Option<Seq<char>>) -> bool {
    match current {
        Some(c) => boot == Some(c),
        None => true,
    }
}

pub fn allow_report(current: Option<&str>, boot: Option<&str>) -> (r: Result<(), ApiError>)
    ensures
        r is Ok <==> report_allowed(opt_str(current), opt_str(boot)),
        r matches Err(e) ==> ordinary(e, 409, "report from an obsolete Worker process"@),
{
    if current.is_some() && !same(current, boot) {
        return Err(ApiError::conflict("report from an obsolete Worker process".to_owned()));
    }
    Ok(())
}

/// A liveness report without a boot id (the doctor) is accepted but not
/// current when the Worker has registered one; otherwise it is current when
/// it is allowed.
pub fn liveness_report_is_current(current: Option<&str>, boot: Option<&str>) -> (r: Result<
    bool,
    ApiError,
>)
    ensures
        (current is Some && boot is None) ==> r == Ok::<bool, ApiError>(false),
        !(current is Some && boot is None) ==> (r matches Ok(b) ==> b) && (r is Ok
            <==> report_allowed(opt_str(current), opt_str(boot))),
        r matches Err(e) ==> ordinary(e, 409, "report from an obsolete Worker process"@),
{
    if current.is_some() && boot.is_none() {
        return Ok(false);
    }
    allow_report(current, boot)?;
    Ok(true)
}

/// How a connecting Worker is registered.
#[derive(PartialEq, Eq, Structural, Clone, Copy, Debug)]
pub enum Registration {
    /// A Worker without boot ids: single delivery, its calls are never replayed.
    Legacy,
    /// The same process reconnects; its delivered calls are replayed.
    Resumed,
    /// A new process: calls delivered to the old one are settled as lost and
    /// its boot id replaces the old one.
    Restarted,
}

pub open spec fn registration_spec(
    current: Option<Seq<char>>,
    boot: Option<Seq<char>>,
    version: Option<Seq<char>>,
) -> Result<Registration, Seq<char>> {
    match boot {
        None => if current is Some {
            Err("install Worker 0.2.0 or newer"@)
        } else {
            Ok(Registration::Legacy)
        },
        Some(b) => if version matches Some(v) && semver_spec(v) is None {
            Err("invalid Worker version"@)
        } else if current == Some(b) {
            Ok(Registration::Resumed)
        } else {
            Ok(Registration::Restarted)
        },
    }
}

pub fn register_plan(current: Option<&str>, boot: Option<&str>, version: Option<&str>) -> (r:
    Result<Registration, ApiError>)
    ensures
        (match r {
            Ok(k) => registration_spec(opt_str(current), opt_str(boot), opt_str(version)) == Ok::<
                Registration,
                Seq<char>,
            >(k),
            Err(e) => registration_spec(opt_str(current), opt_str(boot), opt_str(version)) matches Err(
                m,
            ) && (if boot is None {
                ordinary(e, 409, m)
            } else {
                ordinary(e, 400, m)
            }),
        }),
{
    if boot.is_none() {
        if current.is_some() {
            return Err(ApiError::conflict("install Worker 0.2.0 or newer".to_owned()));
        }
        return Ok(Registration::Legacy);
    }
    if let Some(v) = version {
        if semver(v).is_none() {
            return Err(ApiError::bad_request("invalid Worker version".to_owned()));
        }
    }
    if same(current, boot) {
        Ok(Registration::Resumed)
    } else {
        Ok(Registration::Restarted)
    }
}

/// The record kind of the output that settles a call lost in a restart: a
/// tool output while its request is still current, activity otherwise (also
/// when the call belongs to no request).
pub fn lost_call_kind(superseded: Option<bool>) -> (r: String)
    ensures
        r@ == (if (match superseded {
            Some(s) => s,
            None => true,
        }) {
            "activity"@
        } else {
            "tool_output"@
        }),
{
    let s = match superseded {
        Some(s) => s,
        None => true,
    };
    if s {
        "activity".to_owned()
    } else {
        "tool_output".to_owned()
    }
}

/// The status an upgrade shows; an upgrade with no status yet is queued.
pub fn upgrade_status(stored: Option<String>) -> (r: String)
    ensures
        r@ == (match stored {
            Some(s) => s@,
            None => "queued"@,
        }),
{
    match stored {
        Some(s) => s,
        None => "queued".to_owned(),
    }
}

/// Seconds since its last report within which a Worker counts as online.
pub const WORKER_ONLINE_SECONDS: i64 = 45;

pub open spec fn queued_or_installing(s: Option<Seq<char>>) -> bool {
    s == Some("queued"@) || s == Some("installing"@)
}

/// Option order on versions: `None` is below every version.
pub open spec fn option_version_ge(a: Option<(u64, u64, u64)>, b: Option<(u64, u64, u64)>) -> bool {
    match (a, b) {
        (_, None) => true,
        (None, Some(_)) => false,
        (Some(x), Some(y)) => version_at_least(x, y),
    }
}

/// Whether an upgrade to `target` is queued (`Ok(true)`), already pending
/// (`Ok(false)`), or refused, with the message.
pub open spec fn upgrade_spec(
    version: Option<Seq<char>>,
    boot: Option<Seq<char>>,
    status: Option<Seq<char>>,
    seen: Option<i64>,
    now: i64,
    target: Seq<char>,
) -> Result<bool, Seq<char>> {
    if boot is None {
        Err("Install Worker 0.2.0 manually once before using remote upgrades"@)
    } else if seen is None || seen->0 < now - WORKER_ONLINE_SECONDS {
        Err("Worker must be online to request an upgrade"@)
    } else if version is None || semver_spec(version->0) is None {
        Err("Worker has not reported a valid version"@)
    } else if option_version_ge(semver_spec(version->0), semver_spec(target)) {
        Err("Worker is already at or above the recommended version"@)
    } else if queued_or_installing(status) {
        Ok(false)
    } else {
        Ok(true)
    }
}

/// A booted, online Worker that reports a valid version is queued for an
/// upgrade exactly when its version is below the valid target version (unless
/// an upgrade is already queued or installing); at or above the target it is
/// refused.
pub proof fn lemma_upgrade_only_below_target(
    version: Seq<char>,
    boot: Seq<char>,
    status: Option<Seq<char>>,
    seen: i64,
    now: i64,
    target: Seq<char>,
    v: (u64, u64, u64),
    t: (u64, u64, u64),
)
    requires
        seen >= now - WORKER_ONLINE_SECONDS,
        semver_spec(version) == Some(v),
        semver_spec(target) == Some(t),
    ensures
        version_rank(v) >= version_rank(t) ==> upgrade_spec(
            Some(version),
            Some(boot),
            status,
            Some(seen),
            now,
            target,
        ) == Err::<bool, Seq<char>>("Worker is already at or above the recommended version"@),
        version_rank(v) < version_rank(t) ==> upgrade_spec(
            Some(version),
            Some(boot),
            status,
            Some(seen),
            now,
            target,
        ) == Ok::<bool, Seq<char>>(!queued_or_installing(status)),
{
    lemma_version_order(v, t, t);
}

pub fn upgrade_decision(
    version: Option<&str>,
    boot: Option<&str>,
    status: Option<&str>,
    seen: Option<i64>,
    now: i64,
    target: &str,
) -> (r: Result<bool, ApiError>)
    requires
        now >= i64::MIN + WORKER_ONLINE_SECONDS,
    ensures
        (match r {
            Ok(q) => upgrade_spec(opt_str(version), opt_str(boot), opt_str(status), seen, now, target@)
                == Ok::<bool, Seq<char>>(q),
            Err(e) => upgrade_spec(opt_str(version), opt_str(boot), opt_str(status), seen, now, target@)
                matches Err(m) && ordinary(e, 409, m),
        }),
{
    if boot.is_none() {
        return Err(
            ApiError::conflict(
                "Install Worker 0.2.0 manually once before using remote upgrades".to_owned(),
            ),
        );
    }
    let online = match seen {
        Some(at) => at >= now - WORKER_ONLINE_SECONDS,
        None => false,
    };
    if !online {
        return Err(ApiError::conflict("Worker must be online to request an upgrade".to_owned()));
    }
    let current = match version {
        Some(v) => semver(v),
        None => None,
    };
    let current = match current {
        Some(c) => c,
        None => {
            return Err(ApiError::conflict("Worker has not reported a valid version".to_owned()));
        },
    };
    let reached = match semver(target) {
        Some(t) => version_ge(current, t),
        None => true,
    };
    if reached {
        return Err(
            ApiError::conflict("Worker is already at or above the recommended version".to_owned()),
        );
    }
    let pending = match status {
        Some(s) => str_equals(s, "queued") || str_equals(s, "installing"),
        None => false,
    };
    Ok(!pending)
}

/// A Worker may only report that an upgrade is installing or has failed.
pub fn upgrade_report_status(status: &str) -> (r: Result<(), ApiError>)
    ensures
        r is Ok <==> (status@ == "installing"@ || status@ == "failed"@),
        r matches Err(e) ==> ordinary(e, 400, "invalid upgrade status"@),
{
    if str_equals(status, "installing") || str_equals(status, "failed") {
        Ok(())
    } else {
        Err(ApiError::bad_request("invalid upgrade status".to_owned()))
    }
}

/// Seconds that a pairing code stays valid.
pub const PAIRING_TTL: i64 = 600;

/// What a pairing shows: a pairing past its expiry is expired unless it was
/// approved.
pub open spec fn pairing_status_spec(status: Seq<char>, expires_at: i64, now: i64) -> Seq<char> {
    if expires_at <= now && status != "approved"@ {
        "expired"@
    } else {
        status
    }
}

pub fn pairing_status(status: String, expires_at: i64, now: i64) -> (r: String)
    ensures
        r@ == pairing_status_spec(status@, expires_at, now),
{
    if expires_at <= now && !str_equals(status.as_str(), "approved") {
        "expired".to_owned()
    } else {
        status
    }
}

/// The expiry of a pairing started or approved at `now`.
pub fn pairing_expiry(now: i64) -> (r: i64)
    requires
        now <= i64::MAX - PAIRING_TTL,
    ensures
        r == now + PAIRING_TTL,
{
    now + PAIRING_TTL
}

/// A fresh user code: the first twelve digits of a random UUID, upper-cased
/// and grouped. It is always produced; which digits it holds is random.
pub fn new_pairing_code() -> (r: Result<String, ApiError>)
    ensures
        r is Ok,
        r matches Ok(c) ==> c@.len() == 14,
        r matches Ok(c) ==> exists|u: Seq<char>|
            #[trigger] valid_pairing_digits(u) && (forall|i: int|
                0 <= i < u.len() ==> upper_hex_digit(#[trigger] u[i])) && c@ == grouped_code(u),
{
    let simple = new_uuid_simple();
    let digits = chars_of(simple.as_str());
    let head = string_of_range(digits.as_slice(), 0, 12);
    proof {
        let h = head@;
        assert(h =~= simple@.subrange(0, 12));
        assert forall|i: int| 0 <= i < h.len() implies lower_hex_digit(#[trigger] h[i]) by {
            assert(h[i] == simple@[i]);
        }
        assert(!in_class(h[0], CharClass::Whitespace));
        assert(trim_start_in(h, CharClass::Whitespace) == h);
        assert(!in_class(h.last(), CharClass::Whitespace));
        assert(trim_end_in(h, CharClass::Whitespace) == h);
        assert(trim(h) == h);
        lemma_no_separators(h);
        assert forall|i: int| 0 <= i < h.len() implies (#[trigger] h[i] as u32) < 0x80 by {
            assert(lower_hex_digit(h[i]));
        }
        let u = upper_seq(h);
        assert forall|i: int| 0 <= i < u.len() implies upper_hex_digit(#[trigger] u[i]) && in_class(
            u[i],
            CharClass::HexDigit,
        ) by {
            assert(lower_hex_digit(h[i]));
            assert(u[i] == ascii_upper(h[i]));
            if 'a' <= h[i] <= 'f' {
                assert(('a' as u32) - 32 == ('A' as u32));
            }
        }
    }
    let r = code(head.as_str());
    proof {
        let u = uppercased(without_separators(trim(head@)));
        assert(u == upper_seq(head@));
        assert(valid_pairing_digits(u));
        assert(r->Ok_0@ == grouped_code(u));
    }
    r
}

/// Attempts counted in the current minute after one more: the stored count
/// plus one in the same window, one in a new window.
pub open spec fn attempts_spec(stored: Option<(i64, i64)>, window: i64) -> int {
    match stored {
        Some((w, c)) => if w == window {
            c + 1
        } else {
            1
        },
        None => 1,
    }
}

pub fn attempts(stored: Option<(i64, i64)>, window: i64) -> (r: i64)
    requires
        stored matches Some((w, c)) ==> c < i64::MAX,
    ensures
        r == attempts_spec(stored, window),
{
    match stored {
        Some((w, c)) => if w == window {
            c + 1
        } else {
            1
        },
        None => 1,
    }
}

/// Refuses an attempt beyond `max` in one minute.
pub fn rate_limit(count: i64, max: i64) -> (r: Result<(), ApiError>)
    ensures
        r is Ok <==> count <= max,
        r matches Err(e) ==> ordinary(e, 429, "Too many pairing attempts; retry in one minute"@),
{
    if count > max {
        return Err(
            ApiError::too_many_requests("Too many pairing attempts; retry in one minute".to_owned()),
        );
    }
    Ok(())
}

/// A pairing owned by another account is not shown.
pub fn lookup_owner(owner: Option<&str>, user: &str) -> (r: Result<(), ApiError>)
    ensures
        r is Ok <==> (owner is None || opt_str(owner) == Some(user@)),
        r matches Err(e) ==> ordinary(e, 404, "Pairing is already owned by another account"@),
{
    if let Some(o) = owner {
        if !str_equals(o, user) {
            return Err(
                ApiError::not_found("Pairing is already owned by another account".to_owned()),
            );
        }
    }
    Ok(())
}

pub open spec fn approvable(status: Seq<char>) -> bool {
    status == "pending"@ || status == "approving"@ || status == "approved"@
}

/// Approval of a pairing by `user`: refused when another account owns it or
/// when it is no longer pending; `Ok(false)` when it is already approved,
/// `Ok(true)` when the Worker still has to be provisioned.
pub fn approve_plan(status: &str, owner: Option<&str>, user: &str) -> (r: Result<bool, ApiError>)
    ensures
        (owner is Some && opt_str(owner) != Some(user@)) ==> (r matches Err(e) && ordinary(
            e,
            403,
            "Pairing belongs to another account"@,
        )),
        !(owner is Some && opt_str(owner) != Some(user@)) && !approvable(status@) ==> (r matches Err(
            e,
        ) && ordinary(e, 409, "Pairing expired or cancelled; restart the Worker"@)),
        !(owner is Some && opt_str(owner) != Some(user@)) && approvable(status@) ==> r
            == Ok::<bool, ApiError>(status@ != "approved"@),
{
    if let Some(o) = owner {
        if !str_equals(o, user) {
            return Err(ApiError::forbidden("Pairing belongs to another account".to_owned()));
        }
    }
    let approved = str_equals(status, "approved");
    if !(str_equals(status, "pending") || str_equals(status, "approving") || approved) {
        return Err(
            ApiError::conflict("Pairing expired or cancelled; restart the Worker".to_owned()),
        );
    }
    Ok(!approved)
}

/// A device poll: refused once the pairing expired, and when it comes less
/// than two seconds after the previous one.
pub fn poll_check(expires_at: i64, last_polled_at: i64, now: i64) -> (r: Result<(), ApiError>)
    requires
        now >= i64::MIN + 2,
    ensures
        expires_at <= now ==> (r matches Err(e) && ordinary(
            e,
            410,
            "Pairing expired; restart the Worker"@,
        )),
        expires_at > now && last_polled_at > now - 2 ==> (r matches Err(e) && ordinary(
            e,
            429,
            "Poll no faster than every 3 seconds"@,
        )),
        expires_at > now && last_polled_at <= now - 2 ==> r is Ok,
{
    if expires_at <= now {
        return Err(ApiError::gone("Pairing expired; restart the Worker".to_owned()));
    }
    if last_polled_at > now - 2 {
        return Err(ApiError::too_many_requests("Poll no faster than every 3 seconds".to_owned()));
    }
    Ok(())
}

/// Cancelling a pairing changes nothing once it is no longer pending.
pub fn cancel_outcome(changed: usize) -> (r: Result<(), ApiError>)
    ensures
        r is Ok <==> changed > 0,
        r matches Err(e) ==> ordinary(
            e,
            409,
            "Pairing is no longer pending; remove the device to revoke an approved connection"@,
        ),
{
    if changed == 0 {
        return Err(
            ApiError::conflict(
                "Pairing is no longer pending; remove the device to revoke an approved connection".to_owned(),
            ),
        );
    }
    Ok(())
}

/// Seconds within which a diagnostic check must be delivered and answered.
pub const CHECK_SECONDS: i64 = 30;

/// What a diagnostic check shows.
pub open spec fn check_status_spec(
    completed_at: Option<i64>,
    created_at: i64,
    delivered_at: Option<i64>,
    now: i64,
) -> Seq<char> {
    if completed_at is Some {
        "completed"@
    } else if created_at + CHECK_SECONDS <= now {
        "timed_out"@
    } else if delivered_at is Some {
        "delivered"@
    } else {
        "queued"@
    }
}

pub fn check_status(completed_at: Option<i64>, created_at: i64, delivered_at: Option<i64>, now: i64) -> (r: String)
    requires
        created_at <= i64::MAX - CHECK_SECONDS,
    ensures
        r@ == check_status_spec(completed_at, created_at, delivered_at, now),
{
    if completed_at.is_some() {
        "completed".to_owned()
    } else if created_at + CHECK_SECONDS <= now {
        "timed_out".to_owned()
    } else if delivered_at.is_some() {
        "delivered".to_owned()
    } else {
        "queued".to_owned()
    }
}

/// A check started less than thirty seconds ago is still running and is
/// returned instead of starting another.
pub fn check_running(created_at: i64, now: i64) -> (r: bool)
    requires
        created_at <= i64::MAX - CHECK_SECONDS,
    ensures
        r == (created_at + CHECK_SECONDS > now),
{
    created_at + CHECK_SECONDS > now
}

/// A diagnostic result is stored only up to 16384 bytes of JSON.
pub fn diagnostic_size(serialized_len: usize) -> (r: Result<(), ApiError>)
    ensures
        r is Ok <==> serialized_len <= 16384,
        r matches Err(e) ==> ordinary(e, 400, "diagnostic result too large"@),
{
    if serialized_len > 16384 {
        return Err(ApiError::bad_request("diagnostic result too large".to_owned()));
    }
    Ok(())
}

/// A Worker takes calls while it reports itself online and was seen within
/// `WORKER_ONLINE_SECONDS`.
pub open spec fn worker_online_spec(status: Seq<char>, last_seen: Option<i64>, now: i64) -> bool {
    status == "online"@ && (last_seen matches Some(at) && at >= now - WORKER_ONLINE_SECONDS)
}

/// Whether a call can be queued for the selected Worker: not for a request
/// already superseded, an unknown Worker or an offline one.
pub fn enqueue_check(superseded: bool, worker: Option<(&str, Option<i64>)>, now: i64) -> (r: Result<
    (),
    ApiError,
>)
    requires
        now >= i64::MIN + WORKER_ONLINE_SECONDS,
    ensures
        superseded ==> (r matches Err(e) && e.kind == crate::error::ApiErrorKind::Cancelled),
        !superseded && worker is None ==> (r matches Err(e) && ordinary(
            e,
            404,
            "selected Worker not found"@,
        )),
        !superseded ==> (worker matches Some((status, seen)) ==> (if worker_online_spec(
            status@,
            seen,
            now,
        ) {
            r is Ok
        } else {
            r matches Err(e) && ordinary(e, 409, "selected Worker is offline"@)
        })),
{
    if superseded {
        return Err(ApiError::cancelled());
    }
    match worker {
        None => Err(ApiError::not_found("selected Worker not found".to_owned())),
        Some((status, seen)) => {
            let recent = match seen {
                Some(at) => at >= now - WORKER_ONLINE_SECONDS,
                None => false,
            };
            if !str_equals(status, "online") || !recent {
                return Err(ApiError::conflict("selected Worker is offline".to_owned()));
            }
            Ok(())
        },
    }
}

/// One look at a queued Worker call.
#[derive(Debug)]
pub enum CallPoll {
    /// The Worker answered: its result and the record that holds it, if any.
    Done(Json, Option<i64>),
    /// The call failed; the turn fails with this error.
    Failed(ApiError),
    /// Not finished yet: look again.
    Wait,
}

/// The message of a failed call: its error, or a generic one.
pub open spec fn failure_text(error: Option<Seq<char>>) -> Seq<char> {
    match error {
        Some(m) => m,
        None => "Worker tool call failed"@,
    }
}

pub fn poll_worker_call(status: &str, result: Option<Json>, output_id: Option<i64>, error: Option<
    String,
>) -> (r: CallPoll)
    ensures
        status@ == "completed"@ ==> (match result {
            Some(j) => r matches CallPoll::Done(x, o) && x@ == j@ && o == output_id,
            None => r matches CallPoll::Failed(e) && ordinary(e, 503, "Worker returned invalid output"@),
        }),
        status@ == "failed"@ ==> (r matches CallPoll::Failed(e) && ordinary(
            e,
            503,
            failure_text(opt_string(error)),
        )),
        status@ != "completed"@ && status@ != "failed"@ ==> r is Wait,
{
    proof {
        reveal_strlit("completed");
        reveal_strlit("failed");
    }
    if str_equals(status, "completed") {
        assert("completed"@ != "failed"@) by {
            assert("completed"@[0] != "failed"@[0]);
        }
        match result {
            Some(j) => CallPoll::Done(j, output_id),
            None => CallPoll::Failed(ApiError::unavailable("Worker returned invalid output".to_owned())),
        }
    } else if str_equals(status, "failed") {
        let ghost expected = failure_text(opt_string(error));
        let msg: String = match error {
            Some(m) => m,
            None => "Worker tool call failed".to_owned(),
        };
        assert(msg@ == expected);
        CallPoll::Failed(ApiError::unavailable(msg))
    } else {
        CallPoll::Wait
    }
}

/// Seconds a turn waits for a Worker result.
pub const WORKER_RESULT_TIMEOUT_SECONDS: usize = 900;

pub fn worker_call_timed_out() -> (e: ApiError)
    ensures
        ordinary(e, 503, "Worker tool call timed out"@),
{
    ApiError::unavailable("Worker tool call timed out".to_owned())
}

/// How a result reported by a Worker is stored.
#[derive(Debug)]
pub struct ResultPlan {
    /// The call's new status, when it was still queued or delivered.
    pub status: String,
    /// The error stored with it.
    pub error: Option<String>,
    /// The Responses call id that the output answers.
    pub call_id: String,
    /// Whether the call was still open; a late result is kept without
    /// changing the call's terminal state.
    pub accepted: bool,
    /// The record kind of the output: a tool output while its request is
    /// current, activity otherwise.
    pub kind: String,
}

pub open spec fn opt_string(o: Option<String>) -> Option<Seq<char>> {
    match o {
        Some(s) => Some(s@),
        None => None,
    }
}

pub fn worker_result_plan(
    failed: bool,
    error: Option<String>,
    result_text: &str,
    call_status: &str,
    responses_call_id: &str,
    call_id: &str,
    superseded: Option<bool>,
) -> (p: ResultPlan)
    ensures
        p.status@ == (if failed {
            "failed"@
        } else {
            "completed"@
        }),
        opt_string(p.error) == (match error {
            Some(m) => Some(m@),
            None => if failed {
                Some(result_text@)
            } else {
                None
            },
        }),
        p.call_id@ == (if responses_call_id@.len() == 0 {
            call_id@
        } else {
            responses_call_id@
        }),
        p.accepted == (call_status@ == "queued"@ || call_status@ == "delivered"@),
        p.kind@ == (if (match superseded {
            Some(s) => s,
            None => true,
        }) {
            "activity"@
        } else {
            "tool_output"@
        }),
{
    let status = if failed {
        "failed".to_owned()
    } else {
        "completed".to_owned()
    };
    let error = match error {
        Some(m) => Some(m),
        None => if failed {
            Some(result_text.to_owned())
        } else {
            None
        },
    };
    let id = if responses_call_id.unicode_len() == 0 {
        call_id.to_owned()
    } else {
        responses_call_id.to_owned()
    };
    ResultPlan {
        status,
        error,
        call_id: id,
        accepted: str_equals(call_status, "queued") || str_equals(call_status, "delivered"),
        kind: lost_call_kind(superseded),
    }
}

/// Expiry is final: a pairing shown as expired at some time is shown as
/// expired at every later time, and an approved pairing is never shown as
/// expired.
pub proof fn lemma_pairing_expiry_is_final(status: Seq<char>, expires_at: i64, now: i64, later: i64)
    requires
        now <= later,
    ensures
        pairing_status_spec(status, expires_at, now) == "expired"@ && status != "expired"@
            ==> pairing_status_spec(status, expires_at, later) == "expired"@,
        status == "approved"@ ==> pairing_status_spec(status, expires_at, later) == "approved"@,
{
}

} // verus!
