//! The life of a thread request: which input a request stands for, when it is
//! superseded, how a transient failure is retried and how long to wait.
use vstd::prelude::*;
use crate::clock::now;
use crate::error::{ApiError, ApiErrorKind, ordinary};
use crate::ids::random_byte;
use crate::json::{Json, JsonV, lemma_array_view, lemma_object_view, member_views, views};
use crate::text::{chars_of, decimal, decimal_chars, extend_chars, extend_str, parse_u64, parse_u64_spec, str_equals, string_of};

verus! {

/// A request is superseded once a later input or control record exists.
pub open spec fn superseded(latest: Option<i64>, record_idx: i64) -> bool {
    latest matches Some(id) && id > record_idx
}

pub fn request_superseded(latest: Option<i64>, record_idx: i64) -> (r: bool)
    ensures
        r == superseded(latest, record_idx),
{
    match latest {
        Some(id) => id > record_idx,
        None => false,
    }
}

/// A request may go on only while it is the latest one and its thread runs.
pub fn still_current(latest: Option<i64>, record_idx: i64, status: &str) -> (r: Result<(), ApiError>)
    ensures
        r is Ok <==> (latest == Some(record_idx) && status@ == "running"@),
        r matches Err(e) ==> e.kind == ApiErrorKind::Cancelled,
{
    let matches_latest = match latest {
        Some(id) => id == record_idx,
        None => false,
    };
    if !matches_latest || !str_equals(status, "running") {
        return Err(ApiError::cancelled());
    }
    Ok(())
}

/// What a user asks a thread to do.
#[derive(PartialEq, Eq, Structural, Clone, Copy, Debug)]
pub enum RequestInputKind {
    Prompt,
    Continue,
    Compact,
}

/// What a running request does.
#[derive(PartialEq, Eq, Structural, Clone, Copy, Debug)]
pub enum RequestOperation {
    Inference,
    Compact,
}

/// The control action that a request records (none for a prompt, which is
/// recorded as input) and the operation it runs. A control request needs an
/// idle thread.
pub open spec fn request_plan_spec(kind: RequestInputKind, status: Seq<char>) -> Result<
    (Option<Seq<char>>, RequestOperation),
    Seq<char>,
> {
    match kind {
        RequestInputKind::Prompt => Ok((None, RequestOperation::Inference)),
        RequestInputKind::Continue => if status == "running"@ {
            Err("stop the current request first"@)
        } else {
            Ok((Some("continue"@), RequestOperation::Inference))
        },
        RequestInputKind::Compact => if status == "running"@ {
            Err("stop the current request first"@)
        } else {
            Ok((Some("compact"@), RequestOperation::Compact))
        },
    }
}

pub fn request_plan(kind: RequestInputKind, status: &str) -> (r: Result<
    (Option<String>, RequestOperation),
    ApiError,
>)
    ensures
        (match r {
            Ok((action, op)) => request_plan_spec(kind, status@) == Ok::<
                (Option<Seq<char>>, RequestOperation),
                Seq<char>,
            >(
                (
                    match action {
                        Some(a) => Some(a@),
                        None => None,
                    },
                    op,
                ),
            ),
            Err(e) => request_plan_spec(kind, status@) matches Err(m) && ordinary(e, 409, m),
        }),
{
    match kind {
        RequestInputKind::Prompt => Ok((None, RequestOperation::Inference)),
        _ => {
            if str_equals(status, "running") {
                return Err(ApiError::conflict("stop the current request first".to_owned()));
            }
            if kind == RequestInputKind::Compact {
                Ok((Some("compact".to_owned()), RequestOperation::Compact))
            } else {
                Ok((Some("continue".to_owned()), RequestOperation::Inference))
            }
        },
    }
}

/// The number of failures after which a thread stops retrying.
pub const MAX_FAILURES: i64 = 5;

/// Seconds before the `failures`-th retry when the upstream names no delay:
/// 1, 2, 4, 8, 16, then 30.
pub open spec fn backoff_base(failures: int) -> int {
    if failures <= 1 {
        1
    } else if failures == 2 {
        2
    } else if failures == 3 {
        4
    } else if failures == 4 {
        8
    } else if failures == 5 {
        16
    } else {
        30
    }
}

/// Milliseconds rounded up to whole seconds, without overflow.
pub open spec fn ceil_seconds(ms: u64) -> int {
    (if ms + 999 > u64::MAX {
        u64::MAX as int
    } else {
        ms + 999
    }) / 1000
}

/// The delay before the next attempt: what the upstream asked for, rounded
/// up to seconds, else the backoff plus one second for odd jitter.
pub open spec fn retry_delay(failures: int, retry_after_ms: Option<u64>, jitter: u8) -> int {
    match retry_after_ms {
        Some(ms) => ceil_seconds(ms),
        None => backoff_base(failures) + (jitter % 2) as int,
    }
}

/// `now + seconds`, saturating at the largest time.
pub open spec fn saturating_at(now: i64, seconds: int) -> int {
    if now + seconds > i64::MAX {
        i64::MAX as int
    } else {
        now + seconds
    }
}

/// The retry bookkeeping after one more transient failure.
#[derive(Debug)]
pub struct RetrySchedule {
    /// Failures so far, this one included.
    pub failures: i64,
    /// When the next attempt may start.
    pub next_retry_at: i64,
    /// Whether another attempt follows; once `MAX_FAILURES` is reached the
    /// thread fails instead.
    pub retry: bool,
}

pub fn retry_schedule(previous_failures: i64, retry_after_ms: Option<u64>, jitter: u8, now: i64) -> (r:
    RetrySchedule)
    requires
        0 <= previous_failures < i64::MAX,
    ensures
        r.failures == previous_failures + 1,
        r.next_retry_at == saturating_at(now, retry_delay(r.failures as int, retry_after_ms, jitter)),
        r.retry == (r.failures < MAX_FAILURES),
{
    let failures = previous_failures + 1;
    let base: u64 = if failures <= 1 {
        1
    } else if failures == 2 {
        2
    } else if failures == 3 {
        4
    } else if failures == 4 {
        8
    } else if failures == 5 {
        16
    } else {
        30
    };
    let seconds: u64 = match retry_after_ms {
        Some(ms) => ms.saturating_add(999) / 1000,
        None => base + (jitter % 2) as u64,
    };
    let bounded: i64 = if seconds > i64::MAX as u64 {
        i64::MAX
    } else {
        seconds as i64
    };
    let at = if now > i64::MAX - bounded {
        i64::MAX
    } else {
        now + bounded
    };
    RetrySchedule { failures, next_retry_at: at, retry: failures < MAX_FAILURES }
}

/// The retry bookkeeping after one more transient failure, taken at the
/// current time with a fresh random jitter: whatever the clock and the
/// jitter, the failure is counted and the budget decides the retry.
pub fn next_retry(previous_failures: i64, retry_after_ms: Option<u64>) -> (r: RetrySchedule)
    requires
        0 <= previous_failures < i64::MAX,
    ensures
        r.failures == previous_failures + 1,
        r.retry == (r.failures < MAX_FAILURES),
        exists|at: i64, jitter: u8|
            0 <= at <= 10_000_000_000_000 && r.next_retry_at == #[trigger] saturating_at(
                at,
                retry_delay(r.failures as int, retry_after_ms, jitter),
            ),
{
    let at = now();
    let jitter = random_byte();
    let r = retry_schedule(previous_failures, retry_after_ms, jitter, at);
    proof {
        assert(r.next_retry_at == saturating_at(
            at,
            retry_delay(r.failures as int, retry_after_ms, jitter),
        ));
    }
    r
}

/// Whether an error is retried at all, and with which upstream delay.
pub fn transient_delay(error: &ApiError) -> (r: Option<Option<u64>>)
    ensures
        (match error.kind {
            ApiErrorKind::Transient { retry_after_ms } => r == Some(retry_after_ms),
            _ => r is None,
        }),
{
    match error.kind {
        ApiErrorKind::Transient { retry_after_ms } => Some(retry_after_ms),
        _ => None,
    }
}

/// The activity note recorded when a retry is scheduled.
pub open spec fn retry_note_spec(failures: nat, message: Seq<char>) -> Seq<char> {
    "Transient model error; retry "@ + decimal(failures) + "/4 scheduled: "@ + message
}

pub fn retry_note(failures: usize, message: &str) -> (r: String)
    ensures
        r@ == retry_note_spec(failures as nat, message@),
{
    let mut v = chars_of("Transient model error; retry ");
    let n = decimal_chars(failures);
    extend_chars(&mut v, n.as_slice());
    extend_str(&mut v, "/4 scheduled: ");
    extend_str(&mut v, message);
    string_of(v.as_slice())
}

/// Seconds to sleep before a scheduled retry.
pub fn retry_wait(at: Option<i64>, now: i64) -> (r: u64)
    ensures
        r == (match at {
            Some(t) => if t > now {
                t - now
            } else {
                0
            },
            None => 0,
        }),
{
    match at {
        Some(t) => if t > now {
            (t as i128 - now as i128) as u64
        } else {
            0
        },
        None => 0,
    }
}

/// The Unix time of an RFC 2822 date, as chrono reads it, or `None`.
pub uninterp spec fn rfc2822_seconds(s: Seq<char>) -> Option<i64>;

/// `chrono::DateTime::parse_from_rfc2822` followed by `timestamp()`. The
/// contract claims only that the result is the named function of `s`.
#[verifier::external_body]
fn parse_rfc2822(s: &str) -> (r: Option<i64>)
    ensures
        r == rfc2822_seconds(s@),
{
    chrono::DateTime::parse_from_rfc2822(s).ok().map(|d| d.timestamp())
}

/// `a * b` for a non-negative `a`, saturating at `u64::MAX`.
pub open spec fn saturating_ms(a: int) -> int {
    if a * 1000 > u64::MAX {
        u64::MAX as int
    } else {
        a * 1000
    }
}

/// The delay that a `Retry-After` value asks for, in milliseconds: a number
/// of seconds, or the time until an RFC 2822 date (none once it passed).
pub open spec fn retry_after_spec(raw: Seq<char>, now: i64) -> Option<u64> {
    match parse_u64_spec(raw) {
        Some(s) => Some(saturating_ms(s as int) as u64),
        None => match rfc2822_seconds(raw) {
            Some(t) => Some(
                saturating_ms(
                    if t - now > 0 {
                        t - now
                    } else {
                        0
                    },
                ) as u64,
            ),
            None => None,
        },
    }
}

fn times_thousand(a: u64) -> (r: u64)
    ensures
        r == saturating_ms(a as int),
{
    if a > u64::MAX / 1000 {
        u64::MAX
    } else {
        a * 1000
    }
}

pub fn retry_after(raw: &str, now: i64) -> (r: Option<u64>)
    ensures
        r == retry_after_spec(raw@, now),
{
    let c = chars_of(raw);
    if let Some(seconds) = parse_u64(c.as_slice()) {
        return Some(times_thousand(seconds));
    }
    match parse_rfc2822(raw) {
        Some(t) => {
            let diff: i128 = t as i128 - now as i128;
            let d: u64 = if diff > 0 {
                diff as u64
            } else {
                0
            };
            Some(times_thousand(d))
        },
        None => None,
    }
}

/// What happens once a request's work is over.
#[derive(PartialEq, Eq, Structural, Clone, Copy, Debug)]
pub enum RequestEnd {
    /// Nothing is recorded: the request was cancelled.
    Nothing,
    /// The request was superseded or cancelled while it failed: its failure
    /// is recorded, but nobody is notified.
    RecordFailureQuietly,
    /// The thread becomes idle; when it was still current it gets a title
    /// and its owner is notified of the answer.
    Succeed,
    /// The failure is recorded; when the request was still current the
    /// thread fails and its owner is notified.
    Fail,
}

/// The end of a request: `stale` when it was cancelled or is no longer the
/// thread's current request, `failed` and `cancelled_error` describe its
/// outcome.
pub open spec fn request_end_spec(stale: bool, failed: bool, cancelled_error: bool) -> RequestEnd {
    if stale {
        if failed && !cancelled_error {
            RequestEnd::RecordFailureQuietly
        } else {
            RequestEnd::Nothing
        }
    } else if !failed {
        RequestEnd::Succeed
    } else if cancelled_error {
        RequestEnd::Nothing
    } else {
        RequestEnd::Fail
    }
}

pub fn request_end(stale: bool, failed: bool, cancelled_error: bool) -> (r: RequestEnd)
    ensures
        r == request_end_spec(stale, failed, cancelled_error),
{
    if stale {
        if failed && !cancelled_error {
            RequestEnd::RecordFailureQuietly
        } else {
            RequestEnd::Nothing
        }
    } else if !failed {
        RequestEnd::Succeed
    } else if cancelled_error {
        RequestEnd::Nothing
    } else {
        RequestEnd::Fail
    }
}

/// Whether `record_idx` is still the thread's latest input.
pub fn is_latest_input(latest: Option<i64>, record_idx: i64) -> (r: bool)
    ensures
        r == (latest == Some(record_idx)),
{
    match latest {
        Some(l) => l == record_idx,
        None => false,
    }
}

/// A thread is only named while it still has the default title.
pub fn needs_title(title: &str) -> (r: bool)
    ensures
        r == (title@ == "Untitled thread"@),
{
    str_equals(title, "Untitled thread")
}

pub open spec fn message_spec(role: Seq<char>, content: Seq<char>) -> JsonV {
    JsonV::Object(seq![("role"@, JsonV::Str(role)), ("content"@, JsonV::Str(content))])
}

pub(crate) fn message(role: &str, content: &str) -> (r: Json)
    ensures
        r@ == message_spec(role@, content@),
{
    let mut m: Vec<(String, Json)> = Vec::new();
    m.push(("role".to_owned(), Json::Str(role.to_owned())));
    m.push(("content".to_owned(), Json::Str(content.to_owned())));
    assert(member_views(m@) =~= seq![("role"@, JsonV::Str(role@)), ("content"@, JsonV::Str(content@))]);
    proof {
        lemma_object_view(m);
    }
    Json::Object(m)
}

pub open spec fn title_instruction() -> Seq<char> {
    "You name Cybion threads. Return only a concise title of 2-8 words that describes the user's request. Do not use quotes, Markdown, a period, or a generic title like Untitled thread."@
}

/// The request that names a thread after its first input.
pub fn title_prompt(input: &str) -> (r: Json)
    ensures
        r@ == JsonV::Array(
            seq![message_spec("developer"@, title_instruction()), message_spec("user"@, input@)],
        ),
{
    let mut v: Vec<Json> = Vec::new();
    v.push(
        message(
            "developer",
            "You name Cybion threads. Return only a concise title of 2-8 words that describes the user's request. Do not use quotes, Markdown, a period, or a generic title like Untitled thread.",
        ),
    );
    v.push(message("user", input));
    assert(views(v@) =~= seq![
        message_spec("developer"@, title_instruction()),
        message_spec("user"@, input@),
    ]);
    proof {
        lemma_array_view(v);
    }
    Json::Array(v)
}

/// The visible note recorded for a failed request.
pub fn failure_note(error: &str) -> (r: String)
    ensures
        r@ == "Request failed: "@ + error@,
{
    let mut v = chars_of("Request failed: ");
    extend_str(&mut v, error);
    string_of(v.as_slice())
}

/// The payload of that note.
pub fn failure_payload(note: &str, record_idx: i64) -> (r: Json)
    ensures
        r@ == JsonV::Object(
            seq![
                ("role"@, JsonV::Str("system"@)),
                ("content"@, JsonV::Str(note@)),
                ("record_idx"@, JsonV::Int(record_idx)),
            ],
        ),
{
    let mut m: Vec<(String, Json)> = Vec::new();
    m.push(("role".to_owned(), Json::Str("system".to_owned())));
    m.push(("content".to_owned(), Json::Str(note.to_owned())));
    m.push(("record_idx".to_owned(), Json::Int(record_idx)));
    assert(member_views(m@) =~= seq![
        ("role"@, JsonV::Str("system"@)),
        ("content"@, JsonV::Str(note@)),
        ("record_idx"@, JsonV::Int(record_idx)),
    ]);
    proof {
        lemma_object_view(m);
    }
    Json::Object(m)
}

/// The audits of a failed request end failed while it is current, and as
/// cancelled once a newer input replaced it.
pub fn failure_audit_status(current: bool) -> (r: String)
    ensures
        r@ == (if current {
            "failed"@
        } else {
            "cancelled"@
        }),
{
    if current {
        "failed".to_owned()
    } else {
        "cancelled".to_owned()
    }
}

/// The retry budget cannot be reset by failing again: each failure counts
/// one more, and once a thread has used its budget no later failure
/// schedules another attempt.
pub proof fn lemma_retry_budget_is_final(previous_failures: int, more: int)
    requires
        previous_failures + 1 >= MAX_FAILURES,
        more >= 0,
    ensures
        !(previous_failures + 1 + more < MAX_FAILURES),
{
}

} // verus!
