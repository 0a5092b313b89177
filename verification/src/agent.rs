//! The decisions of one agent turn: how an upstream failure is classified,
//! when a completed response is still an error, when the context is compacted
//! and the request repeated, and what the turn does after a response.
use vstd::prelude::*;
use crate::error::{ApiError, ApiErrorKind, ordinary};
use crate::json::{Json, JsonV, get_spec};
use crate::protocol::{valid_checkpoint, validate_checkpoint_text};
use crate::responses::{
    context_overflow_spec, context_overflow_value, error_detail_spec, response_text,
    response_text_spec, upstream_error_detail,
};
use crate::text::{chars_of, extend_str, string_of, trim, trimmed_chars};

verus! {

/// How often a turn compacts its context and repeats a request that
/// overflowed it.
pub const CHECKPOINT_RETRY_LIMIT: usize = 2;

/// A request that overflowed the context is repeated after a compaction,
/// at most `CHECKPOINT_RETRY_LIMIT` times per turn.
pub fn compact_and_retry(error: &ApiError, retries: usize) -> (r: bool)
    ensures
        r == (error.kind == ApiErrorKind::ContextOverflow && retries < CHECKPOINT_RETRY_LIMIT),
{
    error.is_context_overflow() && retries < CHECKPOINT_RETRY_LIMIT
}

/// What a turn does with a failed request, given the compactions it already
/// made: an overflow within the limit is compacted and repeated with the
/// count raised by one; any other failure, or an overflow past the limit,
/// ends the turn with the error unchanged. A turn starts at zero, so it never
/// compacts more than `CHECKPOINT_RETRY_LIMIT` times.
pub fn overflow_retry(error: ApiError, retries: usize) -> (r: Result<usize, ApiError>)
    ensures
        (error.kind == ApiErrorKind::ContextOverflow && retries < CHECKPOINT_RETRY_LIMIT) ==> r
            == Ok::<usize, ApiError>((retries + 1) as usize),
        !(error.kind == ApiErrorKind::ContextOverflow && retries < CHECKPOINT_RETRY_LIMIT) ==> r
            == Err::<usize, ApiError>(error),
        r matches Ok(n) ==> n <= CHECKPOINT_RETRY_LIMIT,
{
    if compact_and_retry(&error, retries) {
        Ok(retries + 1)
    } else {
        Err(error)
    }
}

/// A status answered when the upstream may recover by itself: too many
/// requests, or a server error.
pub open spec fn retryable_status(status: u16) -> bool {
    status == 429 || (500 <= status <= 599)
}

pub open spec fn failure_message(status_text: Seq<char>, detail: Seq<char>) -> Seq<char> {
    "upstream Responses request failed with HTTP "@ + status_text + ": "@ + detail
}

/// The error for an upstream answer with a failure status. `status_text` is
/// the status as HTTP writes it, `detail` the detail read from the body and
/// `overflow` whether the body reports a context overflow.
pub fn response_failure(
    status: u16,
    status_text: &str,
    detail: &str,
    overflow: bool,
    retry_after_ms: Option<u64>,
) -> (e: ApiError)
    ensures
        e.message@ == failure_message(status_text@, detail@),
        (status == 413 || overflow) ==> e.kind == ApiErrorKind::ContextOverflow,
        !(status == 413 || overflow) && retryable_status(status) ==> e.kind == (
        ApiErrorKind::Transient { retry_after_ms }),
        !(status == 413 || overflow) && !retryable_status(status) ==> e.kind
            == ApiErrorKind::Ordinary,
        e.status == 503,
{
    let mut v = chars_of("upstream Responses request failed with HTTP ");
    extend_str(&mut v, status_text);
    extend_str(&mut v, ": ");
    extend_str(&mut v, detail);
    let message = string_of(v.as_slice());
    if status == 413 || overflow {
        ApiError::context_overflow(message)
    } else if status == 429 || (500 <= status && status <= 599) {
        ApiError::transient(message, retry_after_ms)
    } else {
        ApiError::unavailable(message)
    }
}

/// A member that is present and not `null`.
pub open spec fn present(v: JsonV, key: Seq<char>) -> bool {
    get_spec(v, key) matches Some(x) && x != JsonV::Null
}

/// A completed response may still report an error: a context overflow, or
/// any non-null `error` member. `text` is the response as serialized JSON,
/// the fallback detail.
pub open spec fn completed_error_spec(value: JsonV, text: Seq<char>) -> Option<
    (ApiErrorKind, Seq<char>),
> {
    let detail = error_detail_spec(text, Some(value));
    if context_overflow_spec(value) {
        Some(
            (
                ApiErrorKind::ContextOverflow,
                "upstream Responses request exceeded the context window: "@ + detail,
            ),
        )
    } else if present(value, "error"@) {
        Some((ApiErrorKind::Ordinary, "upstream Responses request returned an error: "@ + detail))
    } else {
        None
    }
}

pub fn completed_response_check(value: &Json, text: &str) -> (r: Result<(), ApiError>)
    ensures
        (match r {
            Ok(_) => completed_error_spec(value@, text@) is None,
            Err(e) => completed_error_spec(value@, text@) == Some((e.kind, e.message@))
                && e.status == 503,
        }),
{
    let overflow = context_overflow_value(value);
    let errored = match value.get("error") {
        Some(Json::Null) => false,
        Some(_) => true,
        None => false,
    };
    if !overflow && !errored {
        return Ok(());
    }
    let detail = upstream_error_detail(text, Some(value));
    if overflow {
        let mut v = chars_of("upstream Responses request exceeded the context window: ");
        extend_str(&mut v, detail.as_str());
        Err(ApiError::context_overflow(string_of(v.as_slice())))
    } else {
        let mut v = chars_of("upstream Responses request returned an error: ");
        extend_str(&mut v, detail.as_str());
        Err(ApiError::unavailable(string_of(v.as_slice())))
    }
}

/// Once a Worker tool was dispatched, an overflow no longer repeats the
/// request automatically: the tool may already have run, so the error
/// becomes ordinary. Anything else is kept.
pub fn settle_stream_error(error: ApiError, worker_dispatched: bool) -> (r: ApiError)
    ensures
        r.status == error.status,
        r.message@ == error.message@,
        worker_dispatched && error.kind == ApiErrorKind::ContextOverflow ==> r.kind
            == ApiErrorKind::Ordinary,
        !(worker_dispatched && error.kind == ApiErrorKind::ContextOverflow) ==> r.kind
            == error.kind,
{
    let mut e = error;
    if worker_dispatched && e.is_context_overflow() {
        e.kind = ApiErrorKind::Ordinary;
    }
    e
}

/// The status a reasoning audit ends with after a failure.
pub fn audit_failure_status(error: &ApiError) -> (r: String)
    ensures
        r@ == (if error.kind == ApiErrorKind::Cancelled {
            "cancelled"@
        } else {
            "failed"@
        }),
{
    if error.is_cancelled() {
        "cancelled".to_owned()
    } else {
        "failed".to_owned()
    }
}

/// Whether a turn may take its next step: before each upstream request and
/// before each tool call, a cancelled turn stops with the cancellation error.
pub fn check_cancellation(cancelled: bool) -> (r: Result<(), ApiError>)
    ensures
        r is Ok <==> !cancelled,
        r matches Err(e) ==> e.status == 408 && e.message@ == "request superseded by a newer input"@
            && e.kind == ApiErrorKind::Cancelled,
{
    if cancelled {
        Err(ApiError::cancelled())
    } else {
        Ok(())
    }
}

/// What a turn does after a complete response.
#[derive(PartialEq, Eq, Structural, Clone, Copy, Debug)]
pub enum TurnStep {
    /// The model asked to go on without calling tools: request again.
    Continue,
    /// The model answered: the turn ends with its message text.
    Finish,
    /// The response called tools: run them, then request again.
    RunTools,
}

pub open spec fn turn_step_spec(
    has_output: bool,
    cancelled: bool,
    tool_calls: nat,
    end_turn: Option<bool>,
) -> Result<TurnStep, ApiErrorKind> {
    if !has_output {
        Err(ApiErrorKind::Ordinary)
    } else if cancelled {
        Err(ApiErrorKind::Cancelled)
    } else if tool_calls == 0 && end_turn == Some(false) {
        Ok(TurnStep::Continue)
    } else if tool_calls == 0 {
        Ok(TurnStep::Finish)
    } else {
        Ok(TurnStep::RunTools)
    }
}

/// The step after a response: a response without an `output` array is an
/// upstream error, a cancelled turn stops (its response is already stored).
pub fn turn_step(has_output: bool, cancelled: bool, tool_calls: usize, end_turn: Option<bool>) -> (r:
    Result<TurnStep, ApiError>)
    ensures
        (match r {
            Ok(s) => turn_step_spec(has_output, cancelled, tool_calls as nat, end_turn) == Ok::<
                TurnStep,
                ApiErrorKind,
            >(s),
            Err(e) => turn_step_spec(has_output, cancelled, tool_calls as nat, end_turn) == Err::<
                TurnStep,
                ApiErrorKind,
            >(e.kind),
        }),
        !has_output ==> (r matches Err(e) && ordinary(e, 503, "model response has no output"@)),
{
    if !has_output {
        return Err(ApiError::unavailable("model response has no output".to_owned()));
    }
    if cancelled {
        return Err(ApiError::cancelled());
    }
    if tool_calls == 0 {
        match end_turn {
            Some(false) => Ok(TurnStep::Continue),
            _ => Ok(TurnStep::Finish),
        }
    } else {
        Ok(TurnStep::RunTools)
    }
}

/// The context tail after a response: its last stored output, if any.
pub fn tail_after_output(tail: i64, output_ids: &[i64]) -> (r: i64)
    ensures
        r == (if output_ids@.len() > 0 {
            output_ids@.last()
        } else {
            tail
        }),
{
    if output_ids.len() > 0 {
        output_ids[output_ids.len() - 1]
    } else {
        tail
    }
}

/// The context tail after a tool output was stored: it never moves back.
pub fn tail_after_tool(tail: i64, record_id: i64) -> (r: i64)
    ensures
        r == (if record_id > tail {
            record_id
        } else {
            tail
        }),
        r >= tail,
{
    if record_id > tail {
        record_id
    } else {
        tail
    }
}

/// A checkpoint is compacted from records that reach the context tail.
pub fn checkpoint_reaches_tail(record_ids: &[i64], tail: i64) -> (r: Result<(), ApiError>)
    ensures
        r is Ok <==> (record_ids@.len() > 0 && record_ids@.last() == tail),
        r matches Err(e) ==> ordinary(
            e,
            409,
            "checkpoint source records do not reach its context tail"@,
        ),
{
    if record_ids.len() == 0 || record_ids[record_ids.len() - 1] != tail {
        return Err(
            ApiError::conflict("checkpoint source records do not reach its context tail".to_owned()),
        );
    }
    Ok(())
}

/// A checkpoint is stored only while the protocol records it covers are still
/// the latest ones.
pub fn checkpoint_still_latest(latest: Option<i64>, tail: i64) -> (r: Result<(), ApiError>)
    ensures
        r is Ok <==> latest == Some(tail),
        r matches Err(e) ==> ordinary(
            e,
            409,
            "thread context changed while its checkpoint was being compacted"@,
        ),
{
    let same = match latest {
        Some(l) => l == tail,
        None => false,
    };
    if !same {
        return Err(
            ApiError::conflict(
                "thread context changed while its checkpoint was being compacted".to_owned(),
            ),
        );
    }
    Ok(())
}

/// The checkpoint that a summarization response yields: its text, which must
/// not be blank and must satisfy the working-context contract.
pub open spec fn checkpoint_summary_spec(response: JsonV) -> Result<Seq<char>, Seq<char>> {
    match response_text_spec(response) {
        Some(t) => if trim(t).len() == 0 {
            Err("checkpoint response has no text"@)
        } else if !valid_checkpoint(t) {
            Err("checkpoint output does not satisfy the durable working-context contract"@)
        } else {
            Ok(t)
        },
        None => Err("checkpoint response has no text"@),
    }
}

pub fn checkpoint_summary(response: &Json) -> (r: Result<String, ApiError>)
    ensures
        (match r {
            Ok(t) => checkpoint_summary_spec(response@) == Ok::<Seq<char>, Seq<char>>(t@),
            Err(e) => checkpoint_summary_spec(response@) matches Err(m) && ordinary(e, 503, m),
        }),
{
    let text = match response_text(response) {
        Some(t) => t,
        None => {
            return Err(ApiError::unavailable("checkpoint response has no text".to_owned()));
        },
    };
    if trimmed_chars(text.as_str()).len() == 0 {
        return Err(ApiError::unavailable("checkpoint response has no text".to_owned()));
    }
    match validate_checkpoint_text(text.as_str()) {
        Ok(()) => Ok(text),
        Err(m) => Err(ApiError::unavailable(m)),
    }
}

} // verus!
