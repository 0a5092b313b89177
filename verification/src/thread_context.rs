//! Compilation of a thread's replayable context from its stored history.
//! The context ends at a protocol record of the thread (its tail), starts at
//! the latest checkpoint at or before that tail, holds only protocol records,
//! and never replays an output whose input was superseded by a newer input.
use vstd::prelude::*;
use crate::context::{context_item_spec, context_protocol_item};
use crate::error::{ApiError, ApiErrorKind, ordinary};
use crate::requests::{RequestOperation, still_current};
use crate::json::{Json, JsonV, str_member};
use crate::text::str_equals;

verus! {

/// One stored history record of a thread.
#[derive(Debug)]
pub struct StoredRecord {
    pub id: i64,
    pub created_at: i64,
    pub kind: String,
    pub request_input_id: Option<i64>,
    /// The stored payload, or `None` where it is not valid JSON.
    pub payload: Option<Json>,
}

pub struct RecordV {
    pub id: i64,
    pub created_at: i64,
    pub kind: Seq<char>,
    pub request_input_id: Option<i64>,
    pub payload: Option<JsonV>,
}

pub open spec fn record_view(r: StoredRecord) -> RecordV {
    RecordV {
        id: r.id,
        created_at: r.created_at,
        kind: r.kind@,
        request_input_id: r.request_input_id,
        payload: match r.payload {
            Some(p) => Some(p@),
            None => None,
        },
    }
}

pub open spec fn record_views(rs: Seq<StoredRecord>) -> Seq<RecordV> {
    rs.map_values(|r: StoredRecord| record_view(r))
}

/// The kinds of record that belong to the model protocol.
pub open spec fn protocol_kind(k: Seq<char>) -> bool {
    k == "input"@ || k == "response_output"@ || k == "tool_output"@ || k == "checkpoint"@
}

/// Why `t` cannot end a context, if it cannot.
pub open spec fn tail_error(rs: Seq<RecordV>, t: i64) -> Option<Seq<char>> {
    if !(exists|i: int| 0 <= i < rs.len() && rs[i].id == t) {
        Some("idx_tail is not a record in this thread"@)
    } else if !(exists|i: int| 0 <= i < rs.len() && rs[i].id == t && protocol_kind(rs[i].kind)) {
        Some("idx_tail must be a protocol record"@)
    } else {
        None
    }
}

pub open spec fn checkpoint_upto(r: RecordV, t: i64) -> bool {
    r.kind == "checkpoint"@ && r.id <= t
}

pub open spec fn protocol_upto(r: RecordV, t: i64) -> bool {
    protocol_kind(r.kind) && r.id <= t
}

/// `c` is the greatest id of a checkpoint at or before `t`.
pub open spec fn latest_checkpoint(rs: Seq<RecordV>, t: i64, c: i64) -> bool {
    &&& exists|i: int| 0 <= i < rs.len() && checkpoint_upto(rs[i], t) && rs[i].id == c
    &&& forall|j: int| 0 <= j < rs.len() && checkpoint_upto(rs[j], t) ==> rs[j].id <= c
}

/// `c` is the least id of a protocol record at or before `t`.
pub open spec fn first_protocol(rs: Seq<RecordV>, t: i64, c: i64) -> bool {
    &&& exists|i: int| 0 <= i < rs.len() && protocol_upto(rs[i], t) && rs[i].id == c
    &&& forall|j: int| 0 <= j < rs.len() && protocol_upto(rs[j], t) ==> c <= rs[j].id
}

/// Where a context ending at `t` starts: the latest checkpoint at or before
/// `t`, or else the first protocol record.
pub open spec fn context_head_spec(rs: Seq<RecordV>, t: i64) -> Option<i64> {
    if exists|i: int| 0 <= i < rs.len() && checkpoint_upto(rs[i], t) {
        Some(choose|c: i64| latest_checkpoint(rs, t, c))
    } else if exists|i: int| 0 <= i < rs.len() && protocol_upto(rs[i], t) {
        Some(choose|c: i64| first_protocol(rs, t, c))
    } else {
        None
    }
}

pub open spec fn output_kind(k: Seq<char>) -> bool {
    k == "response_output"@ || k == "tool_output"@
}

/// An output is superseded when a newer input of the thread came after the
/// input it answers and before the output itself.
pub open spec fn superseded(rs: Seq<RecordV>, r: RecordV) -> bool {
    output_kind(r.kind) && match r.request_input_id {
        Some(q) => exists|j: int|
            0 <= j < rs.len() && rs[j].kind == "input"@ && q < rs[j].id && rs[j].id < r.id,
        None => false,
    }
}

pub open spec fn replayed(rs: Seq<RecordV>, h: i64, t: i64, r: RecordV) -> bool {
    h <= r.id && r.id <= t && protocol_kind(r.kind) && !superseded(rs, r)
}

/// The records replayed among the first `n`, in their stored order.
pub open spec fn replayed_prefix(rs: Seq<RecordV>, n: int, h: i64, t: i64) -> Seq<RecordV>
    decreases n,
{
    if n <= 0 {
        Seq::empty()
    } else {
        let before = replayed_prefix(rs, n - 1, h, t);
        if replayed(rs, h, t, rs[n - 1]) {
            before.push(rs[n - 1])
        } else {
            before
        }
    }
}

pub open spec fn replayed_records(rs: Seq<RecordV>, h: i64, t: i64) -> Seq<RecordV> {
    replayed_prefix(rs, rs.len() as int, h, t)
}

#[derive(Debug)]
pub struct ProtocolRecordMetadata {
    pub record_id: i64,
    pub created_at: i64,
    pub kind: String,
}

/// A compiled context: the replayed items with the records they came from.
#[derive(Debug)]
pub struct CompiledThreadContext {
    pub items: Vec<Json>,
    pub protocol_items: Vec<Json>,
    pub record_ids: Vec<i64>,
    pub record_metadata: Vec<ProtocolRecordMetadata>,
    pub idx_head: i64,
    pub idx_tail: i64,
}

/// A compiled entry stands for record `r`.
pub open spec fn entry_matches(
    r: RecordV,
    id: i64,
    item: Json,
    protocol_item: Json,
    m: ProtocolRecordMetadata,
) -> bool {
    &&& id == r.id
    &&& item@ == context_item_spec(r.payload->0)
    &&& protocol_item@ == context_item_spec(r.payload->0)
    &&& m.record_id == r.id
    &&& m.created_at == r.created_at
    &&& m.kind@ == r.kind
}

/// The compiled entries stand, in order, for the records of `sel`.
pub open spec fn entries_match(
    sel: Seq<RecordV>,
    ids: Seq<i64>,
    items: Seq<Json>,
    protocol_items: Seq<Json>,
    md: Seq<ProtocolRecordMetadata>,
) -> bool {
    &&& ids.len() == sel.len()
    &&& items.len() == sel.len()
    &&& protocol_items.len() == sel.len()
    &&& md.len() == sel.len()
    &&& forall|k: int|
        0 <= k < sel.len() ==> #[trigger] entry_matches(
            sel[k],
            ids[k],
            items[k],
            protocol_items[k],
            md[k],
        )
}

pub open spec fn payloads_present(sel: Seq<RecordV>) -> bool {
    forall|k: int| 0 <= k < sel.len() ==> (#[trigger] sel[k]).payload is Some
}

/// The context of `rs` ending at `t` holds exactly the replayed records.
pub open spec fn compiled_from(c: CompiledThreadContext, sel: Seq<RecordV>, h: i64, t: i64) -> bool {
    &&& c.idx_head == h
    &&& c.idx_tail == t
    &&& entries_match(sel, c.record_ids@, c.items@, c.protocol_items@, c.record_metadata@)
}

fn is_protocol_kind(k: &str) -> (r: bool)
    ensures
        r == protocol_kind(k@),
{
    str_equals(k, "input") || str_equals(k, "response_output") || str_equals(k, "tool_output")
        || str_equals(k, "checkpoint")
}

/// The tail of a context must be a protocol record of the thread.
pub fn validate_protocol_record(records: &[StoredRecord], idx_tail: i64) -> (r: Result<
    (),
    ApiError,
>)
    ensures
        r is Ok <==> tail_error(record_views(records@), idx_tail) is None,
        r matches Err(e) ==> ordinary(e, 409, tail_error(record_views(records@), idx_tail)->0),
{
    let ghost rs = record_views(records@);
    let mut found = false;
    let mut protocol = false;
    let mut i: usize = 0;
    while i < records.len()
        invariant
            i <= records.len(),
            rs == record_views(records@),
            found <==> exists|j: int| 0 <= j < i && rs[j].id == idx_tail,
            protocol <==> exists|j: int|
                0 <= j < i && rs[j].id == idx_tail && protocol_kind(rs[j].kind),
        decreases records.len() - i,
    {
        let ghost gi = i as int;
        assert(rs[gi] == record_view(records@[gi]));
        if records[i].id == idx_tail {
            found = true;
            if is_protocol_kind(records[i].kind.as_str()) {
                protocol = true;
            }
        }
        i = i + 1;
    }
    if !found {
        Err(ApiError::conflict("idx_tail is not a record in this thread".to_owned()))
    } else if !protocol {
        Err(ApiError::conflict("idx_tail must be a protocol record".to_owned()))
    } else {
        Ok(())
    }
}

/// Where the context ending at `idx_tail` starts.
pub fn context_idx_head(records: &[StoredRecord], idx_tail: i64) -> (r: Result<i64, ApiError>)
    ensures
        (match context_head_spec(record_views(records@), idx_tail) {
            Some(h) => r == Ok::<i64, ApiError>(h),
            None => r matches Err(e) && ordinary(e, 409, "thread has no context head"@),
        }),
{
    let ghost rs = record_views(records@);
    let mut checkpoint: Option<i64> = None;
    let mut first: Option<i64> = None;
    let ghost mut cp_at: int = 0;
    let ghost mut first_at: int = 0;
    let mut i: usize = 0;
    while i < records.len()
        invariant
            i <= records.len(),
            rs == record_views(records@),
            checkpoint is None <==> !exists|j: int| 0 <= j < i && checkpoint_upto(rs[j], idx_tail),
            checkpoint matches Some(c) ==> {
                &&& 0 <= cp_at < i
                &&& checkpoint_upto(rs[cp_at], idx_tail)
                &&& rs[cp_at].id == c
                &&& forall|j: int| 0 <= j < i && checkpoint_upto(rs[j], idx_tail) ==> rs[j].id <= c
            },
            first is None <==> !exists|j: int| 0 <= j < i && protocol_upto(rs[j], idx_tail),
            first matches Some(c) ==> {
                &&& 0 <= first_at < i
                &&& protocol_upto(rs[first_at], idx_tail)
                &&& rs[first_at].id == c
                &&& forall|j: int| 0 <= j < i && protocol_upto(rs[j], idx_tail) ==> c <= rs[j].id
            },
        decreases records.len() - i,
    {
        let ghost gi = i as int;
        assert(rs[gi] == record_view(records@[gi]));
        let id = records[i].id;
        let protocol = is_protocol_kind(records[i].kind.as_str());
        if id <= idx_tail && str_equals(records[i].kind.as_str(), "checkpoint") {
            match checkpoint {
                Some(c) => {
                    if c < id {
                        checkpoint = Some(id);
                        proof {
                            cp_at = gi;
                        }
                    }
                },
                None => {
                    checkpoint = Some(id);
                    proof {
                        cp_at = gi;
                    }
                },
            }
        }
        if id <= idx_tail && protocol {
            match first {
                Some(c) => {
                    if id < c {
                        first = Some(id);
                        proof {
                            first_at = gi;
                        }
                    }
                },
                None => {
                    first = Some(id);
                    proof {
                        first_at = gi;
                    }
                },
            }
        }
        i = i + 1;
    }
    match checkpoint {
        Some(c) => {
            proof {
                assert(latest_checkpoint(rs, idx_tail, c));
                let c2 = choose|c2: i64| latest_checkpoint(rs, idx_tail, c2);
                let w = choose|w: int|
                    0 <= w < rs.len() && checkpoint_upto(rs[w], idx_tail) && rs[w].id == c2;
                assert(c2 <= c);
                assert(c <= c2);
            }
            Ok(c)
        },
        None => match first {
            Some(c) => {
                proof {
                    assert(first_protocol(rs, idx_tail, c));
                    let c2 = choose|c2: i64| first_protocol(rs, idx_tail, c2);
                    let w = choose|w: int|
                        0 <= w < rs.len() && protocol_upto(rs[w], idx_tail) && rs[w].id == c2;
                    assert(c2 <= c);
                    assert(c <= c2);
                }
                Ok(c)
            },
            None => Err(ApiError::conflict("thread has no context head".to_owned())),
        },
    }
}

/// Replayed records only accumulate as the scanned prefix grows.
proof fn lemma_prefix_grows(rs: Seq<RecordV>, m: int, n: int, h: i64, t: i64)
    requires
        0 <= m <= n <= rs.len(),
    ensures
        replayed_prefix(rs, m, h, t).len() <= replayed_prefix(rs, n, h, t).len(),
        forall|k: int|
            0 <= k < replayed_prefix(rs, m, h, t).len() ==> replayed_prefix(rs, n, h, t)[k]
                == replayed_prefix(rs, m, h, t)[k],
    decreases n - m,
{
    if m < n {
        lemma_prefix_grows(rs, m, n - 1, h, t);
    }
}

fn has_input_between(records: &[StoredRecord], q: i64, id: i64) -> (r: bool)
    ensures
        r == exists|j: int|
            0 <= j < records@.len() && record_views(records@)[j].kind == "input"@ && q
                < record_views(records@)[j].id && record_views(records@)[j].id < id,
{
    let ghost rs = record_views(records@);
    let mut j: usize = 0;
    while j < records.len()
        invariant
            j <= records.len(),
            rs == record_views(records@),
            forall|k: int|
                0 <= k < j ==> !(rs[k].kind == "input"@ && q < rs[k].id && rs[k].id < id),
        decreases records.len() - j,
    {
        let ghost gj = j as int;
        assert(rs[gj] == record_view(records@[gj]));
        if q < records[j].id && records[j].id < id && str_equals(records[j].kind.as_str(), "input") {
            return true;
        }
        j = j + 1;
    }
    false
}

fn is_superseded(records: &[StoredRecord], r: &StoredRecord) -> (b: bool)
    ensures
        b == superseded(record_views(records@), record_view(*r)),
{
    let kind = r.kind.as_str();
    if !(str_equals(kind, "response_output") || str_equals(kind, "tool_output")) {
        return false;
    }
    match r.request_input_id {
        Some(q) => has_input_between(records, q, r.id),
        None => false,
    }
}

/// Records as a thread stores them: in increasing id order.
pub open spec fn ids_increasing(rs: Seq<RecordV>) -> bool {
    forall|i: int, j: int| 0 <= i < j < rs.len() ==> rs[i].id < rs[j].id
}

proof fn lemma_prefix_members(rs: Seq<RecordV>, n: int, h: i64, t: i64)
    requires
        0 <= n <= rs.len(),
    ensures
        forall|k: int|
            0 <= k < replayed_prefix(rs, n, h, t).len() ==> #[trigger] replayed(
                rs,
                h,
                t,
                replayed_prefix(rs, n, h, t)[k],
            ),
    decreases n,
{
    if n > 0 {
        lemma_prefix_members(rs, n - 1, h, t);
        let before = replayed_prefix(rs, n - 1, h, t);
        if replayed(rs, h, t, rs[n - 1]) {
            assert forall|k: int| 0 <= k < before.len() + 1 implies #[trigger] replayed(
                rs,
                h,
                t,
                before.push(rs[n - 1])[k],
            ) by {
                if k < before.len() {
                    assert(before.push(rs[n - 1])[k] == before[k]);
                }
            }
        }
    }
}

proof fn lemma_prefix_empty(rs: Seq<RecordV>, m: int, h: i64, t: i64)
    requires
        0 <= m <= rs.len(),
        forall|j: int| 0 <= j < m ==> rs[j].id < h,
    ensures
        replayed_prefix(rs, m, h, t).len() == 0,
    decreases m,
{
    if m > 0 {
        lemma_prefix_empty(rs, m - 1, h, t);
    }
}

/// A context with a checkpoint at or before its tail begins with the latest
/// such checkpoint, and everything it replays is a protocol record between
/// that checkpoint and the tail whose input was not superseded.
pub proof fn lemma_context_starts_at_latest_checkpoint(rs: Seq<RecordV>, t: i64)
    requires
        ids_increasing(rs),
        exists|i: int| 0 <= i < rs.len() && checkpoint_upto(rs[i], t),
    ensures
        ({
            let h = context_head_spec(rs, t)->0;
            let sel = replayed_records(rs, h, t);
            &&& sel.len() > 0
            &&& sel[0].kind == "checkpoint"@
            &&& sel[0].id == h
            &&& forall|k: int| 0 <= k < sel.len() ==> #[trigger] replayed(rs, h, t, sel[k])
        }),
{
    let h = context_head_spec(rs, t)->0;
    let p = |x: RecordV| checkpoint_upto(x, t);
    lemma_max_id(rs, p);
    assert(latest_checkpoint(rs, t, max_id(rs, p)->0));
    assert(latest_checkpoint(rs, t, h));
    let w = choose|w: int| 0 <= w < rs.len() && checkpoint_upto(rs[w], t) && rs[w].id == h;
    assert forall|j: int| 0 <= j < w implies rs[j].id < h by {}
    lemma_prefix_empty(rs, w, h, t);
    reveal_strlit("checkpoint");
    reveal_strlit("response_output");
    reveal_strlit("tool_output");
    assert(rs[w].kind == "checkpoint"@);
    assert("checkpoint"@.len() != "response_output"@.len());
    assert("checkpoint"@.len() != "tool_output"@.len());
    assert(!output_kind(rs[w].kind));
    assert(replayed(rs, h, t, rs[w]));
    assert(replayed_prefix(rs, w + 1, h, t) =~= seq![rs[w]]);
    lemma_prefix_grows(rs, w + 1, rs.len() as int, h, t);
    lemma_prefix_members(rs, rs.len() as int, h, t);
}

/// An input of the thread newer than `q` exists.
pub open spec fn newer_input(rs: Seq<RecordV>, q: i64) -> bool {
    exists|j: int| 0 <= j < rs.len() && rs[j].kind == "input"@ && rs[j].id > q
}

/// The kind under which a response output answering input `q` is stored.
pub open spec fn stored_output_kind(rs: Seq<RecordV>, q: i64) -> Seq<char> {
    if newer_input(rs, q) {
        "activity"@
    } else {
        "response_output"@
    }
}

/// The kind under which a response output answering `request_input_id` is
/// stored: once a newer input exists, it is kept only as activity.
pub fn response_output_kind(records: &[StoredRecord], request_input_id: i64) -> (k: String)
    ensures
        k@ == stored_output_kind(record_views(records@), request_input_id),
{
    let ghost rs = record_views(records@);
    let mut j: usize = 0;
    while j < records.len()
        invariant
            j <= records.len(),
            rs == record_views(records@),
            forall|k: int| 0 <= k < j ==> !(rs[k].kind == "input"@ && rs[k].id > request_input_id),
        decreases records.len() - j,
    {
        let ghost gj = j as int;
        assert(rs[gj] == record_view(records@[gj]));
        if records[j].id > request_input_id && str_equals(records[j].kind.as_str(), "input") {
            return "activity".to_owned();
        }
        j = j + 1;
    }
    "response_output".to_owned()
}

/// An output appended for an input that a newer input has superseded is
/// kept, as activity, and no context replays it; an output appended for the
/// latest input is replayed by every context whose range holds it.
pub proof fn lemma_superseded_output_never_replayed(
    rs: Seq<RecordV>,
    o: RecordV,
    q: i64,
    h: i64,
    t: i64,
)
    requires
        o.request_input_id == Some(q),
        o.kind == stored_output_kind(rs, q),
        forall|j: int| 0 <= j < rs.len() ==> rs[j].id < o.id,
    ensures
        newer_input(rs, q) ==> !replayed(rs.push(o), h, t, o),
        !newer_input(rs, q) && h <= o.id <= t ==> replayed(rs.push(o), h, t, o),
{
    reveal_strlit("activity");
    reveal_strlit("input");
    reveal_strlit("response_output");
    reveal_strlit("tool_output");
    reveal_strlit("checkpoint");
    let all = rs.push(o);
    if newer_input(rs, q) {
        assert(o.kind == "activity"@);
        assert("activity"@.len() != "input"@.len());
        assert("activity"@.len() != "response_output"@.len());
        assert("activity"@.len() != "tool_output"@.len());
        assert("activity"@.len() != "checkpoint"@.len());
        assert(!protocol_kind(o.kind));
    } else {
        assert(o.kind == "response_output"@);
        assert(output_kind(o.kind));
        assert("response_output"@.len() != "input"@.len());
        assert forall|j: int|
            0 <= j < all.len() && all[j].kind == "input"@ && q < all[j].id implies !(all[j].id
            < o.id) by {
            if j < rs.len() {
                assert(all[j] == rs[j]);
            }
        }
        assert(!superseded(all, o));
    }
}

/// `c` is the greatest id among the records that satisfy `p`.
pub open spec fn greatest_id(rs: Seq<RecordV>, p: spec_fn(RecordV) -> bool, c: i64) -> bool {
    &&& exists|i: int| 0 <= i < rs.len() && p(rs[i]) && rs[i].id == c
    &&& forall|j: int| 0 <= j < rs.len() && p(rs[j]) ==> rs[j].id <= c
}

/// The greatest id among the records that satisfy `p`, if any does.
pub open spec fn max_id(rs: Seq<RecordV>, p: spec_fn(RecordV) -> bool) -> Option<i64> {
    if exists|i: int| 0 <= i < rs.len() && p(rs[i]) {
        Some(choose|c: i64| greatest_id(rs, p, c))
    } else {
        None
    }
}

/// A record that starts a request: an input, or a thread control.
pub open spec fn request_record(r: RecordV) -> bool {
    r.kind == "input"@ || (r.kind == "activity"@ && (match r.payload {
        Some(p) => str_member(p, "type"@) == Some("thread_control"@),
        None => false,
    }))
}

fn is_request_record(r: &StoredRecord) -> (b: bool)
    ensures
        b == request_record(record_view(*r)),
{
    if str_equals(r.kind.as_str(), "input") {
        return true;
    }
    if !str_equals(r.kind.as_str(), "activity") {
        return false;
    }
    match &r.payload {
        Some(p) => p.str_member_is("type", "thread_control"),
        None => false,
    }
}

/// The id of the thread's latest request record.
pub fn latest_request_record_id(records: &[StoredRecord]) -> (r: Option<i64>)
    ensures
        r == max_id(record_views(records@), |x: RecordV| request_record(x)),
{
    let ghost rs = record_views(records@);
    let ghost p = |x: RecordV| request_record(x);
    let mut best: Option<i64> = None;
    let ghost mut at: int = 0;
    let mut i: usize = 0;
    while i < records.len()
        invariant
            i <= records.len(),
            rs == record_views(records@),
            p == (|x: RecordV| request_record(x)),
            best is None <==> !exists|j: int| 0 <= j < i && p(rs[j]),
            best matches Some(c) ==> {
                &&& 0 <= at < i
                &&& p(rs[at])
                &&& rs[at].id == c
                &&& forall|j: int| 0 <= j < i && p(rs[j]) ==> rs[j].id <= c
            },
        decreases records.len() - i,
    {
        let ghost gi = i as int;
        assert(rs[gi] == record_view(records@[gi]));
        if is_request_record(&records[i]) {
            let id = records[i].id;
            match best {
                Some(c) => {
                    if c < id {
                        best = Some(id);
                        proof {
                            at = gi;
                        }
                    }
                },
                None => {
                    best = Some(id);
                    proof {
                        at = gi;
                    }
                },
            }
        }
        i = i + 1;
    }
    proof {
        if let Some(c) = best {
            assert(greatest_id(rs, p, c));
            let c2 = choose|c2: i64| greatest_id(rs, p, c2);
            let w = choose|w: int| 0 <= w < rs.len() && p(rs[w]) && rs[w].id == c2;
            assert(c2 <= c);
            assert(c <= c2);
        }
    }
    best
}

/// The tail of the context a request answers: the latest protocol record
/// at or before the request's own record.
pub fn request_context_tail(records: &[StoredRecord], record_idx: i64) -> (r: Result<
    i64,
    ApiError,
>)
    ensures
        (match max_id(record_views(records@), |x: RecordV| protocol_upto(x, record_idx)) {
            Some(t) => r == Ok::<i64, ApiError>(t),
            None => r matches Err(e) && ordinary(e, 409, "thread has no protocol history"@),
        }),
{
    let ghost rs = record_views(records@);
    let ghost p = |x: RecordV| protocol_upto(x, record_idx);
    let mut best: Option<i64> = None;
    let ghost mut at: int = 0;
    let mut i: usize = 0;
    while i < records.len()
        invariant
            i <= records.len(),
            rs == record_views(records@),
            p == (|x: RecordV| protocol_upto(x, record_idx)),
            best is None <==> !exists|j: int| 0 <= j < i && p(rs[j]),
            best matches Some(c) ==> {
                &&& 0 <= at < i
                &&& p(rs[at])
                &&& rs[at].id == c
                &&& forall|j: int| 0 <= j < i && p(rs[j]) ==> rs[j].id <= c
            },
        decreases records.len() - i,
    {
        let ghost gi = i as int;
        assert(rs[gi] == record_view(records@[gi]));
        let id = records[i].id;
        if id <= record_idx && is_protocol_kind(records[i].kind.as_str()) {
            match best {
                Some(c) => {
                    if c < id {
                        best = Some(id);
                        proof {
                            at = gi;
                        }
                    }
                },
                None => {
                    best = Some(id);
                    proof {
                        at = gi;
                    }
                },
            }
        }
        i = i + 1;
    }
    match best {
        Some(c) => {
            proof {
                assert(greatest_id(rs, p, c));
                let c2 = choose|c2: i64| greatest_id(rs, p, c2);
                let w = choose|w: int| 0 <= w < rs.len() && p(rs[w]) && rs[w].id == c2;
                assert(c2 <= c);
                assert(c <= c2);
            }
            Ok(c)
        },
        None => Err(ApiError::conflict("thread has no protocol history".to_owned())),
    }
}

proof fn lemma_greatest_exists(rs: Seq<RecordV>, p: spec_fn(RecordV) -> bool, n: int)
    requires
        0 <= n <= rs.len(),
        exists|i: int| 0 <= i < n && p(rs[i]),
    ensures
        exists|c: i64| #[trigger] greatest_id(rs.take(n), p, c),
    decreases n,
{
    let pre = rs.take(n);
    if exists|i: int| 0 <= i < n - 1 && p(rs[i]) {
        lemma_greatest_exists(rs, p, n - 1);
        let before = rs.take(n - 1);
        let c = choose|c: i64| #[trigger] greatest_id(before, p, c);
        let i0 = choose|i: int| 0 <= i < before.len() && p(before[i]) && before[i].id == c;
        assert(pre[i0] == before[i0]);
        assert forall|j: int| 0 <= j < n - 1 implies pre[j] == before[j] by {}
        if p(rs[n - 1]) && c < rs[n - 1].id {
            assert(pre[n - 1] == rs[n - 1]);
            assert(greatest_id(pre, p, rs[n - 1].id));
        } else {
            assert(greatest_id(pre, p, c));
        }
    } else {
        assert(pre[n - 1] == rs[n - 1]);
        assert(greatest_id(pre, p, rs[n - 1].id));
    }
}

/// When some record satisfies `p`, `max_id` is the greatest of their ids.
proof fn lemma_max_id(rs: Seq<RecordV>, p: spec_fn(RecordV) -> bool)
    requires
        exists|i: int| 0 <= i < rs.len() && p(rs[i]),
    ensures
        max_id(rs, p) is Some,
        greatest_id(rs, p, max_id(rs, p)->0),
{
    lemma_greatest_exists(rs, p, rs.len() as int);
    assert(rs.take(rs.len() as int) =~= rs);
}

/// A request once superseded stays superseded, whatever the thread stores
/// after it: new records only raise the latest request record.
pub proof fn lemma_superseded_request_stays_superseded(
    rs: Seq<RecordV>,
    r: RecordV,
    record_idx: i64,
)
    requires
        forall|j: int| 0 <= j < rs.len() ==> rs[j].id < r.id,
        crate::requests::superseded(max_id(rs, |x: RecordV| request_record(x)), record_idx),
    ensures
        crate::requests::superseded(
            max_id(rs.push(r), |x: RecordV| request_record(x)),
            record_idx,
        ),
{
    let p = |x: RecordV| request_record(x);
    let all = rs.push(r);
    let i = choose|i: int| 0 <= i < rs.len() && p(rs[i]);
    lemma_max_id(rs, p);
    let c = max_id(rs, p)->0;
    let w = choose|w: int| 0 <= w < rs.len() && p(rs[w]) && rs[w].id == c;
    assert(all[w] == rs[w]);
    lemma_max_id(all, p);
    let d = max_id(all, p)->0;
    assert(all[w].id <= d);
}

/// The thread's latest protocol record.
pub fn latest_protocol_record_id(records: &[StoredRecord]) -> (r: Result<i64, ApiError>)
    ensures
        (match max_id(record_views(records@), |x: RecordV| protocol_kind(x.kind)) {
            Some(t) => r == Ok::<i64, ApiError>(t),
            None => r matches Err(e) && ordinary(e, 409, "thread has no protocol history"@),
        }),
{
    proof {
        assert((|x: RecordV| protocol_upto(x, i64::MAX)) =~= (|x: RecordV| protocol_kind(x.kind)));
    }
    request_context_tail(records, i64::MAX)
}

/// The record `idx` is a thread control that asked for compaction.
pub open spec fn compact_control(rs: Seq<RecordV>, idx: i64) -> bool {
    exists|i: int|
        0 <= i < rs.len() && rs[i].id == idx && rs[i].kind == "activity"@ && (match rs[i].payload {
            Some(p) => str_member(p, "action"@) == Some("compact"@),
            None => false,
        })
}

fn is_compact_control(records: &[StoredRecord], idx: i64) -> (b: bool)
    ensures
        b == compact_control(record_views(records@), idx),
{
    let ghost rs = record_views(records@);
    let mut i: usize = 0;
    while i < records.len()
        invariant
            i <= records.len(),
            rs == record_views(records@),
            forall|j: int|
                0 <= j < i ==> !(rs[j].id == idx && rs[j].kind == "activity"@ && (match rs[j].payload {
                    Some(p) => str_member(p, "action"@) == Some("compact"@),
                    None => false,
                })),
        decreases records.len() - i,
    {
        let ghost gi = i as int;
        assert(rs[gi] == record_view(records@[gi]));
        if records[i].id == idx && str_equals(records[i].kind.as_str(), "activity") {
            match &records[i].payload {
                Some(p) => {
                    if p.str_member_is("action", "compact") {
                        return true;
                    }
                },
                None => {},
            }
        }
        i = i + 1;
    }
    false
}

/// The request a running thread resumes after a restart: its latest request
/// record, compacting when that record asked for compaction. A thread that
/// is not running resumes nothing.
pub fn running_request(records: &[StoredRecord], status: &str) -> (r: Result<
    Option<(i64, RequestOperation)>,
    ApiError,
>)
    ensures
        status@ != "running"@ ==> r == Ok::<Option<(i64, RequestOperation)>, ApiError>(None),
        status@ == "running"@ ==> (match max_id(
            record_views(records@),
            |x: RecordV| request_record(x),
        ) {
            Some(idx) => r == Ok::<Option<(i64, RequestOperation)>, ApiError>(
                Some(
                    (
                        idx,
                        if compact_control(record_views(records@), idx) {
                            RequestOperation::Compact
                        } else {
                            RequestOperation::Inference
                        },
                    ),
                ),
            ),
            None => r matches Err(e) && ordinary(e, 500, "Cybion could not complete the request"@),
        }),
{
    if !str_equals(status, "running") {
        return Ok(None);
    }
    let idx = match latest_request_record_id(records) {
        Some(idx) => idx,
        None => {
            return Err(ApiError::internal());
        },
    };
    if is_compact_control(records, idx) {
        Ok(Some((idx, RequestOperation::Compact)))
    } else {
        Ok(Some((idx, RequestOperation::Inference)))
    }
}

/// The context a running request works on, as long as it is still the
/// thread's latest request and the thread still runs: the whole protocol
/// history up to the latest protocol record.
pub fn current_context(records: &[StoredRecord], status: &str, input: i64) -> (r: Result<
    CompiledThreadContext,
    ApiError,
>)
    ensures
        !(max_id(record_views(records@), |x: RecordV| request_record(x)) == Some(input)
            && status@ == "running"@) ==> (r matches Err(e) && e.kind == ApiErrorKind::Cancelled),
        max_id(record_views(records@), |x: RecordV| request_record(x)) == Some(input) && status@
            == "running"@ ==> (match max_id(
            record_views(records@),
            |x: RecordV| protocol_kind(x.kind),
        ) {
            None => r matches Err(e) && ordinary(e, 409, "thread has no protocol history"@),
            Some(t) => {
                let rs = record_views(records@);
                let h = context_head_spec(rs, t)->0;
                let sel = replayed_records(rs, h, t);
                &&& !payloads_present(sel) ==> (r matches Err(e) && ordinary(
                    e,
                    500,
                    "Cybion could not complete the request"@,
                ))
                &&& payloads_present(sel) && sel.len() == 0 ==> (r matches Err(e) && ordinary(
                    e,
                    409,
                    "thread has no replayable history"@,
                ))
                &&& payloads_present(sel) && sel.len() > 0 ==> (r matches Ok(c) && compiled_from(
                    c,
                    sel,
                    h,
                    t,
                ))
            },
        }),
{
    let ghost rs = record_views(records@);
    let latest = latest_request_record_id(records);
    still_current(latest, input, status)?;
    let tail = latest_protocol_record_id(records)?;
    proof {
        let p = |x: RecordV| protocol_kind(x.kind);
        assert(greatest_id(rs, p, tail)) by {
            lemma_max_id(rs, p);
        }
        let w = choose|w: int| 0 <= w < rs.len() && p(rs[w]) && rs[w].id == tail;
        assert(rs[w].id == tail && protocol_kind(rs[w].kind));
        assert(tail_error(rs, tail) is None);
    }
    compile_thread_context(records, tail)
}

/// A tool call the model asked for.
pub open spec fn tool_call_item(p: JsonV) -> bool {
    str_member(p, "type"@) == Some("function_call"@) || str_member(p, "type"@) == Some(
        "custom_tool_call"@,
    ) || str_member(p, "type"@) == Some("tool_search_call"@)
}

/// A later tool output answers the call `r`.
pub open spec fn answered(rs: Seq<RecordV>, r: RecordV) -> bool {
    exists|j: int|
        0 <= j < rs.len() && rs[j].id > r.id && rs[j].kind == "tool_output"@ && (match rs[j].payload {
            Some(o) => str_member(o, "call_id"@) is Some && str_member(o, "call_id"@) == str_member(
                r.payload->0,
                "call_id"@,
            ),
            None => false,
        })
}

/// A tool call recorded for the request at `input` that no output answers.
pub open spec fn pending_call(rs: Seq<RecordV>, input: i64, r: RecordV) -> bool {
    &&& r.id > input
    &&& r.kind == "response_output"@
    &&& r.payload is Some
    &&& tool_call_item(r.payload->0)
    &&& !answered(rs, r)
}

/// The pending calls among the first `n` records, in stored order.
pub open spec fn pending_prefix(rs: Seq<RecordV>, n: int, input: i64) -> Seq<RecordV>
    decreases n,
{
    if n <= 0 {
        Seq::empty()
    } else {
        let before = pending_prefix(rs, n - 1, input);
        if pending_call(rs, input, rs[n - 1]) {
            before.push(rs[n - 1])
        } else {
            before
        }
    }
}

fn is_answered(records: &[StoredRecord], r: &StoredRecord) -> (b: bool)
    requires
        r.payload is Some,
    ensures
        b == answered(record_views(records@), record_view(*r)),
{
    let ghost rs = record_views(records@);
    let call = match &r.payload {
        Some(p) => p,
        None => {
            return false;
        },
    };
    let call_id = call.str_member("call_id");
    let mut j: usize = 0;
    while j < records.len()
        invariant
            j <= records.len(),
            rs == record_views(records@),
            r.payload == Some(*call),
            match (call_id, str_member(call@, "call_id"@)) {
                (None, None) => true,
                (Some(x), Some(y)) => x@ == y,
                _ => false,
            },
            forall|k: int|
                0 <= k < j ==> !(rs[k].id > r.id && rs[k].kind == "tool_output"@ && (match rs[k].payload {
                    Some(o) => str_member(o, "call_id"@) is Some && str_member(o, "call_id"@)
                        == str_member(call@, "call_id"@),
                    None => false,
                })),
        decreases records.len() - j,
    {
        let ghost gj = j as int;
        assert(rs[gj] == record_view(records@[gj]));
        if records[j].id > r.id && str_equals(records[j].kind.as_str(), "tool_output") {
            match &records[j].payload {
                Some(o) => {
                    match (o.str_member("call_id"), call_id) {
                        (Some(a), Some(b)) => {
                            if str_equals(a, b) {
                                return true;
                            }
                        },
                        _ => {},
                    }
                },
                None => {},
            }
        }
        j = j + 1;
    }
    false
}

/// The tool calls of the request at `input` that still wait for an output,
/// in the order the model made them.
pub fn pending_tool_calls(records: &[StoredRecord], input: i64) -> (r: Vec<Json>)
    ensures
        r@.len() == pending_prefix(record_views(records@), records@.len() as int, input).len(),
        forall|k: int|
            0 <= k < r@.len() ==> #[trigger] r@[k]@ == pending_prefix(
                record_views(records@),
                records@.len() as int,
                input,
            )[k].payload->0,
{
    let ghost rs = record_views(records@);
    let mut out: Vec<Json> = Vec::new();
    let mut i: usize = 0;
    while i < records.len()
        invariant
            i <= records.len(),
            rs == record_views(records@),
            out@.len() == pending_prefix(rs, i as int, input).len(),
            forall|k: int|
                0 <= k < out@.len() ==> #[trigger] out@[k]@ == pending_prefix(rs, i as int, input)[k].payload->0,
        decreases records.len() - i,
    {
        let ghost gi = i as int;
        let ghost before = pending_prefix(rs, gi, input);
        assert(rs[gi] == record_view(records@[gi]));
        let record = &records[i];
        let mut pending = false;
        if record.id > input && str_equals(record.kind.as_str(), "response_output") {
            match &record.payload {
                Some(p) => {
                    if p.str_member_is("type", "function_call") || p.str_member_is(
                        "type",
                        "custom_tool_call",
                    ) || p.str_member_is("type", "tool_search_call") {
                        if !is_answered(records, record) {
                            out.push(p.copy());
                            pending = true;
                        }
                    }
                },
                None => {},
            }
        }
        proof {
            let after = pending_prefix(rs, gi + 1, input);
            if pending {
                assert(after == before.push(rs[gi]));
                assert forall|k: int| 0 <= k < out@.len() implies #[trigger] out@[k]@
                    == after[k].payload->0 by {
                    if k < before.len() {
                        assert(after[k] == before[k]);
                    }
                }
            } else {
                assert(!pending_call(rs, input, rs[gi]));
                assert(after == before);
            }
        }
        i = i + 1;
    }
    out
}

/// Compiles the context of a thread that ends at `idx_tail`, from the
/// thread's stored records in id order.
pub fn compile_thread_context(records: &[StoredRecord], idx_tail: i64) -> (r: Result<
    CompiledThreadContext,
    ApiError,
>)
    ensures
        tail_error(record_views(records@), idx_tail) matches Some(m) ==> r matches Err(e)
            && ordinary(e, 409, m),
        tail_error(record_views(records@), idx_tail) is None ==> context_head_spec(
            record_views(records@),
            idx_tail,
        ) is Some,
        tail_error(record_views(records@), idx_tail) is None ==> {
            let rs = record_views(records@);
            let h = context_head_spec(rs, idx_tail)->0;
            let sel = replayed_records(rs, h, idx_tail);
            &&& !payloads_present(sel) ==> (r matches Err(e) && ordinary(
                e,
                500,
                "Cybion could not complete the request"@,
            ))
            &&& payloads_present(sel) && sel.len() == 0 ==> (r matches Err(e) && ordinary(
                e,
                409,
                "thread has no replayable history"@,
            ))
            &&& payloads_present(sel) && sel.len() > 0 ==> (r matches Ok(c) && compiled_from(
                c,
                sel,
                h,
                idx_tail,
            ))
        },
{
    let ghost rs = record_views(records@);
    validate_protocol_record(records, idx_tail)?;
    proof {
        let w = choose|w: int|
            0 <= w < rs.len() && rs[w].id == idx_tail && protocol_kind(rs[w].kind);
        assert(protocol_upto(rs[w], idx_tail));
    }
    let idx_head = match context_idx_head(records, idx_tail) {
        Ok(h) => h,
        Err(e) => {
            return Err(e);
        },
    };
    let ghost n = rs.len() as int;
    let mut items: Vec<Json> = Vec::new();
    let mut protocol_items: Vec<Json> = Vec::new();
    let mut record_ids: Vec<i64> = Vec::new();
    let mut record_metadata: Vec<ProtocolRecordMetadata> = Vec::new();
    let mut i: usize = 0;
    while i < records.len()
        invariant
            i <= records.len(),
            rs == record_views(records@),
            n == rs.len(),
            idx_head == context_head_spec(rs, idx_tail)->0,
            tail_error(rs, idx_tail) is None,
            entries_match(
                replayed_prefix(rs, i as int, idx_head, idx_tail),
                record_ids@,
                items@,
                protocol_items@,
                record_metadata@,
            ),
            payloads_present(replayed_prefix(rs, i as int, idx_head, idx_tail)),
        decreases records.len() - i,
    {
        let ghost gi = i as int;
        let ghost before = replayed_prefix(rs, gi, idx_head, idx_tail);
        assert(rs[gi] == record_view(records@[gi]));
        let record = &records[i];
        let keep = idx_head <= record.id && record.id <= idx_tail && is_protocol_kind(
            record.kind.as_str(),
        ) && !is_superseded(records, record);
        if keep {
            match &record.payload {
                Some(payload) => {
                    let item = context_protocol_item(payload);
                    items.push(item.copy());
                    protocol_items.push(item);
                    record_ids.push(record.id);
                    record_metadata.push(
                        ProtocolRecordMetadata {
                            record_id: record.id,
                            created_at: record.created_at,
                            kind: record.kind.clone(),
                        },
                    );
                    proof {
                        let after = replayed_prefix(rs, gi + 1, idx_head, idx_tail);
                        assert(after == before.push(rs[gi]));
                        assert forall|k: int| 0 <= k < after.len() implies #[trigger] entry_matches(
                            after[k],
                            record_ids@[k],
                            items@[k],
                            protocol_items@[k],
                            record_metadata@[k],
                        ) by {
                            if k < before.len() {
                                assert(after[k] == before[k]);
                                assert(entry_matches(
                                    before[k],
                                    record_ids@[k],
                                    items@[k],
                                    protocol_items@[k],
                                    record_metadata@[k],
                                ));
                            }
                        }
                        assert forall|k: int| 0 <= k < after.len() implies (
                        #[trigger] after[k]).payload is Some by {
                            if k < before.len() {
                                assert(after[k] == before[k]);
                            }
                        }
                    }
                },
                None => {
                    proof {
                        lemma_prefix_grows(rs, gi + 1, n, idx_head, idx_tail);
                        let sel = replayed_prefix(rs, n, idx_head, idx_tail);
                        let k = before.len() as int;
                        assert(sel[k] == rs[gi]);
                    }
                    return Err(ApiError::internal());
                },
            }
        } else {
            proof {
                assert(!replayed(rs, idx_head, idx_tail, rs[gi]));
                assert(replayed_prefix(rs, gi + 1, idx_head, idx_tail) == before);
            }
        }
        i = i + 1;
    }
    if record_ids.len() == 0 {
        return Err(ApiError::conflict("thread has no replayable history".to_owned()));
    }
    Ok(
        CompiledThreadContext {
            items,
            protocol_items,
            record_ids,
            record_metadata,
            idx_head,
            idx_tail,
        },
    )
}

} // verus!
