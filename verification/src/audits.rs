//! Pages of audit rows (reasoning requests and Worker calls): the checked
//! query, the exact-match filters and the page that is answered.
use vstd::prelude::*;
use crate::error::{ApiError, ordinary};
use crate::text::{str_equals, trim, trimmed_chars};

verus! {

/// A checked page request with up to three exact-match filters: the status
/// and two further columns.
pub struct AuditQuery {
    pub page: usize,
    pub page_size: usize,
    pub status: Option<String>,
    pub first: Option<String>,
    pub second: Option<String>,
}

pub open spec fn opt_view(o: Option<String>) -> Option<Seq<char>> {
    match o {
        Some(s) => Some(s@),
        None => None,
    }
}

/// A filter given as a blank value filters nothing.
pub open spec fn non_blank_spec(o: Option<Seq<char>>) -> Option<Seq<char>> {
    match o {
        Some(v) => if trim(v).len() == 0 {
            None
        } else {
            Some(v)
        },
        None => None,
    }
}

fn non_blank(o: Option<String>) -> (r: Option<String>)
    ensures
        opt_view(r) == non_blank_spec(opt_view(o)),
{
    match o {
        Some(v) => if trimmed_chars(v.as_str()).len() == 0 {
            None
        } else {
            Some(v)
        },
        None => None,
    }
}

/// Page 1 unless a later page is asked for.
pub open spec fn page_spec(page: Option<usize>) -> usize {
    match page {
        Some(p) => if p >= 1 {
            p
        } else {
            1
        },
        None => 1,
    }
}

/// Twenty rows unless asked otherwise, and between 1 and 100.
pub open spec fn page_size_spec(page_size: Option<usize>) -> usize {
    let s: usize = match page_size {
        Some(s) => s,
        None => 20,
    };
    if s < 1 {
        1
    } else if s > 100 {
        100
    } else {
        s
    }
}

pub open spec fn reasoning_status(s: Seq<char>) -> bool {
    s == "in_flight"@ || s == "completed"@ || s == "failed"@ || s == "cancelled"@
}

pub open spec fn worker_call_status(s: Seq<char>) -> bool {
    s == "queued"@ || s == "delivered"@ || s == "completed"@ || s == "failed"@
}

fn paging(page: Option<usize>, page_size: Option<usize>) -> (r: (usize, usize))
    ensures
        r == (page_spec(page), page_size_spec(page_size)),
{
    let p = match page {
        Some(p) => if p >= 1 {
            p
        } else {
            1
        },
        None => 1,
    };
    let s: usize = match page_size {
        Some(s) => s,
        None => 20,
    };
    let s = if s < 1 {
        1
    } else if s > 100 {
        100
    } else {
        s
    };
    (p, s)
}

/// The query of the reasoning audit page; the two further filters are the
/// thread and the model.
pub fn reasoning_audit_query(
    page: Option<usize>,
    page_size: Option<usize>,
    status: Option<String>,
    thread_id: Option<String>,
    model: Option<String>,
) -> (r: Result<AuditQuery, ApiError>)
    ensures
        r is Err <==> (non_blank_spec(opt_view(status)) matches Some(s) && !reasoning_status(s)),
        r matches Err(e) ==> ordinary(e, 400, "invalid reasoning audit status"@),
        r matches Ok(q) ==> q.page == page_spec(page) && q.page_size == page_size_spec(page_size)
            && opt_view(q.status) == non_blank_spec(opt_view(status)) && opt_view(q.first)
            == non_blank_spec(opt_view(thread_id)) && opt_view(q.second) == non_blank_spec(
            opt_view(model),
        ),
{
    let (p, s) = paging(page, page_size);
    let status = non_blank(status);
    if let Some(v) = &status {
        let t = v.as_str();
        if !(str_equals(t, "in_flight") || str_equals(t, "completed") || str_equals(t, "failed")
            || str_equals(t, "cancelled")) {
            return Err(ApiError::bad_request("invalid reasoning audit status".to_owned()));
        }
    }
    Ok(AuditQuery { page: p, page_size: s, status, first: non_blank(thread_id), second: non_blank(model) })
}

/// The query of the Worker call audit page; the two further filters are the
/// Worker and the thread.
pub fn worker_call_audit_query(
    page: Option<usize>,
    page_size: Option<usize>,
    status: Option<String>,
    worker_id: Option<String>,
    thread_id: Option<String>,
) -> (r: Result<AuditQuery, ApiError>)
    ensures
        r is Err <==> (non_blank_spec(opt_view(status)) matches Some(s) && !worker_call_status(s)),
        r matches Err(e) ==> ordinary(e, 400, "invalid Worker call status"@),
        r matches Ok(q) ==> q.page == page_spec(page) && q.page_size == page_size_spec(page_size)
            && opt_view(q.status) == non_blank_spec(opt_view(status)) && opt_view(q.first)
            == non_blank_spec(opt_view(worker_id)) && opt_view(q.second) == non_blank_spec(
            opt_view(thread_id),
        ),
{
    let (p, s) = paging(page, page_size);
    let status = non_blank(status);
    if let Some(v) = &status {
        let t = v.as_str();
        if !(str_equals(t, "queued") || str_equals(t, "delivered") || str_equals(t, "completed")
            || str_equals(t, "failed")) {
            return Err(ApiError::bad_request("invalid Worker call status".to_owned()));
        }
    }
    Ok(AuditQuery { page: p, page_size: s, status, first: non_blank(worker_id), second: non_blank(thread_id) })
}

/// A row matches when each given filter equals its column.
pub open spec fn row_matches(q: AuditQuery, row: (String, String, String)) -> bool {
    &&& (opt_view(q.status) matches Some(s) ==> s == row.0@)
    &&& (opt_view(q.first) matches Some(s) ==> s == row.1@)
    &&& (opt_view(q.second) matches Some(s) ==> s == row.2@)
}

/// Positions of the matching rows among the first `n`, in order.
pub open spec fn matching(q: AuditQuery, rows: Seq<(String, String, String)>, n: int) -> Seq<usize>
    decreases n,
{
    if n <= 0 {
        Seq::empty()
    } else if row_matches(q, rows[n - 1]) {
        matching(q, rows, n - 1).push((n - 1) as usize)
    } else {
        matching(q, rows, n - 1)
    }
}

/// The page of `page_size` entries starting after `(page - 1) * page_size`
/// (saturating) entries.
pub open spec fn page_of(all: Seq<usize>, page: usize, page_size: usize) -> Seq<usize> {
    let start = if (page - 1) * page_size > usize::MAX {
        usize::MAX as int
    } else {
        (page - 1) * page_size
    };
    if start >= all.len() {
        Seq::empty()
    } else if start + page_size >= all.len() {
        all.skip(start)
    } else {
        all.subrange(start, start + page_size)
    }
}

fn optional_equals(filter: &Option<String>, value: &String) -> (r: bool)
    ensures
        r == (opt_view(*filter) matches Some(s) ==> s == value@),
{
    match filter {
        Some(s) => str_equals(s.as_str(), value.as_str()),
        None => true,
    }
}

/// The positions of the rows on the requested page and the number of rows
/// that match. Each row gives its status and the two filtered columns.
pub fn audit_page(rows: &[(String, String, String)], q: &AuditQuery) -> (r: (Vec<usize>, usize))
    requires
        q.page >= 1,
    ensures
        r.1 == matching(*q, rows@, rows@.len() as int).len(),
        r.0@ == page_of(matching(*q, rows@, rows@.len() as int), q.page, q.page_size),
{
    let mut all: Vec<usize> = Vec::new();
    let mut i: usize = 0;
    while i < rows.len()
        invariant
            i <= rows@.len(),
            all@ == matching(*q, rows@, i as int),
            all@.len() <= i,
        decreases rows@.len() - i,
    {
        let row = &rows[i];
        if optional_equals(&q.status, &row.0) && optional_equals(&q.first, &row.1)
            && optional_equals(&q.second, &row.2) {
            all.push(i);
        }
        i += 1;
    }
    let total = all.len();
    let p1: usize = q.page - 1;
    let start: usize = if p1 > 0 && q.page_size > usize::MAX / p1 {
        proof {
            assert(p1 * q.page_size > usize::MAX) by (nonlinear_arith)
                requires
                    p1 > 0,
                    q.page_size > usize::MAX / p1,
            ;
        }
        usize::MAX
    } else {
        proof {
            if p1 > 0 {
                assert(p1 * q.page_size <= usize::MAX) by (nonlinear_arith)
                    requires
                        p1 > 0,
                        q.page_size <= usize::MAX / p1,
                ;
            }
        }
        p1 * q.page_size
    };
    let mut out: Vec<usize> = Vec::new();
    if start < total {
        let end = if total - start <= q.page_size {
            total
        } else {
            start + q.page_size
        };
        let mut k = start;
        while k < end
            invariant
                start <= k <= end <= total == all@.len(),
                out@ == all@.subrange(start as int, k as int),
            decreases end - k,
        {
            out.push(all[k]);
            assert(all@.subrange(start as int, k + 1) =~= all@.subrange(start as int, k as int).push(
                all@[k as int],
            ));
            k += 1;
        }
        assert(all@.skip(start as int) =~= all@.subrange(start as int, total as int));
    }
    assert(out@ =~= page_of(all@, q.page, q.page_size));
    (out, total)
}

} // verus!
