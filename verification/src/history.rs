//! Planning of history page queries: validation of the query, the filter
//! predicate with its bound values, and the clamping of the page number.
//! Only allowlisted identifiers enter the SQL text; every filter value is
//! bound.
use vstd::prelude::*;
use crate::error::{ApiError, ordinary};
use crate::text::{chars_of, extend_chars, extend_str, str_equals, string_of};

verus! {

/// The columns that a history page may be sorted by.
pub open spec fn history_column(c: Seq<char>) -> bool {
    c == "id"@ || c == "thread_id"@ || c == "request_input_id"@ || c == "role"@ || c
        == "content"@ || c == "kind"@ || c == "payload"@ || c == "visible"@ || c == "created_at"@
}

pub struct HistoryQuery {
    pub page: Option<i64>,
    pub page_size: Option<i64>,
    pub sort: Option<String>,
    pub direction: Option<String>,
    pub id: Option<i64>,
    pub thread_id: Option<String>,
    pub request_input_id: Option<i64>,
    pub role: Option<String>,
    pub kind: Option<String>,
    pub visible: Option<i64>,
    pub created_from: Option<i64>,
    pub created_to: Option<i64>,
    pub q: Option<String>,
}

/// A value bound to a `?` placeholder.
#[derive(Debug)]
pub enum SqlValue {
    Integer(i64),
    Text(String),
}

pub enum SqlValueV {
    Integer(i64),
    Text(Seq<char>),
}

pub open spec fn sql_view(v: SqlValue) -> SqlValueV {
    match v {
        SqlValue::Integer(n) => SqlValueV::Integer(n),
        SqlValue::Text(s) => SqlValueV::Text(s@),
    }
}

pub open spec fn sql_views(v: Seq<SqlValue>) -> Seq<SqlValueV> {
    v.map_values(|x: SqlValue| sql_view(x))
}

/// A validated page query.
pub struct HistoryPlan {
    pub page: i64,
    pub page_size: i64,
    pub sort: String,
    pub direction: String,
    /// The `WHERE` predicate, with `?` for each bound value.
    pub predicate: String,
    pub values: Vec<SqlValue>,
}

pub open spec fn opt_text(v: Option<String>) -> Option<Seq<char>> {
    match v {
        Some(s) => Some(s@),
        None => None,
    }
}

/// The filter clauses of a query, each with the values it binds, in order.
pub open spec fn filter_parts(q: HistoryQuery) -> Seq<(Seq<char>, Seq<SqlValueV>)> {
    int_part("id"@, q.id) + int_part("request_input_id"@, q.request_input_id) + int_part(
        "visible"@,
        q.visible,
    ) + text_part("thread_id"@, opt_text(q.thread_id)) + text_part("role"@, opt_text(q.role))
        + text_part("kind"@, opt_text(q.kind)) + cmp_part(">="@, q.created_from) + cmp_part(
        "<="@,
        q.created_to,
    ) + search_part(opt_text(q.q))
}

pub open spec fn int_part(column: Seq<char>, v: Option<i64>) -> Seq<(Seq<char>, Seq<SqlValueV>)> {
    match v {
        Some(x) => seq![(column + " = ?"@, seq![SqlValueV::Integer(x)])],
        None => Seq::empty(),
    }
}

pub open spec fn text_part(column: Seq<char>, v: Option<Seq<char>>) -> Seq<
    (Seq<char>, Seq<SqlValueV>),
> {
    match v {
        Some(x) => seq![(column + " = ?"@, seq![SqlValueV::Text(x)])],
        None => Seq::empty(),
    }
}

pub open spec fn cmp_part(op: Seq<char>, v: Option<i64>) -> Seq<(Seq<char>, Seq<SqlValueV>)> {
    match v {
        Some(x) => seq![("created_at "@ + op + " ?"@, seq![SqlValueV::Integer(x)])],
        None => Seq::empty(),
    }
}

/// A non-empty search text matches content or payload anywhere.
pub open spec fn search_part(v: Option<Seq<char>>) -> Seq<(Seq<char>, Seq<SqlValueV>)> {
    match v {
        Some(x) => if x.len() > 0 {
            seq![
                (
                    "(instr(content, ?) > 0 OR instr(payload, ?) > 0)"@,
                    seq![SqlValueV::Text(x), SqlValueV::Text(x)],
                ),
            ]
        } else {
            Seq::empty()
        },
        None => Seq::empty(),
    }
}

/// Clauses joined with ` AND `, or `1` when there are none.
pub open spec fn predicate_text(parts: Seq<(Seq<char>, Seq<SqlValueV>)>) -> Seq<char> {
    if parts.len() == 0 {
        "1"@
    } else {
        join_and(parts)
    }
}

pub open spec fn join_and(parts: Seq<(Seq<char>, Seq<SqlValueV>)>) -> Seq<char>
    decreases parts.len(),
{
    if parts.len() == 0 {
        Seq::empty()
    } else if parts.len() == 1 {
        parts[0].0
    } else {
        join_and(parts.drop_last()) + " AND "@ + parts.last().0
    }
}

/// The bound values of the clauses, in order.
pub open spec fn bound_values(parts: Seq<(Seq<char>, Seq<SqlValueV>)>) -> Seq<SqlValueV>
    decreases parts.len(),
{
    if parts.len() == 0 {
        Seq::empty()
    } else {
        bound_values(parts.drop_last()) + parts.last().1
    }
}

/// Which check a query fails first, if any.
pub open spec fn query_error(q: HistoryQuery) -> Option<Seq<char>> {
    let page = match q.page {
        Some(p) => p,
        None => 1,
    };
    let page_size = match q.page_size {
        Some(p) => p,
        None => 20,
    };
    let sort = match q.sort {
        Some(s) => s@,
        None => "id"@,
    };
    let direction = match q.direction {
        Some(s) => s@,
        None => "desc"@,
    };
    if page < 1 || !(1 <= page_size <= 100) {
        Some("page must be positive; page_size must be between 1 and 100"@)
    } else if !history_column(sort) || !(direction == "asc"@ || direction == "desc"@) {
        Some("invalid history sort column or direction"@)
    } else if q.visible matches Some(v) && v != 0 && v != 1 {
        Some("visible must be 0 or 1"@)
    } else if q.created_from matches Some(f) && q.created_to matches Some(t) && f > t {
        Some("created_from must not exceed created_to"@)
    } else {
        None
    }
}

/// State of a partially built predicate.
struct Builder {
    text: Vec<char>,
    values: Vec<SqlValue>,
    count: usize,
}

impl Builder {
    spec fn holds(&self, parts: Seq<(Seq<char>, Seq<SqlValueV>)>) -> bool {
        &&& self.count == parts.len()
        &&& self.text@ == join_and(parts)
        &&& sql_views(self.values@) == bound_values(parts)
    }

    fn add(&mut self, clause: Vec<char>, values: Vec<SqlValue>, Ghost(parts): Ghost<
        Seq<(Seq<char>, Seq<SqlValueV>)>,
    >)
        requires
            old(self).holds(parts),
            parts.len() < 16,
        ensures
            final(self).holds(parts.push((clause@, sql_views(values@)))),
    {
        let ghost np = parts.push((clause@, sql_views(values@)));
        assert(np.drop_last() =~= parts);
        if self.count > 0 {
            extend_str(&mut self.text, " AND ");
        }
        extend_chars(&mut self.text, clause.as_slice());
        proof {
            reveal_strlit(" AND ");
            assert(self.text@ =~= join_and(np));
        }
        self.count = self.count + 1;
        let ghost text = self.text@;
        let ghost count = self.count;
        let ghost before = self.values@;
        let mut i: usize = 0;
        while i < values.len()
            invariant
                i <= values@.len(),
                self.text@ == text,
                self.count == count,
                sql_views(self.values@) == sql_views(before) + sql_views(values@).take(i as int),
            decreases values@.len() - i,
        {
            let v = match &values[i] {
                SqlValue::Integer(n) => SqlValue::Integer(*n),
                SqlValue::Text(s) => SqlValue::Text(s.clone()),
            };
            let ghost b2 = sql_views(self.values@);
            self.values.push(v);
            assert(sql_views(self.values@) =~= b2.push(sql_view(values@[i as int])));
            assert(sql_views(values@).take(i + 1) =~= sql_views(values@).take(i as int).push(
                sql_view(values@[i as int]),
            ));
            i += 1;
        }
        assert(sql_views(values@).take(i as int) =~= sql_views(values@));
    }

    fn add_int(&mut self, column: &str, v: Option<i64>, Ghost(parts): Ghost<
        Seq<(Seq<char>, Seq<SqlValueV>)>,
    >)
        requires
            old(self).holds(parts),
            parts.len() < 16,
        ensures
            final(self).holds(parts + int_part(column@, v)),
    {
        if let Some(x) = v {
            self.add(clause_with(column, " = ?"), one(SqlValue::Integer(x)), Ghost(parts));
            assert(parts.push((column@ + " = ?"@, seq![SqlValueV::Integer(x)])) =~= parts
                + int_part(column@, v));
        } else {
            assert(parts + int_part(column@, v) =~= parts);
        }
    }

    fn add_text(&mut self, column: &str, v: &Option<String>, Ghost(parts): Ghost<
        Seq<(Seq<char>, Seq<SqlValueV>)>,
    >)
        requires
            old(self).holds(parts),
            parts.len() < 16,
        ensures
            final(self).holds(parts + text_part(column@, opt_text(*v))),
    {
        if let Some(x) = v {
            self.add(clause_with(column, " = ?"), one(SqlValue::Text(x.clone())), Ghost(parts));
            assert(parts.push((column@ + " = ?"@, seq![SqlValueV::Text(x@)])) =~= parts
                + text_part(column@, opt_text(*v)));
        } else {
            assert(parts + text_part(column@, opt_text(*v)) =~= parts);
        }
    }

    fn add_created(&mut self, clause: &str, op: Ghost<Seq<char>>, v: Option<i64>, Ghost(parts): Ghost<
        Seq<(Seq<char>, Seq<SqlValueV>)>,
    >)
        requires
            old(self).holds(parts),
            parts.len() < 16,
            clause@ == "created_at "@ + op@,
        ensures
            final(self).holds(parts + cmp_part(op@, v)),
    {
        if let Some(x) = v {
            self.add(clause_with(clause, " ?"), one(SqlValue::Integer(x)), Ghost(parts));
            assert(parts.push((clause@ + " ?"@, seq![SqlValueV::Integer(x)])) =~= parts
                + cmp_part(op@, v));
        } else {
            assert(parts + cmp_part(op@, v) =~= parts);
        }
    }

    fn add_search(&mut self, v: &Option<String>, Ghost(parts): Ghost<
        Seq<(Seq<char>, Seq<SqlValueV>)>,
    >)
        requires
            old(self).holds(parts),
            parts.len() < 16,
        ensures
            final(self).holds(parts + search_part(opt_text(*v))),
    {
        if let Some(x) = v {
            if x.as_str().unicode_len() > 0 {
                let mut vals: Vec<SqlValue> = Vec::new();
                vals.push(SqlValue::Text(x.clone()));
                vals.push(SqlValue::Text(x.clone()));
                assert(sql_views(vals@) =~= seq![SqlValueV::Text(x@), SqlValueV::Text(x@)]);
                let clause = chars("(instr(content, ?) > 0 OR instr(payload, ?) > 0)");
                self.add(clause, vals, Ghost(parts));
                assert(parts.push(
                    (
                        "(instr(content, ?) > 0 OR instr(payload, ?) > 0)"@,
                        seq![SqlValueV::Text(x@), SqlValueV::Text(x@)],
                    ),
                ) =~= parts + search_part(opt_text(*v)));
            } else {
                assert(parts + search_part(opt_text(*v)) =~= parts);
            }
        } else {
            assert(parts + search_part(opt_text(*v)) =~= parts);
        }
    }
}

fn chars(s: &str) -> (r: Vec<char>)
    ensures
        r@ == s@,
{
    chars_of(s)
}

fn clause_with(column: &str, tail: &str) -> (r: Vec<char>)
    ensures
        r@ == column@ + tail@,
{
    let mut c = chars_of(column);
    extend_str(&mut c, tail);
    c
}

fn one(v: SqlValue) -> (r: Vec<SqlValue>)
    ensures
        sql_views(r@) == seq![sql_view(v)],
{
    let ghost sv = sql_view(v);
    let mut r = Vec::new();
    r.push(v);
    assert(sql_views(r@) =~= seq![sv]);
    r
}

fn is_history_column(s: &str) -> (r: bool)
    ensures
        r == history_column(s@),
{
    str_equals(s, "id") || str_equals(s, "thread_id") || str_equals(s, "request_input_id")
        || str_equals(s, "role") || str_equals(s, "content") || str_equals(s, "kind")
        || str_equals(s, "payload") || str_equals(s, "visible") || str_equals(s, "created_at")
}

/// The message of the first check that the page parameters fail.
fn check_query(
    page: i64,
    page_size: i64,
    sort: &str,
    direction: &str,
    visible: Option<i64>,
    created_from: Option<i64>,
    created_to: Option<i64>,
) -> (r: Option<String>)
    ensures
        r matches Some(m) ==> {
            &&& (page < 1 || !(1 <= page_size <= 100)) ==> m@
                == "page must be positive; page_size must be between 1 and 100"@
            &&& !(page < 1 || !(1 <= page_size <= 100)) && (!history_column(sort@) || !(direction@
                == "asc"@ || direction@ == "desc"@)) ==> m@
                == "invalid history sort column or direction"@
        },
        r is None <==> !(page < 1 || !(1 <= page_size <= 100)) && history_column(sort@) && (
        direction@ == "asc"@ || direction@ == "desc"@) && !(visible matches Some(v) && v != 0 && v
            != 1) && !(created_from matches Some(f) && created_to matches Some(t) && f > t),
        r matches Some(m) ==> !(page < 1 || !(1 <= page_size <= 100)) && history_column(sort@) && (
        direction@ == "asc"@ || direction@ == "desc"@) && (visible matches Some(v) && v != 0 && v
            != 1) ==> m@ == "visible must be 0 or 1"@,
        r matches Some(m) ==> !(page < 1 || !(1 <= page_size <= 100)) && history_column(sort@) && (
        direction@ == "asc"@ || direction@ == "desc"@) && !(visible matches Some(v) && v != 0 && v
            != 1) ==> m@ == "created_from must not exceed created_to"@,
{
    if page < 1 || !(1 <= page_size && page_size <= 100) {
        return Some("page must be positive; page_size must be between 1 and 100".to_owned());
    }
    if !is_history_column(sort) || !(str_equals(direction, "asc") || str_equals(direction, "desc")) {
        return Some("invalid history sort column or direction".to_owned());
    }
    if let Some(v) = visible {
        if v != 0 && v != 1 {
            return Some("visible must be 0 or 1".to_owned());
        }
    }
    if let (Some(from), Some(to)) = (created_from, created_to) {
        if from > to {
            return Some("created_from must not exceed created_to".to_owned());
        }
    }
    None
}

/// Checks a history page query and builds its filter predicate.
pub fn plan_history_page(query: HistoryQuery) -> (r: Result<HistoryPlan, ApiError>)
    ensures
        r is Ok <==> query_error(query) is None,
        r matches Err(e) ==> ordinary(e, 400, query_error(query)->0),
        r matches Ok(p) ==> {
            &&& p.page == (match query.page {
                Some(x) => x,
                None => 1,
            })
            &&& p.page_size == (match query.page_size {
                Some(x) => x,
                None => 20,
            })
            &&& p.sort@ == (match query.sort {
                Some(s) => s@,
                None => "id"@,
            })
            &&& p.direction@ == (match query.direction {
                Some(s) => s@,
                None => "desc"@,
            })
            &&& p.predicate@ == predicate_text(filter_parts(query))
            &&& sql_views(p.values@) == bound_values(filter_parts(query))
        },
{
    let ghost q = query;
    let page = match query.page {
        Some(x) => x,
        None => 1,
    };
    let page_size = match query.page_size {
        Some(x) => x,
        None => 20,
    };
    let sort: String = match &query.sort {
        Some(s) => s.clone(),
        None => "id".to_owned(),
    };
    let direction: String = match &query.direction {
        Some(s) => s.clone(),
        None => "desc".to_owned(),
    };
    match check_query(page, page_size, sort.as_str(), direction.as_str(), query.visible, query.created_from, query.created_to) {
        Some(message) => {
            return Err(ApiError::bad_request(message));
        },
        None => {},
    }
    let mut b = Builder { text: Vec::new(), values: Vec::new(), count: 0 };
    assert(sql_views(b.values@) =~= Seq::<SqlValueV>::empty());
    let ghost p0: Seq<(Seq<char>, Seq<SqlValueV>)> = Seq::empty();
    b.add_int("id", query.id, Ghost(p0));
    let ghost p1 = p0 + int_part("id"@, q.id);
    b.add_int("request_input_id", query.request_input_id, Ghost(p1));
    let ghost p2 = p1 + int_part("request_input_id"@, q.request_input_id);
    b.add_int("visible", query.visible, Ghost(p2));
    let ghost p3 = p2 + int_part("visible"@, q.visible);
    b.add_text("thread_id", &query.thread_id, Ghost(p3));
    let ghost p4 = p3 + text_part("thread_id"@, opt_text(q.thread_id));
    b.add_text("role", &query.role, Ghost(p4));
    let ghost p5 = p4 + text_part("role"@, opt_text(q.role));
    b.add_text("kind", &query.kind, Ghost(p5));
    let ghost p6 = p5 + text_part("kind"@, opt_text(q.kind));
    proof {
        reveal_strlit("created_at >=");
        reveal_strlit("created_at <=");
        reveal_strlit("created_at ");
        reveal_strlit(">=");
        reveal_strlit("<=");
        assert("created_at >="@ =~= "created_at "@ + ">="@);
        assert("created_at <="@ =~= "created_at "@ + "<="@);
    }
    b.add_created("created_at >=", Ghost(">="@), query.created_from, Ghost(p6));
    let ghost p7 = p6 + cmp_part(">="@, q.created_from);
    b.add_created("created_at <=", Ghost("<="@), query.created_to, Ghost(p7));
    let ghost p8 = p7 + cmp_part("<="@, q.created_to);
    b.add_search(&query.q, Ghost(p8));
    assert(p8 + search_part(opt_text(q.q)) =~= filter_parts(q));
    let predicate = if b.count == 0 {
        "1".to_owned()
    } else {
        string_of(b.text.as_slice())
    };
    Ok(HistoryPlan { page, page_size, sort, direction, predicate, values: b.values })
}

/// The statement that counts the rows a plan selects.
pub open spec fn count_statement_spec(predicate: Seq<char>) -> Seq<char> {
    "SELECT COUNT(*) FROM history_records WHERE "@ + predicate
}

pub fn count_statement(plan: &HistoryPlan) -> (r: String)
    ensures
        r@ == count_statement_spec(plan.predicate@),
{
    let mut v = chars_of("SELECT COUNT(*) FROM history_records WHERE ");
    extend_str(&mut v, plan.predicate.as_str());
    string_of(v.as_slice())
}

/// The columns of a page row: the record with its content and payload
/// shortened to 240 characters, then their full lengths in bytes.
pub open spec fn page_columns() -> Seq<char> {
    "SELECT id,thread_id,request_input_id,role,substr(content,1,240),kind,substr(payload,1,240),visible,created_at,length(CAST(content AS BLOB)),length(CAST(payload AS BLOB)) FROM history_records WHERE "@
}

/// The statement of one page: the plan's predicate, sorted by the planned
/// column and direction with ties broken by id in the same direction; the
/// limit and offset are bound after the filter values.
pub open spec fn page_statement_spec(predicate: Seq<char>, sort: Seq<char>, direction: Seq<char>) -> Seq<char> {
    page_columns() + predicate + " ORDER BY "@ + sort + " "@ + direction + ",id "@ + direction
        + " LIMIT ? OFFSET ?"@
}

pub fn page_statement(plan: &HistoryPlan) -> (r: String)
    ensures
        r@ == page_statement_spec(plan.predicate@, plan.sort@, plan.direction@),
{
    let mut v = chars_of(
        "SELECT id,thread_id,request_input_id,role,substr(content,1,240),kind,substr(payload,1,240),visible,created_at,length(CAST(content AS BLOB)),length(CAST(payload AS BLOB)) FROM history_records WHERE ",
    );
    extend_str(&mut v, plan.predicate.as_str());
    extend_str(&mut v, " ORDER BY ");
    extend_str(&mut v, plan.sort.as_str());
    extend_str(&mut v, " ");
    extend_str(&mut v, plan.direction.as_str());
    extend_str(&mut v, ",id ");
    extend_str(&mut v, plan.direction.as_str());
    extend_str(&mut v, " LIMIT ? OFFSET ?");
    string_of(v.as_slice())
}

/// The clause texts of a list of clauses.
pub open spec fn clause_texts(parts: Seq<(Seq<char>, Seq<SqlValueV>)>) -> Seq<Seq<char>> {
    parts.map_values(|p: (Seq<char>, Seq<SqlValueV>)| p.0)
}

proof fn lemma_join_and_texts(a: Seq<(Seq<char>, Seq<SqlValueV>)>, b: Seq<(Seq<char>, Seq<SqlValueV>)>)
    requires
        clause_texts(a) == clause_texts(b),
    ensures
        join_and(a) == join_and(b),
    decreases a.len(),
{
    assert(a.len() == clause_texts(a).len());
    assert(b.len() == clause_texts(b).len());
    if a.len() > 1 {
        assert(clause_texts(a.drop_last()) =~= clause_texts(a).drop_last());
        assert(clause_texts(b.drop_last()) =~= clause_texts(b).drop_last());
        lemma_join_and_texts(a.drop_last(), b.drop_last());
        assert(a.last().0 == clause_texts(a)[a.len() - 1]);
        assert(b.last().0 == clause_texts(b)[b.len() - 1]);
    } else if a.len() == 1 {
        assert(a[0].0 == clause_texts(a)[0]);
        assert(b[0].0 == clause_texts(b)[0]);
    }
}

/// Which filters a query uses; a search counts only when it is non-empty.
pub open spec fn filter_shape(q: HistoryQuery) -> Seq<bool> {
    seq![
        q.id is Some,
        q.request_input_id is Some,
        q.visible is Some,
        q.thread_id is Some,
        q.role is Some,
        q.kind is Some,
        q.created_from is Some,
        q.created_to is Some,
        opt_text(q.q) matches Some(t) && t.len() > 0,
    ]
}

proof fn lemma_clause_texts_add(
    x: Seq<(Seq<char>, Seq<SqlValueV>)>,
    y: Seq<(Seq<char>, Seq<SqlValueV>)>,
)
    ensures
        clause_texts(x + y) == clause_texts(x) + clause_texts(y),
{
    assert(clause_texts(x + y) =~= clause_texts(x) + clause_texts(y));
}

/// The clause texts of a query, part by part.
spec fn texts_by_part(q: HistoryQuery) -> Seq<Seq<char>> {
    clause_texts(int_part("id"@, q.id)) + clause_texts(
        int_part("request_input_id"@, q.request_input_id),
    ) + clause_texts(int_part("visible"@, q.visible)) + clause_texts(
        text_part("thread_id"@, opt_text(q.thread_id)),
    ) + clause_texts(text_part("role"@, opt_text(q.role))) + clause_texts(
        text_part("kind"@, opt_text(q.kind)),
    ) + clause_texts(cmp_part(">="@, q.created_from)) + clause_texts(cmp_part("<="@, q.created_to))
        + clause_texts(search_part(opt_text(q.q)))
}

proof fn lemma_texts_by_part(q: HistoryQuery)
    ensures
        clause_texts(filter_parts(q)) == texts_by_part(q),
{
    let p1 = int_part("id"@, q.id);
    let p2 = p1 + int_part("request_input_id"@, q.request_input_id);
    let p3 = p2 + int_part("visible"@, q.visible);
    let p4 = p3 + text_part("thread_id"@, opt_text(q.thread_id));
    let p5 = p4 + text_part("role"@, opt_text(q.role));
    let p6 = p5 + text_part("kind"@, opt_text(q.kind));
    let p7 = p6 + cmp_part(">="@, q.created_from);
    let p8 = p7 + cmp_part("<="@, q.created_to);
    lemma_clause_texts_add(p1, int_part("request_input_id"@, q.request_input_id));
    lemma_clause_texts_add(p2, int_part("visible"@, q.visible));
    lemma_clause_texts_add(p3, text_part("thread_id"@, opt_text(q.thread_id)));
    lemma_clause_texts_add(p4, text_part("role"@, opt_text(q.role)));
    lemma_clause_texts_add(p5, text_part("kind"@, opt_text(q.kind)));
    lemma_clause_texts_add(p6, cmp_part(">="@, q.created_from));
    lemma_clause_texts_add(p7, cmp_part("<="@, q.created_to));
    lemma_clause_texts_add(p8, search_part(opt_text(q.q)));
}

proof fn lemma_same_shape_same_texts(a: HistoryQuery, b: HistoryQuery)
    requires
        filter_shape(a) == filter_shape(b),
    ensures
        texts_by_part(a) == texts_by_part(b),
{
    assert(filter_shape(a)[0] == filter_shape(b)[0]);
    assert(filter_shape(a)[1] == filter_shape(b)[1]);
    assert(filter_shape(a)[2] == filter_shape(b)[2]);
    assert(filter_shape(a)[3] == filter_shape(b)[3]);
    assert(filter_shape(a)[4] == filter_shape(b)[4]);
    assert(filter_shape(a)[5] == filter_shape(b)[5]);
    assert(filter_shape(a)[6] == filter_shape(b)[6]);
    assert(filter_shape(a)[7] == filter_shape(b)[7]);
    assert(filter_shape(a)[8] == filter_shape(b)[8]);
    assert(clause_texts(int_part("id"@, a.id)) =~= clause_texts(int_part("id"@, b.id)));
    assert(clause_texts(int_part("request_input_id"@, a.request_input_id)) =~= clause_texts(
        int_part("request_input_id"@, b.request_input_id),
    ));
    assert(clause_texts(int_part("visible"@, a.visible)) =~= clause_texts(
        int_part("visible"@, b.visible),
    ));
    assert(clause_texts(text_part("thread_id"@, opt_text(a.thread_id))) =~= clause_texts(
        text_part("thread_id"@, opt_text(b.thread_id)),
    ));
    assert(clause_texts(text_part("role"@, opt_text(a.role))) =~= clause_texts(
        text_part("role"@, opt_text(b.role)),
    ));
    assert(clause_texts(text_part("kind"@, opt_text(a.kind))) =~= clause_texts(
        text_part("kind"@, opt_text(b.kind)),
    ));
    assert(clause_texts(cmp_part(">="@, a.created_from)) =~= clause_texts(
        cmp_part(">="@, b.created_from),
    ));
    assert(clause_texts(cmp_part("<="@, a.created_to)) =~= clause_texts(
        cmp_part("<="@, b.created_to),
    ));
    assert(clause_texts(search_part(opt_text(a.q))) =~= clause_texts(
        search_part(opt_text(b.q)),
    ));
}

/// No value a user sends enters the SQL text: the predicate of a query, and
/// with it the count and page statements, depend only on which filters it
/// uses (and on the allowlisted sort column and direction), never on the
/// filter values, which are all bound to placeholders.
pub proof fn lemma_predicate_ignores_values(
    a: HistoryQuery,
    b: HistoryQuery,
    sort: Seq<char>,
    direction: Seq<char>,
)
    requires
        filter_shape(a) == filter_shape(b),
    ensures
        predicate_text(filter_parts(a)) == predicate_text(filter_parts(b)),
        count_statement_spec(predicate_text(filter_parts(a))) == count_statement_spec(
            predicate_text(filter_parts(b)),
        ),
        page_statement_spec(predicate_text(filter_parts(a)), sort, direction)
            == page_statement_spec(predicate_text(filter_parts(b)), sort, direction),
{
    let pa = filter_parts(a);
    let pb = filter_parts(b);
    lemma_texts_by_part(a);
    lemma_texts_by_part(b);
    lemma_same_shape_same_texts(a, b);
    assert(pa.len() == clause_texts(pa).len());
    assert(pb.len() == clause_texts(pb).len());
    lemma_join_and_texts(pa, pb);
}

/// The page actually served: the requested page, but never past the last
/// page of `total` rows (an empty result has one page).
pub open spec fn clamped_page(page: int, total: int, page_size: int) -> int {
    let last = (if total - 1 > 0 {
        total - 1
    } else {
        0
    }) / page_size + 1;
    if page < last {
        page
    } else {
        last
    }
}

pub fn clamp_page(page: i64, total: i64, page_size: i64) -> (r: i64)
    requires
        page >= 1,
        1 <= page_size <= 100,
        total >= 0,
    ensures
        r == clamped_page(page as int, total as int, page_size as int),
        1 <= r <= page,
{
    let above = if total - 1 > 0 {
        total - 1
    } else {
        0
    };
    let last = above / page_size + 1;
    if page < last {
        page
    } else {
        last
    }
}

/// `LIMIT` and `OFFSET` of a page.
pub fn page_window(page: i64, page_size: i64) -> (r: (i64, i64))
    requires
        1 <= page,
        1 <= page_size <= 100,
        (page - 1) * page_size <= i64::MAX,
    ensures
        r == (page_size, ((page - 1) * page_size) as i64),
{
    (page_size, (page - 1) * page_size)
}

} // verus!
