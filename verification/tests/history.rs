use cybion::error::ApiError;
use cybion::history::{
    HistoryQuery, SqlValue, clamp_page, count_statement, page_statement, page_window,
    plan_history_page,
};
use rusqlite::{Connection, params_from_iter, types::Value};

fn query() -> HistoryQuery {
    HistoryQuery {
        page: None,
        page_size: None,
        sort: None,
        direction: None,
        id: None,
        thread_id: None,
        request_input_id: None,
        role: None,
        kind: None,
        visible: None,
        created_from: None,
        created_to: None,
        q: None,
    }
}

#[test]
fn defaults_and_empty_filters() {
    let plan = plan_history_page(query()).unwrap();
    assert_eq!((plan.page, plan.page_size), (1, 20));
    assert_eq!((plan.sort.as_str(), plan.direction.as_str()), ("id", "desc"));
    assert_eq!(plan.predicate, "1");
    assert!(plan.values.is_empty());
}

#[test]
fn filters_bind_every_value_in_order() {
    let mut q = query();
    q.id = Some(3);
    q.thread_id = Some("a".to_owned());
    q.visible = Some(1);
    q.created_from = Some(10);
    q.created_to = Some(20);
    q.q = Some("needle".to_owned());
    let plan = plan_history_page(q).unwrap();
    assert_eq!(
        plan.predicate,
        "id = ? AND visible = ? AND thread_id = ? AND created_at >= ? AND created_at <= ? AND (instr(content, ?) > 0 OR instr(payload, ?) > 0)"
    );
    assert_eq!(plan.values.len(), 7);
    assert!(matches!(plan.values[0], SqlValue::Integer(3)));
    assert!(matches!(&plan.values[2], SqlValue::Text(t) if t == "a"));
    assert!(matches!(&plan.values[6], SqlValue::Text(t) if t == "needle"));
    let mut empty = query();
    empty.q = Some(String::new());
    assert_eq!(plan_history_page(empty).unwrap().predicate, "1");
}

#[test]
fn invalid_queries_are_rejected() {
    let mut q = query();
    q.page = Some(0);
    assert_eq!(
        plan_history_page(q).err().unwrap().message,
        "page must be positive; page_size must be between 1 and 100"
    );
    let mut q = query();
    q.page_size = Some(101);
    assert!(plan_history_page(q).is_err());
    let mut q = query();
    q.sort = Some("secret".to_owned());
    assert_eq!(
        plan_history_page(q).err().unwrap().message,
        "invalid history sort column or direction"
    );
    let mut q = query();
    q.direction = Some("sideways".to_owned());
    assert!(plan_history_page(q).is_err());
    let mut q = query();
    q.visible = Some(2);
    assert_eq!(plan_history_page(q).err().unwrap().message, "visible must be 0 or 1");
    let mut q = query();
    q.created_from = Some(5);
    q.created_to = Some(4);
    let error = plan_history_page(q).err().unwrap();
    assert_eq!(error.status, 400);
    assert_eq!(error.message, "created_from must not exceed created_to");
    for column in ["id", "thread_id", "request_input_id", "role", "content", "kind", "payload", "visible", "created_at"] {
        let mut q = query();
        q.sort = Some(column.to_owned());
        q.direction = Some("asc".to_owned());
        assert!(plan_history_page(q).is_ok(), "{column}");
    }
}

#[test]
fn pages_are_clamped_to_the_last_page() {
    assert_eq!(clamp_page(5, 0, 20), 1);
    assert_eq!(clamp_page(5, 41, 20), 3);
    assert_eq!(clamp_page(2, 41, 20), 2);
    assert_eq!(clamp_page(3, 40, 20), 2);
    assert_eq!(page_window(3, 20), (20, 40));
}

fn parse(text: &str) -> HistoryQuery {
    let v: serde_json::Value = serde_json::from_str(text).unwrap();
    let int = |k: &str| v.get(k).map(|x| x.as_i64().unwrap());
    let string = |k: &str| v.get(k).map(|x| x.as_str().unwrap().to_owned());
    HistoryQuery {
        page: int("page"),
        page_size: int("page_size"),
        sort: string("sort"),
        direction: string("direction"),
        id: int("id"),
        thread_id: string("thread_id"),
        request_input_id: int("request_input_id"),
        role: string("role"),
        kind: string("kind"),
        visible: int("visible"),
        created_from: int("created_from"),
        created_to: int("created_to"),
        q: string("q"),
    }
}

fn database() -> Connection {
    let connection = Connection::open_in_memory().unwrap();
    connection
        .execute_batch(
            "CREATE TABLE history_records (
               id INTEGER PRIMARY KEY AUTOINCREMENT,
               thread_id TEXT NOT NULL,
               request_input_id INTEGER,
               role TEXT NOT NULL CHECK(role IN ('user','assistant','tool','system')),
               content TEXT NOT NULL,
               kind TEXT NOT NULL DEFAULT 'input' CHECK(kind IN ('input','response_output','tool_output','checkpoint','activity')),
               payload TEXT NOT NULL DEFAULT '{}',
               visible INTEGER NOT NULL DEFAULT 1 CHECK(visible IN (0,1)),
               created_at INTEGER NOT NULL
             );",
        )
        .unwrap();
    let tool_payload = format!("{}needle", "数据🧪".repeat(400));
    let rows: Vec<(i64, &str, Option<i64>, &str, &str, i64, i64, &str, &str)> = vec![
        (1, "a", None, "user", "input", 1, 300, "Hello", " {\n  \"a\":1, \"a\":2 } "),
        (2, "b", None, "assistant", "response_output", 0, 100, "100%_literal", "not JSON"),
        (3, "a", Some(1), "tool", "tool_output", 0, 100, "工具", tool_payload.as_str()),
        (4, "b", Some(2), "system", "checkpoint", 0, 200, "", "{}"),
        (5, "a", Some(1), "system", "activity", 1, 200, "state", "{}"),
        (6, "b", Some(2), "assistant", "response_output", 1, 300, "needle", "{}"),
    ];
    for (id, thread, request, role, kind, visible, created, content, payload) in rows {
        connection
            .execute(
                "INSERT INTO history_records(id,thread_id,request_input_id,role,content,kind,payload,visible,created_at)
                 VALUES(?,?,?,?,?,?,?,?,?)",
                (id, thread, request, role, content, kind, payload, visible, created),
            )
            .unwrap();
    }
    connection
}

struct Page {
    ids: Vec<i64>,
    visible: Vec<i64>,
    payloads: Vec<String>,
    total: i64,
    page: i64,
}

fn load_page(connection: &mut Connection, query: HistoryQuery) -> Result<Page, ApiError> {
    let plan = plan_history_page(query)?;
    let mut values: Vec<Value> = plan
        .values
        .iter()
        .map(|v| match v {
            SqlValue::Integer(n) => Value::Integer(*n),
            SqlValue::Text(t) => Value::Text(t.clone()),
        })
        .collect();
    let transaction = connection.transaction().unwrap();
    let total: i64 = transaction
        .query_row(&count_statement(&plan), params_from_iter(&values), |row| row.get(0))
        .unwrap();
    let page = clamp_page(plan.page, total, plan.page_size);
    let (limit, offset) = page_window(page, plan.page_size);
    values.extend([Value::Integer(limit), Value::Integer(offset)]);
    let mut statement = transaction.prepare(&page_statement(&plan)).unwrap();
    let rows: Vec<(i64, i64, String)> = statement
        .query_map(params_from_iter(&values), |row| Ok((row.get(0)?, row.get(7)?, row.get(6)?)))
        .unwrap()
        .collect::<Result<Vec<_>, _>>()
        .unwrap();
    Ok(Page {
        ids: rows.iter().map(|r| r.0).collect(),
        visible: rows.iter().map(|r| r.1).collect(),
        payloads: rows.iter().map(|r| r.2.clone()).collect(),
        total,
        page,
    })
}

#[test]
fn pagination_sorts_all_rows_with_stable_ties_and_clamps_deleted_pages() {
    let mut connection = database();
    let first = load_page(&mut connection, query()).unwrap();
    assert_eq!(first.total, 6);
    assert_eq!(first.ids, [6, 5, 4, 3, 2, 1]);
    assert_eq!(first.visible[2], 0);
    assert_eq!(first.payloads[4], "not JSON");
    let mut ordered = Vec::new();
    for page in 1..=3 {
        let result = load_page(
            &mut connection,
            parse(&format!(
                r#"{{"sort":"created_at","direction":"asc","page_size":2,"page":{page}}}"#
            )),
        )
        .unwrap();
        assert_eq!(result.total, 6);
        ordered.extend(result.ids);
    }
    assert_eq!(ordered, [2, 3, 4, 5, 1, 6]);
    let second = load_page(
        &mut connection,
        parse(r#"{"sort":"created_at","direction":"desc","page_size":2,"page":2}"#),
    )
    .unwrap();
    assert_eq!(second.ids, [5, 4]);
    let last = load_page(&mut connection, parse(&format!(r#"{{"page":{},"page_size":2}}"#, i64::MAX)))
        .unwrap();
    assert_eq!(last.page, 3);
    assert_eq!(last.ids, [2, 1]);
    let empty = load_page(&mut connection, parse(r#"{"id":999,"page":9}"#)).unwrap();
    assert_eq!(empty.page, 1);
    assert_eq!(empty.total, 0);
    assert!(empty.ids.is_empty());
}

#[test]
fn filters_use_full_stored_values_and_share_the_count_predicate() {
    let mut connection = database();
    let cases: Vec<(&str, Vec<i64>)> = vec![
        (r#"{"q":"needle"}"#, vec![6, 3]),
        (r#"{"q":"%_literal"}"#, vec![2]),
        (r#"{"q":"hello"}"#, vec![]),
        (r#"{"q":"' OR 1=1 --"}"#, vec![]),
        (
            r#"{"thread_id":"a","request_input_id":1,"role":"tool","kind":"tool_output","visible":0,"created_from":100,"created_to":100,"q":"needle"}"#,
            vec![3],
        ),
        (r#"{"id":4}"#, vec![4]),
        (r#"{"visible":0}"#, vec![4, 3, 2]),
        (r#"{"created_from":200,"created_to":300}"#, vec![6, 5, 4, 1]),
        (r#"{"thread_id":"a' OR 1=1 --"}"#, vec![]),
    ];
    for (input, expected) in cases {
        let page = load_page(&mut connection, parse(input)).unwrap();
        assert_eq!(page.ids, expected);
        assert_eq!(page.total as usize, expected.len());
    }
    let filtered =
        load_page(&mut connection, parse(r#"{"q":"needle","page_size":1,"page":2}"#)).unwrap();
    assert_eq!(filtered.total, 2);
    assert_eq!(filtered.ids, [3]);
}

#[test]
fn every_column_sorts_and_invalid_queries_are_rejected() {
    let mut connection = database();
    let columns: Vec<(&str, Vec<i64>)> = vec![
        ("id", vec![1, 2, 3, 4, 5, 6]),
        ("thread_id", vec![1, 3, 5, 2, 4, 6]),
        ("request_input_id", vec![1, 2, 3, 5, 4, 6]),
        ("role", vec![2, 6, 4, 5, 3, 1]),
        ("content", vec![4, 2, 1, 6, 5, 3]),
        ("kind", vec![5, 4, 1, 2, 6, 3]),
        ("payload", vec![1, 2, 4, 5, 6, 3]),
        ("visible", vec![2, 3, 4, 1, 5, 6]),
        ("created_at", vec![2, 3, 4, 5, 1, 6]),
    ];
    for (column, ascending) in columns {
        let descending: Vec<i64> = ascending.iter().rev().copied().collect();
        for (direction, expected) in [("asc", ascending.clone()), ("desc", descending)] {
            let page = load_page(
                &mut connection,
                parse(&format!(r#"{{"sort":"{column}","direction":"{direction}"}}"#)),
            )
            .unwrap();
            assert_eq!(page.ids, expected);
        }
    }
    for value in [
        r#"{"page":0}"#,
        r#"{"page":-1}"#,
        r#"{"page_size":0}"#,
        r#"{"page_size":101}"#,
        r#"{"sort":"id; DROP TABLE history_records"}"#,
        r#"{"direction":"desc;--"}"#,
        r#"{"visible":2}"#,
        r#"{"created_from":200,"created_to":100}"#,
    ] {
        assert_eq!(load_page(&mut connection, parse(value)).err().unwrap().status, 400);
    }
}
