use agent_block_core::bridge::ts::{
    build_query_sql, decode_row, plan_append, plan_last, plan_query, schema_ddl, validate_tag_key,
    Param, QueryOpts, RowShape, TagValue,
};
use rusqlite::Connection;

const DDL: &str = "CREATE TABLE ts (series TEXT NOT NULL, ts INTEGER NOT NULL, \
                   tags TEXT, value TEXT NOT NULL); \
                   CREATE INDEX idx_ts_series_ts ON ts(series, ts);";

fn insert(conn: &Connection, value: &str) {
    conn.execute(
        "INSERT INTO ts (series, ts, tags, value) VALUES (?, ?, NULL, ?)",
        ("s", 1000_i64, value),
    )
    .expect("insert");
}

fn nothing_said() -> QueryOpts {
    QueryOpts {
        from: None,
        to: None,
        agg: None,
        bucket_ms: None,
        limit: None,
        offset: None,
        tags: Vec::new(),
    }
}

#[test]
fn raw_path_same_ms_preserves_insert_order() {
    let sql = build_query_sql(None, None, &[], None, None).expect("build_query_sql");
    assert!(
        sql.contains("ORDER BY ts, rowid"),
        "raw path SQL missing rowid tie-breaker: {sql}"
    );

    let conn = Connection::open_in_memory().expect("open in-memory sqlite");
    conn.execute_batch(DDL).expect("ddl");
    insert(&conn, "\"first\"");
    insert(&conn, "\"second\"");
    insert(&conn, "\"third\"");

    let mut stmt = conn.prepare(&sql).expect("prepare");
    let rows: Vec<String> = stmt
        .query_map(("s", i64::MIN, i64::MAX), |r| r.get::<_, String>(1))
        .expect("query")
        .collect::<Result<Vec<_>, _>>()
        .expect("collect");

    assert_eq!(
        rows,
        vec![
            "\"first\"".to_string(),
            "\"second\"".to_string(),
            "\"third\"".to_string()
        ],
        "raw path returned rows in non-INSERT order: {rows:?}"
    );
}

#[test]
fn last_path_same_ms_returns_last_insert() {
    let sql_last =
        build_query_sql(Some("last"), None, &[], None, None).expect("build_query_sql last");
    assert!(
        sql_last.contains("ORDER BY ts DESC, rowid DESC LIMIT 1"),
        "last path SQL missing rowid DESC tie-breaker: {sql_last}"
    );

    let conn = Connection::open_in_memory().expect("open in-memory sqlite");
    conn.execute_batch(DDL).expect("ddl");
    for v in ["\"first\"", "\"second\"", "\"third\""] {
        insert(&conn, v);
    }

    let make_last_sql = "SELECT ts, value, tags FROM ts \
                         WHERE series = ? AND ts >= ? AND ts <= ? \
                         ORDER BY ts DESC, rowid DESC LIMIT 1";
    assert_eq!(plan_last("s", &[]).ok().expect("a plan").sql, make_last_sql);
    let mut stmt = conn.prepare(make_last_sql).expect("prepare");
    let value: String = stmt
        .query_row(("s", i64::MIN, i64::MAX), |r| r.get::<_, String>(1))
        .expect("query_row");

    assert_eq!(value, "\"third\"", "last path returned non-last INSERT value: {value}");
}

#[test]
fn the_schema_takes_an_append() {
    let conn = Connection::open_in_memory().expect("open in-memory sqlite");
    conn.execute_batch(schema_ddl()).expect("ddl");
    let plan = plan_append(&["host".to_string()], None, 42).ok().expect("a plan");
    assert_eq!(plan.ts_ms, 42);
    conn.execute(plan.sql, ("s", plan.ts_ms, Some("{}"), "1")).expect("insert");
    let n: i64 = conn.query_row("SELECT COUNT(*) FROM ts", [], |r| r.get(0)).expect("count");
    assert_eq!(n, 1);
    assert_eq!(plan_append(&[], Some(7), 42).ok().expect("a plan").ts_ms, 7);
    assert_eq!(
        plan_append(&["a b".to_string()], None, 0).err().expect("refused"),
        "ts tag key must be [a-zA-Z0-9_]+"
    );
}

#[test]
fn a_bucketed_query_groups_by_its_width() {
    let mut opts = nothing_said();
    opts.agg = Some("avg".to_string());
    opts.bucket_ms = Some(60000);
    opts.limit = Some(10);
    opts.offset = Some(20);
    opts.tags = vec![("host".to_string(), TagValue::Text("a".to_string()))];
    let plan = plan_query("cpu", &opts).ok().expect("a plan");
    assert_eq!(
        plan.sql,
        "WITH picked AS (SELECT ts, value FROM ts \
         WHERE series = ? AND ts >= ? AND ts <= ? AND json_extract(tags, '$.host') = ?) \
         SELECT (ts / ?) * ? AS bucket_ts, AVG(CAST(value AS REAL)) AS agg_value FROM picked \
         GROUP BY bucket_ts ORDER BY bucket_ts LIMIT ? OFFSET ?"
    );
    assert!(plan.shape == RowShape::Bucketed);
    assert_eq!(plan.params.len(), plan.sql.matches('?').count());
    assert!(matches!(&plan.params[0], Param::Text(s) if s == "cpu"));
    assert!(matches!(&plan.params[1], Param::Int(i64::MIN)));
    assert!(matches!(&plan.params[2], Param::Int(i64::MAX)));
    assert!(matches!(&plan.params[3], Param::Text(s) if s == "a"));
    assert!(matches!(&plan.params[4], Param::Int(60000)));
    assert!(matches!(&plan.params[5], Param::Int(60000)));
    assert!(matches!(&plan.params[6], Param::Int(10)));
    assert!(matches!(&plan.params[7], Param::Int(20)));
}

#[test]
fn bucket_width_and_limits_are_placeholders() {
    let sql = build_query_sql(Some("count"), Some(60000), &[], Some(10), Some(20)).expect("sql");
    assert_eq!(sql.matches('?').count(), 7);
    assert!(sql.contains("GROUP BY bucket_ts ORDER BY bucket_ts"));
    assert!(!sql.contains("60000"));
}

fn bound(params: &[Param]) -> Vec<rusqlite::types::Value> {
    params
        .iter()
        .map(|p| match p {
            Param::Text(s) => rusqlite::types::Value::Text(s.clone()),
            Param::Int(n) => rusqlite::types::Value::Integer(*n),
            Param::Bool(b) => rusqlite::types::Value::Integer(i64::from(*b)),
            Param::Real(bits) => rusqlite::types::Value::Real(f64::from_bits(*bits)),
        })
        .collect()
}

#[test]
fn a_bucketed_query_runs_with_its_parameters() {
    let conn = Connection::open_in_memory().expect("open in-memory sqlite");
    conn.execute_batch(DDL).expect("ddl");
    for (ts, value) in [(10_i64, "1"), (59999, "2"), (60000, "3"), (180001, "4"), (190000, "5")] {
        conn.execute("INSERT INTO ts VALUES (?, ?, NULL, ?)", ("s", ts, value)).expect("insert");
    }
    conn.execute("INSERT INTO ts VALUES ('other', 1, NULL, '9')", []).expect("insert");
    let mut opts = nothing_said();
    opts.agg = Some("count".to_string());
    opts.bucket_ms = Some(60000);
    opts.limit = Some(2);
    opts.offset = Some(1);
    let plan = plan_query("s", &opts).ok().expect("a plan");
    let mut stmt = conn.prepare(&plan.sql).expect("prepare");
    let rows: Vec<(i64, i64)> = stmt
        .query_map(rusqlite::params_from_iter(bound(&plan.params)), |r| Ok((r.get(0)?, r.get(1)?)))
        .expect("query")
        .collect::<Result<Vec<_>, _>>()
        .expect("collect");
    assert_eq!(rows, vec![(60000, 1), (180000, 2)]);
}

#[test]
fn a_tag_is_found_by_its_own_kind() {
    let conn = Connection::open_in_memory().expect("open in-memory sqlite");
    conn.execute_batch(DDL).expect("ddl");
    for tags in ["{\"n\":5}", "{\"n\":\"5\"}", "{\"n\":true}", "{\"n\":2.5}", "{\"n\":[1,2]}"] {
        conn.execute("INSERT INTO ts VALUES ('s', 1000, ?, '1')", [tags]).expect("insert");
    }
    let found = |value: TagValue| -> Vec<String> {
        let mut opts = nothing_said();
        opts.tags = vec![("n".to_string(), value)];
        let plan = plan_query("s", &opts).ok().expect("a plan");
        let mut stmt = conn.prepare(&plan.sql).expect("prepare");
        let rows = stmt
            .query_map(rusqlite::params_from_iter(bound(&plan.params)), |r| r.get::<_, String>(2))
            .expect("query")
            .collect::<Result<Vec<_>, _>>()
            .expect("collect");
        rows
    };
    assert_eq!(found(TagValue::Int(5)), vec!["{\"n\":5}".to_string()]);
    assert_eq!(found(TagValue::Text("5".to_string())), vec!["{\"n\":\"5\"}".to_string()]);
    assert_eq!(found(TagValue::Bool(true)), vec!["{\"n\":true}".to_string()]);
    assert_eq!(found(TagValue::Real(2.5_f64.to_bits())), vec!["{\"n\":2.5}".to_string()]);
    assert_eq!(found(TagValue::Json("[1,2]".to_string())), vec!["{\"n\":[1,2]}".to_string()]);
    assert!(found(TagValue::Int(6)).is_empty());
}

#[test]
fn an_offset_alone_still_needs_a_limit() {
    let mut opts = nothing_said();
    opts.offset = Some(5);
    let plan = plan_query("s", &opts).ok().expect("a plan");
    assert!(plan.sql.ends_with(" LIMIT -1 OFFSET ?"), "{}", plan.sql);
    assert!(matches!(&plan.params[3], Param::Int(5)));
    opts.limit = Some(2);
    let plan = plan_query("s", &opts).ok().expect("a plan");
    assert!(matches!((&plan.params[3], &plan.params[4]), (Param::Int(2), Param::Int(5))));
}

#[test]
fn every_bad_option_has_its_message() {
    let mut o = nothing_said();
    o.bucket_ms = Some(0);
    assert_eq!(plan_query("s", &o).err().unwrap(), "ts bucket_ms must be positive");
    o.bucket_ms = Some(1);
    assert_eq!(plan_query("s", &o).err().unwrap(), "ts bucket_ms requires agg");
    let mut o = nothing_said();
    o.limit = Some(-1);
    assert_eq!(plan_query("s", &o).err().unwrap(), "ts opts.limit must be >= 0");
    let mut o = nothing_said();
    o.offset = Some(-1);
    assert_eq!(plan_query("s", &o).err().unwrap(), "ts opts.offset must be >= 0");
    let mut o = nothing_said();
    o.agg = Some("median".to_string());
    assert_eq!(plan_query("s", &o).err().unwrap(), "unknown agg: median");
    let mut o = nothing_said();
    o.tags = vec![("x'".to_string(), TagValue::Json("1".to_string()))];
    assert_eq!(plan_query("s", &o).err().unwrap(), "ts tag key must be [a-zA-Z0-9_]+");
}

#[test]
fn tag_keys_are_words() {
    assert!(validate_tag_key("host_1").is_ok());
    assert!(validate_tag_key("").is_ok());
    assert!(validate_tag_key("a.b").is_err());
    assert!(validate_tag_key("é").is_err());
}

#[test]
fn rows_are_read_by_their_shape() {
    let raw = [Some("1000".to_string()), Some("1".to_string()), None];
    let r = decode_row(RowShape::Raw, &raw).ok().expect("a row");
    assert_eq!((r.ts, r.bucket_ts, r.value.as_deref(), r.tags), (Some(1000), None, Some("1"), None));

    let last = [Some("2".to_string()), Some("{}".to_string()), Some("-5".to_string())];
    let r = decode_row(RowShape::SingleLast, &last).ok().expect("a row");
    assert_eq!((r.ts, r.value.as_deref(), r.tags.as_deref()), (Some(-5), Some("2"), Some("{}")));

    let r = decode_row(RowShape::SingleAgg, &[Some("3".to_string())]).ok().expect("a row");
    assert_eq!((r.ts, r.value.as_deref()), (None, Some("3")));

    let b = [Some("60000".to_string()), Some("0.5".to_string())];
    let r = decode_row(RowShape::Bucketed, &b).ok().expect("a row");
    assert_eq!((r.bucket_ts, r.value.as_deref()), (Some(60000), Some("0.5")));

    let bad = [Some("late".to_string())];
    assert_eq!(
        decode_row(RowShape::Raw, &bad).err().expect("refused"),
        "invalid digit found in string"
    );
}
