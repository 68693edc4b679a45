//! The rules of `std.ts.*`, a time series kept in one SQLite table.
//!
//! A row is a series name, a timestamp in milliseconds, an optional JSON object
//! of tags, and a JSON payload.  Tags are filtered through `json_extract`, one
//! clause for each key, never compared as a serialised string.  Running the
//! statements is the caller's: the functions here say which statement to run
//! with which parameters, and how to read the rows that come back.

use vstd::prelude::*;

use crate::text::{
    chars_of, dec, fault_text, fault_words, law_decimal_reads_back, parse_i64, parse_int, same, views,
    IntFault,
};

verus! {

broadcast use vstd::string::group_string_axioms;

/// Whether a character may stand in a tag key.
pub open spec fn is_key_char(c: char) -> bool {
    ||| 'a' <= c <= 'z'
    ||| 'A' <= c <= 'Z'
    ||| '0' <= c <= '9'
    ||| c == '_'
}

/// Whether every character of a tag key may stand in one.
pub open spec fn is_tag_key(key: Seq<char>) -> bool {
    forall|i: int| 0 <= i < key.len() ==> is_key_char(#[trigger] key[i])
}

/// Validate that a tag key holds only ASCII letters, digits and underscores.
/// The key becomes part of the statement, so nothing else may stand in it.
pub fn validate_tag_key(key: &str) -> (out: Result<(), String>)
    ensures
        out is Ok <==> is_tag_key(key@),
        out matches Err(e) ==> e@ == "ts tag key must be [a-zA-Z0-9_]+"@,
{
    let chars = chars_of(key);
    let mut i: usize = 0;
    while i < chars.len()
        invariant
            chars@ == key@,
            0 <= i <= chars@.len(),
            forall|k: int| 0 <= k < i ==> is_key_char(#[trigger] chars@[k]),
        decreases chars@.len() - i,
    {
        let c = chars[i];
        if !(('a' <= c && c <= 'z') || ('A' <= c && c <= 'Z') || ('0' <= c && c <= '9') || c
            == '_') {
            assert(!is_key_char(key@[i as int]));
            return Err("ts tag key must be [a-zA-Z0-9_]+".to_owned());
        }
        i += 1;
    }
    Ok(())
}

/// One clause for each tag key: all of them have to hold.
pub open spec fn tag_clauses(keys: Seq<Seq<char>>) -> Seq<char>
    decreases keys.len(),
{
    if keys.len() == 0 {
        Seq::<char>::empty()
    } else {
        tag_clauses(keys.drop_last()) + " AND json_extract(tags, '$."@ + keys.last() + "') = ?"@
    }
}

/// The rows a query looks at: one series, a closed range of time, the tags.
pub open spec fn where_clause(keys: Seq<Seq<char>>) -> Seq<char> {
    "WHERE series = ? AND ts >= ? AND ts <= ?"@ + tag_clauses(keys)
}

/// How many rows are given out, and how many are skipped before.
pub open spec fn limit_clause(limit: Option<i64>, offset: Option<i64>) -> Seq<char> {
    match (limit, offset) {
        (Some(_), Some(_)) => " LIMIT ? OFFSET ?"@,
        (Some(_), None) => " LIMIT ?"@,
        (None, Some(_)) => " LIMIT -1 OFFSET ?"@,
        (None, None) => Seq::<char>::empty(),
    }
}

/// Whether an aggregation of this name exists.
pub open spec fn known_agg(agg: Seq<char>) -> bool {
    agg == "count"@ || agg == "sum"@ || agg == "avg"@ || agg == "last"@
}

/// The expression an aggregation computes over the rows.  The last row has no
/// such expression of its own; over a bucket its timestamp stands for it.
pub open spec fn agg_expr(agg: Seq<char>) -> Seq<char> {
    if agg == "count"@ {
        "COUNT(*)"@
    } else if agg == "sum"@ {
        "SUM(CAST(value AS REAL))"@
    } else if agg == "avg"@ {
        "AVG(CAST(value AS REAL))"@
    } else {
        "MAX(ts)"@
    }
}

/// The statement of a query.
pub open spec fn query_sql(
    agg: Option<Seq<char>>,
    bucket_ms: Option<i64>,
    keys: Seq<Seq<char>>,
    limit: Option<i64>,
    offset: Option<i64>,
) -> Seq<char> {
    match (agg, bucket_ms) {
        (None, _) => "SELECT ts, value, tags FROM ts "@ + where_clause(keys)
            + " ORDER BY ts, rowid"@ + limit_clause(limit, offset),
        (Some(a), None) => if a == "last"@ {
            "SELECT value, tags, ts FROM ts "@ + where_clause(keys)
                + " ORDER BY ts DESC, rowid DESC LIMIT 1"@
        } else {
            "SELECT "@ + agg_expr(a) + " FROM ts "@ + where_clause(keys)
        },
        (Some(a), Some(_)) => "WITH picked AS (SELECT ts, value FROM ts "@ + where_clause(keys)
            + ") SELECT (ts / ?) * ? AS bucket_ts, "@ + agg_expr(a)
            + " AS agg_value FROM picked GROUP BY bucket_ts ORDER BY bucket_ts"@ + limit_clause(
            limit,
            offset,
        ),
    }
}

/// What an optional text reads as.
pub open spec fn str_of(o: Option<&str>) -> Option<Seq<char>> {
    match o {
        Some(s) => Some(s@),
        None => None,
    }
}

/// Append one clause for each tag key.
fn append_tag_clauses(sql: &mut String, keys: &[String])
    ensures
        final(sql)@ == old(sql)@ + tag_clauses(views(keys@)),
{
    let ghost start = sql@;
    let ghost all = views(keys@);
    let mut i: usize = 0;
    assert(all.take(0) =~= Seq::<Seq<char>>::empty());
    assert(start + tag_clauses(all.take(0)) =~= start);
    while i < keys.len()
        invariant
            all == views(keys@),
            0 <= i <= keys@.len(),
            sql@ == start + tag_clauses(all.take(i as int)),
        decreases keys@.len() - i,
    {
        let ghost now = all.take(i + 1);
        assert(now.drop_last() =~= all.take(i as int));
        assert(now.last() == keys@[i as int]@);
        sql.append(" AND json_extract(tags, '$.");
        sql.append(keys[i].as_str());
        sql.append("') = ?");
        assert(sql@ =~= start + tag_clauses(now));
        i += 1;
    }
    assert(all.take(all.len() as int) =~= all);
}

/// Append the clause that selects the rows.
fn append_where(sql: &mut String, keys: &[String])
    ensures
        final(sql)@ == old(sql)@ + where_clause(views(keys@)),
{
    let ghost start = sql@;
    sql.append("WHERE series = ? AND ts >= ? AND ts <= ?");
    append_tag_clauses(sql, keys);
    assert(sql@ =~= start + where_clause(views(keys@)));
}

/// Append the clause that limits the rows.
fn append_limit(sql: &mut String, limit: Option<i64>, offset: Option<i64>)
    ensures
        final(sql)@ == old(sql)@ + limit_clause(limit, offset),
{
    let ghost start = sql@;
    match limit {
        Some(_) => {
            if offset.is_some() {
                sql.append(" LIMIT ? OFFSET ?");
            } else {
                sql.append(" LIMIT ?");
            }
        },
        None => {
            if offset.is_some() {
                sql.append(" LIMIT -1 OFFSET ?");
            }
        },
    }
    assert(sql@ =~= start + limit_clause(limit, offset));
}

/// Whether an aggregation of this name exists.
fn agg_known(agg: &str) -> (yes: bool)
    ensures
        yes == known_agg(agg@),
{
    same(agg, "count") || same(agg, "sum") || same(agg, "avg") || same(agg, "last")
}

/// The expression of an aggregation.
fn agg_expression(agg: &str) -> (out: &'static str)
    ensures
        out@ == agg_expr(agg@),
{
    if same(agg, "count") {
        "COUNT(*)"
    } else if same(agg, "sum") {
        "SUM(CAST(value AS REAL))"
    } else if same(agg, "avg") {
        "AVG(CAST(value AS REAL))"
    } else {
        "MAX(ts)"
    }
}

/// Build the statement of `std.ts.query`: the raw rows in the order of their
/// timestamps and, within one millisecond, of their insertion; a single
/// aggregate; or an aggregate for each bucket of time.
///
/// The placeholders are bound in the order series, from, to, one value for each
/// tag key, the width of a bucket twice, the limit, the offset.  SQLite counts
/// them from left to right, so a bucketed query names the rows it picks before
/// it speaks of buckets.
pub fn build_query_sql(
    agg: Option<&str>,
    bucket_ms: Option<i64>,
    tag_keys: &[String],
    limit: Option<i64>,
    offset: Option<i64>,
) -> (out: Result<String, String>)
    ensures
        out is Ok <==> (agg is Some ==> known_agg(agg->0@)),
        match out {
            Ok(sql) => sql@ == query_sql(str_of(agg), bucket_ms, views(tag_keys@), limit, offset),
            Err(e) => e@ == "unknown agg: "@ + agg->0@,
        },
{
    match agg {
        None => {
            let mut sql = "SELECT ts, value, tags FROM ts ".to_owned();
            append_where(&mut sql, tag_keys);
            sql.append(" ORDER BY ts, rowid");
            append_limit(&mut sql, limit, offset);
            Ok(sql)
        },
        Some(name) => {
            if !agg_known(name) {
                let mut e = "unknown agg: ".to_owned();
                e.append(name);
                return Err(e);
            }
            match bucket_ms {
                None => {
                    if same(name, "last") {
                        let mut sql = "SELECT value, tags, ts FROM ts ".to_owned();
                        append_where(&mut sql, tag_keys);
                        sql.append(" ORDER BY ts DESC, rowid DESC LIMIT 1");
                        Ok(sql)
                    } else {
                        let mut sql = "SELECT ".to_owned();
                        sql.append(agg_expression(name));
                        sql.append(" FROM ts ");
                        append_where(&mut sql, tag_keys);
                        Ok(sql)
                    }
                },
                Some(_) => {
                    let mut sql = "WITH picked AS (SELECT ts, value FROM ts ".to_owned();
                    append_where(&mut sql, tag_keys);
                    sql.append(") SELECT (ts / ?) * ? AS bucket_ts, ");
                    sql.append(agg_expression(name));
                    sql.append(" AS agg_value FROM picked GROUP BY bucket_ts ORDER BY bucket_ts");
                    append_limit(&mut sql, limit, offset);
                    Ok(sql)
                },
            }
        },
    }
}

/// The value of a tag.  What `json_extract` gives for it is of the same kind, so
/// a number is compared with a number and a truth value with one; a fraction is
/// kept as its IEEE 754 bits, and an array or an object in its JSON form.
pub enum TagValue {
    Text(String),
    Int(i64),
    Bool(bool),
    Real(u64),
    Json(String),
}

impl TagValue {
    /// What the tag is compared with.
    pub open spec fn param(&self) -> ParamView {
        match self {
            TagValue::Text(s) => ParamView::Text(s@),
            TagValue::Int(n) => ParamView::Int(*n as int),
            TagValue::Bool(b) => ParamView::Bool(*b),
            TagValue::Real(bits) => ParamView::Real(*bits),
            TagValue::Json(s) => ParamView::Text(s@),
        }
    }

    /// What the tag is compared with.
    pub fn to_param(&self) -> (out: Param)
        ensures
            out@ == self.param(),
    {
        match self {
            TagValue::Text(s) => Param::Text(s.clone()),
            TagValue::Int(n) => Param::Int(*n),
            TagValue::Bool(b) => Param::Bool(*b),
            TagValue::Real(bits) => Param::Real(*bits),
            TagValue::Json(s) => Param::Text(s.clone()),
        }
    }
}

/// What a script may say about a query.
pub struct QueryOpts {
    pub from: Option<i64>,
    pub to: Option<i64>,
    pub agg: Option<String>,
    pub bucket_ms: Option<i64>,
    pub limit: Option<i64>,
    pub offset: Option<i64>,
    pub tags: Vec<(String, TagValue)>,
}

/// A value bound to a placeholder.
pub enum Param {
    Text(String),
    Int(i64),
    Bool(bool),
    /// A fraction, as its IEEE 754 bits.
    Real(u64),
}

/// How a parameter reads.
pub ghost enum ParamView {
    Text(Seq<char>),
    Int(int),
    Bool(bool),
    Real(u64),
}

impl View for Param {
    type V = ParamView;

    open spec fn view(&self) -> ParamView {
        match self {
            Param::Text(s) => ParamView::Text(s@),
            Param::Int(n) => ParamView::Int(*n as int),
            Param::Bool(b) => ParamView::Bool(*b),
            Param::Real(bits) => ParamView::Real(*bits),
        }
    }
}

/// How a list of parameters reads.
pub open spec fn param_views(params: Seq<Param>) -> Seq<ParamView> {
    params.map_values(|p: Param| p@)
}

/// Which columns the rows of a query have.
#[derive(Clone, Copy, PartialEq, Eq, Structural)]
pub enum RowShape {
    /// timestamp, value, tags
    Raw,
    /// value, tags, timestamp
    SingleLast,
    /// the aggregate
    SingleAgg,
    /// start of the bucket, the aggregate
    Bucketed,
}

/// A statement to run, the values of its placeholders, and the shape of the
/// rows it gives.
pub struct QueryPlan {
    pub sql: String,
    pub params: Vec<Param>,
    pub shape: RowShape,
}

/// The keys of a tag filter.
pub open spec fn filter_keys(tags: Seq<(String, TagValue)>) -> Seq<Seq<char>> {
    tags.map_values(|t: (String, TagValue)| t.0@)
}

/// The values of a tag filter, as parameters.
pub open spec fn filter_params(tags: Seq<(String, TagValue)>) -> Seq<ParamView> {
    tags.map_values(|t: (String, TagValue)| t.1.param())
}

/// Whether every key of a tag filter is one.
pub open spec fn filter_valid(tags: Seq<(String, TagValue)>) -> bool {
    forall|i: int| 0 <= i < tags.len() ==> is_tag_key((#[trigger] tags[i]).0@)
}

/// The values of the placeholders that pick the rows: series, from, to, then
/// the tags.
pub open spec fn bound_params(
    series: Seq<char>,
    from: int,
    to: int,
    tags: Seq<(String, TagValue)>,
) -> Seq<ParamView> {
    seq![ParamView::Text(series), ParamView::Int(from), ParamView::Int(to)] + filter_params(tags)
}

/// The values of the placeholders that limit the rows.
pub open spec fn limit_params(limit: Option<i64>, offset: Option<i64>) -> Seq<ParamView> {
    match (limit, offset) {
        (Some(l), Some(o)) => seq![ParamView::Int(l as int), ParamView::Int(o as int)],
        (Some(l), None) => seq![ParamView::Int(l as int)],
        (None, Some(o)) => seq![ParamView::Int(o as int)],
        (None, None) => Seq::<ParamView>::empty(),
    }
}

/// The values of the placeholders behind those that pick the rows: the width of
/// a bucket twice, then the limits.  A single aggregate has none.
pub open spec fn shape_params(
    agg: Option<Seq<char>>,
    bucket_ms: Option<i64>,
    limit: Option<i64>,
    offset: Option<i64>,
) -> Seq<ParamView> {
    match (agg, bucket_ms) {
        (None, _) => limit_params(limit, offset),
        (Some(_), None) => Seq::<ParamView>::empty(),
        (Some(_), Some(b)) => seq![ParamView::Int(b as int), ParamView::Int(b as int)]
            + limit_params(limit, offset),
    }
}

/// What is wrong with the options of a query, looked at in this order: the
/// bucket's width, a bucket without an aggregate, the limit, the offset, the
/// tag keys, the aggregate's name.
pub open spec fn opts_fault(opts: QueryOpts) -> Option<Seq<char>> {
    if opts.bucket_ms matches Some(b) && b <= 0 {
        Some("ts bucket_ms must be positive"@)
    } else if opts.bucket_ms is Some && opts.agg is None {
        Some("ts bucket_ms requires agg"@)
    } else if opts.limit matches Some(l) && l < 0 {
        Some("ts opts.limit must be >= 0"@)
    } else if opts.offset matches Some(o) && o < 0 {
        Some("ts opts.offset must be >= 0"@)
    } else if !filter_valid(opts.tags@) {
        Some("ts tag key must be [a-zA-Z0-9_]+"@)
    } else if opts.agg matches Some(a) && !known_agg(a@) {
        Some("unknown agg: "@ + opts.agg->0@)
    } else {
        None
    }
}

/// The shape of the rows a query gives.
pub open spec fn row_shape(agg: Option<Seq<char>>, bucket_ms: Option<i64>) -> RowShape {
    match (agg, bucket_ms) {
        (None, _) => RowShape::Raw,
        (Some(a), None) => if a == "last"@ {
            RowShape::SingleLast
        } else {
            RowShape::SingleAgg
        },
        (Some(_), Some(_)) => RowShape::Bucketed,
    }
}

/// Validate a tag filter and take its keys.
fn checked_keys(tags: &[(String, TagValue)]) -> (out: Result<Vec<String>, String>)
    ensures
        out is Ok <==> filter_valid(tags@),
        match out {
            Ok(keys) => views(keys@) == filter_keys(tags@),
            Err(e) => e@ == "ts tag key must be [a-zA-Z0-9_]+"@,
        },
{
    let mut keys: Vec<String> = Vec::new();
    let mut i: usize = 0;
    while i < tags.len()
        invariant
            0 <= i <= tags@.len(),
            forall|k: int| 0 <= k < i ==> is_tag_key((#[trigger] tags@[k]).0@),
            views(keys@) == filter_keys(tags@.take(i as int)),
        decreases tags@.len() - i,
    {
        if let Err(e) = validate_tag_key(tags[i].0.as_str()) {
            assert(!is_tag_key(tags@[i as int].0@));
            return Err(e);
        }
        let ghost so_far = keys@;
        let key = tags[i].0.clone();
        keys.push(key);
        assert(views(keys@) =~= views(so_far).push(key@));
        assert(filter_keys(tags@.take(i + 1)) =~= filter_keys(tags@.take(i as int)).push(key@));
        i += 1;
    }
    assert(tags@.take(tags@.len() as int) =~= tags@);
    Ok(keys)
}

/// The values of the placeholders that pick the rows.
fn bind(series: &str, from: i64, to: i64, tags: &[(String, TagValue)]) -> (out: Vec<Param>)
    ensures
        param_views(out@) == bound_params(series@, from as int, to as int, tags@),
{
    let mut params: Vec<Param> = Vec::new();
    params.push(Param::Text(series.to_owned()));
    params.push(Param::Int(from));
    params.push(Param::Int(to));
    let mut i: usize = 0;
    assert(param_views(params@) =~= bound_params(
        series@,
        from as int,
        to as int,
        tags@.take(0),
    ));
    while i < tags.len()
        invariant
            0 <= i <= tags@.len(),
            param_views(params@) == bound_params(
                series@,
                from as int,
                to as int,
                tags@.take(i as int),
            ),
        decreases tags@.len() - i,
    {
        let ghost so_far = params@;
        let value = tags[i].1.to_param();
        params.push(value);
        assert(param_views(params@) =~= param_views(so_far).push(tags@[i as int].1.param()));
        assert(param_views(params@) =~= bound_params(
            series@,
            from as int,
            to as int,
            tags@.take(i + 1),
        ));
        i += 1;
    }
    assert(tags@.take(tags@.len() as int) =~= tags@);
    params
}

/// Append one number to the values.
fn push_int(params: &mut Vec<Param>, n: i64)
    ensures
        param_views(final(params)@) == param_views(old(params)@).push(ParamView::Int(n as int)),
{
    let ghost so_far = params@;
    params.push(Param::Int(n));
    assert(param_views(params@) =~= param_views(so_far).push(ParamView::Int(n as int)));
}

/// Append the values behind those that pick the rows.
fn bind_shape(
    params: &mut Vec<Param>,
    agg: Option<&str>,
    bucket_ms: Option<i64>,
    limit: Option<i64>,
    offset: Option<i64>,
)
    ensures
        param_views(final(params)@) == param_views(old(params)@) + shape_params(
            str_of(agg),
            bucket_ms,
            limit,
            offset,
        ),
{
    let ghost start = param_views(params@);
    if agg.is_some() {
        match bucket_ms {
            None => {
                assert(param_views(params@) =~= start + shape_params(
                    str_of(agg),
                    bucket_ms,
                    limit,
                    offset,
                ));
                return ;
            },
            Some(b) => {
                push_int(params, b);
                push_int(params, b);
            },
        }
    }
    if let Some(l) = limit {
        push_int(params, l);
    }
    if let Some(o) = offset {
        push_int(params, o);
    }
    assert(param_views(params@) =~= start + shape_params(str_of(agg), bucket_ms, limit, offset));
}

/// What an option's text reads as.
pub open spec fn string_of_opt(o: Option<String>) -> Option<Seq<char>> {
    match o {
        Some(s) => Some(s@),
        None => None,
    }
}

/// Work out a query of `series`: the statement, its parameters and the shape
/// of its rows, or what is wrong with the options.
pub fn plan_query(series: &str, opts: &QueryOpts) -> (out: Result<QueryPlan, String>)
    ensures
        out is Ok <==> opts_fault(*opts) is None,
        match out {
            Ok(plan) => {
                let agg = string_of_opt(opts.agg);
                &&& plan.sql@ == query_sql(
                    agg,
                    opts.bucket_ms,
                    filter_keys(opts.tags@),
                    opts.limit,
                    opts.offset,
                )
                &&& param_views(plan.params@) == bound_params(
                    series@,
                    match opts.from {
                        Some(f) => f as int,
                        None => i64::MIN as int,
                    },
                    match opts.to {
                        Some(t) => t as int,
                        None => i64::MAX as int,
                    },
                    opts.tags@,
                ) + shape_params(agg, opts.bucket_ms, opts.limit, opts.offset)
                &&& plan.shape == row_shape(agg, opts.bucket_ms)
            },
            Err(e) => opts_fault(*opts) == Some(e@),
        },
{
    if let Some(b) = opts.bucket_ms {
        if b <= 0 {
            return Err("ts bucket_ms must be positive".to_owned());
        }
        if opts.agg.is_none() {
            return Err("ts bucket_ms requires agg".to_owned());
        }
    }
    if let Some(l) = opts.limit {
        if l < 0 {
            return Err("ts opts.limit must be >= 0".to_owned());
        }
    }
    if let Some(o) = opts.offset {
        if o < 0 {
            return Err("ts opts.offset must be >= 0".to_owned());
        }
    }
    let keys = match checked_keys(opts.tags.as_slice()) {
        Ok(keys) => keys,
        Err(e) => return Err(e),
    };
    let agg: Option<&str> = match &opts.agg {
        Some(a) => Some(a.as_str()),
        None => None,
    };
    let sql = match build_query_sql(
        agg,
        opts.bucket_ms,
        keys.as_slice(),
        opts.limit,
        opts.offset,
    ) {
        Ok(sql) => sql,
        Err(e) => return Err(e),
    };
    let from: i64 = match opts.from {
        Some(f) => f,
        None => i64::MIN,
    };
    let to: i64 = match opts.to {
        Some(t) => t,
        None => i64::MAX,
    };
    let mut params = bind(series, from, to, opts.tags.as_slice());
    bind_shape(&mut params, agg, opts.bucket_ms, opts.limit, opts.offset);
    let shape = match agg {
        None => RowShape::Raw,
        Some(a) => if opts.bucket_ms.is_some() {
            RowShape::Bucketed
        } else if same(a, "last") {
            RowShape::SingleLast
        } else {
            RowShape::SingleAgg
        },
    };
    Ok(QueryPlan { sql, params, shape })
}

/// Work out the query of the most recent row of `series`.
pub fn plan_last(series: &str, tags: &[(String, TagValue)]) -> (out: Result<QueryPlan, String>)
    ensures
        out is Ok <==> filter_valid(tags@),
        match out {
            Ok(plan) => {
                &&& plan.sql@ == "SELECT ts, value, tags FROM ts "@ + where_clause(
                    filter_keys(tags@),
                ) + " ORDER BY ts DESC, rowid DESC LIMIT 1"@
                &&& param_views(plan.params@) == bound_params(
                    series@,
                    i64::MIN as int,
                    i64::MAX as int,
                    tags@,
                )
                &&& plan.shape == RowShape::Raw
            },
            Err(e) => e@ == "ts tag key must be [a-zA-Z0-9_]+"@,
        },
{
    let keys = match checked_keys(tags) {
        Ok(keys) => keys,
        Err(e) => return Err(e),
    };
    let mut sql = "SELECT ts, value, tags FROM ts ".to_owned();
    append_where(&mut sql, keys.as_slice());
    sql.append(" ORDER BY ts DESC, rowid DESC LIMIT 1");
    let params = bind(series, i64::MIN, i64::MAX, tags);
    Ok(QueryPlan { sql, params, shape: RowShape::Raw })
}

/// The statements that set the table up.
pub fn schema_ddl() -> (out: &'static str)
    ensures
        out@
            == "CREATE TABLE IF NOT EXISTS ts (series TEXT NOT NULL, ts INTEGER NOT NULL, tags TEXT, value TEXT NOT NULL); CREATE INDEX IF NOT EXISTS idx_ts_series_ts ON ts(series, ts);"@,
{
    "CREATE TABLE IF NOT EXISTS ts (series TEXT NOT NULL, ts INTEGER NOT NULL, tags TEXT, value TEXT NOT NULL); CREATE INDEX IF NOT EXISTS idx_ts_series_ts ON ts(series, ts);"
}

/// A row to append: the statement, and the timestamp it is appended at.
pub struct AppendPlan {
    pub sql: &'static str,
    pub ts_ms: i64,
}

/// Work out an append: at the time the script named, else at the present time,
/// provided every tag key is one.
pub fn plan_append(tag_keys: &[String], at: Option<i64>, now_ms: i64) -> (out: Result<
    AppendPlan,
    String,
>)
    ensures
        out is Ok <==> forall|i: int|
            0 <= i < tag_keys@.len() ==> is_tag_key((#[trigger] tag_keys@[i])@),
        match out {
            Ok(plan) => plan.sql@
                == "INSERT INTO ts (series, ts, tags, value) VALUES (?1, ?2, ?3, ?4)"@
                && plan.ts_ms == match at {
                Some(t) => t,
                None => now_ms,
            },
            Err(e) => e@ == "ts tag key must be [a-zA-Z0-9_]+"@,
        },
{
    let mut i: usize = 0;
    while i < tag_keys.len()
        invariant
            0 <= i <= tag_keys@.len(),
            forall|k: int| 0 <= k < i ==> is_tag_key((#[trigger] tag_keys@[k])@),
        decreases tag_keys@.len() - i,
    {
        if let Err(e) = validate_tag_key(tag_keys[i].as_str()) {
            assert(!is_tag_key(tag_keys@[i as int]@));
            return Err(e);
        }
        i += 1;
    }
    let ts_ms: i64 = match at {
        Some(t) => t,
        None => now_ms,
    };
    Ok(
        AppendPlan {
            sql: "INSERT INTO ts (series, ts, tags, value) VALUES (?1, ?2, ?3, ?4)",
            ts_ms,
        },
    )
}

/// A row as a script sees it: what is not part of the row's shape, and what
/// was NULL, is absent.  Value and tags are still in their JSON form.
pub struct Row {
    pub ts: Option<i64>,
    pub bucket_ts: Option<i64>,
    pub value: Option<String>,
    pub tags: Option<String>,
}

/// The text of a column; a column that is NULL or missing has none.
pub open spec fn column(cols: Seq<Option<String>>, i: int) -> Option<Seq<char>> {
    if 0 <= i < cols.len() {
        string_of_opt(cols[i])
    } else {
        None
    }
}

/// The number in a column, or what is wrong with it.
pub open spec fn int_column(cols: Seq<Option<String>>, i: int) -> Result<Option<int>, IntFault> {
    match column(cols, i) {
        None => Ok(None),
        Some(s) => match parse_int(s, i64::MIN as int, i64::MAX as int) {
            Ok(n) => Ok(Some(n)),
            Err(f) => Err(f),
        },
    }
}

/// The place of the timestamp, of the bucket's start, of the value and of the
/// tags in a row of this shape.
pub open spec fn row_columns(shape: RowShape) -> (Option<int>, Option<int>, int, Option<int>) {
    match shape {
        RowShape::Raw => (Some(0), None, 1, Some(2)),
        RowShape::SingleLast => (Some(2), None, 0, Some(1)),
        RowShape::SingleAgg => (None, None, 0, None),
        RowShape::Bucketed => (None, Some(0), 1, None),
    }
}

/// The number a place of the row holds.
pub open spec fn int_at(cols: Seq<Option<String>>, place: Option<int>) -> Result<
    Option<int>,
    IntFault,
> {
    match place {
        Some(i) => int_column(cols, i),
        None => Ok(None),
    }
}

/// The text a place of the row holds.
pub open spec fn text_in(cols: Seq<Option<String>>, place: Option<int>) -> Option<Seq<char>> {
    match place {
        Some(i) => column(cols, i),
        None => None,
    }
}

/// A number that may be absent, as a mathematical one.
pub open spec fn opt_int(o: Option<i64>) -> Option<int> {
    match o {
        Some(n) => Some(n as int),
        None => None,
    }
}

/// The text of a column.
fn text_column(cols: &[Option<String>], i: usize) -> (out: Option<String>)
    ensures
        string_of_opt(out) == column(cols@, i as int),
{
    if i < cols.len() {
        match &cols[i] {
            Some(s) => Some(s.clone()),
            None => None,
        }
    } else {
        None
    }
}

/// The number in a column.
fn number_column(cols: &[Option<String>], i: usize) -> (out: Result<Option<i64>, IntFault>)
    ensures
        match out {
            Ok(n) => int_column(cols@, i as int) == Ok::<Option<int>, IntFault>(opt_int(n)),
            Err(f) => int_column(cols@, i as int) == Err::<Option<int>, IntFault>(f),
        },
{
    if i < cols.len() {
        match &cols[i] {
            Some(s) => match parse_i64(s.as_str()) {
                Ok(n) => Ok(Some(n)),
                Err(f) => Err(f),
            },
            None => Ok(None),
        }
    } else {
        Ok(None)
    }
}

/// Read one row that a query of this shape gave.
pub fn decode_row(shape: RowShape, cols: &[Option<String>]) -> (out: Result<Row, String>)
    ensures
        ({
            let (ts, bucket, value, tags) = row_columns(shape);
            match out {
                Ok(row) => {
                    &&& int_at(cols@, ts) == Ok::<Option<int>, IntFault>(opt_int(row.ts))
                    &&& int_at(cols@, bucket) == Ok::<Option<int>, IntFault>(
                        opt_int(row.bucket_ts),
                    )
                    &&& string_of_opt(row.value) == column(cols@, value)
                    &&& string_of_opt(row.tags) == text_in(cols@, tags)
                },
                Err(e) => {
                    ||| int_at(cols@, ts) matches Err(f) && e@ == fault_words(f)
                    ||| int_at(cols@, bucket) matches Err(f) && e@ == fault_words(f)
                },
            }
        }),
{
    match shape {
        RowShape::Raw => match number_column(cols, 0) {
            Ok(ts) => Ok(
                Row {
                    ts,
                    bucket_ts: None,
                    value: text_column(cols, 1),
                    tags: text_column(cols, 2),
                },
            ),
            Err(f) => Err(fault_text(f)),
        },
        RowShape::SingleLast => match number_column(cols, 2) {
            Ok(ts) => Ok(
                Row {
                    ts,
                    bucket_ts: None,
                    value: text_column(cols, 0),
                    tags: text_column(cols, 1),
                },
            ),
            Err(f) => Err(fault_text(f)),
        },
        RowShape::SingleAgg => Ok(
            Row { ts: None, bucket_ts: None, value: text_column(cols, 0), tags: None },
        ),
        RowShape::Bucketed => match number_column(cols, 0) {
            Ok(start) => Ok(
                Row { ts: None, bucket_ts: start, value: text_column(cols, 1), tags: None },
            ),
            Err(f) => Err(fault_text(f)),
        },
    }
}

/// How many placeholders a statement has.
pub open spec fn placeholders(sql: Seq<char>) -> nat
    decreases sql.len(),
{
    if sql.len() == 0 {
        0
    } else {
        placeholders(sql.drop_last()) + if sql.last() == '?' {
            1nat
        } else {
            0nat
        }
    }
}

proof fn lemma_placeholders_add(a: Seq<char>, b: Seq<char>)
    ensures
        placeholders(a + b) == placeholders(a) + placeholders(b),
    decreases b.len(),
{
    if b.len() == 0 {
        assert(a + b =~= a);
    } else {
        assert((a + b).drop_last() =~= a + b.drop_last());
        lemma_placeholders_add(a, b.drop_last());
    }
}

proof fn lemma_no_placeholders(s: Seq<char>)
    requires
        forall|i: int| 0 <= i < s.len() ==> s[i] != '?',
    ensures
        placeholders(s) == 0,
    decreases s.len(),
{
    if s.len() > 0 {
        lemma_no_placeholders(s.drop_last());
    }
}

proof fn lemma_one_placeholder()
    ensures
        placeholders(seq!['?']) == 1,
{
    assert(seq!['?'].drop_last() =~= Seq::<char>::empty());
    assert(placeholders(seq!['?'].drop_last()) == 0);
}

proof fn lemma_tag_clause_placeholders(keys: Seq<Seq<char>>)
    requires
        forall|i: int| 0 <= i < keys.len() ==> is_tag_key(#[trigger] keys[i]),
    ensures
        placeholders(tag_clauses(keys)) == keys.len(),
    decreases keys.len(),
{
    if keys.len() > 0 {
        let front = keys.drop_last();
        assert forall|i: int| 0 <= i < front.len() implies is_tag_key(#[trigger] front[i]) by {
            assert(front[i] == keys[i]);
        }
        lemma_tag_clause_placeholders(front);
        let head = tag_clauses(front);
        let open = " AND json_extract(tags, '$."@;
        let key = keys.last();
        let close = "') = ?"@;
        reveal_strlit(" AND json_extract(tags, '$.");
        reveal_strlit("') = ?");
        reveal_strlit("') = ");
        assert(close =~= "') = "@ + seq!['?']);
        lemma_no_placeholders(open);
        lemma_no_placeholders("') = "@);
        lemma_one_placeholder();
        lemma_placeholders_add("') = "@, seq!['?']);
        assert(is_tag_key(keys[keys.len() - 1]));
        assert forall|i: int| 0 <= i < key.len() implies key[i] != '?' by {
            assert(is_key_char(key[i]));
        }
        lemma_no_placeholders(key);
        lemma_placeholders_add(head, open);
        lemma_placeholders_add(head + open, key);
        lemma_placeholders_add(head + open + key, close);
    }
}

proof fn lemma_where_placeholders(keys: Seq<Seq<char>>)
    requires
        forall|i: int| 0 <= i < keys.len() ==> is_tag_key(#[trigger] keys[i]),
    ensures
        placeholders(where_clause(keys)) == 3 + keys.len(),
{
    let q = seq!['?'];
    let a = "WHERE series = "@;
    let b = " AND ts >= "@;
    let c = " AND ts <= "@;
    let whole = "WHERE series = ? AND ts >= ? AND ts <= ?"@;
    reveal_strlit("WHERE series = ");
    reveal_strlit(" AND ts >= ");
    reveal_strlit(" AND ts <= ");
    reveal_strlit("WHERE series = ? AND ts >= ? AND ts <= ?");
    assert(whole =~= a + q + b + q + c + q);
    lemma_no_placeholders(a);
    lemma_no_placeholders(b);
    lemma_no_placeholders(c);
    lemma_one_placeholder();
    lemma_placeholders_add(a, q);
    lemma_placeholders_add(a + q, b);
    lemma_placeholders_add(a + q + b, q);
    lemma_placeholders_add(a + q + b + q, c);
    lemma_placeholders_add(a + q + b + q + c, q);
    lemma_tag_clause_placeholders(keys);
    lemma_placeholders_add(whole, tag_clauses(keys));
}

proof fn lemma_limit_placeholders(limit: Option<i64>, offset: Option<i64>)
    ensures
        placeholders(limit_clause(limit, offset)) == limit_params(limit, offset).len(),
{
    let q = seq!['?'];
    let l = " LIMIT "@;
    let o = " OFFSET "@;
    let lo = " LIMIT -1 OFFSET "@;
    reveal_strlit(" LIMIT ");
    reveal_strlit(" OFFSET ");
    reveal_strlit(" LIMIT -1 OFFSET ");
    reveal_strlit(" LIMIT ?");
    reveal_strlit(" LIMIT ? OFFSET ?");
    reveal_strlit(" LIMIT -1 OFFSET ?");
    lemma_no_placeholders(l);
    lemma_no_placeholders(o);
    lemma_no_placeholders(lo);
    lemma_one_placeholder();
    assert(" LIMIT ?"@ =~= l + q);
    assert(" LIMIT ? OFFSET ?"@ =~= l + q + o + q);
    assert(" LIMIT -1 OFFSET ?"@ =~= lo + q);
    lemma_placeholders_add(l, q);
    lemma_placeholders_add(l + q, o);
    lemma_placeholders_add(l + q + o, q);
    lemma_placeholders_add(lo, q);
}

proof fn lemma_agg_has_none(agg: Seq<char>)
    ensures
        placeholders(agg_expr(agg)) == 0,
{
    reveal_strlit("COUNT(*)");
    reveal_strlit("SUM(CAST(value AS REAL))");
    reveal_strlit("AVG(CAST(value AS REAL))");
    reveal_strlit("MAX(ts)");
    lemma_no_placeholders(agg_expr(agg));
}

/// A query's statement has exactly as many placeholders as there are values to
/// bind: series, from and to, one for each tag, the width of a bucket twice, the
/// limits.
pub proof fn law_every_placeholder_is_bound(
    agg: Option<Seq<char>>,
    bucket_ms: Option<i64>,
    limit: Option<i64>,
    offset: Option<i64>,
    series: Seq<char>,
    from: int,
    to: int,
    tags: Seq<(String, TagValue)>,
)
    requires
        filter_valid(tags),
    ensures
        placeholders(query_sql(agg, bucket_ms, filter_keys(tags), limit, offset)) == bound_params(
            series,
            from,
            to,
            tags,
        ).len() + shape_params(agg, bucket_ms, limit, offset).len(),
{
    let keys = filter_keys(tags);
    assert forall|i: int| 0 <= i < keys.len() implies is_tag_key(#[trigger] keys[i]) by {
        assert(is_tag_key(tags[i].0@));
    }
    let w = where_clause(keys);
    let lim = limit_clause(limit, offset);
    lemma_where_placeholders(keys);
    lemma_limit_placeholders(limit, offset);
    match (agg, bucket_ms) {
        (None, _) => {
            let a = "SELECT ts, value, tags FROM ts "@;
            let b = " ORDER BY ts, rowid"@;
            reveal_strlit("SELECT ts, value, tags FROM ts ");
            reveal_strlit(" ORDER BY ts, rowid");
            lemma_no_placeholders(a);
            lemma_no_placeholders(b);
            lemma_placeholders_add(a, w);
            lemma_placeholders_add(a + w, b);
            lemma_placeholders_add(a + w + b, lim);
        },
        (Some(name), None) => {
            let a = "SELECT value, tags, ts FROM ts "@;
            let b = " ORDER BY ts DESC, rowid DESC LIMIT 1"@;
            let c = "SELECT "@;
            let d = " FROM ts "@;
            let x = agg_expr(name);
            reveal_strlit("SELECT value, tags, ts FROM ts ");
            reveal_strlit(" ORDER BY ts DESC, rowid DESC LIMIT 1");
            reveal_strlit("SELECT ");
            reveal_strlit(" FROM ts ");
            lemma_no_placeholders(a);
            lemma_no_placeholders(b);
            lemma_no_placeholders(c);
            lemma_no_placeholders(d);
            lemma_agg_has_none(name);
            lemma_placeholders_add(a, w);
            lemma_placeholders_add(a + w, b);
            lemma_placeholders_add(c, x);
            lemma_placeholders_add(c + x, d);
            lemma_placeholders_add(c + x + d, w);
        },
        (Some(name), Some(_)) => {
            let q = seq!['?'];
            let a = "WITH picked AS (SELECT ts, value FROM ts "@;
            let b = ") SELECT (ts / "@;
            let c = ") * "@;
            let d = " AS bucket_ts, "@;
            let bcd = ") SELECT (ts / ?) * ? AS bucket_ts, "@;
            let e = " AS agg_value FROM picked GROUP BY bucket_ts ORDER BY bucket_ts"@;
            let x = agg_expr(name);
            reveal_strlit("WITH picked AS (SELECT ts, value FROM ts ");
            reveal_strlit(") SELECT (ts / ");
            reveal_strlit(") * ");
            reveal_strlit(" AS bucket_ts, ");
            reveal_strlit(") SELECT (ts / ?) * ? AS bucket_ts, ");
            reveal_strlit(" AS agg_value FROM picked GROUP BY bucket_ts ORDER BY bucket_ts");
            assert(bcd =~= b + q + c + q + d);
            lemma_no_placeholders(a);
            lemma_no_placeholders(b);
            lemma_no_placeholders(c);
            lemma_no_placeholders(d);
            lemma_no_placeholders(e);
            lemma_one_placeholder();
            lemma_placeholders_add(b, q);
            lemma_placeholders_add(b + q, c);
            lemma_placeholders_add(b + q + c, q);
            lemma_placeholders_add(b + q + c + q, d);
            lemma_agg_has_none(name);
            lemma_placeholders_add(a, w);
            lemma_placeholders_add(a + w, bcd);
            lemma_placeholders_add(a + w + bcd, x);
            lemma_placeholders_add(a + w + bcd + x, e);
            lemma_placeholders_add(a + w + bcd + x + e, lim);
        },
    }
}

// ── laws ─────────────────────────────────────────────────────────────

/// A query looks at the rows of one series between two instants, both of which
/// count, and each tag it names is one more condition on the value under it.
pub proof fn law_each_tag_is_one_more_condition(keys: Seq<Seq<char>>, key: Seq<char>)
    ensures
        where_clause(Seq::<Seq<char>>::empty()) == "WHERE series = ? AND ts >= ? AND ts <= ?"@,
        where_clause(keys.push(key)) == where_clause(keys) + " AND json_extract(tags, '$."@ + key
            + "') = ?"@,
{
    let none = Seq::<Seq<char>>::empty();
    assert(tag_clauses(none) =~= Seq::<char>::empty());
    assert(where_clause(none) =~= "WHERE series = ? AND ts >= ? AND ts <= ?"@);
    assert(keys.push(key).drop_last() =~= keys);
    assert(keys.push(key).last() == key);
    assert(where_clause(keys.push(key)) =~= where_clause(keys) + " AND json_extract(tags, '$."@
        + key + "') = ?"@);
}

/// Without an aggregate the rows themselves come, oldest first, and of one
/// instant in the order they were appended.
pub proof fn law_the_rows_come_oldest_first(
    bucket_ms: Option<i64>,
    keys: Seq<Seq<char>>,
    l: i64,
    o: i64,
)
    ensures
        query_sql(None, bucket_ms, keys, None, None) == "SELECT ts, value, tags FROM ts "@
            + where_clause(keys) + " ORDER BY ts, rowid"@,
        query_sql(None, bucket_ms, keys, Some(l), None) == "SELECT ts, value, tags FROM ts "@
            + where_clause(keys) + " ORDER BY ts, rowid"@ + " LIMIT ?"@,
        query_sql(None, bucket_ms, keys, None, Some(o)) == "SELECT ts, value, tags FROM ts "@
            + where_clause(keys) + " ORDER BY ts, rowid"@ + " LIMIT -1 OFFSET ?"@,
        query_sql(None, bucket_ms, keys, Some(l), Some(o)) == "SELECT ts, value, tags FROM ts "@
            + where_clause(keys) + " ORDER BY ts, rowid"@ + " LIMIT ? OFFSET ?"@,
        row_shape(None, bucket_ms) == RowShape::Raw,
{
    assert(query_sql(None, bucket_ms, keys, None, None) =~= "SELECT ts, value, tags FROM ts "@
        + where_clause(keys) + " ORDER BY ts, rowid"@);
}

/// An aggregate is the one that was asked for, over all the rows.
pub proof fn law_an_aggregate_is_over_all_the_rows(
    keys: Seq<Seq<char>>,
    limit: Option<i64>,
    offset: Option<i64>,
)
    ensures
        query_sql(Some("count"@), None, keys, limit, offset) == "SELECT "@ + "COUNT(*)"@
            + " FROM ts "@ + where_clause(keys),
        query_sql(Some("sum"@), None, keys, limit, offset) == "SELECT "@
            + "SUM(CAST(value AS REAL))"@ + " FROM ts "@ + where_clause(keys),
        query_sql(Some("avg"@), None, keys, limit, offset) == "SELECT "@
            + "AVG(CAST(value AS REAL))"@ + " FROM ts "@ + where_clause(keys),
        query_sql(Some("last"@), None, keys, limit, offset) == "SELECT value, tags, ts FROM ts "@
            + where_clause(keys) + " ORDER BY ts DESC, rowid DESC LIMIT 1"@,
        row_shape(Some("count"@), None) == RowShape::SingleAgg,
        row_shape(Some("sum"@), None) == RowShape::SingleAgg,
        row_shape(Some("avg"@), None) == RowShape::SingleAgg,
        row_shape(Some("last"@), None) == RowShape::SingleLast,
{
    reveal_strlit("count");
    reveal_strlit("sum");
    reveal_strlit("avg");
    reveal_strlit("last");
    assert("count"@.len() == 5 && "last"@.len() == 4);
    assert("sum"@[0] == 's' && "avg"@[0] == 'a');
}

/// An aggregate for each bucket of time is over the rows of that bucket, the
/// buckets come oldest first, and each is named by the instant it begins at.
pub proof fn law_an_aggregate_for_each_bucket(
    width: i64,
    keys: Seq<Seq<char>>,
    limit: Option<i64>,
    offset: Option<i64>,
)
    ensures
        query_sql(Some("count"@), Some(width), keys, limit, offset)
            == "WITH picked AS (SELECT ts, value FROM ts "@ + where_clause(keys)
            + ") SELECT (ts / ?) * ? AS bucket_ts, "@ + "COUNT(*)"@
            + " AS agg_value FROM picked GROUP BY bucket_ts ORDER BY bucket_ts"@ + limit_clause(
            limit,
            offset,
        ),
        query_sql(Some("sum"@), Some(width), keys, limit, offset)
            == "WITH picked AS (SELECT ts, value FROM ts "@ + where_clause(keys)
            + ") SELECT (ts / ?) * ? AS bucket_ts, "@ + "SUM(CAST(value AS REAL))"@
            + " AS agg_value FROM picked GROUP BY bucket_ts ORDER BY bucket_ts"@ + limit_clause(
            limit,
            offset,
        ),
        query_sql(Some("avg"@), Some(width), keys, limit, offset)
            == "WITH picked AS (SELECT ts, value FROM ts "@ + where_clause(keys)
            + ") SELECT (ts / ?) * ? AS bucket_ts, "@ + "AVG(CAST(value AS REAL))"@
            + " AS agg_value FROM picked GROUP BY bucket_ts ORDER BY bucket_ts"@ + limit_clause(
            limit,
            offset,
        ),
        query_sql(Some("last"@), Some(width), keys, limit, offset)
            == "WITH picked AS (SELECT ts, value FROM ts "@ + where_clause(keys)
            + ") SELECT (ts / ?) * ? AS bucket_ts, "@ + "MAX(ts)"@
            + " AS agg_value FROM picked GROUP BY bucket_ts ORDER BY bucket_ts"@ + limit_clause(
            limit,
            offset,
        ),
        row_shape(Some("count"@), Some(width)) == RowShape::Bucketed,
        row_shape(Some("last"@), Some(width)) == RowShape::Bucketed,
{
    reveal_strlit("count");
    reveal_strlit("sum");
    reveal_strlit("avg");
    reveal_strlit("last");
    assert("count"@.len() == 5 && "last"@.len() == 4);
    assert("sum"@[0] == 's' && "avg"@[0] == 'a');
}

/// The values are bound in the order of their placeholders: the series, the two
/// instants, and the value of each tag as what it is.
pub proof fn law_the_values_are_bound_in_order(
    series: Seq<char>,
    from: int,
    to: int,
    tags: Seq<(String, TagValue)>,
    i: int,
)
    requires
        0 <= i < tags.len(),
    ensures
        bound_params(series, from, to, tags).len() == 3 + tags.len(),
        bound_params(series, from, to, tags)[0] == ParamView::Text(series),
        bound_params(series, from, to, tags)[1] == ParamView::Int(from),
        bound_params(series, from, to, tags)[2] == ParamView::Int(to),
        tags[i].1 matches TagValue::Text(s) ==> bound_params(series, from, to, tags)[3 + i]
            == ParamView::Text(s@),
        tags[i].1 matches TagValue::Int(n) ==> bound_params(series, from, to, tags)[3 + i]
            == ParamView::Int(n as int),
        tags[i].1 matches TagValue::Bool(b) ==> bound_params(series, from, to, tags)[3 + i]
            == ParamView::Bool(b),
        tags[i].1 matches TagValue::Real(r) ==> bound_params(series, from, to, tags)[3 + i]
            == ParamView::Real(r),
        tags[i].1 matches TagValue::Json(s) ==> bound_params(series, from, to, tags)[3 + i]
            == ParamView::Text(s@),
        filter_keys(tags)[i] == tags[i].0@,
{
}

/// Behind them come the width of a bucket, twice, and then the limit and the
/// offset, as far as they were asked for; a single aggregate takes none of them.
pub proof fn law_the_limits_are_bound_last(agg: Seq<char>, width: i64, l: i64, o: i64)
    ensures
        shape_params(None, None, Some(l), Some(o)) == seq![
            ParamView::Int(l as int),
            ParamView::Int(o as int),
        ],
        shape_params(None, None, Some(l), None) == seq![ParamView::Int(l as int)],
        shape_params(None, None, None, Some(o)) == seq![ParamView::Int(o as int)],
        shape_params(None, None, None, None) == Seq::<ParamView>::empty(),
        shape_params(Some(agg), None, Some(l), Some(o)) == Seq::<ParamView>::empty(),
        shape_params(Some(agg), Some(width), Some(l), Some(o)) == seq![
            ParamView::Int(width as int),
            ParamView::Int(width as int),
            ParamView::Int(l as int),
            ParamView::Int(o as int),
        ],
        shape_params(Some(agg), Some(width), None, None) == seq![
            ParamView::Int(width as int),
            ParamView::Int(width as int),
        ],
{
    assert(shape_params(Some(agg), Some(width), Some(l), Some(o)) =~= seq![
        ParamView::Int(width as int),
        ParamView::Int(width as int),
        ParamView::Int(l as int),
        ParamView::Int(o as int),
    ]);
    assert(shape_params(Some(agg), Some(width), None, None) =~= seq![
        ParamView::Int(width as int),
        ParamView::Int(width as int),
    ]);
}

/// A query is worked out exactly where its bucket, if it has one, is of some
/// width and has an aggregate, its limits are not negative, its tags have plain
/// names, and its aggregate is a known one.
pub proof fn law_when_a_query_is_worked_out(opts: QueryOpts)
    ensures
        opts_fault(opts) is None <==> {
            &&& opts.bucket_ms matches Some(b) ==> b > 0 && opts.agg is Some
            &&& opts.limit matches Some(l) ==> l >= 0
            &&& opts.offset matches Some(o) ==> o >= 0
            &&& forall|i: int| 0 <= i < opts.tags@.len() ==> is_tag_key((#[trigger] opts.tags@[i]).0@)
            &&& opts.agg matches Some(a) ==> a@ == "count"@ || a@ == "sum"@ || a@ == "avg"@ || a@
                == "last"@
        },
        opts.bucket_ms matches Some(b) ==> b <= 0 ==> opts_fault(opts) == Some(
            "ts bucket_ms must be positive"@,
        ),
{
}

/// The name of a tag is made of letters, digits and underscores, and nothing that
/// could end the text it is put into.
pub proof fn law_a_tag_name_is_plain(key: Seq<char>, i: int)
    requires
        0 <= i < key.len(),
    ensures
        is_tag_key(key) ==> 'a' <= key[i] <= 'z' || 'A' <= key[i] <= 'Z' || '0' <= key[i] <= '9'
            || key[i] == '_',
        (forall|k: int|
            0 <= k < key.len() ==> 'a' <= #[trigger] key[k] <= 'z' || 'A' <= key[k] <= 'Z' || '0'
                <= key[k] <= '9' || key[k] == '_') ==> is_tag_key(key),
        is_tag_key(key) ==> key[i] != '\'' && key[i] != '?' && key[i] != '"' && key[i] != '.'
            && key[i] != ' ',
{
    if forall|k: int|
        0 <= k < key.len() ==> 'a' <= #[trigger] key[k] <= 'z' || 'A' <= key[k] <= 'Z' || '0'
            <= key[k] <= '9' || key[k] == '_' {
        assert forall|k: int| 0 <= k < key.len() implies is_key_char(#[trigger] key[k]) by {}
    }
    if is_tag_key(key) {
        assert(is_key_char(key[i]));
    }
}

/// A row is read by the shape of its query: the instant, the value and the tags
/// each come from the column the statement put them in, and a number that was
/// written out reads as itself.
pub proof fn law_a_row_is_read_by_its_shape(
    cols: Seq<Option<String>>,
    number: String,
    value: String,
    n: nat,
)
    requires
        number@ == dec(n),
        n <= i64::MAX,
    ensures
        cols.len() == 3 && cols[0] == Some(number) && cols[1] == Some(value) ==> {
            let (ts, bucket, v, tags) = row_columns(RowShape::Raw);
            &&& int_at(cols, ts) == Ok::<Option<int>, IntFault>(Some(n as int))
            &&& int_at(cols, bucket) == Ok::<Option<int>, IntFault>(None)
            &&& column(cols, v) == Some(value@)
            &&& cols[2] is None ==> text_in(cols, tags) is None
            &&& cols[2] matches Some(t) ==> text_in(cols, tags) == Some(t@)
        },
        cols.len() == 3 && cols[0] == Some(value) && cols[2] == Some(number) ==> {
            let (ts, bucket, v, tags) = row_columns(RowShape::SingleLast);
            &&& int_at(cols, ts) == Ok::<Option<int>, IntFault>(Some(n as int))
            &&& int_at(cols, bucket) == Ok::<Option<int>, IntFault>(None)
            &&& column(cols, v) == Some(value@)
            &&& cols[1] matches Some(t) ==> text_in(cols, tags) == Some(t@)
        },
        cols.len() == 1 && cols[0] == Some(value) ==> {
            let (ts, bucket, v, tags) = row_columns(RowShape::SingleAgg);
            &&& int_at(cols, ts) == Ok::<Option<int>, IntFault>(None)
            &&& column(cols, v) == Some(value@)
            &&& text_in(cols, tags) is None
        },
        cols.len() == 2 && cols[0] == Some(number) && cols[1] == Some(value) ==> {
            let (ts, bucket, v, tags) = row_columns(RowShape::Bucketed);
            &&& int_at(cols, ts) == Ok::<Option<int>, IntFault>(None)
            &&& int_at(cols, bucket) == Ok::<Option<int>, IntFault>(Some(n as int))
            &&& column(cols, v) == Some(value@)
            &&& text_in(cols, tags) is None
        },
{
    law_decimal_reads_back(n, i64::MIN as int, i64::MAX as int);
}

} // verus!
