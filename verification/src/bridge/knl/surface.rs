//! The declared surface: what a session and the module offer, and what
//! `knl.api` says of it.

use vstd::prelude::*;

use super::errors::{attribution, error_kinds, kinds, knl_err, KnlError};
use super::schema::module_text;
use super::session::Method;
use super::types::{
    lshape_module_source, surface, ApiColumn, ApiEntry, ApiFields, ApiReport, ApiSchema,
};
use crate::bus::event::is_uuid;
use crate::text::views;

verus! {

broadcast use vstd::string::group_string_axioms;

/// `uuid::Uuid::now_v7`, written out: an identifier that begins with the time
/// it was made at.  Every outcome is a UUID of version seven in lower-case
/// hyphenated form.  That identifiers made one after the other sort in that
/// order rests on the clock and is not said here.
#[verifier::external_body]
fn timed_id() -> (out: String)
    ensures
        is_uuid(out@, '7'),
{
    uuid::Uuid::now_v7().to_string()
}

/// A name for a beat, which sorts by the time it was made at.
pub fn new_beat_id() -> (out: String)
    ensures
        is_uuid(out@, '7'),
{
    timed_id()
}

/// What a list of entries says.
pub open spec fn entry_views(list: Seq<ApiEntry>) -> Seq<(Seq<char>, Seq<char>)> {
    list.map_values(|e: ApiEntry| (e.name@, e.doc@))
}

fn list_entry(list: &mut Vec<ApiEntry>, name: &str, doc: &str)
    ensures
        entry_views(final(list)@) == entry_views(old(list)@).push((name@, doc@)),
{
    let ghost before = list@;
    list.push(ApiEntry { name: name.to_owned(), doc: doc.to_owned() });
    assert(entry_views(list@) =~= entry_views(before).push((name@, doc@)));
}

/// Every method a session answers to, with its contract in a line.
pub open spec fn session_contracts() -> Seq<(Seq<char>, Seq<char>)> {
    seq![
        (
            "id"@,
            "id() -> string — the stream this session writes"@,
        ),
        (
            "scope_id"@,
            "scope_id() -> string — the authority the stream is written under"@,
        ),
        (
            "owner"@,
            "owner() -> string — the principal the scope belongs to (or \"anon\" / \"system\")"@,
        ),
        (
            "append"@,
            "append(event) -> seq — record a fact: { kind, beat?, meta? (shallow), data? }; a key outside that envelope, a kernel-only kind and a nested meta are refused, and the budget does not move [raises: validation, closed, busy, storage]"@,
        ),
        (
            "events"@,
            "events(from?) -> array — the record from `from` on, as fresh tables in the shape it was written in (kind / beat / meta / data, plus the kernel's stamps) [raises: busy, storage, corruption]"@,
        ),
        (
            "len"@,
            "len() -> integer — how many events are recorded [raises: busy, storage]"@,
        ),
        (
            "view"@,
            "view(name, opts?) -> table — the one named fold: \"tail\" { n }; anything else is a query [raises: validation, busy, storage, corruption]"@,
        ),
        (
            "query"@,
            "query(sql, params?, opts?) -> rows, truncated — read the log with one SELECT / WITH; $stream is this session, $sessions is opts.sessions (default { this session }) [raises: validation, busy, storage, corruption, timeout]"@,
        ),
        (
            "reserve"@,
            "reserve(n) -> true | false, tag — refuse if remaining < n, atomic, both answers recorded [raises: validation, closed, busy, storage, corruption]"@,
        ),
        (
            "spend"@,
            "spend(n) -> nil — settle after the fact; the write is the answer, read the balance with remaining() [raises: validation, closed, busy, storage]"@,
        ),
        (
            "remaining"@,
            "remaining() -> integer | nil — the balance, nil without a budget; a store that cannot be read raises rather than reporting a stale one [raises: busy, storage, corruption]"@,
        ),
        (
            "exhausted"@,
            "exhausted() -> boolean — whether the budget is used up (false without one) [raises: busy, storage, corruption]"@,
        ),
        (
            "close"@,
            "close(reason?, detail?) -> nil — record session_closed and end the session; idempotent [raises: validation, busy, storage]"@,
        ),
        (
            "__close"@,
            "__close(err) — the <close> scope boundary: scope_exit, or error with the message as detail [raises: busy, storage — only on a clean exit; an unwinding one is logged]"@,
        ),
    ]
}

/// Every method a session answers to, with its contract in a line.
pub fn session_api() -> (out: Vec<ApiEntry>)
    ensures
        entry_views(out@) == session_contracts(),
{
    let mut out: Vec<ApiEntry> = Vec::new();
    list_entry(
        &mut out,
        "id",
        "id() -> string — the stream this session writes",
    );
    list_entry(
        &mut out,
        "scope_id",
        "scope_id() -> string — the authority the stream is written under",
    );
    list_entry(
        &mut out,
        "owner",
        "owner() -> string — the principal the scope belongs to (or \"anon\" / \"system\")",
    );
    list_entry(
        &mut out,
        "append",
        "append(event) -> seq — record a fact: { kind, beat?, meta? (shallow), data? }; a key outside that envelope, a kernel-only kind and a nested meta are refused, and the budget does not move [raises: validation, closed, busy, storage]",
    );
    list_entry(
        &mut out,
        "events",
        "events(from?) -> array — the record from `from` on, as fresh tables in the shape it was written in (kind / beat / meta / data, plus the kernel's stamps) [raises: busy, storage, corruption]",
    );
    list_entry(
        &mut out,
        "len",
        "len() -> integer — how many events are recorded [raises: busy, storage]",
    );
    list_entry(
        &mut out,
        "view",
        "view(name, opts?) -> table — the one named fold: \"tail\" { n }; anything else is a query [raises: validation, busy, storage, corruption]",
    );
    list_entry(
        &mut out,
        "query",
        "query(sql, params?, opts?) -> rows, truncated — read the log with one SELECT / WITH; $stream is this session, $sessions is opts.sessions (default { this session }) [raises: validation, busy, storage, corruption, timeout]",
    );
    list_entry(
        &mut out,
        "reserve",
        "reserve(n) -> true | false, tag — refuse if remaining < n, atomic, both answers recorded [raises: validation, closed, busy, storage, corruption]",
    );
    list_entry(
        &mut out,
        "spend",
        "spend(n) -> nil — settle after the fact; the write is the answer, read the balance with remaining() [raises: validation, closed, busy, storage]",
    );
    list_entry(
        &mut out,
        "remaining",
        "remaining() -> integer | nil — the balance, nil without a budget; a store that cannot be read raises rather than reporting a stale one [raises: busy, storage, corruption]",
    );
    list_entry(
        &mut out,
        "exhausted",
        "exhausted() -> boolean — whether the budget is used up (false without one) [raises: busy, storage, corruption]",
    );
    list_entry(
        &mut out,
        "close",
        "close(reason?, detail?) -> nil — record session_closed and end the session; idempotent [raises: validation, busy, storage]",
    );
    list_entry(
        &mut out,
        "__close",
        "__close(err) — the <close> scope boundary: scope_exit, or error with the message as detail [raises: busy, storage — only on a clean exit; an unwinding one is logged]",
    );
    assert(entry_views(out@) =~= session_contracts());
    out
}

/// Every function of the module, with its contract in a line.
pub open spec fn module_contracts() -> Seq<(Seq<char>, Seq<char>)> {
    seq![
        (
            "open"@,
            "open(opts?) -> session — owner? / budget? / store? (\"mem\" for an in-memory database, or { sqlite = path }); parent? opens a child on the parent's database with budget = { from_parent = n, tag? }, moving n out of the parent's balance in one write [raises: validation, refused, closed, busy, storage]"@,
        ),
        (
            "resume"@,
            "resume(opts) -> session — reopen a stream and re-fold it; a closed session is not resumable [raises: validation, closed, busy, storage, corruption]"@,
        ),
        (
            "new_beat_id"@,
            "new_beat_id() -> string — mint a time-ordered beat id for the caller to stamp"@,
        ),
        (
            "error"@,
            "error(err) -> { kind, method, retryable, message } — read a raised failure as a table; an unrecognised one comes back with kind = nil and the whole text as message"@,
        ),
        (
            "api"@,
            "api() -> { session = …, module = …, errors = { kind }, schema = { table, columns }, fields = { amount, tag, … } } — the declared surface, the columns a query may name, and the `data` paths a view reaches into"@,
        ),
    ]
}

/// Every function of the module, with its contract in a line.
pub fn module_api() -> (out: Vec<ApiEntry>)
    ensures
        entry_views(out@) == module_contracts(),
{
    let mut out: Vec<ApiEntry> = Vec::new();
    list_entry(
        &mut out,
        "open",
        "open(opts?) -> session — owner? / budget? / store? (\"mem\" for an in-memory database, or { sqlite = path }); parent? opens a child on the parent's database with budget = { from_parent = n, tag? }, moving n out of the parent's balance in one write [raises: validation, refused, closed, busy, storage]",
    );
    list_entry(
        &mut out,
        "resume",
        "resume(opts) -> session — reopen a stream and re-fold it; a closed session is not resumable [raises: validation, closed, busy, storage, corruption]",
    );
    list_entry(
        &mut out,
        "new_beat_id",
        "new_beat_id() -> string — mint a time-ordered beat id for the caller to stamp",
    );
    list_entry(
        &mut out,
        "error",
        "error(err) -> { kind, method, retryable, message } — read a raised failure as a table; an unrecognised one comes back with kind = nil and the whole text as message",
    );
    list_entry(
        &mut out,
        "api",
        "api() -> { session = …, module = …, errors = { kind }, schema = { table, columns }, fields = { amount, tag, … } } — the declared surface, the columns a query may name, and the `data` paths a view reaches into",
    );
    assert(entry_views(out@) =~= module_contracts());
    out
}

/// The names of the fields the kernel's own events have.
pub fn event_fields() -> (out: ApiFields)
    ensures
        out.amount@ == "amount"@,
        out.tag@ == "tag"@,
        out.desc@ == "desc"@,
        out.remaining@ == "remaining"@,
        out.scope_id@ == "scope_id"@,
        out.owner@ == "owner"@,
        out.parent@ == "parent"@,
        out.child@ == "child"@,
        out.reason@ == "reason"@,
        out.detail@ == "detail"@,
        out.open_children@ == "open_children"@,
{
    ApiFields {
        amount: "amount".to_owned(),
        tag: "tag".to_owned(),
        desc: "desc".to_owned(),
        remaining: "remaining".to_owned(),
        scope_id: "scope_id".to_owned(),
        owner: "owner".to_owned(),
        parent: "parent".to_owned(),
        child: "child".to_owned(),
        reason: "reason".to_owned(),
        detail: "detail".to_owned(),
        open_children: "open_children".to_owned(),
    }
}

/// Whether a report says what the surface is: both lists of entries, the
/// classes of failure, the table with these columns, the fields, and the
/// module of declarations.
pub open spec fn reports(r: ApiReport, columns: Seq<ApiColumn>) -> bool {
    &&& entry_views(r.session@) == session_contracts()
    &&& entry_views(r.module@) == module_contracts()
    &&& views(r.errors@) == kinds()
    &&& r.schema.table@ == "events"@
    &&& r.schema.columns@ == columns
    &&& r.types@ == module_text(surface())
    &&& r.fields.amount@ == "amount"@
    &&& r.fields.tag@ == "tag"@
    &&& r.fields.desc@ == "desc"@
    &&& r.fields.remaining@ == "remaining"@
    &&& r.fields.scope_id@ == "scope_id"@
    &&& r.fields.owner@ == "owner"@
    &&& r.fields.parent@ == "parent"@
    &&& r.fields.child@ == "child"@
    &&& r.fields.reason@ == "reason"@
    &&& r.fields.detail@ == "detail"@
    &&& r.fields.open_children@ == "open_children"@
}

/// What `knl.api` answers, where the columns are those the database reports.
pub fn api(columns: Result<Vec<ApiColumn>, KnlError>) -> (out: Result<ApiReport, String>)
    ensures
        match columns {
            Ok(c) => out matches Ok(r) && reports(r, c@),
            Err(e) => out matches Err(m) && m@ == attribution("api"@, e.kind.word(), e.reason@),
        },
{
    match columns {
        Err(e) => Err(knl_err("api", &e)),
        Ok(c) => Ok(
            ApiReport {
                session: session_api(),
                module: module_api(),
                errors: error_kinds(),
                schema: ApiSchema { table: "events".to_owned(), columns: c },
                fields: event_fields(),
                types: lshape_module_source(),
            },
        ),
    }
}

/// Where a method stands among the contracts.
pub open spec fn place_of(m: Method) -> int {
    match m {
        Method::Id => 0,
        Method::ScopeId => 1,
        Method::Owner => 2,
        Method::Append => 3,
        Method::Events => 4,
        Method::Len => 5,
        Method::View => 6,
        Method::Query => 7,
        Method::Reserve => 8,
        Method::Spend => 9,
        Method::Remaining => 10,
        Method::Exhausted => 11,
        Method::Close => 12,
    }
}

/// A session answers to what is declared and to nothing else: every method
/// has its contract, every contract but the last is that of a method, and the
/// last is the end of a block.
pub proof fn law_the_session_surface_is_what_is_declared(m: Method, i: int)
    requires
        0 <= i < session_contracts().len(),
    ensures
        session_contracts()[place_of(m)].0 == m.word(),
        i < session_contracts().len() - 1 ==> exists|k: Method| #[trigger] place_of(k) == i,
        session_contracts().last().0 == "__close"@,
{
    let all = seq![
        Method::Id,
        Method::ScopeId,
        Method::Owner,
        Method::Append,
        Method::Events,
        Method::Len,
        Method::View,
        Method::Query,
        Method::Reserve,
        Method::Spend,
        Method::Remaining,
        Method::Exhausted,
        Method::Close,
    ];
    if i < session_contracts().len() - 1 {
        assert(place_of(all[i]) == i);
    }
}

/// A report shows the table that is there with its columns, every class of
/// failure, and every field of an event under its own name.
pub proof fn law_a_report_shows_what_is_there(r: ApiReport, columns: Seq<ApiColumn>)
    requires
        reports(r, columns),
    ensures
        r.schema.table@ == "events"@,
        r.schema.columns@ == columns,
        views(r.errors@) == seq![
            "validation"@,
            "closed"@,
            "busy"@,
            "storage"@,
            "corruption"@,
            "timeout"@,
            "refused"@,
        ],
        r.fields.amount@ == "amount"@ && r.fields.tag@ == "tag"@ && r.fields.desc@ == "desc"@,
        r.fields.remaining@ == "remaining"@ && r.fields.scope_id@ == "scope_id"@ && r.fields.owner@
            == "owner"@,
        r.fields.parent@ == "parent"@ && r.fields.child@ == "child"@ && r.fields.open_children@
            == "open_children"@,
        r.fields.reason@ == "reason"@ && r.fields.detail@ == "detail"@,
        r.types@ == module_text(surface()),
        r.session@.len() == 14 && r.module@.len() == 5,
{
    assert(entry_views(r.session@).len() == r.session@.len());
    assert(entry_views(r.module@).len() == r.module@.len());
}

/// The module offers opening, resuming, naming a beat, reading a failure and
/// describing itself.
pub proof fn law_the_module_offers_its_functions()
    ensures
        module_contracts().len() == 5,
        module_contracts()[0].0 == "open"@,
        module_contracts()[1].0 == "resume"@,
        module_contracts()[2].0 == "new_beat_id"@,
        module_contracts()[3].0 == "error"@,
        module_contracts()[4].0 == "api"@,
{
}

} // verus!
