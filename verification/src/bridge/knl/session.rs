//! The methods of a session: what each one asks of the kernel, and what it
//! answers.
//!
//! The kernel keeps the log and the balance.  A method begins by reading its
//! arguments, which may be refused; it then asks the kernel for one thing, or
//! answers out of the handle; and it turns what the kernel said into an answer
//! or a failure.

use vstd::prelude::*;

use super::errors::{attribution, knl_err, refusal, KnlError};
use super::options::{
    object_fault, query_opts, query_params, table_to_object, view_opts, Binding, QueryDefaults,
    QueryTerms, TableArgument,
};
use super::types::{
    Amount, AppendEvent, CloseDetail, CloseReason, QueryOpts, QueryParams, Sql, ViewName, ViewOpts,
};
use crate::json::{Json, Number};
use crate::table::{law_names_are_the_keys, Table};
use crate::text::{chars_of, dec_int, decimal_signed, opt_text, string_of};

verus! {

broadcast use vstd::string::group_string_axioms;

// ── what a close records ─────────────────────────────────────────────

/// The longest detail a close records, in characters.
pub const DETAIL_MAX_CHARS: usize = 200;

/// A text cut to what a close records, with an ellipsis where it was cut.
pub open spec fn cut_detail(text: Seq<char>) -> Seq<char> {
    if text.len() <= DETAIL_MAX_CHARS {
        text
    } else {
        text.take(DETAIL_MAX_CHARS as int) + "..."@
    }
}

/// A text cut to what a close records.
pub fn truncated(text: &str) -> (out: String)
    ensures
        out@ == cut_detail(text@),
{
    let chars = chars_of(text);
    if chars.len() <= DETAIL_MAX_CHARS {
        return text.to_owned();
    }
    let mut out = string_of(chars.as_slice(), 0, DETAIL_MAX_CHARS);
    assert(out@ =~= text@.take(DETAIL_MAX_CHARS as int));
    out.append("...");
    out
}

/// What a close records is never a page: it is short, it begins as the text
/// does, and a text that is short itself is recorded as it is.
pub proof fn law_a_detail_is_short(text: Seq<char>)
    ensures
        cut_detail(text).len() <= DETAIL_MAX_CHARS + 3,
        text.len() <= DETAIL_MAX_CHARS ==> cut_detail(text) == text,
        text.len() > DETAIL_MAX_CHARS ==> cut_detail(text).take(DETAIL_MAX_CHARS as int)
            == text.take(DETAIL_MAX_CHARS as int),
{
    reveal_strlit("...");
    if text.len() > DETAIL_MAX_CHARS {
        assert(cut_detail(text).take(DETAIL_MAX_CHARS as int) =~= text.take(
            DETAIL_MAX_CHARS as int,
        ));
    }
}

/// A value a block was left with.
pub enum RaisedValue {
    /// Nothing: the block ended.
    Nil,
    Text(String),
    /// An error, by its message.
    Error(String),
    Integer(i64),
    /// Any other number, as it is written.
    Number(String),
    /// Anything else, by the name of its type.
    Other(String),
}

/// What a value says when it is raised.
pub open spec fn raised_words(value: RaisedValue) -> Seq<char> {
    match value {
        RaisedValue::Nil => "<nil>"@,
        RaisedValue::Text(s) => s@,
        RaisedValue::Error(s) => s@,
        RaisedValue::Integer(i) => dec_int(i as int),
        RaisedValue::Number(s) => s@,
        RaisedValue::Other(t) => "<"@ + t@ + ">"@,
    }
}

/// What a close records of the error its block was left with.
pub fn error_detail(value: &RaisedValue) -> (out: String)
    ensures
        out@ == cut_detail(raised_words(*value)),
{
    match value {
        RaisedValue::Nil => truncated("<nil>"),
        RaisedValue::Text(s) => truncated(s.as_str()),
        RaisedValue::Error(s) => truncated(s.as_str()),
        RaisedValue::Integer(i) => truncated(decimal_signed(*i).as_str()),
        RaisedValue::Number(s) => truncated(s.as_str()),
        RaisedValue::Other(t) => {
            let mut m = "<".to_owned();
            m.append(t.as_str());
            m.append(">");
            truncated(m.as_str())
        },
    }
}

// ── the methods ──────────────────────────────────────────────────────

/// The methods of a session.
#[derive(Debug, Clone, Copy, PartialEq, Eq, Structural)]
pub enum Method {
    Id,
    ScopeId,
    Owner,
    Append,
    Events,
    Len,
    View,
    Query,
    Reserve,
    Spend,
    Remaining,
    Exhausted,
    Close,
}

impl Method {
    /// What Lua calls a method.
    pub open spec fn word(self) -> Seq<char> {
        match self {
            Method::Id => "id"@,
            Method::ScopeId => "scope_id"@,
            Method::Owner => "owner"@,
            Method::Append => "append"@,
            Method::Events => "events"@,
            Method::Len => "len"@,
            Method::View => "view"@,
            Method::Query => "query"@,
            Method::Reserve => "reserve"@,
            Method::Spend => "spend"@,
            Method::Remaining => "remaining"@,
            Method::Exhausted => "exhausted"@,
            Method::Close => "close"@,
        }
    }

    /// What Lua calls a method.
    pub fn as_str(self) -> (out: &'static str)
        ensures
            out@ == self.word(),
    {
        match self {
            Method::Id => "id",
            Method::ScopeId => "scope_id",
            Method::Owner => "owner",
            Method::Append => "append",
            Method::Events => "events",
            Method::Len => "len",
            Method::View => "view",
            Method::Query => "query",
            Method::Reserve => "reserve",
            Method::Spend => "spend",
            Method::Remaining => "remaining",
            Method::Exhausted => "exhausted",
            Method::Close => "close",
        }
    }
}

/// What a session says about itself.  It is fixed when the handle is made.
pub struct Identity {
    pub id: String,
    pub scope_id: String,
    pub owner: String,
}

/// A call of a method with its arguments, each read as its type or refused
/// with a message.
pub enum Call {
    Id,
    ScopeId,
    Owner,
    /// The event read as its type, and as the object that is recorded.
    Append { typed: Result<AppendEvent, String>, event: TableArgument },
    Events { from: Option<u64> },
    Len,
    View { name: Result<ViewName, String>, opts: Result<Option<ViewOpts>, String> },
    Query {
        sql: Result<Sql, String>,
        params: Result<Option<QueryParams>, String>,
        opts: Result<Option<QueryOpts>, String>,
    },
    Reserve { amount: Result<Amount, String> },
    Spend { amount: Result<Amount, String> },
    Remaining,
    Exhausted,
    Close { reason: Result<Option<CloseReason>, String>, detail: Result<Option<CloseDetail>, String> },
}

/// What the kernel is asked for.
pub enum KernelCall {
    Append(Table<Json>),
    /// The events from this place on.
    Events(u64),
    Len,
    View { name: String, opts: Option<Table<Json>> },
    Query { sql: String, params: Binding, terms: QueryTerms },
    Reserve(i64),
    Spend(i64),
    Remaining,
    Exhausted,
    Close { reason: Option<String>, detail: Option<String> },
}

/// What comes of a call before the kernel is asked.
pub enum Step {
    /// It is answered.
    Answer(String),
    /// The kernel is asked.
    Ask(KernelCall),
    /// It is refused.
    Refuse(String),
}

/// Whether an answer asks the kernel for the view that was named.
pub open spec fn asks_view(step: Step, name: Seq<char>, opts: Option<ViewOpts>) -> bool {
    &&& step matches Step::Ask(KernelCall::View { name: n, opts: o })
    &&& n@ == name
    &&& match opts {
        None => o is None,
        Some(v) => o matches Some(t) && t@ == match v.n {
            Some(k) => Map::<Seq<char>, Json>::empty().insert(
                "n"@,
                Json::Number(Number::Unsigned(k)),
            ),
            None => Map::<Seq<char>, Json>::empty(),
        },
    }
}

/// Whether an answer asks the kernel for the query that was stated.
pub open spec fn asks_query(
    step: Step,
    sql: Seq<char>,
    params: Option<QueryParams>,
    opts: Option<QueryOpts>,
    defaults: QueryDefaults,
) -> bool {
    &&& step matches Step::Ask(KernelCall::Query { sql: s, params: b, terms: t })
    &&& s@ == sql
    &&& match params {
        None => b is Nothing,
        Some(QueryParams::Positional(v)) => if v@.len() == 0 {
            b is Nothing
        } else {
            b == Binding::Positional(v)
        },
        Some(QueryParams::Named(n)) => if n.names().len() == 0 {
            b is Nothing
        } else {
            b == Binding::Named(n)
        },
    }
    &&& t.sessions == match opts {
        Some(o) => o.sessions,
        None => None,
    }
    &&& t.timeout_ms == match opts {
        Some(QueryOpts { timeout_ms: Some(ms), .. }) => ms,
        _ => defaults.timeout_ms,
    }
    &&& t.limit == match opts {
        Some(QueryOpts { limit: Some(n), .. }) => n,
        _ => defaults.limit,
    }
}

/// Whether an answer asks the kernel to close with this reason and this
/// detail, cut.
pub open spec fn asks_close(
    step: Step,
    reason: Option<CloseReason>,
    detail: Option<CloseDetail>,
) -> bool {
    &&& step matches Step::Ask(KernelCall::Close { reason: r, detail: d })
    &&& opt_text(r) == match reason {
        Some(v) => Some(v.0@),
        None => None,
    }
    &&& opt_text(d) == match detail {
        Some(v) => Some(cut_detail(v.0@)),
        None => None,
    }
}

/// How a call begins.  Arguments are looked at in their order, and the first
/// that is refused is what the call is refused with.
pub open spec fn begins(identity: Identity, call: Call, defaults: QueryDefaults, step: Step) -> bool {
    match call {
        Call::Id => step matches Step::Answer(s) && s@ == identity.id@,
        Call::ScopeId => step matches Step::Answer(s) && s@ == identity.scope_id@,
        Call::Owner => step matches Step::Answer(s) && s@ == identity.owner@,
        Call::Append { typed, event } => match typed {
            Err(e) => step == Step::Refuse(e),
            Ok(_) => match object_fault("event"@, event) {
                Some(f) => step matches Step::Refuse(e) && e@ == refusal("append"@, f),
                None => step == Step::Ask(KernelCall::Append(event->Converted_0->Ok_0->Object_0)),
            },
        },
        Call::Events { from } => step == Step::Ask(
            KernelCall::Events(
                match from {
                    Some(n) => n,
                    None => 0,
                },
            ),
        ),
        Call::Len => step == Step::Ask(KernelCall::Len),
        Call::View { name, opts } => match (name, opts) {
            (Err(e), _) => step == Step::Refuse(e),
            (Ok(_), Err(e)) => step == Step::Refuse(e),
            (Ok(n), Ok(o)) => asks_view(step, n.0@, o),
        },
        Call::Query { sql, params, opts } => match (sql, params, opts) {
            (Err(e), _, _) => step == Step::Refuse(e),
            (Ok(_), Err(e), _) => step == Step::Refuse(e),
            (Ok(_), Ok(_), Err(e)) => step == Step::Refuse(e),
            (Ok(s), Ok(p), Ok(o)) => asks_query(step, s.0@, p, o, defaults),
        },
        Call::Reserve { amount } => match amount {
            Err(e) => step == Step::Refuse(e),
            Ok(a) => step == Step::Ask(KernelCall::Reserve(a.0)),
        },
        Call::Spend { amount } => match amount {
            Err(e) => step == Step::Refuse(e),
            Ok(a) => step == Step::Ask(KernelCall::Spend(a.0)),
        },
        Call::Remaining => step == Step::Ask(KernelCall::Remaining),
        Call::Exhausted => step == Step::Ask(KernelCall::Exhausted),
        Call::Close { reason, detail } => match (reason, detail) {
            (Err(e), _) => step == Step::Refuse(e),
            (Ok(_), Err(e)) => step == Step::Refuse(e),
            (Ok(r), Ok(d)) => asks_close(step, r, d),
        },
    }
}

/// How a call begins.
pub fn begin(identity: &Identity, call: Call, defaults: &QueryDefaults) -> (out: Step)
    ensures
        begins(*identity, call, *defaults, out),
{
    match call {
        Call::Id => Step::Answer(identity.id.clone()),
        Call::ScopeId => Step::Answer(identity.scope_id.clone()),
        Call::Owner => Step::Answer(identity.owner.clone()),
        Call::Append { typed, event } => match typed {
            Err(e) => Step::Refuse(e),
            Ok(_) => match table_to_object("append", "event", event) {
                Ok(t) => Step::Ask(KernelCall::Append(t)),
                Err(e) => Step::Refuse(e),
            },
        },
        Call::Events { from } => Step::Ask(
            KernelCall::Events(
                match from {
                    Some(n) => n,
                    None => 0,
                },
            ),
        ),
        Call::Len => Step::Ask(KernelCall::Len),
        Call::View { name, opts } => match name {
            Err(e) => Step::Refuse(e),
            Ok(n) => match opts {
                Err(e) => Step::Refuse(e),
                Ok(o) => Step::Ask(KernelCall::View { name: n.0, opts: view_opts(o) }),
            },
        },
        Call::Query { sql, params, opts } => match sql {
            Err(e) => Step::Refuse(e),
            Ok(s) => match params {
                Err(e) => Step::Refuse(e),
                Ok(p) => match opts {
                    Err(e) => Step::Refuse(e),
                    Ok(o) => Step::Ask(
                        KernelCall::Query {
                            sql: s.0,
                            params: query_params(p),
                            terms: query_opts(o, defaults),
                        },
                    ),
                },
            },
        },
        Call::Reserve { amount } => match amount {
            Err(e) => Step::Refuse(e),
            Ok(a) => Step::Ask(KernelCall::Reserve(a.0)),
        },
        Call::Spend { amount } => match amount {
            Err(e) => Step::Refuse(e),
            Ok(a) => Step::Ask(KernelCall::Spend(a.0)),
        },
        Call::Remaining => Step::Ask(KernelCall::Remaining),
        Call::Exhausted => Step::Ask(KernelCall::Exhausted),
        Call::Close { reason, detail } => match reason {
            Err(e) => Step::Refuse(e),
            Ok(r) => match detail {
                Err(e) => Step::Refuse(e),
                Ok(d) => Step::Ask(
                    KernelCall::Close {
                        reason: match r {
                            Some(v) => Some(v.0),
                            None => None,
                        },
                        detail: match d {
                            Some(v) => Some(truncated(v.0.as_str())),
                            None => None,
                        },
                    },
                ),
            },
        },
    }
}

/// The identity of a session is read without asking the kernel and never
/// refused.
pub proof fn law_an_identity_read_never_fails(
    identity: Identity,
    call: Call,
    defaults: QueryDefaults,
    step: Step,
)
    requires
        begins(identity, call, defaults, step),
        call is Id || call is ScopeId || call is Owner,
    ensures
        step is Answer,
{
}

/// What the kernel said.
pub enum Reply {
    /// The place an event was recorded at.
    Recorded(u64),
    Events(Vec<Json>),
    Count(u64),
    Value(Json),
    Rows { rows: Vec<Json>, truncated: bool },
    /// Whether the amount was taken, and what the budget is called.
    Reserved { granted: bool, tag: Option<String> },
    Done,
    Balance(Option<i64>),
    Flag(bool),
}

/// What Lua is answered.
pub enum Answer {
    Number(u64),
    Value(Json),
    Rows(Json, bool),
    /// Whether the amount was taken, and where it was not, what stopped it.
    Reserved(bool, Option<String>),
    Nothing,
    Balance(Option<i64>),
    Flag(bool),
}

/// Whether an answer says what the kernel said.
pub open spec fn says(answer: Answer, reply: Reply) -> bool {
    match reply {
        Reply::Recorded(n) => answer == Answer::Number(n),
        Reply::Events(list) => answer == Answer::Value(Json::List(list)),
        Reply::Count(n) => answer == Answer::Number(n),
        Reply::Value(v) => answer == Answer::Value(v),
        Reply::Rows { rows, truncated } => answer == Answer::Rows(Json::List(rows), truncated),
        Reply::Reserved { granted, tag } => answer == Answer::Reserved(
            granted,
            if granted {
                None
            } else {
                tag
            },
        ),
        Reply::Done => answer == Answer::Nothing,
        Reply::Balance(b) => answer == Answer::Balance(b),
        Reply::Flag(f) => answer == Answer::Flag(f),
    }
}

/// What a call is answered once the kernel has spoken: what the kernel said,
/// or its failure under the method's name.
pub fn finish(method: Method, reply: Result<Reply, KnlError>) -> (out: Result<Answer, String>)
    ensures
        match reply {
            Ok(r) => out matches Ok(a) && says(a, r),
            Err(e) => out matches Err(m) && m@ == attribution(
                method.word(),
                e.kind.word(),
                e.reason@,
            ),
        },
{
    match reply {
        Err(e) => Err(knl_err(method.as_str(), &e)),
        Ok(Reply::Recorded(n)) => Ok(Answer::Number(n)),
        Ok(Reply::Events(list)) => Ok(Answer::Value(Json::List(list))),
        Ok(Reply::Count(n)) => Ok(Answer::Number(n)),
        Ok(Reply::Value(v)) => Ok(Answer::Value(v)),
        Ok(Reply::Rows { rows, truncated }) => Ok(Answer::Rows(Json::List(rows), truncated)),
        Ok(Reply::Reserved { granted, tag }) => Ok(
            Answer::Reserved(
                granted,
                if granted {
                    None
                } else {
                    tag
                },
            ),
        ),
        Ok(Reply::Done) => Ok(Answer::Nothing),
        Ok(Reply::Balance(b)) => Ok(Answer::Balance(b)),
        Ok(Reply::Flag(f)) => Ok(Answer::Flag(f)),
    }
}

// ── the end of a scope, and of a handle ──────────────────────────────

/// What the end of a block asks of the kernel: nothing where the session was
/// closed already, else to close it, as a clean exit or with the error the
/// block was left with.
pub open spec fn scope_asks(closed: bool, error: RaisedValue, asked: Option<KernelCall>) -> bool {
    if closed {
        asked is None
    } else {
        &&& asked matches Some(KernelCall::Close { reason: Some(r), detail: d })
        &&& match error {
            RaisedValue::Nil => r@ == "scope_exit"@ && d is None,
            _ => r@ == "error"@ && opt_text(d) == Some(cut_detail(raised_words(error))),
        }
    }
}

/// What the end of a block asks of the kernel.
pub fn scope_end(closed: bool, error: &RaisedValue) -> (out: Option<KernelCall>)
    ensures
        scope_asks(closed, *error, out),
{
    if closed {
        return None;
    }
    match error {
        RaisedValue::Nil => Some(
            KernelCall::Close { reason: Some("scope_exit".to_owned()), detail: None },
        ),
        _ => Some(
            KernelCall::Close {
                reason: Some("error".to_owned()),
                detail: Some(error_detail(error)),
            },
        ),
    }
}

/// What the end of a block raises: a close that failed on a clean exit.  While
/// an error is on its way out nothing is raised, so it is the block's own
/// error that arrives.
pub fn scope_result(error: &RaisedValue, closed: Result<(), KnlError>) -> (out: Result<(), String>)
    ensures
        match out {
            Ok(_) => closed is Ok || !(*error is Nil),
            Err(m) => {
                &&& *error is Nil
                &&& closed matches Err(e)
                &&& m@ == attribution("close"@, e.kind.word(), e.reason@)
            },
        },
{
    match closed {
        Ok(_) => Ok(()),
        Err(e) => match error {
            RaisedValue::Nil => Err(knl_err("close", &e)),
            _ => Ok(()),
        },
    }
}

/// The reason a handle is closed with when it goes away, where nobody closed
/// it before.
pub open spec fn dropped_as(closed: bool) -> Option<Seq<char>> {
    if closed {
        None
    } else {
        Some("dropped"@)
    }
}

/// The reason a handle nobody closed is closed with when it goes away.
pub fn drop_reason(closed: bool) -> (out: Option<&'static str>)
    ensures
        out is Some <==> dropped_as(closed) is Some,
        out matches Some(r) ==> dropped_as(closed) == Some(r@),
{
    if closed {
        None
    } else {
        Some("dropped")
    }
}

/// Whoever closes a session first has the last word: once it is closed,
/// neither the end of its block nor the end of its handle closes it again.
pub proof fn law_an_explicit_close_wins(error: RaisedValue, asked: Option<KernelCall>)
    requires
        scope_asks(true, error, asked),
    ensures
        asked is None,
        dropped_as(true) is None,
{
}

// ── laws ─────────────────────────────────────────────────────────────

/// A query reaches the kernel as the script stated it: the words, the values
/// bound to its placeholders, the sessions it reads, and the limits it sets.
pub proof fn law_a_query_arrives_as_it_was_stated(
    identity: Identity,
    sql: Sql,
    params: Option<QueryParams>,
    opts: Option<QueryOpts>,
    defaults: QueryDefaults,
    step: Step,
    name: Seq<char>,
)
    requires
        begins(
            identity,
            Call::Query { sql: Ok(sql), params: Ok(params), opts: Ok(opts) },
            defaults,
            step,
        ),
    ensures
        step matches Step::Ask(KernelCall::Query { sql: s, params: b, terms: t }) && {
            &&& s@ == sql.0@
            &&& params is None ==> b is Nothing
            &&& params matches Some(QueryParams::Positional(v)) ==> v@.len() > 0 ==> b
                == Binding::Positional(v)
            &&& params matches Some(QueryParams::Positional(v)) ==> v@.len() == 0 ==> b is Nothing
            &&& params matches Some(QueryParams::Named(n)) ==> n.well_formed() && n@.dom().contains(
                name,
            ) ==> b == Binding::Named(n)
            &&& opts matches Some(o) ==> t.sessions == o.sessions
            &&& opts matches Some(o) ==> (o.timeout_ms matches Some(ms) ==> t.timeout_ms == ms)
            &&& opts matches Some(o) ==> (o.limit matches Some(l) ==> t.limit == l)
            &&& opts is None ==> t.sessions is None && t.timeout_ms == defaults.timeout_ms
                && t.limit == defaults.limit
            &&& opts matches Some(o) ==> o.timeout_ms is None ==> t.timeout_ms
                == defaults.timeout_ms
            &&& opts matches Some(o) ==> o.limit is None ==> t.limit == defaults.limit
        },
{
    if let Some(QueryParams::Named(n)) = params {
        if n.well_formed() && n@.dom().contains(name) {
            law_names_are_the_keys(n);
            assert(n.names().contains(name));
        }
    }
}

/// An event is recorded as the script gave it, and one that is no object is
/// refused under the method's name and never reaches the kernel.
pub proof fn law_an_event_is_recorded_as_it_was_given(
    identity: Identity,
    typed: AppendEvent,
    fields: Table<Json>,
    found: String,
    defaults: QueryDefaults,
    step: Step,
)
    ensures
        begins(
            identity,
            Call::Append { typed: Ok(typed), event: TableArgument::Converted(Ok(Json::Object(fields))) },
            defaults,
            step,
        ) ==> step == Step::Ask(KernelCall::Append(fields)),
        begins(
            identity,
            Call::Append { typed: Ok(typed), event: TableArgument::NotATable(found) },
            defaults,
            step,
        ) ==> step is Refuse,
{
}

/// A method asks the kernel for just what it was called with: an amount is not
/// changed on its way, neither is a place in the log, and a reading of the log,
/// the balance or the end of it asks for that and nothing else.
pub proof fn law_a_method_asks_for_what_it_was_called_with(
    identity: Identity,
    amount: Amount,
    from: u64,
    defaults: QueryDefaults,
    step: Step,
)
    ensures
        begins(identity, Call::Reserve { amount: Ok(amount) }, defaults, step) ==> step
            == Step::Ask(KernelCall::Reserve(amount.0)),
        begins(identity, Call::Spend { amount: Ok(amount) }, defaults, step) ==> step == Step::Ask(
            KernelCall::Spend(amount.0),
        ),
        begins(identity, Call::Events { from: Some(from) }, defaults, step) ==> step == Step::Ask(
            KernelCall::Events(from),
        ),
        begins(identity, Call::Events { from: None }, defaults, step) ==> step == Step::Ask(
            KernelCall::Events(0),
        ),
        begins(identity, Call::Len, defaults, step) ==> step == Step::Ask(KernelCall::Len),
        begins(identity, Call::Remaining, defaults, step) ==> step == Step::Ask(
            KernelCall::Remaining,
        ),
        begins(identity, Call::Exhausted, defaults, step) ==> step == Step::Ask(
            KernelCall::Exhausted,
        ),
        begins(identity, Call::Id, defaults, step) ==> (step matches Step::Answer(s) && s@
            == identity.id@),
        begins(identity, Call::ScopeId, defaults, step) ==> (step matches Step::Answer(s) && s@
            == identity.scope_id@),
        begins(identity, Call::Owner, defaults, step) ==> (step matches Step::Answer(s) && s@
            == identity.owner@),
{
}

/// A view is asked for by the name it was called by, with the count it was called
/// with where there was one.
pub proof fn law_a_view_is_asked_for_by_its_name(
    identity: Identity,
    view: ViewName,
    opts: Option<ViewOpts>,
    defaults: QueryDefaults,
    step: Step,
)
    requires
        begins(identity, Call::View { name: Ok(view), opts: Ok(opts) }, defaults, step),
    ensures
        step matches Step::Ask(KernelCall::View { name, opts: o }) && {
            &&& name@ == view.0@
            &&& opts is None ==> o is None
            &&& opts matches Some(v) ==> (v.n matches Some(n) ==> (o matches Some(t)
                && t@.dom().contains("n"@) && t@["n"@] == Json::Number(Number::Unsigned(n))))
            &&& opts matches Some(v) ==> v.n is None ==> (o matches Some(t) && !t@.dom().contains(
                "n"@,
            ))
        },
{
}

/// A close records the reason it was given, and the detail as far as it is not
/// too long.
pub proof fn law_a_close_records_what_it_was_given(
    identity: Identity,
    reason: Option<CloseReason>,
    detail: Option<CloseDetail>,
    defaults: QueryDefaults,
    step: Step,
)
    requires
        begins(identity, Call::Close { reason: Ok(reason), detail: Ok(detail) }, defaults, step),
    ensures
        step matches Step::Ask(KernelCall::Close { reason: r, detail: d }) && {
            &&& reason is None ==> r is None
            &&& reason matches Some(given) ==> (r matches Some(text) && text@ == given.0@)
            &&& detail is None ==> d is None
            &&& detail matches Some(given) ==> given.0@.len() <= 200 ==> (d matches Some(text)
                && text@ == given.0@)
            &&& detail matches Some(given) ==> given.0@.len() > 200 ==> (d matches Some(text)
                && text@ == given.0@.take(200) + seq!['.', '.', '.'])
        },
{
    reveal_strlit("...");
    assert("..."@ =~= seq!['.', '.', '.']);
}

/// An argument that does not read as its type refuses the call with its own
/// words, and the kernel is not asked; the one that comes first counts.
pub proof fn law_a_bad_argument_refuses_the_call(
    identity: Identity,
    call: Call,
    e: String,
    defaults: QueryDefaults,
    step: Step,
)
    requires
        begins(identity, call, defaults, step),
        match call {
            Call::Append { typed, .. } => typed == Err::<AppendEvent, String>(e),
            Call::View { name, opts } => name == Err::<ViewName, String>(e) || name is Ok && opts
                == Err::<Option<ViewOpts>, String>(e),
            Call::Query { sql, params, opts } => sql == Err::<Sql, String>(e) || sql is Ok
                && params == Err::<Option<QueryParams>, String>(e) || sql is Ok && params is Ok
                && opts == Err::<Option<QueryOpts>, String>(e),
            Call::Reserve { amount } => amount == Err::<Amount, String>(e),
            Call::Spend { amount } => amount == Err::<Amount, String>(e),
            Call::Close { reason, detail } => reason == Err::<Option<CloseReason>, String>(e)
                || reason is Ok && detail == Err::<Option<CloseDetail>, String>(e),
            _ => false,
        },
    ensures
        step == Step::Refuse(e),
{
}

/// What the kernel says is what the script is answered; a reservation that was
/// not granted names the budget that stopped it, and one that was names none.
pub proof fn law_the_kernels_word_is_the_answer(
    answer: Answer,
    n: u64,
    list: Vec<Json>,
    value: Json,
    flag: bool,
    balance: Option<i64>,
    tag: Option<String>,
)
    ensures
        says(answer, Reply::Recorded(n)) ==> answer == Answer::Number(n),
        says(answer, Reply::Count(n)) ==> answer == Answer::Number(n),
        says(answer, Reply::Events(list)) ==> answer == Answer::Value(Json::List(list)),
        says(answer, Reply::Value(value)) ==> answer == Answer::Value(value),
        says(answer, Reply::Rows { rows: list, truncated: flag }) ==> answer == Answer::Rows(
            Json::List(list),
            flag,
        ),
        says(answer, Reply::Reserved { granted: true, tag }) ==> answer == Answer::Reserved(
            true,
            None,
        ),
        says(answer, Reply::Reserved { granted: false, tag }) ==> answer == Answer::Reserved(
            false,
            tag,
        ),
        says(answer, Reply::Done) ==> answer == Answer::Nothing,
        says(answer, Reply::Balance(balance)) ==> answer == Answer::Balance(balance),
        says(answer, Reply::Flag(flag)) ==> answer == Answer::Flag(flag),
{
}

/// A failure is told under the name of the method that was called.
pub proof fn law_a_method_is_called_by_its_name()
    ensures
        Method::Append.word() == "append"@ && Method::Events.word() == "events"@
            && Method::Len.word() == "len"@ && Method::View.word() == "view"@
            && Method::Query.word() == "query"@ && Method::Reserve.word() == "reserve"@
            && Method::Spend.word() == "spend"@ && Method::Remaining.word() == "remaining"@
            && Method::Exhausted.word() == "exhausted"@ && Method::Close.word() == "close"@
            && Method::Id.word() == "id"@ && Method::ScopeId.word() == "scope_id"@
            && Method::Owner.word() == "owner"@,
{
}

/// A session that is still open when its block ends is closed: as left in order
/// where nothing was raised, and otherwise as failed, with what was raised.
pub proof fn law_the_end_of_a_block_closes_its_session(
    error: RaisedValue,
    text: String,
    i: i64,
    asked: Option<KernelCall>,
)
    requires
        scope_asks(false, error, asked),
    ensures
        asked matches Some(KernelCall::Close { reason: Some(r), detail: d }) && {
            &&& error is Nil ==> r@ == "scope_exit"@ && d is None
            &&& !(error is Nil) ==> r@ == "error"@ && d is Some
            &&& (error == RaisedValue::Text(text) || error == RaisedValue::Error(text) || error
                == RaisedValue::Number(text)) && text@.len() <= 200 ==> d->0@ == text@
            &&& (error == RaisedValue::Text(text) || error == RaisedValue::Error(text) || error
                == RaisedValue::Number(text)) && text@.len() > 200 ==> d->0@ == text@.take(200)
                + seq!['.', '.', '.']
            &&& error == RaisedValue::Other(text) && text@.len() <= 198 ==> d->0@ == seq!['<']
                + text@ + seq!['>']
        },
        dropped_as(false) == Some("dropped"@),
{
    reveal_strlit("...");
    reveal_strlit("<");
    reveal_strlit(">");
    assert("..."@ =~= seq!['.', '.', '.']);
    assert("<"@ =~= seq!['<']);
    assert(">"@ =~= seq!['>']);
}

/// A number that was raised is told in digits, with its sign.
pub proof fn law_a_raised_number_is_told_in_digits(i: i64)
    ensures
        i >= 0 ==> raised_words(RaisedValue::Integer(i)) == crate::text::dec(i as nat),
        i < 0 ==> raised_words(RaisedValue::Integer(i)) == seq!['-'] + crate::text::dec(
            (-i) as nat,
        ),
        raised_words(RaisedValue::Nil) == "<nil>"@,
{
    reveal_strlit("-");
    assert("-"@ =~= seq!['-']);
}

} // verus!
