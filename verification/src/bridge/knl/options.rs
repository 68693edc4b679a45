//! What the options of a call ask for, once their shape is settled: which kind
//! of budget, which store, which principal, and whether they fit together.

use vstd::prelude::*;

use super::errors::{err, refusal};
use super::schema::{quote, quoted};
use super::types::{
    BudgetGrant, BudgetOpt, OpenOpts, QueryOpts, QueryParams, ResumeOpts, StoreSpec, ViewOpts,
};
use crate::bus::event::{is_uuid, random_id};
use crate::json::{Json, Number};
use crate::table::Table;
use crate::text::{chars_of, dec_int, decimal_signed, opt_text, same, stands_at, string_of};

verus! {

broadcast use vstd::string::group_string_axioms;

// ── reading an argument ──────────────────────────────────────────────

/// Where in an argument something went wrong.
pub open spec fn place(noun: Seq<char>, path: Seq<char>) -> Seq<char> {
    if path.len() == 0 || path == "."@ {
        noun
    } else {
        noun + "."@ + path
    }
}

/// A reason without the words the reader puts before every one.
pub open spec fn bare_reason(reason: Seq<char>) -> Seq<char> {
    let head = "deserialize error: "@;
    if head.len() <= reason.len() && reason.subrange(0, head.len() as int) == head {
        reason.skip(head.len() as int)
    } else {
        reason
    }
}

/// What an argument that does not read as its type is refused with: the place
/// and the reason.
pub fn from_lua(method: &str, noun: &str, path: &str, reason: &str) -> (out: String)
    ensures
        out@ == refusal(method@, place(noun@, path@) + ": "@ + bare_reason(reason@)),
{
    let mut words = noun.to_owned();
    let at = chars_of(path);
    if at.len() > 0 && !same(path, ".") {
        words.append(".");
        words.append(path);
    }
    words.append(": ");
    let chars = chars_of(reason);
    let head = chars_of("deserialize error: ");
    if stands_at(chars.as_slice(), head.as_slice(), 0) {
        let n: usize = chars.len();
        let rest = string_of(chars.as_slice(), head.len(), n);
        assert(rest@ =~= reason@.skip(head@.len() as int));
        words.append(rest.as_str());
    } else {
        words.append(reason);
    }
    err(method, words.as_str())
}

/// What an argument that has to be an object is: not a table at all, by the
/// name of its type, or a table and what converting it gave.
pub enum TableArgument {
    NotATable(String),
    Converted(Result<Json, String>),
}

/// Why an argument that has to be an object is none.
pub open spec fn object_fault(noun: Seq<char>, value: TableArgument) -> Option<Seq<char>> {
    match value {
        TableArgument::NotATable(found) => Some(noun + " must be a table, got "@ + found@),
        TableArgument::Converted(Err(e)) => Some(e@),
        TableArgument::Converted(Ok(Json::Object(_))) => None,
        TableArgument::Converted(Ok(_)) => Some(noun + " must be a table with string keys"@),
    }
}

/// The object an argument is.
pub fn table_to_object(method: &str, noun: &str, value: TableArgument) -> (out: Result<
    Table<Json>,
    String,
>)
    ensures
        match out {
            Ok(t) => value == TableArgument::Converted(Ok(Json::Object(t))),
            Err(e) => object_fault(noun@, value) matches Some(f) && e@ == refusal(method@, f),
        },
{
    match value {
        TableArgument::NotATable(found) => {
            let mut m = noun.to_owned();
            m.append(" must be a table, got ");
            m.append(found.as_str());
            Err(err(method, m.as_str()))
        },
        TableArgument::Converted(Err(e)) => Err(err(method, e.as_str())),
        TableArgument::Converted(Ok(Json::Object(t))) => Ok(t),
        TableArgument::Converted(Ok(_)) => {
            let mut m = noun.to_owned();
            m.append(" must be a table with string keys");
            Err(err(method, m.as_str()))
        },
    }
}

// ── the budget ───────────────────────────────────────────────────────

/// What a parent hands over out of its own balance.
pub struct Allocation {
    pub amount: i64,
    pub tag: Option<String>,
}

/// Where a balance comes from.
pub enum BudgetSource {
    /// An owner grants it.
    Grant(BudgetGrant),
    /// A parent hands it over.
    FromParent(Allocation),
}

/// Why a budget says nothing.  The two amounts exclude each other, a note
/// belongs to a grant alone, and no amount is negative.
pub open spec fn budget_fault(b: BudgetOpt) -> Option<Seq<char>> {
    match b.from_parent {
        Some(n) => if b.amount is Some {
            Some(
                "budget names both amount and from_parent: an owner's grant and an allocation out of a parent's balance are different claims about where the quota came from"@,
            )
        } else if b.desc is Some {
            Some(
                "budget.desc belongs to an owner's grant; an allocation records the parent it came from instead"@,
            )
        } else if n < 0 {
            Some("budget.from_parent must be a non-negative whole number, got "@ + dec_int(n as int))
        } else {
            None
        },
        None => match b.amount {
            None => Some(
                "budget.amount is required (non-negative whole number), or budget.from_parent to allocate out of a parent's balance"@,
            ),
            Some(a) => if a < 0 {
                Some("budget.amount must be a non-negative whole number, got "@ + dec_int(a as int))
            } else {
                None
            },
        },
    }
}

/// Which of the two forms a budget has that says something.
pub open spec fn budget_form(b: BudgetOpt) -> BudgetSource {
    match b.from_parent {
        Some(n) => BudgetSource::FromParent(Allocation { amount: n, tag: b.tag }),
        None => BudgetSource::Grant(
            BudgetGrant { amount: b.amount->0, tag: b.tag, desc: b.desc },
        ),
    }
}

/// Where the balance that was asked for comes from.
pub fn budget_source(method: &str, budget: Option<BudgetOpt>) -> (out: Result<
    Option<BudgetSource>,
    String,
>)
    ensures
        match budget {
            None => out == Ok::<Option<BudgetSource>, String>(None),
            Some(b) => match budget_fault(b) {
                Some(f) => out matches Err(e) && e@ == refusal(method@, f),
                None => out == Ok::<Option<BudgetSource>, String>(Some(budget_form(b))),
            },
        },
{
    let b = match budget {
        None => {
            return Ok(None);
        },
        Some(b) => b,
    };
    if let Some(n) = b.from_parent {
        if b.amount.is_some() {
            return Err(
                err(
                    method,
                    "budget names both amount and from_parent: an owner's grant and an allocation out of a parent's balance are different claims about where the quota came from",
                ),
            );
        }
        if b.desc.is_some() {
            return Err(
                err(
                    method,
                    "budget.desc belongs to an owner's grant; an allocation records the parent it came from instead",
                ),
            );
        }
        if n < 0 {
            let mut m = "budget.from_parent must be a non-negative whole number, got ".to_owned();
            m.append(decimal_signed(n).as_str());
            return Err(err(method, m.as_str()));
        }
        return Ok(Some(BudgetSource::FromParent(Allocation { amount: n, tag: b.tag })));
    }
    match b.amount {
        None => Err(
            err(
                method,
                "budget.amount is required (non-negative whole number), or budget.from_parent to allocate out of a parent's balance",
            ),
        ),
        Some(a) => if a < 0 {
            let mut m = "budget.amount must be a non-negative whole number, got ".to_owned();
            m.append(decimal_signed(a).as_str());
            Err(err(method, m.as_str()))
        } else {
            Ok(Some(BudgetSource::Grant(BudgetGrant { amount: a, tag: b.tag, desc: b.desc })))
        },
    }
}

/// No balance is ever asked for that is negative, and none has two sources:
/// what passes names one amount, and the balance is that amount.
pub proof fn law_a_balance_has_one_source(b: BudgetOpt)
    ensures
        budget_fault(b) is None ==> (b.amount is Some) != (b.from_parent is Some),
        budget_fault(b) is None ==> match budget_form(b) {
            BudgetSource::Grant(g) => b.amount == Some(g.amount) && g.amount >= 0,
            BudgetSource::FromParent(a) => b.from_parent == Some(a.amount) && a.amount >= 0
                && b.desc is None,
        },
{
}

/// Why a budget is none where only an owner's grant makes sense.
pub open spec fn grant_fault(budget: Option<BudgetOpt>) -> Option<Seq<char>> {
    match budget {
        None => None,
        Some(b) => match budget_fault(b) {
            Some(f) => Some(f),
            None => match budget_form(b) {
                BudgetSource::Grant(_) => None,
                BudgetSource::FromParent(_) => Some(
                    "budget.from_parent allocates from a parent's balance, which is what open{ parent = … } does; this call takes an owner's grant (amount)"@,
                ),
            },
        },
    }
}

/// The grant that was asked for, where only a grant makes sense.
pub open spec fn granted(budget: Option<BudgetOpt>) -> Option<BudgetGrant> {
    match budget {
        None => None,
        Some(b) => Some(budget_form(b)->Grant_0),
    }
}

/// The grant that was asked for, where only a grant makes sense.
pub fn grant_only(method: &str, budget: Option<BudgetOpt>) -> (out: Result<
    Option<BudgetGrant>,
    String,
>)
    ensures
        match grant_fault(budget) {
            Some(f) => out matches Err(e) && e@ == refusal(method@, f),
            None => out == Ok::<Option<BudgetGrant>, String>(granted(budget)),
        },
{
    match budget_source(method, budget) {
        Err(e) => Err(e),
        Ok(None) => Ok(None),
        Ok(Some(BudgetSource::Grant(g))) => Ok(Some(g)),
        Ok(Some(BudgetSource::FromParent(_))) => Err(
            err(
                method,
                "budget.from_parent allocates from a parent's balance, which is what open{ parent = … } does; this call takes an owner's grant (amount)",
            ),
        ),
    }
}

// ── the principal ────────────────────────────────────────────────────

/// Whether a principal is the kernel's own.
pub open spec fn is_reserved(owner: Seq<char>) -> bool {
    owner == "anon"@ || owner == "system"@
}

/// Why a principal cannot be claimed.
pub open spec fn owner_fault(owner: Option<Seq<char>>) -> Option<Seq<char>> {
    match owner {
        Some(o) => if is_reserved(o) {
            Some("owner \""@ + o + "\" is reserved"@)
        } else {
            None
        },
        None => None,
    }
}

/// The principal a session belongs to: the one that was claimed, else the
/// anonymous one.
pub fn owner_of(owner: Option<String>) -> (out: Result<String, String>)
    ensures
        match owner_fault(opt_text(owner)) {
            Some(f) => out matches Err(e) && e@ == refusal("open"@, f),
            None => out matches Ok(o) && o@ == match owner {
                Some(claimed) => claimed@,
                None => "anon"@,
            },
        },
{
    match owner {
        None => Ok("anon".to_owned()),
        Some(o) => if same(o.as_str(), "anon") || same(o.as_str(), "system") {
            let mut m = "owner \"".to_owned();
            m.append(o.as_str());
            m.append("\" is reserved");
            Err(err("open", m.as_str()))
        } else {
            Ok(o)
        },
    }
}

// ── queries and views ────────────────────────────────────────────────

/// The values the kernel binds.
pub enum Binding {
    /// None.
    Nothing,
    /// In order.
    Positional(Vec<Json>),
    /// By name.
    Named(Table<Json>),
}

/// The values the kernel binds.  An empty list or an empty table binds
/// nothing.
pub fn query_params(params: Option<QueryParams>) -> (out: Binding)
    ensures
        match params {
            None => out is Nothing,
            Some(QueryParams::Positional(v)) => if v@.len() == 0 {
                out is Nothing
            } else {
                out == Binding::Positional(v)
            },
            Some(QueryParams::Named(t)) => if t.names().len() == 0 {
                out is Nothing
            } else {
                out == Binding::Named(t)
            },
        },
{
    match params {
        None => Binding::Nothing,
        Some(QueryParams::Positional(v)) => if v.len() == 0 {
            Binding::Nothing
        } else {
            Binding::Positional(v)
        },
        Some(QueryParams::Named(t)) => if t.len() == 0 {
            Binding::Nothing
        } else {
            Binding::Named(t)
        },
    }
}

/// What the kernel takes where a query leaves it open.
pub struct QueryDefaults {
    pub timeout_ms: u64,
    pub limit: u64,
}

/// What the kernel reads a query under.
pub struct QueryTerms {
    /// The streams; without a list, this session's own.
    pub sessions: Option<Vec<String>>,
    pub timeout_ms: u64,
    pub limit: u64,
}

/// What the kernel reads a query under: what was asked for, and the kernel's
/// own terms for what was not.
pub fn query_opts(opts: Option<QueryOpts>, defaults: &QueryDefaults) -> (out: QueryTerms)
    ensures
        out.sessions == match opts {
            Some(o) => o.sessions,
            None => None,
        },
        out.timeout_ms == match opts {
            Some(o) => match o.timeout_ms {
                Some(t) => t,
                None => defaults.timeout_ms,
            },
            None => defaults.timeout_ms,
        },
        out.limit == match opts {
            Some(o) => match o.limit {
                Some(n) => n,
                None => defaults.limit,
            },
            None => defaults.limit,
        },
{
    match opts {
        None => QueryTerms {
            sessions: None,
            timeout_ms: defaults.timeout_ms,
            limit: defaults.limit,
        },
        Some(o) => QueryTerms {
            sessions: o.sessions,
            timeout_ms: match o.timeout_ms {
                Some(t) => t,
                None => defaults.timeout_ms,
            },
            limit: match o.limit {
                Some(n) => n,
                None => defaults.limit,
            },
        },
    }
}

/// What a view is handed: exactly what was named.
pub fn view_opts(opts: Option<ViewOpts>) -> (out: Option<Table<Json>>)
    ensures
        match opts {
            None => out is None,
            Some(o) => out matches Some(t) && t.well_formed() && t@ == match o.n {
                Some(n) => Map::<Seq<char>, Json>::empty().insert(
                    "n"@,
                    Json::Number(Number::Unsigned(n)),
                ),
                None => Map::<Seq<char>, Json>::empty(),
            },
        },
{
    match opts {
        None => None,
        Some(o) => {
            let mut t: Table<Json> = Table::new();
            if let Some(n) = o.n {
                t.set("n", Json::Number(Number::Unsigned(n)));
            }
            Some(t)
        },
    }
}

// ── the store ────────────────────────────────────────────────────────

/// Where a log goes.
pub enum StoreTarget {
    /// Into memory.
    Mem,
    /// Into a file.
    Sqlite(String),
}

/// What is said of a store nobody knows, where its name is quoted already.
pub open spec fn unknown_store_words(quoted_name: Seq<char>) -> Seq<char> {
    "unknown store "@ + quoted_name + " (expected \"mem\" or { sqlite = <path> })"@
}

/// What is said of a store nobody knows, where its name is quoted already.
pub fn unknown_store(quoted_name: &str) -> (out: String)
    ensures
        out@ == unknown_store_words(quoted_name@),
{
    let mut m = "unknown store ".to_owned();
    m.append(quoted_name);
    m.append(" (expected \"mem\" or { sqlite = <path> })");
    m
}

/// Why a store is none.
pub open spec fn store_fault(spec: StoreSpec) -> Option<Seq<char>> {
    match spec {
        StoreSpec::Named(name) => if name@ == "mem"@ {
            None
        } else {
            Some(unknown_store_words(quoted(name@)))
        },
        StoreSpec::File(_) => None,
    }
}

/// Where the log of a store that is one goes.
pub open spec fn target_of(spec: StoreSpec) -> StoreTarget {
    match spec {
        StoreSpec::Named(_) => StoreTarget::Mem,
        StoreSpec::File(file) => StoreTarget::Sqlite(file.sqlite),
    }
}

/// Where a log goes.
pub fn store_target(method: &str, spec: StoreSpec) -> (out: Result<StoreTarget, String>)
    ensures
        match store_fault(spec) {
            Some(f) => out matches Err(e) && e@ == refusal(method@, f),
            None => out == Ok::<StoreTarget, String>(target_of(spec)),
        },
{
    match spec {
        StoreSpec::Named(name) => if same(name.as_str(), "mem") {
            Ok(StoreTarget::Mem)
        } else {
            Err(err(method, unknown_store(quote(name.as_str()).as_str()).as_str()))
        },
        StoreSpec::File(file) => Ok(StoreTarget::Sqlite(file.sqlite)),
    }
}

// ── opening ──────────────────────────────────────────────────────────

/// A key of a table: a text, or anything else.
pub enum Key {
    Text(String),
    Other,
}

/// Whether a key is the parent's.
pub open spec fn is_parent_key(k: Key) -> bool {
    k matches Key::Text(t) && t@ == "parent"@
}

/// The options but for the parent, which is a handle and no data: every other
/// entry stays, in its order.
pub fn without_parent<V>(entries: Vec<(Key, V)>) -> (out: Vec<(Key, V)>)
    ensures
        out@ == entries@.filter(|e: (Key, V)| !is_parent_key(e.0)),
{
    let ghost keep = |e: (Key, V)| !is_parent_key(e.0);
    let ghost all = entries@;
    let mut left = entries;
    let mut out: Vec<(Key, V)> = Vec::new();
    let mut kept: Vec<(Key, V)> = Vec::new();
    proof {
        assert(left@ + Seq::<(Key, V)>::empty() =~= all);
    }
    // The entries come off the end, so they are gathered backwards first.
    let ghost mut tail = Seq::<(Key, V)>::empty();
    assert(kept@.reverse() =~= tail.filter(keep)) by {
        reveal(Seq::filter);
    }
    while left.len() > 0
        invariant
            keep == (|e: (Key, V)| !is_parent_key(e.0)),
            left@ + tail == all,
            kept@.reverse() == tail.filter(keep),
        decreases left@.len(),
    {
        let ghost before = left@;
        match left.pop() {
            Some(e) => {
                assert(before =~= left@.push(e));
                let ghost longer = seq![e] + tail;
                proof {
                    assert(left@ + longer =~= all);
                    lemma_filter_front(e, tail, keep);
                }
                let dropped = match &e.0 {
                    Key::Text(t) => same(t.as_str(), "parent"),
                    Key::Other => false,
                };
                assert(dropped == is_parent_key(e.0));
                if !dropped {
                    let ghost was = kept@;
                    kept.push(e);
                    assert(kept@.reverse() =~= seq![e] + was.reverse());
                }
                proof {
                    tail = longer;
                }
            },
            None => {},
        }
    }
    assert(tail =~= all);
    let ghost gathered = kept@;
    while kept.len() > 0
        invariant
            out@ + kept@.reverse() == gathered.reverse(),
        decreases kept@.len(),
    {
        let ghost before = kept@;
        let ghost had = out@;
        match kept.pop() {
            Some(e) => {
                out.push(e);
                proof {
                    assert(before =~= kept@.push(e));
                    assert(before.reverse() =~= seq![e] + kept@.reverse());
                    assert(out@ + kept@.reverse() =~= had + before.reverse());
                }
            },
            None => {},
        }
    }
    assert(out@ =~= gathered.reverse());
    out
}

/// Filtering a list that begins with `x`.
proof fn lemma_filter_front<A>(x: A, rest: Seq<A>, keep: spec_fn(A) -> bool)
    ensures
        (seq![x] + rest).filter(keep) == (if keep(x) {
            seq![x]
        } else {
            Seq::empty()
        }) + rest.filter(keep),
    decreases rest.len(),
{
    reveal(Seq::filter);
    let all = seq![x] + rest;
    if rest.len() == 0 {
        assert(all.drop_last() =~= Seq::<A>::empty());
        assert(all.last() == x);
        assert(rest =~= Seq::<A>::empty());
        assert(all.filter(keep) =~= (if keep(x) {
            seq![x]
        } else {
            Seq::empty()
        }) + rest.filter(keep));
    } else {
        lemma_filter_front(x, rest.drop_last(), keep);
        assert(all.drop_last() =~= seq![x] + rest.drop_last());
        assert(all.last() == rest.last());
        assert(all.filter(keep) =~= (if keep(x) {
            seq![x]
        } else {
            Seq::empty()
        }) + rest.filter(keep));
    }
}

/// What stands under `parent`.
pub enum ParentValue<P> {
    /// Nothing.
    Nil,
    /// A handle of some kind.
    Handle(P),
    /// Something else, by the name of its type.
    Other(String),
}

/// The handle a session is opened from, if any.
pub fn parse_parent<P>(value: ParentValue<P>) -> (out: Result<Option<P>, String>)
    ensures
        match value {
            ParentValue::Nil => out == Ok::<Option<P>, String>(None),
            ParentValue::Handle(p) => out == Ok::<Option<P>, String>(Some(p)),
            ParentValue::Other(found) => out matches Err(e) && e@ == refusal(
                "open"@,
                "parent must be a session (the userdata knl.open returns), got "@ + found@,
            ),
        },
{
    match value {
        ParentValue::Nil => Ok(None),
        ParentValue::Handle(p) => Ok(Some(p)),
        ParentValue::Other(found) => {
            let mut m = "parent must be a session (the userdata knl.open returns), got ".to_owned();
            m.append(found.as_str());
            Err(err("open", m.as_str()))
        },
    }
}

/// How a session is opened.
pub enum OpenPlan<P> {
    /// On its own, in a store of its own.
    Fresh { owner: String, grant: Option<BudgetGrant>, store: StoreTarget },
    /// From another session, out of its balance; without a store, where that
    /// session is.
    Child { parent: P, owner: String, allocation: Allocation, store: Option<StoreTarget> },
}

/// Why the budget and the parent do not fit together.
pub open spec fn mixed_fault(from_parent: bool, budget: Option<BudgetOpt>) -> Option<Seq<char>> {
    let allocates = budget matches Some(b) && budget_form(b) is FromParent;
    if from_parent && !allocates {
        Some(
            "a child's quota comes out of its parent's: opts.parent needs budget = { from_parent = n, tag? }"@,
        )
    } else if !from_parent && allocates {
        Some(
            "budget.from_parent allocates out of a parent's balance, so it needs opts.parent: the session to open this one from"@,
        )
    } else {
        None
    }
}

/// Why a session cannot be opened: the principal is looked at first, then the
/// budget, then the store, and last whether parent and budget fit together.
pub open spec fn open_fault(from_parent: bool, opts: OpenOpts) -> Option<Seq<char>> {
    match owner_fault(opt_text(opts.owner)) {
        Some(f) => Some(f),
        None => match (match opts.budget {
            Some(b) => budget_fault(b),
            None => None,
        }) {
            Some(f) => Some(f),
            None => match (match opts.store {
                Some(s) => store_fault(s),
                None => None,
            }) {
                Some(f) => Some(f),
                None => mixed_fault(from_parent, opts.budget),
            },
        },
    }
}

/// How a session is opened.
pub fn open_session<P>(parent: Option<P>, opts: OpenOpts) -> (out: Result<OpenPlan<P>, String>)
    ensures
        match open_fault(parent is Some, opts) {
            Some(f) => out matches Err(e) && e@ == refusal("open"@, f),
            None => match out {
                Ok(OpenPlan::Fresh { owner, grant, store }) => {
                    &&& parent is None
                    &&& owner@ == match opts.owner {
                        Some(o) => o@,
                        None => "anon"@,
                    }
                    &&& grant == granted(opts.budget)
                    &&& store == match opts.store {
                        Some(s) => target_of(s),
                        None => StoreTarget::Mem,
                    }
                },
                Ok(OpenPlan::Child { parent: p, owner, allocation, store }) => {
                    &&& parent == Some(p)
                    &&& owner@ == match opts.owner {
                        Some(o) => o@,
                        None => "anon"@,
                    }
                    &&& opts.budget matches Some(b)
                    &&& budget_form(b) == BudgetSource::FromParent(allocation)
                    &&& store == match opts.store {
                        Some(s) => Some(target_of(s)),
                        None => None,
                    }
                },
                Err(_) => false,
            },
        },
{
    let owner = match owner_of(opts.owner) {
        Ok(o) => o,
        Err(e) => {
            return Err(e);
        },
    };
    let budget = match budget_source("open", opts.budget) {
        Ok(b) => b,
        Err(e) => {
            return Err(e);
        },
    };
    let named: Option<StoreTarget> = match opts.store {
        None => None,
        Some(s) => match store_target("open", s) {
            Ok(t) => Some(t),
            Err(e) => {
                return Err(e);
            },
        },
    };
    match parent {
        None => {
            let grant = match budget {
                None => None,
                Some(BudgetSource::Grant(g)) => Some(g),
                Some(BudgetSource::FromParent(_)) => {
                    return Err(
                        err(
                            "open",
                            "budget.from_parent allocates out of a parent's balance, so it needs opts.parent: the session to open this one from",
                        ),
                    );
                },
            };
            let store = match named {
                Some(t) => t,
                None => StoreTarget::Mem,
            };
            Ok(OpenPlan::Fresh { owner, grant, store })
        },
        Some(p) => match budget {
            Some(BudgetSource::FromParent(allocation)) => Ok(
                OpenPlan::Child { parent: p, owner, allocation, store: named },
            ),
            _ => Err(
                err(
                    "open",
                    "a child's quota comes out of its parent's: opts.parent needs budget = { from_parent = n, tag? }",
                ),
            ),
        },
    }
}

/// A session that is opened on its own is never paid for out of a balance, a
/// child always is, and neither is opened under a reserved principal that was
/// claimed.
pub proof fn law_a_child_is_paid_for_and_nobody_else(from_parent: bool, opts: OpenOpts)
    requires
        open_fault(from_parent, opts) is None,
    ensures
        from_parent <==> (opts.budget is Some && budget_form(opts.budget->0) is FromParent),
        opts.owner is Some ==> !is_reserved(opts.owner->0@),
{
}

/// A name for a stream nobody has written yet.
pub fn new_stream() -> (out: String)
    ensures
        is_uuid(out@, '4'),
{
    random_id()
}

/// Which database the stream of a child lies in.
pub enum ChildStore {
    /// The parent's.
    Parents(String),
    /// A file that was named.
    File(String),
    /// One in memory, which was asked for.
    Memory,
}

/// A child's stream and where it lies.
pub struct ChildPlan {
    pub stream: String,
    pub store: ChildStore,
}

/// Where a child's stream lies: where the store says, else where its parent
/// is.  The handle has to be a session and the session has to have a database;
/// the stream's name is new.
pub fn open_child_session(
    is_session: bool,
    parent_db: Option<&str>,
    named: Option<StoreTarget>,
) -> (out: Result<ChildPlan, String>)
    ensures
        match out {
            Ok(plan) => {
                &&& is_session
                &&& parent_db matches Some(db)
                &&& is_uuid(plan.stream@, '4')
                &&& match named {
                    None => plan.store matches ChildStore::Parents(p) && p@ == db@,
                    Some(StoreTarget::Sqlite(path)) => plan.store == ChildStore::File(path),
                    Some(StoreTarget::Mem) => plan.store is Memory,
                }
            },
            Err(e) => if !is_session {
                e@ == refusal(
                    "open"@,
                    "parent must be a session returned by knl.open / knl.resume"@,
                )
            } else {
                &&& parent_db is None
                &&& e@ == refusal(
                    "open"@,
                    "the parent's store keeps a single stream, so there is no database to open a child on"@,
                )
            },
        },
{
    if !is_session {
        return Err(err("open", "parent must be a session returned by knl.open / knl.resume"));
    }
    let db = match parent_db {
        Some(db) => db,
        None => {
            return Err(
                err(
                    "open",
                    "the parent's store keeps a single stream, so there is no database to open a child on",
                ),
            );
        },
    };
    let store = match named {
        None => ChildStore::Parents(db.to_owned()),
        Some(StoreTarget::Sqlite(path)) => ChildStore::File(path),
        Some(StoreTarget::Mem) => ChildStore::Memory,
    };
    Ok(ChildPlan { stream: new_stream(), store })
}

// ── resuming ─────────────────────────────────────────────────────────

/// How a session is resumed.
pub struct ResumePlan {
    pub session: String,
    pub store: StoreTarget,
    pub grant: Option<BudgetGrant>,
}

/// Why a session cannot be resumed: without options there is nothing to
/// resume; otherwise the budget is looked at first, then the store.
pub open spec fn resume_fault(opts: Option<ResumeOpts>) -> Option<Seq<char>> {
    match opts {
        None => Some("opts must be a table with store and session"@),
        Some(o) => match grant_fault(o.budget) {
            Some(f) => Some(f),
            None => match o.store {
                Some(s) => store_fault(s),
                None => None,
            },
        },
    }
}

/// How a session is resumed.
pub fn resume_session(opts: Option<ResumeOpts>) -> (out: Result<ResumePlan, String>)
    ensures
        match resume_fault(opts) {
            Some(f) => out matches Err(e) && e@ == refusal("resume"@, f),
            None => {
                &&& out matches Ok(plan)
                &&& opts matches Some(o)
                &&& plan.session == o.session
                &&& plan.grant == granted(o.budget)
                &&& plan.store == match o.store {
                    Some(s) => target_of(s),
                    None => StoreTarget::Mem,
                }
            },
        },
{
    let o = match opts {
        None => {
            return Err(err("resume", "opts must be a table with store and session"));
        },
        Some(o) => o,
    };
    let grant = match grant_only("resume", o.budget) {
        Ok(g) => g,
        Err(e) => {
            return Err(e);
        },
    };
    let store = match o.store {
        None => StoreTarget::Mem,
        Some(s) => match store_target("resume", s) {
            Ok(t) => t,
            Err(e) => {
                return Err(e);
            },
        },
    };
    Ok(ResumePlan { session: o.session, store, grant })
}

/// What is recorded on a stream that was folded back: the owner's new grant,
/// unless the stream is the system's, which nobody resumes.  A stream that is
/// refused has had nothing recorded on it.
pub fn resume_on(owner: &str, grant: Option<BudgetGrant>) -> (out: Result<
    Option<BudgetGrant>,
    String,
>)
    ensures
        match out {
            Ok(g) => owner@ != "system"@ && g == grant,
            Err(e) => owner@ == "system"@ && e@ == refusal(
                "resume"@,
                "stream owner \"system\" is reserved"@,
            ),
        },
{
    if same(owner, "system") {
        return Err(err("resume", "stream owner \"system\" is reserved"));
    }
    Ok(grant)
}

// ── laws ─────────────────────────────────────────────────────────────

/// A budget is what it says: an amount is a grant of that amount with its tag and
/// its note, an amount out of a parent's balance is an allocation of that amount
/// with its tag, and what names both, neither, less than nothing, or a note
/// beside an allocation says nothing.
pub proof fn law_a_budget_is_what_it_says(b: BudgetOpt)
    ensures
        b.from_parent is None && (b.amount matches Some(a) && a >= 0) ==> budget_fault(b) is None
            && budget_form(b) == BudgetSource::Grant(
            BudgetGrant { amount: b.amount->0, tag: b.tag, desc: b.desc },
        ),
        b.amount is None && b.desc is None && (b.from_parent matches Some(n) && n >= 0)
            ==> budget_fault(b) is None && budget_form(b) == BudgetSource::FromParent(
            Allocation { amount: b.from_parent->0, tag: b.tag },
        ),
        b.amount is Some && b.from_parent is Some ==> budget_fault(b) is Some,
        b.amount is None && b.from_parent is None ==> budget_fault(b) is Some,
        (b.amount matches Some(a) && a < 0) ==> budget_fault(b) is Some,
        (b.from_parent matches Some(n) && n < 0) ==> budget_fault(b) is Some,
        b.from_parent is Some && b.desc is Some ==> budget_fault(b) is Some,
{
}

/// Where only a grant makes sense, a grant is taken and an allocation is not.
pub proof fn law_only_a_grant_is_a_grant(b: BudgetOpt)
    ensures
        grant_fault(None) is None && granted(None) is None,
        b.from_parent is None && (b.amount matches Some(a) && a >= 0) ==> grant_fault(
            Some(b),
        ) is None && granted(Some(b)) == Some(
            BudgetGrant { amount: b.amount->0, tag: b.tag, desc: b.desc },
        ),
        b.from_parent is Some ==> grant_fault(Some(b)) is Some,
        b.from_parent is None && !(b.amount matches Some(a) && a >= 0) ==> grant_fault(
            Some(b),
        ) is Some,
{
}

/// Anybody may be named as the owner but the two principals of the kernel.
pub proof fn law_two_principals_are_reserved(owner: Seq<char>)
    ensures
        owner_fault(Some(owner)) is Some <==> owner == "anon"@ || owner == "system"@,
        owner_fault(None) is None,
{
}

/// A log goes where its store says: into the file that is named, or into memory;
/// no other store is known.
pub proof fn law_a_log_goes_where_its_store_says(store: StoreSpec)
    ensures
        store matches StoreSpec::File(f) ==> store_fault(store) is None && target_of(store)
            == StoreTarget::Sqlite(f.sqlite),
        store matches StoreSpec::Named(n) ==> (store_fault(store) is None <==> n@ == "mem"@),
        store matches StoreSpec::Named(n) ==> n@ == "mem"@ ==> target_of(store)
            == StoreTarget::Mem,
{
}

/// A session is opened exactly where its owner may be claimed, its budget says
/// something, its store is one, and it is paid for by an allocation if and only
/// if it has a parent.
pub proof fn law_when_a_session_is_opened(from_parent: bool, opts: OpenOpts)
    ensures
        open_fault(from_parent, opts) is None <==> {
            &&& opts.owner matches Some(o) ==> o@ != "anon"@ && o@ != "system"@
            &&& opts.store matches Some(StoreSpec::Named(n)) ==> n@ == "mem"@
            &&& if from_parent {
                opts.budget matches Some(b) && b.amount is None && b.desc is None && (
                b.from_parent matches Some(n) && n >= 0)
            } else {
                opts.budget matches Some(b) ==> b.from_parent is None && (b.amount matches Some(a)
                    && a >= 0)
            }
        },
{
}

/// A session is resumed exactly where one is named, the budget is a grant, if
/// there is one, and the store is one.
pub proof fn law_when_a_session_is_resumed(opts: Option<ResumeOpts>)
    ensures
        resume_fault(opts) is None <==> {
            &&& opts matches Some(o) && {
                &&& o.budget matches Some(b) ==> b.from_parent is None && (b.amount matches Some(a)
                    && a >= 0)
                &&& o.store matches Some(StoreSpec::Named(n)) ==> n@ == "mem"@
            }
        },
{
}

/// A bad argument is told by its place and its reason: the place is the argument
/// and the path into it, if there is one, and the reason is told without the
/// words every reason begins with.
pub proof fn law_a_bad_argument_is_told_by_place_and_reason(
    noun: Seq<char>,
    path: Seq<char>,
    reason: Seq<char>,
)
    ensures
        place(noun, Seq::<char>::empty()) == noun,
        place(noun, seq!['.']) == noun,
        path.len() > 0 && path != seq!['.'] ==> place(noun, path) == noun + seq!['.'] + path,
        bare_reason("deserialize error: "@ + reason) == reason,
        !(reason.len() > 0 && reason[0] == 'd') ==> bare_reason(reason) == reason,
{
    reveal_strlit(".");
    reveal_strlit("deserialize error: ");
    assert("."@ =~= seq!['.']);
    let head = "deserialize error: "@;
    assert((head + reason).subrange(0, head.len() as int) =~= head);
    assert((head + reason).skip(head.len() as int) =~= reason);
    if head.len() <= reason.len() && reason.subrange(0, head.len() as int) == head {
        assert(reason.subrange(0, head.len() as int)[0] == reason[0]);
    }
}

/// An argument that has to be an object is taken when it is one and refused when
/// it is anything else.
pub proof fn law_only_an_object_is_an_object(noun: Seq<char>, value: TableArgument)
    ensures
        object_fault(noun, value) is None <==> (value matches TableArgument::Converted(Ok(j))
            && j is Object),
{
}

/// What is no object is told by what it is.
pub proof fn law_what_is_no_object_is_told(
    noun: Seq<char>,
    found: String,
    reason: String,
    list: Vec<Json>,
)
    ensures
        object_fault(noun, TableArgument::NotATable(found)) == Some(
            noun + " must be a table, got "@ + found@,
        ),
        object_fault(noun, TableArgument::Converted(Err(reason))) == Some(reason@),
        object_fault(noun, TableArgument::Converted(Ok(Json::List(list)))) == Some(
            noun + " must be a table with string keys"@,
        ),
{
}

/// The parent's key is the word `parent`, and no other key is.
pub proof fn law_the_parent_stands_under_its_word(word: String)
    ensures
        is_parent_key(Key::Text(word)) <==> word@ == seq!['p', 'a', 'r', 'e', 'n', 't'],
        !is_parent_key(Key::Other),
{
    reveal_strlit("parent");
    assert("parent"@ =~= seq!['p', 'a', 'r', 'e', 'n', 't']);
}

} // verus!
