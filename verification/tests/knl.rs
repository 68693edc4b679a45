use agent_block_core::bridge::knl::errors::{
    attributed, err, error_kinds, error_table, is_kind, kind_is_retryable, knl_err, FailureKind,
    KnlError,
};
use agent_block_core::bridge::knl::options::{
    budget_source, from_lua, grant_only, open_child_session, open_session, owner_of, parse_parent,
    query_opts, query_params, resume_on, resume_session, store_target, table_to_object,
    unknown_store, view_opts, without_parent, Binding, BudgetSource, ChildStore, Key, OpenPlan,
    ParentValue, QueryDefaults, StoreTarget, TableArgument,
};
use agent_block_core::bridge::knl::schema::{close_shape, declare, describe, named_scalar, Strict};
use agent_block_core::bridge::knl::session::{
    begin, drop_reason, error_detail, finish, scope_end, scope_result, truncated, Answer, Call,
    Identity, KernelCall, Method, RaisedValue, Reply, Step,
};
use agent_block_core::bridge::knl::surface::{
    api, event_fields, module_api, new_beat_id, session_api,
};
use agent_block_core::bridge::knl::types::{
    declared, lshape_module_source, Amount, ApiColumn, AppendEvent, BudgetGrant, BudgetOpt,
    CloseDetail, CloseReason, OpenOpts, QueryOpts, QueryParams, ResumeOpts, Sql, SqliteStore,
    StoreSpec, ViewName, ViewOpts,
};
use agent_block_core::json::{Json, Number};
use agent_block_core::table::Table;

fn opts() -> OpenOpts {
    OpenOpts { owner: None, budget: None, store: None }
}

fn grant(amount: i64) -> BudgetOpt {
    BudgetOpt { amount: Some(amount), tag: None, desc: None, from_parent: None }
}

fn allocation(amount: i64) -> BudgetOpt {
    BudgetOpt { amount: None, tag: None, desc: None, from_parent: Some(amount) }
}

fn owned_by(owner: &str) -> OpenOpts {
    OpenOpts { owner: Some(owner.to_string()), budget: None, store: None }
}

fn open(o: OpenOpts) -> Result<OpenPlan<u32>, String> {
    open_session(None, o)
}

fn identity() -> Identity {
    Identity { id: "s-1".to_string(), scope_id: "scope-1".to_string(), owner: "u".to_string() }
}

fn defaults() -> QueryDefaults {
    QueryDefaults { timeout_ms: 5000, limit: 1000 }
}

fn step(call: Call) -> Step {
    begin(&identity(), call, &defaults())
}

fn columns() -> Vec<ApiColumn> {
    vec![ApiColumn { name: "seq".to_string(), declared_type: "INTEGER".to_string(), pk: true }]
}

// ── failures ─────────────────────────────────────────────────────────

#[test]
fn api_publishes_the_error_vocabulary() {
    let published = api(Ok(columns())).ok().expect("a report").errors;
    let declared = error_kinds();
    assert_eq!(published, declared);

    for entry in session_api().iter().chain(module_api().iter()) {
        let Some((_, raises)) = entry.doc.split_once("[raises: ") else {
            continue;
        };
        let raises = raises.split(']').next().unwrap_or("");
        for kind in raises.split(',').map(str::trim).filter(|k| !k.is_empty()) {
            let kind = kind.split_whitespace().next().unwrap_or("");
            assert!(
                declared.iter().any(|k| k == kind),
                "{} names a class the kernel does not publish: {kind:?}",
                entry.name
            );
        }
    }
}

#[test]
fn a_failure_is_read_back_as_it_was_raised() {
    let closed =
        KnlError { kind: FailureKind::Closed, reason: "session is closed".to_string() };
    let raised = finish(Method::Append, Err(closed)).err().expect("a failure");
    assert_eq!(raised, "knl: append: closed: session is closed");
    let e = error_table(&raised);
    assert_eq!(e.kind.as_deref(), Some("closed"));
    assert_eq!(e.method.as_deref(), Some("append"));
    assert!(!e.retryable);
    assert_eq!(e.message, "session is closed");

    let traced = format!("runtime error: {raised}\nstack traceback:\n\tknl: x: busy: y");
    let e = error_table(&traced);
    assert_eq!(e.kind.as_deref(), Some("closed"));
    assert_eq!(e.message, "session is closed");

    let busy = KnlError { kind: FailureKind::Busy, reason: "locked: try: again".to_string() };
    let e = error_table(&knl_err("spend", &busy));
    assert!(e.retryable);
    assert_eq!(e.message, "locked: try: again");
}

#[test]
fn a_raised_failure_reports_its_class_through_knl_error() {
    let refused = |kind: FailureKind, method: Method, reason: &str| {
        let failure = KnlError { kind, reason: reason.to_string() };
        error_table(&finish(method, Err(failure)).err().expect("a failure"))
    };
    let e = refused(FailureKind::Closed, Method::Append, "session is closed");
    assert_eq!(e.kind.as_deref(), Some("closed"));
    assert_eq!(e.method.as_deref(), Some("append"));
    assert!(!e.retryable, "a closed session is not a retry");
    assert_eq!(e.message, "session is closed");

    let k = refused(FailureKind::Validation, Method::Append, "kernel only");
    assert_eq!(k.kind.as_deref(), Some("validation"));
    assert_eq!(k.method.as_deref(), Some("append"));
    assert!(!k.retryable);

    let n = refused(FailureKind::Validation, Method::Reserve, "non-negative");
    assert_eq!(n.kind.as_deref(), Some("validation"));
    assert_eq!(n.method.as_deref(), Some("reserve"));

    let v = refused(FailureKind::Validation, Method::View, "unknown view \"nope\"");
    assert_eq!(v.kind.as_deref(), Some("validation"));
    assert_eq!(v.method.as_deref(), Some("view"));

    // A refusal raised before the kernel is reached is the same class.
    let call =
        Call::Append { typed: event(), event: TableArgument::NotATable("integer".to_string()) };
    let Step::Refuse(raised) = step(call) else {
        panic!("the kernel was asked");
    };
    let b = error_table(&raised);
    assert_eq!(b.kind.as_deref(), Some("validation"));
    assert_eq!(b.method.as_deref(), Some("append"));
}

#[test]
fn a_classified_failure_still_reads_as_a_message() {
    let closed = KnlError { kind: FailureKind::Closed, reason: "session is closed".to_string() };
    let text = finish(Method::Append, Err(closed)).err().expect("a failure");
    assert!(text.contains("knl: append:"), "attribution: {text}");
    assert!(text.contains("session is closed"), "reason: {text}");

    let other = error_table("something else entirely");
    assert!(other.kind.is_none());
    assert!(other.method.is_none());
    assert!(!other.retryable);
    assert_eq!(other.message, "something else entirely");

    let fake = error_table("knl: append: nonsense: hello");
    assert!(fake.kind.is_none());
    assert_eq!(fake.message, "knl: append: nonsense: hello");
    assert!(error_table("").kind.is_none());
}

#[test]
fn every_class_has_its_word() {
    for kind in [
        FailureKind::Validation,
        FailureKind::Closed,
        FailureKind::Busy,
        FailureKind::Storage,
        FailureKind::Corruption,
        FailureKind::Timeout,
        FailureKind::Refused,
    ] {
        assert!(is_kind(kind.as_str()));
        assert_eq!(kind_is_retryable(kind.as_str()), kind == FailureKind::Busy);
    }
    assert!(!is_kind("nonsense"));
    assert_eq!(attributed("m", "k", "r"), "knl: m: k: r");
    assert_eq!(err("open", "no"), "knl: open: validation: no");
}

// ── arguments ────────────────────────────────────────────────────────

#[test]
fn a_refused_argument_names_its_place() {
    assert_eq!(
        from_lua("open", "opts", "budget.tag", "deserialize error: expected a string"),
        "knl: open: validation: opts.budget.tag: expected a string"
    );
    assert_eq!(
        from_lua("append", "event", ".", "expected table"),
        "knl: append: validation: event: expected table"
    );
    assert_eq!(from_lua("view", "name", "", "no"), "knl: view: validation: name: no");
}

#[test]
fn an_event_has_to_be_an_object() {
    let t = table_to_object("append", "event", TableArgument::NotATable("number".to_string()));
    assert_eq!(
        t.err().expect("refused"),
        "knl: append: validation: event must be a table, got number"
    );
    let t = table_to_object("append", "event", TableArgument::Converted(Ok(Json::List(vec![]))));
    assert_eq!(
        t.err().expect("refused"),
        "knl: append: validation: event must be a table with string keys"
    );
    let t = table_to_object("append", "event", TableArgument::Converted(Err("deep".to_string())));
    assert_eq!(t.err().expect("refused"), "knl: append: validation: deep");
    let mut fields: Table<Json> = Table::new();
    fields.set("kind", Json::Text("note".to_string()));
    let t = table_to_object("append", "event", TableArgument::Converted(Ok(Json::Object(fields))));
    assert!(t.ok().expect("an object").contains("kind"));
}

#[test]
fn session_validates_budget_options() {
    let with = |b: BudgetOpt| OpenOpts { owner: None, budget: Some(b), store: None };
    let msg = open(with(grant(-1))).err().expect("refused");
    assert!(msg.contains("knl: open:"), "missing attribution: {msg}");
    assert!(msg.contains("budget.amount"), "{msg}");

    let none = BudgetOpt { amount: None, tag: None, desc: None, from_parent: None };
    let msg = open(with(none)).err().expect("refused");
    assert!(msg.contains("knl: open:"), "missing attribution: {msg}");
    assert!(msg.contains("required"), "{msg}");

    let msg = from_lua("open", "opts", "budget.tokens", "unknown field `tokens`, expected one of `amount`, `tag`");
    assert!(msg.contains("knl: open:"), "missing attribution: {msg}");
    assert!(msg.contains("unknown field `tokens`"), "{msg}");
    assert!(msg.contains("`amount`"), "{msg}");

    let msg = from_lua("open", "opts", "budget.tag", "invalid type: integer `7`, expected a string");
    assert!(msg.contains("opts.budget.tag"), "{msg}");
    assert!(msg.contains("expected a string"), "{msg}");

    let msg = from_lua("open", "opts", "budget.amount", "invalid type: floating point `1.5`, expected i64");
    assert!(msg.contains("opts.budget.amount"), "{msg}");

    let worded = BudgetOpt {
        amount: Some(42),
        tag: Some("tokens".to_string()),
        desc: Some("one nightly run".to_string()),
        from_parent: None,
    };
    match open(with(worded)) {
        Ok(OpenPlan::Fresh { grant: Some(g), .. }) => {
            assert_eq!(g.amount, 42);
            assert_eq!(g.tag.as_deref(), Some("tokens"));
            assert_eq!(g.desc.as_deref(), Some("one nightly run"));
        }
        _ => panic!("no grant"),
    }
    match open(with(grant(7))) {
        Ok(OpenPlan::Fresh { grant: Some(g), .. }) => {
            assert_eq!((g.amount, g.tag, g.desc), (7, None, None));
        }
        _ => panic!("no grant"),
    }

    let msg = from_lua("open", "opts", "budget", "invalid type: integer `100`, expected table");
    assert!(msg.contains("knl: open:"), "missing attribution: {msg}");
    assert!(msg.contains("opts.budget"), "{msg}");
    assert!(msg.contains("expected table"), "{msg}");

    let msg = from_lua("open", "opts", ".", "invalid type: string \"nope\", expected table");
    assert!(msg.contains("knl: open:"), "missing attribution: {msg}");
    assert!(msg.contains("opts:"), "{msg}");
    assert!(msg.contains("expected table"), "{msg}");
}

#[test]
fn a_budget_has_one_source() {
    assert!(matches!(budget_source("open", None), Ok(None)));
    match budget_source("open", Some(grant(7))) {
        Ok(Some(BudgetSource::Grant(BudgetGrant { amount, tag, desc }))) => {
            assert_eq!((amount, tag, desc), (7, None, None));
        }
        _ => panic!("no grant"),
    }
    match budget_source("open", Some(allocation(4))) {
        Ok(Some(BudgetSource::FromParent(a))) => assert_eq!(a.amount, 4),
        _ => panic!("no allocation"),
    }
    let refused = |b: BudgetOpt| budget_source("open", Some(b)).err().expect("refused");
    assert_eq!(
        refused(grant(-1)),
        "knl: open: validation: budget.amount must be a non-negative whole number, got -1"
    );
    assert_eq!(
        refused(allocation(-3)),
        "knl: open: validation: budget.from_parent must be a non-negative whole number, got -3"
    );
    let mut both = grant(5);
    both.from_parent = Some(5);
    assert!(refused(both).contains("budget names both amount and from_parent"));
    let mut described = allocation(5);
    described.desc = Some("why".to_string());
    assert!(refused(described).contains("budget.desc belongs to an owner's grant"));
    let none = BudgetOpt { amount: None, tag: None, desc: None, from_parent: None };
    assert!(refused(none).contains("budget.amount is required"));
}

#[test]
fn only_a_grant_can_be_added_to_a_stream() {
    assert!(matches!(grant_only("resume", None), Ok(None)));
    assert_eq!(grant_only("resume", Some(grant(3))).ok().flatten().map(|g| g.amount), Some(3));
    let e = grant_only("resume", Some(allocation(3))).err().expect("refused");
    assert!(e.starts_with("knl: resume: validation: budget.from_parent allocates"), "{e}");
}

#[test]
fn open_rejects_reserved_owner_ids_from_the_caller() {
    let msg = open(owned_by("system")).err().expect("refused");
    assert!(msg.contains("knl: open:"), "missing attribution: {msg}");
    assert!(msg.contains("reserved"), "{msg}");
    assert!(msg.contains("system"), "{msg}");

    let msg = open(owned_by("anon")).err().expect("refused");
    assert!(msg.contains("knl: open:"), "missing attribution: {msg}");
    assert!(msg.contains("reserved"), "{msg}");
    assert!(msg.contains("anon"), "{msg}");

    let owner = |o: OpenOpts| match open(o) {
        Ok(OpenPlan::Fresh { owner, .. }) => owner,
        _ => panic!("not opened"),
    };
    assert_eq!(owner(opts()), "anon", "default owner must be anon");
    assert_eq!(owner(owned_by("alice")), "alice", "owner not carried");
    assert_eq!(
        owner_of(Some("system".to_string())).err().expect("refused"),
        "knl: open: validation: owner \"system\" is reserved"
    );
}

#[test]
fn store_mem_is_the_default_and_unknown_stores_are_rejected() {
    let named = |n: &str| StoreSpec::Named(n.to_string());
    let stored = |store: Option<StoreSpec>| OpenOpts {
        owner: Some("x".to_string()),
        budget: Some(grant(10)),
        store,
    };
    for spec in [None, Some(named("mem"))] {
        match open(stored(spec)) {
            Ok(OpenPlan::Fresh { owner, grant, store }) => {
                assert_eq!(owner, "x");
                assert_eq!(grant.map(|g| g.amount), Some(10));
                assert!(matches!(store, StoreTarget::Mem));
            }
            _ => panic!("not opened"),
        }
    }

    let msg = open(stored(Some(named("postgres")))).err().expect("refused");
    assert!(msg.contains("knl: open:"), "missing attribution: {msg}");
    assert!(msg.contains("unknown store"), "{msg}");

    let union = "deserialize error: a store: \"mem\", or a table { sqlite = <path> }";
    let msg = from_lua("open", "opts", "store", union);
    assert!(msg.contains("knl: open:"), "missing attribution: {msg}");
    assert!(msg.contains("opts.store"), "{msg}");
    assert!(msg.contains("sqlite"), "{msg}");
}

#[test]
fn a_store_is_a_word_or_a_file() {
    let named = |n: &str| StoreSpec::Named(n.to_string());
    assert!(matches!(store_target("open", named("mem")), Ok(StoreTarget::Mem)));
    assert_eq!(
        store_target("open", named("postgres")).err().expect("refused"),
        "knl: open: validation: unknown store \"postgres\" (expected \"mem\" or { sqlite = <path> })"
    );
    assert_eq!(
        store_target("resume", named("a\"b\n")).err().expect("refused"),
        "knl: resume: validation: unknown store \"a\\\"b\\n\" (expected \"mem\" or { sqlite = <path> })"
    );
    let file = StoreSpec::File(SqliteStore { sqlite: "/k.db".to_string() });
    assert!(matches!(store_target("open", file), Ok(StoreTarget::Sqlite(p)) if p == "/k.db"));
    assert_eq!(unknown_store("'x'"), "unknown store 'x' (expected \"mem\" or { sqlite = <path> })");
}

#[test]
fn the_parent_is_the_only_value_read_as_a_handle() {
    let text = |s: &str| Key::Text(s.to_string());
    let rest = without_parent(vec![
        (text("owner"), 1),
        (text("parent"), 2),
        (Key::Other, 3),
        (text("budget"), 4),
    ]);
    let kept: Vec<i32> = rest.iter().map(|e| e.1).collect();
    assert_eq!(kept, vec![1, 3, 4]);
    assert!(matches!(parse_parent::<u32>(ParentValue::Nil), Ok(None)));

    let parent = parse_parent(ParentValue::Handle(9u32)).ok().flatten();
    let child = OpenOpts {
        owner: Some("c".to_string()),
        budget: Some(allocation(4)),
        store: None,
    };
    match open_session(parent, child) {
        Ok(OpenPlan::Child { parent, owner, allocation, store }) => {
            assert_eq!((parent, owner.as_str(), allocation.amount), (9, "c", 4));
            assert!(store.is_none());
        }
        _ => panic!("not opened"),
    }

    let msg = from_lua("open", "opts", "owner", "deserialize error: expected a string");
    assert!(msg.contains("knl: open:"), "missing attribution: {msg}");
    assert!(msg.contains("opts.owner"), "{msg}");

    let msg = parse_parent::<u32>(ParentValue::Other("string".to_string())).err().expect("refused");
    assert!(msg.contains("knl: open:"), "missing attribution: {msg}");
    assert!(msg.contains("must be a session"), "{msg}");
    assert_eq!(
        msg,
        "knl: open: validation: parent must be a session (the userdata knl.open returns), got string"
    );
}

#[test]
fn a_session_opens_where_and_with_what_it_says() {
    let o = OpenOpts {
        owner: Some("u".to_string()),
        budget: Some(grant(100)),
        store: Some(StoreSpec::File(SqliteStore { sqlite: "/k.db".to_string() })),
    };
    match open(o) {
        Ok(OpenPlan::Fresh { owner, grant, store }) => {
            assert_eq!(owner, "u");
            assert_eq!(grant.map(|g| g.amount), Some(100));
            assert!(matches!(store, StoreTarget::Sqlite(p) if p == "/k.db"));
        }
        _ => panic!("not opened"),
    }
    assert!(matches!(
        open(opts()),
        Ok(OpenPlan::Fresh { grant: None, store: StoreTarget::Mem, .. })
    ));
}

#[test]
fn a_parent_and_a_grant_are_not_mixed() {
    let with = |b: Option<BudgetOpt>| OpenOpts {
        owner: Some("w".to_string()),
        budget: b,
        store: None,
    };
    let orphan = open(with(Some(allocation(5)))).err().expect("refused");
    let orphan = error_table(&orphan);
    assert_eq!(orphan.kind.as_deref(), Some("validation"));
    assert!(orphan.message.contains("opts.parent"), "{}", orphan.message);

    let granted = open_session(Some(1u32), with(Some(grant(5)))).err().expect("refused");
    let granted = error_table(&granted);
    assert_eq!(granted.kind.as_deref(), Some("validation"));
    assert!(granted.message.contains("from_parent"), "{}", granted.message);

    let mut both = grant(5);
    both.from_parent = Some(5);
    let both = open_session(Some(1u32), with(Some(both))).err().expect("refused");
    assert_eq!(error_table(&both).kind.as_deref(), Some("validation"));

    let nonsense: Result<Option<u32>, String> = parse_parent(ParentValue::Other("string".to_string()));
    let nonsense = error_table(&nonsense.err().expect("refused"));
    assert_eq!(nonsense.kind.as_deref(), Some("validation"));
    assert!(nonsense.message.contains("must be a session"), "{}", nonsense.message);
    let nonsense = open_child_session(false, Some("/p.db"), None).err().expect("refused");
    assert!(nonsense.contains("must be a session"), "{nonsense}");
}

#[test]
fn a_parent_needs_an_allocation() {
    let with = |b: Option<BudgetOpt>| OpenOpts { owner: None, budget: b, store: None };
    let granted = open_session(Some(1u32), with(Some(grant(5)))).err().expect("refused");
    let nothing = open_session(Some(1u32), with(None)).err().expect("refused");
    assert_eq!(nothing, granted);
    match open_session(Some(1u32), with(Some(allocation(5)))) {
        Ok(OpenPlan::Child { parent, owner, allocation, store }) => {
            assert_eq!((parent, owner.as_str(), allocation.amount), (1, "anon", 5));
            assert!(store.is_none());
        }
        _ => panic!("not opened"),
    }
}

#[test]
fn a_childs_stream_lands_in_the_parents_database() {
    let parent = OpenOpts {
        owner: Some("u".to_string()),
        budget: Some(BudgetOpt {
            amount: Some(100),
            tag: Some("tokens".to_string()),
            desc: None,
            from_parent: None,
        }),
        store: Some(StoreSpec::File(SqliteStore { sqlite: "/tmp/tree.db".to_string() })),
    };
    let path = match open(parent) {
        Ok(OpenPlan::Fresh { store: StoreTarget::Sqlite(path), .. }) => path,
        _ => panic!("not opened"),
    };
    let child = OpenOpts {
        owner: Some("w".to_string()),
        budget: Some(allocation(25)),
        store: None,
    };
    match open_session(Some(1u32), child) {
        Ok(OpenPlan::Child { owner, allocation, store, .. }) => {
            assert_eq!((owner.as_str(), allocation.amount), ("w", 25));
            let plan = open_child_session(true, Some(&path), store).ok().expect("a plan");
            assert!(matches!(&plan.store, ChildStore::Parents(p) if p == "/tmp/tree.db"));
        }
        _ => panic!("not opened"),
    }
}

#[test]
fn a_child_lies_where_its_parent_is() {
    let plan = open_child_session(true, Some("/p.db"), None).ok().expect("a plan");
    assert!(matches!(&plan.store, ChildStore::Parents(p) if p == "/p.db"));
    assert_eq!((plan.stream.len(), plan.stream.as_bytes()[14]), (36, b'4'));
    let named = Some(StoreTarget::Sqlite("/q.db".to_string()));
    let plan = open_child_session(true, Some("/p.db"), named).ok().expect("a plan");
    assert!(matches!(&plan.store, ChildStore::File(p) if p == "/q.db"));
    let plan = open_child_session(true, Some("/p.db"), Some(StoreTarget::Mem)).ok().unwrap();
    assert!(matches!(plan.store, ChildStore::Memory));
    let e = open_child_session(false, Some("/p.db"), None).err().expect("refused");
    assert!(e.contains("parent must be a session returned by"), "{e}");
    let e = open_child_session(true, None, None).err().expect("refused");
    assert!(e.contains("keeps a single stream"), "{e}");
}

#[test]
fn a_session_is_resumed_by_its_stream() {
    assert_eq!(
        resume_session(None).err().expect("refused"),
        "knl: resume: validation: opts must be a table with store and session"
    );
    let o = ResumeOpts { store: None, session: "s-1".to_string(), budget: Some(grant(5)) };
    let plan = resume_session(Some(o)).ok().expect("a plan");
    assert_eq!(plan.session, "s-1");
    assert!(matches!(plan.store, StoreTarget::Mem));
    assert_eq!(plan.grant.map(|g| g.amount), Some(5));
    let o = ResumeOpts {
        store: Some(StoreSpec::Named("x".to_string())),
        session: "s-1".to_string(),
        budget: None,
    };
    assert!(resume_session(Some(o)).err().expect("refused").contains("unknown store"));
}

#[test]
fn resume_rejects_a_reserved_system_owned_stream() {
    let msg = resume_on("system", None).err().expect("refused");
    assert!(msg.contains("reserved"), "must name the reserved owner: {msg}");
    assert_eq!(msg, "knl: resume: validation: stream owner \"system\" is reserved");
    assert!(matches!(resume_on("u", None), Ok(None)));
}

#[test]
fn a_refused_resume_records_no_grant() {
    let asked = ResumeOpts {
        store: Some(StoreSpec::File(SqliteStore { sqlite: "/tmp/knl.db".to_string() })),
        session: "system-grant-stream".to_string(),
        budget: Some(BudgetOpt {
            amount: Some(100),
            tag: Some("beats".to_string()),
            desc: None,
            from_parent: None,
        }),
    };
    let plan = resume_session(Some(asked)).ok().expect("a plan");
    assert_eq!(plan.session, "system-grant-stream");
    let msg = resume_on("system", plan.grant).err().expect("refused");
    assert!(msg.contains("reserved"), "{msg}");

    let g = Some(BudgetGrant { amount: 100, tag: Some("beats".to_string()), desc: None });
    let granted = resume_on("anon", g).ok().flatten().expect("a grant");
    assert_eq!((granted.amount, granted.tag.as_deref()), (100, Some("beats")));
}

#[test]
fn a_query_takes_the_kernels_terms_where_it_says_nothing() {
    assert!(matches!(query_params(None), Binding::Nothing));
    assert!(matches!(query_params(Some(QueryParams::Positional(vec![]))), Binding::Nothing));
    assert!(matches!(query_params(Some(QueryParams::Named(Table::new()))), Binding::Nothing));
    assert!(matches!(
        query_params(Some(QueryParams::Positional(vec![Json::Null]))),
        Binding::Positional(v) if v.len() == 1
    ));
    let terms = query_opts(None, &defaults());
    assert_eq!((terms.sessions, terms.timeout_ms, terms.limit), (None, 5000, 1000));
    let terms = query_opts(
        Some(QueryOpts { sessions: Some(vec![]), timeout_ms: None, limit: Some(3) }),
        &defaults(),
    );
    assert_eq!((terms.sessions, terms.timeout_ms, terms.limit), (Some(vec![]), 5000, 3));
    assert!(view_opts(None).is_none());
    assert_eq!(view_opts(Some(ViewOpts { n: None })).expect("a table").len(), 0);
    let t = view_opts(Some(ViewOpts { n: Some(2) })).expect("a table");
    assert!(matches!(t.get("n"), Some(Json::Number(Number::Unsigned(2)))));
}

// ── the methods ──────────────────────────────────────────────────────

#[test]
fn a_long_close_detail_is_truncated() {
    let asked = step(Call::Close {
        reason: Ok(Some(CloseReason("error".to_string()))),
        detail: Ok(Some(CloseDetail("x".repeat(500)))),
    });
    match asked {
        Step::Ask(KernelCall::Close { reason, detail }) => {
            assert_eq!(reason.as_deref(), Some("error"));
            let detail = detail.expect("a detail");
            assert_eq!(detail.len(), 203, "detail length: {}", detail.len());
            assert!(detail.ends_with("..."), "a cut detail says it was cut");
        }
        _ => panic!("the kernel was not asked"),
    }
}

#[test]
fn a_detail_is_cut_between_characters() {
    assert_eq!(truncated("short"), "short");
    assert_eq!(truncated(&"é".repeat(200)), "é".repeat(200));
    assert_eq!(truncated(&"é".repeat(201)), format!("{}...", "é".repeat(200)));
}

#[test]
fn an_identity_is_read_out_of_the_handle() {
    assert!(matches!(step(Call::Id), Step::Answer(s) if s == "s-1"));
    assert!(matches!(step(Call::ScopeId), Step::Answer(s) if s == "scope-1"));
    assert!(matches!(step(Call::Owner), Step::Answer(s) if s == "u"));
}

fn event() -> Result<AppendEvent, String> {
    Ok(AppendEvent { kind: "note".to_string(), beat: None, meta: None, data: None })
}

#[test]
fn a_method_asks_the_kernel_for_one_thing() {
    assert!(matches!(step(Call::Events { from: None }), Step::Ask(KernelCall::Events(0))));
    assert!(matches!(step(Call::Events { from: Some(4) }), Step::Ask(KernelCall::Events(4))));
    assert!(matches!(step(Call::Len), Step::Ask(KernelCall::Len)));
    assert!(matches!(step(Call::Remaining), Step::Ask(KernelCall::Remaining)));
    assert!(matches!(step(Call::Exhausted), Step::Ask(KernelCall::Exhausted)));
    let call = Call::Reserve { amount: Ok(Amount(-1)) };
    assert!(matches!(step(call), Step::Ask(KernelCall::Reserve(-1))));
    let call = Call::Spend { amount: Ok(Amount(3)) };
    assert!(matches!(step(call), Step::Ask(KernelCall::Spend(3))));
    let call = Call::View {
        name: Ok(ViewName("tail".to_string())),
        opts: Ok(Some(ViewOpts { n: Some(2) })),
    };
    match step(call) {
        Step::Ask(KernelCall::View { name, opts: Some(t) }) => {
            assert_eq!((name.as_str(), t.len()), ("tail", 1));
        }
        _ => panic!("the kernel was not asked"),
    }
    let call = Call::Query { sql: Ok(Sql("SELECT 1".to_string())), params: Ok(None), opts: Ok(None) };
    match step(call) {
        Step::Ask(KernelCall::Query { sql, params, terms }) => {
            assert_eq!((sql.as_str(), terms.limit), ("SELECT 1", 1000));
            assert!(matches!(params, Binding::Nothing));
        }
        _ => panic!("the kernel was not asked"),
    }
    let object = TableArgument::Converted(Ok(Json::empty_object()));
    let call = Call::Append { typed: event(), event: object };
    assert!(matches!(step(call), Step::Ask(KernelCall::Append(_))));
}

#[test]
fn the_first_refused_argument_refuses_the_call() {
    let refused = |s: &str| s.to_string();
    let call = Call::Append {
        typed: Err(refused("typed")),
        event: TableArgument::NotATable("number".to_string()),
    };
    assert!(matches!(step(call), Step::Refuse(e) if e == "typed"));
    let call =
        Call::Append { typed: event(), event: TableArgument::NotATable("number".to_string()) };
    assert!(matches!(step(call), Step::Refuse(e) if e.contains("event must be a table")));
    let call = Call::View { name: Err(refused("name")), opts: Err(refused("opts")) };
    assert!(matches!(step(call), Step::Refuse(e) if e == "name"));
    let call = Call::Query {
        sql: Ok(Sql(String::new())),
        params: Err(refused("params")),
        opts: Err(refused("opts")),
    };
    assert!(matches!(step(call), Step::Refuse(e) if e == "params"));
    let call = Call::Reserve { amount: Err(refused("amount")) };
    assert!(matches!(step(call), Step::Refuse(e) if e == "amount"));
    let call = Call::Close { reason: Ok(None), detail: Err(refused("detail")) };
    assert!(matches!(step(call), Step::Refuse(e) if e == "detail"));
}

#[test]
fn the_tag_is_told_only_where_a_budget_stopped_the_call() {
    let reply = |granted| Reply::Reserved { granted, tag: Some("tokens".to_string()) };
    match finish(Method::Reserve, Ok(reply(true))) {
        Ok(Answer::Reserved(true, None)) => {}
        _ => panic!("another answer"),
    }
    match finish(Method::Reserve, Ok(reply(false))) {
        Ok(Answer::Reserved(false, Some(tag))) => assert_eq!(tag, "tokens"),
        _ => panic!("another answer"),
    }
}

#[test]
fn what_the_kernel_says_is_answered() {
    assert!(matches!(finish(Method::Append, Ok(Reply::Recorded(3))), Ok(Answer::Number(3))));
    assert!(matches!(finish(Method::Len, Ok(Reply::Count(2))), Ok(Answer::Number(2))));
    assert!(matches!(finish(Method::Spend, Ok(Reply::Done)), Ok(Answer::Nothing)));
    assert!(matches!(
        finish(Method::Remaining, Ok(Reply::Balance(Some(-1)))),
        Ok(Answer::Balance(Some(-1)))
    ));
    assert!(matches!(finish(Method::Exhausted, Ok(Reply::Flag(true))), Ok(Answer::Flag(true))));
    let rows = Reply::Rows { rows: vec![Json::Null], truncated: true };
    assert!(matches!(
        finish(Method::Query, Ok(rows)),
        Ok(Answer::Rows(Json::List(v), true)) if v.len() == 1
    ));
    assert!(matches!(
        finish(Method::Events, Ok(Reply::Events(vec![]))),
        Ok(Answer::Value(Json::List(_)))
    ));
    assert!(matches!(
        finish(Method::View, Ok(Reply::Value(Json::Bool(true)))),
        Ok(Answer::Value(Json::Bool(true)))
    ));
}

#[test]
fn a_close_scope_records_the_boundary_on_the_way_out() {
    match scope_end(false, &RaisedValue::Nil) {
        Some(KernelCall::Close { reason, detail }) => {
            assert_eq!(reason.as_deref(), Some("scope_exit"));
            assert!(detail.is_none(), "a clean exit has nothing to say");
        }
        _ => panic!("not closed"),
    }
}

#[test]
fn a_close_scope_that_raises_records_the_error_and_its_message() {
    match scope_end(false, &RaisedValue::Text("boom".to_string())) {
        Some(KernelCall::Close { reason, detail }) => {
            assert_eq!(reason.as_deref(), Some("error"));
            let detail = detail.expect("detail text");
            assert!(detail.contains("boom"), "detail: {detail}");
        }
        _ => panic!("not closed"),
    }
}

#[test]
fn a_raised_value_is_told_by_what_it_is() {
    assert_eq!(error_detail(&RaisedValue::Nil), "<nil>");
    assert_eq!(error_detail(&RaisedValue::Integer(-4)), "-4");
    assert_eq!(error_detail(&RaisedValue::Other("table".to_string())), "<table>");
    assert_eq!(error_detail(&RaisedValue::Number("1.5".to_string())), "1.5");
    assert_eq!(error_detail(&RaisedValue::Error("x".repeat(300))).len(), 203);
}

fn down() -> KnlError {
    KnlError { kind: FailureKind::Storage, reason: "the store is down".to_string() }
}

#[test]
fn a_failed_close_does_not_replace_the_error_the_block_raised() {
    assert!(scope_result(&RaisedValue::Text("boom".to_string()), Err(down())).is_ok());
}

#[test]
fn a_failed_close_on_a_clean_scope_exit_still_raises() {
    let msg = scope_result(&RaisedValue::Nil, Err(down())).err().expect("raised");
    assert!(msg.contains("knl: close:"), "missing attribution: {msg}");
    assert!(msg.contains("the store is down"), "{msg}");
    assert!(scope_result(&RaisedValue::Nil, Ok(())).is_ok());
}

#[test]
fn a_store_that_is_down_surfaces_as_storage() {
    let e = error_table(&scope_result(&RaisedValue::Nil, Err(down())).err().expect("raised"));
    assert_eq!(e.kind.as_deref(), Some("storage"));
    assert_eq!(e.method.as_deref(), Some("close"));
    assert!(!e.retryable, "a store that is down is not a retry");
    assert_eq!(e.message, "the store is down");
}

#[test]
fn an_explicit_close_wins_over_the_scope_exit() {
    let asked =
        step(Call::Close { reason: Ok(Some(CloseReason("done".to_string()))), detail: Ok(None) });
    match asked {
        Step::Ask(KernelCall::Close { reason, .. }) => assert_eq!(reason.as_deref(), Some("done")),
        _ => panic!("the kernel was not asked"),
    }
    assert!(scope_end(true, &RaisedValue::Nil).is_none(), "exactly one boundary");
    assert!(scope_end(true, &RaisedValue::Text("boom".to_string())).is_none());
}

#[test]
fn a_collected_handle_records_the_boundary_as_dropped() {
    assert_eq!(drop_reason(false), Some("dropped"));
    assert_eq!(drop_reason(true), None);
}

#[test]
fn close_records_an_optional_detail_beside_the_reason() {
    let close = |reason: Option<&str>, detail: Option<&str>| {
        let call = Call::Close {
            reason: Ok(reason.map(|r| CloseReason(r.to_string()))),
            detail: Ok(detail.map(|d| CloseDetail(d.to_string()))),
        };
        match step(call) {
            Step::Ask(KernelCall::Close { reason, detail }) => (reason, detail),
            _ => panic!("the kernel was not asked"),
        }
    };
    assert_eq!(
        close(Some("error"), Some("the body raised: boom")),
        (Some("error".to_string()), Some("the body raised: boom".to_string()))
    );
    assert_eq!(close(Some("done"), None), (Some("done".to_string()), None));
    assert_eq!(close(None, None), (None, None));

    let refused = from_lua("close", "detail", ".", "deserialize error: expected a string");
    let call = Call::Close {
        reason: Ok(Some(CloseReason("error".to_string()))),
        detail: Err(refused),
    };
    let Step::Refuse(msg) = step(call) else {
        panic!("the kernel was asked");
    };
    assert!(msg.contains("knl: close:"), "missing attribution: {msg}");
    assert!(msg.contains("detail:"), "{msg}");
    assert!(msg.contains("expected a string"), "{msg}");
}

// ── the surface ──────────────────────────────────────────────────────

#[test]
fn the_api_publishes_the_module_it_generated() {
    let published = api(Ok(columns())).ok().expect("a report").types;
    assert_eq!(published, lshape_module_source());
}

#[test]
fn the_generated_module_exports_exactly_the_declared_types() {
    let source = lshape_module_source();
    let mut exported: Vec<String> = source
        .lines()
        .filter_map(|l| l.strip_prefix("M."))
        .map(|l| l.split(" = ").next().unwrap_or("").to_string())
        .collect();
    exported.sort();

    let mut expected: Vec<String> = declared().iter().map(|d| d.name.to_string()).collect();
    expected.sort();

    assert_eq!(exported, expected, "the generated module drifted");
    assert_eq!(exported.len(), 24);
    assert!(source.starts_with("-- Generated at host start by agent-block-core"));
    assert!(source.ends_with("return M\n"));
}

#[test]
fn the_generated_module_says_what_the_types_say() {
    let source = lshape_module_source();
    for line in [
        "M.SessionId = T.string:describe(\"SessionId\")\n",
        "M.Seq = T.integer:describe(\"Seq\")\n",
        "M.Exhausted = T.boolean:describe(\"Exhausted\")\n",
        "M.Raised = T.any:describe(\"Raised\")\n",
        "M.Remaining = T.integer:is_optional()\n",
        "M.ViewName = T.one_of({ \"tail\" })\n",
        "M.ViewOpts = T.shape({\n    n = T.integer:is_optional(),\n}, { open = false })\n",
        "M.QueryOpts = T.shape({\n    sessions = T.array_of(T.string):is_optional(),\n    \
         timeout_ms = T.integer:is_optional(),\n    limit = T.integer:is_optional(),\n}, \
         { open = false })\n",
        "M.QueryParams = T.any_of({ T.array_of(T.any), T.map_of(T.string, T.any) })\n",
        "M.QueryResult = T.tuple({ T.array_of(T.any), T.boolean })\n",
        "M.ErrorTable = T.shape({\n    kind = T.string:is_optional(),\n    \
         method = T.string:is_optional(),\n    retryable = T.boolean,\n    message = T.string,\n})\n",
    ] {
        assert!(source.contains(line), "missing {line:?} in\n{source}");
    }
    assert!(source.contains("    meta = T.map_of(T.string, T.any_of({ T.string, T.number, T.boolean })):is_optional(),"));
}

#[test]
fn a_declaration_is_named_and_closed() {
    assert_eq!(named_scalar("Owner", "T.string".to_string()), "T.string:describe(\"Owner\")");
    assert_eq!(describe("'o'", "T.string".to_string()), "T.string:describe('o')");
    for body in ["T.", "T.shape({})", "T.integer:is_optional()", "", "T", "t.string"] {
        assert_eq!(describe("'o'", body.to_string()), body);
    }
    assert_eq!(close_shape("T.shape({})".to_string()), "T.shape({}, { open = false })");
    assert_eq!(declare("X", "T.any_of({})".to_string(), Strict::Open), "M.X = T.any_of({})\n\n");
    assert_eq!(
        declare("X", "T.shape({})".to_string(), Strict::Closed),
        "M.X = T.shape({}, { open = false })\n\n"
    );
}

#[test]
fn the_lua_surface_is_exactly_what_is_declared() {
    let session = session_api();
    let names: Vec<&str> = session.iter().map(|e| e.name.as_str()).collect();
    assert_eq!(
        names,
        vec![
            "id", "scope_id", "owner", "append", "events", "len", "view", "query", "reserve",
            "spend", "remaining", "exhausted", "close", "__close",
        ]
    );
    assert!(session.iter().all(|e| e.doc.starts_with(&e.name)));
    let module: Vec<String> = module_api().into_iter().map(|e| e.name).collect();
    assert_eq!(module, vec!["open", "resume", "new_beat_id", "error", "api"]);
    assert_eq!(Method::ScopeId.as_str(), "scope_id");

    let report = api(Ok(columns())).ok().expect("a report");
    assert!(!report.session.is_empty() && !report.module.is_empty());
    for entry in report.session.iter().chain(report.module.iter()) {
        assert!(!entry.name.is_empty() && !entry.doc.is_empty());
    }
    assert_eq!(report.session[0].name, "id");
    let published: Vec<&str> = report.session.iter().map(|e| e.name.as_str()).collect();
    assert_eq!(published, names);
    let published: Vec<&str> = report.module.iter().map(|e| e.name.as_str()).collect();
    assert_eq!(published, module);
    assert_eq!(report.fields.open_children, "open_children");
    assert_eq!(event_fields().amount, "amount");
    let down = KnlError { kind: FailureKind::Storage, reason: "gone".to_string() };
    assert_eq!(api(Err(down)).err().expect("a failure"), "knl: api: storage: gone");
}

#[test]
fn api_publishes_the_events_schema() {
    let conn = rusqlite::Connection::open_in_memory().expect("open in-memory sqlite");
    conn.execute_batch(
        "CREATE TABLE events (stream TEXT NOT NULL, seq INTEGER NOT NULL, \
         epoch_ms INTEGER NOT NULL, kind TEXT NOT NULL, schema_version INTEGER NOT NULL, \
         beat TEXT, meta TEXT, data TEXT, PRIMARY KEY (stream, seq));",
    )
    .expect("ddl");
    let mut stmt = conn.prepare("PRAGMA table_info(events)").expect("prepare");
    let found: Vec<ApiColumn> = stmt
        .query_map([], |r| {
            Ok(ApiColumn {
                name: r.get(1)?,
                declared_type: r.get(2)?,
                pk: r.get::<_, i64>(5)? > 0,
            })
        })
        .expect("query")
        .collect::<Result<Vec<_>, _>>()
        .expect("collect");

    let schema = api(Ok(found)).ok().expect("a report").schema;
    assert_eq!(schema.table, "events");
    let names: Vec<&str> = schema.columns.iter().map(|c| c.name.as_str()).collect();
    assert_eq!(names.join(","), "stream,seq,epoch_ms,kind,schema_version,beat,meta,data");
    assert!(schema.columns.iter().all(|c| !c.name.is_empty() && !c.declared_type.is_empty()));
    let keyed: Vec<&str> =
        schema.columns.iter().filter(|c| c.pk).map(|c| c.name.as_str()).collect();
    assert_eq!(keyed.join(","), "stream,seq");
}

#[test]
fn new_beat_id_mints_distinct_time_ordered_ids() {
    let a = new_beat_id();
    let b = new_beat_id();
    assert!(!a.is_empty(), "a beat id must be a non-empty string");
    assert_ne!(a, b, "two beats must be two ids");
    assert!(a < b, "beat ids must sort in the order they were minted: {a} {b}");
    assert_eq!(&a[14..15], "7", "not a v7 uuid: {a}");
    assert!(session_api().iter().all(|e| e.name != "new_beat_id"));

    let mut fields: Table<Json> = Table::new();
    fields.set("kind", Json::Text("llm_response".to_string()));
    fields.set("beat", Json::Text(a.clone()));
    let call = Call::Append {
        typed: Ok(AppendEvent {
            kind: "llm_response".to_string(),
            beat: Some(a.clone()),
            meta: None,
            data: None,
        }),
        event: TableArgument::Converted(Ok(Json::Object(fields))),
    };
    match step(call) {
        Step::Ask(KernelCall::Append(event)) => {
            assert_eq!(event.get("beat").and_then(|b| b.as_text()), Some(a.as_str()));
        }
        _ => panic!("the kernel was not asked"),
    }
}

#[test]
fn append_validates_event_shape_with_attributed_errors() {
    let table = || TableArgument::Converted(Ok(Json::empty_object()));
    let refused = |path: &str, reason: &str, event: TableArgument| {
        let typed = Err(from_lua("append", "event", path, reason));
        match step(Call::Append { typed, event }) {
            Step::Refuse(msg) => msg,
            _ => panic!("the kernel was asked"),
        }
    };

    let msg = refused(".", "deserialize error: missing field `kind`", table());
    assert!(msg.contains("knl: append:"), "missing attribution: {msg}");
    assert!(msg.contains("missing field `kind`"), "{msg}");

    let msg = refused("kind", "invalid type: integer `42`, expected a string", table());
    assert!(msg.contains("knl: append:"), "missing attribution: {msg}");
    assert!(msg.contains("event.kind"), "{msg}");
    assert!(msg.contains("expected a string"), "{msg}");

    let text = TableArgument::NotATable("string".to_string());
    let msg = refused(".", "invalid type: string \"not a table\", expected table", text);
    assert!(msg.contains("knl: append:"), "missing attribution: {msg}");
    assert!(msg.contains("event:"), "{msg}");
    assert!(msg.contains("expected table"), "{msg}");

    // The kernel is only asked for what was not refused: the log holds the
    // opening alone, and the next event takes the second place.
    assert!(matches!(step(Call::Len), Step::Ask(KernelCall::Len)));
    assert!(matches!(finish(Method::Len, Ok(Reply::Count(1))), Ok(Answer::Number(1))));
    let call = Call::Append { typed: event(), event: table() };
    assert!(matches!(step(call), Step::Ask(KernelCall::Append(_))));
    assert!(matches!(finish(Method::Append, Ok(Reply::Recorded(2))), Ok(Answer::Number(2))));
}

#[test]
fn resume_requires_a_session_id_and_a_stream_that_holds_a_session() {
    let msg = resume_session(None).err().expect("refused");
    assert!(msg.contains("knl: resume:"), "missing attribution: {msg}");

    let msg = from_lua("resume", "opts", ".", "deserialize error: missing field `session`");
    assert!(msg.contains("knl: resume:"), "missing attribution: {msg}");
    assert!(msg.contains("missing field `session`"), "{msg}");

    let asked = ResumeOpts { store: None, session: "never-opened".to_string(), budget: None };
    let plan = resume_session(Some(asked)).ok().expect("a plan");
    assert_eq!(plan.session, "never-opened");
    assert!(matches!(plan.store, StoreTarget::Mem));
    let empty = KnlError {
        kind: FailureKind::Validation,
        reason: "no session to resume in stream \"never-opened\"".to_string(),
    };
    let msg = knl_err("resume", &empty);
    assert!(msg.contains("knl: resume:"), "missing attribution: {msg}");
    assert!(msg.contains("no session to resume"), "{msg}");
}
