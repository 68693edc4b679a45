//! The types the kernel's calls take and answer, each with its schema.

use vstd::prelude::*;

use super::schema::{
    declared_shapes, field_shape, field_shapes, mappable, module_text, shape, shapes, writable,
    write_module, Declared, DeclaredShape, FieldShape, Form, FormField, Shape, Strict,
};
use crate::json::Number;
use crate::table::Table;
use crate::text::views;

verus! {

broadcast use vstd::string::group_string_axioms;

/// A field that has to be there.
pub open spec fn need(name: Seq<char>, shape: Shape) -> FieldShape {
    FieldShape { name, shape, required: true }
}

/// A field that may be left out.
pub open spec fn may(name: Seq<char>, shape: Shape) -> FieldShape {
    FieldShape { name, shape, required: false }
}

/// A declared type.
pub open spec fn entry(name: Seq<char>, shape: Shape, strict: Strict) -> DeclaredShape {
    DeclaredShape { name, shape, strict }
}

fn array_of(item: Form) -> (out: Form)
    ensures
        shape(out) == Shape::Array(Box::new(shape(item))),
{
    Form::Array(Box::new(item))
}

fn record_of(key: Form, value: Form) -> (out: Form)
    ensures
        shape(out) == Shape::Record(Box::new(shape(key)), Box::new(shape(value))),
{
    Form::Record(Box::new(key), Box::new(value))
}

fn add_form(list: &mut Vec<Form>, form: Form)
    ensures
        shapes(final(list)@) == shapes(old(list)@).push(shape(form)),
{
    let ghost before = list@;
    list.push(form);
    assert(list@.drop_last() =~= before);
}

fn add_field(list: &mut Vec<FormField>, name: &str, schema: Form, required: bool)
    ensures
        field_shapes(final(list)@) == field_shapes(old(list)@).push(
            FieldShape { name: name@, shape: shape(schema), required },
        ),
{
    let ghost before = list@;
    list.push(FormField { name: name.to_owned(), schema, required });
    assert(list@.drop_last() =~= before);
    assert(field_shape(list@.last()) == FieldShape { name: name@, shape: shape(schema), required });
}

/// Any value: what a kind's `data` is about, and what a query binds.
pub struct Json(pub crate::json::Json);

impl Json {
    /// What the type's schema says.
    pub open spec fn says() -> Shape {
        Shape::Any
    }

    /// The type's schema.
    pub fn to_schema() -> (out: Form)
        ensures
            shape(out) == Json::says(),
    {
        Form::Any
    }
}

/// One label of an event: a word, a number or a flag.
pub enum MetaValue {
    Text(String),
    Number(Number),
    Flag(bool),
}

impl MetaValue {
    /// What the type's schema says.
    pub open spec fn says() -> Shape {
        Shape::Union(seq![Shape::Text, Shape::Number, Shape::Boolean])
    }

    /// The type's schema.
    pub fn to_schema() -> (out: Form)
        ensures
            shape(out) == MetaValue::says(),
    {
        let mut list: Vec<Form> = Vec::new();
        add_form(&mut list, Form::Text);
        add_form(&mut list, Form::Number);
        add_form(&mut list, Form::Boolean);
        assert(shapes(list@) =~= seq![Shape::Text, Shape::Number, Shape::Boolean]);
        Form::Union(list)
    }
}

/// The labels of an event.
pub type Meta = Table<MetaValue>;

/// The stream a session writes.
pub struct SessionId(pub String);

impl SessionId {
    /// What the type's schema says.
    pub open spec fn says() -> Shape {
        Shape::Text
    }

    /// The type's schema.
    pub fn to_schema() -> (out: Form)
        ensures
            shape(out) == SessionId::says(),
    {
        Form::Text
    }
}

/// The authority a stream is written under.
pub struct ScopeId(pub String);

impl ScopeId {
    /// What the type's schema says.
    pub open spec fn says() -> Shape {
        Shape::Text
    }

    /// The type's schema.
    pub fn to_schema() -> (out: Form)
        ensures
            shape(out) == ScopeId::says(),
    {
        Form::Text
    }
}

/// The principal a scope belongs to.
pub struct Owner(pub String);

impl Owner {
    /// What the type's schema says.
    pub open spec fn says() -> Shape {
        Shape::Text
    }

    /// The type's schema.
    pub fn to_schema() -> (out: Form)
        ensures
            shape(out) == Owner::says(),
    {
        Form::Text
    }
}

/// The name of a beat.
pub struct BeatId(pub String);

impl BeatId {
    /// What the type's schema says.
    pub open spec fn says() -> Shape {
        Shape::Text
    }

    /// The type's schema.
    pub fn to_schema() -> (out: Form)
        ensures
            shape(out) == BeatId::says(),
    {
        Form::Text
    }
}

/// The place of an event in its stream.
pub struct SeqNo(pub u64);

impl SeqNo {
    /// What the type's schema says.
    pub open spec fn says() -> Shape {
        Shape::Integer
    }

    /// The type's schema.
    pub fn to_schema() -> (out: Form)
        ensures
            shape(out) == SeqNo::says(),
    {
        Form::Integer
    }
}

/// How many events are recorded.
pub struct Count(pub u64);

impl Count {
    /// What the type's schema says.
    pub open spec fn says() -> Shape {
        Shape::Integer
    }

    /// The type's schema.
    pub fn to_schema() -> (out: Form)
        ensures
            shape(out) == Count::says(),
    {
        Form::Integer
    }
}

/// What is reserved or spent, in units of the budget.
pub struct Amount(pub i64);

impl Amount {
    /// What the type's schema says.
    pub open spec fn says() -> Shape {
        Shape::Integer
    }

    /// The type's schema.
    pub fn to_schema() -> (out: Form)
        ensures
            shape(out) == Amount::says(),
    {
        Form::Integer
    }
}

/// Whether the budget is used up.
pub struct Exhausted(pub bool);

impl Exhausted {
    /// What the type's schema says.
    pub open spec fn says() -> Shape {
        Shape::Boolean
    }

    /// The type's schema.
    pub fn to_schema() -> (out: Form)
        ensures
            shape(out) == Exhausted::says(),
    {
        Form::Boolean
    }
}

/// The statement of a query.
pub struct Sql(pub String);

impl Sql {
    /// What the type's schema says.
    pub open spec fn says() -> Shape {
        Shape::Text
    }

    /// The type's schema.
    pub fn to_schema() -> (out: Form)
        ensures
            shape(out) == Sql::says(),
    {
        Form::Text
    }
}

/// Which kind of ending a close was.
pub struct CloseReason(pub String);

impl CloseReason {
    /// What the type's schema says.
    pub open spec fn says() -> Shape {
        Shape::Text
    }

    /// The type's schema.
    pub fn to_schema() -> (out: Form)
        ensures
            shape(out) == CloseReason::says(),
    {
        Form::Text
    }
}

/// The sentence only one close can tell.
pub struct CloseDetail(pub String);

impl CloseDetail {
    /// What the type's schema says.
    pub open spec fn says() -> Shape {
        Shape::Text
    }

    /// The type's schema.
    pub fn to_schema() -> (out: Form)
        ensures
            shape(out) == CloseDetail::says(),
    {
        Form::Text
    }
}

/// The balance, where there is a budget.
pub struct Remaining(pub Option<i64>);

impl Remaining {
    /// What the type's schema says.
    pub open spec fn says() -> Shape {
        Shape::Union(seq![Shape::Integer, Shape::Null])
    }

    /// The type's schema.
    pub fn to_schema() -> (out: Form)
        ensures
            shape(out) == Remaining::says(),
    {
        let mut list: Vec<Form> = Vec::new();
        add_form(&mut list, Form::Integer);
        add_form(&mut list, Form::Null);
        assert(shapes(list@) =~= seq![Shape::Integer, Shape::Null]);
        Form::Union(list)
    }
}

/// Whatever a raise handed over.
pub struct Raised;

impl Raised {
    /// What the type's schema says.
    pub open spec fn says() -> Shape {
        Shape::Any
    }

    /// The type's schema.
    pub fn to_schema() -> (out: Form)
        ensures
            shape(out) == Raised::says(),
    {
        Form::Any
    }
}

/// The name of a view.
pub struct ViewName(pub String);

impl ViewName {
    /// What the type's schema says.
    pub open spec fn says() -> Shape {
        Shape::Enum(seq!["tail"@])
    }

    /// The type's schema.
    pub fn to_schema() -> (out: Form)
        ensures
            shape(out) == ViewName::says(),
    {
        let mut words: Vec<String> = Vec::new();
        words.push("tail".to_owned());
        assert(views(words@) =~= seq!["tail"@]);
        Form::Enum(words)
    }
}

/// What a view takes.
pub struct ViewOpts {
    /// How many events from the end.
    pub n: Option<u64>,
}

impl ViewOpts {
    /// What the type's schema says.
    pub open spec fn says() -> Shape {
        Shape::Object(seq![may("n"@, Shape::Integer)])
    }

    /// The type's schema.
    pub fn to_schema() -> (out: Form)
        ensures
            shape(out) == ViewOpts::says(),
    {
        let mut list: Vec<FormField> = Vec::new();
        add_field(&mut list, "n", Form::Integer, false);
        assert(field_shapes(list@) =~= seq![may("n"@, Shape::Integer)]);
        Form::Object(list)
    }
}

/// Where a log lies, as it was asked for.
pub enum StoreSpec {
    /// A store named by a word.
    Named(String),
    /// A file.
    File(SqliteStore),
}

impl StoreSpec {
    /// What the type's schema says.
    pub open spec fn says() -> Shape {
        Shape::Union(seq![Shape::Enum(seq!["mem"@]), SqliteStore::says()])
    }

    /// The type's schema.
    pub fn to_schema() -> (out: Form)
        ensures
            shape(out) == StoreSpec::says(),
    {
        let mut words: Vec<String> = Vec::new();
        words.push("mem".to_owned());
        assert(views(words@) =~= seq!["mem"@]);
        let mut list: Vec<Form> = Vec::new();
        add_form(&mut list, Form::Enum(words));
        add_form(&mut list, SqliteStore::to_schema());
        assert(shapes(list@) =~= seq![Shape::Enum(seq!["mem"@]), SqliteStore::says()]);
        Form::Union(list)
    }
}

/// A log in a file.
pub struct SqliteStore {
    /// Where the file is.
    pub sqlite: String,
}

impl SqliteStore {
    /// What the type's schema says.
    pub open spec fn says() -> Shape {
        Shape::Object(seq![need("sqlite"@, Shape::Text)])
    }

    /// The type's schema.
    pub fn to_schema() -> (out: Form)
        ensures
            shape(out) == SqliteStore::says(),
    {
        let mut list: Vec<FormField> = Vec::new();
        add_field(&mut list, "sqlite", Form::Text, true);
        assert(field_shapes(list@) =~= seq![need("sqlite"@, Shape::Text)]);
        Form::Object(list)
    }
}

/// A budget as it was asked for, in either of its two forms.
pub struct BudgetOpt {
    /// What an owner allows.
    pub amount: Option<i64>,
    /// What the unit is called.
    pub tag: Option<String>,
    /// What was allowed and why.
    pub desc: Option<String>,
    /// What the parent hands over.
    pub from_parent: Option<i64>,
}

impl BudgetOpt {
    /// What the type's schema says.
    pub open spec fn says() -> Shape {
        Shape::Union(seq![BudgetGrant::says(), BudgetAllocation::says()])
    }

    /// The type's schema.
    pub fn to_schema() -> (out: Form)
        ensures
            shape(out) == BudgetOpt::says(),
    {
        let mut list: Vec<Form> = Vec::new();
        add_form(&mut list, BudgetGrant::to_schema());
        add_form(&mut list, BudgetAllocation::to_schema());
        assert(shapes(list@) =~= seq![BudgetGrant::says(), BudgetAllocation::says()]);
        Form::Union(list)
    }
}

/// A balance an owner grants.
pub struct BudgetGrant {
    pub amount: i64,
    pub tag: Option<String>,
    pub desc: Option<String>,
}

impl BudgetGrant {
    /// What the type's schema says.
    pub open spec fn says() -> Shape {
        Shape::Object(seq![need("amount"@, Shape::Integer), may("tag"@, Shape::Text), may("desc"@, Shape::Text)])
    }

    /// The type's schema.
    pub fn to_schema() -> (out: Form)
        ensures
            shape(out) == BudgetGrant::says(),
    {
        let mut list: Vec<FormField> = Vec::new();
        add_field(&mut list, "amount", Form::Integer, true);
        add_field(&mut list, "tag", Form::Text, false);
        add_field(&mut list, "desc", Form::Text, false);
        assert(field_shapes(list@) =~= seq![need("amount"@, Shape::Integer), may("tag"@, Shape::Text), may("desc"@, Shape::Text)]);
        Form::Object(list)
    }
}

/// A balance a parent hands over out of its own.
pub struct BudgetAllocation {
    pub from_parent: i64,
    pub tag: Option<String>,
}

impl BudgetAllocation {
    /// What the type's schema says.
    pub open spec fn says() -> Shape {
        Shape::Object(seq![need("from_parent"@, Shape::Integer), may("tag"@, Shape::Text)])
    }

    /// The type's schema.
    pub fn to_schema() -> (out: Form)
        ensures
            shape(out) == BudgetAllocation::says(),
    {
        let mut list: Vec<FormField> = Vec::new();
        add_field(&mut list, "from_parent", Form::Integer, true);
        add_field(&mut list, "tag", Form::Text, false);
        assert(field_shapes(list@) =~= seq![need("from_parent"@, Shape::Integer), may("tag"@, Shape::Text)]);
        Form::Object(list)
    }
}

/// What `knl.open` takes.  The parent is a handle and comes beside it.
pub struct OpenOpts {
    pub owner: Option<String>,
    pub budget: Option<BudgetOpt>,
    pub store: Option<StoreSpec>,
}

impl OpenOpts {
    /// What the type's schema says.
    pub open spec fn says() -> Shape {
        Shape::Object(seq![may("owner"@, Shape::Text), may("budget"@, BudgetOpt::says()), may("store"@, StoreSpec::says()), may("parent"@, Json::says())])
    }

    /// The type's schema.
    pub fn to_schema() -> (out: Form)
        ensures
            shape(out) == OpenOpts::says(),
    {
        let mut list: Vec<FormField> = Vec::new();
        add_field(&mut list, "owner", Form::Text, false);
        add_field(&mut list, "budget", BudgetOpt::to_schema(), false);
        add_field(&mut list, "store", StoreSpec::to_schema(), false);
        add_field(&mut list, "parent", Json::to_schema(), false);
        assert(field_shapes(list@) =~= seq![may("owner"@, Shape::Text), may("budget"@, BudgetOpt::says()), may("store"@, StoreSpec::says()), may("parent"@, Json::says())]);
        Form::Object(list)
    }
}

/// What `knl.resume` takes.
pub struct ResumeOpts {
    pub store: Option<StoreSpec>,
    pub session: String,
    pub budget: Option<BudgetOpt>,
}

impl ResumeOpts {
    /// What the type's schema says.
    pub open spec fn says() -> Shape {
        Shape::Object(seq![may("store"@, StoreSpec::says()), need("session"@, Shape::Text), may("budget"@, BudgetOpt::says())])
    }

    /// The type's schema.
    pub fn to_schema() -> (out: Form)
        ensures
            shape(out) == ResumeOpts::says(),
    {
        let mut list: Vec<FormField> = Vec::new();
        add_field(&mut list, "store", StoreSpec::to_schema(), false);
        add_field(&mut list, "session", Form::Text, true);
        add_field(&mut list, "budget", BudgetOpt::to_schema(), false);
        assert(field_shapes(list@) =~= seq![may("store"@, StoreSpec::says()), need("session"@, Shape::Text), may("budget"@, BudgetOpt::says())]);
        Form::Object(list)
    }
}

/// What `s:append` records.
pub struct AppendEvent {
    pub kind: String,
    pub beat: Option<String>,
    pub meta: Option<Meta>,
    pub data: Option<Json>,
}

impl AppendEvent {
    /// What the type's schema says.
    pub open spec fn says() -> Shape {
        Shape::Object(seq![need("kind"@, Shape::Text), may("beat"@, Shape::Text), may("meta"@, Shape::Record(Box::new(Shape::Text), Box::new(MetaValue::says()))), may("data"@, Json::says())])
    }

    /// The type's schema.
    pub fn to_schema() -> (out: Form)
        ensures
            shape(out) == AppendEvent::says(),
    {
        let mut list: Vec<FormField> = Vec::new();
        add_field(&mut list, "kind", Form::Text, true);
        add_field(&mut list, "beat", Form::Text, false);
        add_field(&mut list, "meta", record_of(Form::Text, MetaValue::to_schema()), false);
        add_field(&mut list, "data", Json::to_schema(), false);
        assert(field_shapes(list@) =~= seq![need("kind"@, Shape::Text), may("beat"@, Shape::Text), may("meta"@, Shape::Record(Box::new(Shape::Text), Box::new(MetaValue::says()))), may("data"@, Json::says())]);
        Form::Object(list)
    }
}

/// An event as it comes back out.
pub struct EventRow {
    pub kind: String,
    pub seq: u64,
    pub epoch_ms: u64,
    pub _schema_version: u64,
    pub beat: Option<String>,
    pub meta: Option<Meta>,
    pub data: Json,
}

impl EventRow {
    /// What the type's schema says.
    pub open spec fn says() -> Shape {
        Shape::Object(seq![need("kind"@, Shape::Text), need("seq"@, Shape::Integer), need("epoch_ms"@, Shape::Integer), need("_schema_version"@, Shape::Integer), may("beat"@, Shape::Text), may("meta"@, Shape::Record(Box::new(Shape::Text), Box::new(MetaValue::says()))), need("data"@, Json::says())])
    }

    /// The type's schema.
    pub fn to_schema() -> (out: Form)
        ensures
            shape(out) == EventRow::says(),
    {
        let mut list: Vec<FormField> = Vec::new();
        add_field(&mut list, "kind", Form::Text, true);
        add_field(&mut list, "seq", Form::Integer, true);
        add_field(&mut list, "epoch_ms", Form::Integer, true);
        add_field(&mut list, "_schema_version", Form::Integer, true);
        add_field(&mut list, "beat", Form::Text, false);
        add_field(&mut list, "meta", record_of(Form::Text, MetaValue::to_schema()), false);
        add_field(&mut list, "data", Json::to_schema(), true);
        assert(field_shapes(list@) =~= seq![need("kind"@, Shape::Text), need("seq"@, Shape::Integer), need("epoch_ms"@, Shape::Integer), need("_schema_version"@, Shape::Integer), may("beat"@, Shape::Text), may("meta"@, Shape::Record(Box::new(Shape::Text), Box::new(MetaValue::says()))), need("data"@, Json::says())]);
        Form::Object(list)
    }
}

/// What `s:events` answers.
pub struct EventRows(pub Vec<EventRow>);

impl EventRows {
    /// What the type's schema says.
    pub open spec fn says() -> Shape {
        Shape::Array(Box::new(EventRow::says()))
    }

    /// The type's schema.
    pub fn to_schema() -> (out: Form)
        ensures
            shape(out) == EventRows::says(),
    {
        array_of(EventRow::to_schema())
    }
}

/// The values a statement binds: in order, or by name.
pub enum QueryParams {
    Positional(Vec<crate::json::Json>),
    Named(Table<crate::json::Json>),
}

impl QueryParams {
    /// What the type's schema says.
    pub open spec fn says() -> Shape {
        Shape::Union(seq![Shape::Array(Box::new(Shape::Any)), Shape::Record(Box::new(Shape::Text), Box::new(Shape::Any))])
    }

    /// The type's schema.
    pub fn to_schema() -> (out: Form)
        ensures
            shape(out) == QueryParams::says(),
    {
        let mut list: Vec<Form> = Vec::new();
        add_form(&mut list, array_of(Form::Any));
        add_form(&mut list, record_of(Form::Text, Form::Any));
        assert(shapes(list@) =~= seq![Shape::Array(Box::new(Shape::Any)), Shape::Record(Box::new(Shape::Text), Box::new(Shape::Any))]);
        Form::Union(list)
    }
}

/// What a query takes beside the statement and its values.
pub struct QueryOpts {
    /// The streams it reads.
    pub sessions: Option<Vec<String>>,
    /// How long it may run.
    pub timeout_ms: Option<u64>,
    /// How many rows it answers at most.
    pub limit: Option<u64>,
}

impl QueryOpts {
    /// What the type's schema says.
    pub open spec fn says() -> Shape {
        Shape::Object(seq![may("sessions"@, Shape::Array(Box::new(Shape::Text))), may("timeout_ms"@, Shape::Integer), may("limit"@, Shape::Integer)])
    }

    /// The type's schema.
    pub fn to_schema() -> (out: Form)
        ensures
            shape(out) == QueryOpts::says(),
    {
        let mut list: Vec<FormField> = Vec::new();
        add_field(&mut list, "sessions", array_of(Form::Text), false);
        add_field(&mut list, "timeout_ms", Form::Integer, false);
        add_field(&mut list, "limit", Form::Integer, false);
        assert(field_shapes(list@) =~= seq![may("sessions"@, Shape::Array(Box::new(Shape::Text))), may("timeout_ms"@, Shape::Integer), may("limit"@, Shape::Integer)]);
        Form::Object(list)
    }
}

/// What `s:query` answers: the rows, and whether some were cut off.
pub struct QueryResult(pub Vec<Json>, pub bool);

impl QueryResult {
    /// What the type's schema says.
    pub open spec fn says() -> Shape {
        Shape::Tuple(seq![Shape::Array(Box::new(Json::says())), Shape::Boolean])
    }

    /// The type's schema.
    pub fn to_schema() -> (out: Form)
        ensures
            shape(out) == QueryResult::says(),
    {
        let mut list: Vec<Form> = Vec::new();
        add_form(&mut list, array_of(Json::to_schema()));
        add_form(&mut list, Form::Boolean);
        assert(shapes(list@) =~= seq![Shape::Array(Box::new(Json::says())), Shape::Boolean]);
        Form::Tuple(list)
    }
}

/// A raised failure, read back.
pub struct ErrorTable {
    /// The class, where the raise carried one.
    pub kind: Option<String>,
    /// The method that raised, where the raise carried one.
    pub method: Option<String>,
    /// Whether asking again may help.
    pub retryable: bool,
    /// What went wrong.
    pub message: String,
}

impl ErrorTable {
    /// What the type's schema says.
    pub open spec fn says() -> Shape {
        Shape::Object(seq![may("kind"@, Shape::Text), may("method"@, Shape::Text), need("retryable"@, Shape::Boolean), need("message"@, Shape::Text)])
    }

    /// The type's schema.
    pub fn to_schema() -> (out: Form)
        ensures
            shape(out) == ErrorTable::says(),
    {
        let mut list: Vec<FormField> = Vec::new();
        add_field(&mut list, "kind", Form::Text, false);
        add_field(&mut list, "method", Form::Text, false);
        add_field(&mut list, "retryable", Form::Boolean, true);
        add_field(&mut list, "message", Form::Text, true);
        assert(field_shapes(list@) =~= seq![may("kind"@, Shape::Text), may("method"@, Shape::Text), need("retryable"@, Shape::Boolean), need("message"@, Shape::Text)]);
        Form::Object(list)
    }
}

/// One entry of the surface: a name and its contract in a line.
pub struct ApiEntry {
    pub name: String,
    pub doc: String,
}

impl ApiEntry {
    /// What the type's schema says.
    pub open spec fn says() -> Shape {
        Shape::Object(seq![need("name"@, Shape::Text), need("doc"@, Shape::Text)])
    }

    /// The type's schema.
    pub fn to_schema() -> (out: Form)
        ensures
            shape(out) == ApiEntry::says(),
    {
        let mut list: Vec<FormField> = Vec::new();
        add_field(&mut list, "name", Form::Text, true);
        add_field(&mut list, "doc", Form::Text, true);
        assert(field_shapes(list@) =~= seq![need("name"@, Shape::Text), need("doc"@, Shape::Text)]);
        Form::Object(list)
    }
}

/// One column of the table a query reads.
pub struct ApiColumn {
    pub name: String,
    pub declared_type: String,
    /// Whether it is part of the primary key.
    pub pk: bool,
}

impl ApiColumn {
    /// What the type's schema says.
    pub open spec fn says() -> Shape {
        Shape::Object(seq![need("name"@, Shape::Text), need("type"@, Shape::Text), need("pk"@, Shape::Boolean)])
    }

    /// The type's schema.
    pub fn to_schema() -> (out: Form)
        ensures
            shape(out) == ApiColumn::says(),
    {
        let mut list: Vec<FormField> = Vec::new();
        add_field(&mut list, "name", Form::Text, true);
        add_field(&mut list, "type", Form::Text, true);
        add_field(&mut list, "pk", Form::Boolean, true);
        assert(field_shapes(list@) =~= seq![need("name"@, Shape::Text), need("type"@, Shape::Text), need("pk"@, Shape::Boolean)]);
        Form::Object(list)
    }
}

/// The table a query reads.
pub struct ApiSchema {
    pub table: String,
    pub columns: Vec<ApiColumn>,
}

impl ApiSchema {
    /// What the type's schema says.
    pub open spec fn says() -> Shape {
        Shape::Object(seq![need("table"@, Shape::Text), need("columns"@, Shape::Array(Box::new(ApiColumn::says())))])
    }

    /// The type's schema.
    pub fn to_schema() -> (out: Form)
        ensures
            shape(out) == ApiSchema::says(),
    {
        let mut list: Vec<FormField> = Vec::new();
        add_field(&mut list, "table", Form::Text, true);
        add_field(&mut list, "columns", array_of(ApiColumn::to_schema()), true);
        assert(field_shapes(list@) =~= seq![need("table"@, Shape::Text), need("columns"@, Shape::Array(Box::new(ApiColumn::says())))]);
        Form::Object(list)
    }
}

/// The names of the fields the kernel's own events have.
pub struct ApiFields {
    pub amount: String,
    pub tag: String,
    pub desc: String,
    pub remaining: String,
    pub scope_id: String,
    pub owner: String,
    pub parent: String,
    pub child: String,
    pub reason: String,
    pub detail: String,
    pub open_children: String,
}

impl ApiFields {
    /// What the type's schema says.
    pub open spec fn says() -> Shape {
        Shape::Object(seq![need("amount"@, Shape::Text), need("tag"@, Shape::Text), need("desc"@, Shape::Text), need("remaining"@, Shape::Text), need("scope_id"@, Shape::Text), need("owner"@, Shape::Text), need("parent"@, Shape::Text), need("child"@, Shape::Text), need("reason"@, Shape::Text), need("detail"@, Shape::Text), need("open_children"@, Shape::Text)])
    }

    /// The type's schema.
    pub fn to_schema() -> (out: Form)
        ensures
            shape(out) == ApiFields::says(),
    {
        let mut list: Vec<FormField> = Vec::new();
        add_field(&mut list, "amount", Form::Text, true);
        add_field(&mut list, "tag", Form::Text, true);
        add_field(&mut list, "desc", Form::Text, true);
        add_field(&mut list, "remaining", Form::Text, true);
        add_field(&mut list, "scope_id", Form::Text, true);
        add_field(&mut list, "owner", Form::Text, true);
        add_field(&mut list, "parent", Form::Text, true);
        add_field(&mut list, "child", Form::Text, true);
        add_field(&mut list, "reason", Form::Text, true);
        add_field(&mut list, "detail", Form::Text, true);
        add_field(&mut list, "open_children", Form::Text, true);
        assert(field_shapes(list@) =~= seq![need("amount"@, Shape::Text), need("tag"@, Shape::Text), need("desc"@, Shape::Text), need("remaining"@, Shape::Text), need("scope_id"@, Shape::Text), need("owner"@, Shape::Text), need("parent"@, Shape::Text), need("child"@, Shape::Text), need("reason"@, Shape::Text), need("detail"@, Shape::Text), need("open_children"@, Shape::Text)]);
        Form::Object(list)
    }
}

/// What `knl.api` answers.
pub struct ApiReport {
    pub session: Vec<ApiEntry>,
    pub module: Vec<ApiEntry>,
    pub errors: Vec<String>,
    pub schema: ApiSchema,
    pub fields: ApiFields,
    pub types: String,
}

impl ApiReport {
    /// What the type's schema says.
    pub open spec fn says() -> Shape {
        Shape::Object(seq![need("session"@, Shape::Array(Box::new(ApiEntry::says()))), need("module"@, Shape::Array(Box::new(ApiEntry::says()))), need("errors"@, Shape::Array(Box::new(Shape::Text))), need("schema"@, ApiSchema::says()), need("fields"@, ApiFields::says()), need("types"@, Shape::Text)])
    }

    /// The type's schema.
    pub fn to_schema() -> (out: Form)
        ensures
            shape(out) == ApiReport::says(),
    {
        let mut list: Vec<FormField> = Vec::new();
        add_field(&mut list, "session", array_of(ApiEntry::to_schema()), true);
        add_field(&mut list, "module", array_of(ApiEntry::to_schema()), true);
        add_field(&mut list, "errors", array_of(Form::Text), true);
        add_field(&mut list, "schema", ApiSchema::to_schema(), true);
        add_field(&mut list, "fields", ApiFields::to_schema(), true);
        add_field(&mut list, "types", Form::Text, true);
        assert(field_shapes(list@) =~= seq![need("session"@, Shape::Array(Box::new(ApiEntry::says()))), need("module"@, Shape::Array(Box::new(ApiEntry::says()))), need("errors"@, Shape::Array(Box::new(Shape::Text))), need("schema"@, ApiSchema::says()), need("fields"@, ApiFields::says()), need("types"@, Shape::Text)]);
        Form::Object(list)
    }
}

/// What the declared types say, under the names Lua sees.
pub open spec fn surface() -> Seq<DeclaredShape> {
    seq![
        entry("SessionId"@, SessionId::says(), Strict::Open),
        entry("ScopeId"@, ScopeId::says(), Strict::Open),
        entry("Owner"@, Owner::says(), Strict::Open),
        entry("BeatId"@, BeatId::says(), Strict::Open),
        entry("Seq"@, SeqNo::says(), Strict::Open),
        entry("Count"@, Count::says(), Strict::Open),
        entry("Amount"@, Amount::says(), Strict::Open),
        entry("Remaining"@, Remaining::says(), Strict::Open),
        entry("Exhausted"@, Exhausted::says(), Strict::Open),
        entry("Sql"@, Sql::says(), Strict::Open),
        entry("CloseReason"@, CloseReason::says(), Strict::Open),
        entry("CloseDetail"@, CloseDetail::says(), Strict::Open),
        entry("Raised"@, Raised::says(), Strict::Open),
        entry("ViewName"@, ViewName::says(), Strict::Open),
        entry("ViewOpts"@, ViewOpts::says(), Strict::Closed),
        entry("OpenOpts"@, OpenOpts::says(), Strict::Open),
        entry("ResumeOpts"@, ResumeOpts::says(), Strict::Open),
        entry("AppendEvent"@, AppendEvent::says(), Strict::Open),
        entry("EventRows"@, EventRows::says(), Strict::Open),
        entry("QueryParams"@, QueryParams::says(), Strict::Open),
        entry("QueryOpts"@, QueryOpts::says(), Strict::Closed),
        entry("QueryResult"@, QueryResult::says(), Strict::Open),
        entry("ErrorTable"@, ErrorTable::says(), Strict::Open),
        entry("ApiReport"@, ApiReport::says(), Strict::Open),
    ]
}

fn declare_type(list: &mut Vec<Declared>, name: &'static str, schema: Form, strict: Strict)
    ensures
        declared_shapes(final(list)@) == declared_shapes(old(list)@).push(
            entry(name@, shape(schema), strict),
        ),
{
    let ghost before = list@;
    list.push(Declared { name, schema, strict });
    assert(declared_shapes(list@) =~= declared_shapes(before).push(
        entry(name@, shape(schema), strict),
    ));
}

/// Every type the surface is declared in, with the name Lua sees.
pub fn declared() -> (out: Vec<Declared>)
    ensures
        declared_shapes(out@) == surface(),
{
    let mut out: Vec<Declared> = Vec::new();
    declare_type(&mut out, "SessionId", SessionId::to_schema(), Strict::Open);
    declare_type(&mut out, "ScopeId", ScopeId::to_schema(), Strict::Open);
    declare_type(&mut out, "Owner", Owner::to_schema(), Strict::Open);
    declare_type(&mut out, "BeatId", BeatId::to_schema(), Strict::Open);
    declare_type(&mut out, "Seq", SeqNo::to_schema(), Strict::Open);
    declare_type(&mut out, "Count", Count::to_schema(), Strict::Open);
    declare_type(&mut out, "Amount", Amount::to_schema(), Strict::Open);
    declare_type(&mut out, "Remaining", Remaining::to_schema(), Strict::Open);
    declare_type(&mut out, "Exhausted", Exhausted::to_schema(), Strict::Open);
    declare_type(&mut out, "Sql", Sql::to_schema(), Strict::Open);
    declare_type(&mut out, "CloseReason", CloseReason::to_schema(), Strict::Open);
    declare_type(&mut out, "CloseDetail", CloseDetail::to_schema(), Strict::Open);
    declare_type(&mut out, "Raised", Raised::to_schema(), Strict::Open);
    declare_type(&mut out, "ViewName", ViewName::to_schema(), Strict::Open);
    declare_type(&mut out, "ViewOpts", ViewOpts::to_schema(), Strict::Closed);
    declare_type(&mut out, "OpenOpts", OpenOpts::to_schema(), Strict::Open);
    declare_type(&mut out, "ResumeOpts", ResumeOpts::to_schema(), Strict::Open);
    declare_type(&mut out, "AppendEvent", AppendEvent::to_schema(), Strict::Open);
    declare_type(&mut out, "EventRows", EventRows::to_schema(), Strict::Open);
    declare_type(&mut out, "QueryParams", QueryParams::to_schema(), Strict::Open);
    declare_type(&mut out, "QueryOpts", QueryOpts::to_schema(), Strict::Closed);
    declare_type(&mut out, "QueryResult", QueryResult::to_schema(), Strict::Open);
    declare_type(&mut out, "ErrorTable", ErrorTable::to_schema(), Strict::Open);
    declare_type(&mut out, "ApiReport", ApiReport::to_schema(), Strict::Open);
    assert(declared_shapes(out@) =~= surface());
    out
}

/// Every declared type can be written down.
proof fn lemma_surface_is_writable()
    ensures
        forall|i: int| 0 <= i < surface().len() ==> writable(#[trigger] surface()[i]),
{
    reveal_with_fuel(mappable, 6);
    assert(mappable(BudgetOpt::says())) by {
        let list = BudgetOpt::says()->Union_0;
        assert(!(list[0] is Null));
    }
    assert(mappable(StoreSpec::says())) by {
        let list = StoreSpec::says()->Union_0;
        assert(!(list[0] is Null));
    }
    assert(mappable(MetaValue::says())) by {
        let list = MetaValue::says()->Union_0;
        assert(!(list[0] is Null));
    }
    assert(mappable(QueryParams::says())) by {
        let list = QueryParams::says()->Union_0;
        assert(!(list[0] is Null));
    }
    assert(mappable(Remaining::says())) by {
        let list = Remaining::says()->Union_0;
        assert(!(list[0] is Null));
    }
    assert(mappable(ApiReport::says()));
    assert(mappable(EventRows::says()));
    assert(mappable(AppendEvent::says()));
    assert(mappable(OpenOpts::says()));
    assert(mappable(ResumeOpts::says()));
    assert(mappable(QueryResult::says()));
    assert(mappable(QueryOpts::says()));
    assert(mappable(ViewOpts::says()));
    assert(mappable(ErrorTable::says()));
    assert forall|i: int| 0 <= i < surface().len() implies writable(#[trigger] surface()[i]) by {}
}

/// The `knl_types` module, as source text.
pub fn lshape_module_source() -> (out: String)
    ensures
        out@ == module_text(surface()),
{
    let list = declared();
    proof {
        lemma_surface_is_writable();
    }
    write_module(list.as_slice())
}

// ── laws ─────────────────────────────────────────────────────────────

/// What a call takes in a table: every field has its name, and only what the
/// call cannot do without is required.
pub proof fn law_a_call_requires_only_what_it_needs(f: FieldShape)
    ensures
        OpenOpts::says()->Object_0.contains(f) ==> !f.required && (f.name == "owner"@ || f.name
            == "budget"@ || f.name == "store"@ || f.name == "parent"@),
        ResumeOpts::says()->Object_0.contains(f) ==> (f.required <==> f.name == "session"@) && (
        f.name == "store"@ || f.name == "session"@ || f.name == "budget"@),
        AppendEvent::says()->Object_0.contains(f) ==> (f.required <==> f.name == "kind"@) && (f.name
            == "kind"@ || f.name == "beat"@ || f.name == "meta"@ || f.name == "data"@),
        QueryOpts::says()->Object_0.contains(f) ==> !f.required && (f.name == "sessions"@ || f.name
            == "timeout_ms"@ || f.name == "limit"@),
        ViewOpts::says()->Object_0.contains(f) ==> !f.required && f.name == "n"@,
        BudgetGrant::says()->Object_0.contains(f) ==> (f.required <==> f.name == "amount"@),
        BudgetAllocation::says()->Object_0.contains(f) ==> (f.required <==> f.name
            == "from_parent"@),
{
    reveal_strlit("store");
    reveal_strlit("session");
    reveal_strlit("budget");
    reveal_strlit("kind");
    reveal_strlit("beat");
    reveal_strlit("meta");
    reveal_strlit("data");
    reveal_strlit("amount");
    reveal_strlit("tag");
    reveal_strlit("desc");
    reveal_strlit("from_parent");
    assert("store"@.len() == 5 && "session"@.len() == 7 && "budget"@.len() == 6);
    assert("kind"@[0] == 'k' && "beat"@[0] == 'b' && "meta"@[0] == 'm' && "data"@[0] == 'd');
    assert("amount"@.len() == 6 && "tag"@.len() == 3 && "desc"@.len() == 4 && "from_parent"@.len()
        == 11);
}

/// The options of a query and of a view refuse a key they do not name; every
/// other type lets it through.
pub proof fn law_only_the_options_of_a_read_are_closed(i: int)
    requires
        0 <= i < surface().len(),
    ensures
        surface()[i].strict is Closed <==> surface()[i].name == "ViewOpts"@ || surface()[i].name
            == "QueryOpts"@,
        surface()[i].name == "ViewOpts"@ ==> surface()[i].shape == ViewOpts::says(),
        surface()[i].name == "QueryOpts"@ ==> surface()[i].shape == QueryOpts::says(),
{
    reveal_strlit("SessionId");
    reveal_strlit("ScopeId");
    reveal_strlit("Owner");
    reveal_strlit("BeatId");
    reveal_strlit("Seq");
    reveal_strlit("Count");
    reveal_strlit("Amount");
    reveal_strlit("Remaining");
    reveal_strlit("Exhausted");
    reveal_strlit("Sql");
    reveal_strlit("CloseReason");
    reveal_strlit("CloseDetail");
    reveal_strlit("Raised");
    reveal_strlit("ViewName");
    reveal_strlit("ViewOpts");
    reveal_strlit("OpenOpts");
    reveal_strlit("ResumeOpts");
    reveal_strlit("AppendEvent");
    reveal_strlit("EventRows");
    reveal_strlit("QueryParams");
    reveal_strlit("QueryOpts");
    reveal_strlit("QueryResult");
    reveal_strlit("ErrorTable");
    reveal_strlit("ApiReport");
    assert("ViewOpts"@[0] == 'V' && "ViewOpts"@[4] == 'O');
    assert("ViewName"@[4] == 'N');
    assert("QueryOpts"@[0] == 'Q' && "QueryOpts"@.len() == 9);
    assert("QueryParams"@.len() == 11 && "QueryResult"@.len() == 11);
    let name = surface()[i].name;
    assert(name[0] == 'V' || name[0] == 'Q' ==> i == 13 || i == 14 || i == 19 || i == 20 || i
        == 21);
}

/// Whether the surface declares this type under this name.
pub open spec fn declares(name: Seq<char>, says: Shape) -> bool {
    exists|i: int|
        0 <= i < surface().len() && (#[trigger] surface()[i]).name == name && surface()[i].shape
            == says
}

/// Every type of an argument and of an answer is declared under its name.
pub proof fn law_every_type_is_on_the_surface()
    ensures
        declares("SessionId"@, SessionId::says()),
        declares("ScopeId"@, ScopeId::says()),
        declares("Owner"@, Owner::says()),
        declares("BeatId"@, BeatId::says()),
        declares("Seq"@, SeqNo::says()),
        declares("Count"@, Count::says()),
        declares("Amount"@, Amount::says()),
        declares("Remaining"@, Remaining::says()),
        declares("Exhausted"@, Exhausted::says()),
        declares("Sql"@, Sql::says()),
        declares("CloseReason"@, CloseReason::says()),
        declares("CloseDetail"@, CloseDetail::says()),
        declares("Raised"@, Raised::says()),
        declares("ViewName"@, ViewName::says()),
        declares("ViewOpts"@, ViewOpts::says()),
        declares("OpenOpts"@, OpenOpts::says()),
        declares("ResumeOpts"@, ResumeOpts::says()),
        declares("AppendEvent"@, AppendEvent::says()),
        declares("EventRows"@, EventRows::says()),
        declares("QueryParams"@, QueryParams::says()),
        declares("QueryOpts"@, QueryOpts::says()),
        declares("QueryResult"@, QueryResult::says()),
        declares("ErrorTable"@, ErrorTable::says()),
        declares("ApiReport"@, ApiReport::says()),
{
    assert(surface()[0].name == "SessionId"@);
    assert(surface()[1].name == "ScopeId"@);
    assert(surface()[2].name == "Owner"@);
    assert(surface()[3].name == "BeatId"@);
    assert(surface()[4].name == "Seq"@);
    assert(surface()[5].name == "Count"@);
    assert(surface()[6].name == "Amount"@);
    assert(surface()[7].name == "Remaining"@);
    assert(surface()[8].name == "Exhausted"@);
    assert(surface()[9].name == "Sql"@);
    assert(surface()[10].name == "CloseReason"@);
    assert(surface()[11].name == "CloseDetail"@);
    assert(surface()[12].name == "Raised"@);
    assert(surface()[13].name == "ViewName"@);
    assert(surface()[14].name == "ViewOpts"@);
    assert(surface()[15].name == "OpenOpts"@);
    assert(surface()[16].name == "ResumeOpts"@);
    assert(surface()[17].name == "AppendEvent"@);
    assert(surface()[18].name == "EventRows"@);
    assert(surface()[19].name == "QueryParams"@);
    assert(surface()[20].name == "QueryOpts"@);
    assert(surface()[21].name == "QueryResult"@);
    assert(surface()[22].name == "ErrorTable"@);
    assert(surface()[23].name == "ApiReport"@);
}

/// What a call answers: the names and numbers are plain, a balance may be none, a
/// query gives its rows and whether there were more, and of a row and of a
/// failure only what may be missing is optional.
pub proof fn law_what_a_call_answers(f: FieldShape)
    ensures
        SessionId::says() is Text && ScopeId::says() is Text && Owner::says() is Text
            && BeatId::says() is Text,
        SeqNo::says() is Integer && Count::says() is Integer && Amount::says() is Integer,
        Exhausted::says() is Boolean,
        Remaining::says() == Shape::Union(seq![Shape::Integer, Shape::Null]),
        QueryResult::says() == Shape::Tuple(
            seq![Shape::Array(Box::new(Shape::Any)), Shape::Boolean],
        ),
        EventRows::says() == Shape::Array(Box::new(EventRow::says())),
        EventRow::says()->Object_0.contains(f) ==> (!f.required <==> f.name == "beat"@ || f.name
            == "meta"@),
        ErrorTable::says()->Object_0.contains(f) ==> (!f.required <==> f.name == "kind"@ || f.name
            == "method"@),
{
    reveal_strlit("kind");
    reveal_strlit("seq");
    reveal_strlit("epoch_ms");
    reveal_strlit("_schema_version");
    reveal_strlit("beat");
    reveal_strlit("meta");
    reveal_strlit("data");
    reveal_strlit("method");
    reveal_strlit("retryable");
    reveal_strlit("message");
    assert("kind"@[0] == 'k' && "seq"@[0] == 's' && "epoch_ms"@[0] == 'e' && "_schema_version"@[0]
        == '_' && "beat"@[0] == 'b' && "meta"@[0] == 'm' && "data"@[0] == 'd' && "retryable"@[0]
        == 'r');
    assert("method"@.len() == 6 && "message"@.len() == 7 && "kind"@.len() == 4);
}

} // verus!
