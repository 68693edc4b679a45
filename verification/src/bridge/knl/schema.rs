//! Schemas of the values the kernel's calls take and answer, and how they are
//! written in Lua.

use vstd::prelude::*;

use crate::text::{chars_of, string_of};
use schema_bridge::Schema as Bridged;

verus! {

broadcast use vstd::string::group_string_axioms;

/// A schema.
pub enum Form {
    Text,
    Number,
    Integer,
    Boolean,
    Null,
    Any,
    Array(Box<Form>),
    Object(Vec<FormField>),
    Enum(Vec<String>),
    Union(Vec<Form>),
    Tuple(Vec<Form>),
    Record(Box<Form>, Box<Form>),
}

/// A field of an object.
pub struct FormField {
    pub name: String,
    pub schema: Form,
    pub required: bool,
}

/// What a schema says.
pub enum Shape {
    Text,
    Number,
    Integer,
    Boolean,
    Null,
    Any,
    Array(Box<Shape>),
    Object(Seq<FieldShape>),
    Enum(Seq<Seq<char>>),
    Union(Seq<Shape>),
    Tuple(Seq<Shape>),
    Record(Box<Shape>, Box<Shape>),
}

/// What a field of an object says.
pub struct FieldShape {
    pub name: Seq<char>,
    pub shape: Shape,
    pub required: bool,
}

/// What a schema says.
pub open spec fn shape(s: Form) -> Shape
    decreases s,
{
    match s {
        Form::Text => Shape::Text,
        Form::Number => Shape::Number,
        Form::Integer => Shape::Integer,
        Form::Boolean => Shape::Boolean,
        Form::Null => Shape::Null,
        Form::Any => Shape::Any,
        Form::Array(item) => Shape::Array(Box::new(shape(*item))),
        Form::Object(fields) => Shape::Object(field_shapes(fields@)),
        Form::Enum(words) => Shape::Enum(crate::text::views(words@)),
        Form::Union(list) => Shape::Union(shapes(list@)),
        Form::Tuple(list) => Shape::Tuple(shapes(list@)),
        Form::Record(key, value) => Shape::Record(Box::new(shape(*key)), Box::new(shape(*value))),
    }
}

/// What the schemas of a list say.
pub open spec fn shapes(list: Seq<Form>) -> Seq<Shape>
    decreases list,
{
    if list.len() == 0 {
        Seq::empty()
    } else {
        shapes(list.drop_last()).push(shape(list.last()))
    }
}

/// What a field says.
pub open spec fn field_shape(f: FormField) -> FieldShape
    decreases f,
{
    FieldShape { name: f.name@, shape: shape(f.schema), required: f.required }
}

/// What the fields of a list say.
pub open spec fn field_shapes(list: Seq<FormField>) -> Seq<FieldShape>
    decreases list,
{
    if list.len() == 0 {
        Seq::empty()
    } else {
        field_shapes(list.drop_last()).push(field_shape(list.last()))
    }
}

/// Whether a schema can be written in Lua: nothing is `Null` but a variant
/// beside another one, and no tuple is empty.
pub open spec fn mappable(s: Shape) -> bool
    decreases s,
{
    match s {
        Shape::Null => false,
        Shape::Array(item) => mappable(*item),
        Shape::Record(key, value) => mappable(*key) && mappable(*value),
        Shape::Union(list) => {
            &&& exists|i: int| 0 <= i < list.len() && !((#[trigger] list[i]) is Null)
            &&& forall|i: int|
                0 <= i < list.len() ==> (#[trigger] list[i]) is Null || mappable(list[i])
        },
        Shape::Tuple(list) => {
            &&& list.len() > 0
            &&& forall|i: int| 0 <= i < list.len() ==> mappable(#[trigger] list[i])
        },
        Shape::Object(fields) => forall|i: int|
            0 <= i < fields.len() ==> mappable((#[trigger] fields[i]).shape),
        _ => true,
    }
}

/// Whether `s` ends with `tail`.
pub open spec fn ends_with(s: Seq<char>, tail: Seq<char>) -> bool {
    s.len() >= tail.len() && s.skip(s.len() - tail.len()) == tail
}

/// A schema of the crate that writes them in Lua.
#[verifier::external_type_specification]
#[verifier::external_body]
pub struct ExBridged(schema_bridge::Schema);

/// A field of the crate that writes schemas in Lua.
#[verifier::external_type_specification]
#[verifier::external_body]
pub struct ExBridgedField(schema_bridge::Field);

/// The same schema as a `schema_bridge::Schema`, variant for variant.  Nothing
/// is claimed of the value; what [`lshape`] makes of it is.
#[verifier::external_body]
fn bridged(schema: &Form) -> schema_bridge::Schema {
    match schema {
        Form::Text => Bridged::String,
        Form::Number => Bridged::Number,
        Form::Integer => Bridged::Integer,
        Form::Boolean => Bridged::Boolean,
        Form::Null => Bridged::Null,
        Form::Any => Bridged::Any,
        Form::Array(s) => Bridged::Array(bridged(s).into()),
        Form::Object(f) => Bridged::Object(bridged_fields(f)),
        Form::Enum(v) => Bridged::Enum(v.clone()),
        Form::Union(v) => Bridged::Union(v.iter().map(bridged).collect()),
        Form::Tuple(v) => Bridged::Tuple(v.iter().map(bridged).collect()),
        Form::Record(k, v) => Bridged::Record { key: bridged(k).into(), value: bridged(v).into() },
    }
}

/// The same fields, each as a `schema_bridge::Field` without constraints.
/// Nothing is claimed of the values; what [`lshape`] makes of them is.
#[verifier::external_body]
fn bridged_fields(fields: &Vec<FormField>) -> Vec<schema_bridge::Field> {
    fields.iter().map(
        |f| schema_bridge::Field {
            name: f.name.clone(),
            schema: bridged(&f.schema),
            required: f.required,
            constraints: Default::default(),
        },
    ).collect()
}

/// The Lua expression `schema_bridge_lshape::schema_to_lshape` writes for a
/// schema, where it writes one.
pub uninterp spec fn lshape_text(s: Shape) -> Option<Seq<char>>;

/// `schema_bridge_lshape::schema_to_lshape` on a schema: the Lua expression it
/// writes, which depends on nothing but what the schema says.  It fails only
/// where something is `Null` on its own, a union has no other variant or a
/// tuple is empty, and what it writes for an object ends with `})`.
#[verifier::external_body]
fn lshape(schema: &Form) -> (out: Option<String>)
    ensures
        match out {
            Some(t) => lshape_text(shape(*schema)) == Some(t@),
            None => lshape_text(shape(*schema)) is None,
        },
        mappable(shape(*schema)) ==> out is Some,
        shape(*schema) is Object ==> (out matches Some(t) ==> ends_with(t@, "})"@)),
{
    schema_bridge_lshape::schema_to_lshape(&bridged(schema)).ok()
}

/// A text as Rust's `Debug` writes it: in double quotes, with what needs it
/// escaped.
pub uninterp spec fn quoted(s: Seq<char>) -> Seq<char>;

/// `<str as std::fmt::Debug>::fmt` through `format!`: the text in double
/// quotes, escaped, which depends on the text alone.
#[verifier::external_body]
pub(crate) fn quote(s: &str) -> (out: String)
    ensures
        out@ == quoted(s@),
{
    format!("{s:?}")
}

// ── a module of declarations ─────────────────────────────────────────

/// Whether a key a table does not name is let through or not.
#[derive(Debug, Clone, Copy, PartialEq, Eq, Structural)]
pub enum Strict {
    /// It is let through.
    Open,
    /// It is a violation.
    Closed,
}

/// Whether an expression is a bare word of the combinators: `T.` and lower
/// case letters.
pub open spec fn is_bare(body: Seq<char>) -> bool {
    &&& body.len() > 2
    &&& body[0] == 'T'
    &&& body[1] == '.'
    &&& forall|i: int| 2 <= i < body.len() ==> 'a' <= #[trigger] body[i] <= 'z'
}

/// An expression under a name of its own, where the name is quoted already: a
/// bare word is given the name back, anything else is a value of its own.
pub open spec fn described(quoted_name: Seq<char>, body: Seq<char>) -> Seq<char> {
    if is_bare(body) {
        body + ":describe("@ + quoted_name + ")"@
    } else {
        body
    }
}

/// An expression under a name of its own, where the name is quoted already.
pub fn describe(quoted_name: &str, body: String) -> (out: String)
    ensures
        out@ == described(quoted_name@, body@),
{
    let chars = chars_of(body.as_str());
    let n: usize = chars.len();
    if n <= 2 || chars[0] != 'T' || chars[1] != '.' {
        return body;
    }
    let mut i: usize = 2;
    while i < n
        invariant
            2 <= i <= n,
            n == chars@.len(),
            chars@ == body@,
            forall|j: int| 2 <= j < i ==> 'a' <= #[trigger] chars@[j] <= 'z',
        decreases n - i,
    {
        let c: char = chars[i];
        if !('a' <= c && c <= 'z') {
            assert(!('a' <= body@[i as int] <= 'z'));
            return body;
        }
        i += 1;
    }
    let mut out = body;
    out.append(":describe(");
    out.append(quoted_name);
    out.append(")");
    out
}

/// An expression under a name of its own.
pub fn named_scalar(name: &str, body: String) -> (out: String)
    ensures
        out@ == described(quoted(name@), body@),
{
    describe(quote(name).as_str(), body)
}

/// An object's expression with stray keys refused.
pub open spec fn closed(body: Seq<char>) -> Seq<char> {
    body.take(body.len() - 2) + "}, { open = false })"@
}

/// An object's expression with stray keys refused.
pub fn close_shape(body: String) -> (out: String)
    requires
        ends_with(body@, "})"@),
    ensures
        out@ == closed(body@),
{
    proof {
        reveal_strlit("})");
    }
    let chars = chars_of(body.as_str());
    let n: usize = chars.len();
    let mut out = string_of(chars.as_slice(), 0, n - 2);
    assert(chars@.subrange(0, n - 2) =~= body@.take(body@.len() - 2));
    out.append("}, { open = false })");
    out
}

/// One declaration of the module.
pub open spec fn declaration(name: Seq<char>, body: Seq<char>, strict: Strict) -> Seq<char> {
    let b = match strict {
        Strict::Open => body,
        Strict::Closed => closed(body),
    };
    "M."@ + name + " = "@ + described(quoted(name), b) + "\n\n"@
}

/// One declaration of the module.
pub fn declare(name: &str, body: String, strict: Strict) -> (out: String)
    requires
        strict is Closed ==> ends_with(body@, "})"@),
    ensures
        out@ == declaration(name@, body@, strict),
{
    let body = match strict {
        Strict::Open => body,
        Strict::Closed => close_shape(body),
    };
    let mut out = "M.".to_owned();
    out.append(name);
    out.append(" = ");
    out.append(named_scalar(name, body).as_str());
    out.append("\n\n");
    out
}

/// A declared type: its name, its schema, and whether it is closed.
pub struct Declared {
    pub name: &'static str,
    pub schema: Form,
    pub strict: Strict,
}

/// What a declared type says.
pub struct DeclaredShape {
    pub name: Seq<char>,
    pub shape: Shape,
    pub strict: Strict,
}

/// What a declared type says.
pub open spec fn declared_shape(d: Declared) -> DeclaredShape {
    DeclaredShape { name: d.name@, shape: shape(d.schema), strict: d.strict }
}

/// What a list of declared types says.
pub open spec fn declared_shapes(list: Seq<Declared>) -> Seq<DeclaredShape> {
    list.map_values(|d: Declared| declared_shape(d))
}

/// Whether a declared type can be written down: its schema can, and where it
/// is closed it is an object.
pub open spec fn writable(d: DeclaredShape) -> bool {
    mappable(d.shape) && (d.strict is Closed ==> d.shape is Object)
}

/// The declarations of a list of types, one after the other.
pub open spec fn declarations(list: Seq<DeclaredShape>) -> Seq<char>
    decreases list.len(),
{
    if list.len() == 0 {
        Seq::empty()
    } else {
        declarations(list.drop_last()) + declaration(
            list.last().name,
            lshape_text(list.last().shape)->0,
            list.last().strict,
        )
    }
}

/// How the module begins.
pub open spec fn module_head() -> Seq<char> {
    "-- Generated at host start by agent-block-core from the argument and\n-- return types of `bridge/knl.rs` (schema-bridge -> lshape). Not a file\n-- in the tree: there is nothing here to edit, and so nothing to drift.\nlocal T = require(\"lshape\").t\n\nlocal M = {}\n\n"@
}

/// The module that declares a list of types.
pub open spec fn module_text(list: Seq<DeclaredShape>) -> Seq<char> {
    module_head() + declarations(list) + "return M\n"@
}

/// The module that declares a list of types.
pub fn write_module(list: &[Declared]) -> (out: String)
    requires
        forall|i: int|
            0 <= i < list@.len() ==> writable(#[trigger] declared_shapes(list@)[i]),
    ensures
        out@ == module_text(declared_shapes(list@)),
{
    let mut out =
        "-- Generated at host start by agent-block-core from the argument and\n-- return types of `bridge/knl.rs` (schema-bridge -> lshape). Not a file\n-- in the tree: there is nothing here to edit, and so nothing to drift.\nlocal T = require(\"lshape\").t\n\nlocal M = {}\n\n".to_owned();
    let mut i: usize = 0;
    proof {
        assert(declared_shapes(list@).take(0) =~= Seq::<DeclaredShape>::empty());
        assert(out@ =~= module_head() + declarations(declared_shapes(list@).take(0)));
    }
    while i < list.len()
        invariant
            i <= list@.len(),
            forall|i: int|
                0 <= i < list@.len() ==> writable(#[trigger] declared_shapes(list@)[i]),
            out@ == module_head() + declarations(declared_shapes(list@).take(i as int)),
        decreases list@.len() - i,
    {
        let d = &list[i];
        let ghost all = declared_shapes(list@);
        assert(writable(all[i as int]));
        assert(all[i as int] == declared_shape(*d));
        let body = lshape(&d.schema);
        if let Some(b) = body {
            out.append(declare(d.name, b, d.strict).as_str());
        }
        proof {
            let now = all.take(i + 1);
            assert(now.drop_last() =~= all.take(i as int));
            assert(now.last() == all[i as int]);
            assert(out@ =~= module_head() + declarations(now));
        }
        i += 1;
    }
    assert(declared_shapes(list@).take(list@.len() as int) =~= declared_shapes(list@));
    out.append("return M\n");
    out
}

// ── laws ─────────────────────────────────────────────────────────────

/// The fields of an object keep their order, and each its name, its type and
/// whether it can be left out.
pub proof fn law_a_schema_says_its_fields(list: Seq<FormField>, i: int)
    requires
        0 <= i < list.len(),
    ensures
        field_shapes(list).len() == list.len(),
        field_shapes(list)[i].name == list[i].name@,
        field_shapes(list)[i].required == list[i].required,
        field_shapes(list)[i].shape == shape(list[i].schema),
    decreases list.len(),
{
    reveal_with_fuel(field_shape, 2);
    assert(field_shapes(list) == field_shapes(list.drop_last()).push(field_shape(list.last())));
    if i < list.len() - 1 {
        law_a_schema_says_its_fields(list.drop_last(), i);
    } else if list.len() > 1 {
        law_a_schema_says_its_fields(list.drop_last(), 0);
    } else {
        assert(list.drop_last().len() == 0);
        assert(field_shapes(list.drop_last()).len() == 0);
    }
}

/// The variants of a union and the places of a tuple keep their order.
pub proof fn law_a_schema_says_its_variants(list: Seq<Form>, i: int)
    requires
        0 <= i < list.len(),
    ensures
        shapes(list).len() == list.len(),
        shapes(list)[i] == shape(list[i]),
    decreases list.len(),
{
    if i < list.len() - 1 {
        law_a_schema_says_its_variants(list.drop_last(), i);
    } else if list.len() > 1 {
        law_a_schema_says_its_variants(list.drop_last(), 0);
    } else {
        assert(list.drop_last().len() == 0);
        assert(shapes(list.drop_last()).len() == 0);
    }
}

/// An object is closed by what is put behind its last brace, and nothing else of
/// it changes.
pub proof fn law_a_closed_object_keeps_its_fields(fields: Seq<char>)
    ensures
        closed(fields + "})"@) == fields + "}, { open = false })"@,
{
    reveal_strlit("})");
    let body = fields + "})"@;
    assert(body.take(body.len() - 2) =~= fields);
}

/// A bare word is given its name, and an expression with arguments is left as it
/// is.
pub proof fn law_a_bare_word_is_given_its_name(name: Seq<char>, word: Seq<char>, call: Seq<char>)
    requires
        word.len() > 0,
        forall|i: int| 0 <= i < word.len() ==> 'a' <= #[trigger] word[i] <= 'z',
        call.len() > 0,
        call.last() == ')',
    ensures
        described(name, seq!['T', '.'] + word) == seq!['T', '.'] + word + ":describe("@ + name + ")"@,
        described(name, call) == call,
{
    reveal_strlit(":describe(");
    reveal_strlit(")");
    let body = seq!['T', '.'] + word;
    assert forall|i: int| 2 <= i < body.len() implies 'a' <= #[trigger] body[i] <= 'z' by {
        assert(body[i] == word[i - 2]);
    }
    if is_bare(call) {
        assert('a' <= call[call.len() - 1] <= 'z');
    }
}

/// A module declares its types one after the other, each under its name, an open
/// one as it is written and a closed one with stray keys refused.
pub proof fn law_every_type_is_declared(list: Seq<DeclaredShape>, d: DeclaredShape)
    ensures
        declarations(Seq::<DeclaredShape>::empty()) == Seq::<char>::empty(),
        declarations(list.push(d)) == declarations(list) + "M."@ + d.name + " = "@ + described(
            quoted(d.name),
            match d.strict {
                Strict::Open => lshape_text(d.shape)->0,
                Strict::Closed => closed(lshape_text(d.shape)->0),
            },
        ) + "\n\n"@,
{
    let all = list.push(d);
    assert(all.drop_last() =~= list);
    let body = described(
        quoted(d.name),
        match d.strict {
            Strict::Open => lshape_text(d.shape)->0,
            Strict::Closed => closed(lshape_text(d.shape)->0),
        },
    );
    assert(declarations(all) == declarations(list) + ("M."@ + d.name + " = "@ + body + "\n\n"@));
    assert(declarations(list) + ("M."@ + d.name + " = "@ + body + "\n\n"@) =~= declarations(list)
        + "M."@ + d.name + " = "@ + body + "\n\n"@);
}

/// `Null` alone cannot be written, and beside another variant it can; an empty
/// tuple cannot.
pub proof fn law_what_can_be_written_in_lua(s: Shape)
    ensures
        !mappable(Shape::Null),
        mappable(Shape::Text) && mappable(Shape::Number) && mappable(Shape::Integer) && mappable(
            Shape::Boolean,
        ) && mappable(Shape::Any),
        mappable(Shape::Array(Box::new(s))) == mappable(s),
        mappable(s) ==> mappable(Shape::Union(seq![s, Shape::Null])),
        !mappable(Shape::Tuple(Seq::empty())),
        !mappable(Shape::Union(Seq::empty())),
{
    reveal_with_fuel(mappable, 2);
    let list = seq![s, Shape::Null];
    if mappable(s) {
        assert(!(list[0] is Null));
        assert(list[1] is Null);
    }
}

/// A module is its head, its declarations, and the table they are in.
pub proof fn law_a_module_returns_its_table(list: Seq<DeclaredShape>)
    ensures
        module_text(list).len() == module_head().len() + declarations(list).len() + 9,
        module_text(list).subrange(
            module_head().len() as int,
            (module_head().len() + declarations(list).len()) as int,
        ) == declarations(list),
        module_text(list).skip((module_head().len() + declarations(list).len()) as int) == seq![
            'r',
            'e',
            't',
            'u',
            'r',
            'n',
            ' ',
            'M',
            '\n',
        ],
{
    reveal_strlit("return M\n");
    assert("return M\n"@ =~= seq!['r', 'e', 't', 'u', 'r', 'n', ' ', 'M', '\n']);
}

} // verus!
