//! JSON values as plain data.

use vstd::prelude::*;

use crate::table::Table;

verus! {

broadcast use vstd::string::group_string_axioms;

/// A JSON number: a whole number that is not negative, a negative whole
/// number, or the text of any other number.
pub enum Number {
    Unsigned(u64),
    Negative(i64),
    Real(String),
}

/// A JSON value.
pub enum Json {
    Null,
    Bool(bool),
    Number(Number),
    Text(String),
    List(Vec<Json>),
    Object(Table<Json>),
}

/// Whether a value is this text.
pub open spec fn is_text(v: Json, s: Seq<char>) -> bool {
    v matches Json::Text(t) && t@ == s
}

impl Json {
    /// Whether a field of an object value is there.
    pub open spec fn has(&self, name: Seq<char>) -> bool {
        self matches Json::Object(t) && t@.dom().contains(name)
    }

    /// The field of an object value.
    pub open spec fn field(&self, name: Seq<char>) -> Json
        recommends
            self.has(name),
    {
        self->Object_0@[name]
    }

    /// Whether the fields of an object value are distinct.  Nothing is asked
    /// of other values.
    pub open spec fn well_formed(&self) -> bool {
        self matches Json::Object(t) ==> t.well_formed()
    }

    /// The whole number a value is, when it is one that is not negative.
    pub open spec fn unsigned(&self) -> Option<u64> {
        match self {
            Json::Number(Number::Unsigned(n)) => Some(*n),
            _ => None,
        }
    }

    /// An object without fields.
    pub fn empty_object() -> (out: Json)
        ensures
            out matches Json::Object(t) && t.well_formed() && t@ == Map::<
                Seq<char>,
                Json,
            >::empty(),
    {
        Json::Object(Table::new())
    }

    /// Whether the value is an object.
    pub fn is_object(&self) -> (yes: bool)
        ensures
            yes == (self is Object),
    {
        match self {
            Json::Object(_) => true,
            _ => false,
        }
    }

    /// The field of an object value.
    pub fn get(&self, name: &str) -> (out: Option<&Json>)
        requires
            self.well_formed(),
        ensures
            match out {
                Some(v) => self.has(name@) && *v == self.field(name@),
                None => !self.has(name@),
            },
    {
        match self {
            Json::Object(t) => t.get(name),
            _ => None,
        }
    }

    /// The whole number a value is, when it is one that is not negative.
    pub fn as_u64(&self) -> (out: Option<u64>)
        ensures
            out == self.unsigned(),
    {
        match self {
            Json::Number(Number::Unsigned(n)) => Some(*n),
            _ => None,
        }
    }

    /// The text of a value, when it is one.
    pub fn as_text(&self) -> (out: Option<&str>)
        ensures
            match out {
                Some(s) => self matches Json::Text(t) && t@ == s@,
                None => !(self is Text),
            },
    {
        match self {
            Json::Text(t) => Some(t.as_str()),
            _ => None,
        }
    }
}

/// An object has the fields of its table, and nothing else has any; a number is
/// an unsigned one only when it was written as one.
pub proof fn law_an_object_has_its_fields(t: Table<Json>, name: Seq<char>, v: Json)
    ensures
        Json::Object(t).has(name) == t@.dom().contains(name),
        t@.dom().contains(name) ==> Json::Object(t).field(name) == t@[name],
        !(v is Object) ==> !v.has(name),
        v.unsigned() matches Some(n) ==> v == Json::Number(Number::Unsigned(n)),
        v matches Json::Number(Number::Unsigned(n)) ==> v.unsigned() == Some(n),
{
}

} // verus!
