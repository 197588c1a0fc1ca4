//! The request tree that resolution walks: fields with a source position,
//! an optional alias, argument bindings and a nested selection set.

use vstd::prelude::*;
use graphql_parser::Pos;

verus! {

/// `graphql_parser::Pos`, the place of an element in the query text. The
/// library never looks inside a position: it carries the one that the parser
/// gave a field into the errors of that field.
#[verifier::external_type_specification]
#[verifier::external_body]
pub struct ExPos(graphql_parser::Pos);

/// An argument value. A variable stands for the value that the request binds
/// to its name.
#[derive(Debug, PartialEq, Eq)]
pub enum ArgValue {
    Null,
    Int(i64),
    Boolean(bool),
    Str(String),
    Enum(String),
    Variable(String),
    List(Vec<ArgValue>),
    Object(Vec<(String, ArgValue)>),
}

/// One requested field.
#[derive(Debug, PartialEq, Eq)]
pub struct FieldNode {
    pub position: Pos,
    pub alias: Option<String>,
    pub name: String,
    pub arguments: Vec<(String, ArgValue)>,
    pub selection_set: Vec<FieldNode>,
}

impl FieldNode {
    /// The key under which the field's result is emitted: the alias where
    /// there is one, else the field's name.
    pub open spec fn key(&self) -> Seq<char> {
        match self.alias {
            Some(a) => a@,
            None => self.name@,
        }
    }

    /// The key under which the field's result is emitted.
    pub fn response_key(&self) -> (k: &String)
        ensures
            k@ == self.key(),
    {
        match &self.alias {
            Some(a) => a,
            None => &self.name,
        }
    }
}

/// An owned copy of a literal or borrowed text.
pub fn text(s: &str) -> (r: String)
    ensures
        r@ == s@,
{
    s.to_owned()
}

} // verus!
