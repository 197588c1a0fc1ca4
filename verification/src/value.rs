//! The structured output of a resolution.

use vstd::prelude::*;

verus! {

/// A structured value. An object keeps its entries in the order in which they
/// were emitted.
#[derive(Debug, PartialEq, Eq)]
pub enum Value {
    Null,
    Bool(bool),
    Int(i64),
    Str(String),
    List(Vec<Value>),
    Object(Vec<(String, Value)>),
}

impl Value {
    /// The value is the string `s`.
    pub open spec fn is_text(self, s: Seq<char>) -> bool {
        self matches Value::Str(t) && t@ == s
    }

    /// The value is the string `s` where `s` is given, and null where it is not.
    pub open spec fn is_opt_text(self, s: Option<String>) -> bool {
        match s {
            Some(t) => self.is_text(t@),
            None => self == Value::Null,
        }
    }
}

/// A string value for an optional text: null where there is none.
pub fn opt_text_value(s: &Option<String>) -> (v: Value)
    ensures
        v.is_opt_text(*s),
{
    match s {
        Some(t) => Value::Str(t.clone()),
        None => Value::Null,
    }
}

} // verus!
