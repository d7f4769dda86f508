//! Field values and schema-less records.
use vstd::prelude::*;

use crate::text::{i32_to_text, int_text, owned, same_text};

verus! {

/// A field value: an integer or a piece of text.
#[derive(Debug, Clone)]
pub enum Value {
    Int(i32),
    Text(String),
}

impl Value {
    /// The text a value stands for when compared against a predicate.
    pub open spec fn text(&self) -> Seq<char> {
        match self {
            Value::Int(i) => int_text(*i as int),
            Value::Text(s) => s@,
        }
    }

    /// Whether the value, written as text, equals `value_to_match`.
    pub fn fullfills(&self, value_to_match: &str) -> (r: bool)
        ensures
            r == (value_to_match@ == self.text()),
    {
        match self {
            Value::Int(i) => {
                let t = i32_to_text(*i);
                same_text(value_to_match, t.as_str())
            },
            Value::Text(s) => same_text(value_to_match, s.as_str()),
        }
    }

    /// A copy of the value.
    pub fn clone_value(&self) -> (r: Value)
        ensures
            r == *self,
    {
        match self {
            Value::Int(i) => Value::Int(*i),
            Value::Text(s) => Value::Text(s.clone()),
        }
    }

    /// The value written as text.
    pub fn to_text(&self) -> (r: String)
        ensures
            r@ == self.text(),
    {
        match self {
            Value::Int(i) => i32_to_text(*i),
            Value::Text(s) => owned(s.as_str()),
        }
    }
}

} // verus!
