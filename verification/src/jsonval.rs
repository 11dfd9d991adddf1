//! A parsed JSON value, reduced to what schema inference reads: object
//! entries in payload order, array elements, string text, and whether a
//! number carries a fractional part.

use vstd::prelude::*;

verus! {

pub enum JsonValue {
    Null,
    Bool(bool),
    /// A JSON number; `float` records whether the literal carries a
    /// fractional part (or exponent), the one thing inference reads of it.
    Number { float: bool },
    Text(String),
    Array(Vec<JsonValue>),
    /// Entries in the payload's own order.
    Object(Vec<(String, JsonValue)>),
}

impl JsonValue {
    pub open spec fn is_scalar(self) -> bool {
        match self {
            JsonValue::Null | JsonValue::Bool(_) | JsonValue::Number { .. } | JsonValue::Text(_)
                => true,
            _ => false,
        }
    }

    pub open spec fn is_array(self) -> bool {
        self matches JsonValue::Array(_)
    }

    pub fn is_array_exec(&self) -> (r: bool)
        ensures
            r == self.is_array(),
    {
        match self {
            JsonValue::Array(_) => true,
            _ => false,
        }
    }
}

} // verus!
