//! The failures one sample's classification can produce. Each skips that
//! sample; none aborts a generation run.

use vstd::prelude::*;

verus! {

#[derive(Clone, Copy, PartialEq, Eq, Structural, Debug)]
pub enum GenError {
    /// The sample's URL cannot be parsed.
    MalformedUrl,
    /// No literal path segment ever set an object-name candidate.
    MissingObjectName,
}

impl GenError {
    /// A short description, for the caller's log line.
    pub fn describe(&self) -> (r: &'static str)
        ensures
            *self is MalformedUrl ==> r@ == "the sample URL cannot be parsed"@,
            *self is MissingObjectName ==> r@ == "no object name found in the path"@,
    {
        match self {
            GenError::MalformedUrl => "the sample URL cannot be parsed",
            GenError::MissingObjectName => "no object name found in the path",
        }
    }
}

} // verus!
