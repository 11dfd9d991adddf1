//! Concatenating capture logs: the log reading and writing is the
//! caller's collaborator; the library holds the command's configuration.

use vstd::prelude::*;

verus! {

pub struct MergeHar {
    pub files: Vec<String>,
    pub output: Option<String>,
}

} // verus!
