//! Merging already-built documents: the document merge itself is the
//! caller's collaborator; the library holds the command's configuration.

use vstd::prelude::*;

verus! {

pub struct Merge {
    pub files: Vec<String>,
    pub output: Option<String>,
}

} // verus!
