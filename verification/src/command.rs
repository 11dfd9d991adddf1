//! The tool's commands: what each one computes is here; reading captures
//! and writing documents stays with the caller.

pub mod filter;
pub mod generate;
pub mod merge;
pub mod merge_har;

use vstd::prelude::*;
use crate::command::filter::Filter;
use crate::command::generate::Generate;
use crate::command::merge_har::MergeHar;

verus! {

pub enum Command {
    /// Generate an API-description document from a capture file.
    Generate(Generate),
    /// Merge multiple capture logs into one.
    Merge(MergeHar),
    /// Filter a capture log by path prefix and exclusions.
    Filter(Filter),
}

} // verus!
