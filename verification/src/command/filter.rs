//! Filtering a sample list by URL path prefix and exclusion list, with a
//! dedup-by-path pass: the decisions are computed here over the samples'
//! path strings; the caller applies them to its capture entries.

use vstd::prelude::*;
use crate::strutil::{starts_with, str_starts_with};

verus! {

broadcast use vstd::std_specs::vec::group_vec_axioms, vstd::seq::group_seq_axioms;

pub struct Filter {
    pub har_file: String,
    /// Only paths that start with this prefix are kept.
    pub only_path: String,
    /// Paths that start with any of these prefixes are dropped.
    pub exclude: Option<Vec<String>>,
    pub output: Option<String>,
}

/// Whether one path passes the prefix and exclusion test.
pub open spec fn spec_keep_path(path: Seq<char>, only: Seq<char>, excludes: Seq<String>) -> bool {
    starts_with(path, only) && !(exists|i: int|
        0 <= i < excludes.len() && starts_with(path, #[trigger] excludes[i]@))
}

pub fn keep_path(path: &str, only: &str, excludes: &Vec<String>) -> (r: bool)
    ensures
        r == spec_keep_path(path@, only@, excludes@),
{
    let mut i: usize = 0;
    while i < excludes.len()
        invariant
            i <= excludes@.len(),
            forall|j: int| 0 <= j < i ==> !starts_with(path@, #[trigger] excludes@[j]@),
        decreases excludes@.len() - i,
    {
        if str_starts_with(path, excludes[i].as_str()) {
            return false;
        }
        i = i + 1;
    }
    str_starts_with(path, only)
}

/// Which samples the filter keeps: for each path, whether it passes the
/// prefix test and is the first kept occurrence of that path.
pub fn filter_keep(paths: &Vec<String>, only: &str, excludes: &Vec<String>) -> (keep: Vec<bool>)
    ensures
        keep@.len() == paths@.len(),
        forall|i: int|
            0 <= i < paths@.len() ==> keep@[i] == (spec_keep_path(
                #[trigger] paths@[i]@,
                only@,
                excludes@,
            ) && !(exists|j: int|
                0 <= j < i && paths@[j]@ == paths@[i]@ && spec_keep_path(
                    #[trigger] paths@[j]@,
                    only@,
                    excludes@,
                ))),
{
    let mut keep: Vec<bool> = Vec::new();
    let mut i: usize = 0;
    while i < paths.len()
        invariant
            i <= paths@.len(),
            keep@.len() == i,
            forall|k: int|
                0 <= k < i ==> keep@[k] == (spec_keep_path(
                    #[trigger] paths@[k]@,
                    only@,
                    excludes@,
                ) && !(exists|j: int|
                    0 <= j < k && paths@[j]@ == paths@[k]@ && spec_keep_path(
                        #[trigger] paths@[j]@,
                        only@,
                        excludes@,
                    ))),
        decreases paths@.len() - i,
    {
        let take = keep_path(paths[i].as_str(), only, excludes);
        let mut dup = false;
        let mut j: usize = 0;
        while j < i
            invariant
                j <= i,
                i < paths@.len(),
                dup ==> exists|k: int|
                    0 <= k < i && paths@[k]@ == paths@[i as int]@ && spec_keep_path(
                        #[trigger] paths@[k]@,
                        only@,
                        excludes@,
                    ),
                !dup ==> forall|k: int|
                    0 <= k < j ==> !(paths@[k]@ == paths@[i as int]@ && spec_keep_path(
                        #[trigger] paths@[k]@,
                        only@,
                        excludes@,
                    )),
            decreases i - j,
        {
            if crate::strutil::str_eq(paths[j].as_str(), paths[i].as_str()) && keep_path(
                paths[j].as_str(),
                only,
                excludes,
            ) {
                dup = true;
            }
            j = j + 1;
        }
        keep.push(take && !dup);
        i = i + 1;
    }
    keep
}

} // verus!
