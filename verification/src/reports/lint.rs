//! Shared pieces of the JSON lint-report adapters.

use vstd::prelude::*;
use crate::json::{as_str, index, Json};
use super::Data;

verus! {

/// Why a lint report was refused.
#[derive(Debug, Clone, Copy, PartialEq, Eq, Structural)]
pub enum LintError {
    /// The report is not JSON of the expected shape.
    InvalidJson,
    /// A required field is missing, empty or out of range.
    MissingField,
    /// The tool reported an analysis, parse, configuration or execution failure.
    AnalysisFailure,
    /// A source range ends before it starts.
    InvertedRange,
    /// Summary counters contradict the detail records.
    Inconsistent,
    /// An entry that must be unique is repeated.
    Duplicate,
    /// The report analyzed nothing.
    Empty,
    /// The report continues after it declared completion, or never completed.
    Incomplete,
    /// A record of the report is empty.
    EmptyRecord,
    /// A record or message kind that the adapter does not know.
    Unsupported,
}

/// The text of `j[key]` when it is a string with some non-white-space character.
pub open spec fn nonblank(j: Json, key: Seq<char>) -> Option<Seq<char>> {
    match as_str(index(j, key)) {
        Some(s) => if crate::text::blank(s) {
            None
        } else {
            Some(s)
        },
        None => None,
    }
}

/// `j[key]` as a string with some non-white-space character.
pub fn nonblank_at<'a>(j: &'a Json, key: &str) -> (res: Option<&'a String>)
    ensures
        res matches Some(s) ==> nonblank(*j, key@) == Some(s@),
        res is None ==> nonblank(*j, key@) is None,
{
    match crate::json::str_at(j, key) {
        Some(s) => {
            let c = crate::text::chars_of(s.as_str());
            if crate::text::is_blank(&c) {
                None
            } else {
                Some(s)
            }
        },
        None => None,
    }
}

/// A report that holds diagnostics only.
pub open spec fn diagnostics_only(d: Data) -> bool {
    &&& d.tests is None
    &&& d.coverage@.len() == 0
    &&& d.coverage_files@.len() == 0
    &&& d.coverage_roots@.len() == 0
    &&& d.coverage_producer is None
    &&& !d.branch_coverage
    &&& d.affected_files is None
    &&& d.sarif_runs@.len() == 0
}

} // verus!
