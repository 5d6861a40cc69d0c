//! Ruff's JSON findings; analysis failures are never lint debt.

use vstd::prelude::*;
use crate::json::{as_u64, index, Json};
use super::lint::{diagnostics_only, nonblank, nonblank_at, LintError};
use super::{Data, Issue};

verus! {

/// Codes with which Ruff reports that it could not analyze a source.
pub open spec fn failure_code(code: Seq<char>) -> bool {
    code == "invalid-syntax"@ || code == "E999"@ || code == "E902"@ || code == "io-error"@
}

/// `location.row` etc. of a finding.
pub open spec fn coord(f: Json, place: Seq<char>, axis: Seq<char>) -> Option<u64> {
    as_u64(index(index(f, place), axis))
}

/// Why one Ruff finding is refused, if it is.
pub open spec fn ruff_error(f: Json) -> Option<LintError> {
    if nonblank(f, "code"@) is None {
        Some(LintError::MissingField)
    } else if failure_code(nonblank(f, "code"@)->0) {
        Some(LintError::AnalysisFailure)
    } else if nonblank(f, "message"@) is None || nonblank(f, "filename"@) is None {
        Some(LintError::MissingField)
    } else if !(coord(f, "location"@, "row"@) matches Some(r) && r > 0 && r <= usize::MAX) {
        Some(LintError::MissingField)
    } else if !(coord(f, "location"@, "column"@) matches Some(c) && c > 0) {
        Some(LintError::MissingField)
    } else if coord(f, "end_location"@, "row"@) is None {
        Some(LintError::MissingField)
    } else if !(coord(f, "end_location"@, "column"@) matches Some(c) && c > 0) {
        Some(LintError::MissingField)
    } else {
        let row = coord(f, "location"@, "row"@)->0;
        let column = coord(f, "location"@, "column"@)->0;
        let end_row = coord(f, "end_location"@, "row"@)->0;
        let end_column = coord(f, "end_location"@, "column"@)->0;
        if end_row < row || (end_row == row && end_column < column) {
            Some(LintError::InvertedRange)
        } else {
            None
        }
    }
}

/// The error of the first refused finding.
pub open spec fn first_ruff_error(items: Seq<Json>) -> Option<LintError>
    decreases items.len(),
{
    if items.len() == 0 {
        None
    } else {
        match ruff_error(items[0]) {
            Some(e) => Some(e),
            None => first_ruff_error(items.drop_first()),
        }
    }
}

/// The diagnostic that a valid Ruff finding becomes.
pub open spec fn ruff_issue(f: Json, issue: Issue) -> bool {
    &&& Some(issue.rule@) == nonblank(f, "code"@)
    &&& issue.file matches Some(file) && Some(file@) == nonblank(f, "filename"@)
    &&& issue.line matches Some(line) && Some(line as u64) == coord(f, "location"@, "row"@)
    &&& Some(issue.message@) == nonblank(f, "message"@)
    &&& issue.symbol is None
    &&& issue.tool matches Some(tool) && tool@ == "ruff"@
    &&& issue.locations@.len() == 0
}

fn is_failure_code(code: &String) -> (res: bool)
    ensures
        res == failure_code(code@),
{
    let c = crate::text::chars_of(code.as_str());
    crate::text::text_is(&c, "invalid-syntax") || crate::text::text_is(&c, "E999")
        || crate::text::text_is(&c, "E902") || crate::text::text_is(&c, "io-error")
}

fn coord_exec(f: &Json, place: &str, axis: &str) -> (res: Option<u64>)
    ensures
        res == coord(*f, place@, axis@),
{
    match crate::json::get(f, place) {
        Some(p) => crate::json::u64_at(p, axis),
        None => crate::json::u64_at(&Json::Null, axis),
    }
}

/// Normalize one Ruff finding.
fn finding(f: &Json) -> (res: Result<Issue, LintError>)
    ensures
        res matches Ok(issue) ==> ruff_error(*f) is None && ruff_issue(*f, issue),
        res matches Err(e) ==> ruff_error(*f) == Some(e),
{
    let code = match nonblank_at(f, "code") {
        Some(c) => c,
        None => return Err(LintError::MissingField),
    };
    if is_failure_code(code) {
        return Err(LintError::AnalysisFailure);
    }
    let message = match nonblank_at(f, "message") {
        Some(m) => m,
        None => return Err(LintError::MissingField),
    };
    let file = match nonblank_at(f, "filename") {
        Some(m) => m,
        None => return Err(LintError::MissingField),
    };
    let row = match coord_exec(f, "location", "row") {
        Some(r) if r > 0 && r <= usize::MAX as u64 => r,
        _ => return Err(LintError::MissingField),
    };
    let column = match coord_exec(f, "location", "column") {
        Some(c) if c > 0 => c,
        _ => return Err(LintError::MissingField),
    };
    let end_row = match coord_exec(f, "end_location", "row") {
        Some(r) => r,
        None => return Err(LintError::MissingField),
    };
    let end_column = match coord_exec(f, "end_location", "column") {
        Some(c) if c > 0 => c,
        _ => return Err(LintError::MissingField),
    };
    if end_row < row || (end_row == row && end_column < column) {
        return Err(LintError::InvertedRange);
    }
    Ok(
        Issue {
            rule: code.clone(),
            file: Some(file.clone()),
            line: Some(row as usize),
            message: message.clone(),
            symbol: None,
            tool: Some(String::from_str("ruff")),
            locations: Vec::new(),
        },
    )
}

/// The Ruff report's findings, if it is a list of them.
pub open spec fn spec_findings(report: Json) -> Option<Seq<Json>> {
    match report {
        Json::Array(items) => Some(items@),
        _ => None,
    }
}

/// Normalize a parsed Ruff JSON report (a list of findings).
pub fn parse_value(report: &Json) -> (res: Result<Data, LintError>)
    ensures
        spec_findings(*report) is None ==> res == Err::<Data, LintError>(LintError::InvalidJson),
        spec_findings(*report) matches Some(items) ==> match first_ruff_error(items) {
            Some(e) => res == Err::<Data, LintError>(e),
            None => res matches Ok(d) && diagnostics_only(d) && d.issues@.len() == items.len()
                && forall|i: int| 0 <= i < items.len() ==> ruff_issue(items[i], #[trigger] d.issues@[i]),
        },
{
    let items = match report {
        Json::Array(items) => items,
        _ => return Err(LintError::InvalidJson),
    };
    let mut data = Data::empty();
    let mut i: usize = 0;
    assert(items@.skip(0) =~= items@);
    while i < items.len()
        invariant
            0 <= i <= items@.len(),
            spec_findings(*report) == Some(items@),
            first_ruff_error(items@) == first_ruff_error(items@.skip(i as int)),
            diagnostics_only(data),
            data.issues@.len() == i,
            forall|j: int| 0 <= j < i ==> ruff_issue(items@[j], #[trigger] data.issues@[j]),
        decreases items@.len() - i,
    {
        assert(items@.skip(i as int).drop_first() =~= items@.skip(i + 1));
        match finding(&items[i]) {
            Ok(issue) => data.issues.push(issue),
            Err(e) => return Err(e),
        }
        i = i + 1;
    }
    assert(items@.skip(i as int).len() == 0);
    Ok(data)
}

/// Normalize Ruff's JSON report text.
pub fn parse(text: &str) -> (res: Result<Data, LintError>)
    ensures
        crate::json::spec_parse_json(text@) is None ==> res == Err::<Data, LintError>(
            LintError::InvalidJson,
        ),
        crate::json::spec_parse_json(text@) matches Some(report) ==> {
            &&& spec_findings(report) is None ==> res == Err::<Data, LintError>(
                LintError::InvalidJson,
            )
            &&& spec_findings(report) matches Some(items) ==> match first_ruff_error(items) {
                Some(e) => res == Err::<Data, LintError>(e),
                None => res matches Ok(d) && diagnostics_only(d) && d.issues@.len() == items.len()
                    && forall|i: int|
                    0 <= i < items.len() ==> ruff_issue(items[i], #[trigger] d.issues@[i]),
            }
        },
{
    match crate::json::parse_json(text) {
        None => Err(LintError::InvalidJson),
        Some(report) => parse_value(&report),
    }
}

} // verus!
