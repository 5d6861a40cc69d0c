//! Normalized tool reports: missing or malformed data is never a pass.

pub mod xml_header;
pub mod lint;
pub mod ruff_json;
pub mod eslint_json;
pub mod golangci_json;
pub mod cargo_clippy;
pub mod xml_report;
pub mod lcov;
pub mod coverage_xml;
pub mod cobertura;
pub mod diagnostics;
pub mod coverage_py;
pub mod sarif;
pub mod json_text;
pub mod sarif_locations;
pub mod test_cases;

use vstd::prelude::*;
use crate::text::{chars_of, contains_char};
use vstd::string::StringSliceAdditionalSpecFns;
use vstd::utf8::encode_utf8;

verus! {

/// Largest accepted report file, in bytes (2 MiB); also the byte budget of one
/// expanded diagnostic message.
pub const MAX_REPORT_BYTES: usize = 2097152;

/// Largest accepted coverage source path, in bytes.
pub const MAX_PATH_BYTES: usize = 16384;

/// The tool report formats that the adapters read.
#[derive(Debug, Clone, Copy, PartialEq, Eq, Structural)]
pub enum ReportFormat {
    Junit,
    Checkstyle,
    Spotbugs,
    Pmd,
    Cobertura,
    Jacoco,
    Lcov,
    Sarif,
    CoveragePy,
    Diagnostics,
}

/// Why a report was rejected.
#[derive(Debug, Clone, Copy, PartialEq, Eq, Structural)]
pub enum ReportError {
    /// A coverage source path is empty, holds a NUL/CR/LF, or exceeds 16 KiB.
    UnsafePath,
    /// The normalized coverage would exceed its 16 MiB budget.
    Budget,
    /// A diagnostic has an empty rule or message, or line zero.
    InvalidDiagnostic,
    /// A diagnostic's primary location contradicts its location inventory.
    ContradictoryLocation,
    /// A diagnostic location has line zero or ends before it starts.
    InvalidRange,
    /// More tests failed than were executed.
    TestCounts,
    /// More than 64 coverage source roots.
    TooManyRoots,
    /// A coverage record is empty, at line zero, over-hit, or excluded yet counted.
    InvalidCoverage,
}

/// One location of a diagnostic.
#[derive(Debug, Clone, PartialEq, Eq)]
pub struct IssueLocation {
    pub file: Option<String>,
    pub line: Option<usize>,
    pub end_line: Option<usize>,
    pub symbol: Option<String>,
}

/// One normalized diagnostic.
#[derive(Debug, Clone)]
pub struct Issue {
    pub rule: String,
    pub file: Option<String>,
    pub line: Option<usize>,
    pub message: String,
    pub symbol: Option<String>,
    pub tool: Option<String>,
    pub locations: Vec<IssueLocation>,
}

/// Summary of one SARIF run.
#[derive(Debug, Clone)]
pub struct SarifRun {
    pub tool: String,
    pub version: Option<String>,
    pub results: usize,
    pub violations: usize,
    pub non_violations: usize,
    pub suppressed_results: usize,
}

/// Test execution counts.
#[derive(Debug, Clone, Copy, Default)]
pub struct Tests {
    pub executed: usize,
    pub failures: usize,
    pub skipped: usize,
}

/// Coverage of one source line.
#[derive(Debug, Clone)]
pub struct CoverageLine {
    pub file: String,
    pub line: usize,
    pub hits: u64,
    pub branches_found: usize,
    pub branches_hit: usize,
    pub excluded: bool,
}

/// A normalized report. The coverage producer is the JSON description of the tool
/// that wrote the coverage.
#[derive(Debug)]
pub struct Data {
    pub issues: Vec<Issue>,
    pub tests: Option<Tests>,
    pub coverage: Vec<CoverageLine>,
    pub coverage_files: Vec<String>,
    pub coverage_roots: Vec<String>,
    pub coverage_producer: Option<crate::json::Json>,
    pub branch_coverage: bool,
    pub affected_files: Option<Vec<String>>,
    pub sarif_runs: Vec<SarifRun>,
}

impl Data {
    /// A report with no records and no branch measurement.
    pub fn empty() -> (res: Data)
        ensures
            res.issues@.len() == 0,
            res.tests is None,
            res.coverage@.len() == 0,
            res.coverage_files@.len() == 0,
            res.coverage_roots@.len() == 0,
            res.coverage_producer is None,
            !res.branch_coverage,
            res.affected_files is None,
            res.sarif_runs@.len() == 0,
    {
        Data {
            issues: Vec::new(),
            tests: None,
            coverage: Vec::new(),
            coverage_files: Vec::new(),
            coverage_roots: Vec::new(),
            coverage_producer: None,
            branch_coverage: false,
            affected_files: None,
            sarif_runs: Vec::new(),
        }
    }

    /// Some diagnostic, test failure, or uncovered non-excluded line or branch exists.
    pub open spec fn spec_has_findings(&self) -> bool {
        ||| self.issues@.len() > 0
        ||| (self.tests matches Some(t) && t.failures > 0)
        ||| exists|i: int| 0 <= i < self.coverage@.len() && uncovered(#[trigger] self.coverage@[i])
    }

    /// Whether the report holds any finding.
    pub fn has_findings(&self) -> (res: bool)
        ensures
            res == self.spec_has_findings(),
    {
        if self.issues.len() > 0 {
            return true;
        }
        if let Some(tests) = &self.tests {
            if tests.failures > 0 {
                return true;
            }
        }
        let mut i: usize = 0;
        while i < self.coverage.len()
            invariant
                0 <= i <= self.coverage@.len(),
                forall|j: int| 0 <= j < i ==> !uncovered(#[trigger] self.coverage@[j]),
            decreases self.coverage@.len() - i,
        {
            let line = &self.coverage[i];
            if !line.excluded && (line.hits == 0 || line.branches_hit < line.branches_found) {
                return true;
            }
            i = i + 1;
        }
        false
    }
}

/// A counted line that was never hit or has an unhit branch.
pub open spec fn uncovered(line: CoverageLine) -> bool {
    !line.excluded && (line.hits == 0 || line.branches_hit < line.branches_found)
}

/// A coverage path is unusable when it is empty or holds NUL, CR or LF.
pub open spec fn unsafe_path(file: Seq<char>) -> bool {
    file.len() == 0 || file.contains('\0') || file.contains('\r') || file.contains('\n')
}

/// Length of `file` in UTF-8 bytes.
pub open spec fn byte_len(file: Seq<char>) -> int {
    encode_utf8(file).len() as int
}

/// Budget charged for one normalized record naming `file` (six bytes per path
/// byte for JSON escaping, plus a fixed record overhead).
pub open spec fn record_cost(file: Seq<char>) -> int {
    byte_len(file) * 6 + 256
}

/// The budget left after charging one record naming `file`, or why it is refused.
pub open spec fn charge(file: Seq<char>, remaining: int) -> Result<int, ReportError> {
    if unsafe_path(file) || byte_len(file) > MAX_PATH_BYTES {
        Err(ReportError::UnsafePath)
    } else if record_cost(file) > remaining {
        Err(ReportError::Budget)
    } else {
        Ok(remaining - record_cost(file))
    }
}

/// Charge one coverage record naming `file` against `remaining`.
pub fn coverage_budget(remaining: &mut usize, file: &str) -> (res: Result<(), ReportError>)
    ensures
        match charge(file@, *old(remaining) as int) {
            Ok(left) => res is Ok && *final(remaining) == left,
            Err(e) => res == Err::<(), ReportError>(e) && *final(remaining) == *old(remaining),
        },
{
    let chars = chars_of(file);
    let bytes = file.as_bytes().len();
    if chars.len() == 0 || contains_char(&chars, '\0') || contains_char(&chars, '\r')
        || contains_char(&chars, '\n') || bytes > MAX_PATH_BYTES {
        return Err(ReportError::UnsafePath);
    }
    let cost = bytes * 6 + 256;
    if cost > *remaining {
        return Err(ReportError::Budget);
    }
    *remaining = *remaining - cost;
    Ok(())
}

} // verus!

verus! {

/// Normalized coverage may not exceed 16 MiB.
pub const COVERAGE_BUDGET: usize = 16777216;

/// The text of an optional string.
pub open spec fn opt_text(value: Option<String>) -> Option<Seq<char>> {
    match value {
        Some(s) => Some(s@),
        None => None,
    }
}

/// A location range starting at line zero or ending before it starts.
pub open spec fn bad_range(location: IssueLocation) -> bool {
    location.line == Some(0usize) || (location.end_line matches Some(end) && (
    location.line matches Some(start) ==> end < start))
}

/// The primary location disagrees with the diagnostic's own file, line or symbol.
pub open spec fn contradicts(first: IssueLocation, issue: Issue) -> bool {
    opt_text(first.file) != opt_text(issue.file) || first.line != issue.line || opt_text(
        first.symbol,
    ) != opt_text(issue.symbol)
}

/// Why one diagnostic is invalid, if it is.
pub open spec fn issue_error(issue: Issue) -> Option<ReportError> {
    if issue.rule@.len() == 0 || crate::text::blank(issue.message@) || issue.line == Some(
        0usize,
    ) {
        Some(ReportError::InvalidDiagnostic)
    } else if issue.locations@.len() > 0 && contradicts(issue.locations@[0], issue) {
        Some(ReportError::ContradictoryLocation)
    } else if exists|j: int| 0 <= j < issue.locations@.len() && bad_range(#[trigger] issue.locations@[j]) {
        Some(ReportError::InvalidRange)
    } else {
        None
    }
}

/// The error of the first invalid diagnostic.
pub open spec fn first_issue_error(issues: Seq<Issue>) -> Option<ReportError>
    decreases issues.len(),
{
    if issues.len() == 0 {
        None
    } else {
        match issue_error(issues[0]) {
            Some(e) => Some(e),
            None => first_issue_error(issues.drop_first()),
        }
    }
}

/// Charge one record per path, in order.
pub open spec fn charge_all(files: Seq<Seq<char>>, remaining: int) -> Result<int, ReportError>
    decreases files.len(),
{
    if files.len() == 0 {
        Ok(remaining)
    } else {
        match charge(files[0], remaining) {
            Err(e) => Err(e),
            Ok(left) => charge_all(files.drop_first(), left),
        }
    }
}

/// A coverage record that cannot describe a real source line.
pub open spec fn invalid_record(line: CoverageLine) -> bool {
    line.file@.len() == 0 || line.line == 0 || line.branches_hit > line.branches_found || (
    line.excluded && (line.hits != 0 || line.branches_found != 0))
}

/// Charge and check coverage records in order.
pub open spec fn coverage_outcome(lines: Seq<CoverageLine>, remaining: int) -> Result<
    int,
    ReportError,
>
    decreases lines.len(),
{
    if lines.len() == 0 {
        Ok(remaining)
    } else {
        match charge(lines[0].file@, remaining) {
            Err(e) => Err(e),
            Ok(left) => if invalid_record(lines[0]) {
                Err(ReportError::InvalidCoverage)
            } else {
                coverage_outcome(lines.drop_first(), left)
            },
        }
    }
}

/// The texts of a sequence of strings.
pub open spec fn texts(values: Seq<String>) -> Seq<Seq<char>> {
    values.map_values(|s: String| s@)
}

/// Why a normalized report is invalid, if it is.
pub open spec fn report_error(data: Data) -> Option<ReportError> {
    match first_issue_error(data.issues@) {
        Some(e) => Some(e),
        None => if data.tests matches Some(t) && t.failures > t.executed {
            Some(ReportError::TestCounts)
        } else if data.coverage_roots@.len() > 64 {
            Some(ReportError::TooManyRoots)
        } else {
            match charge_all(
                texts(data.coverage_files@) + texts(data.coverage_roots@),
                COVERAGE_BUDGET as int,
            ) {
                Err(e) => Some(e),
                Ok(left) => match coverage_outcome(data.coverage@, left) {
                    Err(e) => Some(e),
                    Ok(_) => None,
                },
            }
        },
    }
}

pub(crate) fn same_text(a: &Option<String>, b: &Option<String>) -> (res: bool)
    ensures
        res == (opt_text(*a) == opt_text(*b)),
{
    match (a, b) {
        (Some(x), Some(y)) => x.eq(y),
        (None, None) => true,
        _ => false,
    }
}

fn check_issue(issue: &Issue) -> (res: Option<ReportError>)
    ensures
        res == issue_error(*issue),
{
    let message = chars_of(issue.message.as_str());
    if issue.rule.as_str().is_empty() || crate::text::is_blank(&message) || issue.line == Some(
        0usize,
    ) {
        return Some(ReportError::InvalidDiagnostic);
    }
    if issue.locations.len() > 0 {
        let first = &issue.locations[0];
        if !same_text(&first.file, &issue.file) || first.line != issue.line || !same_text(
            &first.symbol,
            &issue.symbol,
        ) {
            return Some(ReportError::ContradictoryLocation);
        }
    }
    let ghost fine = !(issue.rule@.len() == 0 || crate::text::blank(issue.message@)
        || issue.line == Some(0usize)) && !(issue.locations@.len() > 0 && contradicts(
        issue.locations@[0],
        *issue,
    ));
    assert(fine);
    let mut j: usize = 0;
    while j < issue.locations.len()
        invariant
            0 <= j <= issue.locations@.len(),
            fine,
            fine == (!(issue.rule@.len() == 0 || crate::text::blank(issue.message@)
                || issue.line == Some(0usize)) && !(issue.locations@.len() > 0 && contradicts(
                issue.locations@[0],
                *issue,
            ))),
            forall|k: int| 0 <= k < j ==> !bad_range(#[trigger] issue.locations@[k]),
        decreases issue.locations@.len() - j,
    {
        let location = &issue.locations[j];
        let bad = match (location.line, location.end_line) {
            (Some(0usize), _) => true,
            (Some(start), Some(end)) => end < start,
            (None, Some(_)) => true,
            _ => false,
        };
        if bad {
            assert(bad_range(issue.locations@[j as int]));
            return Some(ReportError::InvalidRange);
        }
        j = j + 1;
    }
    None
}

/// Check a normalized report and return it unchanged when it is valid.
pub fn validate(data: Data) -> (res: Result<Data, ReportError>)
    ensures
        match report_error(data) {
            None => res == Ok::<Data, ReportError>(data),
            Some(e) => res == Err::<Data, ReportError>(e),
        },
{
    assert(data.issues@.skip(0) =~= data.issues@);
    let mut i: usize = 0;
    while i < data.issues.len()
        invariant
            0 <= i <= data.issues@.len(),
            first_issue_error(data.issues@) == first_issue_error(data.issues@.skip(i as int)),
        decreases data.issues@.len() - i,
    {
        assert(data.issues@.skip(i as int).drop_first() =~= data.issues@.skip(i + 1));
        if let Some(e) = check_issue(&data.issues[i]) {
            return Err(e);
        }
        i = i + 1;
    }
    assert(data.issues@.skip(i as int).len() == 0);
    if let Some(tests) = &data.tests {
        if tests.failures > tests.executed {
            return Err(ReportError::TestCounts);
        }
    }
    if data.coverage_roots.len() > 64 {
        return Err(ReportError::TooManyRoots);
    }
    let ghost all = texts(data.coverage_files@) + texts(data.coverage_roots@);
    let mut budget: usize = COVERAGE_BUDGET;
    assert(all.skip(0) =~= all);
    let ghost prior = first_issue_error(data.issues@) is None && !(data.tests matches Some(t)
        && t.failures > t.executed) && data.coverage_roots@.len() <= 64;
    let mut i: usize = 0;
    while i < data.coverage_files.len()
        invariant
            0 <= i <= data.coverage_files@.len(),
            prior,
            prior == (first_issue_error(data.issues@) is None && !(data.tests matches Some(t)
                && t.failures > t.executed) && data.coverage_roots@.len() <= 64),
            all == texts(data.coverage_files@) + texts(data.coverage_roots@),
            charge_all(all, COVERAGE_BUDGET as int) == charge_all(all.skip(i as int), budget as int),
        decreases data.coverage_files@.len() - i,
    {
        assert(all.skip(i as int).drop_first() =~= all.skip(i + 1));
        assert(all[i as int] == data.coverage_files@[i as int]@);
        if let Err(e) = coverage_budget(&mut budget, data.coverage_files[i].as_str()) {
            return Err(e);
        }
        i = i + 1;
    }
    let n = data.coverage_files.len();
    let mut i: usize = 0;
    while i < data.coverage_roots.len()
        invariant
            0 <= i <= data.coverage_roots@.len(),
            prior,
            prior == (first_issue_error(data.issues@) is None && !(data.tests matches Some(t)
                && t.failures > t.executed) && data.coverage_roots@.len() <= 64),
            n == data.coverage_files@.len(),
            all == texts(data.coverage_files@) + texts(data.coverage_roots@),
            charge_all(all, COVERAGE_BUDGET as int) == charge_all(all.skip(n + i), budget as int),
        decreases data.coverage_roots@.len() - i,
    {
        assert(all.skip(n + i).drop_first() =~= all.skip(n + i + 1));
        assert(all[n + i] == data.coverage_roots@[i as int]@);
        if let Err(e) = coverage_budget(&mut budget, data.coverage_roots[i].as_str()) {
            return Err(e);
        }
        i = i + 1;
    }
    assert(all.skip(n + i).len() == 0);
    let ghost start = budget as int;
    assert(data.coverage@.skip(0) =~= data.coverage@);
    let mut i: usize = 0;
    while i < data.coverage.len()
        invariant
            0 <= i <= data.coverage@.len(),
            prior,
            prior == (first_issue_error(data.issues@) is None && !(data.tests matches Some(t)
                && t.failures > t.executed) && data.coverage_roots@.len() <= 64),
            charge_all(texts(data.coverage_files@) + texts(data.coverage_roots@), COVERAGE_BUDGET as int) == Ok::<int, ReportError>(start),
            coverage_outcome(data.coverage@, start) == coverage_outcome(
                data.coverage@.skip(i as int),
                budget as int,
            ),
        decreases data.coverage@.len() - i,
    {
        assert(data.coverage@.skip(i as int).drop_first() =~= data.coverage@.skip(i + 1));
        let line = &data.coverage[i];
        if let Err(e) = coverage_budget(&mut budget, line.file.as_str()) {
            return Err(e);
        }
        if line.file.as_str().is_empty() || line.line == 0 || line.branches_hit
            > line.branches_found || (line.excluded && (line.hits != 0 || line.branches_found
            != 0)) {
            return Err(ReportError::InvalidCoverage);
        }
        i = i + 1;
    }
    assert(data.coverage@.skip(i as int).len() == 0);
    Ok(data)
}

} // verus!

verus! {

/// Why a report file was refused.
#[derive(Debug, Clone, Copy, PartialEq, Eq)]
pub enum ParseError {
    /// The file exceeds the report size budget.
    TooLarge,
    /// The file is not UTF-8.
    NotUtf8,
    /// The file holds nothing but white space.
    Empty,
    /// An LCOV trace is refused.
    Lcov(lcov::LcovError),
    /// A SARIF log is refused.
    Sarif(sarif::SarifError),
    /// A coverage.py JSON report is refused.
    CoveragePy(coverage_py::CoveragePyError),
    /// A generic diagnostics document is not JSON of the normalized report's shape.
    Diagnostics,
    /// An XML report is refused.
    Xml(xml_report::XmlReportError),
    /// The normalized report is inconsistent.
    Invalid(ReportError),
}

/// A normalized report, refused when it is inconsistent.
pub open spec fn checked(r: Result<Data, ParseError>) -> Result<Data, ParseError> {
    match r {
        Err(e) => Err(e),
        Ok(d) => match report_error(d) {
            None => Ok(d),
            Some(e) => Err(ParseError::Invalid(e)),
        },
    }
}

/// A format reader's result, its error tagged by format.
pub open spec fn tagged<E>(r: Result<Data, E>, tag: spec_fn(E) -> ParseError) -> Result<Data, ParseError> {
    match r {
        Err(e) => Err(tag(e)),
        Ok(d) => Ok(d),
    }
}

/// What reading non-blank report text `text` of `format` gives.
pub open spec fn format_outcome(format: ReportFormat, text: Seq<char>, res: Result<Data, ParseError>) -> bool {
    match format {
        ReportFormat::Lcov => exists|r: Result<Data, lcov::LcovError>| #[trigger] lcov::lcov_outcome(text, r)
            && res == checked(tagged(r, |e: lcov::LcovError| ParseError::Lcov(e))),
        ReportFormat::Sarif => match crate::json::spec_parse_json(text) {
            None => res == Err::<Data, ParseError>(ParseError::Sarif(sarif::SarifError::Malformed)),
            Some(doc) => exists|native: sarif_locations::NativePaths, r: Result<Data, sarif::SarifError>|
                #[trigger] sarif::sarif_matches(sarif::sarif_outcome(doc, native), r)
                && res == checked(tagged(r, |e: sarif::SarifError| ParseError::Sarif(e))),
        },
        ReportFormat::CoveragePy => match crate::json::spec_parse_json(text) {
            None => res == Err::<Data, ParseError>(ParseError::CoveragePy(coverage_py::CoveragePyError::Malformed)),
            Some(v) => exists|r: Result<Data, coverage_py::CoveragePyError>| #[trigger] coverage_py::coverage_py_outcome(v, r)
                && res == checked(tagged(r, |e: coverage_py::CoveragePyError| ParseError::CoveragePy(e))),
        },
        ReportFormat::Diagnostics => match crate::json::spec_parse_json(text) {
            None => res == Err::<Data, ParseError>(ParseError::Diagnostics),
            Some(v) => match diagnostics::data_model(v) {
                None => res == Err::<Data, ParseError>(ParseError::Diagnostics),
                Some(m) => exists|d: Data| #[trigger] diagnostics::data_view(d) == m && res == checked(Ok(d)),
            },
        },
        _ => exists|r: Result<Data, xml_report::XmlReportError>| #[trigger] xml_report::xml_text_outcome(format, text, r)
            && res == checked(tagged(r, |e: xml_report::XmlReportError| ParseError::Xml(e))),
    }
}

fn finish(r: Result<Data, ParseError>) -> (res: Result<Data, ParseError>)
    ensures
        res == checked(r),
{
    match r {
        Err(e) => Err(e),
        Ok(d) => match validate(d) {
            Ok(d) => Ok(d),
            Err(e) => Err(ParseError::Invalid(e)),
        },
    }
}

/// Read a report file of `format`: a file over the size budget, not UTF-8 or
/// blank is refused; otherwise the format's reader decides, and the normalized
/// report must be consistent.
pub fn parse(format: ReportFormat, bytes: &[u8]) -> (res: Result<Data, ParseError>)
    ensures
        bytes@.len() > MAX_REPORT_BYTES ==> res == Err::<Data, ParseError>(ParseError::TooLarge),
        bytes@.len() <= MAX_REPORT_BYTES && !vstd::utf8::valid_utf8(bytes@) ==> res == Err::<Data, ParseError>(ParseError::NotUtf8),
        bytes@.len() <= MAX_REPORT_BYTES && vstd::utf8::valid_utf8(bytes@) && crate::text::blank(
            vstd::utf8::decode_utf8(bytes@),
        ) ==> res == Err::<Data, ParseError>(ParseError::Empty),
        bytes@.len() <= MAX_REPORT_BYTES && vstd::utf8::valid_utf8(bytes@) && !crate::text::blank(
            vstd::utf8::decode_utf8(bytes@),
        ) ==> format_outcome(format, vstd::utf8::decode_utf8(bytes@), res),
{
    if bytes.len() > MAX_REPORT_BYTES {
        return Err(ParseError::TooLarge);
    }
    let text = match crate::text::text_of_bytes(bytes) {
        None => return Err(ParseError::NotUtf8),
        Some(t) => t,
    };
    proof {
        vstd::utf8::encode_utf8_decode_utf8(text@);
    }
    let chars = chars_of(text);
    if crate::text::is_blank(&chars) {
        return Err(ParseError::Empty);
    }
    match format {
        ReportFormat::Lcov => {
            let r = lcov::parse(text);
            let t = match r {
                Ok(d) => Ok(d),
                Err(e) => Err(ParseError::Lcov(e)),
            };
            assert(t == tagged(r, |e: lcov::LcovError| ParseError::Lcov(e)));
            finish(t)
        },
        ReportFormat::Sarif => match crate::json::parse_json(text) {
            None => Err(ParseError::Sarif(sarif::SarifError::Malformed)),
            Some(doc) => {
                let r = sarif::sarif_from_json(&doc);
                let t = match r {
                    Ok(d) => Ok(d),
                    Err(e) => Err(ParseError::Sarif(e)),
                };
                assert(t == tagged(r, |e: sarif::SarifError| ParseError::Sarif(e)));
                finish(t)
            },
        },
        ReportFormat::CoveragePy => match crate::json::parse_json(text) {
            None => Err(ParseError::CoveragePy(coverage_py::CoveragePyError::Malformed)),
            Some(v) => {
                let r = coverage_py::coverage_py(&v);
                let t = match r {
                    Ok(d) => Ok(d),
                    Err(e) => Err(ParseError::CoveragePy(e)),
                };
                assert(t == tagged(r, |e: coverage_py::CoveragePyError| ParseError::CoveragePy(e)));
                finish(t)
            },
        },
        ReportFormat::Diagnostics => match crate::json::parse_json(text) {
            None => Err(ParseError::Diagnostics),
            Some(v) => match diagnostics::diagnostics(v) {
                Err(_) => Err(ParseError::Diagnostics),
                Ok(d) => finish(Ok(d)),
            },
        },
        _ => {
            let r = xml_report::parse_xml_report(format, text);
            let t = match r {
                Ok(d) => Ok(d),
                Err(e) => Err(ParseError::Xml(e)),
            };
            assert(t == tagged(r, |e: xml_report::XmlReportError| ParseError::Xml(e)));
            finish(t)
        },
    }
}

} // verus!

verus! {

/// A normalized report whose records cannot contradict each other.
pub open spec fn consistent(d: Data) -> bool {
    &&& (d.tests matches Some(t) ==> t.failures <= t.executed)
    &&& d.coverage_roots@.len() <= 64
    &&& forall|i: int| 0 <= i < d.issues@.len() ==> issue_error(#[trigger] d.issues@[i]) is None
    &&& forall|i: int| 0 <= i < d.coverage@.len() ==> !invalid_record(#[trigger] d.coverage@[i])
}

proof fn no_issue_error(issues: Seq<Issue>)
    requires
        first_issue_error(issues) is None,
    ensures
        forall|i: int| 0 <= i < issues.len() ==> issue_error(#[trigger] issues[i]) is None,
    decreases issues.len(),
{
    if issues.len() > 0 {
        no_issue_error(issues.drop_first());
        assert forall|i: int| 0 <= i < issues.len() implies issue_error(#[trigger] issues[i]) is None by {
            if i > 0 {
                assert(issues[i] == issues.drop_first()[i - 1]);
            }
        }
    }
}

proof fn no_invalid_record(lines: Seq<CoverageLine>, remaining: int)
    requires
        coverage_outcome(lines, remaining) is Ok,
    ensures
        forall|i: int| 0 <= i < lines.len() ==> !invalid_record(#[trigger] lines[i]),
    decreases lines.len(),
{
    if lines.len() > 0 {
        let left = charge(lines[0].file@, remaining)->Ok_0;
        no_invalid_record(lines.drop_first(), left);
        assert forall|i: int| 0 <= i < lines.len() implies !invalid_record(#[trigger] lines[i]) by {
            if i > 0 {
                assert(lines[i] == lines.drop_first()[i - 1]);
            }
        }
    }
}

/// Every report that `parse` accepts is consistent: no more failed tests than
/// executed ones, at most 64 source roots, every diagnostic with a rule, a
/// message and a primary location that agrees with its first location, and no
/// coverage record that is empty, at line zero, over-hit, or excluded yet counted.
pub proof fn accepted_reports_are_consistent(r: Result<Data, ParseError>)
    ensures
        checked(r) matches Ok(d) ==> consistent(d),
{
    if let Ok(d) = r {
        if report_error(d) is None {
            no_issue_error(d.issues@);
            let left = charge_all(
                texts(d.coverage_files@) + texts(d.coverage_roots@),
                COVERAGE_BUDGET as int,
            )->Ok_0;
            no_invalid_record(d.coverage@, left);
        }
    }
}

} // verus!
