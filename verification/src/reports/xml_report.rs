//! JUnit, Checkstyle, PMD and SpotBugs XML reports.

use vstd::prelude::*;
use crate::xml::{
    attribute, child_of, first_desc, has_child_tag, has_desc, has_tag, nearest_tagged, optional_number, within,
    XmlKind, XmlNode,
};
use crate::text::{chars_of, trim};
use super::{opt_text, Data, Issue, ReportFormat, Tests};
use super::lint::diagnostics_only;

verus! {

/// Why an XML tool report was refused.
#[derive(Debug, Clone, Copy, PartialEq, Eq, Structural)]
pub enum XmlReportError {
    /// The report is not well-formed XML (or declares a DTD).
    InvalidXml,
    /// The root element does not belong to the format.
    UnexpectedRoot,
    /// A numeric attribute is not an unsigned integer.
    InvalidNumber,
    /// A required numeric attribute is missing.
    MissingNumber,
    /// A summary counter contradicts the detail records.
    CountMismatch,
    /// An execution error outside any test case.
    ErrorOutsideTestCase,
    /// A diagnostic has no source file name.
    MissingFileName,
    /// A diagnostic has no message.
    MissingMessage,
    /// The analyzer reported an execution or configuration error.
    AnalyzerError,
    /// A SpotBugs bug has no type.
    MissingBugType,
    /// The prolog holds a declaration that is not a known inert report DTD.
    Header(super::xml_header::HeaderError),
    /// A coverage report is inconsistent.
    Coverage(super::coverage_xml::CoverageError),
}

/// `j` is a `testcase` element within the report root.
pub open spec fn is_case(nodes: Seq<XmlNode>, root: int, j: int) -> bool {
    within(nodes, j, root) && has_tag(nodes[j], "testcase"@)
}

/// A test case with a `failure` or `error` child.
pub open spec fn failing(nodes: Seq<XmlNode>, j: int) -> bool {
    has_child_tag(nodes, j, "failure"@) || has_child_tag(nodes, j, "error"@)
}

/// Executed, skipped and failed counts, and the failing cases, among nodes `0..n`.
pub type JunitProgress = (nat, nat, nat, Seq<int>);

/// Test outcomes over the first `n` nodes.
pub open spec fn junit_cases(nodes: Seq<XmlNode>, root: int, n: int) -> Result<JunitProgress, XmlReportError>
    decreases n,
{
    if n <= 0 {
        Ok((0, 0, 0, seq![]))
    } else {
        match junit_cases(nodes, root, n - 1) {
            Err(e) => Err(e),
            Ok((executed, skipped, failures, failed)) => {
                let j = n - 1;
                if !is_case(nodes, root, j) {
                    Ok((executed, skipped, failures, failed))
                } else if has_child_tag(nodes, j, "skipped"@) {
                    Ok((executed, skipped + 1, failures, failed))
                } else if !failing(nodes, j) {
                    Ok((executed + 1, skipped, failures, failed))
                } else if optional_number(nodes[j], "line"@) is Err {
                    Err(XmlReportError::InvalidNumber)
                } else {
                    Ok((executed + 1, skipped, failures + 1, failed.push(j)))
                }
            },
        }
    }
}

/// The message of one `failure` or `error` element.
pub open spec fn failure_text(node: XmlNode) -> Seq<char> {
    match attribute(node, "message"@) {
        Some(m) => m,
        None => match node.text {
            Some(t) => t@,
            None => "Test failed"@,
        },
    }
}

/// The messages of the failure and error children of case `j` among nodes `0..n`.
pub open spec fn failure_texts(nodes: Seq<XmlNode>, j: int, n: int) -> Seq<Seq<char>>
    decreases n,
{
    if n <= 0 {
        seq![]
    } else if child_of(nodes, n - 1, j) && (has_tag(nodes[n - 1], "failure"@) || has_tag(
        nodes[n - 1],
        "error"@,
    )) {
        failure_texts(nodes, j, n - 1).push(failure_text(nodes[n - 1]))
    } else {
        failure_texts(nodes, j, n - 1)
    }
}

/// `parts` joined by `sep`.
pub open spec fn join(parts: Seq<Seq<char>>, sep: Seq<char>) -> Seq<char>
    decreases parts.len(),
{
    if parts.len() == 0 {
        seq![]
    } else if parts.len() == 1 {
        parts[0]
    } else {
        join(parts.drop_last(), sep) + sep + parts.last()
    }
}

/// An attribute's text, or empty.
pub open spec fn attr_or_empty(node: XmlNode, name: Seq<char>) -> Seq<char> {
    match attribute(node, name) {
        Some(v) => v,
        None => seq![],
    }
}

/// The diagnostic that failing test case `j` becomes.
pub open spec fn junit_issue(nodes: Seq<XmlNode>, j: int, issue: Issue) -> bool {
    &&& issue.rule@ == "test-failure"@
    &&& crate::reports::opt_text(issue.file) == attribute(nodes[j], "file"@)
    &&& optional_number(nodes[j], "line"@) == Ok::<Option<usize>, ()>(issue.line)
    &&& issue.message@ == join(failure_texts(nodes, j, nodes.len() as int), "; "@)
    &&& issue.symbol matches Some(s) && s@ == attr_or_empty(nodes[j], "classname"@) + "#"@
        + attr_or_empty(nodes[j], "name"@)
    &&& issue.tool is None
    &&& issue.locations@.len() == 0
}

/// An `error` element whose parent is not a test case.
pub open spec fn stray_error(nodes: Seq<XmlNode>, root: int) -> bool {
    exists|k: int|
        0 <= k < nodes.len() && within(nodes, k, root) && has_tag(#[trigger] nodes[k], "error"@)
            && (nodes[k].parent matches Some(p) && p < nodes.len() && !has_tag(nodes[p as int], "testcase"@))
}

/// Once the scan of test cases has failed, it stays failed with the same error.
proof fn junit_cases_error_persists(nodes: Seq<XmlNode>, root: int, a: int, b: int)
    requires
        a <= b,
        junit_cases(nodes, root, a) is Err,
    ensures
        junit_cases(nodes, root, b) == junit_cases(nodes, root, a),
    decreases b - a,
{
    if a < b {
        junit_cases_error_persists(nodes, root, a, b - 1);
    }
}

/// The outcome of reading a JUnit report whose root element is `root`.
pub open spec fn junit_outcome(nodes: Seq<XmlNode>, root: int, res: Result<Data, XmlReportError>) -> bool {
    match junit_cases(nodes, root, nodes.len() as int) {
        Err(e) => res == Err::<Data, XmlReportError>(e),
        Ok((executed, skipped, failures, failed)) => match optional_number(nodes[root], "tests"@) {
            Err(_) => res == Err::<Data, XmlReportError>(XmlReportError::InvalidNumber),
            Ok(total) => if total matches Some(t) && t != executed + skipped {
                res == Err::<Data, XmlReportError>(XmlReportError::CountMismatch)
            } else if stray_error(nodes, root) {
                res == Err::<Data, XmlReportError>(XmlReportError::ErrorOutsideTestCase)
            } else {
                res matches Ok(d) && d.tests == Some(
                    Tests { executed: executed as usize, failures: failures as usize, skipped: skipped as usize },
                ) && d.issues@.len() == failed.len() && (forall|i: int|
                    0 <= i < failed.len() ==> junit_issue(nodes, failed[i], #[trigger] d.issues@[i]))
                    && d.coverage@.len() == 0 && d.coverage_files@.len() == 0
                    && d.coverage_roots@.len() == 0 && d.coverage_producer is None
                    && !d.branch_coverage && d.affected_files is None && d.sarif_runs@.len() == 0
            },
        },
    }
}

} // verus!

verus! {

fn failure_message(nodes: &Vec<XmlNode>, j: usize) -> (res: Vec<char>)
    ensures
        res@ == join(failure_texts(nodes@, j as int, nodes@.len() as int), "; "@),
{
    let sep = crate::text::chars_of("; ");
    let mut acc: Vec<char> = Vec::new();
    let mut count: usize = 0;
    let mut k: usize = 0;
    while k < nodes.len()
        invariant
            0 <= k <= nodes@.len(),
            sep@ == "; "@,
            count == failure_texts(nodes@, j as int, k as int).len(),
            count <= k,
            acc@ == join(failure_texts(nodes@, j as int, k as int), "; "@),
        decreases nodes@.len() - k,
    {
        let node = &nodes[k];
        if node.parent == Some(j) && (crate::xml::is_tag(node, "failure") || crate::xml::is_tag(
            node,
            "error",
        )) {
            let text = match crate::xml::attr(node, "message") {
                Some(m) => crate::text::chars_of(m.as_str()),
                None => match &node.text {
                    Some(t) => crate::text::chars_of(t.as_str()),
                    None => crate::text::chars_of("Test failed"),
                },
            };
            assert(text@ == failure_text(nodes@[k as int]));
            let ghost parts = failure_texts(nodes@, j as int, k as int).push(text@);
            assert(parts.drop_last() =~= failure_texts(nodes@, j as int, k as int));
            if count == 0 {
                acc = text;
            } else {
                crate::text::extend_chars(&mut acc, &sep);
                crate::text::extend_chars(&mut acc, &text);
            }
            count = count + 1;
        }
        k = k + 1;
    }
    acc
}

fn symbol_of(node: &XmlNode) -> (res: String)
    ensures
        res@ == attr_or_empty(*node, "classname"@) + "#"@ + attr_or_empty(*node, "name"@),
{
    let mut v: Vec<char> = match crate::xml::attr(node, "classname") {
        Some(c) => crate::text::chars_of(c.as_str()),
        None => Vec::new(),
    };
    v.push('#');
    let name = match crate::xml::attr(node, "name") {
        Some(c) => crate::text::chars_of(c.as_str()),
        None => Vec::new(),
    };
    crate::text::extend_chars(&mut v, &name);
    proof {
        reveal_strlit("#");
    }
    assert(v@ =~= attr_or_empty(*node, "classname"@) + "#"@ + attr_or_empty(*node, "name"@));
    crate::text::string_of(&v)
}

/// Read a JUnit report whose root element is `root`.
pub fn junit(nodes: &Vec<XmlNode>, root: usize) -> (res: Result<Data, XmlReportError>)
    requires
        root < nodes@.len(),
    ensures
        junit_outcome(nodes@, root as int, res),
{
    let mut data = Data::empty();
    let mut executed: usize = 0;
    let mut skipped: usize = 0;
    let mut failures: usize = 0;
    let ghost mut failed: Seq<int> = seq![];
    let mut j: usize = 0;
    while j < nodes.len()
        invariant
            0 <= j <= nodes@.len(),
            root < nodes@.len(),
            executed + skipped <= j,
            failures <= executed,
            junit_cases(nodes@, root as int, j as int) == Ok::<JunitProgress, XmlReportError>(
                (executed as nat, skipped as nat, failures as nat, failed),
            ),
            data.tests is None,
            data.coverage@.len() == 0 && data.coverage_files@.len() == 0
                && data.coverage_roots@.len() == 0 && data.coverage_producer is None
                && !data.branch_coverage && data.affected_files is None && data.sarif_runs@.len() == 0,
            data.issues@.len() == failed.len(),
            forall|i: int| 0 <= i < failed.len() ==> junit_issue(nodes@, failed[i], #[trigger] data.issues@[i]),
        decreases nodes@.len() - j,
    {
        let node = &nodes[j];
        if crate::xml::is_within(nodes, j, root) && crate::xml::is_tag(node, "testcase") {
            if crate::xml::child_tag(nodes, j, "skipped") {
                skipped = skipped + 1;
            } else {
                let failing_case = crate::xml::child_tag(nodes, j, "failure") || crate::xml::child_tag(
                    nodes,
                    j,
                    "error",
                );
                if !failing_case {
                    executed = executed + 1;
                } else {
                    let line = match crate::xml::number_attr(node, "line") {
                        Ok(l) => l,
                        Err(()) => {
                            proof {
                                junit_cases_error_persists(
                                    nodes@,
                                    root as int,
                                    j + 1,
                                    nodes@.len() as int,
                                );
                            }
                            return Err(XmlReportError::InvalidNumber);
                        },
                    };
                    let message = failure_message(nodes, j);
                    let file = match crate::xml::attr(node, "file") {
                        Some(f) => Some(f.clone()),
                        None => None,
                    };
                    let issue = Issue {
                        rule: String::from_str("test-failure"),
                        file,
                        line,
                        message: crate::text::string_of(&message),
                        symbol: Some(symbol_of(node)),
                        tool: None,
                        locations: Vec::new(),
                    };
                    data.issues.push(issue);
                    proof {
                        failed = failed.push(j as int);
                    }
                    executed = executed + 1;
                    failures = failures + 1;
                }
            }
        }
        j = j + 1;
    }
    let total = match crate::xml::number_attr(&nodes[root], "tests") {
        Ok(t) => t,
        Err(()) => return Err(XmlReportError::InvalidNumber),
    };
    if let Some(t) = total {
        if t != executed + skipped {
            return Err(XmlReportError::CountMismatch);
        }
    }
    let mut k: usize = 0;
    while k < nodes.len()
        invariant
            0 <= k <= nodes@.len(),
            root < nodes@.len(),
            junit_cases(nodes@, root as int, nodes@.len() as int) == Ok::<JunitProgress, XmlReportError>(
                (executed as nat, skipped as nat, failures as nat, failed),
            ),
            optional_number(nodes@[root as int], "tests"@) == Ok::<Option<usize>, ()>(total),
            !(total matches Some(t) && t != executed + skipped),
            forall|q: int|
                0 <= q < k ==> !(within(nodes@, q, root as int) && has_tag(#[trigger] nodes@[q], "error"@)
                    && (nodes@[q].parent matches Some(p) && p < nodes@.len() && !has_tag(nodes@[p as int], "testcase"@))),
        decreases nodes@.len() - k,
    {
        if crate::xml::is_within(nodes, k, root) && crate::xml::is_tag(&nodes[k], "error") {
            if let Some(p) = nodes[k].parent {
                if p < nodes.len() && !crate::xml::is_tag(&nodes[p], "testcase") {
                    return Err(XmlReportError::ErrorOutsideTestCase);
                }
            }
        }
        k = k + 1;
    }
    data.tests = Some(Tests { executed, failures, skipped });
    Ok(data)
}

} // verus!

verus! {

/// The element that holds one diagnostic: `error` for Checkstyle, `violation` otherwise.
pub open spec fn diag_tag(format: ReportFormat) -> Seq<char> {
    if format == ReportFormat::Checkstyle {
        "error"@
    } else {
        "violation"@
    }
}

/// The attribute that names a diagnostic's rule.
pub open spec fn rule_attr(format: ReportFormat) -> Seq<char> {
    if format == ReportFormat::Checkstyle {
        "source"@
    } else {
        "rule"@
    }
}

/// The attribute that holds a diagnostic's line.
pub open spec fn line_attr(format: ReportFormat) -> Seq<char> {
    if format == ReportFormat::Checkstyle {
        "line"@
    } else {
        "beginline"@
    }
}

/// The name of the nearest `file` element around node `j`.
pub open spec fn diag_file(nodes: Seq<XmlNode>, j: int) -> Option<Seq<char>> {
    match nearest_tagged(nodes, j, "file"@) {
        Some(f) => attribute(nodes[f], "name"@),
        None => None,
    }
}

/// A diagnostic's `message` attribute, else its text.
pub open spec fn diag_message(node: XmlNode) -> Option<Seq<char>> {
    match attribute(node, "message"@) {
        Some(m) => Some(m),
        None => match node.text {
            Some(t) => Some(t@),
            None => None,
        },
    }
}

/// Why diagnostic element `j` cannot be read, if it cannot.
pub open spec fn diag_error(nodes: Seq<XmlNode>, j: int, format: ReportFormat) -> Option<XmlReportError> {
    if diag_file(nodes, j) is None {
        Some(XmlReportError::MissingFileName)
    } else if diag_message(nodes[j]) is None {
        Some(XmlReportError::MissingMessage)
    } else if optional_number(nodes[j], line_attr(format)) is Err {
        Some(XmlReportError::InvalidNumber)
    } else {
        None
    }
}

/// The diagnostic that element `j` becomes.
pub open spec fn diag_issue(nodes: Seq<XmlNode>, j: int, format: ReportFormat, issue: Issue) -> bool {
    &&& issue.rule@ == (match attribute(nodes[j], rule_attr(format)) {
        Some(r) => r,
        None => diag_tag(format),
    })
    &&& opt_text(issue.file) == diag_file(nodes, j)
    &&& optional_number(nodes[j], line_attr(format)) == Ok::<Option<usize>, ()>(issue.line)
    &&& diag_message(nodes[j]) matches Some(m) && issue.message@ == trim(m)
    &&& issue.symbol is None
    &&& issue.tool is None
    &&& issue.locations@.len() == 0
}

/// The diagnostic elements within the report among nodes `0..n`, or the first error.
pub open spec fn diag_scan(nodes: Seq<XmlNode>, root: int, format: ReportFormat, n: int) -> Result<Seq<int>, XmlReportError>
    decreases n,
{
    if n <= 0 {
        Ok(seq![])
    } else {
        match diag_scan(nodes, root, format, n - 1) {
            Err(e) => Err(e),
            Ok(found) => {
                let j = n - 1;
                if !(within(nodes, j, root) && has_tag(nodes[j], diag_tag(format))) {
                    Ok(found)
                } else {
                    match diag_error(nodes, j, format) {
                        Some(e) => Err(e),
                        None => Ok(found.push(j)),
                    }
                }
            },
        }
    }
}

/// Once the diagnostic scan has failed, it stays failed with the same error.
proof fn diag_scan_error_persists(nodes: Seq<XmlNode>, root: int, format: ReportFormat, a: int, b: int)
    requires
        a <= b,
        diag_scan(nodes, root, format, a) is Err,
    ensures
        diag_scan(nodes, root, format, b) == diag_scan(nodes, root, format, a),
    decreases b - a,
{
    if a < b {
        diag_scan_error_persists(nodes, root, format, a, b - 1);
    }
}

/// The report holds a PMD `error` or any `configerror` element.
pub open spec fn analyzer_error(nodes: Seq<XmlNode>, root: int, format: ReportFormat) -> bool {
    (format == ReportFormat::Pmd && has_desc(nodes, root, "error"@)) || has_desc(
        nodes,
        root,
        "configerror"@,
    )
}

/// The outcome of reading a Checkstyle or PMD report whose root element is `root`.
pub open spec fn diagnostics_outcome(
    nodes: Seq<XmlNode>,
    root: int,
    format: ReportFormat,
    res: Result<Data, XmlReportError>,
) -> bool {
    match diag_scan(nodes, root, format, nodes.len() as int) {
        Err(e) => res == Err::<Data, XmlReportError>(e),
        Ok(found) => if analyzer_error(nodes, root, format) {
            res == Err::<Data, XmlReportError>(XmlReportError::AnalyzerError)
        } else {
            res matches Ok(d) && diagnostics_only(d) && d.issues@.len() == found.len() && (forall|i: int|
                0 <= i < found.len() ==> diag_issue(nodes, found[i], format, #[trigger] d.issues@[i]))
        },
    }
}

/// Read a Checkstyle (or, for any other format, PMD) report whose root element is `root`.
pub fn file_diagnostics(format: ReportFormat, nodes: &Vec<XmlNode>, root: usize) -> (res: Result<Data, XmlReportError>)
    ensures
        diagnostics_outcome(nodes@, root as int, format, res),
{
    let checkstyle = matches!(format, ReportFormat::Checkstyle);
    let tag = if checkstyle { "error" } else { "violation" };
    let rule_name = if checkstyle { "source" } else { "rule" };
    let line_name = if checkstyle { "line" } else { "beginline" };
    let mut data = Data::empty();
    let ghost mut found: Seq<int> = seq![];
    let mut j: usize = 0;
    while j < nodes.len()
        invariant
            0 <= j <= nodes@.len(),
            tag@ == diag_tag(format),
            rule_name@ == rule_attr(format),
            line_name@ == line_attr(format),
            diag_scan(nodes@, root as int, format, j as int) == Ok::<Seq<int>, XmlReportError>(found),
            diagnostics_only(data),
            data.issues@.len() == found.len(),
            forall|i: int| 0 <= i < found.len() ==> diag_issue(nodes@, found[i], format, #[trigger] data.issues@[i]),
        decreases nodes@.len() - j,
    {
        let node = &nodes[j];
        if crate::xml::is_within(nodes, j, root) && crate::xml::is_tag(node, tag) {
            let file = match crate::xml::nearest(nodes, j, "file") {
                Some(f) => match crate::xml::attr(&nodes[f], "name") {
                    Some(name) => name.clone(),
                    None => {
                        proof {
                            diag_scan_error_persists(nodes@, root as int, format, j + 1, nodes@.len() as int);
                        }
                        return Err(XmlReportError::MissingFileName);
                    },
                },
                None => {
                    proof {
                        diag_scan_error_persists(nodes@, root as int, format, j + 1, nodes@.len() as int);
                    }
                    return Err(XmlReportError::MissingFileName);
                },
            };
            let message = match crate::xml::attr(node, "message") {
                Some(m) => chars_of(m.as_str()),
                None => match &node.text {
                    Some(t) => chars_of(t.as_str()),
                    None => {
                        proof {
                            diag_scan_error_persists(nodes@, root as int, format, j + 1, nodes@.len() as int);
                        }
                        return Err(XmlReportError::MissingMessage);
                    },
                },
            };
            let line = match crate::xml::number_attr(node, line_name) {
                Ok(l) => l,
                Err(()) => {
                    proof {
                        diag_scan_error_persists(nodes@, root as int, format, j + 1, nodes@.len() as int);
                    }
                    return Err(XmlReportError::InvalidNumber);
                },
            };
            let rule = match crate::xml::attr(node, rule_name) {
                Some(r) => r.clone(),
                None => String::from_str(tag),
            };
            let text = crate::text::trimmed(&message);
            let issue = Issue {
                rule,
                file: Some(file),
                line,
                message: crate::text::string_of(&text),
                symbol: None,
                tool: None,
                locations: Vec::new(),
            };
            data.issues.push(issue);
            proof {
                found = found.push(j as int);
            }
        }
        j = j + 1;
    }
    let pmd = matches!(format, ReportFormat::Pmd);
    if (pmd && crate::xml::any_descendant(nodes, root, "error")) || crate::xml::any_descendant(
        nodes,
        root,
        "configerror",
    ) {
        return Err(XmlReportError::AnalyzerError);
    }
    Ok(data)
}

} // verus!

verus! {

/// A `SourceLine` element marked `primary="true"`.
pub open spec fn primary_source(node: XmlNode) -> bool {
    has_tag(node, "SourceLine"@) && attribute(node, "primary"@) == Some("true"@)
}

/// The first primary source line within node `b` among nodes `0..n`.
pub open spec fn first_primary(nodes: Seq<XmlNode>, b: int, n: int) -> Option<int>
    decreases n,
{
    if n <= 0 {
        None
    } else {
        match first_primary(nodes, b, n - 1) {
            Some(k) => Some(k),
            None => if within(nodes, n - 1, b) && primary_source(nodes[n - 1]) {
                Some(n - 1)
            } else {
                None
            },
        }
    }
}

proof fn first_primary_stable(nodes: Seq<XmlNode>, b: int, m: int, n: int)
    requires
        m <= n,
        first_primary(nodes, b, m) is Some,
    ensures
        first_primary(nodes, b, n) == first_primary(nodes, b, m),
    decreases n - m,
{
    if m < n {
        first_primary_stable(nodes, b, m, n - 1);
    }
}

/// The first `LongMessage` or `ShortMessage` child of node `b` among nodes `0..n`.
pub open spec fn first_message(nodes: Seq<XmlNode>, b: int, n: int) -> Option<int>
    decreases n,
{
    if n <= 0 {
        None
    } else {
        match first_message(nodes, b, n - 1) {
            Some(k) => Some(k),
            None => if child_of(nodes, n - 1, b) && (has_tag(nodes[n - 1], "LongMessage"@)
                || has_tag(nodes[n - 1], "ShortMessage"@)) {
                Some(n - 1)
            } else {
                None
            },
        }
    }
}

proof fn first_message_stable(nodes: Seq<XmlNode>, b: int, m: int, n: int)
    requires
        m <= n,
        first_message(nodes, b, m) is Some,
    ensures
        first_message(nodes, b, n) == first_message(nodes, b, m),
    decreases n - m,
{
    if m < n {
        first_message_stable(nodes, b, m, n - 1);
    }
}

/// The source line of bug `b`: its first primary `SourceLine`, else its first `SourceLine`.
pub open spec fn bug_source(nodes: Seq<XmlNode>, b: int) -> Option<int> {
    match first_primary(nodes, b, nodes.len() as int) {
        Some(k) => Some(k),
        None => first_desc(nodes, b, "SourceLine"@, nodes.len() as int),
    }
}

/// A source line's `sourcepath`, else its `sourcefile`.
pub open spec fn source_file(node: XmlNode) -> Option<Seq<char>> {
    match attribute(node, "sourcepath"@) {
        Some(p) => Some(p),
        None => attribute(node, "sourcefile"@),
    }
}

/// Why bug `b` cannot be read, if it cannot.
pub open spec fn bug_error(nodes: Seq<XmlNode>, b: int) -> Option<XmlReportError> {
    if attribute(nodes[b], "type"@) is None {
        Some(XmlReportError::MissingBugType)
    } else if bug_source(nodes, b) matches Some(s) && optional_number(nodes[s], "start"@) is Err {
        Some(XmlReportError::InvalidNumber)
    } else {
        None
    }
}

/// The bug's type, or `Bug`.
pub open spec fn type_or_bug(node: XmlNode) -> Seq<char> {
    match attribute(node, "type"@) {
        Some(t) => t,
        None => "Bug"@,
    }
}

/// The text of the bug's first message child, else its type.
pub open spec fn bug_message(nodes: Seq<XmlNode>, b: int) -> Seq<char> {
    match first_message(nodes, b, nodes.len() as int) {
        Some(k) => match nodes[k].text {
            Some(t) => t@,
            None => type_or_bug(nodes[b]),
        },
        None => type_or_bug(nodes[b]),
    }
}

/// The name of the first `Method` within the bug.
pub open spec fn bug_symbol(nodes: Seq<XmlNode>, b: int) -> Option<Seq<char>> {
    match first_desc(nodes, b, "Method"@, nodes.len() as int) {
        Some(k) => attribute(nodes[k], "name"@),
        None => None,
    }
}

/// The diagnostic that bug `b` becomes.
pub open spec fn bug_issue(nodes: Seq<XmlNode>, b: int, issue: Issue) -> bool {
    &&& attribute(nodes[b], "type"@) == Some(issue.rule@)
    &&& opt_text(issue.file) == (match bug_source(nodes, b) {
        Some(s) => source_file(nodes[s]),
        None => None,
    })
    &&& (match bug_source(nodes, b) {
        Some(s) => optional_number(nodes[s], "start"@) == Ok::<Option<usize>, ()>(issue.line),
        None => issue.line is None,
    })
    &&& issue.message@ == bug_message(nodes, b)
    &&& opt_text(issue.symbol) == bug_symbol(nodes, b)
    &&& issue.tool is None
    &&& issue.locations@.len() == 0
}

/// The bugs within the report among nodes `0..n`, or the first error.
pub open spec fn bug_scan(nodes: Seq<XmlNode>, root: int, n: int) -> Result<Seq<int>, XmlReportError>
    decreases n,
{
    if n <= 0 {
        Ok(seq![])
    } else {
        match bug_scan(nodes, root, n - 1) {
            Err(e) => Err(e),
            Ok(found) => {
                let j = n - 1;
                if !(within(nodes, j, root) && has_tag(nodes[j], "BugInstance"@)) {
                    Ok(found)
                } else {
                    match bug_error(nodes, j) {
                        Some(e) => Err(e),
                        None => Ok(found.push(j)),
                    }
                }
            },
        }
    }
}

proof fn bug_scan_error_persists(nodes: Seq<XmlNode>, root: int, a: int, b: int)
    requires
        a <= b,
        bug_scan(nodes, root, a) is Err,
    ensures
        bug_scan(nodes, root, b) == bug_scan(nodes, root, a),
    decreases b - a,
{
    if a < b {
        bug_scan_error_persists(nodes, root, a, b - 1);
    }
}

/// The outcome of reading a SpotBugs report whose root element is `root`.
pub open spec fn spotbugs_outcome(nodes: Seq<XmlNode>, root: int, res: Result<Data, XmlReportError>) -> bool {
    if has_desc(nodes, root, "Error"@) {
        res == Err::<Data, XmlReportError>(XmlReportError::AnalyzerError)
    } else {
        match bug_scan(nodes, root, nodes.len() as int) {
            Err(e) => res == Err::<Data, XmlReportError>(e),
            Ok(found) => res matches Ok(d) && diagnostics_only(d) && d.issues@.len() == found.len()
                && (forall|i: int| 0 <= i < found.len() ==> bug_issue(nodes, found[i], #[trigger] d.issues@[i])),
        }
    }
}

fn find_primary(nodes: &Vec<XmlNode>, b: usize) -> (res: Option<usize>)
    ensures
        res matches Some(k) ==> first_primary(nodes@, b as int, nodes@.len() as int) == Some(k as int)
            && k < nodes@.len(),
        res is None ==> first_primary(nodes@, b as int, nodes@.len() as int) is None,
{
    let mut k: usize = 0;
    while k < nodes.len()
        invariant
            0 <= k <= nodes@.len(),
            first_primary(nodes@, b as int, k as int) is None,
        decreases nodes@.len() - k,
    {
        let node = &nodes[k];
        if crate::xml::is_within(nodes, k, b) && crate::xml::is_tag(node, "SourceLine") {
            let primary = match crate::xml::attr(node, "primary") {
                Some(v) => {
                    let c = chars_of(v.as_str());
                    crate::text::text_is(&c, "true")
                },
                None => false,
            };
            if primary {
                proof {
                    first_primary_stable(nodes@, b as int, k + 1, nodes@.len() as int);
                }
                return Some(k);
            }
        }
        k = k + 1;
    }
    None
}

fn find_message(nodes: &Vec<XmlNode>, b: usize) -> (res: Option<usize>)
    ensures
        res matches Some(k) ==> first_message(nodes@, b as int, nodes@.len() as int) == Some(k as int)
            && k < nodes@.len(),
        res is None ==> first_message(nodes@, b as int, nodes@.len() as int) is None,
{
    let mut k: usize = 0;
    while k < nodes.len()
        invariant
            0 <= k <= nodes@.len(),
            first_message(nodes@, b as int, k as int) is None,
        decreases nodes@.len() - k,
    {
        let node = &nodes[k];
        if node.parent == Some(b) && (crate::xml::is_tag(node, "LongMessage") || crate::xml::is_tag(
            node,
            "ShortMessage",
        )) {
            proof {
                first_message_stable(nodes@, b as int, k + 1, nodes@.len() as int);
            }
            return Some(k);
        }
        k = k + 1;
    }
    None
}

/// Read a SpotBugs report whose root element is `root`.
pub fn spotbugs(nodes: &Vec<XmlNode>, root: usize) -> (res: Result<Data, XmlReportError>)
    ensures
        spotbugs_outcome(nodes@, root as int, res),
{
    if crate::xml::any_descendant(nodes, root, "Error") {
        return Err(XmlReportError::AnalyzerError);
    }
    let mut data = Data::empty();
    let ghost mut found: Seq<int> = seq![];
    let mut j: usize = 0;
    while j < nodes.len()
        invariant
            0 <= j <= nodes@.len(),
            !has_desc(nodes@, root as int, "Error"@),
            bug_scan(nodes@, root as int, j as int) == Ok::<Seq<int>, XmlReportError>(found),
            diagnostics_only(data),
            data.issues@.len() == found.len(),
            forall|i: int| 0 <= i < found.len() ==> bug_issue(nodes@, found[i], #[trigger] data.issues@[i]),
        decreases nodes@.len() - j,
    {
        let node = &nodes[j];
        if crate::xml::is_within(nodes, j, root) && crate::xml::is_tag(node, "BugInstance") {
            let rule = match crate::xml::attr(node, "type") {
                Some(t) => t.clone(),
                None => {
                    proof {
                        bug_scan_error_persists(nodes@, root as int, j + 1, nodes@.len() as int);
                    }
                    return Err(XmlReportError::MissingBugType);
                },
            };
            let source = match find_primary(nodes, j) {
                Some(k) => Some(k),
                None => crate::xml::first_descendant(nodes, j, "SourceLine"),
            };
            let (file, line) = match source {
                Some(s) => {
                    let line = match crate::xml::number_attr(&nodes[s], "start") {
                        Ok(l) => l,
                        Err(()) => {
                            proof {
                                bug_scan_error_persists(nodes@, root as int, j + 1, nodes@.len() as int);
                            }
                            return Err(XmlReportError::InvalidNumber);
                        },
                    };
                    let file = match crate::xml::attr(&nodes[s], "sourcepath") {
                        Some(p) => Some(p.clone()),
                        None => match crate::xml::attr(&nodes[s], "sourcefile") {
                            Some(p) => Some(p.clone()),
                            None => None,
                        },
                    };
                    (file, line)
                },
                None => (None, None),
            };
            let message = match find_message(nodes, j) {
                Some(k) => match &nodes[k].text {
                    Some(t) => t.clone(),
                    None => rule.clone(),
                },
                None => rule.clone(),
            };
            let symbol = match crate::xml::first_descendant(nodes, j, "Method") {
                Some(k) => match crate::xml::attr(&nodes[k], "name") {
                    Some(n) => Some(n.clone()),
                    None => None,
                },
                None => None,
            };
            let issue = Issue {
                rule,
                file,
                line,
                message,
                symbol,
                tool: None,
                locations: Vec::new(),
            };
            data.issues.push(issue);
            proof {
                found = found.push(j as int);
            }
        }
        j = j + 1;
    }
    Ok(data)
}

} // verus!

verus! {

/// The root element that each XML format must have.
pub open spec fn valid_root(format: ReportFormat, node: XmlNode) -> bool {
    match format {
        ReportFormat::Junit => has_tag(node, "testsuite"@) || has_tag(node, "testsuites"@),
        ReportFormat::Checkstyle => has_tag(node, "checkstyle"@),
        ReportFormat::Spotbugs => has_tag(node, "BugCollection"@),
        ReportFormat::Pmd => has_tag(node, "pmd"@),
        ReportFormat::Cobertura => has_tag(node, "coverage"@),
        ReportFormat::Jacoco => has_tag(node, "report"@),
        _ => false,
    }
}

/// `res` is a coverage reader's outcome with its error wrapped.
pub open spec fn lifted(
    res: Result<Data, XmlReportError>,
    outcome: spec_fn(Result<Data, super::coverage_xml::CoverageError>) -> bool,
) -> bool {
    match res {
        Ok(d) => outcome(Ok(d)),
        Err(XmlReportError::Coverage(e)) => outcome(Err(e)),
        Err(_) => false,
    }
}

/// The outcome of reading a parsed XML report of `format`.
pub open spec fn xml_outcome(format: ReportFormat, nodes: Seq<XmlNode>, res: Result<Data, XmlReportError>) -> bool {
    match crate::xml::root_element(nodes) {
        None => res == Err::<Data, XmlReportError>(XmlReportError::UnexpectedRoot),
        Some(r) => if !valid_root(format, nodes[r]) {
            res == Err::<Data, XmlReportError>(XmlReportError::UnexpectedRoot)
        } else {
            match format {
                ReportFormat::Junit => junit_outcome(nodes, r, res),
                ReportFormat::Spotbugs => spotbugs_outcome(nodes, r, res),
                ReportFormat::Cobertura => lifted(
                    res,
                    |c: Result<Data, super::coverage_xml::CoverageError>| super::cobertura::cobertura_outcome(nodes, r, c),
                ),
                ReportFormat::Jacoco => lifted(
                    res,
                    |c: Result<Data, super::coverage_xml::CoverageError>| super::coverage_xml::jacoco_outcome(nodes, r, c),
                ),
                _ => diagnostics_outcome(nodes, r, format, res),
            }
        },
    }
}

fn lift(res: Result<Data, super::coverage_xml::CoverageError>) -> (out: Result<Data, XmlReportError>)
    ensures
        match res {
            Ok(d) => out == Ok::<Data, XmlReportError>(d),
            Err(e) => out == Err::<Data, XmlReportError>(XmlReportError::Coverage(e)),
        },
{
    match res {
        Ok(d) => Ok(d),
        Err(e) => Err(XmlReportError::Coverage(e)),
    }
}

/// Read a parsed XML report of `format`: check its root element, then read it as the
/// format requires.
pub fn report_from_nodes(format: ReportFormat, nodes: &Vec<XmlNode>) -> (res: Result<Data, XmlReportError>)
    ensures
        xml_outcome(format, nodes@, res),
{
    let root = match crate::xml::find_root_element(nodes) {
        None => return Err(XmlReportError::UnexpectedRoot),
        Some(r) => r,
    };
    let node = &nodes[root];
    let valid = match format {
        ReportFormat::Junit => crate::xml::is_tag(node, "testsuite") || crate::xml::is_tag(node, "testsuites"),
        ReportFormat::Checkstyle => crate::xml::is_tag(node, "checkstyle"),
        ReportFormat::Spotbugs => crate::xml::is_tag(node, "BugCollection"),
        ReportFormat::Pmd => crate::xml::is_tag(node, "pmd"),
        ReportFormat::Cobertura => crate::xml::is_tag(node, "coverage"),
        ReportFormat::Jacoco => crate::xml::is_tag(node, "report"),
        _ => false,
    };
    if !valid {
        return Err(XmlReportError::UnexpectedRoot);
    }
    match format {
        ReportFormat::Junit => junit(nodes, root),
        ReportFormat::Spotbugs => spotbugs(nodes, root),
        ReportFormat::Cobertura => lift(super::cobertura::cobertura(nodes, root)),
        ReportFormat::Jacoco => lift(super::coverage_xml::jacoco(nodes, root)),
        _ => file_diagnostics(format, nodes, root),
    }
}

/// Most nodes an XML report may hold.
pub const MAX_XML_NODES: u32 = 100000;

/// The outcome of reading XML report text of `format`: its prolog is checked and
/// known DTDs blanked, the result parsed with no DTD and at most 100000 nodes, and
/// the nodes read.
pub open spec fn xml_text_outcome(format: ReportFormat, text: Seq<char>, res: Result<Data, XmlReportError>) -> bool {
    match super::xml_header::spec_normalize(format, vstd::utf8::encode_utf8(text)) {
        Err(e) => res == Err::<Data, XmlReportError>(XmlReportError::Header(e)),
        Ok(b) => if !vstd::utf8::valid_utf8(b) {
            res == Err::<Data, XmlReportError>(XmlReportError::InvalidXml)
        } else {
            match crate::xml::spec_parse_xml(vstd::utf8::decode_utf8(b), MAX_XML_NODES) {
                None => res == Err::<Data, XmlReportError>(XmlReportError::InvalidXml),
                Some(nodes) => xml_outcome(format, nodes, res),
            }
        },
    }
}

/// Read XML report text of `format`.
pub fn parse_xml_report(format: ReportFormat, text: &str) -> (res: Result<Data, XmlReportError>)
    ensures
        xml_text_outcome(format, text@, res),
{
    let normalized = match super::xml_header::normalize(format, text.as_bytes()) {
        Err(e) => return Err(XmlReportError::Header(e)),
        Ok(b) => b,
    };
    let clean = match crate::text::text_of_bytes(normalized.as_slice()) {
        None => return Err(XmlReportError::InvalidXml),
        Some(t) => t,
    };
    proof {
        vstd::utf8::encode_utf8_decode_utf8(clean@);
    }
    let nodes = match crate::xml::parse_xml(clean, MAX_XML_NODES) {
        None => return Err(XmlReportError::InvalidXml),
        Some(n) => n,
    };
    report_from_nodes(format, &nodes)
}

} // verus!
