//! Strict JUnit test-case evidence: every case names a captured file, has a name
//! and one unambiguous outcome, and every suite counter agrees with its records.
//! Ordinary JUnit reading is unchanged by this profile.

use vstd::prelude::*;
use crate::xml::{attribute, child_of, has_child_tag, has_tag, optional_number, within, XmlKind, XmlNode};
use crate::text::blank;
use crate::paths::{repository_path, PathError};
use crate::provenance::File;
use super::xml_header::HeaderError;
use super::xml_report::attr_or_empty;
use super::sarif_locations::string_views;

verus! {

/// Most test cases a report may hold.
pub const MAX_CASES: usize = 50000;

/// Why a JUnit report is not test-case evidence.
#[derive(Debug, Clone, Copy, PartialEq, Eq, Structural)]
pub enum TestCaseError {
    /// The report exceeds its size budget.
    TooLarge,
    /// The report is not UTF-8.
    NotUtf8,
    /// The prolog holds a declaration that is not a known inert report DTD.
    Header(HeaderError),
    /// The report is not well-formed XML.
    InvalidXml,
    /// The root element is neither `testsuite` nor `testsuites`.
    UnexpectedRoot,
    /// More test cases than the budget allows.
    TooManyCases,
    /// A test case without a `file` attribute.
    MissingFile,
    /// A test file outside the workspace, or leading to a parent directory.
    Path(PathError),
    /// A test file that is not a captured input.
    UnknownFile,
    /// A test case without a name.
    MissingName,
    /// A test case with outcomes of different kinds, or repeated non-failure outcomes.
    ContradictoryOutcomes,
    /// A test case that is not a direct child of a `testsuite`.
    NotInSuite,
    /// A `failure`, `error` or `skipped` element outside a test case.
    OutcomeOutsideCase,
    /// A suite or test case whose parent is not a suite.
    UnsupportedParent,
    /// A suite counter that is not an unsigned integer.
    InvalidNumber,
    /// A suite counter that contradicts its test-case records.
    CountMismatch,
}

/// How a test case ended.
#[derive(Debug, Clone)]
pub enum TestOutcome {
    Passed,
    /// A failure, with the `type` of each failure element (empty when absent).
    Failure { types: Vec<String> },
    Error,
    Skipped,
}

/// One test case of a strict JUnit report.
#[derive(Debug, Clone)]
pub struct TestCase {
    pub file: String,
    pub classname: String,
    pub name: String,
    pub outcome: TestOutcome,
}

/// A test outcome as plain values.
pub enum OutcomeView {
    Passed,
    Failure(Seq<Seq<char>>),
    Error,
    Skipped,
}

/// A test case as plain values.
pub struct CaseView {
    pub file: Seq<char>,
    pub classname: Seq<char>,
    pub name: Seq<char>,
    pub outcome: OutcomeView,
}

/// The plain values of an outcome.
pub open spec fn outcome_view(o: TestOutcome) -> OutcomeView {
    match o {
        TestOutcome::Passed => OutcomeView::Passed,
        TestOutcome::Failure { types } => OutcomeView::Failure(string_views(types@)),
        TestOutcome::Error => OutcomeView::Error,
        TestOutcome::Skipped => OutcomeView::Skipped,
    }
}

/// The plain values of a test case.
pub open spec fn case_view(c: TestCase) -> CaseView {
    CaseView { file: c.file@, classname: c.classname@, name: c.name@, outcome: outcome_view(c.outcome) }
}

/// The plain values of a list of test cases.
pub open spec fn cases_view(v: Seq<TestCase>) -> Seq<CaseView> {
    v.map_values(|c: TestCase| case_view(c))
}

/// A `failure`, `error` or `skipped` element.
pub open spec fn is_status(node: XmlNode) -> bool {
    has_tag(node, "failure"@) || has_tag(node, "error"@) || has_tag(node, "skipped"@)
}

/// A `testsuite` or `testsuites` element.
pub open spec fn is_suite(node: XmlNode) -> bool {
    has_tag(node, "testsuite"@) || has_tag(node, "testsuites"@)
}

/// The outcome children of case `j` among the first `n` nodes, in document order.
pub open spec fn statuses_upto(nodes: Seq<XmlNode>, j: int, n: int) -> Seq<int>
    decreases n,
{
    if n <= 0 {
        seq![]
    } else {
        statuses_upto(nodes, j, n - 1) + if child_of(nodes, n - 1, j) && is_status(nodes[n - 1]) {
            seq![n - 1]
        } else {
            seq![]
        }
    }
}

/// The outcome children of case `j`, in document order.
pub open spec fn statuses(nodes: Seq<XmlNode>, j: int) -> Seq<int> {
    statuses_upto(nodes, j, nodes.len() as int)
}

/// Outcomes of different kinds, or more than one that is not a failure.
pub open spec fn contradictory(nodes: Seq<XmlNode>, st: Seq<int>) -> bool {
    ||| exists|i: int| 0 <= i < st.len() && nodes[#[trigger] st[i]].name@ != nodes[st[0]].name@
    ||| st.len() > 1 && nodes[st[0]].name@ != "failure"@
}

/// The outcome that the outcome children `st` state.
pub open spec fn outcome_of(nodes: Seq<XmlNode>, st: Seq<int>) -> OutcomeView {
    if st.len() == 0 {
        OutcomeView::Passed
    } else if has_tag(nodes[st[0]], "failure"@) {
        OutcomeView::Failure(st.map_values(|k: int| attr_or_empty(nodes[k], "type"@)))
    } else if has_tag(nodes[st[0]], "error"@) {
        OutcomeView::Error
    } else {
        OutcomeView::Skipped
    }
}

/// The snapshot holds a file at `path`.
pub open spec fn has_path(files: Seq<(String, File)>, path: Seq<char>) -> bool {
    exists|i: int| 0 <= i < files.len() && (#[trigger] files[i]).0@ == path
}

/// The test case that element `j` records.
pub open spec fn case_of(
    nodes: Seq<XmlNode>,
    j: int,
    files: Seq<(String, File)>,
    workspace: Seq<char>,
) -> Result<CaseView, TestCaseError> {
    match attribute(nodes[j], "file"@) {
        None => Err(TestCaseError::MissingFile),
        Some(raw) => match repository_path(raw, workspace) {
            Err(e) => Err(TestCaseError::Path(e)),
            Ok(file) => if file.len() == 0 || !has_path(files, file) {
                Err(TestCaseError::UnknownFile)
            } else {
                match attribute(nodes[j], "name"@) {
                    None => Err(TestCaseError::MissingName),
                    Some(name) => if blank(name) {
                        Err(TestCaseError::MissingName)
                    } else if contradictory(nodes, statuses(nodes, j)) {
                        Err(TestCaseError::ContradictoryOutcomes)
                    } else if !(nodes[j].parent matches Some(p) && p < nodes.len() && has_tag(
                        nodes[p as int],
                        "testsuite"@,
                    )) {
                        Err(TestCaseError::NotInSuite)
                    } else {
                        Ok(
                            CaseView {
                                file,
                                classname: attr_or_empty(nodes[j], "classname"@),
                                name,
                                outcome: outcome_of(nodes, statuses(nodes, j)),
                            },
                        )
                    },
                }
            },
        },
    }
}

/// The test cases within the root element among the first `n` nodes.
pub open spec fn cases_upto(
    nodes: Seq<XmlNode>,
    root: int,
    files: Seq<(String, File)>,
    workspace: Seq<char>,
    n: int,
) -> Result<Seq<CaseView>, TestCaseError>
    decreases n,
{
    if n <= 0 {
        Ok(seq![])
    } else {
        match cases_upto(nodes, root, files, workspace, n - 1) {
            Err(e) => Err(e),
            Ok(cs) => {
                let j = n - 1;
                if !(within(nodes, j, root) && has_tag(nodes[j], "testcase"@)) {
                    Ok(cs)
                } else if cs.len() >= MAX_CASES {
                    Err(TestCaseError::TooManyCases)
                } else {
                    match case_of(nodes, j, files, workspace) {
                        Err(e) => Err(e),
                        Ok(c) => Ok(cs.push(c)),
                    }
                }
            },
        }
    }
}

/// Executed, failed, erroneous and skipped test records.
pub struct CaseCounts {
    pub tests: nat,
    pub failures: nat,
    pub errors: nat,
    pub skipped: nat,
}

/// No records.
pub open spec fn no_counts() -> CaseCounts {
    CaseCounts { tests: 0, failures: 0, errors: 0, skipped: 0 }
}

/// The records of `a` and `b` together.
pub open spec fn add_counts(a: CaseCounts, b: CaseCounts) -> CaseCounts {
    CaseCounts {
        tests: a.tests + b.tests,
        failures: a.failures + b.failures,
        errors: a.errors + b.errors,
        skipped: a.skipped + b.skipped,
    }
}

/// 1 when `b` holds.
pub open spec fn flag(b: bool) -> nat {
    if b { 1 } else { 0 }
}

/// Why the suite counter `name` of `node` disagrees with `count` records, if it does.
pub open spec fn counter_error(node: XmlNode, name: Seq<char>, count: nat) -> Option<TestCaseError> {
    match optional_number(node, name) {
        Err(_) => Some(TestCaseError::InvalidNumber),
        Ok(Some(v)) => if v != count {
            Some(TestCaseError::CountMismatch)
        } else {
            None
        },
        Ok(None) => None,
    }
}

/// Why the counters of suite `node` disagree with its records `c`, if they do.
pub open spec fn suite_error(node: XmlNode, c: CaseCounts) -> Option<TestCaseError> {
    match counter_error(node, "tests"@, c.tests) {
        Some(e) => Some(e),
        None => match counter_error(node, "failures"@, c.failures) {
            Some(e) => Some(e),
            None => match counter_error(node, "errors"@, c.errors) {
                Some(e) => Some(e),
                None => counter_error(node, "skipped"@, c.skipped),
            },
        },
    }
}

/// Node `j` read with the records `t` gathered for every suite so far.
pub open spec fn counter_step(nodes: Seq<XmlNode>, root: int, j: int, t: Seq<CaseCounts>) -> Result<Seq<CaseCounts>, TestCaseError> {
    let node = nodes[j];
    let parent = node.parent;
    if !(within(nodes, j, root) && node.kind == XmlKind::Element) {
        Ok(t)
    } else if is_status(node) && !(parent matches Some(p) && p < nodes.len() && has_tag(
        nodes[p as int],
        "testcase"@,
    )) {
        Err(TestCaseError::OutcomeOutsideCase)
    } else {
        let counts = if has_tag(node, "testcase"@) {
            Ok(
                Some(
                    CaseCounts {
                        tests: 1,
                        failures: flag(has_child_tag(nodes, j, "failure"@)),
                        errors: flag(has_child_tag(nodes, j, "error"@)),
                        skipped: flag(has_child_tag(nodes, j, "skipped"@)),
                    },
                ),
            )
        } else if is_suite(node) {
            match suite_error(node, t[j]) {
                Some(e) => Err(e),
                None => Ok(Some(t[j])),
            }
        } else {
            Ok(None)
        };
        match counts {
            Err(e) => Err(e),
            Ok(None) => Ok(t),
            Ok(Some(c)) => if j == root {
                Ok(t)
            } else {
                match parent {
                    Some(p) => if p < nodes.len() && is_suite(nodes[p as int]) {
                        Ok(t.update(p as int, add_counts(t[p as int], c)))
                    } else {
                        Err(TestCaseError::UnsupportedParent)
                    },
                    None => Err(TestCaseError::UnsupportedParent),
                }
            },
        }
    }
}

/// The nodes from `i` on read last to first: each suite's counters checked
/// against the records beneath it.
pub open spec fn counter_scan(nodes: Seq<XmlNode>, root: int, i: int) -> Result<Seq<CaseCounts>, TestCaseError>
    decreases nodes.len() - i,
{
    if i >= nodes.len() || i < 0 {
        Ok(Seq::new(nodes.len(), |k: int| no_counts()))
    } else {
        match counter_scan(nodes, root, i + 1) {
            Err(e) => Err(e),
            Ok(t) => counter_step(nodes, root, i, t),
        }
    }
}

/// The test cases that the strict JUnit report `bytes` records, with files
/// relative to `workspace` and captured in `files`.
pub open spec fn cases_outcome(bytes: Seq<u8>, files: Seq<(String, File)>, workspace: Seq<char>) -> Result<Seq<CaseView>, TestCaseError> {
    if bytes.len() > super::MAX_REPORT_BYTES {
        Err(TestCaseError::TooLarge)
    } else if !vstd::utf8::valid_utf8(bytes) {
        Err(TestCaseError::NotUtf8)
    } else {
        match super::xml_header::spec_normalize(super::ReportFormat::Junit, bytes) {
            Err(e) => Err(TestCaseError::Header(e)),
            Ok(b) => if !vstd::utf8::valid_utf8(b) {
                Err(TestCaseError::InvalidXml)
            } else {
                match crate::xml::spec_parse_xml(vstd::utf8::decode_utf8(b), super::xml_report::MAX_XML_NODES) {
                    None => Err(TestCaseError::InvalidXml),
                    Some(nodes) => if !crate::xml::well_formed(nodes) {
                        Err(TestCaseError::InvalidXml)
                    } else {
                        match crate::xml::root_element(nodes) {
                            None => Err(TestCaseError::UnexpectedRoot),
                            Some(r) => if !is_suite(nodes[r]) {
                                Err(TestCaseError::UnexpectedRoot)
                            } else {
                                match cases_upto(nodes, r, files, workspace, nodes.len() as int) {
                                    Err(e) => Err(e),
                                    Ok(cs) => match counter_scan(nodes, r, 0) {
                                        Err(e) => Err(e),
                                        Ok(_) => Ok(cs),
                                    },
                                }
                            },
                        }
                    },
                }
            },
        }
    }
}

} // verus!

verus! {

/// Whether `node` is a `failure`, `error` or `skipped` element.
fn is_status_exec(node: &XmlNode) -> (res: bool)
    ensures
        res == is_status(*node),
{
    crate::xml::is_tag(node, "failure") || crate::xml::is_tag(node, "error") || crate::xml::is_tag(
        node,
        "skipped",
    )
}

/// Whether `node` is a `testsuite` or `testsuites` element.
fn is_suite_exec(node: &XmlNode) -> (res: bool)
    ensures
        res == is_suite(*node),
{
    crate::xml::is_tag(node, "testsuite") || crate::xml::is_tag(node, "testsuites")
}

/// The outcome children of case `j`, in document order.
fn statuses_exec(nodes: &Vec<XmlNode>, j: usize) -> (res: Vec<usize>)
    ensures
        crate::compatibility::indices(res@) == statuses(nodes@, j as int),
        forall|i: int| 0 <= i < res@.len() ==> res@[i] < nodes@.len(),
{
    let mut out: Vec<usize> = Vec::new();
    let mut k: usize = 0;
    while k < nodes.len()
        invariant
            0 <= k <= nodes@.len(),
            crate::compatibility::indices(out@) == statuses_upto(nodes@, j as int, k as int),
            forall|i: int| 0 <= i < out@.len() ==> out@[i] < nodes@.len(),
        decreases nodes@.len() - k,
    {
        if nodes[k].parent == Some(j) && is_status_exec(&nodes[k]) {
            out.push(k);
        }
        assert(crate::compatibility::indices(out@) =~= statuses_upto(nodes@, j as int, k + 1));
        k = k + 1;
    }
    out
}

/// The text of attribute `name`, or empty.
fn attr_text(node: &XmlNode, name: &str) -> (res: String)
    ensures
        res@ == attr_or_empty(*node, name@),
{
    match crate::xml::attr(node, name) {
        Some(v) => v.clone(),
        None => String::new(),
    }
}

/// Whether the outcome children `st` contradict each other.
fn contradictory_exec(nodes: &Vec<XmlNode>, st: &Vec<usize>) -> (res: bool)
    requires
        forall|i: int| 0 <= i < st@.len() ==> st@[i] < nodes@.len(),
    ensures
        res == contradictory(nodes@, crate::compatibility::indices(st@)),
{
    let ghost s = crate::compatibility::indices(st@);
    if st.len() == 0 {
        return false;
    }
    let first = crate::text::chars_of(nodes[st[0]].name.as_str());
    assert(s[0] == st@[0] as int);
    let mut i: usize = 0;
    while i < st.len()
        invariant
            0 <= i <= st@.len(),
            st@.len() > 0,
            s == crate::compatibility::indices(st@),
            first@ == nodes@[s[0]].name@,
            forall|q: int| 0 <= q < st@.len() ==> st@[q] < nodes@.len(),
            forall|q: int| 0 <= q < i ==> nodes@[#[trigger] s[q]].name@ == nodes@[s[0]].name@,
        decreases st@.len() - i,
    {
        let name = crate::text::chars_of(nodes[st[i]].name.as_str());
        assert(s[i as int] == st@[i as int] as int);
        if !crate::text::chars_equal(&name, &first) {
            return true;
        }
        i = i + 1;
    }
    st.len() > 1 && !crate::text::text_is(&first, "failure")
}

/// The outcome that the outcome children `st` state.
fn outcome_exec(nodes: &Vec<XmlNode>, st: &Vec<usize>) -> (res: TestOutcome)
    requires
        forall|i: int| 0 <= i < st@.len() ==> st@[i] < nodes@.len(),
    ensures
        outcome_view(res) == outcome_of(nodes@, crate::compatibility::indices(st@)),
{
    let ghost s = crate::compatibility::indices(st@);
    if st.len() == 0 {
        return TestOutcome::Passed;
    }
    assert(s[0] == st@[0] as int);
    let first = &nodes[st[0]];
    if crate::xml::is_tag(first, "failure") {
        let mut types: Vec<String> = Vec::new();
        let mut i: usize = 0;
        while i < st.len()
            invariant
                0 <= i <= st@.len(),
                s == crate::compatibility::indices(st@),
                forall|q: int| 0 <= q < st@.len() ==> st@[q] < nodes@.len(),
                string_views(types@) == s.take(i as int).map_values(
                    |k: int| attr_or_empty(nodes@[k], "type"@),
                ),
            decreases st@.len() - i,
        {
            let t = attr_text(&nodes[st[i]], "type");
            assert(s[i as int] == st@[i as int] as int);
            let ghost before = string_views(types@);
            types.push(t);
            assert(string_views(types@) =~= before.push(t@));
            assert(s.take(i + 1).map_values(|k: int| attr_or_empty(nodes@[k], "type"@)) =~= s.take(
                i as int,
            ).map_values(|k: int| attr_or_empty(nodes@[k], "type"@)).push(
                attr_or_empty(nodes@[s[i as int]], "type"@),
            ));
            i = i + 1;
        }
        assert(s.take(i as int) =~= s);
        TestOutcome::Failure { types }
    } else if crate::xml::is_tag(first, "error") {
        TestOutcome::Error
    } else {
        TestOutcome::Skipped
    }
}

/// Whether the snapshot holds a file at `path`.
fn has_path_exec(files: &Vec<(String, File)>, path: &String) -> (res: bool)
    ensures
        res == has_path(files@, path@),
{
    let p = crate::text::chars_of(path.as_str());
    let mut i: usize = 0;
    while i < files.len()
        invariant
            0 <= i <= files@.len(),
            p@ == path@,
            forall|k: int| 0 <= k < i ==> (#[trigger] files@[k]).0@ != path@,
        decreases files@.len() - i,
    {
        let f = crate::text::chars_of(files[i].0.as_str());
        if crate::text::chars_equal(&f, &p) {
            return true;
        }
        i = i + 1;
    }
    false
}

/// The test case that element `j` records.
fn case_exec(nodes: &Vec<XmlNode>, j: usize, files: &Vec<(String, File)>, workspace: &str) -> (res: Result<TestCase, TestCaseError>)
    requires
        j < nodes@.len(),
    ensures
        match case_of(nodes@, j as int, files@, workspace@) {
            Ok(c) => res matches Ok(r) && case_view(r) == c,
            Err(e) => res is Err && res->Err_0 == e,
        },
{
    let node = &nodes[j];
    let raw = match crate::xml::attr(node, "file") {
        None => return Err(TestCaseError::MissingFile),
        Some(r) => r,
    };
    let file = match crate::paths::repository_path_exec(raw.as_str(), workspace) {
        Err(e) => return Err(TestCaseError::Path(e)),
        Ok(f) => f,
    };
    let fc = crate::text::chars_of(file.as_str());
    if fc.len() == 0 || !has_path_exec(files, &file) {
        return Err(TestCaseError::UnknownFile);
    }
    let name = match crate::xml::attr(node, "name") {
        None => return Err(TestCaseError::MissingName),
        Some(n) => n,
    };
    let nc = crate::text::chars_of(name.as_str());
    if crate::text::is_blank(&nc) {
        return Err(TestCaseError::MissingName);
    }
    let st = statuses_exec(nodes, j);
    if contradictory_exec(nodes, &st) {
        return Err(TestCaseError::ContradictoryOutcomes);
    }
    let outcome = outcome_exec(nodes, &st);
    let in_suite = match node.parent {
        Some(p) => p < nodes.len() && crate::xml::is_tag(&nodes[p], "testsuite"),
        None => false,
    };
    if !in_suite {
        return Err(TestCaseError::NotInSuite);
    }
    Ok(TestCase { file, classname: attr_text(node, "classname"), name: name.clone(), outcome })
}

/// Once the scan of test cases has failed, it stays failed with the same error.
proof fn cases_error_persists(
    nodes: Seq<XmlNode>,
    root: int,
    files: Seq<(String, File)>,
    workspace: Seq<char>,
    a: int,
    b: int,
)
    requires
        a <= b,
        cases_upto(nodes, root, files, workspace, a) is Err,
    ensures
        cases_upto(nodes, root, files, workspace, b) == cases_upto(nodes, root, files, workspace, a),
    decreases b - a,
{
    if a < b {
        cases_error_persists(nodes, root, files, workspace, a, b - 1);
    }
}

/// The test cases within the root element `root`.
fn cases_exec(nodes: &Vec<XmlNode>, root: usize, files: &Vec<(String, File)>, workspace: &str) -> (res: Result<Vec<TestCase>, TestCaseError>)
    ensures
        match cases_upto(nodes@, root as int, files@, workspace@, nodes@.len() as int) {
            Ok(cs) => res matches Ok(r) && cases_view(r@) == cs,
            Err(e) => res is Err && res->Err_0 == e,
        },
{
    let mut cases: Vec<TestCase> = Vec::new();
    let mut j: usize = 0;
    assert(cases_view(cases@) =~= seq![]);
    while j < nodes.len()
        invariant
            0 <= j <= nodes@.len(),
            cases_upto(nodes@, root as int, files@, workspace@, j as int) == Ok::<Seq<CaseView>, TestCaseError>(
                cases_view(cases@),
            ),
        decreases nodes@.len() - j,
    {
        if crate::xml::is_within(nodes, j, root) && crate::xml::is_tag(&nodes[j], "testcase") {
            if cases.len() >= MAX_CASES {
                proof {
                    cases_error_persists(nodes@, root as int, files@, workspace@, j + 1, nodes@.len() as int);
                }
                return Err(TestCaseError::TooManyCases);
            }
            match case_exec(nodes, j, files, workspace) {
                Err(e) => {
                    proof {
                        cases_error_persists(nodes@, root as int, files@, workspace@, j + 1, nodes@.len() as int);
                    }
                    return Err(e);
                },
                Ok(c) => {
                    let ghost before = cases_view(cases@);
                    cases.push(c);
                    assert(cases_view(cases@) =~= before.push(case_view(c)));
                },
            }
        }
        j = j + 1;
    }
    Ok(cases)
}

} // verus!

verus! {

/// The records gathered for one suite, as the reader keeps them.
#[derive(Clone, Copy)]
struct Counts {
    tests: usize,
    failures: usize,
    errors: usize,
    skipped: usize,
}

/// The plain values of gathered records.
spec fn counts_view(c: Counts) -> CaseCounts {
    CaseCounts {
        tests: c.tests as nat,
        failures: c.failures as nat,
        errors: c.errors as nat,
        skipped: c.skipped as nat,
    }
}

/// One kind of record: 0 tests, 1 failures, 2 errors, 3 skipped.
spec fn field(c: Counts, f: int) -> nat {
    if f == 0 {
        c.tests as nat
    } else if f == 1 {
        c.failures as nat
    } else if f == 2 {
        c.errors as nat
    } else {
        c.skipped as nat
    }
}

/// The records of kind `f` gathered for the first `n` nodes.
spec fn field_sum(s: Seq<Counts>, n: int, f: int) -> nat
    decreases n,
{
    if n <= 0 {
        0
    } else {
        field_sum(s, n - 1, f) + field(s[n - 1], f)
    }
}

/// Sums agree where the sequences agree.
proof fn lemma_sum_agree(a: Seq<Counts>, b: Seq<Counts>, n: int, f: int)
    requires
        forall|q: int| 0 <= q < n ==> a[q] == b[q],
    ensures
        field_sum(a, n, f) == field_sum(b, n, f),
    decreases n,
{
    if n > 0 {
        lemma_sum_agree(a, b, n - 1, f);
    }
}

/// Two entries of a prefix together are no more than its sum.
proof fn lemma_two_le_sum(s: Seq<Counts>, n: int, f: int, p: int, q: int)
    requires
        0 <= p < q < n,
    ensures
        field(s[p], f) + field(s[q], f) <= field_sum(s, n, f),
    decreases n,
{
    if q < n - 1 {
        lemma_two_le_sum(s, n - 1, f, p, q);
    } else {
        lemma_one_le_sum(s, n - 1, f, p);
    }
}

/// An entry of a prefix is no more than its sum.
proof fn lemma_one_le_sum(s: Seq<Counts>, n: int, f: int, p: int)
    requires
        0 <= p < n,
    ensures
        field(s[p], f) <= field_sum(s, n, f),
    decreases n,
{
    if p < n - 1 {
        lemma_one_le_sum(s, n - 1, f, p);
    }
}

/// Replacing entry `p` of a prefix changes its sum by the difference.
proof fn lemma_sum_update(s: Seq<Counts>, n: int, f: int, p: int, v: Counts)
    requires
        0 <= p < n <= s.len(),
    ensures
        field_sum(s.update(p, v), n, f) + field(s[p], f) == field_sum(s, n, f) + field(v, f),
    decreases n,
{
    if p < n - 1 {
        lemma_sum_update(s, n - 1, f, p, v);
    } else {
        lemma_sum_agree(s.update(p, v), s, n - 1, f);
    }
}

/// Once the counter scan has failed, it stays failed with the same error.
proof fn counter_error_persists(nodes: Seq<XmlNode>, root: int, a: int, b: int)
    requires
        0 <= a <= b <= nodes.len(),
        counter_scan(nodes, root, b) is Err,
    ensures
        counter_scan(nodes, root, a) == counter_scan(nodes, root, b),
    decreases b - a,
{
    if a < b {
        counter_error_persists(nodes, root, a + 1, b);
    }
}

/// Why the suite counter `name` of `node` disagrees with `count`, if it does.
fn counter_check(node: &XmlNode, name: &str, count: usize) -> (res: Option<TestCaseError>)
    ensures
        res == counter_error(*node, name@, count as nat),
{
    match crate::xml::number_attr(node, name) {
        Err(()) => Some(TestCaseError::InvalidNumber),
        Ok(Some(v)) => if v != count {
            Some(TestCaseError::CountMismatch)
        } else {
            None
        },
        Ok(None) => None,
    }
}

/// Why the counters of a suite disagree with its records, if they do.
fn suite_check(node: &XmlNode, c: &Counts) -> (res: Option<TestCaseError>)
    ensures
        res == suite_error(*node, counts_view(*c)),
{
    if let Some(e) = counter_check(node, "tests", c.tests) {
        return Some(e);
    }
    if let Some(e) = counter_check(node, "failures", c.failures) {
        return Some(e);
    }
    if let Some(e) = counter_check(node, "errors", c.errors) {
        return Some(e);
    }
    counter_check(node, "skipped", c.skipped)
}

/// Check every suite's counters against its records, last node first, gathering
/// each record into its parent once.
#[verifier::rlimit(30)]
fn counters_check(nodes: &Vec<XmlNode>, root: usize) -> (res: Option<TestCaseError>)
    requires
        crate::xml::well_formed(nodes@),
        root < nodes@.len(),
    ensures
        match counter_scan(nodes@, root as int, 0) {
            Ok(_) => res is None,
            Err(e) => res == Some(e),
        },
{
    let n = nodes.len();
    let zero = Counts { tests: 0, failures: 0, errors: 0, skipped: 0 };
    let mut totals: Vec<Counts> = Vec::new();
    while totals.len() < n
        invariant
            totals@.len() <= n,
            n == nodes@.len(),
            forall|q: int| 0 <= q < totals@.len() ==> totals@[q] == zero,
            zero == (Counts { tests: 0, failures: 0, errors: 0, skipped: 0 }),
        decreases n - totals@.len(),
    {
        totals.push(zero);
    }
    let ghost mut t: Seq<CaseCounts> = Seq::new(n as nat, |k: int| no_counts());
    assert forall|f: int| 0 <= f < 4 implies field_sum(totals@, n as int, f) == 0 by {
        lemma_sum_agree(totals@, Seq::new(n as nat, |k: int| zero), n as int, f);
        assert(field_sum(Seq::new(n as nat, |k: int| zero), n as int, f) == 0) by {
            lemma_zero_sum(zero, n as int, f);
        }
    }
    let mut i: usize = n;
    while i > 0
        invariant
            i <= n,
            n == nodes@.len(),
            root < n,
            crate::xml::well_formed(nodes@),
            totals@.len() == n,
            t.len() == n,
            counter_scan(nodes@, root as int, i as int) == Ok::<Seq<CaseCounts>, TestCaseError>(t),
            forall|p: int| 0 <= p < i ==> counts_view(#[trigger] totals@[p]) == t[p],
            forall|f: int| 0 <= f < 4 ==> #[trigger] field_sum(totals@, i as int, f) <= n - i,
        decreases i,
    {
        let j = i - 1;
        let ghost before = totals@;
        assert(forall|f: int| 0 <= f < 4 ==> field_sum(before, i as int, f) == field_sum(before, j as int, f) + #[trigger] field(before[j as int], f));
        let node = &nodes[j];
        if !(node.kind == XmlKind::Element && crate::xml::is_within(nodes, j, root)) {
            proof {
                assert forall|f: int| 0 <= f < 4 implies #[trigger] field_sum(totals@, j as int, f) <= n - j by {
                    assert(field_sum(before, i as int, f) == field_sum(before, j as int, f) + field(before[j as int], f));
                }
            }
            i = j;
            continue;
        }
        let parent = node.parent;
        let under_case = match parent {
            Some(p) => p < n && crate::xml::is_tag(&nodes[p], "testcase"),
            None => false,
        };
        if is_status_exec(node) && !under_case {
            proof {
                counter_error_persists(nodes@, root as int, 0, j as int);
            }
            return Some(TestCaseError::OutcomeOutsideCase);
        }
        let is_case = crate::xml::is_tag(node, "testcase");
        let counts: Option<Counts> = if is_case {
            Some(
                Counts {
                    tests: 1,
                    failures: if crate::xml::child_tag(nodes, j, "failure") { 1 } else { 0 },
                    errors: if crate::xml::child_tag(nodes, j, "error") { 1 } else { 0 },
                    skipped: if crate::xml::child_tag(nodes, j, "skipped") { 1 } else { 0 },
                },
            )
        } else if is_suite_exec(node) {
            let c = totals[j];
            if let Some(e) = suite_check(node, &c) {
                proof {
                    counter_error_persists(nodes@, root as int, 0, j as int);
                }
                return Some(e);
            }
            Some(c)
        } else {
            None
        };
        if let Some(c) = counts {
            if j != root {
                let p = match parent {
                    Some(p) => p,
                    None => {
                        proof {
                            counter_error_persists(nodes@, root as int, 0, j as int);
                        }
                        return Some(TestCaseError::UnsupportedParent);
                    },
                };
                if !(p < n && is_suite_exec(&nodes[p])) {
                    proof {
                        counter_error_persists(nodes@, root as int, 0, j as int);
                    }
                    return Some(TestCaseError::UnsupportedParent);
                }
                assert(p < j);
                let old = totals[p];
                proof {
                    assert forall|f: int| 0 <= f < 4 implies field(old, f) + field(c, f) <= n as int by {
                        if is_case {
                            lemma_one_le_sum(before, i as int, f, p as int);
                        } else {
                            lemma_two_le_sum(before, i as int, f, p as int, j as int);
                        }
                    }
                    assert(field(old, 0) + field(c, 0) <= n);
                    assert(field(old, 1) + field(c, 1) <= n);
                    assert(field(old, 2) + field(c, 2) <= n);
                    assert(field(old, 3) + field(c, 3) <= n);
                }
                let sum = Counts {
                    tests: old.tests + c.tests,
                    failures: old.failures + c.failures,
                    errors: old.errors + c.errors,
                    skipped: old.skipped + c.skipped,
                };
                totals.set(p, sum);
                proof {
                    t = t.update(p as int, add_counts(t[p as int], counts_view(c)));
                    assert forall|f: int| 0 <= f < 4 implies #[trigger] field_sum(totals@, j as int, f) <= n - j by {
                        lemma_sum_update(before, j as int, f, p as int, sum);
                        assert(totals@ == before.update(p as int, sum));
                        assert(old == before[p as int]);
                        assert(field(sum, f) == field(old, f) + field(c, f));
                        assert(field_sum(before, i as int, f) == field_sum(before, j as int, f) + field(before[j as int], f));
                        assert(field_sum(before, i as int, f) <= n - i);
                        if !is_case {
                            assert(field(c, f) == field(before[j as int], f));
                        }
                    }
                }
                i = j;
                continue;
            }
        }
        proof {
            assert forall|f: int| 0 <= f < 4 implies #[trigger] field_sum(totals@, j as int, f) <= n - j by {
                assert(field_sum(before, i as int, f) == field_sum(before, j as int, f) + field(before[j as int], f));
            }
        }
        i = j;
    }
    None
}

/// A run of zero records sums to nothing.
proof fn lemma_zero_sum(zero: Counts, n: int, f: int)
    requires
        zero == (Counts { tests: 0, failures: 0, errors: 0, skipped: 0 }),
        n >= 0,
    ensures
        field_sum(Seq::new(n as nat, |k: int| zero), n, f) == 0,
    decreases n,
{
    if n > 0 {
        lemma_zero_sum(zero, n - 1, f);
        lemma_sum_agree(Seq::new(n as nat, |k: int| zero), Seq::new((n - 1) as nat, |k: int| zero), n - 1, f);
    }
}

/// Read a strict JUnit report: every test case with its captured file (relative
/// to `workspace` when the report gives an absolute path), name and outcome,
/// and every suite counter checked against the records beneath it.
pub fn parse(bytes: &[u8], snapshot: &crate::rules::Snapshot, workspace: &str) -> (res: Result<Vec<TestCase>, TestCaseError>)
    ensures
        match cases_outcome(bytes@, snapshot.files@, workspace@) {
            Ok(cs) => res matches Ok(r) && cases_view(r@) == cs,
            Err(e) => res is Err && res->Err_0 == e,
        },
{
    if bytes.len() > super::MAX_REPORT_BYTES {
        return Err(TestCaseError::TooLarge);
    }
    if crate::text::text_of_bytes(bytes).is_none() {
        return Err(TestCaseError::NotUtf8);
    }
    let normalized = match super::xml_header::normalize(super::ReportFormat::Junit, bytes) {
        Err(e) => return Err(TestCaseError::Header(e)),
        Ok(b) => b,
    };
    let clean = match crate::text::text_of_bytes(normalized.as_slice()) {
        None => return Err(TestCaseError::InvalidXml),
        Some(t) => t,
    };
    proof {
        vstd::utf8::encode_utf8_decode_utf8(clean@);
    }
    let nodes = match crate::xml::parse_xml(clean, super::xml_report::MAX_XML_NODES) {
        None => return Err(TestCaseError::InvalidXml),
        Some(n) => n,
    };
    if !crate::xml::check_well_formed(&nodes) {
        return Err(TestCaseError::InvalidXml);
    }
    let root = match crate::xml::find_root_element(&nodes) {
        None => return Err(TestCaseError::UnexpectedRoot),
        Some(r) => r,
    };
    if !is_suite_exec(&nodes[root]) {
        return Err(TestCaseError::UnexpectedRoot);
    }
    let cases = match cases_exec(&nodes, root, &snapshot.files, workspace) {
        Err(e) => return Err(e),
        Ok(c) => c,
    };
    if let Some(e) = counters_check(&nodes, root) {
        return Err(e);
    }
    Ok(cases)
}

} // verus!

verus! {

/// A test case that names a captured, nonempty file and has a name.
pub open spec fn grounded(c: CaseView, files: Seq<(String, File)>) -> bool {
    c.file.len() > 0 && has_path(files, c.file) && !blank(c.name)
}

/// Every case that the scan keeps is grounded.
proof fn lemma_cases_grounded(
    nodes: Seq<XmlNode>,
    root: int,
    files: Seq<(String, File)>,
    workspace: Seq<char>,
    n: int,
)
    ensures
        cases_upto(nodes, root, files, workspace, n) matches Ok(cs) ==> forall|i: int|
            0 <= i < cs.len() ==> grounded(#[trigger] cs[i], files),
    decreases n,
{
    if n > 0 {
        lemma_cases_grounded(nodes, root, files, workspace, n - 1);
        if let Ok(cs) = cases_upto(nodes, root, files, workspace, n - 1) {
            if let Ok(c) = case_of(nodes, n - 1, files, workspace) {
                assert forall|i: int| 0 <= i < cs.push(c).len() implies grounded(#[trigger] cs.push(c)[i], files) by {
                    if i < cs.len() {
                        assert(cs.push(c)[i] == cs[i]);
                    }
                }
            }
        }
    }
}

/// Every test case of strict JUnit evidence names a file captured in the
/// snapshot, and has a name that is not blank.
pub proof fn cases_are_grounded(bytes: Seq<u8>, files: Seq<(String, File)>, workspace: Seq<char>)
    requires
        cases_outcome(bytes, files, workspace) is Ok,
    ensures
        forall|i: int|
            0 <= i < cases_outcome(bytes, files, workspace)->Ok_0.len() ==> grounded(
                #[trigger] cases_outcome(bytes, files, workspace)->Ok_0[i],
                files,
            ),
{
    let b = super::xml_header::spec_normalize(super::ReportFormat::Junit, bytes)->Ok_0;
    let nodes = crate::xml::spec_parse_xml(vstd::utf8::decode_utf8(b), super::xml_report::MAX_XML_NODES)->0;
    let r = crate::xml::root_element(nodes)->0;
    lemma_cases_grounded(nodes, r, files, workspace, nodes.len() as int);
}

} // verus!
