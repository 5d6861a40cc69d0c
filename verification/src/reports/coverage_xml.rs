//! JaCoCo and Cobertura XML coverage: every source line record is checked against
//! the summary counters that roll it up.

use vstd::prelude::*;
use crate::xml::{attribute, child_of, has_tag, optional_number, within, XmlKind, XmlNode};
use super::{byte_len, charge, ReportError, COVERAGE_BUDGET, MAX_PATH_BYTES};
use vstd::string::StringSliceAdditionalSpecFns;

verus! {

/// Why a coverage XML report was refused.
#[derive(Debug, Clone, Copy, PartialEq, Eq, Structural)]
pub enum CoverageError {
    /// A numeric attribute is not an unsigned integer.
    InvalidNumber,
    /// A required numeric attribute is missing.
    MissingNumber,
    /// A source path is unsafe or the normalized coverage exceeds its budget.
    Budget(ReportError),
    /// A `sourcefile` is not a child of a `package`.
    SourceOutsidePackage,
    /// A package has no name.
    MissingPackageName,
    /// A source file has no (or an empty) name.
    MissingSourceName,
    /// Package and source name together exceed 16 KiB.
    PathTooLong,
    /// Two source files map to the same path.
    AmbiguousSource,
    /// A line number is zero or repeated within its source.
    InvalidLine,
    /// A line record has neither missed nor covered instructions.
    NoInstructions,
    /// Branches are covered on a line whose instructions all missed.
    ContradictoryBranches,
    /// A counter sum overflows.
    Overflow,
    /// A summary counter has no type.
    MissingCounterType,
    /// A summary counter has a type JaCoCo does not define.
    UnknownCounterType,
    /// A summary counter type occurs twice on one element.
    DuplicateCounter,
    /// A summary counter disagrees with the source records it rolls up.
    SummaryMismatch,
    /// A source file lies under an element other than `report`, `package` or `group`.
    InvalidHierarchy,
    /// The coverage hierarchy is deeper than 32 levels.
    TooDeep,
    /// The report has no source file.
    NoSources,
    /// A `line` record outside a source file.
    LineOutsideSource,
    /// A Cobertura source root is empty.
    EmptySourceRoot,
    /// More than 64 Cobertura source roots.
    TooManyRoots,
    /// A Cobertura class has no (or an empty) file name.
    MissingFileName,
    /// Branch counters on a line not flagged as a branch.
    UnflaggedBranch,
    /// A branch line without condition coverage.
    MissingConditionCoverage,
    /// Condition coverage that is not `P% (H/F)`.
    InvalidConditionCoverage,
    /// Branch counters that are impossible or contradict the line's hits.
    InvalidBranchCounters,
    /// A branch percentage that contradicts its counts.
    PercentageMismatch,
    /// A branch flag other than `true` or `false`.
    InvalidBranchFlag,
}

/// The instruction, line and branch counts that a summary element rolls up.
#[derive(Debug, Clone, Copy)]
pub struct Counts {
    pub instruction: (usize, usize),
    pub line: (usize, usize),
    pub branch: (usize, usize),
}

/// No counts at all.
pub open spec fn zero() -> Counts {
    Counts { instruction: (0, 0), line: (0, 0), branch: (0, 0) }
}

/// The sum of two pairs, or `None` when a component overflows.
pub open spec fn pair_sum(a: (usize, usize), b: (usize, usize)) -> Option<(usize, usize)> {
    if a.0 + b.0 > usize::MAX || a.1 + b.1 > usize::MAX {
        None
    } else {
        Some(((a.0 + b.0) as usize, (a.1 + b.1) as usize))
    }
}

/// The sum of two counts, or `None` when a component overflows.
pub open spec fn counts_sum(a: Counts, b: Counts) -> Option<Counts> {
    match (pair_sum(a.instruction, b.instruction), pair_sum(a.line, b.line), pair_sum(a.branch, b.branch)) {
        (Some(i), Some(l), Some(br)) => Some(Counts { instruction: i, line: l, branch: br }),
        _ => None,
    }
}

/// A required numeric attribute.
pub open spec fn required_number(node: XmlNode, name: Seq<char>) -> Result<usize, CoverageError> {
    match optional_number(node, name) {
        Err(_) => Err(CoverageError::InvalidNumber),
        Ok(None) => Err(CoverageError::MissingNumber),
        Ok(Some(n)) => Ok(n),
    }
}

/// An optional numeric attribute, zero when absent.
pub open spec fn number_or_zero(node: XmlNode, name: Seq<char>) -> Result<usize, CoverageError> {
    match optional_number(node, name) {
        Err(_) => Err(CoverageError::InvalidNumber),
        Ok(None) => Ok(0),
        Ok(Some(n)) => Ok(n),
    }
}

/// The counter types that JaCoCo defines.
pub open spec fn known_counter(kind: Seq<char>) -> bool {
    kind == "INSTRUCTION"@ || kind == "LINE"@ || kind == "BRANCH"@ || kind == "COMPLEXITY"@
        || kind == "METHOD"@ || kind == "CLASS"@
}

/// The value recorded for counter `kind`.
pub open spec fn counter_value(counters: Seq<(Seq<char>, (usize, usize))>, kind: Seq<char>) -> Option<(usize, usize)>
    decreases counters.len(),
{
    if counters.len() == 0 {
        None
    } else if counters.last().0 == kind {
        Some(counters.last().1)
    } else {
        counter_value(counters.drop_last(), kind)
    }
}

/// The `counter` children of node `a` among nodes `0..n`, or the first error.
pub open spec fn counter_scan(nodes: Seq<XmlNode>, a: int, n: int) -> Result<Seq<(Seq<char>, (usize, usize))>, CoverageError>
    decreases n,
{
    if n <= 0 {
        Ok(seq![])
    } else {
        match counter_scan(nodes, a, n - 1) {
            Err(e) => Err(e),
            Ok(counters) => {
                let c = nodes[n - 1];
                if !(child_of(nodes, n - 1, a) && has_tag(c, "counter"@)) {
                    Ok(counters)
                } else {
                    match attribute(c, "type"@) {
                        None => Err(CoverageError::MissingCounterType),
                        Some(kind) => if !known_counter(kind) {
                            Err(CoverageError::UnknownCounterType)
                        } else {
                            match required_number(c, "missed"@) {
                                Err(e) => Err(e),
                                Ok(missed) => match required_number(c, "covered"@) {
                                    Err(e) => Err(e),
                                    Ok(covered) => if counter_value(counters, kind) is Some {
                                        Err(CoverageError::DuplicateCounter)
                                    } else {
                                        Ok(counters.push((kind, (missed, covered))))
                                    },
                                },
                            }
                        },
                    }
                }
            },
        }
    }
}

/// A counter's value, zero when absent.
pub open spec fn counter_or_zero(counters: Seq<(Seq<char>, (usize, usize))>, kind: Seq<char>) -> (usize, usize) {
    match counter_value(counters, kind) {
        Some(v) => v,
        None => (0, 0),
    }
}

/// Why node `a`'s summary counters disagree with `counts`, if they do.
pub open spec fn summary_error(nodes: Seq<XmlNode>, a: int, counts: Counts) -> Option<CoverageError> {
    match counter_scan(nodes, a, nodes.len() as int) {
        Err(e) => Some(e),
        Ok(counters) => if counter_or_zero(counters, "INSTRUCTION"@) != counts.instruction
            || counter_or_zero(counters, "LINE"@) != counts.line || counter_or_zero(
            counters,
            "BRANCH"@,
        ) != counts.branch {
            Some(CoverageError::SummaryMismatch)
        } else {
            None
        },
    }
}

} // verus!

verus! {

/// The path of JaCoCo source file `s`: its package's name, a slash and its own name
/// (its own name alone in the unnamed package).
pub open spec fn source_path(nodes: Seq<XmlNode>, s: int) -> Result<Seq<char>, CoverageError> {
    match nodes[s].parent {
        Some(p) => if p < nodes.len() && has_tag(nodes[p as int], "package"@) {
            match attribute(nodes[p as int], "name"@) {
                None => Err(CoverageError::MissingPackageName),
                Some(pn) => match attribute(nodes[s], "name"@) {
                    None => Err(CoverageError::MissingSourceName),
                    Some(n) => if n.len() == 0 {
                        Err(CoverageError::MissingSourceName)
                    } else if byte_len(pn) + byte_len(n) > MAX_PATH_BYTES {
                        Err(CoverageError::PathTooLong)
                    } else if pn.len() == 0 {
                        Ok(n)
                    } else {
                        Ok(pn + "/"@ + n)
                    },
                },
            }
        } else {
            Err(CoverageError::SourceOutsidePackage)
        },
        None => Err(CoverageError::SourceOutsidePackage),
    }
}

/// The missed and covered instructions and branches of a line record (`mi`, `ci`,
/// `mb`, `cb`, each zero when absent).
pub open spec fn line_counts(node: XmlNode) -> Result<(usize, usize, usize, usize), CoverageError> {
    match number_or_zero(node, "mi"@) {
        Err(e) => Err(e),
        Ok(mi) => match number_or_zero(node, "ci"@) {
            Err(e) => Err(e),
            Ok(ci) => match number_or_zero(node, "mb"@) {
                Err(e) => Err(e),
                Ok(mb) => match number_or_zero(node, "cb"@) {
                    Err(e) => Err(e),
                    Ok(cb) => Ok((mi, ci, mb, cb)),
                },
            },
        },
    }
}

/// The lines of one source file read so far: budget left, line numbers seen, their
/// rolled-up counts, and one (line, hits, branches, covered branches) record each.
pub struct LineProgress {
    pub budget: int,
    pub seen: Seq<usize>,
    pub counts: Counts,
    pub records: Seq<(usize, u64, usize, usize)>,
}

/// The counts that one line record contributes.
pub open spec fn line_contribution(mi: usize, ci: usize, mb: usize, cb: usize) -> Counts {
    Counts {
        instruction: (mi, ci),
        line: (if ci == 0 { 1usize } else { 0usize }, if ci > 0 { 1usize } else { 0usize }),
        branch: (mb, cb),
    }
}

/// Read one JaCoCo `line` record of source `file`.
pub open spec fn read_line_record(node: XmlNode, file: Seq<char>, p: LineProgress) -> Result<LineProgress, CoverageError> {
    match charge(file, p.budget) {
        Err(e) => Err(CoverageError::Budget(e)),
        Ok(left) => match required_number(node, "nr"@) {
            Err(e) => Err(e),
            Ok(nr) => if nr == 0 || p.seen.contains(nr) {
                Err(CoverageError::InvalidLine)
            } else {
                match line_counts(node) {
                    Err(e) => Err(e),
                    Ok((mi, ci, mb, cb)) => if mi == 0 && ci == 0 {
                        Err(CoverageError::NoInstructions)
                    } else if ci == 0 && cb > 0 {
                        Err(CoverageError::ContradictoryBranches)
                    } else {
                        match counts_sum(p.counts, line_contribution(mi, ci, mb, cb)) {
                            None => Err(CoverageError::Overflow),
                            Some(c) => if mb + cb > usize::MAX {
                                Err(CoverageError::Overflow)
                            } else {
                                Ok(LineProgress {
                                    budget: left,
                                    seen: p.seen.push(nr),
                                    counts: c,
                                    records: p.records.push((nr, ci as u64, (mb + cb) as usize, cb)),
                                })
                            },
                        }
                    },
                }
            },
        },
    }
}

/// The `line` children of source `s` among nodes `0..n`, read in order from `budget`.
pub open spec fn line_scan(nodes: Seq<XmlNode>, s: int, file: Seq<char>, budget: int, n: int) -> Result<LineProgress, CoverageError>
    decreases n,
{
    if n <= 0 {
        Ok(LineProgress { budget, seen: seq![], counts: zero(), records: seq![] })
    } else {
        match line_scan(nodes, s, file, budget, n - 1) {
            Err(e) => Err(e),
            Ok(p) => if child_of(nodes, n - 1, s) && has_tag(nodes[n - 1], "line"@) {
                read_line_record(nodes[n - 1], file, p)
            } else {
                Ok(p)
            },
        }
    }
}

/// An element that may roll up coverage: `report`, `package` or `group`.
pub open spec fn summary_tag(node: XmlNode) -> bool {
    has_tag(node, "report"@) || has_tag(node, "package"@) || has_tag(node, "group"@)
}

/// Add `c` to the totals of element `a` and of each element above it.
pub open spec fn roll_up(nodes: Seq<XmlNode>, a: int, depth: nat, totals: Seq<Counts>, c: Counts) -> Result<Seq<Counts>, CoverageError>
    decreases a,
{
    if a < 0 || a >= nodes.len() || a >= totals.len() {
        Ok(totals)
    } else if !summary_tag(nodes[a]) {
        Err(CoverageError::InvalidHierarchy)
    } else if depth + 1 > 32 {
        Err(CoverageError::TooDeep)
    } else {
        match counts_sum(totals[a], c) {
            None => Err(CoverageError::Overflow),
            Some(t) => {
                let next = totals.update(a, t);
                match nodes[a].parent {
                    Some(q) => if q < a && nodes[q as int].kind == XmlKind::Element {
                        roll_up(nodes, q as int, depth + 1, next, c)
                    } else {
                        Ok(next)
                    },
                    None => Ok(next),
                }
            },
        }
    }
}

/// The JaCoCo report read so far: source paths, coverage records (path, line, hits,
/// branches, covered branches), per-element totals and the budget left.
pub struct JacocoProgress {
    pub files: Seq<Seq<char>>,
    pub records: Seq<(Seq<char>, usize, u64, usize, usize)>,
    pub totals: Seq<Counts>,
    pub budget: int,
}

/// Line records tagged with their source path.
pub open spec fn with_path(file: Seq<char>, records: Seq<(usize, u64, usize, usize)>) -> Seq<(Seq<char>, usize, u64, usize, usize)> {
    records.map_values(|r: (usize, u64, usize, usize)| (file, r.0, r.1, r.2, r.3))
}

/// Read JaCoCo source file `s`.
pub open spec fn read_source(nodes: Seq<XmlNode>, st: JacocoProgress, s: int) -> Result<JacocoProgress, CoverageError> {
    match source_path(nodes, s) {
        Err(e) => Err(e),
        Ok(file) => match charge(file, st.budget) {
            Err(e) => Err(CoverageError::Budget(e)),
            Ok(left) => if st.files.contains(file) {
                Err(CoverageError::AmbiguousSource)
            } else {
                match line_scan(nodes, s, file, left, nodes.len() as int) {
                    Err(e) => Err(e),
                    Ok(lp) => match summary_error(nodes, s, lp.counts) {
                        Some(e) => Err(e),
                        None => match roll_up(nodes, nodes[s].parent.unwrap() as int, 0, st.totals, lp.counts) {
                            Err(e) => Err(e),
                            Ok(t) => Ok(JacocoProgress {
                                files: st.files.push(file),
                                records: st.records + with_path(file, lp.records),
                                totals: t,
                                budget: lp.budget,
                            }),
                        },
                    },
                }
            },
        },
    }
}

/// Before any source file.
pub open spec fn jacoco_start(n: int) -> JacocoProgress {
    JacocoProgress { files: seq![], records: seq![], totals: Seq::new(n as nat, |i: int| zero()), budget: COVERAGE_BUDGET as int }
}

/// The source files within the report among nodes `0..n`, read in document order.
pub open spec fn jacoco_scan(nodes: Seq<XmlNode>, root: int, n: int) -> Result<JacocoProgress, CoverageError>
    decreases n,
{
    if n <= 0 {
        Ok(jacoco_start(nodes.len() as int))
    } else {
        match jacoco_scan(nodes, root, n - 1) {
            Err(e) => Err(e),
            Ok(st) => if within(nodes, n - 1, root) && has_tag(nodes[n - 1], "sourcefile"@) {
                read_source(nodes, st, n - 1)
            } else {
                Ok(st)
            },
        }
    }
}

/// A `line` record within the report whose parent is not a source file.
pub open spec fn stray_line(nodes: Seq<XmlNode>, root: int) -> bool {
    exists|k: int|
        0 <= k < nodes.len() && within(nodes, k, root) && has_tag(#[trigger] nodes[k], "line"@) && !(
        nodes[k].parent matches Some(p) && p < nodes.len() && has_tag(nodes[p as int], "sourcefile"@))
}

/// The first summary element within the report, among nodes `0..n`, whose counters
/// disagree with its totals.
pub open spec fn first_summary_error(nodes: Seq<XmlNode>, root: int, totals: Seq<Counts>, n: int) -> Option<CoverageError>
    decreases n,
{
    if n <= 0 {
        None
    } else {
        match first_summary_error(nodes, root, totals, n - 1) {
            Some(e) => Some(e),
            None => if within(nodes, n - 1, root) && summary_tag(nodes[n - 1]) {
                summary_error(nodes, n - 1, totals[n - 1])
            } else {
                None
            },
        }
    }
}

/// The coverage records of a report, as (path, line, hits, branches, covered branches).
pub open spec fn coverage_records(coverage: Seq<super::CoverageLine>) -> Seq<(Seq<char>, usize, u64, usize, usize)> {
    coverage.map_values(|c: super::CoverageLine| (c.file@, c.line, c.hits, c.branches_found, c.branches_hit))
}

/// A report holding only the given coverage, files and branch measurement.
pub open spec fn coverage_only(d: super::Data) -> bool {
    &&& d.issues@.len() == 0
    &&& d.tests is None
    &&& d.coverage_producer is None
    &&& d.affected_files is None
    &&& d.sarif_runs@.len() == 0
    &&& forall|i: int| 0 <= i < d.coverage@.len() ==> !(#[trigger] d.coverage@[i]).excluded
}

/// The outcome of reading a JaCoCo report whose root element is `root`.
pub open spec fn jacoco_outcome(nodes: Seq<XmlNode>, root: int, res: Result<super::Data, CoverageError>) -> bool {
    match jacoco_scan(nodes, root, nodes.len() as int) {
        Err(e) => res == Err::<super::Data, CoverageError>(e),
        Ok(st) => if st.files.len() == 0 {
            res == Err::<super::Data, CoverageError>(CoverageError::NoSources)
        } else if stray_line(nodes, root) {
            res == Err::<super::Data, CoverageError>(CoverageError::LineOutsideSource)
        } else {
            match first_summary_error(nodes, root, st.totals, nodes.len() as int) {
                Some(e) => res == Err::<super::Data, CoverageError>(e),
                None => res matches Ok(d) && coverage_only(d) && d.branch_coverage
                    && d.coverage_roots@.len() == 0 && super::texts(d.coverage_files@) == st.files
                    && coverage_records(d.coverage@) == st.records,
            }
        },
    }
}

} // verus!

verus! {

/// The required numeric attribute `name` of `node`.
pub(crate) fn required(node: &XmlNode, name: &str) -> (res: Result<usize, CoverageError>)
    ensures
        res == required_number(*node, name@),
{
    match crate::xml::number_attr(node, name) {
        Err(()) => Err(CoverageError::InvalidNumber),
        Ok(None) => Err(CoverageError::MissingNumber),
        Ok(Some(n)) => Ok(n),
    }
}

/// The numeric attribute `name` of `node`, zero when absent.
fn or_zero(node: &XmlNode, name: &str) -> (res: Result<usize, CoverageError>)
    ensures
        res == number_or_zero(*node, name@),
{
    match crate::xml::number_attr(node, name) {
        Err(()) => Err(CoverageError::InvalidNumber),
        Ok(None) => Ok(0),
        Ok(Some(n)) => Ok(n),
    }
}

/// Add `right` to `left`, failing on overflow.
pub fn add(left: &mut (usize, usize), right: (usize, usize)) -> (res: Result<(), CoverageError>)
    ensures
        match pair_sum(*old(left), right) {
            Some(s) => res is Ok && *final(left) == s,
            None => res == Err::<(), CoverageError>(CoverageError::Overflow) && *final(left) == *old(left),
        },
{
    if left.0 > usize::MAX - right.0 || left.1 > usize::MAX - right.1 {
        return Err(CoverageError::Overflow);
    }
    *left = (left.0 + right.0, left.1 + right.1);
    Ok(())
}

/// The character views of recorded counters.
pub open spec fn counter_views(v: Seq<(Vec<char>, (usize, usize))>) -> Seq<(Seq<char>, (usize, usize))> {
    v.map_values(|c: (Vec<char>, (usize, usize))| (c.0@, c.1))
}

fn find_counter(counters: &Vec<(Vec<char>, (usize, usize))>, kind: &Vec<char>) -> (res: Option<(usize, usize)>)
    ensures
        res == counter_value(counter_views(counters@), kind@),
{
    let ghost v = counter_views(counters@);
    let mut i = counters.len();
    assert(v.subrange(0, i as int) =~= v);
    while i > 0
        invariant
            0 <= i <= counters@.len(),
            v == counter_views(counters@),
            counter_value(v, kind@) == counter_value(v.subrange(0, i as int), kind@),
        decreases i,
    {
        assert(v.subrange(0, i as int).drop_last() =~= v.subrange(0, i - 1));
        assert(v[i - 1] == (counters@[i - 1].0@, counters@[i - 1].1));
        if crate::text::chars_equal(&counters[i - 1].0, kind) {
            return Some(counters[i - 1].1);
        }
        i = i - 1;
    }
    None
}

proof fn counter_scan_error_persists(nodes: Seq<XmlNode>, a: int, m: int, n: int)
    requires
        m <= n,
        counter_scan(nodes, a, m) is Err,
    ensures
        counter_scan(nodes, a, n) == counter_scan(nodes, a, m),
    decreases n - m,
{
    if m < n {
        counter_scan_error_persists(nodes, a, m, n - 1);
    }
}

/// The summary counters that are children of node `a`.
fn counters_of(nodes: &Vec<XmlNode>, a: usize) -> (res: Result<Vec<(Vec<char>, (usize, usize))>, CoverageError>)
    ensures
        match counter_scan(nodes@, a as int, nodes@.len() as int) {
            Ok(c) => res matches Ok(v) && counter_views(v@) == c,
            Err(e) => res == Err::<Vec<(Vec<char>, (usize, usize))>, CoverageError>(e),
        },
{
    let mut out: Vec<(Vec<char>, (usize, usize))> = Vec::new();
    let mut k: usize = 0;
    assert(counter_views(out@) =~= Seq::<(Seq<char>, (usize, usize))>::empty());
    while k < nodes.len()
        invariant
            0 <= k <= nodes@.len(),
            counter_scan(nodes@, a as int, k as int) == Ok::<Seq<(Seq<char>, (usize, usize))>, CoverageError>(counter_views(out@)),
        decreases nodes@.len() - k,
    {
        let node = &nodes[k];
        if node.parent == Some(a) && crate::xml::is_tag(node, "counter") {
            let kind = match crate::xml::attr(node, "type") {
                None => {
                    proof { counter_scan_error_persists(nodes@, a as int, k + 1, nodes@.len() as int); }
                    return Err(CoverageError::MissingCounterType);
                },
                Some(t) => crate::text::chars_of(t.as_str()),
            };
            if !(crate::text::text_is(&kind, "INSTRUCTION") || crate::text::text_is(&kind, "LINE")
                || crate::text::text_is(&kind, "BRANCH") || crate::text::text_is(&kind, "COMPLEXITY")
                || crate::text::text_is(&kind, "METHOD") || crate::text::text_is(&kind, "CLASS")) {
                proof { counter_scan_error_persists(nodes@, a as int, k + 1, nodes@.len() as int); }
                return Err(CoverageError::UnknownCounterType);
            }
            let missed = match required(node, "missed") {
                Err(e) => {
                    proof { counter_scan_error_persists(nodes@, a as int, k + 1, nodes@.len() as int); }
                    return Err(e);
                },
                Ok(v) => v,
            };
            let covered = match required(node, "covered") {
                Err(e) => {
                    proof { counter_scan_error_persists(nodes@, a as int, k + 1, nodes@.len() as int); }
                    return Err(e);
                },
                Ok(v) => v,
            };
            if find_counter(&out, &kind).is_some() {
                proof { counter_scan_error_persists(nodes@, a as int, k + 1, nodes@.len() as int); }
                return Err(CoverageError::DuplicateCounter);
            }
            let ghost before = counter_views(out@);
            out.push((kind, (missed, covered)));
            assert(counter_views(out@) =~= before.push((kind@, (missed, covered))));
        }
        k = k + 1;
    }
    Ok(out)
}

fn counter_or_zero_exec(counters: &Vec<(Vec<char>, (usize, usize))>, kind: &str) -> (res: (usize, usize))
    ensures
        res == counter_or_zero(counter_views(counters@), kind@),
{
    let k = crate::text::chars_of(kind);
    match find_counter(counters, &k) {
        Some(v) => v,
        None => (0, 0),
    }
}

fn same_pair(a: (usize, usize), b: (usize, usize)) -> (res: bool)
    ensures
        res == (a == b),
{
    a.0 == b.0 && a.1 == b.1
}

impl Counts {
    /// No counts at all.
    pub fn zero() -> (res: Counts)
        ensures
            res == zero(),
    {
        Counts { instruction: (0, 0), line: (0, 0), branch: (0, 0) }
    }

    /// Add `other` to these counts, failing on overflow.
    pub fn add(&mut self, other: Counts) -> (res: Result<(), CoverageError>)
        ensures
            match counts_sum(*old(self), other) {
                Some(c) => res is Ok && *final(self) == c,
                None => res == Err::<(), CoverageError>(CoverageError::Overflow),
            },
    {
        match self::add(&mut self.instruction, other.instruction) {
            Err(e) => return Err(e),
            Ok(()) => {},
        }
        match self::add(&mut self.line, other.line) {
            Err(e) => return Err(e),
            Ok(()) => {},
        }
        self::add(&mut self.branch, other.branch)
    }

    /// Check these counts against the summary counters of node `a`.
    pub fn validate(&self, nodes: &Vec<XmlNode>, a: usize) -> (res: Result<(), CoverageError>)
        ensures
            match summary_error(nodes@, a as int, *self) {
                Some(e) => res == Err::<(), CoverageError>(e),
                None => res is Ok,
            },
    {
        let counters = match counters_of(nodes, a) {
            Err(e) => return Err(e),
            Ok(c) => c,
        };
        if !same_pair(counter_or_zero_exec(&counters, "INSTRUCTION"), self.instruction) || !same_pair(
            counter_or_zero_exec(&counters, "LINE"),
            self.line,
        ) || !same_pair(counter_or_zero_exec(&counters, "BRANCH"), self.branch) {
            return Err(CoverageError::SummaryMismatch);
        }
        Ok(())
    }
}

} // verus!

verus! {

/// The path of JaCoCo source file `s`.
fn source_path_exec(nodes: &Vec<XmlNode>, s: usize) -> (res: Result<String, CoverageError>)
    requires
        s < nodes@.len(),
    ensures
        match source_path(nodes@, s as int) {
            Ok(p) => res matches Ok(v) && v@ == p,
            Err(e) => res == Err::<String, CoverageError>(e),
        },
{
    let p = match nodes[s].parent {
        Some(p) => p,
        None => return Err(CoverageError::SourceOutsidePackage),
    };
    if p >= nodes.len() || !crate::xml::is_tag(&nodes[p], "package") {
        return Err(CoverageError::SourceOutsidePackage);
    }
    let package = match crate::xml::attr(&nodes[p], "name") {
        None => return Err(CoverageError::MissingPackageName),
        Some(n) => n,
    };
    let name = match crate::xml::attr(&nodes[s], "name") {
        None => return Err(CoverageError::MissingSourceName),
        Some(n) => n,
    };
    let name_chars = crate::text::chars_of(name.as_str());
    if name_chars.len() == 0 {
        return Err(CoverageError::MissingSourceName);
    }
    let pb = package.as_str().as_bytes().len();
    let nb = name.as_str().as_bytes().len();
    if pb > MAX_PATH_BYTES || nb > MAX_PATH_BYTES - pb {
        return Err(CoverageError::PathTooLong);
    }
    let mut path = crate::text::chars_of(package.as_str());
    if path.len() == 0 {
        return Ok(crate::text::string_of(&name_chars));
    }
    path.push('/');
    crate::text::extend_chars(&mut path, &name_chars);
    proof {
        reveal_strlit("/");
    }
    assert(path@ =~= package@ + "/"@ + name@);
    Ok(crate::text::string_of(&path))
}

proof fn line_scan_error_persists(nodes: Seq<XmlNode>, s: int, file: Seq<char>, budget: int, m: int, n: int)
    requires
        m <= n,
        line_scan(nodes, s, file, budget, m) is Err,
    ensures
        line_scan(nodes, s, file, budget, n) == line_scan(nodes, s, file, budget, m),
    decreases n - m,
{
    if m < n {
        line_scan_error_persists(nodes, s, file, budget, m, n - 1);
    }
}

/// Whether `nr` occurs in `seen`.
fn seen_line(seen: &Vec<usize>, nr: usize) -> (res: bool)
    ensures
        res == seen@.contains(nr),
{
    let mut q: usize = 0;
    while q < seen.len()
        invariant
            0 <= q <= seen@.len(),
            forall|t: int| 0 <= t < q ==> seen@[t] != nr,
        decreases seen@.len() - q,
    {
        if seen[q] == nr {
            assert(seen@[q as int] == nr);
            return true;
        }
        q = q + 1;
    }
    false
}

/// Read one `line` record of source `file` into the progress so far.
fn read_record(
    node: &XmlNode,
    file: &String,
    budget: &mut usize,
    seen: &mut Vec<usize>,
    counts: &mut Counts,
    records: &mut Vec<(usize, u64, usize, usize)>,
) -> (res: Result<(), CoverageError>)
    ensures
        match read_line_record(
            *node,
            file@,
            LineProgress { budget: *old(budget) as int, seen: old(seen)@, counts: *old(counts), records: old(records)@ },
        ) {
            Ok(p) => res is Ok && p == (LineProgress {
                budget: *final(budget) as int,
                seen: final(seen)@,
                counts: *final(counts),
                records: final(records)@,
            }),
            Err(e) => res == Err::<(), CoverageError>(e),
        },
{
    match super::coverage_budget(budget, file.as_str()) {
        Err(e) => return Err(CoverageError::Budget(e)),
        Ok(()) => {},
    }
    let nr = match required(node, "nr") {
        Err(e) => return Err(e),
        Ok(v) => v,
    };
    if nr == 0 || seen_line(seen, nr) {
        return Err(CoverageError::InvalidLine);
    }
    let mi = match or_zero(node, "mi") {
        Err(e) => return Err(e),
        Ok(v) => v,
    };
    let ci = match or_zero(node, "ci") {
        Err(e) => return Err(e),
        Ok(v) => v,
    };
    let mb = match or_zero(node, "mb") {
        Err(e) => return Err(e),
        Ok(v) => v,
    };
    let cb = match or_zero(node, "cb") {
        Err(e) => return Err(e),
        Ok(v) => v,
    };
    if mi == 0 && ci == 0 {
        return Err(CoverageError::NoInstructions);
    }
    if ci == 0 && cb > 0 {
        return Err(CoverageError::ContradictoryBranches);
    }
    let line_pair: (usize, usize) = if ci == 0 { (1, 0) } else { (0, 1) };
    let contribution = Counts { instruction: (mi, ci), line: line_pair, branch: (mb, cb) };
    assert(contribution == line_contribution(mi, ci, mb, cb));
    match counts.add(contribution) {
        Err(e) => return Err(e),
        Ok(()) => {},
    }
    if mb > usize::MAX - cb {
        return Err(CoverageError::Overflow);
    }
    seen.push(nr);
    records.push((nr, ci as u64, mb + cb, cb));
    Ok(())
}

/// The line records of source `s`, in order: their rolled-up counts and their
/// (line, hits, branches, covered branches).
fn read_lines(nodes: &Vec<XmlNode>, s: usize, file: &String, budget: &mut usize) -> (res: Result<(Counts, Vec<(usize, u64, usize, usize)>), CoverageError>)
    ensures
        match line_scan(nodes@, s as int, file@, *old(budget) as int, nodes@.len() as int) {
            Ok(p) => res matches Ok(r) && r.0 == p.counts && r.1@ == p.records && *final(budget) == p.budget,
            Err(e) => res == Err::<(Counts, Vec<(usize, u64, usize, usize)>), CoverageError>(e),
        },
{
    let ghost start = *budget as int;
    let mut seen: Vec<usize> = Vec::new();
    let mut counts = Counts::zero();
    let mut records: Vec<(usize, u64, usize, usize)> = Vec::new();
    let mut k: usize = 0;
    while k < nodes.len()
        invariant
            0 <= k <= nodes@.len(),
            start == *old(budget) as int,
            line_scan(nodes@, s as int, file@, start, k as int) == Ok::<LineProgress, CoverageError>(
                LineProgress { budget: *budget as int, seen: seen@, counts, records: records@ },
            ),
        decreases nodes@.len() - k,
    {
        let node = &nodes[k];
        if node.parent == Some(s) && crate::xml::is_tag(node, "line") {
            match read_record(node, file, budget, &mut seen, &mut counts, &mut records) {
                Err(e) => {
                    proof {
                        line_scan_error_persists(nodes@, s as int, file@, start, k + 1, nodes@.len() as int);
                    }
                    return Err(e);
                },
                Ok(()) => {},
            }
        }
        k = k + 1;
    }
    Ok((counts, records))
}

proof fn roll_up_keeps_length(nodes: Seq<XmlNode>, a: int, depth: nat, totals: Seq<Counts>, c: Counts)
    ensures
        roll_up(nodes, a, depth, totals, c) matches Ok(t) ==> t.len() == totals.len(),
    decreases a,
{
    if !(a < 0 || a >= nodes.len() || a >= totals.len()) && summary_tag(nodes[a]) && depth + 1 <= 32 {
        if let Some(t) = counts_sum(totals[a], c) {
            if let Some(q) = nodes[a].parent {
                if q < a && nodes[q as int].kind == XmlKind::Element {
                    roll_up_keeps_length(nodes, q as int, depth + 1, totals.update(a, t), c);
                }
            }
        }
    }
}

/// Add `c` to the totals of element `a` and of every element above it.
fn roll_up_exec(nodes: &Vec<XmlNode>, a: usize, totals: &mut Vec<Counts>, c: Counts) -> (res: Result<(), CoverageError>)
    ensures
        match roll_up(nodes@, a as int, 0, old(totals)@, c) {
            Ok(t) => res is Ok && final(totals)@ == t,
            Err(e) => res == Err::<(), CoverageError>(e),
        },
{
    let ghost target = roll_up(nodes@, a as int, 0, totals@, c);
    let mut node = a;
    let mut depth: usize = 0;
    loop
        invariant
            depth <= 32,
            target == roll_up(nodes@, a as int, 0, old(totals)@, c),
            target == roll_up(nodes@, node as int, depth as nat, totals@, c),
        decreases node,
    {
        if node >= nodes.len() || node >= totals.len() {
            return Ok(());
        }
        if !(crate::xml::is_tag(&nodes[node], "report") || crate::xml::is_tag(&nodes[node], "package")
            || crate::xml::is_tag(&nodes[node], "group")) {
            return Err(CoverageError::InvalidHierarchy);
        }
        if depth + 1 > 32 {
            return Err(CoverageError::TooDeep);
        }
        let mut t = totals[node];
        match t.add(c) {
            Err(e) => return Err(e),
            Ok(()) => {},
        }
        totals.set(node, t);
        depth = depth + 1;
        match nodes[node].parent {
            Some(q) => if q < node && nodes[q].kind == XmlKind::Element {
                node = q;
            } else {
                return Ok(());
            },
            None => return Ok(()),
        }
    }
}

} // verus!

verus! {

/// Whether `f` is among `files`.
pub fn has_text(files: &Vec<String>, f: &String) -> (res: bool)
    ensures
        res == super::texts(files@).contains(f@),
{
    let fc = crate::text::chars_of(f.as_str());
    let mut i: usize = 0;
    while i < files.len()
        invariant
            0 <= i <= files@.len(),
            fc@ == f@,
            forall|k: int| 0 <= k < i ==> (#[trigger] files@[k])@ != f@,
        decreases files@.len() - i,
    {
        let c = crate::text::chars_of(files[i].as_str());
        if crate::text::chars_equal(&c, &fc) {
            assert(super::texts(files@)[i as int] == f@);
            return true;
        }
        i = i + 1;
    }
    proof {
        if super::texts(files@).contains(f@) {
            let k = choose|k: int| 0 <= k < super::texts(files@).len() && super::texts(files@)[k] == f@;
            assert(files@[k]@ == f@);
        }
    }
    false
}

proof fn jacoco_scan_error_persists(nodes: Seq<XmlNode>, root: int, m: int, n: int)
    requires
        m <= n,
        jacoco_scan(nodes, root, m) is Err,
    ensures
        jacoco_scan(nodes, root, n) == jacoco_scan(nodes, root, m),
    decreases n - m,
{
    if m < n {
        jacoco_scan_error_persists(nodes, root, m, n - 1);
    }
}

proof fn summary_error_persists(nodes: Seq<XmlNode>, root: int, totals: Seq<Counts>, m: int, n: int)
    requires
        m <= n,
        first_summary_error(nodes, root, totals, m) is Some,
    ensures
        first_summary_error(nodes, root, totals, n) == first_summary_error(nodes, root, totals, m),
    decreases n - m,
{
    if m < n {
        summary_error_persists(nodes, root, totals, m, n - 1);
    }
}

/// Read a JaCoCo report whose root element is `root`: every source file's lines
/// must match its counters, and every report, group and package must roll up exactly
/// the source files below it.
pub fn jacoco(nodes: &Vec<XmlNode>, root: usize) -> (res: Result<super::Data, CoverageError>)
    ensures
        jacoco_outcome(nodes@, root as int, res),
{
    let n = nodes.len();
    let mut totals: Vec<Counts> = Vec::new();
    while totals.len() < n
        invariant
            n == nodes@.len(),
            totals@.len() <= n,
            totals@ == Seq::new(totals@.len(), |i: int| zero()),
        decreases n - totals@.len(),
    {
        totals.push(Counts::zero());
        assert(totals@ =~= Seq::new(totals@.len(), |i: int| zero()));
    }
    let mut files: Vec<String> = Vec::new();
    let mut coverage: Vec<super::CoverageLine> = Vec::new();
    let mut budget: usize = COVERAGE_BUDGET;
    assert(super::texts(files@) =~= Seq::<Seq<char>>::empty());
    assert(coverage_records(coverage@) =~= Seq::<(Seq<char>, usize, u64, usize, usize)>::empty());
    let mut j: usize = 0;
    while j < n
        invariant
            0 <= j <= n,
            n == nodes@.len(),
            jacoco_scan(nodes@, root as int, j as int) == Ok::<JacocoProgress, CoverageError>(
                JacocoProgress {
                    files: super::texts(files@),
                    records: coverage_records(coverage@),
                    totals: totals@,
                    budget: budget as int,
                },
            ),
            totals@.len() == n,
            forall|i: int| 0 <= i < coverage@.len() ==> !(#[trigger] coverage@[i]).excluded,
        decreases n - j,
    {
        if crate::xml::is_within(nodes, j, root) && crate::xml::is_tag(&nodes[j], "sourcefile") {
            let ghost st = JacocoProgress {
                files: super::texts(files@),
                records: coverage_records(coverage@),
                totals: totals@,
                budget: budget as int,
            };
            let file = match source_path_exec(nodes, j) {
                Err(e) => {
                    proof { jacoco_scan_error_persists(nodes@, root as int, j + 1, n as int); }
                    return Err(e);
                },
                Ok(f) => f,
            };
            match super::coverage_budget(&mut budget, file.as_str()) {
                Err(e) => {
                    proof { jacoco_scan_error_persists(nodes@, root as int, j + 1, n as int); }
                    return Err(CoverageError::Budget(e));
                },
                Ok(()) => {},
            }
            if has_text(&files, &file) {
                proof { jacoco_scan_error_persists(nodes@, root as int, j + 1, n as int); }
                return Err(CoverageError::AmbiguousSource);
            }
            let (counts, records) = match read_lines(nodes, j, &file, &mut budget) {
                Err(e) => {
                    proof { jacoco_scan_error_persists(nodes@, root as int, j + 1, n as int); }
                    return Err(e);
                },
                Ok(r) => r,
            };
            match counts.validate(nodes, j) {
                Err(e) => {
                    proof { jacoco_scan_error_persists(nodes@, root as int, j + 1, n as int); }
                    return Err(e);
                },
                Ok(()) => {},
            }
            let parent = match nodes[j].parent {
                Some(p) => p,
                None => {
                    proof { jacoco_scan_error_persists(nodes@, root as int, j + 1, n as int); }
                    return Err(CoverageError::SourceOutsidePackage);
                },
            };
            proof {
                roll_up_keeps_length(nodes@, parent as int, 0, totals@, counts);
            }
            match roll_up_exec(nodes, parent, &mut totals, counts) {
                Err(e) => {
                    proof { jacoco_scan_error_persists(nodes@, root as int, j + 1, n as int); }
                    return Err(e);
                },
                Ok(()) => {},
            }
            let ghost files_before = files@;
            let ghost coverage_before = coverage@;
            files.push(file.clone());
            assert(super::texts(files@) =~= super::texts(files_before).push(file@));
            let mut q: usize = 0;
            while q < records.len()
                invariant
                    0 <= q <= records@.len(),
                    coverage_records(coverage@) == coverage_records(coverage_before) + with_path(
                        file@,
                        records@.subrange(0, q as int),
                    ),
                    forall|i: int| 0 <= i < coverage@.len() ==> !(#[trigger] coverage@[i]).excluded,
                decreases records@.len() - q,
            {
                let r = records[q];
                let ghost prior = coverage@;
                coverage.push(super::CoverageLine {
                    file: file.clone(),
                    line: r.0,
                    hits: r.1,
                    branches_found: r.2,
                    branches_hit: r.3,
                    excluded: false,
                });
                assert(coverage_records(coverage@) =~= coverage_records(prior).push((file@, r.0, r.1, r.2, r.3)));
                assert(with_path(file@, records@.subrange(0, q + 1)) =~= with_path(
                    file@,
                    records@.subrange(0, q as int),
                ).push((file@, r.0, r.1, r.2, r.3)));
                q = q + 1;
            }
            assert(records@.subrange(0, q as int) =~= records@);
        }
        j = j + 1;
    }
    if files.len() == 0 {
        return Err(CoverageError::NoSources);
    }
    let ghost scanned = JacocoProgress {
        files: super::texts(files@),
        records: coverage_records(coverage@),
        totals: totals@,
        budget: budget as int,
    };
    assert(scanned.files.len() > 0);
    let mut k: usize = 0;
    while k < n
        invariant
            0 <= k <= n,
            n == nodes@.len(),
            jacoco_scan(nodes@, root as int, n as int) == Ok::<JacocoProgress, CoverageError>(scanned),
            scanned.files.len() > 0,
            forall|q: int|
                0 <= q < k ==> !(within(nodes@, q, root as int) && has_tag(#[trigger] nodes@[q], "line"@) && !(
                nodes@[q].parent matches Some(p) && p < nodes@.len() && has_tag(nodes@[p as int], "sourcefile"@))),
        decreases n - k,
    {
        if crate::xml::is_within(nodes, k, root) && crate::xml::is_tag(&nodes[k], "line") {
            let inside = match nodes[k].parent {
                Some(p) => p < n && crate::xml::is_tag(&nodes[p], "sourcefile"),
                None => false,
            };
            if !inside {
                return Err(CoverageError::LineOutsideSource);
            }
        }
        k = k + 1;
    }
    let mut a: usize = 0;
    while a < n
        invariant
            0 <= a <= n,
            n == nodes@.len(),
            totals@.len() == n,
            jacoco_scan(nodes@, root as int, n as int) == Ok::<JacocoProgress, CoverageError>(scanned),
            scanned.files.len() > 0,
            scanned.totals == totals@,
            !stray_line(nodes@, root as int),
            first_summary_error(nodes@, root as int, totals@, a as int) is None,
        decreases n - a,
    {
        let node = &nodes[a];
        if crate::xml::is_within(nodes, a, root) && (crate::xml::is_tag(node, "report") || crate::xml::is_tag(
            node,
            "package",
        ) || crate::xml::is_tag(node, "group")) {
            match totals[a].validate(nodes, a) {
                Err(e) => {
                    proof { summary_error_persists(nodes@, root as int, totals@, a + 1, n as int); }
                    return Err(e);
                },
                Ok(()) => {},
            }
        }
        a = a + 1;
    }
    Ok(super::Data {
        issues: Vec::new(),
        tests: None,
        coverage,
        coverage_files: files,
        coverage_roots: Vec::new(),
        coverage_producer: None,
        branch_coverage: true,
        affected_files: None,
        sarif_runs: Vec::new(),
    })
}

} // verus!
